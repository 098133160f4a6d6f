//! Laws of calls with a peer, stated of what the peer sends and reads.

use vstd::prelude::*;
use vstd::utf8;

use crate::text;
use crate::trunk::dialog;
use crate::trunk::dialog::{DialogRole, DialogView, SipMethod, SipOutgoing};
use crate::trunk::dialog_laws;
use crate::trunk::sip_laws;
use crate::trunk::sip_msg;
use crate::trunk::sip_msg::{Field, ParseError, SipView};
use crate::trunk::util;

verus! {

/// Whether `s` can stand in a line, and in a start line.
pub open spec fn plain_word(s: Seq<char>) -> bool {
    sip_laws::one_line(s) && sip_laws::lacks(s, ' ')
}

/// Whether no text that a dialog holds for its headers breaks the line.
pub open spec fn one_line_fields(d: DialogView) -> bool {
    &&& sip_laws::one_line(d.local_addr)
    &&& sip_laws::one_line(d.sip_call_id)
    &&& sip_laws::one_line(d.local_tag)
    &&& sip_laws::one_line(d.local_from)
    &&& sip_laws::one_line(d.remote_tag)
    &&& sip_laws::one_line(d.remote_to)
}

// ── Where requests go ──

/// A request of a dialog that the peer's INVITE began is addressed to the user that the
/// peer's contact names, at the address that the INVITE came from, with the contact's
/// parameters.
pub proof fn law_answering_request_uri(
    out: SipOutgoing,
    d: DialogView,
    method: SipMethod,
    body: Seq<u8>,
    extra: Seq<Field>,
    user: Seq<char>,
    host: Seq<char>,
    params: Seq<char>,
)
    requires
        dialog::sends(out, d, method, body, extra),
        d.role == DialogRole::Uas,
        d.contact_uri == user + seq!['@'] + host + params,
        sip_laws::lacks(user, '@'),
        sip_laws::lacks(host, ';'),
        params.len() > 0 ==> params[0] == ';',
        plain_word(user),
        plain_word(params),
        plain_word(d.remote_addr),
        one_line_fields(d),
        dialog_laws::all_sendable(extra),
        body.len() <= usize::MAX,
    ensures
        out.addr@ == d.remote_addr,
        sip_msg::parse_spec(out.data@) is Ok,
        sip_msg::parse_spec(out.data@)->Ok_0.request_uri == user + seq!['@'] + d.remote_addr
            + params,
{
    reveal_strlit("@");
    assert("@"@ =~= seq!['@']);
    let uri = d.contact_uri;
    let n = user.len() as int;
    assert(uri[n] == '@');
    assert forall|j: int| 0 <= j < n implies #[trigger] uri[j] != '@' by {
        assert(uri[j] == user[j]);
    }
    text::lemma_find_char_is(uri, '@', n);
    let rest = host + params;
    assert(text::before(uri, n) =~= user);
    assert(text::after(uri, n + 1) =~= rest);
    let k = host.len() as int;
    assert forall|j: int| 0 <= j < k implies #[trigger] rest[j] != ';' by {
        assert(rest[j] == host[j]);
    }
    if params.len() > 0 {
        assert(rest[k] == ';');
        text::lemma_find_char_is(rest, ';', k);
        assert(text::after(rest, k) =~= params);
    } else {
        text::lemma_find_char_none(rest, ';');
        assert(params =~= Seq::empty());
    }
    let target = user + seq!['@'] + d.remote_addr + params;
    assert(dialog::request_target(d) =~= target);
    dialog_laws::lemma_one_line_joined(user, seq!['@'], d.remote_addr);
    lemma_one_line_params(user + seq!['@'] + d.remote_addr, params);
    assert forall|i: int| 0 <= i < target.len() implies #[trigger] target[i] != ' ' by {
        let m = n + 1 + d.remote_addr.len();
        if i < n {
            assert(target[i] == user[i]);
        } else if i > n && i < m {
            assert(target[i] == d.remote_addr[i - n - 1]);
        } else if i >= m {
            assert(target[i] == params[i - m]);
        }
    }
    lemma_sent(out, d, method, body, extra);
}

/// Without an at sign in it, a contact is what requests are addressed to.
pub proof fn law_plain_contact(
    out: SipOutgoing,
    d: DialogView,
    method: SipMethod,
    body: Seq<u8>,
    extra: Seq<Field>,
)
    requires
        dialog::sends(out, d, method, body, extra),
        d.role == DialogRole::Uac || sip_laws::lacks(d.contact_uri, '@'),
        plain_word(d.contact_uri),
        one_line_fields(d),
        dialog_laws::all_sendable(extra),
        body.len() <= usize::MAX,
    ensures
        sip_msg::parse_spec(out.data@) is Ok,
        sip_msg::parse_spec(out.data@)->Ok_0.request_uri == d.contact_uri,
{
    if d.role == DialogRole::Uas {
        text::lemma_find_char_none(d.contact_uri, '@');
    }
    lemma_sent(out, d, method, body, extra);
}

proof fn lemma_one_line_params(a: Seq<char>, params: Seq<char>)
    requires
        sip_laws::one_line(a),
        sip_laws::one_line(params),
        params.len() > 0 ==> params[0] == ';',
    ensures
        sip_laws::one_line(a + params),
{
    if params.len() > 0 {
        let tail = params.drop_first();
        sip_laws::lemma_part_one_line(params, 1, params.len() as int);
        assert(tail =~= params.subrange(1, params.len() as int));
        dialog_laws::lemma_one_line_joined(a, seq![';'], tail);
        assert(a + seq![';'] + tail =~= a + params);
    } else {
        assert(a + params =~= a);
    }
}

/// What the peer reads of a request, as far as its start line and its body go.
proof fn lemma_sent(
    out: SipOutgoing,
    d: DialogView,
    method: SipMethod,
    body: Seq<u8>,
    extra: Seq<Field>,
)
    requires
        dialog::sends(out, d, method, body, extra),
        plain_word(dialog::request_target(d)),
        one_line_fields(d),
        dialog_laws::all_sendable(extra),
        body.len() <= usize::MAX,
    ensures
        dialog_laws::one_line_requests(d),
        out.addr@ == d.remote_addr,
        exists|bytes: Seq<u8>|
            bytes.len() == 12 && ({
                let m = dialog::request_of(
                    d,
                    #[trigger] util::branch_of(bytes),
                    method,
                    body,
                    extra,
                );
                sip_msg::parse_spec(out.data@) == Ok::<SipView, ParseError>(
                    sip_laws::as_received(m),
                )
            }),
        sip_msg::parse_spec(out.data@) is Ok,
        ({
            let q = sip_msg::parse_spec(out.data@)->Ok_0;
            &&& q.method == dialog::method_text(method)
            &&& q.request_uri == dialog::request_target(d)
            &&& q.body == body
            &&& q.status_code == 0
        }),
{
    reveal_strlit(";tag=");
    dialog_laws::lemma_one_line_joined(d.local_from, ";tag="@, d.local_tag);
    dialog_laws::lemma_one_line_joined(d.remote_to, ";tag="@, d.remote_tag);
    let bytes = choose|bytes: Seq<u8>|
        bytes.len() == 12 && out.data@ == sip_msg::wire(
            dialog::request_of(d, #[trigger] util::branch_of(bytes), method, body, extra),
        );
    dialog_laws::lemma_branch_plain(bytes);
    dialog_laws::law_request_arrives(d, util::branch_of(bytes), method, body, extra);
}

// ── Key presses ──

/// The peer reads in the body of an INFO request, one to a line, the key and how long it
/// was pressed, and nothing after that.
pub proof fn law_key_press_lines(
    out: SipOutgoing,
    d: DialogView,
    digit: Seq<char>,
    duration_ms: u32,
)
    requires
        dialog::sends_key(out, d, digit, duration_ms),
        plain_word(dialog::request_target(d)),
        one_line_fields(d),
        sip_laws::one_line(digit),
        dialog::dtmf_body(digit, duration_ms).len() <= usize::MAX,
    ensures
        sip_msg::parse_spec(out.data@) is Ok,
        ({
            let q = sip_msg::parse_spec(out.data@)->Ok_0;
            let lines = text::split(utf8::decode_utf8(q.body), seq!['\r', '\n']);
            &&& q.method == seq!['I', 'N', 'F', 'O']
            &&& sip_msg::field_value(q.headers, "Content-Type"@) == "application/dtmf-relay"@
            &&& utf8::valid_utf8(q.body)
            &&& lines.len() == 3
            &&& lines[0] == seq!['S', 'i', 'g', 'n', 'a', 'l', '='] + digit
            &&& lines[1].len() > 9
            &&& lines[1].take(9) == seq!['D', 'u', 'r', 'a', 't', 'i', 'o', 'n', '=']
            &&& text::parse_decimal(lines[1].skip(9), u32::MAX as nat) == Some(duration_ms as nat)
            &&& lines[2] == Seq::<char>::empty()
        }),
{
    reveal_strlit("INFO");
    let extra = seq![("Content-Type"@, "application/dtmf-relay"@)];
    lemma_content_type();
    assert forall|i: int| 0 <= i < extra.len() implies sip_laws::sendable_field(
        #[trigger] extra[i],
    ) by {}
    let body = dialog::dtmf_body(digit, duration_ms);
    lemma_sent(out, d, SipMethod::Info, body, extra);
    lemma_extra_read(out, d, SipMethod::Info, body, extra, 0);
    assert("INFO"@ =~= seq!['I', 'N', 'F', 'O']);
    lemma_key_lines(digit, duration_ms);
}

proof fn lemma_key_lines(digit: Seq<char>, duration_ms: u32)
    requires
        sip_laws::one_line(digit),
    ensures
        ({
            let body = dialog::dtmf_body(digit, duration_ms);
            let lines = text::split(utf8::decode_utf8(body), seq!['\r', '\n']);
            &&& utf8::valid_utf8(body)
            &&& lines.len() == 3
            &&& lines[0] == seq!['S', 'i', 'g', 'n', 'a', 'l', '='] + digit
            &&& lines[1].len() > 9
            &&& lines[1].take(9) == seq!['D', 'u', 'r', 'a', 't', 'i', 'o', 'n', '=']
            &&& text::parse_decimal(lines[1].skip(9), u32::MAX as nat) == Some(duration_ms as nat)
            &&& lines[2] == Seq::<char>::empty()
        }),
{
    reveal_strlit("Signal=");
    reveal_strlit("\r\nDuration=");
    reveal_strlit("\r\n");
    sip_laws::lemma_crlf();
    let signal = seq!['S', 'i', 'g', 'n', 'a', 'l', '='];
    let duration = seq!['D', 'u', 'r', 'a', 't', 'i', 'o', 'n', '='];
    let number = text::decimal(duration_ms as nat);
    let none = Seq::<char>::empty();
    let crlf = sip_msg::crlf();
    let first = signal + digit;
    let second = duration + number;
    let all = first + crlf + (second + crlf + none);
    assert(all =~= "Signal="@ + digit + "\r\nDuration="@ + number + "\r\n"@);
    utf8::encode_utf8_valid_utf8(all);
    utf8::encode_utf8_decode_utf8(all);
    dialog_laws::lemma_empty_one_line();
    dialog_laws::lemma_one_line_joined(none, signal, digit);
    assert(none + signal + digit =~= first);
    text::lemma_decimal_value(duration_ms as nat);
    assert forall|i: int| 0 <= i < number.len() implies (#[trigger] number[i]) != '\r'
        && number[i] != '\n' by {
        assert(text::is_digit(number[i]));
    }
    dialog_laws::lemma_no_breaks(number);
    dialog_laws::lemma_one_line_joined(none, duration, number);
    assert(none + duration + number =~= second);
    let rest = second + crlf + none;
    lemma_split_line(first, rest);
    lemma_split_line(second, none);
    text::lemma_find_none(none, crlf, 0);
    assert(text::split(none, crlf) == seq![none]);
    assert(text::split(rest, crlf) =~= seq![second, none]);
    assert(text::split(all, crlf) =~= seq![first, second, none]);
    text::lemma_parse_decimal(duration_ms as nat, u32::MAX as nat);
    assert(second.take(9) =~= duration);
    assert(second.skip(9) =~= number);
}

/// A split at CRLF takes the first line off.
proof fn lemma_split_line(line: Seq<char>, rest: Seq<char>)
    requires
        sip_laws::one_line(line),
    ensures
        text::split(line + sip_msg::crlf() + rest, sip_msg::crlf()) == seq![line] + text::split(
            rest,
            sip_msg::crlf(),
        ),
{
    let s = line + sip_msg::crlf() + rest;
    let n = line.len() as int;
    sip_laws::lemma_crlf();
    sip_laws::lemma_first_break(line, rest);
    assert(text::before(s, n) =~= line);
    assert(text::after(s, n + 2) =~= rest);
}

proof fn lemma_content_type()
    ensures
        sip_laws::sendable_field(("Content-Type"@, "application/dtmf-relay"@)),
        sip_laws::sendable_field(("Content-Type"@, "application/sdp"@)),
        text::trim("application/dtmf-relay"@) == "application/dtmf-relay"@,
        text::trim("application/sdp"@) == "application/sdp"@,
        !text::eq_ignore_case(sip_msg::content_length(), "Content-Type"@),
{
    reveal_strlit("Content-Type");
    reveal_strlit("Content-Length");
    reveal_strlit("application/dtmf-relay");
    reveal_strlit("application/sdp");
    dialog_laws::lemma_no_breaks("Content-Type"@);
    dialog_laws::lemma_no_breaks("application/dtmf-relay"@);
    dialog_laws::lemma_no_breaks("application/sdp"@);
    text::lemma_trim_idle("application/dtmf-relay"@);
    text::lemma_trim_idle("application/sdp"@);
    assert(sip_msg::content_length().len() != "Content-Type"@.len());
}

/// The peer reads each extra header, the last of those of one name, save for white space
/// around its value.
proof fn lemma_extra_read(
    out: SipOutgoing,
    d: DialogView,
    method: SipMethod,
    body: Seq<u8>,
    extra: Seq<Field>,
    k: int,
)
    requires
        dialog::sends(out, d, method, body, extra),
        plain_word(dialog::request_target(d)),
        one_line_fields(d),
        dialog_laws::all_sendable(extra),
        body.len() <= usize::MAX,
        0 <= k < extra.len(),
        !text::eq_ignore_case(sip_msg::content_length(), extra[k].0),
        forall|i: int|
            k < i < extra.len() ==> !text::eq_ignore_case((#[trigger] extra[i]).0, extra[k].0),
    ensures
        sip_msg::parse_spec(out.data@) is Ok,
        sip_msg::field_value(sip_msg::parse_spec(out.data@)->Ok_0.headers, extra[k].0)
            == text::trim(extra[k].1),
{
    lemma_sent(out, d, method, body, extra);
    let bytes = choose|bytes: Seq<u8>|
        bytes.len() == 12 && ({
            let m = dialog::request_of(d, #[trigger] util::branch_of(bytes), method, body, extra);
            sip_msg::parse_spec(out.data@) == Ok::<SipView, ParseError>(sip_laws::as_received(m))
        });
    let m = dialog::request_of(d, util::branch_of(bytes), method, body, extra);
    sip_laws::law_wire_keeps_headers(m, extra[k].0);
    lemma_extra_set(dialog::request_fields(d, method, util::branch_of(bytes)), extra, k);
}

proof fn lemma_extra_set(fields: Seq<Field>, extra: Seq<Field>, k: int)
    requires
        0 <= k < extra.len(),
        forall|i: int|
            k < i < extra.len() ==> !text::eq_ignore_case((#[trigger] extra[i]).0, extra[k].0),
    ensures
        sip_msg::field_value(dialog::with_fields(fields, extra), extra[k].0) == extra[k].1,
    decreases extra.len(),
{
    let shorter = extra.drop_last();
    let last = extra.last();
    sip_laws::law_set_header(
        dialog::with_fields(fields, shorter),
        last.0,
        last.1,
        extra[k].0,
    );
    if k < extra.len() - 1 {
        assert forall|i: int| k < i < shorter.len() implies !text::eq_ignore_case(
            (#[trigger] shorter[i]).0,
            shorter[k].0,
        ) by {
            assert(shorter[i] == extra[i]);
        }
        lemma_extra_set(fields, shorter, k);
        assert(!text::eq_ignore_case(extra[extra.len() - 1].0, extra[k].0));
    }
}

// ── Header values ──

/// The URI of a header value is what stands in angle brackets, whatever comes before and
/// after.
pub proof fn law_uri_in_brackets(prefix: Seq<char>, uri: Seq<char>, rest: Seq<char>)
    requires
        sip_laws::lacks(prefix, '<'),
        sip_laws::lacks(uri, '>'),
    ensures
        dialog::bare_uri(prefix + seq!['<'] + uri + seq!['>'] + rest) == uri,
{
    let value = prefix + seq!['<'] + uri + seq!['>'] + rest;
    let n = prefix.len() as int;
    assert forall|j: int| 0 <= j < n implies #[trigger] value[j] != '<' by {
        assert(value[j] == prefix[j]);
    }
    assert(value[n] == '<');
    text::lemma_find_char_is(value, '<', n);
    let tail = text::after(value, n);
    let k = uri.len() as int + 1;
    assert forall|j: int| 0 <= j < k implies #[trigger] tail[j] != '>' by {
        if j > 0 {
            assert(tail[j] == uri[j - 1]);
        }
    }
    assert(tail[k] == '>');
    text::lemma_find_char_is(tail, '>', k);
    assert(value.subrange(n + 1, n + k) =~= uri);
}

/// Without brackets the URI of a header value is all of it, save for white space around it.
pub proof fn law_uri_without_brackets(pre: Seq<char>, uri: Seq<char>, post: Seq<char>)
    requires
        forall|i: int| 0 <= i < pre.len() ==> text::is_whitespace(#[trigger] pre[i]),
        forall|i: int| 0 <= i < post.len() ==> text::is_whitespace(#[trigger] post[i]),
        uri.len() > 0,
        !text::is_whitespace(uri[0]),
        !text::is_whitespace(uri.last()),
        sip_laws::lacks(uri, '<'),
    ensures
        dialog::bare_uri(pre + uri + post) == uri,
{
    let value = pre + uri + post;
    assert forall|j: int| 0 <= j < value.len() implies #[trigger] value[j] != '<' by {
        if j < pre.len() {
            assert(value[j] == pre[j]);
        } else if j < pre.len() + uri.len() {
            assert(value[j] == uri[j - pre.len()]);
        } else {
            assert(value[j] == post[j - pre.len() - uri.len()]);
        }
    }
    text::lemma_find_char_none(value, '<');
    text::law_trim(pre, uri, post);
}

/// The name and the equals sign that a tag follows.
pub open spec fn tag_mark() -> Seq<char> {
    seq!['t', 'a', 'g', '=']
}

/// Whether a value names no tag.
pub open spec fn untagged(value: Seq<char>) -> bool {
    forall|i: int| !#[trigger] text::occurs_at(value, tag_mark(), i)
}

/// Whether a tag can be told from what follows it: no semicolon, comma or white space in it.
pub open spec fn whole_tag(tag: Seq<char>) -> bool {
    forall|i: int|
        0 <= i < tag.len() ==> (#[trigger] tag[i]) != ';' && tag[i] != ',' && !text::is_whitespace(
            tag[i],
        )
}

proof fn lemma_tag_mark()
    ensures
        "tag="@ == tag_mark(),
        ";tag="@ == seq![';'] + tag_mark(),
{
    reveal_strlit("tag=");
    reveal_strlit(";tag=");
    assert("tag="@ =~= tag_mark());
    assert(";tag="@ =~= seq![';'] + tag_mark());
}

/// The tag of a value is what follows its first `tag=`, up to a semicolon, a comma or white
/// space. A value without `tag=` has none.
pub proof fn law_tag(value: Seq<char>, tag: Seq<char>, rest: Seq<char>)
    requires
        untagged(value),
        whole_tag(tag),
        rest.len() > 0 ==> rest[0] == ';' || rest[0] == ',' || text::is_whitespace(rest[0]),
    ensures
        dialog::tag_of(value + seq![';'] + tag_mark() + tag + rest) == Some(tag),
        dialog::tag_of(value) is None,
{
    lemma_tag_mark();
    let pat = tag_mark();
    text::lemma_find_none(value, pat, 0);
    let whole = value + seq![';'] + pat + tag + rest;
    let n = value.len() as int;
    assert(whole.subrange(n + 1, n + 5) =~= pat);
    assert forall|j: int| 0 <= j < n + 1 implies !text::occurs_at(whole, pat, j) by {
        if text::occurs_at(whole, pat, j) {
            let here = whole.subrange(j, j + 4);
            if j + 4 <= n {
                assert(here =~= value.subrange(j, j + 4));
                assert(text::occurs_at(value, pat, j));
            } else {
                assert(here[n - j] == ';');
                assert(pat[n - j] != ';');
            }
        }
    }
    text::lemma_find_is(whole, pat, 0, n + 1);
    assert(text::after(whole, n + 5) =~= tag + rest);
    lemma_until_rest(tag, rest);
}

proof fn lemma_until_rest(tag: Seq<char>, rest: Seq<char>)
    requires
        whole_tag(tag),
        rest.len() > 0 ==> rest[0] == ';' || rest[0] == ',' || text::is_whitespace(rest[0]),
    ensures
        dialog::until_tag_end(tag + rest) == tag,
    decreases tag.len(),
{
    let s = tag + rest;
    if tag.len() == 0 {
        assert(s =~= rest);
        assert(dialog::until_tag_end(s) =~= tag);
    } else {
        let t = tag.drop_first();
        assert forall|i: int| 0 <= i < t.len() implies (#[trigger] t[i]) != ';' && t[i] != ','
            && !text::is_whitespace(t[i]) by {
            assert(t[i] == tag[i + 1]);
        }
        lemma_until_rest(t, rest);
        assert(s[0] == tag[0]);
        assert(s.drop_first() =~= t + rest);
        assert(seq![tag[0]] + t =~= tag);
    }
}

/// A tag is put behind a value that has none, and reads back; a value that has one, or that
/// there is no tag for, stays as it was.
pub proof fn law_append_tag(value: Seq<char>, tag: Seq<char>)
    ensures
        untagged(value) && tag.len() > 0 ==> dialog::with_tag(value, tag) == value + seq![';']
            + tag_mark() + tag,
        untagged(value) && tag.len() > 0 && whole_tag(tag) ==> dialog::tag_of(
            dialog::with_tag(value, tag),
        ) == Some(tag),
        !untagged(value) ==> dialog::with_tag(value, tag) == value,
        tag.len() == 0 ==> dialog::with_tag(value, tag) == value,
{
    lemma_tag_mark();
    text::lemma_find_from(value, tag_mark(), 0);
    lemma_untagged(value);
    let none = Seq::<char>::empty();
    let tagged = value + seq![';'] + tag_mark() + tag;
    if untagged(value) {
        assert(value + ";tag="@ + tag =~= tagged);
        if whole_tag(tag) {
            law_tag(value, tag, none);
            assert(tagged + none =~= tagged);
        }
    }
}

proof fn lemma_untagged(value: Seq<char>)
    ensures
        untagged(value) <==> text::find(value, "tag="@) is None,
{
    lemma_tag_mark();
    text::lemma_find_from(value, tag_mark(), 0);
    if untagged(value) {
        text::lemma_find_none(value, tag_mark(), 0);
    } else {
        let i = choose|i: int| text::occurs_at(value, tag_mark(), i);
        assert(text::occurs_at(value, tag_mark(), i));
    }
}

/// A call goes to the URI that its To names, in brackets or without, or, where that has no
/// scheme, to the user of that name at the peer.
pub proof fn law_called_uri(
    prefix: Seq<char>,
    uri: Seq<char>,
    rest: Seq<char>,
    remote_addr: Seq<char>,
    secure: bool,
)
    requires
        sip_laws::lacks(prefix, '<'),
        sip_laws::lacks(uri, '>'),
    ensures
        ({
            let s = sip_laws::scheme(secure);
            dialog::called_uri(prefix + seq!['<'] + (s + uri) + seq!['>'] + rest, remote_addr) == s
                + uri
        }),
        sip_laws::lacks(uri, ':') ==> dialog::called_uri(
            prefix + seq!['<'] + uri + seq!['>'] + rest,
            remote_addr,
        ) == seq!['s', 'i', 'p', ':'] + uri + seq!['@'] + remote_addr,
{
    reveal_strlit("sip:");
    reveal_strlit("sips:");
    reveal_strlit("@");
    let s = sip_laws::scheme(secure);
    let full = s + uri;
    assert forall|i: int| 0 <= i < full.len() implies #[trigger] full[i] != '>' by {
        if i >= s.len() {
            assert(full[i] == uri[i - s.len()]);
        }
    }
    law_uri_in_brackets(prefix, full, rest);
    law_uri_in_brackets(prefix, uri, rest);
    if secure {
        assert(full.subrange(0, 5) =~= "sips:"@);
    } else {
        assert(full.subrange(0, 4) =~= "sip:"@);
    }
    if sip_laws::lacks(uri, ':') {
        if text::starts_with(uri, "sip:"@) {
            assert(uri.subrange(0, 4)[3] == uri[3]);
        }
        if text::starts_with(uri, "sips:"@) {
            assert(uri.subrange(0, 5)[4] == uri[4]);
        }
        assert(dialog::called_uri(prefix + seq!['<'] + uri + seq!['>'] + rest, remote_addr)
            =~= seq!['s', 'i', 'p', ':'] + uri + seq!['@'] + remote_addr);
    }
}

/// A CSeq value, a number, a space and a method, reads back as both; one without a space
/// reads as nothing.
pub proof fn law_cseq_value(pre: Seq<char>, number: nat, method: Seq<char>, post: Seq<char>)
    requires
        number <= u32::MAX,
        forall|i: int| 0 <= i < pre.len() ==> text::is_whitespace(#[trigger] pre[i]),
        forall|i: int| 0 <= i < post.len() ==> text::is_whitespace(#[trigger] post[i]),
        method.len() > 0,
        !text::is_whitespace(method.last()),
    ensures
        sip_msg::cseq_of(pre + (text::decimal(number) + seq![' '] + method) + post) == (
            number,
            method,
        ),
        sip_laws::lacks(method, ' ') ==> sip_msg::cseq_of(method) == (
            0nat,
            Seq::<char>::empty(),
        ),
{
    let digits = text::decimal(number);
    let value = digits + seq![' '] + method;
    text::lemma_decimal_value(number);
    text::lemma_parse_decimal(number, u32::MAX as nat);
    assert(value[0] == digits[0] && text::is_digit(digits[0]));
    assert(value.last() == method.last());
    text::law_trim(pre, value, post);
    let n = digits.len() as int;
    assert forall|j: int| 0 <= j < n implies #[trigger] value[j] != ' ' by {
        assert(text::is_digit(digits[j]));
    }
    text::lemma_find_char_is(value, ' ', n);
    assert(text::before(value, n) =~= digits);
    assert(text::after(value, n + 1) =~= method);
    if sip_laws::lacks(method, ' ') {
        let (a, b) = text::lemma_trim_part(method);
        let t = text::trim(method);
        assert forall|j: int| 0 <= j < t.len() implies #[trigger] t[j] != ' ' by {
            assert(t[j] == method[a + j]);
        }
        text::lemma_find_char_none(t, ' ');
    }
}

/// Pieces with semicolons between them.
pub open spec fn semicolons(pieces: Seq<Seq<char>>) -> Seq<char>
    decreases pieces.len(),
{
    if pieces.len() == 0 {
        Seq::empty()
    } else if pieces.len() == 1 {
        pieces[0]
    } else {
        pieces[0] + seq![';'] + semicolons(pieces.drop_first())
    }
}

/// Whether a piece of a header value gives this parameter: its name in any case and an
/// equals sign, with or without white space before.
pub open spec fn gives(piece: Seq<char>, param: Seq<char>) -> bool {
    let t = text::trim(piece);
    t.len() > param.len() && t[param.len() as int] == '=' && text::eq_ignore_case(
        t.take(param.len() as int),
        param,
    )
}

/// A parameter of a header value is what follows its name, in any case, and an equals sign
/// in the first of the pieces between semicolons that gives it, up to a comma, white space
/// or a closing bracket.
pub proof fn law_param(
    pieces: Seq<Seq<char>>,
    k: int,
    param: Seq<char>,
    pre: Seq<char>,
    name: Seq<char>,
    value: Seq<char>,
    rest: Seq<char>,
)
    requires
        0 <= k < pieces.len(),
        forall|i: int| 0 <= i < pieces.len() ==> sip_laws::lacks(#[trigger] pieces[i], ';'),
        forall|i: int| 0 <= i < k ==> !gives(#[trigger] pieces[i], param),
        pieces[k] == pre + (name + seq!['='] + value + rest),
        forall|i: int| 0 <= i < pre.len() ==> text::is_whitespace(#[trigger] pre[i]),
        text::eq_ignore_case(name, param),
        name.len() > 0,
        !text::is_whitespace(name[0]),
        forall|i: int|
            0 <= i < value.len() ==> (#[trigger] value[i]) != ',' && value[i] != '>'
                && !text::is_whitespace(value[i]),
        rest.len() > 0 ==> rest[0] == ',' || rest[0] == '>' || rest[0] == ' ' || rest[0] == '\t',
    ensures
        sip_msg::param_of(semicolons(pieces), param) == value,
{
    lemma_split_semicolons(pieces);
    lemma_first_giving(pieces, k, param, pre, name, value, rest);
}

/// A parameter that none of the pieces gives is empty.
pub proof fn law_no_param(pieces: Seq<Seq<char>>, param: Seq<char>)
    requires
        pieces.len() > 0,
        forall|i: int| 0 <= i < pieces.len() ==> sip_laws::lacks(#[trigger] pieces[i], ';'),
        forall|i: int| 0 <= i < pieces.len() ==> !gives(#[trigger] pieces[i], param),
    ensures
        sip_msg::param_of(semicolons(pieces), param).len() == 0,
{
    lemma_split_semicolons(pieces);
    lemma_none_giving(pieces, param);
}

proof fn lemma_none_giving(pieces: Seq<Seq<char>>, param: Seq<char>)
    requires
        forall|i: int| 0 <= i < pieces.len() ==> !gives(#[trigger] pieces[i], param),
    ensures
        sip_msg::pieces_param(pieces, param).len() == 0,
    decreases pieces.len(),
{
    if pieces.len() > 0 {
        assert(!gives(pieces[0], param));
        lemma_gives(pieces[0], param);
        let tail = pieces.drop_first();
        assert forall|i: int| 0 <= i < tail.len() implies !gives(#[trigger] tail[i], param) by {
            assert(tail[i] == pieces[i + 1]);
        }
        lemma_none_giving(tail, param);
    }
}

proof fn lemma_split_semicolons(pieces: Seq<Seq<char>>)
    requires
        pieces.len() > 0,
        forall|i: int| 0 <= i < pieces.len() ==> sip_laws::lacks(#[trigger] pieces[i], ';'),
    ensures
        text::split(semicolons(pieces), seq![';']) == pieces,
    decreases pieces.len(),
{
    let s = semicolons(pieces);
    assert(sip_laws::lacks(pieces[0], ';'));
    if pieces.len() == 1 {
        dialog_laws::lemma_no_piece(s, ';');
        assert(seq![s] =~= pieces);
    } else {
        let rest = pieces.drop_first();
        assert forall|i: int| 0 <= i < rest.len() implies sip_laws::lacks(
            #[trigger] rest[i],
            ';',
        ) by {
            assert(rest[i] == pieces[i + 1]);
        }
        lemma_split_semicolons(rest);
        let n = pieces[0].len() as int;
        assert forall|j: int| 0 <= j < n implies #[trigger] s[j] != ';' by {
            assert(s[j] == pieces[0][j]);
        }
        assert(s[n] == ';');
        dialog_laws::lemma_piece_at(s, ';', n);
        assert(text::before(s, n) =~= pieces[0]);
        assert(text::after(s, n + 1) =~= semicolons(rest));
        assert(seq![pieces[0]] + rest =~= pieces);
    }
}

proof fn lemma_first_giving(
    pieces: Seq<Seq<char>>,
    k: int,
    param: Seq<char>,
    pre: Seq<char>,
    name: Seq<char>,
    value: Seq<char>,
    rest: Seq<char>,
)
    requires
        0 <= k < pieces.len(),
        forall|i: int| 0 <= i < k ==> !gives(#[trigger] pieces[i], param),
        pieces[k] == pre + (name + seq!['='] + value + rest),
        forall|i: int| 0 <= i < pre.len() ==> text::is_whitespace(#[trigger] pre[i]),
        text::eq_ignore_case(name, param),
        name.len() > 0,
        !text::is_whitespace(name[0]),
        forall|i: int|
            0 <= i < value.len() ==> (#[trigger] value[i]) != ',' && value[i] != '>'
                && !text::is_whitespace(value[i]),
        rest.len() > 0 ==> rest[0] == ',' || rest[0] == '>' || rest[0] == ' ' || rest[0] == '\t',
    ensures
        sip_msg::pieces_param(pieces, param) == value,
    decreases pieces.len(),
{
    lemma_gives(pieces[0], param);
    if k == 0 {
        lemma_piece_value(pieces[0], param, pre, name, value, rest);
    } else {
        assert(!gives(pieces[0], param));
        let tail = pieces.drop_first();
        assert forall|i: int| 0 <= i < k - 1 implies !gives(#[trigger] tail[i], param) by {
            assert(tail[i] == pieces[i + 1]);
        }
        lemma_first_giving(tail, k - 1, param, pre, name, value, rest);
    }
}

proof fn lemma_gives(piece: Seq<char>, param: Seq<char>)
    ensures
        gives(piece, param) <==> sip_msg::piece_param(piece, param) is Some,
{
    let t = text::trim(piece);
    let n = param.len() as int;
    let want = param.push('=');
    if t.len() > n {
        let have = text::before(t, n + 1);
        assert(have =~= t.take(n).push(t[n]));
        if text::eq_ignore_case(have, want) {
            assert(text::lower(have[n]) == text::lower(want[n]));
            assert(have[n] == '=');
            assert forall|i: int| 0 <= i < n implies text::lower(#[trigger] t.take(n)[i])
                == text::lower(param[i]) by {
                assert(text::lower(have[i]) == text::lower(want[i]));
            }
        }
        if gives(piece, param) {
            assert forall|i: int| 0 <= i < n + 1 implies text::lower(#[trigger] have[i])
                == text::lower(want[i]) by {
                if i < n {
                    assert(text::lower(t.take(n)[i]) == text::lower(param[i]));
                }
            }
        }
    }
}

proof fn lemma_piece_value(
    piece: Seq<char>,
    param: Seq<char>,
    pre: Seq<char>,
    name: Seq<char>,
    value: Seq<char>,
    rest: Seq<char>,
)
    requires
        piece == pre + (name + seq!['='] + value + rest),
        forall|i: int| 0 <= i < pre.len() ==> text::is_whitespace(#[trigger] pre[i]),
        text::eq_ignore_case(name, param),
        name.len() > 0,
        !text::is_whitespace(name[0]),
        forall|i: int|
            0 <= i < value.len() ==> (#[trigger] value[i]) != ',' && value[i] != '>'
                && !text::is_whitespace(value[i]),
        rest.len() > 0 ==> rest[0] == ',' || rest[0] == '>' || rest[0] == ' ' || rest[0] == '\t',
    ensures
        sip_msg::piece_param(piece, param) == Some(value),
{
    let body = name + seq!['='] + value + rest;
    let n = name.len() as int;
    let m = n + 1 + value.len();
    lemma_trim_start_white(pre, body);
    assert(body[0] == name[0]);
    assert(text::trim_start(body) == body);
    if value.len() > 0 {
        assert(body[m - 1] == value.last());
    } else {
        assert(body[m - 1] == '=');
    }
    let b = lemma_trim_end_from(body, m);
    let t = text::trim(piece);
    assert(t == body.take(b));
    assert(t.take(n) =~= name);
    assert(t[n] == '=');
    lemma_gives(piece, param);
    let after = text::after(t, n + 1);
    let k = value.len() as int;
    let ends = sip_msg::param_ends();
    assert(ends[0] == ',' && ends[1] == ' ' && ends[2] == '\t' && ends[3] == '>');
    assert forall|j: int| 0 <= j < k implies !ends.contains(#[trigger] after[j]) by {
        assert(after[j] == value[j]);
    }
    if b > m {
        assert(after[k] == rest[0]);
        assert(ends.contains(after[k]));
        text::lemma_find_any_is(after, ends, 0, k);
        assert(text::before(after, k) =~= value);
    } else {
        assert(after =~= value);
        text::lemma_find_any_none(after, ends, 0);
    }
}

proof fn lemma_trim_start_white(pre: Seq<char>, s: Seq<char>)
    requires
        forall|i: int| 0 <= i < pre.len() ==> text::is_whitespace(#[trigger] pre[i]),
    ensures
        text::trim_start(pre + s) == text::trim_start(s),
    decreases pre.len(),
{
    if pre.len() == 0 {
        assert(pre + s =~= s);
    } else {
        let rest = pre.drop_first();
        assert forall|i: int| 0 <= i < rest.len() implies text::is_whitespace(
            #[trigger] rest[i],
        ) by {
            assert(rest[i] == pre[i + 1]);
        }
        assert(text::is_whitespace(pre[0]));
        assert((pre + s)[0] == pre[0]);
        assert((pre + s).drop_first() =~= rest + s);
        lemma_trim_start_white(rest, s);
    }
}

/// Trimming the end keeps everything up to a character that is no white space.
proof fn lemma_trim_end_from(s: Seq<char>, m: int) -> (b: int)
    requires
        0 < m <= s.len(),
        !text::is_whitespace(s[m - 1]),
    ensures
        m <= b <= s.len(),
        text::trim_end(s) == s.take(b),
    decreases s.len(),
{
    if text::is_whitespace(s.last()) {
        let b = lemma_trim_end_from(s.drop_last(), m);
        assert(s.drop_last().take(b) =~= s.take(b));
        b
    } else {
        assert(s.take(s.len() as int) =~= s);
        s.len() as int
    }
}

// ── Requests ──

/// The peer reads every request of a dialog with the method, the body and the extra headers
/// that it was made with; of extra headers of one name, the last.
pub proof fn law_request_content(
    out: SipOutgoing,
    d: DialogView,
    method: SipMethod,
    body: Seq<u8>,
    extra: Seq<Field>,
    k: int,
)
    requires
        dialog::sends(out, d, method, body, extra),
        plain_word(dialog::request_target(d)),
        one_line_fields(d),
        dialog_laws::all_sendable(extra),
        body.len() <= usize::MAX,
        0 <= k < extra.len(),
        !text::eq_ignore_case("Content-Length"@, extra[k].0),
        forall|i: int|
            k < i < extra.len() ==> !text::eq_ignore_case((#[trigger] extra[i]).0, extra[k].0),
    ensures
        sip_msg::parse_spec(out.data@) is Ok,
        ({
            let q = sip_msg::parse_spec(out.data@)->Ok_0;
            &&& q.status_code == 0
            &&& q.method == dialog::method_text(method)
            &&& q.body == body
            &&& sip_msg::field_value(q.headers, extra[k].0) == text::trim(extra[k].1)
        }),
{
    lemma_sent(out, d, method, body, extra);
    lemma_extra_read(out, d, method, body, extra, k);
}

/// The methods by their names.
pub proof fn law_method_names()
    ensures
        dialog::method_text(SipMethod::Invite) == seq!['I', 'N', 'V', 'I', 'T', 'E'],
        dialog::method_text(SipMethod::Ack) == seq!['A', 'C', 'K'],
        dialog::method_text(SipMethod::Bye) == seq!['B', 'Y', 'E'],
        dialog::method_text(SipMethod::Cancel) == seq!['C', 'A', 'N', 'C', 'E', 'L'],
        dialog::method_text(SipMethod::Options) == seq!['O', 'P', 'T', 'I', 'O', 'N', 'S'],
        dialog::method_text(SipMethod::Refer) == seq!['R', 'E', 'F', 'E', 'R'],
        dialog::method_text(SipMethod::Info) == seq!['I', 'N', 'F', 'O'],
{
    reveal_strlit("INVITE");
    reveal_strlit("ACK");
    reveal_strlit("BYE");
    reveal_strlit("CANCEL");
    reveal_strlit("OPTIONS");
    reveal_strlit("REFER");
    reveal_strlit("INFO");
    assert("INVITE"@ =~= seq!['I', 'N', 'V', 'I', 'T', 'E']);
    assert("ACK"@ =~= seq!['A', 'C', 'K']);
    assert("BYE"@ =~= seq!['B', 'Y', 'E']);
    assert("CANCEL"@ =~= seq!['C', 'A', 'N', 'C', 'E', 'L']);
    assert("OPTIONS"@ =~= seq!['O', 'P', 'T', 'I', 'O', 'N', 'S']);
    assert("REFER"@ =~= seq!['R', 'E', 'F', 'E', 'R']);
    assert("INFO"@ =~= seq!['I', 'N', 'F', 'O']);
}

/// Hanging up is a BYE without a body, and withdrawing an INVITE a CANCEL without one.
pub proof fn law_hanging_up(bye: SipOutgoing, cancel: SipOutgoing, d: DialogView)
    requires
        dialog::sends_bye(bye, d),
        dialog::sends_cancel(cancel, d),
        plain_word(dialog::request_target(d)),
        one_line_fields(d),
    ensures
        bye.addr@ == d.remote_addr,
        cancel.addr@ == d.remote_addr,
        sip_msg::parse_spec(bye.data@) matches Ok(q) && q.method == seq!['B', 'Y', 'E']
            && q.body.len() == 0,
        sip_msg::parse_spec(cancel.data@) matches Ok(q) && q.method == seq![
            'C',
            'A',
            'N',
            'C',
            'E',
            'L',
        ] && q.body.len() == 0,
{
    law_method_names();
    lemma_sent(bye, d, SipMethod::Bye, Seq::empty(), Seq::empty());
    lemma_sent(cancel, d, SipMethod::Cancel, Seq::empty(), Seq::empty());
}

/// A new offer is an INVITE whose body is the session description, and says so.
pub proof fn law_reinvite(out: SipOutgoing, d: DialogView, sdp: Seq<u8>)
    requires
        dialog::sends_reinvite(out, d, sdp),
        plain_word(dialog::request_target(d)),
        one_line_fields(d),
        sdp.len() <= usize::MAX,
    ensures
        out.addr@ == d.remote_addr,
        sip_msg::parse_spec(out.data@) is Ok,
        ({
            let q = sip_msg::parse_spec(out.data@)->Ok_0;
            &&& q.method == seq!['I', 'N', 'V', 'I', 'T', 'E']
            &&& q.body == sdp
            &&& sip_msg::field_value(q.headers, "Content-Type"@) == "application/sdp"@
        }),
{
    law_method_names();
    lemma_content_type();
    let extra = seq![("Content-Type"@, "application/sdp"@)];
    assert forall|i: int| 0 <= i < extra.len() implies sip_laws::sendable_field(
        #[trigger] extra[i],
    ) by {}
    lemma_sent(out, d, SipMethod::Invite, sdp, extra);
    lemma_extra_read(out, d, SipMethod::Invite, sdp, extra, 0);
}

/// A transfer is a REFER without a body whose Refer-To names the target.
pub proof fn law_transfer(out: SipOutgoing, d: DialogView, target: Seq<char>)
    requires
        dialog::sends_refer(out, d, target),
        plain_word(dialog::request_target(d)),
        one_line_fields(d),
        sip_laws::one_line(target),
    ensures
        out.addr@ == d.remote_addr,
        sip_msg::parse_spec(out.data@) is Ok,
        ({
            let q = sip_msg::parse_spec(out.data@)->Ok_0;
            &&& q.method == seq!['R', 'E', 'F', 'E', 'R']
            &&& q.body.len() == 0
            &&& sip_msg::field_value(q.headers, "Refer-To"@) == text::trim(target)
        }),
{
    law_method_names();
    reveal_strlit("Refer-To");
    reveal_strlit("Content-Length");
    dialog_laws::lemma_no_breaks("Refer-To"@);
    assert(sip_msg::content_length().len() != "Refer-To"@.len());
    let extra = seq![("Refer-To"@, target)];
    assert forall|i: int| 0 <= i < extra.len() implies sip_laws::sendable_field(
        #[trigger] extra[i],
    ) by {}
    lemma_sent(out, d, SipMethod::Refer, Seq::empty(), extra);
    lemma_extra_read(out, d, SipMethod::Refer, Seq::empty(), extra, 0);
}

// ── Calls from the peer ──

/// A value with our tag, unless it has one already.
pub open spec fn tagged_by(value: Seq<char>, tag: Seq<char>) -> Seq<char> {
    if untagged(value) {
        value + seq![';', 't', 'a', 'g', '='] + tag
    } else {
        value
    }
}

proof fn lemma_local_party(d: DialogView)
    ensures
        dialog::local_party(d) == tagged_by(d.local_from, d.local_tag),
{
    lemma_tag_mark();
    lemma_untagged(d.local_from);
    assert(";tag="@ =~= seq![';', 't', 'a', 'g', '=']);
}

proof fn lemma_tagged_trimmed(value: Seq<char>, tag: Seq<char>)
    requires
        text::is_trimmed(value),
        whole_tag(tag),
    ensures
        text::trim(tagged_by(value, tag)) == tagged_by(value, tag),
{
    let t = tagged_by(value, tag);
    if untagged(value) {
        if value.len() > 0 {
            assert(t[0] == value[0]);
        } else {
            assert(t[0] == ';');
        }
        if tag.len() > 0 {
            assert(t.last() == tag[tag.len() - 1]);
        } else {
            assert(t.last() == '=');
        }
    }
    text::lemma_trim_idle(t);
}

proof fn lemma_value_trimmed(fields: Seq<Field>, name: Seq<char>)
    requires
        forall|i: int| 0 <= i < fields.len() ==> text::is_trimmed((#[trigger] fields[i]).1),
    ensures
        text::is_trimmed(sip_msg::field_value(fields, name)),
        text::trim(sip_msg::field_value(fields, name)) == sip_msg::field_value(fields, name),
    decreases fields.len(),
{
    if fields.len() > 0 {
        assert(text::is_trimmed(fields[0].1));
        let rest = fields.drop_first();
        assert forall|i: int| 0 <= i < rest.len() implies text::is_trimmed(
            (#[trigger] rest[i]).1,
        ) by {
            assert(rest[i] == fields[i + 1]);
        }
        lemma_value_trimmed(rest, name);
    }
    text::lemma_trim_idle(sip_msg::field_value(fields, name));
}

proof fn lemma_values_trimmed(fields: Seq<Field>, name: Seq<char>)
    requires
        forall|i: int| 0 <= i < fields.len() ==> text::is_trimmed((#[trigger] fields[i]).1),
    ensures
        ({
            let values = sip_msg::field_values(fields, name);
            Seq::new(values.len(), |i: int| text::trim(values[i])) == values
        }),
    decreases fields.len(),
{
    let values = sip_msg::field_values(fields, name);
    let trimmed = Seq::new(values.len(), |i: int| text::trim(values[i]));
    if fields.len() > 0 {
        let shorter = fields.drop_last();
        assert forall|i: int| 0 <= i < shorter.len() implies text::is_trimmed(
            (#[trigger] shorter[i]).1,
        ) by {
            assert(shorter[i] == fields[i]);
        }
        lemma_values_trimmed(shorter, name);
        let earlier = sip_msg::field_values(shorter, name);
        let before = Seq::new(earlier.len(), |i: int| text::trim(earlier[i]));
        assert(text::is_trimmed(fields[fields.len() - 1].1));
        text::lemma_trim_idle(fields.last().1);
        assert forall|i: int| 0 <= i < values.len() implies trimmed[i] == values[i] by {
            if i < earlier.len() {
                assert(before[i] == earlier[i]);
                assert(values[i] == earlier[i]);
            }
        }
    }
    assert(trimmed =~= values);
}

/// An answer to an INVITE that arrived goes back to where the INVITE came from. The peer
/// reads the code, the reason and the session description that it was given, the Via values
/// of the INVITE in order, its From, its Call-ID and its CSeq, its To with our tag, and us
/// as the contact.
pub proof fn law_answer_content(
    out: SipOutgoing,
    data: Seq<u8>,
    local_addr: Seq<char>,
    remote_addr: Seq<char>,
    local_tag: Seq<char>,
    code: u16,
    reason: Seq<char>,
    body: Seq<u8>,
)
    requires
        sip_msg::parse_spec(data) is Ok,
        dialog::answers(
            out,
            dialog::uas_dialog(
                local_addr,
                remote_addr,
                sip_msg::parse_spec(data)->Ok_0,
                local_tag,
            ),
            code,
            reason,
            body,
        ),
        sip_laws::one_line(local_addr),
        sip_laws::one_line(local_tag),
        whole_tag(local_tag),
        code > 0,
        sip_laws::one_line(reason),
        body.len() <= usize::MAX,
    ensures
        out.addr@ == remote_addr,
        sip_msg::parse_spec(out.data@) is Ok,
        ({
            let invite = sip_msg::parse_spec(data)->Ok_0.headers;
            let q = sip_msg::parse_spec(out.data@)->Ok_0;
            &&& q.status_code == code
            &&& q.reason == reason
            &&& q.body == body
            &&& sip_msg::field_values(q.headers, "Via"@) == sip_msg::field_values(invite, "Via"@)
            &&& sip_msg::field_value(q.headers, "From"@) == sip_msg::field_value(invite, "From"@)
            &&& sip_msg::field_value(q.headers, "Call-ID"@) == sip_msg::field_value(
                invite,
                "Call-ID"@,
            )
            &&& sip_msg::field_value(q.headers, "To"@) == tagged_by(
                sip_msg::field_value(invite, "To"@),
                local_tag,
            )
            &&& sip_msg::cseq_of(sip_msg::field_value(q.headers, "CSeq"@)) == (
                sip_msg::cseq_of(sip_msg::field_value(invite, "CSeq"@)).0,
                seq!['I', 'N', 'V', 'I', 'T', 'E'],
            )
            &&& sip_msg::field_value(q.headers, "Content-Type"@) == if body.len() > 0 {
                "application/sdp"@
            } else {
                Seq::empty()
            }
            &&& sip_laws::lacks(local_addr, '>') ==> dialog::bare_uri(
                sip_msg::field_value(q.headers, "Contact"@),
            ) == seq!['s', 'i', 'p', ':', 'x', 'b', 'r', 'i', 'd', 'g', 'e', '@'] + local_addr
        }),
{
    let invite = sip_msg::parse_spec(data)->Ok_0;
    let d = dialog::uas_dialog(local_addr, remote_addr, invite, local_tag);
    let m = dialog::response_of(d, code, reason, body);
    dialog_laws::law_answer_arrives(
        data,
        local_addr,
        remote_addr,
        local_tag,
        code,
        reason,
        body,
    );
    dialog_laws::law_response_headers(d, code, reason, body);
    sip_laws::lemma_received_fields(data);
    let fields = invite.headers;
    assert forall|i: int| 0 <= i < fields.len() implies text::is_trimmed(
        (#[trigger] fields[i]).1,
    ) by {
        assert(sip_laws::sendable_field(fields[i]));
    }
    dialog_laws::lemma_not_length();
    lemma_content_type();
    lemma_contact_not_length();
    lemma_read_one(m, "From"@);
    lemma_read_one(m, "To"@);
    lemma_read_one(m, "Call-ID"@);
    lemma_read_one(m, "CSeq"@);
    lemma_read_one(m, "Contact"@);
    sip_laws::law_wire_keeps_headers(m, "Via"@);
    sip_laws::law_wire_keeps_headers(m, "Content-Type"@);
    sip_laws::law_value_is_first(m.headers, "Content-Type"@);
    text::lemma_trim_idle(Seq::empty());
    lemma_values_trimmed(fields, "Via"@);
    lemma_value_trimmed(fields, "From"@);
    lemma_value_trimmed(fields, "To"@);
    lemma_value_trimmed(fields, "Call-ID"@);
    lemma_local_party(d);
    lemma_tagged_trimmed(d.local_from, local_tag);
    lemma_answer_cseq(d.invite_cseq_num);
    if sip_laws::lacks(local_addr, '>') {
        lemma_our_contact(d);
    }
}

proof fn lemma_contact_not_length()
    ensures
        !text::eq_ignore_case(sip_msg::content_length(), "Contact"@),
{
    reveal_strlit("Content-Length");
    dialog_laws::lemma_names();
}

/// The peer reads the one value of a header.
proof fn lemma_read_one(m: SipView, name: Seq<char>)
    requires
        !text::eq_ignore_case(sip_msg::content_length(), name),
        sip_msg::field_values(m.headers, name).len() == 1,
    ensures
        sip_msg::field_value(sip_laws::as_received(m).headers, name) == text::trim(
            sip_msg::field_values(m.headers, name)[0],
        ),
{
    sip_laws::law_wire_keeps_headers(m, name);
    sip_laws::law_value_is_first(m.headers, name);
}

proof fn lemma_answer_cseq(number: u32)
    ensures
        sip_msg::cseq_of(text::trim(text::decimal(number as nat) + " INVITE"@)) == (
            number as nat,
            seq!['I', 'N', 'V', 'I', 'T', 'E'],
        ),
{
    reveal_strlit(" INVITE");
    let name = seq!['I', 'N', 'V', 'I', 'T', 'E'];
    let none = Seq::<char>::empty();
    let value = text::decimal(number as nat) + seq![' '] + name;
    assert(text::decimal(number as nat) + " INVITE"@ =~= value);
    law_cseq_value(none, number as nat, name, none);
    assert(none + value + none =~= value);
    text::lemma_trim_part(value);
    text::lemma_trim_idle(text::trim(value));
}

proof fn lemma_our_contact(d: DialogView)
    requires
        sip_laws::lacks(d.local_addr, '>'),
    ensures
        dialog::bare_uri(text::trim(dialog::local_contact(d))) == seq![
            's',
            'i',
            'p',
            ':',
            'x',
            'b',
            'r',
            'i',
            'd',
            'g',
            'e',
            '@',
        ] + d.local_addr,
{
    reveal_strlit("<sip:xbridge@");
    reveal_strlit(">");
    let none = Seq::<char>::empty();
    let start = seq!['s', 'i', 'p', ':', 'x', 'b', 'r', 'i', 'd', 'g', 'e', '@'];
    let uri = start + d.local_addr;
    assert forall|i: int| 0 <= i < uri.len() implies #[trigger] uri[i] != '>' by {
        if i >= 12 {
            assert(uri[i] == d.local_addr[i - 12]);
        }
    }
    law_uri_in_brackets(none, uri, none);
    let contact = dialog::local_contact(d);
    assert(contact =~= none + seq!['<'] + uri + seq!['>'] + none);
    text::lemma_trim_idle(contact);
}

/// A request within a call that began with an INVITE that arrived, after any number of
/// earlier ones: From is the To of the INVITE with our tag, To is its From, and Call-ID is
/// its Call-ID.
pub proof fn law_request_of_answered_call(
    out: SipOutgoing,
    data: Seq<u8>,
    local_addr: Seq<char>,
    remote_addr: Seq<char>,
    local_tag: Seq<char>,
    counter: u32,
    method: SipMethod,
    body: Seq<u8>,
    extra: Seq<Field>,
)
    requires
        sip_msg::parse_spec(data) is Ok,
        ({
            let d = DialogView {
                cseq_counter: counter,
                ..dialog::uas_dialog(
                    local_addr,
                    remote_addr,
                    sip_msg::parse_spec(data)->Ok_0,
                    local_tag,
                )
            };
            dialog::sends(out, d, method, body, extra) && plain_word(dialog::request_target(d))
        }),
        sip_laws::one_line(local_addr),
        sip_laws::one_line(local_tag),
        whole_tag(local_tag),
        counter < u32::MAX,
        dialog_laws::all_sendable(extra),
        dialog_laws::names_no_dialog_header(extra),
        body.len() <= usize::MAX,
    ensures
        out.addr@ == remote_addr,
        sip_msg::parse_spec(out.data@) is Ok,
        ({
            let invite = sip_msg::parse_spec(data)->Ok_0.headers;
            let q = sip_msg::parse_spec(out.data@)->Ok_0;
            &&& sip_msg::field_value(q.headers, "From"@) == tagged_by(
                sip_msg::field_value(invite, "To"@),
                local_tag,
            )
            &&& sip_msg::field_value(q.headers, "To"@) == sip_msg::field_value(invite, "From"@)
            &&& sip_msg::field_value(q.headers, "Call-ID"@) == sip_msg::field_value(
                invite,
                "Call-ID"@,
            )
            &&& sip_msg::cseq_of(sip_msg::field_value(q.headers, "CSeq"@)).0 == counter + 1
            &&& q.body == body
        }),
{
    let invite = sip_msg::parse_spec(data)->Ok_0;
    let d = DialogView {
        cseq_counter: counter,
        ..dialog::uas_dialog(local_addr, remote_addr, invite, local_tag)
    };
    let fields = invite.headers;
    sip_laws::lemma_received_fields(data);
    assert forall|i: int| 0 <= i < fields.len() implies text::is_trimmed(
        (#[trigger] fields[i]).1,
    ) by {
        assert(sip_laws::sendable_field(fields[i]));
    }
    lemma_value_trimmed(fields, "From"@);
    lemma_value_trimmed(fields, "To"@);
    lemma_value_trimmed(fields, "Call-ID"@);
    dialog_laws::lemma_value_one_line(fields, "From"@);
    dialog_laws::lemma_value_one_line(fields, "To"@);
    dialog_laws::lemma_value_one_line(fields, "Call-ID"@);
    dialog_laws::lemma_empty_one_line();
    lemma_sent(out, d, method, body, extra);
    dialog_laws::law_request_belongs(out, d, method, body, extra);
    lemma_local_party(d);
    lemma_tagged_trimmed(d.local_from, local_tag);
    law_append_tag(d.remote_to, d.remote_tag);
}

/// A call that began with an INVITE is answered at the URI in its Contact; where it has
/// none, at its Request-URI.
pub proof fn law_contact_of_invite(
    local_addr: Seq<char>,
    remote_addr: Seq<char>,
    invite: SipView,
    local_tag: Seq<char>,
    prefix: Seq<char>,
    uri: Seq<char>,
    rest: Seq<char>,
)
    requires
        sip_laws::lacks(prefix, '<'),
        sip_laws::lacks(uri, '>'),
    ensures
        sip_msg::field_value(invite.headers, "Contact"@) == prefix + seq!['<'] + uri + seq!['>']
            + rest ==> dialog::uas_dialog(local_addr, remote_addr, invite, local_tag).contact_uri
            == uri,
        sip_msg::field_value(invite.headers, "Contact"@).len() == 0 ==> dialog::uas_dialog(
            local_addr,
            remote_addr,
            invite,
            local_tag,
        ).contact_uri == invite.request_uri,
        dialog::uas_dialog(local_addr, remote_addr, invite, local_tag).role == DialogRole::Uas,
        dialog::uas_dialog(local_addr, remote_addr, invite, local_tag).remote_addr == remote_addr,
{
    law_uri_in_brackets(prefix, uri, rest);
}

/// A dialog tells of its INVITE the headers From, To, Call-ID, Via, Contact and CSeq, each
/// with all its values, and no other.
pub proof fn law_kept_of_invite(
    local_addr: Seq<char>,
    remote_addr: Seq<char>,
    invite: SipView,
    local_tag: Seq<char>,
    name: Seq<char>,
)
    ensures
        ({
            let d = dialog::uas_dialog(local_addr, remote_addr, invite, local_tag);
            dialog::kept_values(d.invite_headers, name) == if text::eq_ignore_case("From"@, name)
                || text::eq_ignore_case("To"@, name) || text::eq_ignore_case("Call-ID"@, name)
                || text::eq_ignore_case("Via"@, name) || text::eq_ignore_case("Contact"@, name)
                || text::eq_ignore_case("CSeq"@, name) {
                sip_msg::field_values(invite.headers, name)
            } else {
                Seq::empty()
            }
        }),
{
    dialog_laws::law_kept_headers(local_addr, remote_addr, invite, local_tag, name);
    let names = dialog::kept_names();
    assert(names[0] == "From"@ && names[1] == "To"@ && names[2] == "Call-ID"@);
    assert(names[3] == "Via"@ && names[4] == "Contact"@ && names[5] == "CSeq"@);
    assert(names.len() == 6);
}

/// The To of a response carries the given tag, unless it has one already; that of a 100
/// stays as it was.
pub proof fn law_response_tag(to: Seq<char>, status_code: u16, tag: Seq<char>)
    ensures
        util::tagged_to(to, status_code, tag) == if status_code > 100 {
            tagged_by(to, tag)
        } else {
            to
        },
{
    lemma_tag_mark();
    lemma_untagged(to);
    assert(";tag="@ =~= seq![';', 't', 'a', 'g', '=']);
}

// ── Calls to the peer ──

/// A request within a call to the peer, after any responses and any number of earlier
/// requests: From is our side with our tag, To is the side that was called, with the first
/// tag that a response gave, and Call-ID is the call's. It goes to the peer's address, and
/// is addressed to the last Contact, or where no response gave one to the URI that was
/// called.
pub proof fn law_request_of_placed_call(
    out: SipOutgoing,
    local_addr: Seq<char>,
    remote_addr: Seq<char>,
    sip_call_id: Seq<char>,
    local_tag: Seq<char>,
    from: Seq<char>,
    to: Seq<char>,
    responses: Seq<SipView>,
    counter: u32,
    method: SipMethod,
    body: Seq<u8>,
    extra: Seq<Field>,
)
    requires
        ({
            let d = DialogView {
                cseq_counter: counter,
                ..dialog::after_responses(
                    dialog::uac_dialog(local_addr, remote_addr, sip_call_id, local_tag, from, to),
                    responses,
                )
            };
            &&& dialog::sends(out, d, method, body, extra)
            &&& plain_word(d.contact_uri)
            &&& one_line_fields(d)
        }),
        dialog_laws::all_sendable(extra),
        dialog_laws::names_no_dialog_header(extra),
        body.len() <= usize::MAX,
    ensures
        out.addr@ == remote_addr,
        sip_msg::parse_spec(out.data@) is Ok,
        ({
            let q = sip_msg::parse_spec(out.data@)->Ok_0;
            let tag = dialog_laws::first_tag(responses);
            &&& sip_msg::field_value(q.headers, "From"@) == text::trim(tagged_by(from, local_tag))
            &&& sip_msg::field_value(q.headers, "To"@) == text::trim(
                if tag.len() > 0 {
                    tagged_by(to, tag)
                } else {
                    to
                },
            )
            &&& sip_msg::field_value(q.headers, "Call-ID"@) == text::trim(sip_call_id)
            &&& q.request_uri == match dialog_laws::last_contact(responses) {
                Some(contact) => dialog::bare_uri(contact),
                None => dialog::called_uri(to, remote_addr),
            }
            &&& q.body == body
        }),
{
    let first = dialog::uac_dialog(local_addr, remote_addr, sip_call_id, local_tag, from, to);
    let d = DialogView { cseq_counter: counter, ..dialog::after_responses(first, responses) };
    dialog_laws::law_responses(first, responses);
    assert(d.role == DialogRole::Uac);
    lemma_sent(out, d, method, body, extra);
    dialog_laws::law_request_belongs(out, d, method, body, extra);
    lemma_local_party(d);
    law_append_tag(to, d.remote_tag);
    assert(seq![';'] + tag_mark() =~= seq![';', 't', 'a', 'g', '=']);
    assert(to + seq![';'] + tag_mark() + d.remote_tag =~= to + seq![';', 't', 'a', 'g', '=']
        + d.remote_tag);
}

/// A call to the peer tells of its From, its To and its Call-ID, under these names in any
/// case, and of no other header.
pub proof fn law_kept_of_placed_call(
    local_addr: Seq<char>,
    remote_addr: Seq<char>,
    sip_call_id: Seq<char>,
    local_tag: Seq<char>,
    from: Seq<char>,
    to: Seq<char>,
    name: Seq<char>,
)
    ensures
        ({
            let d = dialog::uac_dialog(local_addr, remote_addr, sip_call_id, local_tag, from, to);
            dialog::kept_values(d.invite_headers, name) == if text::eq_ignore_case("from"@, name) {
                seq![from]
            } else if text::eq_ignore_case("to"@, name) {
                seq![to]
            } else if text::eq_ignore_case("call-id"@, name) {
                seq![sip_call_id]
            } else {
                seq![]
            }
        }),
{
    let kept = dialog::uac_dialog(
        local_addr,
        remote_addr,
        sip_call_id,
        local_tag,
        from,
        to,
    ).invite_headers;
    assert(kept[0] == ("from"@, seq![from]));
    let two = kept.drop_first();
    assert(two[0] == ("to"@, seq![to]));
    let one = two.drop_first();
    assert(one[0] == ("call-id"@, seq![sip_call_id]));
    let none = one.drop_first();
    assert(none.len() == 0);
    assert(dialog::kept_values(none, name) == Seq::<Seq<char>>::empty());
    assert(dialog::kept_values(one, name) == if text::eq_ignore_case("call-id"@, name) {
        seq![sip_call_id]
    } else {
        seq![]
    });
    assert(dialog::kept_values(two, name) == if text::eq_ignore_case("to"@, name) {
        seq![to]
    } else {
        dialog::kept_values(one, name)
    });
}

/// Requests are numbered one after the other, and after the largest number again from zero.
pub proof fn law_numbering(d: DialogView)
    ensures
        dialog::next_cseq(d).cseq_counter == (d.cseq_counter + 1) % 0x1_0000_0000,
        dialog::next_cseq(d) == (DialogView {
            cseq_counter: dialog::next_cseq(d).cseq_counter,
            ..d
        }),
{
}

/// The INVITE of a call to the peer has the number 1, so that the next request has the
/// number 2. The requests within a call that the peer began go on from the number of its
/// INVITE, and the answers repeat that; an INVITE without one counts as number 0.
pub proof fn law_first_numbers(
    local_addr: Seq<char>,
    remote_addr: Seq<char>,
    sip_call_id: Seq<char>,
    local_tag: Seq<char>,
    from: Seq<char>,
    to: Seq<char>,
    invite: SipView,
    number: u32,
    method: Seq<char>,
)
    requires
        method.len() > 0,
        !text::is_whitespace(method.last()),
    ensures
        ({
            let placed = dialog::uac_dialog(
                local_addr,
                remote_addr,
                sip_call_id,
                local_tag,
                from,
                to,
            );
            &&& placed.role == DialogRole::Uac
            &&& placed.invite_cseq_num == 1
            &&& dialog::next_cseq(placed).cseq_counter == 2
        }),
        sip_msg::field_value(invite.headers, "CSeq"@) == text::decimal(number as nat) + seq![' ']
            + method ==> {
            let answered = dialog::uas_dialog(local_addr, remote_addr, invite, local_tag);
            answered.invite_cseq_num == number && answered.cseq_counter == number
        },
        sip_msg::field_value(invite.headers, "CSeq"@).len() == 0 ==> {
            let answered = dialog::uas_dialog(local_addr, remote_addr, invite, local_tag);
            answered.invite_cseq_num == 0 && answered.cseq_counter == 0
        },
{
    let none = Seq::<char>::empty();
    let value = text::decimal(number as nat) + seq![' '] + method;
    law_cseq_value(none, number as nat, method, none);
    assert(none + value + none =~= value);
    let cseq = sip_msg::field_value(invite.headers, "CSeq"@);
    if cseq.len() == 0 {
        assert(cseq =~= none);
        text::lemma_trim_idle(none);
        text::lemma_find_char_none(none, ' ');
    }
}

/// A bracket that is not closed counts for nothing: the URI is the whole value then, save for
/// white space around it, wherever a closing bracket stands before it.
pub proof fn law_unclosed_bracket(prefix: Seq<char>, rest: Seq<char>)
    requires
        sip_laws::lacks(prefix, '<'),
        sip_laws::lacks(rest, '>'),
    ensures
        dialog::bare_uri(prefix + seq!['<'] + rest) == text::trim(prefix + seq!['<'] + rest),
        dialog::bare_uri(prefix) == text::trim(prefix),
{
    let value = prefix + seq!['<'] + rest;
    let n = prefix.len() as int;
    assert forall|j: int| 0 <= j < n implies #[trigger] value[j] != '<' by {
        assert(value[j] == prefix[j]);
    }
    assert(value[n] == '<');
    text::lemma_find_char_is(value, '<', n);
    let behind = text::after(value, n);
    assert forall|j: int| 0 <= j < behind.len() implies #[trigger] behind[j] != '>' by {
        if j > 0 {
            assert(behind[j] == rest[j - 1]);
        }
    }
    text::lemma_find_char_none(behind, '>');
    text::lemma_find_char_none(prefix, '<');
}

/// A CSeq value that does not begin with a number reads as nothing, whatever follows.
pub proof fn law_cseq_malformed(word: Seq<char>, method: Seq<char>)
    requires
        word.len() > 0,
        sip_laws::lacks(word, ' '),
        !text::is_whitespace(word[0]),
        text::parse_decimal(word, u32::MAX as nat) is None,
        method.len() > 0,
        !text::is_whitespace(method.last()),
    ensures
        sip_msg::cseq_of(word + seq![' '] + method) == (0nat, Seq::<char>::empty()),
{
    let value = word + seq![' '] + method;
    let n = word.len() as int;
    assert(value[0] == word[0] && value.last() == method.last());
    text::lemma_trim_idle(value);
    assert forall|j: int| 0 <= j < n implies #[trigger] value[j] != ' ' by {
        assert(value[j] == word[j]);
    }
    assert(value[n] == ' ');
    text::lemma_find_char_is(value, ' ', n);
    assert(text::before(value, n) =~= word);
}

} // verus!
