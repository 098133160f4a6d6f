//! Laws of SIP messages: what header access keeps, and that a message survives the wire.

use vstd::prelude::*;
use vstd::utf8;

use crate::text;
use crate::trunk::sip_msg;
use crate::trunk::sip_msg::{Field, ParseError, SipView};

verus! {

// ── Header fields ──

/// A header name means the same field in any case.
pub proof fn law_name_case(fields: Seq<Field>, a: Seq<char>, b: Seq<char>)
    requires
        text::eq_ignore_case(a, b),
    ensures
        sip_msg::field_value(fields, a) == sip_msg::field_value(fields, b),
        sip_msg::field_values(fields, a) == sip_msg::field_values(fields, b),
    decreases fields.len(),
{
    if fields.len() > 0 {
        law_name_case(fields.drop_first(), a, b);
        law_name_case(fields.drop_last(), a, b);
        text::lemma_eq_ignore_case(fields[0].0, a, b);
        text::lemma_eq_ignore_case(fields[0].0, b, a);
        text::lemma_eq_ignore_case(fields.last().0, a, b);
        text::lemma_eq_ignore_case(fields.last().0, b, a);
        text::lemma_eq_ignore_case(a, b, a);
    }
}

/// The first value of a header is the first of all its values.
pub proof fn law_value_is_first(fields: Seq<Field>, name: Seq<char>)
    ensures
        sip_msg::has_field(fields, name) <==> sip_msg::field_values(fields, name).len() > 0,
        sip_msg::field_value(fields, name) == if sip_msg::field_values(fields, name).len() > 0 {
            sip_msg::field_values(fields, name)[0]
        } else {
            Seq::empty()
        },
    decreases fields.len(),
{
    if fields.len() > 0 {
        law_value_is_first(fields.drop_last(), name);
        lemma_value_push(fields.drop_last(), fields.last(), name);
        assert(fields.drop_last().push(fields.last()) =~= fields);
        lemma_has_push(fields.drop_last(), fields.last(), name);
    }
}

/// The value of a header after one more field is appended.
proof fn lemma_value_push(fields: Seq<Field>, field: Field, name: Seq<char>)
    ensures
        sip_msg::field_value(fields.push(field), name) == if sip_msg::has_field(fields, name) {
            sip_msg::field_value(fields, name)
        } else if text::eq_ignore_case(field.0, name) {
            field.1
        } else {
            Seq::empty()
        },
    decreases fields.len(),
{
    let longer = fields.push(field);
    if fields.len() == 0 {
        assert(longer.drop_first() =~= Seq::empty());
        assert(sip_msg::field_value(longer.drop_first(), name) == Seq::<char>::empty());
    } else {
        let rest = fields.drop_first();
        lemma_value_push(rest, field, name);
        assert(longer.drop_first() =~= rest.push(field));
        assert(longer[0] == fields[0]);
        if sip_msg::has_field(rest, name) {
            let i = choose|i: int|
                0 <= i < rest.len() && text::eq_ignore_case(#[trigger] rest[i].0, name);
            assert(fields[i + 1] == rest[i]);
        }
        if sip_msg::has_field(fields, name) && !text::eq_ignore_case(fields[0].0, name) {
            let i = choose|i: int|
                0 <= i < fields.len() && text::eq_ignore_case(#[trigger] fields[i].0, name);
            assert(rest[i - 1] == fields[i]);
        }
    }
}

proof fn lemma_has_push(fields: Seq<Field>, field: Field, name: Seq<char>)
    ensures
        sip_msg::has_field(fields.push(field), name) <==> sip_msg::has_field(fields, name)
            || text::eq_ignore_case(field.0, name),
{
    let longer = fields.push(field);
    if sip_msg::has_field(fields, name) {
        let i = choose|i: int|
            0 <= i < fields.len() && text::eq_ignore_case(#[trigger] fields[i].0, name);
        assert(longer[i] == fields[i]);
    }
    if text::eq_ignore_case(field.0, name) {
        assert(longer[fields.len() as int] == field);
    }
    if sip_msg::has_field(longer, name) && !text::eq_ignore_case(field.0, name) {
        let i = choose|i: int|
            0 <= i < longer.len() && text::eq_ignore_case(#[trigger] longer[i].0, name);
        assert(fields[i] == longer[i]);
    }
}

proof fn lemma_values_push(fields: Seq<Field>, field: Field, name: Seq<char>)
    ensures
        sip_msg::field_values(fields.push(field), name) == if text::eq_ignore_case(field.0, name) {
            sip_msg::field_values(fields, name).push(field.1)
        } else {
            sip_msg::field_values(fields, name)
        },
{
    assert(fields.push(field).drop_last() =~= fields);
}

/// Appending a field adds one value to its header and touches no other header.
pub proof fn law_add_header(fields: Seq<Field>, name: Seq<char>, value: Seq<char>, other: Seq<char>)
    ensures
        sip_msg::field_values(fields.push((name, value)), other) == if text::eq_ignore_case(
            name,
            other,
        ) {
            sip_msg::field_values(fields, other).push(value)
        } else {
            sip_msg::field_values(fields, other)
        },
{
    lemma_values_push(fields, (name, value), other);
}

/// Setting a header leaves exactly that value, and every header of another name as it
/// was.
pub proof fn law_set_header(fields: Seq<Field>, name: Seq<char>, value: Seq<char>, other: Seq<char>)
    ensures
        sip_msg::field_values(sip_msg::set_field(fields, name, value), name) == seq![value],
        sip_msg::field_value(sip_msg::set_field(fields, name, value), name) == value,
        !text::eq_ignore_case(name, other) ==> {
            &&& sip_msg::field_values(sip_msg::set_field(fields, name, value), other)
                == sip_msg::field_values(fields, other)
            &&& sip_msg::field_value(sip_msg::set_field(fields, name, value), other)
                == sip_msg::field_value(fields, other)
        },
{
    let set = sip_msg::set_field(fields, name, value);
    lemma_replace_values(fields, name, value, other);
    law_value_is_first(fields, name);
    if !sip_msg::has_field(fields, name) {
        text::lemma_eq_ignore_case(name, name, name);
        lemma_values_push(fields, (name, value), name);
        lemma_values_push(fields, (name, value), other);
        assert(sip_msg::field_values(set, name) =~= seq![value]);
    }
    law_value_is_first(set, name);
    law_value_is_first(set, other);
    law_value_is_first(fields, other);
}

proof fn lemma_replace_values(
    fields: Seq<Field>,
    name: Seq<char>,
    value: Seq<char>,
    other: Seq<char>,
)
    ensures
        sip_msg::has_field(fields, name) ==> sip_msg::field_values(
            sip_msg::replace_field(fields, name, value),
            name,
        ) == seq![value],
        !sip_msg::has_field(fields, name) ==> sip_msg::field_values(
            sip_msg::replace_field(fields, name, value),
            name,
        ) == Seq::<Seq<char>>::empty(),
        !text::eq_ignore_case(name, other) ==> sip_msg::field_values(
            sip_msg::replace_field(fields, name, value),
            other,
        ) == sip_msg::field_values(fields, other),
    decreases fields.len(),
{
    if fields.len() > 0 {
        let earlier = fields.drop_last();
        let last = fields.last();
        lemma_replace_values(earlier, name, value, other);
        assert(earlier.push(last) =~= fields);
        lemma_has_push(earlier, last, name);
        let r = sip_msg::replace_field(earlier, name, value);
        lemma_values_push(r, last, name);
        lemma_values_push(r, last, other);
        lemma_values_push(r, (last.0, value), name);
        lemma_values_push(r, (last.0, value), other);
        lemma_values_push(earlier, last, other);
        assert(Seq::<Seq<char>>::empty().push(value) =~= seq![value]);
        if text::eq_ignore_case(last.0, name) && text::eq_ignore_case(last.0, other) {
            text::lemma_eq_ignore_case(last.0, name, name);
            text::lemma_eq_ignore_case(name, last.0, other);
        }
    }
}

// ── Users ──

/// The scheme that a SIP URI begins with.
pub open spec fn scheme(secure: bool) -> Seq<char> {
    if secure {
        seq!['s', 'i', 'p', 's', ':']
    } else {
        seq!['s', 'i', 'p', ':']
    }
}

/// Whoever stands between the scheme of the first URI in a text and the at sign is the
/// user, whatever comes before and after: a display name, brackets, parameters.
pub proof fn law_uri_user(prefix: Seq<char>, user: Seq<char>, rest: Seq<char>, secure: bool)
    requires
        lacks(user, '@'),
        forall|i: int|
            0 <= i < prefix.len() ==> !#[trigger] text::occurs_at(
                prefix + scheme(secure),
                scheme(secure),
                i,
            ),
        secure ==> forall|i: int|
            !#[trigger] text::occurs_at(
                (prefix + scheme(true) + user).push('@') + rest,
                scheme(false),
                i,
            ),
    ensures
        sip_msg::uri_user(prefix + scheme(secure) + user + seq!['@'] + rest) == user,
{
    reveal_strlit("sip:");
    reveal_strlit("sips:");
    assert("sip:"@ =~= scheme(false));
    assert("sips:"@ =~= scheme(true));
    let s = scheme(secure);
    let whole = prefix + s + user + seq!['@'] + rest;
    let n = prefix.len() as int;
    let k = s.len() as int;
    assert(whole.subrange(n, n + k) =~= s);
    assert forall|i: int| 0 <= i < n implies !text::occurs_at(whole, s, i) by {
        assert(!text::occurs_at(prefix + s, s, i));
        assert(whole.subrange(i, i + k) =~= (prefix + s).subrange(i, i + k));
    }
    text::lemma_find_is(whole, s, 0, n);
    if secure {
        assert(whole =~= (prefix + s + user).push('@') + rest);
        text::lemma_find_none(whole, scheme(false), 0);
    }
    let after = text::after(whole, n + k);
    assert(after =~= user + seq!['@'] + rest);
    let m = user.len() as int;
    assert forall|j: int| 0 <= j < m implies #[trigger] after[j] != '@' by {
        assert(after[j] == user[j]);
    }
    assert(after[m] == '@');
    text::lemma_find_char_is(after, '@', m);
    assert(text::before(after, m) =~= user);
}

/// A text without a SIP URI names no user, nor does one without an at sign.
pub proof fn law_no_uri_user(value: Seq<char>)
    requires
        lacks(value, '@') || lacks(value, ':'),
    ensures
        sip_msg::uri_user(value) == Seq::<char>::empty(),
{
    reveal_strlit("sip:");
    reveal_strlit("sips:");
    text::lemma_find_from(value, "sip:"@, 0);
    text::lemma_find_from(value, "sips:"@, 0);
    match text::find(value, "sip:"@) {
        Some(i) => {
            assert(value.subrange(i, i + 4)[3] == value[i + 3]);
        },
        None => {
            match text::find(value, "sips:"@) {
                Some(i) => {
                    assert(value.subrange(i, i + 5)[4] == value[i + 4]);
                },
                None => {},
            }
        },
    }
    match sip_msg::uri_start(value) {
        Some(i) => {
            let rest = text::after(value, i);
            assert forall|j: int| 0 <= j < rest.len() implies #[trigger] rest[j] != '@' by {
                assert(rest[j] == value[i + j]);
            }
            text::lemma_find_char_none(rest, '@');
        },
        None => {},
    }
}

// ── The wire ──

/// Whether `s` holds no CRLF.
pub open spec fn one_line(s: Seq<char>) -> bool {
    forall|i: int| !text::occurs_at(s, sip_msg::crlf(), i)
}

/// Whether `s` does not hold `c`.
pub open spec fn lacks(s: Seq<char>, c: char) -> bool {
    forall|i: int| 0 <= i < s.len() ==> #[trigger] s[i] != c
}

/// Whether a header field can be read back from its line: one line, no colon in the
/// name.
pub open spec fn sendable_field(field: Field) -> bool {
    &&& one_line(field.0)
    &&& lacks(field.0, ':')
    &&& one_line(field.1)
}

/// Whether a message can be read back from its wire form: it is a request or a
/// response and not both, what the start line holds can be told apart there, and so
/// can each header field.
pub open spec fn sendable(m: SipView) -> bool {
    &&& if m.status_code > 0 {
        m.method.len() == 0 && m.request_uri.len() == 0 && one_line(m.reason)
    } else {
        &&& m.reason.len() == 0
        &&& one_line(m.method)
        &&& one_line(m.request_uri)
        &&& lacks(m.method, ' ')
        &&& lacks(m.request_uri, ' ')
        &&& m.method != sip_msg::sip_version()
    }
    &&& forall|i: int|
        0 <= i < m.headers.len() ==> text::eq_ignore_case(
            (#[trigger] m.headers[i]).0,
            sip_msg::content_length(),
        ) || sendable_field(m.headers[i])
    &&& m.body.len() <= usize::MAX
}

/// The fields with no white space around their values.
pub open spec fn trimmed_fields(fields: Seq<Field>) -> Seq<Field> {
    Seq::new(fields.len(), |i: int| (fields[i].0, text::trim(fields[i].1)))
}

/// The message as the other side reads it: the same, with its Content-Length last and no
/// white space around header values.
pub open spec fn as_received(m: SipView) -> SipView {
    SipView { headers: trimmed_fields(sip_msg::wire_fields(m)), ..m }
}

/// Parsing the wire form of a message gives the message back, with a Content-Length
/// that says how long its body is and no white space around header values.
pub proof fn law_wire_round_trip(m: SipView)
    requires
        sendable(m),
    ensures
        sip_msg::parse_spec(sip_msg::wire(m)) == Ok::<SipView, ParseError>(as_received(m)),
{
    let fields = sip_msg::wire_fields(m);
    let lines = seq![sip_msg::start_line(m)] + line_list(fields);
    let head = join(lines);
    lemma_wire_fields_sendable(m);
    lemma_start_line_clean(m);
    lemma_lines_clean(fields);
    assert forall|i: int| 0 <= i < lines.len() implies clean_line(#[trigger] lines[i]) by {
        if i > 0 {
            assert(lines[i] == line_list(fields)[i - 1]);
        }
    }
    lemma_wire_head(sip_msg::start_line(m), fields);
    let tail = sip_msg::crlf() + sip_msg::crlf();
    assert(sip_msg::wire_head(m) =~= head + tail);
    let data = sip_msg::wire(m);
    lemma_encode_concat(head, tail);
    lemma_encode_tail();
    assert(data =~= utf8::encode_utf8(head) + sip_msg::blank_line() + m.body);
    lemma_head_found(lines, m.body);
    let n = utf8::encode_utf8(head).len() as int;
    assert(text::before(data, n) =~= utf8::encode_utf8(head));
    assert(text::after(data, n + 4) =~= m.body);
    utf8::encode_utf8_valid_utf8(head);
    utf8::encode_utf8_decode_utf8(head);
    lemma_split_join(lines);
    lemma_parse_start_line(m);
    assert(lines.drop_first() =~= line_list(fields));
    lemma_parse_lines(fields);
    lemma_length_field(m);
    lemma_trimmed_value(fields, sip_msg::content_length());
    text::lemma_parse_decimal(m.body.len(), usize::MAX as nat);
    lemma_decimal_trimmed(m.body.len());
    assert(text::before(m.body, m.body.len() as int) =~= m.body);
}

/// On its way a message keeps every header but Content-Length, save for white space around
/// the values.
pub proof fn law_wire_keeps_headers(m: SipView, name: Seq<char>)
    requires
        !text::eq_ignore_case(sip_msg::content_length(), name),
    ensures
        ({
            let values = sip_msg::field_values(m.headers, name);
            sip_msg::field_values(as_received(m).headers, name) == Seq::new(
                values.len(),
                |i: int| text::trim(values[i]),
            )
        }),
        sip_msg::field_value(as_received(m).headers, name) == text::trim(
            sip_msg::field_value(m.headers, name),
        ),
{
    let fields = sip_msg::wire_fields(m);
    let kept = sip_msg::drop_field(m.headers, sip_msg::content_length());
    lemma_drop_values(m.headers, sip_msg::content_length(), name);
    lemma_values_push(
        kept,
        (sip_msg::content_length(), text::decimal(m.body.len())),
        name,
    );
    lemma_trimmed_values(fields, name);
    lemma_trimmed_value(fields, name);
    law_value_is_first(fields, name);
    law_value_is_first(m.headers, name);
}

proof fn lemma_trimmed_value(fields: Seq<Field>, name: Seq<char>)
    ensures
        sip_msg::field_value(trimmed_fields(fields), name) == text::trim(
            sip_msg::field_value(fields, name),
        ),
    decreases fields.len(),
{
    if fields.len() == 0 {
        text::lemma_trim_idle(Seq::empty());
        assert(sip_msg::field_value(trimmed_fields(fields), name) =~= Seq::empty());
    } else {
        lemma_trimmed_value(fields.drop_first(), name);
        assert(trimmed_fields(fields).drop_first() =~= trimmed_fields(fields.drop_first()));
    }
}

proof fn lemma_trimmed_values(fields: Seq<Field>, name: Seq<char>)
    ensures
        ({
            let values = sip_msg::field_values(fields, name);
            sip_msg::field_values(trimmed_fields(fields), name) == Seq::new(
                values.len(),
                |i: int| text::trim(values[i]),
            )
        }),
    decreases fields.len(),
{
    let values = sip_msg::field_values(fields, name);
    let trimmed = Seq::new(values.len(), |i: int| text::trim(values[i]));
    if fields.len() > 0 {
        let earlier = sip_msg::field_values(fields.drop_last(), name);
        lemma_trimmed_values(fields.drop_last(), name);
        assert(trimmed_fields(fields).drop_last() =~= trimmed_fields(fields.drop_last()));
    }
    assert(sip_msg::field_values(trimmed_fields(fields), name) =~= trimmed);
}

proof fn lemma_decimal_trimmed(n: nat)
    ensures
        text::trim(text::decimal(n)) == text::decimal(n),
{
    let s = text::decimal(n);
    text::lemma_decimal_value(n);
    text::lemma_parse_decimal(n, n);
    assert(text::is_digit(s[0]) && text::is_digit(s[s.len() - 1]));
    text::lemma_trim_idle(s);
}

proof fn lemma_drop_values(fields: Seq<Field>, name: Seq<char>, other: Seq<char>)
    requires
        !text::eq_ignore_case(name, other),
    ensures
        sip_msg::field_values(sip_msg::drop_field(fields, name), other) == sip_msg::field_values(
            fields,
            other,
        ),
    decreases fields.len(),
{
    if fields.len() > 0 {
        let last = fields.last();
        lemma_drop_values(fields.drop_last(), name, other);
        lemma_values_push(sip_msg::drop_field(fields.drop_last(), name), last, other);
        if text::eq_ignore_case(last.0, name) && text::eq_ignore_case(last.0, other) {
            text::lemma_eq_ignore_case(last.0, name, name);
            text::lemma_eq_ignore_case(name, last.0, other);
        }
    }
}

/// A message that was received can be sent on: it is read again as it was, with its
/// Content-Length last. A response with status zero is left out, as it is taken for a
/// request.
pub proof fn law_received_again(data: Seq<u8>)
    requires
        sip_msg::parse_spec(data) is Ok,
        data.len() <= usize::MAX,
        ({
            let m = sip_msg::parse_spec(data)->Ok_0;
            m.status_code > 0 || m.reason.len() == 0
        }),
    ensures
        ({
            let m = sip_msg::parse_spec(data)->Ok_0;
            &&& sendable(m)
            &&& sip_msg::parse_spec(sip_msg::wire(m)) == Ok::<SipView, ParseError>(
                SipView { headers: sip_msg::wire_fields(m), ..m },
            )
        }),
{
    let m = sip_msg::parse_spec(data)->Ok_0;
    let lines = text::split(utf8::decode_utf8(sip_msg::head_of(data)), sip_msg::crlf());
    lemma_split_lines(utf8::decode_utf8(sip_msg::head_of(data)));
    assert(one_line(lines[0]));
    lemma_start_line_sendable(lines[0]);
    lemma_received_fields(data);
    text::lemma_find_from(data, sip_msg::blank_line(), 0);
    assert(sip_msg::tail_of(data).len() <= data.len());
    law_wire_round_trip(m);
    lemma_drop_trimmed(m.headers);
    lemma_decimal_trimmed(m.body.len());
    let fields = sip_msg::wire_fields(m);
    assert forall|i: int| 0 <= i < fields.len() implies trimmed_fields(fields)[i] == fields[i] by {
        if i < fields.len() - 1 {
            let kept = sip_msg::drop_field(m.headers, sip_msg::content_length());
            assert(fields[i] == kept[i]);
            text::lemma_trim_idle(kept[i].1);
        }
    }
    assert(trimmed_fields(fields) =~= fields);
}

proof fn lemma_drop_trimmed(fields: Seq<Field>)
    requires
        forall|i: int| 0 <= i < fields.len() ==> text::is_trimmed((#[trigger] fields[i]).1),
    ensures
        forall|i: int|
            0 <= i < sip_msg::drop_field(fields, sip_msg::content_length()).len()
                ==> text::is_trimmed(
                (#[trigger] sip_msg::drop_field(fields, sip_msg::content_length())[i]).1,
            ),
    decreases fields.len(),
{
    if fields.len() > 0 {
        let shorter = fields.drop_last();
        assert forall|i: int| 0 <= i < shorter.len() implies text::is_trimmed(
            (#[trigger] shorter[i]).1,
        ) by {
            assert(shorter[i] == fields[i]);
        }
        lemma_drop_trimmed(shorter);
        let kept = sip_msg::drop_field(shorter, sip_msg::content_length());
        let all = sip_msg::drop_field(fields, sip_msg::content_length());
        assert forall|i: int| 0 <= i < all.len() implies text::is_trimmed(
            (#[trigger] all[i]).1,
        ) by {
            if i < kept.len() {
                assert(all[i] == kept[i]);
            } else {
                assert(all[i] == fields[fields.len() - 1]);
            }
        }
    }
}

/// The header fields of a received message can be read back from their lines, and no white
/// space stands around their values.
pub proof fn lemma_received_fields(data: Seq<u8>)
    requires
        sip_msg::parse_spec(data) is Ok,
    ensures
        ({
            let fields = sip_msg::parse_spec(data)->Ok_0.headers;
            forall|i: int|
                0 <= i < fields.len() ==> {
                    &&& sendable_field(#[trigger] fields[i])
                    &&& text::is_trimmed(fields[i].1)
                }
        }),
{
    let lines = text::split(utf8::decode_utf8(sip_msg::head_of(data)), sip_msg::crlf());
    lemma_split_lines(utf8::decode_utf8(sip_msg::head_of(data)));
    let rest = lines.drop_first();
    assert forall|i: int| 0 <= i < rest.len() implies one_line(#[trigger] rest[i]) by {
        assert(rest[i] == lines[i + 1]);
    }
    lemma_parsed_fields(rest);
}

/// The pieces between CRLFs hold none.
proof fn lemma_split_lines(s: Seq<char>)
    ensures
        text::split(s, sip_msg::crlf()).len() > 0,
        forall|i: int|
            0 <= i < text::split(s, sip_msg::crlf()).len() ==> one_line(
                #[trigger] text::split(s, sip_msg::crlf())[i],
            ),
    decreases s.len(),
{
    let lines = text::split(s, sip_msg::crlf());
    lemma_crlf();
    text::lemma_find_from(s, sip_msg::crlf(), 0);
    match text::find(s, sip_msg::crlf()) {
        Some(k) => {
            let first = text::before(s, k);
            let rest = text::after(s, k + 2);
            lemma_split_lines(rest);
            assert forall|i: int| !text::occurs_at(first, sip_msg::crlf(), i) by {
                lemma_crlf_at(first, i);
                lemma_crlf_at(s, i);
            }
            assert forall|i: int| 0 <= i < lines.len() implies one_line(#[trigger] lines[i]) by {
                if i > 0 {
                    assert(lines[i] == text::split(rest, sip_msg::crlf())[i - 1]);
                }
            }
        },
        None => {
            assert forall|i: int| !text::occurs_at(s, sip_msg::crlf(), i) by {
                lemma_crlf_at(s, i);
            }
        },
    }
}

/// Fields that were read from lines can be read back from their lines.
proof fn lemma_parsed_fields(lines: Seq<Seq<char>>)
    requires
        forall|i: int| 0 <= i < lines.len() ==> one_line(#[trigger] lines[i]),
    ensures
        forall|i: int|
            0 <= i < sip_msg::parse_fields(lines).len() ==> {
                &&& sendable_field(#[trigger] sip_msg::parse_fields(lines)[i])
                &&& text::is_trimmed(sip_msg::parse_fields(lines)[i].1)
            },
    decreases lines.len(),
{
    if lines.len() > 0 {
        let shorter = lines.drop_last();
        assert forall|i: int| 0 <= i < shorter.len() implies one_line(#[trigger] shorter[i]) by {
            assert(shorter[i] == lines[i]);
        }
        lemma_parsed_fields(shorter);
        let line = lines.last();
        assert(one_line(lines[lines.len() - 1]));
        text::lemma_find_char(line, ':');
        match text::find_char(line, ':') {
            Some(colon) => {
                let name = text::before(line, colon);
                let rest = text::after(line, colon + 1);
                lemma_part_one_line(line, 0, colon);
                lemma_part_one_line(line, colon + 1, line.len() as int);
                let (a, b) = text::lemma_trim_part(rest);
                lemma_part_one_line(rest, a, b);
                assert(lacks(name, ':'));
                assert(sendable_field((name, text::trim(rest))));
            },
            None => {},
        }
        let earlier = sip_msg::parse_fields(shorter);
        let all = sip_msg::parse_fields(lines);
        assert forall|i: int| 0 <= i < all.len() implies {
            &&& sendable_field(#[trigger] all[i])
            &&& text::is_trimmed(all[i].1)
        } by {
            if i < earlier.len() {
                assert(all[i] == earlier[i]);
            }
        }
    }
}

/// What a start line says can be told apart in a start line again.
proof fn lemma_start_line_sendable(line: Seq<char>)
    requires
        one_line(line),
        sip_msg::parse_start_line(line) is Ok,
    ensures
        ({
            let m = sip_msg::parse_start_line(line)->Ok_0;
            &&& one_line(m.method)
            &&& one_line(m.request_uri)
            &&& one_line(m.reason)
            &&& lacks(m.method, ' ')
            &&& lacks(m.request_uri, ' ')
            &&& m.method != sip_msg::sip_version()
            &&& m.status_code > 0 ==> m.method.len() == 0 && m.request_uri.len() == 0
        }),
{
    reveal_strlit("SIP/2.0 ");
    reveal_strlit("SIP/2.0");
    lemma_part_one_line(line, 0, 0);
    let none = Seq::<char>::empty();
    assert(line.subrange(0, 0) =~= none);
    if text::starts_with(line, "SIP/2.0 "@) {
        let rest = text::after(line, 8);
        text::lemma_find_char(rest, ' ');
        lemma_part_one_line(line, 8, line.len() as int);
        match text::find_char(rest, ' ') {
            Some(i) => lemma_part_one_line(rest, i + 1, rest.len() as int),
            None => {},
        }
    } else {
        text::lemma_find_char(line, ' ');
        match text::find_char(line, ' ') {
            Some(i) => {
                let method = text::before(line, i);
                let rest = text::after(line, i + 1);
                text::lemma_find_char(rest, ' ');
                lemma_part_one_line(line, 0, i);
                lemma_part_one_line(line, i + 1, line.len() as int);
                assert(lacks(method, ' '));
                if method == sip_msg::sip_version() {
                    assert(sip_msg::sip_version().len() == 7);
                    assert(method.len() == i);
                    assert(i == 7);
                    assert(line.subrange(0, 8) =~= "SIP/2.0 "@) by {
                        assert forall|k: int| 0 <= k < 7 implies line[k] == "SIP/2.0 "@[k] by {
                            assert(method[k] == line[k]);
                            assert("SIP/2.0"@[k] == "SIP/2.0 "@[k]);
                        }
                    }
                }
                match text::find_char(rest, ' ') {
                    Some(j) => {
                        lemma_part_one_line(rest, 0, j);
                        assert(lacks(text::before(rest, j), ' '));
                    },
                    None => {},
                }
            },
            None => {},
        }
    }
}

/// A part of one line is one line.
pub proof fn lemma_part_one_line(s: Seq<char>, a: int, b: int)
    requires
        one_line(s),
        0 <= a <= b <= s.len(),
    ensures
        one_line(s.subrange(a, b)),
{
    let part = s.subrange(a, b);
    assert forall|i: int| !text::occurs_at(part, sip_msg::crlf(), i) by {
        lemma_crlf_at(part, i);
        lemma_crlf_at(s, a + i);
        if text::occurs_at(part, sip_msg::crlf(), i) {
            assert(part[i] == s[a + i] && part[i + 1] == s[a + i + 1]);
        }
    }
}

/// Whether a line holds something and no CRLF.
spec fn clean_line(s: Seq<char>) -> bool {
    s.len() > 0 && one_line(s)
}

/// The lines joined by CRLF.
spec fn join(lines: Seq<Seq<char>>) -> Seq<char>
    decreases lines.len(),
{
    if lines.len() == 0 {
        Seq::empty()
    } else if lines.len() == 1 {
        lines[0]
    } else {
        lines[0] + sip_msg::crlf() + join(lines.drop_first())
    }
}

spec fn line_list(fields: Seq<Field>) -> Seq<Seq<char>> {
    Seq::new(fields.len(), |i: int| sip_msg::field_line(fields[i]))
}

pub proof fn lemma_crlf()
    ensures
        sip_msg::crlf() == seq!['\r', '\n'],
{
    reveal_strlit("\r\n");
    assert(sip_msg::crlf() =~= seq!['\r', '\n']);
}

/// CRLF at a position, character by character.
pub proof fn lemma_crlf_at(s: Seq<char>, i: int)
    ensures
        text::occurs_at(s, sip_msg::crlf(), i) <==> (0 <= i && i + 2 <= s.len() && s[i] == '\r'
            && s[i + 1] == '\n'),
{
    lemma_crlf();
    if 0 <= i && i + 2 <= s.len() {
        let w = s.subrange(i, i + 2);
        assert(w[0] == s[i] && w[1] == s[i + 1]);
        if s[i] == '\r' && s[i + 1] == '\n' {
            assert(w =~= seq!['\r', '\n']);
        }
    }
}

proof fn lemma_wire_fields_sendable(m: SipView)
    requires
        sendable(m),
    ensures
        forall|i: int|
            0 <= i < sip_msg::wire_fields(m).len() ==> sendable_field(
                #[trigger] sip_msg::wire_fields(m)[i],
            ),
{
    let kept = sip_msg::drop_field(m.headers, sip_msg::content_length());
    lemma_drop_field_sendable(m.headers);
    let last = (sip_msg::content_length(), text::decimal(m.body.len()));
    reveal_strlit("Content-Length");
    assert forall|i: int| !text::occurs_at(last.0, sip_msg::crlf(), i) by {
        lemma_crlf_at(last.0, i);
    }
    text::lemma_parse_decimal(m.body.len(), m.body.len());
    text::lemma_decimal_value(m.body.len());
    assert forall|i: int| !text::occurs_at(last.1, sip_msg::crlf(), i) by {
        lemma_crlf_at(last.1, i);
        if 0 <= i < last.1.len() {
            assert(text::is_digit(last.1[i]));
        }
    }
    assert(sendable_field(last));
}

proof fn lemma_drop_field_sendable(fields: Seq<Field>)
    requires
        forall|i: int|
            0 <= i < fields.len() ==> text::eq_ignore_case(
                (#[trigger] fields[i]).0,
                sip_msg::content_length(),
            ) || sendable_field(fields[i]),
    ensures
        forall|i: int|
            0 <= i < sip_msg::drop_field(fields, sip_msg::content_length()).len()
                ==> sendable_field(
                #[trigger] sip_msg::drop_field(fields, sip_msg::content_length())[i],
            ),
    decreases fields.len(),
{
    if fields.len() > 0 {
        let shorter = fields.drop_last();
        assert forall|i: int| 0 <= i < shorter.len() implies text::eq_ignore_case(
            (#[trigger] shorter[i]).0,
            sip_msg::content_length(),
        ) || sendable_field(shorter[i]) by {
            assert(shorter[i] == fields[i]);
        }
        lemma_drop_field_sendable(shorter);
        let kept = sip_msg::drop_field(shorter, sip_msg::content_length());
        let all = sip_msg::drop_field(fields, sip_msg::content_length());
        assert forall|i: int| 0 <= i < all.len() implies sendable_field(#[trigger] all[i]) by {
            if i < kept.len() {
                assert(all[i] == kept[i]);
            } else {
                assert(all[i] == fields[fields.len() - 1]);
            }
        }
    }
}

/// Text joined from two lines without a break stays one line where the second does not
/// begin with a line feed.
proof fn lemma_one_line_concat(a: Seq<char>, b: Seq<char>)
    requires
        one_line(a),
        one_line(b),
        b.len() > 0 ==> b[0] != '\n',
    ensures
        one_line(a + b),
{
    let s = a + b;
    assert forall|i: int| !text::occurs_at(s, sip_msg::crlf(), i) by {
        lemma_crlf_at(s, i);
        if text::occurs_at(s, sip_msg::crlf(), i) {
            if i + 1 < a.len() {
                lemma_crlf_at(a, i);
            } else if i + 1 == a.len() {
                assert(s[i + 1] == b[0]);
            } else {
                lemma_crlf_at(b, i - a.len());
                assert(s[i] == b[i - a.len()] && s[i + 1] == b[i + 1 - a.len()]);
            }
        }
    }
}

/// Text before which a blank stands begins with no line feed, so blanks separate.
proof fn lemma_one_line_blank(a: Seq<char>, sep: Seq<char>, b: Seq<char>)
    requires
        one_line(a),
        one_line(b),
        sep == seq![' '] || sep == seq![':', ' '],
    ensures
        one_line(a + sep + b),
{
    let s = sep + b;
    assert forall|i: int| !text::occurs_at(s, sip_msg::crlf(), i) by {
        lemma_crlf_at(s, i);
        if text::occurs_at(s, sip_msg::crlf(), i) && i >= sep.len() {
            lemma_crlf_at(b, i - sep.len());
            assert(s[i] == b[i - sep.len()] && s[i + 1] == b[i + 1 - sep.len()]);
        }
    }
    lemma_one_line_concat(a, s);
    assert(a + s =~= a + sep + b);
}

proof fn lemma_blanks()
    ensures
        " "@ == seq![' '],
        ": "@ == seq![':', ' '],
{
    reveal_strlit(" ");
    reveal_strlit(": ");
    assert(" "@ =~= seq![' ']);
    assert(": "@ =~= seq![':', ' ']);
}

proof fn lemma_start_line_clean(m: SipView)
    requires
        sendable(m),
    ensures
        clean_line(sip_msg::start_line(m)),
{
    lemma_blanks();
    reveal_strlit("SIP/2.0 ");
    reveal_strlit("SIP/2.0");
    if m.status_code > 0 {
        let a = "SIP/2.0 "@ + text::decimal(m.status_code as nat);
        text::lemma_decimal_value(m.status_code as nat);
        assert forall|i: int| !text::occurs_at(a, sip_msg::crlf(), i) by {
            lemma_crlf_at(a, i);
            if text::occurs_at(a, sip_msg::crlf(), i) && i >= 8 {
                assert(a[i] == text::decimal(m.status_code as nat)[i - 8]);
                assert(text::is_digit(text::decimal(m.status_code as nat)[i - 8]));
            }
        }
        lemma_one_line_blank(a, " "@, m.reason);
    } else {
        let v = sip_msg::sip_version();
        assert forall|i: int| !text::occurs_at(v, sip_msg::crlf(), i) by {
            lemma_crlf_at(v, i);
        }
        lemma_one_line_blank(m.method, " "@, m.request_uri);
        lemma_one_line_blank(m.method + " "@ + m.request_uri, " "@, v);
    }
}

proof fn lemma_lines_clean(fields: Seq<Field>)
    requires
        forall|i: int| 0 <= i < fields.len() ==> sendable_field(#[trigger] fields[i]),
    ensures
        forall|i: int| 0 <= i < line_list(fields).len() ==> clean_line(
            #[trigger] line_list(fields)[i],
        ),
{
    lemma_blanks();
    assert forall|i: int| 0 <= i < line_list(fields).len() implies clean_line(
        #[trigger] line_list(fields)[i],
    ) by {
        assert(sendable_field(fields[i]));
        lemma_one_line_blank(fields[i].0, ": "@, fields[i].1);
    }
}

proof fn lemma_join_push(lines: Seq<Seq<char>>, line: Seq<char>)
    requires
        lines.len() > 0,
    ensures
        join(lines.push(line)) == join(lines) + sip_msg::crlf() + line,
    decreases lines.len(),
{
    let longer = lines.push(line);
    if lines.len() == 1 {
        assert(longer.drop_first() =~= seq![line]);
        assert(join(longer.drop_first()) == line);
    } else {
        lemma_join_push(lines.drop_first(), line);
        assert(longer.drop_first() =~= lines.drop_first().push(line));
        assert(join(longer) =~= join(lines) + sip_msg::crlf() + line);
    }
}

/// The head that a message is sent with, as joined lines.
proof fn lemma_wire_head(start: Seq<char>, fields: Seq<Field>)
    ensures
        start + sip_msg::crlf() + sip_msg::field_lines(fields) == join(
            seq![start] + line_list(fields),
        ) + sip_msg::crlf(),
    decreases fields.len(),
{
    let lines = seq![start] + line_list(fields);
    if fields.len() == 0 {
        assert(lines =~= seq![start]);
        assert(start + sip_msg::crlf() + sip_msg::field_lines(fields) =~= start + sip_msg::crlf());
    } else {
        let shorter = fields.drop_last();
        lemma_wire_head(start, shorter);
        let before = seq![start] + line_list(shorter);
        let line = sip_msg::field_line(fields.last());
        assert(lines =~= before.push(line));
        lemma_join_push(before, line);
        assert(start + sip_msg::crlf() + sip_msg::field_lines(fields) =~= (start + sip_msg::crlf()
            + sip_msg::field_lines(shorter)) + line + sip_msg::crlf());
        assert(join(lines) + sip_msg::crlf() =~= (join(before) + sip_msg::crlf()) + line
            + sip_msg::crlf());
    }
}

/// Splitting joined lines gives the lines.
proof fn lemma_split_join(lines: Seq<Seq<char>>)
    requires
        lines.len() > 0,
        forall|i: int| 0 <= i < lines.len() ==> clean_line(#[trigger] lines[i]),
    ensures
        text::split(join(lines), sip_msg::crlf()) == lines,
    decreases lines.len(),
{
    lemma_crlf();
    let s = join(lines);
    let first = lines[0];
    assert(clean_line(first));
    if lines.len() == 1 {
        text::lemma_find_none(s, sip_msg::crlf(), 0);
        assert(seq![s] =~= lines);
    } else {
        let rest = lines.drop_first();
        let n = first.len() as int;
        assert forall|i: int| 0 <= i < rest.len() implies clean_line(#[trigger] rest[i]) by {
            assert(rest[i] == lines[i + 1]);
        }
        lemma_split_join(rest);
        lemma_first_break(first, join(rest));
        assert(text::before(s, n) =~= first);
        assert(text::after(s, n + 2) =~= join(rest));
        assert(seq![first] + rest =~= lines);
    }
}

/// The first CRLF after a line is the one that ends it.
pub proof fn lemma_first_break(line: Seq<char>, rest: Seq<char>)
    requires
        one_line(line),
    ensures
        text::find(line + sip_msg::crlf() + rest, sip_msg::crlf()) == Some(line.len() as int),
{
    lemma_crlf();
    let s = line + sip_msg::crlf() + rest;
    let n = line.len() as int;
    lemma_crlf_at(s, n);
    assert(s[n] == '\r' && s[n + 1] == '\n');
    assert forall|j: int| 0 <= j < n implies !text::occurs_at(s, sip_msg::crlf(), j) by {
        lemma_crlf_at(s, j);
        lemma_crlf_at(line, j);
        if j + 1 < n {
            assert(s[j] == line[j] && s[j + 1] == line[j + 1]);
        } else {
            assert(s[j + 1] == '\r');
        }
    }
    text::lemma_find_is(s, sip_msg::crlf(), 0, n);
}

/// A blank line after joined lines does not begin before they end.
proof fn lemma_no_early_blank(lines: Seq<Seq<char>>, rest: Seq<char>, k: int)
    requires
        lines.len() > 0,
        forall|i: int| 0 <= i < lines.len() ==> clean_line(#[trigger] lines[i]),
        rest.len() >= 2,
        rest[0] == '\r' && rest[1] == '\n',
        0 <= k < join(lines).len(),
        k + 4 <= (join(lines) + rest).len(),
    ensures
        ({
            let t = join(lines) + rest;
            !(t[k] == '\r' && t[k + 1] == '\n' && t[k + 2] == '\r' && t[k + 3] == '\n')
        }),
    decreases lines.len(),
{
    lemma_crlf();
    let first = lines[0];
    let n = first.len() as int;
    let t = join(lines) + rest;
    assert(clean_line(first));
    if k < n {
        if k + 1 < n {
            assert(t[k] == first[k] && t[k + 1] == first[k + 1]);
            lemma_crlf_at(first, k);
        } else {
            assert(t[k + 1] == '\r');
        }
    } else {
        let others = lines.drop_first();
        assert forall|i: int| 0 <= i < others.len() implies clean_line(#[trigger] others[i]) by {
            assert(others[i] == lines[i + 1]);
        }
        let u = join(others) + rest;
        assert forall|i: int| n + 2 <= i < t.len() implies t[i] == u[i - n - 2] by {}
        if k == n {
            let second = others[0];
            assert(clean_line(second));
            assert(t[k + 2] == u[0] && t[k + 3] == u[1]);
            assert(u[0] == second[0]);
            if second.len() == 1 {
                assert(u[1] == '\r');
            } else {
                assert(u[1] == second[1]);
                lemma_crlf_at(second, 0);
            }
        } else if k == n + 1 {
            assert(t[k] == '\n');
        } else {
            let j = k - n - 2;
            assert(u[j] == t[k] && u[j + 1] == t[k + 1] && u[j + 2] == t[k + 2] && u[j + 3] == t[k
                + 3]);
            lemma_no_early_blank(others, rest, j);
        }
    }
}

// ── UTF-8 ──

proof fn lemma_encode_concat(a: Seq<char>, b: Seq<char>)
    ensures
        utf8::encode_utf8(a + b) == utf8::encode_utf8(a) + utf8::encode_utf8(b),
    decreases a.len(),
{
    if a.len() == 0 {
        assert(a + b =~= b);
        assert(utf8::encode_utf8(a) + utf8::encode_utf8(b) =~= utf8::encode_utf8(b));
    } else {
        lemma_encode_concat(a.drop_first(), b);
        assert((a + b).drop_first() =~= a.drop_first() + b);
        assert((a + b)[0] == a[0]);
        assert(utf8::encode_utf8(a + b) =~= utf8::encode_utf8(a) + utf8::encode_utf8(b));
    }
}

proof fn lemma_encode_tail()
    ensures
        utf8::encode_utf8(sip_msg::crlf() + sip_msg::crlf()) == sip_msg::blank_line(),
{
    lemma_crlf();
    let s = sip_msg::crlf() + sip_msg::crlf();
    utf8::is_ascii_chars_encode_utf8(s);
    let b = utf8::encode_utf8(s);
    assert(s[0] as u8 == b[0] && s[1] as u8 == b[1] && s[2] as u8 == b[2] && s[3] as u8 == b[3]);
    assert(b =~= sip_msg::blank_line());
}

/// The encoding of one character: a single byte below 128 that is the character, or
/// bytes of at least 128.
proof fn lemma_scalar_bytes(c: char)
    ensures
        utf8::encode_scalar(c as u32).len() > 0,
        (c as u32) < 128 ==> utf8::encode_scalar(c as u32).len() == 1 && utf8::encode_scalar(
            c as u32,
        )[0] as char == c,
        (c as u32) >= 128 ==> forall|i: int|
            0 <= i < utf8::encode_scalar(c as u32).len() ==> #[trigger] utf8::encode_scalar(
                c as u32,
            )[i] >= 128,
{
    let v = c as u32;
    if v < 128 {
        assert(v as u8 == utf8::leading_byte_width_1(v)) by (bit_vector)
            requires
                v < 128,
        ;
    } else {
        assert(utf8::leading_byte_width_2(v) >= 128 && utf8::leading_byte_width_3(v) >= 128
            && utf8::leading_byte_width_4(v) >= 128 && utf8::last_continuation_byte(v) >= 128
            && utf8::second_last_continuation_byte(v) >= 128 && utf8::third_last_continuation_byte(
            v,
        ) >= 128) by (bit_vector);
    }
}

/// The character whose encoding holds an ASCII byte at position `j`.
proof fn lemma_ascii_byte(s: Seq<char>, j: int) -> (k: int)
    requires
        0 <= j < utf8::encode_utf8(s).len(),
        utf8::encode_utf8(s)[j] < 128,
    ensures
        0 <= k < s.len(),
        s[k] == utf8::encode_utf8(s)[j] as char,
        utf8::encode_utf8(s.take(k)).len() == j,
        utf8::encode_utf8(s.take(k + 1)).len() == j + 1,
    decreases s.len(),
{
    assert(s.len() > 0);
    let c: char = s[0];
    let first = utf8::encode_scalar(c as u32);
    let rest = s.drop_first();
    lemma_scalar_bytes(c);
    assert(s.take(1) =~= seq![s[0]]);
    assert(s.take(1).drop_first() =~= Seq::empty());
    assert(utf8::encode_utf8(s.take(1).drop_first()) =~= Seq::empty());
    assert(utf8::encode_utf8(s.take(0)) =~= Seq::empty());
    if j < first.len() {
        assert(utf8::encode_utf8(s)[j] == first[j]);
        0
    } else {
        assert(utf8::encode_utf8(s)[j] == utf8::encode_utf8(rest)[j - first.len()]);
        let k = lemma_ascii_byte(rest, j - first.len());
        assert(s[k + 1] == rest[k]);
        assert(s.take(k + 1).drop_first() =~= rest.take(k));
        assert(s.take(k + 2).drop_first() =~= rest.take(k + 1));
        k + 1
    }
}

/// Longer text has a longer encoding.
proof fn lemma_encode_grows(s: Seq<char>, a: int, b: int)
    requires
        0 <= a < b <= s.len(),
    ensures
        utf8::encode_utf8(s.take(a)).len() < utf8::encode_utf8(s.take(b)).len(),
{
    let mid = s.subrange(a, b);
    assert(s.take(b) =~= s.take(a) + mid);
    lemma_encode_concat(s.take(a), mid);
    lemma_scalar_bytes(mid[0]);
}

proof fn lemma_encode_index(s: Seq<char>, a: int, b: int)
    requires
        0 <= a <= s.len(),
        0 <= b <= s.len(),
        utf8::encode_utf8(s.take(a)).len() == utf8::encode_utf8(s.take(b)).len(),
    ensures
        a == b,
{
    if a < b {
        lemma_encode_grows(s, a, b);
    } else if b < a {
        lemma_encode_grows(s, b, a);
    }
}

/// The first blank line of a message is the one after its head.
proof fn lemma_head_found(lines: Seq<Seq<char>>, body: Seq<u8>)
    requires
        lines.len() > 0,
        forall|i: int| 0 <= i < lines.len() ==> clean_line(#[trigger] lines[i]),
    ensures
        text::find(
            utf8::encode_utf8(join(lines)) + sip_msg::blank_line() + body,
            sip_msg::blank_line(),
        ) == Some(utf8::encode_utf8(join(lines)).len() as int),
{
    let head = join(lines);
    let tail = sip_msg::crlf() + sip_msg::crlf();
    let t = head + tail;
    let bytes = utf8::encode_utf8(t);
    let data = utf8::encode_utf8(head) + sip_msg::blank_line() + body;
    let n = utf8::encode_utf8(head).len() as int;
    lemma_crlf();
    lemma_encode_concat(head, tail);
    lemma_encode_tail();
    assert(data.subrange(n, n + 4) =~= sip_msg::blank_line());
    assert forall|j: int| 0 <= j < n implies !text::occurs_at(data, sip_msg::blank_line(), j) by {
        if text::occurs_at(data, sip_msg::blank_line(), j) {
            let w = data.subrange(j, j + 4);
            assert(data[j] == w[0] && data[j + 1] == w[1] && data[j + 2] == w[2] && data[j + 3]
                == w[3]);
            assert forall|i: int| 0 <= i < n + 4 implies data[i] == bytes[i] by {}
            let k0 = lemma_ascii_byte(t, j);
            let k1 = lemma_ascii_byte(t, j + 1);
            let k2 = lemma_ascii_byte(t, j + 2);
            let k3 = lemma_ascii_byte(t, j + 3);
            lemma_encode_index(t, k0 + 1, k1);
            lemma_encode_index(t, k1 + 1, k2);
            lemma_encode_index(t, k2 + 1, k3);
            if k0 >= head.len() {
                assert(t.take(head.len() as int) =~= head);
                if k0 > head.len() {
                    lemma_encode_grows(t, head.len() as int, k0);
                }
            }
            assert(t[k0] == '\r' && t[k1] == '\n' && t[k2] == '\r' && t[k3] == '\n');
            lemma_no_early_blank(lines, tail, k0);
        }
    }
    text::lemma_find_is(data, sip_msg::blank_line(), 0, n);
}

// ── Reading the lines back ──

proof fn lemma_parse_start_line(m: SipView)
    requires
        sendable(m),
    ensures
        sip_msg::parse_start_line(sip_msg::start_line(m)) == Ok::<SipView, ParseError>(
            SipView { headers: Seq::empty(), body: Seq::empty(), ..m },
        ),
{
    lemma_blanks();
    reveal_strlit("SIP/2.0 ");
    reveal_strlit("SIP/2.0");
    let line = sip_msg::start_line(m);
    if m.status_code > 0 {
        let code = text::decimal(m.status_code as nat);
        let rest = code + " "@ + m.reason;
        assert(line.subrange(0, 8) =~= "SIP/2.0 "@);
        assert(text::after(line, 8) =~= rest);
        text::lemma_decimal_value(m.status_code as nat);
        assert forall|j: int| 0 <= j < code.len() implies #[trigger] rest[j] != ' ' by {
            assert(text::is_digit(code[j]));
        }
        text::lemma_find_char_is(rest, ' ', code.len() as int);
        assert(text::before(rest, code.len() as int) =~= code);
        assert(text::after(rest, code.len() as int + 1) =~= m.reason);
        text::lemma_parse_decimal(m.status_code as nat, u16::MAX as nat);
        assert(m.method =~= Seq::empty());
        assert(m.request_uri =~= Seq::empty());
    } else {
        let n = m.method.len() as int;
        let rest = m.request_uri + " "@ + sip_msg::sip_version();
        assert(line[n] == ' ');
        assert forall|j: int| 0 <= j < n implies #[trigger] line[j] != ' ' by {
            assert(line[j] == m.method[j]);
        }
        text::lemma_find_char_is(line, ' ', n);
        assert(text::before(line, n) =~= m.method);
        assert(text::after(line, n + 1) =~= rest);
        if text::starts_with(line, "SIP/2.0 "@) {
            let w = line.subrange(0, 8);
            assert(w[7] == line[7]);
            assert(n <= 7);
            if n < 7 {
                assert(w[n] == line[n]);
            } else {
                assert(m.method =~= w.subrange(0, 7));
                assert(m.method =~= sip_msg::sip_version());
            }
        }
        let k = m.request_uri.len() as int;
        assert forall|j: int| 0 <= j < k implies #[trigger] rest[j] != ' ' by {
            assert(rest[j] == m.request_uri[j]);
        }
        text::lemma_find_char_is(rest, ' ', k);
        assert(text::before(rest, k) =~= m.request_uri);
        assert(text::after(rest, k + 1) =~= sip_msg::sip_version());
        assert(m.reason =~= Seq::empty());
    }
}

proof fn lemma_parse_field(field: Field)
    requires
        sendable_field(field),
    ensures
        sip_msg::parse_field(sip_msg::field_line(field)) == Some(
            (field.0, text::trim(field.1)),
        ),
{
    lemma_blanks();
    let line = sip_msg::field_line(field);
    let n = field.0.len() as int;
    assert forall|j: int| 0 <= j < n implies #[trigger] line[j] != ':' by {
        assert(line[j] == field.0[j]);
    }
    assert(line[n] == ':');
    text::lemma_find_char_is(line, ':', n);
    assert(text::before(line, n) =~= field.0);
    assert(text::after(line, n + 1) =~= seq![' '] + field.1);
    text::lemma_trim_space_before(field.1);
}

proof fn lemma_parse_lines(fields: Seq<Field>)
    requires
        forall|i: int| 0 <= i < fields.len() ==> sendable_field(#[trigger] fields[i]),
    ensures
        sip_msg::parse_fields(line_list(fields)) == trimmed_fields(fields),
    decreases fields.len(),
{
    if fields.len() == 0 {
        assert(line_list(fields) =~= Seq::empty());
        assert(sip_msg::parse_fields(line_list(fields)) =~= trimmed_fields(fields));
    } else {
        let shorter = fields.drop_last();
        assert forall|i: int| 0 <= i < shorter.len() implies sendable_field(
            #[trigger] shorter[i],
        ) by {
            assert(shorter[i] == fields[i]);
        }
        lemma_parse_lines(shorter);
        assert(line_list(fields).drop_last() =~= line_list(shorter));
        assert(sendable_field(fields[fields.len() - 1]));
        lemma_parse_field(fields.last());
        assert(trimmed_fields(fields) =~= trimmed_fields(shorter).push(
            (fields.last().0, text::trim(fields.last().1)),
        ));
    }
}

/// On the wire the only Content-Length is the length of the body.
proof fn lemma_length_field(m: SipView)
    ensures
        sip_msg::field_value(sip_msg::wire_fields(m), sip_msg::content_length()) == text::decimal(
            m.body.len(),
        ),
{
    let kept = sip_msg::drop_field(m.headers, sip_msg::content_length());
    lemma_dropped(m.headers, sip_msg::content_length());
    lemma_value_push(
        kept,
        (sip_msg::content_length(), text::decimal(m.body.len())),
        sip_msg::content_length(),
    );
    text::lemma_eq_ignore_case(
        sip_msg::content_length(),
        sip_msg::content_length(),
        sip_msg::content_length(),
    );
}

proof fn lemma_dropped(fields: Seq<Field>, name: Seq<char>)
    ensures
        !sip_msg::has_field(sip_msg::drop_field(fields, name), name),
    decreases fields.len(),
{
    if fields.len() > 0 {
        lemma_dropped(fields.drop_last(), name);
        lemma_has_push(sip_msg::drop_field(fields.drop_last(), name), fields.last(), name);
    }
}

// ── The text of messages ──

/// Header fields as they are written: name, colon, space, value, and the end of the line.
pub open spec fn lines_text(fields: Seq<Field>) -> Seq<char>
    decreases fields.len(),
{
    if fields.len() == 0 {
        Seq::empty()
    } else {
        lines_text(fields.drop_last()) + fields.last().0 + seq![':', ' '] + fields.last().1 + seq![
            '\r',
            '\n',
        ]
    }
}

/// The first line of a request or a response, as it is written.
pub open spec fn first_line(m: SipView) -> Seq<char> {
    if m.status_code > 0 {
        seq!['S', 'I', 'P', '/', '2', '.', '0', ' '] + text::decimal(m.status_code as nat) + seq![
            ' ',
        ] + m.reason
    } else {
        m.method + seq![' '] + m.request_uri + seq![' ', 'S', 'I', 'P', '/', '2', '.', '0']
    }
}

/// Whether no field is a Content-Length.
pub open spec fn no_length(fields: Seq<Field>) -> bool {
    forall|i: int|
        0 <= i < fields.len() ==> !text::eq_ignore_case(
            (#[trigger] fields[i]).0,
            "Content-Length"@,
        )
}

/// A message is written as its first line, its header lines, a line with the length of its
/// body, an empty line, and the body.
pub proof fn law_message_text(m: SipView)
    requires
        no_length(m.headers),
    ensures
        sip_msg::wire(m) == utf8::encode_utf8(
            first_line(m) + seq!['\r', '\n'] + lines_text(m.headers) + "Content-Length: "@
                + text::decimal(m.body.len()) + seq!['\r', '\n', '\r', '\n'],
        ) + m.body,
{
    lemma_crlf();
    lemma_blanks();
    reveal_strlit("Content-Length: ");
    reveal_strlit("Content-Length");
    lemma_first_line(m);
    lemma_drop_idle(m.headers);
    let length = (sip_msg::content_length(), text::decimal(m.body.len()));
    let fields = m.headers.push(length);
    assert(fields.drop_last() =~= m.headers);
    lemma_lines_text(m.headers);
    assert("Content-Length: "@ =~= sip_msg::content_length() + ": "@);
    assert(sip_msg::wire_head(m) =~= first_line(m) + seq!['\r', '\n'] + lines_text(m.headers)
        + "Content-Length: "@ + text::decimal(m.body.len()) + seq!['\r', '\n', '\r', '\n']);
}

proof fn lemma_first_line(m: SipView)
    ensures
        sip_msg::start_line(m) == first_line(m),
{
    lemma_blanks();
    reveal_strlit("SIP/2.0 ");
    reveal_strlit("SIP/2.0");
    assert(sip_msg::start_line(m) =~= first_line(m));
}

proof fn lemma_drop_idle(fields: Seq<Field>)
    requires
        no_length(fields),
    ensures
        sip_msg::drop_field(fields, sip_msg::content_length()) == fields,
    decreases fields.len(),
{
    if fields.len() == 0 {
        assert(sip_msg::drop_field(fields, sip_msg::content_length()) =~= fields);
    } else {
        let shorter = fields.drop_last();
        assert forall|i: int| 0 <= i < shorter.len() implies !text::eq_ignore_case(
            (#[trigger] shorter[i]).0,
            "Content-Length"@,
        ) by {
            assert(shorter[i] == fields[i]);
        }
        lemma_drop_idle(shorter);
        assert(!text::eq_ignore_case(fields[fields.len() - 1].0, "Content-Length"@));
        assert(shorter.push(fields.last()) =~= fields);
    }
}

proof fn lemma_lines_text(fields: Seq<Field>)
    ensures
        sip_msg::field_lines(fields) == lines_text(fields),
    decreases fields.len(),
{
    lemma_crlf();
    lemma_blanks();
    if fields.len() > 0 {
        lemma_lines_text(fields.drop_last());
        assert(sip_msg::field_lines(fields) =~= lines_text(fields));
    }
}

/// A message is read from its text: the first line, then each header with no white space
/// around its value, then as much of what follows the empty line as Content-Length says,
/// or all of it where that header is missing or asks for more.
pub proof fn law_message_read(m: SipView, fields: Seq<Field>, tail: Seq<u8>, length: nat)
    requires
        sendable(SipView { headers: Seq::empty(), body: Seq::empty(), ..m }),
        forall|i: int| 0 <= i < fields.len() ==> sendable_field(#[trigger] fields[i]),
        no_length(fields) || text::trim(sip_msg::field_value(fields, "Content-Length"@))
            == text::decimal(length),
        length <= usize::MAX,
    ensures
        sip_msg::parse_spec(
            utf8::encode_utf8(
                first_line(m) + seq!['\r', '\n'] + lines_text(fields) + seq!['\r', '\n'],
            ) + tail,
        ) == Ok::<SipView, ParseError>(
            SipView {
                headers: trimmed_fields(fields),
                body: if no_length(fields) || length > tail.len() {
                    tail
                } else {
                    tail.take(length as int)
                },
                ..m
            },
        ),
{
    let bare = SipView { headers: Seq::empty(), body: Seq::empty(), ..m };
    assert(first_line(bare) == first_line(m));
    lemma_first_line(bare);
    lemma_lines_text(fields);
    lemma_crlf();
    let start = sip_msg::start_line(bare);
    let lines = seq![start] + line_list(fields);
    let head = join(lines);
    lemma_start_line_clean(bare);
    lemma_lines_clean(fields);
    assert forall|i: int| 0 <= i < lines.len() implies clean_line(#[trigger] lines[i]) by {
        if i > 0 {
            assert(lines[i] == line_list(fields)[i - 1]);
        }
    }
    lemma_wire_head(start, fields);
    let break2 = sip_msg::crlf() + sip_msg::crlf();
    let whole = first_line(m) + seq!['\r', '\n'] + lines_text(fields) + seq!['\r', '\n'];
    assert(whole =~= head + break2);
    let data = utf8::encode_utf8(whole) + tail;
    lemma_encode_concat(head, break2);
    lemma_encode_tail();
    assert(data =~= utf8::encode_utf8(head) + sip_msg::blank_line() + tail);
    lemma_head_found(lines, tail);
    let n = utf8::encode_utf8(head).len() as int;
    assert(text::before(data, n) =~= utf8::encode_utf8(head));
    assert(text::after(data, n + 4) =~= tail);
    utf8::encode_utf8_valid_utf8(head);
    utf8::encode_utf8_decode_utf8(head);
    lemma_split_join(lines);
    lemma_parse_start_line(bare);
    assert(lines.drop_first() =~= line_list(fields));
    lemma_parse_lines(fields);
    lemma_trimmed_value(fields, sip_msg::content_length());
    if no_length(fields) {
        lemma_no_value(fields);
        text::lemma_trim_idle(Seq::empty());
    } else {
        text::lemma_parse_decimal(length, usize::MAX as nat);
        if length <= tail.len() {
            assert(text::before(tail, length as int) =~= tail.take(length as int));
        }
    }
}

proof fn lemma_no_value(fields: Seq<Field>)
    requires
        no_length(fields),
    ensures
        sip_msg::field_value(fields, sip_msg::content_length()) == Seq::<char>::empty(),
    decreases fields.len(),
{
    if fields.len() > 0 {
        assert(!text::eq_ignore_case(fields[0].0, "Content-Length"@));
        let rest = fields.drop_first();
        assert forall|i: int| 0 <= i < rest.len() implies !text::eq_ignore_case(
            (#[trigger] rest[i]).0,
            "Content-Length"@,
        ) by {
            assert(rest[i] == fields[i + 1]);
        }
        lemma_no_value(rest);
    }
}

/// A first line that is neither a method, a URI and the version nor the version, a number
/// and a reason is refused.
pub proof fn law_first_line_refused(line: Seq<char>, method: Seq<char>, uri: Seq<char>)
    requires
        lacks(line, ' '),
        lacks(method, ' '),
        lacks(uri, ' '),
        method != seq!['S', 'I', 'P', '/', '2', '.', '0'],
    ensures
        sip_msg::parse_start_line(line) == Err::<SipView, ParseError>(
            ParseError::MalformedStartLine,
        ),
        line != seq!['S', 'I', 'P', '/', '2', '.', '0'] ==> sip_msg::parse_start_line(
            method + seq![' '] + uri + seq![' '] + line,
        ) == Err::<SipView, ParseError>(ParseError::MalformedStartLine),
        text::parse_decimal(uri, u16::MAX as nat) is None ==> sip_msg::parse_start_line(
            seq!['S', 'I', 'P', '/', '2', '.', '0', ' '] + uri + seq![' '] + line,
        ) == Err::<SipView, ParseError>(ParseError::InvalidStatusCode),
{
    reveal_strlit("SIP/2.0 ");
    reveal_strlit("SIP/2.0");
    let version = seq!['S', 'I', 'P', '/', '2', '.', '0'];
    assert("SIP/2.0"@ =~= version);
    assert("SIP/2.0 "@ =~= version.push(' '));
    if text::starts_with(line, "SIP/2.0 "@) {
        assert(line.subrange(0, 8)[7] == line[7]);
    }
    text::lemma_find_char_none(line, ' ');
    let three = method + seq![' '] + uri + seq![' '] + line;
    let n = method.len() as int;
    assert forall|j: int| 0 <= j < n implies #[trigger] three[j] != ' ' by {
        assert(three[j] == method[j]);
    }
    assert(three[n] == ' ');
    text::lemma_find_char_is(three, ' ', n);
    let rest = text::after(three, n + 1);
    assert(rest =~= uri + seq![' '] + line);
    let k = uri.len() as int;
    assert forall|j: int| 0 <= j < k implies #[trigger] rest[j] != ' ' by {
        assert(rest[j] == uri[j]);
    }
    assert(rest[k] == ' ');
    text::lemma_find_char_is(rest, ' ', k);
    assert(text::after(rest, k + 1) =~= line);
    if text::starts_with(three, "SIP/2.0 "@) {
        let w = three.subrange(0, 8);
        assert(w[7] == three[7]);
        if n < 7 {
            assert(w[n] == three[n]);
        } else if n == 7 {
            assert(method =~= w.subrange(0, 7));
            assert(method =~= version);
        } else {
            assert(three[7] == method[7]);
        }
    }
    let status = version.push(' ') + uri + seq![' '] + line;
    assert(status =~= seq!['S', 'I', 'P', '/', '2', '.', '0', ' '] + uri + seq![' '] + line);
    assert(status.subrange(0, 8) =~= "SIP/2.0 "@);
    assert(text::after(status, 8) =~= rest);
    assert(text::before(rest, k) =~= uri);
}

// ── Lines and fields ──

/// A header line holds a field where it has a colon: the text before the first, and what
/// comes after it without the white space around that, of which there may be none. Lines
/// hold their fields in order.
pub proof fn law_field_lines(
    name: Seq<char>,
    pre: Seq<char>,
    value: Seq<char>,
    post: Seq<char>,
    lines: Seq<Seq<char>>,
)
    requires
        lacks(name, ':'),
        forall|i: int| 0 <= i < pre.len() ==> text::is_whitespace(#[trigger] pre[i]),
        forall|i: int| 0 <= i < post.len() ==> text::is_whitespace(#[trigger] post[i]),
        value.len() > 0,
        text::is_trimmed(value),
    ensures
        sip_msg::parse_fields(lines.push(name + seq![':'] + pre + value + post))
            == sip_msg::parse_fields(lines).push((name, value)),
        sip_msg::parse_fields(lines.push(name + seq![':'])) == sip_msg::parse_fields(lines).push(
            (name, seq![]),
        ),
        sip_msg::parse_fields(lines.push(name)) == sip_msg::parse_fields(lines),
        sip_msg::parse_fields(seq![]) == Seq::<Field>::empty(),
{
    let line = name + seq![':'] + pre + value + post;
    let n = name.len() as int;
    assert forall|j: int| 0 <= j < n implies #[trigger] line[j] != ':' by {
        assert(line[j] == name[j]);
    }
    assert(line[n] == ':');
    text::lemma_find_char_is(line, ':', n);
    assert(text::before(line, n) =~= name);
    assert(text::after(line, n + 1) =~= pre + value + post);
    text::law_trim(pre, value, post);
    assert(lines.push(line).drop_last() =~= lines);
    let bare = name + seq![':'];
    assert forall|j: int| 0 <= j < n implies #[trigger] bare[j] != ':' by {
        assert(bare[j] == name[j]);
    }
    text::lemma_find_char_is(bare, ':', n);
    assert(text::before(bare, n) =~= name);
    assert(text::after(bare, n + 1) =~= seq![]);
    text::lemma_trim_idle(seq![]);
    assert(lines.push(bare).drop_last() =~= lines);
    text::lemma_find_char_none(name, ':');
    assert(lines.push(name).drop_last() =~= lines);
}

/// Where a header is set that the message has, the new value stands where the first of its
/// fields stood, under the name that this had; its other fields go, and all others stay
/// where they were. A header that the message does not have comes last.
pub proof fn law_set_in_place(
    before: Seq<Field>,
    field: Field,
    after: Seq<Field>,
    name: Seq<char>,
    value: Seq<char>,
)
    requires
        !sip_msg::has_field(before, name),
        text::eq_ignore_case(field.0, name),
    ensures
        sip_msg::set_field(before.push(field) + after, name, value) == before.push(
            (field.0, value),
        ) + sip_msg::drop_field(after, name),
        sip_msg::set_field(before, name, value) == before.push((name, value)),
{
    lemma_replace_idle(before, name, value);
    lemma_replace_rest(before, field, after, name, value);
    let all = before.push(field) + after;
    assert(text::eq_ignore_case(all[before.len() as int].0, name));
}

proof fn lemma_replace_idle(fields: Seq<Field>, name: Seq<char>, value: Seq<char>)
    requires
        !sip_msg::has_field(fields, name),
    ensures
        sip_msg::replace_field(fields, name, value) == fields,
    decreases fields.len(),
{
    if fields.len() == 0 {
        assert(sip_msg::replace_field(fields, name, value) =~= fields);
    } else {
        let shorter = fields.drop_last();
        assert(!text::eq_ignore_case(fields[fields.len() - 1].0, name));
        assert forall|i: int| 0 <= i < shorter.len() implies !text::eq_ignore_case(
            #[trigger] shorter[i].0,
            name,
        ) by {
            assert(shorter[i] == fields[i]);
        }
        lemma_replace_idle(shorter, name, value);
        assert(shorter.push(fields.last()) =~= fields);
    }
}

proof fn lemma_replace_rest(
    before: Seq<Field>,
    field: Field,
    after: Seq<Field>,
    name: Seq<char>,
    value: Seq<char>,
)
    requires
        !sip_msg::has_field(before, name),
        text::eq_ignore_case(field.0, name),
    ensures
        sip_msg::replace_field(before.push(field) + after, name, value) == before.push(
            (field.0, value),
        ) + sip_msg::drop_field(after, name),
    decreases after.len(),
{
    let start = before.push(field);
    let all = start + after;
    if after.len() == 0 {
        assert(all =~= start);
        assert(start.drop_last() =~= before);
        lemma_replace_idle(before, name, value);
        assert(before.push((field.0, value)) + sip_msg::drop_field(after, name) =~= before.push(
            (field.0, value),
        ));
    } else {
        let shorter = after.drop_last();
        assert(all.drop_last() =~= start + shorter);
        lemma_replace_rest(before, field, shorter, name, value);
        assert(text::eq_ignore_case((start + shorter)[before.len() as int].0, name));
        let kept = before.push((field.0, value));
        let dropped = sip_msg::drop_field(shorter, name);
        assert((kept + dropped).push(after.last()) =~= kept + dropped.push(after.last()));
    }
}

/// Dropping a header takes out every field of its name, and leaves the others in order.
pub proof fn law_dropped(before: Seq<Field>, field: Field, after: Seq<Field>, name: Seq<char>)
    ensures
        sip_msg::drop_field(before.push(field) + after, name) == if text::eq_ignore_case(
            field.0,
            name,
        ) {
            sip_msg::drop_field(before, name) + sip_msg::drop_field(after, name)
        } else {
            sip_msg::drop_field(before, name).push(field) + sip_msg::drop_field(after, name)
        },
        sip_msg::drop_field(seq![], name) == Seq::<Field>::empty(),
    decreases after.len(),
{
    let start = before.push(field);
    let all = start + after;
    let first = if text::eq_ignore_case(field.0, name) {
        sip_msg::drop_field(before, name)
    } else {
        sip_msg::drop_field(before, name).push(field)
    };
    if after.len() == 0 {
        assert(all =~= start);
        assert(start.drop_last() =~= before);
        assert(first + sip_msg::drop_field(after, name) =~= first);
    } else {
        let shorter = after.drop_last();
        assert(all.drop_last() =~= start + shorter);
        law_dropped(before, field, shorter, name);
        let rest = sip_msg::drop_field(shorter, name);
        assert((first + rest).push(after.last()) =~= first + rest.push(after.last()));
    }
}

/// The bytes of an empty line behind another: two line breaks.
pub open spec fn empty_line() -> Seq<u8> {
    seq![13u8, 10u8, 13u8, 10u8]
}

/// Bytes without an empty line are all head: there is no body then.
pub proof fn law_head_only(data: Seq<u8>)
    requires
        forall|i: int| !#[trigger] text::occurs_at(data, empty_line(), i),
    ensures
        sip_msg::parse_spec(data) matches Ok(m) ==> m.body.len() == 0 && utf8::valid_utf8(data),
        !utf8::valid_utf8(data) && data.len() > 0 ==> sip_msg::parse_spec(data) == Err::<
            SipView,
            ParseError,
        >(ParseError::InvalidUtf8),
{
    assert(sip_msg::blank_line() == empty_line());
    text::lemma_find_none(data, empty_line(), 0);
}

/// No bytes are no message. A head that is no text makes none either, whatever follows it.
pub proof fn law_no_message(head: Seq<u8>, tail: Seq<u8>)
    requires
        !utf8::valid_utf8(head),
        forall|i: int|
            0 <= i < head.len() ==> !#[trigger] text::occurs_at(
                head + empty_line() + tail,
                empty_line(),
                i,
            ),
    ensures
        sip_msg::parse_spec(seq![]) == Err::<SipView, ParseError>(ParseError::Empty),
        sip_msg::parse_spec(head + empty_line() + tail) == Err::<
            SipView,
            ParseError,
        >(ParseError::InvalidUtf8),
{
    let blank = empty_line();
    let data = head + blank + tail;
    let n = head.len() as int;
    assert(data.subrange(n, n + 4) =~= blank);
    text::lemma_find_is(data, blank, 0, n);
    assert(text::before(data, n) =~= head);
}

/// A Content-Length that is no number counts as none: all that follows the head is the
/// body. One that is a number counts as far as there is something.
pub proof fn law_body(fields: Seq<Field>, tail: Seq<u8>, n: nat)
    ensures
        text::parse_decimal(sip_msg::field_value(fields, "Content-Length"@), usize::MAX as nat)
            is None ==> sip_msg::body_of(fields, tail) == tail,
        text::parse_decimal(sip_msg::field_value(fields, "Content-Length"@), usize::MAX as nat)
            == Some(n) ==> sip_msg::body_of(fields, tail) == if n <= tail.len() {
            tail.take(n as int)
        } else {
            tail
        },
{
    if n <= tail.len() {
        assert(text::before(tail, n as int) =~= tail.take(n as int));
    }
}

/// A first line of two words is refused, and so is a request line with anything else than
/// the version behind the URI, be it the version and more. The reason of a response may
/// hold anything, or nothing.
pub proof fn law_first_line_words(word: Seq<char>, uri: Seq<char>, rest: Seq<char>, code: u16)
    requires
        lacks(word, ' '),
        lacks(uri, ' '),
        word != seq!['S', 'I', 'P', '/', '2', '.', '0'],
        rest != seq!['S', 'I', 'P', '/', '2', '.', '0'],
    ensures
        sip_msg::parse_start_line(word + seq![' '] + uri) == Err::<SipView, ParseError>(
            ParseError::MalformedStartLine,
        ),
        sip_msg::parse_start_line(seq!['S', 'I', 'P', '/', '2', '.', '0', ' '] + uri) == Err::<
            SipView,
            ParseError,
        >(ParseError::MalformedStartLine),
        sip_msg::parse_start_line(word + seq![' '] + uri + seq![' '] + rest) == Err::<
            SipView,
            ParseError,
        >(ParseError::MalformedStartLine),
        sip_msg::parse_start_line(
            seq!['S', 'I', 'P', '/', '2', '.', '0', ' '] + text::decimal(code as nat) + seq![' ']
                + rest,
        ) == Ok::<SipView, ParseError>(
            SipView {
                method: seq![],
                request_uri: seq![],
                status_code: code,
                reason: rest,
                headers: seq![],
                body: seq![],
            },
        ),
        sip_msg::parse_start_line(
            word + seq![' '] + uri + seq![' ', 'S', 'I', 'P', '/', '2', '.', '0'],
        ) == Ok::<SipView, ParseError>(
            SipView {
                method: word,
                request_uri: uri,
                status_code: 0,
                reason: seq![],
                headers: seq![],
                body: seq![],
            },
        ),
{
    reveal_strlit("SIP/2.0 ");
    reveal_strlit("SIP/2.0");
    let version = seq!['S', 'I', 'P', '/', '2', '.', '0'];
    assert("SIP/2.0"@ =~= version);
    let mark = seq!['S', 'I', 'P', '/', '2', '.', '0', ' '];
    assert("SIP/2.0 "@ =~= mark);
    lemma_two_words(word, uri);
    lemma_third_word(word, uri, rest);
    lemma_third_word(word, uri, version);
    assert(word + seq![' '] + uri + seq![' '] + version =~= word + seq![' '] + uri + seq![
        ' ', 'S', 'I', 'P', '/', '2', '.', '0'
    ]);
    let short = mark + uri;
    assert(short.subrange(0, 8) =~= mark);
    assert(text::after(short, 8) =~= uri);
    text::lemma_find_char_none(uri, ' ');
    let number = text::decimal(code as nat);
    text::lemma_decimal_value(code as nat);
    text::lemma_parse_decimal(code as nat, u16::MAX as nat);
    let status = mark + number + seq![' '] + rest;
    assert(status.subrange(0, 8) =~= mark);
    let behind = text::after(status, 8);
    assert(behind =~= number + seq![' '] + rest);
    let k = number.len() as int;
    assert forall|j: int| 0 <= j < k implies #[trigger] behind[j] != ' ' by {
        assert(behind[j] == number[j]);
        assert(text::is_digit(number[j]));
    }
    assert(behind[k] == ' ');
    text::lemma_find_char_is(behind, ' ', k);
    assert(text::before(behind, k) =~= number);
    assert(text::after(behind, k + 1) =~= rest);
}

/// A line whose first word is not the version does not begin as a response does.
proof fn lemma_no_response(word: Seq<char>, rest: Seq<char>)
    requires
        lacks(word, ' '),
        word != seq!['S', 'I', 'P', '/', '2', '.', '0'],
    ensures
        !text::starts_with(word + seq![' '] + rest, "SIP/2.0 "@),
        text::find_char(word + seq![' '] + rest, ' ') == Some(word.len() as int),
        text::before(word + seq![' '] + rest, word.len() as int) == word,
        text::after(word + seq![' '] + rest, word.len() as int + 1) == rest,
{
    reveal_strlit("SIP/2.0 ");
    let version = seq!['S', 'I', 'P', '/', '2', '.', '0'];
    let line = word + seq![' '] + rest;
    let n = word.len() as int;
    assert forall|j: int| 0 <= j < n implies #[trigger] line[j] != ' ' by {
        assert(line[j] == word[j]);
    }
    assert(line[n] == ' ');
    text::lemma_find_char_is(line, ' ', n);
    assert(text::before(line, n) =~= word);
    assert(text::after(line, n + 1) =~= rest);
    if text::starts_with(line, "SIP/2.0 "@) {
        let w = line.subrange(0, 8);
        assert(w[7] == line[7]);
        if n < 7 {
            assert(w[n] == line[n]);
        } else if n == 7 {
            assert(word =~= w.subrange(0, 7));
            assert(word =~= version);
        } else {
            assert(line[7] == word[7]);
        }
    }
}

proof fn lemma_two_words(word: Seq<char>, uri: Seq<char>)
    requires
        lacks(word, ' '),
        lacks(uri, ' '),
        word != seq!['S', 'I', 'P', '/', '2', '.', '0'],
    ensures
        sip_msg::parse_start_line(word + seq![' '] + uri) == Err::<SipView, ParseError>(
            ParseError::MalformedStartLine,
        ),
{
    lemma_no_response(word, uri);
    text::lemma_find_char_none(uri, ' ');
}

proof fn lemma_third_word(word: Seq<char>, uri: Seq<char>, rest: Seq<char>)
    requires
        lacks(word, ' '),
        lacks(uri, ' '),
        word != seq!['S', 'I', 'P', '/', '2', '.', '0'],
    ensures
        sip_msg::parse_start_line(word + seq![' '] + uri + seq![' '] + rest)
            == if rest == sip_msg::sip_version() {
            Ok::<SipView, ParseError>(
                SipView {
                    method: word,
                    request_uri: uri,
                    status_code: 0,
                    reason: seq![],
                    headers: seq![],
                    body: seq![],
                },
            )
        } else {
            Err::<SipView, ParseError>(ParseError::MalformedStartLine)
        },
{
    let behind = uri + seq![' '] + rest;
    assert(word + seq![' '] + uri + seq![' '] + rest =~= word + seq![' '] + behind);
    lemma_no_response(word, behind);
    let k = uri.len() as int;
    assert forall|j: int| 0 <= j < k implies #[trigger] behind[j] != ' ' by {
        assert(behind[j] == uri[j]);
    }
    assert(behind[k] == ' ');
    text::lemma_find_char_is(behind, ' ', k);
    assert(text::before(behind, k) =~= uri);
    assert(text::after(behind, k + 1) =~= rest);
}

} // verus!
