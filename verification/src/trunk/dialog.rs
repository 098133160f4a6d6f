//! SIP dialogs of the trunk host: the state of one call with a peer, and the messages
//! that it sends.

use vstd::prelude::*;
use vstd::slice::slice_subrange;
use vstd::utf8;

use crate::text;
use crate::trunk::sip_msg;
use crate::trunk::sip_msg::{Field, SipMessage, SipView};
use crate::trunk::util;

verus! {

/// A SIP datagram to send, and the address that it goes to.
#[derive(Debug)]
pub struct SipOutgoing {
    pub data: Vec<u8>,
    pub addr: String,
}

/// Which side began the call.
#[derive(Debug, Clone, Copy, PartialEq, Eq, Structural)]
pub enum DialogRole {
    /// The peer sent the INVITE.
    Uas,
    /// The INVITE went to the peer.
    Uac,
}

/// The SIP methods that the trunk host handles.
#[derive(Debug, Clone, Copy, PartialEq, Eq, Structural)]
pub enum SipMethod {
    Invite,
    Ack,
    Bye,
    Cancel,
    Options,
    Refer,
    Info,
}

/// Why a dialog does not send a request.
#[derive(Debug, Clone, Copy, PartialEq, Eq, Structural)]
pub enum DialogError {
    /// The side that received the INVITE cannot cancel it.
    InvalidState,
}

/// A SIP dialog with a peer.
#[derive(Debug)]
pub struct TrunkDialog {
    /// Which side began the call.
    pub role: DialogRole,
    /// The peer's address.
    pub remote_addr: String,
    /// The address that the trunk host listens on.
    pub local_addr: String,
    /// The Call-ID of the dialog.
    pub sip_call_id: String,
    /// Our tag, the same through the whole dialog.
    pub local_tag: String,
    /// The peer's tag, where it came in a response. Empty until then.
    pub remote_tag: String,
    /// Our side, as a From or To value.
    pub local_from: String,
    /// The peer's side, as a From or To value.
    pub remote_to: String,
    /// The Via values of the INVITE, which every response repeats.
    pub invite_vias: Vec<String>,
    /// The sequence number of the INVITE.
    pub invite_cseq_num: u32,
    /// Where requests within the dialog are addressed to.
    pub contact_uri: String,
    /// Headers of the INVITE, by their names in lower case.
    pub invite_headers: Vec<(String, Vec<String>)>,
    /// The sequence number of our last request.
    pub cseq_counter: u32,
}

/// What a dialog holds.
#[verifier::ext_equal]
pub struct DialogView {
    pub role: DialogRole,
    pub remote_addr: Seq<char>,
    pub local_addr: Seq<char>,
    pub sip_call_id: Seq<char>,
    pub local_tag: Seq<char>,
    pub remote_tag: Seq<char>,
    pub local_from: Seq<char>,
    pub remote_to: Seq<char>,
    pub invite_vias: Seq<Seq<char>>,
    pub invite_cseq_num: u32,
    pub contact_uri: Seq<char>,
    pub invite_headers: Seq<(Seq<char>, Seq<Seq<char>>)>,
    pub cseq_counter: u32,
}

// ── Header values ──

/// The bare URI of a header value: what stands in angle brackets, or else all of it
/// without the white space around it.
pub open spec fn bare_uri(value: Seq<char>) -> Seq<char> {
    match text::find_char(value, '<') {
        Some(start) => match text::find_char(text::after(value, start), '>') {
            Some(end) => value.subrange(start + 1, start + end),
            None => text::trim(value),
        },
        None => text::trim(value),
    }
}

/// Whether `c` ends a tag.
pub open spec fn ends_tag(c: char) -> bool {
    c == ';' || c == ',' || text::is_whitespace(c)
}

/// The run of characters at the beginning of `s` before one that ends a tag.
pub open spec fn until_tag_end(s: Seq<char>) -> Seq<char>
    decreases s.len(),
{
    if s.len() == 0 || ends_tag(s[0]) {
        Seq::empty()
    } else {
        seq![s[0]] + until_tag_end(s.drop_first())
    }
}

/// The tag of a From or To value.
pub open spec fn tag_of(value: Seq<char>) -> Option<Seq<char>> {
    match text::find(value, "tag="@) {
        Some(i) => Some(until_tag_end(text::after(value, i + 4))),
        None => None,
    }
}

/// A From or To value with a tag, unless it has one or there is none to add.
pub open spec fn with_tag(value: Seq<char>, tag: Seq<char>) -> Seq<char> {
    if tag.len() == 0 || text::find(value, "tag="@) is Some {
        value
    } else {
        value + ";tag="@ + tag
    }
}

/// A SIP URI with its host and port replaced and its parameters kept.
pub open spec fn with_host(uri: Seq<char>, addr: Seq<char>) -> Seq<char> {
    match text::find_char(uri, '@') {
        Some(i) => {
            let host = text::after(uri, i + 1);
            let params = match text::find_char(host, ';') {
                Some(j) => text::after(host, j),
                None => Seq::empty(),
            };
            text::before(uri, i) + "@"@ + addr + params
        },
        None => uri,
    }
}

pub open spec fn method_text(method: SipMethod) -> Seq<char> {
    match method {
        SipMethod::Invite => "INVITE"@,
        SipMethod::Ack => "ACK"@,
        SipMethod::Bye => "BYE"@,
        SipMethod::Cancel => "CANCEL"@,
        SipMethod::Options => "OPTIONS"@,
        SipMethod::Refer => "REFER"@,
        SipMethod::Info => "INFO"@,
    }
}

// ── Dialogs ──

/// The headers of an INVITE that a dialog keeps.
pub open spec fn kept_names() -> Seq<Seq<char>> {
    seq!["From"@, "To"@, "Call-ID"@, "Via"@, "Contact"@, "CSeq"@]
}

/// The values of each of the named headers that a message has, by the name in lower
/// case.
pub open spec fn collect(fields: Seq<Field>, names: Seq<Seq<char>>) -> Seq<
    (Seq<char>, Seq<Seq<char>>),
>
    decreases names.len(),
{
    if names.len() == 0 {
        Seq::empty()
    } else {
        let earlier = collect(fields, names.drop_last());
        let values = sip_msg::field_values(fields, names.last());
        if values.len() > 0 {
            earlier.push((text::lower_text(names.last()), values))
        } else {
            earlier
        }
    }
}

/// The dialog that an INVITE from a peer begins.
pub open spec fn uas_dialog(
    local_addr: Seq<char>,
    remote_addr: Seq<char>,
    invite: SipView,
    local_tag: Seq<char>,
) -> DialogView {
    let contact = sip_msg::field_value(invite.headers, "Contact"@);
    let cseq = sip_msg::cseq_of(sip_msg::field_value(invite.headers, "CSeq"@)).0 as u32;
    DialogView {
        role: DialogRole::Uas,
        remote_addr,
        local_addr,
        sip_call_id: sip_msg::field_value(invite.headers, "Call-ID"@),
        local_tag,
        remote_tag: Seq::empty(),
        local_from: sip_msg::field_value(invite.headers, "To"@),
        remote_to: sip_msg::field_value(invite.headers, "From"@),
        invite_vias: sip_msg::field_values(invite.headers, "Via"@),
        invite_cseq_num: cseq,
        contact_uri: if contact.len() > 0 {
            bare_uri(contact)
        } else {
            invite.request_uri
        },
        invite_headers: collect(invite.headers, kept_names()),
        cseq_counter: cseq,
    }
}

/// The URI that a call to `to` goes to: its URI, or where that names no scheme the user of
/// this name at the peer.
pub open spec fn called_uri(to: Seq<char>, remote_addr: Seq<char>) -> Seq<char> {
    let uri = bare_uri(to);
    if text::starts_with(uri, "sip:"@) || text::starts_with(uri, "sips:"@) {
        uri
    } else {
        "sip:"@ + uri + "@"@ + remote_addr
    }
}

/// The dialog of a call to a peer. Until the peer names its contact, requests are addressed
/// to the URI that was called.
pub open spec fn uac_dialog(
    local_addr: Seq<char>,
    remote_addr: Seq<char>,
    sip_call_id: Seq<char>,
    local_tag: Seq<char>,
    from: Seq<char>,
    to: Seq<char>,
) -> DialogView {
    DialogView {
        role: DialogRole::Uac,
        remote_addr,
        local_addr,
        sip_call_id,
        local_tag,
        remote_tag: Seq::empty(),
        local_from: from,
        remote_to: to,
        invite_vias: Seq::empty(),
        invite_cseq_num: 1,
        contact_uri: called_uri(to, remote_addr),
        invite_headers: seq![
            ("from"@, seq![from]),
            ("to"@, seq![to]),
            ("call-id"@, seq![sip_call_id]),
        ],
        cseq_counter: 1,
    }
}

/// The dialog after a response: the first tag that comes stays, the last contact counts.
pub open spec fn after_response(d: DialogView, response: SipView) -> DialogView {
    let contact = sip_msg::field_value(response.headers, "Contact"@);
    DialogView {
        remote_tag: match tag_of(sip_msg::field_value(response.headers, "To"@)) {
            Some(tag) => if d.remote_tag.len() == 0 {
                tag
            } else {
                d.remote_tag
            },
            None => d.remote_tag,
        },
        contact_uri: if contact.len() > 0 {
            bare_uri(contact)
        } else {
            d.contact_uri
        },
        ..d
    }
}

/// The dialog after responses one after the other.
pub open spec fn after_responses(d: DialogView, responses: Seq<SipView>) -> DialogView
    decreases responses.len(),
{
    if responses.len() == 0 {
        d
    } else {
        after_response(after_responses(d, responses.drop_last()), responses.last())
    }
}

/// Our side of the dialog, with our tag.
pub open spec fn local_party(d: DialogView) -> Seq<char> {
    if text::find(d.local_from, "tag="@) is Some {
        d.local_from
    } else {
        d.local_from + ";tag="@ + d.local_tag
    }
}

/// Our Contact value.
pub open spec fn local_contact(d: DialogView) -> Seq<char> {
    "<sip:xbridge@"@ + d.local_addr + ">"@
}

pub open spec fn via_fields(vias: Seq<Seq<char>>) -> Seq<Field> {
    Seq::new(vias.len(), |i: int| ("Via"@, vias[i]))
}

/// The headers of a response to the INVITE, before what its body adds.
pub open spec fn response_fields(d: DialogView) -> Seq<Field> {
    let f1 = sip_msg::set_field(via_fields(d.invite_vias), "From"@, d.remote_to);
    let f2 = sip_msg::set_field(f1, "To"@, local_party(d));
    let f3 = sip_msg::set_field(f2, "Call-ID"@, d.sip_call_id);
    let f4 = sip_msg::set_field(
        f3,
        "CSeq"@,
        text::decimal(d.invite_cseq_num as nat) + " INVITE"@,
    );
    sip_msg::set_field(f4, "Contact"@, local_contact(d))
}

/// A response to the INVITE.
pub open spec fn response_of(
    d: DialogView,
    code: u16,
    reason: Seq<char>,
    body: Seq<u8>,
) -> SipView {
    SipView {
        method: Seq::empty(),
        request_uri: Seq::empty(),
        status_code: code,
        reason,
        headers: if body.len() > 0 {
            sip_msg::set_field(response_fields(d), "Content-Type"@, "application/sdp"@)
        } else {
            response_fields(d)
        },
        body,
    }
}

/// Fields with each of the extra ones set, in turn.
pub open spec fn with_fields(fields: Seq<Field>, extra: Seq<Field>) -> Seq<Field>
    decreases extra.len(),
{
    if extra.len() == 0 {
        fields
    } else {
        sip_msg::set_field(
            with_fields(fields, extra.drop_last()),
            extra.last().0,
            extra.last().1,
        )
    }
}

/// The dialog with the next sequence number.
pub open spec fn next_cseq(d: DialogView) -> DialogView {
    DialogView {
        cseq_counter: if d.cseq_counter == u32::MAX {
            0
        } else {
            (d.cseq_counter + 1) as u32
        },
        ..d
    }
}

/// The headers of a request within the dialog, before the extra ones.
pub open spec fn request_fields(d: DialogView, method: SipMethod, branch: Seq<char>) -> Seq<Field> {
    let f1 = sip_msg::set_field(
        Seq::empty(),
        "Via"@,
        "SIP/2.0/UDP "@ + d.local_addr + ";branch="@ + branch,
    );
    let f2 = sip_msg::set_field(f1, "From"@, local_party(d));
    let f3 = sip_msg::set_field(f2, "To"@, with_tag(d.remote_to, d.remote_tag));
    let f4 = sip_msg::set_field(f3, "Call-ID"@, d.sip_call_id);
    let f5 = sip_msg::set_field(
        f4,
        "CSeq"@,
        text::decimal(next_cseq(d).cseq_counter as nat) + " "@ + method_text(method),
    );
    sip_msg::set_field(f5, "Contact"@, local_contact(d))
}

/// Where requests within the dialog are addressed to. A dialog that the peer began
/// addresses them to where the INVITE came from, as the peer's own contact may lie behind a
/// proxy.
pub open spec fn request_target(d: DialogView) -> Seq<char> {
    if d.role == DialogRole::Uas {
        with_host(d.contact_uri, d.remote_addr)
    } else {
        d.contact_uri
    }
}

/// A request within the dialog.
pub open spec fn request_of(
    d: DialogView,
    branch: Seq<char>,
    method: SipMethod,
    body: Seq<u8>,
    extra: Seq<Field>,
) -> SipView {
    SipView {
        method: method_text(method),
        request_uri: request_target(d),
        status_code: 0,
        reason: Seq::empty(),
        headers: with_fields(request_fields(d, method, branch), extra),
        body,
    }
}

/// Whether `out` is a request of the dialog with some random branch, on its way to the
/// peer.
pub open spec fn sends(
    out: SipOutgoing,
    d: DialogView,
    method: SipMethod,
    body: Seq<u8>,
    extra: Seq<Field>,
) -> bool {
    &&& out.addr@ == d.remote_addr
    &&& exists|bytes: Seq<u8>|
        bytes.len() == 12 && out.data@ == sip_msg::wire(
            request_of(d, #[trigger] util::branch_of(bytes), method, body, extra),
        )
}

/// The body of an INFO request for a key press.
pub open spec fn dtmf_body(digit: Seq<char>, duration_ms: u32) -> Seq<u8> {
    utf8::encode_utf8(
        "Signal="@ + digit + "\r\nDuration="@ + text::decimal(duration_ms as nat) + "\r\n"@,
    )
}

/// Whether `out` answers the INVITE.
pub open spec fn answers(
    out: SipOutgoing,
    d: DialogView,
    code: u16,
    reason: Seq<char>,
    body: Seq<u8>,
) -> bool {
    &&& out.addr@ == d.remote_addr
    &&& out.data@ == sip_msg::wire(response_of(d, code, reason, body))
}

/// Whether `out` ends the call.
pub open spec fn sends_bye(out: SipOutgoing, d: DialogView) -> bool {
    sends(out, d, SipMethod::Bye, Seq::empty(), Seq::empty())
}

/// Whether `out` withdraws our INVITE.
pub open spec fn sends_cancel(out: SipOutgoing, d: DialogView) -> bool {
    sends(out, d, SipMethod::Cancel, Seq::empty(), Seq::empty())
}

/// Whether `out` offers a new session description.
pub open spec fn sends_reinvite(out: SipOutgoing, d: DialogView, sdp: Seq<u8>) -> bool {
    sends(out, d, SipMethod::Invite, sdp, seq![("Content-Type"@, "application/sdp"@)])
}

/// Whether `out` asks the peer to call `target` instead.
pub open spec fn sends_refer(out: SipOutgoing, d: DialogView, target: Seq<char>) -> bool {
    sends(out, d, SipMethod::Refer, Seq::empty(), seq![("Refer-To"@, target)])
}

/// Whether `out` tells the peer of a key press.
pub open spec fn sends_key(
    out: SipOutgoing,
    d: DialogView,
    digit: Seq<char>,
    duration_ms: u32,
) -> bool {
    sends(
        out,
        d,
        SipMethod::Info,
        dtmf_body(digit, duration_ms),
        seq![("Content-Type"@, "application/dtmf-relay"@)],
    )
}

/// The values that a dialog holds for a header, its name in any case.
pub open spec fn kept_values(
    kept: Seq<(Seq<char>, Seq<Seq<char>>)>,
    name: Seq<char>,
) -> Seq<Seq<char>>
    decreases kept.len(),
{
    if kept.len() == 0 {
        Seq::empty()
    } else if text::eq_ignore_case(kept[0].0, name) {
        kept[0].1
    } else {
        kept_values(kept.drop_first(), name)
    }
}

pub open spec fn kept_view(kept: Seq<(String, Vec<String>)>) -> Seq<(Seq<char>, Seq<Seq<char>>)> {
    Seq::new(kept.len(), |i: int| (kept[i].0@, text::texts(kept[i].1@)))
}

impl View for TrunkDialog {
    type V = DialogView;

    open spec fn view(&self) -> DialogView {
        DialogView {
            role: self.role,
            remote_addr: self.remote_addr@,
            local_addr: self.local_addr@,
            sip_call_id: self.sip_call_id@,
            local_tag: self.local_tag@,
            remote_tag: self.remote_tag@,
            local_from: self.local_from@,
            remote_to: self.remote_to@,
            invite_vias: text::texts(self.invite_vias@),
            invite_cseq_num: self.invite_cseq_num,
            contact_uri: self.contact_uri@,
            invite_headers: kept_view(self.invite_headers@),
            cseq_counter: self.cseq_counter,
        }
    }
}

impl SipMethod {
    /// The method's name on the wire.
    pub fn as_str(&self) -> (res: &'static str)
        ensures
            res@ == method_text(*self),
    {
        match self {
            SipMethod::Invite => "INVITE",
            SipMethod::Ack => "ACK",
            SipMethod::Bye => "BYE",
            SipMethod::Cancel => "CANCEL",
            SipMethod::Options => "OPTIONS",
            SipMethod::Refer => "REFER",
            SipMethod::Info => "INFO",
        }
    }
}

/// The bare URI of a header value: `sip:1001@10.0.0.1:5060` of
/// `<sip:1001@10.0.0.1:5060>`.
pub fn extract_uri(header_val: &str) -> (res: &str)
    ensures
        res@ == bare_uri(header_val@),
{
    let all: Vec<char> = text::chars_of(header_val);
    let total: usize = all.len();
    match text::position_of(all.as_slice(), '<') {
        Some(start) => {
            let rest: &[char] = slice_subrange(all.as_slice(), start, total);
            match text::position_of(rest, '>') {
                Some(end) => {
                    proof {
                        text::lemma_find_char(all@, '<');
                        text::lemma_find_char(rest@, '>');
                        assert(rest@[0] == '<');
                    }
                    let uri: &str = header_val.substring_char(start + 1, start + end);
                    return uri;
                },
                None => {},
            }
        },
        None => {},
    }
    let (a, b) = text::trim_range(all.as_slice());
    header_val.substring_char(a, b)
}

/// The tag of a From or To value: `abc123` of `<sip:1001@pbx.local>;tag=abc123`.
pub fn extract_tag(header_val: &str) -> (res: Option<&str>)
    ensures
        match res {
            Some(tag) => tag_of(header_val@) == Some(tag@),
            None => tag_of(header_val@) is None,
        },
{
    let all: Vec<char> = text::chars_of(header_val);
    let total: usize = all.len();
    proof {
        reveal_strlit("tag=");
    }
    match text::position_of_text(all.as_slice(), text::chars_of("tag=").as_slice()) {
        Some(i) => {
            let start: usize = i + 4;
            let ghost value = text::after(all@, start as int);
            let mut end: usize = start;
            assert(value.subrange(0, 0) =~= Seq::empty());
            assert(value.skip(0) =~= value);
            assert(Seq::<char>::empty() + until_tag_end(value) =~= until_tag_end(value));
            while end < total && !(all[end] == ';' || all[end] == ',' || text::is_white(all[end]))
                invariant
                    total == all@.len(),
                    start <= end <= total,
                    value == text::after(all@, start as int),
                    until_tag_end(value) == value.subrange(0, end - start) + until_tag_end(
                        value.skip(end - start),
                    ),
                decreases total - end,
            {
                proof {
                    let k = end - start;
                    let rest = value.skip(k);
                    assert(rest[0] == all@[end as int]);
                    assert(rest.drop_first() =~= value.skip(k + 1));
                    assert(value.subrange(0, k) + (seq![rest[0]] + until_tag_end(rest.drop_first()))
                        =~= value.subrange(0, k + 1) + until_tag_end(value.skip(k + 1)));
                }
                end += 1;
            }
            proof {
                let rest = value.skip(end - start);
                assert(end < total ==> rest[0] == all@[end as int]);
                assert(until_tag_end(rest) =~= Seq::empty());
            }
            let tag: &str = header_val.substring_char(start, end);
            assert(tag@ =~= until_tag_end(value));
            Some(tag)
        },
        None => None,
    }
}

/// A From or To value with a tag, unless it has one or `tag` is empty.
pub fn append_tag(header_val: &str, tag: &str) -> (res: String)
    ensures
        res@ == with_tag(header_val@, tag@),
{
    if tag.is_empty() || util::has_tag(header_val) {
        header_val.to_owned()
    } else {
        let mut out: String = header_val.to_owned();
        out.append(";tag=");
        out.append(tag);
        out
    }
}

/// A SIP URI with its host and port replaced: with `54.172.60.0:5060`,
/// `sip:1@172.25.62.99:5060;transport=udp` becomes
/// `sip:1@54.172.60.0:5060;transport=udp`.
pub fn rewrite_uri_host(uri: &str, addr: &str) -> (res: String)
    ensures
        res@ == with_host(uri@, addr@),
{
    let all: Vec<char> = text::chars_of(uri);
    let total: usize = all.len();
    match text::position_of(all.as_slice(), '@') {
        Some(i) => {
            let host: &[char] = slice_subrange(all.as_slice(), i + 1, total);
            let mut out: String = text::string_of(slice_subrange(all.as_slice(), 0, i));
            out.append("@");
            out.append(addr);
            match text::position_of(host, ';') {
                Some(j) => {
                    out.append(
                        text::string_of(slice_subrange(host, j, host.len())).as_str(),
                    );
                },
                None => {},
            }
            assert(out@ =~= with_host(uri@, addr@));
            out
        },
        None => uri.to_owned(),
    }
}

/// Copies of the values of a header.
fn owned_values(message: &SipMessage, name: &str) -> (res: Vec<String>)
    ensures
        text::texts(res@) == sip_msg::field_values(message@.headers, name@),
{
    let values: Vec<&str> = message.header_values(name);
    let mut out: Vec<String> = Vec::new();
    let mut i: usize = 0;
    while i < values.len()
        invariant
            i <= values@.len(),
            out@.len() == i,
            forall|j: int| 0 <= j < i ==> (#[trigger] out@[j])@ == values@[j]@,
        decreases values@.len() - i,
    {
        out.push(values[i].to_owned());
        i += 1;
    }
    assert(text::texts(out@) =~= sip_msg::field_values(message@.headers, name@));
    out
}

/// Adds the values of a header, where there are any, under its name in lower case.
fn keep_header(kept: &mut Vec<(String, Vec<String>)>, message: &SipMessage, name: &str)
    ensures
        kept_view(final(kept)@) == ({
            let values = sip_msg::field_values(message@.headers, name@);
            if values.len() > 0 {
                kept_view(old(kept)@).push((text::lower_text(name@), values))
            } else {
                kept_view(old(kept)@)
            }
        }),
{
    let values: Vec<String> = owned_values(message, name);
    if values.len() > 0 {
        let ghost texts = text::texts(values@);
        kept.push((text::lower_string(name), values));
        assert(kept_view(kept@) =~= kept_view(old(kept)@).push((text::lower_text(name@), texts)));
    } else {
        assert(text::texts(values@).len() == 0);
    }
}

/// The headers that a dialog keeps of its INVITE.
fn keep_headers(message: &SipMessage) -> (kept: Vec<(String, Vec<String>)>)
    ensures
        kept_view(kept@) == collect(message@.headers, kept_names()),
{
    let names: [&str; 6] = ["From", "To", "Call-ID", "Via", "Contact", "CSeq"];
    let ghost list = kept_names();
    assert forall|i: int| 0 <= i < 6 implies names@[i]@ == #[trigger] list[i] by {}
    let mut kept: Vec<(String, Vec<String>)> = Vec::new();
    let mut i: usize = 0;
    assert(kept_view(kept@) =~= collect(message@.headers, list.take(0)));
    while i < 6
        invariant
            i <= 6,
            list == kept_names(),
            forall|j: int| 0 <= j < 6 ==> names@[j]@ == #[trigger] list[j],
            kept_view(kept@) == collect(message@.headers, list.take(i as int)),
        decreases 6 - i,
    {
        proof {
            let next = list.take(i + 1);
            assert(next.drop_last() =~= list.take(i as int));
            assert(next.last() == list[i as int]);
        }
        keep_header(&mut kept, message, names[i]);
        i += 1;
    }
    assert(list.take(6) =~= list);
    kept
}

/// The URI that a call goes to.
fn uri_to_call(to_header: &str, remote_addr: &str) -> (res: String)
    ensures
        res@ == called_uri(to_header@, remote_addr@),
{
    let uri: &str = extract_uri(to_header);
    let chars: Vec<char> = text::chars_of(uri);
    let sip: Vec<char> = text::chars_of("sip:");
    let sips: Vec<char> = text::chars_of("sips:");
    if text::has_prefix(chars.as_slice(), sip.as_slice()) || text::has_prefix(
        chars.as_slice(),
        sips.as_slice(),
    ) {
        return uri.to_owned();
    }
    let mut out: String = String::from_str("sip:");
    out.append(uri);
    out.append("@");
    out.append(remote_addr);
    out
}

impl TrunkDialog {
    /// The dialog that an INVITE from a peer begins.
    pub fn new(
        local_addr: &str,
        remote_addr: &str,
        invite: &SipMessage,
        local_tag: &str,
    ) -> (d: Self)
        ensures
            d@ == uas_dialog(local_addr@, remote_addr@, invite@, local_tag@),
    {
        let contact: &str = invite.header("Contact");
        let contact_uri: String = if !contact.is_empty() {
            extract_uri(contact).to_owned()
        } else {
            invite.request_uri.clone()
        };
        let (cseq, _method) = sip_msg::parse_cseq(invite.header("CSeq"));
        let d = TrunkDialog {
            role: DialogRole::Uas,
            remote_addr: remote_addr.to_owned(),
            local_addr: local_addr.to_owned(),
            sip_call_id: invite.call_id().to_owned(),
            local_tag: local_tag.to_owned(),
            remote_tag: String::new(),
            local_from: invite.header("To").to_owned(),
            remote_to: invite.header("From").to_owned(),
            invite_vias: owned_values(invite, "Via"),
            invite_cseq_num: cseq,
            contact_uri,
            invite_headers: keep_headers(invite),
            cseq_counter: cseq,
        };
        assert(d@ =~= uas_dialog(local_addr@, remote_addr@, invite@, local_tag@));
        d
    }

    /// The dialog of a call to a peer.
    pub fn new_outbound(
        local_addr: &str,
        remote_addr: &str,
        sip_call_id: &str,
        local_tag: &str,
        from_header: &str,
        to_header: &str,
    ) -> (d: Self)
        ensures
            d@ == uac_dialog(
                local_addr@,
                remote_addr@,
                sip_call_id@,
                local_tag@,
                from_header@,
                to_header@,
            ),
    {
        let contact_uri: String = uri_to_call(to_header, remote_addr);
        let mut kept: Vec<(String, Vec<String>)> = Vec::new();
        kept.push((String::from_str("from"), one_string(from_header)));
        kept.push((String::from_str("to"), one_string(to_header)));
        kept.push((String::from_str("call-id"), one_string(sip_call_id)));
        let d = TrunkDialog {
            role: DialogRole::Uac,
            remote_addr: remote_addr.to_owned(),
            local_addr: local_addr.to_owned(),
            sip_call_id: sip_call_id.to_owned(),
            local_tag: local_tag.to_owned(),
            remote_tag: String::new(),
            local_from: from_header.to_owned(),
            remote_to: to_header.to_owned(),
            invite_vias: Vec::new(),
            invite_cseq_num: 1,
            contact_uri,
            invite_headers: kept,
            cseq_counter: 1,
        };
        proof {
            let want = uac_dialog(
                local_addr@,
                remote_addr@,
                sip_call_id@,
                local_tag@,
                from_header@,
                to_header@,
            );
            assert(d@.invite_headers =~= want.invite_headers);
            assert(d@.invite_vias =~= want.invite_vias);
            assert(d@ =~= want);
        }
        d
    }

    /// Takes over what a response to our INVITE says: the peer's tag, if none is known
    /// yet, and its contact.
    pub fn update_from_response(&mut self, resp: &SipMessage)
        ensures
            final(self)@ == after_response(old(self)@, resp@),
    {
        match extract_tag(resp.header("To")) {
            Some(tag) => {
                if self.remote_tag.as_str().is_empty() {
                    self.remote_tag = tag.to_owned();
                }
            },
            None => {},
        }
        let contact: &str = resp.header("Contact");
        if !contact.is_empty() {
            self.contact_uri = extract_uri(contact).to_owned();
        }
        assert(self@ =~= after_response(old(self)@, resp@));
    }

    /// Our side of the dialog, with our tag.
    fn local_from_with_tag(&self) -> (res: String)
        ensures
            res@ == local_party(self@),
    {
        if util::has_tag(self.local_from.as_str()) {
            self.local_from.clone()
        } else {
            let mut out: String = self.local_from.clone();
            out.append(";tag=");
            out.append(self.local_tag.as_str());
            out
        }
    }

    /// Our Contact value.
    fn contact(&self) -> (res: String)
        ensures
            res@ == local_contact(self@),
    {
        let mut out: String = String::from_str("<sip:xbridge@");
        out.append(self.local_addr.as_str());
        out.append(">");
        out
    }

    /// A message on its way to the peer.
    fn outgoing(&self, message: &SipMessage) -> (res: SipOutgoing)
        ensures
            res.data@ == sip_msg::wire(message@),
            res.addr@ == self@.remote_addr,
    {
        SipOutgoing { data: message.to_bytes(), addr: self.remote_addr.clone() }
    }

    /// A response to the INVITE.
    pub fn response(&self, code: u16, reason: &str, body: &[u8]) -> (res: SipMessage)
        ensures
            res@ == response_of(self@, code, reason@, body@),
    {
        let mut resp: SipMessage = SipMessage::new_response(code, reason);
        let ghost vias = self@.invite_vias;
        let mut i: usize = 0;
        assert(via_fields(vias.take(0)) =~= Seq::empty());
        while i < self.invite_vias.len()
            invariant
                i <= self.invite_vias@.len(),
                vias == self@.invite_vias,
                resp@ == (SipView {
                    method: Seq::empty(),
                    request_uri: Seq::empty(),
                    status_code: code,
                    reason: reason@,
                    headers: via_fields(vias.take(i as int)),
                    body: Seq::empty(),
                }),
            decreases self.invite_vias@.len() - i,
        {
            resp.add_header("Via", self.invite_vias[i].as_str());
            assert(via_fields(vias.take(i + 1)) =~= via_fields(vias.take(i as int)).push(
                ("Via"@, vias[i as int]),
            ));
            i += 1;
        }
        assert(vias.take(i as int) =~= vias);
        resp.set_header("From", self.remote_to.as_str());
        resp.set_header("To", self.local_from_with_tag().as_str());
        resp.set_header("Call-ID", self.sip_call_id.as_str());
        let mut cseq: String = text::decimal_string(self.invite_cseq_num as u64);
        cseq.append(" INVITE");
        resp.set_header("CSeq", cseq.as_str());
        resp.set_header("Contact", self.contact().as_str());
        if body.len() > 0 {
            resp.set_header("Content-Type", "application/sdp");
            let mut copy: Vec<u8> = Vec::new();
            copy.extend_from_slice(body);
            resp.body = copy;
        }
        assert(resp@.body =~= body@);
        assert(resp@ =~= response_of(self@, code, reason@, body@));
        resp
    }

    /// Answers the INVITE. The side that sent the INVITE has nothing to answer.
    pub fn respond(&self, code: u16, reason: &str, body: &[u8]) -> (res: Option<SipOutgoing>)
        ensures
            match res {
                Some(out) => {
                    &&& self@.role == DialogRole::Uas
                    &&& answers(out, self@, code, reason@, body@)
                },
                None => self@.role == DialogRole::Uac,
            },
    {
        match self.role {
            DialogRole::Uac => None,
            DialogRole::Uas => Some(self.outgoing(&self.response(code, reason, body))),
        }
    }

    /// Takes the next sequence number.
    fn next_cseq(&mut self) -> (res: u32)
        ensures
            final(self)@ == next_cseq(old(self)@),
            res == final(self)@.cseq_counter,
    {
        self.cseq_counter = self.cseq_counter.wrapping_add(1);
        assert(self@ =~= next_cseq(old(self)@));
        self.cseq_counter
    }

    /// A request within the dialog, with the given branch.
    pub fn request(
        &mut self,
        branch: &str,
        method: SipMethod,
        body: &[u8],
        extra_headers: &[(&str, &str)],
    ) -> (res: SipMessage)
        ensures
            final(self)@ == next_cseq(old(self)@),
            res@ == request_of(
                old(self)@,
                branch@,
                method,
                body@,
                extra_fields(extra_headers@),
            ),
    {
        let ghost d = self@;
        let cseq: u32 = self.next_cseq();
        let request_uri: String = match self.role {
            DialogRole::Uas => rewrite_uri_host(
                self.contact_uri.as_str(),
                self.remote_addr.as_str(),
            ),
            DialogRole::Uac => self.contact_uri.clone(),
        };
        let mut req: SipMessage = SipMessage::new_request(method.as_str(), request_uri.as_str());
        let mut via: String = String::from_str("SIP/2.0/UDP ");
        via.append(self.local_addr.as_str());
        via.append(";branch=");
        via.append(branch);
        req.set_header("Via", via.as_str());
        let from: String = self.local_from_with_tag();
        assert(from@ == local_party(d));
        req.set_header("From", from.as_str());
        req.set_header(
            "To",
            append_tag(self.remote_to.as_str(), self.remote_tag.as_str()).as_str(),
        );
        req.set_header("Call-ID", self.sip_call_id.as_str());
        let mut cseq_text: String = text::decimal_string(cseq as u64);
        cseq_text.append(" ");
        cseq_text.append(method.as_str());
        req.set_header("CSeq", cseq_text.as_str());
        req.set_header("Contact", self.contact().as_str());
        let ghost base = req@;
        let ghost extra = extra_fields(extra_headers@);
        assert(base.headers == request_fields(d, method, branch@));
        let mut i: usize = 0;
        assert(extra.take(0) =~= Seq::empty());
        while i < extra_headers.len()
            invariant
                i <= extra_headers@.len(),
                extra == extra_fields(extra_headers@),
                req@ == (SipView { headers: with_fields(base.headers, extra.take(i as int)), ..base }),
            decreases extra_headers@.len() - i,
        {
            proof {
                let next = extra.take(i + 1);
                assert(next.drop_last() =~= extra.take(i as int));
                assert(next.last() == extra[i as int]);
            }
            req.set_header(extra_headers[i].0, extra_headers[i].1);
            i += 1;
        }
        assert(extra.take(i as int) =~= extra);
        if body.len() > 0 {
            let mut copy: Vec<u8> = Vec::new();
            copy.extend_from_slice(body);
            req.body = copy;
        }
        assert(req@.body =~= body@);
        assert(req@ =~= request_of(d, branch@, method, body@, extra));
        req
    }

    /// Sends a request within the dialog, with a new branch.
    pub fn send_sip_request(
        &mut self,
        method: SipMethod,
        body: &[u8],
        extra_headers: &[(&str, &str)],
    ) -> (res: SipOutgoing)
        ensures
            final(self)@ == next_cseq(old(self)@),
            sends(res, old(self)@, method, body@, extra_fields(extra_headers@)),
    {
        let branch: String = util::generate_branch();
        let req: SipMessage = self.request(branch.as_str(), method, body, extra_headers);
        self.outgoing(&req)
    }

    /// Ends the call.
    pub fn send_bye(&mut self) -> (res: SipOutgoing)
        ensures
            final(self)@ == next_cseq(old(self)@),
            sends_bye(res, old(self)@),
    {
        let body: [u8; 0] = [];
        let extra: [(&str, &str); 0] = [];
        assert(body@ =~= Seq::empty());
        assert(extra_fields(extra@) =~= Seq::empty());
        self.send_sip_request(SipMethod::Bye, body.as_slice(), extra.as_slice())
    }

    /// Withdraws our INVITE. Only the side that sent it can.
    pub fn send_cancel(&mut self) -> (res: Result<SipOutgoing, DialogError>)
        ensures
            match res {
                Ok(out) => {
                    &&& old(self)@.role == DialogRole::Uac
                    &&& final(self)@ == next_cseq(old(self)@)
                    &&& sends_cancel(out, old(self)@)
                },
                Err(e) => {
                    &&& old(self)@.role == DialogRole::Uas
                    &&& e == DialogError::InvalidState
                    &&& final(self)@ == old(self)@
                },
            },
    {
        match self.role {
            DialogRole::Uas => Err(DialogError::InvalidState),
            DialogRole::Uac => {
                let body: [u8; 0] = [];
                let extra: [(&str, &str); 0] = [];
                assert(body@ =~= Seq::empty());
                assert(extra_fields(extra@) =~= Seq::empty());
                Ok(self.send_sip_request(SipMethod::Cancel, body.as_slice(), extra.as_slice()))
            },
        }
    }

    /// Offers a new session description.
    pub fn send_reinvite(&mut self, sdp: &[u8]) -> (res: SipOutgoing)
        ensures
            final(self)@ == next_cseq(old(self)@),
            sends_reinvite(res, old(self)@, sdp@),
    {
        let extra: [(&str, &str); 1] = [("Content-Type", "application/sdp")];
        assert(extra_fields(extra@) =~= seq![("Content-Type"@, "application/sdp"@)]);
        self.send_sip_request(SipMethod::Invite, sdp, extra.as_slice())
    }

    /// Asks the peer to call `target` instead.
    pub fn send_refer(&mut self, target: &str) -> (res: SipOutgoing)
        ensures
            final(self)@ == next_cseq(old(self)@),
            sends_refer(res, old(self)@, target@),
    {
        let body: [u8; 0] = [];
        let extra: [(&str, &str); 1] = [("Refer-To", target)];
        assert(body@ =~= Seq::empty());
        assert(extra_fields(extra@) =~= seq![("Refer-To"@, target@)]);
        self.send_sip_request(SipMethod::Refer, body.as_slice(), extra.as_slice())
    }

    /// Tells the peer of a key press.
    pub fn send_info_dtmf(&mut self, digit: &str, duration_ms: u32) -> (res: SipOutgoing)
        ensures
            final(self)@ == next_cseq(old(self)@),
            sends_key(res, old(self)@, digit@, duration_ms),
    {
        let mut body: String = String::from_str("Signal=");
        body.append(digit);
        body.append("\r\nDuration=");
        text::push_decimal(&mut body, duration_ms as u64);
        body.append("\r\n");
        let extra: [(&str, &str); 1] = [("Content-Type", "application/dtmf-relay")];
        assert(extra_fields(extra@) =~= seq![("Content-Type"@, "application/dtmf-relay"@)]);
        self.send_sip_request(SipMethod::Info, body.as_str().as_bytes(), extra.as_slice())
    }

    /// The Call-ID of the dialog.
    pub fn call_id(&self) -> (res: String)
        ensures
            res@ == self@.sip_call_id,
    {
        self.sip_call_id.clone()
    }

    /// The values of a header of the INVITE, its name in any case.
    pub fn header(&self, name: &str) -> (res: Vec<String>)
        ensures
            text::texts(res@) == kept_values(self@.invite_headers, name@),
    {
        let ghost kept = self@.invite_headers;
        let mut i: usize = 0;
        assert(kept.skip(0) =~= kept);
        while i < self.invite_headers.len()
            invariant
                i <= self.invite_headers@.len(),
                kept == self@.invite_headers,
                kept_values(kept, name@) == kept_values(kept.skip(i as int), name@),
            decreases self.invite_headers@.len() - i,
        {
            let ghost rest = kept.skip(i as int);
            assert(rest[0] == kept[i as int]);
            assert(rest.drop_first() =~= kept.skip(i + 1));
            if text::same_any_case(self.invite_headers[i].0.as_str(), name) {
                return text::copy_strings(&self.invite_headers[i].1);
            }
            i += 1;
        }
        let none: Vec<String> = Vec::new();
        assert(text::texts(none@) =~= Seq::empty());
        none
    }

    /// The headers of the INVITE that the dialog keeps, by their names in lower case.
    pub fn headers(&self) -> (res: Vec<(String, Vec<String>)>)
        ensures
            kept_view(res@) == self@.invite_headers,
    {
        let mut out: Vec<(String, Vec<String>)> = Vec::new();
        let mut i: usize = 0;
        while i < self.invite_headers.len()
            invariant
                i <= self.invite_headers@.len(),
                out@.len() == i,
                forall|j: int|
                    0 <= j < i ==> (#[trigger] kept_view(out@)[j]) == self@.invite_headers[j],
            decreases self.invite_headers@.len() - i,
        {
            let ghost before = kept_view(out@);
            out.push(
                (
                    self.invite_headers[i].0.clone(),
                    text::copy_strings(&self.invite_headers[i].1),
                ),
            );
            assert forall|j: int| 0 <= j <= i implies (#[trigger] kept_view(out@)[j])
                == self@.invite_headers[j] by {
                if j < i {
                    assert(kept_view(out@)[j] == before[j]);
                }
            }
            i += 1;
        }
        assert(kept_view(out@) =~= self@.invite_headers);
        out
    }
}

/// The text of extra headers.
pub open spec fn extra_fields(extra: Seq<(&str, &str)>) -> Seq<Field> {
    Seq::new(extra.len(), |i: int| (extra[i].0@, extra[i].1@))
}

/// A list of one string.
fn one_string(s: &str) -> (res: Vec<String>)
    ensures
        text::texts(res@) == seq![s@],
{
    let mut out: Vec<String> = Vec::new();
    out.push(s.to_owned());
    assert(text::texts(out@) =~= seq![s@]);
    out
}

} // verus!
