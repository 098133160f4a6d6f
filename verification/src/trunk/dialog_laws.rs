//! Laws of dialogs: what every message of a dialog repeats, and what a dialog keeps.

use vstd::prelude::*;

use crate::text;
use crate::trunk::dialog;
use crate::trunk::dialog::{DialogRole, DialogView, SipMethod, SipOutgoing};
use crate::trunk::sip_laws;
use crate::trunk::sip_msg;
use crate::trunk::sip_msg::{Field, ParseError, SipView};
use crate::trunk::util;

verus! {

/// Two header names are different, whatever the case of their letters.
pub open spec fn differ(a: Seq<char>, b: Seq<char>) -> bool {
    !text::eq_ignore_case(a, b) && !text::eq_ignore_case(b, a)
}

pub proof fn lemma_differ_at(a: Seq<char>, b: Seq<char>, i: int)
    requires
        0 <= i < a.len(),
        i < b.len(),
        text::lower(a[i]) != text::lower(b[i]),
    ensures
        differ(a, b),
{
    if text::eq_ignore_case(a, b) {
        assert(text::lower(a[i]) == text::lower(b[i]));
    }
    if text::eq_ignore_case(b, a) {
        assert(text::lower(b[i]) == text::lower(a[i]));
    }
}

pub proof fn lemma_names()
    ensures
        "Via"@.len() == 3,
        "From"@.len() == 4,
        "To"@.len() == 2,
        "Call-ID"@.len() == 7,
        "CSeq"@.len() == 4,
        "Contact"@.len() == 7,
        "Content-Type"@.len() == 12,
        differ("From"@, "CSeq"@),
        differ("Call-ID"@, "Contact"@),
{
    reveal_strlit("Via");
    reveal_strlit("From");
    reveal_strlit("To");
    reveal_strlit("Call-ID");
    reveal_strlit("CSeq");
    reveal_strlit("Contact");
    reveal_strlit("Content-Type");
    lemma_differ_at("From"@, "CSeq"@, 0);
    lemma_differ_at("Call-ID"@, "Contact"@, 1);
}

proof fn lemma_via_values(vias: Seq<Seq<char>>)
    ensures
        sip_msg::field_values(dialog::via_fields(vias), "Via"@) == vias,
    decreases vias.len(),
{
    if vias.len() == 0 {
        assert(sip_msg::field_values(dialog::via_fields(vias), "Via"@) =~= vias);
    } else {
        lemma_via_values(vias.drop_last());
        assert(dialog::via_fields(vias).drop_last() =~= dialog::via_fields(vias.drop_last()));
        text::lemma_eq_ignore_case("Via"@, "Via"@, "Via"@);
        assert(vias.drop_last().push(vias.last()) =~= vias);
    }
}

/// Every response of a dialog repeats all Via values of the INVITE, in order, and
/// carries the same To, with our tag, the same From, Call-ID and CSeq. Only a response
/// with a body has a Content-Type.
pub proof fn law_response_headers(d: DialogView, code: u16, reason: Seq<char>, body: Seq<u8>)
    ensures
        ({
            let headers = dialog::response_of(d, code, reason, body).headers;
            &&& sip_msg::field_values(headers, "Via"@) == d.invite_vias
            &&& sip_msg::field_values(headers, "To"@) == seq![dialog::local_party(d)]
            &&& sip_msg::field_values(headers, "From"@) == seq![d.remote_to]
            &&& sip_msg::field_values(headers, "Call-ID"@) == seq![d.sip_call_id]
            &&& sip_msg::field_values(headers, "CSeq"@) == seq![
                text::decimal(d.invite_cseq_num as nat) + " INVITE"@,
            ]
            &&& sip_msg::field_values(headers, "Content-Type"@) == if body.len() > 0 {
                seq!["application/sdp"@]
            } else {
                Seq::empty()
            }
            &&& sip_msg::field_values(headers, "Contact"@) == seq![dialog::local_contact(d)]
        }),
{
    lemma_names();
    let vias = dialog::via_fields(d.invite_vias);
    lemma_via_values(d.invite_vias);
    let cseq = text::decimal(d.invite_cseq_num as nat) + " INVITE"@;
    let f1 = sip_msg::set_field(vias, "From"@, d.remote_to);
    let f2 = sip_msg::set_field(f1, "To"@, dialog::local_party(d));
    let f3 = sip_msg::set_field(f2, "Call-ID"@, d.sip_call_id);
    let f4 = sip_msg::set_field(f3, "CSeq"@, cseq);
    let f5 = sip_msg::set_field(f4, "Contact"@, dialog::local_contact(d));
    lemma_no_content_type(d.invite_vias);
    assert forall|name: Seq<char>|
        name == "Via"@ || name == "Content-Type"@ implies #[trigger] sip_msg::field_values(
        f5,
        name,
    ) == sip_msg::field_values(vias, name) by {
        sip_laws::law_set_header(vias, "From"@, d.remote_to, name);
        sip_laws::law_set_header(f1, "To"@, dialog::local_party(d), name);
        sip_laws::law_set_header(f2, "Call-ID"@, d.sip_call_id, name);
        sip_laws::law_set_header(f3, "CSeq"@, cseq, name);
        sip_laws::law_set_header(f4, "Contact"@, dialog::local_contact(d), name);
    }
    sip_laws::law_set_header(vias, "From"@, d.remote_to, "From"@);
    sip_laws::law_set_header(f1, "To"@, dialog::local_party(d), "From"@);
    sip_laws::law_set_header(f2, "Call-ID"@, d.sip_call_id, "From"@);
    sip_laws::law_set_header(f2, "Call-ID"@, d.sip_call_id, "To"@);
    sip_laws::law_set_header(f3, "CSeq"@, cseq, "From"@);
    sip_laws::law_set_header(f3, "CSeq"@, cseq, "To"@);
    sip_laws::law_set_header(f3, "CSeq"@, cseq, "Call-ID"@);
    let contact = dialog::local_contact(d);
    sip_laws::law_set_header(f4, "Contact"@, contact, "From"@);
    sip_laws::law_set_header(f4, "Contact"@, contact, "To"@);
    sip_laws::law_set_header(f4, "Contact"@, contact, "Call-ID"@);
    sip_laws::law_set_header(f4, "Contact"@, contact, "CSeq"@);
    if body.len() > 0 {
        let sdp = "application/sdp"@;
        sip_laws::law_set_header(f5, "Content-Type"@, sdp, "Via"@);
        sip_laws::law_set_header(f5, "Content-Type"@, sdp, "From"@);
        sip_laws::law_set_header(f5, "Content-Type"@, sdp, "To"@);
        sip_laws::law_set_header(f5, "Content-Type"@, sdp, "Call-ID"@);
        sip_laws::law_set_header(f5, "Content-Type"@, sdp, "CSeq"@);
        sip_laws::law_set_header(f5, "Content-Type"@, sdp, "Contact"@);
    }
}

proof fn lemma_no_content_type(vias: Seq<Seq<char>>)
    ensures
        sip_msg::field_values(dialog::via_fields(vias), "Content-Type"@) == Seq::<Seq<char>>::empty(),
    decreases vias.len(),
{
    lemma_names();
    if vias.len() > 0 {
        lemma_no_content_type(vias.drop_last());
        assert(dialog::via_fields(vias).drop_last() =~= dialog::via_fields(vias.drop_last()));
    }
}

/// Responses to an INVITE repeat the Via values of that INVITE.
pub proof fn law_response_vias(
    local_addr: Seq<char>,
    remote_addr: Seq<char>,
    invite: SipView,
    local_tag: Seq<char>,
    code: u16,
    reason: Seq<char>,
    body: Seq<u8>,
)
    ensures
        sip_msg::field_values(
            dialog::response_of(
                dialog::uas_dialog(local_addr, remote_addr, invite, local_tag),
                code,
                reason,
                body,
            ).headers,
            "Via"@,
        ) == sip_msg::field_values(invite.headers, "Via"@),
{
    law_response_headers(
        dialog::uas_dialog(local_addr, remote_addr, invite, local_tag),
        code,
        reason,
        body,
    );
}

/// Whether none of the fields has a name that a request of a dialog sets itself to say
/// what it belongs to.
pub open spec fn names_no_dialog_header(fields: Seq<Field>) -> bool {
    forall|i: int|
        0 <= i < fields.len() ==> {
            &&& !text::eq_ignore_case((#[trigger] fields[i]).0, "Via"@)
            &&& !text::eq_ignore_case(fields[i].0, "From"@)
            &&& !text::eq_ignore_case(fields[i].0, "To"@)
            &&& !text::eq_ignore_case(fields[i].0, "Call-ID"@)
            &&& !text::eq_ignore_case(fields[i].0, "CSeq"@)
        }
}

/// A request of a dialog names our side with our tag in From, the peer's side with its
/// tag in To, and the dialog's Call-ID; its CSeq reads back as the next sequence number
/// and the method. Extra headers of other names change nothing of that.
pub proof fn law_request_headers(
    d: DialogView,
    branch: Seq<char>,
    method: SipMethod,
    body: Seq<u8>,
    extra: Seq<Field>,
)
    requires
        names_no_dialog_header(extra),
    ensures
        ({
            let headers = dialog::request_of(d, branch, method, body, extra).headers;
            &&& sip_msg::field_value(headers, "Via"@) == "SIP/2.0/UDP "@ + d.local_addr
                + ";branch="@ + branch
            &&& sip_msg::field_value(headers, "From"@) == dialog::local_party(d)
            &&& sip_msg::field_value(headers, "To"@) == dialog::with_tag(d.remote_to, d.remote_tag)
            &&& sip_msg::field_value(headers, "Call-ID"@) == d.sip_call_id
            &&& sip_msg::cseq_of(sip_msg::field_value(headers, "CSeq"@)) == (
                dialog::next_cseq(d).cseq_counter as nat,
                dialog::method_text(method),
            )
        }),
{
    lemma_names();
    let via = "SIP/2.0/UDP "@ + d.local_addr + ";branch="@ + branch;
    let from = dialog::local_party(d);
    let to = dialog::with_tag(d.remote_to, d.remote_tag);
    let number = dialog::next_cseq(d).cseq_counter as nat;
    let cseq = text::decimal(number) + " "@ + dialog::method_text(method);
    let contact = dialog::local_contact(d);
    let none = Seq::<Field>::empty();
    let f1 = sip_msg::set_field(none, "Via"@, via);
    let f2 = sip_msg::set_field(f1, "From"@, from);
    let f3 = sip_msg::set_field(f2, "To"@, to);
    let f4 = sip_msg::set_field(f3, "Call-ID"@, d.sip_call_id);
    let f5 = sip_msg::set_field(f4, "CSeq"@, cseq);
    let f6 = sip_msg::set_field(f5, "Contact"@, contact);
    sip_laws::law_set_header(none, "Via"@, via, "Via"@);
    sip_laws::law_set_header(f1, "From"@, from, "Via"@);
    sip_laws::law_set_header(f2, "To"@, to, "Via"@);
    sip_laws::law_set_header(f2, "To"@, to, "From"@);
    sip_laws::law_set_header(f3, "Call-ID"@, d.sip_call_id, "Via"@);
    sip_laws::law_set_header(f3, "Call-ID"@, d.sip_call_id, "From"@);
    sip_laws::law_set_header(f3, "Call-ID"@, d.sip_call_id, "To"@);
    sip_laws::law_set_header(f4, "CSeq"@, cseq, "Via"@);
    sip_laws::law_set_header(f4, "CSeq"@, cseq, "From"@);
    sip_laws::law_set_header(f4, "CSeq"@, cseq, "To"@);
    sip_laws::law_set_header(f4, "CSeq"@, cseq, "Call-ID"@);
    sip_laws::law_set_header(f5, "Contact"@, contact, "Via"@);
    sip_laws::law_set_header(f5, "Contact"@, contact, "From"@);
    sip_laws::law_set_header(f5, "Contact"@, contact, "To"@);
    sip_laws::law_set_header(f5, "Contact"@, contact, "Call-ID"@);
    sip_laws::law_set_header(f5, "Contact"@, contact, "CSeq"@);
    lemma_extra_keeps(f6, extra, "Via"@);
    lemma_extra_keeps(f6, extra, "From"@);
    lemma_extra_keeps(f6, extra, "To"@);
    lemma_extra_keeps(f6, extra, "Call-ID"@);
    lemma_extra_keeps(f6, extra, "CSeq"@);
    lemma_cseq(number, method);
}

/// Extra headers leave a header of another name as it was.
pub proof fn lemma_extra_keeps(fields: Seq<Field>, extra: Seq<Field>, name: Seq<char>)
    requires
        forall|i: int|
            0 <= i < extra.len() ==> !text::eq_ignore_case((#[trigger] extra[i]).0, name),
    ensures
        sip_msg::field_value(dialog::with_fields(fields, extra), name) == sip_msg::field_value(
            fields,
            name,
        ),
    decreases extra.len(),
{
    if extra.len() > 0 {
        let shorter = extra.drop_last();
        assert forall|i: int| 0 <= i < shorter.len() implies !text::eq_ignore_case(
            (#[trigger] shorter[i]).0,
            name,
        ) by {
            assert(shorter[i] == extra[i]);
        }
        lemma_extra_keeps(fields, shorter, name);
        assert(!text::eq_ignore_case(extra[extra.len() - 1].0, name));
        sip_laws::law_set_header(
            dialog::with_fields(fields, shorter),
            extra.last().0,
            extra.last().1,
            name,
        );
    }
}

/// A CSeq value reads back.
pub proof fn lemma_cseq(number: nat, method: SipMethod)
    requires
        number <= u32::MAX,
    ensures
        sip_msg::cseq_of(text::decimal(number) + " "@ + dialog::method_text(method)) == (
            number,
            dialog::method_text(method),
        ),
{
    reveal_strlit(" ");
    reveal_strlit("INVITE");
    reveal_strlit("ACK");
    reveal_strlit("BYE");
    reveal_strlit("CANCEL");
    reveal_strlit("OPTIONS");
    reveal_strlit("REFER");
    reveal_strlit("INFO");
    let digits = text::decimal(number);
    let name = dialog::method_text(method);
    let value = digits + " "@ + name;
    text::lemma_decimal_value(number);
    text::lemma_parse_decimal(number, u32::MAX as nat);
    assert(value[0] == digits[0] && text::is_digit(digits[0]));
    assert(value.last() == name.last());
    text::lemma_trim_idle(value);
    let n = digits.len() as int;
    assert forall|j: int| 0 <= j < n implies #[trigger] value[j] != ' ' by {
        assert(text::is_digit(digits[j]));
    }
    text::lemma_find_char_is(value, ' ', n);
    assert(text::before(value, n) =~= digits);
    assert(text::after(value, n + 1) =~= name);
}

/// Two requests one after the other have sequence numbers one apart, up to the largest
/// that the field holds.
pub proof fn law_cseq_increments(d: DialogView)
    requires
        d.cseq_counter < u32::MAX - 1,
    ensures
        dialog::next_cseq(d).cseq_counter == d.cseq_counter + 1,
        dialog::next_cseq(dialog::next_cseq(d)).cseq_counter == dialog::next_cseq(d).cseq_counter
            + 1,
{
}

/// The first tag that the peer gives stays, and one that gives none changes nothing of
/// it.
pub proof fn law_remote_tag(d: DialogView, response: SipView)
    ensures
        d.remote_tag.len() > 0 ==> dialog::after_response(d, response).remote_tag == d.remote_tag,
        dialog::tag_of(sip_msg::field_value(response.headers, "To"@)) is None
            ==> dialog::after_response(d, response).remote_tag == d.remote_tag,
        d.remote_tag.len() == 0 ==> (dialog::tag_of(
            sip_msg::field_value(response.headers, "To"@),
        ) matches Some(tag) ==> dialog::after_response(d, response).remote_tag == tag),
{
}

/// The first tag among the To headers of responses that is not empty; empty if there is
/// none.
pub open spec fn first_tag(responses: Seq<SipView>) -> Seq<char>
    decreases responses.len(),
{
    if responses.len() == 0 {
        Seq::empty()
    } else {
        match dialog::tag_of(sip_msg::field_value(responses[0].headers, "To"@)) {
            Some(tag) => if tag.len() > 0 {
                tag
            } else {
                first_tag(responses.drop_first())
            },
            None => first_tag(responses.drop_first()),
        }
    }
}

/// The last Contact of responses that is not empty.
pub open spec fn last_contact(responses: Seq<SipView>) -> Option<Seq<char>>
    decreases responses.len(),
{
    if responses.len() == 0 {
        None
    } else {
        let contact = sip_msg::field_value(responses.last().headers, "Contact"@);
        if contact.len() > 0 {
            Some(contact)
        } else {
            last_contact(responses.drop_last())
        }
    }
}

/// Of any number of responses the first tag stays and the last Contact counts. Nothing else
/// of the dialog changes.
pub proof fn law_responses(d: DialogView, responses: Seq<SipView>)
    ensures
        dialog::after_responses(d, responses) == (DialogView {
            remote_tag: if d.remote_tag.len() > 0 {
                d.remote_tag
            } else {
                first_tag(responses)
            },
            contact_uri: match last_contact(responses) {
                Some(contact) => dialog::bare_uri(contact),
                None => d.contact_uri,
            },
            ..d
        }),
    decreases responses.len(),
{
    let after = dialog::after_responses(d, responses);
    if responses.len() == 0 {
        assert(d.remote_tag.len() == 0 ==> d.remote_tag =~= Seq::empty());
    } else {
        let shorter = responses.drop_last();
        law_responses(d, shorter);
        lemma_first_tag_push(shorter, responses.last());
        assert(shorter.push(responses.last()) =~= responses);
        assert(after.remote_tag =~= if d.remote_tag.len() > 0 {
            d.remote_tag
        } else {
            first_tag(responses)
        });
    }
}

proof fn lemma_first_tag_push(responses: Seq<SipView>, response: SipView)
    ensures
        first_tag(responses.push(response)) == if first_tag(responses).len() > 0 {
            first_tag(responses)
        } else {
            match dialog::tag_of(sip_msg::field_value(response.headers, "To"@)) {
                Some(tag) => tag,
                None => Seq::empty(),
            }
        },
    decreases responses.len(),
{
    let longer = responses.push(response);
    if responses.len() == 0 {
        assert(longer.drop_first() =~= Seq::empty());
        assert(first_tag(longer.drop_first()) =~= Seq::empty());
        match dialog::tag_of(sip_msg::field_value(response.headers, "To"@)) {
            Some(tag) => {
                assert(tag.len() == 0 ==> tag =~= Seq::empty());
            },
            None => {},
        }
    } else {
        lemma_first_tag_push(responses.drop_first(), response);
        assert(longer.drop_first() =~= responses.drop_first().push(response));
        assert(longer[0] == responses[0]);
    }
}

/// The next request of a call to a peer, after any number of responses: its To is the one
/// that was called, with the first tag that a response gave, and it is addressed to the
/// last Contact, or where no response gave one to the URI that was called.
pub proof fn law_next_request(
    local_addr: Seq<char>,
    remote_addr: Seq<char>,
    sip_call_id: Seq<char>,
    local_tag: Seq<char>,
    from: Seq<char>,
    to: Seq<char>,
    responses: Seq<SipView>,
    branch: Seq<char>,
    method: SipMethod,
    body: Seq<u8>,
    extra: Seq<Field>,
)
    requires
        names_no_dialog_header(extra),
    ensures
        ({
            let d = dialog::uac_dialog(
                local_addr,
                remote_addr,
                sip_call_id,
                local_tag,
                from,
                to,
            );
            let q = dialog::request_of(
                dialog::after_responses(d, responses),
                branch,
                method,
                body,
                extra,
            );
            &&& sip_msg::field_value(q.headers, "To"@) == dialog::with_tag(
                to,
                first_tag(responses),
            )
            &&& q.request_uri == match last_contact(responses) {
                Some(contact) => dialog::bare_uri(contact),
                None => dialog::called_uri(to, remote_addr),
            }
        }),
{
    let d = dialog::uac_dialog(local_addr, remote_addr, sip_call_id, local_tag, from, to);
    law_responses(d, responses);
    law_request_headers(dialog::after_responses(d, responses), branch, method, body, extra);
}

/// What a dialog says of its INVITE's headers is what the INVITE said: for the headers
/// that it keeps, their values in order, under the name in any case; for others nothing.
pub proof fn law_kept_headers(
    local_addr: Seq<char>,
    remote_addr: Seq<char>,
    invite: SipView,
    local_tag: Seq<char>,
    name: Seq<char>,
)
    ensures
        ({
            let d = dialog::uas_dialog(local_addr, remote_addr, invite, local_tag);
            let names = dialog::kept_names();
            dialog::kept_values(d.invite_headers, name) == if (exists|i: int|
                0 <= i < names.len() && text::eq_ignore_case(#[trigger] names[i], name)) {
                sip_msg::field_values(invite.headers, name)
            } else {
                Seq::empty()
            }
        }),
{
    lemma_collect(invite.headers, dialog::kept_names(), name);
}

proof fn lemma_collect(fields: Seq<Field>, names: Seq<Seq<char>>, name: Seq<char>)
    ensures
        dialog::kept_values(dialog::collect(fields, names), name) == if (exists|i: int|
            0 <= i < names.len() && text::eq_ignore_case(#[trigger] names[i], name)) {
            sip_msg::field_values(fields, name)
        } else {
            Seq::empty()
        },
    decreases names.len(),
{
    if names.len() > 0 {
        let earlier = names.drop_last();
        let last = names.last();
        let values = sip_msg::field_values(fields, last);
        lemma_collect(fields, earlier, name);
        let kept = dialog::collect(fields, earlier);
        lemma_lower(last, name);
        if values.len() > 0 {
            lemma_kept_push(kept, (text::lower_text(last), values), name);
        }
        if text::eq_ignore_case(last, name) {
            sip_laws::law_name_case(fields, last, name);
            assert(names[names.len() - 1] == last);
        }
        if exists|i: int| 0 <= i < earlier.len() && text::eq_ignore_case(
            #[trigger] earlier[i],
            name,
        ) {
            let i = choose|i: int|
                0 <= i < earlier.len() && text::eq_ignore_case(#[trigger] earlier[i], name);
            assert(names[i] == earlier[i]);
            lemma_kept_found(fields, earlier, name);
        } else if !text::eq_ignore_case(last, name) {
            assert forall|i: int| 0 <= i < names.len() implies !text::eq_ignore_case(
                #[trigger] names[i],
                name,
            ) by {
                if i < earlier.len() {
                    assert(names[i] == earlier[i]);
                }
            }
        }
        if !(exists|i: int|
            0 <= i < earlier.len() && text::eq_ignore_case(#[trigger] earlier[i], name)) {
            lemma_kept_absent(fields, earlier, name);
        }
    }
}

/// The values under a name after one more entry.
proof fn lemma_kept_push(
    kept: Seq<(Seq<char>, Seq<Seq<char>>)>,
    entry: (Seq<char>, Seq<Seq<char>>),
    name: Seq<char>,
)
    ensures
        dialog::kept_values(kept.push(entry), name) == if has_entry(kept, name) {
            dialog::kept_values(kept, name)
        } else if text::eq_ignore_case(entry.0, name) {
            entry.1
        } else {
            Seq::empty()
        },
    decreases kept.len(),
{
    let longer = kept.push(entry);
    if kept.len() == 0 {
        assert(longer.drop_first() =~= Seq::empty());
        assert(dialog::kept_values(longer.drop_first(), name) =~= Seq::empty());
    } else {
        let rest = kept.drop_first();
        lemma_kept_push(rest, entry, name);
        assert(longer.drop_first() =~= rest.push(entry));
        assert(longer[0] == kept[0]);
        if has_entry(rest, name) {
            let i = choose|i: int|
                0 <= i < rest.len() && text::eq_ignore_case((#[trigger] rest[i]).0, name);
            assert(kept[i + 1] == rest[i]);
        }
        if has_entry(kept, name) && !text::eq_ignore_case(kept[0].0, name) {
            let i = choose|i: int|
                0 <= i < kept.len() && text::eq_ignore_case((#[trigger] kept[i]).0, name);
            assert(rest[i - 1] == kept[i]);
        }
    }
}

spec fn has_entry(kept: Seq<(Seq<char>, Seq<Seq<char>>)>, name: Seq<char>) -> bool {
    exists|i: int| 0 <= i < kept.len() && text::eq_ignore_case((#[trigger] kept[i]).0, name)
}

proof fn lemma_lower(a: Seq<char>, b: Seq<char>)
    ensures
        text::eq_ignore_case(text::lower_text(a), b) <==> text::eq_ignore_case(a, b),
{
    let low = text::lower_text(a);
    assert forall|i: int| 0 <= i < a.len() implies text::lower(#[trigger] low[i]) == text::lower(
        a[i],
    ) by {
        let c: char = a[i];
        assert(text::lower(text::lower(c)) == text::lower(c));
    }
    if text::eq_ignore_case(low, b) {
        assert forall|i: int| 0 <= i < a.len() implies text::lower(#[trigger] a[i]) == text::lower(
            b[i],
        ) by {
            assert(text::lower(low[i]) == text::lower(b[i]));
        }
    }
}

/// A name that no kept header has leads to no entry.
proof fn lemma_kept_absent(fields: Seq<Field>, names: Seq<Seq<char>>, name: Seq<char>)
    requires
        forall|i: int| 0 <= i < names.len() ==> !text::eq_ignore_case(#[trigger] names[i], name),
    ensures
        !has_entry(dialog::collect(fields, names), name),
    decreases names.len(),
{
    if names.len() > 0 {
        let earlier = names.drop_last();
        assert forall|i: int| 0 <= i < earlier.len() implies !text::eq_ignore_case(
            #[trigger] earlier[i],
            name,
        ) by {
            assert(earlier[i] == names[i]);
        }
        lemma_kept_absent(fields, earlier, name);
        lemma_lower(names.last(), name);
        assert(!text::eq_ignore_case(names[names.len() - 1], name));
        let all = dialog::collect(fields, names);
        let kept = dialog::collect(fields, earlier);
        if has_entry(all, name) {
            let i = choose|i: int|
                0 <= i < all.len() && text::eq_ignore_case((#[trigger] all[i]).0, name);
            if i < kept.len() {
                assert(kept[i] == all[i]);
            }
        }
    }
}

/// A kept name has an entry exactly where the message has the header.
proof fn lemma_kept_found(fields: Seq<Field>, names: Seq<Seq<char>>, name: Seq<char>)
    requires
        exists|i: int| 0 <= i < names.len() && text::eq_ignore_case(#[trigger] names[i], name),
    ensures
        has_entry(dialog::collect(fields, names), name) <==> sip_msg::field_values(
            fields,
            name,
        ).len() > 0,
    decreases names.len(),
{
    let earlier = names.drop_last();
    let last = names.last();
    let kept = dialog::collect(fields, earlier);
    let all = dialog::collect(fields, names);
    lemma_lower(last, name);
    if text::eq_ignore_case(last, name) {
        sip_laws::law_name_case(fields, last, name);
    }
    let values = sip_msg::field_values(fields, last);
    if values.len() > 0 {
        assert(all[kept.len() as int] == (text::lower_text(last), values));
    }
    if exists|i: int| 0 <= i < earlier.len() && text::eq_ignore_case(#[trigger] earlier[i], name) {
        lemma_kept_found(fields, earlier, name);
    } else {
        assert forall|i: int| 0 <= i < earlier.len() implies !text::eq_ignore_case(
            #[trigger] earlier[i],
            name,
        ) by {}
        lemma_kept_absent(fields, earlier, name);
        let i = choose|i: int|
            0 <= i < names.len() && text::eq_ignore_case(#[trigger] names[i], name);
        if i < earlier.len() {
            assert(earlier[i] == names[i]);
        }
    }
    if has_entry(kept, name) {
        let i = choose|i: int|
            0 <= i < kept.len() && text::eq_ignore_case((#[trigger] kept[i]).0, name);
        assert(all[i] == kept[i]);
    }
    if has_entry(all, name) {
        let i = choose|i: int|
            0 <= i < all.len() && text::eq_ignore_case((#[trigger] all[i]).0, name);
        if i < kept.len() {
            assert(kept[i] == all[i]);
        }
    }
}

// ── Messages that the peer can read ──

/// Whether nothing that a dialog puts into the headers of a response breaks the line.
pub open spec fn one_line_answers(d: DialogView) -> bool {
    &&& sip_laws::one_line(d.local_addr)
    &&& sip_laws::one_line(d.sip_call_id)
    &&& sip_laws::one_line(dialog::local_party(d))
    &&& sip_laws::one_line(d.remote_to)
    &&& forall|i: int|
        0 <= i < d.invite_vias.len() ==> sip_laws::one_line(#[trigger] d.invite_vias[i])
}

/// Whether nothing that a dialog puts into requests breaks the line, and no space stands in
/// where they are addressed to.
pub open spec fn one_line_requests(d: DialogView) -> bool {
    &&& sip_laws::one_line(d.local_addr)
    &&& sip_laws::one_line(d.sip_call_id)
    &&& sip_laws::one_line(dialog::local_party(d))
    &&& sip_laws::one_line(dialog::with_tag(d.remote_to, d.remote_tag))
    &&& sip_laws::one_line(dialog::request_target(d))
    &&& sip_laws::lacks(dialog::request_target(d), ' ')
}

/// Whether every field can be read back from its line.
pub open spec fn all_sendable(fields: Seq<Field>) -> bool {
    forall|i: int| 0 <= i < fields.len() ==> sip_laws::sendable_field(#[trigger] fields[i])
}

/// The peer reads a request of a dialog as it was made.
pub proof fn law_request_arrives(
    d: DialogView,
    branch: Seq<char>,
    method: SipMethod,
    body: Seq<u8>,
    extra: Seq<Field>,
)
    requires
        one_line_requests(d),
        sip_laws::one_line(branch),
        all_sendable(extra),
        body.len() <= usize::MAX,
    ensures
        ({
            let m = dialog::request_of(d, branch, method, body, extra);
            sip_msg::parse_spec(sip_msg::wire(m)) == Ok::<SipView, ParseError>(
                sip_laws::as_received(m),
            )
        }),
{
    let m = dialog::request_of(d, branch, method, body, extra);
    lemma_request_fields(d, branch, method);
    lemma_with_fields(dialog::request_fields(d, method, branch), extra);
    lemma_method(method);
    sip_laws::law_wire_round_trip(m);
}

/// Whether a tag can be told from what follows it.
pub open spec fn plain_tag(tag: Seq<char>) -> bool {
    forall|i: int| 0 <= i < tag.len() ==> !dialog::ends_tag(#[trigger] tag[i])
}

/// Whether `q`, a request as the peer reads it, belongs to the dialog and has this
/// sequence number. White space around a header value is not read. The branch is told from
/// our address where that holds no semicolon.
pub open spec fn belongs(q: SipView, d: DialogView, number: nat, method: SipMethod) -> bool {
    &&& q.method == dialog::method_text(method)
    &&& q.request_uri == dialog::request_target(d)
    &&& sip_msg::cseq_of(sip_msg::field_value(q.headers, "CSeq"@)) == (
        number,
        dialog::method_text(method),
    )
    &&& sip_msg::field_value(q.headers, "Call-ID"@) == text::trim(d.sip_call_id)
    &&& sip_msg::field_value(q.headers, "From"@) == text::trim(dialog::local_party(d))
    &&& sip_msg::field_value(q.headers, "To"@) == text::trim(
        dialog::with_tag(d.remote_to, d.remote_tag),
    )
    &&& sip_laws::lacks(d.local_addr, ';') ==> text::starts_with(
        sip_msg::param_of(sip_msg::field_value(q.headers, "Via"@), "branch"@),
        "z9hG4bK"@,
    )
}

/// The peer reads a request that a dialog has sent as one that belongs to the dialog, with
/// the next sequence number. It goes to the dialog's peer.
pub proof fn law_request_belongs(
    out: SipOutgoing,
    d: DialogView,
    method: SipMethod,
    body: Seq<u8>,
    extra: Seq<Field>,
)
    requires
        dialog::sends(out, d, method, body, extra),
        one_line_requests(d),
        all_sendable(extra),
        names_no_dialog_header(extra),
        body.len() <= usize::MAX,
    ensures
        out.addr@ == d.remote_addr,
        sip_msg::parse_spec(out.data@) is Ok,
        belongs(
            sip_msg::parse_spec(out.data@)->Ok_0,
            d,
            dialog::next_cseq(d).cseq_counter as nat,
            method,
        ),
{
    let bytes = choose|bytes: Seq<u8>|
        bytes.len() == 12 && out.data@ == sip_msg::wire(
            dialog::request_of(d, #[trigger] util::branch_of(bytes), method, body, extra),
        );
    let branch = util::branch_of(bytes);
    let m = dialog::request_of(d, branch, method, body, extra);
    lemma_branch_plain(bytes);
    law_request_arrives(d, branch, method, body, extra);
    law_request_headers(d, branch, method, body, extra);
    lemma_not_length();
    sip_laws::law_wire_keeps_headers(m, "Via"@);
    sip_laws::law_wire_keeps_headers(m, "From"@);
    sip_laws::law_wire_keeps_headers(m, "To"@);
    sip_laws::law_wire_keeps_headers(m, "Call-ID"@);
    sip_laws::law_wire_keeps_headers(m, "CSeq"@);
    text::lemma_trim_part(sip_msg::field_value(m.headers, "CSeq"@));
    text::lemma_trim_idle(text::trim(sip_msg::field_value(m.headers, "CSeq"@)));
    if sip_laws::lacks(d.local_addr, ';') {
        lemma_via_branch(d.local_addr, branch);
        util::law_branch(bytes);
    }
}

/// Two requests that a dialog sends one after the other have sequence numbers one apart,
/// but where the numbers start again. Both name the dialog's Call-ID and the same two
/// sides, go to its peer, and have a branch of the standard form. From carries our tag,
/// unless our side came with another.
pub proof fn law_requests_in_a_row(
    first: SipOutgoing,
    second: SipOutgoing,
    d: DialogView,
    methods: (SipMethod, SipMethod),
    bodies: (Seq<u8>, Seq<u8>),
    extras: (Seq<Field>, Seq<Field>),
)
    requires
        dialog::sends(first, d, methods.0, bodies.0, extras.0),
        dialog::sends(second, dialog::next_cseq(d), methods.1, bodies.1, extras.1),
        d.cseq_counter != u32::MAX - 1,
        one_line_requests(d),
        all_sendable(extras.0),
        all_sendable(extras.1),
        names_no_dialog_header(extras.0),
        names_no_dialog_header(extras.1),
        bodies.0.len() <= usize::MAX,
        bodies.1.len() <= usize::MAX,
    ensures
        first.addr@ == d.remote_addr,
        second.addr@ == d.remote_addr,
        sip_msg::parse_spec(first.data@) is Ok,
        sip_msg::parse_spec(second.data@) is Ok,
        ({
            let q1 = sip_msg::parse_spec(first.data@)->Ok_0;
            let q2 = sip_msg::parse_spec(second.data@)->Ok_0;
            let number = sip_msg::cseq_of(sip_msg::field_value(q1.headers, "CSeq"@)).0;
            &&& number == dialog::next_cseq(d).cseq_counter
            &&& belongs(q1, d, number, methods.0)
            &&& belongs(q2, d, number + 1, methods.1)
            &&& plain_tag(d.local_tag) && (dialog::tag_of(d.local_from) is None || dialog::tag_of(
                d.local_from,
            ) == Some(d.local_tag)) ==> {
                &&& dialog::tag_of(sip_msg::field_value(q1.headers, "From"@)) == Some(d.local_tag)
                &&& dialog::tag_of(sip_msg::field_value(q2.headers, "From"@)) == Some(d.local_tag)
            }
        }),
{
    let next = dialog::next_cseq(d);
    assert(dialog::local_party(next) == dialog::local_party(d));
    assert(dialog::request_target(next) == dialog::request_target(d));
    law_request_belongs(first, d, methods.0, bodies.0, extras.0);
    law_request_belongs(second, next, methods.1, bodies.1, extras.1);
    lemma_tag_of_trimmed(dialog::local_party(d));
    if plain_tag(d.local_tag) && dialog::tag_of(d.local_from) is None {
        lemma_local_tag(d);
    }
}

/// The first request of a dialog has the sequence number that follows the INVITE's,
/// whoever sent the INVITE.
pub proof fn law_first_request(
    local_addr: Seq<char>,
    remote_addr: Seq<char>,
    invite: SipView,
    local_tag: Seq<char>,
    sip_call_id: Seq<char>,
    from: Seq<char>,
    to: Seq<char>,
)
    ensures
        ({
            let asked = dialog::uas_dialog(local_addr, remote_addr, invite, local_tag);
            let number = sip_msg::cseq_of(sip_msg::field_value(invite.headers, "CSeq"@)).0;
            &&& asked.invite_cseq_num == number
            &&& number < u32::MAX ==> dialog::next_cseq(asked).cseq_counter == number + 1
        }),
        ({
            let calling = dialog::uac_dialog(
                local_addr,
                remote_addr,
                sip_call_id,
                local_tag,
                from,
                to,
            );
            dialog::next_cseq(calling).cseq_counter == calling.invite_cseq_num + 1
        }),
{
}

/// A branch is one line without white space around it, and ends neither a parameter nor a
/// piece of one.
pub proof fn lemma_branch_plain(bytes: Seq<u8>)
    ensures
        sip_laws::one_line(util::branch_of(bytes)),
        text::is_trimmed(util::branch_of(bytes)),
        util::branch_of(bytes).len() > 0,
        forall|i: int|
            0 <= i < util::branch_of(bytes).len() ==> {
                &&& (#[trigger] util::branch_of(bytes)[i]) != ';'
                &&& !sip_msg::param_ends().contains(util::branch_of(bytes)[i])
            },
{
    reveal_strlit("z9hG4bK");
    util::law_hex(bytes);
    let branch = util::branch_of(bytes);
    let hex = util::hex_of(bytes);
    let ends = sip_msg::param_ends();
    assert(ends[0] == ',' && ends[1] == ' ' && ends[2] == '\t' && ends[3] == '>');
    assert forall|i: int| 0 <= i < branch.len() implies {
        &&& (#[trigger] branch[i]) != ';'
        &&& !ends.contains(branch[i])
        &&& branch[i] != '\r'
        &&& branch[i] != '\n'
        &&& !text::is_whitespace(branch[i])
    } by {
        if i < 7 {
            assert(branch[i] == "z9hG4bK"@[i]);
        } else {
            assert(branch[i] == hex[i - 7]);
            assert(util::is_hex(hex[i - 7]));
        }
    }
    lemma_no_breaks(branch);
}

pub proof fn lemma_not_length()
    ensures
        !text::eq_ignore_case(sip_msg::content_length(), "Via"@),
        !text::eq_ignore_case(sip_msg::content_length(), "From"@),
        !text::eq_ignore_case(sip_msg::content_length(), "To"@),
        !text::eq_ignore_case(sip_msg::content_length(), "Call-ID"@),
        !text::eq_ignore_case(sip_msg::content_length(), "CSeq"@),
{
    reveal_strlit("Content-Length");
    lemma_names();
}

/// The branch of a Via value reads back, with or without white space around the value.
proof fn lemma_via_branch(addr: Seq<char>, branch: Seq<char>)
    requires
        sip_laws::lacks(addr, ';'),
        text::is_trimmed(branch),
        branch.len() > 0,
        forall|i: int|
            0 <= i < branch.len() ==> {
                &&& (#[trigger] branch[i]) != ';'
                &&& !sip_msg::param_ends().contains(branch[i])
            },
    ensures
        ({
            let value = "SIP/2.0/UDP "@ + addr + ";branch="@ + branch;
            sip_msg::param_of(text::trim(value), "branch"@) == branch
        }),
{
    reveal_strlit("SIP/2.0/UDP ");
    reveal_strlit(";branch=");
    reveal_strlit("branch");
    let value = "SIP/2.0/UDP "@ + addr + ";branch="@ + branch;
    assert(value[0] == 'S' && value.last() == branch.last());
    text::lemma_trim_idle(value);
    let sep = seq![';'];
    let head = "SIP/2.0/UDP "@ + addr;
    let piece = "branch="@ + branch;
    reveal_strlit("branch=");
    let n = head.len() as int;
    assert forall|j: int| 0 <= j < n implies value[j] != ';' by {
        assert(value[j] == head[j]);
        if j >= 12 {
            assert(head[j] == addr[j - 12]);
        }
    }
    lemma_piece_at(value, ';', n);
    assert(text::before(value, n) =~= head);
    assert(text::after(value, n + 1) =~= piece);
    assert forall|j: int| 0 <= j < piece.len() implies piece[j] != ';' by {
        if j >= 7 {
            assert(piece[j] == branch[j - 7]);
        }
    }
    lemma_no_piece(piece, ';');
    let pieces = text::split(value, sep);
    assert(pieces =~= seq![head, piece]);
    // The first piece is no branch.
    let trimmed = text::trim(head);
    lemma_trim_first(head);
    if sip_msg::piece_param(head, "branch"@) is Some {
        let start = text::before(trimmed, 7);
        assert(text::lower(start[0]) == text::lower("branch"@.push('=')[0]));
        assert(start[0] == 'S');
    }
    // The second is.
    assert(piece[0] == 'b');
    assert(piece.last() == branch.last());
    text::lemma_trim_idle(piece);
    assert(text::before(piece, 7) =~= "branch"@.push('='));
    text::lemma_eq_ignore_case("branch"@.push('='), "branch"@.push('='), "branch"@.push('='));
    assert(text::after(piece, 7) =~= branch);
    text::lemma_find_any_none(branch, sip_msg::param_ends(), 0);
    assert(pieces.drop_first() =~= seq![piece]);
    assert(sip_msg::pieces_param(seq![piece], "branch"@) == branch);
}

/// The peer reads a response of a dialog as it was made.
pub proof fn law_response_arrives(d: DialogView, code: u16, reason: Seq<char>, body: Seq<u8>)
    requires
        one_line_answers(d),
        code > 0,
        sip_laws::one_line(reason),
        body.len() <= usize::MAX,
    ensures
        ({
            let m = dialog::response_of(d, code, reason, body);
            sip_msg::parse_spec(sip_msg::wire(m)) == Ok::<SipView, ParseError>(
                sip_laws::as_received(m),
            )
        }),
{
    let m = dialog::response_of(d, code, reason, body);
    let vias = dialog::via_fields(d.invite_vias);
    lemma_literals();
    assert forall|i: int| 0 <= i < vias.len() implies sip_laws::sendable_field(
        #[trigger] vias[i],
    ) by {
        assert(sip_laws::one_line(d.invite_vias[i]));
    }
    let cseq = text::decimal(d.invite_cseq_num as nat) + " INVITE"@;
    lemma_digits_one_line(d.invite_cseq_num as nat);
    lemma_empty_one_line();
    lemma_one_line_joined(
        text::decimal(d.invite_cseq_num as nat),
        " INVITE"@,
        Seq::empty(),
    );
    assert(cseq + Seq::<char>::empty() =~= cseq);
    lemma_contact_one_line(d);
    let f1 = sip_msg::set_field(vias, "From"@, d.remote_to);
    let f2 = sip_msg::set_field(f1, "To"@, dialog::local_party(d));
    let f3 = sip_msg::set_field(f2, "Call-ID"@, d.sip_call_id);
    let f4 = sip_msg::set_field(f3, "CSeq"@, cseq);
    let f5 = sip_msg::set_field(f4, "Contact"@, dialog::local_contact(d));
    lemma_set_sendable(vias, "From"@, d.remote_to);
    lemma_set_sendable(f1, "To"@, dialog::local_party(d));
    lemma_set_sendable(f2, "Call-ID"@, d.sip_call_id);
    lemma_set_sendable(f3, "CSeq"@, cseq);
    lemma_set_sendable(f4, "Contact"@, dialog::local_contact(d));
    lemma_set_sendable(f5, "Content-Type"@, "application/sdp"@);
    sip_laws::law_wire_round_trip(m);
}

/// Whatever INVITE arrives, the peer reads the answers to it as they were made.
pub proof fn law_answer_arrives(
    data: Seq<u8>,
    local_addr: Seq<char>,
    remote_addr: Seq<char>,
    local_tag: Seq<char>,
    code: u16,
    reason: Seq<char>,
    body: Seq<u8>,
)
    requires
        sip_msg::parse_spec(data) is Ok,
        sip_laws::one_line(local_addr),
        sip_laws::one_line(local_tag),
        code > 0,
        sip_laws::one_line(reason),
        body.len() <= usize::MAX,
    ensures
        ({
            let invite = sip_msg::parse_spec(data)->Ok_0;
            let d = dialog::uas_dialog(local_addr, remote_addr, invite, local_tag);
            let m = dialog::response_of(d, code, reason, body);
            sip_msg::parse_spec(sip_msg::wire(m)) == Ok::<SipView, ParseError>(
                sip_laws::as_received(m),
            )
        }),
{
    let invite = sip_msg::parse_spec(data)->Ok_0;
    let d = dialog::uas_dialog(local_addr, remote_addr, invite, local_tag);
    sip_laws::lemma_received_fields(data);
    lemma_value_one_line(invite.headers, "Call-ID"@);
    lemma_value_one_line(invite.headers, "To"@);
    lemma_value_one_line(invite.headers, "From"@);
    lemma_values_one_line(invite.headers, "Via"@);
    reveal_strlit(";tag=");
    lemma_one_line_joined(d.local_from, ";tag="@, local_tag);
    law_response_arrives(d, code, reason, body);
}

/// The value of a header, or an empty one, is one line.
pub proof fn lemma_value_one_line(fields: Seq<Field>, name: Seq<char>)
    requires
        all_sendable(fields),
    ensures
        sip_laws::one_line(sip_msg::field_value(fields, name)),
    decreases fields.len(),
{
    if fields.len() == 0 {
        lemma_no_breaks(sip_msg::field_value(fields, name));
    } else {
        assert(sip_laws::sendable_field(fields[0]));
        let rest = fields.drop_first();
        assert forall|i: int| 0 <= i < rest.len() implies sip_laws::sendable_field(
            #[trigger] rest[i],
        ) by {
            assert(rest[i] == fields[i + 1]);
        }
        lemma_value_one_line(rest, name);
    }
}

/// Each value of a header is one line.
pub proof fn lemma_values_one_line(fields: Seq<Field>, name: Seq<char>)
    requires
        all_sendable(fields),
    ensures
        forall|i: int|
            0 <= i < sip_msg::field_values(fields, name).len() ==> sip_laws::one_line(
                #[trigger] sip_msg::field_values(fields, name)[i],
            ),
    decreases fields.len(),
{
    if fields.len() > 0 {
        assert(sip_laws::sendable_field(fields[fields.len() - 1]));
        let shorter = fields.drop_last();
        assert forall|i: int| 0 <= i < shorter.len() implies sip_laws::sendable_field(
            #[trigger] shorter[i],
        ) by {
            assert(shorter[i] == fields[i]);
        }
        lemma_values_one_line(shorter, name);
        let earlier = sip_msg::field_values(shorter, name);
        let all = sip_msg::field_values(fields, name);
        assert forall|i: int| 0 <= i < all.len() implies sip_laws::one_line(#[trigger] all[i]) by {
            if i < earlier.len() {
                assert(all[i] == earlier[i]);
            }
        }
    }
}

/// A split at a single character begins with what stands before the first one.
pub proof fn lemma_piece_at(s: Seq<char>, c: char, i: int)
    requires
        0 <= i < s.len(),
        s[i] == c,
        forall|j: int| 0 <= j < i ==> #[trigger] s[j] != c,
    ensures
        text::split(s, seq![c]) == seq![text::before(s, i)] + text::split(
            text::after(s, i + 1),
            seq![c],
        ),
{
    let sep = seq![c];
    assert(s.subrange(i, i + 1) =~= sep);
    assert forall|j: int| 0 <= j < i implies !text::occurs_at(s, sep, j) by {
        if text::occurs_at(s, sep, j) {
            assert(s.subrange(j, j + 1)[0] == s[j]);
        }
    }
    text::lemma_find_is(s, sep, 0, i);
}

/// Without the character there is nothing to split.
pub proof fn lemma_no_piece(s: Seq<char>, c: char)
    requires
        forall|j: int| 0 <= j < s.len() ==> #[trigger] s[j] != c,
    ensures
        text::split(s, seq![c]) == seq![s],
{
    let sep = seq![c];
    assert forall|j: int| 0 <= j implies !text::occurs_at(s, sep, j) by {
        if text::occurs_at(s, sep, j) {
            assert(s.subrange(j, j + 1)[0] == s[j]);
        }
    }
    text::lemma_find_none(s, sep, 0);
}

/// Trimming keeps a first character that is no white space.
pub proof fn lemma_trim_first(s: Seq<char>)
    requires
        s.len() > 0,
        !text::is_whitespace(s[0]),
    ensures
        text::trim(s).len() > 0,
        text::trim(s)[0] == s[0],
{
    assert(text::trim_start(s) == s);
    lemma_trim_end_first(s);
}

proof fn lemma_trim_end_first(s: Seq<char>)
    requires
        s.len() > 0,
        !text::is_whitespace(s[0]),
    ensures
        text::trim_end(s).len() > 0,
        text::trim_end(s)[0] == s[0],
    decreases s.len(),
{
    if s.len() > 1 && text::is_whitespace(s.last()) {
        lemma_trim_end_first(s.drop_last());
    }
}

/// Our side carries our tag where it came without one.
proof fn lemma_local_tag(d: DialogView)
    requires
        plain_tag(d.local_tag),
        dialog::tag_of(d.local_from) is None,
    ensures
        dialog::tag_of(dialog::local_party(d)) == Some(d.local_tag),
{
    reveal_strlit("tag=");
    reveal_strlit(";tag=");
    let from = d.local_from;
    let party = dialog::local_party(d);
    let n = from.len() as int;
    let pat = "tag="@;
    assert(party == from + ";tag="@ + d.local_tag);
    text::lemma_find_from(from, pat, 0);
    assert(party.subrange(n + 1, n + 5) =~= pat);
    assert forall|j: int| 0 <= j < n + 1 implies !text::occurs_at(party, pat, j) by {
        if text::occurs_at(party, pat, j) {
            let here = party.subrange(j, j + 4);
            if j + 4 <= n {
                assert(here =~= from.subrange(j, j + 4));
                assert(text::occurs_at(from, pat, j));
            } else {
                assert(here[n - j] == ';');
                assert(pat[n - j] != ';');
            }
        }
    }
    text::lemma_find_is(party, pat, 0, n + 1);
    assert(text::after(party, n + 5) =~= d.local_tag);
    lemma_until_end(d.local_tag);
}

pub proof fn lemma_until_end(tag: Seq<char>)
    requires
        plain_tag(tag),
    ensures
        dialog::until_tag_end(tag) == tag,
    decreases tag.len(),
{
    if tag.len() > 0 {
        let rest = tag.drop_first();
        assert(!dialog::ends_tag(tag[0]));
        assert forall|i: int| 0 <= i < rest.len() implies !dialog::ends_tag(
            #[trigger] rest[i],
        ) by {
            assert(rest[i] == tag[i + 1]);
        }
        lemma_until_end(rest);
        assert(seq![tag[0]] + rest =~= tag);
    } else {
        assert(dialog::until_tag_end(tag) =~= tag);
    }
}

/// White space around a From or To value does not touch its tag.
proof fn lemma_tag_of_trimmed(value: Seq<char>)
    ensures
        dialog::tag_of(text::trim(value)) == dialog::tag_of(value),
{
    lemma_tag_of_trim_start(value);
    lemma_tag_of_trim_end(text::trim_start(value));
}

proof fn lemma_tag_of_trim_start(value: Seq<char>)
    ensures
        dialog::tag_of(text::trim_start(value)) == dialog::tag_of(value),
    decreases value.len(),
{
    if value.len() > 0 && text::is_whitespace(value[0]) {
        reveal_strlit("tag=");
        let pat = "tag="@;
        let rest = value.drop_first();
        lemma_tag_of_trim_start(rest);
        assert forall|j: int| text::occurs_at(rest, pat, j) <==> 0 <= j && text::occurs_at(
            value,
            pat,
            j + 1,
        ) by {
            if 0 <= j && j + 4 <= rest.len() {
                assert(rest.subrange(j, j + 4) =~= value.subrange(j + 1, j + 5));
            }
        }
        if text::occurs_at(value, pat, 0) {
            assert(value.subrange(0, 4)[0] == value[0]);
        }
        text::lemma_find_from(value, pat, 0);
        match text::find(value, pat) {
            Some(i) => {
                assert(text::occurs_at(rest, pat, i - 1));
                assert forall|j: int| 0 <= j < i - 1 implies !text::occurs_at(rest, pat, j) by {
                    assert(!text::occurs_at(value, pat, j + 1));
                }
                text::lemma_find_is(rest, pat, 0, i - 1);
                assert(text::after(rest, i + 3) =~= text::after(value, i + 4));
            },
            None => {
                assert forall|j: int| 0 <= j implies !text::occurs_at(rest, pat, j) by {
                    assert(!text::occurs_at(value, pat, j + 1));
                }
                text::lemma_find_none(rest, pat, 0);
            },
        }
    }
}

proof fn lemma_tag_of_trim_end(value: Seq<char>)
    ensures
        dialog::tag_of(text::trim_end(value)) == dialog::tag_of(value),
    decreases value.len(),
{
    if value.len() > 0 && text::is_whitespace(value.last()) {
        reveal_strlit("tag=");
        let pat = "tag="@;
        let rest = value.drop_last();
        lemma_tag_of_trim_end(rest);
        assert forall|j: int| text::occurs_at(rest, pat, j) <==> text::occurs_at(
            value,
            pat,
            j,
        ) by {
            if 0 <= j && j + 4 <= rest.len() {
                assert(rest.subrange(j, j + 4) =~= value.subrange(j, j + 4));
            } else if 0 <= j && j + 4 == value.len() {
                assert(value.subrange(j, j + 4)[3] == value.last());
            }
        }
        text::lemma_find_from(value, pat, 0);
        match text::find(value, pat) {
            Some(i) => {
                assert(text::occurs_at(rest, pat, i));
                assert forall|j: int| 0 <= j < i implies !text::occurs_at(rest, pat, j) by {
                    assert(!text::occurs_at(value, pat, j));
                }
                text::lemma_find_is(rest, pat, 0, i);
                let tail = text::after(rest, i + 4);
                assert(text::after(value, i + 4) =~= tail.push(value.last()));
                lemma_until_end_push(tail, value.last());
            },
            None => {
                assert forall|j: int| 0 <= j implies !text::occurs_at(rest, pat, j) by {
                    assert(!text::occurs_at(value, pat, j));
                }
                text::lemma_find_none(rest, pat, 0);
            },
        }
    }
}

proof fn lemma_until_end_push(s: Seq<char>, c: char)
    requires
        dialog::ends_tag(c),
    ensures
        dialog::until_tag_end(s.push(c)) == dialog::until_tag_end(s),
    decreases s.len(),
{
    if s.len() > 0 {
        lemma_until_end_push(s.drop_first(), c);
        assert(s.push(c).drop_first() =~= s.drop_first().push(c));
        assert(s.push(c)[0] == s[0]);
    }
}

/// Lines with text in between that holds neither a carriage return nor a line feed are one
/// line.
pub proof fn lemma_one_line_joined(a: Seq<char>, mid: Seq<char>, b: Seq<char>)
    requires
        sip_laws::one_line(a),
        sip_laws::one_line(b),
        mid.len() > 0,
        forall|i: int| 0 <= i < mid.len() ==> (#[trigger] mid[i]) != '\r' && mid[i] != '\n',
    ensures
        sip_laws::one_line(a + mid + b),
{
    let s = a + mid + b;
    let n = a.len() as int;
    let m = (a.len() + mid.len()) as int;
    assert forall|i: int| !text::occurs_at(s, sip_msg::crlf(), i) by {
        sip_laws::lemma_crlf_at(s, i);
        if text::occurs_at(s, sip_msg::crlf(), i) {
            if i + 1 < n {
                sip_laws::lemma_crlf_at(a, i);
                assert(s[i] == a[i] && s[i + 1] == a[i + 1]);
            } else if i + 1 == n {
                assert(s[i + 1] == mid[0]);
            } else if i < m {
                assert(s[i] == mid[i - n]);
            } else {
                sip_laws::lemma_crlf_at(b, i - m);
                assert(s[i] == b[i - m] && s[i + 1] == b[i + 1 - m]);
            }
        }
    }
}

/// Text with neither a carriage return nor a line feed is one line.
pub proof fn lemma_no_breaks(s: Seq<char>)
    requires
        forall|i: int| 0 <= i < s.len() ==> (#[trigger] s[i]) != '\r' && s[i] != '\n',
    ensures
        sip_laws::one_line(s),
{
    assert forall|i: int| !text::occurs_at(s, sip_msg::crlf(), i) by {
        sip_laws::lemma_crlf_at(s, i);
    }
}

pub proof fn lemma_empty_one_line()
    ensures
        sip_laws::one_line(Seq::empty()),
{
    lemma_no_breaks(Seq::empty());
}

proof fn lemma_digits_one_line(n: nat)
    ensures
        sip_laws::one_line(text::decimal(n)),
{
    let s = text::decimal(n);
    text::lemma_decimal_value(n);
    assert forall|i: int| 0 <= i < s.len() implies (#[trigger] s[i]) != '\r' && s[i] != '\n' by {
        assert(text::is_digit(s[i]));
    }
    lemma_no_breaks(s);
}

/// The fixed texts of messages can stand in a header.
proof fn lemma_literals()
    ensures
        name_clean("Via"@),
        name_clean("From"@),
        name_clean("To"@),
        name_clean("Call-ID"@),
        name_clean("CSeq"@),
        name_clean("Contact"@),
        name_clean("Content-Type"@),
        sip_laws::one_line("application/sdp"@),
        " INVITE"@.len() == 7,
        forall|i: int|
            0 <= i < 7 ==> (#[trigger] " INVITE"@[i]) != '\r' && " INVITE"@[i] != '\n',
{
    reveal_strlit("Via");
    reveal_strlit("From");
    reveal_strlit("To");
    reveal_strlit("Call-ID");
    reveal_strlit("CSeq");
    reveal_strlit("Contact");
    reveal_strlit("Content-Type");
    reveal_strlit("application/sdp");
    reveal_strlit(" INVITE");
    lemma_no_breaks("Via"@);
    lemma_no_breaks("From"@);
    lemma_no_breaks("To"@);
    lemma_no_breaks("Call-ID"@);
    lemma_no_breaks("CSeq"@);
    lemma_no_breaks("Contact"@);
    lemma_no_breaks("Content-Type"@);
    lemma_no_breaks("application/sdp"@);
}

spec fn name_clean(name: Seq<char>) -> bool {
    sip_laws::one_line(name) && sip_laws::lacks(name, ':')
}

proof fn lemma_method(method: SipMethod)
    ensures
        sip_laws::one_line(dialog::method_text(method)),
        sip_laws::lacks(dialog::method_text(method), ' '),
        dialog::method_text(method) != sip_msg::sip_version(),
{
    reveal_strlit("INVITE");
    reveal_strlit("ACK");
    reveal_strlit("BYE");
    reveal_strlit("CANCEL");
    reveal_strlit("OPTIONS");
    reveal_strlit("REFER");
    reveal_strlit("INFO");
    reveal_strlit("SIP/2.0");
    assert(sip_msg::sip_version()[0] == 'S');
    lemma_no_breaks(dialog::method_text(method));
}

/// Our Contact value is one line.
proof fn lemma_contact_one_line(d: DialogView)
    requires
        sip_laws::one_line(d.local_addr),
    ensures
        sip_laws::one_line(dialog::local_contact(d)),
{
    reveal_strlit("<sip:xbridge@");
    reveal_strlit(">");
    let none = Seq::<char>::empty();
    lemma_empty_one_line();
    let start = "<sip:xbridge@"@ + d.local_addr;
    lemma_one_line_joined(none, "<sip:xbridge@"@, d.local_addr);
    assert(none + "<sip:xbridge@"@ + d.local_addr =~= start);
    lemma_one_line_joined(start, ">"@, none);
    assert(start + ">"@ + none =~= dialog::local_contact(d));
}

/// Setting a header that can be read back keeps all headers so.
proof fn lemma_set_sendable(fields: Seq<Field>, name: Seq<char>, value: Seq<char>)
    requires
        all_sendable(fields),
        name_clean(name),
        sip_laws::one_line(value),
    ensures
        all_sendable(sip_msg::set_field(fields, name, value)),
{
    lemma_replace_sendable(fields, name, value);
    assert(sip_laws::sendable_field((name, value)));
}

proof fn lemma_replace_sendable(fields: Seq<Field>, name: Seq<char>, value: Seq<char>)
    requires
        all_sendable(fields),
        sip_laws::one_line(value),
    ensures
        all_sendable(sip_msg::replace_field(fields, name, value)),
    decreases fields.len(),
{
    if fields.len() > 0 {
        let shorter = fields.drop_last();
        assert forall|i: int| 0 <= i < shorter.len() implies sip_laws::sendable_field(
            #[trigger] shorter[i],
        ) by {
            assert(shorter[i] == fields[i]);
        }
        lemma_replace_sendable(shorter, name, value);
        assert(sip_laws::sendable_field(fields[fields.len() - 1]));
        let earlier = sip_msg::replace_field(shorter, name, value);
        let all = sip_msg::replace_field(fields, name, value);
        assert forall|i: int| 0 <= i < all.len() implies sip_laws::sendable_field(
            #[trigger] all[i],
        ) by {
            if i < earlier.len() {
                assert(all[i] == earlier[i]);
            }
        }
    }
}

proof fn lemma_with_fields(fields: Seq<Field>, extra: Seq<Field>)
    requires
        all_sendable(fields),
        all_sendable(extra),
    ensures
        all_sendable(dialog::with_fields(fields, extra)),
    decreases extra.len(),
{
    if extra.len() > 0 {
        let shorter = extra.drop_last();
        assert forall|i: int| 0 <= i < shorter.len() implies sip_laws::sendable_field(
            #[trigger] shorter[i],
        ) by {
            assert(shorter[i] == extra[i]);
        }
        lemma_with_fields(fields, shorter);
        assert(sip_laws::sendable_field(extra[extra.len() - 1]));
        lemma_set_sendable(
            dialog::with_fields(fields, shorter),
            extra.last().0,
            extra.last().1,
        );
    }
}

proof fn lemma_request_fields(d: DialogView, branch: Seq<char>, method: SipMethod)
    requires
        one_line_requests(d),
        sip_laws::one_line(branch),
    ensures
        all_sendable(dialog::request_fields(d, method, branch)),
{
    lemma_literals();
    lemma_contact_one_line(d);
    lemma_method(method);
    reveal_strlit("SIP/2.0/UDP ");
    reveal_strlit(";branch=");
    reveal_strlit(" ");
    let start = "SIP/2.0/UDP "@ + d.local_addr;
    let via = start + ";branch="@ + branch;
    lemma_empty_one_line();
    lemma_one_line_joined(Seq::empty(), "SIP/2.0/UDP "@, d.local_addr);
    assert(Seq::<char>::empty() + "SIP/2.0/UDP "@ + d.local_addr =~= start);
    lemma_one_line_joined(start, ";branch="@, branch);
    let number = dialog::next_cseq(d).cseq_counter as nat;
    let cseq = text::decimal(number) + " "@ + dialog::method_text(method);
    lemma_digits_one_line(number);
    lemma_one_line_joined(text::decimal(number), " "@, dialog::method_text(method));
    let none = Seq::<Field>::empty();
    let f1 = sip_msg::set_field(none, "Via"@, via);
    let f2 = sip_msg::set_field(f1, "From"@, dialog::local_party(d));
    let f3 = sip_msg::set_field(f2, "To"@, dialog::with_tag(d.remote_to, d.remote_tag));
    let f4 = sip_msg::set_field(f3, "Call-ID"@, d.sip_call_id);
    let f5 = sip_msg::set_field(f4, "CSeq"@, cseq);
    lemma_set_sendable(none, "Via"@, via);
    lemma_set_sendable(f1, "From"@, dialog::local_party(d));
    lemma_set_sendable(f2, "To"@, dialog::with_tag(d.remote_to, d.remote_tag));
    lemma_set_sendable(f3, "Call-ID"@, d.sip_call_id);
    lemma_set_sendable(f4, "CSeq"@, cseq);
    lemma_set_sendable(f5, "Contact"@, dialog::local_contact(d));
}

} // verus!
