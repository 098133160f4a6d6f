use xbridge::trunk::dialog::{
    append_tag, extract_tag, extract_uri, rewrite_uri_host, DialogError, SipMethod, TrunkDialog,
};
use xbridge::trunk::sip_msg::{parse, SipMessage};


fn sample_invite() -> SipMessage {
    let mut msg = SipMessage::new_request(SipMethod::Invite.as_str(), "sip:1002@xbridge:5080");
    msg.add_header("Via", "SIP/2.0/UDP 10.0.0.1:5060;branch=z9hG4bK111");
    msg.set_header("From", "<sip:1001@pbx.local>;tag=from1");
    msg.set_header("To", "<sip:1002@xbridge:5080>");
    msg.set_header("Call-ID", "testcall@host");
    msg.set_header("CSeq", "1 INVITE");
    msg.set_header("Contact", "<sip:1001@10.0.0.1:5060>");
    msg
}

fn make_dialog() -> TrunkDialog {
    let invite = sample_invite();
    let dialog = TrunkDialog::new(
        "127.0.0.1:5080",
        "10.0.0.1:5060",
        &invite,
        "localtag123",
    );
    dialog
}

#[test]
fn respond_builds_valid_sip_response() {
    let dialog = make_dialog();
    let outgoing = dialog.respond(200, "OK", b"v=0\r\n").unwrap();
    let msg = parse(&outgoing.data).unwrap();

    assert!(msg.is_response());
    assert_eq!(msg.status_code, 200);
    assert_eq!(msg.header("Call-ID"), "testcall@host");
    assert!(msg.header("To").contains("tag=localtag123"));
    assert_eq!(msg.header("Content-Type"), "application/sdp");
    assert_eq!(String::from_utf8_lossy(&msg.body), "v=0\r\n");
    assert_eq!(outgoing.addr, "10.0.0.1:5060");
}

#[test]
fn respond_preserves_all_via_headers() {
    let mut invite = sample_invite();
    // Add a second Via header (like Twilio's proxied INVITEs).
    invite.add_header("Via", "SIP/2.0/UDP 172.18.65.254:5060;rport=5060;branch=z9hG4bK222");
    let dialog = TrunkDialog::new(
        "127.0.0.1:5080",
        "10.0.0.1:5060",
        &invite,
        "localtag123",
    );
    let outgoing = dialog.respond(200, "OK", b"v=0\r\n").unwrap();
    let msg = parse(&outgoing.data).unwrap();

    let vias = msg.header_values("Via");
    assert_eq!(vias.len(), 2, "200 OK must preserve all Via headers from INVITE");
    assert!(vias[0].contains("10.0.0.1:5060"));
    assert!(vias[1].contains("172.18.65.254:5060"));
}

#[test]
fn respond_without_body_has_no_content_type() {
    let dialog = make_dialog();
    let outgoing = dialog.respond(486, "Busy Here", &[]).unwrap();
    let msg = parse(&outgoing.data).unwrap();

    assert_eq!(msg.status_code, 486);
    assert_eq!(msg.header("Content-Type"), "");
}

#[test]
fn to_tag_is_stable_across_responses() {
    let dialog = make_dialog();
    let first = dialog.respond(180, "Ringing", &[]).unwrap();
    let second = dialog.respond(200, "OK", &[]).unwrap();

    let msg1 = parse(&first.data).unwrap();
    let msg2 = parse(&second.data).unwrap();

    assert!(msg1.header("To").contains("tag=localtag123"));
    assert!(msg2.header("To").contains("tag=localtag123"));
}

#[test]
fn send_bye_builds_valid_request() {
    let mut dialog = make_dialog();
    let outgoing = dialog.send_bye();
    let msg = parse(&outgoing.data).unwrap();

    assert!(!msg.is_response());
    assert_eq!(msg.method, SipMethod::Bye.as_str());
    assert_eq!(msg.request_uri, "sip:1001@10.0.0.1:5060");
    assert_eq!(msg.header("Call-ID"), "testcall@host");
    // In UAS dialog, From/To are swapped for outgoing requests.
    assert!(msg.header("From").contains("tag=localtag123"));
    assert!(msg.header("To").contains("from1"));
    let (seq, method) = msg.cseq();
    assert_eq!(seq, 2);
    assert_eq!(method, SipMethod::Bye.as_str());
}

#[test]
fn send_cancel_returns_invalid_state() {
    let mut dialog = make_dialog();
    assert!(dialog.send_cancel().is_err());
}

#[test]
fn send_reinvite_includes_sdp() {
    let mut dialog = make_dialog();
    let sdp = b"v=0\r\no=- 0 0 IN IP4 10.0.0.2\r\n";
    let outgoing = dialog.send_reinvite(sdp);
    let msg = parse(&outgoing.data).unwrap();

    assert_eq!(msg.method, SipMethod::Invite.as_str());
    assert_eq!(msg.header("Content-Type"), "application/sdp");
    assert_eq!(msg.body, sdp);
}

#[test]
fn send_refer_includes_refer_to() {
    let mut dialog = make_dialog();
    let outgoing = dialog.send_refer("sip:1003@pbx.local");
    let msg = parse(&outgoing.data).unwrap();

    assert_eq!(msg.method, SipMethod::Refer.as_str());
    assert_eq!(msg.header("Refer-To"), "sip:1003@pbx.local");
}

#[test]
fn send_info_dtmf_format() {
    let mut dialog = make_dialog();
    let outgoing = dialog.send_info_dtmf("5", 250);
    let msg = parse(&outgoing.data).unwrap();

    assert_eq!(msg.method, SipMethod::Info.as_str());
    assert_eq!(msg.header("Content-Type"), "application/dtmf-relay");
    let body = String::from_utf8_lossy(&msg.body);
    assert!(body.contains("Signal=5"));
    assert!(body.contains("Duration=250"));
}

#[test]
fn cseq_increments() {
    let mut dialog = make_dialog();
    let first = dialog.send_bye();
    // BYE would end the dialog, but for testing CSeq we just send again.
    let second = dialog.send_sip_request(SipMethod::Info, &[], &[]);

    let msg1 = parse(&first.data).unwrap();
    let msg2 = parse(&second.data).unwrap();

    let (seq1, _) = msg1.cseq();
    let (seq2, _) = msg2.cseq();
    assert_eq!(seq2, seq1 + 1);
}

#[test]
fn call_id_returns_sip_call_id() {
    let dialog = make_dialog();
    assert_eq!(dialog.call_id(), "testcall@host");
}

#[test]
fn header_returns_invite_headers() {
    let dialog = make_dialog();
    let from = dialog.header("From");
    assert_eq!(from.len(), 1);
    assert!(from[0].contains("1001@pbx.local"));

    let call_id = dialog.header("Call-ID");
    assert_eq!(call_id, vec!["testcall@host"]);
}

#[test]
fn dialog_header_case_insensitive() {
    let dialog = make_dialog();
    assert_eq!(dialog.header("call-id"), dialog.header("Call-ID"));
}

#[test]
fn dialog_header_missing_returns_empty() {
    let dialog = make_dialog();
    assert!(dialog.header("X-Nonexistent").is_empty());
}

#[test]
fn headers_returns_all() {
    let dialog = make_dialog();
    let all = dialog.headers();
    assert!(all.iter().any(|(name, _)| name == "from"));
    assert!(all.iter().any(|(name, _)| name == "to"));
    assert!(all.iter().any(|(name, _)| name == "call-id"));
}

#[test]
fn extract_uri_angle_brackets() {
    assert_eq!(
        extract_uri("<sip:1001@10.0.0.1:5060>"),
        "sip:1001@10.0.0.1:5060"
    );
}

#[test]
fn extract_uri_bare() {
    assert_eq!(extract_uri("sip:1001@10.0.0.1"), "sip:1001@10.0.0.1");
}

#[test]
fn extract_uri_with_params() {
    assert_eq!(
        extract_uri("<sip:1001@10.0.0.1:5060>;transport=udp"),
        "sip:1001@10.0.0.1:5060"
    );
}

// ── UAC (outbound) dialog tests ──

fn make_uac_dialog() -> TrunkDialog {
    let dialog = TrunkDialog::new_outbound(
        "127.0.0.1:5080",
        "10.0.0.1:5060",
        "outbound-call-id@xbridge",
        "uactag456",
        "<sip:1001@127.0.0.1:5080>",
        "<sip:1002@10.0.0.1:5060>",
    );
    dialog
}

#[test]
fn uac_respond_is_noop() {
    let dialog = make_uac_dialog();
    // UAC respond is a no-op: there is nothing to send.
    assert!(dialog.respond(200, "OK", b"v=0\r\n").is_none());
}

#[test]
fn uac_send_bye_no_swap() {
    let mut dialog = make_uac_dialog();
    let outgoing = dialog.send_bye();
    let msg = parse(&outgoing.data).unwrap();
    assert_eq!(msg.method, SipMethod::Bye.as_str());
    assert_eq!(msg.header("Call-ID"), "outbound-call-id@xbridge");
    // UAC: From is our local party (with our tag).
    assert!(msg.header("From").contains("1001@127.0.0.1:5080"));
    assert!(msg.header("From").contains("tag=uactag456"));
    // UAC: To is the remote party.
    assert!(msg.header("To").contains("1002@10.0.0.1:5060"));
}

#[test]
fn uac_send_cancel_works() {
    let mut dialog = make_uac_dialog();
    let outgoing = dialog.send_cancel().unwrap();
    let msg = parse(&outgoing.data).unwrap();
    assert_eq!(msg.method, SipMethod::Cancel.as_str());
    assert_eq!(msg.header("Call-ID"), "outbound-call-id@xbridge");
}

#[test]
fn uac_update_from_response_captures_remote_tag() {
    let mut dialog = make_uac_dialog();

    // Simulate receiving a 200 OK with a To tag.
    let mut resp = SipMessage::new_response(200, "OK");
    resp.set_header("To", "<sip:1002@10.0.0.1:5060>;tag=remotetag789");
    resp.set_header("Contact", "<sip:1002@10.0.0.1:5060>");
    dialog.update_from_response(&resp);

    // Now send BYE — To header should include remote tag.
    let outgoing = dialog.send_bye();
    let msg = parse(&outgoing.data).unwrap();
    assert!(msg.header("To").contains("tag=remotetag789"));
}

#[test]
fn uac_call_id() {
    let dialog = make_uac_dialog();
    assert_eq!(dialog.call_id(), "outbound-call-id@xbridge");
}

#[test]
fn uac_update_does_not_overwrite_remote_tag() {
    let mut dialog = make_uac_dialog();

    let mut resp1 = SipMessage::new_response(180, "Ringing");
    resp1.set_header("To", "<sip:1002@10.0.0.1:5060>;tag=first");
    dialog.update_from_response(&resp1);

    let mut resp2 = SipMessage::new_response(200, "OK");
    resp2.set_header("To", "<sip:1002@10.0.0.1:5060>;tag=second");
    resp2.set_header("Contact", "<sip:1002@10.0.0.1:5060>");
    dialog.update_from_response(&resp2);

    // First tag should be preserved (not overwritten).
    assert_eq!(dialog.remote_tag, "first");
}

#[test]
fn uac_update_skips_response_without_tag() {
    let mut dialog = make_uac_dialog();

    let mut resp = SipMessage::new_response(100, "Trying");
    resp.set_header("To", "<sip:1002@10.0.0.1:5060>");
    dialog.update_from_response(&resp);

    // Remote tag should still be empty.
    assert!(dialog.remote_tag.is_empty());
}

#[test]
fn uac_update_captures_contact_uri() {
    let mut dialog = make_uac_dialog();

    let mut resp = SipMessage::new_response(200, "OK");
    resp.set_header("To", "<sip:1002@10.0.0.1:5060>;tag=t1");
    resp.set_header("Contact", "<sip:1002@192.168.1.100:5060>");
    dialog.update_from_response(&resp);

    assert_eq!(dialog.contact_uri, "sip:1002@192.168.1.100:5060");
}

#[test]
fn extract_tag_from_header() {
    assert_eq!(extract_tag("<sip:1001@pbx.local>;tag=abc123"), Some("abc123"));
    assert_eq!(extract_tag("<sip:1001@pbx.local>"), None);
    assert_eq!(extract_tag("<sip:1001@pbx.local>;tag=abc;param=x"), Some("abc"));
}

#[test]
fn append_tag_to_header() {
    assert_eq!(
        append_tag("<sip:1001@pbx.local>", "newtag"),
        "<sip:1001@pbx.local>;tag=newtag"
    );
    // Existing tag is preserved.
    assert_eq!(
        append_tag("<sip:1001@pbx.local>;tag=existing", "newtag"),
        "<sip:1001@pbx.local>;tag=existing"
    );
    // Empty tag is a no-op.
    assert_eq!(
        append_tag("<sip:1001@pbx.local>", ""),
        "<sip:1001@pbx.local>"
    );
}

#[test]
fn rewrite_keeps_user_and_parameters() {
    assert_eq!(
        rewrite_uri_host(
            "sip:+19085679691@172.25.62.99:5060;transport=udp",
            "54.172.60.0:5060"
        ),
        "sip:+19085679691@54.172.60.0:5060;transport=udp"
    );
    assert_eq!(
        rewrite_uri_host("sip:1@172.25.62.99", "54.172.60.0:5060"),
        "sip:1@54.172.60.0:5060"
    );
    assert_eq!(rewrite_uri_host("sip:host", "1.2.3.4:5"), "sip:host");
}

#[test]
fn extract_uri_needs_both_brackets() {
    assert_eq!(extract_uri("  <sip:1@h "), "<sip:1@h");
    assert_eq!(extract_uri(" sip:1@h \t"), "sip:1@h");
}

#[test]
fn extract_tag_ends_at_comma_and_white_space() {
    assert_eq!(extract_tag("a;tag=x,y"), Some("x"));
    assert_eq!(extract_tag("a;tag=x\u{2003}y"), Some("x"));
    assert_eq!(extract_tag("a;tag="), Some(""));
}

#[test]
fn request_with_given_branch_is_exact() {
    let mut dialog = make_dialog();
    let msg = dialog.request("z9hG4bKx", SipMethod::Info, b"hi", &[("X-A", "1"), ("contact", "2")]);
    assert_eq!(
        String::from_utf8(msg.to_bytes()).unwrap(),
        "INFO sip:1001@10.0.0.1:5060 SIP/2.0\r\n\
         Via: SIP/2.0/UDP 127.0.0.1:5080;branch=z9hG4bKx\r\n\
         From: <sip:1002@xbridge:5080>;tag=localtag123\r\n\
         To: <sip:1001@pbx.local>;tag=from1\r\n\
         Call-ID: testcall@host\r\n\
         CSeq: 2 INFO\r\n\
         Contact: 2\r\n\
         X-A: 1\r\n\
         Content-Length: 2\r\n\r\nhi"
    );
}

#[test]
fn requests_draw_different_branches() {
    let mut dialog = make_dialog();
    let first = parse(&dialog.send_bye().data).unwrap();
    let second = parse(&dialog.send_bye().data).unwrap();
    assert!(first.via_branch().starts_with("z9hG4bK"));
    assert_eq!(first.via_branch().len(), 31);
    assert_ne!(first.via_branch(), second.via_branch());
}

#[test]
fn cseq_wraps_around() {
    let mut invite = sample_invite();
    invite.set_header("CSeq", "4294967295 INVITE");
    let mut dialog = TrunkDialog::new("127.0.0.1:5080", "10.0.0.1:5060", &invite, "t");
    let msg = parse(&dialog.send_bye().data).unwrap();
    assert_eq!(msg.cseq(), (0, "BYE"));
}

#[test]
fn contact_falls_back_to_request_uri() {
    let mut invite = SipMessage::new_request("INVITE", "sip:1002@xbridge:5080");
    invite.set_header("From", "<sip:1001@pbx.local>;tag=from1");
    let dialog = TrunkDialog::new("127.0.0.1:5080", "10.0.0.1:5060", &invite, "t");
    assert_eq!(dialog.contact_uri, "sip:1002@xbridge:5080");
    assert!(dialog.header("Contact").is_empty());
}

#[test]
fn outbound_dialog_starts_as_given() {
    let dialog = make_uac_dialog();
    assert_eq!(dialog.contact_uri, "sip:1002@10.0.0.1:5060");
    assert_eq!(dialog.header("FROM"), vec!["<sip:1001@127.0.0.1:5080>"]);
    assert!(dialog.header("Via").is_empty());
    assert_eq!(
        make_dialog().send_cancel().unwrap_err(),
        DialogError::InvalidState
    );
}

#[test]
fn answers_to_any_invite_can_be_read() {
    let invite = parse(
        b"INVITE sip:1002@xbridge:5080 SIP/2.0\r\nVia:SIP/2.0/UDP a;branch=1\r\nVIA:   b \r\n\
          no colon\r\nFrom:\t<sip:x@y>;tag=f\r\n: nameless\r\n\r\n",
    )
    .unwrap();
    let dialog = TrunkDialog::new("127.0.0.1:5080", "10.0.0.1:5060", &invite, "t1");
    let answer = parse(&dialog.respond(486, "Busy Here", b"").unwrap().data).unwrap();
    assert_eq!(answer.status_code, 486);
    assert_eq!(answer.reason, "Busy Here");
    assert_eq!(answer.header_values("Via"), vec!["SIP/2.0/UDP a;branch=1", "b"]);
    assert_eq!(answer.header("From"), "<sip:x@y>;tag=f");
    assert_eq!(answer.header("To"), ";tag=t1");
    assert_eq!(answer.header("Call-ID"), "");
}

#[test]
fn first_request_of_an_outbound_call_goes_to_the_called_uri() {
    let mut dialog = make_uac_dialog();
    let bye = parse(&dialog.send_bye().data).unwrap();
    assert_eq!(bye.request_uri, "sip:1002@10.0.0.1:5060");
}

#[test]
fn requests_in_a_row_belong_together() {
    for mut dialog in [make_dialog(), make_uac_dialog()] {
        let invite_number = dialog.invite_cseq_num;
        let first = dialog.send_refer("sip:1003@10.0.0.9");
        let second = dialog.send_info_dtmf("7", 160);
        assert_eq!(first.addr, "10.0.0.1:5060");
        assert_eq!(second.addr, "10.0.0.1:5060");
        let first = parse(&first.data).unwrap();
        let second = parse(&second.data).unwrap();
        assert_eq!(first.cseq(), (invite_number + 1, "REFER"));
        assert_eq!(second.cseq(), (invite_number + 2, "INFO"));
        for name in ["Call-ID", "From", "To"] {
            assert_eq!(first.header(name), second.header(name));
        }
        assert_eq!(extract_tag(first.header("From")), Some(dialog.local_tag.as_str()));
        assert!(first.via_branch().starts_with("z9hG4bK"));
        assert!(second.via_branch().starts_with("z9hG4bK"));
        assert_ne!(first.via_branch(), second.via_branch());
    }
}

#[test]
fn call_to_a_bare_user_goes_to_the_peer() {
    for (to, uri) in [
        ("1002", "sip:1002@10.0.0.1:5060"),
        (" 1002 ", "sip:1002@10.0.0.1:5060"),
        ("\"Desk\" <1002>;x=y", "sip:1002@10.0.0.1:5060"),
        ("sip:1002@pbx.local", "sip:1002@pbx.local"),
        ("<sips:1002@pbx.local;transport=tls>", "sips:1002@pbx.local;transport=tls"),
        ("sipsy", "sip:sipsy@10.0.0.1:5060"),
    ] {
        let mut dialog = TrunkDialog::new_outbound(
            "127.0.0.1:5080",
            "10.0.0.1:5060",
            "outbound-call-id@xbridge",
            "uactag456",
            "<sip:1001@127.0.0.1:5080>",
            to,
        );
        assert_eq!(dialog.contact_uri, uri);
        let bye = parse(&dialog.send_bye().data).unwrap();
        assert_eq!(bye.request_uri, uri);
    }
}

#[test]
fn white_space_around_header_values_is_not_read() {
    let mut dialog = TrunkDialog::new_outbound(
        "127.0.0.1:5080",
        "10.0.0.1:5060",
        " call-1 ",
        "uactag456",
        "\t<sip:1001@127.0.0.1:5080>",
        "<sip:1002@10.0.0.1:5060>\r",
    );
    let first = parse(&dialog.send_bye().data).unwrap();
    let second = parse(&dialog.send_bye().data).unwrap();
    for q in [&first, &second] {
        assert_eq!(q.header("Call-ID"), "call-1");
        assert_eq!(q.header("From"), "<sip:1001@127.0.0.1:5080>;tag=uactag456");
        assert_eq!(q.header("To"), "<sip:1002@10.0.0.1:5060>");
        assert!(q.via_branch().starts_with("z9hG4bK"));
    }
    assert_eq!(first.cseq(), (2, "BYE"));
    assert_eq!(second.cseq(), (3, "BYE"));
}

fn response(to: &str, contact: &str) -> SipMessage {
    let mut msg = SipMessage::new_response(180, "Ringing");
    msg.set_header("To", to);
    if !contact.is_empty() {
        msg.set_header("Contact", contact);
    }
    msg
}

#[test]
fn first_tag_and_last_contact_count() {
    let mut dialog = make_uac_dialog();
    for (to, contact) in [
        ("<sip:1002@10.0.0.1:5060>", "<sip:a@10.0.0.2>"),
        ("<sip:1002@10.0.0.1:5060>;tag=", ""),
        ("<sip:1002@10.0.0.1:5060>;tag=first", "<sip:b@10.0.0.3>"),
        ("<sip:1002@10.0.0.1:5060>;tag=second", ""),
    ] {
        dialog.update_from_response(&response(to, contact));
    }
    let q = parse(&dialog.send_bye().data).unwrap();
    assert_eq!(q.header("To"), "<sip:1002@10.0.0.1:5060>;tag=first");
    assert_eq!(q.request_uri, "sip:b@10.0.0.3");
}
