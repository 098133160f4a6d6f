use xbridge::trunk::sip_msg::{
    extract_uri_user, param_value, parse, parse_cseq, ParseError, SipMessage,
};

// ── Parsing ──

#[test]
fn parse_invite_with_sdp() {
    let sdp = "v=0\r\no=- 0 0 IN IP4 10.0.0.1\r\ns=-\r\nc=IN IP4 10.0.0.1\r\nt=0 0\r\nm=audio 10000 RTP/AVP 0\r\n";
    let raw = format!(
        "INVITE sip:1002@pbx.local SIP/2.0\r\n\
         Via: SIP/2.0/UDP 10.0.0.1:5060;branch=z9hG4bKinv1\r\n\
         From: <sip:1001@pbx.local>;tag=from1\r\n\
         To: <sip:1002@pbx.local>\r\n\
         Call-ID: invite001@10.0.0.1\r\n\
         CSeq: 1 INVITE\r\n\
         Contact: <sip:1001@10.0.0.1:5060>\r\n\
         Content-Type: application/sdp\r\n\
         Content-Length: {}\r\n\
         \r\n\
         {}",
        sdp.len(),
        sdp
    );

    let msg = parse(raw.as_bytes()).unwrap();
    assert!(!msg.is_response());
    assert_eq!(msg.method, "INVITE");
    assert_eq!(msg.request_uri, "sip:1002@pbx.local");
    assert_eq!(msg.call_id(), "invite001@10.0.0.1");
    assert_eq!(msg.from_tag(), "from1");
    assert_eq!(msg.cseq(), (1, "INVITE"));
    assert_eq!(String::from_utf8_lossy(&msg.body), sdp);
}

#[test]
fn parse_bye() {
    let raw = "BYE sip:1001@10.0.0.1:5060 SIP/2.0\r\n\
               Via: SIP/2.0/UDP pbx.local:5060;branch=z9hG4bKbye1\r\n\
               From: <sip:1002@pbx.local>;tag=from2\r\n\
               To: <sip:1001@pbx.local>;tag=to2\r\n\
               Call-ID: invite001@10.0.0.1\r\n\
               CSeq: 2 BYE\r\n\
               Content-Length: 0\r\n\
               \r\n";

    let msg = parse(raw.as_bytes()).unwrap();
    assert_eq!(msg.method, "BYE");
    assert_eq!(msg.cseq(), (2, "BYE"));
}

#[test]
fn parse_cancel() {
    let raw = "CANCEL sip:1002@pbx.local SIP/2.0\r\n\
               Via: SIP/2.0/UDP 10.0.0.1:5060;branch=z9hG4bKinv1\r\n\
               From: <sip:1001@pbx.local>;tag=from1\r\n\
               To: <sip:1002@pbx.local>\r\n\
               Call-ID: invite001@10.0.0.1\r\n\
               CSeq: 1 CANCEL\r\n\
               Content-Length: 0\r\n\
               \r\n";

    let msg = parse(raw.as_bytes()).unwrap();
    assert_eq!(msg.method, "CANCEL");
}

#[test]
fn parse_options() {
    let raw = "OPTIONS sip:xbridge@10.0.0.2:5080 SIP/2.0\r\n\
               Via: SIP/2.0/UDP 10.0.0.1:5060;branch=z9hG4bKopt1\r\n\
               From: <sip:pbx@10.0.0.1>;tag=opt1\r\n\
               To: <sip:xbridge@10.0.0.2:5080>\r\n\
               Call-ID: options001@10.0.0.1\r\n\
               CSeq: 1 OPTIONS\r\n\
               Content-Length: 0\r\n\
               \r\n";

    let msg = parse(raw.as_bytes()).unwrap();
    assert_eq!(msg.method, "OPTIONS");
}

#[test]
fn parse_ack() {
    let raw = "ACK sip:1002@10.0.0.2:5080 SIP/2.0\r\n\
               Via: SIP/2.0/UDP 10.0.0.1:5060;branch=z9hG4bKack1\r\n\
               From: <sip:1001@pbx.local>;tag=from1\r\n\
               To: <sip:1002@pbx.local>;tag=to1\r\n\
               Call-ID: invite001@10.0.0.1\r\n\
               CSeq: 1 ACK\r\n\
               Content-Length: 0\r\n\
               \r\n";

    let msg = parse(raw.as_bytes()).unwrap();
    assert_eq!(msg.method, "ACK");
}

#[test]
fn parse_response() {
    let raw = "SIP/2.0 200 OK\r\n\
               Via: SIP/2.0/UDP 10.0.0.1:5060;branch=z9hG4bK123\r\n\
               From: <sip:1001@pbx.local>;tag=abc\r\n\
               To: <sip:1002@pbx.local>;tag=def\r\n\
               Call-ID: test@host\r\n\
               CSeq: 1 INVITE\r\n\
               Content-Length: 0\r\n\
               \r\n";

    let msg = parse(raw.as_bytes()).unwrap();
    assert!(msg.is_response());
    assert_eq!(msg.status_code, 200);
    assert_eq!(msg.reason, "OK");
}

#[test]
fn parse_empty_fails() {
    assert!(parse(b"").is_err());
}

#[test]
fn parse_garbage_fails() {
    assert!(parse(b"not a SIP message").is_err());
}

// ── Header access ──

#[test]
fn sip_msg_header_case_insensitive() {
    let raw = "SIP/2.0 200 OK\r\n\
               call-id: lower@host\r\n\
               CSeq: 1 REGISTER\r\n\
               Content-Length: 0\r\n\
               \r\n";

    let msg = parse(raw.as_bytes()).unwrap();
    assert_eq!(msg.header("Call-ID"), "lower@host");
    assert_eq!(msg.header("CALL-ID"), "lower@host");
    assert_eq!(msg.header("call-id"), "lower@host");
}

#[test]
fn sip_msg_header_missing_returns_empty() {
    let raw = "SIP/2.0 200 OK\r\nCall-ID: x@y\r\nCSeq: 1 REGISTER\r\nContent-Length: 0\r\n\r\n";
    let msg = parse(raw.as_bytes()).unwrap();
    assert_eq!(msg.header("X-Nonexistent"), "");
}

#[test]
fn multiple_via_headers() {
    let raw = "SIP/2.0 200 OK\r\n\
               Via: SIP/2.0/UDP 10.0.0.1:5060;branch=z9hG4bK111\r\n\
               Via: SIP/2.0/UDP 10.0.0.2:5060;branch=z9hG4bK222\r\n\
               Call-ID: multi@host\r\n\
               CSeq: 1 INVITE\r\n\
               Content-Length: 0\r\n\
               \r\n";

    let msg = parse(raw.as_bytes()).unwrap();
    let vias = msg.header_values("Via");
    assert_eq!(vias.len(), 2);
}

// ── Via branch / tags ──

#[test]
fn via_branch_extraction() {
    let raw = "SIP/2.0 200 OK\r\n\
               Via: SIP/2.0/UDP 10.0.0.1:5060;branch=z9hG4bKmybranch;rport\r\n\
               Call-ID: via@host\r\n\
               CSeq: 1 REGISTER\r\n\
               Content-Length: 0\r\n\
               \r\n";

    let msg = parse(raw.as_bytes()).unwrap();
    assert_eq!(msg.via_branch(), "z9hG4bKmybranch");
}

#[test]
fn from_to_tags() {
    let raw = "INVITE sip:1002@pbx.local SIP/2.0\r\n\
               From: <sip:1001@pbx.local>;tag=fromtag123\r\n\
               To: <sip:1002@pbx.local>;tag=totag456\r\n\
               Call-ID: tag@host\r\n\
               CSeq: 1 INVITE\r\n\
               Content-Length: 0\r\n\
               \r\n";

    let msg = parse(raw.as_bytes()).unwrap();
    assert_eq!(msg.from_tag(), "fromtag123");
    assert_eq!(msg.to_tag(), "totag456");
}

// ── User extraction ──

#[test]
fn from_user_extraction() {
    let raw = "INVITE sip:1002@pbx.local SIP/2.0\r\n\
               From: <sip:1001@pbx.local>;tag=abc\r\n\
               To: <sip:1002@pbx.local>\r\n\
               Call-ID: user@host\r\n\
               CSeq: 1 INVITE\r\n\
               Content-Length: 0\r\n\
               \r\n";

    let msg = parse(raw.as_bytes()).unwrap();
    assert_eq!(msg.from_user(), "1001");
    assert_eq!(msg.to_user(), "1002");
}

#[test]
fn to_user_from_request_uri() {
    let raw = "INVITE sip:+15551234567@gateway.com SIP/2.0\r\n\
               From: <sip:1001@pbx.local>;tag=abc\r\n\
               To: <sip:+15551234567@gateway.com>\r\n\
               Call-ID: uri@host\r\n\
               CSeq: 1 INVITE\r\n\
               Content-Length: 0\r\n\
               \r\n";

    let msg = parse(raw.as_bytes()).unwrap();
    assert_eq!(msg.to_user(), "+15551234567");
}

// ── Building ──

#[test]
fn build_response_roundtrip() {
    let mut msg = SipMessage::new_response(200, "OK");
    msg.set_header("Via", "SIP/2.0/UDP 10.0.0.1:5060;branch=z9hG4bK111");
    msg.set_header("From", "<sip:1001@pbx.local>;tag=t1");
    msg.set_header("To", "<sip:1001@pbx.local>;tag=t2");
    msg.set_header("Call-ID", "build@host");
    msg.set_header("CSeq", "1 INVITE");

    let bytes = msg.to_bytes();
    let parsed = parse(&bytes).unwrap();
    assert!(parsed.is_response());
    assert_eq!(parsed.status_code, 200);
    assert_eq!(parsed.header("Call-ID"), "build@host");
    assert_eq!(parsed.header("Content-Length"), "0");
}

#[test]
fn build_request_with_body() {
    let sdp = "v=0\r\no=- 0 0 IN IP4 10.0.0.1\r\ns=-\r\n";
    let mut msg = SipMessage::new_request("INVITE", "sip:1002@pbx.local");
    msg.set_header("Via", "SIP/2.0/UDP 10.0.0.1:5060;branch=z9hG4bK111");
    msg.set_header("From", "<sip:1001@pbx.local>;tag=f1");
    msg.set_header("To", "<sip:1002@pbx.local>");
    msg.set_header("Call-ID", "inv@host");
    msg.set_header("CSeq", "1 INVITE");
    msg.set_header("Content-Type", "application/sdp");
    msg.body = sdp.as_bytes().to_vec();

    let bytes = msg.to_bytes();
    let parsed = parse(&bytes).unwrap();
    assert_eq!(parsed.method, "INVITE");
    assert_eq!(String::from_utf8_lossy(&parsed.body), sdp);
    assert_eq!(parsed.header("Content-Length"), sdp.len().to_string());
}

#[test]
fn set_header_replaces() {
    let mut msg = SipMessage::new_request("REGISTER", "sip:pbx.local");
    msg.set_header("Call-ID", "first");
    msg.set_header("Call-ID", "second");
    assert_eq!(msg.header("Call-ID"), "second");
    assert_eq!(msg.header_values("Call-ID").len(), 1);
}

#[test]
fn add_header_appends() {
    let mut msg = SipMessage::new_response(200, "OK");
    msg.add_header("Via", "SIP/2.0/UDP 10.0.0.1;branch=z9hG4bK111");
    msg.add_header("Via", "SIP/2.0/UDP 10.0.0.2;branch=z9hG4bK222");
    assert_eq!(msg.header_values("Via").len(), 2);
}

// ── extract_uri_user ──

#[test]
fn extract_user_from_angle_bracket_uri() {
    assert_eq!(extract_uri_user("<sip:1001@pbx.local>"), "1001");
    assert_eq!(extract_uri_user("<sip:+15551234567@gw.com>"), "+15551234567");
}

#[test]
fn extract_user_from_bare_uri() {
    assert_eq!(extract_uri_user("sip:1001@pbx.local"), "1001");
}

#[test]
fn extract_user_with_tag() {
    assert_eq!(
        extract_uri_user("<sip:1001@pbx.local>;tag=abc123"),
        "1001"
    );
}

#[test]
fn extract_user_sips() {
    assert_eq!(extract_uri_user("<sips:secure@tls.example.com>"), "secure");
}

#[test]
fn extract_user_no_uri() {
    assert_eq!(extract_uri_user("not-a-sip-uri"), "");
}

#[test]
fn extract_user_no_at() {
    assert_eq!(extract_uri_user("sip:pbx.local"), "");
}

#[test]
fn messages_survive_the_wire() {
    let mut msg = SipMessage::new_request("INVITE", "sip:1002@pbx.local");
    msg.add_header("Via", "SIP/2.0/UDP 10.0.0.1:5060;branch=z9hG4bK1");
    msg.add_header("Via", "SIP/2.0/UDP 10.0.0.2:5060;branch=z9hG4bK2");
    msg.set_header("Call-ID", "a:b@c");
    msg.set_header("Subject", "Grüße");
    msg.body = b"v=0\r\n\r\nrest".to_vec();

    let back = parse(&msg.to_bytes()).unwrap();
    assert_eq!(back.method, "INVITE");
    assert_eq!(back.request_uri, "sip:1002@pbx.local");
    assert_eq!(back.header_values("via"), msg.header_values("Via"));
    assert_eq!(back.header("Call-ID"), "a:b@c");
    assert_eq!(back.header("Subject"), "Grüße");
    assert_eq!(back.body, msg.body);
    assert_eq!(
        parse(&back.to_bytes()).unwrap().to_bytes(),
        back.to_bytes()
    );
}

#[test]
fn request_on_the_wire_is_exact() {
    let mut msg = SipMessage::new_request("BYE", "sip:a@b");
    msg.set_header("CSeq", "2 BYE");
    msg.body = b"hi".to_vec();
    assert_eq!(
        msg.to_bytes(),
        b"BYE sip:a@b SIP/2.0\r\nCSeq: 2 BYE\r\nContent-Length: 2\r\n\r\nhi"
    );
}

#[test]
fn response_on_the_wire_is_exact() {
    let mut msg = SipMessage::new_response(486, "Busy Here");
    msg.set_header("To", "<sip:a@b>;tag=1");
    msg.set_header("Content-Length", "99");
    assert_eq!(
        msg.to_bytes(),
        b"SIP/2.0 486 Busy Here\r\nTo: <sip:a@b>;tag=1\r\nContent-Length: 0\r\n\r\n"
    );
}

#[test]
fn each_parse_error_has_an_input() {
    for (data, error, text) in [
        (&b""[..], ParseError::Empty, "empty SIP message"),
        (
            &b"INVITE sip:\xff SIP/2.0\r\n\r\n"[..],
            ParseError::InvalidUtf8,
            "invalid UTF-8 in SIP headers",
        ),
        (
            &b"INVITE\r\n\r\n"[..],
            ParseError::MalformedStartLine,
            "malformed SIP start line",
        ),
        (
            &b"SIP/2.0 abc OK\r\n\r\n"[..],
            ParseError::InvalidStatusCode,
            "invalid SIP status code",
        ),
    ] {
        let e = parse(data).unwrap_err();
        assert_eq!(e, error);
        assert_eq!(e.message(), text);
    }
}

#[test]
fn cseq_and_parameters_are_read() {
    assert_eq!(parse_cseq("314159 INVITE"), (314159, "INVITE"));
    assert_eq!(parse_cseq("x INVITE"), (0, ""));
    assert_eq!(param_value("<sip:a@b>;tag=abc;x=1", "tag"), "abc");
    assert_eq!(param_value("<sip:a@b>;TAG=abc", "tag"), "abc");
    assert_eq!(param_value("<sip:a@b>", "tag"), "");
}

#[test]
fn received_messages_can_be_sent_on() {
    for raw in [
        &b"OPTIONS sip:a@b SIP/2.0\r\nA:1\r\na : 2 \r\nContent-Length: 3\r\n\r\nabcdef"[..],
        &b"SIP/2.0 200 OK fine\r\nContent-Length: x\r\n\r\nrest"[..],
        &b"  SIP/2.0"[..],
    ] {
        let msg = parse(raw).unwrap();
        let again = parse(&msg.to_bytes()).unwrap();
        assert_eq!(again.method, msg.method);
        assert_eq!(again.request_uri, msg.request_uri);
        assert_eq!(again.status_code, msg.status_code);
        assert_eq!(again.reason, msg.reason);
        assert_eq!(again.body, msg.body);
        assert_eq!(again.header_values("A"), msg.header_values("A"));
        assert_eq!(again.header("Content-Length"), msg.body.len().to_string());
    }
}
