use softphone::sip::{Method, SipHeaderAccess, SipMessage, SipRequest, SipResponse};

#[test]
fn test_sip_header_accessors() {
    let mut req = SipRequest::new(Method::Invite, "sip:alice@atlanta.com")
        .with_header("Via", "SIP/2.0/UDP 127.0.0.1:5060")
        .with_header("From", "sip:bob@biloxi.com")
        .with_header("To", "sip:alice@atlanta.com")
        .with_header("Call-ID", "12345")
        .with_header("CSeq", "1 INVITE")
        .with_header("Contact", "sip:bob@127.0.0.1")
        .with_header("Content-Length", "0");

    assert_eq!(req.via().unwrap(), "SIP/2.0/UDP 127.0.0.1:5060");
    assert_eq!(req.from().unwrap(), "sip:bob@biloxi.com");
    assert_eq!(req.to().unwrap(), "sip:alice@atlanta.com");
    assert_eq!(req.call_id().unwrap(), "12345");
    assert_eq!(req.cseq().unwrap(), "1 INVITE");
    assert_eq!(req.contact().unwrap(), "sip:bob@127.0.0.1");
    assert_eq!(req.content_length().unwrap(), 0);

    req.set_header("Content-Length", "10");
    assert_eq!(req.content_length().unwrap(), 10);
}

#[test]
fn test_duplicate_headers() {
    let mut req = SipRequest::new(Method::Invite, "sip:alice@atlanta.com");
    req.add_header("Via", "SIP/2.0/UDP 127.0.0.1:5060");
    req.add_header("Via", "SIP/2.0/UDP 192.168.1.1:5060");

    let vias = req.get_all_headers("Via");
    assert_eq!(vias.len(), 2);
    assert_eq!(vias[0], "SIP/2.0/UDP 127.0.0.1:5060");
    assert_eq!(vias[1], "SIP/2.0/UDP 192.168.1.1:5060");
}

#[test]
fn test_p_access_network_info() {
    let req = SipRequest::new(Method::Register, "sip:server.com")
        .with_header("P-Access-Network-Info", "3GPP-UTRAN-TDD; utran-cell-id-3gpp=234151D0FCE11");
    assert_eq!(req.p_access_network_info().unwrap(), "3GPP-UTRAN-TDD; utran-cell-id-3gpp=234151D0FCE11");
}

#[test]
fn test_sip_request_serialization() {
    let req = SipRequest::new(Method::Invite, "sip:alice@atlanta.com")
        .with_header("From", "sip:bob@biloxi.com");
    let s = req.to_string();
    assert!(s.contains("INVITE sip:alice@atlanta.com SIP/2.0"));
    assert!(s.contains("From: sip:bob@biloxi.com"));
}

#[test]
fn test_sip_request_parsing() {
    let raw = "INVITE sip:alice@atlanta.com SIP/2.0\r\nFrom: sip:bob@biloxi.com\r\n\r\nv=0";
    let req = SipRequest::parse(raw).unwrap();
    assert_eq!(req.method, Method::Invite);
    assert_eq!(req.uri, "sip:alice@atlanta.com");
    assert_eq!(req.headers[0].0, "From");
    assert_eq!(req.headers[0].1, "sip:bob@biloxi.com");
    assert_eq!(req.body, b"v=0");
}

#[test]
fn test_sip_response_serialization() {
    let res = SipResponse::new(200, "OK")
        .with_header("To", "sip:alice@atlanta.com");
    let s = res.to_string();
    assert!(s.contains("SIP/2.0 200 OK"));
    assert!(s.contains("To: sip:alice@atlanta.com"));
}

#[test]
fn test_sip_response_parsing() {
    let raw = "SIP/2.0 200 OK\r\nTo: sip:alice@atlanta.com\r\n\r\nv=0";
    let res = SipResponse::parse(raw).unwrap();
    assert_eq!(res.status_code, 200);
    assert_eq!(res.reason, "OK");
    assert_eq!(res.headers[0].0, "To");
    assert_eq!(res.headers[0].1, "sip:alice@atlanta.com");
    assert_eq!(res.body, b"v=0");
}

#[test]
fn test_sip_message_parsing() {
    let raw_req = "INVITE sip:alice@atlanta.com SIP/2.0\r\n\r\n";
    let raw_res = "SIP/2.0 200 OK\r\n\r\n";

    match SipMessage::parse(raw_req).unwrap() {
        SipMessage::Request(req) => assert_eq!(req.method, Method::Invite),
        _ => panic!("Expected Request"),
    }

    match SipMessage::parse(raw_res).unwrap() {
        SipMessage::Response(res) => assert_eq!(res.status_code, 200),
        _ => panic!("Expected Response"),
    }
}

#[test]
fn method_names_read_in_any_case() {
    assert_eq!(Method::from("invite"), Method::Invite);
    assert_eq!(Method::from("Register"), Method::Register);
    assert_eq!(Method::from("pUbLiSh"), Method::Publish);
    assert_eq!(Method::from("foo"), Method::Unknown("foo".to_string()));
    assert_eq!(Method::Prack.to_string(), "PRACK");
    assert_eq!(Method::Unknown("X-CUSTOM".to_string()).to_string(), "X-CUSTOM");
}

#[test]
fn requests_read_back_from_their_text() {
    let mut req = SipRequest::new(Method::Message, "sip:bob@b.org")
        .with_header("To", "<sip:bob@b.org>")
        .with_header("Content-Type", "text/plain");
    req.body = b"hello\r\nworld".to_vec();
    let back = SipRequest::parse(&req.to_string()).unwrap();
    assert_eq!(back.method, Method::Message);
    assert_eq!(back.uri, "sip:bob@b.org");
    assert_eq!(back.version, "SIP/2.0");
    assert_eq!(back.headers, req.headers);
    assert_eq!(back.body, req.body);
}

#[test]
fn responses_read_back_from_their_text() {
    let mut res = SipResponse::new(486, "Busy Here").with_header("Call-ID", "x1");
    res.body = b"busy".to_vec();
    match SipMessage::parse(&res.to_string()) {
        Some(SipMessage::Response(back)) => {
            assert_eq!(back.status_code, 486);
            assert_eq!(back.reason, "Busy Here");
            assert_eq!(back.headers, res.headers);
            assert_eq!(back.body, b"busy".to_vec());
        }
        _ => panic!("expected a response"),
    }
}

#[test]
fn malformed_messages_do_not_parse() {
    assert!(SipRequest::parse("INVITE sip:a@b\r\n\r\n").is_none());
    assert!(SipResponse::parse("SIP/2.0 abc OK\r\n\r\n").is_none());
    assert!(SipMessage::parse("").is_none());
}

#[test]
fn start_lines_read_back_whatever_follows() {
    let mut req = SipRequest::new(Method::Unknown("FOO".to_string()), "sip:a@b")
        .with_header("X", " padded ");
    req.body = b"\r\n\r\n".to_vec();
    match SipMessage::parse(&SipMessage::Request(req).to_string()) {
        Some(SipMessage::Request(q)) => {
            assert_eq!(q.method, Method::Unknown("FOO".to_string()));
            assert_eq!(q.uri, "sip:a@b");
            assert_eq!(q.version, "SIP/2.0");
        }
        _ => panic!("expected a request"),
    }
    let res = SipResponse::new(404, "Not  Found\r\nhere");
    match SipMessage::parse(&SipMessage::Response(res).to_string()) {
        Some(SipMessage::Response(q)) => {
            assert_eq!(q.status_code, 404);
            assert_eq!(q.version, "SIP/2.0");
            assert_eq!(q.reason, "Not Found");
        }
        _ => panic!("expected a response"),
    }
}
