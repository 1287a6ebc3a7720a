use softphone::common::{Account, CallState};
use softphone::sip::ua::{
    extract_tag, message_call_id, normalize_dial_uri, server_address, strip_angle_brackets,
    RegistrationState, UaAction, UserAgentState,
};
use softphone::sip::{Method, SipHeaderAccess, SipMessage, SipRequest, SipResponse};

fn account(password: Option<&str>) -> Account {
    Account {
        name: "default".to_string(),
        username: "alice".to_string(),
        domain: "example.com".to_string(),
        password: password.map(|p| p.to_string()),
        proxy: None,
    }
}

fn response(code: u16, reason: &str) -> SipResponse {
    SipResponse::new(code, reason)
}

#[test]
fn register_request_names_the_account() {
    let mut ua = UserAgentState::new(account(Some("secret")), "cid-1".to_string());
    let s = ua.start_register("UDP", "10.0.0.1:5060", "reg-call", "b1", "t1");
    assert_eq!(ua.reg_state, RegistrationState::Registering);
    let text = s.request.to_string();
    assert!(text.starts_with("REGISTER sip:example.com SIP/2.0\r\n"));
    assert_eq!(s.request.via().unwrap(), "SIP/2.0/UDP 10.0.0.1:5060;branch=z9hG4bKb1");
    assert_eq!(s.request.from().unwrap(), "<sip:alice@example.com>;tag=t1");
    assert_eq!(s.request.to().unwrap(), "<sip:alice@example.com>");
    assert_eq!(s.request.call_id().unwrap(), "reg-call");
    assert_eq!(s.request.cseq().unwrap(), "1 REGISTER");
    assert_eq!(s.request.contact().unwrap(), "<sip:alice@10.0.0.1:5060>");
}

#[test]
fn register_ok_registers() {
    let mut ua = UserAgentState::new(account(Some("secret")), "cid-1".to_string());
    let mut s = ua.start_register("UDP", "10.0.0.1:5060", "reg-call", "b1", "t1");
    let a = ua.on_register_event(&mut s, Some(SipMessage::Response(response(200, "OK"))), "b2", "c2");
    assert!(matches!(a, UaAction::Done));
    assert_eq!(ua.reg_state, RegistrationState::Registered);
    assert_eq!(ua.cseq, 1);
}

#[test]
fn register_timeout_fails() {
    let mut ua = UserAgentState::new(account(Some("secret")), "cid-1".to_string());
    let mut s = ua.start_register("UDP", "10.0.0.1:5060", "reg-call", "b1", "t1");
    let a = ua.on_register_event(&mut s, None, "b2", "c2");
    assert!(matches!(a, UaAction::Done));
    assert_eq!(ua.reg_state, RegistrationState::Failed("Timeout".to_string()));
}

#[test]
fn register_rejected_fails_with_status() {
    let mut ua = UserAgentState::new(account(Some("secret")), "cid-1".to_string());
    let mut s = ua.start_register("UDP", "10.0.0.1:5060", "reg-call", "b1", "t1");
    let a = ua.on_register_event(&mut s, Some(SipMessage::Response(response(403, "Forbidden"))), "b2", "c2");
    assert!(matches!(a, UaAction::Done));
    assert_eq!(ua.reg_state, RegistrationState::Failed("Status 403".to_string()));
}

#[test]
fn register_provisional_and_requests_are_waited_past() {
    let mut ua = UserAgentState::new(account(Some("secret")), "cid-1".to_string());
    let mut s = ua.start_register("UDP", "10.0.0.1:5060", "reg-call", "b1", "t1");
    let a = ua.on_register_event(&mut s, Some(SipMessage::Response(response(100, "Trying"))), "b2", "c2");
    assert!(matches!(a, UaAction::Wait));
    let req = SipRequest::new(Method::Options, "sip:alice@example.com");
    let a = ua.on_register_event(&mut s, Some(SipMessage::Request(req)), "b2", "c2");
    assert!(matches!(a, UaAction::Wait));
    assert_eq!(ua.reg_state, RegistrationState::Registering);
}

#[test]
fn register_challenge_is_answered_with_digest() {
    let mut ua = UserAgentState::new(account(Some("secret")), "cid-1".to_string());
    let mut s = ua.start_register("UDP", "10.0.0.1:5060", "reg-call", "b1", "t1");
    let challenge = response(401, "Unauthorized")
        .with_header("WWW-Authenticate", "Digest realm=\"example.com\", nonce=\"abc\"");
    let a = ua.on_register_event(&mut s, Some(SipMessage::Response(challenge)), "b2", "c2");
    let text = match a {
        UaAction::Send(t) => t,
        _ => panic!("expected a request to send"),
    };
    assert_eq!(ua.cseq, 2);
    assert_eq!(s.retry_count, 1);
    let sent = SipRequest::parse(&text).unwrap();
    assert_eq!(sent.cseq().unwrap(), "2 REGISTER");
    assert_eq!(sent.via().unwrap(), "SIP/2.0/UDP 10.0.0.1:5060;branch=z9hG4bKb2");
    let auth = sent.get_header("Authorization").unwrap();
    assert!(auth.starts_with(
        "Digest username=\"alice\", realm=\"example.com\", nonce=\"abc\", uri=\"sip:example.com\", response=\""
    ));
    assert_eq!(auth.len(), "Digest username=\"alice\", realm=\"example.com\", nonce=\"abc\", uri=\"sip:example.com\", response=\"\"".len() + 32);
}

#[test]
fn register_challenge_with_qop_uses_cnonce() {
    let mut ua = UserAgentState::new(account(Some("secret")), "cid-1".to_string());
    let mut s = ua.start_register("UDP", "10.0.0.1:5060", "reg-call", "b1", "t1");
    let challenge = response(407, "Proxy Authentication Required")
        .with_header("Proxy-Authenticate", "Digest realm=\"r\", nonce=\"n\", qop=\"auth\"");
    let a = ua.on_register_event(&mut s, Some(SipMessage::Response(challenge)), "b2", "xyz");
    let text = match a {
        UaAction::Send(t) => t,
        _ => panic!("expected a request to send"),
    };
    let sent = SipRequest::parse(&text).unwrap();
    let auth = sent.get_header("Proxy-Authorization").unwrap();
    assert!(auth.contains(", qop=\"auth\", nc=00000001, cnonce=\"xyz\", response=\""));
}

#[test]
fn register_gives_up_after_three_challenges() {
    let mut ua = UserAgentState::new(account(Some("secret")), "cid-1".to_string());
    let mut s = ua.start_register("UDP", "10.0.0.1:5060", "reg-call", "b1", "t1");
    for _ in 0..3 {
        let challenge = response(401, "Unauthorized")
            .with_header("WWW-Authenticate", "Digest realm=\"r\", nonce=\"n\"");
        let a = ua.on_register_event(&mut s, Some(SipMessage::Response(challenge)), "b", "c");
        assert!(matches!(a, UaAction::Send(_)));
    }
    assert_eq!(ua.cseq, 4);
    let challenge = response(401, "Unauthorized")
        .with_header("WWW-Authenticate", "Digest realm=\"r\", nonce=\"n\"");
    let a = ua.on_register_event(&mut s, Some(SipMessage::Response(challenge)), "b", "c");
    assert!(matches!(a, UaAction::Done));
    assert_eq!(ua.reg_state, RegistrationState::Failed("Status 401".to_string()));
    assert_eq!(ua.cseq, 4);
}

#[test]
fn register_challenge_without_password_aborts() {
    let mut ua = UserAgentState::new(account(None), "cid-1".to_string());
    let mut s = ua.start_register("UDP", "10.0.0.1:5060", "reg-call", "b1", "t1");
    let challenge = response(401, "Unauthorized")
        .with_header("WWW-Authenticate", "Digest realm=\"r\", nonce=\"n\"");
    let a = ua.on_register_event(&mut s, Some(SipMessage::Response(challenge)), "b", "c");
    match a {
        UaAction::Abort(e) => assert_eq!(e, "Password required"),
        _ => panic!("expected an abort"),
    }
}

#[test]
fn register_challenge_without_header_fails() {
    let mut ua = UserAgentState::new(account(Some("secret")), "cid-1".to_string());
    let mut s = ua.start_register("UDP", "10.0.0.1:5060", "reg-call", "b1", "t1");
    let a = ua.on_register_event(&mut s, Some(SipMessage::Response(response(401, "Unauthorized"))), "b", "c");
    assert!(matches!(a, UaAction::Done));
    assert_eq!(ua.reg_state, RegistrationState::Failed("Status 401".to_string()));
}

fn answer_body() -> Vec<u8> {
    b"v=0\r\no=bob 1 1 IN IP4 1.2.3.4\r\ns=Answer\r\nc=IN IP4 1.2.3.4\r\nt=0 0\r\nm=audio 5000 RTP/AVP 0\r\na=rtpmap:0 PCMU/8000\r\n".to_vec()
}

#[test]
fn invite_carries_an_audio_offer() {
    let mut ua = UserAgentState::new(account(Some("secret")), "cid-1".to_string());
    let s = ua.start_invite("sip:bob@example.com", "UDP", "10.0.0.1:5060", "call-1", "lt", "b1");
    assert_eq!(ua.cseq, 2);
    assert_eq!(s.request.method, Method::Invite);
    assert_eq!(s.request.uri, "sip:bob@example.com");
    assert_eq!(s.request.to().unwrap(), "<sip:bob@example.com>");
    assert_eq!(s.request.cseq().unwrap(), "2 INVITE");
    assert_eq!(s.request.get_header("Content-Type").unwrap(), "application/sdp");
    let body = String::from_utf8(s.request.body.clone()).unwrap();
    assert_eq!(
        body,
        "v=0\r\no=alice 12345 67890 IN IP4 10.0.0.1\r\ns=CallSession\r\nc=IN IP4 10.0.0.1\r\nt=0 0\r\nm=audio 4000 RTP/AVP 0 8\r\na=rtpmap:0 PCMU/8000\r\na=rtpmap:8 PCMA/8000\r\n"
    );
}

#[test]
fn invite_ringing_then_answered() {
    let mut ua = UserAgentState::new(account(Some("secret")), "cid-1".to_string());
    let mut s = ua.start_invite("sip:bob@example.com", "UDP", "10.0.0.1:5060", "call-1", "lt", "b1");
    ua.add_call(&s);
    assert_eq!(ua.active_calls.len(), 1);
    assert_eq!(ua.active_calls[0].state, CallState::Calling);
    assert_eq!(ua.active_calls[0].local_rtp_port, Some(4000));

    let ringing = response(180, "Ringing").with_header("To", "<sip:bob@example.com>;tag=rt");
    let a = ua.on_invite_event(&mut s, Some(SipMessage::Response(ringing)), "b2", "c2");
    assert!(matches!(a, UaAction::Wait));
    assert_eq!(ua.active_calls[0].state, CallState::Ringing);
    assert_eq!(ua.active_calls[0].remote_tag.as_deref(), Some("rt"));

    let mut ok = response(200, "OK")
        .with_header("To", "<sip:bob@example.com>;tag=rt")
        .with_header("Contact", "<sip:bob@1.2.3.4:5070>");
    ok.body = answer_body();
    let a = ua.on_invite_event(&mut s, Some(SipMessage::Response(ok)), "b3", "c3");
    let (ack, rtp) = match a {
        UaAction::Answered(ack, rtp) => (ack, rtp),
        _ => panic!("expected an answered call"),
    };
    assert_eq!(rtp.as_deref(), Some("1.2.3.4:5000"));
    assert_eq!(ua.active_calls[0].state, CallState::Connected);
    assert_eq!(ua.active_calls[0].remote_contact.as_deref(), Some("sip:bob@1.2.3.4:5070"));
    let ack = SipRequest::parse(&ack).unwrap();
    assert_eq!(ack.method, Method::Ack);
    assert_eq!(ack.uri, "sip:bob@1.2.3.4:5070");
    assert_eq!(ack.cseq().unwrap(), "2 ACK");
    assert_eq!(ack.call_id().unwrap(), "call-1");
    assert_eq!(ack.to().unwrap(), "<sip:bob@example.com>;tag=rt");

    ua.set_remote_rtp("call-1", "1.2.3.4:5000");
    assert_eq!(ua.active_calls[0].remote_rtp_addr.as_deref(), Some("1.2.3.4:5000"));
}

#[test]
fn invite_busy_drops_the_call() {
    let mut ua = UserAgentState::new(account(Some("secret")), "cid-1".to_string());
    let mut s = ua.start_invite("sip:bob@example.com", "UDP", "10.0.0.1:5060", "call-1", "lt", "b1");
    ua.add_call(&s);
    let a = ua.on_invite_event(&mut s, Some(SipMessage::Response(response(486, "Busy Here"))), "b2", "c2");
    assert!(matches!(a, UaAction::Done));
    assert_eq!(ua.active_calls.len(), 0);
}

#[test]
fn invite_timeout_leaves_the_call() {
    let mut ua = UserAgentState::new(account(Some("secret")), "cid-1".to_string());
    let mut s = ua.start_invite("sip:bob@example.com", "UDP", "10.0.0.1:5060", "call-1", "lt", "b1");
    ua.add_call(&s);
    let a = ua.on_invite_event(&mut s, None, "b2", "c2");
    assert!(matches!(a, UaAction::Done));
    assert_eq!(ua.active_calls.len(), 1);
    assert_eq!(ua.active_calls[0].state, CallState::Calling);
}

#[test]
fn invite_challenge_is_answered() {
    let mut ua = UserAgentState::new(account(Some("secret")), "cid-1".to_string());
    let mut s = ua.start_invite("sip:bob@example.com", "UDP", "10.0.0.1:5060", "call-1", "lt", "b1");
    ua.add_call(&s);
    let challenge = response(407, "Proxy Authentication Required")
        .with_header("Proxy-Authenticate", "Digest realm=\"r\", nonce=\"n\"");
    let a = ua.on_invite_event(&mut s, Some(SipMessage::Response(challenge)), "b2", "c2");
    let text = match a {
        UaAction::Send(t) => t,
        _ => panic!("expected a request to send"),
    };
    assert_eq!(ua.cseq, 3);
    let sent = SipRequest::parse(&text).unwrap();
    assert_eq!(sent.cseq().unwrap(), "3 INVITE");
    assert!(sent
        .get_header("Proxy-Authorization")
        .unwrap()
        .starts_with("Digest username=\"alice\", realm=\"r\", nonce=\"n\", uri=\"sip:bob@example.com\""));
}

#[test]
fn hangup_sends_bye_for_known_calls_only() {
    let mut ua = UserAgentState::new(account(Some("secret")), "cid-1".to_string());
    let mut s = ua.start_invite("sip:bob@example.com", "UDP", "10.0.0.1:5060", "call-1", "lt", "b1");
    ua.add_call(&s);
    let ok = response(200, "OK").with_header("To", "<sip:bob@example.com>;tag=rt");
    let _ = ua.on_invite_event(&mut s, Some(SipMessage::Response(ok)), "b2", "c2");

    assert!(ua.start_hangup("other", "UDP", "10.0.0.1:5060", "b3").is_none());
    assert_eq!(ua.cseq, 2);

    let bye = ua.start_hangup("call-1", "UDP", "10.0.0.1:5060", "b3").unwrap();
    assert_eq!(ua.cseq, 3);
    assert_eq!(bye.method, Method::Bye);
    assert_eq!(bye.uri, "sip:bob@example.com");
    assert_eq!(bye.cseq().unwrap(), "3 BYE");
    assert_eq!(bye.call_id().unwrap(), "call-1");
    assert_eq!(bye.from().unwrap(), "<sip:alice@example.com>;tag=lt");
    assert_eq!(bye.to().unwrap(), "<sip:bob@example.com>;tag=rt");

    ua.remove_call("call-1");
    assert_eq!(ua.active_calls.len(), 0);
    ua.remove_call("call-1");
    assert_eq!(ua.active_calls.len(), 0);
}

#[test]
fn tags_and_contacts_are_read_from_headers() {
    assert_eq!(extract_tag("<sip:bob@example.com>;tag=abc").as_deref(), Some("abc"));
    assert_eq!(extract_tag("<sip:bob@example.com>; tag = x ;lr").as_deref(), None);
    assert_eq!(extract_tag("<sip:bob@example.com>;lr; tag=x ").as_deref(), Some("x"));
    assert_eq!(extract_tag("<sip:bob@example.com>"), None);
    assert_eq!(strip_angle_brackets("<sip:bob@1.2.3.4>"), "sip:bob@1.2.3.4");
    assert_eq!(strip_angle_brackets("sip:bob@1.2.3.4"), "sip:bob@1.2.3.4");
}

#[test]
fn dialled_text_becomes_a_sip_uri() {
    assert_eq!(normalize_dial_uri("sip:bob@x.org", "example.com"), "sip:bob@x.org");
    assert_eq!(normalize_dial_uri("bob@x.org", "example.com"), "sip:bob@x.org");
    assert_eq!(normalize_dial_uri("bob", "example.com"), "sip:bob@example.com");
    let once = normalize_dial_uri("bob", "example.com");
    assert_eq!(normalize_dial_uri(&once, "example.com"), once);
}

#[test]
fn server_address_defaults_to_port_5060() {
    assert_eq!(server_address("example.com"), "example.com:5060");
    assert_eq!(server_address("example.com:5080"), "example.com:5080");
    let once = server_address("example.com");
    assert_eq!(server_address(&once), once);
}

#[test]
fn call_id_routes_messages() {
    let req = SipRequest::new(Method::Bye, "sip:a@b").with_header("call-id", "abc");
    assert_eq!(message_call_id(&SipMessage::Request(req)).as_deref(), Some("abc"));
    let res = response(200, "OK");
    assert_eq!(message_call_id(&SipMessage::Response(res)), None);
}

#[test]
fn registration_states_read_as_status_lines() {
    assert_eq!(RegistrationState::Unregistered.status_text(), "Unregistered");
    assert_eq!(RegistrationState::Registering.status_text(), "Registering...");
    assert_eq!(RegistrationState::Registered.status_text(), "Registered");
    assert_eq!(RegistrationState::Failed("Timeout".to_string()).status_text(), "Failed: Timeout");
}

#[test]
fn challenge_values_stop_at_the_next_key() {
    let mut ua = UserAgentState::new(account(Some("secret")), "cid-1".to_string());
    let mut s = ua.start_register("UDP", "10.0.0.1:5060", "reg-call", "b1", "t1");
    let challenge = response(401, "Unauthorized")
        .with_header("WWW-Authenticate", "Digest realm=\"arealm=\"x\", nonce=\"n\"");
    let a = ua.on_register_event(&mut s, Some(SipMessage::Response(challenge)), "b2", "c2");
    let text = match a {
        UaAction::Send(t) => t,
        _ => panic!("expected a request to send"),
    };
    let sent = SipRequest::parse(&text).unwrap();
    assert!(sent
        .get_header("Authorization")
        .unwrap()
        .starts_with("Digest username=\"alice\", realm=\"a\", nonce=\"n\", "));
}

#[test]
fn only_answered_challenges_need_a_new_cseq() {
    let ua = UserAgentState::new(account(Some("secret")), "cid-1".to_string());
    let challenge = response(401, "Unauthorized").with_header("WWW-Authenticate", "Digest realm=\"r\"");
    let msg = Some(SipMessage::Response(challenge));
    assert!(ua.would_answer_challenge(0, &msg));
    assert!(!ua.would_answer_challenge(3, &msg));
    assert!(!ua.would_answer_challenge(0, &Some(SipMessage::Response(response(200, "OK")))));
    assert!(!ua.would_answer_challenge(0, &None));
    let no_password = UserAgentState::new(account(None), "cid-1".to_string());
    assert!(!no_password.would_answer_challenge(0, &msg));
}

#[test]
fn answer_at_the_last_cseq_is_handled() {
    let mut ua = UserAgentState::new(account(Some("secret")), "cid-1".to_string());
    let mut s = ua.start_invite("sip:bob@example.com", "UDP", "10.0.0.1:5060", "call-1", "lt", "b1");
    ua.add_call(&s);
    ua.cseq = u32::MAX;
    let a = ua.on_invite_event(&mut s, Some(SipMessage::Response(response(200, "OK"))), "b2", "c2");
    let ack = match a {
        UaAction::Answered(ack, _) => ack,
        _ => panic!("expected an answered call"),
    };
    assert!(ack.contains(&format!("CSeq: {} ACK", u32::MAX)));
}
