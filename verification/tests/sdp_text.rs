use softphone::media::sdp::{SdpMediaDescription, SdpSession};

fn media(kind: &str, port: u16, formats: &[&str], attributes: &[&str]) -> SdpMediaDescription {
    SdpMediaDescription {
        media_type: kind.to_string(),
        port,
        transport: "RTP/AVP".to_string(),
        formats: formats.iter().map(|s| s.to_string()).collect(),
        attributes: attributes.iter().map(|s| s.to_string()).collect(),
    }
}

#[test]
fn new_session_text() {
    let s = SdpSession::new("alice", "Talk", "10.0.0.1");
    assert_eq!(
        s.to_string(),
        "v=0\r\no=alice 12345 67890 IN IP4 10.0.0.1\r\ns=Talk\r\nc=IN IP4 10.0.0.1\r\nt=0 0\r\n"
    );
}

#[test]
fn session_text_reads_back() {
    let mut s = SdpSession::new("alice", "Talk = fun", "10.0.0.1");
    s.add_media(media("audio", 4000, &["0", "8"], &["rtpmap:0 PCMU/8000", "sendrecv"]));
    s.add_media(media("video", 0, &["31"], &[]));
    let text = s.to_string();
    let p = SdpSession::parse(&text).unwrap();
    assert_eq!(p.version, 0);
    assert_eq!(p.owner, s.owner);
    assert_eq!(p.session_name, "Talk = fun");
    assert_eq!(p.connection_info, s.connection_info);
    assert_eq!(p.time_description, "0 0");
    assert_eq!(p.media_descriptions.len(), 2);
    assert_eq!(p.media_descriptions[0].media_type, "audio");
    assert_eq!(p.media_descriptions[0].port, 4000);
    assert_eq!(p.media_descriptions[0].transport, "RTP/AVP");
    assert_eq!(p.media_descriptions[0].formats, vec!["0".to_string(), "8".to_string()]);
    assert_eq!(
        p.media_descriptions[0].attributes,
        vec!["rtpmap:0 PCMU/8000".to_string(), "sendrecv".to_string()]
    );
    assert_eq!(p.media_descriptions[1].media_type, "video");
    assert_eq!(p.media_descriptions[1].port, 0);
    assert!(p.media_descriptions[1].attributes.is_empty());
}

#[test]
fn parse_rejects_bad_numbers_and_lines() {
    assert!(SdpSession::parse("v=x\r\n").is_none());
    assert!(SdpSession::parse("v=0\r\nbogus\r\n").is_none());
    assert!(SdpSession::parse("m=audio 70000 RTP/AVP 0\r\n").is_none());
}

#[test]
fn parse_skips_unknown_and_empty_lines() {
    let p = SdpSession::parse("v=1\n\nx=whatever\nb=AS:64\nm=audio 9 RTP/AVP\na=dropped\n").unwrap();
    assert_eq!(p.version, 1);
    assert_eq!(p.owner, " 12345 67890 IN IP4 ");
    assert_eq!(p.connection_info, "IN IP4 ");
    assert!(p.media_descriptions.is_empty());
}

#[test]
fn attributes_before_media_are_ignored() {
    let p = SdpSession::parse("a=early\r\nm=audio 9 RTP/AVP 0\r\na=late\r\n").unwrap();
    assert_eq!(p.media_descriptions.len(), 1);
    assert_eq!(p.media_descriptions[0].attributes, vec!["late".to_string()]);
}

#[test]
fn negotiation_without_common_format_answers_nothing() {
    let mut a = SdpSession::new("a", "A", "1.1.1.1");
    a.add_media(media("audio", 4000, &["0"], &[]));
    let mut b = SdpSession::new("b", "B", "2.2.2.2");
    b.add_media(media("audio", 5000, &["8"], &[]));
    assert!(a.negotiate(&b).is_none());
    let mut c = SdpSession::new("c", "C", "3.3.3.3");
    c.add_media(media("video", 5000, &["0"], &[]));
    assert!(a.negotiate(&c).is_none());
}

#[test]
fn negotiation_keeps_offer_order_and_rtpmaps() {
    let mut a = SdpSession::new("a", "A", "1.1.1.1");
    a.add_media(media("audio", 4000, &["0", "8", "96"], &["rtpmap:0 PCMU/8000", "rtpmap:96 opus/48000/2"]));
    let mut b = SdpSession::new("b", "B", "2.2.2.2");
    b.add_media(media("audio", 5000, &["96", "0"], &["rtpmap:96 OPUS/48000/2", "rtpmap:0 PCMU/8000"]));
    let n = a.negotiate(&b).unwrap();
    assert_eq!(n.owner, "softphone 12345 67890 IN IP4 0.0.0.0");
    assert_eq!(n.session_name, "Negotiated Session");
    assert_eq!(n.media_descriptions.len(), 1);
    let m = &n.media_descriptions[0];
    assert_eq!(m.port, 4000);
    assert_eq!(m.formats, vec!["0".to_string(), "96".to_string()]);
    assert_eq!(
        m.attributes,
        vec![
            "rtpmap:0 PCMU/8000".to_string(),
            "rtpmap:96 opus/48000/2".to_string(),
            "rtpmap:96 OPUS/48000/2".to_string(),
        ]
    );
}
