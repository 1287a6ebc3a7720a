use softphone::media::sdp::{SdpMediaDescription, SdpSession};
use softphone::sip::ua::rtp_address_of;

#[test]
fn test_sdp_negotiation() {
    let mut offer = SdpSession::new("alice", "Offer", "127.0.0.1");
    offer.add_media(SdpMediaDescription {
        media_type: "audio".to_string(),
        port: 4000,
        transport: "RTP/AVP".to_string(),
        formats: vec!["0".to_string(), "8".to_string(), "96".to_string()],
        attributes: vec![
            "rtpmap:0 PCMU/8000".to_string(),
            "rtpmap:8 PCMA/8000".to_string(),
            "rtpmap:96 OPUS/48000/2".to_string(),
        ],
    });

    let mut answer = SdpSession::new("bob", "Answer", "127.0.0.2");
    answer.add_media(SdpMediaDescription {
        media_type: "audio".to_string(),
        port: 5000,
        transport: "RTP/AVP".to_string(),
        formats: vec!["96".to_string(), "0".to_string()],
        attributes: vec![
            "rtpmap:96 OPUS/48000/2".to_string(),
            "rtpmap:0 PCMU/8000".to_string(),
        ],
    });

    let negotiated = offer.negotiate(&answer).unwrap();
    assert_eq!(negotiated.media_descriptions[0].formats.len(), 2);
    assert!(negotiated.media_descriptions[0].formats.contains(&"0".to_string()));
    assert!(negotiated.media_descriptions[0].formats.contains(&"96".to_string()));
}

#[test]
fn test_sdp_rtp_address_parsing() {
    let sdp_body = "v=0\r\no=alice 12345 67890 IN IP4 1.2.3.4\r\ns=Session\r\nc=IN IP4 1.2.3.4\r\nt=0 0\r\nm=audio 5000 RTP/AVP 0\r\na=rtpmap:0 PCMU/8000\r\n";
    let sdp = SdpSession::parse(sdp_body).unwrap();
    let media = sdp.media_descriptions.iter().find(|m| m.media_type == "audio").unwrap();
    let ip = sdp.connection_info.split_whitespace().last().unwrap();
    let addr = format!("{}:{}", ip, media.port);
    assert_eq!(addr, "1.2.3.4:5000");
    assert_eq!(rtp_address_of(sdp_body).unwrap(), "1.2.3.4:5000");
}
