use softphone::media::rtp::{RtcpHeader, RtcpPacketType, RtcpSenderReport, RtpHeader, RtpPacket};

#[test]
fn test_rtp_serialization() {
    let header = RtpHeader::new(0, 100, 1000, 12345);
    let payload = vec![0x01, 0x02, 0x03, 0x04];
    let packet = RtpPacket::new(header, payload);

    let bytes = packet.to_bytes();
    assert_eq!(bytes.len(), 16);
    assert_eq!(bytes[0], 0x80); // Version 2
    assert_eq!(bytes[1], 0x00); // Payload type 0

    let parsed = RtpPacket::parse(&bytes).unwrap();
    assert_eq!(parsed.header.sequence_number, 100);
    assert_eq!(parsed.header.ssrc, 12345);
    assert_eq!(parsed.payload, vec![0x01, 0x02, 0x03, 0x04]);
}

#[test]
fn test_rtcp_sr_serialization() {
    let header = RtcpHeader {
        version: 2,
        padding: false,
        count: 0,
        packet_type: RtcpPacketType::SenderReport,
        length: 6, // 28 bytes total
    };
    let sr = RtcpSenderReport {
        header,
        ssrc: 12345,
        ntp_timestamp: 0x12345678,
        rtp_timestamp: 1000,
        packet_count: 10,
        byte_count: 160,
    };
    let bytes = sr.to_bytes();
    assert_eq!(bytes.len(), 28);
    assert_eq!(bytes[1], 200);
}

#[test]
fn rtp_header_bytes_and_parse() {
    let h = RtpHeader::new(96, 0xABCD, 0x01020304, 0xDEADBEEF);
    let b = h.to_bytes();
    assert_eq!(b, vec![0x80, 96, 0xAB, 0xCD, 1, 2, 3, 4, 0xDE, 0xAD, 0xBE, 0xEF]);
    let p = RtpHeader::parse(&b).unwrap();
    assert_eq!(p, h);
    assert!(RtpHeader::parse(&b[..11]).is_none());
}

#[test]
fn rtp_packet_of_header_only() {
    let p = RtpPacket::parse(&[0x80, 0, 0, 1, 0, 0, 0, 2, 0, 0, 0, 3]).unwrap();
    assert_eq!(p.header.sequence_number, 1);
    assert_eq!(p.header.timestamp, 2);
    assert_eq!(p.header.ssrc, 3);
    assert!(p.payload.is_empty());
    assert!(RtpPacket::parse(&[0x80, 0]).is_none());
}

#[test]
fn rtcp_header_layout() {
    let h = RtcpHeader {
        version: 2,
        padding: true,
        count: 1,
        packet_type: RtcpPacketType::Bye,
        length: 0x0102,
    };
    assert_eq!(h.to_bytes(), [0xA1, 203, 0x01, 0x02]);
    assert_eq!(RtcpPacketType::SenderReport.code(), 200);
    assert_eq!(RtcpPacketType::ReceiverReport.code(), 201);
    assert_eq!(RtcpPacketType::SourceDescription.code(), 202);
    assert_eq!(RtcpPacketType::App.code(), 204);
}

#[test]
fn rtcp_sender_report_layout() {
    let header = RtcpHeader {
        version: 2,
        padding: false,
        count: 0,
        packet_type: RtcpPacketType::SenderReport,
        length: 6,
    };
    let sr = RtcpSenderReport {
        header,
        ssrc: 1,
        ntp_timestamp: 0x0102030405060708,
        rtp_timestamp: 9,
        packet_count: 10,
        byte_count: 11,
    };
    assert_eq!(
        sr.to_bytes(),
        vec![
            0x80, 200, 0, 6, 0, 0, 0, 1, 1, 2, 3, 4, 5, 6, 7, 8, 0, 0, 0, 9, 0, 0, 0, 10, 0, 0,
            0, 11
        ]
    );
}

#[test]
fn next_packet_counts_and_wraps() {
    let h = RtpHeader::new(0, 7, 1000, 42).next_packet(160);
    assert_eq!(h.sequence_number, 8);
    assert_eq!(h.timestamp, 1160);
    assert_eq!(h.ssrc, 42);
    let w = RtpHeader::new(0, u16::MAX, u32::MAX - 10, 42).next_packet(160);
    assert_eq!(w.sequence_number, 0);
    assert_eq!(w.timestamp, 149);
}
