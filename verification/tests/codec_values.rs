use softphone::media::codec::G711;

#[test]
fn ulaw_encodes_known_samples() {
    assert_eq!(G711::linear_to_ulaw(0), 0x7F);
    assert_eq!(G711::linear_to_ulaw(-1), 0xFF);
    assert_eq!(G711::linear_to_ulaw(100), 0x72);
    assert_eq!(G711::linear_to_ulaw(-100), 0xF2);
    assert_eq!(G711::linear_to_ulaw(1000), 0x4E);
    assert_eq!(G711::linear_to_ulaw(-1000), 0xCE);
    assert_eq!(G711::linear_to_ulaw(32767), 0x00);
    assert_eq!(G711::linear_to_ulaw(-32767), 0x80);
}

#[test]
fn ulaw_decodes_known_codes() {
    assert_eq!(G711::ulaw_to_linear(0x00), 32124);
    assert_eq!(G711::ulaw_to_linear(0x80), -32124);
    assert_eq!(G711::ulaw_to_linear(0x7F), 0);
    assert_eq!(G711::ulaw_to_linear(0xFF), 0);
    assert_eq!(G711::ulaw_to_linear(0x0F), 16764);
    assert_eq!(G711::ulaw_to_linear(0xF0), -120);
}

#[test]
fn ulaw_codes_decode_and_encode_back() {
    for u in 0u8..=0xFE {
        assert_eq!(G711::linear_to_ulaw(G711::ulaw_to_linear(u)), u);
    }
    assert_eq!(G711::linear_to_ulaw(G711::ulaw_to_linear(0xFF)), 0x7F);
}

#[test]
fn ulaw_error_is_small_and_keeps_sign() {
    for s in -32635i16..=32635 {
        let d = G711::ulaw_to_linear(G711::linear_to_ulaw(s));
        assert!((d as i32 - s as i32).abs() <= 512);
        assert!(s <= 0 || d >= 0);
        assert!(s >= 0 || d <= 0);
    }
    for u in 0u8..=255 {
        let d = G711::ulaw_to_linear(u);
        assert!(-32124 <= d && d <= 32124);
    }
}
