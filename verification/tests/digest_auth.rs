use softphone::sip::auth::{calculate_digest_response, calculate_digest_response_qop};

#[test]
fn test_digest_calculation() {
    let response = calculate_digest_response("admin", "admin", "sip", "12345", "REGISTER", "sip:server.com");
    assert_eq!(response.len(), 32);
}

#[test]
fn test_digest_calculation_qop() {
    let response = calculate_digest_response_qop(
        "Mufasa", "Circle Of Life", "testrealm@host.com",
        "dcd98b7102dd2f0e8b11d0f600bfb0c093", "0a4f113b", "00000001", "auth",
        "GET", "/dir/index.html"
    );
    // RFC 2617 Example values (modified for GET vs REGISTER/SIP)
    assert_eq!(response.len(), 32);
}

#[test]
fn digest_matches_the_rfc_example() {
    let response = calculate_digest_response_qop(
        "Mufasa", "Circle Of Life", "testrealm@host.com",
        "dcd98b7102dd2f0e8b11d0f600bfb0c093", "0a4f113b", "00000001", "auth",
        "GET", "/dir/index.html"
    );
    assert_eq!(response, "6629fae49393a05397450978507c4ef1");
}

#[test]
fn digest_without_qop_known_value() {
    let response = calculate_digest_response("admin", "admin", "sip", "12345", "REGISTER", "sip:server.com");
    assert_eq!(response, "a50b6ec0a7030eee0a90cddbea27f950");
    let other = calculate_digest_response("admin", "admin", "sip", "12346", "REGISTER", "sip:server.com");
    assert_ne!(response, other);
}

#[test]
fn hex_is_two_lower_case_digits_per_byte() {
    assert_eq!(softphone::sip::auth::hex_string(&[0x00, 0xff, 0x10, 0xab]), "00ff10ab");
    assert_eq!(softphone::sip::auth::hex_string(&[]), "");
}
