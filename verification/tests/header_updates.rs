use softphone::sip::{Method, SipHeaderAccess, SipRequest, SipResponse};

#[test]
fn set_header_replaces_the_first_match_ignoring_case() {
    let mut req = SipRequest::new(Method::Invite, "sip:a@b").with_header("Content-Length", "0");
    req.add_header("content-length", "5");
    req.set_header("CONTENT-LENGTH", "12");
    assert_eq!(req.headers.len(), 2);
    assert_eq!(req.headers[0].0, "Content-Length");
    assert_eq!(req.headers[0].1, "12");
    assert_eq!(req.headers[1].1, "5");
    assert_eq!(req.get_header("content-length").unwrap(), "12");
    assert_eq!(req.content_length(), Some(12));
}

#[test]
fn set_header_appends_a_missing_header() {
    let mut res = SipResponse::new(200, "OK").with_header("To", "sip:a@b");
    res.set_header("Contact", "<sip:a@1.2.3.4>");
    assert_eq!(res.headers.len(), 2);
    assert_eq!(res.contact().unwrap(), "<sip:a@1.2.3.4>");
    assert_eq!(res.to().unwrap(), "sip:a@b");
}

#[test]
fn set_header_twice_is_set_once() {
    let mut once = SipRequest::new(Method::Register, "sip:b");
    once.set_header("Expires", "3600");
    let mut twice = SipRequest::new(Method::Register, "sip:b");
    twice.set_header("Expires", "3600");
    twice.set_header("Expires", "3600");
    assert_eq!(once.headers, twice.headers);
}

#[test]
fn add_header_keeps_the_first_value() {
    let mut req = SipRequest::new(Method::Invite, "sip:a@b").with_header("Via", "first");
    req.add_header("via", "second");
    assert_eq!(req.via().unwrap(), "first");
    let all = req.get_all_headers("VIA");
    assert_eq!(all.len(), 2);
    assert_eq!(all[0], "first");
    assert_eq!(all[1], "second");
}

#[test]
fn missing_headers_read_as_none() {
    let req = SipRequest::new(Method::Options, "sip:a@b").with_header("Content-Length", "abc");
    assert!(req.call_id().is_none());
    assert!(req.get_all_headers("Route").is_empty());
    assert_eq!(req.content_length(), None);
}
