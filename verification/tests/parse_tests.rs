use rake::request::{content_length, parse_http_request, parse_urlencoded, HttpError,
    MAX_HEADER_BYTES};
use rake::numfmt::parse_u64;

#[test]
fn parse_request_line_and_target() {
    let head = "GET /hello/Ada?x=1&y=2 HTTP/1.1\r\nHost: localhost\r\n";
    let req = parse_http_request(head, Vec::new()).expect("well-formed");
    assert_eq!(req.method.as_str(), "GET");
    assert_eq!(req.path.as_str(), "/hello/Ada");
    assert_eq!(req.param("x").map(|s| s.as_str()), Some("1"));
    assert_eq!(req.param("y").map(|s| s.as_str()), Some("2"));
    assert_eq!(req.raw.as_str(), head);
}

#[test]
fn parse_headers_lower_cased_and_trimmed() {
    let head = "GET / HTTP/1.1\r\nHost:  example.org \r\nX-Thing: a b\r\n";
    let req = parse_http_request(head, Vec::new()).expect("well-formed");
    assert_eq!(req.header("HOST").map(|s| s.as_str()), Some("example.org"));
    assert_eq!(req.header("x-thing").map(|s| s.as_str()), Some("a b"));
    assert_eq!(req.header("absent"), None);
}

#[test]
fn duplicate_header_last_wins() {
    let head = "GET / HTTP/1.1\r\nX-A: one\r\nX-A: two\r\n";
    let req = parse_http_request(head, Vec::new()).expect("well-formed");
    assert_eq!(req.header("x-a").map(|s| s.as_str()), Some("two"));
}

#[test]
fn duplicate_query_first_wins() {
    let head = "GET /p?k=first&k=second HTTP/1.1\r\n";
    let req = parse_http_request(head, Vec::new()).expect("well-formed");
    assert_eq!(req.param("k").map(|s| s.as_str()), Some("first"));
}

#[test]
fn query_pair_without_equals_dropped() {
    let head = "GET /p?flag&k=v HTTP/1.1\r\n";
    let req = parse_http_request(head, Vec::new()).expect("well-formed");
    assert_eq!(req.param("flag"), None);
    assert_eq!(req.param("k").map(|s| s.as_str()), Some("v"));
}

#[test]
fn malformed_request_line_rejected() {
    let r = parse_http_request("GET\r\n", Vec::new());
    assert!(matches!(r, Err(HttpError::MalformedRequest)));
    let r = parse_http_request("", Vec::new());
    assert!(matches!(r, Err(HttpError::MalformedRequest)));
}

#[test]
fn body_carried_through() {
    let head = "POST /echo HTTP/1.1\r\nContent-Length: 5\r\n";
    let req = parse_http_request(head, b"hello".to_vec()).expect("well-formed");
    assert_eq!(req.body, b"hello".to_vec());
    assert_eq!(content_length(&req.headers), Some(5));
}

#[test]
fn content_length_rejects_non_numeric() {
    let head = "POST / HTTP/1.1\r\nContent-Length: 12a\r\n";
    let req = parse_http_request(head, Vec::new()).expect("well-formed");
    assert_eq!(content_length(&req.headers), None);
    let head = "POST / HTTP/1.1\r\n";
    let req = parse_http_request(head, Vec::new()).expect("well-formed");
    assert_eq!(content_length(&req.headers), None);
}

#[test]
fn parse_u64_bounds() {
    assert_eq!(parse_u64("0"), Some(0));
    assert_eq!(parse_u64("18446744073709551615"), Some(u64::MAX));
    assert_eq!(parse_u64("18446744073709551616"), None);
    assert_eq!(parse_u64(""), None);
    assert_eq!(parse_u64("-3"), None);
}

#[test]
fn form_data_parsed_from_body() {
    let head = "POST /form HTTP/1.1\r\n";
    let req = parse_http_request(head, b"a=1&b=two&b=three&bad".to_vec())
        .expect("well-formed");
    let form = req.form_data();
    assert_eq!(form.get("a").map(|s| s.as_str()), Some("1"));
    // The body parse keeps the last occurrence, as the hash map did.
    assert_eq!(form.get("b").map(|s| s.as_str()), Some("three"));
    assert_eq!(form.get("bad"), None);
}

#[test]
fn urlencoded_values_decoded_not_echoed() {
    let table = parse_urlencoded(b"k=value");
    assert_eq!(table.get("k").map(|s| s.as_str()), Some("value"));
    assert_eq!(table.get("k=value"), None);
}

#[test]
fn query_params_copies_table() {
    let head = "GET /p?k=v HTTP/1.1\r\n";
    let req = parse_http_request(head, Vec::new()).expect("well-formed");
    let q = req.query_params();
    assert_eq!(q.get("k").map(|s| s.as_str()), Some("v"));
    assert_eq!(q.len(), 1);
}

#[test]
fn header_size_bound_is_declared() {
    assert_eq!(MAX_HEADER_BYTES, 8192);
}

#[test]
fn error_codes_by_class() {
    assert_eq!(HttpError::MalformedRequest.code(), 400);
    assert_eq!(HttpError::HeaderTooLarge.code(), 431);
    assert_eq!(HttpError::BodyTooLarge.code(), 413);
}
