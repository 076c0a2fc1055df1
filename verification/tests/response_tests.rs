use rake::response::Response;
use rake::numfmt::{u64_to_dec, u64_to_hex};
use rake::staticfiles::{get_mime_type, StaticFiles};

#[test]
fn wire_format_exact() {
    let resp = Response::new(200, b"hi".to_vec(), "text/plain");
    let wire = resp.to_http();
    assert_eq!(
        wire,
        b"HTTP/1.1 200 OK\r\nContent-Type: text/plain\r\nContent-Length: 2\r\n\r\nhi"
            .to_vec()
    );
}

#[test]
fn wire_format_with_header() {
    let resp = Response::new(204, Vec::new(), "text/plain")
        .with_header("X-One", "1")
        .with_header("X-Two", "2");
    let wire = String::from_utf8(resp.to_http()).expect("ascii");
    assert_eq!(
        wire,
        "HTTP/1.1 204 OK\r\nContent-Type: text/plain\r\nContent-Length: 0\r\n\
         X-One: 1\r\nX-Two: 2\r\n\r\n"
    );
}

#[test]
fn with_header_replaces_value() {
    let resp = Response::new(200, Vec::new(), "text/plain")
        .with_header("X-A", "old")
        .with_header("X-A", "new");
    let wire = String::from_utf8(resp.to_http()).expect("ascii");
    assert!(wire.contains("X-A: new\r\n"));
    assert!(!wire.contains("old"));
}

#[test]
fn reason_phrase_fixed_whatever_the_code() {
    let resp = Response::new(404, b"gone".to_vec(), "text/plain");
    let wire = String::from_utf8(resp.to_http()).expect("ascii");
    assert!(wire.starts_with("HTTP/1.1 404 OK\r\n"));
}

#[test]
fn content_length_matches_body_bytes() {
    let body = b"some body of thirteen".to_vec();
    let n = body.len();
    let resp = Response::new(200, body, "text/plain");
    let wire = String::from_utf8(resp.to_http()).expect("ascii");
    assert!(wire.contains(&format!("Content-Length: {}\r\n", n)));
}

#[test]
fn decimal_and_hex_rendering() {
    assert_eq!(u64_to_dec(0).as_str(), "0");
    assert_eq!(u64_to_dec(404).as_str(), "404");
    assert_eq!(u64_to_dec(18446744073709551615).as_str(), "18446744073709551615");
    assert_eq!(u64_to_hex(0).as_str(), "0");
    assert_eq!(u64_to_hex(255).as_str(), "ff");
    assert_eq!(u64_to_hex(3735928559).as_str(), "deadbeef");
}

#[test]
fn mime_table() {
    assert_eq!(get_mime_type("index.html"), "text/html");
    assert_eq!(get_mime_type("a/b/site.css"), "text/css");
    assert_eq!(get_mime_type("app.js"), "application/javascript");
    assert_eq!(get_mime_type("p.png"), "image/png");
    assert_eq!(get_mime_type("p.jpg"), "image/jpeg");
    assert_eq!(get_mime_type("p.jpeg"), "image/jpeg");
    assert_eq!(get_mime_type("p.gif"), "image/gif");
    assert_eq!(get_mime_type("p.svg"), "image/svg+xml");
    assert_eq!(get_mime_type("d.json"), "application/json");
    assert_eq!(get_mime_type("d.pdf"), "application/pdf");
    assert_eq!(get_mime_type("d.txt"), "text/plain");
    assert_eq!(get_mime_type("noext"), "application/octet-stream");
    assert_eq!(get_mime_type("odd.xyz"), "application/octet-stream");
}

#[test]
fn static_prefix_resolution() {
    let mut st = StaticFiles::new();
    st.register("/assets", "./public");
    st.register("/", "./root");
    let (fs, mime) = st.resolve_target("/assets/site.css").expect("mapped");
    assert_eq!(fs.as_str(), "./public/site.css");
    assert_eq!(mime.as_str(), "text/css");
    // The first matching prefix wins.
    let (fs, _) = st.resolve_target("/other/file.txt").expect("mapped");
    assert_eq!(fs.as_str(), "./root/other/file.txt");
}

#[test]
fn traversal_never_resolves() {
    let mut st = StaticFiles::new();
    st.register("/", "./public");
    assert!(st.resolve_target("/../etc/passwd").is_none());
    assert!(st.resolve_target("/a/../../b.txt").is_none());
    assert!(st.resolve_target("/fine/path.txt").is_some());
}

#[test]
fn no_mapping_no_resolution() {
    let st = StaticFiles::new();
    assert!(st.resolve_target("/anything").is_none());
}
