use rake::session::{generate_session_id, identify, set_cookie_value, SessionStore};
use rake::request::parse_http_request;

#[test]
fn identify_reads_sessionid_pair() {
    assert_eq!(identify("SESSIONID=abc123").as_deref(), Some("abc123"));
    assert_eq!(identify("a=1; SESSIONID=xyz; b=2").as_deref(), Some("xyz"));
    assert_eq!(identify("  SESSIONID=padded  ").as_deref(), Some("padded"));
    assert_eq!(identify("other=1; more=2"), None);
    assert_eq!(identify(""), None);
}

#[test]
fn identify_last_pair_wins() {
    assert_eq!(identify("SESSIONID=first; SESSIONID=second").as_deref(), Some("second"));
}

#[test]
fn generated_id_is_hex_of_both_parts() {
    assert_eq!(generate_session_id(255, 0).as_str(), "ff0");
    assert_eq!(generate_session_id(0, 16).as_str(), "010");
    assert_eq!(generate_session_id(3735928559, 2).as_str(), "deadbeef2");
}

#[test]
fn set_cookie_shape() {
    assert_eq!(
        set_cookie_value("abc123").as_str(),
        "SESSIONID=abc123; HttpOnly; Path=/"
    );
}

#[test]
fn cookie_identifier_round_trips() {
    // What the server issues is what it recognizes.
    let issued = set_cookie_value("abc123");
    let echoed = issued.as_str().split(';').next().unwrap();
    assert_eq!(identify(echoed).as_deref(), Some("abc123"));
}

#[test]
fn store_creates_bag_once() {
    let mut store = SessionStore::new();
    store.ensure("s1");
    assert_eq!(store.sessions.len(), 1);
    store.ensure("s1");
    assert_eq!(store.sessions.len(), 1);
    store.ensure("s2");
    assert_eq!(store.sessions.len(), 2);
    assert!(store.session_bag("s1").is_some());
    assert!(store.session_bag("missing").is_none());
}

#[test]
fn resolve_keeps_client_identifier() {
    // A client-supplied identifier is reused, never replaced.
    let mut store = SessionStore::new();
    let head = "GET / HTTP/1.1\r\nCookie: SESSIONID=abc123\r\n";
    let req = parse_http_request(head, Vec::new()).expect("well-formed");
    let sid1 = store.resolve(&req, 11111);
    let sid2 = store.resolve(&req, 22222);
    assert_eq!(sid1.as_str(), "abc123");
    assert_eq!(sid2.as_str(), "abc123");
    assert_eq!(store.sessions.len(), 1);
    assert_eq!(store.counter, 0);
}

#[test]
fn resolve_mints_fresh_identifier_without_cookie() {
    let mut store = SessionStore::new();
    let req = parse_http_request("GET / HTTP/1.1\r\n", Vec::new()).expect("well-formed");
    let sid1 = store.resolve(&req, 0xab);
    assert_eq!(sid1.as_str(), "ab0");
    assert_eq!(store.counter, 1);
    let sid2 = store.resolve(&req, 0xab);
    assert_eq!(sid2.as_str(), "ab1");
    assert_eq!(store.sessions.len(), 2);
}
