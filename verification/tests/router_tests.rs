use rake::router::{match_route, Router};
use rake::request::Request;
use rake::response::Response;
use rake::table::{StrMap, Table};

fn handler_id(r: Option<(&u32, StrMap)>) -> Option<u32> {
    r.map(|(h, _)| *h)
}

fn blank_request() -> Request {
    Request {
        method: String::from("GET"),
        path: String::from("/"),
        raw: String::new(),
        headers: Table::new(),
        query: Table::new(),
        body: Vec::new(),
    }
}

#[test]
fn registration_order_precedence() {
    // Two overlapping patterns: the earlier registration wins.
    let mut router: Router<u32> = Router::new();
    router.add_route("GET", "/about", 1);
    router.add_route("GET", "/<name>", 2);
    assert_eq!(handler_id(router.find("GET", "/about")), Some(1));
    // The later route still serves what only it matches.
    assert_eq!(handler_id(router.find("GET", "/else")), Some(2));
}

#[test]
fn segment_count_must_agree() {
    assert!(match_route("/a/<b>", "/a").is_none());
    assert!(match_route("/a/<b>", "/a/b/c").is_none());
    assert!(match_route("/a/<b>", "/a/b").is_some());
}

#[test]
fn literal_round_trip_empty_params() {
    let mut router: Router<u32> = Router::new();
    router.add_route("GET", "/health/check", 7);
    let (h, params) = router.find("GET", "/health/check").expect("must resolve");
    assert_eq!(*h, 7);
    assert_eq!(params.len(), 0);
}

#[test]
fn placeholder_binds_segment() {
    // The scenario of /hello/<name> against /hello/Ada.
    let mut router: Router<u32> = Router::new();
    router.add_route("GET", "/hello/<name>", 3);
    let (h, params) = router.find("GET", "/hello/Ada").expect("must resolve");
    assert_eq!(*h, 3);
    assert_eq!(params.len(), 1);
    assert_eq!(params.get("name").map(|s| s.as_str()), Some("Ada"));
}

#[test]
fn method_compared_upper_cased() {
    let mut router: Router<u32> = Router::new();
    router.add_route("get", "/x", 4);
    assert_eq!(handler_id(router.find("GeT", "/x")), Some(4));
    assert_eq!(handler_id(router.find("POST", "/x")), None);
}

#[test]
fn later_placeholder_overwrites_same_name() {
    let params = match_route("/<a>/<a>", "/x/y").expect("must match");
    assert_eq!(params.get("a").map(|s| s.as_str()), Some("y"));
}

#[test]
fn trailing_slashes_trimmed() {
    assert!(match_route("/about/", "about").is_some());
}

#[test]
fn handlers_receive_request() {
    // A handler free function on a parsed request.
    let req = blank_request();
    let params: StrMap = Table::new();
    let resp: Response = rake::handlers::hello_handler(&req, &params);
    assert_eq!(resp.status_code, 200);
    assert_eq!(resp.body, b"Hello, world!".to_vec());
}
