use rake::handlers::hello_handler;
use rake::request::Request;
use rake::response::Response;
use rake::server::{AfterMiddleware, BeforeMiddleware, ErrorHandler, Handled, Handler,
    SimpleHttpServer};
use rake::session::SessionStore;
use rake::table::StrMap;
use rake::template::{SimpleTemplateEngine, TemplateEngine};

enum TestHandler {
    Hello,
    MustNotRun,
}

impl Handler for TestHandler {
    fn handle(&self, req: &Request, params: &StrMap) -> Response {
        match self {
            TestHandler::Hello => hello_handler(req, params),
            TestHandler::MustNotRun => panic!("the router must not be invoked"),
        }
    }
}

struct BlockBefore;

impl BeforeMiddleware for BlockBefore {
    fn before(&self, req: &mut Request) -> Option<Response> {
        match req.header("X-Block") {
            Some(v) if v.as_str() == "1" => Some(
                Response::new(403, b"blocked".to_vec(), "text/plain")
                    .with_header("X-From-Middleware", "yes"),
            ),
            _ => None,
        }
    }
}

struct TagAfter;

impl AfterMiddleware for TagAfter {
    fn after(&self, _req: &Request, resp: &mut Response) {
        resp.headers.push_pair(String::from("X-After"), String::from("ran"));
    }
}

struct FixedError;

impl ErrorHandler for FixedError {
    fn handle_error(&self, _req: &Request, code: u16) -> Response {
        Response::new(code, b"custom page".to_vec(), "text/plain")
    }
}

struct TestEngine;

impl TemplateEngine for TestEngine {
    fn render(&self, template: &str, context: &StrMap) -> String {
        self.render_str(template, context)
    }

    fn render_str(&self, template: &str, context: &StrMap) -> String {
        SimpleTemplateEngine::new().render_str(template, context)
    }
}

type Srv = SimpleHttpServer<TestHandler, BlockBefore, TagAfter, FixedError, TestEngine>;

fn cookie_of(resp: &Response) -> Option<String> {
    resp.headers.get("Set-Cookie").cloned()
}

#[test]
fn missing_route_gives_default_not_found() {
    // No route, no static mapping, no registered handler: the default 404.
    let server: Srv = SimpleHttpServer::new();
    let mut store = SessionStore::new();
    let out = server.handle_request(&mut store, "GET /missing HTTP/1.1\r\n", Vec::new(), 7);
    let resp = match out {
        Handled::Complete(resp) => resp,
        _ => panic!("expected a finished response"),
    };
    assert_eq!(resp.status_code, 404);
    assert_eq!(resp.body, b"404 Error".to_vec());
    let wire = String::from_utf8(resp.to_http()).expect("ascii");
    assert!(wire.starts_with("HTTP/1.1 404 OK\r\n"));
    assert!(wire.contains("Content-Length: 9\r\n"));
    assert!(cookie_of(&resp).is_some());
}

#[test]
fn route_resolves_with_parameter() {
    let mut server: Srv = SimpleHttpServer::new();
    server.route("GET", "/hello/<name>", TestHandler::Hello);
    let mut store = SessionStore::new();
    let out = server.handle_request(&mut store, "GET /hello/Ada HTTP/1.1\r\n", Vec::new(), 7);
    match out {
        Handled::Complete(resp) => {
            assert_eq!(resp.status_code, 200);
            assert_eq!(resp.body, b"Hello, Ada!".to_vec());
        },
        _ => panic!("expected a finished response"),
    }
}

#[test]
fn before_middleware_short_circuits() {
    // The blocking step answers; the router is never invoked; the after
    // step and the session cookie still appear.
    let mut server: Srv = SimpleHttpServer::new();
    server.route("GET", "/blocked", TestHandler::MustNotRun);
    server.add_before_middleware(BlockBefore);
    server.add_after_middleware(TagAfter);
    let mut store = SessionStore::new();
    let head = "GET /blocked HTTP/1.1\r\nX-Block: 1\r\n";
    let out = server.handle_request(&mut store, head, Vec::new(), 7);
    let resp = match out {
        Handled::Complete(resp) => resp,
        _ => panic!("expected a finished response"),
    };
    assert_eq!(resp.status_code, 403);
    assert_eq!(resp.body, b"blocked".to_vec());
    assert_eq!(resp.headers.get("X-From-Middleware").map(|s| s.as_str()), Some("yes"));
    assert_eq!(resp.headers.get("X-After").map(|s| s.as_str()), Some("ran"));
    assert!(cookie_of(&resp).is_some());
}

#[test]
fn before_middleware_passes_unblocked_requests() {
    let mut server: Srv = SimpleHttpServer::new();
    server.route("GET", "/open", TestHandler::Hello);
    server.add_before_middleware(BlockBefore);
    let mut store = SessionStore::new();
    let out = server.handle_request(&mut store, "GET /open HTTP/1.1\r\n", Vec::new(), 7);
    match out {
        Handled::Complete(resp) => assert_eq!(resp.status_code, 200),
        _ => panic!("expected a finished response"),
    }
}

#[test]
fn client_cookie_reused_and_bag_kept() {
    let mut server: Srv = SimpleHttpServer::new();
    server.route("GET", "/", TestHandler::Hello);
    let mut store = SessionStore::new();
    let head = "GET / HTTP/1.1\r\nCookie: SESSIONID=abc123\r\n";
    let out = server.handle_request(&mut store, head, Vec::new(), 1);
    let resp = match out {
        Handled::Complete(resp) => resp,
        _ => panic!("expected a finished response"),
    };
    assert_eq!(
        cookie_of(&resp).as_deref(),
        Some("SESSIONID=abc123; HttpOnly; Path=/")
    );
    assert_eq!(store.sessions.len(), 1);
    // The same cookie on a later request reuses the same bag.
    let out = server.handle_request(&mut store, head, Vec::new(), 2);
    match out {
        Handled::Complete(resp) => {
            assert_eq!(
                cookie_of(&resp).as_deref(),
                Some("SESSIONID=abc123; HttpOnly; Path=/")
            );
        },
        _ => panic!("expected a finished response"),
    }
    assert_eq!(store.sessions.len(), 1);
    assert!(store.session_bag("abc123").is_some());
}

#[test]
fn static_resolution_names_file_then_serves() {
    let mut server: Srv = SimpleHttpServer::new();
    server.register_static("/assets", "./public");
    let mut store = SessionStore::new();
    let out = server.handle_request(&mut store, "GET /assets/site.css HTTP/1.1\r\n",
        Vec::new(), 7);
    let (fs_path, mime, req, sid) = match out {
        Handled::NeedsFile { fs_path, mime, req, session_id } => (fs_path, mime, req,
            session_id),
        _ => panic!("expected a file request"),
    };
    assert_eq!(fs_path.as_str(), "./public/site.css");
    assert_eq!(mime.as_str(), "text/css");
    let resp = server.handle_file_result(&req, sid.as_str(), mime.as_str(),
        Some(b"body{}".to_vec()));
    assert_eq!(resp.status_code, 200);
    assert_eq!(resp.body, b"body{}".to_vec());
    assert_eq!(resp.content_type.as_str(), "text/css");
    assert!(cookie_of(&resp).is_some());
    // A missing or unreadable file folds into the 404 path.
    let resp = server.handle_file_result(&req, sid.as_str(), mime.as_str(), None);
    assert_eq!(resp.status_code, 404);
    assert_eq!(resp.body, b"404 Error".to_vec());
}

#[test]
fn traversal_is_served_as_not_found() {
    // Even with a mapping registered, a path with .. never names a file.
    let mut server: Srv = SimpleHttpServer::new();
    server.static_dir("./public");
    let mut store = SessionStore::new();
    let out = server.handle_request(&mut store, "GET /../secret.txt HTTP/1.1\r\n",
        Vec::new(), 7);
    match out {
        Handled::Complete(resp) => assert_eq!(resp.status_code, 404),
        Handled::NeedsFile { .. } => panic!("a traversal path must not reach a file"),
    }
}

#[test]
fn registered_error_handler_overrides_default() {
    let mut server: Srv = SimpleHttpServer::new();
    server.error_handler(404, FixedError);
    let mut store = SessionStore::new();
    let out = server.handle_request(&mut store, "GET /nope HTTP/1.1\r\n", Vec::new(), 7);
    match out {
        Handled::Complete(resp) => {
            assert_eq!(resp.status_code, 404);
            assert_eq!(resp.body, b"custom page".to_vec());
        },
        _ => panic!("expected a finished response"),
    }
}

#[test]
fn malformed_request_line_becomes_bad_request() {
    let server: Srv = SimpleHttpServer::new();
    let mut store = SessionStore::new();
    let out = server.handle_request(&mut store, "GET\r\n", Vec::new(), 7);
    match out {
        Handled::Complete(resp) => {
            assert_eq!(resp.status_code, 400);
            assert_eq!(resp.body, b"400 Error".to_vec());
        },
        _ => panic!("expected a finished response"),
    }
}

#[test]
fn template_engine_is_stored() {
    let mut server: Srv = SimpleHttpServer::new();
    server.set_template_engine(TestEngine);
    assert!(server.template_engine.is_some());
}
