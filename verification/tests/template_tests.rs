use rake::table::{StrMap, Table};
use rake::template::SimpleTemplateEngine;

fn context(pairs: &[(&str, &str)]) -> StrMap {
    let mut ctx: StrMap = Table::new();
    for (k, v) in pairs {
        ctx.insert(String::from(*k), String::from(*v));
    }
    ctx
}

#[test]
fn render_both_placeholder_forms() {
    let engine = SimpleTemplateEngine::new();
    let out = engine.render_str("Hello {{ name }} and {{name}}!", &context(&[("name",
        "Ada")]));
    assert_eq!(out.as_str(), "Hello Ada and Ada!");
}

#[test]
fn unresolved_keys_stay_verbatim() {
    let engine = SimpleTemplateEngine::new();
    let out = engine.render_str("Hi {{ missing }}", &context(&[("name", "Ada")]));
    assert_eq!(out.as_str(), "Hi {{ missing }}");
}

#[test]
fn multiple_keys_applied_in_order() {
    let engine = SimpleTemplateEngine::new();
    let out = engine.render_str(
        "<p>{{ a }}-{{b}}</p>",
        &context(&[("a", "one"), ("b", "two")]),
    );
    assert_eq!(out.as_str(), "<p>one-two</p>");
}

#[test]
fn repeated_occurrences_all_replaced() {
    let engine = SimpleTemplateEngine::new();
    let out = engine.render_str("{{x}} {{x}} {{ x }}", &context(&[("x", "y")]));
    assert_eq!(out.as_str(), "y y y");
}

#[test]
fn template_handler_renders_html() {
    let req = rake::request::parse_http_request("GET /t HTTP/1.1\r\n", Vec::new())
        .expect("well-formed");
    let params = context(&[("name", "Ada")]);
    let resp = rake::handlers::template_string_hello_handler(&req, &params);
    assert_eq!(resp.status_code, 200);
    assert_eq!(resp.content_type.as_str(), "text/html");
    assert_eq!(resp.body, b"<html><body>Hello, Ada!</body></html>".to_vec());
}

#[test]
fn echo_handler_returns_body() {
    let req = rake::request::parse_http_request("POST /echo HTTP/1.1\r\n",
        b"payload".to_vec()).expect("well-formed");
    let params: StrMap = Table::new();
    let resp = rake::handlers::echo_handler(&req, &params);
    assert_eq!(resp.body, b"payload".to_vec());
}
