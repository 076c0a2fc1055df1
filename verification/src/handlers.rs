//! Ready-made handlers: a greeting bound to a path parameter, an echo of
//! the request body, and a greeting rendered through the template engine.
//! Applications register them like any handler of their own.
use vstd::prelude::*;
use vstd::utf8::encode_utf8;
use crate::request::Request;
use crate::response::Response;
use crate::table::{StrMap, Table};
use crate::template::{rendered, SimpleTemplateEngine};

verus! {

/// The greeting's name: the `name` parameter, or `world`.
pub open spec fn greeting_name(params: StrMap) -> Seq<char> {
    match params.spec_lookup(("name")@) {
        Some(n) => n,
        None => ("world")@,
    }
}

/// Greets the `name` path parameter in plain text.
pub fn hello_handler(_req: &Request, params: &StrMap) -> (r: Response)
    ensures
        r.wf(),
        r.status_code == 200,
        r.content_type@ == ("text/plain")@,
        r.body@ == encode_utf8(("Hello, ")@ + greeting_name(*params) + ("!")@),
{
    let mut body = String::from_str("Hello, ");
    match params.get("name") {
        Some(v) => {
            body.append(v.as_str());
        },
        None => {
            body.append("world");
        },
    }
    body.append("!");
    Response::new(200, body.as_str().as_bytes_vec(), "text/plain")
}

/// Echoes the request body back in plain text.
pub fn echo_handler(req: &Request, _params: &StrMap) -> (r: Response)
    ensures
        r.wf(),
        r.status_code == 200,
        r.content_type@ == ("text/plain")@,
        r.body@ == req.body@,
{
    let mut body: Vec<u8> = Vec::new();
    body.extend_from_slice(req.body.as_slice());
    Response::new(200, body, "text/plain")
}

/// Greets through the template engine, from a template string.
pub fn template_string_hello_handler(_req: &Request, params: &StrMap) -> (r: Response)
    ensures
        r.wf(),
        r.status_code == 200,
        r.content_type@ == ("text/html")@,
        r.body@ == encode_utf8(rendered(("<html><body>Hello, {{ name }}!</body></html>")@,
            seq![(("name")@, greeting_name(*params))])),
{
    let engine = SimpleTemplateEngine::new();
    let template = "<html><body>Hello, {{ name }}!</body></html>";
    let name = match params.get("name") {
        Some(v) => v.clone(),
        None => String::from_str("world"),
    };
    let mut context: StrMap = Table::new();
    context.insert(String::from_str("name"), name);
    proof {
        assert(context.pairs() =~= seq![(("name")@, greeting_name(*params))]);
    }
    let out = engine.render_str(template, &context);
    Response::new(200, out.as_str().as_bytes_vec(), "text/html")
}

} // verus!
