//! The server: registration of routes, static mappings, error handlers
//! and middleware, and the per-request pipeline — parse, before-steps,
//! session resolution, routing or static resolution, cookie attachment,
//! after-steps. Handlers, middleware steps and error handlers are
//! capabilities the application supplies; only the file read and the
//! socket I/O stay outside.
use vstd::prelude::*;
use vstd::utf8::encode_utf8;
use crate::numfmt::{dec_chars, u64_to_dec};
use crate::request::{parse_http_request, spec_header_lookup, spec_method, spec_path,
    spec_request_line, tokens_of, Request};
use crate::response::Response;
use crate::router::{first_match, Router};
use crate::session::{cookie_chars, cookie_session_id, set_cookie_value, SessionStore};
use crate::staticfiles::{resolve_spec, StaticFiles};
use crate::table::{StrMap, Table};
use crate::template::TemplateEngine;

verus! {

/// A route handler capability: called with the request and the bound path
/// parameters, it produces the response.
pub trait Handler {
    fn handle(&self, req: &Request, params: &StrMap) -> Response;
}

/// A before-step: may inspect and mutate the in-flight request, and may
/// short-circuit dispatch by producing a response.
pub trait BeforeMiddleware {
    fn before(&self, req: &mut Request) -> Option<Response>;
}

/// An after-step: may inspect the request and mutate the in-flight
/// response, but not replace it.
pub trait AfterMiddleware {
    fn after(&self, req: &Request, resp: &mut Response);
}

/// An error handler capability for one status code.
pub trait ErrorHandler {
    fn handle_error(&self, req: &Request, code: u16) -> Response;
}

/// Whether some handler is registered for `code`.
pub open spec fn spec_has_error_handler<E>(hs: Seq<(u16, E)>, code: u16) -> bool {
    exists|i: int| 0 <= i < hs.len() && hs[i].0 == code
}

/// The default error body text.
pub open spec fn default_error_chars(code: int) -> Seq<char> {
    dec_chars(code) + (" Error")@
}

/// The plain-text response produced when no handler is registered for
/// `code`.
pub open spec fn is_default_error(r: Response, code: int) -> bool {
    &&& r.status_code == code
    &&& r.content_type@ == ("text/plain")@
    &&& r.body@ == encode_utf8(default_error_chars(code))
    &&& r.headers.pairs() == Seq::<(Seq<char>, Seq<char>)>::empty()
}

/// Builds the default plain-text error response.
pub fn default_error(code: u16) -> (r: Response)
    ensures
        is_default_error(r, code as int),
        r.wf(),
{
    let body = u64_to_dec(code as u64).concat(" Error");
    let r = Response::new(code, body.as_str().as_bytes_vec(), "text/plain");
    proof {
        assert(r.headers.pairs() =~= Seq::<(Seq<char>, Seq<char>)>::empty());
    }
    r
}

/// Appends the `Set-Cookie` header re-asserting the session identifier.
/// The header is appended as received: a cookie a handler set itself also
/// stays on the wire.
pub fn attach_session_cookie(resp: Response, sid: &str) -> (r: Response)
    ensures
        r.status_code == resp.status_code,
        r.body@ == resp.body@,
        r.content_type@ == resp.content_type@,
        r.headers.pairs() =~= resp.headers.pairs().push((("Set-Cookie")@,
            cookie_chars(sid@))),
{
    let mut r = resp;
    r.headers.push_pair(String::from_str("Set-Cookie"), set_cookie_value(sid));
    r
}

/// What routing decided: a finished response, or a file to read and serve.
pub enum Routed {
    Done(Response),
    File(String, String),
}

/// What one request needs next: a response ready to finalize and send, or
/// a file read the caller must perform before `handle_file_result`.
pub enum Handled {
    Complete(Response),
    NeedsFile { fs_path: String, mime: String, req: Request, session_id: String },
}

/// The server: registration tables built once, read-only at dispatch. The
/// session store lives with the caller, shared across connections.
pub struct SimpleHttpServer<H, B, A, E, T> {
    pub router: Router<H>,
    pub error_handlers: Vec<(u16, E)>,
    pub statics: StaticFiles,
    pub template_engine: Option<T>,
    pub before_middlewares: Vec<B>,
    pub after_middlewares: Vec<A>,
}

impl<H: Handler, B: BeforeMiddleware, A: AfterMiddleware, E: ErrorHandler, T: TemplateEngine>
    SimpleHttpServer<H, B, A, E, T> {
    pub fn new() -> (r: Self)
        ensures
            r.router.routes@.len() == 0,
            r.error_handlers@.len() == 0,
            r.statics.mappings@.len() == 0,
            r.template_engine is None,
            r.before_middlewares@.len() == 0,
            r.after_middlewares@.len() == 0,
    {
        SimpleHttpServer {
            router: Router::new(),
            error_handlers: Vec::new(),
            statics: StaticFiles::new(),
            template_engine: None,
            before_middlewares: Vec::new(),
            after_middlewares: Vec::new(),
        }
    }

    /// Registers a route; the method is stored upper-cased.
    pub fn route(&mut self, method: &str, path: &str, handler: H)
        ensures
            final(self).router.routes@.len() == old(self).router.routes@.len() + 1,
            final(self).router.routes@.last().method@
                == crate::chars::upper_seq(method@),
            final(self).router.routes@.last().pattern@ == path@,
            final(self).router.routes@.last().handler == handler,
            forall|i: int| 0 <= i < old(self).router.routes@.len()
                ==> final(self).router.routes@[i] == old(self).router.routes@[i],
            final(self).error_handlers == old(self).error_handlers,
            final(self).statics == old(self).statics,
            final(self).before_middlewares == old(self).before_middlewares,
            final(self).after_middlewares == old(self).after_middlewares,
    {
        self.router.add_route(method, path, handler);
    }

    /// Serves the whole path space from one directory: a mapping with the
    /// empty prefix.
    pub fn static_dir(&mut self, dir: &str)
        ensures
            final(self).statics.mappings@.len() == old(self).statics.mappings@.len() + 1,
            final(self).statics.mappings@.last().prefix@ == Seq::<char>::empty(),
            final(self).statics.mappings@.last().dir@ == dir@,
            forall|i: int| 0 <= i < old(self).statics.mappings@.len()
                ==> final(self).statics.mappings@[i] == old(self).statics.mappings@[i],
            final(self).router == old(self).router,
    {
        proof {
            reveal_strlit("");
            assert(("")@ =~= Seq::<char>::empty());
        }
        self.statics.register("", dir);
    }

    /// Registers a mapping from a URL prefix to a directory.
    pub fn register_static(&mut self, prefix: &str, dir: &str)
        ensures
            final(self).statics.mappings@.len() == old(self).statics.mappings@.len() + 1,
            final(self).statics.mappings@.last().prefix@ == prefix@,
            final(self).statics.mappings@.last().dir@ == dir@,
            forall|i: int| 0 <= i < old(self).statics.mappings@.len()
                ==> final(self).statics.mappings@[i] == old(self).statics.mappings@[i],
            final(self).router == old(self).router,
    {
        self.statics.register(prefix, dir);
    }

    /// Registers a handler for one status code; the last registration for
    /// a code wins.
    pub fn error_handler(&mut self, code: u16, handler: E)
        ensures
            final(self).error_handlers@ == old(self).error_handlers@.push((code, handler)),
    {
        self.error_handlers.push((code, handler));
    }

    pub fn set_template_engine(&mut self, engine: T)
        ensures
            final(self).template_engine == Some(engine),
    {
        self.template_engine = Some(engine);
    }

    pub fn add_before_middleware(&mut self, mw: B)
        ensures
            final(self).before_middlewares@ == old(self).before_middlewares@.push(mw),
            final(self).after_middlewares == old(self).after_middlewares,
    {
        self.before_middlewares.push(mw);
    }

    pub fn add_after_middleware(&mut self, mw: A)
        ensures
            final(self).after_middlewares@ == old(self).after_middlewares@.push(mw),
            final(self).before_middlewares == old(self).before_middlewares,
    {
        self.after_middlewares.push(mw);
    }

    /// The response for an error code: the registered handler's if one
    /// exists (the last registered for that code), else the default
    /// plain-text body.
    pub fn error_response(&self, code: u16, req: &Request) -> (r: Response)
        ensures
            !spec_has_error_handler(self.error_handlers@, code)
                ==> is_default_error(r, code as int) && r.wf(),
    {
        let n = self.error_handlers.len();
        let mut i: usize = n;
        while i > 0
            invariant
                0 <= i <= n,
                n == self.error_handlers@.len(),
                forall|j: int| i <= j < n ==> self.error_handlers@[j].0 != code,
            decreases i,
        {
            i -= 1;
            if self.error_handlers[i].0 == code {
                return self.error_handlers[i].1.handle_error(req, code);
            }
        }
        proof {
            assert(!spec_has_error_handler(self.error_handlers@, code));
        }
        default_error(code)
    }

    /// Runs the before-steps in order; the first response returned
    /// short-circuits the rest.
    pub fn run_before(&self, req: &mut Request) -> (r: Option<Response>)
        ensures
            self.before_middlewares@.len() == 0 ==> r is None && *final(req) == *old(req),
    {
        let n = self.before_middlewares.len();
        if n == 0 {
            return None;
        }
        let mut i: usize = 0;
        while i < n
            invariant
                0 <= i <= n,
                n == self.before_middlewares@.len(),
            decreases n - i,
        {
            if let Some(resp) = self.before_middlewares[i].before(req) {
                return Some(resp);
            }
            i += 1;
        }
        None
    }

    /// Runs the after-steps in order; they are never skipped.
    pub fn run_after(&self, req: &Request, resp: &mut Response)
        ensures
            self.after_middlewares@.len() == 0 ==> *final(resp) == *old(resp),
    {
        let n = self.after_middlewares.len();
        if n == 0 {
            return;
        }
        let mut i: usize = 0;
        while i < n
            invariant
                0 <= i <= n,
                n == self.after_middlewares@.len(),
            decreases n - i,
        {
            self.after_middlewares[i].after(req, resp);
            i += 1;
        }
    }

    /// Routes the request: the first matching route's handler runs; with
    /// no match, static resolution names a file to read; with neither,
    /// the `404` path produces the response.
    pub fn route_or_static(&self, req: &Request) -> (r: Routed)
        ensures
            ({
                let fm = first_match(self.router.routes@, req.method@, req.path@);
                &&& fm is Some ==> r is Done
                &&& fm is None ==> match resolve_spec(self.statics.mappings@, req.path@) {
                    Some(t) => match r {
                        Routed::File(fs, mime) => fs@ == t.0 && mime@ == t.1,
                        _ => false,
                    },
                    None => r is Done
                        && (!spec_has_error_handler(self.error_handlers@, 404)
                            ==> match r {
                                Routed::Done(resp) => is_default_error(resp, 404),
                                _ => false,
                            }),
                }
            }),
    {
        match self.router.find(req.method.as_str(), req.path.as_str()) {
            Some((h, params)) => Routed::Done(h.handle(req, &params)),
            None => match self.statics.resolve_target(req.path.as_str()) {
                Some((fs, mime)) => Routed::File(fs, mime),
                None => Routed::Done(self.error_response(404, req)),
            },
        }
    }

    /// Turns the outcome of the file read into a response: the bytes with
    /// their MIME type, or the `404` path.
    pub fn static_fallback(&self, req: &Request, mime: &str, file: Option<Vec<u8>>)
        -> (r: Response)
        ensures
            match file {
                Some(bytes) => r.wf() && r.status_code == 200 && r.body@ == bytes@
                    && r.content_type@ == mime@
                    && r.headers.pairs() == Seq::<(Seq<char>, Seq<char>)>::empty(),
                None => !spec_has_error_handler(self.error_handlers@, 404)
                    ==> is_default_error(r, 404),
            },
    {
        match file {
            Some(bytes) => {
                let r = Response::new(200, bytes, mime);
                proof {
                    assert(r.headers.pairs() =~= Seq::<(Seq<char>, Seq<char>)>::empty());
                }
                r
            },
            None => self.error_response(404, req),
        }
    }

    /// Attaches the session cookie and runs the after-steps.
    pub fn finalize(&self, req: &Request, resp: Response, sid: &str) -> (r: Response)
        ensures
            self.after_middlewares@.len() == 0 ==> {
                &&& r.status_code == resp.status_code
                &&& r.body@ == resp.body@
                &&& r.content_type@ == resp.content_type@
                &&& r.headers.pairs() =~= resp.headers.pairs().push((("Set-Cookie")@,
                    cookie_chars(sid@)))
            },
    {
        let mut r = attach_session_cookie(resp, sid);
        self.run_after(req, &mut r);
        r
    }

    /// Serves one static file outcome to completion: fallback, cookie,
    /// after-steps.
    pub fn handle_file_result(&self, req: &Request, sid: &str, mime: &str,
        file: Option<Vec<u8>>) -> (r: Response)
        ensures
            self.after_middlewares@.len() == 0 ==> match file {
                Some(bytes) => r.status_code == 200 && r.body@ == bytes@
                    && r.content_type@ == mime@
                    && r.headers.pairs() =~= seq![(("Set-Cookie")@, cookie_chars(sid@))],
                None => !spec_has_error_handler(self.error_handlers@, 404) ==> {
                    &&& r.status_code == 404
                    &&& r.content_type@ == ("text/plain")@
                    &&& r.body@ == encode_utf8(default_error_chars(404))
                    &&& r.headers.pairs() =~= seq![(("Set-Cookie")@, cookie_chars(sid@))]
                },
            },
    {
        let resp = self.static_fallback(req, mime, file);
        let r = self.finalize(req, resp, sid);
        proof {
            if self.after_middlewares@.len() == 0 {
                assert(Seq::<(Seq<char>, Seq<char>)>::empty().push((("Set-Cookie")@,
                    cookie_chars(sid@))) =~= seq![(("Set-Cookie")@, cookie_chars(sid@))]);
            }
        }
        r
    }

    /// One request, end to end, up to the point where only a file read or
    /// the wire write remains: parse, before-steps, session resolution,
    /// routing, cookie, after-steps. A parse failure synthesizes the
    /// error response directly, bypassing routing; the after-steps still
    /// run, over a blank stand-in request.
    pub fn handle_request(&self, store: &mut SessionStore, head: &str, body: Vec<u8>,
        now_nanos: u64) -> (r: Handled)
        requires
            old(store).wf(),
        ensures
            final(store).wf(),
            ({
                let malformed = tokens_of(spec_request_line(head@)).len() < 2;
                &&& malformed ==> {
                    &&& *final(store) == *old(store)
                    &&& r is Complete
                    &&& self.after_middlewares@.len() == 0 ==> match r {
                        Handled::Complete(resp) => is_default_error(resp, 400),
                        _ => false,
                    }
                }
                &&& !malformed && self.before_middlewares@.len() == 0 ==> ({
                    let claimed = match spec_header_lookup(head@, ("cookie")@) {
                        None => None,
                        Some(h) => cookie_session_id(h),
                    };
                    let sid = match claimed {
                        Some(id) => id,
                        None => crate::numfmt::hex_chars(now_nanos as int)
                            + crate::numfmt::hex_chars(old(store).counter as int),
                    };
                    &&& final(store).sessions.spec_lookup(sid) is Some
                    &&& old(store).sessions.contains_key(sid)
                        ==> final(store).sessions == old(store).sessions
                    &&& !old(store).sessions.contains_key(sid)
                        ==> final(store).sessions.pairs()
                            =~= old(store).sessions.pairs().push((sid,
                                Seq::<(Seq<char>, Seq<char>)>::empty()))
                    &&& forall|k2: Seq<char>| k2 != sid
                        ==> final(store).sessions.spec_lookup(k2)
                            == old(store).sessions.spec_lookup(k2)
                    &&& ({
                        let fm = first_match(self.router.routes@, spec_method(head@),
                            spec_path(head@));
                        &&& fm is Some ==> r is Complete
                            && (self.after_middlewares@.len() == 0 ==> match r {
                                Handled::Complete(resp) => resp.headers.pairs().len() >= 1
                                    && resp.headers.pairs().last() == (("Set-Cookie")@,
                                        cookie_chars(sid)),
                                _ => false,
                            })
                        &&& fm is None ==> match resolve_spec(self.statics.mappings@,
                            spec_path(head@)) {
                            Some(t) => match r {
                                Handled::NeedsFile { fs_path, mime, req, session_id } => {
                                    &&& fs_path@ == t.0
                                    &&& mime@ == t.1
                                    &&& session_id@ == sid
                                    &&& req.wf()
                                    &&& req.path@ == spec_path(head@)
                                    &&& req.method@ == spec_method(head@)
                                },
                                _ => false,
                            },
                            None => r is Complete
                                && (self.after_middlewares@.len() == 0
                                    && !spec_has_error_handler(self.error_handlers@, 404)
                                    ==> match r {
                                    Handled::Complete(resp) => {
                                        &&& resp.status_code == 404
                                        &&& resp.content_type@ == ("text/plain")@
                                        &&& resp.body@
                                            == encode_utf8(default_error_chars(404))
                                        &&& resp.headers.pairs()
                                            =~= seq![(("Set-Cookie")@, cookie_chars(sid))]
                                    },
                                    _ => false,
                                }),
                        }
                    })
                })
            }),
    {
        match parse_http_request(head, body) {
            Err(e) => {
                let mut resp = default_error(e.code());
                let blank = Request {
                    method: String::new(),
                    path: String::new(),
                    raw: String::new(),
                    headers: Table::new(),
                    query: Table::new(),
                    body: Vec::new(),
                };
                self.run_after(&blank, &mut resp);
                Handled::Complete(resp)
            },
            Ok(mut req) => {
                if let Some(resp) = self.run_before(&mut req) {
                    let sid = store.resolve(&req, now_nanos);
                    return Handled::Complete(self.finalize(&req, resp, sid.as_str()));
                }
                let sid = store.resolve(&req, now_nanos);
                match self.route_or_static(&req) {
                    Routed::Done(resp) => {
                        let done = self.finalize(&req, resp, sid.as_str());
                        proof {
                            if self.after_middlewares@.len() == 0 {
                                assert(Seq::<(Seq<char>, Seq<char>)>::empty().push((
                                    ("Set-Cookie")@, cookie_chars(sid@)))
                                    =~= seq![(("Set-Cookie")@, cookie_chars(sid@))]);
                            }
                        }
                        Handled::Complete(done)
                    },
                    Routed::File(fs, mime) => Handled::NeedsFile {
                        fs_path: fs,
                        mime,
                        req,
                        session_id: sid,
                    },
                }
            },
        }
    }
}

} // verus!
