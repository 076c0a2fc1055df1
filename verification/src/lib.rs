//! A minimal HTTP/1.1 server core: request parsing, pattern routing with
//! path parameters, a before/after middleware pipeline, session identity,
//! static-file resolution with traversal hardening, and response
//! serialization. Listening, file reads and clocks live outside the library;
//! everything here is plain computation with verified contracts.
pub mod chars;
pub mod handlers;
pub mod numfmt;
pub mod request;
pub mod response;
pub mod router;
pub mod server;
pub mod session;
pub mod staticfiles;
pub mod table;
pub mod template;
pub mod text;
