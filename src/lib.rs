//! A small HTTP/1.1 origin server library: request parsing, response
//! serialisation, an HTTP-date codec, path routing, per-client rate limiting,
//! blog metadata records and a lightweight HTML tag parser.

pub mod text;
pub mod date;
pub mod http_types;
pub mod request;
pub mod router;
pub mod apis;
pub mod blog;
pub mod handlers;
pub mod scanner;
pub mod tag;
pub mod parser;
