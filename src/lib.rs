//! A minimal HTTP/1.1 server core: request parsing, routing and response encoding.
use vstd::prelude::*;

pub mod accept_encoding;
pub mod config;
pub mod content_type;
pub mod encoding;
pub mod handlers;
pub mod header;
pub mod method;
pub mod request;
pub mod response;
pub mod route_pattern;
pub mod server;
pub mod status_code;
pub mod string_map;
pub mod text;
