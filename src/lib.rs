//! A gRPC-Web bridge: request classification, a CORS policy, and a streaming
//! frame codec that turns gRPC-Web bodies into native gRPC bodies and back.
//!
//! The logic here works on plain values (header lists as bytes, body chunks as
//! byte vectors); the HTTP plumbing around it is left to the embedding server.

mod b64;
pub mod codec;
pub mod config;
pub mod headers;
pub mod service;

pub use codec::{decode_body, make_trailers_frame, Direction, Encoding, Next, Pulled, WebCall, WebError};
pub use config::{AllowedOrigins, Config, Cors, CorsError};
pub use headers::Headers;
pub use service::{HttpVersion, RequestKind, Route, WebLayer, WebService};

use vstd::prelude::*;

verus! {

pub const GRPC_WEB: &'static str = "application/grpc-web";

pub const GRPC_WEB_PROTO: &'static str = "application/grpc-web+proto";

pub const GRPC_WEB_TEXT: &'static str = "application/grpc-web-text";

pub const GRPC_WEB_TEXT_PROTO: &'static str = "application/grpc-web-text+proto";

pub const CONTENT_TYPE: &'static str = "content-type";

pub const ACCEPT: &'static str = "accept";

} // verus!
