//! FastCGI responder core: the record codec, the assembly of multiplexed
//! requests, and the chunked response writer, all as plain values in and
//! plain values out so that any transport can drive them.

pub mod endian;
pub mod error;
pub mod fastcgi;
pub mod headers;
pub mod param;
pub mod request;
pub mod response;
pub mod stream;
pub mod text;

pub use crate::error::Error;
pub use crate::request::Request;
pub use crate::response::Response;
pub use crate::stream::{Handler, HttpPair, StreamSyntax};
