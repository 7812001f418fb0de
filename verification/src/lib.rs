//! Core of an embeddable HTTP/1.1 server: request-head decoding over a shared
//! receive buffer, header lookup, body framing and the per-connection
//! protocol decisions.

pub mod body;
pub mod buffer;
pub mod conn;
pub mod names;
pub mod request;
pub mod response;
pub mod runs;
pub mod scan;
