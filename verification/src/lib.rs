//! A minimal HTTP/1.1 static-resource protocol pipeline: request tokenizing
//! and validation, percent-decoding with a traversal guard, content-type
//! classification, resource resolution, and response serialization.
//!
//! The library works on plain bytes: a caller hands it the raw bytes of one
//! request and the outcome of reading the resolved file, and receives the
//! exact bytes of the response to write back.

pub mod bytes;
pub mod config;
pub mod content_type;
pub mod headers;
pub mod laws;
pub mod numbers;
pub mod request;
pub mod resolve;
pub mod response;
pub mod server;
pub mod tokenize;
pub mod uri;
pub mod wire;
