//! The HTTP/1.1 forward-proxy core: header reading, parsing, the header
//! model and its policies, body framing, the upstream connection pool,
//! and the per-connection engine decisions.
pub mod body;
pub mod connection_pool;
pub mod engine;
pub mod errors;
pub mod header_value_parser;
pub mod headers;
pub mod laws;
pub mod parser;
pub mod reader;
pub mod text;
pub mod request;
pub mod response;
