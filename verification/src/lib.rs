//! A multi-protocol forwarding proxy library: HTTP/1.1 forward-proxy
//! parsing and framing, SOCKS4/SOCKS5 handshake decoding, an upstream
//! connection pool, and the pure decision logic of the per-connection
//! state machines.
//!
//! All I/O lives outside this crate; every function here computes over
//! plain values (byte buffers, strings, parsed structures) so that its
//! behaviour can be stated and proved.
pub mod config_loader;
pub mod http;
pub mod socks4;
pub mod socks5;
pub mod util;

use vstd::prelude::*;

verus! {

/// Largest accepted size of a full header block, in bytes.
pub const MAX_HEADER_SIZE: usize = 65536;

/// Largest accepted size of one CRLF-terminated line, in bytes,
/// terminator included.
pub const MAX_LINE_SIZE: usize = 1024;

} // verus!
