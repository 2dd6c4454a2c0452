//! The listener configuration: a mapping from listener label to kind,
//! port and, for plain port-forwarding, a target address. Reading the
//! configuration file is the caller's concern; these are the plain
//! values the rest of the library works with.
use vstd::prelude::*;
use std::collections::HashMap;

verus! {

/// One HTTP forward-proxy listener.
#[derive(Debug, Clone)]
pub struct HttpConfig {
    /// The TCP port to listen on.
    pub port: u16,
}

/// One SOCKS4 listener.
#[derive(Debug, Clone)]
pub struct Socks4Config {
    /// The TCP port to listen on.
    pub port: u16,
}

/// One SOCKS5 listener.
#[derive(Debug, Clone)]
pub struct Socks5Config {
    /// The TCP port to listen on.
    pub port: u16,
}

/// One plain port-forwarding listener.
#[derive(Debug, Clone)]
pub struct TcpPmConfig {
    /// The TCP port to listen on.
    pub port: u16,
    /// The fixed upstream `host:port` to forward to.
    pub target: String,
}

/// The whole configuration: every listener of every kind, by label.
#[derive(Debug, Clone)]
pub struct Config {
    /// The HTTP forward-proxy listeners.
    pub http: HashMap<String, HttpConfig>,
    /// The SOCKS4 listeners.
    pub socks4: HashMap<String, Socks4Config>,
    /// The SOCKS5 listeners.
    pub socks5: HashMap<String, Socks5Config>,
    /// The plain port-forwarding listeners.
    pub tcppm: HashMap<String, TcpPmConfig>,
}

impl Config {
    /// An empty configuration, with no listeners of any kind.
    pub fn empty() -> Config {
        Config {
            http: HashMap::new(),
            socks4: HashMap::new(),
            socks5: HashMap::new(),
            tcppm: HashMap::new(),
        }
    }
}

} // verus!
