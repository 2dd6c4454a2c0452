//! The SOCKS5 engine: handshake decoding over the bytes received so
//! far, the authentication decision, and the protocol replies. The
//! caller performs the reads, the dial and the relay.
pub mod parser;

use vstd::prelude::*;
use crate::config_loader::Socks5Config;

verus! {

/// Everything that can go wrong while serving one SOCKS5 client.
#[derive(Debug, Clone)]
pub enum Socks5Error {
    /// A protocol read or write failed during the handshake.
    Handshake,
    /// The client offered no authentication method the proxy speaks.
    InvalidAuth,
    /// The connect request did not decode.
    InvalidRequest,
    /// The destination could not be dialed.
    TargetUnreachable,
    /// The relay failed.
    Transceiver,
}

/// The authentication hello: the methods the client offers.
#[derive(Debug)]
pub struct AuthRequest {
    /// The offered method bytes; 0 is the no-authentication method.
    pub auths: Vec<u8>,
}

/// The destination a connect request names.
#[derive(Debug)]
pub enum RequestAddr {
    /// An IPv4 address, four bytes.
    Ip4([u8; 4]),
    /// A domain name, decoded leniently from its bytes.
    Domain(String),
    /// An IPv6 address, eight big-endian 16-bit groups.
    Ip6([u16; 8]),
}

/// A decoded connect request.
#[derive(Debug)]
pub struct ConnectRequest {
    /// The command; only 1 (CONNECT) is served.
    pub cmd: u8,
    /// The destination address.
    pub addr: RequestAddr,
    /// The destination port.
    pub port: u16,
}

/// The upstream peer address a reply reports.
#[derive(Debug)]
pub enum PeerAddr {
    /// An IPv4 peer.
    V4 {
        /// The four address bytes.
        ip: [u8; 4],
        /// The peer port.
        port: u16,
    },
    /// An IPv6 peer.
    V6 {
        /// The sixteen address bytes.
        ip: [u8; 16],
        /// The peer port.
        port: u16,
    },
}

/// True iff the client offers the no-authentication method.
pub fn auth_supported(auth: &AuthRequest) -> (r: bool)
    ensures
        r == auth.auths@.contains(0u8),
{
    let n = auth.auths.len();
    let mut i: usize = 0;
    while i < n
        invariant
            i <= n,
            n == auth.auths@.len(),
            forall|k: int| 0 <= k < i ==> auth.auths@[k] != 0,
        decreases n - i,
    {
        if auth.auths[i] == 0 {
            return true;
        }
        i = i + 1;
    }
    proof {
        if auth.auths@.contains(0u8) {
            let w = choose|k: int| 0 <= k < auth.auths@.len() && auth.auths@[k] == 0u8;
            assert(auth.auths@[w] == 0);
        }
    }
    false
}

/// The reply that refuses every offered authentication method.
pub fn auth_reject_reply() -> (r: Vec<u8>)
    ensures
        r@ =~= seq![5u8, 0xffu8],
{
    let mut v: Vec<u8> = Vec::new();
    v.push(5);
    v.push(0xff);
    v
}

/// The reply that picks the no-authentication method.
pub fn auth_ok_reply() -> (r: Vec<u8>)
    ensures
        r@ =~= seq![5u8, 0u8],
{
    let mut v: Vec<u8> = Vec::new();
    v.push(5);
    v.push(0);
    v
}

/// The fixed first three bytes of the connect reply: version,
/// success, reserved.
pub fn request_ack_reply() -> (r: Vec<u8>)
    ensures
        r@ =~= seq![5u8, 0u8, 0u8],
{
    let mut v: Vec<u8> = Vec::new();
    v.push(5);
    v.push(0);
    v.push(0);
    v
}

/// True iff the request may be served: only CONNECT is.
pub fn accepts(req: &ConnectRequest) -> (r: bool)
    ensures
        r == (req.cmd == 1),
{
    req.cmd == 1
}

/// The address part of the connect reply: the address type of the
/// chosen upstream peer, its address bytes, and its port in
/// big-endian.
pub fn reply_addr_bytes(peer: &PeerAddr) -> (r: Vec<u8>)
    ensures
        match peer {
            PeerAddr::V4 { ip, port } => r@ =~= seq![1u8] + ip@ + seq![
                (port >> 8) as u8,
                (port & 0xff) as u8,
            ],
            PeerAddr::V6 { ip, port } => r@ =~= seq![4u8] + ip@ + seq![
                (port >> 8) as u8,
                (port & 0xff) as u8,
            ],
        },
{
    let mut v: Vec<u8> = Vec::new();
    match peer {
        PeerAddr::V4 { ip, port } => {
            v.push(1);
            let mut i: usize = 0;
            while i < 4
                invariant
                    i <= 4,
                    v@ =~= seq![1u8] + ip@.take(i as int),
                decreases 4 - i,
            {
                v.push(ip[i]);
                proof {
                    assert(ip@.take(i + 1) =~= ip@.take(i as int).push(ip@[i as int]));
                }
                i = i + 1;
            }
            v.push((*port >> 8) as u8);
            v.push((*port & 0xff) as u8);
            proof {
                assert(ip@.take(4) =~= ip@);
            }
        },
        PeerAddr::V6 { ip, port } => {
            v.push(4);
            let mut i: usize = 0;
            while i < 16
                invariant
                    i <= 16,
                    v@ =~= seq![4u8] + ip@.take(i as int),
                decreases 16 - i,
            {
                v.push(ip[i]);
                proof {
                    assert(ip@.take(i + 1) =~= ip@.take(i as int).push(ip@[i as int]));
                }
                i = i + 1;
            }
            v.push((*port >> 8) as u8);
            v.push((*port & 0xff) as u8);
            proof {
                assert(ip@.take(16) =~= ip@);
            }
        },
    }
    v
}

/// One SOCKS5 listener: its label and its configuration.
pub struct Socks5 {
    /// The listener's label, used only in log lines.
    pub name: String,
    /// The listener's configuration.
    pub config: Socks5Config,
}

impl Socks5 {
    /// Builds a listener from its label and configuration.
    pub fn new(name: &String, config: &Socks5Config) -> (r: Socks5)
        ensures
            r.name@ == name@,
            r.config.port == config.port,
    {
        Socks5 { name: name.clone(), config: Socks5Config { port: config.port } }
    }
}

} // verus!
