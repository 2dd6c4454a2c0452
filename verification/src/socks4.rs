//! The SOCKS4 engine: request decoding over the bytes received so
//! far, validation, and the protocol replies. The caller performs the
//! reads, the dial and the relay.
pub mod parser;

use vstd::prelude::*;
use crate::config_loader::Socks4Config;
use crate::util::{bytes_to_string_lossy, lossy_utf8};

verus! {

/// Everything that can go wrong while serving one SOCKS4 client.
#[derive(Debug, Clone)]
pub enum Socks4Error {
    /// A protocol write failed during the handshake.
    Handshake,
    /// The request header or the id did not decode.
    HeaderInvalid,
    /// The destination could not be dialed.
    TargetUnreachable,
    /// The relay failed.
    Transceiver,
}

/// The id may take at most this many bytes, terminator included.
pub const MAX_ID_LENGTH: usize = 1000;

/// A decoded SOCKS4 request.
#[derive(Debug)]
pub struct Request {
    /// The command; only 1 (CONNECT) is served.
    pub cmd: u8,
    /// The destination port.
    pub port: u16,
    /// The destination IPv4 address.
    pub ip: [u8; 4],
    /// The user id, decoded leniently from its bytes.
    pub id: String,
}

/// How far the bytes received so far take the request decoder.
#[derive(Debug)]
pub enum Socks4Progress {
    /// The bytes so far are a prefix of a well-formed request.
    NeedMore,
    /// A whole request, and how many bytes it took.
    Done(Request, usize),
    /// The bytes can never become a well-formed request.
    Invalid,
}

/// True iff `j` is the first NUL at or after `i`.
pub open spec fn nul_at(b: Seq<u8>, i: int, j: int) -> bool {
    i <= j < b.len() && b[j] == 0 && (forall|k: int| i <= k < j ==> #[trigger] b[k] != 0)
}

/// True iff a NUL stands at or after `i`.
pub open spec fn has_nul(b: Seq<u8>, i: int) -> bool {
    exists|j: int| nul_at(b, i, j)
}

/// The position of the first NUL at or after `i`.
pub open spec fn nul_pos(b: Seq<u8>, i: int) -> int {
    choose|j: int| nul_at(b, i, j)
}

/// The first NUL is unique, so `nul_pos` returns it.
pub proof fn lemma_nul_unique(b: Seq<u8>, i: int, k: int)
    requires
        nul_at(b, i, k),
    ensures
        has_nul(b, i),
        nul_pos(b, i) == k,
{
    let j = nul_pos(b, i);
    assert(nul_at(b, i, j));
    if j < k {
        assert(b[j] != 0);
    }
    if j > k {
        assert(b[k] != 0);
    }
}

/// Decodes a SOCKS4 request from the bytes received so far: the
/// eight-byte header, then the id bytes up to a NUL. The id, its
/// terminator included, may take at most 1000 bytes; a longer one,
/// or a header that does not start with version 4, is invalid.
pub fn read_request(buf: &Vec<u8>) -> (r: Socks4Progress)
    ensures
        match r {
            Socks4Progress::Done(req, consumed) => {
                &&& buf@.len() >= 8
                &&& buf@[0] == 4
                &&& has_nul(buf@, 8)
                &&& consumed == nul_pos(buf@, 8) + 1
                &&& consumed <= buf@.len()
                &&& consumed - 9 < MAX_ID_LENGTH
                &&& req.cmd == buf@[1]
                &&& req.port == buf@[2] as u16 * 256 + buf@[3] as u16
                &&& req.ip@ =~= seq![buf@[4], buf@[5], buf@[6], buf@[7]]
                &&& req.id@ == lossy_utf8(buf@.subrange(8, consumed - 1))
            },
            Socks4Progress::NeedMore => buf@.len() < 8 || (buf@[0] == 4 && !has_nul(buf@, 8)
                && buf@.len() - 8 < MAX_ID_LENGTH),
            Socks4Progress::Invalid => buf@.len() >= 8 && (buf@[0] != 4 || (has_nul(buf@, 8)
                && nul_pos(buf@, 8) - 8 >= MAX_ID_LENGTH) || (!has_nul(buf@, 8) && buf@.len() - 8
                >= MAX_ID_LENGTH)),
        },
{
    let len = buf.len();
    if len < 8 {
        return Socks4Progress::NeedMore;
    }
    if buf[0] != 4 {
        return Socks4Progress::Invalid;
    }
    let mut n: usize = 8;
    while n < len && buf[n] != 0
        invariant
            8 <= n <= len,
            len == buf@.len(),
            forall|k: int| 8 <= k < n ==> buf@[k] != 0,
        decreases len - n,
    {
        n = n + 1;
    }
    if n == len {
        proof {
            if has_nul(buf@, 8) {
                let w = nul_pos(buf@, 8);
                assert(nul_at(buf@, 8, w));
            }
        }
        if len - 8 >= MAX_ID_LENGTH {
            return Socks4Progress::Invalid;
        }
        return Socks4Progress::NeedMore;
    }
    proof {
        lemma_nul_unique(buf@, 8, n as int);
    }
    if n - 8 >= MAX_ID_LENGTH {
        return Socks4Progress::Invalid;
    }
    let mut id_bytes: Vec<u8> = Vec::new();
    crate::util::push_range(&mut id_bytes, buf, 8, n);
    let id = bytes_to_string_lossy(&id_bytes);
    let req = Request {
        cmd: buf[1],
        port: buf[2] as u16 * 256 + buf[3] as u16,
        ip: [buf[4], buf[5], buf[6], buf[7]],
        id,
    };
    proof {
        assert(id_bytes@ =~= buf@.subrange(8, n as int));
    }
    Socks4Progress::Done(req, n + 1)
}

/// The reply that grants the request.
pub fn good_reply() -> (r: Vec<u8>)
    ensures
        r@ =~= seq![0u8, 0x5au8, 0u8, 0u8, 0u8, 0u8, 0u8, 0u8],
{
    let mut v: Vec<u8> = Vec::new();
    v.push(0);
    v.push(0x5a);
    v.push(0);
    v.push(0);
    v.push(0);
    v.push(0);
    v.push(0);
    v.push(0);
    v
}

/// The reply that refuses the request.
pub fn bad_reply() -> (r: Vec<u8>)
    ensures
        r@ =~= seq![0u8, 0x5bu8, 0u8, 0u8, 0u8, 0u8, 0u8, 0u8],
{
    let mut v: Vec<u8> = Vec::new();
    v.push(0);
    v.push(0x5b);
    v.push(0);
    v.push(0);
    v.push(0);
    v.push(0);
    v.push(0);
    v.push(0);
    v
}

/// True iff the request may be served: only CONNECT is.
pub fn accepts(req: &Request) -> (r: bool)
    ensures
        r == (req.cmd == 1),
{
    req.cmd == 1
}

/// One SOCKS4 listener: its label and its configuration.
pub struct Socks4 {
    /// The listener's label, used only in log lines.
    pub name: String,
    /// The listener's configuration.
    pub config: Socks4Config,
}

impl Socks4 {
    /// Builds a listener from its label and configuration.
    pub fn new(name: &String, config: &Socks4Config) -> (r: Socks4)
        ensures
            r.name@ == name@,
            r.config.port == config.port,
    {
        Socks4 { name: name.clone(), config: Socks4Config { port: config.port } }
    }
}

} // verus!
