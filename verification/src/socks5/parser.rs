//! Incremental decoding of the SOCKS5 handshake messages.
//!
//! Both decoders work over the bytes received so far: they report
//! that more bytes are needed, that the bytes can never become a
//! well-formed message, or the decoded message and how many bytes it
//! took. The caller grows its buffer and retries.
use vstd::prelude::*;
use crate::socks5::{AuthRequest, ConnectRequest, RequestAddr};
use crate::util::{bytes_to_string_lossy, lossy_utf8};

verus! {

/// How far the bytes received so far take a decoder.
#[derive(Debug)]
pub enum Progress<T> {
    /// The bytes so far are a prefix of a well-formed message.
    NeedMore,
    /// A whole message, and how many bytes it took.
    Done(T, usize),
    /// The bytes can never become a well-formed message.
    Failed,
}

/// Decodes the SOCKS5 authentication hello: version 5, the number of
/// offered methods, and that many method bytes.
pub fn parse_auth(buf: &Vec<u8>) -> (r: Progress<AuthRequest>)
    ensures
        match r {
            Progress::Done(a, consumed) => {
                &&& buf@.len() >= 2
                &&& buf@[0] == 5
                &&& consumed == 2 + buf@[1]
                &&& consumed <= buf@.len()
                &&& a.auths@ == buf@.subrange(2, 2 + buf@[1] as int)
            },
            Progress::NeedMore => buf@.len() == 0 || (buf@[0] == 5 && buf@.len() < 2
                + buf@[1] as int),
            Progress::Failed => buf@.len() >= 1 && buf@[0] != 5,
        },
{
    let len = buf.len();
    if len == 0 {
        return Progress::NeedMore;
    }
    if buf[0] != 5 {
        return Progress::Failed;
    }
    if len < 2 {
        return Progress::NeedMore;
    }
    let n = buf[1] as usize;
    if len < 2 + n {
        return Progress::NeedMore;
    }
    let mut auths: Vec<u8> = Vec::new();
    crate::util::push_range(&mut auths, buf, 2, 2 + n);
    proof {
        assert(auths@ =~= buf@.subrange(2, 2 + buf@[1] as int));
    }
    Progress::Done(AuthRequest { auths }, 2 + n)
}

/// Decodes the SOCKS5 connect request: version 5, the command, a
/// zero reserved byte, the address type, the address, and the
/// big-endian port. Address types 1 (IPv4), 3 (domain) and 4 (IPv6)
/// are understood; any other is refused, as is a non-zero reserved
/// byte or a wrong version.
pub fn parse_request(buf: &Vec<u8>) -> (r: Progress<ConnectRequest>)
    ensures
        match r {
            Progress::Done(c, consumed) => {
                &&& buf@.len() >= 4
                &&& buf@[0] == 5
                &&& buf@[2] == 0
                &&& c.cmd == buf@[1]
                &&& consumed <= buf@.len()
                &&& match c.addr {
                    RequestAddr::Ip4(ip) => {
                        &&& buf@[3] == 1
                        &&& consumed == 10
                        &&& ip@ =~= seq![buf@[4], buf@[5], buf@[6], buf@[7]]
                        &&& c.port == buf@[8] as u16 * 256 + buf@[9] as u16
                    },
                    RequestAddr::Domain(d) => {
                        &&& buf@[3] == 3
                        &&& consumed == 7 + buf@[4]
                        &&& d@ == lossy_utf8(buf@.subrange(5, 5 + buf@[4] as int))
                        &&& c.port == buf@[5 + buf@[4] as int] as u16 * 256 + buf@[6
                            + buf@[4] as int] as u16
                    },
                    RequestAddr::Ip6(gs) => {
                        &&& buf@[3] == 4
                        &&& consumed == 22
                        &&& gs@.len() == 8
                        &&& forall|i: int|
                            0 <= i < 8 ==> #[trigger] gs@[i] == buf@[4 + 2 * i] as u16 * 256
                                + buf@[5 + 2 * i] as u16
                        &&& c.port == buf@[20] as u16 * 256 + buf@[21] as u16
                    },
                }
            },
            Progress::NeedMore => {
                ||| buf@.len() == 0
                ||| (buf@[0] == 5 && buf@.len() == 1)
                ||| (buf@[0] == 5 && buf@.len() == 2)
                ||| (buf@[0] == 5 && buf@[2] == 0 && buf@.len() == 3)
                ||| (buf@[0] == 5 && buf@[2] == 0 && buf@.len() >= 4 && buf@[3] == 1
                    && buf@.len() < 10)
                ||| (buf@[0] == 5 && buf@[2] == 0 && buf@.len() >= 4 && buf@[3] == 3 && (
                    buf@.len() < 5 || buf@.len() < 7 + buf@[4] as int))
                ||| (buf@[0] == 5 && buf@[2] == 0 && buf@.len() >= 4 && buf@[3] == 4
                    && buf@.len() < 22)
            },
            Progress::Failed => {
                ||| (buf@.len() >= 1 && buf@[0] != 5)
                ||| (buf@.len() >= 3 && buf@[0] == 5 && buf@[2] != 0)
                ||| (buf@.len() >= 4 && buf@[0] == 5 && buf@[2] == 0 && buf@[3] != 1 && buf@[3]
                    != 3 && buf@[3] != 4)
            },
        },
{
    let len = buf.len();
    if len == 0 {
        return Progress::NeedMore;
    }
    if buf[0] != 5 {
        return Progress::Failed;
    }
    if len < 3 {
        return Progress::NeedMore;
    }
    if buf[2] != 0 {
        return Progress::Failed;
    }
    if len < 4 {
        return Progress::NeedMore;
    }
    let cmd = buf[1];
    let atyp = buf[3];
    if atyp == 1 {
        if len < 10 {
            return Progress::NeedMore;
        }
        let ip: [u8; 4] = [buf[4], buf[5], buf[6], buf[7]];
        let port: u16 = buf[8] as u16 * 256 + buf[9] as u16;
        return Progress::Done(ConnectRequest { cmd, addr: RequestAddr::Ip4(ip), port }, 10);
    }
    if atyp == 3 {
        if len < 5 {
            return Progress::NeedMore;
        }
        let dlen = buf[4] as usize;
        if len < 7 + dlen {
            return Progress::NeedMore;
        }
        let mut dbytes: Vec<u8> = Vec::new();
        crate::util::push_range(&mut dbytes, buf, 5, 5 + dlen);
        proof {
            assert(dbytes@ =~= buf@.subrange(5, 5 + buf@[4] as int));
        }
        let d = bytes_to_string_lossy(&dbytes);
        let port: u16 = buf[5 + dlen] as u16 * 256 + buf[6 + dlen] as u16;
        return Progress::Done(
            ConnectRequest { cmd, addr: RequestAddr::Domain(d), port },
            7 + dlen,
        );
    }
    if atyp == 4 {
        if len < 22 {
            return Progress::NeedMore;
        }
        let mut gs: [u16; 8] = [0, 0, 0, 0, 0, 0, 0, 0];
        let mut i: usize = 0;
        while i < 8
            invariant
                i <= 8,
                buf@.len() >= 22,
                forall|k: int|
                    0 <= k < i ==> #[trigger] gs@[k] == buf@[4 + 2 * k] as u16 * 256 + buf@[5 + 2
                        * k] as u16,
            decreases 8 - i,
        {
            gs[i] = buf[4 + 2 * i] as u16 * 256 + buf[5 + 2 * i] as u16;
            i = i + 1;
        }
        let port: u16 = buf[20] as u16 * 256 + buf[21] as u16;
        return Progress::Done(ConnectRequest { cmd, addr: RequestAddr::Ip6(gs), port }, 22);
    }
    Progress::Failed
}

} // verus!
