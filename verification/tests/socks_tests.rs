use mproxy::socks4::{accepts as socks4_accepts, bad_reply, good_reply, read_request, Socks4Progress};
use mproxy::socks5::parser::{parse_auth, parse_request, Progress};
use mproxy::socks5::{
    accepts as socks5_accepts, auth_ok_reply, auth_reject_reply, auth_supported,
    reply_addr_bytes, request_ack_reply, PeerAddr, RequestAddr,
};

#[test]
fn socks4_with_id() {
    let wire: Vec<u8> = vec![4, 1, 0, 0x50, 127, 0, 0, 1, b'u', b's', b'r', 0];
    match read_request(&wire) {
        Socks4Progress::Done(req, consumed) => {
            assert_eq!(consumed, 12);
            assert_eq!(req.cmd, 1);
            assert_eq!(req.port, 80);
            assert_eq!(req.ip, [127, 0, 0, 1]);
            assert_eq!(req.id, "usr");
            assert!(socks4_accepts(&req));
        }
        _ => panic!("expected a whole request"),
    }
    assert_eq!(good_reply(), vec![0, 0x5a, 0, 0, 0, 0, 0, 0]);
    assert_eq!(bad_reply(), vec![0, 0x5b, 0, 0, 0, 0, 0, 0]);
}

#[test]
fn socks4_incremental() {
    let wire: Vec<u8> = vec![4, 1, 0, 0x50, 127, 0, 0, 1, b'u'];
    assert!(matches!(read_request(&wire), Socks4Progress::NeedMore));
    let short: Vec<u8> = vec![4, 1, 0];
    assert!(matches!(read_request(&short), Socks4Progress::NeedMore));
}

#[test]
fn socks4_rejects_wrong_version() {
    let wire: Vec<u8> = vec![5, 1, 0, 0x50, 127, 0, 0, 1, 0];
    assert!(matches!(read_request(&wire), Socks4Progress::Invalid));
}

#[test]
fn socks4_rejects_long_id() {
    let mut wire: Vec<u8> = vec![4, 1, 0, 0x50, 127, 0, 0, 1];
    for _ in 0..1000 {
        wire.push(b'x');
    }
    wire.push(0);
    assert!(matches!(read_request(&wire), Socks4Progress::Invalid));
}

#[test]
fn socks4_rejects_other_command() {
    let wire: Vec<u8> = vec![4, 2, 0, 0x50, 127, 0, 0, 1, 0];
    match read_request(&wire) {
        Socks4Progress::Done(req, _) => assert!(!socks4_accepts(&req)),
        _ => panic!("expected a whole request"),
    }
}

#[test]
fn socks5_bad_method() {
    let wire: Vec<u8> = vec![5, 1, 2];
    match parse_auth(&wire) {
        Progress::Done(auth, consumed) => {
            assert_eq!(consumed, 3);
            assert_eq!(auth.auths, vec![2]);
            assert!(!auth_supported(&auth));
        }
        _ => panic!("expected a whole hello"),
    }
    assert_eq!(auth_reject_reply(), vec![5, 0xff]);
}

#[test]
fn uniparser() {
    let data: Vec<u8> = vec![5u8, 2, 0, 1];
    match parse_auth(&data) {
        Progress::Done(auth_req, _) => assert_eq!(auth_req.auths, [0, 1]),
        _ => panic!("expected a whole hello"),
    }
}

#[test]
fn socks5_auth_flow() {
    let wire: Vec<u8> = vec![5, 2, 0, 1];
    match parse_auth(&wire) {
        Progress::Done(auth, _) => assert!(auth_supported(&auth)),
        _ => panic!("expected a whole hello"),
    }
    assert_eq!(auth_ok_reply(), vec![5, 0]);
    assert_eq!(request_ack_reply(), vec![5, 0, 0]);
}

#[test]
fn socks5_auth_incremental() {
    let wire: Vec<u8> = vec![5, 2, 0];
    assert!(matches!(parse_auth(&wire), Progress::NeedMore));
    let bad: Vec<u8> = vec![4];
    assert!(matches!(parse_auth(&bad), Progress::Failed));
}

#[test]
fn socks5_request_v4() {
    let wire: Vec<u8> = vec![5, 1, 0, 1, 10, 0, 0, 2, 0x1f, 0x90];
    match parse_request(&wire) {
        Progress::Done(req, consumed) => {
            assert_eq!(consumed, 10);
            assert_eq!(req.cmd, 1);
            assert_eq!(req.port, 8080);
            assert!(socks5_accepts(&req));
            match req.addr {
                RequestAddr::Ip4(ip) => assert_eq!(ip, [10, 0, 0, 2]),
                _ => panic!("expected an IPv4 address"),
            }
        }
        _ => panic!("expected a whole request"),
    }
}

#[test]
fn socks5_request_domain() {
    let wire: Vec<u8> = vec![5, 1, 0, 3, 5, b'h', b'o', b's', b't', b'x', 0, 80];
    match parse_request(&wire) {
        Progress::Done(req, consumed) => {
            assert_eq!(consumed, 12);
            assert_eq!(req.port, 80);
            match req.addr {
                RequestAddr::Domain(d) => assert_eq!(d, "hostx"),
                _ => panic!("expected a domain"),
            }
        }
        _ => panic!("expected a whole request"),
    }
}

#[test]
fn socks5_request_v6() {
    let mut wire: Vec<u8> = vec![5, 1, 0, 4];
    for i in 0..16 {
        wire.push(i as u8);
    }
    wire.push(1);
    wire.push(0xbb);
    match parse_request(&wire) {
        Progress::Done(req, consumed) => {
            assert_eq!(consumed, 22);
            assert_eq!(req.port, 443);
            match req.addr {
                RequestAddr::Ip6(gs) => {
                    assert_eq!(gs[0], 0x0001);
                    assert_eq!(gs[7], 0x0e0f);
                }
                _ => panic!("expected an IPv6 address"),
            }
        }
        _ => panic!("expected a whole request"),
    }
}

#[test]
fn socks5_request_incremental_and_invalid() {
    let partial: Vec<u8> = vec![5, 1, 0, 3, 5, b'h'];
    assert!(matches!(parse_request(&partial), Progress::NeedMore));
    let bad_atyp: Vec<u8> = vec![5, 1, 0, 9];
    assert!(matches!(parse_request(&bad_atyp), Progress::Failed));
    let bad_rsv: Vec<u8> = vec![5, 1, 1, 1];
    assert!(matches!(parse_request(&bad_rsv), Progress::Failed));
}

#[test]
fn socks5_reply_addresses() {
    let v4 = PeerAddr::V4 { ip: [1, 2, 3, 4], port: 0x1234 };
    assert_eq!(reply_addr_bytes(&v4), vec![1, 1, 2, 3, 4, 0x12, 0x34]);
    let v6 = PeerAddr::V6 { ip: [0; 16], port: 443 };
    let b = reply_addr_bytes(&v6);
    assert_eq!(b[0], 4);
    assert_eq!(b.len(), 19);
    assert_eq!(b[17], 1);
    assert_eq!(b[18], 187);
}
