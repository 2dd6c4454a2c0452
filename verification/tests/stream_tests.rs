use mproxy::http::body::{chunked_copy, limited_copy, parse_chunk_size};
use mproxy::http::errors::HttpError;
use mproxy::http::reader::{read_header, read_header_bytes, read_line, read_line_bytes};
use mproxy::http::connection_pool::ConnectionPool;
use mproxy::util::relay_direction;

#[test]
fn read_header_finds_terminator() {
    let wire = b"GET / HTTP/1.1\r\nHost: h\r\n\r\ntrailing".to_vec();
    let n = read_header_bytes(&wire).unwrap();
    assert_eq!(&wire[..n], b"GET / HTTP/1.1\r\nHost: h\r\n\r\n");
}

#[test]
fn read_header_incomplete_and_too_big() {
    let wire = b"GET / HTTP/1.1\r\n".to_vec();
    assert!(matches!(
        read_header_bytes(&wire),
        Err(HttpError::HeaderIncomplete)
    ));
    let big = vec![b'a'; 65537];
    assert!(matches!(read_header_bytes(&big), Err(HttpError::HeaderToBig)));
}

#[test]
fn read_line_bounds() {
    let wire = b"abc\r\nrest".to_vec();
    let n = read_line_bytes(&wire, 0).unwrap();
    assert_eq!(n, 5);
    let long = vec![b'x'; 1025];
    assert!(matches!(
        read_line_bytes(&long, 0),
        Err(HttpError::LineTooLong)
    ));
    let short = b"abc".to_vec();
    assert!(matches!(read_line_bytes(&short, 0), Err(HttpError::LineRead)));
}

#[test]
fn read_header_decodes_text() {
    let wire = b"GET / HTTP/1.1\r\n\r\nmore".to_vec();
    let (s, n) = read_header(&wire).unwrap();
    assert_eq!(s, "GET / HTTP/1.1\r\n\r\n");
    assert_eq!(n, 18);
    let mut bad = b"a\xff\r\n\r\n".to_vec();
    assert!(matches!(read_header(&bad), Err(HttpError::HeaderNotUtf8)));
    bad.truncate(2);
    assert!(matches!(read_header(&bad), Err(HttpError::HeaderIncomplete)));
}

#[test]
fn read_line_decodes_text() {
    let wire = b"abc\r\nrest".to_vec();
    let (s, n) = read_line(&wire, 0).unwrap();
    assert_eq!(s, "abc");
    assert_eq!(n, 5);
    let bad = b"\xff\r\n".to_vec();
    assert!(matches!(read_line(&bad, 0), Err(HttpError::LineNotUtf8)));
}

#[test]
fn limited_copy_stops_at_limit_and_eof() {
    let src = b"hello world".to_vec();
    let (out, end) = limited_copy(&src, 0, 5);
    assert_eq!(out, b"hello".to_vec());
    assert_eq!(end, 5);
    let (out2, end2) = limited_copy(&src, 6, 100);
    assert_eq!(out2, b"world".to_vec());
    assert_eq!(end2, 11);
}

#[test]
fn chunk_size_parses_hex_and_extension() {
    let line = b"1a2B; ext".to_vec();
    assert_eq!(parse_chunk_size(&line, 0, 4), Some(0x1a2b));
    assert_eq!(parse_chunk_size(&line, 0, line.len()), Some(0x1a2b));
    let bad = b"1a2B ; ext".to_vec();
    assert_eq!(parse_chunk_size(&bad, 0, bad.len()), None);
}

#[test]
fn chunked_post_body_is_reproduced() {
    let wire = b"5\r\nhello\r\n0\r\n\r\n".to_vec();
    let (out, end) = chunked_copy(&wire, 0).unwrap();
    assert_eq!(out, wire);
    assert_eq!(end, wire.len());
}

#[test]
fn chunked_copy_keeps_extensions_and_stops_at_end() {
    let wire = b"3;x=y\r\nabc\r\n0\r\n\r\nNEXT".to_vec();
    let (out, end) = chunked_copy(&wire, 0).unwrap();
    assert_eq!(out, b"3;x=y\r\nabc\r\n0\r\n\r\n".to_vec());
    assert_eq!(end, wire.len() - 4);
}

#[test]
fn chunked_copy_rejects_bad_size_line() {
    let wire = b"zz\r\nabc\r\n".to_vec();
    assert!(matches!(
        chunked_copy(&wire, 0),
        Err(HttpError::ChunkTranciever)
    ));
}

#[test]
fn relay_is_lossless_and_ordered() {
    let mut input: Vec<u8> = Vec::new();
    for i in 0..5000 {
        input.push((i % 251) as u8);
    }
    assert_eq!(relay_direction(&input), input);
    assert_eq!(relay_direction(&Vec::new()), Vec::<u8>::new());
}

#[test]
fn pool_reuses_and_stays_bounded() {
    let mut pool = ConnectionPool::new();
    assert_eq!(pool.checkout("h:80"), None);
    pool.release("h:80", 7);
    assert_eq!(pool.len(), 1);
    assert_eq!(pool.checkout("h:80"), Some(7));
    assert_eq!(pool.checkout("h:80"), None);
    for i in 0..25u64 {
        let key = format!("host{}:80", i);
        pool.release(key.as_str(), i);
        assert!(pool.len() <= 10);
    }
    assert_eq!(pool.len(), 10);
    assert_eq!(pool.checkout("host24:80"), Some(24));
}
