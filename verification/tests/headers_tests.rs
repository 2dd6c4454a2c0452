use mproxy::http::headers::{Headers, KeepAlive};
use mproxy::http::parser::headers as parse_headers;

fn sample() -> Headers {
    let mut h = Headers::new();
    h.insert_header("Host", "example.net");
    h.insert_header("Transfer-Encoding", "gzip, chunked");
    h.insert_header("Connection", "Keep-Alive");
    h.insert_header("Keep-Alive", "timeout=5, max=100");
    h
}

#[test]
fn headers_serialize_exact() {
    let mut h = Headers::new();
    h.insert_header("A", "1");
    h.insert_header("B", "2");
    assert_eq!(h.to_string(), "A: 1\r\nB: 2\r\n");
}

#[test]
fn combined_value_joins_in_order() {
    let mut h = Headers::new();
    h.insert_header("X", "a");
    h.insert_header("Y", "m");
    h.insert_header("X", "b");
    assert_eq!(h.combined_value("X").unwrap(), "a, b");
    assert_eq!(h.combined_value("Y").unwrap(), "m");
    assert!(h.combined_value("Z").is_none());
}

#[test]
fn is_chuncked_finds_token() {
    assert!(sample().is_chuncked());
    let mut h = Headers::new();
    h.insert_header("Transfer-Encoding", "gzip");
    assert!(!h.is_chuncked());
    let mut h2 = Headers::new();
    h2.insert_header("Transfer-Encoding", "notchunked");
    assert!(!h2.is_chuncked());
    assert!(!Headers::new().is_chuncked());
}

#[test]
fn content_length_parses() {
    let mut h = Headers::new();
    h.insert_header("Content-Length", "1234");
    assert_eq!(h.content_length(), Some(1234));
    let mut h2 = Headers::new();
    h2.insert_header("Content-Length", "12x");
    assert_eq!(h2.content_length(), None);
    assert_eq!(Headers::new().content_length(), None);
}

#[test]
fn keep_alive_case_insensitive() {
    assert!(sample().is_keep_alive());
    let mut h = Headers::new();
    h.insert_header("Connection", "close");
    assert!(!h.is_keep_alive());
    assert!(!Headers::new().is_keep_alive());
}

#[test]
fn keep_alive_params_parse() {
    let ka = sample().keep_alive_value().unwrap();
    assert_eq!(ka, KeepAlive { timeout: 5, max: 100 });
    let mut h = Headers::new();
    h.insert_header("Keep-Alive", "timeout=5");
    assert!(h.keep_alive_value().is_none());
    assert!(Headers::new().keep_alive_value().is_none());
}

#[test]
fn headers_round_trip_exec() {
    let h = sample();
    let wire = h.to_string();
    let (rest, parsed) = parse_headers(wire.as_str());
    assert_eq!(rest, "");
    assert_eq!(parsed.to_string(), wire);
    assert_eq!(
        parsed.combined_value("Keep-Alive").unwrap(),
        "timeout=5, max=100"
    );
}
