use mproxy::http::parser::{
    chunk_line, header_line, headers, request, request_first_line, response, response_first_line,
    token, url,
};

#[test]
fn token_basic() {
    let (rest, tok) = token("abc: rest").unwrap();
    assert_eq!(tok, "abc");
    assert_eq!(rest, ": rest");
}

#[test]
fn parser_header_line_basic() {
    let line = "header: value\r\n";
    let (key, value) = header_line(line).unwrap().1;
    assert_eq!(key, "header");
    assert_eq!(value, "value");
}

#[test]
fn header_line_legacy() {
    let line = "header: value0\r\n\tvalue1\r\n value2\r\n";
    let (key, value) = header_line(line).unwrap().1;
    assert_eq!(key, "header");
    assert_eq!(value, "value0\r\n\tvalue1\r\n value2");
}

#[test]
fn headers_basic() {
    let line = "header0: value0\r\n\tvalue1\r\n value2\r\nheader1: value0\r\nheader2: value0\r\nheader1: value1\r\n";
    let h = headers(line).1;
    assert_eq!(
        h.combined_value("header0").unwrap(),
        "value0\r\n\tvalue1\r\n value2".to_string()
    );
    assert_eq!(h.combined_value("header1").unwrap(), "value0, value1");
    assert_eq!(h.combined_value("header2").unwrap(), "value0");
}

#[test]
fn request_first_line_basic() {
    let line = "GET http://example.net:80/ HTTP/1.1\r\n";
    let h = request_first_line(line).unwrap().1;
    assert_eq!(h.0, "GET");
    assert_eq!(h.1, "http://example.net:80/");
    assert_eq!(h.2, "1.1");
}

#[test]
fn request_basic() {
    let line = "GET http://example.net:80/ HTTP/1.1\r\nheader0: value0\r\nheader1: value1\r\n\r\n";
    let (rest, r) = request(line).unwrap();
    assert_eq!(rest, "");
    assert_eq!(r.method, "GET");
    assert_eq!(r.url, "http://example.net:80/");
    assert_eq!(r.http_version, "1.1");
    assert_eq!(r.headers.combined_value("header0").unwrap(), "value0");
}

#[test]
fn response_first_line_basic() {
    let line = "HTTP/1.1 200 OK\r\n";
    let (rest, r) = response_first_line(line).unwrap();
    assert_eq!(rest, "");
    assert_eq!(r.0, "1.1");
    assert_eq!(r.1, "200");
    assert_eq!(r.2, "OK");
}

#[test]
fn responce_basic() {
    let line = "HTTP/1.1 200 OK\r\nheader0: value0\r\nheader1: value1\r\n\r\n";
    let (rest, r) = response(line).unwrap();
    assert_eq!(rest, "");
    assert_eq!(r.http_version, "1.1");
    assert_eq!(r.status, 200);
    assert_eq!(r.status_phrase, "OK");
    assert_eq!(r.headers.combined_value("header0").unwrap(), "value0");
}

#[test]
fn chuncked_line_basic() {
    let line = "aAfA12";
    let (rest, (size, ext)) = chunk_line(line).unwrap();
    assert_eq!(rest, "");
    assert_eq!(size, 0xaafa12);
    assert_eq!(ext, "");
}

#[test]
fn chuncked_line_with_ext() {
    let line = "124a; test";
    let (rest, (size, ext)) = chunk_line(line).unwrap();
    assert_eq!(rest, "");
    assert_eq!(size, 0x124a);
    assert_eq!(ext, "; test");
}

#[test]
#[should_panic]
fn chunk_line_invalid() {
    let line = "1237 ; test";
    chunk_line(line).unwrap();
}

#[test]
fn url_no_port() {
    let line = "http://example.net/";
    let (rest, url) = url(line).unwrap();
    assert_eq!(rest, "");
    assert_eq!(url.protocol, "http");
    assert_eq!(url.host, "example.net");
    assert_eq!(url.port, 80);
    assert_eq!(url.path, "/");
}

#[test]
fn url_with_port() {
    let line = "http://example.net:8080/path";
    let (rest, url) = url(line).unwrap();
    assert_eq!(rest, "");
    assert_eq!(url.protocol, "http");
    assert_eq!(url.host, "example.net");
    assert_eq!(url.port, 8080);
    assert_eq!(url.path, "/path");
}

#[test]
fn url_ipv6() {
    let line = "http://[::]/";
    let (rest, url) = url(line).unwrap();
    assert_eq!(rest, "");
    assert_eq!(url.host, "[::]");
}

#[test]
fn url_rejects_other_scheme_char() {
    assert!(url("ftp\u{7f}").is_none());
    assert!(url("http://host").is_none());
    assert!(url("http://host:99999/").is_none());
}

#[test]
fn response_status_overflow_rejected() {
    let line = "HTTP/1.1 70000 OK\r\n\r\n";
    assert!(response(line).is_none());
}
