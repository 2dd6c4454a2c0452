use mproxy::http::engine::{
    error_page_400, keep_alive_decision, next_timeout, plan_request, plan_response,
    render_error_page, request_framing, response_framing, BodyFraming, RequestAction,
};
use mproxy::http::headers::Headers;
use mproxy::http::parser::{request, response};
use mproxy::http::response::Response;

#[test]
fn connect_tunnel_plan() {
    let (rest, req) = request("CONNECT example.net:443 HTTP/1.1\r\n\r\n").unwrap();
    assert_eq!(rest, "");
    match plan_request(&req).unwrap() {
        RequestAction::Connect { hostport, ok_reply } => {
            assert_eq!(hostport, "example.net:443");
            assert_eq!(ok_reply, "HTTP/1.1 200 OK\r\n\r\n");
        }
        _ => panic!("expected a tunnel"),
    }
}

#[test]
fn forward_plan_rewrites_uri() {
    let (_rest, req) =
        request("GET http://h:8080/p HTTP/1.1\r\nHost: h\r\n\r\n").unwrap();
    match plan_request(&req).unwrap() {
        RequestAction::Forward { key, head, body } => {
            assert_eq!(key, "h:8080");
            assert_eq!(head, "GET /p HTTP/1.1\r\nHost: h\r\n\r\n");
            assert_eq!(body, BodyFraming::NoBody);
        }
        _ => panic!("expected a forward"),
    }
}

#[test]
fn forward_plan_default_port() {
    let (_rest, req) = request("GET http://h/p HTTP/1.1\r\n\r\n").unwrap();
    match plan_request(&req).unwrap() {
        RequestAction::Forward { key, .. } => assert_eq!(key, "h:80"),
        _ => panic!("expected a forward"),
    }
}

#[test]
fn rejects_https_scheme() {
    let (_rest, req) = request("GET https://h/p HTTP/1.1\r\n\r\n").unwrap();
    assert!(matches!(
        plan_request(&req),
        Err(mproxy::http::errors::HttpError::UrlProtocolInvalid)
    ));
}

#[test]
fn rejects_bad_url() {
    let (_rest, req) = request("GET notaurl HTTP/1.1\r\n\r\n").unwrap();
    assert!(matches!(
        plan_request(&req),
        Err(mproxy::http::errors::HttpError::HeaderParseError)
    ));
}

#[test]
fn garbage_request_gets_error_page() {
    assert!(request("GARBAGE").is_none());
    let page = render_error_page(
        Response::new("1.1", 400, "invalid header", Headers::new()),
        error_page_400(),
    );
    assert!(page.starts_with("HTTP/1.1 400 invalid header\r\n"));
    assert!(page.contains("Content-Type: text/html\r\n"));
    assert!(page.ends_with(error_page_400()));
    let bl = format!("Content-Length: {}\r\n", error_page_400().len());
    assert!(page.contains(bl.as_str()));
}

#[test]
fn chunked_post_framing() {
    let (_rest, req) = request(
        "POST http://h/upload HTTP/1.1\r\nTransfer-Encoding: chunked\r\n\r\n",
    )
    .unwrap();
    assert_eq!(request_framing(&req), BodyFraming::Chunked);
}

#[test]
fn post_content_length_wins() {
    let (_rest, req) = request(
        "POST http://h/u HTTP/1.1\r\nContent-Length: 5\r\nTransfer-Encoding: chunked\r\n\r\n",
    )
    .unwrap();
    assert_eq!(request_framing(&req), BodyFraming::Length(5));
}

#[test]
fn get_has_no_request_body() {
    let (_rest, req) =
        request("GET http://h/u HTTP/1.1\r\nContent-Length: 5\r\n\r\n").unwrap();
    assert_eq!(request_framing(&req), BodyFraming::NoBody);
}

#[test]
fn response_framing_dispatch() {
    let (_rest, get) = request("GET http://h/ HTTP/1.1\r\n\r\n").unwrap();
    let (_rest, head) = request("HEAD http://h/ HTTP/1.1\r\n\r\n").unwrap();
    let (_rest, with_len) = response("HTTP/1.1 200 OK\r\nContent-Length: 3\r\n\r\n").unwrap();
    let (_rest, chunked) =
        response("HTTP/1.1 200 OK\r\nTransfer-Encoding: chunked\r\n\r\n").unwrap();
    let (_rest, no_content) = response("HTTP/1.1 204 No Content\r\n\r\n").unwrap();
    let (_rest, not_modified) = response("HTTP/1.1 304 Same\r\n\r\n").unwrap();
    let (_rest, informational) = response("HTTP/1.1 100 Continue\r\n\r\n").unwrap();
    let (_rest, bare) = response("HTTP/1.1 200 OK\r\n\r\n").unwrap();
    assert_eq!(response_framing(&get, &with_len), BodyFraming::Length(3));
    assert_eq!(response_framing(&get, &chunked), BodyFraming::Chunked);
    assert_eq!(response_framing(&get, &bare), BodyFraming::NoBody);
    assert_eq!(response_framing(&head, &with_len), BodyFraming::NoBody);
    assert_eq!(response_framing(&get, &no_content), BodyFraming::NoBody);
    assert_eq!(response_framing(&get, &not_modified), BodyFraming::NoBody);
    assert_eq!(response_framing(&get, &informational), BodyFraming::NoBody);
}

#[test]
fn timeout_follows_keep_alive() {
    let (_rest, r1) =
        response("HTTP/1.1 200 OK\r\nKeep-Alive: timeout=5, max=100\r\n\r\n").unwrap();
    assert_eq!(next_timeout(&r1), 15);
    let (_rest, r2) = response("HTTP/1.1 200 OK\r\n\r\n").unwrap();
    assert_eq!(next_timeout(&r2), 120);
}

#[test]
fn keep_alive_needs_both_sides() {
    let (_rest, ka_req) =
        request("GET http://h/ HTTP/1.1\r\nConnection: keep-alive\r\n\r\n").unwrap();
    let (_rest, plain_req) = request("GET http://h/ HTTP/1.1\r\n\r\n").unwrap();
    let (_rest, ka_resp) =
        response("HTTP/1.1 200 OK\r\nConnection: keep-alive\r\n\r\n").unwrap();
    let (_rest, plain_resp) = response("HTTP/1.1 200 OK\r\n\r\n").unwrap();
    assert!(keep_alive_decision(&ka_req, &ka_resp));
    assert!(!keep_alive_decision(&ka_req, &plain_resp));
    assert!(!keep_alive_decision(&plain_req, &ka_resp));
}

#[test]
fn response_plan_collects_all_decisions() {
    let (_rest, req) =
        request("GET http://h/ HTTP/1.1\r\nConnection: keep-alive\r\n\r\n").unwrap();
    let (_rest, resp) = response(
        "HTTP/1.1 200 OK\r\nConnection: keep-alive\r\nContent-Length: 2\r\nKeep-Alive: timeout=1, max=9\r\n\r\n",
    )
    .unwrap();
    let plan = plan_response(&req, &resp);
    assert_eq!(plan.head, resp.to_string());
    assert_eq!(plan.body, BodyFraming::Length(2));
    assert_eq!(plan.timeout_secs, 11);
    assert!(plan.keep_alive);
}

#[test]
fn sequential_gets_reuse_upstream() {
    // two back-to-back keep-alive cycles share one upstream connection
    let mut pool = mproxy::http::connection_pool::ConnectionPool::new();
    let wire = "GET http://h:80/p HTTP/1.1\r\nConnection: keep-alive\r\n\r\n";
    let mut dials = 0;
    for _ in 0..2 {
        let (_rest, req) = request(wire).unwrap();
        let key = match plan_request(&req).unwrap() {
            RequestAction::Forward { key, .. } => key,
            _ => panic!("expected a forward"),
        };
        assert_eq!(key, "h:80");
        let token = match pool.checkout(key.as_str()) {
            Some(t) => t,
            None => {
                dials += 1;
                41 + dials
            }
        };
        let (_rest, resp) =
            response("HTTP/1.1 200 OK\r\nConnection: keep-alive\r\n\r\n").unwrap();
        let plan = plan_response(&req, &resp);
        assert!(plan.keep_alive);
        pool.release(key.as_str(), token);
    }
    assert_eq!(dials, 1);
}

#[test]
fn request_round_trip_exec() {
    let wire = "POST http://h:81/x HTTP/1.1\r\nHost: h\r\nContent-Length: 0\r\n\r\n";
    let (rest, req) = request(wire).unwrap();
    assert_eq!(rest, "");
    assert_eq!(req.to_string(), wire);
}
