//! The per-connection HTTP engine decisions: dispatching a parsed
//! request, choosing the body framing of requests and responses,
//! updating the read timeout, deciding keep-alive, and rendering the
//! error pages. The caller performs the reads, writes, dials and
//! relays these decisions call for.
use vstd::prelude::*;
use vstd::string::StringSliceAdditionalSpecFns;
use crate::config_loader::HttpConfig;
use crate::http::errors::HttpError;
use crate::http::headers::{
    content_length_spec, is_chunked_spec, is_keep_alive_spec, keep_alive_spec, Headers,
};
use crate::http::parser::{parse_url_spec, url, url_port};
use crate::http::request::{serialize_request_spec, Request};
use crate::http::response::{dec_digits_of, serialize_response_spec, u16_to_string, Response};

verus! {

/// The read timeout while no response asks for another, in seconds.
pub const DEFAULT_TIMEOUT_SECS: u64 = 120;

/// The slack added to a `Keep-Alive` timeout, in seconds.
pub const TIMEOUT_TOLERANCE_SECS: u64 = 10;

/// How a message body is framed on the wire.
#[derive(Debug, PartialEq, Eq, Structural)]
pub enum BodyFraming {
    /// Exactly this many bytes follow the header block.
    Length(u128),
    /// The body is chunked.
    Chunked,
    /// No body follows.
    NoBody,
}

/// The framing of a request body: only `POST` requests carry one,
/// length-delimited when `Content-Length` is present, chunked when
/// `Transfer-Encoding` says so, else none.
pub open spec fn request_framing_spec(
    method: Seq<char>,
    hs: Seq<(Seq<char>, Seq<char>)>,
) -> BodyFraming {
    if method == "POST"@ {
        match content_length_spec(hs) {
            Some(n) => BodyFraming::Length(n as u128),
            None => if is_chunked_spec(hs) {
                BodyFraming::Chunked
            } else {
                BodyFraming::NoBody
            },
        }
    } else {
        BodyFraming::NoBody
    }
}

/// True iff a response to a request with this method and this status
/// carries a body: every one does except those to `HEAD` requests and
/// those with a 1xx, 204 or 304 status.
pub open spec fn response_has_body(method: Seq<char>, status: nat) -> bool {
    !(method == "HEAD"@ || (100 <= status < 200) || status == 204 || status == 304)
}

/// The framing of a response body: none when the response is
/// body-forbidden; else length-delimited when `Content-Length` is
/// present, `Content-Length` winning over `Transfer-Encoding`;
/// else chunked when `Transfer-Encoding` says so; else none.
pub open spec fn response_framing_spec(
    method: Seq<char>,
    status: nat,
    hs: Seq<(Seq<char>, Seq<char>)>,
) -> BodyFraming {
    if !response_has_body(method, status) {
        BodyFraming::NoBody
    } else {
        match content_length_spec(hs) {
            Some(n) => BodyFraming::Length(n as u128),
            None => if is_chunked_spec(hs) {
                BodyFraming::Chunked
            } else {
                BodyFraming::NoBody
            },
        }
    }
}

/// The dispatch of response-body framing is total and exclusive: for
/// every request method, status and header block, exactly one of the
/// three framings is selected, and each exactly under its rule.
pub proof fn lemma_response_framing_total(
    method: Seq<char>,
    status: nat,
    hs: Seq<(Seq<char>, Seq<char>)>,
)
    ensures
        (response_framing_spec(method, status, hs) matches BodyFraming::Length(n)) <==> (
        response_has_body(method, status) && content_length_spec(hs) is Some),
        (response_framing_spec(method, status, hs) == BodyFraming::Chunked) <==> (
        response_has_body(method, status) && content_length_spec(hs) is None
            && is_chunked_spec(hs)),
        (response_framing_spec(method, status, hs) == BodyFraming::NoBody) <==> (
        !response_has_body(method, status) || (content_length_spec(hs) is None
            && !is_chunked_spec(hs))),
{
}

/// Chooses the framing of the request body to forward.
pub fn request_framing(req: &Request) -> (f: BodyFraming)
    ensures
        f == request_framing_spec(req.method@, req.headers@),
{
    if req.has_body() {
        match req.headers.content_length() {
            Some(n) => BodyFraming::Length(n),
            None => {
                if req.headers.is_chuncked() {
                    BodyFraming::Chunked
                } else {
                    BodyFraming::NoBody
                }
            },
        }
    } else {
        BodyFraming::NoBody
    }
}

/// Chooses the framing of the response body to forward.
pub fn response_framing(req: &Request, resp: &Response) -> (f: BodyFraming)
    ensures
        f == response_framing_spec(req.method@, resp.status as nat, resp.headers@),
{
    if !resp.has_body(req) {
        BodyFraming::NoBody
    } else {
        match resp.headers.content_length() {
            Some(n) => BodyFraming::Length(n),
            None => {
                if resp.headers.is_chuncked() {
                    BodyFraming::Chunked
                } else {
                    BodyFraming::NoBody
                }
            },
        }
    }
}

/// The client read timeout after a response: the response's
/// `Keep-Alive` timeout plus the tolerance when the response names
/// one, else the default.
pub open spec fn next_timeout_spec(hs: Seq<(Seq<char>, Seq<char>)>) -> nat {
    match keep_alive_spec(hs) {
        Some(tm) => if tm.0 + TIMEOUT_TOLERANCE_SECS <= u64::MAX {
            (tm.0 + TIMEOUT_TOLERANCE_SECS) as nat
        } else {
            u64::MAX as nat
        },
        None => DEFAULT_TIMEOUT_SECS as nat,
    }
}

/// Chooses the client read timeout after `resp`, in seconds.
pub fn next_timeout(resp: &Response) -> (t: u64)
    ensures
        t as nat == next_timeout_spec(resp.headers@),
{
    match resp.headers.keep_alive_value() {
        Some(ka) => {
            if ka.timeout <= u64::MAX - TIMEOUT_TOLERANCE_SECS {
                ka.timeout + TIMEOUT_TOLERANCE_SECS
            } else {
                u64::MAX
            }
        },
        None => DEFAULT_TIMEOUT_SECS,
    }
}

/// True iff the connection loops for another request: both the
/// request and the response say `Connection: keep-alive`.
pub fn keep_alive_decision(req: &Request, resp: &Response) -> (r: bool)
    ensures
        r == (is_keep_alive_spec(req.headers@) && is_keep_alive_spec(resp.headers@)),
{
    req.headers.is_keep_alive() && resp.headers.is_keep_alive()
}

/// What the engine does with one parsed request.
#[derive(Debug)]
pub enum RequestAction {
    /// Dial the named `host:port` and, on success, write the reply to
    /// the client and relay both ways.
    Connect {
        /// The literal `host:port` from the request line.
        hostport: String,
        /// The `200 OK` head to write to the client on dial success.
        ok_reply: String,
    },
    /// Acquire an upstream connection for the key, write the
    /// rewritten head upstream, then forward the request body as
    /// framed.
    Forward {
        /// The `host:port` pool and resolution key.
        key: String,
        /// The rewritten request head: the URI replaced by the path.
        head: String,
        /// How the request body is framed.
        body: BodyFraming,
    },
}

/// What dispatching a request yields, over plain values.
pub open spec fn plan_request_spec(
    method: Seq<char>,
    uri: Seq<char>,
    version: Seq<char>,
    hs: Seq<(Seq<char>, Seq<char>)>,
) -> Result<(Seq<char>, Seq<char>, BodyFraming), HttpError> {
    if method == "CONNECT"@ {
        Ok((uri, "HTTP/"@ + version + " 200 OK\r\n\r\n"@, BodyFraming::NoBody))
    } else {
        match parse_url_spec(uri) {
            None => Err(HttpError::HeaderParseError),
            Some(f) => if url_port(f.2) > u16::MAX {
                Err(HttpError::HeaderParseError)
            } else if f.0 != "http"@ {
                Err(HttpError::UrlProtocolInvalid)
            } else {
                Ok(
                    (
                        f.1 + ":"@ + dec_digits_of(url_port(f.2)),
                        serialize_request_spec(method, f.3, version, hs),
                        request_framing_spec(method, hs),
                    ),
                )
            },
        }
    }
}

/// Dispatches one parsed request: a CONNECT tunnel, a rewritten
/// forward request with its pool key and body framing, or the error
/// that refuses it. For CONNECT the first result field is the
/// tunnel's `host:port` and the second the reply head; for forward
/// requests they are the pool key and the rewritten head.
pub fn plan_request(req: &Request) -> (r: Result<RequestAction, HttpError>)
    ensures
        match r {
            Ok(a) => match a {
                RequestAction::Connect { hostport, ok_reply } => req.method@ == "CONNECT"@
                    && plan_request_spec(req.method@, req.url@, req.http_version@, req.headers@)
                    == Ok::<(Seq<char>, Seq<char>, BodyFraming), HttpError>(
                    (hostport@, ok_reply@, BodyFraming::NoBody),
                ),
                RequestAction::Forward { key, head, body } => req.method@ != "CONNECT"@
                    && plan_request_spec(req.method@, req.url@, req.http_version@, req.headers@)
                    == Ok::<(Seq<char>, Seq<char>, BodyFraming), HttpError>(
                    (key@, head@, body),
                ),
            },
            Err(e) => plan_request_spec(req.method@, req.url@, req.http_version@, req.headers@)
                == Err::<(Seq<char>, Seq<char>, BodyFraming), HttpError>(e),
        },
{
    if crate::http::text::str_eq(req.method.as_str(), "CONNECT") {
        let mut ok_reply = String::new();
        ok_reply.append("HTTP/");
        ok_reply.append(req.http_version.as_str());
        ok_reply.append(" 200 OK\r\n\r\n");
        proof {
            assert(ok_reply@ =~= "HTTP/"@ + req.http_version@ + " 200 OK\r\n\r\n"@);
        }
        return Ok(RequestAction::Connect { hostport: req.url.clone(), ok_reply });
    }
    let parsed = match url(req.url.as_str()) {
        None => {
            return Err(HttpError::HeaderParseError);
        },
        Some((_rest, u)) => u,
    };
    if !crate::http::text::str_eq(parsed.protocol.as_str(), "http") {
        return Err(HttpError::UrlProtocolInvalid);
    }
    let mut key = String::new();
    key.append(parsed.host.as_str());
    key.append(":");
    let ps = u16_to_string(parsed.port);
    key.append(ps.as_str());
    proof {
        reveal_strlit(":");
        assert(key@ =~= parsed.host@ + ":"@ + dec_digits_of(parsed.port as nat));
    }
    let body = request_framing(req);
    let rewritten = Request::new(
        req.method.clone(),
        parsed.path,
        req.http_version.clone(),
        req.headers.duplicate(),
    );
    let head = rewritten.to_string();
    Ok(RequestAction::Forward { key, head, body })
}

/// What the engine does after reading and parsing one response: the
/// head to write back, the body framing to forward, the next client
/// read timeout, and whether the connection loops.
#[derive(Debug)]
pub struct ResponsePlan {
    /// The response head to write to the client.
    pub head: String,
    /// How the response body is framed.
    pub body: BodyFraming,
    /// The client read timeout from now on, in seconds.
    pub timeout_secs: u64,
    /// True iff both ends asked to keep the connection alive.
    pub keep_alive: bool,
}

/// Plans the second half of one request/response cycle.
pub fn plan_response(req: &Request, resp: &Response) -> (r: ResponsePlan)
    ensures
        r.head@ == serialize_response_spec(
            resp.http_version@,
            resp.status as nat,
            resp.status_phrase@,
            resp.headers@,
        ),
        r.body == response_framing_spec(req.method@, resp.status as nat, resp.headers@),
        r.timeout_secs as nat == next_timeout_spec(resp.headers@),
        r.keep_alive == (is_keep_alive_spec(req.headers@) && is_keep_alive_spec(resp.headers@)),
{
    ResponsePlan {
        head: resp.to_string(),
        body: response_framing(req, resp),
        timeout_secs: next_timeout(resp),
        keep_alive: keep_alive_decision(req, resp),
    }
}

/// The body of the page sent on an unparseable request.
pub fn error_page_400() -> (r: &'static str)
    ensures
        r@ == "<html><head><title>400</title></head><body><h1>400 invalid header</h1></body></html>"@,
{
    "<html><head><title>400</title></head><body><h1>400 invalid header</h1></body></html>"
}

/// The body of the page sent on an upstream connect failure.
pub fn error_page_502() -> (r: &'static str)
    ensures
        r@ == "<html><head><title>502</title></head><body><h1>502 connection failed</h1></body></html>"@,
{
    "<html><head><title>502</title></head><body><h1>502 connection failed</h1></body></html>"
}

/// An error page as one byte string: the response head with the body
/// length and type added, then the body.
pub open spec fn error_page_spec(
    version: Seq<char>,
    status: nat,
    phrase: Seq<char>,
    hs: Seq<(Seq<char>, Seq<char>)>,
    body: &str,
) -> Seq<char> {
    serialize_response_spec(
        version,
        status,
        phrase,
        hs.push(("Content-Length"@, dec_digits_of(body.spec_bytes().len()))).push(
            ("Content-Type"@, "text/html"@),
        ),
    ) + body@
}

/// Renders an error response and its page: the head, with
/// `Content-Length` and `Content-Type` added, followed by the body.
pub fn render_error_page(response: Response, body: &str) -> (r: String)
    ensures
        r@ == error_page_spec(
            response.http_version@,
            response.status as nat,
            response.status_phrase@,
            response.headers@,
            body,
        ),
{
    let mut response = response;
    let blen = body_len(body);
    let bs = crate::http::response::u64_to_string(blen);
    response.headers.insert_header("Content-Length", bs.as_str());
    response.headers.insert_header("Content-Type", "text/html");
    let mut out = response.to_string();
    out.append(body);
    out
}

/// The byte length of `body`, which must fit 64 bits.
fn body_len(body: &str) -> (r: u64)
    ensures
        r as nat == body.spec_bytes().len(),
{
    let b = body.as_bytes();
    let n = b.len();
    n as u64
}

/// One HTTP forward-proxy listener: its label and its configuration.
pub struct Http {
    /// The listener's label, used only in log lines.
    pub name: String,
    /// The listener's configuration.
    pub config: HttpConfig,
}

impl Http {
    /// Builds a listener from its label and configuration.
    pub fn new(name: &String, config: &HttpConfig) -> (r: Http)
        ensures
            r.name@ == name@,
            r.config.port == config.port,
    {
        Http { name: name.clone(), config: HttpConfig { port: config.port } }
    }
}

} // verus!
