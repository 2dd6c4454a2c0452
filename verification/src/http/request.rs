//! The parsed HTTP request and the parsed absolute request URL.
use vstd::prelude::*;
use crate::http::headers::{serialize_headers, crlf_chars, Headers};

verus! {

/// A serialized request head: the request line, the header block, and
/// the blank line that ends it.
pub open spec fn serialize_request_spec(
    method: Seq<char>,
    url: Seq<char>,
    version: Seq<char>,
    hs: Seq<(Seq<char>, Seq<char>)>,
) -> Seq<char> {
    method + " "@ + url + " "@ + "HTTP/"@ + version + crlf_chars() + serialize_headers(hs)
        + crlf_chars()
}

/// An HTTP request: the request line fields and the header block.
#[derive(Debug)]
pub struct Request {
    /// The request method, one of the nine registered tokens.
    pub method: String,
    /// The request-URI exactly as it stood on the request line.
    pub url: String,
    /// The HTTP version, without the `HTTP/` prefix.
    pub http_version: String,
    /// The header block, in wire order.
    pub headers: Headers,
}

impl Request {
    /// Builds a request from its parts.
    pub fn new(method: String, url: String, http_version: String, headers: Headers) -> (r:
        Request)
        ensures
            r.method == method,
            r.url == url,
            r.http_version == http_version,
            r.headers == headers,
    {
        Request { method, url, http_version, headers }
    }

    /// Serializes the request head, blank line included.
    pub fn to_string(&self) -> (r: String)
        ensures
            r@ == serialize_request_spec(
                self.method@,
                self.url@,
                self.http_version@,
                self.headers@,
            ),
    {
        let mut out = String::new();
        out.append(self.method.as_str());
        out.append(" ");
        out.append(self.url.as_str());
        out.append(" ");
        out.append("HTTP/");
        out.append(self.http_version.as_str());
        out.append("\r\n");
        let hdrs = self.headers.to_string();
        out.append(hdrs.as_str());
        out.append("\r\n");
        proof {
            reveal_strlit("\r\n");
            assert("\r\n"@ =~= crlf_chars());
            assert(out@ =~= serialize_request_spec(
                self.method@,
                self.url@,
                self.http_version@,
                self.headers@,
            ));
        }
        out
    }

    /// True iff a body accompanies this request when forwarded: only
    /// `POST` requests carry one.
    pub fn has_body(&self) -> (r: bool)
        ensures
            r == (self.method@ == "POST"@),
    {
        crate::http::text::str_eq(self.method.as_str(), "POST")
    }
}

/// A parsed absolute request URL.
#[derive(Debug)]
pub struct Url {
    /// The scheme, before `://`.
    pub protocol: String,
    /// The host, a name, an IPv4 literal, or a bracketed IPv6 literal.
    pub host: String,
    /// The port; 80 when the URL names none.
    pub port: u16,
    /// The path, from the first `/` after the authority to the end.
    pub path: String,
}

} // verus!
