//! The parsed HTTP response and its serialization.
use vstd::prelude::*;
use crate::http::headers::{serialize_headers, crlf_chars, Headers};
use crate::http::request::Request;

verus! {

/// The canonical decimal digits of `n`, most significant first,
/// without leading zeroes (a single `0` for zero).
pub open spec fn dec_digits_of(n: nat) -> Seq<char>
    decreases n,
{
    if n < 10 {
        seq![((48 + n) as char)]
    } else {
        dec_digits_of(n / 10).push(((48 + n % 10) as char))
    }
}

/// One decimal digit as a string.
fn digit_str(d: u8) -> (r: &'static str)
    requires
        d < 10,
    ensures
        r@ =~= seq![((48 + d as nat) as char)],
{
    proof {
        reveal_strlit("0");
        reveal_strlit("1");
        reveal_strlit("2");
        reveal_strlit("3");
        reveal_strlit("4");
        reveal_strlit("5");
        reveal_strlit("6");
        reveal_strlit("7");
        reveal_strlit("8");
        reveal_strlit("9");
    }
    match d {
        0 => "0",
        1 => "1",
        2 => "2",
        3 => "3",
        4 => "4",
        5 => "5",
        6 => "6",
        7 => "7",
        8 => "8",
        _ => "9",
    }
}

/// `n` written in decimal.
pub fn u16_to_string(n: u16) -> (r: String)
    ensures
        r@ == dec_digits_of(n as nat),
{
    u64_to_string(n as u64)
}

/// `n` written in decimal.
pub fn u64_to_string(n: u64) -> (r: String)
    ensures
        r@ == dec_digits_of(n as nat),
{
    let mut rev: Vec<u8> = Vec::new();
    let mut m = n;
    while m >= 10
        invariant
            dec_digits_of(n as nat) =~= dec_digits_of(m as nat) + digits_tail(rev@),
            forall|i: int| 0 <= i < rev@.len() ==> #[trigger] rev@[i] < 10,
        decreases m,
    {
        let d = (m % 10) as u8;
        let ghost rev0 = rev@;
        rev.push(d);
        m = m / 10;
        proof {
            assert(rev@.drop_last() =~= rev0);
            assert(digits_tail(rev@) =~= seq![((48 + d as nat) as char)] + digits_tail(rev0));
            assert(dec_digits_of((m * 10 + d) as nat) =~= dec_digits_of(m as nat).push(
                ((48 + d as nat) as char),
            ));
            assert(dec_digits_of(m as nat).push(((48 + d as nat) as char)) + digits_tail(rev0)
                =~= dec_digits_of(m as nat) + (seq![((48 + d as nat) as char)] + digits_tail(
                rev0,
            )));
        }
    }
    let mut out = String::new();
    out.append(digit_str((m % 10) as u8));
    proof {
        assert(dec_digits_of(m as nat) =~= seq![((48 + m as nat) as char)]);
        assert(out@ =~= dec_digits_of(m as nat));
    }
    let mut i = rev.len();
    proof {
        assert(rev@.take(rev@.len() as int) =~= rev@);
    }
    while i > 0
        invariant
            i <= rev@.len(),
            forall|k: int| 0 <= k < rev@.len() ==> #[trigger] rev@[k] < 10,
            out@ + digits_tail(rev@.take(i as int)) =~= dec_digits_of(n as nat),
        decreases i,
    {
        i = i - 1;
        let ghost out0 = out@;
        out.append(digit_str(rev[i]));
        proof {
            assert(rev@.take(i + 1).drop_last() =~= rev@.take(i as int));
            assert(rev@.take(i + 1).last() == rev@[i as int]);
            assert(digits_tail(rev@.take(i + 1)) =~= seq![((48 + rev@[i as int] as nat) as char)]
                + digits_tail(rev@.take(i as int)));
            assert(out@ =~= out0 + seq![((48 + rev@[i as int] as nat) as char)]);
            assert(out@ + digits_tail(rev@.take(i as int)) =~= out0 + digits_tail(
                rev@.take(i + 1),
            ));
        }
    }
    proof {
        assert(rev@.take(0) =~= Seq::<u8>::empty());
        assert(digits_tail(Seq::<u8>::empty()) =~= Seq::<char>::empty());
        assert(out@ =~= dec_digits_of(n as nat));
    }
    out
}

/// The digit characters of reversed digit values `rev`, read from the
/// last collected digit to the first.
pub open spec fn digits_tail(rev: Seq<u8>) -> Seq<char>
    decreases rev.len(),
{
    if rev.len() == 0 {
        Seq::empty()
    } else {
        seq![((48 + rev.last() as nat) as char)] + digits_tail(rev.drop_last())
    }
}

/// A serialized response head: the status line, the header block, and
/// the blank line that ends it.
pub open spec fn serialize_response_spec(
    version: Seq<char>,
    status: nat,
    phrase: Seq<char>,
    hs: Seq<(Seq<char>, Seq<char>)>,
) -> Seq<char> {
    "HTTP/"@ + version + " "@ + dec_digits_of(status) + " "@ + phrase + crlf_chars()
        + serialize_headers(hs) + crlf_chars()
}

/// An HTTP response: the status line fields and the header block.
#[derive(Debug)]
pub struct Response {
    /// The HTTP version, without the `HTTP/` prefix.
    pub http_version: String,
    /// The numeric status.
    pub status: u16,
    /// The reason phrase.
    pub status_phrase: String,
    /// The header block, in wire order.
    pub headers: Headers,
}

impl Response {
    /// Builds a response from its parts.
    pub fn new(http_version: &str, status: u16, status_phrase: &str, headers: Headers) -> (r:
        Response)
        ensures
            r.http_version@ == http_version@,
            r.status == status,
            r.status_phrase@ == status_phrase@,
            r.headers == headers,
    {
        Response {
            http_version: http_version.to_owned(),
            status,
            status_phrase: status_phrase.to_owned(),
            headers,
        }
    }

    /// Serializes the response head, blank line included.
    pub fn to_string(&self) -> (r: String)
        ensures
            r@ == serialize_response_spec(
                self.http_version@,
                self.status as nat,
                self.status_phrase@,
                self.headers@,
            ),
    {
        let mut out = String::new();
        out.append("HTTP/");
        out.append(self.http_version.as_str());
        out.append(" ");
        let st = u16_to_string(self.status);
        out.append(st.as_str());
        out.append(" ");
        out.append(self.status_phrase.as_str());
        out.append("\r\n");
        let hdrs = self.headers.to_string();
        out.append(hdrs.as_str());
        out.append("\r\n");
        proof {
            reveal_strlit("\r\n");
            assert("\r\n"@ =~= crlf_chars());
            assert(out@ =~= serialize_response_spec(
                self.http_version@,
                self.status as nat,
                self.status_phrase@,
                self.headers@,
            ));
        }
        out
    }

    /// True iff a body accompanies this response to `request`: every
    /// response has one except those to `HEAD` requests and those with
    /// a 1xx, 204 or 304 status.
    pub fn has_body(&self, request: &Request) -> (r: bool)
        ensures
            r == !(request.method@ == "HEAD"@ || (100 <= self.status < 200) || self.status == 204
                || self.status == 304),
    {
        !(crate::http::text::str_eq(request.method.as_str(), "HEAD") || (100 <= self.status
            && self.status < 200) || self.status == 204 || self.status == 304)
    }
}

} // verus!
