//! The HTTP grammar: request line, status line, header lines with
//! legacy folding, absolute URLs and chunk-size lines.
//!
//! Each parser has a specification-level twin over character
//! sequences; the executable parser returns exactly what the twin
//! describes, so the grammar itself is what is proved.
use vstd::prelude::*;
use crate::http::headers::{is_dec_digit, dec_value, Headers};
use crate::http::request::{Request, Url};
use crate::http::response::Response;
use crate::http::text::{
    chars_of, crlf_at, crlf_from, find_char, find_crlf, find_char_spec, found_at, has_char,
    has_crlf, lemma_crlf_unique, lemma_found_unique, lemma_run_unique, run_end, run_of,
};

verus! {

/// True iff `c` is an ASCII control character or DEL.
pub open spec fn is_ctl_char(c: char) -> bool {
    (c as int) < 32 || (c as int) == 127
}

/// True iff `c` is one of the separator characters a token excludes.
pub open spec fn is_token_sep(c: char) -> bool {
    c == ' ' || c == '(' || c == ')' || c == '<' || c == '>' || c == '@' || c == ',' || c == ';'
        || c == ':' || c == '\\' || c == '"' || c == '/' || c == '[' || c == ']' || c == '?' || c
        == '=' || c == '{' || c == '}' || c == '\t'
}

/// True iff `c` may stand in a token.
pub open spec fn is_token_char(c: char) -> bool {
    !is_ctl_char(c) && !is_token_sep(c)
}

/// The token-character predicate, as one shared value.
pub open spec fn token_pred() -> spec_fn(char) -> bool {
    |c: char| is_token_char(c)
}

/// True iff `c` separates request-line fields: space or tab.
pub open spec fn is_space_char(c: char) -> bool {
    c == ' ' || c == '\t'
}

/// The field-separator predicate, as one shared value.
pub open spec fn space_pred() -> spec_fn(char) -> bool {
    |c: char| is_space_char(c)
}

/// True iff `c` starts a folded header continuation line.
pub open spec fn is_fold_char(c: char) -> bool {
    c == ' ' || c == '\t'
}

/// The decimal-digit predicate, as one shared value.
pub open spec fn digit_pred() -> spec_fn(char) -> bool {
    |c: char| is_dec_digit(c)
}

/// Tests whether `c` may stand in a token.
pub fn is_token_char_exec(c: char) -> (b: bool)
    ensures
        b == is_token_char(c),
{
    let n = c as u32;
    let ctl = n < 32 || n == 127;
    let sep = c == ' ' || c == '(' || c == ')' || c == '<' || c == '>' || c == '@' || c == ','
        || c == ';' || c == ':' || c == '\\' || c == '"' || c == '/' || c == '[' || c == ']' || c
        == '?' || c == '=' || c == '{' || c == '}' || c == '\t';
    !ctl && !sep
}

/// Scans the run of characters satisfying `p` that starts at `i`,
/// deciding membership with `f`.
fn scan_while<F: Fn(char) -> bool>(
    v: &Vec<char>,
    i: usize,
    f: F,
    Ghost(p): Ghost<spec_fn(char) -> bool>,
) -> (j: usize)
    requires
        i <= v@.len(),
        forall|c: char| #[trigger] f.requires((c,)),
        forall|c: char, b: bool| #[trigger] f.ensures((c,), b) ==> b == p(c),
    ensures
        i <= j <= v@.len(),
        run_end(v@, i as int, p, j as int),
        j == run_of(v@, i as int, p),
{
    let len = v.len();
    let mut j = i;
    while j < len
        invariant
            i <= j <= len,
            len == v@.len(),
            forall|c: char| #[trigger] f.requires((c,)),
            forall|c: char, b: bool| #[trigger] f.ensures((c,), b) ==> b == p(c),
            forall|k: int| i <= k < j ==> p(#[trigger] v@[k]),
        decreases len - j,
    {
        if !f(v[j]) {
            proof {
                assert(run_end(v@, i as int, p, j as int));
                lemma_run_unique(v@, i as int, p, j as int);
            }
            return j;
        }
        j = j + 1;
    }
    proof {
        assert(run_end(v@, i as int, p, j as int));
        lemma_run_unique(v@, i as int, p, j as int);
    }
    j
}

/// Parses a token at the front of `input`: a non-empty run of token
/// characters. Returns the rest and the token.
pub fn token(input: &str) -> (r: Option<(String, String)>)
    ensures
        match r {
            Some((rest, t)) => ({
                &&& t@.len() >= 1
                &&& run_end(input@, 0, token_pred(), t@.len() as int)
                &&& t@ == input@.take(t@.len() as int)
                &&& rest@ == input@.skip(t@.len() as int)
            }),
            None => input@.len() == 0 || !is_token_char(input@[0]),
        },
{
    let v = chars_of(input);
    let len = v.len();
    let j = scan_while(&v, 0, is_token_char_exec, Ghost(token_pred()));
    if j == 0 {
        proof {
            if input@.len() > 0 {
                assert(!is_token_char(input@[0]));
            }
        }
        return None;
    }
    let t = input.substring_char(0, j).to_owned();
    let rest = input.substring_char(j, len).to_owned();
    Some((rest, t))
}

/// Parses one header line at the front of `input`, as
/// `parse_header_line` describes. Returns the rest and the name and
/// value.
pub fn header_line(input: &str) -> (r: Option<(String, (String, String))>)
    ensures
        match r {
            Some((rest, pair)) => parse_header_line(input@, 0) matches Some((e, p)) && p == (
                pair.0@,
                pair.1@,
            ) && rest@ == input@.skip(e),
            None => parse_header_line(input@, 0) is None,
        },
{
    let v = chars_of(input);
    match parse_header_line_at(input, &v, 0) {
        None => None,
        Some((e, name, value)) => {
            let rest = input.substring_char(e, v.len()).to_owned();
            Some((rest, (name, value)))
        },
    }
}

/// Where a header value that starts at `p` ends: at the first CR LF,
/// except that a CR LF followed by a space or tab and a further CR LF
/// folds the next line into the value.
pub open spec fn value_end(s: Seq<char>, p: int) -> Option<int>
    decreases s.len() - p,
{
    if !has_crlf(s, p) {
        None
    } else {
        let q = crlf_from(s, p);
        if p <= q && q + 2 < s.len() && is_fold_char(s[q + 2]) && has_crlf(s, q + 3) {
            value_end(s, q + 3)
        } else {
            Some(q)
        }
    }
}

/// Parses one header line at `i`: a token name, `: `, a value with
/// legacy folding, and the terminating CR LF. Yields the position
/// after the line and the name and value, the value verbatim.
pub open spec fn parse_header_line(s: Seq<char>, i: int) -> Option<(int, (Seq<char>, Seq<char>))> {
    let j = run_of(s, i, token_pred());
    if !(0 <= i <= s.len()) || !run_end(s, i, token_pred(), j) || j <= i {
        None
    } else if !(j + 2 <= s.len() && s[j] == ':' && s[j + 1] == ' ') {
        None
    } else {
        match value_end(s, j + 2) {
            None => None,
            Some(q) => if j + 2 <= q && q + 2 <= s.len() {
                Some((q + 2, (s.subrange(i, j), s.subrange(j + 2, q))))
            } else {
                None
            },
        }
    }
}

/// Parses header lines at `i` until one no longer matches. Yields the
/// position after the last line and the pairs, in wire order.
pub open spec fn parse_headers_spec(s: Seq<char>, i: int) -> (int, Seq<(Seq<char>, Seq<char>)>)
    decreases s.len() - i,
{
    match parse_header_line(s, i) {
        None => (i, Seq::empty()),
        Some((e, pair)) => if i < e <= s.len() {
            let r = parse_headers_spec(s, e);
            (r.0, seq![pair] + r.1)
        } else {
            (i, Seq::empty())
        },
    }
}

/// An end returned by `value_end` is a CR LF position past `p`.
pub proof fn lemma_value_end_bounds(s: Seq<char>, p: int)
    requires
        0 <= p <= s.len(),
    ensures
        match value_end(s, p) {
            Some(q) => p <= q && q + 2 <= s.len(),
            None => true,
        },
    decreases s.len() - p,
{
    if has_crlf(s, p) {
        let q = crlf_from(s, p);
        assert(crlf_at(s, p, q));
        if p <= q && q + 2 < s.len() && is_fold_char(s[q + 2]) && has_crlf(s, q + 3) {
            lemma_value_end_bounds(s, q + 3);
        }
    }
}

/// Finds where the header value starting at `p` ends, as `value_end`
/// describes.
fn value_end_at(v: &Vec<char>, p: usize) -> (r: Option<usize>)
    requires
        p <= v@.len(),
    ensures
        match r {
            Some(q) => value_end(v@, p as int) == Some(q as int) && p <= q && q + 2 <= v@.len(),
            None => value_end(v@, p as int) is None,
        },
    decreases v@.len() - p,
{
    match find_crlf(v, p) {
        None => {
            proof {
                if has_crlf(v@, p as int) {
                    let w = crlf_from(v@, p as int);
                    assert(crlf_at(v@, p as int, w));
                }
            }
            None
        },
        Some(q) => {
            let len = v.len();
            proof {
                lemma_crlf_unique(v@, p as int, q as int);
                assert(q + 2 <= len);
            }
            if q + 2 < len && (v[q + 2] == ' ' || v[q + 2] == '\t') {
                match find_crlf(v, q + 3) {
                    Some(_w) => {
                        proof {
                            lemma_crlf_unique(v@, (q + 3) as int, _w as int);
                        }
                        value_end_at(v, q + 3)
                    },
                    None => {
                        proof {
                            if has_crlf(v@, q + 3) {
                                let w2 = crlf_from(v@, q + 3);
                                assert(crlf_at(v@, q + 3, w2));
                            }
                        }
                        Some(q)
                    },
                }
            } else {
                Some(q)
            }
        },
    }
}

/// Parses one header line at `i`, as `parse_header_line` describes,
/// cutting the name and value out of `input`.
fn parse_header_line_at(input: &str, v: &Vec<char>, i: usize) -> (r: Option<
    (usize, String, String),
>)
    requires
        v@ == input@,
        i <= v@.len(),
    ensures
        match r {
            Some((e, name, value)) => parse_header_line(input@, i as int) == Some(
                (e as int, (name@, value@)),
            ) && i < e <= input@.len(),
            None => parse_header_line(input@, i as int) is None,
        },
{
    let len = v.len();
    let j = scan_while(v, i, is_token_char_exec, Ghost(token_pred()));
    if j == i {
        return None;
    }
    if len - j < 2 {
        return None;
    }
    if !(v[j] == ':' && v[j + 1] == ' ') {
        return None;
    }
    match value_end_at(v, j + 2) {
        None => None,
        Some(q) => {
            let name = input.substring_char(i, j).to_owned();
            let value = input.substring_char(j + 2, q).to_owned();
            Some((q + 2, name, value))
        },
    }
}

/// Parses a header block: one line after another until a line no
/// longer matches. Returns the unconsumed rest of the input and the
/// headers, in wire order.
pub fn headers(input: &str) -> (r: (String, Headers))
    ensures
        ({
            let ph = parse_headers_spec(input@, 0);
            r.1@ == ph.1 && r.0@ == input@.skip(ph.0)
        }),
{
    let v = chars_of(input);
    let (e, h) = headers_at(input, &v, 0);
    let rest = input.substring_char(e, v.len()).to_owned();
    (rest, h)
}

/// Parses header lines from `start` over the shared character vector.
fn headers_at(input: &str, v: &Vec<char>, start: usize) -> (r: (usize, Headers))
    requires
        v@ == input@,
        start <= v@.len(),
    ensures
        ({
            let ph = parse_headers_spec(input@, start as int);
            r.1@ == ph.1 && r.0 == ph.0 && start <= r.0 <= input@.len()
        }),
{
    let len = v.len();
    let mut h = Headers::new();
    let mut i: usize = start;
    let mut more = true;
    while more
        invariant
            start <= i <= len,
            len == input@.len(),
            v@ == input@,
            more ==> parse_headers_spec(input@, start as int) == (
                parse_headers_spec(input@, i as int).0,
                h@ + parse_headers_spec(input@, i as int).1,
            ),
            !more ==> parse_headers_spec(input@, start as int).0 == i && parse_headers_spec(
                input@,
                start as int,
            ).1 == h@,
        decreases len - i + 1, (if more {
            1int
        } else {
            0int
        }),
    {
        proof {
            assert(h@ + Seq::<(Seq<char>, Seq<char>)>::empty() =~= h@);
        }
        match parse_header_line_at(input, &v, i) {
            Some((e, name, value)) => {
                let ghost h0 = h@;
                h.insert_header(name.as_str(), value.as_str());
                proof {
                    let tail = parse_headers_spec(input@, e as int);
                    assert(parse_headers_spec(input@, i as int) == (
                        tail.0,
                        seq![(name@, value@)] + tail.1,
                    ));
                    assert(h@ =~= h0.push((name@, value@)));
                    assert(h0 + (seq![(name@, value@)] + tail.1) =~= h@ + tail.1);
                }
                i = e;
            },
            None => {
                proof {
                    assert(parse_headers_spec(input@, i as int) == (
                        i as int,
                        Seq::<(Seq<char>, Seq<char>)>::empty(),
                    ));
                    assert(h@ + Seq::<(Seq<char>, Seq<char>)>::empty() =~= h@);
                }
                more = false;
            },
        }
    }
    (i, h)
}

/// True iff `t` stands in `s` at position `i`.
pub open spec fn prefix_at(s: Seq<char>, i: int, t: Seq<char>) -> bool {
    0 <= i && i + t.len() <= s.len() && s.subrange(i, i + t.len()) == t
}

/// Tests whether `c` is a space or a tab.
pub fn is_space_char_exec(c: char) -> (b: bool)
    ensures
        b == is_space_char(c),
{
    c == ' ' || c == '\t'
}

/// Tests whether `t` stands in `input` at position `i`.
fn match_prefix(input: &str, v: &Vec<char>, i: usize, t: &str) -> (r: Option<usize>)
    requires
        v@ == input@,
        i <= v@.len(),
    ensures
        match r {
            Some(e) => prefix_at(input@, i as int, t@) && e == i + t@.len(),
            None => !prefix_at(input@, i as int, t@),
        },
{
    let len = v.len();
    let tl = t.unicode_len();
    if len - i < tl {
        return None;
    }
    let mut k: usize = 0;
    while k < tl
        invariant
            k <= tl,
            tl == t@.len(),
            i + tl <= len,
            len == v@.len(),
            v@ == input@,
            forall|m: int| 0 <= m < k ==> input@[i + m] == t@[m],
        decreases tl - k,
    {
        if v[i + k] != t.get_char(k) {
            proof {
                if prefix_at(input@, i as int, t@) {
                    assert(input@.subrange(i as int, i + t@.len())[k as int] == t@[k as int]);
                }
            }
            return None;
        }
        k = k + 1;
    }
    proof {
        assert(input@.subrange(i as int, i + t@.len()) =~= t@);
    }
    Some(i + tl)
}

/// Which registered method stands at the front of `s`, and where it
/// ends.
pub open spec fn match_method(s: Seq<char>) -> Option<int> {
    if prefix_at(s, 0, "GET"@) {
        Some("GET"@.len() as int)
    } else if prefix_at(s, 0, "HEAD"@) {
        Some("HEAD"@.len() as int)
    } else if prefix_at(s, 0, "POST"@) {
        Some("POST"@.len() as int)
    } else if prefix_at(s, 0, "PUT"@) {
        Some("PUT"@.len() as int)
    } else if prefix_at(s, 0, "DELETE"@) {
        Some("DELETE"@.len() as int)
    } else if prefix_at(s, 0, "TRACE"@) {
        Some("TRACE"@.len() as int)
    } else if prefix_at(s, 0, "OPTIONS"@) {
        Some("OPTIONS"@.len() as int)
    } else if prefix_at(s, 0, "CONNECT"@) {
        Some("CONNECT"@.len() as int)
    } else if prefix_at(s, 0, "PATCH"@) {
        Some("PATCH"@.len() as int)
    } else {
        None
    }
}

/// Finds which registered method stands at the front of `input`.
fn match_method_exec(input: &str, v: &Vec<char>) -> (r: Option<usize>)
    requires
        v@ == input@,
    ensures
        match r {
            Some(e) => match_method(input@) == Some(e as int) && e <= input@.len(),
            None => match_method(input@) is None,
        },
{
    if let Some(e) = match_prefix(input, v, 0, "GET") {
        return Some(e);
    }
    if let Some(e) = match_prefix(input, v, 0, "HEAD") {
        return Some(e);
    }
    if let Some(e) = match_prefix(input, v, 0, "POST") {
        return Some(e);
    }
    if let Some(e) = match_prefix(input, v, 0, "PUT") {
        return Some(e);
    }
    if let Some(e) = match_prefix(input, v, 0, "DELETE") {
        return Some(e);
    }
    if let Some(e) = match_prefix(input, v, 0, "TRACE") {
        return Some(e);
    }
    if let Some(e) = match_prefix(input, v, 0, "OPTIONS") {
        return Some(e);
    }
    if let Some(e) = match_prefix(input, v, 0, "CONNECT") {
        return Some(e);
    }
    if let Some(e) = match_prefix(input, v, 0, "PATCH") {
        return Some(e);
    }
    None
}

/// Parses a request line: a registered method, spaces, the
/// request-URI up to the next space, spaces, `HTTP/`, the version up
/// to CR LF, and the terminator. Yields the position after the line
/// and the method, URI and version.
pub open spec fn parse_request_first_line(s: Seq<char>) -> Option<
    (int, (Seq<char>, Seq<char>, Seq<char>)),
> {
    match match_method(s) {
        None => None,
        Some(me) => if 0 <= me <= s.len() {
            let sp1 = run_of(s, me, space_pred());
            if !run_end(s, me, space_pred(), sp1) || sp1 <= me {
                None
            } else if !has_char(s, sp1, ' ') {
                None
            } else {
                let k = find_char_spec(s, sp1, ' ');
                if !(sp1 <= k < s.len()) {
                    None
                } else {
                    let sp2 = run_of(s, k, space_pred());
                    if !run_end(s, k, space_pred(), sp2) || sp2 <= k {
                        None
                    } else if !prefix_at(s, sp2, "HTTP/"@) {
                        None
                    } else {
                        let vstart = sp2 + "HTTP/"@.len();
                        if !has_crlf(s, vstart) {
                            None
                        } else {
                            let q = crlf_from(s, vstart);
                            if vstart <= q && q + 2 <= s.len() {
                                Some(
                                    (
                                        q + 2,
                                        (
                                            s.subrange(0, me),
                                            s.subrange(sp1, k),
                                            s.subrange(vstart, q),
                                        ),
                                    ),
                                )
                            } else {
                                None
                            }
                        }
                    }
                }
            }
        } else {
            None
        },
    }
}

/// Parses a whole request head: the request line, the header block,
/// and the blank line that ends it.
pub open spec fn parse_request_spec(s: Seq<char>) -> Option<
    (int, (Seq<char>, Seq<char>, Seq<char>, Seq<(Seq<char>, Seq<char>)>)),
> {
    match parse_request_first_line(s) {
        None => None,
        Some((e1, rfl)) => if 0 <= e1 <= s.len() {
            let ph = parse_headers_spec(s, e1);
            if ph.0 + 2 <= s.len() && s[ph.0] == '\r' && s[ph.0 + 1] == '\n' {
                Some((ph.0 + 2, (rfl.0, rfl.1, rfl.2, ph.1)))
            } else {
                None
            }
        } else {
            None
        },
    }
}

/// Parses the request line at the front of `input`. Returns the rest
/// of the input and the method, request-URI and version.
pub fn request_first_line(input: &str) -> (r: Option<(String, (String, String, String))>)
    ensures
        match r {
            Some((rest, rfl)) => parse_request_first_line(input@) matches Some((e, f)) && f == (
                rfl.0@,
                rfl.1@,
                rfl.2@,
            ) && rest@ == input@.skip(e),
            None => parse_request_first_line(input@) is None,
        },
{
    let v = chars_of(input);
    match request_first_line_at(input, &v) {
        None => None,
        Some((e, m, u, ver)) => {
            let rest = input.substring_char(e, v.len()).to_owned();
            Some((rest, (m, u, ver)))
        },
    }
}

/// Parses the request line over the shared character vector.
fn request_first_line_at(input: &str, v: &Vec<char>) -> (r: Option<
    (usize, String, String, String),
>)
    requires
        v@ == input@,
    ensures
        match r {
            Some((e, m, u, ver)) => parse_request_first_line(input@) == Some(
                (e as int, (m@, u@, ver@)),
            ) && e <= input@.len(),
            None => parse_request_first_line(input@) is None,
        },
{
    let len = v.len();
    let me = match match_method_exec(input, v) {
        None => {
            return None;
        },
        Some(me) => me,
    };
    let sp1 = scan_while(v, me, is_space_char_exec, Ghost(space_pred()));
    if sp1 == me {
        return None;
    }
    let k = match find_char(v, sp1, ' ') {
        None => {
            proof {
                if has_char(input@, sp1 as int, ' ') {
                    let w = find_char_spec(input@, sp1 as int, ' ');
                    assert(found_at(input@, sp1 as int, ' ', w));
                }
            }
            return None;
        },
        Some(k) => {
            proof {
                lemma_found_unique(input@, sp1 as int, ' ', k as int);
            }
            k
        },
    };
    let sp2 = scan_while(v, k, is_space_char_exec, Ghost(space_pred()));
    proof {
        assert(is_space_char(input@[k as int]));
        assert(sp2 > k);
    }
    let vstart = match match_prefix(input, v, sp2, "HTTP/") {
        None => {
            return None;
        },
        Some(e) => e,
    };
    let q = match find_crlf(v, vstart) {
        None => {
            proof {
                if has_crlf(input@, vstart as int) {
                    let w = crlf_from(input@, vstart as int);
                    assert(crlf_at(input@, vstart as int, w));
                }
            }
            return None;
        },
        Some(q) => {
            proof {
                lemma_crlf_unique(input@, vstart as int, q as int);
            }
            q
        },
    };
    let m = input.substring_char(0, me).to_owned();
    let u = input.substring_char(sp1, k).to_owned();
    let ver = input.substring_char(vstart, q).to_owned();
    Some((q + 2, m, u, ver))
}

/// Parses a whole request head at the front of `input`: the request
/// line, the headers, and the blank line. Returns the rest of the
/// input and the request.
pub fn request(input: &str) -> (r: Option<(String, Request)>)
    ensures
        match r {
            Some((rest, req)) => parse_request_spec(input@) matches Some((e, f)) && f == (
                req.method@,
                req.url@,
                req.http_version@,
                req.headers@,
            ) && rest@ == input@.skip(e),
            None => parse_request_spec(input@) is None,
        },
{
    let v = chars_of(input);
    let len = v.len();
    let (e1, m, u, ver) = match request_first_line_at(input, &v) {
        None => {
            return None;
        },
        Some(x) => x,
    };
    let (e2, hs) = headers_at(input, &v, e1);
    if len - e2 < 2 {
        return None;
    }
    if !(v[e2] == '\r' && v[e2 + 1] == '\n') {
        return None;
    }
    let rest = input.substring_char(e2 + 2, len).to_owned();
    Some((rest, Request::new(m, u, ver, hs)))
}

/// Parses a status line: `HTTP/`, the version up to the next space,
/// spaces, the status digits, spaces, the reason phrase up to CR LF,
/// and the terminator. Yields the position after the line and the
/// version, status digits and phrase.
pub open spec fn parse_response_first_line(s: Seq<char>) -> Option<
    (int, (Seq<char>, Seq<char>, Seq<char>)),
> {
    if !prefix_at(s, 0, "HTTP/"@) {
        None
    } else {
        let vstart = "HTTP/"@.len() as int;
        if !has_char(s, vstart, ' ') {
            None
        } else {
            let k = find_char_spec(s, vstart, ' ');
            if !(vstart <= k < s.len()) {
                None
            } else {
                let sp1 = run_of(s, k, space_pred());
                if !run_end(s, k, space_pred(), sp1) || sp1 <= k {
                    None
                } else {
                    let d = run_of(s, sp1, digit_pred());
                    if !run_end(s, sp1, digit_pred(), d) || d <= sp1 {
                        None
                    } else {
                        let sp2 = run_of(s, d, space_pred());
                        if !run_end(s, d, space_pred(), sp2) || sp2 <= d {
                            None
                        } else if !has_crlf(s, sp2) {
                            None
                        } else {
                            let q = crlf_from(s, sp2);
                            if sp2 <= q && q + 2 <= s.len() {
                                Some(
                                    (
                                        q + 2,
                                        (
                                            s.subrange(vstart, k),
                                            s.subrange(sp1, d),
                                            s.subrange(sp2, q),
                                        ),
                                    ),
                                )
                            } else {
                                None
                            }
                        }
                    }
                }
            }
        }
    }
}

/// Parses a whole response head: the status line, the header block,
/// and the blank line that ends it.
pub open spec fn parse_response_spec(s: Seq<char>) -> Option<
    (int, (Seq<char>, Seq<char>, Seq<char>, Seq<(Seq<char>, Seq<char>)>)),
> {
    match parse_response_first_line(s) {
        None => None,
        Some((e1, rfl)) => if 0 <= e1 <= s.len() {
            let ph = parse_headers_spec(s, e1);
            if ph.0 + 2 <= s.len() && s[ph.0] == '\r' && s[ph.0 + 1] == '\n' {
                Some((ph.0 + 2, (rfl.0, rfl.1, rfl.2, ph.1)))
            } else {
                None
            }
        } else {
            None
        },
    }
}

/// Parses the status line at the front of `input`. Returns the rest
/// of the input and the version, status digits and reason phrase.
pub fn response_first_line(input: &str) -> (r: Option<(String, (String, String, String))>)
    ensures
        match r {
            Some((rest, rfl)) => parse_response_first_line(input@) matches Some((e, f)) && f == (
                rfl.0@,
                rfl.1@,
                rfl.2@,
            ) && rest@ == input@.skip(e),
            None => parse_response_first_line(input@) is None,
        },
{
    let v = chars_of(input);
    match response_first_line_at(input, &v) {
        None => None,
        Some((e, ver, st, ph)) => {
            let rest = input.substring_char(e, v.len()).to_owned();
            Some((rest, (ver, st, ph)))
        },
    }
}

/// Parses the status line over the shared character vector.
fn response_first_line_at(input: &str, v: &Vec<char>) -> (r: Option<
    (usize, String, String, String),
>)
    requires
        v@ == input@,
    ensures
        match r {
            Some((e, ver, st, ph)) => parse_response_first_line(input@) == Some(
                (e as int, (ver@, st@, ph@)),
            ) && e <= input@.len(),
            None => parse_response_first_line(input@) is None,
        },
{
    let len = v.len();
    let vstart = match match_prefix(input, v, 0, "HTTP/") {
        None => {
            return None;
        },
        Some(e) => e,
    };
    proof {
        reveal_strlit("HTTP/");
    }
    let k = match find_char(v, vstart, ' ') {
        None => {
            proof {
                if has_char(input@, vstart as int, ' ') {
                    let w = find_char_spec(input@, vstart as int, ' ');
                    assert(found_at(input@, vstart as int, ' ', w));
                }
            }
            return None;
        },
        Some(k) => {
            proof {
                lemma_found_unique(input@, vstart as int, ' ', k as int);
            }
            k
        },
    };
    let sp1 = scan_while(v, k, is_space_char_exec, Ghost(space_pred()));
    proof {
        assert(is_space_char(input@[k as int]));
        assert(sp1 > k);
    }
    let d = scan_while(v, sp1, crate::http::headers::is_dec_digit_char, Ghost(digit_pred()));
    if d == sp1 {
        return None;
    }
    let sp2 = scan_while(v, d, is_space_char_exec, Ghost(space_pred()));
    if sp2 == d {
        return None;
    }
    let q = match find_crlf(v, sp2) {
        None => {
            proof {
                if has_crlf(input@, sp2 as int) {
                    let w = crlf_from(input@, sp2 as int);
                    assert(crlf_at(input@, sp2 as int, w));
                }
            }
            return None;
        },
        Some(q) => {
            proof {
                lemma_crlf_unique(input@, sp2 as int, q as int);
            }
            q
        },
    };
    let ver = input.substring_char(vstart, k).to_owned();
    let st = input.substring_char(sp1, d).to_owned();
    let ph = input.substring_char(sp2, q).to_owned();
    Some((q + 2, ver, st, ph))
}

/// Parses a whole response head at the front of `input`: the status
/// line, the headers, and the blank line. Returns the rest of the
/// input and the response. A status that does not fit sixteen bits is
/// refused.
pub fn response(input: &str) -> (r: Option<(String, Response)>)
    ensures
        match r {
            Some((rest, resp)) => parse_response_spec(input@) matches Some((e, f))
                && f.0 == resp.http_version@ && dec_value(f.1) == resp.status as nat
                && f.2 == resp.status_phrase@ && f.3 == resp.headers@ && rest@ == input@.skip(e),
            None => parse_response_spec(input@) is None || (parse_response_spec(input@) matches
                Some((e, f)) && dec_value(f.1) > u16::MAX),
        },
{
    let v = chars_of(input);
    let len = v.len();
    let (e1, ver, st, ph) = match response_first_line_at(input, &v) {
        None => {
            return None;
        },
        Some(x) => x,
    };
    let (e2, hs) = headers_at(input, &v, e1);
    if len - e2 < 2 {
        return None;
    }
    if !(v[e2] == '\r' && v[e2 + 1] == '\n') {
        return None;
    }
    let status = match crate::http::headers::parse_dec_u64(st.as_str()) {
        None => {
            proof {
                lemma_all_digits_dec_parse(st@);
            }
            return None;
        },
        Some(sv) => {
            proof {
                lemma_all_digits_dec_parse(st@);
            }
            if sv > 65535 {
                return None;
            }
            sv as u16
        },
    };
    let rest = input.substring_char(e2 + 2, len).to_owned();
    Some((rest, Response::new(ver.as_str(), status, ph.as_str(), hs)))
}

/// True iff `c` is an ASCII hexadecimal digit.
pub open spec fn is_hex_char(c: char) -> bool {
    ('0' <= c <= '9') || ('a' <= c <= 'f') || ('A' <= c <= 'F')
}

/// The value of one hexadecimal digit character.
pub open spec fn hex_char_val(c: char) -> nat {
    if '0' <= c <= '9' {
        (c as nat - 48) as nat
    } else if 'a' <= c <= 'f' {
        (c as nat - 87) as nat
    } else if 'A' <= c <= 'F' {
        (c as nat - 55) as nat
    } else {
        0
    }
}

/// The value of a string of hexadecimal digit characters.
pub open spec fn hexc_value(s: Seq<char>) -> nat
    decreases s.len(),
{
    if s.len() == 0 {
        0
    } else {
        hexc_value(s.drop_last()) * 16 + hex_char_val(s.last())
    }
}

/// The hexadecimal-digit predicate, as one shared value.
pub open spec fn hex_pred() -> spec_fn(char) -> bool {
    |c: char| is_hex_char(c)
}

/// True iff `c` may stand in a bracketed IPv6 host.
pub open spec fn is_ipv6_char(c: char) -> bool {
    is_hex_char(c) || c == ':'
}

/// The IPv6-host predicate, as one shared value.
pub open spec fn ipv6_pred() -> spec_fn(char) -> bool {
    |c: char| is_ipv6_char(c)
}

/// The anything-but-colon predicate, as one shared value.
pub open spec fn not_colon_pred() -> spec_fn(char) -> bool {
    |c: char| c != ':'
}

/// The anything-but-colon-or-slash predicate, as one shared value.
pub open spec fn not_colon_slash_pred() -> spec_fn(char) -> bool {
    |c: char| c != ':' && c != '/'
}

/// The anything-but-space predicate, as one shared value.
pub open spec fn not_space_pred() -> spec_fn(char) -> bool {
    |c: char| c != ' '
}

/// Tests whether `c` is a hexadecimal digit.
pub fn is_hex_char_exec(c: char) -> (b: bool)
    ensures
        b == is_hex_char(c),
{
    ('0' <= c && c <= '9') || ('a' <= c && c <= 'f') || ('A' <= c && c <= 'F')
}

/// Tests whether `c` may stand in a bracketed IPv6 host.
pub fn is_ipv6_char_exec(c: char) -> (b: bool)
    ensures
        b == is_ipv6_char(c),
{
    is_hex_char_exec(c) || c == ':'
}

/// Tests whether `c` is anything but a colon.
pub fn not_colon_exec(c: char) -> (b: bool)
    ensures
        b == (c != ':'),
{
    c != ':'
}

/// Tests whether `c` is anything but a colon or a slash.
pub fn not_colon_slash_exec(c: char) -> (b: bool)
    ensures
        b == (c != ':' && c != '/'),
{
    c != ':' && c != '/'
}

/// Where the host part ends, starting at `d`: a bracketed IPv6 host
/// when one stands there whole, else a non-empty run of characters
/// other than `:` and `/`.
pub open spec fn domain_end(s: Seq<char>, d: int) -> Option<int> {
    let bracketed = ({
        if 0 <= d < s.len() && s[d] == '[' {
            let e = run_of(s, d + 1, ipv6_pred());
            if run_end(s, d + 1, ipv6_pred(), e) && e > d + 1 && e < s.len() && s[e] == ']' {
                Some(e + 1)
            } else {
                None
            }
        } else {
            None
        }
    });
    match bracketed {
        Some(e) => Some(e),
        None => {
            let e = run_of(s, d, not_colon_slash_pred());
            if 0 <= d <= s.len() && run_end(s, d, not_colon_slash_pred(), e) && e > d {
                Some(e)
            } else {
                None
            }
        },
    }
}

/// Parses an absolute URL, consuming the whole input: a scheme,
/// `://`, a host, an optional `:` and optional port digits, and a
/// non-empty path free of spaces. Yields the scheme, host, port
/// digits (possibly empty) and path.
pub open spec fn parse_url_spec(s: Seq<char>) -> Option<
    (Seq<char>, Seq<char>, Seq<char>, Seq<char>),
> {
    let a = run_of(s, 0, not_colon_pred());
    if !run_end(s, 0, not_colon_pred(), a) || a < 1 {
        None
    } else if !prefix_at(s, a, "://"@) {
        None
    } else {
        let d = a + "://"@.len();
        match domain_end(s, d) {
            None => None,
            Some(de) => {
                let p0 = if de < s.len() && s[de] == ':' {
                    de + 1
                } else {
                    de
                };
                let dd = run_of(s, p0, digit_pred());
                if !(0 <= p0 <= s.len()) || !run_end(s, p0, digit_pred(), dd) {
                    None
                } else if dd < s.len() && run_end(s, dd, not_space_pred(), s.len() as int) {
                    Some(
                        (
                            s.subrange(0, a),
                            s.subrange(d, de),
                            s.subrange(p0, dd),
                            s.subrange(dd, s.len() as int),
                        ),
                    )
                } else {
                    None
                }
            },
        }
    }
}

/// The port a URL names: its digits' value, or 80 when it names none.
pub open spec fn url_port(digits: Seq<char>) -> nat {
    if digits.len() == 0 {
        80
    } else {
        dec_value(digits)
    }
}

/// Parses `input` as an absolute URL, consuming all of it. A port
/// that does not fit sixteen bits is refused.
pub fn url(input: &str) -> (r: Option<(String, Url)>)
    ensures
        match r {
            Some((rest, u)) => parse_url_spec(input@) matches Some(f) && f.0 == u.protocol@
                && f.1 == u.host@ && f.3 == u.path@ && url_port(f.2) == u.port as nat && rest@
                == Seq::<char>::empty(),
            None => parse_url_spec(input@) is None || (parse_url_spec(input@) matches Some(f)
                && url_port(f.2) > u16::MAX),
        },
{
    let v = chars_of(input);
    let len = v.len();
    let a = scan_while(&v, 0, not_colon_exec, Ghost(not_colon_pred()));
    if a < 1 {
        return None;
    }
    let d = match match_prefix(input, &v, a, "://") {
        None => {
            return None;
        },
        Some(e) => e,
    };
    let de = match domain_end_exec(input, &v, d) {
        None => {
            return None;
        },
        Some(de) => de,
    };
    let p0 = if de < len && v[de] == ':' {
        de + 1
    } else {
        de
    };
    let dd = scan_while(&v, p0, crate::http::headers::is_dec_digit_char, Ghost(digit_pred()));
    if !(dd < len) {
        return None;
    }
    let pe = scan_while(&v, dd, not_space_exec, Ghost(not_space_pred()));
    if pe != len {
        proof {
            assert(!run_end(input@, dd as int, not_space_pred(), len as int)) by {
                if run_end(input@, dd as int, not_space_pred(), len as int) {
                    lemma_run_unique(input@, dd as int, not_space_pred(), len as int);
                }
            }
        }
        return None;
    }
    let port: u16 = if dd == p0 {
        80
    } else {
        let ds = input.substring_char(p0, dd);
        proof {
            lemma_all_digits_dec_parse(ds@);
        }
        match crate::http::headers::parse_dec_u64(ds) {
            None => {
                return None;
            },
            Some(pv) => {
                if pv > 65535 {
                    return None;
                }
                pv as u16
            },
        }
    };
    let protocol = input.substring_char(0, a).to_owned();
    let host = input.substring_char(d, de).to_owned();
    let path = input.substring_char(dd, len).to_owned();
    let rest = String::new();
    Some((rest, Url { protocol, host, port, path }))
}

/// Tests whether `c` is anything but a space.
pub fn not_space_exec(c: char) -> (b: bool)
    ensures
        b == (c != ' '),
{
    c != ' '
}

/// Finds where the host part ends, as `domain_end` describes.
fn domain_end_exec(input: &str, v: &Vec<char>, d: usize) -> (r: Option<usize>)
    requires
        v@ == input@,
        d <= v@.len(),
    ensures
        match r {
            Some(de) => domain_end(input@, d as int) == Some(de as int) && d <= de <= v@.len(),
            None => domain_end(input@, d as int) is None,
        },
{
    let len = v.len();
    if d < len && v[d] == '[' {
        let e = scan_while(v, d + 1, is_ipv6_char_exec, Ghost(ipv6_pred()));
        if e > d + 1 && e < len && v[e] == ']' {
            return Some(e + 1);
        }
    }
    let e = scan_while(v, d, not_colon_slash_exec, Ghost(not_colon_slash_pred()));
    if e > d {
        Some(e)
    } else {
        None
    }
}

/// Parses a chunk-size line, consuming the whole input: a non-empty
/// run of hexadecimal digits, optionally followed by `;` and a
/// non-empty extension free of CR and LF. Yields the digits and the
/// extension, `;` included.
pub open spec fn parse_chunk_line_spec(s: Seq<char>) -> Option<(Seq<char>, Seq<char>)> {
    let h = run_of(s, 0, hex_pred());
    if !run_end(s, 0, hex_pred(), h) || h < 1 {
        None
    } else if h == s.len() {
        Some((s.take(h), Seq::empty()))
    } else if s[h] == ';' && h + 1 < s.len() && (forall|k: int|
        h < k < s.len() ==> s[k] != '\r' && s[k] != '\n') {
        Some((s.take(h), s.subrange(h, s.len() as int)))
    } else {
        None
    }
}

/// Parses `input` as a chunk-size line, consuming all of it. Returns
/// the size and the extension, `;` included, or empty. A size that
/// does not fit 64 bits is refused.
pub fn chunk_line(input: &str) -> (r: Option<(String, (u64, String))>)
    ensures
        match r {
            Some((rest, (size, ext))) => parse_chunk_line_spec(input@) matches Some(f)
                && hexc_value(f.0) == size as nat && f.1 == ext@ && rest@ == Seq::<char>::empty(),
            None => parse_chunk_line_spec(input@) is None || (parse_chunk_line_spec(input@)
                matches Some(f) && hexc_value(f.0) > u64::MAX),
        },
{
    let v = chars_of(input);
    let len = v.len();
    let h = scan_while(&v, 0, is_hex_char_exec, Ghost(hex_pred()));
    if h < 1 {
        return None;
    }
    let ext: String = if h == len {
        String::new()
    } else {
        if !(v[h] == ';') {
            return None;
        }
        if h + 1 >= len {
            return None;
        }
        let mut k = h + 1;
        while k < len
            invariant
                h < k <= len,
                len == input@.len(),
                v@ == input@,
                forall|m: int| h < m < k ==> input@[m] != '\r' && input@[m] != '\n',
            decreases len - k,
        {
            if v[k] == '\r' || v[k] == '\n' {
                return None;
            }
            k = k + 1;
        }
        input.substring_char(h, len).to_owned()
    };
    let ghost digits = input@.take(h as int);
    proof {
        assert(parse_chunk_line_spec(input@) matches Some(f) && f.0 == digits && f.1 == ext@);
    }
    let mut i: usize = 0;
    let mut acc: u64 = 0;
    while i < h
        invariant
            i <= h <= input@.len(),
            v@ == input@,
            digits == input@.take(h as int),
            parse_chunk_line_spec(input@) matches Some(f) && f.0 == digits && f.1 == ext@,
            forall|j: int| 0 <= j < h ==> is_hex_char(#[trigger] input@[j]),
            acc == hexc_value(digits.take(i as int)),
            hexc_value(digits.take(i as int)) <= u64::MAX,
        decreases h - i,
    {
        let c = v[i];
        let cv = c as u32;
        let d: u64 = if c <= '9' {
            (cv - 48) as u64
        } else if c >= 'a' {
            (cv - 87) as u64
        } else {
            (cv - 55) as u64
        };
        proof {
            assert(digits[i as int] == input@[i as int]);
            assert(digits.take(i + 1).drop_last() =~= digits.take(i as int));
            assert(digits.take(i + 1).last() == digits[i as int]);
            assert(hexc_value(digits.take(i + 1)) == hexc_value(digits.take(i as int)) * 16
                + hex_char_val(digits[i as int]));
            assert(d == hex_char_val(input@[i as int]));
        }
        if acc > 0xfff_ffff_ffff_ffffu64 {
            proof {
                assert(hexc_value(digits.take(i + 1)) > u64::MAX);
                lemma_hexc_prefix_le(digits, i + 1);
            }
            return None;
        }
        acc = acc * 16 + d;
        i = i + 1;
    }
    proof {
        assert(digits.take(h as int) =~= digits);
    }
    let rest = String::new();
    Some((rest, (acc, ext)))
}

/// The value of a hexadecimal string is at least the value of any of
/// its prefixes.
pub proof fn lemma_hexc_prefix_le(s: Seq<char>, i: int)
    requires
        0 <= i <= s.len(),
    ensures
        hexc_value(s.take(i)) <= hexc_value(s),
    decreases s.len() - i,
{
    if i == s.len() {
        assert(s.take(i) =~= s);
    } else {
        assert(s.take(i + 1).drop_last() =~= s.take(i));
        assert(s.take(i + 1).last() == s[i]);
        assert(hexc_value(s.take(i + 1)) == hexc_value(s.take(i)) * 16 + hex_char_val(s[i]));
        assert(hexc_value(s.take(i)) * 16 >= hexc_value(s.take(i)));
        lemma_hexc_prefix_le(s, i + 1);
    }
}

/// A non-empty all-digit string parses as its decimal value, or fails
/// only by being too large.
pub proof fn lemma_all_digits_dec_parse(s: Seq<char>)
    requires
        s.len() >= 1,
        forall|i: int| 0 <= i < s.len() ==> is_dec_digit(#[trigger] s[i]),
    ensures
        crate::http::headers::dec_parse(s, u64::MAX as nat) == (if dec_value(s) <= u64::MAX {
            Some(dec_value(s))
        } else {
            None::<nat>
        }),
{
    assert(s[0] != '+');
    assert(crate::http::headers::dec_body(s) == s);
}

} // verus!
