//! The header model: an ordered sequence of name/value pairs that
//! preserves insertion order and repeated names, with the semantic
//! operations the proxy's policies rest on.
use vstd::prelude::*;
use crate::http::text::str_eq;

verus! {

/// The characters `: ` between a serialized name and its value.
pub open spec fn colon_space() -> Seq<char> {
    seq![':', ' ']
}

/// The characters CR LF.
pub open spec fn crlf_chars() -> Seq<char> {
    seq!['\r', '\n']
}

/// The characters `, ` joining repeated header values.
pub open spec fn comma_space() -> Seq<char> {
    seq![',', ' ']
}

/// One serialized header line: `name: value CR LF`.
pub open spec fn serialize_header_line(h: (Seq<char>, Seq<char>)) -> Seq<char> {
    h.0 + colon_space() + h.1 + crlf_chars()
}

/// A serialized header block: every pair in insertion order.
pub open spec fn serialize_headers(hs: Seq<(Seq<char>, Seq<char>)>) -> Seq<char>
    decreases hs.len(),
{
    if hs.len() == 0 {
        Seq::empty()
    } else {
        serialize_header_line(hs[0]) + serialize_headers(hs.drop_first())
    }
}

/// The values of every pair whose name equals `key`, in insertion order.
pub open spec fn matching_values(hs: Seq<(Seq<char>, Seq<char>)>, key: Seq<char>) -> Seq<
    Seq<char>,
>
    decreases hs.len(),
{
    if hs.len() == 0 {
        Seq::empty()
    } else {
        let prev = matching_values(hs.drop_last(), key);
        if hs.last().0 == key {
            prev.push(hs.last().1)
        } else {
            prev
        }
    }
}

/// The comma-joined concatenation of `vals`, in order.
pub open spec fn join_comma(vals: Seq<Seq<char>>) -> Seq<char>
    decreases vals.len(),
{
    if vals.len() == 0 {
        Seq::empty()
    } else if vals.len() == 1 {
        vals[0]
    } else {
        join_comma(vals.drop_last()) + comma_space() + vals.last()
    }
}

/// The combined value for `key`: the comma-joined values of every
/// matching pair, or nothing when no pair matches.
pub open spec fn combined_spec(hs: Seq<(Seq<char>, Seq<char>)>, key: Seq<char>) -> Option<
    Seq<char>,
> {
    let vals = matching_values(hs, key);
    if vals.len() == 0 {
        None
    } else {
        Some(join_comma(vals))
    }
}

/// An ordered sequence of header name/value pairs. Insertion order and
/// repeated names are preserved.
#[derive(Debug, Clone)]
pub struct Headers {
    headers: Vec<(String, String)>,
}

impl View for Headers {
    type V = Seq<(Seq<char>, Seq<char>)>;

    closed spec fn view(&self) -> Seq<(Seq<char>, Seq<char>)> {
        self.headers.deep_view()
    }
}

impl Headers {
    /// An empty header block.
    pub fn new() -> (r: Headers)
        ensures
            r@ =~= Seq::<(Seq<char>, Seq<char>)>::empty(),
    {
        Headers { headers: Vec::new() }
    }

    /// The number of pairs held.
    pub fn len(&self) -> (r: usize)
        ensures
            r == self@.len(),
    {
        self.headers.len()
    }

    /// The pair at `i`, copied out.
    pub fn pair_at(&self, i: usize) -> (r: (String, String))
        requires
            i < self@.len(),
        ensures
            (r.0@, r.1@) == self@[i as int],
    {
        let p = &self.headers[i];
        (p.0.clone(), p.1.clone())
    }

    /// A copy of the block, pair for pair.
    pub fn duplicate(&self) -> (r: Headers)
        ensures
            r@ =~= self@,
    {
        let n = self.headers.len();
        let mut out = Headers::new();
        let mut i: usize = 0;
        while i < n
            invariant
                i <= n,
                n == self@.len(),
                out@ =~= self@.take(i as int),
            decreases n - i,
        {
            let p = self.pair_at(i);
            out.insert_header(p.0.as_str(), p.1.as_str());
            proof {
                assert(self@.take(i + 1) =~= self@.take(i as int).push(self@[i as int]));
            }
            i = i + 1;
        }
        proof {
            assert(self@.take(n as int) =~= self@);
        }
        out
    }

    /// Appends the pair `(key, value)`, preserving everything already held.
    pub fn insert_header(&mut self, key: &str, value: &str)
        ensures
            final(self)@ =~= old(self)@.push((key@, value@)),
    {
        self.headers.push((key.to_owned(), value.to_owned()));
        proof {
            assert(final(self).headers@.len() == old(self).headers@.len() + 1);
        }
    }

    /// Serializes the block: each pair as `name: value CR LF`, in
    /// insertion order.
    pub fn to_string(&self) -> (r: String)
        ensures
            r@ == serialize_headers(self@),
    {
        let ghost hs = self@;
        let n = self.headers.len();
        let mut out = String::new();
        let mut i: usize = 0;
        proof {
            assert(hs.skip(0) =~= hs);
        }
        while i < n
            invariant
                i <= n,
                n == self.headers@.len(),
                hs == self@,
                hs.len() == n,
                out@ + serialize_headers(hs.skip(i as int)) == serialize_headers(hs),
            decreases n - i,
        {
            let name = &self.headers[i].0;
            let value = &self.headers[i].1;
            let ghost out0 = out@;
            proof {
                reveal_strlit(": ");
                reveal_strlit("\r\n");
                assert(": "@ =~= colon_space());
                assert("\r\n"@ =~= crlf_chars());
                assert(hs.skip(i as int)[0] == hs[i as int]);
                assert(hs.skip(i as int).drop_first() =~= hs.skip(i + 1));
                assert(hs[i as int] == (name@, value@));
            }
            out.append(name.as_str());
            out.append(": ");
            out.append(value.as_str());
            out.append("\r\n");
            proof {
                assert(out@ =~= out0 + serialize_header_line(hs[i as int]));
                assert(serialize_headers(hs.skip(i as int)) == serialize_header_line(
                    hs[i as int],
                ) + serialize_headers(hs.skip(i + 1)));
                assert(out@ + serialize_headers(hs.skip(i + 1)) =~= out0 + serialize_headers(
                    hs.skip(i as int),
                ));
            }
            i = i + 1;
        }
        proof {
            assert(hs.skip(n as int) =~= Seq::<(Seq<char>, Seq<char>)>::empty());
            assert(out@ + Seq::<char>::empty() =~= out@);
        }
        out
    }

    /// The comma-joined concatenation of the values of every pair whose
    /// name equals `key`, or nothing when no pair matches.
    pub fn combined_value(&self, key: &str) -> (r: Option<String>)
        ensures
            match r {
                Some(s) => combined_spec(self@, key@) == Some(s@),
                None => combined_spec(self@, key@) is None,
            },
    {
        let ghost hs = self@;
        let n = self.headers.len();
        let mut found = false;
        let mut acc = String::new();
        let mut i: usize = 0;
        while i < n
            invariant
                i <= n,
                n == self.headers@.len(),
                hs == self@,
                hs.len() == n,
                found == (matching_values(hs.take(i as int), key@).len() > 0),
                found ==> acc@ == join_comma(matching_values(hs.take(i as int), key@)),
                !found ==> acc@ == Seq::<char>::empty(),
            decreases n - i,
        {
            let name = &self.headers[i].0;
            let value = &self.headers[i].1;
            proof {
                assert(hs[i as int] == (name@, value@));
                assert(hs.take(i + 1).drop_last() =~= hs.take(i as int));
                assert(hs.take(i + 1).last() == hs[i as int]);
            }
            if str_eq(name.as_str(), key) {
                let ghost prev = matching_values(hs.take(i as int), key@);
                if found {
                    proof {
                        reveal_strlit(", ");
                        assert(", "@ =~= comma_space());
                    }
                    acc.append(", ");
                    acc.append(value.as_str());
                    proof {
                        let vals = matching_values(hs.take(i + 1), key@);
                        assert(vals =~= prev.push(value@));
                        assert(vals.drop_last() =~= prev);
                        assert(vals.last() == value@);
                    }
                } else {
                    acc.append(value.as_str());
                    proof {
                        let vals = matching_values(hs.take(i + 1), key@);
                        assert(vals =~= prev.push(value@));
                        assert(vals.len() == 1);
                        assert(vals[0] == value@);
                    }
                }
                found = true;
            } else {
                proof {
                    assert(matching_values(hs.take(i + 1), key@) =~= matching_values(
                        hs.take(i as int),
                        key@,
                    ));
                }
            }
            i = i + 1;
        }
        proof {
            assert(hs.take(n as int) =~= hs);
        }
        if found {
            Some(acc)
        } else {
            None
        }
    }
}

/// True iff `c` is an ASCII decimal digit.
pub open spec fn is_dec_digit(c: char) -> bool {
    '0' <= c <= '9'
}

/// The value of one ASCII decimal digit.
pub open spec fn dec_digit_val(c: char) -> nat {
    if '0' <= c <= '9' {
        (c as nat - 48) as nat
    } else {
        0
    }
}

/// The value of a string of decimal digits, most significant first.
pub open spec fn dec_value(s: Seq<char>) -> nat
    decreases s.len(),
{
    if s.len() == 0 {
        0
    } else {
        dec_value(s.drop_last()) * 10 + dec_digit_val(s.last())
    }
}

/// The digits of a decimal number string: everything after an
/// optional leading `+`.
pub open spec fn dec_body(s: Seq<char>) -> Seq<char> {
    if s.len() >= 1 && s[0] == '+' {
        s.drop_first()
    } else {
        s
    }
}

/// What parsing `s` as a non-negative integer yields: an optional
/// leading `+`, then one or more decimal digits, the whole string
/// consumed; the value must fit `bound`.
pub open spec fn dec_parse(s: Seq<char>, bound: nat) -> Option<nat> {
    let body = dec_body(s);
    if body.len() >= 1 && (forall|i: int| 0 <= i < body.len() ==> is_dec_digit(#[trigger] body[i]))
        && dec_value(body) <= bound {
        Some(dec_value(body))
    } else {
        None
    }
}

/// Tests whether `c` is an ASCII decimal digit.
pub fn is_dec_digit_char(c: char) -> (r: bool)
    ensures
        r == is_dec_digit(c),
{
    '0' <= c && c <= '9'
}

/// Parses `s` as a non-negative 128-bit integer: an optional leading
/// `+`, then decimal digits, consuming the whole string.
pub fn parse_dec_u128(s: &str) -> (r: Option<u128>)
    ensures
        match r {
            Some(v) => dec_parse(s@, u128::MAX as nat) == Some(v as nat),
            None => dec_parse(s@, u128::MAX as nat) is None,
        },
{
    let v = crate::http::text::chars_of(s);
    let len = v.len();
    let start: usize = if len >= 1 && v[0] == '+' {
        1
    } else {
        0
    };
    let ghost body = dec_body(s@);
    proof {
        assert(body =~= s@.subrange(start as int, len as int));
    }
    if len == start {
        proof {
            assert(body.len() == 0);
            assert(dec_parse(s@, u128::MAX as nat) is None);
        }
        return None;
    }
    let mut i = start;
    let mut acc: u128 = 0;
    let mut ovf = false;
    while i < len
        invariant
            start <= i <= len,
            len == s@.len(),
            v@ == s@,
            body == s@.subrange(start as int, len as int),
            body == dec_body(s@),
            forall|j: int| 0 <= j < i - start ==> is_dec_digit(#[trigger] body[j]),
            !ovf ==> acc == dec_value(body.take(i - start)),
            ovf ==> dec_value(body.take(i - start)) > u128::MAX,
        decreases len - i,
    {
        let c = v[i];
        if !is_dec_digit_char(c) {
            proof {
                assert(body[i - start] == s@[i as int]);
                assert(!is_dec_digit(body[i - start]));
                assert(0 <= i - start < body.len());
                assert(!is_dec_digit(dec_body(s@)[i - start]));
                assert(dec_parse(s@, u128::MAX as nat) is None);
            }
            return None;
        }
        let d: u128 = (c as u8 - 48) as u128;
        proof {
            assert(body[i - start] == s@[i as int]);
            assert(body.take(i - start + 1).drop_last() =~= body.take(i - start));
            assert(body.take(i - start + 1).last() == body[i - start]);
            assert(dec_value(body.take(i - start + 1)) == dec_value(body.take(i - start)) * 10
                + dec_digit_val(body[i - start]));
            assert(d == dec_digit_val(body[i - start]));
        }
        if ovf || acc > 34028236692093846346337460743176821145u128 || (acc
            == 34028236692093846346337460743176821145u128 && d > 5) {
            proof {
                if !ovf {
                    assert(dec_value(body.take(i - start)) * 10 + dec_digit_val(body[i - start])
                        > u128::MAX);
                }
            }
            ovf = true;
        } else {
            acc = acc * 10 + d;
        }
        i = i + 1;
    }
    proof {
        assert(body.take(len - start) =~= body);
    }
    if ovf {
        return None;
    }
    Some(acc)
}

/// Parses `s` as a non-negative 64-bit integer: an optional leading
/// `+`, then decimal digits, consuming the whole string.
pub fn parse_dec_u64(s: &str) -> (r: Option<u64>)
    ensures
        match r {
            Some(v) => dec_parse(s@, u64::MAX as nat) == Some(v as nat),
            None => dec_parse(s@, u64::MAX as nat) is None,
        },
{
    match parse_dec_u128(s) {
        None => None,
        Some(v) => {
            if v <= u64::MAX as u128 {
                Some(v as u64)
            } else {
                None
            }
        },
    }
}

/// The combined value for `key`, or the empty string when absent.
pub open spec fn combined_or_empty(hs: Seq<(Seq<char>, Seq<char>)>, key: Seq<char>) -> Seq<
    char,
> {
    match combined_spec(hs, key) {
        Some(v) => v,
        None => Seq::empty(),
    }
}

/// True iff the `Transfer-Encoding` token list contains the token
/// `chunked`.
pub open spec fn is_chunked_spec(hs: Seq<(Seq<char>, Seq<char>)>) -> bool {
    crate::http::header_value_parser::value_list_spec(
        combined_or_empty(hs, "Transfer-Encoding"@),
    ).contains("chunked"@)
}

/// The declared `Content-Length`, when present and a well-formed
/// non-negative integer.
pub open spec fn content_length_spec(hs: Seq<(Seq<char>, Seq<char>)>) -> Option<nat> {
    dec_parse(combined_or_empty(hs, "Content-Length"@), u128::MAX as nat)
}

/// `c` lowered to lower case, when it is an ASCII capital letter.
pub open spec fn lower_char(c: char) -> char {
    if 'A' <= c <= 'Z' {
        ((c as u8) + 32) as char
    } else {
        c
    }
}

/// `s` with every ASCII capital letter lowered.
pub open spec fn ascii_lower(s: Seq<char>) -> Seq<char> {
    s.map_values(|c: char| lower_char(c))
}

/// True iff the combined `Connection` value equals `keep-alive`,
/// ASCII case-insensitively.
pub open spec fn is_keep_alive_spec(hs: Seq<(Seq<char>, Seq<char>)>) -> bool {
    ascii_lower(combined_or_empty(hs, "Connection"@)) == "keep-alive"@
}

/// The `timeout` and `max` parameters of the `Keep-Alive` value, when
/// both are present and well-formed 64-bit integers.
pub open spec fn keep_alive_spec(hs: Seq<(Seq<char>, Seq<char>)>) -> Option<(nat, nat)> {
    match crate::http::header_value_parser::kv_spec(combined_or_empty(hs, "Keep-Alive"@)) {
        None => None,
        Some(pairs) => match crate::http::header_value_parser::assoc_last(pairs, "timeout"@) {
            None => None,
            Some(t) => match crate::http::header_value_parser::assoc_last(pairs, "max"@) {
                None => None,
                Some(m) => match (
                    dec_parse(t, u64::MAX as nat),
                    dec_parse(m, u64::MAX as nat),
                ) {
                    (Some(tv), Some(mv)) => Some((tv, mv)),
                    _ => None,
                },
            },
        },
    }
}

/// The `Keep-Alive` parameters of a header block.
#[derive(Debug, Clone, PartialEq, Eq, Structural)]
pub struct KeepAlive {
    /// Seconds the peer keeps an idle connection open.
    pub timeout: u64,
    /// Requests the peer serves on one connection.
    pub max: u64,
}

/// Lowers one ASCII capital letter.
pub fn lower_char_exec(c: char) -> (r: char)
    ensures
        r == lower_char(c),
{
    if 'A' <= c && c <= 'Z' {
        ((c as u8) + 32) as char
    } else {
        c
    }
}

impl Headers {
    /// True iff the `Transfer-Encoding` token list contains the token
    /// `chunked`.
    pub fn is_chuncked(&self) -> (r: bool)
        ensures
            r == is_chunked_spec(self@),
    {
        let te = match self.combined_value("Transfer-Encoding") {
            Some(s) => s,
            None => String::new(),
        };
        let list = crate::http::header_value_parser::value_list(te.as_str());
        let ghost dv = list.deep_view();
        let n = list.len();
        let mut i: usize = 0;
        while i < n
            invariant
                i <= n,
                n == list@.len(),
                list.deep_view() == dv,
                dv == crate::http::header_value_parser::value_list_spec(te@),
                te@ == combined_or_empty(self@, "Transfer-Encoding"@),
                forall|k: int| 0 <= k < i ==> dv[k] != "chunked"@,
            decreases n - i,
        {
            proof {
                assert(dv[i as int] == list@[i as int]@);
            }
            if crate::http::text::str_eq(list[i].as_str(), "chunked") {
                proof {
                    assert(dv[i as int] == "chunked"@);
                }
                return true;
            }
            i = i + 1;
        }
        proof {
            if dv.contains("chunked"@) {
                let w = choose|k: int| 0 <= k < dv.len() && dv[k] == "chunked"@;
                assert(dv[w] == "chunked"@);
            }
        }
        false
    }

    /// The declared `Content-Length`, when present and well-formed.
    pub fn content_length(&self) -> (r: Option<u128>)
        ensures
            match r {
                Some(v) => content_length_spec(self@) == Some(v as nat),
                None => content_length_spec(self@) is None,
            },
    {
        let cl = match self.combined_value("Content-Length") {
            Some(s) => s,
            None => String::new(),
        };
        parse_dec_u128(cl.as_str())
    }

    /// True iff the combined `Connection` value equals `keep-alive`,
    /// ASCII case-insensitively.
    pub fn is_keep_alive(&self) -> (r: bool)
        ensures
            r == is_keep_alive_spec(self@),
    {
        let c = match self.combined_value("Connection") {
            Some(s) => s,
            None => String::new(),
        };
        proof {
            assert(c@ == combined_or_empty(self@, "Connection"@));
        }
        let key = "keep-alive";
        let n = c.as_str().unicode_len();
        let klen = key.unicode_len();
        if n != klen {
            proof {
                assert(ascii_lower(c@).len() == c@.len());
            }
            return false;
        }
        let mut i: usize = 0;
        while i < n
            invariant
                i <= n,
                n == c@.len(),
                n == key@.len(),
                key@ == "keep-alive"@,
                c@ == combined_or_empty(self@, "Connection"@),
                forall|j: int| 0 <= j < i ==> lower_char(c@[j]) == key@[j],
            decreases n - i,
        {
            if lower_char_exec(c.as_str().get_char(i)) != key.get_char(i) {
                proof {
                    assert(ascii_lower(c@)[i as int] == lower_char(c@[i as int]));
                }
                return false;
            }
            i = i + 1;
        }
        proof {
            assert(ascii_lower(c@) =~= key@);
        }
        true
    }

    /// The `Keep-Alive` parameters, when `timeout` and `max` are both
    /// present and well-formed.
    pub fn keep_alive_value(&self) -> (r: Option<KeepAlive>)
        ensures
            match r {
                Some(ka) => keep_alive_spec(self@) == Some((ka.timeout as nat, ka.max as nat)),
                None => keep_alive_spec(self@) is None,
            },
    {
        let kav = match self.combined_value("Keep-Alive") {
            Some(s) => s,
            None => String::new(),
        };
        let pairs = match crate::http::header_value_parser::kv(kav.as_str()) {
            Some(p) => p,
            None => {
                return None;
            },
        };
        let t = match crate::http::header_value_parser::assoc_lookup(&pairs, "timeout") {
            Some(t) => t,
            None => {
                return None;
            },
        };
        let m = match crate::http::header_value_parser::assoc_lookup(&pairs, "max") {
            Some(m) => m,
            None => {
                return None;
            },
        };
        let timeout = match parse_dec_u64(t.as_str()) {
            Some(v) => v,
            None => {
                return None;
            },
        };
        let max = match parse_dec_u64(m.as_str()) {
            Some(v) => v,
            None => {
                return None;
            },
        };
        Some(KeepAlive { timeout, max })
    }
}

} // verus!
