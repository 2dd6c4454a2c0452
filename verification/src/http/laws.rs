//! Round-trip laws: what the parsers give back on serialized values.
use vstd::prelude::*;
use crate::http::headers::{serialize_header_line, serialize_headers, colon_space, crlf_chars};
use crate::http::parser::{
    is_fold_char, is_token_char, parse_header_line, parse_headers_spec, parse_request_first_line,
    parse_request_spec, token_pred, space_pred, match_method, prefix_at, value_end,
};
use crate::http::request::serialize_request_spec;
use crate::http::text::{
    crlf_at, found_at, lemma_crlf_unique, lemma_found_unique, lemma_run_unique, run_end, run_of,
};

verus! {

/// True iff `c` is printable ASCII: space through tilde.
pub open spec fn is_printable_char(c: char) -> bool {
    32 <= (c as int) <= 126
}

/// A header pair whose serialization parses back to itself: the name
/// a non-empty token, the value printable ASCII with no folded CR LF.
pub open spec fn wf_header_pair(h: (Seq<char>, Seq<char>)) -> bool {
    &&& h.0.len() >= 1
    &&& forall|i: int| 0 <= i < h.0.len() ==> is_token_char(#[trigger] h.0[i])
    &&& forall|i: int| 0 <= i < h.1.len() ==> is_printable_char(#[trigger] h.1[i])
}

/// A header block of well-formed pairs.
pub open spec fn wf_headers(hs: Seq<(Seq<char>, Seq<char>)>) -> bool {
    forall|i: int| 0 <= i < hs.len() ==> wf_header_pair(#[trigger] hs[i])
}

/// One serialized header line, followed by anything that does not
/// start with a fold character, parses back to its pair.
proof fn lemma_header_line_round(s: Seq<char>, i: int, h: (Seq<char>, Seq<char>), rest: Seq<char>)
    requires
        0 <= i <= s.len(),
        s.skip(i) == serialize_header_line(h) + rest,
        wf_header_pair(h),
        rest.len() == 0 || !is_fold_char(rest[0]),
    ensures
        parse_header_line(s, i) == Some(
            (i + h.0.len() + 2 + h.1.len() + 2, (h.0, h.1)),
        ),
{
    let n0 = h.0.len() as int;
    let n1 = h.1.len() as int;
    let tail = s.skip(i);
    assert(tail.len() == n0 + 2 + n1 + 2 + rest.len());
    assert(s.len() == i + tail.len());
    assert forall|k: int| 0 <= k < tail.len() implies s[i + k] == tail[k] by {
    }
    assert forall|k: int| 0 <= k < n0 implies tail[k] == h.0[k] by {
        assert(serialize_header_line(h)[k] == h.0[k]);
    }
    assert(tail[n0] == ':' && tail[n0 + 1] == ' ') by {
        assert(serialize_header_line(h)[n0] == colon_space()[0]);
        assert(serialize_header_line(h)[n0 + 1] == colon_space()[1]);
    }
    assert forall|k: int| 0 <= k < n1 implies tail[n0 + 2 + k] == h.1[k] by {
        assert(serialize_header_line(h)[n0 + 2 + k] == h.1[k]);
    }
    assert(tail[n0 + 2 + n1] == '\r' && tail[n0 + 2 + n1 + 1] == '\n') by {
        assert(serialize_header_line(h)[n0 + 2 + n1] == crlf_chars()[0]);
        assert(serialize_header_line(h)[n0 + 2 + n1 + 1] == crlf_chars()[1]);
    }
    // the token run ends exactly at the colon
    let j = i + n0;
    assert(run_end(s, i, token_pred(), j)) by {
        assert forall|k: int| i <= k < j implies token_pred()(s[k]) by {
            assert(s[k] == tail[k - i]);
            assert(tail[k - i] == h.0[k - i]);
        }
        assert(s[j] == ':');
        assert(!token_pred()(s[j]));
    }
    lemma_run_unique(s, i, token_pred(), j);
    assert(s[j] == ':' && s[j + 1] == ' ');
    // the value ends at its own terminator
    let q = j + 2 + n1;
    assert(crlf_at(s, j + 2, q)) by {
        assert(s[q] == '\r' && s[q + 1] == '\n');
        assert forall|k: int| j + 2 <= k < q implies !(#[trigger] s[k] == '\r' && s[k + 1]
            == '\n') by {
            assert(s[k] == tail[k - i]);
            assert(tail[k - i] == h.1[k - i - n0 - 2]);
            assert(is_printable_char(h.1[k - i - n0 - 2]));
        }
    }
    lemma_crlf_unique(s, j + 2, q);
    // no fold: after the terminator stands the rest, which cannot fold
    if q + 2 < s.len() {
        assert(s[q + 2] == tail[q + 2 - i]);
        assert(tail[n0 + 2 + n1 + 2] == rest[0]);
        assert(!is_fold_char(s[q + 2]));
    }
    assert(value_end(s, j + 2) == Some(q));
    assert(s.subrange(i, j) =~= h.0);
    assert(s.subrange(j + 2, q) =~= h.1);
}

/// A serialized header block, followed by anything that starts with
/// neither a token character nor a fold character, parses back to its
/// pairs exactly.
proof fn lemma_headers_round_at(
    s: Seq<char>,
    i: int,
    hs: Seq<(Seq<char>, Seq<char>)>,
    rest: Seq<char>,
)
    requires
        0 <= i <= s.len(),
        s.skip(i) == serialize_headers(hs) + rest,
        wf_headers(hs),
        rest.len() == 0 || (!is_token_char(rest[0]) && !is_fold_char(rest[0])),
    ensures
        parse_headers_spec(s, i) == (i + serialize_headers(hs).len(), hs),
    decreases hs.len(),
{
    if hs.len() == 0 {
        assert(serialize_headers(hs) =~= Seq::<char>::empty());
        assert(s.skip(i) =~= rest);
        let j = run_of(s, i, token_pred());
        assert(run_end(s, i, token_pred(), i)) by {
            if i < s.len() {
                assert(s[i] == rest[0]);
            }
        }
        lemma_run_unique(s, i, token_pred(), i);
        assert(parse_header_line(s, i) is None);
    } else {
        let h = hs[0];
        let hs1 = hs.drop_first();
        let line = serialize_header_line(h);
        let rest1 = serialize_headers(hs1) + rest;
        assert(serialize_headers(hs) == line + serialize_headers(hs1));
        assert(s.skip(i) =~= line + rest1) by {
            assert(s.skip(i) =~= (line + serialize_headers(hs1)) + rest);
        }
        assert(rest1.len() == 0 || !is_fold_char(rest1[0])) by {
            if rest1.len() > 0 {
                if serialize_headers(hs1).len() > 0 {
                    assert(hs1.len() > 0);
                    assert(wf_header_pair(hs1[0]));
                    assert(serialize_headers(hs1)[0] == serialize_header_line(hs1[0])[0]);
                    assert(serialize_header_line(hs1[0])[0] == hs1[0].0[0]);
                    assert(rest1[0] == hs1[0].0[0]);
                    assert(is_token_char(rest1[0]));
                } else {
                    assert(rest1 =~= rest);
                }
            }
        }
        lemma_header_line_round(s, i, h, rest1);
        let e = i + h.0.len() + 2 + h.1.len() + 2;
        assert(i < e <= s.len()) by {
            assert(s.skip(i).len() == line.len() + rest1.len());
        }
        assert(s.skip(e) =~= serialize_headers(hs1) + rest) by {
            assert forall|k: int| 0 <= k < s.len() - e implies s.skip(e)[k] == (
                serialize_headers(hs1) + rest
            )[k] by {
                assert(s.skip(e)[k] == s.skip(i)[k + line.len()]);
            }
        }
        lemma_headers_round_at(s, e, hs1, rest);
        assert(seq![h] + hs1 =~= hs);
        assert(serialize_headers(hs).len() == line.len() + serialize_headers(hs1).len());
    }
}

/// Parsing a serialized header block gives back exactly the pairs
/// that were serialized, consuming the whole block.
pub proof fn lemma_headers_round_trip(hs: Seq<(Seq<char>, Seq<char>)>)
    requires
        wf_headers(hs),
    ensures
        parse_headers_spec(serialize_headers(hs), 0) == (
            serialize_headers(hs).len() as int,
            hs,
        ),
{
    let s = serialize_headers(hs);
    assert(s.skip(0) =~= s + Seq::<char>::empty());
    lemma_headers_round_at(s, 0, hs, Seq::<char>::empty());
}

/// True iff `m` is one of the nine registered methods.
pub open spec fn is_method(m: Seq<char>) -> bool {
    m == "GET"@ || m == "HEAD"@ || m == "POST"@ || m == "PUT"@ || m == "DELETE"@ || m
        == "TRACE"@ || m == "OPTIONS"@ || m == "CONNECT"@ || m == "PATCH"@
}

/// A request-URI whose serialization parses back: non-empty printable
/// ASCII without spaces.
pub open spec fn wf_url_str(u: Seq<char>) -> bool {
    u.len() >= 1 && forall|i: int| 0 <= i < u.len() ==> 33 <= (#[trigger] u[i]) as int <= 126
}

/// A version string whose serialization parses back: printable ASCII.
pub open spec fn wf_version(v: Seq<char>) -> bool {
    forall|i: int| 0 <= i < v.len() ==> is_printable_char(#[trigger] v[i])
}

/// A request whose serialization parses back to itself.
pub open spec fn wf_request_parts(
    m: Seq<char>,
    u: Seq<char>,
    ver: Seq<char>,
    hs: Seq<(Seq<char>, Seq<char>)>,
) -> bool {
    is_method(m) && wf_url_str(u) && wf_version(ver) && wf_headers(hs)
}

/// Parsing a serialized request head gives back exactly the method,
/// request-URI, version and headers that were serialized, consuming
/// the whole head.
#[verifier::rlimit(100)]
pub proof fn lemma_request_round_trip(
    m: Seq<char>,
    u: Seq<char>,
    ver: Seq<char>,
    hs: Seq<(Seq<char>, Seq<char>)>,
)
    requires
        wf_request_parts(m, u, ver, hs),
    ensures
        parse_request_spec(serialize_request_spec(m, u, ver, hs)) == Some(
            (serialize_request_spec(m, u, ver, hs).len() as int, (m, u, ver, hs)),
        ),
{
    reveal_strlit("GET");
    reveal_strlit("HEAD");
    reveal_strlit("POST");
    reveal_strlit("PUT");
    reveal_strlit("DELETE");
    reveal_strlit("TRACE");
    reveal_strlit("OPTIONS");
    reveal_strlit("CONNECT");
    reveal_strlit("PATCH");
    reveal_strlit(" ");
    reveal_strlit("HTTP/");
    let s = serialize_request_spec(m, u, ver, hs);
    let lm = m.len() as int;
    let lu = u.len() as int;
    let lv = ver.len() as int;
    let hdr = serialize_headers(hs);
    let pu = lm + 1;
    let pv = pu + lu + 1 + 5;
    let ph = pv + lv + 2;
    let pe = ph + hdr.len() as int;
    assert(" "@.len() == 1);
    assert("HTTP/"@.len() == 5);
    assert(s.len() == pe + 2);
    assert forall|k: int| 0 <= k < lm implies s[k] == m[k] by {
    }
    assert(s[lm] == ' ');
    assert forall|k: int| 0 <= k < lu implies s[pu + k] == u[k] by {
    }
    assert(s[pu + lu] == ' ');
    assert(s[pu + lu + 1] == 'H');
    assert forall|k: int| 0 <= k < 5 implies s[pu + lu + 1 + k] == "HTTP/"@[k] by {
    }
    assert forall|k: int| 0 <= k < lv implies s[pv + k] == ver[k] by {
    }
    assert(s[pv + lv] == '\r' && s[pv + lv + 1] == '\n');
    assert forall|k: int| 0 <= k < hdr.len() implies s[ph + k] == hdr[k] by {
    }
    assert(s[pe] == '\r' && s[pe + 1] == '\n');
    // the method matches, and no earlier tag in the chain does
    assert(s.subrange(0, lm) =~= m);
    assert(prefix_at(s, 0, m));
    assert(match_method(s) == Some(lm)) by {
        assert(is_method(m));
        if prefix_at(s, 0, "GET"@) && m != "GET"@ {
            assert(s.subrange(0, 3)[0] == 'G' && s.subrange(0, 3)[1] == 'E' && s.subrange(
                0,
                3,
            )[2] == 'T');
        }
        if prefix_at(s, 0, "HEAD"@) && m != "HEAD"@ {
            assert(s.subrange(0, 4)[0] == 'H' && s.subrange(0, 4)[1] == 'E');
        }
        if prefix_at(s, 0, "POST"@) && m != "POST"@ {
            assert(s.subrange(0, 4)[0] == 'P' && s.subrange(0, 4)[1] == 'O' && s.subrange(
                0,
                4,
            )[2] == 'S');
        }
        if prefix_at(s, 0, "PUT"@) && m != "PUT"@ {
            assert(s.subrange(0, 3)[0] == 'P' && s.subrange(0, 3)[1] == 'U');
        }
        if prefix_at(s, 0, "DELETE"@) && m != "DELETE"@ {
            assert(s.subrange(0, 6)[0] == 'D');
        }
        if prefix_at(s, 0, "TRACE"@) && m != "TRACE"@ {
            assert(s.subrange(0, 5)[0] == 'T');
        }
        if prefix_at(s, 0, "OPTIONS"@) && m != "OPTIONS"@ {
            assert(s.subrange(0, 7)[0] == 'O');
        }
        if prefix_at(s, 0, "CONNECT"@) && m != "CONNECT"@ {
            assert(s.subrange(0, 7)[0] == 'C');
        }
    }
    // one space, then the URI up to the next space
    assert(run_end(s, lm, space_pred(), lm + 1)) by {
        assert(s[lm + 1] == u[0]);
    }
    lemma_run_unique(s, lm, space_pred(), lm + 1);
    assert(found_at(s, pu, ' ', pu + lu)) by {
        assert forall|k: int| pu <= k < pu + lu implies #[trigger] s[k] != ' ' by {
            assert(s[k] == u[k - pu]);
        }
    }
    lemma_found_unique(s, pu, ' ', pu + lu);
    // one space, then the version tag
    assert(run_end(s, pu + lu, space_pred(), pu + lu + 1)) by {
        assert(s[pu + lu + 1] == 'H');
    }
    lemma_run_unique(s, pu + lu, space_pred(), pu + lu + 1);
    assert(s.subrange(pu + lu + 1, pu + lu + 6) =~= "HTTP/"@);
    assert(prefix_at(s, pu + lu + 1, "HTTP/"@));
    // the version runs to its terminator
    assert(crlf_at(s, pv, pv + lv)) by {
        assert forall|k: int| pv <= k < pv + lv implies !(#[trigger] s[k] == '\r' && s[k + 1]
            == '\n') by {
            assert(s[k] == ver[k - pv]);
            assert(is_printable_char(ver[k - pv]));
        }
    }
    lemma_crlf_unique(s, pv, pv + lv);
    assert(parse_request_first_line(s) == Some((ph, (m, u, ver)))) by {
        assert(s.subrange(pu, pu + lu) =~= u);
        assert(s.subrange(pv, pv + lv) =~= ver);
    }
    // the headers, then the final blank line
    assert(s.skip(ph) =~= hdr + seq!['\r', '\n']);
    assert(seq!['\r', '\n'].len() == 2 && seq!['\r', '\n'][0] == '\r');
    assert(!is_token_char('\r') && !is_fold_char('\r'));
    lemma_headers_round_at(s, ph, hs, seq!['\r', '\n']);
    assert(parse_headers_spec(s, ph) == (pe, hs));
}

} // verus!
