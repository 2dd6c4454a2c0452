//! Character-level scanning helpers shared by the HTTP parsers.
//!
//! Parsing positions are computed over a `Vec<char>` copy of the
//! input, so that indexing is cheap; the extracted pieces are cut out
//! of the backing string by character indices.
use vstd::prelude::*;

verus! {

/// Compares two strings character by character.
pub fn str_eq(a: &str, b: &str) -> (r: bool)
    ensures
        r == (a@ == b@),
{
    let la = a.unicode_len();
    let lb = b.unicode_len();
    if la != lb {
        proof {
            if a@ == b@ {
                assert(a@.len() == b@.len());
            }
        }
        return false;
    }
    let mut i: usize = 0;
    while i < la
        invariant
            i <= la,
            la == a@.len(),
            lb == b@.len(),
            la == lb,
            forall|j: int| 0 <= j < i ==> a@[j] == b@[j],
        decreases la - i,
    {
        if a.get_char(i) != b.get_char(i) {
            proof {
                if a@ == b@ {
                    assert(a@[i as int] == b@[i as int]);
                }
            }
            return false;
        }
        i = i + 1;
    }
    proof {
        assert(a@ =~= b@);
    }
    true
}

/// The characters of `s`, as an indexable vector.
pub fn chars_of(s: &str) -> (r: Vec<char>)
    ensures
        r@ == s@,
{
    let n = s.unicode_len();
    let mut v: Vec<char> = Vec::new();
    let mut i: usize = 0;
    while i < n
        invariant
            i <= n,
            n == s@.len(),
            v@ == s@.take(i as int),
        decreases n - i,
    {
        v.push(s.get_char(i));
        proof {
            assert(s@.take(i + 1 as int) =~= s@.take(i as int).push(s@[i as int]));
        }
        i = i + 1;
    }
    proof {
        assert(s@.take(n as int) =~= s@);
    }
    v
}

/// True iff `j` is where the run of characters satisfying `p`,
/// starting at `i`, ends.
pub open spec fn run_end(s: Seq<char>, i: int, p: spec_fn(char) -> bool, j: int) -> bool {
    i <= j <= s.len() && (forall|k: int| i <= k < j ==> p(#[trigger] s[k])) && (j < s.len()
        ==> !p(s[j]))
}

/// Where the run of characters satisfying `p`, starting at `i`, ends.
pub open spec fn run_of(s: Seq<char>, i: int, p: spec_fn(char) -> bool) -> int {
    choose|j: int| run_end(s, i, p, j)
}

/// The end of a run is unique, so `run_of` returns it.
pub proof fn lemma_run_unique(s: Seq<char>, i: int, p: spec_fn(char) -> bool, k: int)
    requires
        run_end(s, i, p, k),
    ensures
        run_of(s, i, p) == k,
{
    let j = run_of(s, i, p);
    assert(run_end(s, i, p, j));
    if j < k {
        assert(p(s[j]));
    }
    if j > k {
        assert(p(s[k]));
    }
}

/// True iff `j` is the first position at or after `i` holding `c`.
pub open spec fn found_at(s: Seq<char>, i: int, c: char, j: int) -> bool {
    i <= j < s.len() && s[j] == c && (forall|k: int| i <= k < j ==> #[trigger] s[k] != c)
}

/// True iff `c` occurs at or after `i`.
pub open spec fn has_char(s: Seq<char>, i: int, c: char) -> bool {
    exists|j: int| found_at(s, i, c, j)
}

/// The first position at or after `i` holding `c`.
pub open spec fn find_char_spec(s: Seq<char>, i: int, c: char) -> int {
    choose|j: int| found_at(s, i, c, j)
}

/// The first occurrence is unique, so `find_char_spec` returns it.
pub proof fn lemma_found_unique(s: Seq<char>, i: int, c: char, k: int)
    requires
        found_at(s, i, c, k),
    ensures
        has_char(s, i, c),
        find_char_spec(s, i, c) == k,
{
    let j = find_char_spec(s, i, c);
    assert(found_at(s, i, c, j));
    if j < k {
        assert(s[j] != c);
    }
    if j > k {
        assert(s[k] != c);
    }
}

/// Finds the first occurrence of `c` in `v` at or after `i`.
pub fn find_char(v: &Vec<char>, i: usize, c: char) -> (r: Option<usize>)
    requires
        i <= v@.len(),
    ensures
        match r {
            Some(j) => found_at(v@, i as int, c, j as int),
            None => !has_char(v@, i as int, c),
        },
{
    let len = v.len();
    let mut j = i;
    while j < len
        invariant
            i <= j <= len,
            len == v@.len(),
            forall|k: int| i <= k < j ==> #[trigger] v@[k] != c,
        decreases len - j,
    {
        if v[j] == c {
            return Some(j);
        }
        j = j + 1;
    }
    proof {
        if has_char(v@, i as int, c) {
            let w = find_char_spec(v@, i as int, c);
            assert(found_at(v@, i as int, c, w));
        }
    }
    None
}

/// True iff `j` is the first position at or after `i` where CR LF starts.
pub open spec fn crlf_at(s: Seq<char>, i: int, j: int) -> bool {
    i <= j && j + 2 <= s.len() && s[j] == '\r' && s[j + 1] == '\n' && (forall|k: int|
        i <= k < j ==> !(#[trigger] s[k] == '\r' && s[k + 1] == '\n'))
}

/// True iff CR LF occurs at or after `i`.
pub open spec fn has_crlf(s: Seq<char>, i: int) -> bool {
    exists|j: int| crlf_at(s, i, j)
}

/// The first position at or after `i` where CR LF starts.
pub open spec fn crlf_from(s: Seq<char>, i: int) -> int {
    choose|j: int| crlf_at(s, i, j)
}

/// The first CR LF is unique, so `crlf_from` returns it.
pub proof fn lemma_crlf_unique(s: Seq<char>, i: int, k: int)
    requires
        crlf_at(s, i, k),
    ensures
        has_crlf(s, i),
        crlf_from(s, i) == k,
{
    let j = crlf_from(s, i);
    assert(crlf_at(s, i, j));
    if j < k {
        assert(!(s[j] == '\r' && s[j + 1] == '\n'));
    }
    if j > k {
        assert(!(s[k] == '\r' && s[k + 1] == '\n'));
    }
}

/// Finds the first CR LF pair in `v` at or after `i`.
pub fn find_crlf(v: &Vec<char>, i: usize) -> (r: Option<usize>)
    requires
        i <= v@.len(),
    ensures
        match r {
            Some(j) => crlf_at(v@, i as int, j as int),
            None => !has_crlf(v@, i as int),
        },
{
    let len = v.len();
    if len < 2 {
        proof {
            if has_crlf(v@, i as int) {
                let w = crlf_from(v@, i as int);
                assert(crlf_at(v@, i as int, w));
            }
        }
        return None;
    }
    let mut j = i;
    while j < len - 1
        invariant
            i <= j,
            j <= len,
            len == v@.len(),
            len >= 2,
            forall|k: int| i <= k < j ==> !(#[trigger] v@[k] == '\r' && v@[k + 1] == '\n'),
        decreases len - j,
    {
        if v[j] == '\r' && v[j + 1] == '\n' {
            return Some(j);
        }
        j = j + 1;
    }
    proof {
        if has_crlf(v@, i as int) {
            let w = crlf_from(v@, i as int);
            assert(crlf_at(v@, i as int, w));
        }
    }
    None
}

} // verus!
