//! Parsing of comma-separated header value lists and of `k=v` pairs.
//!
//! A list item may be double-quoted, and a quoted item may contain
//! commas and backslash-escaped quotes; commas inside quotes do not
//! split. Items are trimmed of surrounding whitespace.
use vstd::prelude::*;
use crate::http::text::{chars_of, find_char, found_at, has_char, find_char_spec};

verus! {

/// True iff `c` is linear whitespace: space, tab, CR or LF.
pub open spec fn is_lws(c: char) -> bool {
    c == ' ' || c == '\t' || c == '\r' || c == '\n'
}

/// `p` without its leading whitespace.
pub open spec fn trim_start(p: Seq<char>) -> Seq<char>
    decreases p.len(),
{
    if p.len() > 0 && is_lws(p[0]) {
        trim_start(p.drop_first())
    } else {
        p
    }
}

/// `p` without its trailing whitespace.
pub open spec fn trim_end(p: Seq<char>) -> Seq<char>
    decreases p.len(),
{
    if p.len() > 0 && is_lws(p.last()) {
        trim_end(p.drop_last())
    } else {
        p
    }
}

/// `p` without its surrounding whitespace.
pub open spec fn trim(p: Seq<char>) -> Seq<char> {
    trim_end(trim_start(p))
}

/// The position of the next comma of `s` at or after `i` that stands
/// outside double quotes, scanning with quote state `inq` and
/// backslash-escape state `esc`.
pub open spec fn next_comma(s: Seq<char>, i: int, inq: bool, esc: bool) -> Option<int>
    decreases s.len() - i,
{
    if i < 0 || i >= s.len() {
        None
    } else if inq {
        if esc {
            next_comma(s, i + 1, true, false)
        } else if s[i] == '\\' {
            next_comma(s, i + 1, true, true)
        } else if s[i] == '"' {
            next_comma(s, i + 1, false, false)
        } else {
            next_comma(s, i + 1, true, false)
        }
    } else {
        if s[i] == ',' {
            Some(i)
        } else if s[i] == '"' {
            next_comma(s, i + 1, true, false)
        } else {
            next_comma(s, i + 1, false, false)
        }
    }
}

/// Splits `s` from `i` on at commas outside quotes, untrimmed.
pub open spec fn split_items_from(s: Seq<char>, i: int) -> Seq<Seq<char>>
    decreases s.len() - i,
{
    match next_comma(s, i, false, false) {
        Some(j) => if i <= j < s.len() {
            seq![s.subrange(i, j)] + split_items_from(s, j + 1)
        } else {
            seq![s.subrange(i, s.len() as int)]
        },
        None => seq![s.subrange(i, s.len() as int)],
    }
}

/// The value list of `s`: split at commas outside quotes, each item
/// trimmed of surrounding whitespace.
pub open spec fn value_list_spec(s: Seq<char>) -> Seq<Seq<char>> {
    split_items_from(s, 0).map_values(|p: Seq<char>| trim(p))
}

/// A comma found by `next_comma` lies in bounds and is a comma.
pub proof fn lemma_next_comma_bounds(s: Seq<char>, i: int, inq: bool, esc: bool)
    requires
        0 <= i <= s.len(),
    ensures
        match next_comma(s, i, inq, esc) {
            Some(j) => i <= j < s.len() && s[j] == ',',
            None => true,
        },
    decreases s.len() - i,
{
    if i < s.len() {
        lemma_next_comma_bounds(s, i + 1, true, false);
        lemma_next_comma_bounds(s, i + 1, true, true);
        lemma_next_comma_bounds(s, i + 1, false, false);
    }
}

/// Tests whether `c` is linear whitespace.
pub fn is_lws_char(c: char) -> (r: bool)
    ensures
        r == is_lws(c),
{
    c == ' ' || c == '\t' || c == '\r' || c == '\n'
}

/// Cuts `input[from..to]` out of `input` and trims it.
fn trim_cut(input: &str, v: &Vec<char>, from: usize, to: usize) -> (r: String)
    requires
        v@ == input@,
        from <= to <= input@.len(),
    ensures
        r@ == trim(input@.subrange(from as int, to as int)),
{
    let ghost piece = input@.subrange(from as int, to as int);
    let mut a = from;
    while a < to && is_lws_char(v[a])
        invariant
            from <= a <= to <= input@.len(),
            v@ == input@,
            trim_start(piece) == trim_start(input@.subrange(a as int, to as int)),
        decreases to - a,
    {
        proof {
            assert(input@.subrange(a as int, to as int).drop_first() =~= input@.subrange(
                a + 1,
                to as int,
            ));
        }
        a = a + 1;
    }
    proof {
        assert(trim_start(input@.subrange(a as int, to as int)) == input@.subrange(
            a as int,
            to as int,
        ));
    }
    let mut b = to;
    while b > a && is_lws_char(v[b - 1])
        invariant
            a <= b <= to <= input@.len(),
            v@ == input@,
            trim_end(input@.subrange(a as int, to as int)) == trim_end(
                input@.subrange(a as int, b as int),
            ),
        decreases b,
    {
        proof {
            assert(input@.subrange(a as int, b as int).drop_last() =~= input@.subrange(
                a as int,
                b - 1,
            ));
        }
        b = b - 1;
    }
    proof {
        assert(trim_end(input@.subrange(a as int, b as int)) == input@.subrange(
            a as int,
            b as int,
        ));
    }
    input.substring_char(a, b).to_owned()
}

/// Finds the next comma outside quotes, as `next_comma` describes.
fn find_comma(input: &str, v: &Vec<char>, start: usize) -> (r: Option<usize>)
    requires
        v@ == input@,
        start <= input@.len(),
    ensures
        match r {
            Some(j) => next_comma(input@, start as int, false, false) == Some(j as int) && start
                <= j < input@.len(),
            None => next_comma(input@, start as int, false, false) is None,
        },
{
    let len = v.len();
    let mut i = start;
    let mut inq = false;
    let mut esc = false;
    while i < len
        invariant
            start <= i <= len,
            len == input@.len(),
            v@ == input@,
            next_comma(input@, start as int, false, false) == next_comma(
                input@,
                i as int,
                inq,
                esc,
            ),
            esc ==> inq,
        decreases len - i,
    {
        let c = v[i];
        if inq {
            if esc {
                esc = false;
            } else if c == '\\' {
                esc = true;
            } else if c == '"' {
                inq = false;
            }
        } else {
            if c == ',' {
                return Some(i);
            } else if c == '"' {
                inq = true;
            }
        }
        i = i + 1;
    }
    None
}

/// Splits `input` at commas outside double quotes and trims each item
/// of surrounding whitespace. Always yields at least one item; an
/// input without commas yields itself, trimmed.
pub fn value_list(input: &str) -> (r: Vec<String>)
    ensures
        r.deep_view() == value_list_spec(input@),
{
    let v = chars_of(input);
    let len = v.len();
    let mut items: Vec<String> = Vec::new();
    let mut start: usize = 0;
    let mut more = true;
    while more
        invariant
            start <= len,
            len == input@.len(),
            v@ == input@,
            more ==> split_items_from(input@, 0).map_values(|p: Seq<char>| trim(p))
                =~= items.deep_view() + split_items_from(input@, start as int).map_values(
                |p: Seq<char>| trim(p),
            ),
            !more ==> items.deep_view() =~= split_items_from(input@, 0).map_values(
                |p: Seq<char>| trim(p),
            ),
        decreases len - start + 1, (if more {
            1int
        } else {
            0int
        }),
    {
        match find_comma(input, &v, start) {
            Some(j) => {
                let item = trim_cut(input, &v, start, j);
                let ghost pre = items.deep_view();
                items.push(item);
                proof {
                    let f = |p: Seq<char>| trim(p);
                    assert(split_items_from(input@, start as int) == seq![
                        input@.subrange(start as int, j as int),
                    ] + split_items_from(input@, j + 1));
                    assert(split_items_from(input@, start as int).map_values(f) =~= seq![
                        trim(input@.subrange(start as int, j as int)),
                    ] + split_items_from(input@, j + 1).map_values(f));
                    assert(items.deep_view() =~= pre.push(item@));
                }
                start = j + 1;
            },
            None => {
                let item = trim_cut(input, &v, start, len);
                let ghost pre = items.deep_view();
                items.push(item);
                proof {
                    let f = |p: Seq<char>| trim(p);
                    assert(split_items_from(input@, start as int) == seq![
                        input@.subrange(start as int, len as int),
                    ]);
                    assert(split_items_from(input@, start as int).map_values(f) =~= seq![
                        trim(input@.subrange(start as int, len as int)),
                    ]);
                    assert(items.deep_view() =~= pre.push(item@));
                }
                more = false;
            },
        }
    }
    items
}

/// True iff `c` may stand in an unquoted list item.
pub open spec fn is_lit_char(c: char) -> bool {
    c != ' ' && c != '"' && c != ','
}

/// Where a double-quoted item that opened before `i` closes: the
/// position after the closing quote, honouring backslash escapes of
/// `"` and `\`. Nothing when the quote never closes or an escape is
/// broken.
pub open spec fn quoted_from(s: Seq<char>, i: int) -> Option<int>
    decreases s.len() - i,
{
    if i < 0 || i >= s.len() {
        None
    } else if s[i] == '"' {
        Some(i + 1)
    } else if s[i] == '\\' {
        if i + 1 < s.len() && (s[i + 1] == '"' || s[i + 1] == '\\') {
            quoted_from(s, i + 2)
        } else {
            None
        }
    } else {
        quoted_from(s, i + 1)
    }
}

/// How many characters one list item takes at the front of `s`: a
/// non-empty run of unquoted item characters, or a whole double-quoted
/// item, quotes included.
pub open spec fn literal_spec(s: Seq<char>) -> Option<int> {
    if s.len() == 0 {
        None
    } else if s[0] == '"' {
        quoted_from(s, 1)
    } else {
        let n = crate::http::text::run_of(s, 0, |c: char| is_lit_char(c));
        if crate::http::text::run_end(s, 0, |c: char| is_lit_char(c), n) && n >= 1 {
            Some(n)
        } else {
            None
        }
    }
}

/// A close found by `quoted_from` lies in bounds.
pub proof fn lemma_quoted_from_bounds(s: Seq<char>, i: int)
    requires
        0 <= i <= s.len(),
    ensures
        match quoted_from(s, i) {
            Some(j) => i < j <= s.len(),
            None => true,
        },
    decreases s.len() - i,
{
    if i < s.len() {
        lemma_quoted_from_bounds(s, i + 1);
        if i + 2 <= s.len() {
            lemma_quoted_from_bounds(s, i + 2);
        }
    }
}

/// Parses one list item at the front of `input`: a run of unquoted
/// item characters, or a whole double-quoted item with backslash
/// escapes, quotes included. Returns the rest and the matched part.
pub fn literal(input: &str) -> (r: Option<(String, String)>)
    ensures
        match r {
            Some((rest, m)) => ({
                &&& literal_spec(input@) == Some(m@.len() as int)
                &&& m@ == input@.take(m@.len() as int)
                &&& rest@ == input@.skip(m@.len() as int)
            }),
            None => literal_spec(input@) is None,
        },
{
    let v = chars_of(input);
    let len = v.len();
    if len == 0 {
        return None;
    }
    if v[0] == '"' {
        let mut i: usize = 1;
        while i < len
            invariant
                1 <= i <= len,
                len == input@.len(),
                v@ == input@,
                input@[0] == '"',
                quoted_from(input@, 1) == quoted_from(input@, i as int),
            decreases len - i,
        {
            let c = v[i];
            if c == '"' {
                proof {
                    assert(input@[i as int] == '"');
                    assert(quoted_from(input@, i as int) == Some(i + 1 as int));
                    assert(input@.subrange(0, i + 1) =~= input@.take(i + 1));
                    assert(input@.subrange(i + 1, len as int) =~= input@.skip(i + 1));
                }
                let m = input.substring_char(0, i + 1).to_owned();
                let rest = input.substring_char(i + 1, len).to_owned();
                return Some((rest, m));
            } else if c == '\\' {
                if i + 1 < len && (v[i + 1] == '"' || v[i + 1] == '\\') {
                    i = i + 2;
                } else {
                    proof {
                        assert(input@[i as int] == '\\');
                        assert(!(i + 1 < input@.len() && (input@[i + 1] == '"' || input@[i + 1]
                            == '\\')));
                        assert(quoted_from(input@, i as int) is None);
                    }
                    return None;
                }
            } else {
                i = i + 1;
            }
        }
        None
    } else {
        let ghost p = |c: char| is_lit_char(c);
        let mut j: usize = 0;
        while j < len && v[j] != ' ' && v[j] != '"' && v[j] != ','
            invariant
                j <= len,
                len == input@.len(),
                v@ == input@,
                forall|k: int| 0 <= k < j ==> is_lit_char(#[trigger] input@[k]),
            decreases len - j,
        {
            j = j + 1;
        }
        proof {
            assert(crate::http::text::run_end(input@, 0, p, j as int));
            crate::http::text::lemma_run_unique(input@, 0, p, j as int);
        }
        if j == 0 {
            proof {
                assert(!is_lit_char(input@[0]));
            }
            return None;
        }
        let m = input.substring_char(0, j).to_owned();
        let rest = input.substring_char(j, len).to_owned();
        Some((rest, m))
    }
}

/// One `k=v` item: the key is everything before the first `=`, which
/// must not be empty, and the value is everything after it.
pub open spec fn kv_item_spec(item: Seq<char>) -> Option<(Seq<char>, Seq<char>)> {
    if has_char(item, 0, '=') && find_char_spec(item, 0, '=') >= 1 {
        let j = find_char_spec(item, 0, '=');
        Some((item.take(j), item.skip(j + 1)))
    } else {
        None
    }
}

/// Every item of the list parsed as `k=v`, in order; nothing when any
/// item does not parse.
pub open spec fn kv_list_spec(items: Seq<Seq<char>>) -> Option<Seq<(Seq<char>, Seq<char>)>>
    decreases items.len(),
{
    if items.len() == 0 {
        Some(Seq::empty())
    } else {
        match kv_item_spec(items[0]) {
            None => None,
            Some(p) => match kv_list_spec(items.drop_first()) {
                None => None,
                Some(r) => Some(seq![p] + r),
            },
        }
    }
}

/// The `k=v` pairs of a comma-separated list: nothing when any item
/// is not of that shape.
pub open spec fn kv_spec(s: Seq<char>) -> Option<Seq<(Seq<char>, Seq<char>)>> {
    kv_list_spec(value_list_spec(s))
}

/// The value paired with `key`, later pairs winning over earlier ones.
pub open spec fn assoc_last(pairs: Seq<(Seq<char>, Seq<char>)>, key: Seq<char>) -> Option<
    Seq<char>,
>
    decreases pairs.len(),
{
    if pairs.len() == 0 {
        None
    } else if pairs.last().0 == key {
        Some(pairs.last().1)
    } else {
        assoc_last(pairs.drop_last(), key)
    }
}

/// Parses `input` as a comma-separated list of `k=v` items. Yields the
/// pairs in list order, or nothing when an item has no `=` or an empty
/// key. A key repeated later in the list overrides an earlier one.
pub fn kv(input: &str) -> (r: Option<Vec<(String, String)>>)
    ensures
        match r {
            Some(pairs) => kv_spec(input@) == Some(pairs.deep_view()),
            None => kv_spec(input@) is None,
        },
{
    let items = value_list(input);
    let ghost items_dv = items.deep_view();
    let n = items.len();
    let mut out: Vec<(String, String)> = Vec::new();
    let mut i: usize = 0;
    proof {
        assert(items_dv.skip(0) =~= items_dv);
    }
    while i < n
        invariant
            i <= n,
            n == items@.len(),
            items.deep_view() == items_dv,
            items_dv == value_list_spec(input@),
            items_dv.len() == n,
            match kv_list_spec(items_dv.skip(i as int)) {
                Some(r) => kv_list_spec(items_dv) == Some(out.deep_view() + r),
                None => kv_list_spec(items_dv) is None,
            },
        decreases n - i,
    {
        let item = &items[i];
        let cv = chars_of(item.as_str());
        proof {
            assert(items_dv[i as int] == items@[i as int]@);
            assert(items_dv.skip(i as int)[0] == items_dv[i as int]);
            assert(items_dv.skip(i as int).drop_first() =~= items_dv.skip(i + 1));
        }
        match find_char(&cv, 0, '=') {
            None => {
                return None;
            },
            Some(j) => {
                if j == 0 {
                    proof {
                        crate::http::text::lemma_found_unique(item@, 0, '=', j as int);
                    }
                    return None;
                }
                proof {
                    crate::http::text::lemma_found_unique(item@, 0, '=', j as int);
                }
                let ilen = item.unicode_len();
                proof {
                    assert(j < item@.len());
                }
                let key = item.substring_char(0, j).to_owned();
                let value = item.substring_char(j + 1, ilen).to_owned();
                let ghost pre = out.deep_view();
                out.push((key, value));
                proof {
                    assert(out.deep_view() =~= pre.push((key@, value@)));
                    assert((key@, value@) == kv_item_spec(items_dv[i as int]).unwrap());
                    assert(pre.push((key@, value@)) + kv_list_spec(
                        items_dv.skip(i + 1),
                    ).unwrap_or(Seq::empty()) =~= pre + (seq![(key@, value@)] + kv_list_spec(
                        items_dv.skip(i + 1),
                    ).unwrap_or(Seq::empty())));
                }
                i = i + 1;
            },
        }
    }
    proof {
        assert(items_dv.skip(n as int) =~= Seq::<Seq<char>>::empty());
        assert(out.deep_view() + Seq::<(Seq<char>, Seq<char>)>::empty() =~= out.deep_view());
    }
    Some(out)
}

/// Looks up `key` among parsed pairs, later pairs winning.
pub fn assoc_lookup(pairs: &Vec<(String, String)>, key: &str) -> (r: Option<String>)
    ensures
        match r {
            Some(v) => assoc_last(pairs.deep_view(), key@) == Some(v@),
            None => assoc_last(pairs.deep_view(), key@) is None,
        },
{
    let ghost dv = pairs.deep_view();
    let n = pairs.len();
    let mut i: usize = n;
    proof {
        assert(dv.take(n as int) =~= dv);
    }
    while i > 0
        invariant
            i <= n,
            n == pairs@.len(),
            pairs.deep_view() == dv,
            dv.len() == n,
            assoc_last(dv, key@) == assoc_last(dv.take(i as int), key@),
        decreases i,
    {
        i = i - 1;
        proof {
            assert(dv.take(i + 1).last() == dv[i as int]);
            assert(dv.take(i + 1).drop_last() =~= dv.take(i as int));
            assert(dv[i as int] == (pairs@[i as int].0@, pairs@[i as int].1@));
        }
        if crate::http::text::str_eq(pairs[i].0.as_str(), key) {
            return Some(pairs[i].1.clone());
        }
    }
    proof {
        assert(dv.take(0) =~= Seq::<(Seq<char>, Seq<char>)>::empty());
    }
    None
}

} // verus!
