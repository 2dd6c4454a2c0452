//! Bounded header-block and line reading over a received byte stream.
//!
//! The network delivers bytes; these functions decide, over the bytes
//! received so far, where a header block or a line ends and whether a
//! bound was broken. The caller feeds them the stream prefix it has
//! read; they never perform I/O themselves.
use vstd::prelude::*;
use crate::http::errors::HttpError;

verus! {

/// True iff `s` ends with the bytes CR LF CR LF.
pub open spec fn ends_with_crlfcrlf(s: Seq<u8>) -> bool {
    s.len() >= 4 && s[s.len() - 4] == 13u8 && s[s.len() - 3] == 10u8 && s[s.len() - 2] == 13u8
        && s[s.len() - 1] == 10u8
}

/// True iff the prefix of `s` of length `n` is a terminated header block.
pub open spec fn header_end_at(s: Seq<u8>, n: int) -> bool {
    4 <= n <= s.len() && ends_with_crlfcrlf(s.take(n))
}

/// True iff `n` is the first point at which the header block terminates.
pub open spec fn first_header_end(s: Seq<u8>, n: int) -> bool {
    header_end_at(s, n) && forall|m: int| 4 <= m < n ==> !header_end_at(s, m)
}

/// True iff `s` ends with the bytes CR LF.
pub open spec fn ends_with_crlf(s: Seq<u8>) -> bool {
    s.len() >= 2 && s[s.len() - 2] == 13u8 && s[s.len() - 1] == 10u8
}

/// True iff the prefix of `s` of length `n` is a terminated line.
pub open spec fn line_end_at(s: Seq<u8>, n: int) -> bool {
    2 <= n <= s.len() && ends_with_crlf(s.take(n))
}

/// True iff `n` is the first point at which a line terminates.
pub open spec fn first_line_end(s: Seq<u8>, n: int) -> bool {
    line_end_at(s, n) && forall|m: int| 2 <= m < n ==> !line_end_at(s, m)
}

/// True iff some prefix of `s` is a terminated line.
pub open spec fn has_line(s: Seq<u8>) -> bool {
    exists|n: int| first_line_end(s, n)
}

/// The length, terminator included, of the first terminated line of `s`.
/// Meaningful only when `has_line(s)` holds.
pub open spec fn line_len(s: Seq<u8>) -> int {
    choose|n: int| first_line_end(s, n)
}

/// The first terminated line is unique, so `line_len` returns it.
pub proof fn lemma_first_line_unique(s: Seq<u8>, k: int)
    requires
        first_line_end(s, k),
    ensures
        has_line(s),
        line_len(s) == k,
{
    assert(has_line(s));
    let j = line_len(s);
    assert(first_line_end(s, j));
    if j < k {
        assert(!line_end_at(s, j));
    }
    if j > k {
        assert(!line_end_at(s, k));
    }
}

/// A stream with no line end within the bound fails `spec_line`'s
/// success test.
pub proof fn lemma_no_line_within_bound(s: Seq<u8>)
    requires
        forall|m: int| 2 <= m <= crate::MAX_LINE_SIZE ==> !line_end_at(s, m),
    ensures
        !(has_line(s) && line_len(s) <= crate::MAX_LINE_SIZE),
{
    if has_line(s) {
        let j = line_len(s);
        assert(first_line_end(s, j));
    }
}

/// What reading one bounded line from the stream `s` yields: the line
/// payload without its CR LF terminator and the number of bytes
/// consumed, or the error the reader reports.
pub open spec fn spec_line(s: Seq<u8>) -> Result<(Seq<u8>, int), HttpError> {
    if has_line(s) && line_len(s) <= crate::MAX_LINE_SIZE {
        Ok((s.take(line_len(s) - 2), line_len(s)))
    } else if s.len() > crate::MAX_LINE_SIZE {
        Err(HttpError::LineTooLong)
    } else {
        Err(HttpError::LineRead)
    }
}

/// Finds the end of the header block in the byte stream `stream`, read
/// one byte at a time: the length of the shortest prefix that ends with
/// CR LF CR LF. The prefix may be at most 64 KiB long. A stream that
/// delivers more than 64 KiB without terminating the block is too big;
/// one that ends first is incomplete.
pub fn read_header_bytes(stream: &Vec<u8>) -> (r: Result<usize, HttpError>)
    ensures
        match r {
            Ok(n) => n <= crate::MAX_HEADER_SIZE && first_header_end(stream@, n as int),
            Err(e) => {
                &&& forall|m: int| 4 <= m <= crate::MAX_HEADER_SIZE ==> !header_end_at(stream@, m)
                &&& (e matches HttpError::HeaderToBig || e matches HttpError::HeaderIncomplete)
                &&& (e matches HttpError::HeaderToBig <==> stream@.len() > crate::MAX_HEADER_SIZE)
            },
        },
{
    let len = stream.len();
    let mut n: usize = 0;
    while n < len
        invariant
            n <= len,
            len == stream@.len(),
            forall|m: int| 4 <= m <= n ==> !header_end_at(stream@, m),
            n <= crate::MAX_HEADER_SIZE,
            n < len ==> n < crate::MAX_HEADER_SIZE,
        decreases len - n,
    {
        n = n + 1;
        let hit = n >= 4 && stream[n - 4] == 13u8 && stream[n - 3] == 10u8 && stream[n - 2]
            == 13u8 && stream[n - 1] == 10u8;
        proof {
            if n >= 4 {
                let t = stream@.take(n as int);
                assert(t[n - 4] == stream@[n - 4]);
                assert(t[n - 3] == stream@[n - 3]);
                assert(t[n - 2] == stream@[n - 2]);
                assert(t[n - 1] == stream@[n - 1]);
            }
        }
        if hit {
            return Ok(n);
        }
        if n >= crate::MAX_HEADER_SIZE && n < len {
            return Err(HttpError::HeaderToBig);
        }
    }
    Err(HttpError::HeaderIncomplete)
}

/// Finds the end of the next line in `stream` starting at `pos`: the
/// least `n` past `pos` such that `stream[pos..n]` ends in CR LF,
/// terminator included. A line may be at most 1 KiB long, terminator
/// included. A stream that delivers more than 1 KiB past `pos` without
/// a terminator breaks the bound; one that ends first is a short read.
pub fn read_line_bytes(stream: &Vec<u8>, pos: usize) -> (r: Result<usize, HttpError>)
    requires
        pos <= stream@.len(),
    ensures
        match r {
            Ok(n) => {
                &&& pos < n <= stream@.len()
                &&& n - pos <= crate::MAX_LINE_SIZE
                &&& first_line_end(stream@.skip(pos as int), n - pos)
            },
            Err(e) => {
                &&& forall|m: int|
                    2 <= m <= crate::MAX_LINE_SIZE ==> !line_end_at(stream@.skip(pos as int), m)
                &&& (e matches HttpError::LineTooLong || e matches HttpError::LineRead)
                &&& (e matches HttpError::LineTooLong <==> stream@.len() - pos
                    > crate::MAX_LINE_SIZE)
            },
        },
{
    let len = stream.len();
    let ghost tail = stream@.skip(pos as int);
    let mut n: usize = pos;
    while n < len
        invariant
            pos <= n <= len,
            len == stream@.len(),
            tail == stream@.skip(pos as int),
            forall|m: int| 2 <= m <= n - pos ==> !line_end_at(tail, m),
            n - pos <= crate::MAX_LINE_SIZE,
            n < len ==> n - pos < crate::MAX_LINE_SIZE,
        decreases len - n,
    {
        n = n + 1;
        let hit = n - pos >= 2 && stream[n - 2] == 13u8 && stream[n - 1] == 10u8;
        proof {
            let k = n - pos;
            if k >= 2 {
                let t = tail.take(k as int);
                assert(t[k - 2] == tail[k - 2]);
                assert(t[k - 1] == tail[k - 1]);
                assert(tail[k - 2] == stream@[n - 2]);
                assert(tail[k - 1] == stream@[n - 1]);
            }
        }
        if hit {
            return Ok(n);
        }
        if n - pos >= crate::MAX_LINE_SIZE && n < len {
            return Err(HttpError::LineTooLong);
        }
    }
    Err(HttpError::LineRead)
}

/// Relies on String::from_utf8: it succeeds exactly on valid UTF-8
/// and the string then holds exactly the given bytes.
#[verifier::external_body]
fn bytes_to_utf8(v: Vec<u8>) -> (r: Option<String>)
    ensures
        match r {
            Some(s) => vstd::utf8::valid_utf8(v@) && vstd::utf8::encode_utf8(s@) == v@,
            None => !vstd::utf8::valid_utf8(v@),
        },
{
    match String::from_utf8(v) {
        Ok(s) => Some(s),
        Err(_) => None,
    }
}

/// Reads one header block from the byte stream `stream`: the shortest
/// prefix ending in CR LF CR LF, within the 64 KiB bound, decoded as
/// UTF-8, terminator included. Returns the block and how many bytes
/// it took.
pub fn read_header(stream: &Vec<u8>) -> (r: Result<(String, usize), HttpError>)
    ensures
        match r {
            Ok((s, n)) => {
                &&& n <= crate::MAX_HEADER_SIZE
                &&& first_header_end(stream@, n as int)
                &&& vstd::utf8::encode_utf8(s@) == stream@.take(n as int)
            },
            Err(e) => match e {
                HttpError::HeaderNotUtf8 => exists|n: int|
                    #![auto]
                    n <= crate::MAX_HEADER_SIZE && first_header_end(stream@, n)
                        && !vstd::utf8::valid_utf8(stream@.take(n)),
                _ => {
                    &&& forall|m: int|
                        4 <= m <= crate::MAX_HEADER_SIZE ==> !header_end_at(stream@, m)
                    &&& (e matches HttpError::HeaderToBig || e matches HttpError::HeaderIncomplete)
                    &&& (e matches HttpError::HeaderToBig <==> stream@.len()
                        > crate::MAX_HEADER_SIZE)
                },
            },
        },
{
    let n = match read_header_bytes(stream) {
        Ok(n) => n,
        Err(e) => {
            return Err(e);
        },
    };
    let mut prefix: Vec<u8> = Vec::new();
    crate::util::push_range(&mut prefix, stream, 0, n);
    proof {
        assert(prefix@ =~= stream@.take(n as int));
    }
    match bytes_to_utf8(prefix) {
        Some(s) => Ok((s, n)),
        None => Err(HttpError::HeaderNotUtf8),
    }
}

/// Reads one line from the byte stream `stream` at `pos`: up to the
/// first CR LF, within the 1 KiB bound, decoded as UTF-8, without the
/// terminator. Returns the payload and the position after the
/// terminator.
pub fn read_line(stream: &Vec<u8>, pos: usize) -> (r: Result<(String, usize), HttpError>)
    requires
        pos <= stream@.len(),
    ensures
        match r {
            Ok((s, n)) => {
                &&& pos < n <= stream@.len()
                &&& n - pos <= crate::MAX_LINE_SIZE
                &&& first_line_end(stream@.skip(pos as int), n - pos)
                &&& vstd::utf8::encode_utf8(s@) == stream@.subrange(pos as int, n - 2)
            },
            Err(e) => match e {
                HttpError::LineNotUtf8 => exists|k: int|
                    #[trigger] first_line_end(stream@.skip(pos as int), k)
                        && !vstd::utf8::valid_utf8(stream@.subrange(pos as int, pos + k - 2)),
                _ => {
                    &&& forall|m: int|
                        2 <= m <= crate::MAX_LINE_SIZE ==> !line_end_at(
                            stream@.skip(pos as int),
                            m,
                        )
                    &&& (e matches HttpError::LineTooLong || e matches HttpError::LineRead)
                    &&& (e matches HttpError::LineTooLong <==> stream@.len() - pos
                        > crate::MAX_LINE_SIZE)
                },
            },
        },
{
    let n = match read_line_bytes(stream, pos) {
        Ok(n) => n,
        Err(e) => {
            return Err(e);
        },
    };
    let mut payload: Vec<u8> = Vec::new();
    crate::util::push_range(&mut payload, stream, pos, n - 2);
    proof {
        assert(payload@ =~= stream@.subrange(pos as int, n - 2));
    }
    match bytes_to_utf8(payload) {
        Some(s) => Ok((s, n)),
        None => Err(HttpError::LineNotUtf8),
    }
}

} // verus!
