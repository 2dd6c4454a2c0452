//! Body forwarding by declared length or by chunked framing.
//!
//! These are the pure cores of the two body transceivers: each takes
//! the bytes received so far from the source stream and computes the
//! bytes that are written to the destination, together with how much
//! of the source was consumed.
use vstd::prelude::*;
use crate::http::errors::HttpError;
use crate::http::reader::{
    first_line_end, has_line, lemma_first_line_unique, lemma_no_line_within_bound, line_end_at,
    line_len, read_line_bytes, spec_line,
};
use crate::util::push_range;

verus! {

/// True iff `b` is an ASCII hexadecimal digit.
pub open spec fn is_hex_digit(b: u8) -> bool {
    (48 <= b <= 57) || (97 <= b <= 102) || (65 <= b <= 70)
}

/// The value of one ASCII hexadecimal digit.
pub open spec fn hex_digit_val(b: u8) -> nat {
    if 48 <= b <= 57 {
        (b - 48) as nat
    } else if 97 <= b <= 102 {
        (b - 87) as nat
    } else if 65 <= b <= 70 {
        (b - 55) as nat
    } else {
        0
    }
}

/// The value of a big-endian string of hexadecimal digits.
pub open spec fn hex_value(s: Seq<u8>) -> nat
    decreases s.len(),
{
    if s.len() == 0 {
        0
    } else {
        hex_value(s.drop_last()) * 16 + hex_digit_val(s.last())
    }
}

/// True iff `i` is where the leading run of hexadecimal digits of `s` ends.
pub open spec fn hex_run_end(s: Seq<u8>, i: int) -> bool {
    0 <= i <= s.len() && (forall|j: int| 0 <= j < i ==> is_hex_digit(s[j])) && (i < s.len()
        ==> !is_hex_digit(s[i]))
}

/// Where the leading run of hexadecimal digits of `s` ends.
pub open spec fn hex_run(s: Seq<u8>) -> int {
    choose|i: int| hex_run_end(s, i)
}

/// The hex-run end is unique, so `hex_run` returns it.
pub proof fn lemma_hex_run_unique(s: Seq<u8>, k: int)
    requires
        hex_run_end(s, k),
    ensures
        hex_run(s) == k,
{
    let j = hex_run(s);
    assert(hex_run_end(s, j));
    if j < k {
        assert(is_hex_digit(s[j]));
    }
    if j > k {
        assert(is_hex_digit(s[k]));
    }
}

/// Parses a chunk-size line: a non-empty run of hexadecimal digits
/// giving the chunk size, optionally followed by `;` and a non-empty
/// extension that contains no CR or LF, consuming the whole line.
pub open spec fn chunk_size(line: Seq<u8>) -> Option<nat> {
    let h = hex_run(line);
    if !hex_run_end(line, h) || h < 1 {
        None
    } else if h == line.len() {
        Some(hex_value(line))
    } else if line[h] == 59 && h + 1 < line.len() && (forall|i: int|
        h < i < line.len() ==> line[i] != 13 && line[i] != 10) {
        Some(hex_value(line.take(h)))
    } else {
        None
    }
}

/// The terminal bytes of a chunked stream: `0 CR LF CR LF`.
pub open spec fn zero_chunk_end() -> Seq<u8> {
    seq![48u8, 13u8, 10u8, 13u8, 10u8]
}

/// The bytes CR LF.
pub open spec fn crlf() -> Seq<u8> {
    seq![13u8, 10u8]
}

/// What forwarding a chunked body from the stream `s` yields: the
/// bytes written to the destination and the number of source bytes
/// consumed, or the error on which forwarding stops. Each chunk's
/// original size line is re-emitted, then the declared size plus the
/// trailing CR LF is copied verbatim; the terminal zero-size line and
/// the line after it are consumed and replaced by `0 CR LF CR LF`.
pub open spec fn chunked_spec(s: Seq<u8>) -> Result<(Seq<u8>, int), HttpError>
    decreases s.len(),
{
    if has_line(s) && 2 <= line_len(s) <= s.len() && line_len(s) <= crate::MAX_LINE_SIZE {
        let n = line_len(s);
        let payload = s.take(n - 2);
        match chunk_size(payload) {
            None => Err(HttpError::ChunkTranciever),
            Some(size) => if size == 0 {
                match spec_line(s.skip(n)) {
                    Ok((_p2, n2)) => Ok((zero_chunk_end(), n + n2)),
                    Err(e) => Err(e),
                }
            } else if size > u64::MAX {
                Err(HttpError::ChunkTranciever)
            } else {
                let avail = if size + 2 <= s.len() - n {
                    size + 2
                } else {
                    (s.len() - n) as nat
                };
                match chunked_spec(s.skip(n + avail)) {
                    Ok((o2, c2)) => Ok(
                        (payload + crlf() + s.subrange(n, n + avail) + o2, n + avail + c2),
                    ),
                    Err(e) => Err(e),
                }
            },
        }
    } else if s.len() > crate::MAX_LINE_SIZE {
        Err(HttpError::LineTooLong)
    } else {
        Err(HttpError::LineRead)
    }
}

/// One ASCII hexadecimal digit, lower case.
pub open spec fn hex_digit_of(d: nat) -> u8 {
    if d < 10 {
        (48 + d) as u8
    } else {
        (87 + d) as u8
    }
}

/// The canonical lower-case hexadecimal digits of `n`, most
/// significant first, without leading zeroes (a single `0` for zero).
pub open spec fn hex_digits_of(n: nat) -> Seq<u8>
    decreases n,
{
    if n < 16 {
        seq![hex_digit_of(n)]
    } else {
        hex_digits_of(n / 16).push(hex_digit_of(n % 16))
    }
}

/// One chunk as the canonical chunked encoder frames it: the size in
/// hexadecimal, CR LF, the data, CR LF.
pub open spec fn encode_chunk(data: Seq<u8>) -> Seq<u8> {
    hex_digits_of(data.len()) + crlf() + data + crlf()
}

/// A whole body as the canonical chunked encoder frames it: each chunk
/// in order, then the terminal `0 CR LF CR LF`.
pub open spec fn encode_chunks(chunks: Seq<Seq<u8>>) -> Seq<u8>
    decreases chunks.len(),
{
    if chunks.len() == 0 {
        zero_chunk_end()
    } else {
        encode_chunk(chunks[0]) + encode_chunks(chunks.drop_first())
    }
}

/// Chunks the canonical encoder accepts: each non-empty and small
/// enough for its size to be counted in 64 bits.
pub open spec fn wf_chunks(chunks: Seq<Seq<u8>>) -> bool {
    forall|i: int| 0 <= i < chunks.len() ==> 1 <= #[trigger] chunks[i].len() <= u64::MAX
}

/// The hexadecimal digits of `n` read back as `n`, and every byte of
/// them is a hexadecimal digit.
pub proof fn lemma_hex_digits_of(n: nat)
    ensures
        hex_value(hex_digits_of(n)) == n,
        forall|i: int|
            0 <= i < hex_digits_of(n).len() ==> is_hex_digit(#[trigger] hex_digits_of(n)[i]),
        hex_digits_of(n).len() >= 1,
    decreases n,
{
    if n < 16 {
        let s = hex_digits_of(n);
        assert(s.drop_last() =~= Seq::<u8>::empty());
        assert(hex_value(Seq::<u8>::empty()) == 0);
        assert(s.last() == hex_digit_of(n));
        assert(hex_value(s) == hex_value(s.drop_last()) * 16 + hex_digit_val(s.last()));
        assert(hex_value(s) == hex_digit_val(hex_digit_of(n)));
    } else {
        lemma_hex_digits_of(n / 16);
        let s = hex_digits_of(n);
        assert(s.drop_last() =~= hex_digits_of(n / 16));
        assert(s.last() == hex_digit_of(n % 16));
        assert(hex_value(s) == (n / 16) * 16 + hex_digit_val(hex_digit_of(n % 16)));
        assert(hex_digit_val(hex_digit_of(n % 16)) == n % 16);
        assert((n / 16) * 16 + n % 16 == n) by (nonlinear_arith);
    }
}

/// Sixteen to the power `k`.
pub open spec fn pow16(k: nat) -> nat
    decreases k,
{
    if k == 0 {
        1
    } else {
        16 * pow16((k - 1) as nat)
    }
}

/// A number below the `k`-th power of sixteen has at most `k`
/// hexadecimal digits.
pub proof fn lemma_hex_digits_len(n: nat, k: nat)
    requires
        1 <= k,
        n < pow16(k),
    ensures
        hex_digits_of(n).len() <= k,
    decreases k,
{
    if n < 16 {
    } else {
        assert(pow16(k) == 16 * pow16((k - 1) as nat));
        assert(n / 16 < pow16((k - 1) as nat)) by (nonlinear_arith)
            requires
                n < 16 * pow16((k - 1) as nat),
        ;
        lemma_hex_digits_len(n / 16, (k - 1) as nat);
    }
}

/// A 64-bit size has at most sixteen hexadecimal digits.
pub proof fn lemma_hex_digits_len_u64(n: nat)
    requires
        n <= u64::MAX,
    ensures
        hex_digits_of(n).len() <= 16,
{
    reveal_with_fuel(pow16, 17);
    assert(pow16(16) == 0x1_0000_0000_0000_0000);
    lemma_hex_digits_len(n, 16);
}

/// Forwarding a stream framed by the canonical chunked encoder
/// reproduces it byte for byte, consuming exactly the encoding.
#[verifier::rlimit(60)]
pub proof fn lemma_chunked_round_trip(chunks: Seq<Seq<u8>>)
    requires
        wf_chunks(chunks),
    ensures
        chunked_spec(encode_chunks(chunks)) == Ok::<(Seq<u8>, int), HttpError>(
            (encode_chunks(chunks), encode_chunks(chunks).len() as int),
        ),
    decreases chunks.len(),
{
    let s = encode_chunks(chunks);
    if chunks.len() == 0 {
        assert(s =~= zero_chunk_end());
        assert(s.take(3).len() == 3);
        assert(s.take(3)[1] == 13 && s.take(3)[2] == 10);
        assert(line_end_at(s, 3));
        assert forall|m: int| 2 <= m < 3 implies !line_end_at(s, m) by {
            assert(s.take(2)[0] == 48);
        }
        assert(first_line_end(s, 3));
        lemma_first_line_unique(s, 3);
        let payload = s.take(1);
        assert(payload =~= seq![48u8]);
        assert(is_hex_digit(48));
        assert(hex_run_end(payload, 1));
        lemma_hex_run_unique(payload, 1);
        assert(payload.drop_last() =~= Seq::<u8>::empty());
        assert(hex_value(Seq::<u8>::empty()) == 0);
        assert(payload.last() == 48);
        assert(hex_value(payload) == hex_value(payload.drop_last()) * 16 + hex_digit_val(
            payload.last(),
        ));
        assert(hex_value(payload) == 0);
        assert(chunk_size(payload) == Some(0nat));
        let s2 = s.skip(3);
        assert(s2 =~= seq![13u8, 10u8]);
        assert(s2.take(2) =~= s2);
        assert(line_end_at(s2, 2));
        assert(first_line_end(s2, 2));
        lemma_first_line_unique(s2, 2);
        assert(spec_line(s2) == Ok::<(Seq<u8>, int), HttpError>((s2.take(0), 2int)));
        assert(chunked_spec(s) == Ok::<(Seq<u8>, int), HttpError>((zero_chunk_end(), 5int)));
    } else {
        let d = chunks[0];
        let rest = encode_chunks(chunks.drop_first());
        let hx = hex_digits_of(d.len());
        let h = hx.len() as int;
        lemma_hex_digits_of(d.len());
        lemma_hex_digits_len_u64(d.len());
        assert(s =~= hx + crlf() + d + crlf() + rest);
        // the size line ends exactly after the hexadecimal digits
        assert(s.take(h + 2).len() == h + 2);
        assert(s[h] == 13 && s[h + 1] == 10);
        assert(line_end_at(s, h + 2));
        assert forall|m: int| 2 <= m < h + 2 implies !line_end_at(s, m) by {
            assert(is_hex_digit(s[m - 2]));
            assert(s.take(m)[m - 2] == s[m - 2]);
        }
        assert(first_line_end(s, h + 2));
        lemma_first_line_unique(s, h + 2);
        let payload = s.take(h);
        assert(payload =~= hx);
        assert(hex_run_end(payload, h));
        lemma_hex_run_unique(payload, h);
        assert(chunk_size(payload) == Some(d.len()));
        let size = d.len();
        assert(s.len() - (h + 2) == size + 2 + rest.len());
        let avail = size + 2;
        assert(s.skip(h + 2 + avail) =~= rest);
        lemma_chunked_round_trip(chunks.drop_first());
        assert(s.subrange(h + 2, h + 2 + avail) =~= d + crlf());
        assert(payload + crlf() + s.subrange(h + 2, h + 2 + avail) + rest =~= s);
        assert(chunked_spec(s) == Ok::<(Seq<u8>, int), HttpError>((s, s.len() as int)));
    }
}

/// Tests whether `b` is an ASCII hexadecimal digit.
pub fn is_hex_byte(b: u8) -> (r: bool)
    ensures
        r == is_hex_digit(b),
{
    (48 <= b && b <= 57) || (97 <= b && b <= 102) || (65 <= b && b <= 70)
}

/// Parses the chunk-size line held in `src[from..to]`. Returns the
/// size, or nothing when the line does not match the grammar or the
/// size does not fit in 64 bits.
pub fn parse_chunk_size(src: &Vec<u8>, from: usize, to: usize) -> (r: Option<u64>)
    requires
        from <= to <= src@.len(),
    ensures
        ({
            let line = src@.subrange(from as int, to as int);
            match r {
                Some(v) => chunk_size(line) == Some(v as nat),
                None => chunk_size(line) is None || (chunk_size(line) matches Some(v) && v
                    > u64::MAX),
            }
        }),
{
    let ghost line = src@.subrange(from as int, to as int);
    let mut i = from;
    let mut acc: u64 = 0;
    let mut ovf = false;
    while i < to && is_hex_byte(src[i])
        invariant
            from <= i <= to <= src@.len(),
            line == src@.subrange(from as int, to as int),
            forall|j: int| 0 <= j < i - from ==> is_hex_digit(line[j]),
            !ovf ==> acc == hex_value(line.take(i - from)),
            ovf ==> hex_value(line.take(i - from)) > u64::MAX,
        decreases to - i,
    {
        let b = src[i];
        let d: u64 = if b <= 57 {
            (b - 48) as u64
        } else if b >= 97 {
            (b - 87) as u64
        } else {
            (b - 55) as u64
        };
        proof {
            assert(line[i - from] == src@[i as int]);
            assert(line.take(i - from + 1).drop_last() == line.take(i - from));
            assert(line.take(i - from + 1).last() == line[i - from]);
            assert(hex_value(line.take(i - from + 1)) == hex_value(line.take(i - from)) * 16
                + hex_digit_val(line[i - from]));
        }
        if ovf || acc > 0xfff_ffff_ffff_ffffu64 {
            ovf = true;
        } else {
            acc = acc * 16 + d;
        }
        i = i + 1;
    }
    let h = i - from;
    proof {
        assert(hex_run_end(line, h as int));
        lemma_hex_run_unique(line, h as int);
    }
    if h == 0 {
        return None;
    }
    if i == to {
        proof {
            assert(line.take(h as int) == line);
        }
        if ovf {
            return None;
        }
        return Some(acc);
    }
    if src[i] != 59 {
        return None;
    }
    if i + 1 >= to {
        return None;
    }
    let mut j = i + 1;
    while j < to
        invariant
            i < j <= to <= src@.len(),
            from <= i,
            line == src@.subrange(from as int, to as int),
            forall|m: int| i - from < m < j - from ==> line[m] != 13 && line[m] != 10,
        decreases to - j,
    {
        let b = src[j];
        if b == 13 || b == 10 {
            proof {
                assert(line[j - from] == src@[j as int]);
            }
            return None;
        }
        proof {
            assert(line[j - from] == src@[j as int]);
        }
        j = j + 1;
    }
    if ovf {
        return None;
    }
    Some(acc)
}

/// Forwards up to `limit` bytes of `src`, starting at `pos`, to the
/// returned buffer, stopping early if the source ends first. Returns
/// the forwarded bytes and the position after them.
pub fn limited_copy(src: &Vec<u8>, pos: usize, limit: u64) -> (r: (Vec<u8>, usize))
    requires
        pos <= src@.len(),
    ensures
        ({
            let avail = if limit <= src@.len() - pos {
                limit as int
            } else {
                src@.len() - pos
            };
            r.0@ == src@.subrange(pos as int, pos + avail) && r.1 == pos + avail
        }),
{
    let rem = src.len() - pos;
    let take: usize = if limit <= rem as u64 {
        limit as usize
    } else {
        rem
    };
    let mut out: Vec<u8> = Vec::new();
    push_range(&mut out, src, pos, pos + take);
    (out, pos + take)
}

/// Forwards a chunked body from `src`, starting at `start`: the pure
/// core of the chunked transceiver. Returns the bytes written to the
/// destination and the position after the consumed source bytes.
pub fn chunked_copy(src: &Vec<u8>, start: usize) -> (r: Result<(Vec<u8>, usize), HttpError>)
    requires
        start <= src@.len(),
    ensures
        match r {
            Ok((out, end)) => start <= end <= src@.len() && chunked_spec(src@.skip(start as int))
                == Ok::<(Seq<u8>, int), HttpError>((out@, end - start)),
            Err(e) => chunked_spec(src@.skip(start as int)) == Err::<(Seq<u8>, int), HttpError>(e),
        },
    decreases src@.len() - start,
{
    let ghost tail = src@.skip(start as int);
    match read_line_bytes(src, start) {
        Err(e) => {
            proof {
                lemma_no_line_within_bound(tail);
            }
            Err(e)
        },
        Ok(n) => {
            proof {
                lemma_first_line_unique(tail, n - start);
            }
            let size_opt = parse_chunk_size(src, start, n - 2);
            proof {
                assert(src@.subrange(start as int, n - 2) =~= tail.take(n - start - 2));
            }
            match size_opt {
                None => Err(HttpError::ChunkTranciever),
                Some(size) => {
                    if size == 0 {
                        match read_line_bytes(src, n) {
                            Err(e) => {
                                proof {
                                    lemma_no_line_within_bound(src@.skip(n as int));
                                    assert(tail.skip(n - start) =~= src@.skip(n as int));
                                }
                                Err(e)
                            },
                            Ok(n2) => {
                                proof {
                                    lemma_first_line_unique(src@.skip(n as int), n2 - n);
                                    assert(tail.skip(n - start) =~= src@.skip(n as int));
                                }
                                let mut out: Vec<u8> = Vec::new();
                                out.push(48);
                                out.push(13);
                                out.push(10);
                                out.push(13);
                                out.push(10);
                                proof {
                                    assert(out@ =~= zero_chunk_end());
                                }
                                Ok((out, n2))
                            },
                        }
                    } else {
                        let mut out: Vec<u8> = Vec::new();
                        push_range(&mut out, src, start, n - 2);
                        out.push(13);
                        out.push(10);
                        let rem = src.len() - n;
                        let avail: usize = if rem as u64 >= 2 && size <= rem as u64 - 2 {
                            (size + 2) as usize
                        } else {
                            rem
                        };
                        push_range(&mut out, src, n, n + avail);
                        match chunked_copy(src, n + avail) {
                            Err(e) => {
                                proof {
                                    assert(tail.skip(n - start + avail) =~= src@.skip(
                                        (n + avail) as int,
                                    ));
                                }
                                Err(e)
                            },
                            Ok((mut o2, end)) => {
                                let ghost o2v = o2@;
                                out.append(&mut o2);
                                proof {
                                    assert(tail.skip(n - start + avail) =~= src@.skip(
                                        (n + avail) as int,
                                    ));
                                    assert(tail.take(n - start - 2) =~= src@.subrange(
                                        start as int,
                                        n - 2,
                                    ));
                                    assert(tail.subrange(n - start, n - start + avail)
                                        =~= src@.subrange(n as int, n + avail));
                                    assert(out@ =~= tail.take(n - start - 2) + crlf()
                                        + tail.subrange(n - start, n - start + avail) + o2v);
                                }
                                Ok((out, end))
                            },
                        }
                    }
                },
            }
        },
    }
}

} // verus!
