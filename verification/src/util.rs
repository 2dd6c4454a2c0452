//! The byte-copying core shared by all protocols.
//!
//! The relay proper is full-duplex I/O: it awaits reads on two streams
//! and writes each fulfilled read to the peer. Each direction of that
//! loop is, over the bytes it moves, the function below: everything
//! read is written, in order, unchanged, until the end of the input.
use vstd::prelude::*;

verus! {

/// Size of the relay's copy buffer, in bytes.
pub const RELAY_BUF_SIZE: usize = 2000;

/// Appends `src[from..to]` to `out`.
pub fn push_range(out: &mut Vec<u8>, src: &Vec<u8>, from: usize, to: usize)
    requires
        from <= to <= src@.len(),
    ensures
        final(out)@ == old(out)@ + src@.subrange(from as int, to as int),
{
    let mut i = from;
    while i < to
        invariant
            from <= i <= to <= src@.len(),
            out@ == old(out)@ + src@.subrange(from as int, i as int),
        decreases to - i,
    {
        out.push(src[i]);
        proof {
            assert(src@.subrange(from as int, i + 1 as int) == src@.subrange(
                from as int,
                i as int,
            ).push(src@[i as int]));
        }
        i = i + 1;
    }
}

/// One direction of the relay: forwards the whole input stream to the
/// returned output, reading at most 2000 bytes at a time and writing
/// each read in full before the next, so the output carries exactly
/// the input bytes, in order, with nothing lost and nothing added.
pub fn relay_direction(input: &Vec<u8>) -> (out: Vec<u8>)
    ensures
        out@ == input@,
{
    let len = input.len();
    let mut out: Vec<u8> = Vec::new();
    let mut pos: usize = 0;
    while pos < len
        invariant
            pos <= len,
            len == input@.len(),
            out@ == input@.subrange(0, pos as int),
        decreases len - pos,
    {
        let step = if len - pos > RELAY_BUF_SIZE {
            RELAY_BUF_SIZE
        } else {
            len - pos
        };
        push_range(&mut out, input, pos, pos + step);
        proof {
            assert(input@.subrange(0, pos as int) + input@.subrange(
                pos as int,
                (pos + step) as int,
            ) == input@.subrange(0, (pos + step) as int));
        }
        pos = pos + step;
    }
    proof {
        assert(input@.subrange(0, len as int) == input@);
    }
    out
}

/// The characters that lossy UTF-8 decoding yields for `bytes`: a
/// fixed function of the bytes alone.
pub uninterp spec fn lossy_utf8(bytes: Seq<u8>) -> Seq<char>;

/// Relies on String::from_utf8_lossy: the result depends on the bytes
/// alone, valid sequences are kept, and invalid ones become U+FFFD;
/// on ASCII bytes it is the identity.
#[verifier::external_body]
pub fn bytes_to_string_lossy(bytes: &Vec<u8>) -> (r: String)
    ensures
        r@ == lossy_utf8(bytes@),
        (forall|i: int| 0 <= i < bytes@.len() ==> bytes@[i] < 128) ==> (r@.len() == bytes@.len()
            && forall|i: int| 0 <= i < bytes@.len() ==> r@[i] == (#[trigger] bytes@[i]) as char),
{
    String::from_utf8_lossy(bytes).into_owned()
}

} // verus!
