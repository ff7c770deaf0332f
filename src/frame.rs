//! Frame delimiting by consistent-overhead byte stuffing.
//!
//! A frame is the stuffed form of a payload, which holds no zero byte, followed by a
//! single `0x00` delimiter. A receiver that lost synchronisation discards bytes up to
//! and including the next `0x00` and decodes the chunk that follows.
use vstd::prelude::*;

use crate::codec::CodecError;

verus! {

/// Largest payload that a frame carries: stuffing then adds exactly one byte.
pub const MAX_PAYLOAD_BYTES: usize = 253;

/// What a frame adds to its payload: the stuffing byte and the delimiter.
pub const FRAME_OVERHEAD: usize = 2;

/// The stuffed form of a payload, as produced by the `cobs` crate.
pub uninterp spec fn cobs_encoding(payload: Seq<u8>) -> Seq<u8>;

/// The bytes of the frame that carries `payload`.
pub open spec fn frame_bytes(payload: Seq<u8>) -> Seq<u8> {
    cobs_encoding(payload).push(0u8)
}

/// Whether `s` holds no zero byte.
pub open spec fn zero_free(s: Seq<u8>) -> bool {
    forall|i: int| 0 <= i < s.len() ==> s[i] != 0
}

/// Relies on `cobs::encode`: for a payload of 1 to 253 bytes it writes `len + 1`
/// bytes, none of them zero, at the start of `dest`, touches nothing after them, and
/// returns that count.
#[verifier::external_body]
fn cobs_encode(source: &[u8], dest: &mut [u8]) -> (n: usize)
    requires
        0 < source@.len() <= MAX_PAYLOAD_BYTES,
        source@.len() + 1 <= old(dest)@.len(),
    ensures
        n == source@.len() + 1,
        final(dest)@.len() == old(dest)@.len(),
        final(dest)@.subrange(0, n as int) == cobs_encoding(source@),
        zero_free(final(dest)@.subrange(0, n as int)),
        final(dest)@.subrange(n as int, final(dest)@.len() as int) == old(dest)@.subrange(
            n as int,
            old(dest)@.len() as int,
        ),
{
    cobs::encode(source, dest)
}

/// Relies on `cobs::decode`: it inverts `cobs::encode` on a non-empty payload,
/// whether or not the delimiter follows, when `dest` can hold the payload; whatever
/// it returns on success fits in `dest`.
#[verifier::external_body]
fn cobs_decode(source: &[u8], dest: &mut [u8]) -> (r: Option<usize>)
    ensures
        final(dest)@.len() == old(dest)@.len(),
        r matches Some(n) ==> n <= final(dest)@.len(),
        forall|p: Seq<u8>|
            0 < p.len() <= MAX_PAYLOAD_BYTES && p.len() <= old(dest)@.len() && (source@
                == #[trigger] cobs_encoding(p) || source@ == cobs_encoding(p).push(0u8)) ==> r
                == Some(p.len() as usize) && final(dest)@.subrange(0, p.len() as int) == p,
{
    cobs::decode(source, dest).ok()
}

/// Writes the frame that carries `payload` at the start of `out` and returns its
/// length. Only the delimiter is zero. On failure `out` is left as it was.
pub fn frame_payload(payload: &[u8], out: &mut [u8]) -> (r: Result<usize, CodecError>)
    requires
        0 < payload@.len() <= MAX_PAYLOAD_BYTES,
    ensures
        r is Ok <==> payload@.len() + FRAME_OVERHEAD <= old(out)@.len(),
        final(out)@.len() == old(out)@.len(),
        r matches Ok(n) ==> n == payload@.len() + FRAME_OVERHEAD,
        r matches Ok(n) ==> final(out)@.subrange(0, n as int) == frame_bytes(payload@),
        r matches Ok(n) ==> zero_free(final(out)@.subrange(0, n - 1)) && final(out)@[n - 1] == 0,
        r matches Err(e) ==> e == CodecError::BufferTooSmall && final(out)@ == old(out)@,
{
    if out.len() < payload.len() + FRAME_OVERHEAD {
        return Err(CodecError::BufferTooSmall);
    }
    let k = cobs_encode(payload, out);
    let ghost stuffed = out@.subrange(0, k as int);
    out[k] = 0;
    proof {
        assert(out@.subrange(0, k as int) =~= stuffed);
        assert(out@.subrange(0, k + 1) =~= stuffed.push(0u8));
    }
    Ok(k + 1)
}

/// Recovers the payload of a frame, given with or without its delimiter, into the
/// start of `out` and returns its length; fails with `FrameCorrupt` where the bytes
/// are no valid stuffing or the payload does not fit in `out`.
pub fn unframe(frame: &[u8], out: &mut [u8]) -> (r: Result<usize, CodecError>)
    ensures
        final(out)@.len() == old(out)@.len(),
        r matches Ok(n) ==> n <= final(out)@.len(),
        r matches Err(e) ==> e == CodecError::FrameCorrupt,
        forall|p: Seq<u8>|
            0 < p.len() <= MAX_PAYLOAD_BYTES && p.len() <= old(out)@.len() && (frame@
                == #[trigger] cobs_encoding(p) || frame@ == frame_bytes(p)) ==> r == Ok::<
                usize,
                CodecError,
            >(p.len() as usize) && final(out)@.subrange(0, p.len() as int) == p,
{
    match cobs_decode(frame, out) {
        Some(n) => Ok(n),
        None => Err(CodecError::FrameCorrupt),
    }
}

/// The position of the first zero byte of `s` at or after `k`, if there is one.
pub open spec fn next_zero(s: Seq<u8>, k: int) -> Option<int>
    decreases s.len() - k,
{
    if k < 0 || k >= s.len() {
        None
    } else if s[k] == 0 {
        Some(k)
    } else {
        next_zero(s, k + 1)
    }
}

/// Finds the next frame delimiter: the position of the first `0x00` at or after
/// `start`.
pub fn next_delimiter(stream: &[u8], start: usize) -> (r: Option<usize>)
    ensures
        r matches Some(i) ==> Some(i as int) == next_zero(stream@, start as int),
        r is None ==> next_zero(stream@, start as int) is None,
{
    let mut k = start;
    while k < stream.len()
        invariant
            start <= k,
            next_zero(stream@, start as int) == next_zero(stream@, k as int),
        decreases stream@.len() - k,
    {
        if stream[k] == 0 {
            return Some(k);
        }
        k = k + 1;
    }
    None
}

proof fn lemma_next_zero_skips(s: Seq<u8>, k: int, j: int)
    requires
        0 <= k <= j <= s.len(),
        forall|i: int| k <= i < j ==> s[i] != 0,
    ensures
        next_zero(s, k) == next_zero(s, j),
    decreases j - k,
{
    if k < j {
        lemma_next_zero_skips(s, k + 1, j);
    }
}

/// Resynchronisation: in a stream holding zero-free garbage, a delimiter, then the
/// frame of a payload, a receiver that starts anywhere in the garbage finds the
/// delimiter that ends it, and the next chunk up to the following delimiter is
/// exactly the stuffed payload.
pub proof fn lemma_resync(garbage: Seq<u8>, payload: Seq<u8>, rest: Seq<u8>, start: int)
    requires
        zero_free(garbage),
        zero_free(cobs_encoding(payload)),
        0 <= start <= garbage.len(),
    ensures
        ({
            let s = garbage.push(0u8) + frame_bytes(payload) + rest;
            let b = garbage.len() as int + 1;
            let e = b + cobs_encoding(payload).len() as int;
            &&& next_zero(s, start) == Some(garbage.len() as int)
            &&& next_zero(s, b) == Some(e)
            &&& s.subrange(b, e) == cobs_encoding(payload)
        }),
{
    let s = garbage.push(0u8) + frame_bytes(payload) + rest;
    let c = cobs_encoding(payload);
    let g = garbage.len() as int;
    let b = g + 1;
    let e = b + c.len();
    assert forall|i: int| start <= i < g implies s[i] != 0 by {
        assert(s[i] == garbage[i]);
    }
    lemma_next_zero_skips(s, start, g);
    assert(s[g] == 0);
    assert forall|i: int| b <= i < e implies s[i] != 0 by {
        assert(s[i] == c[i - b]);
    }
    lemma_next_zero_skips(s, b, e);
    assert(s[e] == 0);
    assert(s.subrange(b, e) =~= c);
}

} // verus!
