//! Little-endian fixed-width integers, and in-place writes into byte buffers.
use vstd::prelude::*;

verus! {

/// The four little-endian bytes of `x`.
pub open spec fn u32_le(x: u32) -> Seq<u8> {
    seq![
        (x & 0xff) as u8,
        ((x >> 8u32) & 0xff) as u8,
        ((x >> 16u32) & 0xff) as u8,
        ((x >> 24u32) & 0xff) as u8,
    ]
}

/// The eight little-endian bytes of `x`.
pub open spec fn u64_le(x: u64) -> Seq<u8> {
    u32_le((x & 0xffff_ffff) as u32) + u32_le((x >> 32u64) as u32)
}

/// The `u32` whose little-endian bytes start at `p` in `s`.
pub open spec fn u32_at(s: Seq<u8>, p: int) -> u32 {
    (s[p] as u32) | ((s[p + 1] as u32) << 8u32) | ((s[p + 2] as u32) << 16u32) | ((s[p + 3]
        as u32) << 24u32)
}

/// The `u64` whose little-endian bytes start at `p` in `s`.
pub open spec fn u64_at(s: Seq<u8>, p: int) -> u64 {
    (u32_at(s, p) as u64) | ((u32_at(s, p + 4) as u64) << 32u64)
}

/// `s` with the bytes from `p` on replaced by `b`.
pub open spec fn splice(s: Seq<u8>, p: int, b: Seq<u8>) -> Seq<u8> {
    s.subrange(0, p) + b + s.subrange(p + b.len(), s.len() as int)
}

pub proof fn lemma_u32_round_trip(x: u32)
    ensures
        u32_at(u32_le(x), 0) == x,
{
    let b = u32_le(x);
    assert(b[0] == (x & 0xff) as u8);
    assert(b[1] == ((x >> 8u32) & 0xff) as u8);
    assert(b[2] == ((x >> 16u32) & 0xff) as u8);
    assert(b[3] == ((x >> 24u32) & 0xff) as u8);
    assert(((x & 0xff) as u8 as u32) | ((((x >> 8u32) & 0xff) as u8 as u32) << 8u32) | ((((x
        >> 16u32) & 0xff) as u8 as u32) << 16u32) | ((((x >> 24u32) & 0xff) as u8 as u32)
        << 24u32) == x) by (bit_vector);
}

/// Reading back four written bytes, wherever they stand, gives the written value.
pub proof fn lemma_u32_at(s: Seq<u8>, p: int, x: u32)
    requires
        0 <= p,
        p + 4 <= s.len(),
        s.subrange(p, p + 4) == u32_le(x),
    ensures
        u32_at(s, p) == x,
{
    lemma_u32_round_trip(x);
    let b = u32_le(x);
    assert(s[p] == b[0] && s[p + 1] == b[1] && s[p + 2] == b[2] && s[p + 3] == b[3]) by {
        assert(s.subrange(p, p + 4)[0] == s[p]);
        assert(s.subrange(p, p + 4)[1] == s[p + 1]);
        assert(s.subrange(p, p + 4)[2] == s[p + 2]);
        assert(s.subrange(p, p + 4)[3] == s[p + 3]);
    }
}

/// Reading back eight written bytes, wherever they stand, gives the written value.
pub proof fn lemma_u64_at(s: Seq<u8>, p: int, x: u64)
    requires
        0 <= p,
        p + 8 <= s.len(),
        s.subrange(p, p + 8) == u64_le(x),
    ensures
        u64_at(s, p) == x,
{
    let lo = (x & 0xffff_ffff) as u32;
    let hi = (x >> 32u64) as u32;
    assert(s.subrange(p, p + 4) =~= u32_le(lo)) by {
        assert(s.subrange(p, p + 4) =~= s.subrange(p, p + 8).subrange(0, 4));
    }
    assert(s.subrange(p + 4, p + 8) =~= u32_le(hi)) by {
        assert(s.subrange(p + 4, p + 8) =~= s.subrange(p, p + 8).subrange(4, 8));
    }
    lemma_u32_at(s, p, lo);
    lemma_u32_at(s, p + 4, hi);
    assert((((x & 0xffff_ffff) as u32) as u64) | ((((x >> 32u64) as u32) as u64) << 32u64)
        == x) by (bit_vector);
}

/// Any four bytes are the encoding of the `u32` read from them.
pub proof fn lemma_u32_le_at(s: Seq<u8>, p: int)
    requires
        0 <= p,
        p + 4 <= s.len(),
    ensures
        u32_le(u32_at(s, p)) == s.subrange(p, p + 4),
{
    let (b0, b1, b2, b3) = (s[p], s[p + 1], s[p + 2], s[p + 3]);
    let x = u32_at(s, p);
    assert(x == (b0 as u32) | ((b1 as u32) << 8u32) | ((b2 as u32) << 16u32) | ((b3 as u32)
        << 24u32));
    assert((((b0 as u32) | ((b1 as u32) << 8u32) | ((b2 as u32) << 16u32) | ((b3 as u32)
        << 24u32)) & 0xff) as u8 == b0) by (bit_vector);
    assert(((((b0 as u32) | ((b1 as u32) << 8u32) | ((b2 as u32) << 16u32) | ((b3 as u32)
        << 24u32)) >> 8u32) & 0xff) as u8 == b1) by (bit_vector);
    assert(((((b0 as u32) | ((b1 as u32) << 8u32) | ((b2 as u32) << 16u32) | ((b3 as u32)
        << 24u32)) >> 16u32) & 0xff) as u8 == b2) by (bit_vector);
    assert(((((b0 as u32) | ((b1 as u32) << 8u32) | ((b2 as u32) << 16u32) | ((b3 as u32)
        << 24u32)) >> 24u32) & 0xff) as u8 == b3) by (bit_vector);
    assert(u32_le(x) =~= s.subrange(p, p + 4));
}

/// Any eight bytes are the encoding of the `u64` read from them.
pub proof fn lemma_u64_le_at(s: Seq<u8>, p: int)
    requires
        0 <= p,
        p + 8 <= s.len(),
    ensures
        u64_le(u64_at(s, p)) == s.subrange(p, p + 8),
{
    let lo = u32_at(s, p);
    let hi = u32_at(s, p + 4);
    let x = u64_at(s, p);
    assert(x == (lo as u64) | ((hi as u64) << 32u64));
    assert((((lo as u64) | ((hi as u64) << 32u64)) & 0xffff_ffff) as u32 == lo) by (bit_vector);
    assert((((lo as u64) | ((hi as u64) << 32u64)) >> 32u64) as u32 == hi) by (bit_vector);
    lemma_u32_le_at(s, p);
    lemma_u32_le_at(s, p + 4);
    assert(u64_le(x) =~= s.subrange(p, p + 8));
}

/// Two adjacent splices are one splice of the concatenation.
pub proof fn lemma_splice_twice(s: Seq<u8>, p: int, a: Seq<u8>, b: Seq<u8>)
    requires
        0 <= p,
        p + a.len() + b.len() <= s.len(),
    ensures
        splice(splice(s, p, a), p + a.len(), b) == splice(s, p, a + b),
{
    assert(splice(splice(s, p, a), p + a.len(), b) =~= splice(s, p, a + b));
}

/// Writes `x` at `p`.
pub fn put_u8(buf: &mut [u8], p: usize, x: u8)
    requires
        p + 1 <= old(buf)@.len(),
    ensures
        final(buf)@ == splice(old(buf)@, p as int, seq![x]),
{
    proof {
        let s = buf@;
        assert(s.update(p as int, x) =~= splice(s, p as int, seq![x]));
    }
    buf[p] = x;
}

/// Writes the little-endian bytes of `x` at `p`.
pub fn put_u32(buf: &mut [u8], p: usize, x: u32)
    requires
        p + 4 <= old(buf)@.len(),
    ensures
        final(buf)@ == splice(old(buf)@, p as int, u32_le(x)),
{
    let ghost s = buf@;
    let _n = buf.len();
    put_u8(buf, p, #[verifier::truncate] ((x & 0xff) as u8));
    put_u8(buf, p + 1, #[verifier::truncate] (((x >> 8u32) & 0xff) as u8));
    put_u8(buf, p + 2, #[verifier::truncate] (((x >> 16u32) & 0xff) as u8));
    put_u8(buf, p + 3, #[verifier::truncate] (((x >> 24u32) & 0xff) as u8));
    assert(buf@ =~= splice(s, p as int, u32_le(x)));
}

/// Writes the little-endian bytes of `x` at `p`.
pub fn put_u64(buf: &mut [u8], p: usize, x: u64)
    requires
        p + 8 <= old(buf)@.len(),
    ensures
        final(buf)@ == splice(old(buf)@, p as int, u64_le(x)),
{
    let ghost s = buf@;
    let _n = buf.len();
    let lo = #[verifier::truncate] ((x & 0xffff_ffff) as u32);
    let hi = #[verifier::truncate] ((x >> 32u64) as u32);
    put_u32(buf, p, lo);
    put_u32(buf, p + 4, hi);
    proof {
        lemma_splice_twice(s, p as int, u32_le(lo), u32_le(hi));
    }
}

/// The `u32` whose little-endian bytes start at `p`.
pub fn get_u32(buf: &[u8], p: usize) -> (r: u32)
    requires
        p + 4 <= buf@.len(),
    ensures
        r == u32_at(buf@, p as int),
{
    let _n = buf.len();
    (buf[p] as u32) | ((buf[p + 1] as u32) << 8u32) | ((buf[p + 2] as u32) << 16u32) | ((buf[p
        + 3] as u32) << 24u32)
}

/// The `u64` whose little-endian bytes start at `p`.
pub fn get_u64(buf: &[u8], p: usize) -> (r: u64)
    requires
        p + 8 <= buf@.len(),
    ensures
        r == u64_at(buf@, p as int),
{
    let _n = buf.len();
    (get_u32(buf, p) as u64) | ((get_u32(buf, p + 4) as u64) << 32u64)
}

} // verus!
