//! Little-endian byte encoding used by the cross-boundary plan-property
//! payloads, with the round-trip facts the boundary record relies on.

use vstd::prelude::*;

verus! {

/// The eight little-endian bytes of `n`.
pub open spec fn spec_u64_le(n: u64) -> Seq<u8> {
    seq![
        (n & 0xff) as u8,
        ((n >> 8) & 0xff) as u8,
        ((n >> 16) & 0xff) as u8,
        ((n >> 24) & 0xff) as u8,
        ((n >> 32) & 0xff) as u8,
        ((n >> 40) & 0xff) as u8,
        ((n >> 48) & 0xff) as u8,
        ((n >> 56) & 0xff) as u8,
    ]
}

/// The value read back from eight little-endian bytes.
pub open spec fn spec_le_u64(bs: Seq<u8>) -> u64
    recommends
        bs.len() == 8,
{
    (bs[0] as u64) | ((bs[1] as u64) << 8) | ((bs[2] as u64) << 16) | ((bs[3] as u64) << 24) | (
    (bs[4] as u64) << 32) | ((bs[5] as u64) << 40) | ((bs[6] as u64) << 48) | ((bs[7] as u64)
        << 56)
}

/// Reading back the eight bytes of `n` yields `n`.
pub proof fn lemma_u64_le_round_trip(n: u64)
    ensures
        spec_le_u64(spec_u64_le(n)) == n,
{
    assert((n & 0xff) | (((n >> 8) & 0xff) << 8) | (((n >> 16) & 0xff) << 16) | (((n >> 24)
        & 0xff) << 24) | (((n >> 32) & 0xff) << 32) | (((n >> 40) & 0xff) << 40) | (((n >> 48)
        & 0xff) << 48) | (((n >> 56) & 0xff) << 56) == n) by (bit_vector);
    assert(((n & 0xff) as u8) as u64 == n & 0xff) by (bit_vector);
    assert((((n >> 8) & 0xff) as u8) as u64 == (n >> 8) & 0xff) by (bit_vector);
    assert((((n >> 16) & 0xff) as u8) as u64 == (n >> 16) & 0xff) by (bit_vector);
    assert((((n >> 24) & 0xff) as u8) as u64 == (n >> 24) & 0xff) by (bit_vector);
    assert((((n >> 32) & 0xff) as u8) as u64 == (n >> 32) & 0xff) by (bit_vector);
    assert((((n >> 40) & 0xff) as u8) as u64 == (n >> 40) & 0xff) by (bit_vector);
    assert((((n >> 48) & 0xff) as u8) as u64 == (n >> 48) & 0xff) by (bit_vector);
    assert((((n >> 56) & 0xff) as u8) as u64 == (n >> 56) & 0xff) by (bit_vector);
}

/// Two values with the same eight bytes are the same value.
pub proof fn lemma_u64_le_injective(a: u64, b: u64)
    requires
        spec_u64_le(a) == spec_u64_le(b),
    ensures
        a == b,
{
    lemma_u64_le_round_trip(a);
    lemma_u64_le_round_trip(b);
}

/// Appends the eight little-endian bytes of `n`.
pub fn encode_u64_le(n: u64, out: &mut Vec<u8>)
    ensures
        final(out)@ == old(out)@ + spec_u64_le(n),
{
    out.push((n & 0xff) as u8);
    out.push(((n >> 8) & 0xff) as u8);
    out.push(((n >> 16) & 0xff) as u8);
    out.push(((n >> 24) & 0xff) as u8);
    out.push(((n >> 32) & 0xff) as u8);
    out.push(((n >> 40) & 0xff) as u8);
    out.push(((n >> 48) & 0xff) as u8);
    out.push(((n >> 56) & 0xff) as u8);
    proof {
        assert(final(out)@ =~= old(out)@ + spec_u64_le(n));
    }
}

/// Reads the eight little-endian bytes at `offset` back into a value.
pub fn decode_u64_le(bytes: &Vec<u8>, offset: usize) -> (r: u64)
    requires
        offset + 8 <= bytes@.len(),
    ensures
        r == spec_le_u64(bytes@.subrange(offset as int, offset + 8)),
{
    let n = bytes.len();
    proof {
        assert(offset + 8 <= n);
    }
    let b0 = bytes[offset] as u64;
    let b1 = bytes[offset + 1] as u64;
    let b2 = bytes[offset + 2] as u64;
    let b3 = bytes[offset + 3] as u64;
    let b4 = bytes[offset + 4] as u64;
    let b5 = bytes[offset + 5] as u64;
    let b6 = bytes[offset + 6] as u64;
    let b7 = bytes[offset + 7] as u64;
    let r = b0 | (b1 << 8) | (b2 << 16) | (b3 << 24) | (b4 << 32) | (b5 << 40) | (b6 << 48) | (b7
        << 56);
    proof {
        let s = bytes@.subrange(offset as int, offset + 8);
        assert(s[0] == bytes@[offset as int]);
        assert(s[1] == bytes@[offset + 1]);
        assert(s[2] == bytes@[offset + 2]);
        assert(s[3] == bytes@[offset + 3]);
        assert(s[4] == bytes@[offset + 4]);
        assert(s[5] == bytes@[offset + 5]);
        assert(s[6] == bytes@[offset + 6]);
        assert(s[7] == bytes@[offset + 7]);
    }
    r
}

} // verus!
