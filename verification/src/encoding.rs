//! Byte-level helpers: big-endian words and byte-string comparison.

use vstd::prelude::*;

verus! {

/// Byte `i` (0 = most significant) of the big-endian encoding of `x`.
pub open spec fn be_byte(x: u64, i: int) -> u8 {
    ((x >> ((8 * (7 - i)) as u64)) & 0xff) as u8
}

/// The 8-byte big-endian encoding of `x`.
pub open spec fn be64(x: u64) -> Seq<u8> {
    Seq::new(8, |i: int| be_byte(x, i))
}

/// The word whose big-endian encoding is the 8 bytes of `b`.
pub open spec fn be64_value(b: Seq<u8>) -> u64
    recommends
        b.len() == 8,
{
    ((b[0] as u64) << 56u64) | ((b[1] as u64) << 48u64) | ((b[2] as u64) << 40u64) | ((
    b[3] as u64) << 32u64) | ((b[4] as u64) << 24u64) | ((b[5] as u64) << 16u64) | ((b[6] as u64)
        << 8u64) | (b[7] as u64)
}

/// Decoding the big-endian encoding of a word gives the word back.
pub proof fn lemma_be64_round_trip(x: u64)
    ensures
        be64_value(be64(x)) == x,
        be64(x).len() == 8,
{
    let b = be64(x);
    assert(b[0] == ((x >> 56u64) & 0xff) as u8);
    assert(b[1] == ((x >> 48u64) & 0xff) as u8);
    assert(b[2] == ((x >> 40u64) & 0xff) as u8);
    assert(b[3] == ((x >> 32u64) & 0xff) as u8);
    assert(b[4] == ((x >> 24u64) & 0xff) as u8);
    assert(b[5] == ((x >> 16u64) & 0xff) as u8);
    assert(b[6] == ((x >> 8u64) & 0xff) as u8);
    assert(b[7] == ((x >> 0u64) & 0xff) as u8);
    assert(((((x >> 56u64) & 0xff) as u8 as u64) << 56u64) | ((((x >> 48u64) & 0xff) as u8 as u64)
        << 48u64) | ((((x >> 40u64) & 0xff) as u8 as u64) << 40u64) | ((((x >> 32u64) & 0xff) as u8
        as u64) << 32u64) | ((((x >> 24u64) & 0xff) as u8 as u64) << 24u64) | ((((x >> 16u64)
        & 0xff) as u8 as u64) << 16u64) | ((((x >> 8u64) & 0xff) as u8 as u64) << 8u64) | (((x
        >> 0u64) & 0xff) as u8 as u64) == x) by (bit_vector);
}

/// Encoding the word that 8 bytes decode to gives the bytes back.
pub proof fn lemma_be64_value_round_trip(b: Seq<u8>)
    requires
        b.len() == 8,
    ensures
        be64(be64_value(b)) == b,
{
    let (b0, b1, b2, b3, b4, b5, b6, b7) = (b[0], b[1], b[2], b[3], b[4], b[5], b[6], b[7]);
    let x = be64_value(b);
    assert(x == ((b0 as u64) << 56u64) | ((b1 as u64) << 48u64) | ((b2 as u64) << 40u64) | ((
    b3 as u64) << 32u64) | ((b4 as u64) << 24u64) | ((b5 as u64) << 16u64) | ((b6 as u64)
        << 8u64) | (b7 as u64));
    assert(((x >> 56u64) & 0xff) as u8 == b0 && ((x >> 48u64) & 0xff) as u8 == b1 && ((x
        >> 40u64) & 0xff) as u8 == b2 && ((x >> 32u64) & 0xff) as u8 == b3 && ((x >> 24u64)
        & 0xff) as u8 == b4 && ((x >> 16u64) & 0xff) as u8 == b5 && ((x >> 8u64) & 0xff) as u8
        == b6 && ((x >> 0u64) & 0xff) as u8 == b7) by (bit_vector)
        requires
            x == ((b0 as u64) << 56u64) | ((b1 as u64) << 48u64) | ((b2 as u64) << 40u64) | ((
            b3 as u64) << 32u64) | ((b4 as u64) << 24u64) | ((b5 as u64) << 16u64) | ((
            b6 as u64) << 8u64) | (b7 as u64),
    ;
    assert(be64(x) =~= b);
}

/// Distinct words have distinct encodings.
pub proof fn lemma_be64_injective(x: u64, y: u64)
    ensures
        be64(x) == be64(y) ==> x == y,
{
    lemma_be64_round_trip(x);
    lemma_be64_round_trip(y);
}

/// Appends the big-endian encoding of `x` to `out`.
pub fn push_be64(out: &mut Vec<u8>, x: u64)
    ensures
        final(out)@ == old(out)@ + be64(x),
{
    let ghost start = old(out)@;
    for i in 0..8usize
        invariant
            out@ == start + be64(x).take(i as int),
    {
        let shift: u64 = 8 * (7 - i as u64);
        let byte = ((x >> shift) & 0xff) as u8;
        assert(byte == be_byte(x, i as int));
        out.push(byte);
        assert(be64(x).take(i + 1) == be64(x).take(i as int).push(byte));
    }
    assert(be64(x).take(8) == be64(x));
}

/// Reads the big-endian word stored in `bytes[start..start + 8]`.
pub fn read_be64(bytes: &[u8], start: usize) -> (r: u64)
    requires
        start + 8 <= bytes@.len(),
    ensures
        r == be64_value(bytes@.subrange(start as int, start + 8)),
{
    let ghost b = bytes@.subrange(start as int, start + 8);
    assert(b[0] == bytes@[start as int]);
    ((bytes[start] as u64) << 56u64) | ((bytes[start + 1] as u64) << 48u64) | ((bytes[start
        + 2] as u64) << 40u64) | ((bytes[start + 3] as u64) << 32u64) | ((bytes[start + 4] as u64)
        << 24u64) | ((bytes[start + 5] as u64) << 16u64) | ((bytes[start + 6] as u64) << 8u64) | (
    bytes[start + 7] as u64)
}

/// Appends all of `bytes` to `out`.
pub fn push_all(out: &mut Vec<u8>, bytes: &[u8])
    ensures
        final(out)@ == old(out)@ + bytes@,
{
    let ghost start = old(out)@;
    let n = bytes.len();
    for i in 0..n
        invariant
            n == bytes@.len(),
            out@ == start + bytes@.take(i as int),
    {
        out.push(bytes[i]);
        assert(bytes@.take(i + 1) == bytes@.take(i as int).push(bytes@[i as int]));
    }
    assert(bytes@.take(n as int) == bytes@);
}

} // verus!
