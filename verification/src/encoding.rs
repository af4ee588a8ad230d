//! Byte sums and little-endian integer encodings: the arithmetic that the
//! tables' invariants are stated in.

use vstd::prelude::*;

verus! {

/// The sum of the bytes of `s`, as an unbounded integer.
pub open spec fn byte_sum(s: Seq<u8>) -> int
    decreases s.len(),
{
    if s.len() == 0 {
        0
    } else {
        byte_sum(s.drop_last()) + s.last() as int
    }
}

/// The byte that, added to a stream whose bytes sum to `sum`, brings the total
/// to zero modulo 256.
pub open spec fn balancing_byte(sum: int) -> u8 {
    ((256 - sum % 256) % 256) as u8
}

/// A byte sequence is balanced when its bytes sum to zero modulo 256.
pub open spec fn balanced(s: Seq<u8>) -> bool {
    byte_sum(s) % 256 == 0
}

/// The two-byte little-endian encoding of `v`.
pub open spec fn le_bytes_u16(v: u16) -> Seq<u8> {
    seq![(v % 256) as u8, (v / 256) as u8]
}

/// The four-byte little-endian encoding of `v`.
pub open spec fn le_bytes_u32(v: u32) -> Seq<u8> {
    seq![
        (v % 256) as u8,
        (v / 0x100 % 256) as u8,
        (v / 0x1_0000 % 256) as u8,
        (v / 0x100_0000) as u8,
    ]
}

/// The eight-byte little-endian encoding of `v`.
pub open spec fn le_bytes_u64(v: u64) -> Seq<u8> {
    seq![
        (v % 256) as u8,
        (v / 0x100 % 256) as u8,
        (v / 0x1_0000 % 256) as u8,
        (v / 0x100_0000 % 256) as u8,
        (v / 0x1_0000_0000 % 256) as u8,
        (v / 0x100_0000_0000 % 256) as u8,
        (v / 0x1_0000_0000_0000 % 256) as u8,
        (v / 0x100_0000_0000_0000) as u8,
    ]
}

/// Adding one byte at the end adds its value to the sum.
pub proof fn lemma_byte_sum_push(s: Seq<u8>, b: u8)
    ensures
        byte_sum(s.push(b)) == byte_sum(s) + b as int,
{
    assert(s.push(b).drop_last() =~= s);
}

/// The sum of a concatenation is the sum of the sums.
pub proof fn lemma_byte_sum_concat(a: Seq<u8>, b: Seq<u8>)
    ensures
        byte_sum(a + b) == byte_sum(a) + byte_sum(b),
    decreases b.len(),
{
    if b.len() == 0 {
        assert(a + b =~= a);
    } else {
        lemma_byte_sum_concat(a, b.drop_last());
        assert((a + b).drop_last() =~= a + b.drop_last());
    }
}

/// Zero bytes sum to zero.
pub proof fn lemma_byte_sum_zeros(s: Seq<u8>)
    requires
        forall|i: int| 0 <= i < s.len() ==> s[i] == 0,
    ensures
        byte_sum(s) == 0,
    decreases s.len(),
{
    if s.len() > 0 {
        lemma_byte_sum_zeros(s.drop_last());
    }
}

/// A sequence followed by the balancing byte of its sum is balanced.
pub proof fn lemma_balancing_byte_balances(s: Seq<u8>)
    ensures
        balanced(s.push(balancing_byte(byte_sum(s)))),
{
    lemma_byte_sum_push(s, balancing_byte(byte_sum(s)));
}

/// Encodes `v` as two bytes, least significant first.
pub fn u16_to_le(v: u16) -> (r: [u8; 2])
    ensures
        r@ == le_bytes_u16(v),
{
    let r: [u8; 2] = [(v % 256) as u8, (v / 256) as u8];
    assert(r@ =~= le_bytes_u16(v));
    r
}

/// Encodes `v` as four bytes, least significant first.
pub fn u32_to_le(v: u32) -> (r: [u8; 4])
    ensures
        r@ == le_bytes_u32(v),
{
    let r: [u8; 4] = [
        (v % 256) as u8,
        (v / 0x100 % 256) as u8,
        (v / 0x1_0000 % 256) as u8,
        (v / 0x100_0000) as u8,
    ];
    assert(r@ =~= le_bytes_u32(v));
    r
}

/// Encodes `v` as eight bytes, least significant first.
pub fn u64_to_le(v: u64) -> (r: [u8; 8])
    ensures
        r@ == le_bytes_u64(v),
{
    let r: [u8; 8] = [
        (v % 256) as u8,
        (v / 0x100 % 256) as u8,
        (v / 0x1_0000 % 256) as u8,
        (v / 0x100_0000 % 256) as u8,
        (v / 0x1_0000_0000 % 256) as u8,
        (v / 0x100_0000_0000 % 256) as u8,
        (v / 0x1_0000_0000_0000 % 256) as u8,
        (v / 0x100_0000_0000_0000) as u8,
    ];
    assert(r@ =~= le_bytes_u64(v));
    r
}

} // verus!
