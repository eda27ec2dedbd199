//! Bit-level model of 160-bit identifiers: bit indexing, byte-wise XOR, and
//! the count of leading zero bits that drives bucket placement.

use vstd::prelude::*;

verus! {

/// True iff bit `i` of the 160-bit value `s` is set; bit 0 is the most
/// significant bit of byte 0.
pub open spec fn bit_of(s: Seq<u8>, i: int) -> bool {
    (s[i / 8] >> ((7 - (i % 8)) as u8)) & 1u8 == 1u8
}

/// Byte-wise XOR of two equal-length byte strings.
pub open spec fn xor_bytes(a: Seq<u8>, b: Seq<u8>) -> Seq<u8> {
    Seq::new(a.len(), |i: int| a[i] ^ b[i])
}

/// Index of the first set bit at or after position `i`, or 160 if bits
/// `i..160` are all clear.
pub open spec fn first_one_from(d: Seq<u8>, i: int) -> int
    decreases 160 - i,
{
    if i >= 160 {
        160
    } else if bit_of(d, i) {
        i
    } else {
        first_one_from(d, i + 1)
    }
}

/// Number of leading zero bits of a 20-byte value, between 0 and 160.
pub open spec fn shared_prefix_len(d: Seq<u8>) -> int {
    first_one_from(d, 0)
}

pub proof fn lemma_first_one_bounds(d: Seq<u8>, i: int)
    requires
        0 <= i <= 160,
    ensures
        i <= first_one_from(d, i) <= 160,
        forall|j: int| i <= j < first_one_from(d, i) ==> !bit_of(d, j),
        first_one_from(d, i) < 160 ==> bit_of(d, first_one_from(d, i)),
    decreases 160 - i,
{
    if i < 160 && !bit_of(d, i) {
        lemma_first_one_bounds(d, i + 1);
    }
}

pub proof fn lemma_first_one_is(d: Seq<u8>, i: int, k: int)
    requires
        0 <= i <= k <= 160,
        forall|j: int| i <= j < k ==> !bit_of(d, j),
        k < 160 ==> bit_of(d, k),
    ensures
        first_one_from(d, i) == k,
    decreases 160 - i,
{
    if i < k {
        lemma_first_one_is(d, i + 1, k);
    }
}

/// The leading-zero count of a 20-byte value is `k` exactly when bits `0..k`
/// are clear and, unless `k` is 160, bit `k` is set.
pub proof fn lemma_prefix_len_is(d: Seq<u8>, k: int)
    requires
        0 <= k <= 160,
        forall|j: int| 0 <= j < k ==> !bit_of(d, j),
        k < 160 ==> bit_of(d, k),
    ensures
        shared_prefix_len(d) == k,
{
    lemma_first_one_is(d, 0, k);
}

pub proof fn lemma_prefix_len_bounds(d: Seq<u8>)
    ensures
        0 <= shared_prefix_len(d) <= 160,
        forall|j: int| 0 <= j < shared_prefix_len(d) ==> !bit_of(d, j),
        shared_prefix_len(d) < 160 ==> bit_of(d, shared_prefix_len(d)),
{
    lemma_first_one_bounds(d, 0);
}

/// Every bit of a zero byte is clear.
pub proof fn lemma_zero_byte_bit(x: u8, sh: u8)
    requires
        x == 0,
    ensures
        (x >> sh) & 1u8 != 1u8,
{
    assert((x >> sh) & 1u8 != 1u8) by (bit_vector)
        requires
            x == 0u8,
    ;
}

/// Bit `i` of an XOR is set exactly when the operands' bits differ there.
pub proof fn lemma_bit_of_xor(a: Seq<u8>, b: Seq<u8>, i: int)
    requires
        a.len() == 20,
        b.len() == 20,
        0 <= i < 160,
    ensures
        bit_of(xor_bytes(a, b), i) == (bit_of(a, i) != bit_of(b, i)),
{
    let x = a[i / 8];
    let y = b[i / 8];
    let sh: u8 = (7 - (i % 8)) as u8;
    assert(0 <= i / 8 < 20);
    assert(xor_bytes(a, b)[i / 8] == (x ^ y));
    assert((((x ^ y) >> sh) & 1u8 == 1u8) == (((x >> sh) & 1u8 == 1u8) != ((y >> sh) & 1u8
        == 1u8))) by (bit_vector);
}

/// Relates bit `8 * m + j` of a byte string to bit `j` of its byte `m`.
pub proof fn lemma_bit_of_byte(s: Seq<u8>, m: int, j: int)
    requires
        0 <= m,
        0 <= j < 8,
    ensures
        bit_of(s, 8 * m + j) == ((s[m] >> ((7 - j) as u8)) & 1u8 == 1u8),
{
    assert((8 * m + j) / 8 == m && (8 * m + j) % 8 == j) by (nonlinear_arith)
        requires
            0 <= m,
            0 <= j < 8,
    ;
}

} // verus!
