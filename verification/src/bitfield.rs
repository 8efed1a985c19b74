//! Bit vectors of the `bit-vec` crate, as used for piece and block maps.

use vstd::prelude::*;

verus! {

/// The bit vector of the `bit-vec` crate.
#[verifier::external_type_specification]
#[verifier::external_body]
#[verifier::reject_recursive_types(B)]
pub struct ExBitVec<B>(bit_vec::BitVec<B>);

/// The bits that a bit vector holds, in index order.
pub uninterp spec fn bits_of(bits: bit_vec::BitVec) -> Seq<bool>;

/// Bit `k` of a byte, counted from the most significant bit.
pub open spec fn byte_bit(byte: u8, k: int) -> bool {
    (byte >> ((7 - k) as u8)) & 1u8 == 1u8
}

/// The bits of a byte string: each byte gives eight, the most significant one first.
pub open spec fn bits_of_bytes(bytes: Seq<u8>) -> Seq<bool> {
    Seq::new(8 * bytes.len(), |i: int| byte_bit(bytes[i / 8], i % 8))
}

/// `BitVec::new`: no bits.
#[verifier::external_body]
pub(crate) fn empty_bits() -> (r: bit_vec::BitVec)
    ensures
        bits_of(r) == Seq::<bool>::empty(),
{
    bit_vec::BitVec::new()
}

/// `BitVec::from_elem`: `count` bits, all of them `bit`.
#[verifier::external_body]
pub(crate) fn repeated_bits(count: usize, bit: bool) -> (r: bit_vec::BitVec)
    ensures
        bits_of(r) == Seq::new(count as nat, |i: int| bit),
{
    bit_vec::BitVec::from_elem(count, bit)
}

/// `BitVec::from_bytes`: eight bits for each byte, the most significant first. The call panics
/// when the number of bits does not fit in a `usize`.
#[verifier::external_body]
pub(crate) fn bits_from_bytes(bytes: &[u8]) -> (r: bit_vec::BitVec)
    requires
        8 * bytes@.len() <= usize::MAX,
    ensures
        bits_of(r) == bits_of_bytes(bytes@),
{
    bit_vec::BitVec::from_bytes(bytes)
}

/// `BitVec::get`: the bit at an index, or `None` behind the last one.
#[verifier::external_body]
pub(crate) fn bit_at(bits: &bit_vec::BitVec, index: usize) -> (r: Option<bool>)
    ensures
        r == (if index < bits_of(*bits).len() {
            Some(bits_of(*bits)[index as int])
        } else {
            None
        }),
{
    bits.get(index)
}

/// A byte is the sum of its bits, the most significant one first, and a byte string has the bits of
/// its bytes in their order.
pub proof fn law_bits_of_bytes(bytes: Seq<u8>, i: int, k: int)
    ensures
        bits_of_bytes(bytes).len() == 8 * bytes.len(),
        0 <= i < bytes.len() && 0 <= k < 8 ==> bits_of_bytes(bytes)[8 * i + k] == byte_bit(
            bytes[i],
            k,
        ),
        0 <= i < bytes.len() ==> bytes[i] == weight(bytes[i], 0, 128) + weight(bytes[i], 1, 64)
            + weight(bytes[i], 2, 32) + weight(bytes[i], 3, 16) + weight(bytes[i], 4, 8) + weight(
            bytes[i],
            5,
            4,
        ) + weight(bytes[i], 6, 2) + weight(bytes[i], 7, 1),
{
    if 0 <= i < bytes.len() {
        let b = bytes[i];
        assert(b == (if (b >> 7) & 1 == 1 {
            128u8
        } else {
            0u8
        }) + (if (b >> 6) & 1 == 1 {
            64u8
        } else {
            0u8
        }) + (if (b >> 5) & 1 == 1 {
            32u8
        } else {
            0u8
        }) + (if (b >> 4) & 1 == 1 {
            16u8
        } else {
            0u8
        }) + (if (b >> 3) & 1 == 1 {
            8u8
        } else {
            0u8
        }) + (if (b >> 2) & 1 == 1 {
            4u8
        } else {
            0u8
        }) + (if (b >> 1) & 1 == 1 {
            2u8
        } else {
            0u8
        }) + (if (b >> 0) & 1 == 1 {
            1u8
        } else {
            0u8
        })) by (bit_vector);
    }
}

/// What bit `k` of a byte adds to it, where the bit stands for `value`.
pub open spec fn weight(byte: u8, k: int, value: int) -> int {
    if byte_bit(byte, k) {
        value
    } else {
        0
    }
}

} // verus!
