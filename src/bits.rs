//! Facts about single bits of a byte and about splitting a bit position
//! into a byte position and a bit offset.
use vstd::prelude::*;

verus! {

/// Whether bit `pos` (0 is the least significant) of `byte` is one.
pub open spec fn bit_of(byte: u8, pos: u8) -> bool {
    (byte >> pos) & 1u8 == 1u8
}

/// Number of bytes needed to hold `size` bits.
pub open spec fn block_count(size: nat) -> nat {
    if size == 0 {
        0
    } else {
        ((size - 1) as nat / 8) + 1
    }
}

/// The byte that holds bit position `i`.
pub open spec fn byte_index(i: int) -> int {
    i / 8
}

/// The offset of bit position `i` inside its byte.
pub open spec fn bit_offset(i: int) -> u8 {
    (i % 8) as u8
}

/// Shifting right by three divides by eight; masking with seven keeps the
/// remainder.
pub proof fn lemma_split_position(p: usize)
    ensures
        p >> 3usize == p / 8,
        p & 7usize == p % 8,
{
    assert(p >> 3usize == p / 8) by (bit_vector);
    assert(p & 7usize == p % 8) by (bit_vector);
}

/// Masking a byte with a single bit tests that bit.
pub proof fn lemma_mask_test(byte: u8, pos: u8)
    requires
        pos < 8,
    ensures
        (byte & (1u8 << pos) != 0) == bit_of(byte, pos),
{
    assert((byte & (1u8 << pos) != 0) == ((byte >> pos) & 1u8 == 1u8)) by (bit_vector)
        requires
            pos < 8,
    ;
}

/// Or-ing in a single bit sets that bit and keeps the others.
pub proof fn lemma_mask_set(byte: u8, pos: u8, other: u8)
    requires
        pos < 8,
        other < 8,
    ensures
        bit_of(byte | (1u8 << pos), other) == (other == pos || bit_of(byte, other)),
{
    assert(((((byte | (1u8 << pos)) >> other) & 1u8) == 1u8) == (other == pos || ((byte
        >> other) & 1u8) == 1u8)) by (bit_vector)
        requires
            pos < 8,
            other < 8,
    ;
}

/// And-ing with the complement of a single bit clears that bit and keeps
/// the others.
pub proof fn lemma_mask_clear(byte: u8, pos: u8, other: u8)
    requires
        pos < 8,
        other < 8,
    ensures
        bit_of(byte & !(1u8 << pos), other) == (other != pos && bit_of(byte, other)),
{
    assert(((((byte & !(1u8 << pos)) >> other) & 1u8) == 1u8) == (other != pos && ((byte
        >> other) & 1u8) == 1u8)) by (bit_vector)
        requires
            pos < 8,
            other < 8,
    ;
}

/// No bit of a zero byte is set.
pub proof fn lemma_zero_byte(pos: u8)
    ensures
        !bit_of(0u8, pos),
{
    assert(((0u8 >> pos) & 1u8) != 1u8) by (bit_vector);
}

} // verus!
