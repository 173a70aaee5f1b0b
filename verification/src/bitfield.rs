//! Pure bit-packing primitives over a 64-bit word.
//!
//! A field is a contiguous run of bits, named either by its offset from the
//! most-significant end (the public API, matching the index format tables)
//! or by the position of its least-significant bit (the internal form that
//! the arithmetic is stated in). All reads and writes are plain shift/mask
//! arithmetic; no field semantics live here.

use vstd::prelude::*;
use crate::errors::CellError;

verus! {

/// The mask selecting the low `w` bits of a word.
pub open spec fn low_mask(w: u64) -> u64
    recommends
        w < 64,
{
    !(0xFFFF_FFFF_FFFF_FFFFu64 << w)
}

/// The value of the `w`-bit field whose least-significant bit sits at
/// position `s` (counted from the least-significant end of the word).
pub open spec fn get_bits(x: u64, s: u64, w: u64) -> u64
    recommends
        s + w <= 64,
        1 <= w < 64,
{
    (x >> s) & low_mask(w)
}

/// The word `x` with the `w`-bit field at least-significant-bit position `s`
/// replaced by `v`.
pub open spec fn set_bits(x: u64, s: u64, w: u64, v: u64) -> u64
    recommends
        s + w <= 64,
        1 <= w < 64,
        v < (1u64 << w),
{
    (x & !(low_mask(w) << s)) | (v << s)
}

/// A field read never exceeds its width's mask.
pub proof fn lemma_get_bits_bound(x: u64, s: u64, w: u64)
    requires
        s + w <= 64,
        1 <= w <= 63,
    ensures
        get_bits(x, s, w) < (1u64 << w),
{
    assert(get_bits(x, s, w) < (1u64 << w)) by (bit_vector)
        requires
            s + w <= 64,
            1 <= w <= 63,
    ;
}

/// Reading a field straight after writing it returns the written value.
pub proof fn lemma_set_then_get_same(x: u64, s: u64, w: u64, v: u64)
    requires
        s + w <= 64,
        1 <= w <= 63,
        v < (1u64 << w),
    ensures
        get_bits(set_bits(x, s, w, v), s, w) == v,
{
    assert(get_bits(set_bits(x, s, w, v), s, w) == v) by (bit_vector)
        requires
            s + w <= 64,
            1 <= w <= 63,
            v < (1u64 << w),
    ;
}

/// Writing one field leaves every field disjoint from it unchanged.
pub proof fn lemma_set_then_get_other(x: u64, s: u64, w: u64, v: u64, s2: u64, w2: u64)
    requires
        s + w <= 64,
        1 <= w <= 63,
        v < (1u64 << w),
        s2 + w2 <= 64,
        1 <= w2 <= 63,
        s2 + w2 <= s || s + w <= s2,
    ensures
        get_bits(set_bits(x, s, w, v), s2, w2) == get_bits(x, s2, w2),
{
    assert(get_bits(set_bits(x, s, w, v), s2, w2) == get_bits(x, s2, w2)) by (bit_vector)
        requires
            s + w <= 64,
            1 <= w <= 63,
            v < (1u64 << w),
            s2 + w2 <= 64,
            1 <= w2 <= 63,
            s2 + w2 <= s || s + w <= s2,
    ;
}

/// Reads the `width`-bit field whose least-significant bit sits at `lsb`.
pub(crate) fn read_bits(word: u64, lsb: u64, width: u64) -> (r: u64)
    requires
        lsb + width <= 64,
        1 <= width <= 63,
    ensures
        r == get_bits(word, lsb, width),
        r < (1u64 << width),
{
    proof {
        lemma_get_bits_bound(word, lsb, width);
    }
    (word >> lsb) & !(0xFFFF_FFFF_FFFF_FFFFu64 << width)
}

/// Replaces the `width`-bit field whose least-significant bit sits at `lsb`.
pub(crate) fn write_bits(word: u64, lsb: u64, width: u64, value: u64) -> (r: u64)
    requires
        lsb + width <= 64,
        1 <= width <= 63,
        value < (1u64 << width),
    ensures
        r == set_bits(word, lsb, width, value),
{
    (word & !(!(0xFFFF_FFFF_FFFF_FFFFu64 << width) << lsb)) | (value << lsb)
}

/// Reads a bit range given as (offset from the most-significant end, width).
pub fn get_field(word: u64, offset: u64, width: u64) -> (r: u64)
    requires
        offset + width <= 64,
        1 <= width <= 63,
    ensures
        r == get_bits(word, (64 - offset - width) as u64, width),
        r < (1u64 << width),
{
    read_bits(word, 64 - offset - width, width)
}

/// Writes a bit range given as (offset from the most-significant end, width).
/// Fails when the value does not fit in `width` bits; the word is returned
/// updated otherwise.
pub fn set_field(word: u64, offset: u64, width: u64, value: u64) -> (r: Result<u64, CellError>)
    requires
        offset + width <= 64,
        1 <= width <= 63,
    ensures
        value < (1u64 << width) ==> r == Ok::<u64, CellError>(
            set_bits(word, (64 - offset - width) as u64, width, value),
        ),
        value >= (1u64 << width) ==> r == Err::<u64, CellError>(CellError::FieldOverflow),
{
    let limit: u64 = 1u64 << width;
    if value >= limit {
        Err(CellError::FieldOverflow)
    } else {
        Ok(write_bits(word, 64 - offset - width, width, value))
    }
}

} // verus!
