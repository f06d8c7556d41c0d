//! Single-word addition and subtraction with an explicit carry or borrow.

use vstd::prelude::*;

verus! {

/// The number of values of one word: 2^64.
pub open spec fn word_base() -> int {
    0x1_0000_0000_0000_0000
}

/// Adds `a`, `b` and `carry_in` without losing the part of the sum that does
/// not fit in a word. The first component of the result is the low word of
/// the sum, the second is the part above it.
pub fn add_with_carry(a: u64, b: u64, carry_in: u64) -> (r: (u64, u64))
    ensures
        r.0 + r.1 * word_base() == a + b + carry_in,
        r.0 == (a + b + carry_in) % word_base(),
        r.1 == (a + b + carry_in) / word_base(),
        carry_in <= 1 ==> r.1 <= 1,
        r.1 <= 2,
{
    let wide: u128 = a as u128 + b as u128 + carry_in as u128;
    let low: u64 = (wide & 0xffff_ffff_ffff_ffff) as u64;
    let high: u64 = (wide >> 64) as u64;
    assert(wide & 0xffff_ffff_ffff_ffff == wide % 0x1_0000_0000_0000_0000) by (bit_vector);
    assert(wide >> 64 == wide / 0x1_0000_0000_0000_0000) by (bit_vector);
    (low, high)
}

/// Subtracts `b` and `borrow_in` from `a`, wrapping around at 2^64. The first
/// component of the result is the wrapped difference, the second is 1 when
/// `a` is less than `b + borrow_in` and 0 otherwise.
pub fn sub_with_borrow(a: u64, b: u64, borrow_in: u64) -> (r: (u64, u64))
    ensures
        r.0 == (a - b - borrow_in) % word_base(),
        r.1 == (if a < b + borrow_in { 1int } else { 0int }),
        borrow_in <= 1 ==> r.0 - r.1 * word_base() == a - b - borrow_in,
{
    let taken: u128 = b as u128 + borrow_in as u128;
    let wide: u128 = 0x2_0000_0000_0000_0000u128 + a as u128 - taken;
    let low: u64 = (wide & 0xffff_ffff_ffff_ffff) as u64;
    let out: u64 = if (a as u128) < taken { 1 } else { 0 };
    assert(wide & 0xffff_ffff_ffff_ffff == wide % 0x1_0000_0000_0000_0000) by (bit_vector);
    (low, out)
}

} // verus!
