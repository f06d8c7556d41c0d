//! The big integer: 33 words of 64 bits, least significant word first.

use vstd::prelude::*;
use core::cmp::Ordering;
use vstd::arithmetic::power2::pow2;
use vstd::array::{spec_array_fill_for_copy_type, spec_array_update};
use vstd::arithmetic::div_mod::lemma_fundamental_div_mod_converse;
use crate::utils::{add_with_carry, sub_with_borrow, word_base};
use crate::value::{
    bit_length, weight, words_value, lemma_weight_step, lemma_value_bound, lemma_value_frame,
    lemma_value_upper_frame, lemma_value_zero_upper, lemma_value_zero, lemma_word_bit_length,
    lemma_value_bit_length, lemma_bit_length_bounds, lemma_value_parity,
    lemma_value_decided_by_top_difference,
};

verus! {

/// An unsigned integer below 2^2112, held as 33 words of 64 bits with the
/// least significant word at index 0.
#[derive(Copy, Clone)]
pub struct BigInteger(pub [u64; 33]);

/// The number of values of a big integer: 2^2112.
pub open spec fn modulus() -> nat {
    weight(33)
}

/// What an addition leaves: the sum, less 2^2112 where it does not fit.
pub open spec fn wrapped_sum(a: nat, b: nat) -> nat {
    (a + b) % modulus()
}

/// What a subtraction leaves: the difference, and 2^2112 more where it
/// would be negative.
pub open spec fn wrapped_difference(a: nat, b: nat) -> nat {
    ((a - b) % (modulus() as int)) as nat
}

/// What a doubling leaves: twice the number, less 2^2112 where that does not
/// fit.
pub open spec fn wrapped_double(a: nat) -> nat {
    (2 * a) % modulus()
}

/// How two numbers compare.
pub open spec fn value_ordering(a: nat, b: nat) -> Ordering {
    if a < b {
        Ordering::Less
    } else if a == b {
        Ordering::Equal
    } else {
        Ordering::Greater
    }
}

/// The big integer whose least significant word is `v` and whose other
/// words are zero.
pub open spec fn widened(v: u64) -> BigInteger {
    BigInteger(spec_array_update(spec_array_fill_for_copy_type::<u64, 33>(0), 0, v))
}

/// Of two big integers that agree in every word above word `k`, the one with
/// the smaller word `k` is the smaller.
pub proof fn lemma_top_difference_decides(a: &BigInteger, b: &BigInteger, k: usize)
    requires
        k < 33,
        a.0[k as int] < b.0[k as int],
        forall|j: int| k < j < 33 ==> a.0[j] == b.0[j],
    ensures
        a.value() < b.value(),
{
    lemma_value_decided_by_top_difference(a.0@, b.0@, k as nat, 33);
}

impl BigInteger {
    /// The number that the words stand for.
    pub open spec fn value(&self) -> nat {
        words_value(self.0@, 33)
    }

    /// Wraps 33 words, least significant first.
    pub fn new(input: [u64; 33]) -> (r: BigInteger)
        ensures
            r.0 == input,
    {
        BigInteger(input)
    }

    /// Whether the value is odd.
    pub fn is_odd(&self) -> (r: bool)
        ensures
            r == (self.value() % 2 == 1),
            r == (self.0[0] & 1 == 1),
    {
        let w: u64 = self.0[0];
        proof {
            assert((w & 1 == 1) == (w % 2 == 1)) by (bit_vector);
            lemma_value_parity(self.0@, 33);
        }
        w & 1 == 1
    }

    /// Whether the value is even.
    pub fn is_even(&self) -> (r: bool)
        ensures
            r == (self.value() % 2 == 0),
            r == !(self.0[0] & 1 == 1),
    {
        !self.is_odd()
    }

    /// Whether every word is zero.
    pub fn is_zero(&self) -> (r: bool)
        ensures
            r == (self.value() == 0),
            r == (forall|j: int| 0 <= j < 33 ==> self.0[j] == 0),
    {
        let mut i: usize = 0;
        while i < 33
            invariant
                i <= 33,
                forall|j: int| 0 <= j < i ==> self.0[j] == 0,
            decreases 33 - i,
        {
            if self.0[i] != 0 {
                proof {
                    lemma_value_zero(self.0@, 33);
                }
                return false;
            }
            i += 1;
        }
        proof {
            lemma_value_zero(self.0@, 33);
        }
        true
    }

    /// Halves `self` in place, rounding down: a shift to the right by one
    /// bit, in which the least significant bit is lost.
    pub fn div2(&mut self)
        ensures
            final(self).value() == old(self).value() / 2,
    {
        let mut t: u64 = 0;
        let ghost mut tbit: int = 0;
        let mut i: usize = 33;
        while i > 0
            invariant
                i <= 33,
                0 <= tbit <= 1,
                t == tbit * 0x8000_0000_0000_0000,
                forall|j: int| 0 <= j < i ==> self.0[j] == old(self).0[j],
                2 * (words_value(self.0@, 33) - words_value(self.0@, i as nat)) + tbit * weight(
                    i as nat,
                ) == words_value(old(self).0@, 33) - words_value(old(self).0@, i as nat),
            decreases i,
        {
            i -= 1;
            let ghost before = self.0@;
            let w: u64 = self.0[i];
            let t2: u64 = w << 63;
            let shifted: u64 = (w >> 1) | t;
            self.0[i] = shifted;
            proof {
                assert((t == 0 || t == 0x8000_0000_0000_0000) ==> ((w >> 1) | t) == (w >> 1) + t)
                    by (bit_vector);
                assert(2 * (w >> 1) + (w & 1) == w && (w & 1) <= 1 && (w << 63) == (w & 1)
                    * 0x8000_0000_0000_0000) by (bit_vector);
                lemma_value_frame(before, self.0@, i as nat);
                lemma_value_frame(before, old(self).0@, i as nat);
                lemma_value_upper_frame(self.0@, before, (i + 1) as nat, 33);
                lemma_weight_step(i as nat);
                let wi = weight(i as nat) as int;
                let half = (w >> 1) as int;
                let low = (w & 1) as int;
                assert(2 * ((half + tbit * 0x8000_0000_0000_0000) * wi) + low * wi == (2 * half
                    + low) * wi + tbit * (wi * word_base())) by (nonlinear_arith)
                    requires
                        word_base() == 0x1_0000_0000_0000_0000,
                ;
                tbit = low;
            }
            t = t2;
        }
        proof {
            lemma_weight_step(0);
        }
    }

    /// Doubles `self` in place, modulo 2^2112: a shift to the left by one
    /// bit, in which the bit that leaves the most significant word is lost.
    pub fn mul2(&mut self)
        ensures
            final(self).value() == wrapped_double(old(self).value()),
    {
        let mut last: u64 = 0;
        let mut i: usize = 0;
        while i < 33
            invariant
                i <= 33,
                last <= 1,
                forall|j: int| i <= j < 33 ==> self.0[j] == old(self).0[j],
                words_value(self.0@, i as nat) + last * weight(i as nat) == 2 * words_value(
                    old(self).0@,
                    i as nat,
                ),
            decreases 33 - i,
        {
            let ghost before = self.0@;
            let w: u64 = self.0[i];
            let tmp: u64 = w >> 63;
            let shifted: u64 = (w << 1) | last;
            self.0[i] = shifted;
            proof {
                assert(last <= 1 ==> ((w << 1) | last) + (w >> 63) * 0x1_0000_0000_0000_0000 == 2
                    * w + last && (w >> 63) <= 1) by (bit_vector);
                lemma_value_frame(before, self.0@, i as nat);
                lemma_weight_step(i as nat);
                let wi = weight(i as nat) as int;
                assert(shifted * wi + tmp * (wi * word_base()) == (shifted + tmp * word_base())
                    * wi) by (nonlinear_arith);
                assert((2 * w + last) * wi == 2 * (w * wi) + last * wi) by (nonlinear_arith);
            }
            last = tmp;
            i += 1;
        }
        proof {
            lemma_value_bound(self.0@, 33);
            lemma_value_bound(old(self).0@, 33);
            let m = modulus() as int;
            let d = (2 * old(self).value()) as int;
            let v = self.value() as int;
            lemma_fundamental_div_mod_converse(d, m, last as int, v);
        }
    }

    /// The number of bits that it takes to write `self` in binary: the
    /// position of the most significant set bit, counted from 1, and 0 where
    /// no bit is set.
    pub fn num_bits(&self) -> (r: u32)
        ensures
            r == bit_length(self.value()),
            r <= 2112,
            self.value() < pow2(r as nat),
            r > 0 ==> pow2((r - 1) as nat) <= self.value(),
    {
        let mut ret: u32 = 33 * 64;
        let mut i: usize = 33;
        while i > 0
            invariant_except_break
                i <= 33,
                ret == 64 * i,
                forall|j: int| i <= j < 33 ==> self.0[j] == 0,
            ensures
                ret == bit_length(self.value()) || (ret == 0 && forall|j: int|
                    0 <= j < 33 ==> self.0[j] == 0),
                ret <= 2112,
            decreases i,
        {
            i -= 1;
            let leading: u32 = self.0[i].leading_zeros();
            proof {
                lemma_word_bit_length(self.0[i as int]);
            }
            ret -= leading;
            if leading != 64 {
                proof {
                    lemma_value_zero_upper(self.0@, (i + 1) as nat, 33);
                    lemma_value_bit_length(self.0@, i as nat);
                }
                break;
            }
        }
        proof {
            lemma_value_zero(self.0@, 33);
            lemma_bit_length_bounds(self.value());
        }
        ret
    }

    /// Adds `other` to `self` in place, modulo 2^2112, and reports whether
    /// the true sum did not fit.
    pub fn add_nocarry(&mut self, other: &BigInteger) -> (carry: bool)
        ensures
            final(self).value() == wrapped_sum(old(self).value(), other.value()),
            carry == (old(self).value() + other.value() >= modulus()),
            final(self).value() + (if carry { modulus() } else { 0 }) == old(self).value()
                + other.value(),
    {
        let mut carry: u64 = 0;
        let mut i: usize = 0;
        while i < 33
            invariant
                i <= 33,
                carry <= 1,
                forall|j: int| i <= j < 33 ==> self.0[j] == old(self).0[j],
                words_value(self.0@, i as nat) + carry * weight(i as nat) == words_value(
                    old(self).0@,
                    i as nat,
                ) + words_value(other.0@, i as nat),
            decreases 33 - i,
        {
            let ghost before = self.0@;
            let (low, high) = add_with_carry(self.0[i], other.0[i], carry);
            self.0[i] = low;
            proof {
                lemma_value_frame(before, self.0@, i as nat);
                lemma_weight_step(i as nat);
                let wi = weight(i as nat);
                assert(low * wi + high * (wi * word_base()) == (low + high * word_base()) * wi)
                    by (nonlinear_arith);
                let x = before[i as int] as int;
                let y = other.0[i as int] as int;
                let c = carry as int;
                assert((x + y + c) * wi == x * wi + y * wi + c * wi) by (nonlinear_arith);
            }
            carry = high;
            i += 1;
        }
        proof {
            lemma_value_bound(self.0@, 33);
            lemma_value_bound(old(self).0@, 33);
            lemma_value_bound(other.0@, 33);
            let m = modulus() as int;
            let s = (old(self).value() + other.value()) as int;
            let v = self.value() as int;
            lemma_fundamental_div_mod_converse(s, m, carry as int, v);
        }
        carry != 0
    }

    /// Subtracts `other` from `self` in place, modulo 2^2112, and reports
    /// whether `self` was the smaller of the two.
    pub fn sub_noborrow(&mut self, other: &BigInteger) -> (borrow: bool)
        ensures
            final(self).value() == wrapped_difference(old(self).value(), other.value()),
            borrow == (old(self).value() < other.value()),
            final(self).value() - (if borrow { modulus() } else { 0 }) == old(self).value()
                - other.value(),
    {
        let mut borrow: u64 = 0;
        let mut i: usize = 0;
        while i < 33
            invariant
                i <= 33,
                borrow <= 1,
                forall|j: int| i <= j < 33 ==> self.0[j] == old(self).0[j],
                words_value(self.0@, i as nat) - borrow * weight(i as nat) == words_value(
                    old(self).0@,
                    i as nat,
                ) - words_value(other.0@, i as nat),
            decreases 33 - i,
        {
            let ghost before = self.0@;
            let (low, out) = sub_with_borrow(self.0[i], other.0[i], borrow);
            self.0[i] = low;
            proof {
                lemma_value_frame(before, self.0@, i as nat);
                lemma_weight_step(i as nat);
                let wi = weight(i as nat) as int;
                let x = before[i as int] as int;
                let y = other.0[i as int] as int;
                let c = borrow as int;
                assert(low * wi - out * (wi * word_base()) == (low - out * word_base()) * wi)
                    by (nonlinear_arith);
                assert((x - y - c) * wi == x * wi - y * wi - c * wi) by (nonlinear_arith);
            }
            borrow = out;
            i += 1;
        }
        proof {
            lemma_value_bound(self.0@, 33);
            lemma_value_bound(old(self).0@, 33);
            lemma_value_bound(other.0@, 33);
            let m = modulus() as int;
            let d = old(self).value() - other.value();
            let v = self.value() as int;
            lemma_fundamental_div_mod_converse(d, m, -(borrow as int), v);
        }
        borrow != 0
    }

    /// Compares the values of `self` and `other`, from the most significant
    /// word down: the first word in which they differ decides.
    pub fn cmp(&self, other: &BigInteger) -> (r: Ordering)
        ensures
            r == value_ordering(self.value(), other.value()),
    {
        let mut i: usize = 33;
        while i > 0
            invariant
                i <= 33,
                forall|j: int| i <= j < 33 ==> self.0[j] == other.0[j],
            decreases i,
        {
            i -= 1;
            let a: u64 = self.0[i];
            let b: u64 = other.0[i];
            if a < b {
                proof {
                    lemma_top_difference_decides(self, other, i);
                }
                return Ordering::Less;
            } else if a > b {
                proof {
                    lemma_top_difference_decides(other, self, i);
                }
                return Ordering::Greater;
            }
        }
        proof {
            lemma_value_frame(self.0@, other.0@, 33);
        }
        Ordering::Equal
    }
}

impl PartialEq for BigInteger {
    /// Whether `self` and `other` hold the same 33 words.
    fn eq(&self, other: &BigInteger) -> (r: bool) {
        let mut i: usize = 0;
        while i < 33
            invariant
                i <= 33,
                forall|j: int| 0 <= j < i ==> self.0[j] == other.0[j],
            decreases 33 - i,
        {
            if self.0[i] != other.0[i] {
                return false;
            }
            i += 1;
        }
        assert(self.0@ =~= other.0@);
        true
    }

    /// Whether `self` and `other` differ in some word.
    fn ne(&self, other: &BigInteger) -> (r: bool) {
        !self.eq(other)
    }
}

impl Eq for BigInteger {

}

impl vstd::std_specs::cmp::PartialEqSpecImpl for BigInteger {
    open spec fn obeys_eq_spec() -> bool {
        true
    }

    open spec fn eq_spec(&self, other: &BigInteger) -> bool {
        self.0@ == other.0@
    }
}

impl PartialOrd for BigInteger {
    /// The order of the values; it is total, so the result is never `None`.
    fn partial_cmp(&self, other: &BigInteger) -> (r: Option<Ordering>) {
        Some(self.cmp(other))
    }
}

impl vstd::std_specs::cmp::PartialOrdSpecImpl for BigInteger {
    open spec fn obeys_partial_cmp_spec() -> bool {
        true
    }

    open spec fn partial_cmp_spec(&self, other: &BigInteger) -> Option<Ordering> {
        Some(value_ordering(self.value(), other.value()))
    }
}

impl From<u64> for BigInteger {
    /// The big integer with the value of one word.
    fn from(val: u64) -> (r: BigInteger) {
        let mut repr = BigInteger([0u64; 33]);
        repr.0[0] = val;
        assert(repr.0 =~= widened(val).0);
        repr
    }
}

impl vstd::std_specs::convert::FromSpecImpl<u64> for BigInteger {
    open spec fn obeys_from_spec() -> bool {
        true
    }

    open spec fn from_spec(v: u64) -> BigInteger {
        widened(v)
    }
}

impl AsRef<[u64]> for BigInteger {
    /// The 33 words, least significant first.
    fn as_ref(&self) -> (r: &[u64])
        ensures
            r@ == self.0@,
    {
        &self.0
    }
}

} // verus!
