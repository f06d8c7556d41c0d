//! What holds of the operations on big integers, whatever their operands.

use vstd::prelude::*;
use core::cmp::Ordering;
use vstd::arithmetic::div_mod::lemma_small_mod;
use vstd::std_specs::cmp::{PartialEqSpec, PartialOrdSpec};
use crate::biginteger::{
    BigInteger, modulus, value_ordering, widened, wrapped_difference, wrapped_double, wrapped_sum,
};
use crate::utils::word_base;
use crate::value::{
    bit_length, weight, words_value, lemma_bit_length_monotonic, lemma_value_bound,
    lemma_value_injective, lemma_value_zero, lemma_value_zero_upper, lemma_weight_step,
};

verus! {

/// Two big integers have the same value exactly when they hold the same
/// words, and then they are the same big integer.
pub proof fn lemma_value_determines_words(a: BigInteger, b: BigInteger)
    ensures
        (a.value() == b.value()) == (a == b),
        (a.value() == b.value()) == (a.0@ == b.0@),
        (a.value() == b.value()) == a.eq_spec(&b),
        a.value() < modulus(),
{
    lemma_value_bound(a.0@, 33);
    if a.value() == b.value() {
        lemma_value_injective(a.0@, b.0@, 33);
        assert(a.0@ =~= b.0@);
        assert(a.0 =~= b.0);
    }
    if a.0@ == b.0@ {
        assert(a.0 =~= b.0);
    }
}

/// Every big integer equals itself, and compares as equal to itself.
pub proof fn lemma_reflexive(a: BigInteger)
    ensures
        a.eq_spec(&a),
        value_ordering(a.value(), a.value()) == Ordering::Equal,
        a.partial_cmp_spec(&a) == Some(Ordering::Equal),
{
}

/// The order of big integers is that of their values, and so a strict total
/// order: of two big integers one is less, or they are the same, or the other
/// is less; and what is less than something less than a third is less than
/// the third.
pub proof fn lemma_total_order(a: BigInteger, b: BigInteger, c: BigInteger)
    ensures
        (value_ordering(a.value(), b.value()) == Ordering::Less) == (a.value() < b.value()),
        (value_ordering(a.value(), b.value()) == Ordering::Greater) == (a.value() > b.value()),
        (value_ordering(a.value(), b.value()) == Ordering::Equal) == (a == b),
        (value_ordering(a.value(), b.value()) == Ordering::Less) == (value_ordering(
            b.value(),
            a.value(),
        ) == Ordering::Greater),
        value_ordering(a.value(), b.value()) == Ordering::Less && value_ordering(
            b.value(),
            c.value(),
        ) == Ordering::Less ==> value_ordering(a.value(), c.value()) == Ordering::Less,
{
    lemma_value_determines_words(a, b);
}

/// Where `sum` is what adding zero to `a` leaves, `sum` is `a`, and the
/// addition reports no carry.
pub proof fn lemma_add_zero(a: BigInteger, z: BigInteger, sum: BigInteger)
    requires
        z.value() == 0,
        sum.value() == wrapped_sum(a.value(), z.value()),
    ensures
        sum == a,
        a.value() + z.value() < modulus(),
{
    lemma_value_bound(a.0@, 33);
    lemma_small_mod(a.value(), modulus());
    lemma_value_determines_words(sum, a);
}

/// Addition gives the same big integer and the same carry whichever
/// operand comes first.
pub proof fn lemma_add_commutative(a: BigInteger, b: BigInteger, ab: BigInteger, ba: BigInteger)
    requires
        ab.value() == wrapped_sum(a.value(), b.value()),
        ba.value() == wrapped_sum(b.value(), a.value()),
    ensures
        ab == ba,
        (a.value() + b.value() >= modulus()) == (b.value() + a.value() >= modulus()),
{
    lemma_value_determines_words(ab, ba);
}

/// Where `difference` is what subtracting zero from `a` leaves, it is `a`,
/// and the subtraction reports no borrow.
pub proof fn lemma_sub_zero(a: BigInteger, z: BigInteger, difference: BigInteger)
    requires
        z.value() == 0,
        difference.value() == wrapped_difference(a.value(), z.value()),
    ensures
        difference == a,
        !(a.value() < z.value()),
{
    lemma_value_bound(a.0@, 33);
    lemma_small_mod(a.value(), modulus());
    lemma_value_determines_words(difference, a);
}

/// Where `difference` is what subtracting `a` from itself leaves, it is
/// zero in every word, and the subtraction reports no borrow.
pub proof fn lemma_sub_self(a: BigInteger, difference: BigInteger)
    requires
        difference.value() == wrapped_difference(a.value(), a.value()),
    ensures
        difference.value() == 0,
        forall|j: int| 0 <= j < 33 ==> difference.0[j] == 0,
        !(a.value() < a.value()),
{
    lemma_weight_step(33);
    lemma_small_mod(0, modulus());
    lemma_value_zero(difference.0@, 33);
}

/// Where bit 2111 of `a`, the top bit of its most significant word, is 0,
/// doubling `a` and halving the result gives `a` back.
pub proof fn lemma_double_then_halve(a: BigInteger, doubled: BigInteger, halved: BigInteger)
    requires
        a.0[32] < 0x8000_0000_0000_0000,
        doubled.value() == wrapped_double(a.value()),
        halved.value() == doubled.value() / 2,
    ensures
        doubled.value() == 2 * a.value(),
        halved == a,
{
    lemma_value_bound(a.0@, 32);
    lemma_weight_step(32);
    let top = a.0[32] as nat;
    let w = weight(32);
    assert(2 * (top * w + w) <= w * word_base()) by (nonlinear_arith)
        requires
            top + 1 <= 0x8000_0000_0000_0000,
            word_base() == 0x1_0000_0000_0000_0000,
            w > 0,
    ;
    lemma_small_mod(2 * a.value(), modulus());
    lemma_value_determines_words(halved, a);
}

/// A big integer with a larger value does not have fewer bits.
pub proof fn lemma_num_bits_monotonic(a: BigInteger, b: BigInteger)
    requires
        a.value() <= b.value(),
    ensures
        bit_length(a.value()) <= bit_length(b.value()),
{
    lemma_bit_length_monotonic(a.value(), b.value());
}

/// A word widened to a big integer keeps its value: the word stands at
/// index 0, and every other word is zero.
pub proof fn lemma_widened_value(v: u64)
    ensures
        widened(v).value() == v,
        widened(v).0[0] == v,
        forall|j: int| 1 <= j < 33 ==> widened(v).0[j] == 0,
{
    let w = widened(v).0@;
    lemma_value_zero_upper(w, 1, 33);
    lemma_weight_step(0);
    assert(words_value(w, 0) == 0);
    assert(words_value(w, 1) == words_value(w, 0) + (w[0] as nat) * weight(0));
}

} // verus!
