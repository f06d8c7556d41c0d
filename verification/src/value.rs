//! The number that a sequence of words stands for, and the facts about it
//! that the arithmetic on big integers rests on.

use vstd::prelude::*;
use vstd::arithmetic::power2::{pow2, lemma_pow2_pos, lemma_pow2_adds, lemma_pow2_unfold, lemma2_to64};
use vstd::std_specs::bits::u64_leading_zeros;
use crate::utils::word_base;

verus! {

/// The weight of word `i` in a little-endian sequence of words: 2^(64 i).
pub open spec fn weight(i: nat) -> nat {
    pow2(64 * i)
}

/// The number that the first `n` words of `w` stand for, least significant
/// word first: the sum of `w[i] * 2^(64 i)` for `i < n`.
pub open spec fn words_value(w: Seq<u64>, n: nat) -> nat
    decreases n,
{
    if n == 0 {
        0
    } else {
        words_value(w, (n - 1) as nat) + (w[n - 1] as nat) * weight((n - 1) as nat)
    }
}

/// Each weight is positive, and the next one is 2^64 times as large.
pub proof fn lemma_weight_step(i: nat)
    ensures
        weight(i) > 0,
        weight(i + 1) == weight(i) * word_base(),
        weight(0) == 1,
{
    lemma_pow2_pos(64 * i);
    lemma_pow2_adds(64 * i, 64);
    lemma2_to64();
    assert(64 * (i + 1) == 64 * i + 64);
}

/// `n` words stand for a number below 2^(64 n).
pub proof fn lemma_value_bound(w: Seq<u64>, n: nat)
    ensures
        words_value(w, n) < weight(n),
    decreases n,
{
    lemma_weight_step(n);
    if n > 0 {
        let m = (n - 1) as nat;
        lemma_value_bound(w, m);
        lemma_weight_step(m);
        let x = w[n - 1] as nat;
        let wm = weight(m);
        assert(wm + x * wm <= wm * word_base()) by (nonlinear_arith)
            requires
                x + 1 <= word_base(),
                wm > 0,
        ;
    }
}

/// The value of the first `n` words depends on those words alone.
pub proof fn lemma_value_frame(a: Seq<u64>, b: Seq<u64>, n: nat)
    requires
        forall|j: int| 0 <= j < n ==> a[j] == b[j],
    ensures
        words_value(a, n) == words_value(b, n),
    decreases n,
{
    if n > 0 {
        lemma_value_frame(a, b, (n - 1) as nat);
    }
}

/// Where two sequences agree from word `k` up to word `n`, the parts of
/// their values that lie above the first `k` words agree too.
pub proof fn lemma_value_upper_frame(a: Seq<u64>, b: Seq<u64>, k: nat, n: nat)
    requires
        k <= n,
        forall|j: int| k <= j < n ==> a[j] == b[j],
    ensures
        words_value(a, n) - words_value(a, k) == words_value(b, n) - words_value(b, k),
    decreases n,
{
    if k < n {
        lemma_value_upper_frame(a, b, k, (n - 1) as nat);
    }
}

/// The most significant word in which two sequences differ decides which
/// value is smaller, whatever the words below it hold.
pub proof fn lemma_value_decided_by_top_difference(a: Seq<u64>, b: Seq<u64>, k: nat, n: nat)
    requires
        k < n,
        a[k as int] < b[k as int],
        forall|j: int| k < j < n ==> a[j] == b[j],
    ensures
        words_value(a, n) < words_value(b, n),
{
    lemma_value_upper_frame(a, b, k + 1, n);
    lemma_value_bound(a, k);
    lemma_weight_step(k);
    let wk = weight(k);
    let x = a[k as int] as nat;
    let y = b[k as int] as nat;
    assert(x * wk + wk <= y * wk) by (nonlinear_arith)
        requires
            x + 1 <= y,
            wk > 0,
    ;
}

/// Two sequences with the same value hold the same words.
pub proof fn lemma_value_injective(a: Seq<u64>, b: Seq<u64>, n: nat)
    requires
        words_value(a, n) == words_value(b, n),
    ensures
        forall|j: int| 0 <= j < n ==> a[j] == b[j],
    decreases n,
{
    if n > 0 {
        let m = (n - 1) as nat;
        if a[m as int] < b[m as int] {
            lemma_value_decided_by_top_difference(a, b, m, n);
        } else if b[m as int] < a[m as int] {
            lemma_value_decided_by_top_difference(b, a, m, n);
        }
        lemma_value_injective(a, b, m);
    }
}

/// The value is zero exactly when every word is zero.
pub proof fn lemma_value_zero(w: Seq<u64>, n: nat)
    ensures
        words_value(w, n) == 0 <==> (forall|j: int| 0 <= j < n ==> w[j] == 0),
    decreases n,
{
    if n > 0 {
        let m = (n - 1) as nat;
        lemma_value_zero(w, m);
        lemma_weight_step(m);
        let x = w[m as int] as nat;
        let wm = weight(m);
        assert(x * wm == 0 <==> x == 0) by (nonlinear_arith)
            requires
                wm > 0,
        ;
        if words_value(w, n) == 0 {
            assert(forall|j: int| 0 <= j < n ==> w[j] == 0);
        }
        if forall|j: int| 0 <= j < n ==> w[j] == 0 {
            assert(w[m as int] == 0);
        }
    }
}

/// The value is odd exactly when the least significant word is.
pub proof fn lemma_value_parity(w: Seq<u64>, n: nat)
    requires
        n > 0,
    ensures
        words_value(w, n) % 2 == (w[0] as nat) % 2,
    decreases n,
{
    lemma_weight_step(0);
    if n > 1 {
        let m = (n - 1) as nat;
        lemma_value_parity(w, m);
        lemma_weight_step((m - 1) as nat);
        let x = w[m as int] as nat;
        let wl = weight((m - 1) as nat);
        let v = words_value(w, m);
        assert(x * (wl * word_base()) == 2 * (x * wl * 0x8000_0000_0000_0000)) by (nonlinear_arith)
            requires
                word_base() == 0x1_0000_0000_0000_0000,
        ;
        assert((v + 2 * (x * wl * 0x8000_0000_0000_0000)) % 2 == v % 2) by (nonlinear_arith);
    } else {
        assert(words_value(w, 0) == 0);
        assert(words_value(w, 1) == w[0] as nat * weight(0));
    }
}

/// Where the words from `k` up to `n` are all zero, the first `k` words
/// stand for the whole value.
pub proof fn lemma_value_zero_upper(w: Seq<u64>, k: nat, n: nat)
    requires
        k <= n,
        forall|j: int| k <= j < n ==> w[j] == 0,
    ensures
        words_value(w, n) == words_value(w, k),
    decreases n,
{
    if k < n {
        lemma_value_zero_upper(w, k, (n - 1) as nat);
        let x = w[n - 1] as nat;
        let wm = weight((n - 1) as nat);
        assert(x * wm == 0) by (nonlinear_arith)
            requires
                x == 0,
        ;
    }
}

/// The number of bits that it takes to write `v` in binary: 0 for 0, and for
/// any other `v` the one `k` with 2^(k-1) <= v < 2^k.
pub open spec fn bit_length(v: nat) -> nat
    decreases v,
{
    if v == 0 {
        0
    } else {
        1 + bit_length(v / 2)
    }
}

/// A number lies below 2 to the power of its bit length, and, unless it is
/// zero, at or above half of that.
pub proof fn lemma_bit_length_bounds(v: nat)
    ensures
        v < pow2(bit_length(v)),
        v > 0 ==> bit_length(v) > 0 && pow2((bit_length(v) - 1) as nat) <= v,
        v == 0 <==> bit_length(v) == 0,
    decreases v,
{
    lemma2_to64();
    if v > 0 {
        lemma_bit_length_bounds(v / 2);
        lemma_pow2_unfold(bit_length(v));
        if v / 2 > 0 {
            lemma_pow2_unfold(bit_length(v / 2));
        }
    }
}

/// The bit length of a number between 2^(k-1) and 2^k is `k`.
pub proof fn lemma_bit_length_unique(v: nat, k: nat)
    requires
        k > 0,
        pow2((k - 1) as nat) <= v < pow2(k),
    ensures
        bit_length(v) == k,
    decreases k,
{
    lemma2_to64();
    lemma_pow2_pos((k - 1) as nat);
    lemma_pow2_unfold(k);
    if k > 1 {
        lemma_pow2_unfold((k - 1) as nat);
        lemma_bit_length_unique(v / 2, (k - 1) as nat);
    } else {
        assert(v == 1);
        assert(bit_length(v / 2) == 0);
    }
}

/// A larger number does not have a smaller bit length.
pub proof fn lemma_bit_length_monotonic(a: nat, b: nat)
    requires
        a <= b,
    ensures
        bit_length(a) <= bit_length(b),
    decreases b,
{
    if a > 0 {
        lemma_bit_length_monotonic(a / 2, b / 2);
    }
}

/// The bit length of a word is 64 less the number of its leading zero bits.
pub proof fn lemma_word_bit_length(w: u64)
    ensures
        bit_length(w as nat) == 64 - u64_leading_zeros(w),
        bit_length(w as nat) <= 64,
    decreases w,
{
    reveal(u64_leading_zeros);
    if w != 0 {
        lemma_word_bit_length(w / 2);
    }
}

/// The bit length of a value whose most significant nonzero word is word
/// `k`: 64 for each word below it, and the bit length of that word.
pub proof fn lemma_value_bit_length(w: Seq<u64>, k: nat)
    requires
        w[k as int] != 0,
    ensures
        bit_length(words_value(w, k + 1)) == 64 * k + bit_length(w[k as int] as nat),
{
    let x = w[k as int] as nat;
    let b = bit_length(x);
    let wk = weight(k);
    let v = words_value(w, k + 1);
    lemma_bit_length_bounds(x);
    lemma_value_bound(w, k);
    lemma_weight_step(k);
    lemma_pow2_adds((b - 1) as nat, 64 * k);
    lemma_pow2_adds(b, 64 * k);
    let lo = pow2((b - 1) as nat);
    let hi = pow2(b);
    assert(lo * wk <= x * wk) by (nonlinear_arith)
        requires
            lo <= x,
            wk > 0,
    ;
    assert(x * wk + wk <= hi * wk) by (nonlinear_arith)
        requires
            x + 1 <= hi,
            wk > 0,
    ;
    lemma_bit_length_unique(v, b + 64 * k);
}

} // verus!
