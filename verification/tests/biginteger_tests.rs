use std::cmp::Ordering;

use biginteger::biginteger::BigInteger;

fn zero() -> BigInteger {
    BigInteger::new([0u64; 33])
}

fn all_ones() -> BigInteger {
    BigInteger::new([u64::MAX; 33])
}

fn with_word(index: usize, word: u64) -> BigInteger {
    let mut words = [0u64; 33];
    words[index] = word;
    BigInteger::new(words)
}

fn patterned(seed: u64) -> BigInteger {
    let mut words = [0u64; 33];
    let mut state = seed;
    for w in words.iter_mut() {
        state = state.wrapping_mul(6364136223846793005).wrapping_add(1442695040888963407);
        *w = state;
    }
    BigInteger::new(words)
}

fn biginteger_arithmetic_test(a: BigInteger, b: BigInteger, zero: BigInteger) {
    // zero == zero
    assert!(zero == zero);

    // zero.is_zero() == true
    assert_eq!(zero.is_zero(), true);

    // a == a
    assert!(a == a);

    // a + 0 = a
    let mut a0_add = a.clone();
    a0_add.add_nocarry(&zero);
    assert!(a0_add == a);

    // a - 0 = a
    let mut a0_sub = a.clone();
    a0_sub.sub_noborrow(&zero);
    assert!(a0_sub == a);

    // a - a = 0
    let mut aa_sub = a.clone();
    aa_sub.sub_noborrow(&a);
    assert!(aa_sub == zero);

    // a + b = b + a
    let mut ab_add = a.clone();
    ab_add.add_nocarry(&b);
    let mut ba_add = b.clone();
    ba_add.add_nocarry(&a);
    assert!(ab_add == ba_add);
}

#[test]
fn test_biginteger() {
    let a: BigInteger = BigInteger::rand(&mut rand::thread_rng());
    let b: BigInteger = BigInteger::rand(&mut rand::thread_rng());
    let zero = BigInteger::new([0u64; 33]);
    biginteger_arithmetic_test(a, b, zero);
}

#[test]
fn arithmetic_identities_on_fixed_values() {
    biginteger_arithmetic_test(patterned(1), patterned(2), zero());
    biginteger_arithmetic_test(all_ones(), patterned(3), zero());
    biginteger_arithmetic_test(zero(), all_ones(), zero());
}

#[test]
fn new_keeps_the_words() {
    let mut words = [0u64; 33];
    for (i, w) in words.iter_mut().enumerate() {
        *w = 1000 + i as u64;
    }
    let a = BigInteger::new(words);
    assert_eq!(a.0, words);
    assert_eq!(a.0[0], 1000);
    assert_eq!(a.0[32], 1032);
}

#[test]
fn zero_is_zero_and_nothing_else_is() {
    assert!(zero().is_zero());
    for i in 0..33 {
        assert!(!with_word(i, 1).is_zero());
    }
    assert!(!all_ones().is_zero());
    assert!(!with_word(32, 1 << 63).is_zero());
}

#[test]
fn all_zero_value() {
    let z = zero();
    assert_eq!(z.is_zero(), true);
    assert_eq!(z.is_odd(), false);
    assert_eq!(z.is_even(), true);
    assert_eq!(z.num_bits(), 0);
}

#[test]
fn parity_is_that_of_the_lowest_bit() {
    assert!(BigInteger::from(1).is_odd());
    assert!(!BigInteger::from(1).is_even());
    assert!(!BigInteger::from(2).is_odd());
    assert!(BigInteger::from(2).is_even());
    assert!(BigInteger::from(u64::MAX).is_odd());
    assert!(with_word(1, 1).is_even());
    assert!(with_word(32, u64::MAX).is_even());
    assert!(all_ones().is_odd());
}

#[test]
fn equality_is_reflexive_and_word_by_word() {
    let a = patterned(7);
    assert!(a == a);
    assert!(!(a != a));
    assert_eq!(a.cmp(&a), Ordering::Equal);
    assert_eq!(a.partial_cmp(&a), Some(Ordering::Equal));
    for i in 0..33 {
        let mut words = a.0;
        words[i] ^= 1;
        let b = BigInteger::new(words);
        assert!(a != b);
        assert!(!(a == b));
        assert_ne!(a.cmp(&b), Ordering::Equal);
    }
}

#[test]
fn from_widens_one_word() {
    let a = BigInteger::from(0x1234_5678_9abc_def0);
    assert_eq!(a.0[0], 0x1234_5678_9abc_def0);
    for i in 1..33 {
        assert_eq!(a.0[i], 0);
    }
    assert!(BigInteger::from(0) == zero());
}

#[test]
fn mul2_of_five() {
    let mut a = BigInteger::from(5);
    a.mul2();
    assert_eq!(a.0[0], 10);
    for i in 1..33 {
        assert_eq!(a.0[i], 0);
    }
}

#[test]
fn div2_of_five() {
    let mut a = BigInteger::from(5);
    a.div2();
    assert_eq!(a.0[0], 2);
    for i in 1..33 {
        assert_eq!(a.0[i], 0);
    }
}

#[test]
fn mul2_carries_into_the_next_word() {
    let mut a = with_word(0, 1 << 63);
    a.mul2();
    assert!(a == with_word(1, 1));

    let mut b = with_word(31, 0x8000_0000_0000_0001);
    b.mul2();
    let mut expected = [0u64; 33];
    expected[31] = 2;
    expected[32] = 1;
    assert_eq!(b.0, expected);
}

#[test]
fn mul2_drops_the_top_bit() {
    let mut a = with_word(32, 1 << 63);
    a.mul2();
    assert!(a.is_zero());

    let mut b = all_ones();
    b.mul2();
    let mut expected = [u64::MAX; 33];
    expected[0] = u64::MAX - 1;
    assert_eq!(b.0, expected);
}

#[test]
fn div2_borrows_from_the_next_word() {
    let mut a = with_word(1, 1);
    a.div2();
    assert!(a == with_word(0, 1 << 63));

    let mut b = all_ones();
    b.div2();
    let mut expected = [u64::MAX; 33];
    expected[32] = u64::MAX >> 1;
    assert_eq!(b.0, expected);

    let mut c = BigInteger::from(1);
    c.div2();
    assert!(c.is_zero());
}

#[test]
fn div2_undoes_mul2_when_the_top_bit_is_clear() {
    let mut words = patterned(11).0;
    words[32] &= u64::MAX >> 1;
    let a = BigInteger::new(words);
    let mut b = a;
    b.mul2();
    b.div2();
    assert!(b == a);

    let mut c = with_word(32, (1 << 63) - 1);
    let kept = c;
    c.mul2();
    c.div2();
    assert!(c == kept);
}

#[test]
fn div2_does_not_undo_mul2_when_the_top_bit_is_set() {
    let a = with_word(32, 1 << 63);
    let mut b = a;
    b.mul2();
    b.div2();
    assert!(b != a);
    assert!(b.is_zero());
}

#[test]
fn num_bits_counts_to_the_highest_set_bit() {
    assert_eq!(zero().num_bits(), 0);
    assert_eq!(BigInteger::from(1).num_bits(), 1);
    assert_eq!(BigInteger::from(2).num_bits(), 2);
    assert_eq!(BigInteger::from(3).num_bits(), 2);
    assert_eq!(BigInteger::from(5).num_bits(), 3);
    assert_eq!(BigInteger::from(u64::MAX).num_bits(), 64);
    assert_eq!(with_word(1, 1).num_bits(), 65);
    assert_eq!(with_word(32, 1).num_bits(), 2049);
    assert_eq!(with_word(32, 1 << 63).num_bits(), 2112);
    assert_eq!(all_ones().num_bits(), 2112);

    let mut words = [u64::MAX; 33];
    words[32] = 0;
    words[31] = 0;
    words[30] = 0x10;
    assert_eq!(BigInteger::new(words).num_bits(), 30 * 64 + 5);
}

#[test]
fn num_bits_does_not_fall_as_the_value_grows() {
    let mut a = BigInteger::from(1);
    let mut last = a.num_bits();
    for _ in 0..2111 {
        a.mul2();
        let bits = a.num_bits();
        assert_eq!(bits, last + 1);
        last = bits;
    }
    let samples = [zero(), BigInteger::from(9), with_word(3, 77), patterned(5), all_ones()];
    for x in samples.iter() {
        for y in samples.iter() {
            if x.cmp(y) != Ordering::Greater {
                assert!(x.num_bits() <= y.num_bits());
            }
        }
    }
}

#[test]
fn add_without_overflow() {
    let mut a = BigInteger::from(u64::MAX);
    let carry = a.add_nocarry(&BigInteger::from(1));
    assert_eq!(carry, false);
    assert!(a == with_word(1, 1));

    let mut b = BigInteger::from(7);
    assert_eq!(b.add_nocarry(&BigInteger::from(8)), false);
    assert!(b == BigInteger::from(15));
}

#[test]
fn add_zero_to_the_largest_value() {
    let mut a = all_ones();
    let carry = a.add_nocarry(&zero());
    assert_eq!(carry, false);
    assert!(a == all_ones());
}

#[test]
fn add_with_overflow_wraps_and_reports_it() {
    let mut a = all_ones();
    let carry = a.add_nocarry(&BigInteger::from(1));
    assert_eq!(carry, true);
    assert!(a.is_zero());

    let mut b = all_ones();
    let carry = b.add_nocarry(&all_ones());
    assert_eq!(carry, true);
    let mut expected = [u64::MAX; 33];
    expected[0] = u64::MAX - 1;
    assert_eq!(b.0, expected);

    let mut c = with_word(32, 1 << 63);
    let carry = c.add_nocarry(&with_word(32, 1 << 63));
    assert_eq!(carry, true);
    assert!(c.is_zero());
}

#[test]
fn add_does_not_change_the_other_operand() {
    let other = patterned(21);
    let kept = other;
    let mut a = patterned(22);
    a.add_nocarry(&other);
    assert!(other == kept);
    let mut b = patterned(22);
    b.sub_noborrow(&other);
    assert!(other == kept);
}

#[test]
fn add_gives_the_same_carry_in_either_order() {
    let pairs =
        [(all_ones(), BigInteger::from(1)), (patterned(1), patterned(2)), (all_ones(), patterned(9))];
    for (a, b) in pairs.iter() {
        let mut ab = *a;
        let carry_ab = ab.add_nocarry(b);
        let mut ba = *b;
        let carry_ba = ba.add_nocarry(a);
        assert!(ab == ba);
        assert_eq!(carry_ab, carry_ba);
    }
}

#[test]
fn sub_without_borrow() {
    let mut a = with_word(1, 1);
    let borrow = a.sub_noborrow(&BigInteger::from(1));
    assert_eq!(borrow, false);
    assert!(a == BigInteger::from(u64::MAX));

    let mut b = BigInteger::from(15);
    assert_eq!(b.sub_noborrow(&BigInteger::from(8)), false);
    assert!(b == BigInteger::from(7));
}

#[test]
fn sub_with_borrow_wraps_and_reports_it() {
    let mut a = BigInteger::from(3);
    let borrow = a.sub_noborrow(&BigInteger::from(5));
    assert_eq!(borrow, true);
    let mut expected = [u64::MAX; 33];
    expected[0] = u64::MAX - 1;
    assert_eq!(a.0, expected);

    let mut z = zero();
    let borrow = z.sub_noborrow(&BigInteger::from(1));
    assert_eq!(borrow, true);
    assert!(z == all_ones());
}

#[test]
fn sub_undoes_add() {
    let a = patterned(31);
    let b = patterned(32);
    let mut c = a;
    let carry = c.add_nocarry(&b);
    let borrow = c.sub_noborrow(&b);
    assert!(c == a);
    assert_eq!(carry, borrow);
}

#[test]
fn top_word_decides_the_order() {
    let high = with_word(32, 1);
    let low = with_word(0, u64::MAX);
    assert_eq!(high.cmp(&low), Ordering::Greater);
    assert_eq!(low.cmp(&high), Ordering::Less);
    assert_eq!(high.partial_cmp(&low), Some(Ordering::Greater));
    assert!(high > low);
    assert!(low < high);
    assert!(high >= low);
    assert!(low <= high);
    assert!(!(high < low));
}

#[test]
fn most_significant_difference_decides_whatever_lies_below() {
    let mut small = [u64::MAX; 33];
    small[32] = 0;
    small[31] = 0;
    small[20] = 4;
    let mut large = [0u64; 33];
    large[20] = 5;
    for i in 21..31 {
        small[i] = 9;
        large[i] = 9;
    }
    let a = BigInteger::new(small);
    let b = BigInteger::new(large);
    assert_eq!(a.cmp(&b), Ordering::Less);
    assert_eq!(b.cmp(&a), Ordering::Greater);
    assert!(a < b);
}

#[test]
fn order_agrees_with_subtraction() {
    let samples =
        [zero(), BigInteger::from(1), with_word(16, 3), patterned(41), patterned(42), all_ones()];
    for x in samples.iter() {
        for y in samples.iter() {
            let mut d = *x;
            let borrow = d.sub_noborrow(y);
            match x.cmp(y) {
                Ordering::Less => assert!(borrow && !d.is_zero()),
                Ordering::Equal => assert!(!borrow && d.is_zero() && x == y),
                Ordering::Greater => assert!(!borrow && !d.is_zero()),
            }
            assert_eq!(x.cmp(y), y.cmp(x).reverse());
        }
    }
}

#[test]
fn as_ref_gives_the_words_in_order() {
    let a = patterned(51);
    let words: &[u64] = a.as_ref();
    assert_eq!(words.len(), 33);
    assert_eq!(words, &a.0[..]);
    let b = BigInteger::from(9);
    assert_eq!(b.as_ref()[0], 9);
    assert_eq!(b.as_ref()[32], 0);
}

#[test]
fn debug_string_of_small_values() {
    let zeros = "0".repeat(32);
    assert_eq!(BigInteger::from(5).to_debug_string(), format!("BigInteger({}5)", zeros));
    assert_eq!(zero().to_debug_string(), format!("BigInteger({}0)", zeros));
}

#[test]
fn debug_string_puts_the_most_significant_word_first() {
    let mut words = [0u64; 33];
    words[32] = 12;
    words[1] = 345;
    words[0] = u64::MAX;
    let text = BigInteger::new(words).to_debug_string();
    let expected = format!("BigInteger(12{}34518446744073709551615)", "0".repeat(30));
    assert_eq!(text, expected);
}

#[test]
fn from_random_words_clears_the_top_word() {
    let words = [u64::MAX; 33];
    let a = BigInteger::from_random_words(words);
    assert_eq!(a.0[32], 0);
    for i in 0..32 {
        assert_eq!(a.0[i], u64::MAX);
    }
    assert_eq!(a.num_bits(), 2048);
    assert!(a.0 != words);
}

#[test]
fn random_values_have_a_zero_top_word() {
    let mut rng = rand::thread_rng();
    let mut any_nonzero = false;
    let mut any_differ = false;
    let first = BigInteger::rand(&mut rng);
    for _ in 0..500 {
        let a = BigInteger::rand(&mut rng);
        assert_eq!(a.0[32], 0);
        assert!(a.num_bits() <= 2048);
        any_nonzero |= !a.is_zero();
        any_differ |= a != first;
    }
    assert!(any_nonzero);
    assert!(any_differ);
}
