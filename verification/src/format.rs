//! The text form of a big integer, for diagnostics.

use vstd::prelude::*;
use crate::biginteger::BigInteger;

verus! {

/// The ten decimal digits.
pub open spec fn digits() -> Seq<char> {
    seq!['0', '1', '2', '3', '4', '5', '6', '7', '8', '9']
}

/// The decimal form of `n`, without leading zeros; "0" for zero.
pub open spec fn decimal(n: nat) -> Seq<char>
    decreases n,
{
    if n < 10 {
        seq![digits()[n as int]]
    } else {
        decimal(n / 10).push(digits()[(n % 10) as int])
    }
}

/// The decimal forms of the first `n` words of `w`, set one after another
/// from word `n - 1` down to word 0, with nothing between them.
pub open spec fn words_decimal(w: Seq<u64>, n: nat) -> Seq<char>
    decreases n,
{
    if n == 0 {
        Seq::empty()
    } else {
        decimal(w[n - 1] as nat) + words_decimal(w, (n - 1) as nat)
    }
}

/// The text form of a big integer with the words `w`: the type's name, and
/// in brackets the decimal forms of the 33 words, most significant first.
pub open spec fn debug_text(w: Seq<u64>) -> Seq<char> {
    "BigInteger("@ + words_decimal(w, 33) + ")"@
}

/// Formats one word with `format!("{:?}", w)`. For an unsigned integer std
/// writes the decimal form: the digits of the number, most significant
/// first, with no sign, no padding and no leading zeros.
#[verifier::external_body]
fn word_to_string(w: u64) -> (s: String)
    ensures
        s@ == decimal(w as nat),
{
    format!("{:?}", w)
}

/// Appends `tail` to `text` with `String::push_str`: the characters of
/// `text` stay, and those of `tail` follow them.
#[verifier::external_body]
fn push_str(text: &mut String, tail: &str)
    ensures
        final(text)@ == old(text)@ + tail@,
{
    text.push_str(tail)
}

impl BigInteger {
    /// The text form for diagnostics: `BigInteger(` and `)` around the
    /// decimal forms of the words, from the most significant word to the
    /// least, with nothing between them.
    pub fn to_debug_string(&self) -> (r: String)
        ensures
            r@ == debug_text(self.0@),
    {
        let mut result: String = String::new();
        let mut i: usize = 33;
        while i > 0
            invariant
                i <= 33,
                result@ + words_decimal(self.0@, i as nat) == words_decimal(self.0@, 33),
            decreases i,
        {
            i -= 1;
            let ghost before = result@;
            let word = word_to_string(self.0[i]);
            push_str(&mut result, word.as_str());
            assert(result@ + words_decimal(self.0@, i as nat) =~= before + (decimal(
                self.0[i as int] as nat,
            ) + words_decimal(self.0@, i as nat)));
        }
        assert(result@ =~= result@ + words_decimal(self.0@, 0));
        let mut text: String = "BigInteger(".to_owned();
        push_str(&mut text, result.as_str());
        push_str(&mut text, ")");
        text
    }
}

} // verus!
