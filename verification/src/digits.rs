//! Numbers written in base 2^32, least significant digit first: what a
//! sequence of digits spells, and the one canonical way to spell a number.

use crate::arith::{bit_length, lemma_bit_length_bound};
use vstd::prelude::*;

verus! {

/// The natural number that `digits` spell in base 2^32, least significant
/// digit first.
pub open spec fn digits_value(digits: Seq<u32>) -> nat
    decreases digits.len(),
{
    if digits.len() == 0 {
        0
    } else {
        (digits[0] as nat) + 0x1_0000_0000 * digits_value(digits.drop_first())
    }
}

/// The integer with the given sign and magnitude digits.
pub open spec fn signed_value(negative: bool, digits: Seq<u32>) -> int {
    if negative {
        -(digits_value(digits) as int)
    } else {
        digits_value(digits) as int
    }
}

/// Canonical form: no zero digit at the most significant end, and no sign on
/// zero.
pub open spec fn is_canonical(negative: bool, digits: Seq<u32>) -> bool {
    if digits.len() == 0 {
        !negative
    } else {
        digits.last() != 0
    }
}

/// The canonical base-2^32 digits of `n`.
pub open spec fn magnitude_digits(n: nat) -> Seq<u32>
    decreases n,
{
    if n == 0 {
        Seq::empty()
    } else {
        seq![(n % 0x1_0000_0000) as u32] + magnitude_digits(n / 0x1_0000_0000)
    }
}

/// A zero digit at the most significant end does not change the value.
pub proof fn lemma_high_zero_digit(digits: Seq<u32>)
    requires
        digits.len() > 0,
        digits.last() == 0,
    ensures
        digits_value(digits.drop_last()) == digits_value(digits),
    decreases digits.len(),
{
    if digits.len() == 1 {
        assert(digits_value(digits.drop_first()) == 0);
        assert(digits_value(digits.drop_last()) == 0);
    } else {
        let rest = digits.drop_first();
        lemma_high_zero_digit(rest);
        assert(digits.drop_last().drop_first() =~= rest.drop_last());
        assert(digits.drop_last()[0] == digits[0]);
    }
}

/// Digits that end in a nonzero digit spell a positive number.
pub proof fn lemma_canonical_is_positive(digits: Seq<u32>)
    requires
        digits.len() > 0,
        digits.last() != 0,
    ensures
        digits_value(digits) > 0,
    decreases digits.len(),
{
    if digits.len() > 1 {
        lemma_canonical_is_positive(digits.drop_first());
    }
}

/// The canonical digits of `n` spell `n` and end in no zero digit.
pub proof fn lemma_magnitude_digits_value(n: nat)
    ensures
        digits_value(magnitude_digits(n)) == n,
        is_canonical(false, magnitude_digits(n)),
    decreases n,
{
    if n != 0 {
        let low = (n % 0x1_0000_0000) as u32;
        let high = n / 0x1_0000_0000;
        lemma_magnitude_digits_value(high);
        let all = magnitude_digits(n);
        assert(all.drop_first() =~= magnitude_digits(high));
        assert(all[0] == low);
        if high != 0 {
            assert(all.last() == magnitude_digits(high).last());
        }
    }
}

/// Canonical digits are determined by the number they spell.
pub proof fn lemma_canonical_digits_unique(digits: Seq<u32>)
    requires
        is_canonical(false, digits),
    ensures
        digits == magnitude_digits(digits_value(digits)),
    decreases digits.len(),
{
    if digits.len() == 0 {
        assert(digits =~= Seq::<u32>::empty());
    } else {
        let rest = digits.drop_first();
        lemma_canonical_is_positive(digits);
        if rest.len() > 0 {
            assert(rest.last() == digits.last());
        }
        lemma_canonical_digits_unique(rest);
        let n = digits_value(digits);
        assert(n % 0x1_0000_0000 == digits[0] as nat);
        assert(n / 0x1_0000_0000 == digits_value(rest));
        assert(digits =~= seq![digits[0]] + rest);
    }
}

/// Two canonical forms hold the same integer only if they are the same form.
pub proof fn lemma_canonical_form_unique(
    negative: bool,
    digits: Seq<u32>,
    other_negative: bool,
    other_digits: Seq<u32>,
)
    requires
        is_canonical(negative, digits),
        is_canonical(other_negative, other_digits),
        signed_value(negative, digits) == signed_value(other_negative, other_digits),
    ensures
        negative == other_negative,
        digits == other_digits,
{
    if digits.len() > 0 {
        lemma_canonical_is_positive(digits);
    }
    if other_digits.len() > 0 {
        lemma_canonical_is_positive(other_digits);
    }
    lemma_canonical_digits_unique(digits);
    lemma_canonical_digits_unique(other_digits);
}

/// A number of `k` digits in base 2^32 has at most `32 * k` binary digits.
pub proof fn lemma_digits_bit_length(digits: Seq<u32>)
    ensures
        digits_value(digits) < vstd::arithmetic::power2::pow2(32 * digits.len()),
        bit_length(digits_value(digits)) <= 32 * digits.len(),
    decreases digits.len(),
{
    let k = digits.len();
    vstd::arithmetic::power2::lemma2_to64();
    if k != 0 {
        let rest = digits.drop_first();
        lemma_digits_bit_length(rest);
        let high = vstd::arithmetic::power2::pow2(32 * rest.len());
        vstd::arithmetic::power2::lemma_pow2_adds(32, 32 * rest.len());
        assert(32 + 32 * rest.len() == 32 * k);
        assert(digits[0] + 0x1_0000_0000 * digits_value(rest) < 0x1_0000_0000 * high)
            by (nonlinear_arith)
            requires
                digits[0] < 0x1_0000_0000,
                digits_value(rest) < high,
        ;
    }
    lemma_bit_length_bound(digits_value(digits), 32 * k);
}

} // verus!
