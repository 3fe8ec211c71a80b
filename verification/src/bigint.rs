//! A signed integer of unbounded size, held as a sign and the base-2^32 digits
//! of its magnitude, least significant digit first.
//!
//! A value is kept in canonical form: the most significant digit is not zero,
//! and zero has no digits and no sign. Two values are therefore the same
//! integer exactly when their fields are equal.

use crate::arith::{floor_div, magnitude, trunc_div, trunc_rem};
use crate::digits::{
    digits_value, is_canonical, lemma_canonical_digits_unique, lemma_canonical_form_unique,
    lemma_canonical_is_positive, lemma_high_zero_digit, magnitude_digits, signed_value,
};
use crate::num_ops::{num_div, num_div_floor, num_mul, num_rem, num_sub};
use vstd::prelude::*;
use vstd::std_specs::cmp::PartialEqSpecImpl;

verus! {

/// An arbitrary-precision signed integer. Its view is the integer it holds,
/// and `==` compares the integers.
#[derive(Debug)]
pub struct BigInt {
    negative: bool,
    magnitude: Vec<u32>,
}

impl View for BigInt {
    type V = int;

    closed spec fn view(&self) -> int {
        signed_value(self.negative, self.magnitude@)
    }
}

impl BigInt {
    #[verifier::type_invariant]
    spec fn well_formed(&self) -> bool {
        is_canonical(self.negative, self.magnitude@)
    }

    /// The integer with the given sign and base-2^32 magnitude digits, least
    /// significant first. Zero digits at the most significant end are
    /// accepted, and so is a sign on zero.
    pub fn from_digits(negative: bool, digits: Vec<u32>) -> (r: BigInt)
        ensures
            r@ == signed_value(negative, digits@),
    {
        let mut magnitude = digits;
        while magnitude.len() > 0 && magnitude[magnitude.len() - 1] == 0
            invariant
                digits_value(magnitude@) == digits_value(digits@),
            decreases magnitude.len(),
        {
            proof {
                lemma_high_zero_digit(magnitude@);
            }
            magnitude.pop();
        }
        let negative = negative && magnitude.len() > 0;
        BigInt { negative, magnitude }
    }

    /// Zero.
    pub fn zero() -> (r: BigInt)
        ensures
            r@ == 0,
    {
        BigInt { negative: false, magnitude: Vec::new() }
    }

    /// One.
    pub fn one() -> (r: BigInt)
        ensures
            r@ == 1,
    {
        let mut magnitude = Vec::new();
        magnitude.push(1u32);
        assert(digits_value(magnitude@.drop_first()) == 0);
        BigInt { negative: false, magnitude }
    }

    /// Whether the integer is zero.
    pub fn is_zero(&self) -> (r: bool)
        ensures
            r == (self@ == 0),
    {
        proof {
            use_type_invariant(self);
            if self.magnitude@.len() > 0 {
                lemma_canonical_is_positive(self.magnitude@);
            }
        }
        self.magnitude.len() == 0
    }

    /// Whether the integer is below zero.
    pub fn is_negative(&self) -> (r: bool)
        ensures
            r == (self@ < 0),
    {
        proof {
            use_type_invariant(self);
            if self.magnitude@.len() > 0 {
                lemma_canonical_is_positive(self.magnitude@);
            }
        }
        self.negative
    }

    /// The base-2^32 digits of the magnitude, least significant first, with no
    /// zero digit at the most significant end; none for zero.
    pub fn digits(&self) -> (r: &[u32])
        ensures
            r@ == magnitude_digits(magnitude(self@)),
    {
        proof {
            use_type_invariant(self);
            lemma_canonical_digits_unique(self.magnitude@);
        }
        self.magnitude.as_slice()
    }
}

impl BigInt {
    /// The integer with the given sign and a magnitude that fits a machine
    /// word.
    fn from_magnitude(negative: bool, magnitude: u64) -> (r: BigInt)
        ensures
            negative ==> r@ == -(magnitude as int),
            !negative ==> r@ == magnitude as int,
    {
        let mut digits = Vec::new();
        digits.push((magnitude % 0x1_0000_0000) as u32);
        digits.push((magnitude / 0x1_0000_0000) as u32);
        proof {
            let rest = digits@.drop_first();
            assert(digits_value(rest.drop_first()) == 0);
            assert(digits_value(rest) == rest[0]);
        }
        BigInt::from_digits(negative, digits)
    }
}

// A value that owns a `Vec` cannot be written down as a mathematical
// expression, so the conversions from machine integers are stated by the
// `ensures` of each `from`, on the view, and not through `from_spec`.
impl vstd::std_specs::convert::FromSpecImpl<u64> for BigInt {
    open spec fn obeys_from_spec() -> bool {
        false
    }

    open spec fn from_spec(v: u64) -> BigInt {
        arbitrary()
    }
}

impl From<u64> for BigInt {
    fn from(v: u64) -> (r: BigInt)
        ensures
            r@ == v,
    {
        BigInt::from_magnitude(false, v)
    }
}

impl vstd::std_specs::convert::FromSpecImpl<i64> for BigInt {
    open spec fn obeys_from_spec() -> bool {
        false
    }

    open spec fn from_spec(v: i64) -> BigInt {
        arbitrary()
    }
}

impl From<i64> for BigInt {
    fn from(v: i64) -> (r: BigInt)
        ensures
            r@ == v,
    {
        if v < 0 {
            BigInt::from_magnitude(true, (-(v + 1)) as u64 + 1)
        } else {
            BigInt::from_magnitude(false, v as u64)
        }
    }
}

impl vstd::std_specs::convert::FromSpecImpl<i32> for BigInt {
    open spec fn obeys_from_spec() -> bool {
        false
    }

    open spec fn from_spec(v: i32) -> BigInt {
        arbitrary()
    }
}

impl From<i32> for BigInt {
    fn from(v: i32) -> (r: BigInt)
        ensures
            r@ == v,
    {
        if v < 0 {
            BigInt::from_magnitude(true, (-(v as i64)) as u64)
        } else {
            BigInt::from_magnitude(false, v as u64)
        }
    }
}

impl PartialEqSpecImpl for BigInt {
    open spec fn obeys_eq_spec() -> bool {
        true
    }

    open spec fn eq_spec(&self, other: &BigInt) -> bool {
        self@ == other@
    }
}

impl PartialEq for BigInt {
    fn eq(&self, other: &BigInt) -> (r: bool) {
        proof {
            use_type_invariant(self);
            use_type_invariant(other);
            if self@ == other@ {
                lemma_canonical_form_unique(
                    self.negative,
                    self.magnitude@,
                    other.negative,
                    other.magnitude@,
                );
            }
        }
        if self.negative != other.negative || self.magnitude.len() != other.magnitude.len() {
            return false;
        }
        let mut i: usize = 0;
        while i < self.magnitude.len()
            invariant
                i <= self.magnitude@.len(),
                self.magnitude@.len() == other.magnitude@.len(),
                forall|j: int| 0 <= j < i ==> self.magnitude@[j] == other.magnitude@[j],
                self@ == other@ ==> self.magnitude@ == other.magnitude@,
            decreases self.magnitude@.len() - i,
        {
            if self.magnitude[i] != other.magnitude[i] {
                return false;
            }
            i += 1;
        }
        assert(self.magnitude@ =~= other.magnitude@);
        true
    }
}

impl Eq for BigInt {
}

impl Clone for BigInt {
    fn clone(&self) -> (r: BigInt)
        ensures
            r@ == self@,
    {
        proof {
            use_type_invariant(self);
        }
        let magnitude = self.magnitude.clone();
        assert(magnitude@ =~= self.magnitude@);
        BigInt { negative: self.negative, magnitude }
    }
}

impl BigInt {
    /// The remainder of `self` by `divisor` with the sign of `self`.
    pub(crate) fn rem(&self, divisor: &BigInt) -> (r: BigInt)
        requires
            divisor@ != 0,
        ensures
            r@ == trunc_rem(self@, divisor@),
    {
        let (negative, digits) = num_rem(
            self.negative,
            self.magnitude.as_slice(),
            divisor.negative,
            divisor.magnitude.as_slice(),
        );
        BigInt::from_digits(negative, digits)
    }

    /// The quotient of `self` by `divisor`, rounded toward zero.
    pub(crate) fn div(&self, divisor: &BigInt) -> (r: BigInt)
        requires
            divisor@ != 0,
        ensures
            r@ == trunc_div(self@, divisor@),
    {
        let (negative, digits) = num_div(
            self.negative,
            self.magnitude.as_slice(),
            divisor.negative,
            divisor.magnitude.as_slice(),
        );
        BigInt::from_digits(negative, digits)
    }

    /// The quotient of `self` by `divisor`, rounded toward negative infinity.
    pub(crate) fn div_floor(&self, divisor: &BigInt) -> (r: BigInt)
        requires
            divisor@ != 0,
        ensures
            r@ == floor_div(self@, divisor@),
    {
        let (negative, digits) = num_div_floor(
            self.negative,
            self.magnitude.as_slice(),
            divisor.negative,
            divisor.magnitude.as_slice(),
        );
        BigInt::from_digits(negative, digits)
    }

    /// The product of `self` and `other`.
    pub(crate) fn mul(&self, other: &BigInt) -> (r: BigInt)
        ensures
            r@ == self@ * other@,
    {
        let (negative, digits) = num_mul(
            self.negative,
            self.magnitude.as_slice(),
            other.negative,
            other.magnitude.as_slice(),
        );
        BigInt::from_digits(negative, digits)
    }

    /// The difference of `self` and `other`.
    pub(crate) fn sub(&self, other: &BigInt) -> (r: BigInt)
        ensures
            r@ == self@ - other@,
    {
        let (negative, digits) = num_sub(
            self.negative,
            self.magnitude.as_slice(),
            other.negative,
            other.magnitude.as_slice(),
        );
        BigInt::from_digits(negative, digits)
    }
}

} // verus!
