//! The arithmetic of `num::BigInt`, on integers handed over as a sign and
//! base-2^32 magnitude digits, least significant first.
//!
//! Nothing here is proved. Each function converts its operands with
//! `num::BigInt::from_slice`, makes one call, and takes the result apart with
//! `num::BigInt::to_u32_digits`; its contract states what the documentation
//! and the source of `num` say of that call. The digits that come back are not
//! claimed to be canonical.

use crate::arith::{floor_div, trunc_div, trunc_rem};
use crate::digits::signed_value;
use num::bigint::Sign;
use vstd::prelude::*;

verus! {

/// `%` of `num::BigInt`. Believed of it: the result is the remainder of the
/// truncating division, which has the sign of the dividend. A zero divisor
/// makes it panic, so none is admitted.
#[verifier::external_body]
pub(crate) fn num_rem(a_negative: bool, a: &[u32], b_negative: bool, b: &[u32]) -> (r: (
    bool,
    Vec<u32>,
))
    requires
        signed_value(b_negative, b@) != 0,
    ensures
        signed_value(r.0, r.1@) == trunc_rem(
            signed_value(a_negative, a@),
            signed_value(b_negative, b@),
        ),
{
    let x = num::BigInt::from_slice(if a_negative { Sign::Minus } else { Sign::Plus }, a);
    let y = num::BigInt::from_slice(if b_negative { Sign::Minus } else { Sign::Plus }, b);
    let (sign, digits) = (&x % &y).to_u32_digits();
    (sign == Sign::Minus, digits)
}

/// `/` of `num::BigInt`. Believed of it: the result is the quotient rounded
/// toward zero. A zero divisor makes it panic, so none is admitted.
#[verifier::external_body]
pub(crate) fn num_div(a_negative: bool, a: &[u32], b_negative: bool, b: &[u32]) -> (r: (
    bool,
    Vec<u32>,
))
    requires
        signed_value(b_negative, b@) != 0,
    ensures
        signed_value(r.0, r.1@) == trunc_div(
            signed_value(a_negative, a@),
            signed_value(b_negative, b@),
        ),
{
    let x = num::BigInt::from_slice(if a_negative { Sign::Minus } else { Sign::Plus }, a);
    let y = num::BigInt::from_slice(if b_negative { Sign::Minus } else { Sign::Plus }, b);
    let (sign, digits) = (&x / &y).to_u32_digits();
    (sign == Sign::Minus, digits)
}

/// `num::Integer::div_floor` of `num::BigInt`. Believed of it: the result is
/// the quotient rounded toward negative infinity. A zero divisor makes it
/// panic, so none is admitted.
#[verifier::external_body]
pub(crate) fn num_div_floor(a_negative: bool, a: &[u32], b_negative: bool, b: &[u32]) -> (r: (
    bool,
    Vec<u32>,
))
    requires
        signed_value(b_negative, b@) != 0,
    ensures
        signed_value(r.0, r.1@) == floor_div(
            signed_value(a_negative, a@),
            signed_value(b_negative, b@),
        ),
{
    let x = num::BigInt::from_slice(if a_negative { Sign::Minus } else { Sign::Plus }, a);
    let y = num::BigInt::from_slice(if b_negative { Sign::Minus } else { Sign::Plus }, b);
    let (sign, digits) = num::Integer::div_floor(&x, &y).to_u32_digits();
    (sign == Sign::Minus, digits)
}

/// `*` of `num::BigInt`. Believed of it: the result is the exact product.
#[verifier::external_body]
pub(crate) fn num_mul(a_negative: bool, a: &[u32], b_negative: bool, b: &[u32]) -> (r: (
    bool,
    Vec<u32>,
))
    ensures
        signed_value(r.0, r.1@) == signed_value(a_negative, a@) * signed_value(b_negative, b@),
{
    let x = num::BigInt::from_slice(if a_negative { Sign::Minus } else { Sign::Plus }, a);
    let y = num::BigInt::from_slice(if b_negative { Sign::Minus } else { Sign::Plus }, b);
    let (sign, digits) = (&x * &y).to_u32_digits();
    (sign == Sign::Minus, digits)
}

/// `-` of `num::BigInt`. Believed of it: the result is the exact difference.
#[verifier::external_body]
pub(crate) fn num_sub(a_negative: bool, a: &[u32], b_negative: bool, b: &[u32]) -> (r: (
    bool,
    Vec<u32>,
))
    ensures
        signed_value(r.0, r.1@) == signed_value(a_negative, a@) - signed_value(b_negative, b@),
{
    let x = num::BigInt::from_slice(if a_negative { Sign::Minus } else { Sign::Plus }, a);
    let y = num::BigInt::from_slice(if b_negative { Sign::Minus } else { Sign::Plus }, b);
    let (sign, digits) = (&x - &y).to_u32_digits();
    (sign == Sign::Minus, digits)
}

} // verus!
