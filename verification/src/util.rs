//! The three number-theory primitives on arbitrary-precision integers:
//! greatest common divisor, least common multiple, and the extended Euclidean
//! algorithm with its Bézout coefficients.

use crate::bigint::BigInt;
use crate::divisibility::{is_greatest_common_divisor, is_least_common_multiple};
use crate::euclid::{
    bezout, bezout_steps, euclid_gcd, euclid_lcm, euclid_steps, lemma_bezout_identity,
    lemma_bezout_sign, lemma_euclid_gcd_is_greatest, lemma_euclid_gcd_nonzero,
    lemma_euclid_lcm_is_least, lemma_gcd_lcm_product, lemma_gcd_of_nonnegative,
};
use vstd::prelude::*;

verus! {

/// The one failure of this library: a remainder or a quotient was asked for
/// with a zero divisor.
#[derive(Debug, Clone, Copy, PartialEq, Eq)]
pub struct DivisionByZero;

/// The greatest common divisor of `a` and `b` by the Euclidean algorithm on
/// truncating remainders. The sign of the result is whatever the chain of
/// remainders leaves; it is not made non-negative, though it is positive
/// when neither operand is negative.
///
/// Fails exactly when `b` is zero, since the first remainder is taken by `b`.
pub fn gcd(a: &BigInt, b: &BigInt) -> (res: Result<BigInt, DivisionByZero>)
    ensures
        res is Err <==> b@ == 0,
        res matches Ok(g) ==> g@ == euclid_gcd(a@, b@),
        res matches Ok(g) ==> g@ != 0,
        res matches Ok(g) ==> is_greatest_common_divisor(g@, a@, b@),
        res matches Ok(g) ==> (a@ >= 0 && b@ > 0 ==> g@ > 0),
{
    if b.is_zero() {
        return Err(DivisionByZero);
    }
    let r = a.rem(b);
    let mut x = b.clone();
    let mut y = r;
    while !y.is_zero()
        invariant
            euclid_gcd(x@, y@) == euclid_gcd(a@, b@),
        decreases euclid_steps(x@, y@),
    {
        let r = x.rem(&y);
        x = y;
        y = r;
    }
    proof {
        lemma_euclid_gcd_is_greatest(a@, b@);
        lemma_euclid_gcd_nonzero(a@, b@);
        if a@ >= 0 && b@ > 0 {
            lemma_gcd_of_nonnegative(a@, b@);
        }
    }
    Ok(x)
}

/// The least common multiple of `a` and `b`: their product divided by their
/// greatest common divisor as [`gcd`] gives it, so with the sign that falls out
/// of the two.
///
/// Fails exactly when `b` is zero, as [`gcd`] does.
pub fn lcm(a: &BigInt, b: &BigInt) -> (res: Result<BigInt, DivisionByZero>)
    ensures
        res is Err <==> b@ == 0,
        res matches Ok(l) ==> l@ == euclid_lcm(a@, b@),
        res matches Ok(l) ==> euclid_gcd(a@, b@) * l@ == a@ * b@,
        res matches Ok(l) ==> is_least_common_multiple(l@, a@, b@),
{
    match gcd(a, b) {
        Err(e) => Err(e),
        Ok(g) => {
            proof {
                lemma_gcd_lcm_product(a@, b@);
                lemma_euclid_lcm_is_least(a@, b@);
            }
            Ok(a.mul(b).div(&g))
        },
    }
}

/// The extended Euclidean algorithm on flooring quotients: a greatest common
/// divisor `g` of `a` and `b` together with coefficients `x` and `y` such that
/// `a * x + b * y == g`.
///
/// Never fails: with `b` zero it returns `(a, 1, 0)`.
pub fn extended_gcd(a: &BigInt, b: &BigInt) -> (res: (BigInt, BigInt, BigInt))
    ensures
        (res.0@, res.1@, res.2@) == bezout(a@, b@),
        a@ * res.1@ + b@ * res.2@ == res.0@,
        is_greatest_common_divisor(res.0@, a@, b@),
        b@ == 0 ==> res.0@ == a@ && res.1@ == 1 && res.2@ == 0,
        b@ > 0 ==> res.0@ > 0,
        b@ < 0 ==> res.0@ < 0,
{
    let mut x = BigInt::zero();
    let mut y = BigInt::one();
    let mut u = BigInt::one();
    let mut v = BigInt::zero();
    let mut g = a.clone();
    let mut w = b.clone();
    while !w.is_zero()
        invariant
            bezout(a@, b@) == ({
                let (d, s, t) = bezout(g@, w@);
                (d, s * u@ + t * x@, s * v@ + t * y@)
            }),
        decreases bezout_steps(g@, w@),
    {
        let q = g.div_floor(&w);
        let rest = g.sub(&q.mul(&w));
        let next_x = u.sub(&q.mul(&x));
        let next_y = v.sub(&q.mul(&y));
        proof {
            let (d, s, t) = bezout(w@, g@ - w@ * q@);
            assert(q@ * w@ == w@ * q@) by (nonlinear_arith);
            assert(t * u@ + (s - q@ * t) * x@ == s * x@ + t * (u@ - q@ * x@)) by (nonlinear_arith);
            assert(t * v@ + (s - q@ * t) * y@ == s * y@ + t * (v@ - q@ * y@)) by (nonlinear_arith);
        }
        g = w;
        w = rest;
        u = x;
        x = next_x;
        v = y;
        y = next_y;
    }
    proof {
        lemma_bezout_identity(a@, b@);
        if b@ != 0 {
            lemma_bezout_sign(a@, b@);
        }
    }
    (g, u, v)
}

} // verus!
