//! What the Euclidean algorithms compute, as mathematical functions of the
//! two operands, and the laws that hold of them.
//!
//! The plain algorithm reduces with the truncating remainder, the extended
//! one with the flooring quotient. Neither normalises the sign of its result:
//! both give a greatest common divisor in the sense of
//! [`is_greatest_common_divisor`], which fixes the magnitude only. The result
//! of the extended algorithm has the sign of a nonzero second operand; the
//! sign of the plain result depends on the length of the chain.

use crate::arith::{
    bit_length, floor_div, lemma_bit_length_monotonic, lemma_floor_div_rem,
    lemma_remainder_halves, lemma_trunc_div_rem, magnitude, trunc_div, trunc_rem,
};
use crate::digits::{digits_value, lemma_digits_bit_length};
use crate::divisibility::{
    divides, is_greatest_common_divisor, is_least_common_multiple, is_product,
    lemma_divides_multiple, lemma_divides_transitive, lemma_gcd_nonzero, lemma_gcd_step,
    lemma_gcd_unique, lemma_gcd_with_zero, lemma_trunc_div_exact,
};
use vstd::prelude::*;

verus! {

/// The last nonzero term of the chain `a, b, a rem b, b rem (a rem b), ...`
/// in which `rem` is the truncating remainder.
pub open spec fn euclid_gcd(a: int, b: int) -> int
    decreases magnitude(b),
    via euclid_gcd_decreases
{
    if b == 0 {
        a
    } else {
        euclid_gcd(b, trunc_rem(a, b))
    }
}

#[via_fn]
proof fn euclid_gcd_decreases(a: int, b: int) {
    if b != 0 {
        lemma_trunc_div_rem(a, b);
    }
}

/// The number of remainders taken along the chain of [`euclid_gcd`].
pub open spec fn euclid_steps(a: int, b: int) -> nat
    decreases magnitude(b),
    via euclid_steps_decreases
{
    if b == 0 {
        0
    } else {
        1 + euclid_steps(b, trunc_rem(a, b))
    }
}

#[via_fn]
proof fn euclid_steps_decreases(a: int, b: int) {
    if b != 0 {
        lemma_trunc_div_rem(a, b);
    }
}

/// The product of `a` and `b` divided by their [`euclid_gcd`], rounding
/// toward zero.
pub open spec fn euclid_lcm(a: int, b: int) -> int {
    trunc_div(a * b, euclid_gcd(a, b))
}

/// The triple `(g, x, y)` of the extended algorithm: `g` ends the chain
/// `a, b, a mod b, ...` in which `mod` is the flooring remainder, and `x`,
/// `y` are the coefficients that the quotients along the chain give.
pub open spec fn bezout(a: int, b: int) -> (int, int, int)
    decreases magnitude(b),
    via bezout_decreases
{
    if b == 0 {
        (a, 1, 0)
    } else {
        let q = floor_div(a, b);
        let (g, x, y) = bezout(b, a - b * q);
        (g, y, x - q * y)
    }
}

#[via_fn]
proof fn bezout_decreases(a: int, b: int) {
    if b != 0 {
        lemma_floor_div_rem(a, b);
    }
}

/// The number of quotients taken along the chain of [`bezout`].
pub open spec fn bezout_steps(a: int, b: int) -> nat
    decreases magnitude(b),
    via bezout_steps_decreases
{
    if b == 0 {
        0
    } else {
        1 + bezout_steps(b, a - b * floor_div(a, b))
    }
}

#[via_fn]
proof fn bezout_steps_decreases(a: int, b: int) {
    if b != 0 {
        lemma_floor_div_rem(a, b);
    }
}

/// The result of the plain algorithm is a greatest common divisor of its
/// operands.
pub proof fn lemma_euclid_gcd_is_greatest(a: int, b: int)
    ensures
        is_greatest_common_divisor(euclid_gcd(a, b), a, b),
    decreases magnitude(b),
{
    if b == 0 {
        lemma_gcd_with_zero(a);
    } else {
        lemma_trunc_div_rem(a, b);
        let q = trunc_div(a, b);
        let r = trunc_rem(a, b);
        lemma_euclid_gcd_is_greatest(b, r);
        assert(r == a - q * b) by (nonlinear_arith)
            requires
                a == b * q + r,
        ;
        lemma_gcd_step(euclid_gcd(a, b), a, b, q);
    }
}

/// Bézout's identity: the coefficients of the extended algorithm combine the
/// operands into its first result, which is a greatest common divisor of
/// them.
pub proof fn lemma_bezout_identity(a: int, b: int)
    ensures
        a * bezout(a, b).1 + b * bezout(a, b).2 == bezout(a, b).0,
        is_greatest_common_divisor(bezout(a, b).0, a, b),
    decreases magnitude(b),
{
    if b == 0 {
        lemma_gcd_with_zero(a);
        assert(a * 1 + b * 0 == a) by (nonlinear_arith);
    } else {
        lemma_floor_div_rem(a, b);
        let q = floor_div(a, b);
        let r = a - b * q;
        lemma_bezout_identity(b, r);
        let (g, x, y) = bezout(b, r);
        assert(a * y + b * (x - q * y) == g) by (nonlinear_arith)
            requires
                b * x + r * y == g,
                r == a - b * q,
        ;
        assert(r == a - q * b) by (nonlinear_arith)
            requires
                r == a - b * q,
        ;
        lemma_gcd_step(g, a, b, q);
    }
}

/// With a zero second operand the extended algorithm gives the first operand
/// and the coefficients one and zero.
pub proof fn lemma_bezout_of_zero(a: int)
    ensures
        bezout(a, 0) == (a, 1int, 0int),
{
}

/// With a nonzero second operand the first result of the extended algorithm
/// has the sign of that operand.
pub proof fn lemma_bezout_sign(a: int, b: int)
    requires
        b != 0,
    ensures
        b > 0 ==> bezout(a, b).0 > 0,
        b < 0 ==> bezout(a, b).0 < 0,
    decreases magnitude(b),
{
    lemma_floor_div_rem(a, b);
    let r = a - b * floor_div(a, b);
    if r != 0 {
        lemma_bezout_sign(b, r);
    } else {
        assert(bezout(b, r).0 == b);
    }
}

/// Both algorithms give the same greatest common divisor up to sign.
pub proof fn lemma_gcd_magnitudes_agree(a: int, b: int)
    ensures
        magnitude(euclid_gcd(a, b)) == magnitude(bezout(a, b).0),
{
    lemma_euclid_gcd_is_greatest(a, b);
    lemma_bezout_identity(a, b);
    lemma_gcd_unique(euclid_gcd(a, b), bezout(a, b).0, a, b);
}

/// On a non-negative first and a positive second operand the plain algorithm
/// gives a positive result, the same as the extended one.
pub proof fn lemma_gcd_of_nonnegative(a: int, b: int)
    requires
        a >= 0,
        b > 0,
    ensures
        euclid_gcd(a, b) > 0,
        euclid_gcd(a, b) == bezout(a, b).0,
    decreases b,
{
    lemma_trunc_div_rem(a, b);
    let r = trunc_rem(a, b);
    if r != 0 {
        lemma_gcd_of_nonnegative(b, r);
    } else {
        assert(euclid_gcd(b, r) == b);
    }
    lemma_bezout_sign(a, b);
    lemma_gcd_magnitudes_agree(a, b);
}

/// With a nonzero second operand the plain algorithm gives a nonzero result.
pub proof fn lemma_euclid_gcd_nonzero(a: int, b: int)
    requires
        b != 0,
    ensures
        euclid_gcd(a, b) != 0,
{
    lemma_euclid_gcd_is_greatest(a, b);
    lemma_gcd_nonzero(euclid_gcd(a, b), a, b);
}

/// The product law: for a nonzero second operand, greatest common divisor
/// times least common multiple is the product of the operands.
pub proof fn lemma_gcd_lcm_product(a: int, b: int)
    requires
        b != 0,
    ensures
        euclid_gcd(a, b) * euclid_lcm(a, b) == a * b,
{
    let g = euclid_gcd(a, b);
    lemma_euclid_gcd_nonzero(a, b);
    lemma_euclid_gcd_is_greatest(a, b);
    lemma_divides_multiple(a, b);
    lemma_divides_transitive(g, a, a * b);
    lemma_trunc_div_exact(a * b, g);
}

/// For a nonzero second operand the quotient of the product by the greatest
/// common divisor is a least common multiple of the operands.
pub proof fn lemma_euclid_lcm_is_least(a: int, b: int)
    requires
        b != 0,
    ensures
        is_least_common_multiple(euclid_lcm(a, b), a, b),
{
    let g = euclid_gcd(a, b);
    let l = euclid_lcm(a, b);
    lemma_gcd_lcm_product(a, b);
    lemma_euclid_gcd_nonzero(a, b);
    lemma_euclid_gcd_is_greatest(a, b);
    let i = choose|k: int| is_product(a, g, k);
    let j = choose|k: int| is_product(b, g, k);
    assert(l == a * j) by (nonlinear_arith)
        requires
            g * l == a * b,
            b == g * j,
            g != 0,
    ;
    assert(is_product(l, a, j));
    assert(l == b * i) by (nonlinear_arith)
        requires
            g * l == a * b,
            a == g * i,
            g != 0,
    ;
    assert(is_product(l, b, i));
    assert forall|m: int| divides(a, m) && divides(b, m) implies #[trigger] divides(l, m) by {
        lemma_lcm_divides_common_multiple(a, b, m);
    }
}

/// For a nonzero second operand every common multiple of the operands is a
/// multiple of their least common multiple.
proof fn lemma_lcm_divides_common_multiple(a: int, b: int, m: int)
    requires
        b != 0,
        divides(a, m),
        divides(b, m),
    ensures
        divides(euclid_lcm(a, b), m),
{
    let g = euclid_gcd(a, b);
    let l = euclid_lcm(a, b);
    lemma_gcd_lcm_product(a, b);
    lemma_euclid_gcd_nonzero(a, b);
    lemma_bezout_identity(a, b);
    lemma_gcd_magnitudes_agree(a, b);
    let (h, x, y) = bezout(a, b);
    let i = choose|k: int| is_product(m, a, k);
    let j = choose|k: int| is_product(m, b, k);
    let c = j * x + i * y;
    assert(m * (a * x) == (a * b) * (j * x)) by (nonlinear_arith)
        requires
            m == b * j,
    ;
    assert(m * (b * y) == (a * b) * (i * y)) by (nonlinear_arith)
        requires
            m == a * i,
    ;
    assert(m * h == (g * l) * c) by (nonlinear_arith)
        requires
            h == a * x + b * y,
            m * (a * x) == (a * b) * (j * x),
            m * (b * y) == (a * b) * (i * y),
            c == j * x + i * y,
            g * l == a * b,
    ;
    if h == g {
        assert(m == l * c) by (nonlinear_arith)
            requires
                m * g == (g * l) * c,
                g != 0,
        ;
        assert(is_product(m, l, c));
    } else {
        assert(m == l * (-c)) by (nonlinear_arith)
            requires
                m * (-g) == (g * l) * c,
                g != 0,
        ;
        assert(is_product(m, l, -c));
    }
}

/// The plain algorithm takes at most two remainders for each binary digit of
/// the second operand.
pub proof fn lemma_euclid_steps_bound(a: int, b: int)
    ensures
        euclid_steps(a, b) <= 2 * bit_length(magnitude(b)),
    decreases magnitude(b),
{
    if b != 0 {
        lemma_trunc_div_rem(a, b);
        let r = trunc_rem(a, b);
        if r == 0 {
            assert(euclid_steps(b, r) == 0);
        } else {
            lemma_trunc_div_rem(b, r);
            let s = trunc_rem(b, r);
            assert(euclid_steps(b, r) == 1 + euclid_steps(r, s));
            lemma_euclid_steps_bound(r, s);
            lemma_remainder_halves(magnitude(b) as int, magnitude(r) as int);
            lemma_bit_length_monotonic(magnitude(s), magnitude(b) / 2);
        }
    }
}

/// The extended algorithm takes at most two quotients for each binary digit of
/// the second operand.
pub proof fn lemma_bezout_steps_bound(a: int, b: int)
    ensures
        bezout_steps(a, b) <= 2 * bit_length(magnitude(b)),
    decreases magnitude(b),
{
    if b != 0 {
        lemma_floor_div_rem(a, b);
        let r = a - b * floor_div(a, b);
        if r == 0 {
            assert(bezout_steps(b, r) == 0);
        } else {
            lemma_floor_div_rem(b, r);
            let s = b - r * floor_div(b, r);
            assert(bezout_steps(b, r) == 1 + bezout_steps(r, s));
            lemma_bezout_steps_bound(r, s);
            let m = magnitude(b) as int;
            let n = magnitude(r) as int;
            lemma_remainder_halves(m, n);
            vstd::arithmetic::div_mod::lemma_fundamental_div_mod(m, n);
            assert(r * (m / n) == if b > 0 { n * (m / n) } else { -(n * (m / n)) })
                by (nonlinear_arith)
                requires
                    n == magnitude(r),
                    (b > 0 && r > 0) || (b < 0 && r < 0),
            ;
            assert(magnitude(s) == m % n);
            lemma_bit_length_monotonic(magnitude(s), magnitude(b) / 2);
        }
    }
}

/// Both algorithms take a number of reduction steps that is linear in the
/// number of digits of the second operand: at most 64 for each base-2^32
/// digit.
pub proof fn lemma_steps_linear_in_digits(a: int, b: int, digits: Seq<u32>)
    requires
        digits_value(digits) == magnitude(b),
    ensures
        euclid_steps(a, b) <= 64 * digits.len(),
        bezout_steps(a, b) <= 64 * digits.len(),
{
    lemma_digits_bit_length(digits);
    lemma_euclid_steps_bound(a, b);
    lemma_bezout_steps_bound(a, b);
}

} // verus!
