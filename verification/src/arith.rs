//! Integer division in its three roundings, as mathematical functions.
//!
//! On mathematical integers `/` and `%` are Euclidean: for a nonzero divisor
//! the remainder is never negative. The functions here express the truncating
//! and the flooring operations through them, case by case on the signs, so
//! that on given numbers they reduce to a division of two literals.

use vstd::prelude::*;

verus! {

/// The absolute value of `x`.
pub open spec fn magnitude(x: int) -> nat {
    if x < 0 {
        (-x) as nat
    } else {
        x as nat
    }
}

/// The remainder of the division of `a` by `b` that rounds its quotient toward
/// zero: its sign is that of `a`, its magnitude is `|a| mod |b|`.
pub open spec fn trunc_rem(a: int, b: int) -> int {
    if b < 0 {
        if a < 0 {
            -((-a) % (-b))
        } else {
            a % (-b)
        }
    } else {
        if a < 0 {
            -((-a) % b)
        } else {
            a % b
        }
    }
}

/// The quotient of `a` by `b` rounded toward zero.
pub open spec fn trunc_div(a: int, b: int) -> int {
    if b < 0 {
        if a < 0 {
            (-a) / (-b)
        } else {
            -(a / (-b))
        }
    } else {
        if a < 0 {
            -((-a) / b)
        } else {
            a / b
        }
    }
}

/// The quotient of `a` by `b` rounded toward negative infinity.
pub open spec fn floor_div(a: int, b: int) -> int {
    if b < 0 {
        (-a) / (-b)
    } else {
        a / b
    }
}

/// The number of binary digits of `n`; zero has none.
pub open spec fn bit_length(n: nat) -> nat
    decreases n,
{
    if n == 0 {
        0
    } else {
        1 + bit_length(n / 2)
    }
}

/// Truncating division and remainder recompose the dividend, and the
/// remainder is smaller in magnitude than the divisor.
pub proof fn lemma_trunc_div_rem(a: int, b: int)
    requires
        b != 0,
    ensures
        a == b * trunc_div(a, b) + trunc_rem(a, b),
        magnitude(trunc_rem(a, b)) < magnitude(b),
        magnitude(trunc_rem(a, b)) == (magnitude(a) as int) % (magnitude(b) as int),
{
    let m = magnitude(a) as int;
    let n = magnitude(b) as int;
    vstd::arithmetic::div_mod::lemma_fundamental_div_mod(m, n);
    vstd::arithmetic::div_mod::lemma_mod_bound(m, n);
    let q = m / n;
    assert(b * trunc_div(a, b) == if a < 0 { -(n * q) } else { n * q }) by (nonlinear_arith)
        requires
            trunc_div(a, b) == if (a < 0) == (b < 0) { q } else { -q },
            n == magnitude(b),
            b != 0,
    ;
}

/// Flooring division leaves a remainder `a - b * floor_div(a, b)` that is zero
/// or has the sign of `b`, and is smaller in magnitude than `b`.
pub proof fn lemma_floor_div_rem(a: int, b: int)
    requires
        b != 0,
    ensures
        b > 0 ==> 0 <= a - b * floor_div(a, b) < b,
        b < 0 ==> b < a - b * floor_div(a, b) <= 0,
        magnitude(a - b * floor_div(a, b)) < magnitude(b),
{
    if b > 0 {
        vstd::arithmetic::div_mod::lemma_fundamental_div_mod(a, b);
        vstd::arithmetic::div_mod::lemma_mod_bound(a, b);
    } else {
        vstd::arithmetic::div_mod::lemma_fundamental_div_mod(-a, -b);
        vstd::arithmetic::div_mod::lemma_mod_bound(-a, -b);
        let q = (-a) / (-b);
        assert(b * q == -((-b) * q)) by (nonlinear_arith);
    }
}

/// A larger number has no fewer binary digits.
pub proof fn lemma_bit_length_monotonic(m: nat, n: nat)
    requires
        m <= n,
    ensures
        bit_length(m) <= bit_length(n),
    decreases n,
{
    if m != 0 {
        lemma_bit_length_monotonic(m / 2, n / 2);
    }
}

/// A number below `2^k` has at most `k` binary digits.
pub proof fn lemma_bit_length_bound(n: nat, k: nat)
    requires
        n < vstd::arithmetic::power2::pow2(k),
    ensures
        bit_length(n) <= k,
    decreases k,
{
    if n != 0 {
        vstd::arithmetic::power2::lemma2_to64();
        if k != 0 {
            vstd::arithmetic::power2::lemma_pow2_unfold(k);
            lemma_bit_length_bound(n / 2, (k - 1) as nat);
        }
    }
}

/// The remainder by a divisor that is not larger than the dividend is less
/// than half the dividend.
pub proof fn lemma_remainder_halves(m: int, n: int)
    requires
        0 < n <= m,
    ensures
        2 * (m % n) < m,
{
    vstd::arithmetic::div_mod::lemma_fundamental_div_mod(m, n);
    vstd::arithmetic::div_mod::lemma_mod_bound(m, n);
    let q = m / n;
    let r = m % n;
    assert(n * q >= n) by (nonlinear_arith)
        requires
            m == n * q + r,
            0 <= r < n,
            n <= m,
    ;
}

} // verus!
