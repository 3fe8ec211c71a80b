//! Divisibility of integers, and what makes a number a greatest common
//! divisor or a least common multiple of two others, whatever its sign.

use crate::arith::{lemma_trunc_div_rem, magnitude, trunc_div};
use vstd::prelude::*;

verus! {

/// `n` is `d` times `k`.
pub open spec fn is_product(n: int, d: int, k: int) -> bool {
    n == d * k
}

/// `d` divides `n`: some integer times `d` is `n`. Zero divides only zero.
pub open spec fn divides(d: int, n: int) -> bool {
    exists|k: int| #[trigger] is_product(n, d, k)
}

/// `g` divides both `a` and `b`, and every common divisor of `a` and `b`
/// divides `g`. This fixes `g` up to its sign.
pub open spec fn is_greatest_common_divisor(g: int, a: int, b: int) -> bool {
    &&& divides(g, a)
    &&& divides(g, b)
    &&& forall|d: int| divides(d, a) && divides(d, b) ==> #[trigger] divides(d, g)
}

/// `l` is a multiple of both `a` and `b`, and every common multiple of `a`
/// and `b` is a multiple of `l`. This fixes `l` up to its sign.
pub open spec fn is_least_common_multiple(l: int, a: int, b: int) -> bool {
    &&& divides(a, l)
    &&& divides(b, l)
    &&& forall|m: int| divides(a, m) && divides(b, m) ==> #[trigger] divides(l, m)
}

/// `d` divides each of its multiples.
pub proof fn lemma_divides_multiple(d: int, k: int)
    ensures
        divides(d, d * k),
        divides(d, k * d),
{
    assert(is_product(d * k, d, k));
    assert(k * d == d * k) by (nonlinear_arith);
}

/// A common divisor of `a` and `b` divides `a * x + b * y`.
pub proof fn lemma_divides_combination(d: int, a: int, b: int, x: int, y: int)
    requires
        divides(d, a),
        divides(d, b),
    ensures
        divides(d, a * x + b * y),
{
    let i = choose|k: int| is_product(a, d, k);
    let j = choose|k: int| is_product(b, d, k);
    assert(a * x + b * y == d * (i * x + j * y)) by (nonlinear_arith)
        requires
            a == d * i,
            b == d * j,
    ;
    assert(is_product(a * x + b * y, d, i * x + j * y));
}

/// Divisibility is transitive.
pub proof fn lemma_divides_transitive(d: int, m: int, n: int)
    requires
        divides(d, m),
        divides(m, n),
    ensures
        divides(d, n),
{
    let i = choose|k: int| is_product(m, d, k);
    let j = choose|k: int| is_product(n, m, k);
    assert(n == d * (i * j)) by (nonlinear_arith)
        requires
            m == d * i,
            n == m * j,
    ;
    assert(is_product(n, d, i * j));
}

/// A divisor of a nonzero number is not zero and not larger in magnitude.
pub proof fn lemma_divisor_bound(d: int, n: int)
    requires
        divides(d, n),
        n != 0,
    ensures
        d != 0,
        magnitude(d) <= magnitude(n),
{
    let k = choose|k: int| is_product(n, d, k);
    assert(d != 0 && (d <= n || d <= -n) && (-d <= n || -d <= -n)) by (nonlinear_arith)
        requires
            n == d * k,
            n != 0,
    ;
}

/// Dividing a multiple of `d` by `d` leaves nothing over.
pub proof fn lemma_trunc_div_exact(n: int, d: int)
    requires
        d != 0,
        divides(d, n),
    ensures
        d * trunc_div(n, d) == n,
{
    let k = choose|k: int| is_product(n, d, k);
    let m = magnitude(n) as int;
    let e = magnitude(d) as int;
    let j = magnitude(k) as int;
    assert(m == j * e) by (nonlinear_arith)
        requires
            n == d * k,
            m == magnitude(n),
            e == magnitude(d),
            j == magnitude(k),
    ;
    vstd::arithmetic::div_mod::lemma_mod_multiples_basic(j, e);
    lemma_trunc_div_rem(n, d);
}

/// Two numbers that divide each other are equal up to sign.
pub proof fn lemma_divides_antisymmetric(m: int, n: int)
    requires
        divides(m, n),
        divides(n, m),
    ensures
        magnitude(m) == magnitude(n),
{
    if n == 0 {
        let k = choose|k: int| is_product(m, n, k);
        assert(m == 0) by (nonlinear_arith)
            requires
                m == n * k,
                n == 0,
        ;
    } else {
        lemma_divisor_bound(m, n);
        lemma_divisor_bound(n, m);
    }
}

/// `a` itself is a greatest common divisor of `a` and zero.
pub proof fn lemma_gcd_with_zero(a: int)
    ensures
        is_greatest_common_divisor(a, a, 0),
{
    lemma_divides_multiple(a, 1);
    assert(a * 1 == a) by (nonlinear_arith);
    lemma_divides_multiple(a, 0);
    assert(a * 0 == 0) by (nonlinear_arith);
}

/// One reduction step keeps the greatest common divisors: those of `b` and
/// `a - q * b` are those of `a` and `b`.
pub proof fn lemma_gcd_step(g: int, a: int, b: int, q: int)
    requires
        is_greatest_common_divisor(g, b, a - q * b),
    ensures
        is_greatest_common_divisor(g, a, b),
{
    let r = a - q * b;
    lemma_divides_combination(g, b, r, q, 1);
    assert(b * q + r * 1 == a) by (nonlinear_arith)
        requires
            r == a - q * b,
    ;
    assert forall|d: int| divides(d, a) && divides(d, b) implies #[trigger] divides(d, g) by {
        lemma_divides_combination(d, a, b, 1, -q);
        assert(a * 1 + b * (-q) == r) by (nonlinear_arith)
            requires
                r == a - q * b,
        ;
    }
}

/// Greatest common divisors of the same pair are equal up to sign.
pub proof fn lemma_gcd_unique(g: int, h: int, a: int, b: int)
    requires
        is_greatest_common_divisor(g, a, b),
        is_greatest_common_divisor(h, a, b),
    ensures
        magnitude(g) == magnitude(h),
{
    assert(divides(g, h));
    assert(divides(h, g));
    lemma_divides_antisymmetric(g, h);
}

/// No common divisor of `a` and `b` is larger in magnitude than a nonzero
/// greatest common divisor of them.
pub proof fn lemma_gcd_is_largest(g: int, a: int, b: int, d: int)
    requires
        is_greatest_common_divisor(g, a, b),
        g != 0,
        divides(d, a),
        divides(d, b),
    ensures
        magnitude(d) <= magnitude(g),
{
    assert(divides(d, g));
    lemma_divisor_bound(d, g);
}

/// The greatest common divisor of `a` and a nonzero `b` is not zero.
pub proof fn lemma_gcd_nonzero(g: int, a: int, b: int)
    requires
        is_greatest_common_divisor(g, a, b),
        b != 0,
    ensures
        g != 0,
{
    lemma_divisor_bound(g, b);
}

} // verus!
