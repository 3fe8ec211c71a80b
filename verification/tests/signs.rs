use num::bigint::Sign;
use number_theory::bigint::BigInt;
use number_theory::util::{extended_gcd, gcd, lcm};

fn to_num(x: &BigInt) -> num::BigInt {
    let sign = if x.is_negative() { Sign::Minus } else { Sign::Plus };
    num::BigInt::from_slice(sign, x.digits())
}

fn triple(a: i64, b: i64) -> (BigInt, BigInt, BigInt) {
    extended_gcd(&BigInt::from(a), &BigInt::from(b))
}

fn expect(g: i64, x: i64, y: i64) -> (BigInt, BigInt, BigInt) {
    (BigInt::from(g), BigInt::from(x), BigInt::from(y))
}

#[test]
fn gcd_keeps_the_sign_of_the_remainder_chain() {
    assert_eq!(gcd(&BigInt::from(10), &BigInt::from(15)), Ok(BigInt::from(5)));
    assert_eq!(gcd(&BigInt::from(10), &BigInt::from(-15)), Ok(BigInt::from(-5)));
    assert_eq!(gcd(&BigInt::from(-10), &BigInt::from(15)), Ok(BigInt::from(5)));
    assert_eq!(gcd(&BigInt::from(-10), &BigInt::from(-15)), Ok(BigInt::from(-5)));
    assert_eq!(gcd(&BigInt::from(-7), &BigInt::from(7)), Ok(BigInt::from(7)));
    assert_eq!(gcd(&BigInt::from(7), &BigInt::from(-7)), Ok(BigInt::from(-7)));
    assert_eq!(gcd(&BigInt::from(1), &BigInt::from(1)), Ok(BigInt::from(1)));
}

#[test]
fn gcd_reduces_with_the_truncating_remainder() {
    // -10 = -2 * 4 - 2, so the chain is -10, 4, -2, 0; flooring would give 2.
    assert_eq!(gcd(&BigInt::from(-10), &BigInt::from(4)), Ok(BigInt::from(-2)));
    assert_eq!(lcm(&BigInt::from(-10), &BigInt::from(4)), Ok(BigInt::from(20)));
    assert_eq!(gcd(&BigInt::from(-7), &BigInt::from(3)), Ok(BigInt::from(-1)));
    assert_eq!(lcm(&BigInt::from(-7), &BigInt::from(3)), Ok(BigInt::from(21)));
}

#[test]
fn extended_gcd_reduces_with_the_flooring_quotient() {
    // floor(-10 / 4) = -3 leaves 2; truncation would leave -2 and give (-2, 1, 2).
    assert_eq!(triple(-10, 4), expect(2, 1, 3));
    assert_eq!(triple(10, -4), expect(-2, 1, 3));
    assert_eq!(triple(-7, 3), expect(1, -1, -2));
}

#[test]
fn lcm_keeps_the_sign_of_product_over_gcd() {
    assert_eq!(lcm(&BigInt::from(10), &BigInt::from(15)), Ok(BigInt::from(30)));
    assert_eq!(lcm(&BigInt::from(10), &BigInt::from(-15)), Ok(BigInt::from(30)));
    assert_eq!(lcm(&BigInt::from(-10), &BigInt::from(15)), Ok(BigInt::from(-30)));
    assert_eq!(lcm(&BigInt::from(-10), &BigInt::from(-15)), Ok(BigInt::from(-30)));
    assert_eq!(lcm(&BigInt::from(-7), &BigInt::from(7)), Ok(BigInt::from(-7)));
    assert_eq!(lcm(&BigInt::from(7), &BigInt::from(7)), Ok(BigInt::from(7)));
}

#[test]
fn extended_gcd_gives_the_coefficients_of_the_floor_quotients() {
    assert_eq!(triple(10, 15), expect(5, -1, 1));
    assert_eq!(triple(10, -15), expect(-5, 1, 1));
    assert_eq!(triple(-10, 15), expect(5, 1, 1));
    assert_eq!(triple(-10, -15), expect(-5, -1, 1));
    assert_eq!(triple(0, 7), expect(7, 0, 1));
    assert_eq!(triple(0, -7), expect(-7, 0, 1));
    assert_eq!(triple(7, 7), expect(7, 0, 1));
    assert_eq!(triple(-7, 7), expect(7, 0, 1));
    assert_eq!(triple(3_651, 4_635), expect(3, 683, -538));
    assert_eq!(triple(56, 42), expect(14, 1, -1));
    assert_eq!(triple(24_826_148, 45_296_490), expect(526, 27_932, -15_309));
}

#[test]
fn extended_gcd_follows_the_sign_of_a_nonzero_second_operand() {
    for a in [-30i64, -7, -1, 0, 1, 7, 30, 1_000_003] {
        for b in [-45i64, -6, -1, 1, 6, 45, 999_983] {
            let (g, _, _) = triple(a, b);
            assert!(!g.is_zero());
            assert_eq!(g.is_negative(), b < 0, "a = {}, b = {}", a, b);
        }
    }
}

#[test]
fn bezout_identity_holds_for_mixed_signs() {
    for a in [-30i64, -7, -1, 0, 1, 7, 30, 1_000_003] {
        for b in [-45i64, -6, -1, 0, 1, 6, 45, 999_983] {
            let (g, x, y) = triple(a, b);
            let lhs = num::BigInt::from(a) * to_num(&x) + num::BigInt::from(b) * to_num(&y);
            assert_eq!(lhs, to_num(&g), "a = {}, b = {}", a, b);
        }
    }
}

#[test]
fn gcd_times_lcm_is_the_product() {
    for a in [-30i64, -7, -1, 0, 1, 7, 30, 1_000_003] {
        for b in [-45i64, -6, -1, 1, 6, 45, 999_983] {
            let g = gcd(&BigInt::from(a), &BigInt::from(b)).unwrap();
            let l = lcm(&BigInt::from(a), &BigInt::from(b)).unwrap();
            assert_eq!(to_num(&g) * to_num(&l), num::BigInt::from(a * b), "a = {}, b = {}", a, b);
        }
    }
}

#[test]
fn both_algorithms_agree_up_to_sign() {
    for a in [-30i64, -7, -1, 0, 1, 7, 30, 1_000_003] {
        for b in [-45i64, -6, -1, 1, 6, 45, 999_983] {
            let g = gcd(&BigInt::from(a), &BigInt::from(b)).unwrap();
            let (h, _, _) = triple(a, b);
            assert_eq!(g.digits(), h.digits(), "a = {}, b = {}", a, b);
            let reference = num::Integer::gcd(&num::BigInt::from(a), &num::BigInt::from(b));
            assert_eq!(to_num(&g).magnitude(), reference.magnitude(), "a = {}, b = {}", a, b);
        }
    }
}

#[test]
fn gcd_divides_both_operands() {
    for a in [-30i64, -7, 0, 7, 30, 1_000_003] {
        for b in [-45i64, -6, 6, 45, 999_983] {
            let g = to_num(&gcd(&BigInt::from(a), &BigInt::from(b)).unwrap());
            assert_eq!(num::BigInt::from(a) % &g, num::BigInt::from(0));
            assert_eq!(num::BigInt::from(b) % &g, num::BigInt::from(0));
        }
    }
}
