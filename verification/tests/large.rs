use num::bigint::Sign;
use number_theory::bigint::BigInt;
use number_theory::util::{extended_gcd, gcd, lcm};

fn to_num(x: &BigInt) -> num::BigInt {
    let sign = if x.is_negative() { Sign::Minus } else { Sign::Plus };
    num::BigInt::from_slice(sign, x.digits())
}

fn from_num(x: &num::BigInt) -> BigInt {
    let (sign, digits) = x.to_u32_digits();
    BigInt::from_digits(sign == Sign::Minus, digits)
}

fn big(decimal: &str) -> BigInt {
    from_num(&decimal.parse::<num::BigInt>().unwrap())
}

fn fibonacci(n: usize) -> (BigInt, BigInt) {
    let mut previous = num::BigInt::from(0);
    let mut current = num::BigInt::from(1);
    for _ in 1..n {
        let next = &previous + &current;
        previous = current;
        current = next;
    }
    (from_num(&current), from_num(&previous))
}

#[test]
fn gcd_of_wide_operands() {
    let a = big("12345678901234567890123");
    let b = big("987654321098765432109876");
    assert_eq!(gcd(&a, &b), Ok(BigInt::from(3)));
    assert_eq!(gcd(&b, &a), Ok(BigInt::from(3)));
}

#[test]
fn lcm_of_wide_operands() {
    let a = big("12345678901234567890123");
    let b = big("987654321098765432109876");
    assert_eq!(lcm(&a, &b), Ok(big("4064421037900726507539348472478792003210384916")));
}

#[test]
fn extended_gcd_of_wide_operands() {
    let a = big("12345678901234567890123");
    let b = big("987654321098765432109876");
    let (g, x, y) = extended_gcd(&a, &b);
    assert_eq!(g, BigInt::from(3));
    assert_eq!(x, big("-77084654708746075634751"));
    assert_eq!(y, big("963558175078901995126"));
}

#[test]
fn powers_of_two_across_digit_boundaries() {
    let a = BigInt::from_digits(false, vec![0, 0, 0, 16]);
    let b = BigInt::from_digits(false, vec![0, 0, 3]);
    let two_to_64 = BigInt::from_digits(false, vec![0, 0, 1]);
    assert_eq!(gcd(&a, &b), Ok(two_to_64.clone()));
    assert_eq!(lcm(&a, &b), Ok(big("3802951800684688204490109616128")));
    let (g, x, y) = extended_gcd(&a, &b);
    assert_eq!(g, two_to_64);
    assert_eq!(x, BigInt::from(1));
    assert_eq!(y, BigInt::from(-22_906_492_245i64));
}

#[test]
fn negative_wide_dividend() {
    let a = BigInt::from_digits(true, vec![0, 0, 0, 16]);
    let b = BigInt::from_digits(false, vec![0, 0, 3]);
    assert_eq!(gcd(&a, &b), Ok(BigInt::from_digits(true, vec![0, 0, 1])));
    assert_eq!(lcm(&a, &b), Ok(big("3802951800684688204490109616128")));
    let (g, x, y) = extended_gcd(&a, &b);
    assert_eq!(g, BigInt::from_digits(false, vec![0, 0, 1]));
    assert_eq!(x, BigInt::from(-1));
    assert_eq!(y, BigInt::from(-22_906_492_245i64));
}

#[test]
fn narrow_dividend_and_wide_divisor() {
    let a = BigInt::from(17);
    let b = big("1180591620717411303424");
    assert_eq!(gcd(&a, &b), Ok(BigInt::from(1)));
    assert_eq!(lcm(&a, &b), Ok(big("20070057552195992158208")));
    let (g, x, y) = extended_gcd(&a, &b);
    assert_eq!(g, BigInt::from(1));
    assert_eq!(x, big("-277786263698214424335"));
    assert_eq!(y, BigInt::from(4));
}

#[test]
fn consecutive_fibonacci_numbers_are_coprime() {
    let (a, b) = fibonacci(93);
    assert_eq!(a, BigInt::from(12_200_160_415_121_876_738u64));
    assert_eq!(gcd(&a, &b), Ok(BigInt::from(1)));
    let (g, x, y) = extended_gcd(&a, &b);
    assert_eq!(g, BigInt::from(1));
    assert_eq!(x, BigInt::from(-2_880_067_194_370_816_120i64));
    assert_eq!(y, BigInt::from(4_660_046_610_375_530_309i64));
}

#[test]
fn long_fibonacci_chains_end() {
    let (a, b) = fibonacci(2_000);
    assert_eq!(gcd(&a, &b), Ok(BigInt::from(1)));
    assert_eq!(gcd(&b, &a), Ok(BigInt::from(1)));
    assert_eq!(lcm(&a, &b), Ok(from_num(&(to_num(&a) * to_num(&b)))));
    let (g, x, y) = extended_gcd(&a, &b);
    assert_eq!(g, BigInt::from(1));
    assert_eq!(to_num(&a) * to_num(&x) + to_num(&b) * to_num(&y), num::BigInt::from(1));
}

#[test]
fn common_factor_of_wide_products() {
    let p = big("170141183460469231731687303715884105727");
    let q = big("618970019642690137449562111");
    let r = big("2305843009213693951");
    let a = from_num(&(to_num(&p) * to_num(&q)));
    let b = from_num(&(to_num(&p) * to_num(&r)));
    assert_eq!(gcd(&a, &b), Ok(p.clone()));
    let (g, x, y) = extended_gcd(&a, &b);
    assert_eq!(g, p);
    assert_eq!(to_num(&a) * to_num(&x) + to_num(&b) * to_num(&y), to_num(&g));
    let expected = from_num(&(to_num(&p) * to_num(&q) * to_num(&r)));
    assert_eq!(lcm(&a, &b), Ok(expected));
}
