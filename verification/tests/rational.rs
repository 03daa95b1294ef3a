use luna::scalar::number::Number;
use luna::scalar::rational::Rational;
use std::cmp::Ordering;

fn frac(n: i64, d: u64) -> Rational {
    Rational { pos: n >= 0, num: n.unsigned_abs(), den: d }
}

fn same_fields(a: Rational, b: Rational) -> bool {
    a.pos == b.pos && a.num == b.num && a.den == b.den
}

#[test]
fn gcd_by_euclid() {
    assert_eq!(Rational::gcd(12, 18), 6);
    assert_eq!(Rational::gcd(18, 12), 6);
    assert_eq!(Rational::gcd(7, 13), 1);
    assert_eq!(Rational::gcd(0, 5), 5);
    assert_eq!(Rational::gcd(5, 0), 5);
    assert_eq!(Rational::gcd(0, 0), 0);
}

#[test]
fn lcm_of_two_numbers() {
    assert_eq!(Rational::lcm(4, 6), 12);
    assert_eq!(Rational::lcm(6, 4), 12);
    assert_eq!(Rational::lcm(1, 9), 9);
    assert_eq!(Rational::lcm(0, 9), 0);
}

#[test]
fn matching_num_brings_to_the_common_denominator() {
    let a = frac(1, 4);
    let b = frac(5, 6);
    assert!(a.can_match(&b));
    assert_eq!(a.matching_num(&b), (12, 3, 10));
}

#[test]
fn can_match_refuses_what_does_not_fit() {
    let big = Rational { pos: true, num: 1, den: u64::MAX };
    let other = Rational { pos: true, num: 1, den: u64::MAX - 1 };
    assert!(!big.can_match(&other));
    assert!(!frac(1, 0).can_match(&frac(1, 2)));
    assert!(!frac(1, 2).can_match(&frac(1, 0)));
    let wide = Rational { pos: true, num: u64::MAX, den: 2 };
    assert!(!wide.can_match(&frac(1, 4)));
}

#[test]
fn simplify_brings_to_lowest_terms() {
    let mut a = frac(6, 8);
    a.simplify();
    assert!(same_fields(a, frac(3, 4)));
    let mut zero = frac(0, 8);
    zero.simplify();
    assert!(same_fields(zero, frac(0, 1)));
    let mut negative = frac(-10, 4);
    negative.simplify();
    assert!(same_fields(negative, frac(-5, 2)));
    let mut invalid = frac(3, 0);
    invalid.simplify();
    assert!(same_fields(invalid, frac(3, 0)));
}

#[test]
fn identities() {
    assert!(same_fields(Rational::zero(), frac(0, 1)));
    assert!(same_fields(Rational::one(), frac(1, 1)));
    assert!(Rational::zero().valid());
    assert!(Rational::one().valid());
}

#[test]
fn inverse_exchanges_numerator_and_denominator() {
    assert!(same_fields(frac(-2, 3).inverse(), frac(-3, 2)));
    assert!(!Rational::zero().inverse().valid());
    assert!(same_fields(frac(2, 3).inverse().inverse(), frac(2, 3)));
    assert_eq!(frac(2, 3) * frac(2, 3).inverse(), Rational::one());
}

#[test]
fn addition() {
    assert!(same_fields(frac(1, 4) + frac(5, 6), frac(13, 12)));
    assert!(same_fields(frac(1, 2) + frac(1, 2), frac(1, 1)));
    assert!(same_fields(frac(-1, 2) + frac(-1, 3), frac(-5, 6)));
    assert!(same_fields(frac(1, 2) + frac(-1, 3), frac(1, 6)));
    assert!(same_fields(frac(1, 3) + frac(-1, 2), frac(-1, 6)));
    assert!(same_fields(frac(-1, 2) + frac(1, 3), frac(-1, 6)));
    assert!(same_fields(frac(-1, 3) + frac(1, 2), frac(1, 6)));
    assert_eq!(frac(1, 2) + frac(-1, 2), Rational::zero());
    assert_eq!(frac(3, 7) + Rational::zero(), frac(3, 7));
}

#[test]
fn subtraction() {
    assert!(same_fields(frac(3, 4) - frac(1, 4), frac(1, 2)));
    assert!(same_fields(frac(1, 4) - frac(3, 4), frac(-1, 2)));
    assert_eq!(frac(5, 9) - frac(5, 9), Rational::zero());
}

#[test]
fn multiplication() {
    assert!(same_fields(frac(2, 3) * frac(3, 4), frac(1, 2)));
    assert!(same_fields(frac(-2, 3) * frac(3, 4), frac(-1, 2)));
    assert!(same_fields(frac(-2, 3) * frac(-3, 4), frac(1, 2)));
    assert_eq!(frac(2, 3) * Rational::zero(), Rational::zero());
    assert_eq!(frac(2, 3) * Rational::one(), frac(2, 3));
}

#[test]
fn division() {
    assert!(same_fields(frac(1, 2) / frac(3, 4), frac(2, 3)));
    assert!(!(frac(1, 2) / Rational::zero()).valid());
}

#[test]
fn negation() {
    assert!(same_fields(-frac(1, 2), frac(-1, 2)));
    assert!(same_fields(-frac(-1, 2), frac(1, 2)));
}

#[test]
fn overflow_gives_a_value_that_is_not_valid() {
    let big = Rational { pos: true, num: u64::MAX, den: 1 };
    assert!(!(big + big).valid());
    assert!(!(big * big).valid());
    let small = Rational { pos: true, num: 1, den: u64::MAX };
    assert!(!(small * small).valid());
    assert!(!(small + Rational { pos: true, num: 1, den: u64::MAX - 1 }).valid());
    assert!((big + (-big)).valid());
}

#[test]
fn what_is_not_valid_stays_so() {
    let invalid = frac(1, 0);
    assert!(!invalid.valid());
    assert!(!(invalid + frac(1, 2)).valid());
    assert!(!(frac(1, 2) + invalid).valid());
    assert!(!(invalid * frac(1, 2)).valid());
    assert!(!(frac(1, 2) - invalid).valid());
}

#[test]
fn assignment_operators() {
    let mut a = frac(1, 2);
    a += frac(1, 3);
    assert!(same_fields(a, frac(5, 6)));
    a -= frac(1, 6);
    assert!(same_fields(a, frac(2, 3)));
    a *= frac(3, 4);
    assert!(same_fields(a, frac(1, 2)));
    a /= frac(1, 4);
    assert!(same_fields(a, frac(2, 1)));
}

#[test]
fn equality_is_by_value() {
    assert_eq!(frac(1, 2), frac(2, 4));
    assert_ne!(frac(1, 2), frac(-1, 2));
    assert_ne!(frac(1, 2), frac(1, 3));
    assert_eq!(frac(0, 5), Rational { pos: false, num: 0, den: 3 });
    let third_of_max = Rational { pos: true, num: u64::MAX / 3, den: u64::MAX };
    assert_eq!(third_of_max, frac(1, 3));
}

#[test]
fn order_is_by_value() {
    assert!(frac(1, 3) < frac(1, 2));
    assert!(frac(1, 2) > frac(1, 3));
    assert!(frac(-1, 2) < frac(-1, 3));
    assert!(frac(-1, 3) > frac(-1, 2));
    assert!(frac(-1, 2) < frac(1, 3));
    assert!(frac(1, 3) > frac(-1, 2));
    assert!(frac(1, 2) <= frac(2, 4));
    assert!(frac(1, 2) >= frac(2, 4));
    assert!(!(frac(1, 2) < frac(2, 4)));
    assert!(!(frac(1, 2) > frac(2, 4)));
    assert!(frac(1, 3) <= frac(1, 2));
    assert!(!(frac(1, 3) >= frac(1, 2)));
    assert_eq!(frac(1, 3).partial_cmp(&frac(1, 2)), Some(Ordering::Less));
    assert_eq!(frac(1, 2).partial_cmp(&frac(1, 3)), Some(Ordering::Greater));
    assert_eq!(frac(2, 4).partial_cmp(&frac(1, 2)), Some(Ordering::Equal));
    let minus_zero = Rational { pos: false, num: 0, den: 1 };
    assert_eq!(minus_zero.partial_cmp(&Rational::zero()), Some(Ordering::Equal));
    assert!(!(Rational::zero() > minus_zero));
}

#[test]
fn cross_products_do_not_overflow() {
    let a = Rational { pos: true, num: u64::MAX, den: u64::MAX };
    let (x, y) = a.cross_products(&a);
    assert_eq!(x, (u64::MAX as u128) * (u64::MAX as u128));
    assert_eq!(y, x);
    assert_eq!(frac(1, 2).cross_products(&frac(3, 5)), (5, 6));
}

#[test]
fn not_a_number_is_not_valid() {
    assert!(!Rational::not_a_number().valid());
}

#[test]
fn what_is_not_a_number_is_equal_to_nothing() {
    let invalid = Rational::not_a_number();
    assert_ne!(invalid, invalid);
    assert_ne!(invalid, Rational::zero());
    assert_ne!(Rational::one(), invalid);
    assert_ne!(frac(1, 0), frac(1, 0));
}

#[test]
fn what_is_not_a_number_is_not_compared() {
    let invalid = frac(1, 0);
    assert_eq!(invalid.partial_cmp(&frac(1, 2)), None);
    assert_eq!(frac(1, 2).partial_cmp(&invalid), None);
    assert!(!(invalid > frac(1, 2)));
    assert!(!(invalid < frac(1, 2)));
    assert!(!(invalid >= frac(1, 2)));
    assert!(!(invalid <= frac(1, 2)));
}

#[test]
fn inverse_of_what_is_not_a_number_is_not_a_number() {
    assert!(!frac(1, 0).inverse().valid());
    assert!(!frac(0, 0).inverse().valid());
    assert!(!Rational::zero().inverse().inverse().valid());
}
