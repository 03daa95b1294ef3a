//! Exact fractions of machine integers.
//!
//! A fraction is a sign, a numerator and a denominator. A denominator of
//! zero marks a value that is no number: the inverse of zero, or a result
//! that did not fit the machine integers. What is no number stays so in all
//! arithmetic, is equal to nothing, and is neither above nor below anything.

use crate::scalar::number::Number;
use std::cmp::Ordering;
use std::ops::{Add, AddAssign, Div, DivAssign, Mul, MulAssign, Neg, Sub, SubAssign};
use vstd::prelude::*;
use vstd::std_specs::cmp::{PartialEqSpec, PartialOrdSpec};
use vstd::std_specs::ops::{AddSpec, DivSpec, MulSpec, NegSpec, SubSpec};

verus! {

/// The fraction `num / den`, negated unless `pos`.
#[derive(Clone, Copy, Debug)]
pub struct Rational {
    pub pos: bool,
    pub num: u64,
    pub den: u64,
}

/// The greatest common divisor of `a` and `b`, by Euclid's algorithm; `a`
/// where `b` is zero.
pub open spec fn gcd_spec(a: nat, b: nat) -> nat
    decreases b,
{
    if b == 0 {
        a
    } else {
        gcd_spec(b, a % b)
    }
}

/// The least common multiple of `a` and `b`, as `a` without the common
/// divisor, times `b`.
pub open spec fn lcm_spec(a: nat, b: nat) -> nat {
    if gcd_spec(a, b) == 0 {
        0
    } else {
        (a / gcd_spec(a, b)) * b
    }
}

/// The greatest common divisor divides both numbers, and is zero only if
/// both are.
pub proof fn lemma_gcd_divides(a: nat, b: nat)
    ensures
        gcd_spec(a, b) == 0 <==> (a == 0 && b == 0),
        gcd_spec(a, b) != 0 ==> a % gcd_spec(a, b) == 0 && b % gcd_spec(a, b) == 0,
    decreases b,
{
    if b != 0 {
        lemma_gcd_divides(b, a % b);
        let g = gcd_spec(a, b);
        let q = a / b;
        let r = a % b;
        assert(a == q * b + r) by (nonlinear_arith)
            requires
                b != 0,
                q == a / b,
                r == a % b,
        ;
        assert(a % g == 0) by (nonlinear_arith)
            requires
                g != 0,
                b % g == 0,
                r % g == 0,
                a == q * b + r,
        {
            let x = b / g;
            let y = r / g;
            assert(b == x * g);
            assert(r == y * g);
            assert(a == (q * x + y) * g);
        }
    }
}

impl Rational {
    /// The value that is no number.
    pub open spec fn invalid() -> Rational {
        Rational { pos: true, num: 0, den: 0 }
    }

    /// The numerator with the sign.
    pub open spec fn signed_num(self) -> int {
        if self.pos {
            self.num as int
        } else {
            -(self.num as int)
        }
    }

    /// The fraction in lowest terms. A value that is no number stays as it
    /// is.
    pub open spec fn lowest_terms(self) -> Rational {
        if self.den == 0 {
            self
        } else {
            let g = gcd_spec(self.num as nat, self.den as nat);
            Rational {
                pos: self.pos,
                num: (self.num as nat / g) as u64,
                den: (self.den as nat / g) as u64,
            }
        }
    }

    /// The common denominator that `self` and `other` are brought to.
    pub open spec fn common_den(self, other: Rational) -> nat {
        lcm_spec(self.den as nat, other.den as nat)
    }

    /// The numerator of `self` over the denominator `den`, a multiple of its
    /// own.
    pub open spec fn raised_num(self, den: nat) -> nat {
        self.num as nat * (den / self.den as nat)
    }

    /// Whether `self` and `other` can be brought to their common denominator
    /// within the machine integers.
    pub open spec fn matching_fits(self, other: Rational) -> bool {
        &&& self.den != 0
        &&& other.den != 0
        &&& self.common_den(other) <= u64::MAX
        &&& self.raised_num(self.common_den(other)) <= u64::MAX
        &&& other.raised_num(self.common_den(other)) <= u64::MAX
    }

    /// The greatest common divisor of `a` and `b`.
    pub fn gcd(a: u64, b: u64) -> (g: u64)
        ensures
            g == gcd_spec(a as nat, b as nat),
    {
        let mut x = a;
        let mut y = b;
        while y != 0
            invariant
                gcd_spec(x as nat, y as nat) == gcd_spec(a as nat, b as nat),
            decreases y,
        {
            let temp = y;
            y = x % y;
            x = temp;
        }
        x
    }

    /// The least common multiple of `a` and `b`, which are not both zero and
    /// whose least common multiple is a machine integer.
    pub fn lcm(a: u64, b: u64) -> (l: u64)
        requires
            a != 0 || b != 0,
            lcm_spec(a as nat, b as nat) <= u64::MAX,
        ensures
            l == lcm_spec(a as nat, b as nat),
    {
        proof {
            lemma_gcd_divides(a as nat, b as nat);
        }
        (a / Rational::gcd(a, b)) * b
    }

    /// The common denominator of `self` and `other`, and their numerators
    /// over it.
    pub fn matching_num(&self, other: &Rational) -> (m: (u64, u64, u64))
        requires
            self.matching_fits(*other),
        ensures
            m.0 == self.common_den(*other),
            m.1 == self.raised_num(self.common_den(*other)),
            m.2 == other.raised_num(self.common_den(*other)),
    {
        let lcm = Rational::lcm(self.den, other.den);
        (lcm, self.num * (lcm / self.den), other.num * (lcm / other.den))
    }

    /// Brings the fraction to lowest terms.
    pub fn simplify(&mut self)
        ensures
            *final(self) == old(self).lowest_terms(),
    {
        if self.den != 0 {
            proof {
                lemma_gcd_divides(self.num as nat, self.den as nat);
            }
            let gcd = Rational::gcd(self.num, self.den);
            self.num = self.num / gcd;
            self.den = self.den / gcd;
        }
    }
}

/// The product of two machine integers is below the square of their bound.
proof fn lemma_product_fits(a: u64, b: u64)
    ensures
        a * b <= 0xffff_ffff_ffff_ffff * 0xffff_ffff_ffff_ffff,
        0xffff_ffff_ffff_ffff * 0xffff_ffff_ffff_ffff < u128::MAX,
{
    assert(a * b <= 0xffff_ffff_ffff_ffff * 0xffff_ffff_ffff_ffff) by (nonlinear_arith)
        requires
            0 <= a <= 0xffff_ffff_ffff_ffff,
            0 <= b <= 0xffff_ffff_ffff_ffff,
    ;
}

impl Rational {
    /// The value that is no number.
    pub fn not_a_number() -> (r: Rational)
        ensures
            r == Rational::invalid(),
    {
        Rational { pos: true, num: 0, den: 0 }
    }

    /// Whether `self` and `other` can be brought to their common
    /// denominator within the machine integers.
    pub fn can_match(&self, other: &Rational) -> (b: bool)
        ensures
            b == self.matching_fits(*other),
    {
        if self.den == 0 || other.den == 0 {
            return false;
        }
        proof {
            lemma_gcd_divides(self.den as nat, other.den as nat);
        }
        let g = Rational::gcd(self.den, other.den);
        let part = self.den / g;
        proof {
            lemma_product_fits(part, other.den);
        }
        let l: u128 = (part as u128) * (other.den as u128);
        if l > u64::MAX as u128 {
            return false;
        }
        let up: u128 = l / (self.den as u128);
        let other_up: u128 = l / (other.den as u128);
        proof {
            lemma_product_fits(self.num, up as u64);
            lemma_product_fits(other.num, other_up as u64);
        }
        let x: u128 = (self.num as u128) * up;
        let y: u128 = (other.num as u128) * other_up;
        x <= u64::MAX as u128 && y <= u64::MAX as u128
    }

    /// The numerator of `self` times the denominator of `other`, and the
    /// numerator of `other` times the denominator of `self`.
    pub fn cross_products(&self, other: &Rational) -> (c: (u128, u128))
        ensures
            c.0 == self.num * other.den,
            c.1 == other.num * self.den,
    {
        proof {
            lemma_product_fits(self.num, other.den);
            lemma_product_fits(other.num, self.den);
        }
        ((self.num as u128) * (other.den as u128), (other.num as u128) * (self.den as u128))
    }

    /// The signed numerator of `self` times the denominator of `other`:
    /// what `self` is compared by with `other`.
    pub open spec fn cross(self, other: Rational) -> int {
        self.signed_num() * other.den
    }
}

/// The signed product by which a fraction is compared is the product of the
/// magnitudes, with the sign of the fraction.
pub proof fn lemma_cross_sign(a: Rational, b: Rational)
    ensures
        a.pos ==> a.cross(b) == a.num * b.den,
        !a.pos ==> a.cross(b) == -(a.num * b.den),
        a.num * b.den >= 0,
{
    let n = a.num as int;
    let d = b.den as int;
    assert((-n) * d == -(n * d)) by (nonlinear_arith);
    assert(n * d >= 0) by (nonlinear_arith)
        requires
            n >= 0,
            d >= 0,
    ;
}

impl Number for Rational {
    open spec fn zero_spec() -> Rational {
        Rational { pos: true, num: 0, den: 1 }
    }

    open spec fn one_spec() -> Rational {
        Rational { pos: true, num: 1, den: 1 }
    }

    open spec fn inverse_spec(self) -> Rational {
        if self.num == 0 || self.den == 0 {
            Rational::invalid()
        } else {
            Rational { pos: self.pos, num: self.den, den: self.num }
        }
    }

    open spec fn valid_spec(self) -> bool {
        self.den != 0
    }

    fn zero() -> (r: Rational) {
        Rational { pos: true, num: 0, den: 1 }
    }

    fn one() -> (r: Rational) {
        Rational { pos: true, num: 1, den: 1 }
    }

    fn inverse(self) -> (r: Rational) {
        if self.num == 0 || self.den == 0 {
            Rational::not_a_number()
        } else {
            Rational { pos: self.pos, num: self.den, den: self.num }
        }
    }

    fn valid(self) -> (r: bool) {
        self.den != 0
    }

    proof fn operators_are_total() {
    }
}

impl Add for Rational {
    type Output = Rational;

    fn add(self, rhs: Rational) -> (r: Rational) {
        if !self.can_match(&rhs) {
            return Rational::not_a_number();
        }
        let nums = Rational::matching_num(&self, &rhs);
        let mut output;
        if self.pos == rhs.pos {
            match nums.1.checked_add(nums.2) {
                Some(sum) => {
                    output = Rational { pos: self.pos, num: sum, den: nums.0 };
                },
                None => {
                    return Rational::not_a_number();
                },
            }
        } else if nums.1 > nums.2 {
            output = Rational { pos: self.pos, num: nums.1 - nums.2, den: nums.0 };
        } else {
            output = Rational { pos: rhs.pos, num: nums.2 - nums.1, den: nums.0 };
        }
        output.simplify();
        output
    }
}

impl vstd::std_specs::ops::AddSpecImpl for Rational {
    open spec fn obeys_add_spec() -> bool {
        true
    }

    open spec fn add_req(self, rhs: Rational) -> bool {
        true
    }

    open spec fn add_spec(self, rhs: Rational) -> Rational {
        if !self.matching_fits(rhs) {
            Rational::invalid()
        } else {
            let den = self.common_den(rhs);
            let x = self.raised_num(den);
            let y = rhs.raised_num(den);
            if self.pos == rhs.pos {
                if x + y > u64::MAX {
                    Rational::invalid()
                } else {
                    (Rational { pos: self.pos, num: (x + y) as u64, den: den as u64 }).lowest_terms()
                }
            } else if x > y {
                (Rational { pos: self.pos, num: (x - y) as u64, den: den as u64 }).lowest_terms()
            } else {
                (Rational { pos: rhs.pos, num: (y - x) as u64, den: den as u64 }).lowest_terms()
            }
        }
    }
}

impl Neg for Rational {
    type Output = Rational;

    fn neg(self) -> (r: Rational) {
        Rational { pos: !self.pos, num: self.num, den: self.den }
    }
}

impl vstd::std_specs::ops::NegSpecImpl for Rational {
    open spec fn obeys_neg_spec() -> bool {
        true
    }

    open spec fn neg_req(self) -> bool {
        true
    }

    open spec fn neg_spec(self) -> Rational {
        Rational { pos: !self.pos, num: self.num, den: self.den }
    }
}

impl Sub for Rational {
    type Output = Rational;

    fn sub(self, rhs: Rational) -> (r: Rational) {
        self + rhs.neg()
    }
}

impl vstd::std_specs::ops::SubSpecImpl for Rational {
    open spec fn obeys_sub_spec() -> bool {
        true
    }

    open spec fn sub_req(self, rhs: Rational) -> bool {
        true
    }

    open spec fn sub_spec(self, rhs: Rational) -> Rational {
        self.add_spec(rhs.neg_spec())
    }
}

impl Mul for Rational {
    type Output = Rational;

    fn mul(self, rhs: Rational) -> (r: Rational) {
        let num = self.num.checked_mul(rhs.num);
        let den = self.den.checked_mul(rhs.den);
        match (num, den) {
            (Some(n), Some(d)) => {
                let mut output = Rational { pos: self.pos == rhs.pos, num: n, den: d };
                output.simplify();
                output
            },
            _ => Rational::not_a_number(),
        }
    }
}

impl vstd::std_specs::ops::MulSpecImpl for Rational {
    open spec fn obeys_mul_spec() -> bool {
        true
    }

    open spec fn mul_req(self, rhs: Rational) -> bool {
        true
    }

    open spec fn mul_spec(self, rhs: Rational) -> Rational {
        if self.num * rhs.num > u64::MAX || self.den * rhs.den > u64::MAX {
            Rational::invalid()
        } else {
            (Rational {
                pos: self.pos == rhs.pos,
                num: (self.num * rhs.num) as u64,
                den: (self.den * rhs.den) as u64,
            }).lowest_terms()
        }
    }
}

impl Div for Rational {
    type Output = Rational;

    fn div(self, rhs: Rational) -> (r: Rational) {
        self * rhs.inverse()
    }
}

impl vstd::std_specs::ops::DivSpecImpl for Rational {
    open spec fn obeys_div_spec() -> bool {
        true
    }

    open spec fn div_req(self, rhs: Rational) -> bool {
        true
    }

    open spec fn div_spec(self, rhs: Rational) -> Rational {
        self.mul_spec(rhs.inverse_spec())
    }
}

impl AddAssign for Rational {
    fn add_assign(&mut self, rhs: Rational)
        ensures
            *final(self) == old(self).add_spec(rhs),
    {
        *self = *self + rhs;
    }
}

impl SubAssign for Rational {
    fn sub_assign(&mut self, rhs: Rational)
        ensures
            *final(self) == old(self).sub_spec(rhs),
    {
        *self = *self - rhs;
    }
}

impl MulAssign for Rational {
    fn mul_assign(&mut self, rhs: Rational)
        ensures
            *final(self) == old(self).mul_spec(rhs),
    {
        *self = *self * rhs;
    }
}

impl DivAssign for Rational {
    fn div_assign(&mut self, rhs: Rational)
        ensures
            *final(self) == old(self).div_spec(rhs),
    {
        *self = *self / rhs;
    }
}

impl PartialEq for Rational {
    fn eq(&self, other: &Rational) -> (r: bool) {
        let (x, y) = self.cross_products(other);
        proof {
            lemma_cross_sign(*self, *other);
            lemma_cross_sign(*other, *self);
        }
        if self.den == 0 || other.den == 0 {
            false
        } else if x == 0 && y == 0 {
            true
        } else {
            self.pos == other.pos && x == y
        }
    }
}

impl vstd::std_specs::cmp::PartialEqSpecImpl for Rational {
    open spec fn obeys_eq_spec() -> bool {
        true
    }

    open spec fn eq_spec(&self, other: &Rational) -> bool {
        self.den != 0 && other.den != 0 && self.cross(*other) == other.cross(*self)
    }
}

/// How two integers compare.
pub open spec fn order_of(x: int, y: int) -> Ordering {
    if x < y {
        Ordering::Less
    } else if x > y {
        Ordering::Greater
    } else {
        Ordering::Equal
    }
}

/// How two machine integers compare.
fn order_of_products(x: u128, y: u128) -> (o: Ordering)
    ensures
        x < y ==> o == Ordering::Less,
        x > y ==> o == Ordering::Greater,
        x == y ==> o == Ordering::Equal,
{
    if x < y {
        Ordering::Less
    } else if x > y {
        Ordering::Greater
    } else {
        Ordering::Equal
    }
}

impl PartialOrd for Rational {
    fn partial_cmp(&self, other: &Rational) -> (r: Option<Ordering>) {
        let (x, y) = self.cross_products(other);
        proof {
            lemma_cross_sign(*self, *other);
            lemma_cross_sign(*other, *self);
        }
        if self.den == 0 || other.den == 0 {
            None
        } else if self.pos && other.pos {
            Some(order_of_products(x, y))
        } else if !self.pos && !other.pos {
            Some(order_of_products(y, x))
        } else if x == 0 && y == 0 {
            Some(Ordering::Equal)
        } else if self.pos {
            Some(Ordering::Greater)
        } else {
            Some(Ordering::Less)
        }
    }

    fn lt(&self, other: &Rational) -> (r: bool) {
        match self.partial_cmp(other) {
            Some(Ordering::Less) => true,
            _ => false,
        }
    }

    fn le(&self, other: &Rational) -> (r: bool) {
        match self.partial_cmp(other) {
            Some(Ordering::Less) | Some(Ordering::Equal) => true,
            _ => false,
        }
    }

    fn gt(&self, other: &Rational) -> (r: bool) {
        match self.partial_cmp(other) {
            Some(Ordering::Greater) => true,
            _ => false,
        }
    }

    fn ge(&self, other: &Rational) -> (r: bool) {
        match self.partial_cmp(other) {
            Some(Ordering::Greater) | Some(Ordering::Equal) => true,
            _ => false,
        }
    }
}

impl vstd::std_specs::cmp::PartialOrdSpecImpl for Rational {
    open spec fn obeys_partial_cmp_spec() -> bool {
        true
    }

    open spec fn partial_cmp_spec(&self, other: &Rational) -> Option<Ordering> {
        if self.den == 0 || other.den == 0 {
            None
        } else {
            Some(order_of(self.cross(*other), other.cross(*self)))
        }
    }
}

/// Whether two fractions stand for the same number: cross multiplication
/// gives equal products.
pub open spec fn same_value(a: Rational, b: Rational) -> bool {
    a.cross(b) == b.cross(a)
}

/// What is divided by a divisor and multiplied by it again is what it was.
proof fn lemma_exact_division(n: nat, g: nat)
    requires
        g != 0,
        n % g == 0,
    ensures
        (n / g) * g == n,
{
    vstd::arithmetic::div_mod::lemma_fundamental_div_mod(n as int, g as int);
    assert((n / g) * g == g * (n / g)) by (nonlinear_arith);
}

/// Bringing a fraction to lowest terms does not change the number it stands
/// for, nor whether it stands for one.
pub proof fn lemma_lowest_terms_keeps_value(a: Rational)
    ensures
        same_value(a.lowest_terms(), a),
        a.lowest_terms().den != 0 <==> a.den != 0,
        a.lowest_terms().pos == a.pos,
{
    if a.den != 0 {
        let g = gcd_spec(a.num as nat, a.den as nat);
        lemma_gcd_divides(a.num as nat, a.den as nat);
        lemma_exact_division(a.num as nat, g);
        lemma_exact_division(a.den as nat, g);
        let n = a.num as nat / g;
        let d = a.den as nat / g;
        assert(n <= a.num && d <= a.den) by (nonlinear_arith)
            requires
                n * g == a.num,
                d * g == a.den,
                g != 0,
        ;
        assert(d != 0) by (nonlinear_arith)
            requires
                d * g == a.den,
                a.den != 0,
        ;
        let r = a.lowest_terms();
        assert(r.num == n && r.den == d);
        assert(n * a.den == a.num * d) by (nonlinear_arith)
            requires
                n * g == a.num,
                d * g == a.den,
        ;
        assert((-(n as int)) * a.den == (-(a.num as int)) * d) by (nonlinear_arith)
            requires
                n * a.den == a.num * d,
        ;
    }
}

/// A product that is a number stands for the product of the numbers: with
/// `r = a * b`, `r.num / r.den` is `(a.num * b.num) / (a.den * b.den)`, with
/// the sign of the product.
pub proof fn lemma_product_is_exact(a: Rational, b: Rational)
    requires
        a.mul_spec(b).den != 0,
    ensures
        a.den != 0,
        b.den != 0,
        a.mul_spec(b).cross(a) * b.den == a.signed_num() * b.signed_num() * a.mul_spec(b).den,
{
    let n = a.num * b.num;
    let d = a.den * b.den;
    let raw = Rational { pos: a.pos == b.pos, num: n as u64, den: d as u64 };
    let r = a.mul_spec(b);
    lemma_lowest_terms_keeps_value(raw);
    assert(d != 0);
    assert(a.den != 0 && b.den != 0) by (nonlinear_arith)
        requires
            a.den * b.den != 0,
    ;
    let sr = r.signed_num();
    let sa = a.signed_num();
    let sb = b.signed_num();
    assert(raw.signed_num() == sa * sb) by (nonlinear_arith)
        requires
            raw.signed_num() == (if a.pos == b.pos {
                a.num * b.num
            } else {
                -(a.num * b.num)
            }),
            sa == (if a.pos {
                a.num as int
            } else {
                -(a.num as int)
            }),
            sb == (if b.pos {
                b.num as int
            } else {
                -(b.num as int)
            }),
    ;
    // same_value(r, raw): sr * d == raw.signed_num() * r.den
    assert(sr * a.den * b.den == sa * sb * r.den) by (nonlinear_arith)
        requires
            sr * (a.den * b.den) == (sa * sb) * r.den,
    ;
}

/// The common denominator is a multiple of both denominators.
proof fn lemma_common_den(a: Rational, b: Rational)
    requires
        a.den != 0,
        b.den != 0,
    ensures
        (a.common_den(b) / a.den as nat) * a.den == a.common_den(b),
        (a.common_den(b) / b.den as nat) * b.den == a.common_den(b),
        a.common_den(b) != 0,
{
    let d1 = a.den as nat;
    let d2 = b.den as nat;
    let g = gcd_spec(d1, d2);
    lemma_gcd_divides(d1, d2);
    lemma_exact_division(d1, g);
    lemma_exact_division(d2, g);
    let p = d1 / g;
    let q = d2 / g;
    let l = a.common_den(b);
    assert(l == p * d2);
    assert(l == q * d1) by (nonlinear_arith)
        requires
            l == p * d2,
            p * g == d1,
            q * g == d2,
    ;
    assert(p != 0 && q != 0) by (nonlinear_arith)
        requires
            p * g == d1,
            q * g == d2,
            d1 != 0,
            d2 != 0,
    ;
    assert(l != 0) by (nonlinear_arith)
        requires
            l == p * d2,
            p != 0,
            d2 != 0,
    ;
    vstd::arithmetic::div_mod::lemma_div_multiples_vanish(q as int, d1 as int);
    vstd::arithmetic::div_mod::lemma_div_multiples_vanish(p as int, d2 as int);
    assert(l == d1 * q) by (nonlinear_arith)
        requires
            l == q * d1,
    ;
    assert(l == d2 * p) by (nonlinear_arith)
        requires
            l == p * d2,
    ;
}

/// A sum that is a number stands for the sum of the numbers: with
/// `r = a + b`, `r.num / r.den` is
/// `(a.num * b.den + b.num * a.den) / (a.den * b.den)`, each with its sign.
pub proof fn lemma_sum_is_exact(a: Rational, b: Rational)
    requires
        a.add_spec(b).den != 0,
    ensures
        a.den != 0,
        b.den != 0,
        a.add_spec(b).cross(a) * b.den == (a.cross(b) + b.cross(a)) * a.add_spec(b).den,
{
    let r = a.add_spec(b);
    assert(a.matching_fits(b));
    let l = a.common_den(b);
    let x = a.raised_num(l);
    let y = b.raised_num(l);
    lemma_common_den(a, b);
    let ua = l / a.den as nat;
    let ub = l / b.den as nat;
    let sa = a.signed_num();
    let sb = b.signed_num();
    let d1 = a.den as int;
    let d2 = b.den as int;
    // The sum before it is brought to lowest terms.
    let raw = if a.pos == b.pos {
        Rational { pos: a.pos, num: (x + y) as u64, den: l as u64 }
    } else if x > y {
        Rational { pos: a.pos, num: (x - y) as u64, den: l as u64 }
    } else {
        Rational { pos: b.pos, num: (y - x) as u64, den: l as u64 }
    };
    assert(r == raw.lowest_terms());
    lemma_lowest_terms_keeps_value(raw);
    let sx = sa * ua;
    let sy = sb * ub;
    assert(raw.signed_num() == sx + sy) by (nonlinear_arith)
        requires
            x == a.num * ua,
            y == b.num * ub,
            sx == sa * ua,
            sy == sb * ub,
            sa == (if a.pos {
                a.num as int
            } else {
                -(a.num as int)
            }),
            sb == (if b.pos {
                b.num as int
            } else {
                -(b.num as int)
            }),
            raw.signed_num() == (if raw.pos {
                raw.num as int
            } else {
                -(raw.num as int)
            }),
            a.pos == b.pos ==> raw.pos == a.pos && raw.num == x + y,
            a.pos != b.pos && x > y ==> raw.pos == a.pos && raw.num == x - y,
            a.pos != b.pos && x <= y ==> raw.pos == b.pos && raw.num == y - x,
    ;
    let sr = r.signed_num();
    // same_value(r, raw): sr * l == (sx + sy) * r.den
    assert(sr * l == (sx + sy) * r.den);
    let rd = r.den as int;
    let li = l as int;
    assert(sx * d1 == sa * li) by (nonlinear_arith)
        requires
            sx == sa * ua,
            ua * d1 == li,
    ;
    assert(sy * d2 == sb * li) by (nonlinear_arith)
        requires
            sy == sb * ub,
            ub * d2 == li,
    ;
    let t = (sx + sy) * d1 * d2;
    assert(t == (sa * d2 + sb * d1) * li) by (nonlinear_arith)
        requires
            t == (sx + sy) * d1 * d2,
            sx * d1 == sa * li,
            sy * d2 == sb * li,
    ;
    let lhs = sr * d1 * d2 * li;
    assert(lhs == t * rd) by (nonlinear_arith)
        requires
            lhs == sr * d1 * d2 * li,
            sr * li == (sx + sy) * rd,
            t == (sx + sy) * d1 * d2,
    ;
    assert(sr * d1 * d2 * l == (sa * d2 + sb * d1) * r.den * l) by (nonlinear_arith)
        requires
            lhs == sr * d1 * d2 * li,
            lhs == t * rd,
            t == (sa * d2 + sb * d1) * li,
            rd == r.den,
            li == l,
    ;
    assert(sr * d1 * d2 == (sa * d2 + sb * d1) * r.den) by (nonlinear_arith)
        requires
            sr * d1 * d2 * l == (sa * d2 + sb * d1) * r.den * l,
            l != 0,
    ;
}

/// The inverse of the inverse of a fraction that is a number and not zero
/// is the fraction itself.
pub proof fn lemma_inverse_twice(a: Rational)
    requires
        a.num != 0,
        a.den != 0,
    ensures
        a.inverse_spec().inverse_spec() == a,
{
}

/// A fraction that is neither zero nor too large for its numerator and
/// denominator to be multiplied, times its inverse, is one.
pub proof fn lemma_times_inverse_is_one(a: Rational)
    requires
        a.num != 0,
        a.den != 0,
        a.num * a.den <= u64::MAX,
    ensures
        a.mul_spec(a.inverse_spec()) == Rational::one_spec(),
{
    let k = (a.num * a.den) as nat;
    assert(a.den * a.num == a.num * a.den) by (nonlinear_arith);
    assert(k != 0) by (nonlinear_arith)
        requires
            k == a.num * a.den,
            a.num != 0,
            a.den != 0,
    ;
    assert(k % k == 0 && k / k == 1) by (nonlinear_arith)
        requires
            k != 0,
    ;
    assert(gcd_spec(k, k) == gcd_spec(k, 0));
    assert(gcd_spec(k, k) == k);
}

/// What is no number stays so: a sum, difference, product or quotient with
/// an operand that is no number is no number, and so are the negation and
/// the inverse of what is no number.
pub proof fn lemma_no_number_stays(a: Rational, b: Rational)
    requires
        a.den == 0 || b.den == 0,
    ensures
        a.add_spec(b).den == 0,
        a.sub_spec(b).den == 0,
        a.mul_spec(b).den == 0,
        a.div_spec(b).den == 0,
        a.den == 0 ==> a.neg_spec().den == 0 && a.inverse_spec().den == 0,
{
    assert(a.den * b.den == 0) by (nonlinear_arith)
        requires
            a.den == 0 || b.den == 0,
    ;
    let inverse = b.inverse_spec();
    assert(a.den * inverse.den == 0) by (nonlinear_arith)
        requires
            a.den == 0 || inverse.den == 0,
    ;
}

} // verus!
