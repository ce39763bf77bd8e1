//! Exact rational arithmetic on sign, numerator and denominator.

use vstd::prelude::*;
use vstd::arithmetic::div_mod::*;
use vstd::arithmetic::mul::*;
use crate::syntax::{Val, ValModel};

verus! {

/// The greatest common divisor of `a` and `b`, by Euclid's recurrence; 0 when both are 0.
pub open spec fn gcd_nat(a: nat, b: nat) -> nat
    decreases b,
{
    if b == 0 {
        a
    } else {
        gcd_nat(b, a % b)
    }
}

/// `c` is positive and divides both `a` and `b`.
pub open spec fn common_divisor(c: nat, a: nat, b: nat) -> bool {
    c > 0 && a % c == 0 && b % c == 0
}

/// `g` is the greatest common divisor of `a` and `b`: 0 when both are 0, and otherwise
/// the largest number that divides both.
pub open spec fn is_gcd(g: nat, a: nat, b: nat) -> bool {
    if a == 0 && b == 0 {
        g == 0
    } else {
        &&& common_divisor(g, a, b)
        &&& forall|c: nat| #[trigger] common_divisor(c, a, b) ==> c <= g
    }
}

/// A divisor of a positive number is at most that number.
pub proof fn lemma_divisor_bound(c: nat, a: nat)
    requires
        c > 0,
        a > 0,
        a % c == 0,
    ensures
        c <= a,
{
    if c > a {
        lemma_small_mod(a, c);
    }
}

/// What divides `x` and `y` divides `x + q * y` and `x - q * y`.
pub proof fn lemma_divides_combination(c: int, x: int, y: int, q: int)
    requires
        c > 0,
        x % c == 0,
        y % c == 0,
    ensures
        (x + q * y) % c == 0,
        (x - q * y) % c == 0,
{
    lemma_fundamental_div_mod(x, c);
    lemma_fundamental_div_mod(y, c);
    let kx = x / c;
    let ky = y / c;
    assert(x + q * y == c * (kx + q * ky)) by (nonlinear_arith)
        requires
            x == c * kx,
            y == c * ky,
    ;
    assert(x - q * y == c * (kx - q * ky)) by (nonlinear_arith)
        requires
            x == c * kx,
            y == c * ky,
    ;
    lemma_mod_multiples_basic(kx + q * ky, c);
    lemma_mod_multiples_basic(kx - q * ky, c);
    lemma_mul_is_commutative(c, kx + q * ky);
    lemma_mul_is_commutative(c, kx - q * ky);
}

/// Euclid's recurrence yields the greatest common divisor.
pub proof fn lemma_gcd_nat_is_gcd(a: nat, b: nat)
    ensures
        is_gcd(gcd_nat(a, b), a, b),
    decreases b,
{
    if b == 0 {
        if a != 0 {
            lemma_mod_self_0(a as int);
            assert forall|c: nat| #[trigger] common_divisor(c, a, b) implies c <= a by {
                lemma_divisor_bound(c, a);
            }
        }
    } else {
        let r = a % b;
        let g = gcd_nat(b, r);
        lemma_gcd_nat_is_gcd(b, r);
        lemma_fundamental_div_mod(a as int, b as int);
        let q = (a / b) as int;
        assert(a as int == r as int + q * (b as int)) by (nonlinear_arith)
            requires
                a as int == (b as int) * q + (r as int),
        ;
        lemma_divides_combination(g as int, r as int, b as int, q);
        assert forall|c: nat| #[trigger] common_divisor(c, a, b) implies c <= g by {
            lemma_divides_combination(c as int, a as int, b as int, q);
            assert(common_divisor(c, b, r));
        }
    }
}

/// The greatest common divisor of 0 and a positive number is that number.
pub proof fn lemma_gcd_of_zero(d: nat)
    requires
        d > 0,
    ensures
        gcd_nat(0, d) == d,
{
    lemma_small_mod(0, d);
    assert(gcd_nat(0, d) == gcd_nat(d, 0));
}

/// Two numbers have one greatest common divisor.
pub proof fn lemma_gcd_unique(g: nat, a: nat, b: nat)
    requires
        is_gcd(g, a, b),
    ensures
        g == gcd_nat(a, b),
{
    lemma_gcd_nat_is_gcd(a, b);
}

/// Calls `gcd::Gcd::gcd` on two `u64`s. The contract is taken on trust from the
/// crate's documentation: the result is the greatest common divisor, that is the
/// largest number that divides both arguments, and 0 when both are 0.
#[verifier::external_body]
fn gcd_u64(a: u64, b: u64) -> (g: u64)
    ensures
        is_gcd(g as nat, a as nat, b as nat),
{
    gcd::Gcd::gcd(a, b)
}

/// The denominator that `Add` gives two fractions with denominators `d1` and `d2`.
pub open spec fn common_denominator(d1: nat, d2: nat) -> nat {
    d1 * d2 / gcd_nat(d1, d2)
}

/// The number with the given sign, numerator and denominator where both fit in 32
/// bits, and the error value where one does not.
pub open spec fn number_or_error(neg: bool, n: nat, d: nat) -> ValModel {
    if n <= u32::MAX && d <= u32::MAX {
        ValModel::Number(neg, n as u32, d as u32)
    } else {
        ValModel::SchemeError
    }
}

/// The sum of two fractions: both numerators are scaled to the common denominator and
/// combined by sign, the larger magnitude giving the sign where the signs differ. The
/// result keeps the common denominator, unreduced; a zero result is `(false, 0, 1)`;
/// one that 32 bits do not hold is the error value.
pub open spec fn sum(s1: bool, n1: nat, d1: nat, s2: bool, n2: nat, d2: nat) -> ValModel {
    let den = common_denominator(d1, d2);
    let a = n1 * (den / d1);
    let b = n2 * (den / d2);
    let neg = if a > b { s1 } else { s2 };
    let mag: int = if s1 == s2 { (a + b) as int } else if a > b { a - b } else { b - a };
    if mag == 0 {
        ValModel::Number(false, 0, 1)
    } else {
        number_or_error(neg, mag as nat, den)
    }
}

/// The product of two fractions, reduced to lowest terms. The sign is negative exactly
/// when the signs differ and the product is not zero, so that a zero result is
/// `(false, 0, 1)`. A result that 32 bits do not hold is the error value.
pub open spec fn product(s1: bool, n1: nat, d1: nat, s2: bool, n2: nat, d2: nat) -> ValModel {
    let n = n1 * n2;
    let d = d1 * d2;
    let g = gcd_nat(n, d);
    number_or_error(n != 0 && s1 != s2, n / g, d / g)
}

impl ValModel {
    /// A number with its sign flipped; any other value unchanged.
    pub open spec fn negate(self) -> ValModel {
        match self {
            ValModel::Number(neg, n, d) => ValModel::Number(!neg, n, d),
            other => other,
        }
    }

    /// `Add`: the sum of two numbers, the error value for any other operand.
    pub open spec fn plus(self, rhs: ValModel) -> ValModel {
        match (self, rhs) {
            (ValModel::Number(s1, n1, d1), ValModel::Number(s2, n2, d2)) => sum(
                s1,
                n1 as nat,
                d1 as nat,
                s2,
                n2 as nat,
                d2 as nat,
            ),
            _ => ValModel::SchemeError,
        }
    }

    /// `Subtract`: `Add` of the left operand and the negated right operand.
    pub open spec fn minus(self, rhs: ValModel) -> ValModel {
        self.plus(rhs.negate())
    }

    /// `Multiply`: the product of two numbers, the error value for any other operand.
    pub open spec fn times(self, rhs: ValModel) -> ValModel {
        match (self, rhs) {
            (ValModel::Number(s1, n1, d1), ValModel::Number(s2, n2, d2)) => product(
                s1,
                n1 as nat,
                d1 as nat,
                s2,
                n2 as nat,
                d2 as nat,
            ),
            _ => ValModel::SchemeError,
        }
    }

    /// The numerator of a number, negative where the number is.
    pub open spec fn signed_numerator(self) -> int
        recommends
            self is Number,
    {
        if self->Number_0 {
            -(self->Number_1 as int)
        } else {
            self->Number_1 as int
        }
    }

    /// The denominator of a number.
    pub open spec fn denominator(self) -> int
        recommends
            self is Number,
    {
        self->Number_2 as int
    }
}

/// The value whose model is `m`, for a number, a boolean or the error value.
pub open spec fn plain_val(m: ValModel) -> Val {
    match m {
        ValModel::Number(neg, n, d) => Val::Number(neg, n, d),
        ValModel::Boolean(b) => Val::Boolean(b),
        _ => Val::SchemeError(),
    }
}

/// `Add` of a number and its negation is zero, `(false, 0, 1)`, whatever the
/// numerator and the denominator; so is `Subtract` of a number from itself.
pub proof fn lemma_plus_negation_is_zero(a: ValModel)
    requires
        a is Number,
    ensures
        a.plus(a.negate()) == ValModel::Number(false, 0, 1),
        a.negate().plus(a) == ValModel::Number(false, 0, 1),
        a.minus(a) == ValModel::Number(false, 0, 1),
{
}

/// How the common denominator splits: it is `d1` times `d2 / g`, and dividing it by
/// either denominator gives the factor by which that side's numerator is scaled.
pub proof fn lemma_common_denominator(d1: nat, d2: nat)
    requires
        d1 > 0,
        d2 > 0,
    ensures
        gcd_nat(d1, d2) > 0,
        d1 % gcd_nat(d1, d2) == 0,
        d2 % gcd_nat(d1, d2) == 0,
        common_denominator(d1, d2) == d1 * (d2 / gcd_nat(d1, d2)),
        common_denominator(d1, d2) / d1 == d2 / gcd_nat(d1, d2),
        common_denominator(d1, d2) / d2 == d1 / gcd_nat(d1, d2),
        common_denominator(d1, d2) > 0,
{
    lemma_gcd_nat_is_gcd(d1, d2);
    let g = gcd_nat(d1, d2) as int;
    let f1 = (d2 / (g as nat)) as int;
    let f2 = (d1 / (g as nat)) as int;
    lemma_fundamental_div_mod(d1 as int, g);
    lemma_fundamental_div_mod(d2 as int, g);
    let a = d1 as int;
    let b = d2 as int;
    assert(a * b == g * (a * f1) && a * f1 == f1 * a && a * f1 == f2 * b && f1 > 0 && f2 > 0)
        by (nonlinear_arith)
        requires
            a == g * f2,
            b == g * f1,
            a > 0,
            b > 0,
            g > 0,
    ;
    assert(a * f1 > 0) by (nonlinear_arith)
        requires
            a > 0,
            f1 > 0,
    ;
    lemma_div_multiples_vanish(a * f1, g);
    lemma_div_multiples_vanish(f1, a);
    lemma_div_multiples_vanish(f2, b);
    lemma_mul_is_commutative(a, f1);
    lemma_mul_is_commutative(b, f2);
}

/// Where `Add` gives a number, that number is the sum of the two fractions: with
/// `n/d` for the result, `n * (d1 * d2) == (n1 * d2 + n2 * d1) * d`. A sum that is
/// zero is `(false, 0, 1)`.
pub proof fn lemma_plus_is_the_sum(a: ValModel, b: ValModel)
    requires
        a is Number,
        b is Number,
        a.wf(),
        b.wf(),
        a.plus(b) is Number,
    ensures
        a.plus(b).wf(),
        a.plus(b).signed_numerator() * (a.denominator() * b.denominator()) == (
        a.signed_numerator() * b.denominator() + b.signed_numerator() * a.denominator())
            * a.plus(b).denominator(),
        a.plus(b)->Number_1 == 0 ==> a.plus(b) == ValModel::Number(false, 0, 1),
{
    let c = a.plus(b);
    let d1 = a.denominator();
    let d2 = b.denominator();
    let g = gcd_nat(d1 as nat, d2 as nat) as int;
    lemma_common_denominator(d1 as nat, d2 as nat);
    let den = common_denominator(d1 as nat, d2 as nat) as int;
    let f1 = d2 / g;
    let f2 = d1 / g;
    lemma_fundamental_div_mod(d1, g);
    lemma_fundamental_div_mod(d2, g);
    let n1 = a->Number_1 as int;
    let n2 = b->Number_1 as int;
    let pa = n1 * f1;
    let pb = n2 * f2;
    let sa = if a->Number_0 { -pa } else { pa };
    let sb = if b->Number_0 { -pb } else { pb };
    let n = c.signed_numerator();
    let d = c.denominator();
    assert(sa == a.signed_numerator() * f1 && sb == b.signed_numerator() * f2) by (nonlinear_arith)
        requires
            pa == n1 * f1,
            pb == n2 * f2,
            sa == (if a->Number_0 {
                -pa
            } else {
                pa
            }),
            sb == (if b->Number_0 {
                -pb
            } else {
                pb
            }),
            a.signed_numerator() == (if a->Number_0 {
                -n1
            } else {
                n1
            }),
            b.signed_numerator() == (if b->Number_0 {
                -n2
            } else {
                n2
            }),
    ;
    let s1 = a.signed_numerator();
    let s2 = b.signed_numerator();
    assert(n == sa + sb);
    assert(d1 * d2 == g * den) by (nonlinear_arith)
        requires
            d1 == g * f2,
            d2 == g * f1,
            den == d1 * f1,
    ;
    assert(s1 * d2 + s2 * d1 == g * n) by (nonlinear_arith)
        requires
            n == sa + sb,
            sa == s1 * f1,
            sb == s2 * f2,
            d1 == g * f2,
            d2 == g * f1,
    ;
    assert(n * (g * den) == (g * n) * d) by (nonlinear_arith)
        requires
            d == den || (d == 1 && n == 0),
    ;
}

/// Where `Subtract` gives a number, that number is the difference of the two
/// fractions: with `n/d` for the result, `n * (d1 * d2) == (n1 * d2 - n2 * d1) * d`.
pub proof fn lemma_minus_is_the_difference(a: ValModel, b: ValModel)
    requires
        a is Number,
        b is Number,
        a.wf(),
        b.wf(),
        a.minus(b) is Number,
    ensures
        a.minus(b).wf(),
        a.minus(b).signed_numerator() * (a.denominator() * b.denominator()) == (
        a.signed_numerator() * b.denominator() - b.signed_numerator() * a.denominator())
            * a.minus(b).denominator(),
{
    lemma_plus_is_the_sum(a, b.negate());
    let y = b.signed_numerator() * a.denominator();
    let z = b.negate().signed_numerator() * a.denominator();
    assert(z == -y) by (nonlinear_arith)
        requires
            z == b.negate().signed_numerator() * a.denominator(),
            y == b.signed_numerator() * a.denominator(),
            b.negate().signed_numerator() == -b.signed_numerator(),
    ;
}

/// Where `Multiply` gives a number, that number is the product of the two fractions,
/// in lowest terms: with `n/d` for the result, `n * (d1 * d2) == (n1 * n2) * d`, and
/// `n` and `d` have no common divisor but 1. So a product that is zero is
/// `(false, 0, 1)`.
pub proof fn lemma_times_is_the_product(a: ValModel, b: ValModel)
    requires
        a is Number,
        b is Number,
        a.wf(),
        b.wf(),
        a.times(b) is Number,
    ensures
        a.times(b).wf(),
        a.times(b).signed_numerator() * (a.denominator() * b.denominator())
            == a.signed_numerator() * b.signed_numerator() * a.times(b).denominator(),
        gcd_nat(a.times(b)->Number_1 as nat, a.times(b)->Number_2 as nat) == 1,
        a->Number_1 == 0 || b->Number_1 == 0 || a.times(b)->Number_1 == 0 ==> a.times(b)
            == ValModel::Number(false, 0, 1),
{
    let c = a.times(b);
    let n1 = a->Number_1 as int;
    let n2 = b->Number_1 as int;
    let d1 = a.denominator();
    let d2 = b.denominator();
    let num = n1 * n2;
    let den = d1 * d2;
    assert(num >= 0 && den > 0) by (nonlinear_arith)
        requires
            num == n1 * n2,
            den == d1 * d2,
            n1 >= 0,
            n2 >= 0,
            d1 > 0,
            d2 > 0,
    ;
    let g = gcd_nat(num as nat, den as nat) as int;
    lemma_gcd_nat_is_gcd(num as nat, den as nat);
    lemma_fundamental_div_mod(num, g);
    lemma_fundamental_div_mod(den, g);
    let n = num / g;
    let d = den / g;
    assert(d > 0 && n >= 0) by (nonlinear_arith)
        requires
            den == g * d,
            num == g * n,
            den > 0,
            num >= 0,
            g > 0,
    ;
    assert(c.signed_numerator() * den == a.signed_numerator() * b.signed_numerator() * d)
        by (nonlinear_arith)
        requires
            c.signed_numerator() == (if a->Number_0 != b->Number_0 {
                -n
            } else {
                n
            }),
            a.signed_numerator() == (if a->Number_0 {
                -n1
            } else {
                n1
            }),
            b.signed_numerator() == (if b->Number_0 {
                -n2
            } else {
                n2
            }),
            num == n1 * n2,
            den == g * d,
            num == g * n,
    ;
    let h = gcd_nat(n as nat, d as nat) as int;
    lemma_gcd_nat_is_gcd(n as nat, d as nat);
    lemma_fundamental_div_mod(n, h);
    lemma_fundamental_div_mod(d, h);
    let kn = n / h;
    let kd = d / h;
    let hg = h * g;
    assert(hg > 0 && num == kn * hg && den == kd * hg && (h > 1 ==> hg > g)) by (nonlinear_arith)
        requires
            hg == h * g,
            n == h * kn,
            d == h * kd,
            num == g * n,
            den == g * d,
            h > 0,
            g > 0,
    ;
    lemma_mod_multiples_basic(kn, hg);
    lemma_mod_multiples_basic(kd, hg);
    assert(common_divisor(hg as nat, num as nat, den as nat));
    if n1 == 0 || n2 == 0 || n == 0 {
        assert(num == 0) by (nonlinear_arith)
            requires
                num == n1 * n2,
                num == g * n,
                n1 == 0 || n2 == 0 || n == 0,
        ;
        lemma_gcd_of_zero(den as nat);
        lemma_div_by_self(den);
    }
}

impl core::ops::Add<Val> for Val {
    type Output = Val;

    /// `Add` on two values, which `add_req` wants well formed. The scaled numerators
    /// are held in 64 bits, so that only the size of the result decides between a
    /// number and the error value.
    fn add(self, rhs: Val) -> (ret: Val)
        ensures
            ret@ == self@.plus(rhs@),
            ret.wf(),
            ret matches Val::Number(_, n, _) && n == 0 ==> ret == Val::Number(false, 0, 1),
    {
        match (self, rhs) {
            (Val::Number(neg, n, d), Val::Number(oneg, on, od)) => {
                let g = gcd_u64(d as u64, od as u64);
                proof {
                    lemma_gcd_unique(g as nat, d as nat, od as nat);
                    lemma_common_denominator(d as nat, od as nat);
                    lemma_div_is_ordered_by_denominator(od as int, 1, g as int);
                    lemma_div_is_ordered_by_denominator(d as int, 1, g as int);
                }
                let f1: u64 = (od as u64) / g;
                let f2: u64 = (d as u64) / g;
                assert(d * f1 <= 0xffff_ffff * 0xffff_ffff && n * f1 <= 0xffff_ffff * 0xffff_ffff
                    && on * f2 <= 0xffff_ffff * 0xffff_ffff) by (nonlinear_arith)
                    requires
                        d <= 0xffff_ffff,
                        n <= 0xffff_ffff,
                        on <= 0xffff_ffff,
                        f1 <= 0xffff_ffff,
                        f2 <= 0xffff_ffff,
                ;
                let den: u64 = (d as u64) * f1;
                let a: u64 = (n as u64) * f1;
                let b: u64 = (on as u64) * f2;
                let sign = if a > b { neg } else { oneg };
                let mag: u128 = if neg == oneg {
                    a as u128 + b as u128
                } else if a > b {
                    (a - b) as u128
                } else {
                    (b - a) as u128
                };
                if mag == 0 {
                    Val::Number(false, 0, 1)
                } else if mag > 0xffff_ffff || den > 0xffff_ffff {
                    Val::SchemeError()
                } else {
                    Val::Number(sign, mag as u32, den as u32)
                }
            },
            _ => Val::SchemeError(),
        }
    }
}

impl vstd::std_specs::ops::AddSpecImpl<Val> for Val {
    open spec fn obeys_add_spec() -> bool {
        true
    }

    open spec fn add_req(self, rhs: Val) -> bool {
        self.wf() && rhs.wf()
    }

    open spec fn add_spec(self, rhs: Val) -> Val {
        plain_val(self@.plus(rhs@))
    }
}

impl core::ops::Sub<Val> for Val {
    type Output = Val;

    /// `Subtract` on two values, which `sub_req` wants well formed.
    fn sub(self, rhs: Val) -> (ret: Val)
        ensures
            ret@ == self@.minus(rhs@),
            ret.wf(),
            ret matches Val::Number(_, n, _) && n == 0 ==> ret == Val::Number(false, 0, 1),
    {
        match rhs {
            Val::Number(oneg, on, od) => self + Val::Number(!oneg, on, od),
            _ => Val::SchemeError(),
        }
    }
}

impl vstd::std_specs::ops::SubSpecImpl<Val> for Val {
    open spec fn obeys_sub_spec() -> bool {
        true
    }

    open spec fn sub_req(self, rhs: Val) -> bool {
        self.wf() && rhs.wf()
    }

    open spec fn sub_spec(self, rhs: Val) -> Val {
        plain_val(self@.minus(rhs@))
    }
}

impl core::ops::Mul<Val> for Val {
    type Output = Val;

    /// `Multiply` on two values, which `mul_req` wants well formed. The products are
    /// held in 64 bits and reduced before their size is judged. A zero product has
    /// the one form of zero.
    fn mul(self, rhs: Val) -> (ret: Val)
        ensures
            ret@ == self@.times(rhs@),
            ret.wf(),
            ret matches Val::Number(_, n, _) && n == 0 ==> ret == Val::Number(false, 0, 1),
    {
        match (self, rhs) {
            (Val::Number(neg, n, d), Val::Number(oneg, on, od)) => {
                assert(n * on <= 0xffff_ffff * 0xffff_ffff && d * od <= 0xffff_ffff * 0xffff_ffff
                    && d * od > 0) by (nonlinear_arith)
                    requires
                        n <= 0xffff_ffff,
                        on <= 0xffff_ffff,
                        0 < d <= 0xffff_ffff,
                        0 < od <= 0xffff_ffff,
                ;
                let num: u64 = (n as u64) * (on as u64);
                let den: u64 = (d as u64) * (od as u64);
                let g = gcd_u64(num, den);
                proof {
                    lemma_gcd_unique(g as nat, num as nat, den as nat);
                    lemma_fundamental_div_mod(den as int, g as int);
                    assert(den / g > 0) by (nonlinear_arith)
                        requires
                            den > 0,
                            g > 0,
                            den as int == (g as int) * ((den as int) / (g as int)),
                    ;
                }
                let rn: u64 = num / g;
                let rd: u64 = den / g;
                proof {
                    lemma_fundamental_div_mod(num as int, g as int);
                    if rn == 0 {
                        assert(num == 0) by (nonlinear_arith)
                            requires
                                num as int == (g as int) * (rn as int),
                                rn == 0,
                        ;
                        lemma_gcd_of_zero(den as nat);
                        lemma_div_by_self(den as int);
                    }
                }
                if rn > 0xffff_ffff || rd > 0xffff_ffff {
                    Val::SchemeError()
                } else {
                    Val::Number(num != 0 && neg != oneg, rn as u32, rd as u32)
                }
            },
            _ => Val::SchemeError(),
        }
    }
}

impl vstd::std_specs::ops::MulSpecImpl<Val> for Val {
    open spec fn obeys_mul_spec() -> bool {
        true
    }

    open spec fn mul_req(self, rhs: Val) -> bool {
        self.wf() && rhs.wf()
    }

    open spec fn mul_spec(self, rhs: Val) -> Val {
        plain_val(self@.times(rhs@))
    }
}

} // verus!
