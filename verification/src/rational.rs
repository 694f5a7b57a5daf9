//! Exact rational numbers kept in lowest terms with a positive denominator.
//! All arithmetic is performed exactly; an operation whose reduced result
//! does not fit the fixed-width representation reports that instead of
//! silently approximating.

use vstd::prelude::*;
use vstd::arithmetic::div_mod::*;
use vstd::arithmetic::mul::*;
use crate::arith::{gcd, iabs, lemma_gcd_pos, lemma_gcd_divides, lemma_gcd_div_coprime,
    lemma_reduced_unique};

verus! {

/// A reduced fraction: `den > 0` and `gcd(|num|, den) == 1`.
#[derive(Clone, Copy, Debug, PartialEq, Eq, Structural)]
pub struct Rational {
    num: i64,
    den: i64,
}

impl Rational {
    /// Invariant: the fraction is in lowest terms with a positive denominator.
    #[verifier::type_invariant]
    pub closed spec fn wf(self) -> bool {
        self.den > 0 && gcd(iabs(self.num as int), self.den as nat) == 1
    }

    /// The numerator, as a mathematical integer.
    pub closed spec fn num(self) -> int {
        self.num as int
    }

    /// The denominator, as a mathematical integer.
    pub closed spec fn den(self) -> int {
        self.den as int
    }

    /// What well-formedness spells out: lowest terms, positive denominator.
    pub proof fn lemma_wf_props(self)
        requires
            self.wf(),
        ensures
            self.den() > 0,
            gcd(iabs(self.num()), self.den() as nat) == 1,
    {
    }

    /// The numerator.
    pub fn numerator(self) -> (r: i64)
        ensures
            r as int == self.num(),
    {
        self.num
    }

    /// The denominator; always positive.
    pub fn denominator(self) -> (r: i64)
        ensures
            r as int == self.den(),
    {
        self.den
    }

    pub open spec fn is_zero_spec(self) -> bool {
        self.num() == 0
    }

    /// Whether the value is zero.
    pub fn is_zero(self) -> (r: bool)
        ensures
            r == self.is_zero_spec(),
    {
        self.num == 0
    }

    /// Whether the value is an integer.
    pub fn is_integer(self) -> (r: bool)
        ensures
            r == (self.den() == 1),
    {
        self.den == 1
    }
}

/// The numerator of `n/d` after reduction to lowest terms (`d > 0`).
pub closed spec fn norm_num(n: int, d: int) -> int {
    n / (gcd(iabs(n), d as nat) as int)
}

/// The denominator of `n/d` after reduction to lowest terms (`d > 0`).
pub closed spec fn norm_den(n: int, d: int) -> int {
    d / (gcd(iabs(n), d as nat) as int)
}

/// The canonical rational denoting `n/d`, for positive `d`, or `None` where
/// the reduced pair leaves the fixed-width range.
pub closed spec fn norm_rat(n: int, d: int) -> Option<Rational> {
    let nn = norm_num(n, d);
    let nd = norm_den(n, d);
    if (i64::MIN as int) <= nn && nn <= i64::MAX as int && nd <= i64::MAX as int {
        Some(Rational { num: nn as i64, den: nd as i64 })
    } else {
        None
    }
}

/// What `checked_add` returns: the exact sum, reduced, or `None` on overflow.
pub open spec fn rat_add_spec(a: Rational, b: Rational) -> Option<Rational> {
    norm_rat(a.num() * b.den() + b.num() * a.den(), a.den() * b.den())
}

/// What `checked_sub` returns: the exact difference, reduced, or `None` on overflow.
pub open spec fn rat_sub_spec(a: Rational, b: Rational) -> Option<Rational> {
    norm_rat(a.num() * b.den() - b.num() * a.den(), a.den() * b.den())
}

/// What `checked_mul` returns: the exact product, reduced, or `None` on overflow.
pub open spec fn rat_mul_spec(a: Rational, b: Rational) -> Option<Rational> {
    norm_rat(a.num() * b.num(), a.den() * b.den())
}

/// What `checked_div` returns for a nonzero divisor.
pub open spec fn rat_div_spec(a: Rational, b: Rational) -> Option<Rational>
    recommends
        b.num() != 0,
{
    if b.num() > 0 {
        norm_rat(a.num() * b.den(), a.den() * b.num())
    } else {
        norm_rat(-(a.num() * b.den()), -(a.den() * b.num()))
    }
}

/// What `checked_neg` returns: the exact negation, or `None` on overflow.
pub open spec fn rat_neg_spec(a: Rational) -> Option<Rational> {
    norm_rat(-a.num(), a.den())
}

/// Greatest common divisor of two machine numbers.
fn gcd_u128(a0: u128, b0: u128) -> (r: u128)
    ensures
        r == gcd(a0 as nat, b0 as nat),
{
    let mut a = a0;
    let mut b = b0;
    while b != 0
        invariant
            gcd(a as nat, b as nat) == gcd(a0 as nat, b0 as nat),
        decreases b,
    {
        let t = a % b;
        a = b;
        b = t;
    }
    a
}

/// Reduce `n/d` (with `d > 0`) to the canonical rational, or report that the
/// reduced pair leaves the fixed-width range.
fn norm128(n: i128, d: i128) -> (r: Option<Rational>)
    requires
        d > 0,
        n > i128::MIN,
    ensures
        r == norm_rat(n as int, d as int),
{
    let neg = n < 0;
    let an: u128 = if n < 0 {
        (-n) as u128
    } else {
        n as u128
    };
    let ad: u128 = d as u128;
    let g = gcd_u128(an, ad);
    proof {
        lemma_gcd_pos(an as nat, ad as nat);
        lemma_gcd_divides(an as nat, ad as nat);
        assert(an as nat == iabs(n as int));
    }
    let mq: u128 = an / g;
    let dq: u128 = ad / g;
    proof {
        // The quotients are the mathematical ones, and the signed numerator
        // quotient follows the sign of n.
        lemma_fundamental_div_mod(an as int, g as int);
        assert(an as int == g as int * (an as int / g as int));
        lemma_fundamental_div_mod(ad as int, g as int);
        if neg {
            assert(n as int == (g as int) * (-(mq as int))) by (nonlinear_arith)
                requires
                    an as int == (g as int) * (mq as int),
                    n as int == -(an as int),
            ;
            lemma_div_multiples_vanish(-(mq as int), g as int);
            assert(norm_num(n as int, d as int) == -(mq as int));
        } else {
            assert(norm_num(n as int, d as int) == mq as int);
        }
        assert(norm_den(n as int, d as int) == dq as int);
    }
    let max_mag: u128 = if neg {
        0x8000000000000000u128
    } else {
        0x7FFFFFFFFFFFFFFFu128
    };
    if mq <= max_mag && dq <= 0x7FFFFFFFFFFFFFFFu128 {
        let nn: i64 = if neg {
            (-(mq as i128)) as i64
        } else {
            mq as i64
        };
        let nd: i64 = dq as i64;
        proof {
            assert(dq >= 1) by (nonlinear_arith)
                requires
                    ad as int == (g as int) * (dq as int),
                    ad as int > 0,
                    g as int > 0,
            ;
            lemma_gcd_div_coprime(an as nat, ad as nat);
            assert(iabs(nn as int) == mq as nat);
            assert(gcd(iabs(nn as int), nd as nat) == 1);
        }
        Some(Rational { num: nn, den: nd })
    } else {
        None
    }
}

/// A reduced pair `(n, d)` with `d > 0` both denotes `n/d` and is well formed.
proof fn lemma_norm_props(n: int, d: int)
    requires
        d > 0,
    ensures
        match norm_rat(n, d) {
            Some(s) => s.wf() && s.num() * d == n * s.den() && s.den() > 0,
            None => true,
        },
{
    let g = gcd(iabs(n), d as nat) as int;
    lemma_gcd_pos(iabs(n), d as nat);
    lemma_gcd_divides(iabs(n), d as nat);
    let nn = norm_num(n, d);
    let nd = norm_den(n, d);
    lemma_fundamental_div_mod(d, g);
    assert(d == g * nd);
    if n >= 0 {
        lemma_fundamental_div_mod(n, g);
        assert(n == g * nn);
    } else {
        lemma_fundamental_div_mod(-n, g);
        assert(-n == g * ((-n) / g));
        assert(n == g * (-((-n) / g))) by (nonlinear_arith)
            requires
                -n == g * ((-n) / g),
        ;
        lemma_div_multiples_vanish(-((-n) / g), g);
        assert(nn == -((-n) / g));
        assert(n == g * nn);
    }
    assert(nd > 0) by (nonlinear_arith)
        requires
            d == g * nd,
            d > 0,
            g > 0,
    ;
    assert(nn * d == n * nd) by (nonlinear_arith)
        requires
            n == g * nn,
            d == g * nd,
    ;
    lemma_gcd_div_coprime(iabs(n), d as nat);
    assert(iabs(nn) == iabs(n) / (g as nat)) by {
        if n >= 0 {
        } else {
            assert(iabs(n) as int == -n);
            assert(nn == -((-n) / g));
            assert(iabs(nn) as int == (-n) / g);
        }
    }
}

impl Rational {
    /// Build the canonical rational `n/d`; `None` when `d == 0` or the
    /// reduced value does not fit.
    pub fn new(n: i64, d: i64) -> (r: Option<Rational>)
        ensures
            d == 0 ==> r is None,
            d as int > 0 ==> r == norm_rat(n as int, d as int),
            (d as int) < 0 ==> r == norm_rat(-(n as int), -(d as int)),
    {
        if d == 0 {
            None
        } else if d > 0 {
            norm128(n as i128, d as i128)
        } else {
            norm128(-(n as i128), -(d as i128))
        }
    }

    /// The canonical rational denoting the integer `n`, at the
    /// specification level.
    pub closed spec fn from_int_spec(n: int) -> Rational {
        Rational { num: n as i64, den: 1 }
    }

    /// The canonical rational denoting the integer `n`.
    pub fn from_int(n: i64) -> (r: Rational)
        ensures
            r == Rational::from_int_spec(n as int),
            r.num() == n as int,
            r.den() == 1,
            r.wf(),
    {
        proof {
            lemma_gcd_one(iabs(n as int));
        }
        Rational { num: n, den: 1 }
    }

    /// Exact sum; `None` when the reduced result does not fit.
    pub fn checked_add(self, other: Rational) -> (r: Option<Rational>)
        ensures
            r == rat_add_spec(self, other),
    {
        proof {
            use_type_invariant(self);
            use_type_invariant(other);
            lemma_i64_prods(self.num as int, other.den as int, other.num as int, self.den as int);
            lemma_den_prod(self.den as int, other.den as int);
        }
        let n: i128 = self.num as i128 * other.den as i128 + other.num as i128 * self.den as i128;
        let d: i128 = self.den as i128 * other.den as i128;
        norm128(n, d)
    }

    /// Exact difference; `None` when the reduced result does not fit.
    pub fn checked_sub(self, other: Rational) -> (r: Option<Rational>)
        ensures
            r == rat_sub_spec(self, other),
    {
        proof {
            use_type_invariant(self);
            use_type_invariant(other);
            lemma_i64_prods(self.num as int, other.den as int, other.num as int, self.den as int);
            lemma_den_prod(self.den as int, other.den as int);
        }
        let n: i128 = self.num as i128 * other.den as i128 - other.num as i128 * self.den as i128;
        let d: i128 = self.den as i128 * other.den as i128;
        norm128(n, d)
    }

    /// Exact product; `None` when the reduced result does not fit.
    pub fn checked_mul(self, other: Rational) -> (r: Option<Rational>)
        ensures
            r == rat_mul_spec(self, other),
    {
        proof {
            use_type_invariant(self);
            use_type_invariant(other);
            assert(-0x40000000000000000000000000000000 <= self.num as int * other.num as int
                <= 0x40000000000000000000000000000000) by (nonlinear_arith)
                requires
                    -0x8000000000000000 <= self.num as int <= 0x7FFFFFFFFFFFFFFF,
                    -0x8000000000000000 <= other.num as int <= 0x7FFFFFFFFFFFFFFF,
            ;
            lemma_den_prod(self.den as int, other.den as int);
        }
        let n: i128 = self.num as i128 * other.num as i128;
        let d: i128 = self.den as i128 * other.den as i128;
        norm128(n, d)
    }

    /// Exact quotient by a nonzero rational; `None` when the reduced result
    /// does not fit.
    pub fn checked_div(self, other: Rational) -> (r: Option<Rational>)
        requires
            other.num() != 0,
        ensures
            r == rat_div_spec(self, other),
    {
        proof {
            use_type_invariant(self);
            use_type_invariant(other);
            lemma_i64_prods(self.num as int, other.den as int, other.num as int, self.den as int);
        }
        let n: i128 = self.num as i128 * other.den as i128;
        let d: i128 = self.den as i128 * other.num as i128;
        if other.num > 0 {
            proof {
                assert(d > 0) by (nonlinear_arith)
                    requires
                        d == self.den as int * other.num as int,
                        self.den as int > 0,
                        other.num as int > 0,
                ;
            }
            norm128(n, d)
        } else {
            proof {
                assert(-d > 0) by (nonlinear_arith)
                    requires
                        d == self.den as int * other.num as int,
                        self.den as int > 0,
                        (other.num as int) < 0,
                ;
            }
            norm128(-n, -d)
        }
    }

    /// Exact negation; `None` only for the one value whose negation does not fit.
    pub fn checked_neg(self) -> (r: Option<Rational>)
        ensures
            r == rat_neg_spec(self),
    {
        proof {
            use_type_invariant(self);
        }
        norm128(-(self.num as i128), self.den as i128)
    }

    /// Exact order: `self < other`.
    pub fn lt(self, other: Rational) -> (r: bool)
        ensures
            r == (self.num() * other.den() < other.num() * self.den()),
    {
        proof {
            use_type_invariant(self);
            use_type_invariant(other);
            lemma_i64_prods(self.num as int, other.den as int, other.num as int, self.den as int);
        }
        (self.num as i128) * (other.den as i128) < (other.num as i128) * (self.den as i128)
    }

    /// Exact order: `self <= other`.
    pub fn le(self, other: Rational) -> (r: bool)
        ensures
            r == (self.num() * other.den() <= other.num() * self.den()),
    {
        proof {
            use_type_invariant(self);
            use_type_invariant(other);
            lemma_i64_prods(self.num as int, other.den as int, other.num as int, self.den as int);
        }
        (self.num as i128) * (other.den as i128) <= (other.num as i128) * (self.den as i128)
    }

    /// Exact value equality; on canonical rationals this coincides with
    /// structural equality.
    pub fn eq_val(self, other: Rational) -> (r: bool)
        ensures
            r == (self.num() * other.den() == other.num() * self.den()),
            r == (self == other),
    {
        proof {
            use_type_invariant(self);
            use_type_invariant(other);
            lemma_i64_prods(self.num as int, other.den as int, other.num as int, self.den as int);
            if self.num() * other.den() == other.num() * self.den() {
                lemma_reduced_unique(self.num as int, self.den as int, other.num as int,
                    other.den as int);
            }
        }
        (self.num as i128) * (other.den as i128) == (other.num as i128) * (self.den as i128)
    }
}

/// gcd(x, 1) == 1.
proof fn lemma_gcd_one(x: nat)
    ensures
        gcd(x, 1) == 1,
{
    lemma_mod_self_0(1int);
    lemma_small_mod(0, 1);
    assert(x % 1 == 0) by {
        lemma_fundamental_div_mod(x as int, 1int);
        lemma_div_multiples_vanish(x as int, 1int);
        assert(1int * (x as int) == x as int) by (nonlinear_arith);
    }
    assert(gcd(x, 1) == gcd(1, x % 1));
    assert(gcd(1, 0) == 1);
}

/// A product of two positive fixed-width denominators is positive and fits
/// the wide intermediate range.
proof fn lemma_den_prod(x: int, y: int)
    requires
        0 < x <= 0x7FFFFFFFFFFFFFFF,
        0 < y <= 0x7FFFFFFFFFFFFFFF,
    ensures
        0 < x * y <= 0x3FFFFFFFFFFFFFFF0000000000000001,
{
    assert(0 < x * y <= 0x3FFFFFFFFFFFFFFF0000000000000001) by (nonlinear_arith)
        requires
            0 < x <= 0x7FFFFFFFFFFFFFFF,
            0 < y <= 0x7FFFFFFFFFFFFFFF,
    ;
}

/// Products of fixed-width numerators with denominators (whose magnitude
/// stays under the sign bound) fit the wide intermediate range, as do their
/// sums and differences.
proof fn lemma_i64_prods(a: int, b: int, c: int, d: int)
    requires
        -0x8000000000000000 <= a <= 0x7FFFFFFFFFFFFFFF,
        -0x7FFFFFFFFFFFFFFF <= b <= 0x7FFFFFFFFFFFFFFF,
        -0x8000000000000000 <= c <= 0x7FFFFFFFFFFFFFFF,
        -0x7FFFFFFFFFFFFFFF <= d <= 0x7FFFFFFFFFFFFFFF,
    ensures
        -0x3FFFFFFFFFFFFFFF8000000000000000 <= a * b
            <= 0x3FFFFFFFFFFFFFFF8000000000000000,
        -0x3FFFFFFFFFFFFFFF8000000000000000 <= c * d
            <= 0x3FFFFFFFFFFFFFFF8000000000000000,
        a * b + c * d > i128::MIN,
        a * b + c * d < i128::MAX,
        a * b - c * d > i128::MIN,
        a * b - c * d < i128::MAX,
{
    assert(-0x3FFFFFFFFFFFFFFF8000000000000000 <= a * b
        <= 0x3FFFFFFFFFFFFFFF8000000000000000) by (nonlinear_arith)
        requires
            -0x8000000000000000 <= a <= 0x7FFFFFFFFFFFFFFF,
            -0x7FFFFFFFFFFFFFFF <= b <= 0x7FFFFFFFFFFFFFFF,
    ;
    assert(-0x3FFFFFFFFFFFFFFF8000000000000000 <= c * d
        <= 0x3FFFFFFFFFFFFFFF8000000000000000) by (nonlinear_arith)
        requires
            -0x8000000000000000 <= c <= 0x7FFFFFFFFFFFFFFF,
            -0x7FFFFFFFFFFFFFFF <= d <= 0x7FFFFFFFFFFFFFFF,
    ;
}

/// The canonical form of any pair denoting the value of a canonical rational
/// is that rational itself.
proof fn lemma_norm_of_value(n: int, d: int, a: Rational)
    requires
        d > 0,
        a.wf(),
        n * a.den() == a.num() * d,
    ensures
        norm_rat(n, d) == Some(a),
{
    lemma_norm_props(n, d);
    let g = gcd(iabs(n), d as nat) as int;
    lemma_gcd_pos(iabs(n), d as nat);
    match norm_rat(n, d) {
        Some(s) => {
            // s and a are both reduced and denote the same value.
            assert(s.num() * d == n * s.den());
            assert(s.num() * a.den() == a.num() * s.den()) by (nonlinear_arith)
                requires
                    s.num() * d == n * s.den(),
                    n * a.den() == a.num() * d,
                    d > 0,
                    s.den() > 0,
                    a.den() > 0,
            ;
            lemma_reduced_unique(s.num(), s.den(), a.num(), a.den());
            assert(s == a);
        },
        None => {
            // The reduced pair equals (a.num, a.den), which fits; contradiction.
            let nn = norm_num(n, d);
            let nd = norm_den(n, d);
            lemma_gcd_divides(iabs(n), d as nat);
            lemma_fundamental_div_mod(d, g);
            if n >= 0 {
                lemma_fundamental_div_mod(n, g);
            } else {
                lemma_fundamental_div_mod(-n, g);
                assert(n == g * (-((-n) / g))) by (nonlinear_arith)
                    requires
                        -n == g * ((-n) / g),
                ;
                lemma_div_multiples_vanish(-((-n) / g), g);
            }
            assert(n == g * nn);
            assert(d == g * nd);
            assert(nd > 0) by (nonlinear_arith)
                requires
                    d == g * nd,
                    d > 0,
                    g > 0,
            ;
            assert(nn * d == n * nd) by (nonlinear_arith)
                requires
                    n == g * nn,
                    d == g * nd,
            ;
            assert(nn * a.den() == a.num() * nd) by (nonlinear_arith)
                requires
                    nn * d == n * nd,
                    n * a.den() == a.num() * d,
                    d > 0,
                    nd > 0,
            ;
            lemma_gcd_div_coprime(iabs(n), d as nat);
            assert(iabs(nn) == iabs(n) / (g as nat)) by {
                if n >= 0 {
                } else {
                    assert(iabs(n) as int == -n);
                    assert(nn == -((-n) / g));
                    assert(iabs(nn) as int == (-n) / g);
                }
            }
            lemma_reduced_unique(nn, nd, a.num(), a.den());
            assert(false);
        },
    }
}

/// The sign of a reduced sum of two nonnegative rationals.
pub proof fn lemma_add_sign(a: Rational, b: Rational)
    requires
        a.wf(),
        b.wf(),
        a.num() >= 0,
        b.num() >= 0,
        rat_add_spec(a, b) is Some,
    ensures
        rat_add_spec(a, b).unwrap().num() >= 0,
        a.num() > 0 || b.num() > 0 ==> rat_add_spec(a, b).unwrap().num() > 0,
{
    let n = a.num() * b.den() + b.num() * a.den();
    let d = a.den() * b.den();
    assert(d > 0 && n >= 0 && (a.num() > 0 || b.num() > 0 ==> n > 0)) by (nonlinear_arith)
        requires
            n == a.num() * b.den() + b.num() * a.den(),
            d == a.den() * b.den(),
            a.den() > 0,
            b.den() > 0,
            a.num() >= 0,
            b.num() >= 0,
    ;
    lemma_norm_props(n, d);
    let s = rat_add_spec(a, b).unwrap();
    assert(s.num() * d == n * s.den());
    assert(s.num() >= 0 && (n > 0 ==> s.num() > 0)) by (nonlinear_arith)
        requires
            s.num() * d == n * s.den(),
            n >= 0,
            d > 0,
            s.den() > 0,
    ;
}

/// A reduced square is nonnegative, and positive when its root is nonzero.
pub proof fn lemma_square_sign(a: Rational)
    requires
        a.wf(),
        rat_mul_spec(a, a) is Some,
    ensures
        rat_mul_spec(a, a).unwrap().num() >= 0,
        a.num() != 0 ==> rat_mul_spec(a, a).unwrap().num() > 0,
{
    let n = a.num() * a.num();
    let d = a.den() * a.den();
    assert(d > 0 && n >= 0 && (a.num() != 0 ==> n > 0)) by (nonlinear_arith)
        requires
            n == a.num() * a.num(),
            d == a.den() * a.den(),
            a.den() > 0,
    ;
    lemma_norm_props(n, d);
    let s = rat_mul_spec(a, a).unwrap();
    assert(s.num() * d == n * s.den());
    assert(s.num() >= 0 && (n > 0 ==> s.num() > 0)) by (nonlinear_arith)
        requires
            s.num() * d == n * s.den(),
            n >= 0,
            d > 0,
            s.den() > 0,
    ;
}

/// A pair whose parts fit the fixed width reduces to a representable
/// rational.
pub proof fn lemma_norm_fits(n: int, d: int)
    requires
        0 < d <= 0x7FFFFFFFFFFFFFFF,
        -0x8000000000000000 <= n <= 0x7FFFFFFFFFFFFFFF,
    ensures
        norm_rat(n, d) is Some,
{
    let g = gcd(iabs(n), d as nat) as int;
    lemma_gcd_pos(iabs(n), d as nat);
    lemma_gcd_divides(iabs(n), d as nat);
    let nn = norm_num(n, d);
    let nd = norm_den(n, d);
    lemma_fundamental_div_mod(d, g);
    assert(d == g * nd);
    assert(1 <= nd <= d) by (nonlinear_arith)
        requires
            d == g * nd,
            d > 0,
            g >= 1,
    ;
    if n >= 0 {
        lemma_fundamental_div_mod(n, g);
        assert(n == g * nn);
        assert(0 <= nn <= n) by (nonlinear_arith)
            requires
                n == g * nn,
                n >= 0,
                g >= 1,
        ;
    } else {
        lemma_fundamental_div_mod(-n, g);
        assert(-n == g * ((-n) / g));
        assert(n == g * (-((-n) / g))) by (nonlinear_arith)
            requires
                -n == g * ((-n) / g),
        ;
        lemma_div_multiples_vanish(-((-n) / g), g);
        assert(nn == -((-n) / g));
        assert(n <= nn <= 0) by (nonlinear_arith)
            requires
                n == g * nn,
                n < 0,
                g >= 1,
        ;
    }
}

/// The euclidean quotient of a signed numerator by a positive denominator
/// of at least two.
fn floor_div64(n: i64, d: i64) -> (q: i64)
    requires
        d >= 2,
    ensures
        q as int == (n as int) / (d as int),
        -0x4000000000000001 <= q <= 0x4000000000000000,
{
    let an: u64 = if n < 0 {
        (-(n as i128)) as u64
    } else {
        n as u64
    };
    let ad: u64 = d as u64;
    let q0: u64 = an / ad;
    let r0: u64 = an % ad;
    proof {
        lemma_fundamental_div_mod(an as int, ad as int);
        assert(q0 as int <= 0x4000000000000000) by (nonlinear_arith)
            requires
                an as int == (ad as int) * (q0 as int) + (r0 as int),
                r0 >= 0,
                ad >= 2,
                an as int <= 0x8000000000000000,
        ;
    }
    if n >= 0 {
        q0 as i64
    } else if r0 == 0 {
        proof {
            assert(n as int == (-(q0 as int)) * (ad as int) + 0) by (nonlinear_arith)
                requires
                    an as int == (ad as int) * (q0 as int) + r0 as int,
                    r0 == 0,
                    n as int == -(an as int),
            ;
            lemma_fundamental_div_mod_converse(n as int, ad as int, -(q0 as int), 0);
        }
        -(q0 as i64)
    } else {
        proof {
            assert(n as int == (-(q0 as int) - 1) * (ad as int) + (ad as int - r0 as int))
                by (nonlinear_arith)
                requires
                    an as int == (ad as int) * (q0 as int) + r0 as int,
                    n as int == -(an as int),
            ;
            lemma_fundamental_div_mod_converse(
                n as int,
                ad as int,
                -(q0 as int) - 1,
                ad as int - r0 as int,
            );
        }
        -(q0 as i64) - 1
    }
}

impl Rational {
    /// The largest integer not above the value.
    pub fn floor(self) -> (r: Rational)
        ensures
            r == Rational::from_int_spec(self.num() / self.den()),
    {
        proof {
            use_type_invariant(self);
        }
        if self.den == 1 {
            proof {
                lemma_div_multiples_vanish(self.num as int, 1);
                assert(1 * (self.num as int) == self.num as int) by (nonlinear_arith);
            }
            self
        } else {
            Rational::from_int(floor_div64(self.num, self.den))
        }
    }

    /// The smallest integer not below the value.
    pub fn ceil(self) -> (r: Rational)
        ensures
            r == Rational::from_int_spec(
                self.num() / self.den() + (if self.num() % self.den() == 0 {
                    0int
                } else {
                    1int
                }),
            ),
    {
        proof {
            use_type_invariant(self);
        }
        if self.den == 1 {
            proof {
                lemma_div_multiples_vanish(self.num as int, 1);
                assert(1 * (self.num as int) == self.num as int) by (nonlinear_arith);
                lemma_mod_multiples_basic(self.num as int, 1int);
                assert((self.num as int) * 1 == self.num as int) by (nonlinear_arith);
            }
            self
        } else {
            let q = floor_div64(self.num, self.den);
            let an: u64 = if self.num < 0 {
                (-(self.num as i128)) as u64
            } else {
                self.num as u64
            };
            let r0 = an % (self.den as u64);
            proof {
                lemma_fundamental_div_mod(self.num as int, self.den as int);
                lemma_fundamental_div_mod(an as int, self.den as int);
                if self.num >= 0 {
                } else {
                    // The remainders of n and of its magnitude vanish together.
                    assert((self.num as int) % (self.den as int) == if r0 == 0 {
                        0int
                    } else {
                        self.den as int - r0 as int
                    }) by {
                        if r0 == 0 {
                            assert(self.num as int == (-(an as int / self.den as int)) * (
                            self.den as int) + 0) by (nonlinear_arith)
                                requires
                                    an as int == (self.den as int) * (an as int
                                        / self.den as int) + r0 as int,
                                    r0 == 0,
                                    self.num as int == -(an as int),
                            ;
                            lemma_fundamental_div_mod_converse(
                                self.num as int,
                                self.den as int,
                                -(an as int / self.den as int),
                                0,
                            );
                        } else {
                            assert(self.num as int == (-(an as int / self.den as int) - 1) * (
                            self.den as int) + (self.den as int - r0 as int))
                                by (nonlinear_arith)
                                requires
                                    an as int == (self.den as int) * (an as int
                                        / self.den as int) + r0 as int,
                                    self.num as int == -(an as int),
                            ;
                            lemma_fundamental_div_mod_converse(
                                self.num as int,
                                self.den as int,
                                -(an as int / self.den as int) - 1,
                                self.den as int - r0 as int,
                            );
                        }
                    }
                }
            }
            if r0 == 0 {
                Rational::from_int(q)
            } else {
                Rational::from_int(q + 1)
            }
        }
    }

    /// The nearest integer, ties away from zero.
    pub fn round(self) -> (r: Rational)
        ensures
            r == Rational::from_int_spec(round_spec(self)),
    {
        proof {
            use_type_invariant(self);
        }
        if self.den == 1 {
            proof {
                lemma_div_multiples_vanish(self.num as int, 1);
                assert(1 * (self.num as int) == self.num as int) by (nonlinear_arith);
                lemma_mod_multiples_basic(self.num as int, 1int);
                assert((self.num as int) * 1 == self.num as int) by (nonlinear_arith);
            }
            self
        } else {
            let q = floor_div64(self.num, self.den);
            let f = crate::number::modulo_rem(self.num, self.den);
            proof {
                lemma_fundamental_div_mod(self.num as int, self.den as int);
            }
            if 2 * (f as i128) < self.den as i128 {
                Rational::from_int(q)
            } else if 2 * (f as i128) > self.den as i128 {
                Rational::from_int(q + 1)
            } else if q >= 0 {
                Rational::from_int(q + 1)
            } else {
                Rational::from_int(q)
            }
        }
    }

    /// The integer part: rounding toward zero.
    pub fn trunc(self) -> (r: Rational)
        ensures
            r == Rational::from_int_spec(trunc_spec(self)),
    {
        proof {
            use_type_invariant(self);
        }
        if self.num >= 0 {
            self.floor()
        } else {
            self.ceil()
        }
    }

    /// The fractional part: the value minus its integer part.
    pub fn fract(self) -> (r: Rational)
        ensures
            rat_sub_spec(self, Rational::from_int_spec(trunc_spec(self))) == Some(r),
    {
        proof {
            use_type_invariant(self);
        }
        let t = self.trunc();
        match self.checked_sub(t) {
            Some(r) => r,
            None => {
                proof {
                    let tv = Rational::from_int_spec(trunc_spec(self));
                    lemma_trunc_bounds(self);
                    lemma_norm_fits(
                        self.num() * tv.den() - tv.num() * self.den(),
                        self.den() * tv.den(),
                    );
                    assert(false);
                }
                self
            },
        }
    }
}

/// What `round` returns: the nearest integer, ties away from zero.
pub open spec fn round_spec(q: Rational) -> int {
    let fl = q.num() / q.den();
    let f = q.num() % q.den();
    if 2 * f < q.den() {
        fl
    } else if 2 * f > q.den() {
        fl + 1
    } else if fl >= 0 {
        fl + 1
    } else {
        fl
    }
}

/// What `trunc` returns: the integer part, toward zero.
pub open spec fn trunc_spec(q: Rational) -> int {
    if q.num() >= 0 {
        q.num() / q.den()
    } else {
        q.num() / q.den() + (if q.num() % q.den() == 0 {
            0int
        } else {
            1int
        })
    }
}

/// The truncated value keeps the numerator in range, so the fractional part
/// always exists.
proof fn lemma_trunc_bounds(q: Rational)
    requires
        q.wf(),
    ensures
        ({
            let tv = Rational::from_int_spec(trunc_spec(q));
            0 < q.den() * tv.den() <= 0x7FFFFFFFFFFFFFFF && -0x8000000000000000 <= q.num()
                * tv.den() - tv.num() * q.den() <= 0x7FFFFFFFFFFFFFFF
        }),
{
    let t = trunc_spec(q);
    lemma_fundamental_div_mod(q.num(), q.den());
    vstd::arithmetic::div_mod::lemma_mod_bound(q.num(), q.den());
    // The truncation stays between 0 and the value, so it fits an i64, and
    // the fractional numerator has magnitude below the denominator.
    assert(-0x8000000000000000 <= t <= 0x7FFFFFFFFFFFFFFF && -0x8000000000000000 <= q.num() - t
        * q.den() <= 0x7FFFFFFFFFFFFFFF) by (nonlinear_arith)
        requires
            q.num() == q.den() * (q.num() / q.den()) + q.num() % q.den(),
            0 <= q.num() % q.den() < q.den(),
            t == trunc_spec(q),
            trunc_spec(q) == (if q.num() >= 0 {
                q.num() / q.den()
            } else {
                q.num() / q.den() + (if q.num() % q.den() == 0 {
                    0int
                } else {
                    1int
                })
            }),
            0 < q.den() <= 0x7FFFFFFFFFFFFFFF,
            -0x8000000000000000 <= q.num() <= 0x7FFFFFFFFFFFFFFF,
    ;
    assert(Rational::from_int_spec(trunc_spec(q)).den() == 1);
    assert(Rational::from_int_spec(trunc_spec(q)).num() == t);
}

/// Adding and then subtracting the same nonzero rational returns exactly to
/// the start: where `a + b` is representable, `(a + b) - b == a`.
pub proof fn lemma_add_sub_exact(a: Rational, b: Rational)
    requires
        a.wf(),
        b.wf(),
        b.num() != 0,
        rat_add_spec(a, b) is Some,
    ensures
        rat_sub_spec(rat_add_spec(a, b).unwrap(), b) == Some(a),
{
    let n = a.num() * b.den() + b.num() * a.den();
    let d = a.den() * b.den();
    assert(d > 0) by (nonlinear_arith)
        requires
            d == a.den() * b.den(),
            a.den() > 0,
            b.den() > 0,
    ;
    lemma_norm_props(n, d);
    let s = rat_add_spec(a, b).unwrap();
    assert(s.num() * d == n * s.den());
    let n2 = s.num() * b.den() - b.num() * s.den();
    let d2 = s.den() * b.den();
    assert(d2 > 0) by (nonlinear_arith)
        requires
            d2 == s.den() * b.den(),
            s.den() > 0,
            b.den() > 0,
    ;
    assert(n2 * a.den() == a.num() * d2) by (nonlinear_arith)
        requires
            s.num() * d == n * s.den(),
            n == a.num() * b.den() + b.num() * a.den(),
            d == a.den() * b.den(),
            n2 == s.num() * b.den() - b.num() * s.den(),
            d2 == s.den() * b.den(),
            a.den() > 0,
            b.den() > 0,
            s.den() > 0,
    ;
    lemma_norm_of_value(n2, d2, a);
}

} // verus!
