//! The real line of the tower: a real value is either an exact rational or
//! an inexact IEEE double bit pattern. A generic coercion combinator
//! dispatches every binary real operation: two exact operands are handled by
//! rational arithmetic, any other pair by floating comparison after
//! converting the exact side.

use vstd::prelude::*;
use crate::rational::Rational;
use crate::number::{Number, rat_bits, rat_to_bits};
use crate::flt::{fcmp_of, flt_cmp, f_is_zero, fround_of, fsub_of, flt_round, flt_sub, RM_FLOOR,
    RM_CEIL, RM_TRUNC, RM_ROUND};
use crate::rational::{round_spec, trunc_spec, rat_sub_spec};

verus! {

/// A real value: an exact rational or an inexact double bit pattern.
#[derive(Clone, Copy, Debug, PartialEq, Eq, Structural)]
pub enum Real {
    Rat(Rational),
    Flt(u64),
}

/// The bit pattern a real compares as, once coerced to inexact.
pub open spec fn real_bits(a: Real) -> u64 {
    match a {
        Real::Rat(q) => rat_bits(q),
        Real::Flt(b) => b,
    }
}

impl Real {
    /// The value as an IEEE double bit pattern, converting the exact side.
    pub fn to_inexact(&self) -> (r: u64)
        ensures
            r == real_bits(*self),
    {
        match self {
            Real::Rat(q) => rat_to_bits(*q),
            Real::Flt(b) => *b,
        }
    }
}

/// A pair of reals after coercion: both exact, or both inexact.
#[derive(Clone, Copy, Debug, PartialEq, Eq, Structural)]
pub enum Coerced {
    Rats(Rational, Rational),
    Flts(u64, u64),
}

/// What `coerce` returns: the operands unchanged when both are exact, else
/// both converted to inexact bit patterns.
pub open spec fn coerce_spec(a: Real, b: Real) -> Coerced {
    match (a, b) {
        (Real::Rat(x), Real::Rat(y)) => Coerced::Rats(x, y),
        _ => Coerced::Flts(real_bits(a), real_bits(b)),
    }
}

/// Dispatch a binary real operation: exact pairs stay exact, mixed pairs are
/// coerced to floating values. Every binary real operator goes through this.
pub fn coerce(a: Real, b: Real) -> (r: Coerced)
    ensures
        r == coerce_spec(a, b),
{
    match (a, b) {
        (Real::Rat(x), Real::Rat(y)) => Coerced::Rats(x, y),
        _ => Coerced::Flts(a.to_inexact(), b.to_inexact()),
    }
}

/// `a < b`: exact comparison on rationals, IEEE comparison otherwise.
pub open spec fn real_lt_spec(a: Real, b: Real) -> bool {
    match (a, b) {
        (Real::Rat(x), Real::Rat(y)) => x.num() * y.den() < y.num() * x.den(),
        _ => fcmp_of(real_bits(a), real_bits(b)) == Some(-1i8),
    }
}

/// `a <= b` under the same dispatch.
pub open spec fn real_le_spec(a: Real, b: Real) -> bool {
    match (a, b) {
        (Real::Rat(x), Real::Rat(y)) => x.num() * y.den() <= y.num() * x.den(),
        _ => fcmp_of(real_bits(a), real_bits(b)) == Some(-1i8) || fcmp_of(
            real_bits(a),
            real_bits(b),
        ) == Some(0i8),
    }
}

/// `a == b` as values, under the same dispatch.
pub open spec fn real_eq_spec(a: Real, b: Real) -> bool {
    match (a, b) {
        (Real::Rat(x), Real::Rat(y)) => x.num() * y.den() == y.num() * x.den(),
        _ => fcmp_of(real_bits(a), real_bits(b)) == Some(0i8),
    }
}

impl Real {
    /// Strictly less.
    pub fn lt(self, other: Real) -> (r: bool)
        ensures
            r == real_lt_spec(self, other),
    {
        match coerce(self, other) {
            Coerced::Rats(x, y) => x.lt(y),
            Coerced::Flts(x, y) => {
                match flt_cmp(x, y) {
                    Some(c) => c == -1,
                    None => false,
                }
            },
        }
    }

    /// Less or equal.
    pub fn le(self, other: Real) -> (r: bool)
        ensures
            r == real_le_spec(self, other),
    {
        match coerce(self, other) {
            Coerced::Rats(x, y) => x.le(y),
            Coerced::Flts(x, y) => {
                match flt_cmp(x, y) {
                    Some(c) => c == -1 || c == 0,
                    None => false,
                }
            },
        }
    }

    /// Strictly greater.
    pub fn gt(self, other: Real) -> (r: bool)
        ensures
            r == real_lt_spec(other, self),
    {
        other.lt(self)
    }

    /// Greater or equal.
    pub fn ge(self, other: Real) -> (r: bool)
        ensures
            r == real_le_spec(other, self),
    {
        other.le(self)
    }

    /// Value equality.
    pub fn eq_val(self, other: Real) -> (r: bool)
        ensures
            r == real_eq_spec(self, other),
    {
        match coerce(self, other) {
            Coerced::Rats(x, y) => x.eq_val(y),
            Coerced::Flts(x, y) => {
                match flt_cmp(x, y) {
                    Some(c) => c == 0,
                    None => false,
                }
            },
        }
    }
}

impl Real {
    /// The largest integer not above the value; inexact values round by the
    /// IEEE direction.
    pub fn floor(self) -> (r: Real)
        ensures
            r == (match self {
                Real::Rat(q) => Real::Rat(Rational::from_int_spec(q.num() / q.den())),
                Real::Flt(b) => Real::Flt(fround_of(b, RM_FLOOR)),
            }),
    {
        match self {
            Real::Rat(q) => Real::Rat(q.floor()),
            Real::Flt(b) => Real::Flt(flt_round(b, RM_FLOOR)),
        }
    }

    /// The smallest integer not below the value.
    pub fn ceil(self) -> (r: Real)
        ensures
            r == (match self {
                Real::Rat(q) => Real::Rat(
                    Rational::from_int_spec(
                        q.num() / q.den() + (if q.num() % q.den() == 0 {
                            0int
                        } else {
                            1int
                        }),
                    ),
                ),
                Real::Flt(b) => Real::Flt(fround_of(b, RM_CEIL)),
            }),
    {
        match self {
            Real::Rat(q) => Real::Rat(q.ceil()),
            Real::Flt(b) => Real::Flt(flt_round(b, RM_CEIL)),
        }
    }

    /// The nearest integer, ties away from zero.
    pub fn round(self) -> (r: Real)
        ensures
            r == (match self {
                Real::Rat(q) => Real::Rat(Rational::from_int_spec(round_spec(q))),
                Real::Flt(b) => Real::Flt(fround_of(b, RM_ROUND)),
            }),
    {
        match self {
            Real::Rat(q) => Real::Rat(q.round()),
            Real::Flt(b) => Real::Flt(flt_round(b, RM_ROUND)),
        }
    }

    /// The integer part, toward zero.
    pub fn trunc(self) -> (r: Real)
        ensures
            r == (match self {
                Real::Rat(q) => Real::Rat(Rational::from_int_spec(trunc_spec(q))),
                Real::Flt(b) => Real::Flt(fround_of(b, RM_TRUNC)),
            }),
    {
        match self {
            Real::Rat(q) => Real::Rat(q.trunc()),
            Real::Flt(b) => Real::Flt(flt_round(b, RM_TRUNC)),
        }
    }

    /// The fractional part: the value minus its integer part.
    pub fn fract(self) -> (r: Real)
        ensures
            match self {
                Real::Rat(q) => (r matches Real::Rat(f) && rat_sub_spec(
                    q,
                    Rational::from_int_spec(trunc_spec(q)),
                ) == Some(f)),
                Real::Flt(b) => r == Real::Flt(fsub_of(b, fround_of(b, RM_TRUNC))),
            },
    {
        match self {
            Real::Rat(q) => Real::Rat(q.fract()),
            Real::Flt(b) => Real::Flt(flt_sub(b, flt_round(b, RM_TRUNC))),
        }
    }
}

/// What `get_real` returns: the real part of a number whose imaginary part
/// is zero, and nothing otherwise.
pub open spec fn get_real_spec(n: Number) -> Option<Real> {
    match n {
        Number::Exact { re, im } => if im.num() == 0 {
            Some(Real::Rat(re))
        } else {
            None
        },
        Number::Inexact { re, im } => if f_is_zero(im) {
            Some(Real::Flt(re))
        } else {
            None
        },
    }
}

/// The real part of a real-valued number; `None` for a non-real.
pub fn get_real(n: &Number) -> (r: Option<Real>)
    ensures
        r == get_real_spec(*n),
{
    match n {
        Number::Exact { re, im } => if im.is_zero() {
            Some(Real::Rat(*re))
        } else {
            None
        },
        Number::Inexact { re, im } => if crate::flt::flt_is_zero(*im) {
            Some(Real::Flt(*re))
        } else {
            None
        },
    }
}

/// What `get_int` returns: the value of an exact integer (a real with
/// denominator one), and nothing otherwise.
pub open spec fn get_int_spec(n: Number) -> Option<i64> {
    match n {
        Number::Exact { re, im } => if im.num() == 0 && re.den() == 1 {
            Some(re.num() as i64)
        } else {
            None
        },
        Number::Inexact { .. } => None,
    }
}

/// The value of an exact integer; `None` is a normal branch, not an error.
pub fn get_int(n: &Number) -> (r: Option<i64>)
    ensures
        r == get_int_spec(*n),
{
    match n {
        Number::Exact { re, im } => if im.is_zero() && re.is_integer() {
            Some(re.numerator())
        } else {
            None
        },
        Number::Inexact { .. } => None,
    }
}

/// What `get_uint` returns: the value of an exact nonnegative integer.
pub open spec fn get_uint_spec(n: Number) -> Option<u64> {
    match n {
        Number::Exact { re, im } => if im.num() == 0 && re.den() == 1 && re.num() >= 0 {
            Some(re.num() as u64)
        } else {
            None
        },
        Number::Inexact { .. } => None,
    }
}

/// The value of an exact nonnegative integer; `None` is a normal branch.
pub fn get_uint(n: &Number) -> (r: Option<u64>)
    ensures
        r == get_uint_spec(*n),
{
    match n {
        Number::Exact { re, im } => if im.is_zero() && re.is_integer() {
            let v = re.numerator();
            if v >= 0 {
                Some(v as u64)
            } else {
                None
            }
        } else {
            None
        },
        Number::Inexact { .. } => None,
    }
}

} // verus!
