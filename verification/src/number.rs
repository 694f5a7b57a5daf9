//! The numeric tower: a `Number` is a complex value that is either exact
//! (both components reduced rationals) or inexact (both components IEEE
//! double bit patterns). Arithmetic follows the contagion rule: two exact
//! operands give an exact result, computed by rational arithmetic; any
//! inexact operand coerces both sides to inexact complex arithmetic.

use vstd::prelude::*;
use crate::rational::{Rational, rat_add_spec, rat_sub_spec, rat_mul_spec, rat_div_spec,
    rat_neg_spec, lemma_add_sign, lemma_square_sign};
use crate::flt::{f_is_zero, fadd_of, fsub_of, fmul_of, fdiv_of, fneg_of, fint_of, flt_add,
    flt_sub, flt_mul, flt_div, flt_neg, flt_of_i64, flt_is_zero, F_ZERO_BITS};
use crate::error::Error;

verus! {

/// A number of the tower. Exactness is a property of the whole value.
#[derive(Clone, Copy, Debug, PartialEq, Eq, Structural)]
pub enum Number {
    /// An exact complex value over reduced rationals.
    Exact { re: Rational, im: Rational },
    /// An inexact complex value over IEEE double bit patterns.
    Inexact { re: u64, im: u64 },
}

/// The bit pattern an exact rational converts to: numerator over denominator
/// in IEEE double division.
pub open spec fn rat_bits(q: Rational) -> u64 {
    fdiv_of(fint_of(q.num() as i64), fint_of(q.den() as i64))
}

/// The real-component bit pattern of a number once coerced to inexact.
pub open spec fn re_bits(n: Number) -> u64 {
    match n {
        Number::Exact { re, .. } => rat_bits(re),
        Number::Inexact { re, .. } => re,
    }
}

/// The imaginary-component bit pattern of a number once coerced to inexact.
pub open spec fn im_bits(n: Number) -> u64 {
    match n {
        Number::Exact { im, .. } => rat_bits(im),
        Number::Inexact { im, .. } => im,
    }
}

impl Number {
    /// The exact one, at the specification level.
    pub open spec fn one_spec() -> Number {
        Number::Exact { re: Rational::from_int_spec(1), im: Rational::from_int_spec(0) }
    }

    pub open spec fn is_exact_spec(self) -> bool {
        self is Exact
    }

    pub open spec fn is_inexact_spec(self) -> bool {
        self is Inexact
    }

    /// Zero imaginary part, on either tag.
    pub open spec fn is_real_spec(self) -> bool {
        match self {
            Number::Exact { im, .. } => im.num() == 0,
            Number::Inexact { im, .. } => f_is_zero(im),
        }
    }

    pub open spec fn is_zero_spec(self) -> bool {
        match self {
            Number::Exact { re, im } => re.num() == 0 && im.num() == 0,
            Number::Inexact { re, im } => f_is_zero(re) && f_is_zero(im),
        }
    }

    /// Whether the value carries the exact tag.
    pub fn is_exact(&self) -> (r: bool)
        ensures
            r == self.is_exact_spec(),
    {
        match self {
            Number::Exact { .. } => true,
            Number::Inexact { .. } => false,
        }
    }

    /// Whether the value carries the inexact tag.
    pub fn is_inexact(&self) -> (r: bool)
        ensures
            r == self.is_inexact_spec(),
    {
        !self.is_exact()
    }

    /// Whether the value is real: a zero imaginary part under either tag.
    pub fn is_real(&self) -> (r: bool)
        ensures
            r == self.is_real_spec(),
    {
        match self {
            Number::Exact { im, .. } => im.is_zero(),
            Number::Inexact { im, .. } => flt_is_zero(*im),
        }
    }

    /// Whether the value is zero (either tag; an inexact zero of any sign counts).
    pub fn is_zero(&self) -> (r: bool)
        ensures
            r == self.is_zero_spec(),
    {
        match self {
            Number::Exact { re, im } => re.is_zero() && im.is_zero(),
            Number::Inexact { re, im } => flt_is_zero(*re) && flt_is_zero(*im),
        }
    }

    /// The exact zero.
    pub fn zero() -> (r: Number)
        ensures
            r == (Number::Exact { re: Rational::from_int_spec(0), im: Rational::from_int_spec(0) }),
            r.is_zero_spec(),
    {
        Number::Exact { re: Rational::from_int(0), im: Rational::from_int(0) }
    }

    /// The exact one.
    pub fn one() -> (r: Number)
        ensures
            r == Number::one_spec(),
    {
        Number::Exact { re: Rational::from_int(1), im: Rational::from_int(0) }
    }

    /// Both components as IEEE double bit patterns, converting an exact value
    /// by dividing numerator by denominator.
    pub fn to_inexact(&self) -> (r: (u64, u64))
        ensures
            r.0 == re_bits(*self),
            r.1 == im_bits(*self),
    {
        match self {
            Number::Exact { re, im } => (rat_to_bits(*re), rat_to_bits(*im)),
            Number::Inexact { re, im } => (*re, *im),
        }
    }
}

/// Convert an exact rational to the IEEE double bit pattern of its value.
pub fn rat_to_bits(q: Rational) -> (r: u64)
    ensures
        r == rat_bits(q),
{
    flt_div(flt_of_i64(q.numerator()), flt_of_i64(q.denominator()))
}

/// The exact number denoting an integer.
pub fn from_int(n: i64) -> (r: Number)
    ensures
        r == (Number::Exact { re: Rational::from_int_spec(n as int), im: Rational::from_int_spec(0) }),
{
    Number::Exact { re: Rational::from_int(n), im: Rational::from_int(0) }
}

/// The exact number denoting a rational.
pub fn from_rational(re: Rational) -> (r: Number)
    ensures
        r == (Number::Exact { re, im: Rational::from_int_spec(0) }),
{
    Number::Exact { re, im: Rational::from_int(0) }
}

/// The inexact real number with the given bit pattern.
pub fn from_flt(re: u64) -> (r: Number)
    ensures
        r == (Number::Inexact { re, im: F_ZERO_BITS }),
{
    Number::Inexact { re, im: F_ZERO_BITS }
}

/// An exact complex number from its components.
pub fn exact(re: Rational, im: Rational) -> (r: Number)
    ensures
        r == (Number::Exact { re, im }),
{
    Number::Exact { re, im }
}

/// An inexact complex number from its component bit patterns.
pub fn inexact(re: u64, im: u64) -> (r: Number)
    ensures
        r == (Number::Inexact { re, im }),
{
    Number::Inexact { re, im }
}

/// What `add` returns: exact componentwise rational sums when both operands
/// are exact (overflow reported), else the inexact complex sum.
pub open spec fn add_spec(a: Number, b: Number) -> Result<Number, Error> {
    match (a, b) {
        (Number::Exact { re: ar, im: ai }, Number::Exact { re: br, im: bi }) => {
            match (rat_add_spec(ar, br), rat_add_spec(ai, bi)) {
                (Some(re), Some(im)) => Ok(Number::Exact { re, im }),
                _ => Err(Error::Overflow),
            }
        },
        _ => Ok(
            Number::Inexact {
                re: fadd_of(re_bits(a), re_bits(b)),
                im: fadd_of(im_bits(a), im_bits(b)),
            },
        ),
    }
}

/// Sum under the contagion rule.
pub fn add(a: Number, b: Number) -> (r: Result<Number, Error>)
    ensures
        r == add_spec(a, b),
{
    match (a, b) {
        (Number::Exact { re: ar, im: ai }, Number::Exact { re: br, im: bi }) => {
            match (ar.checked_add(br), ai.checked_add(bi)) {
                (Some(re), Some(im)) => Ok(Number::Exact { re, im }),
                _ => Err(Error::Overflow),
            }
        },
        _ => {
            let (are, aim) = a.to_inexact();
            let (bre, bim) = b.to_inexact();
            Ok(Number::Inexact { re: flt_add(are, bre), im: flt_add(aim, bim) })
        },
    }
}

/// What `sub` returns, under the contagion rule.
pub open spec fn sub_spec(a: Number, b: Number) -> Result<Number, Error> {
    match (a, b) {
        (Number::Exact { re: ar, im: ai }, Number::Exact { re: br, im: bi }) => {
            match (rat_sub_spec(ar, br), rat_sub_spec(ai, bi)) {
                (Some(re), Some(im)) => Ok(Number::Exact { re, im }),
                _ => Err(Error::Overflow),
            }
        },
        _ => Ok(
            Number::Inexact {
                re: fsub_of(re_bits(a), re_bits(b)),
                im: fsub_of(im_bits(a), im_bits(b)),
            },
        ),
    }
}

/// Difference under the contagion rule.
pub fn sub(a: Number, b: Number) -> (r: Result<Number, Error>)
    ensures
        r == sub_spec(a, b),
{
    match (a, b) {
        (Number::Exact { re: ar, im: ai }, Number::Exact { re: br, im: bi }) => {
            match (ar.checked_sub(br), ai.checked_sub(bi)) {
                (Some(re), Some(im)) => Ok(Number::Exact { re, im }),
                _ => Err(Error::Overflow),
            }
        },
        _ => {
            let (are, aim) = a.to_inexact();
            let (bre, bim) = b.to_inexact();
            Ok(Number::Inexact { re: flt_sub(are, bre), im: flt_sub(aim, bim) })
        },
    }
}

/// What exact complex multiplication returns:
/// `(ar + ai i)(br + bi i) = (ar br - ai bi) + (ar bi + ai br) i`.
pub open spec fn mul_exact_spec(ar: Rational, ai: Rational, br: Rational, bi: Rational) -> Result<
    Number,
    Error,
> {
    match (rat_mul_spec(ar, br), rat_mul_spec(ai, bi), rat_mul_spec(ar, bi), rat_mul_spec(
        ai,
        br,
    )) {
        (Some(t1), Some(t2), Some(t3), Some(t4)) => {
            match (rat_sub_spec(t1, t2), rat_add_spec(t3, t4)) {
                (Some(re), Some(im)) => Ok(Number::Exact { re, im }),
                _ => Err(Error::Overflow),
            }
        },
        _ => Err(Error::Overflow),
    }
}

/// What `mul` returns, under the contagion rule.
pub open spec fn mul_spec(a: Number, b: Number) -> Result<Number, Error> {
    match (a, b) {
        (Number::Exact { re: ar, im: ai }, Number::Exact { re: br, im: bi }) => mul_exact_spec(
            ar,
            ai,
            br,
            bi,
        ),
        _ => Ok(
            Number::Inexact {
                re: fsub_of(
                    fmul_of(re_bits(a), re_bits(b)),
                    fmul_of(im_bits(a), im_bits(b)),
                ),
                im: fadd_of(
                    fmul_of(re_bits(a), im_bits(b)),
                    fmul_of(im_bits(a), re_bits(b)),
                ),
            },
        ),
    }
}

/// Product under the contagion rule.
pub fn mul(a: Number, b: Number) -> (r: Result<Number, Error>)
    ensures
        r == mul_spec(a, b),
{
    match (a, b) {
        (Number::Exact { re: ar, im: ai }, Number::Exact { re: br, im: bi }) => {
            match (ar.checked_mul(br), ai.checked_mul(bi), ar.checked_mul(bi), ai.checked_mul(
                br,
            )) {
                (Some(t1), Some(t2), Some(t3), Some(t4)) => {
                    match (t1.checked_sub(t2), t3.checked_add(t4)) {
                        (Some(re), Some(im)) => Ok(Number::Exact { re, im }),
                        _ => Err(Error::Overflow),
                    }
                },
                _ => Err(Error::Overflow),
            }
        },
        _ => {
            let (are, aim) = a.to_inexact();
            let (bre, bim) = b.to_inexact();
            Ok(
                Number::Inexact {
                    re: flt_sub(flt_mul(are, bre), flt_mul(aim, bim)),
                    im: flt_add(flt_mul(are, bim), flt_mul(aim, bre)),
                },
            )
        },
    }
}

/// What exact complex division returns:
/// `(a + bi) / (c + di) = ((ac + bd) + (bc - ad) i) / (c^2 + d^2)`.
pub open spec fn div_exact_spec(ar: Rational, ai: Rational, br: Rational, bi: Rational) -> Result<
    Number,
    Error,
> {
    match (rat_mul_spec(br, br), rat_mul_spec(bi, bi)) {
        (Some(cc), Some(dd)) => {
            match rat_add_spec(cc, dd) {
                Some(den) => {
                    match (rat_mul_spec(ar, br), rat_mul_spec(ai, bi), rat_mul_spec(ai, br),
                    rat_mul_spec(ar, bi)) {
                        (Some(t1), Some(t2), Some(t3), Some(t4)) => {
                            match (rat_add_spec(t1, t2), rat_sub_spec(t3, t4)) {
                                (Some(ren), Some(imn)) => {
                                    match (rat_div_spec(ren, den), rat_div_spec(imn, den)) {
                                        (Some(re), Some(im)) => Ok(Number::Exact { re, im }),
                                        _ => Err(Error::Overflow),
                                    }
                                },
                                _ => Err(Error::Overflow),
                            }
                        },
                        _ => Err(Error::Overflow),
                    }
                },
                None => Err(Error::Overflow),
            }
        },
        _ => Err(Error::Overflow),
    }
}

/// What `div` returns: an error exactly when the divisor is an exact zero;
/// otherwise exact complex division when both operands are exact, else the
/// inexact complex quotient, which follows IEEE semantics even for an
/// inexact zero divisor.
pub open spec fn div_spec(a: Number, b: Number) -> Result<Number, Error> {
    if b.is_exact_spec() && b.is_zero_spec() {
        Err(Error::DivideByZeroError)
    } else {
        match (a, b) {
            (Number::Exact { re: ar, im: ai }, Number::Exact { re: br, im: bi }) => div_exact_spec(
                ar,
                ai,
                br,
                bi,
            ),
            _ => {
                let dd = fadd_of(
                    fmul_of(re_bits(b), re_bits(b)),
                    fmul_of(im_bits(b), im_bits(b)),
                );
                Ok(
                    Number::Inexact {
                        re: fdiv_of(
                            fadd_of(
                                fmul_of(re_bits(a), re_bits(b)),
                                fmul_of(im_bits(a), im_bits(b)),
                            ),
                            dd,
                        ),
                        im: fdiv_of(
                            fsub_of(
                                fmul_of(im_bits(a), re_bits(b)),
                                fmul_of(re_bits(a), im_bits(b)),
                            ),
                            dd,
                        ),
                    },
                )
            },
        }
    }
}

/// Quotient under the contagion rule; division by an exact zero is an error,
/// division by an inexact zero is not.
pub fn div(a: Number, b: Number) -> (r: Result<Number, Error>)
    ensures
        r == div_spec(a, b),
{
    if b.is_exact() && b.is_zero() {
        return Err(Error::DivideByZeroError);
    }
    match (a, b) {
        (Number::Exact { re: ar, im: ai }, Number::Exact { re: br, im: bi }) => {
            match (br.checked_mul(br), bi.checked_mul(bi)) {
                (Some(cc), Some(dd)) => {
                    match cc.checked_add(dd) {
                        Some(den) => {
                            proof {
                                use_type_invariant(br);
                                use_type_invariant(bi);
                                use_type_invariant(cc);
                                use_type_invariant(dd);
                                lemma_square_sign(br);
                                lemma_square_sign(bi);
                                lemma_add_sign(cc, dd);
                            }
                            match (ar.checked_mul(br), ai.checked_mul(bi), ai.checked_mul(br),
                            ar.checked_mul(bi)) {
                                (Some(t1), Some(t2), Some(t3), Some(t4)) => {
                                    match (t1.checked_add(t2), t3.checked_sub(t4)) {
                                        (Some(ren), Some(imn)) => {
                                            match (ren.checked_div(den), imn.checked_div(den)) {
                                                (Some(re), Some(im)) => Ok(
                                                    Number::Exact { re, im },
                                                ),
                                                _ => Err(Error::Overflow),
                                            }
                                        },
                                        _ => Err(Error::Overflow),
                                    }
                                },
                                _ => Err(Error::Overflow),
                            }
                        },
                        None => Err(Error::Overflow),
                    }
                },
                _ => Err(Error::Overflow),
            }
        },
        _ => {
            let (are, aim) = a.to_inexact();
            let (bre, bim) = b.to_inexact();
            let dd = flt_add(flt_mul(bre, bre), flt_mul(bim, bim));
            Ok(
                Number::Inexact {
                    re: flt_div(flt_add(flt_mul(are, bre), flt_mul(aim, bim)), dd),
                    im: flt_div(flt_sub(flt_mul(aim, bre), flt_mul(are, bim)), dd),
                },
            )
        },
    }
}

/// What `neg` returns.
pub open spec fn neg_spec(a: Number) -> Result<Number, Error> {
    match a {
        Number::Exact { re, im } => match (rat_neg_spec(re), rat_neg_spec(im)) {
            (Some(re), Some(im)) => Ok(Number::Exact { re, im }),
            _ => Err(Error::Overflow),
        },
        Number::Inexact { re, im } => Ok(
            Number::Inexact { re: fneg_of(re), im: fneg_of(im) },
        ),
    }
}

/// Negation; exact negation can leave the fixed range for one extreme value.
pub fn neg(a: Number) -> (r: Result<Number, Error>)
    ensures
        r == neg_spec(a),
{
    match a {
        Number::Exact { re, im } => match (re.checked_neg(), im.checked_neg()) {
            (Some(re), Some(im)) => Ok(Number::Exact { re, im }),
            _ => Err(Error::Overflow),
        },
        Number::Inexact { re, im } => Ok(
            Number::Inexact { re: flt_neg(re), im: flt_neg(im) },
        ),
    }
}

/// The reciprocal: one divided by the value.
pub fn recip(a: Number) -> (r: Result<Number, Error>)
    ensures
        r == div_spec(Number::one_spec(), a),
{
    div(Number::one(), a)
}

/// What `modulo` returns: the remainder of flooring division, whose sign
/// follows the divisor.
pub open spec fn modulo_spec(l: int, r: int) -> int
    recommends
        r != 0,
{
    if r > 0 {
        l % r
    } else {
        -((-l) % (-r))
    }
}

/// The euclidean remainder of `l` by the positive divisor `ar`, computed
/// from magnitudes.
fn euclid_rem(l: i64, ar: u64) -> (r: u64)
    requires
        ar >= 1,
    ensures
        r as int == (l as int) % (ar as int),
        r < ar,
{
    let al: u64 = if l < 0 {
        (-(l as i128)) as u64
    } else {
        l as u64
    };
    let rem: u64 = al % ar;
    if l >= 0 {
        proof {
            vstd::arithmetic::div_mod::lemma_fundamental_div_mod(al as int, ar as int);
        }
        rem
    } else if rem == 0 {
        proof {
            vstd::arithmetic::div_mod::lemma_fundamental_div_mod(al as int, ar as int);
            let q = al as int / ar as int;
            assert(l as int == (-q) * (ar as int) + 0) by (nonlinear_arith)
                requires
                    al as int == (ar as int) * q,
                    l as int == -(al as int),
            ;
            vstd::arithmetic::div_mod::lemma_fundamental_div_mod_converse(
                l as int,
                ar as int,
                -q,
                0,
            );
        }
        0
    } else {
        proof {
            vstd::arithmetic::div_mod::lemma_fundamental_div_mod(al as int, ar as int);
            let q = al as int / ar as int;
            assert(l as int == (-q - 1) * (ar as int) + (ar as int - rem as int))
                by (nonlinear_arith)
                requires
                    al as int == (ar as int) * q + rem as int,
                    l as int == -(al as int),
            ;
            vstd::arithmetic::div_mod::lemma_fundamental_div_mod_converse(
                l as int,
                ar as int,
                -q - 1,
                ar as int - rem as int,
            );
        }
        ar - rem
    }
}

/// The euclidean remainder of `l` by a positive divisor.
pub fn modulo_rem(l: i64, d: i64) -> (r: i64)
    requires
        d >= 1,
    ensures
        r as int == (l as int) % (d as int),
        0 <= r < d,
{
    let e = euclid_rem(l, d as u64);
    e as i64
}

/// The flooring remainder: zero, or a value whose sign follows the divisor
/// and whose magnitude stays under the divisor's.
pub fn modulo(l: i64, r: i64) -> (q: i64)
    requires
        r != 0,
    ensures
        q as int == modulo_spec(l as int, r as int),
{
    let ar: u64 = if r < 0 {
        (-(r as i128)) as u64
    } else {
        r as u64
    };
    if r > 0 {
        let e = euclid_rem(l, ar);
        e as i64
    } else if l == i64::MIN {
        // The negation of the least value does not fit; its euclidean
        // remainder is computed from the magnitude in wide space.
        let e = euclid_rem_wide(ar);
        -(e as i64)
    } else {
        let e = euclid_rem(-l, ar);
        -(e as i64)
    }
}

/// The euclidean remainder of 2^63 by a positive divisor.
fn euclid_rem_wide(ar: u64) -> (r: u64)
    requires
        ar >= 1,
    ensures
        r as int == 0x8000000000000000int % (ar as int),
        r < ar,
{
    let wide: u128 = 0x8000000000000000u128;
    let rem: u128 = wide % (ar as u128);
    proof {
        vstd::arithmetic::div_mod::lemma_fundamental_div_mod(wide as int, ar as int);
    }
    rem as u64
}

/// Division by an exact zero fails with the division error; division with
/// an inexact divisor never fails, an inexact zero divisor following IEEE
/// semantics instead.
pub proof fn lemma_div_zero_policy(a: Number, b: Number)
    ensures
        b.is_exact_spec() && b.is_zero_spec() ==> div_spec(a, b) == Err::<Number, Error>(
            Error::DivideByZeroError,
        ),
        b.is_inexact_spec() ==> div_spec(a, b) is Ok,
{
}

/// Contagion, stated of the sum: two exact operands whose sum is
/// representable give an exact sum, and any inexact operand gives an inexact
/// sum (which always exists).
pub proof fn lemma_contagion(x: Number, y: Number)
    ensures
        x.is_exact_spec() && y.is_exact_spec() && add_spec(x, y) is Ok ==> add_spec(
            x,
            y,
        ).unwrap().is_exact_spec(),
        x.is_inexact_spec() || y.is_inexact_spec() ==> add_spec(x, y) is Ok && add_spec(
            x,
            y,
        ).unwrap().is_inexact_spec(),
{
}

} // verus!
