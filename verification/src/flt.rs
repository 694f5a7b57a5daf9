//! Inexact real numbers, carried as the 64-bit patterns of IEEE-754
//! double-precision values. The arithmetic itself is done by the software
//! float implementation of the `rustc_apfloat` crate, which computes a result
//! from bit patterns alone; each operation's value is therefore a function of
//! its argument patterns and is given a name here that the callers' contracts
//! speak of.

use vstd::prelude::*;

use rustc_apfloat::Float;
use rustc_apfloat::Round;
use rustc_apfloat::ieee::Double;

verus! {

/// The bit pattern of +0.0.
pub const F_ZERO_BITS: u64 = 0;

/// The bit pattern of +1.0.
pub const F_ONE_BITS: u64 = 0x3FF0000000000000;

/// Round toward negative infinity.
pub const RM_FLOOR: u8 = 0;

/// Round toward positive infinity.
pub const RM_CEIL: u8 = 1;

/// Round toward zero.
pub const RM_TRUNC: u8 = 2;

/// Round to nearest, ties away from zero.
pub const RM_ROUND: u8 = 3;

/// Whether a bit pattern denotes an IEEE zero of either sign.
pub open spec fn f_is_zero(a: u64) -> bool {
    a == 0 || a == 0x8000000000000000
}

/// Exec test for an IEEE zero of either sign.
pub fn flt_is_zero(a: u64) -> (r: bool)
    ensures
        r == f_is_zero(a),
{
    a == 0 || a == 0x8000000000000000
}

/// Names the IEEE double sum of two bit patterns.
pub uninterp spec fn fadd_of(a: u64, b: u64) -> u64;

/// Names the IEEE double difference of two bit patterns.
pub uninterp spec fn fsub_of(a: u64, b: u64) -> u64;

/// Names the IEEE double product of two bit patterns.
pub uninterp spec fn fmul_of(a: u64, b: u64) -> u64;

/// Names the IEEE double quotient of two bit patterns.
pub uninterp spec fn fdiv_of(a: u64, b: u64) -> u64;

/// Names the IEEE double negation of a bit pattern.
pub uninterp spec fn fneg_of(a: u64) -> u64;

/// Names the IEEE comparison of two bit patterns: `Some(-1)`, `Some(0)`,
/// `Some(1)` for less, equal, greater; `None` when unordered (a NaN).
pub uninterp spec fn fcmp_of(a: u64, b: u64) -> Option<i8>;

/// Names the IEEE double nearest to an integer.
pub uninterp spec fn fint_of(n: i64) -> u64;

/// Names the IEEE double produced by rounding to an integral value in the
/// given direction (`RM_FLOOR`, `RM_CEIL`, `RM_TRUNC` or `RM_ROUND`).
pub uninterp spec fn fround_of(a: u64, mode: u8) -> u64;

/// Names the decimal rendering of an IEEE double bit pattern.
pub uninterp spec fn fdisplay_of(a: u64) -> Seq<char>;

/// Relies on rustc_apfloat double addition (round to nearest, ties to even):
/// the result depends on the two bit patterns alone.
#[verifier::external_body]
pub(crate) fn flt_add(a: u64, b: u64) -> (r: u64)
    ensures
        r == fadd_of(a, b),
{
    (Double::from_bits(a as u128) + Double::from_bits(b as u128)).value.to_bits() as u64
}

/// Relies on rustc_apfloat double subtraction (round to nearest, ties to even).
#[verifier::external_body]
pub(crate) fn flt_sub(a: u64, b: u64) -> (r: u64)
    ensures
        r == fsub_of(a, b),
{
    (Double::from_bits(a as u128) - Double::from_bits(b as u128)).value.to_bits() as u64
}

/// Relies on rustc_apfloat double multiplication (round to nearest, ties to even).
#[verifier::external_body]
pub(crate) fn flt_mul(a: u64, b: u64) -> (r: u64)
    ensures
        r == fmul_of(a, b),
{
    (Double::from_bits(a as u128) * Double::from_bits(b as u128)).value.to_bits() as u64
}

/// Relies on rustc_apfloat double division (round to nearest, ties to even);
/// division by zero follows IEEE semantics and yields an infinity or NaN.
#[verifier::external_body]
pub(crate) fn flt_div(a: u64, b: u64) -> (r: u64)
    ensures
        r == fdiv_of(a, b),
{
    (Double::from_bits(a as u128) / Double::from_bits(b as u128)).value.to_bits() as u64
}

/// Relies on rustc_apfloat double negation (sign flip).
#[verifier::external_body]
pub(crate) fn flt_neg(a: u64) -> (r: u64)
    ensures
        r == fneg_of(a),
{
    (-Double::from_bits(a as u128)).to_bits() as u64
}

/// Relies on rustc_apfloat's IEEE partial order: zeros of either sign are
/// equal, and a NaN compares as unordered.
#[verifier::external_body]
pub(crate) fn flt_cmp(a: u64, b: u64) -> (r: Option<i8>)
    ensures
        r == fcmp_of(a, b),
{
    match Double::from_bits(a as u128).partial_cmp(&Double::from_bits(b as u128)) {
        None => None,
        Some(core::cmp::Ordering::Less) => Some(-1),
        Some(core::cmp::Ordering::Equal) => Some(0),
        Some(core::cmp::Ordering::Greater) => Some(1),
    }
}

/// Relies on rustc_apfloat integer-to-double conversion (round to nearest,
/// ties to even).
#[verifier::external_body]
pub(crate) fn flt_of_i64(n: i64) -> (r: u64)
    ensures
        r == fint_of(n),
{
    Double::from_i128(n as i128).value.to_bits() as u64
}

/// Relies on rustc_apfloat rounding to an integral double in the direction
/// selected by `mode`.
#[verifier::external_body]
pub(crate) fn flt_round(a: u64, mode: u8) -> (r: u64)
    requires
        mode < 4,
    ensures
        r == fround_of(a, mode),
{
    let dir = match mode {
        0 => Round::TowardNegative,
        1 => Round::TowardPositive,
        2 => Round::TowardZero,
        _ => Round::NearestTiesToAway,
    };
    Double::from_bits(a as u128).round_to_integral(dir).value.to_bits() as u64
}

/// Relies on rustc_apfloat's decimal rendering of a double, which depends on
/// the bit pattern alone.
#[verifier::external_body]
pub(crate) fn flt_display(a: u64) -> (r: String)
    ensures
        r@ == fdisplay_of(a),
{
    format!("{}", Double::from_bits(a as u128))
}

} // verus!
