//! Core of a Scheme-family interpreter: S-expression datums, a numeric tower
//! of exact rationals and inexact complex floating values, and an evaluator
//! with lexically scoped environments and a primitive-procedure framework.

pub mod arith;
pub mod datum;
pub mod error;
pub mod flt;
pub mod number;
pub mod prim;
pub mod primitive;
pub mod printer;
pub mod rational;
pub mod realnum;
pub mod runtime;
pub mod value;
