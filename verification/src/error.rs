//! The discriminated error surface of the evaluator. Errors are reported,
//! never silently coerced; the host turns them into descriptive text.

use vstd::prelude::*;

verus! {

/// Everything that can go wrong while evaluating a well-formed datum.
#[derive(Debug, Clone, PartialEq)]
pub enum Error {
    /// A symbol was looked up (or `set!`) and no frame binds it.
    UnboundVariable(String),
    /// The head of an application evaluated to something not callable.
    NotCallable,
    /// The argument part of an application is not a proper list.
    NotList,
    /// A primitive received the wrong number of arguments.
    ArgNumError,
    /// A primitive received an argument of the wrong kind.
    TypeError,
    /// Division by an exact zero.
    DivideByZeroError,
    /// `()` alone cannot be evaluated.
    NilEval,
    /// An exact result left the fixed-width rational range.
    Overflow,
    /// The bounded evaluation depth was exhausted.
    DepthLimit,
}

/// The mathematical image of an `Error`.
pub enum ErrV {
    UnboundVariable(Seq<char>),
    NotCallable,
    NotList,
    ArgNumError,
    TypeError,
    DivideByZeroError,
    NilEval,
    Overflow,
    DepthLimit,
}

impl DeepView for Error {
    type V = ErrV;

    open spec fn deep_view(&self) -> ErrV {
        match self {
            Error::UnboundVariable(s) => ErrV::UnboundVariable(s@),
            Error::NotCallable => ErrV::NotCallable,
            Error::NotList => ErrV::NotList,
            Error::ArgNumError => ErrV::ArgNumError,
            Error::TypeError => ErrV::TypeError,
            Error::DivideByZeroError => ErrV::DivideByZeroError,
            Error::NilEval => ErrV::NilEval,
            Error::Overflow => ErrV::Overflow,
            Error::DepthLimit => ErrV::DepthLimit,
        }
    }
}

/// Descriptive text for each error kind.
pub fn err_to_str(err: &Error) -> (r: String)
    ensures
        match err {
            Error::UnboundVariable(name) => r@ == "unbound variable: "@ + name@,
            Error::NotCallable => r@ == "not callable"@,
            Error::NotList => r@ == "not list"@,
            Error::ArgNumError => r@ == "bad number of arguments"@,
            Error::TypeError => r@ == "type error"@,
            Error::DivideByZeroError => r@ == "divide by zero"@,
            Error::NilEval => r@ == "() cannot be evaluated"@,
            Error::Overflow => r@ == "exact result out of range"@,
            Error::DepthLimit => r@ == "evaluation depth exhausted"@,
        },
{
    match err {
        Error::UnboundVariable(name) => "unbound variable: ".to_owned().concat(name.as_str()),
        Error::NotCallable => "not callable".to_owned(),
        Error::NotList => "not list".to_owned(),
        Error::ArgNumError => "bad number of arguments".to_owned(),
        Error::TypeError => "type error".to_owned(),
        Error::DivideByZeroError => "divide by zero".to_owned(),
        Error::NilEval => "() cannot be evaluated".to_owned(),
        Error::Overflow => "exact result out of range".to_owned(),
        Error::DepthLimit => "evaluation depth exhausted".to_owned(),
    }
}

} // verus!
