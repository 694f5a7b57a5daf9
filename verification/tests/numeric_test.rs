use r6::error::{err_to_str, Error};
use r6::flt::{flt_is_zero, F_ONE_BITS, F_ZERO_BITS};
use r6::number::{self, exact, from_flt, from_int, from_rational, inexact, modulo, Number};
use r6::printer::{i64_to_text, nat_to_text, number_to_text};
use r6::rational::Rational;
use r6::realnum::{coerce, get_int, get_real, get_uint, Coerced, Real};

fn rat(n: i64, d: i64) -> Rational {
    Rational::new(n, d).unwrap()
}

#[test]
fn test_eq() {
    assert_eq!(Real::Rat(rat(2, 1)).eq_val(Real::Rat(rat(2, 1))), true);
    assert_eq!(Real::Rat(rat(2, 1)).lt(Real::Flt(3.0f64.to_bits())), true);
    assert_eq!(Real::Flt(3.0f64.to_bits()).gt(Real::Rat(rat(2, 1))), true);
}

#[test]
fn test_rational_canonical() {
    let q = rat(8, 4);
    assert_eq!(q.numerator(), 2);
    assert_eq!(q.denominator(), 1);
    let q = rat(3, -6);
    assert_eq!(q.numerator(), -1);
    assert_eq!(q.denominator(), 2);
    assert!(Rational::new(1, 0).is_none());
}

#[test]
fn test_rational_arith() {
    assert_eq!(rat(1, 3).checked_add(rat(1, 6)).unwrap(), rat(1, 2));
    assert_eq!(rat(5, 6).checked_sub(rat(1, 3)).unwrap(), rat(1, 2));
    assert_eq!(rat(2, 3).checked_mul(rat(3, 4)).unwrap(), rat(1, 2));
    assert_eq!(rat(1, 3).checked_div(rat(2, 3)).unwrap(), rat(1, 2));
    assert_eq!(rat(1, 3).checked_neg().unwrap(), rat(-1, 3));
    // Overflow is reported, not wrapped.
    let big = rat(i64::MAX, 1);
    assert!(big.checked_add(big).is_none());
}

#[test]
fn test_add_sub_round_trip() {
    // Adding and then subtracting the same nonzero rational returns the
    // exact starting value.
    let a = rat(1, 3);
    let b = rat(2, 5);
    let s = a.checked_add(b).unwrap();
    assert_eq!(s.checked_sub(b).unwrap(), a);
    let a = rat(-7, 12);
    let b = rat(5, 8);
    let s = a.checked_add(b).unwrap();
    assert_eq!(s.checked_sub(b).unwrap(), a);
}

#[test]
fn test_contagion() {
    let e = from_int(1);
    let i = from_flt(2.0f64.to_bits());
    assert!(number::add(e, e).unwrap().is_exact());
    assert!(number::add(e, i).unwrap().is_inexact());
    assert!(number::add(i, e).unwrap().is_inexact());
    assert!(number::add(i, i).unwrap().is_inexact());
}

#[test]
fn test_divide_by_zero_policy() {
    let one = from_int(1);
    let ez = from_int(0);
    let iz = from_flt(0.0f64.to_bits());
    assert!(matches!(number::div(one, ez), Err(Error::DivideByZeroError)));
    // The inexact quotient exists; the complex quotient formula turns the
    // zero divisor into a NaN component rather than an error.
    let r = number::div(one, iz).unwrap();
    let (re, _) = r.to_inexact();
    assert!(f64::from_bits(re).is_nan());
}

#[test]
fn test_complex_arith() {
    // (1+2i) * (3+4i) = -5 + 10i, exactly.
    let a = exact(Rational::from_int(1), Rational::from_int(2));
    let b = exact(Rational::from_int(3), Rational::from_int(4));
    let p = number::mul(a, b).unwrap();
    assert_eq!(p, exact(Rational::from_int(-5), Rational::from_int(10)));
    // Dividing the product by one factor returns the other, exactly.
    let q = number::div(p, b).unwrap();
    assert_eq!(q, a);
}

#[test]
fn test_inexact_arith_bits() {
    let a = from_flt(1.5f64.to_bits());
    let b = from_flt(2.25f64.to_bits());
    let s = number::add(a, b).unwrap();
    assert_eq!(s.to_inexact().0, (1.5f64 + 2.25f64).to_bits());
    let d = number::sub(a, b).unwrap();
    assert_eq!(d.to_inexact().0, (1.5f64 - 2.25f64).to_bits());
    let m = number::mul(a, b).unwrap();
    assert_eq!(m.to_inexact().0, (1.5f64 * 2.25f64).to_bits());
    let q = number::div(a, b).unwrap();
    assert_eq!(q.to_inexact().0, (1.5f64 / 2.25f64).to_bits());
}

#[test]
fn test_to_inexact_of_rational() {
    let n = from_rational(rat(1, 2));
    assert_eq!(n.to_inexact().0, 0.5f64.to_bits());
    assert_eq!(n.to_inexact().1, F_ZERO_BITS);
}

#[test]
fn test_predicates() {
    assert!(from_int(3).is_real());
    assert!(!exact(Rational::from_int(3), Rational::from_int(4)).is_real());
    assert!(inexact(2.5f64.to_bits(), 0.0f64.to_bits()).is_real());
    assert!(from_int(0).is_zero());
    assert!(from_flt((-0.0f64).to_bits()).is_zero());
    assert!(!from_int(1).is_zero());
    assert!(flt_is_zero(F_ZERO_BITS));
    assert!(!flt_is_zero(F_ONE_BITS));
}

#[test]
fn test_get_int_uint_real() {
    assert_eq!(get_int(&from_int(5)), Some(5));
    assert_eq!(get_int(&from_rational(rat(1, 2))), None);
    assert_eq!(get_int(&from_flt(3.0f64.to_bits())), None);
    assert_eq!(get_uint(&from_int(5)), Some(5));
    assert_eq!(get_uint(&from_int(-5)), None);
    assert!(matches!(get_real(&from_int(5)), Some(Real::Rat(_))));
    assert!(matches!(
        get_real(&exact(Rational::from_int(1), Rational::from_int(1))),
        None
    ));
}

#[test]
fn test_coerce_dispatch() {
    match coerce(Real::Rat(rat(1, 2)), Real::Rat(rat(1, 3))) {
        Coerced::Rats(x, y) => {
            assert_eq!(x, rat(1, 2));
            assert_eq!(y, rat(1, 3));
        }
        Coerced::Flts(_, _) => panic!("two exact reals must stay exact"),
    }
    match coerce(Real::Rat(rat(1, 2)), Real::Flt(1.0f64.to_bits())) {
        Coerced::Flts(x, y) => {
            assert_eq!(x, 0.5f64.to_bits());
            assert_eq!(y, 1.0f64.to_bits());
        }
        Coerced::Rats(_, _) => panic!("a mixed pair must coerce to inexact"),
    }
}

#[test]
fn test_real_ordering() {
    assert!(Real::Rat(rat(1, 3)).le(Real::Rat(rat(1, 2))));
    assert!(!Real::Rat(rat(1, 2)).lt(Real::Rat(rat(1, 2))));
    assert!(Real::Rat(rat(1, 2)).ge(Real::Rat(rat(1, 2))));
    // NaN is unordered against everything.
    let nan = Real::Flt(f64::NAN.to_bits());
    assert!(!nan.lt(nan));
    assert!(!nan.eq_val(nan));
    assert!(!nan.le(nan));
}

#[test]
fn test_modulo() {
    assert_eq!(modulo(7, 3), 1);
    assert_eq!(modulo(-7, 3), 2);
    assert_eq!(modulo(7, -3), -2);
    assert_eq!(modulo(-7, -3), -1);
    assert_eq!(modulo(6, 3), 0);
    assert_eq!(modulo(i64::MIN, -3), -2);
}

#[test]
fn test_number_text() {
    assert_eq!(number_to_text(&from_int(3)), "3");
    assert_eq!(number_to_text(&from_int(-7)), "-7");
    assert_eq!(number_to_text(&from_rational(rat(1, 2))), "1/2");
    assert_eq!(
        number_to_text(&exact(Rational::from_int(3), Rational::from_int(4))),
        "3+4i"
    );
    // The inexact rendering varies with the value, so the display wrapper is
    // not handing its input back.
    let a = number_to_text(&from_flt(1.5f64.to_bits()));
    let b = number_to_text(&from_flt(2.5f64.to_bits()));
    assert!(!a.is_empty());
    assert_ne!(a, b);
}

#[test]
fn test_int_text() {
    assert_eq!(nat_to_text(0), "0");
    assert_eq!(nat_to_text(1234567890), "1234567890");
    assert_eq!(i64_to_text(i64::MIN), "-9223372036854775808");
    assert_eq!(i64_to_text(i64::MAX), "9223372036854775807");
}

#[test]
fn test_err_to_str() {
    assert_eq!(err_to_str(&Error::NotCallable), "not callable");
    assert_eq!(err_to_str(&Error::NotList), "not list");
    assert_eq!(err_to_str(&Error::ArgNumError), "bad number of arguments");
    assert_eq!(err_to_str(&Error::TypeError), "type error");
    assert_eq!(err_to_str(&Error::DivideByZeroError), "divide by zero");
    assert_eq!(err_to_str(&Error::NilEval), "() cannot be evaluated");
    assert_eq!(
        err_to_str(&Error::UnboundVariable("x".to_string())),
        "unbound variable: x"
    );
}

#[test]
fn test_prelude_tables() {
    let p = r6::prim::prelude();
    assert_eq!(p.len(), 20);
    assert_eq!(p[0].0, "eval");
    assert_eq!(p[2].0, "+");
    let s = r6::prim::syntax_prelude();
    assert_eq!(s.len(), 7);
    assert_eq!(s[1].0, "lambda");
    assert_eq!(
        r6::prim::proc_to_str(&r6::prim::PFunc::PEqv),
        "eqv?"
    );
    assert_eq!(
        r6::prim::syntax_to_str(&r6::prim::PrimSyntax::SynSet),
        "set!"
    );
    let lib = r6::primitive::libprimitive();
    assert_eq!(lib.len(), 26);
    assert_eq!(lib[0].0, "+");
    assert_eq!(lib[17].0, "complex?");
}

#[test]
fn test_rational_rounding() {
    assert_eq!(rat(7, 2).floor(), rat(3, 1));
    assert_eq!(rat(-7, 2).floor(), rat(-4, 1));
    assert_eq!(rat(7, 2).ceil(), rat(4, 1));
    assert_eq!(rat(-7, 2).ceil(), rat(-3, 1));
    assert_eq!(rat(7, 2).trunc(), rat(3, 1));
    assert_eq!(rat(-7, 2).trunc(), rat(-3, 1));
    assert_eq!(rat(7, 2).round(), rat(4, 1));
    assert_eq!(rat(-7, 2).round(), rat(-4, 1));
    assert_eq!(rat(1, 3).round(), rat(0, 1));
    assert_eq!(rat(2, 3).round(), rat(1, 1));
    assert_eq!(rat(7, 2).fract(), rat(1, 2));
    assert_eq!(rat(-7, 2).fract(), rat(-1, 2));
    assert_eq!(rat(5, 1).fract(), rat(0, 1));
}

#[test]
fn test_real_rounding() {
    match Real::Rat(rat(7, 2)).floor() {
        Real::Rat(q) => assert_eq!(q, rat(3, 1)),
        _ => panic!("exact input must stay exact"),
    }
    match Real::Flt(3.7f64.to_bits()).floor() {
        Real::Flt(b) => assert_eq!(b, 3.0f64.to_bits()),
        _ => panic!("inexact input must stay inexact"),
    }
    match Real::Flt((-3.2f64).to_bits()).ceil() {
        Real::Flt(b) => assert_eq!(b, (-3.0f64).to_bits()),
        _ => panic!("inexact input must stay inexact"),
    }
    match Real::Flt(2.5f64.to_bits()).round() {
        Real::Flt(b) => assert_eq!(b, 3.0f64.to_bits()),
        _ => panic!("inexact input must stay inexact"),
    }
    match Real::Flt(2.75f64.to_bits()).trunc() {
        Real::Flt(b) => assert_eq!(b, 2.0f64.to_bits()),
        _ => panic!("inexact input must stay inexact"),
    }
    match Real::Flt(2.75f64.to_bits()).fract() {
        Real::Flt(b) => assert_eq!(b, 0.75f64.to_bits()),
        _ => panic!("inexact input must stay inexact"),
    }
}
