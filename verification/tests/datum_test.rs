use r6::datum::{cons, datum_eq, is_quote, Datum, DatumIter, Quotation, quotation_of, SimpleDatum};
use r6::number::{from_int, Number};
use r6::printer::datum_to_text;
use std::rc::Rc;

fn sym(s: &str) -> Datum<()> {
    Datum::Sym(s.to_string())
}

fn num(n: i64) -> Datum<()> {
    Datum::Num(from_int(n))
}

fn list(items: Vec<Datum<()>>) -> Datum<()> {
    let mut out = Datum::Nil;
    for d in items.into_iter().rev() {
        out = cons(d, out);
    }
    out
}

fn compare_fmt(s: &str, datum: Datum<()>) {
    assert_eq!(s.to_string(), datum_to_text(&datum));
}

#[test]
fn test_fmt() {
    compare_fmt("a", sym("a"));
    compare_fmt("()", list(vec![]));
    compare_fmt("(a)", list(vec![sym("a")]));
    compare_fmt("(a b)", list(vec![sym("a"), sym("b")]));
    compare_fmt("(a . b)", cons(sym("a"), sym("b")));
}

#[test]
fn test_vec_fmt() {
    compare_fmt("#(a b)", Datum::Vector(Rc::new(vec![sym("a"), sym("b")])));
    compare_fmt("#()", Datum::Vector(Rc::new(Vec::new())));
}

#[test]
fn test_bytes_fmt() {
    compare_fmt("#vu8(1 2 3)", Datum::Bytes(Rc::new(vec![1, 2, 3])));
    compare_fmt("#vu8()", Datum::Bytes(Rc::new(Vec::new())));
}

#[test]
fn test_quote_abbrev() {
    compare_fmt("'a", list(vec![sym("quote"), sym("a")]));
    compare_fmt("'(a b)", list(vec![sym("quote"), list(vec![sym("a"), sym("b")])]));
    compare_fmt("`a", list(vec![sym("quasiquote"), sym("a")]));
    compare_fmt(",a", list(vec![sym("unquote"), sym("a")]));
    compare_fmt(",@a", list(vec![sym("unquote-splicing"), sym("a")]));

    compare_fmt("#'a", list(vec![sym("syntax"), sym("a")]));
    compare_fmt("#'(a b)", list(vec![sym("syntax"), list(vec![sym("a"), sym("b")])]));
    compare_fmt("#`a", list(vec![sym("quasisyntax"), sym("a")]));
    compare_fmt("#,a", list(vec![sym("unsyntax"), sym("a")]));
    compare_fmt("#,@a", list(vec![sym("unsyntax-splicing"), sym("a")]));
}

#[test]
fn test_abbrev_only_two_element_lists() {
    // The abbreviation applies only to a two-element list with the keyword
    // head: longer or dotted forms print plainly.
    compare_fmt("(quote a b)", list(vec![sym("quote"), sym("a"), sym("b")]));
    compare_fmt("(quote . a)", cons(sym("quote"), sym("a")));
    compare_fmt("(quote)", list(vec![sym("quote")]));
}

#[test]
fn test_iter() {
    let items: Datum<()> = list(vec![num(1), num(2)]);
    let mut it: DatumIter<()> = items.iter();
    let mut got: Vec<Result<Datum<()>, ()>> = Vec::new();
    loop {
        match it.next() {
            None => break,
            Some(step) => got.push(step),
        }
    }
    let expected = [num(1), num(2)];
    assert_eq!(got.len(), 2);
    for (g, e) in got.iter().zip(expected.iter()) {
        match g {
            Ok(d) => assert!(datum_eq(d, e)),
            Err(()) => panic!("unexpected improper marker"),
        }
    }
}

#[test]
fn test_iter_improper_marker() {
    let data: Datum<()> = cons(sym("a"), sym("b"));
    let mut it = data.iter();
    assert!(matches!(it.next(), Some(Ok(_))));
    assert!(matches!(it.next(), Some(Err(()))));
}

#[test]
fn test_improper_list() {
    let data: Datum<()> = cons(sym("a"), cons(sym("b"), sym("c")));
    let (items, tail) = data.improper_list();
    assert_eq!(items.len(), 2);
    assert!(datum_eq(&items[0], &sym("a")));
    assert!(datum_eq(&items[1], &sym("b")));
    match tail {
        Some(t) => assert!(datum_eq(&t, &sym("c"))),
        None => panic!("expected an improper tail"),
    }
}

#[test]
fn test_to_list() {
    let proper: Datum<()> = list(vec![sym("a"), sym("b")]);
    let items = proper.to_list().unwrap();
    assert_eq!(items.len(), 2);
    let improper: Datum<()> = cons(sym("a"), sym("b"));
    assert!(improper.to_list().is_none());
}

#[test]
fn test_concat() {
    let x: Datum<()> = list(vec![sym("a"), sym("b")]);
    let y: Datum<()> = list(vec![sym("c")]);
    let joined = r6::datum::concat(x, y).unwrap();
    assert!(datum_eq(&joined, &list(vec![sym("a"), sym("b"), sym("c")])));
    let bad: Datum<()> = cons(sym("a"), sym("b"));
    assert!(r6::datum::concat(bad, list(vec![])).is_err());
}

#[test]
fn test_datum_eq() {
    assert!(datum_eq(&list(vec![sym("a"), num(1)]), &list(vec![sym("a"), num(1)])));
    assert!(!datum_eq(&list(vec![sym("a")]), &list(vec![sym("b")])));
    assert!(!datum_eq(&sym("a"), &num(1)));
    let v1: Datum<()> = Datum::Vector(Rc::new(vec![num(1), num(2)]));
    let v2: Datum<()> = Datum::Vector(Rc::new(vec![num(1), num(2)]));
    let v3: Datum<()> = Datum::Vector(Rc::new(vec![num(1), num(3)]));
    assert!(datum_eq(&v1, &v2));
    assert!(!datum_eq(&v1, &v3));
}

#[test]
fn test_simple_datum() {
    let d: Datum<()> = sym("a");
    let s = SimpleDatum::from_datum(d).unwrap();
    assert!(s.equals(&sym("a")));
    assert!(!s.equals(&sym("b")));
    let back: Datum<()> = s.to_datum();
    assert!(datum_eq(&back, &sym("a")));
    let pair: Datum<()> = cons(sym("a"), sym("b"));
    assert!(SimpleDatum::from_datum(pair).is_none());
}

#[test]
fn test_quotation_of() {
    assert_eq!(quotation_of(&"quote".to_string()), Some(Quotation::Quote));
    assert_eq!(quotation_of(&"quasiquote".to_string()), Some(Quotation::QuasiQuote));
    assert_eq!(quotation_of(&"unquote".to_string()), Some(Quotation::Unquote));
    assert_eq!(quotation_of(&"lambda".to_string()), None);
}

#[test]
fn test_dup_shares_structure() {
    let d: Datum<()> = list(vec![sym("a"), sym("b")]);
    let d2 = d.dup();
    assert!(datum_eq(&d, &d2));
}

#[test]
fn test_char_fmt() {
    compare_fmt("#\\a", Datum::Char('a'));
    compare_fmt("#\\space", Datum::Char(' '));
    compare_fmt("#\\nul", Datum::Char('\0'));
    compare_fmt("#\\tab", Datum::Char('\t'));
    compare_fmt("#\\return", Datum::Char('\r'));
    compare_fmt("#\\xa", Datum::Char('\n'));
}

#[test]
fn test_string_fmt() {
    compare_fmt("\"hi\"", Datum::Str(Rc::new("hi".to_string())));
}

#[test]
fn test_number_fmt() {
    compare_fmt("3", num(3));
    compare_fmt("-7", num(-7));
    compare_fmt("1/2", Datum::Num(r6::number::from_rational(
        r6::rational::Rational::new(1, 2).unwrap(),
    )));
    compare_fmt("3+4i", Datum::Num(r6::number::exact(
        r6::rational::Rational::from_int(3),
        r6::rational::Rational::from_int(4),
    )));
    compare_fmt("3-4i", Datum::Num(r6::number::exact(
        r6::rational::Rational::from_int(3),
        r6::rational::Rational::from_int(-4),
    )));
    let _ = Number::zero();
}

#[test]
fn test_is_quote() {
    let tail: Datum<()> = list(vec![sym("x")]);
    match is_quote(&sym("quote"), &tail) {
        Some((q, v)) => {
            assert_eq!(q, Quotation::Quote);
            assert!(datum_eq(&v, &sym("x")));
        }
        None => panic!("expected the quote form"),
    }
    let long: Datum<()> = list(vec![sym("x"), sym("y")]);
    assert!(is_quote(&sym("quote"), &long).is_none());
    assert!(is_quote(&sym("lambda"), &tail).is_none());
    match is_quote(&sym("unquote"), &tail) {
        Some((q, _)) => assert_eq!(q, Quotation::Unquote),
        None => panic!("expected the unquote form"),
    }
}
