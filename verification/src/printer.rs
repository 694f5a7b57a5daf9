//! The canonical textual rendering of datums: cons chains print as lists
//! with dotted-pair fallback, the quotation forms print abbreviated, vectors
//! print as `#(...)`, byte vectors as `#vu8(...)`, and characters use named
//! escapes for the common control characters and hex escapes otherwise.

use vstd::prelude::*;
use crate::datum::{Datum, ExtData};
use crate::number::Number;
use crate::rational::Rational;
use crate::flt::{f_is_zero, fcmp_of, fdisplay_of, flt_cmp, flt_display};

verus! {

/// Relies on `String::push`: appending one character to the end.
pub assume_specification [ String::push ](s: &mut String, c: char)
    ensures
        final(s)@ == old(s)@.push(c),
;

/// The decimal digit character for a value below ten.
pub open spec fn dec_digit(d: nat) -> char {
    if d == 0 {
        '0'
    } else if d == 1 {
        '1'
    } else if d == 2 {
        '2'
    } else if d == 3 {
        '3'
    } else if d == 4 {
        '4'
    } else if d == 5 {
        '5'
    } else if d == 6 {
        '6'
    } else if d == 7 {
        '7'
    } else if d == 8 {
        '8'
    } else {
        '9'
    }
}

/// The decimal rendering of a natural number.
pub open spec fn dec_text(n: nat) -> Seq<char>
    decreases n,
{
    if n < 10 {
        seq![dec_digit(n)]
    } else {
        dec_text(n / 10).push(dec_digit(n % 10))
    }
}

/// The decimal rendering of an integer, with a leading minus when negative.
pub open spec fn int_text(n: int) -> Seq<char> {
    if n < 0 {
        seq!['-'] + dec_text((-n) as nat)
    } else {
        dec_text(n as nat)
    }
}

/// One decimal digit as text.
fn digit_str(d: u64) -> (r: String)
    requires
        d < 10,
    ensures
        r@ == seq![dec_digit(d as nat)],
{
    let s = match d {
        0 => "0",
        1 => "1",
        2 => "2",
        3 => "3",
        4 => "4",
        5 => "5",
        6 => "6",
        7 => "7",
        8 => "8",
        _ => "9",
    };
    proof {
        reveal_strlit("0");
        reveal_strlit("1");
        reveal_strlit("2");
        reveal_strlit("3");
        reveal_strlit("4");
        reveal_strlit("5");
        reveal_strlit("6");
        reveal_strlit("7");
        reveal_strlit("8");
        reveal_strlit("9");
        assert(s@ =~= seq![dec_digit(d as nat)]);
    }
    s.to_owned()
}

/// Decimal rendering of a natural machine number.
pub fn nat_to_text(n: u64) -> (r: String)
    ensures
        r@ == dec_text(n as nat),
    decreases n,
{
    if n < 10 {
        digit_str(n)
    } else {
        let mut s = nat_to_text(n / 10);
        let d = digit_str(n % 10);
        let r = s.concat(d.as_str());
        proof {
            assert(r@ =~= dec_text((n / 10) as nat).push(dec_digit((n % 10) as nat)));
        }
        r
    }
}

/// Decimal rendering of a signed machine number.
pub fn i64_to_text(n: i64) -> (r: String)
    ensures
        r@ == int_text(n as int),
{
    if n >= 0 {
        nat_to_text(n as u64)
    } else {
        let m: u64 = (-(n as i128)) as u64;
        let r = "-".to_owned().concat(nat_to_text(m).as_str());
        proof {
            reveal_strlit("-");
            assert(r@ =~= seq!['-'] + dec_text(m as nat));
        }
        r
    }
}

/// The rendering of an exact rational: the numerator, then `/` and the
/// denominator unless it is one.
pub open spec fn rat_text(q: Rational) -> Seq<char> {
    if q.den() == 1 {
        int_text(q.num())
    } else {
        int_text(q.num()) + seq!['/'] + dec_text(q.den() as nat)
    }
}

/// Render an exact rational.
pub fn rational_to_text(q: &Rational) -> (r: String)
    ensures
        r@ == rat_text(*q),
{
    proof {
        use_type_invariant(q);
        q.lemma_wf_props();
    }
    let num = q.numerator();
    let den = q.denominator();
    if den == 1 {
        i64_to_text(num)
    } else {
        let r = i64_to_text(num).concat("/").concat(nat_to_text(den as u64).as_str());
        proof {
            reveal_strlit("/");
            assert(r@ =~= int_text(q.num()) + seq!['/'] + dec_text(q.den() as nat));
        }
        r
    }
}

/// The rendering of a number: a real part alone when the imaginary part is
/// zero, the imaginary part with an `i` suffix when the real part is zero,
/// and otherwise both with a sign between (the imaginary part's own minus
/// serving as the sign when it is negative).
pub open spec fn num_text(n: Number) -> Seq<char> {
    match n {
        Number::Exact { re, im } => {
            if im.num() == 0 {
                rat_text(re)
            } else if re.num() == 0 {
                rat_text(im) + seq!['i']
            } else if im.num() < 0 {
                rat_text(re) + rat_text(im) + seq!['i']
            } else {
                rat_text(re) + seq!['+'] + rat_text(im) + seq!['i']
            }
        },
        Number::Inexact { re, im } => {
            if f_is_zero(im) {
                fdisplay_of(re)
            } else if f_is_zero(re) {
                fdisplay_of(im) + seq!['i']
            } else if fcmp_of(im, 0) == Some(-1i8) {
                fdisplay_of(re) + fdisplay_of(im) + seq!['i']
            } else {
                fdisplay_of(re) + seq!['+'] + fdisplay_of(im) + seq!['i']
            }
        },
    }
}

/// Render a number.
pub fn number_to_text(n: &Number) -> (r: String)
    ensures
        r@ == num_text(*n),
{
    proof {
        reveal_strlit("i");
        reveal_strlit("+");
    }
    match n {
        Number::Exact { re, im } => {
            if im.is_zero() {
                rational_to_text(re)
            } else if re.is_zero() {
                let r = rational_to_text(im).concat("i");
                proof {
                    assert(r@ =~= rat_text(*im) + seq!['i']);
                }
                r
            } else if im.numerator() < 0 {
                let r = rational_to_text(re).concat(rational_to_text(im).as_str()).concat("i");
                proof {
                    assert(r@ =~= rat_text(*re) + rat_text(*im) + seq!['i']);
                }
                r
            } else {
                let r = rational_to_text(re).concat("+").concat(
                    rational_to_text(im).as_str(),
                ).concat("i");
                proof {
                    assert(r@ =~= rat_text(*re) + seq!['+'] + rat_text(*im) + seq!['i']);
                }
                r
            }
        },
        Number::Inexact { re, im } => {
            if crate::flt::flt_is_zero(*im) {
                flt_display(*re)
            } else if crate::flt::flt_is_zero(*re) {
                let r = flt_display(*im).concat("i");
                proof {
                    assert(r@ =~= fdisplay_of(*im) + seq!['i']);
                }
                r
            } else {
                let neg = match flt_cmp(*im, 0) {
                    Some(c) => c == -1,
                    None => false,
                };
                if neg {
                    let r = flt_display(*re).concat(flt_display(*im).as_str()).concat("i");
                    proof {
                        assert(r@ =~= fdisplay_of(*re) + fdisplay_of(*im) + seq!['i']);
                    }
                    r
                } else {
                    let r = flt_display(*re).concat("+").concat(
                        flt_display(*im).as_str(),
                    ).concat("i");
                    proof {
                        assert(r@ =~= fdisplay_of(*re) + seq!['+'] + fdisplay_of(*im) + seq![
                            'i',
                        ]);
                    }
                    r
                }
            }
        },
    }
}

/// The hexadecimal digit character for a value below sixteen.
pub open spec fn hex_digit(d: nat) -> char {
    if d < 10 {
        dec_digit(d)
    } else if d == 10 {
        'a'
    } else if d == 11 {
        'b'
    } else if d == 12 {
        'c'
    } else if d == 13 {
        'd'
    } else if d == 14 {
        'e'
    } else {
        'f'
    }
}

/// The hexadecimal rendering of a natural number.
pub open spec fn hex_text(n: nat) -> Seq<char>
    decreases n,
{
    if n < 16 {
        seq![hex_digit(n)]
    } else {
        hex_text(n / 16).push(hex_digit(n % 16))
    }
}

/// One hexadecimal digit as text.
fn hex_digit_str(d: u32) -> (r: String)
    requires
        d < 16,
    ensures
        r@ == seq![hex_digit(d as nat)],
{
    if d < 10 {
        digit_str(d as u64)
    } else {
        let s = match d {
            10 => "a",
            11 => "b",
            12 => "c",
            13 => "d",
            14 => "e",
            _ => "f",
        };
        proof {
            reveal_strlit("a");
            reveal_strlit("b");
            reveal_strlit("c");
            reveal_strlit("d");
            reveal_strlit("e");
            reveal_strlit("f");
            assert(s@ =~= seq![hex_digit(d as nat)]);
        }
        s.to_owned()
    }
}

/// Hexadecimal rendering of a code point.
fn hex_to_text(n: u32) -> (r: String)
    ensures
        r@ == hex_text(n as nat),
    decreases n,
{
    if n < 16 {
        hex_digit_str(n)
    } else {
        let mut s = hex_to_text(n / 16);
        let d = hex_digit_str(n % 16);
        let r = s.concat(d.as_str());
        proof {
            assert(r@ =~= hex_text((n / 16) as nat).push(hex_digit((n % 16) as nat)));
        }
        r
    }
}

/// The rendering of a character: `#\` and then a name for the common
/// control characters, the character itself when printable, or a hex escape.
pub open spec fn char_text(c: char) -> Seq<char> {
    seq!['#', '\\'] + (if c == '\u{0}' {
        "nul"@
    } else if c == '\u{8}' {
        "backspace"@
    } else if c == '\t' {
        "tab"@
    } else if c == '\u{c}' {
        "page"@
    } else if c == '\r' {
        "return"@
    } else if c == ' ' {
        "space"@
    } else if 0x21 <= c as nat && c as nat <= 0x7e {
        seq![c]
    } else {
        seq!['x'] + hex_text(c as nat)
    })
}

/// Render a character.
pub fn char_to_text(c: char) -> (r: String)
    ensures
        r@ == char_text(c),
{
    proof {
        reveal_strlit("#\\");
        reveal_strlit("nul");
        reveal_strlit("backspace");
        reveal_strlit("tab");
        reveal_strlit("page");
        reveal_strlit("return");
        reveal_strlit("space");
        reveal_strlit("x");
    }
    let lead = "#\\".to_owned();
    proof {
        assert(lead@ =~= seq!['#', '\\']);
    }
    let code = c as u32;
    if code == 0 {
        let r = lead.concat("nul");
        proof {
            assert(r@ =~= char_text(c));
        }
        r
    } else if code == 8 {
        let r = lead.concat("backspace");
        proof {
            assert(r@ =~= char_text(c));
        }
        r
    } else if code == 9 {
        let r = lead.concat("tab");
        proof {
            assert(r@ =~= char_text(c));
        }
        r
    } else if code == 12 {
        let r = lead.concat("page");
        proof {
            assert(r@ =~= char_text(c));
        }
        r
    } else if code == 13 {
        let r = lead.concat("return");
        proof {
            assert(r@ =~= char_text(c));
        }
        r
    } else if code == 32 {
        let r = lead.concat("space");
        proof {
            assert(r@ =~= char_text(c));
        }
        r
    } else if 0x21 <= code && code <= 0x7e {
        let mut r = lead;
        r.push(c);
        proof {
            assert(r@ =~= char_text(c));
        }
        r
    } else {
        let r = lead.concat("x").concat(hex_to_text(code).as_str());
        proof {
            assert(r@ =~= char_text(c));
        }
        r
    }
}

/// The abbreviation that a quotation keyword prints as, if any.
pub open spec fn abbrev_text(s: Seq<char>) -> Option<Seq<char>> {
    if s == "quote"@ {
        Some(seq!['\''])
    } else if s == "quasiquote"@ {
        Some(seq!['`'])
    } else if s == "unquote"@ {
        Some(seq![','])
    } else if s == "unquote-splicing"@ {
        Some(seq![',', '@'])
    } else if s == "syntax"@ {
        Some(seq!['#', '\''])
    } else if s == "quasisyntax"@ {
        Some(seq!['#', '`'])
    } else if s == "unsyntax"@ {
        Some(seq!['#', ','])
    } else if s == "unsyntax-splicing"@ {
        Some(seq!['#', ',', '@'])
    } else {
        None
    }
}

/// Recognize a quotation keyword and hand back its abbreviation.
fn abbrev_of(s: &String) -> (r: Option<String>)
    ensures
        match r {
            Some(a) => abbrev_text(s@) == Some(a@),
            None => abbrev_text(s@) is None,
        },
{
    proof {
        reveal_strlit("'");
        reveal_strlit("`");
        reveal_strlit(",");
        reveal_strlit(",@");
        reveal_strlit("#'");
        reveal_strlit("#`");
        reveal_strlit("#,");
        reveal_strlit("#,@");
    }
    if *s == "quote".to_owned() {
        let a = "'".to_owned();
        proof {
            assert(a@ =~= seq!['\'']);
        }
        Some(a)
    } else if *s == "quasiquote".to_owned() {
        let a = "`".to_owned();
        proof {
            assert(a@ =~= seq!['`']);
        }
        Some(a)
    } else if *s == "unquote".to_owned() {
        let a = ",".to_owned();
        proof {
            assert(a@ =~= seq![',']);
        }
        Some(a)
    } else if *s == "unquote-splicing".to_owned() {
        let a = ",@".to_owned();
        proof {
            assert(a@ =~= seq![',', '@']);
        }
        Some(a)
    } else if *s == "syntax".to_owned() {
        let a = "#'".to_owned();
        proof {
            assert(a@ =~= seq!['#', '\'']);
        }
        Some(a)
    } else if *s == "quasisyntax".to_owned() {
        let a = "#`".to_owned();
        proof {
            assert(a@ =~= seq!['#', '`']);
        }
        Some(a)
    } else if *s == "unsyntax".to_owned() {
        let a = "#,".to_owned();
        proof {
            assert(a@ =~= seq!['#', ',']);
        }
        Some(a)
    } else if *s == "unsyntax-splicing".to_owned() {
        let a = "#,@".to_owned();
        proof {
            assert(a@ =~= seq!['#', ',', '@']);
        }
        Some(a)
    } else {
        None
    }
}

/// The canonical text of a datum.
pub open spec fn datum_text<T: ExtData>(d: Datum<T>) -> Seq<char>
    decreases d, 0int,
{
    match d {
        Datum::Sym(s) => s@,
        Datum::Bool(b) => if b {
            seq!['#', 't']
        } else {
            seq!['#', 'f']
        },
        Datum::Char(c) => char_text(c),
        Datum::Str(s) => seq!['"'] + s@ + seq!['"'],
        Datum::Vector(v) => seq!['#', '('] + elems_text(v@) + seq![')'],
        Datum::Bytes(b) => seq!['#', 'v', 'u', '8', '('] + bytes_text(b@) + seq![')'],
        Datum::Num(n) => num_text(n),
        Datum::Nil => seq!['(', ')'],
        Datum::Cons(rc) => {
            let abbrev = match rc.0 {
                Datum::Sym(s) => abbrev_text(s@),
                _ => None,
            };
            let single = match rc.1 {
                Datum::Cons(rc2) => if rc2.1 is Nil {
                    Some(rc2.0)
                } else {
                    None
                },
                _ => None,
            };
            if abbrev is Some && single is Some {
                abbrev.unwrap() + datum_text(single.unwrap())
            } else {
                seq!['('] + datum_text(rc.0) + cons_tail_text(rc.1)
            }
        },
        Datum::Ext(t) => t.text_spec(),
    }
}

/// The text of the tail of a cons chain: further elements separated by
/// spaces, a closing parenthesis at `()`, and dotted-pair syntax otherwise.
pub open spec fn cons_tail_text<T: ExtData>(d: Datum<T>) -> Seq<char>
    decreases d, 1int,
{
    match d {
        Datum::Nil => seq![')'],
        Datum::Cons(rc) => seq![' '] + datum_text(rc.0) + cons_tail_text(rc.1),
        _ => seq![' ', '.', ' '] + datum_text(d) + seq![')'],
    }
}

/// The text of vector elements, space-separated.
pub open spec fn elems_text<T: ExtData>(s: Seq<Datum<T>>) -> Seq<char>
    decreases s, 0int,
{
    if s.len() == 0 {
        Seq::empty()
    } else if s.len() == 1 {
        datum_text(s[0])
    } else {
        datum_text(s[0]) + seq![' '] + elems_text(s.subrange(1, s.len() as int))
    }
}

/// The text of byte-vector elements, space-separated.
pub open spec fn bytes_text(s: Seq<u8>) -> Seq<char>
    decreases s.len(),
{
    if s.len() == 0 {
        Seq::empty()
    } else if s.len() == 1 {
        dec_text(s[0] as nat)
    } else {
        dec_text(s[0] as nat) + seq![' '] + bytes_text(s.subrange(1, s.len() as int))
    }
}

/// Render the vector elements from index `i` on.
fn elems_to_text<T: ExtData>(v: &Vec<Datum<T>>, i: usize) -> (r: String)
    requires
        i <= v@.len(),
    ensures
        r@ == elems_text(v@.skip(i as int)),
    decreases v@.skip(i as int), 2int,
{
    let ghost s = v@.skip(i as int);
    if i == v.len() {
        let e = String::new();
        proof {
            assert(e@ =~= elems_text(s));
        }
        return e;
    }
    proof {
        assert(s[0] == v@[i as int]);
        assert(decreases_to!(s => s[0]));
    }
    let first = datum_to_text(&v[i]);
    if i + 1 == v.len() {
        proof {
            assert(first@ =~= elems_text(s));
        }
        return first;
    }
    proof {
        assert(v@.skip(i + 1 as int) =~= s.subrange(1, s.len() as int));
        assert(decreases_to!(s => s.subrange(1, s.len() as int)));
    }
    let rest = elems_to_text(v, i + 1);
    let r = first.concat(" ").concat(rest.as_str());
    proof {
        reveal_strlit(" ");
        assert(r@ =~= datum_text(v@[i as int]) + seq![' '] + elems_text(
            s.subrange(1, s.len() as int),
        ));
    }
    r
}

/// Render the byte-vector elements from index `i` on.
fn bytes_to_text(v: &Vec<u8>, i: usize) -> (r: String)
    requires
        i <= v@.len(),
    ensures
        r@ == bytes_text(v@.skip(i as int)),
    decreases v@.len() - i,
{
    let ghost s = v@.skip(i as int);
    if i == v.len() {
        let e = String::new();
        proof {
            assert(e@ =~= bytes_text(s));
        }
        return e;
    }
    proof {
        assert(s[0] == v@[i as int]);
    }
    let first = nat_to_text(v[i] as u64);
    if i + 1 == v.len() {
        proof {
            assert(first@ =~= bytes_text(s));
        }
        return first;
    }
    proof {
        assert(v@.skip(i + 1 as int) =~= s.subrange(1, s.len() as int));
    }
    let rest = bytes_to_text(v, i + 1);
    let r = first.concat(" ").concat(rest.as_str());
    proof {
        reveal_strlit(" ");
        assert(r@ =~= dec_text(v@[i as int] as nat) + seq![' '] + bytes_text(
            s.subrange(1, s.len() as int),
        ));
    }
    r
}

/// Render a datum in its canonical text.
pub fn datum_to_text<T: ExtData>(d: &Datum<T>) -> (r: String)
    ensures
        r@ == datum_text(*d),
    decreases *d, 0int,
{
    match d {
        Datum::Sym(s) => s.clone(),
        Datum::Bool(b) => {
            proof {
                reveal_strlit("#t");
                reveal_strlit("#f");
            }
            if *b {
                let r = "#t".to_owned();
                proof {
                    assert(r@ =~= seq!['#', 't']);
                }
                r
            } else {
                let r = "#f".to_owned();
                proof {
                    assert(r@ =~= seq!['#', 'f']);
                }
                r
            }
        },
        Datum::Char(c) => char_to_text(*c),
        Datum::Str(s) => {
            proof {
                reveal_strlit("\"");
            }
            let mut r = "\"".to_owned();
            let r2 = r.concat(s.as_str()).concat("\"");
            proof {
                assert(r2@ =~= seq!['"'] + s@ + seq!['"']);
            }
            r2
        },
        Datum::Vector(v) => {
            proof {
                reveal_strlit("#(");
                reveal_strlit(")");
                assert(v@.skip(0) =~= v@);
                assert(decreases_to!(*d => v@));
            }
            let inner = elems_to_text(v, 0);
            let r = "#(".to_owned().concat(inner.as_str()).concat(")");
            proof {
                assert(r@ =~= seq!['#', '('] + elems_text(v@) + seq![')']);
            }
            r
        },
        Datum::Bytes(b) => {
            proof {
                reveal_strlit("#vu8(");
                reveal_strlit(")");
                assert(b@.skip(0) =~= b@);
            }
            let inner = bytes_to_text(b, 0);
            let r = "#vu8(".to_owned().concat(inner.as_str()).concat(")");
            proof {
                assert(r@ =~= seq!['#', 'v', 'u', '8', '('] + bytes_text(b@) + seq![')']);
            }
            r
        },
        Datum::Num(n) => number_to_text(n),
        Datum::Nil => {
            proof {
                reveal_strlit("()");
            }
            let r = "()".to_owned();
            proof {
                assert(r@ =~= seq!['(', ')']);
            }
            r
        },
        Datum::Cons(rc) => {
            let abbrev = match &rc.0 {
                Datum::Sym(s) => abbrev_of(s),
                _ => None,
            };
            let single_ok = match &rc.1 {
                Datum::Cons(rc2) => matches!(&rc2.1, Datum::Nil),
                _ => false,
            };
            if single_ok {
                if let Some(a) = abbrev {
                    match &rc.1 {
                        Datum::Cons(rc2) => {
                            let r = a.concat(datum_to_text(&rc2.0).as_str());
                            proof {
                                assert(r@ =~= datum_text(*d));
                            }
                            return r;
                        },
                        _ => {},
                    }
                }
            }
            proof {
                reveal_strlit("(");
            }
            let r = "(".to_owned().concat(datum_to_text(&rc.0).as_str()).concat(
                cons_tail_to_text(&rc.1).as_str(),
            );
            proof {
                assert(r@ =~= seq!['('] + datum_text(rc.0) + cons_tail_text(rc.1));
            }
            r
        },
        Datum::Ext(t) => t.ext_text(),
    }
}

/// Render the tail of a cons chain.
fn cons_tail_to_text<T: ExtData>(d: &Datum<T>) -> (r: String)
    ensures
        r@ == cons_tail_text(*d),
    decreases *d, 1int,
{
    match d {
        Datum::Nil => {
            proof {
                reveal_strlit(")");
            }
            let r = ")".to_owned();
            proof {
                assert(r@ =~= seq![')']);
            }
            r
        },
        Datum::Cons(rc) => {
            proof {
                reveal_strlit(" ");
            }
            let r = " ".to_owned().concat(datum_to_text(&rc.0).as_str()).concat(
                cons_tail_to_text(&rc.1).as_str(),
            );
            proof {
                assert(r@ =~= seq![' '] + datum_text(rc.0) + cons_tail_text(rc.1));
            }
            r
        },
        _ => {
            proof {
                reveal_strlit(" . ");
                reveal_strlit(")");
            }
            let r = " . ".to_owned().concat(datum_to_text(d).as_str()).concat(")");
            proof {
                assert(r@ =~= seq![' ', '.', ' '] + datum_text(*d) + seq![')']);
            }
            r
        },
    }
}

} // verus!
