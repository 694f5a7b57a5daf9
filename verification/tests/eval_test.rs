use r6::datum::{cons, Datum};
use r6::error::Error;
use r6::number::{exact, from_flt, from_int, from_rational, inexact, Number};
use r6::printer::datum_to_text;
use r6::rational::Rational;
use r6::runtime::Runtime;
use r6::primitive::{PrimFunc, F1, F1Op};
use r6::value::{eqv_datum, RtData};

struct Parser {
    s: Vec<char>,
    i: usize,
}

impl Parser {
    fn new(src: &str) -> Parser {
        Parser { s: src.chars().collect(), i: 0 }
    }

    fn peek(&self) -> Option<char> {
        self.s.get(self.i).copied()
    }

    fn bump(&mut self) -> char {
        let c = self.s[self.i];
        self.i += 1;
        c
    }

    fn skip_ws(&mut self) {
        while let Some(c) = self.peek() {
            if c.is_whitespace() {
                self.i += 1;
            } else {
                break;
            }
        }
    }

    fn parse(&mut self) -> Datum<RtData> {
        self.skip_ws();
        match self.peek().expect("unexpected end of input") {
            '\'' => {
                self.bump();
                let x = self.parse();
                list2(Datum::Sym("quote".to_string()), x)
            }
            '`' => {
                self.bump();
                let x = self.parse();
                list2(Datum::Sym("quasiquote".to_string()), x)
            }
            ',' => {
                self.bump();
                if self.peek() == Some('@') {
                    self.bump();
                    let x = self.parse();
                    list2(Datum::Sym("unquote-splicing".to_string()), x)
                } else {
                    let x = self.parse();
                    list2(Datum::Sym("unquote".to_string()), x)
                }
            }
            '(' => {
                self.bump();
                self.parse_list()
            }
            '"' => {
                self.bump();
                let mut t = String::new();
                while self.peek() != Some('"') {
                    t.push(self.bump());
                }
                self.bump();
                Datum::Str(std::rc::Rc::new(t))
            }
            '#' => {
                self.bump();
                match self.peek().expect("lone #") {
                    't' => {
                        self.bump();
                        Datum::Bool(true)
                    }
                    'f' => {
                        self.bump();
                        Datum::Bool(false)
                    }
                    '(' => {
                        self.bump();
                        let mut items = Vec::new();
                        loop {
                            self.skip_ws();
                            if self.peek() == Some(')') {
                                self.bump();
                                break;
                            }
                            items.push(self.parse());
                        }
                        Datum::Vector(std::rc::Rc::new(items))
                    }
                    'e' => {
                        self.bump();
                        let a = self.atom();
                        Datum::Num(parse_exact_real(&a))
                    }
                    c => panic!("unsupported # syntax: {}", c),
                }
            }
            _ => {
                let a = self.atom();
                match parse_number(&a) {
                    Some(n) => Datum::Num(n),
                    None => Datum::Sym(a),
                }
            }
        }
    }

    fn parse_list(&mut self) -> Datum<RtData> {
        let mut items: Vec<Datum<RtData>> = Vec::new();
        let mut tail: Datum<RtData> = Datum::Nil;
        loop {
            self.skip_ws();
            match self.peek().expect("unterminated list") {
                ')' => {
                    self.bump();
                    break;
                }
                '.' => {
                    // A lone dot introduces the improper tail; a dot inside
                    // a number or symbol is handled by the atom reader.
                    if self.s.get(self.i + 1).map_or(true, |c| c.is_whitespace()) {
                        self.bump();
                        tail = self.parse();
                        self.skip_ws();
                        assert_eq!(self.bump(), ')');
                        break;
                    } else {
                        items.push(self.parse());
                    }
                }
                _ => items.push(self.parse()),
            }
        }
        let mut out = tail;
        for d in items.into_iter().rev() {
            out = cons(d, out);
        }
        out
    }

    fn atom(&mut self) -> String {
        let mut a = String::new();
        while let Some(c) = self.peek() {
            if c.is_whitespace() || c == '(' || c == ')' || c == '\'' || c == '`' || c == ',' {
                break;
            }
            a.push(self.bump());
        }
        a
    }
}

fn list2(a: Datum<RtData>, b: Datum<RtData>) -> Datum<RtData> {
    cons(a, cons(b, Datum::Nil))
}

fn parse_exact_real(s: &str) -> Number {
    if let Some(ix) = s.find('/') {
        let n: i64 = s[..ix].parse().unwrap();
        let d: i64 = s[ix + 1..].parse().unwrap();
        from_rational(Rational::new(n, d).unwrap())
    } else if s.contains('.') || s.contains('e') || s.contains('E') {
        from_rational(decimal_to_rational(s))
    } else {
        from_int(s.parse().unwrap())
    }
}

fn decimal_to_rational(s: &str) -> Rational {
    let (mant, exp) = match s.find(|c| c == 'e' || c == 'E') {
        Some(ix) => (&s[..ix], s[ix + 1..].parse::<i32>().unwrap()),
        None => (s, 0),
    };
    let (num, mut den) = match mant.find('.') {
        Some(ix) => {
            let whole = &mant[..ix];
            let frac = &mant[ix + 1..];
            let digits: String = format!("{}{}", whole, frac);
            (digits.parse::<i64>().unwrap(), 10i64.pow(frac.len() as u32))
        }
        None => (mant.parse::<i64>().unwrap(), 1),
    };
    let mut num = num;
    if exp >= 0 {
        num *= 10i64.pow(exp as u32);
    } else {
        den *= 10i64.pow((-exp) as u32);
    }
    Rational::new(num, den).unwrap()
}

fn parse_real_part(s: &str) -> Option<(bool, Rational, u64)> {
    // Returns (is_exact, exact value or zero, bits when inexact).
    if s.is_empty() || s == "+" || s == "-" {
        return None;
    }
    if let Some(ix) = s.find('/') {
        let n: i64 = s[..ix].parse().ok()?;
        let d: i64 = s[ix + 1..].parse().ok()?;
        return Some((true, Rational::new(n, d)?, 0));
    }
    if s.contains('.') {
        let v: f64 = s.parse().ok()?;
        return Some((false, Rational::from_int(0), v.to_bits()));
    }
    let n: i64 = s.parse().ok()?;
    Some((true, Rational::from_int(n), 0))
}

fn parse_number(s: &str) -> Option<Number> {
    if s.ends_with('i') {
        let body = &s[..s.len() - 1];
        let mut split = None;
        for (ix, c) in body.char_indices().skip(1) {
            if (c == '+' || c == '-') && !matches!(body.as_bytes()[ix - 1], b'e' | b'E') {
                split = Some(ix);
            }
        }
        let ix = split?;
        let (re_s, im_s) = (&body[..ix], &body[ix..]);
        let re = parse_real_part(re_s)?;
        let im = parse_real_part(im_s)?;
        if re.0 && im.0 {
            return Some(exact(re.1, im.1));
        }
        let reb = if re.0 { rational_bits(&re.1) } else { re.2 };
        let imb = if im.0 { rational_bits(&im.1) } else { im.2 };
        return Some(inexact(reb, imb));
    }
    let p = parse_real_part(s)?;
    if p.0 {
        Some(from_rational(p.1))
    } else {
        Some(from_flt(p.2))
    }
}

fn rational_bits(q: &Rational) -> u64 {
    ((q.numerator() as f64) / (q.denominator() as f64)).to_bits()
}

fn parse_datum(src: &str) -> Datum<RtData> {
    let mut p = Parser::new(src);
    let d = p.parse();
    p.skip_ws();
    assert_eq!(p.i, p.s.len(), "trailing input in {:?}", src);
    d
}

fn eval_datum(d: &Datum<RtData>) -> Result<Datum<RtData>, Error> {
    let mut rt = Runtime::new_std();
    rt.eval(d, 0, 1_000_000)
}

fn eval_str(src: &str) -> Result<Datum<RtData>, Error> {
    eval_datum(&parse_datum(src))
}

fn describe(r: &Result<Datum<RtData>, Error>) -> String {
    match r {
        Ok(d) => format!("value {}", datum_to_text(d)),
        Err(e) => format!("error {:?}", e),
    }
}

fn eval_test(src: &str, expected_src: &str) {
    let expected = parse_datum(expected_src);
    let got = eval_str(src).unwrap_or_else(|e| panic!("{:?} failed: {:?}", src, e));
    assert!(
        eqv_datum(&got, &expected),
        "{:?}: expected {}, got {}",
        src,
        datum_to_text(&expected),
        datum_to_text(&got)
    );
}

#[test]
fn add_test() {
    eval_test("(+ 1 2)", "3");
}

#[test]
fn mul_test() {
    eval_test("(* 1 2 3)", "6");
}

#[test]
fn quote_test() {
    eval_test("'(a b)", "(a b)");
}

#[test]
fn quote_macro_test() {
    eval_test("(quote (a b))", "(a b)");
}

#[test]
fn car_test() {
    eval_test("(car '(a b))", "a");
}

#[test]
fn cdr_test() {
    eval_test("(cdr '(a b))", "(b)");
}

#[test]
fn if_true_test() {
    eval_test("(if #t 1 0)", "1");
}

#[test]
fn if_false_test() {
    eval_test("(if #f 1 0)", "0");
}

#[test]
fn lambda_test() {
    eval_test("((lambda (x y) (+ x y)) 1 2)", "3");
}

#[test]
fn quasiquote_test() {
    eval_test("`(list ,(+ 1 2) 4)", "(list 3 4)");
}

#[test]
fn nested_quasiquote_test() {
    eval_test(
        "`(a `(b ,(+ 1 2) ,(foo ,(+ 1 3) d) e) f)",
        "(a `(b ,(+ 1 2) ,(foo 4 d) e) f)",
    );
}

#[test]
fn lexical_scoping_test() {
    let src = "((lambda (y f) (f 2)) 'dyn ((lambda (y) (lambda (x) y)) 'lex))";
    eval_test(src, "lex");
}

#[test]
fn eqv_test() {
    eval_test("(eqv? 3 (+ 1 2))", "#t");
}

#[test]
fn set_test() {
    eval_test("((lambda (x) (set! x 'mut) x) 'immut)", "mut");
}

#[test]
fn varargs_test() {
    eval_test("((lambda (a b . c) `(,(+ a b) . ,c)) 1 2 3 4)", "(3 3 4)");
}

#[test]
fn define_val_test() {
    eval_test("((lambda () (define a 2) (+ a 1)))", "3");
}

#[test]
fn define_fun_test() {
    eval_test("((lambda () (define (list . a) a) (list 1 2)))", "(1 2)");
}

#[test]
fn begin_test() {
    eval_test("(begin (+ 1 2) (+ 2 3))", "5");
}

#[test]
fn num_fun_test() {
    eval_test("(number? 3)", "#t");
    eval_test("(number? 3+4i)", "#t");
    eval_test("(real? 3)", "#t");
    eval_test("(real? -2.5+0.0i)", "#t");
    eval_test("(real? #e1e10)", "#t");
    eval_test("(integer? 3+0i)", "#t");
    eval_test("(integer? 3.0)", "#t");
    eval_test("(integer? 8/4)", "#t");
}

#[test]
fn num_cmp_test() {
    eval_test("(< 1 2 3)", "#t");
    eval_test("(< 1 2 2)", "#f");
    eval_test("(<= 1.0 2.0 3.0)", "#t");
    eval_test("(<= 1.0 2.0 2.0)", "#t");
    eval_test("(= #e2 #e4/2 #e2.0)", "#t");
    eval_test("(> 1 2 3)", "#f");
}

#[test]
fn unbound_variable_test() {
    match eval_str("nowhere") {
        Err(Error::UnboundVariable(name)) => assert_eq!(name, "nowhere"),
        other => panic!("expected unbound variable, got {}", describe(&other)),
    }
}

#[test]
fn set_unbound_test() {
    match eval_str("(set! nowhere 1)") {
        Err(Error::UnboundVariable(name)) => assert_eq!(name, "nowhere"),
        other => panic!("expected unbound variable, got {}", describe(&other)),
    }
}

#[test]
fn divide_by_exact_zero_test() {
    match eval_str("(/ 1 0)") {
        Err(Error::DivideByZeroError) => (),
        other => panic!("expected divide-by-zero, got {}", describe(&other)),
    }
}

#[test]
fn divide_by_inexact_zero_test() {
    // Complex division by an inexact zero follows IEEE semantics and
    // produces a NaN here (the complex quotient formula divides 0 by 0),
    // rather than failing.
    let got = eval_str("(/ 1.0 0.0)").unwrap();
    match got {
        Datum::Num(n) => {
            let (re, _) = n.to_inexact();
            assert!(f64::from_bits(re).is_nan());
        }
        other => panic!("expected a number, got {}", datum_to_text(&other)),
    }
}

#[test]
fn nil_eval_test() {
    match eval_str("()") {
        Err(Error::NilEval) => (),
        other => panic!("expected nil-eval error, got {}", describe(&other)),
    }
}

#[test]
fn not_callable_test() {
    match eval_str("(1 2)") {
        Err(Error::NotCallable) => (),
        other => panic!("expected not-callable, got {}", describe(&other)),
    }
}

#[test]
fn not_list_test() {
    match eval_str("(car . 5)") {
        Err(Error::NotList) => (),
        other => panic!("expected not-list, got {}", describe(&other)),
    }
}

#[test]
fn car_type_error_test() {
    match eval_str("(car 5)") {
        Err(Error::TypeError) => (),
        other => panic!("expected type error, got {}", describe(&other)),
    }
}

#[test]
fn arg_num_error_test() {
    match eval_str("(car '(a) '(b))") {
        Err(Error::ArgNumError) => (),
        other => panic!("expected argument-count error, got {}", describe(&other)),
    }
}

#[test]
fn inexact_arith_test() {
    // (+ 1.0 2.0) follows IEEE double addition bit for bit.
    let got = eval_str("(+ 1.0 2.0)").unwrap();
    match got {
        Datum::Num(n) => {
            let (re, im) = n.to_inexact();
            assert_eq!(re, 3.0f64.to_bits());
            assert_eq!(im, 0.0f64.to_bits());
        }
        other => panic!("expected a number, got {}", datum_to_text(&other)),
    }
}

#[test]
fn contagion_eval_test() {
    // An inexact operand makes the sum inexact; all-exact stays exact.
    match eval_str("(exact? (+ 1 2))").unwrap() {
        Datum::Bool(b) => assert!(b),
        _ => panic!("expected a boolean"),
    }
    match eval_str("(inexact? (+ 1 2.0))").unwrap() {
        Datum::Bool(b) => assert!(b),
        _ => panic!("expected a boolean"),
    }
}

#[test]
fn exact_rational_arith_test() {
    eval_test("(+ 1/3 1/6)", "1/2");
    eval_test("(/ 1 3)", "1/3");
    eval_test("(- 5/6 1/3)", "1/2");
    eval_test("(* 2/3 3/4)", "1/2");
}

#[test]
fn zero_pred_test() {
    // `zero?` is registered through the adapter framework.
    let z = F1 { op: F1Op::F1Zero };
    match z.call(vec![Datum::Num(from_int(0))]) {
        Ok(Datum::Bool(b)) => assert!(b),
        _ => panic!("expected #t"),
    }
    match z.call(vec![Datum::Num(from_flt(0.0f64.to_bits()))]) {
        Ok(Datum::Bool(b)) => assert!(b),
        _ => panic!("expected #t"),
    }
    match z.call(vec![Datum::Num(from_int(1))]) {
        Ok(Datum::Bool(b)) => assert!(!b),
        _ => panic!("expected #f"),
    }
    match z.call(vec![Datum::Sym("a".to_string())]) {
        Err(Error::TypeError) => (),
        _ => panic!("expected a type error"),
    }
}

#[test]
fn prelude_shadowing_test() {
    // User bindings shadow primitives, as the registry is consulted by the
    // same lookup as user code.
    eval_test("((lambda (+) (+ 9)) (lambda (x) x))", "9");
}

#[test]
fn eval_primitive_test() {
    eval_test("(eval ''(a b))", "(a b)");
    eval_test("(eval '(+ 1 2))", "3");
}

#[test]
fn print_parse_round_trip_test() {
    // Parsing the printed form of a non-extension datum reproduces an
    // equal datum.
    for src in [
        "a",
        "(a b)",
        "(a . b)",
        "(a (b c) . d)",
        "#t",
        "#f",
        "3",
        "-7",
        "1/2",
        "3+4i",
        "#(1 2 (3 4))",
        "\"hello\"",
        "'(a b)",
        "`(a ,b ,@c)",
    ] {
        let d = parse_datum(src);
        let printed = datum_to_text(&d);
        let reparsed = parse_datum(&printed);
        assert!(
            eqv_datum(&d, &reparsed),
            "round trip failed for {:?} -> {:?}",
            src,
            printed
        );
    }
}

#[test]
fn splice_test() {
    eval_test("`(1 ,@'(2 3) 4)", "(1 2 3 4)");
    eval_test("`(,@'(1) . 2)", "(1 . 2)");
}

#[test]
fn splice_not_list_test() {
    match eval_str("`(a ,@5 b)") {
        Err(Error::NotList) => (),
        other => panic!("expected not-list, got {}", describe(&other)),
    }
}

#[test]
fn empty_begin_test() {
    eval_test("(begin)", "()");
}

#[test]
fn if_without_alternative_test() {
    eval_test("(if #f 1)", "()");
}

#[test]
fn fully_variadic_lambda_test() {
    eval_test("((lambda args args) 1 2)", "(1 2)");
}

#[test]
fn closure_arity_test() {
    match eval_str("((lambda (x y) x) 1)") {
        Err(Error::ArgNumError) => (),
        other => panic!("expected argument-count error, got {}", describe(&other)),
    }
}

#[test]
fn depth_limit_test() {
    let d = parse_datum("(+ 1 (+ 2 (+ 3 4)))");
    let mut rt = Runtime::new_std();
    match rt.eval(&d, 0, 3) {
        Err(Error::DepthLimit) => (),
        other => panic!("expected the depth limit, got {}", describe(&other)),
    }
    let mut rt2 = Runtime::new_std();
    assert!(rt2.eval(&d, 0, 1_000).is_ok());
}

#[test]
fn define_begin_test() {
    // `begin` is an ordinary primitive: its operands are evaluated left to
    // right, so a define among them takes effect before later operands.
    eval_test("(begin (define x 5) x)", "5");
}

#[test]
fn equal_test() {
    eval_test("(equal? '(a (b)) '(a (b)))", "#t");
    eval_test("(equal? '(a) '(b))", "#f");
    eval_test("(eqv? car car)", "#t");
    eval_test("(eqv? car cdr)", "#f");
}

#[test]
fn overflow_reported_test() {
    match eval_str("(+ 9223372036854775807 1)") {
        Err(Error::Overflow) => (),
        other => panic!("expected the overflow report, got {}", describe(&other)),
    }
}
