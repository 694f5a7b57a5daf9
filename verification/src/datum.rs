//! The S-expression value representation shared by parser, evaluator and
//! printer. Cons cells and other compound payloads are reference-counted and
//! never mutated after construction, so structure is shared freely; `set!`
//! rebinds variables in environments and never mutates a datum.

use vstd::prelude::*;
use std::rc::Rc;
use crate::number::Number;

verus! {

/// The mathematical image of a datum, generic over the image of the
/// extension slot.
pub enum Dat<E> {
    Sym(Seq<char>),
    Bool(bool),
    Char(char),
    Str(Seq<char>),
    Vector(Seq<Dat<E>>),
    Bytes(Seq<u8>),
    Num(Number),
    Nil,
    Cons(Box<Dat<E>>, Box<Dat<E>>),
    Ext(E),
}

/// A datum: symbol, boolean, character, string, vector, byte vector, number,
/// the empty list, a pair, or an extension value of the embedding (runtime
/// values such as procedures, which the parser never produces).
#[derive(Debug)]
pub enum Datum<T> {
    /// Symbol; equality is by content.
    Sym(String),
    /// Boolean.
    Bool(bool),
    /// Character.
    Char(char),
    /// String.
    Str(Rc<String>),
    /// Vector of datums.
    Vector(Rc<Vec<Datum<T>>>),
    /// Byte vector.
    Bytes(Rc<Vec<u8>>),
    /// Number of the tower.
    Num(Number),
    /// The empty list.
    Nil,
    /// A pair; head and tail are shared by reference count.
    Cons(Rc<(Datum<T>, Datum<T>)>),
    /// Extension slot for runtime-only values.
    Ext(T),
}

/// Extension payloads of a datum: duplicable exactly, comparable, and with a
/// mathematical image.
pub trait ExtData: DeepView + Sized {
    /// What equality of two extension values means.
    spec fn eq_spec(&self, other: &Self) -> bool;

    /// An exact duplicate (a shared handle or a copy).
    fn dup(&self) -> (r: Self)
        ensures
            r == *self,
    ;

    /// Equality test matching `eq_spec`.
    fn ext_eq(&self, other: &Self) -> (r: bool)
        ensures
            r == self.eq_spec(other),
    ;

    /// The printed form of an extension value.
    spec fn text_spec(&self) -> Seq<char>;

    /// Render an extension value.
    fn ext_text(&self) -> (r: String)
        ensures
            r@ == self.text_spec(),
    ;
}

impl ExtData for () {
    open spec fn eq_spec(&self, other: &()) -> bool {
        true
    }

    fn dup(&self) -> (r: ()) {
        ()
    }

    fn ext_eq(&self, other: &()) -> (r: bool) {
        true
    }

    open spec fn text_spec(&self) -> Seq<char> {
        "#<ext>"@
    }

    fn ext_text(&self) -> (r: String) {
        "#<ext>".to_owned()
    }
}

/// The mathematical image of a datum.
pub open spec fn dat_view<T: DeepView>(d: Datum<T>) -> Dat<T::V>
    decreases d,
{
    match d {
        Datum::Sym(s) => Dat::Sym(s@),
        Datum::Bool(b) => Dat::Bool(b),
        Datum::Char(c) => Dat::Char(c),
        Datum::Str(s) => Dat::Str(s@),
        Datum::Vector(v) => Dat::Vector(
            Seq::new(
                v@.len(),
                |i: int|
                    if 0 <= i < v@.len() {
                        dat_view(v@[i])
                    } else {
                        Dat::Nil
                    },
            ),
        ),
        Datum::Bytes(b) => Dat::Bytes(b@),
        Datum::Num(n) => Dat::Num(n),
        Datum::Nil => Dat::Nil,
        Datum::Cons(rc) => Dat::Cons(Box::new(dat_view(rc.0)), Box::new(dat_view(rc.1))),
        Datum::Ext(t) => Dat::Ext(t.deep_view()),
    }
}

impl<T: DeepView> DeepView for Datum<T> {
    type V = Dat<T::V>;

    open spec fn deep_view(&self) -> Dat<T::V> {
        dat_view(*self)
    }
}

/// Shares a reference-counted payload. Relies on `Rc::clone`, which hands
/// back a handle to the same value.
#[verifier::external_body]
pub(crate) fn rc_clone<T>(rc: &Rc<T>) -> (r: Rc<T>)
    ensures
        r == *rc,
{
    Rc::clone(rc)
}

impl<T: ExtData> Datum<T> {
    /// An exact duplicate sharing all compound payloads.
    pub fn dup(&self) -> (r: Self)
        ensures
            r == *self,
    {
        match self {
            Datum::Sym(s) => Datum::Sym(s.clone()),
            Datum::Bool(b) => Datum::Bool(*b),
            Datum::Char(c) => Datum::Char(*c),
            Datum::Str(s) => Datum::Str(rc_clone(s)),
            Datum::Vector(v) => Datum::Vector(rc_clone(v)),
            Datum::Bytes(b) => Datum::Bytes(rc_clone(b)),
            Datum::Num(n) => Datum::Num(*n),
            Datum::Nil => Datum::Nil,
            Datum::Cons(rc) => Datum::Cons(rc_clone(rc)),
            Datum::Ext(t) => Datum::Ext(t.dup()),
        }
    }
}

/// `cons` the values into a pair.
pub fn cons<T: DeepView>(head: Datum<T>, tail: Datum<T>) -> (r: Datum<T>)
    ensures
        (r matches Datum::Cons(rc) && rc.0 == head && rc.1 == tail),
        dat_view(r) == Dat::Cons(Box::new(dat_view(head)), Box::new(dat_view(tail))),
{
    Datum::Cons(Rc::new((head, tail)))
}

/// Structural, by-value equality of two datums; extension values compare by
/// their own rule.
pub open spec fn dat_eq_spec<T: ExtData>(a: Datum<T>, b: Datum<T>) -> bool
    decreases a,
{
    match (a, b) {
        (Datum::Sym(x), Datum::Sym(y)) => x@ == y@,
        (Datum::Bool(x), Datum::Bool(y)) => x == y,
        (Datum::Char(x), Datum::Char(y)) => x == y,
        (Datum::Str(x), Datum::Str(y)) => x@ == y@,
        (Datum::Vector(x), Datum::Vector(y)) => dats_eq_spec(x@, y@),
        (Datum::Bytes(x), Datum::Bytes(y)) => x@ == y@,
        (Datum::Num(x), Datum::Num(y)) => x == y,
        (Datum::Nil, Datum::Nil) => true,
        (Datum::Cons(x), Datum::Cons(y)) => dat_eq_spec(x.0, y.0) && dat_eq_spec(x.1, y.1),
        (Datum::Ext(x), Datum::Ext(y)) => x.eq_spec(&y),
        _ => false,
    }
}

/// Elementwise structural equality of two datum sequences.
pub open spec fn dats_eq_spec<T: ExtData>(x: Seq<Datum<T>>, y: Seq<Datum<T>>) -> bool
    decreases x,
{
    if x.len() != y.len() {
        false
    } else if x.len() == 0 {
        true
    } else {
        dat_eq_spec(x[0], y[0]) && dats_eq_spec(x.subrange(1, x.len() as int), y.subrange(1, y.len() as int))
    }
}

/// Compare two byte vectors.
pub fn bytes_eq(a: &Vec<u8>, b: &Vec<u8>) -> (r: bool)
    ensures
        r == (a@ == b@),
{
    if a.len() != b.len() {
        proof {
            assert(a@ != b@);
        }
        return false;
    }
    let n = a.len();
    let mut i: usize = 0;
    while i < n
        invariant
            n == a.len() == b.len(),
            0 <= i <= n,
            forall|j: int| 0 <= j < i ==> a@[j] == b@[j],
        decreases n - i,
    {
        if a[i] != b[i] {
            proof {
                assert(a@[i as int] != b@[i as int]);
            }
            return false;
        }
        i = i + 1;
    }
    proof {
        assert(a@ =~= b@);
    }
    true
}

/// Compare two datum vectors from the given index on.
fn datums_eq_from<T: ExtData>(x: &Vec<Datum<T>>, y: &Vec<Datum<T>>, i: usize) -> (r: bool)
    requires
        i <= x@.len(),
        i <= y@.len(),
    ensures
        r == dats_eq_spec(x@.skip(i as int), y@.skip(i as int)),
    decreases x@.skip(i as int),
{
    let ghost xs = x@.skip(i as int);
    let ghost ys = y@.skip(i as int);
    if x.len() - i != y.len() - i {
        return false;
    }
    if i == x.len() {
        return true;
    }
    proof {
        assert(xs[0] == x@[i as int]);
        assert(decreases_to!(xs => xs[0]));
    }
    if !datum_eq(&x[i], &y[i]) {
        return false;
    }
    proof {
        assert(x@.skip(i + 1 as int) =~= xs.subrange(1, xs.len() as int));
        assert(y@.skip(i + 1 as int) =~= ys.subrange(1, ys.len() as int));
        assert(decreases_to!(xs => xs.subrange(1, xs.len() as int)));
    }
    datums_eq_from(x, y, i + 1)
}

/// Structural equality by value, not identity.
pub fn datum_eq<T: ExtData>(a: &Datum<T>, b: &Datum<T>) -> (r: bool)
    ensures
        r == dat_eq_spec(*a, *b),
    decreases *a,
{
    match (a, b) {
        (Datum::Sym(x), Datum::Sym(y)) => *x == *y,
        (Datum::Bool(x), Datum::Bool(y)) => *x == *y,
        (Datum::Char(x), Datum::Char(y)) => *x == *y,
        (Datum::Str(x), Datum::Str(y)) => **x == **y,
        (Datum::Vector(x), Datum::Vector(y)) => {
            proof {
                assert(x@.skip(0) =~= x@);
                assert(y@.skip(0) =~= y@);
                assert(decreases_to!(*a => x@));
            }
            let r0 = datums_eq_from(x, y, 0);
            proof {
                assert(r0 == dats_eq_spec(x@, y@));
            }
            r0
        },
        (Datum::Bytes(x), Datum::Bytes(y)) => bytes_eq(x, y),
        (Datum::Num(x), Datum::Num(y)) => *x == *y,
        (Datum::Nil, Datum::Nil) => true,
        (Datum::Cons(x), Datum::Cons(y)) => datum_eq(&x.0, &y.0) && datum_eq(&x.1, &y.1),
        (Datum::Ext(x), Datum::Ext(y)) => x.ext_eq(y),
        _ => false,
    }
}

/// The elements along the cons spine, up to the first non-pair.
pub open spec fn improper_elems<T: DeepView>(d: Datum<T>) -> Seq<Datum<T>>
    decreases d,
{
    match d {
        Datum::Cons(rc) => seq![rc.0].add(improper_elems(rc.1)),
        _ => Seq::empty(),
    }
}

/// The terminator of the cons spine: `None` for a proper list, the final
/// non-nil tail otherwise.
pub open spec fn improper_tail<T: DeepView>(d: Datum<T>) -> Option<Datum<T>>
    decreases d,
{
    match d {
        Datum::Cons(rc) => improper_tail(rc.1),
        Datum::Nil => None,
        _ => Some(d),
    }
}

impl<T: ExtData> Datum<T> {
    /// Collect the cons spine: the elements up to the first non-pair, and
    /// the terminator if it is not `()`.
    pub fn improper_list(&self) -> (r: (Vec<Datum<T>>, Option<Datum<T>>))
        ensures
            r.0@ == improper_elems(*self),
            r.1 == improper_tail(*self),
    {
        let mut list: Vec<Datum<T>> = Vec::new();
        let mut cur: Datum<T> = self.dup();
        loop
            invariant
                improper_elems(*self) == list@ + improper_elems(cur),
                improper_tail(*self) == improper_tail(cur),
            decreases cur,
        {
            let next = match &cur {
                Datum::Cons(rc) => {
                    let h = rc.0.dup();
                    let t = rc.1.dup();
                    list.push(h);
                    proof {
                        assert(improper_elems(*self) =~= list@ + improper_elems(t));
                    }
                    t
                },
                Datum::Nil => {
                    proof {
                        assert(improper_elems(*self) =~= list@);
                    }
                    return (list, None);
                },
                _ => {
                    proof {
                        assert(improper_elems(*self) =~= list@);
                    }
                    return (list, Some(cur));
                },
            };
            cur = next;
        }
    }

    /// The elements of a proper list; `None` for anything else.
    pub fn to_list(&self) -> (r: Option<Vec<Datum<T>>>)
        ensures
            match r {
                Some(v) => v@ == improper_elems(*self) && improper_tail(*self) is None,
                None => improper_tail(*self) is Some,
            },
    {
        let (list, tail) = self.improper_list();
        match tail {
            None => Some(list),
            Some(_) => None,
        }
    }

    /// Iterate the values of a proper list lazily.
    pub fn iter(&self) -> (r: DatumIter<T>)
        ensures
            r.ptr == *self,
    {
        DatumIter { ptr: self.dup() }
    }
}

/// A lazy, finite, non-restartable walk over a proper list. The first time a
/// non-nil, non-pair tail is reached, an error marker is yielded instead of
/// a value.
pub struct DatumIter<T> {
    /// What remains to be walked.
    pub ptr: Datum<T>,
}

impl<T: ExtData> DatumIter<T> {
    /// The next element: `None` at the end of a proper list, `Some(Err(()))`
    /// at an improper tail, else the head and the iterator moves to the tail.
    pub fn next(&mut self) -> (r: Option<Result<Datum<T>, ()>>)
        ensures
            match old(self).ptr {
                Datum::Nil => r is None && final(self).ptr == old(self).ptr,
                Datum::Cons(rc) => r == Some(Result::<Datum<T>, ()>::Ok(rc.0)) && final(self).ptr
                    == rc.1,
                _ => r == Some(Result::<Datum<T>, ()>::Err(())) && final(self).ptr == old(
                    self,
                ).ptr,
            },
    {
        let (val, next) = match &self.ptr {
            Datum::Nil => {
                return None;
            },
            Datum::Cons(rc) => (rc.0.dup(), rc.1.dup()),
            _ => {
                return Some(Err(()));
            },
        };
        self.ptr = next;
        Some(Ok(val))
    }
}

/// Append `y` to the proper list `x`, sharing `y` and the elements of `x`.
pub fn concat<T: ExtData>(x: Datum<T>, y: Datum<T>) -> (r: Result<Datum<T>, ()>)
    ensures
        match r {
            Ok(d) => improper_tail(x) is None && dat_view(d) == concat_dat(dat_view(x), dat_view(y)),
            Err(e) => improper_tail(x) is Some,
        },
    decreases x,
{
    match x {
        Datum::Nil => Ok(y),
        Datum::Cons(rc) => {
            let h = rc.0.dup();
            match concat(rc.1.dup(), y) {
                Ok(new_y) => Ok(cons(h, new_y)),
                Err(e) => Err(e),
            }
        },
        _ => Err(()),
    }
}

/// Concatenation on images: prepend the elements of the proper list `x` to `y`.
pub open spec fn concat_dat<E>(x: Dat<E>, y: Dat<E>) -> Dat<E>
    decreases x,
{
    match x {
        Dat::Cons(h, t) => Dat::Cons(h, Box::new(concat_dat(*t, y))),
        _ => y,
    }
}

/// The quotation forms whose two-element lists print abbreviated.
#[derive(Clone, Copy, Debug, PartialEq, Eq, Structural)]
pub enum Quotation {
    Quote,
    QuasiQuote,
    Unquote,
}

/// Which quotation keyword a symbol names, if any.
pub open spec fn quotation_spec(s: Seq<char>) -> Option<Quotation> {
    if s == "quote"@ {
        Some(Quotation::Quote)
    } else if s == "quasiquote"@ {
        Some(Quotation::QuasiQuote)
    } else if s == "unquote"@ {
        Some(Quotation::Unquote)
    } else {
        None
    }
}

/// Recognize the quotation keywords.
pub fn quotation_of(s: &String) -> (r: Option<Quotation>)
    ensures
        r == quotation_spec(s@),
{
    if *s == "quote".to_owned() {
        Some(Quotation::Quote)
    } else if *s == "quasiquote".to_owned() {
        Some(Quotation::QuasiQuote)
    } else if *s == "unquote".to_owned() {
        Some(Quotation::Unquote)
    } else {
        None
    }
}

/// Recognize a quotation form from the head and tail of a pair: the head
/// must be exactly the keyword and the tail a single-element list; the
/// quoted operand is handed back.
pub fn is_quote<T: ExtData>(head: &Datum<T>, tail: &Datum<T>) -> (r: Option<(
    Quotation,
    Datum<T>,
)>)
    ensures
        match r {
            Some(p) => (*head matches Datum::Sym(s) && quotation_spec(s@) == Some(p.0)) && (*tail
                matches Datum::Cons(rc) && rc.1 is Nil && p.1 == rc.0),
            None => (*head matches Datum::Sym(s) ==> quotation_spec(s@) is None) || !(*tail
                matches Datum::Cons(rc) && rc.1 is Nil),
        },
{
    let q = match head {
        Datum::Sym(s) => match quotation_of(s) {
            Some(q) => q,
            None => {
                return None;
            },
        },
        _ => {
            return None;
        },
    };
    match tail {
        Datum::Cons(rc) => match &rc.1 {
            Datum::Nil => {
                Some((q, rc.0.dup()))
            },
            _ => None,
        },
        _ => None,
    }
}


/// A datum without pairs, vectors or extension values: what a flat value can
/// be.
#[derive(Debug)]
pub enum SimpleDatum {
    Sym(String),
    Bool(bool),
    Char(char),
    Str(Rc<String>),
    Bytes(Rc<Vec<u8>>),
    Num(Number),
    Nil,
}

impl SimpleDatum {
    /// Keep a flat datum; pairs, vectors and extension values give `None`.
    pub fn from_datum<T: ExtData>(datum: Datum<T>) -> (r: Option<SimpleDatum>)
        ensures
            match datum {
                Datum::Sym(s) => (r matches Some(x) && x matches SimpleDatum::Sym(t) && t@ == s@),
                Datum::Bool(b) => r == Some(SimpleDatum::Bool(b)),
                Datum::Char(c) => r == Some(SimpleDatum::Char(c)),
                Datum::Str(s) => (r matches Some(x) && x matches SimpleDatum::Str(t) && t@ == s@),
                Datum::Bytes(b) => (r matches Some(x) && x matches SimpleDatum::Bytes(t) && t@
                    == b@),
                Datum::Num(n) => r == Some(SimpleDatum::Num(n)),
                Datum::Nil => r == Some(SimpleDatum::Nil),
                _ => r is None,
            },
    {
        match datum {
            Datum::Sym(s) => Some(SimpleDatum::Sym(s)),
            Datum::Bool(b) => Some(SimpleDatum::Bool(b)),
            Datum::Char(c) => Some(SimpleDatum::Char(c)),
            Datum::Str(s) => Some(SimpleDatum::Str(s)),
            Datum::Bytes(b) => Some(SimpleDatum::Bytes(b)),
            Datum::Num(n) => Some(SimpleDatum::Num(n)),
            Datum::Nil => Some(SimpleDatum::Nil),
            Datum::Vector(_) => None,
            Datum::Cons(_) => None,
            Datum::Ext(_) => None,
        }
    }

    /// The datum this flat value denotes.
    pub fn to_datum<T: ExtData>(self) -> (r: Datum<T>)
        ensures
            match self {
                SimpleDatum::Sym(s) => (r matches Datum::Sym(t) && t@ == s@),
                SimpleDatum::Bool(b) => r == Datum::<T>::Bool(b),
                SimpleDatum::Char(c) => r == Datum::<T>::Char(c),
                SimpleDatum::Str(s) => (r matches Datum::Str(t) && t@ == s@),
                SimpleDatum::Bytes(b) => (r matches Datum::Bytes(t) && t@ == b@),
                SimpleDatum::Num(n) => r == Datum::<T>::Num(n),
                SimpleDatum::Nil => r == Datum::<T>::Nil,
            },
    {
        match self {
            SimpleDatum::Sym(s) => Datum::Sym(s),
            SimpleDatum::Bool(b) => Datum::Bool(b),
            SimpleDatum::Char(c) => Datum::Char(c),
            SimpleDatum::Str(s) => Datum::Str(s),
            SimpleDatum::Bytes(b) => Datum::Bytes(b),
            SimpleDatum::Num(n) => Datum::Num(n),
            SimpleDatum::Nil => Datum::Nil,
        }
    }

    /// Whether this flat value equals the given datum.
    pub fn equals<T: ExtData>(&self, datum: &Datum<T>) -> (r: bool)
        ensures
            r == match (*self, *datum) {
                (SimpleDatum::Sym(x), Datum::Sym(y)) => x@ == y@,
                (SimpleDatum::Bool(x), Datum::Bool(y)) => x == y,
                (SimpleDatum::Char(x), Datum::Char(y)) => x == y,
                (SimpleDatum::Str(x), Datum::Str(y)) => x@ == y@,
                (SimpleDatum::Bytes(x), Datum::Bytes(y)) => x@ == y@,
                (SimpleDatum::Num(x), Datum::Num(y)) => x == y,
                (SimpleDatum::Nil, Datum::Nil) => true,
                _ => false,
            },
    {
        match (self, datum) {
            (SimpleDatum::Sym(x), Datum::Sym(y)) => *x == *y,
            (SimpleDatum::Bool(x), Datum::Bool(y)) => *x == *y,
            (SimpleDatum::Char(x), Datum::Char(y)) => *x == *y,
            (SimpleDatum::Str(x), Datum::Str(y)) => **x == **y,
            (SimpleDatum::Bytes(x), Datum::Bytes(y)) => bytes_eq(x, y),
            (SimpleDatum::Num(x), Datum::Num(y)) => *x == *y,
            (SimpleDatum::Nil, Datum::Nil) => true,
            _ => false,
        }
    }
}

} // verus!
