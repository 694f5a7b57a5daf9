//! Runtime values: what the evaluator stores in the datum extension slot.
//! A runtime value is a primitive-procedure handle or a closure; closures
//! are plain data pairing parameter names, a body, and the environment frame
//! they were defined in.

use vstd::prelude::*;
use std::rc::Rc;
use crate::datum::{Datum, Dat, ExtData, rc_clone};
use crate::prim::PFunc;

verus! {

/// A closure: fixed parameters, an optional variadic rest parameter, the
/// body expressions, and the index of the defining environment frame.
pub struct ClosureData {
    pub params: Vec<String>,
    pub rest: Option<String>,
    pub body: Vec<Datum<RtData>>,
    pub env: usize,
}

/// A runtime-only value: a primitive handle or a closure.
pub enum RtData {
    Prim(PFunc),
    Closure(Rc<ClosureData>),
}

/// The mathematical image of a closure.
pub struct ClosV {
    pub params: Seq<Seq<char>>,
    pub rest: Option<Seq<char>>,
    pub body: Seq<Dat<RtV>>,
    pub env: int,
}

/// The mathematical image of a runtime value.
pub enum RtV {
    Prim(PFunc),
    Closure(ClosV),
}

/// The image of a runtime value.
pub open spec fn rt_view(t: RtData) -> RtV
    decreases t,
{
    match t {
        RtData::Prim(p) => RtV::Prim(p),
        RtData::Closure(c) => RtV::Closure(
            ClosV {
                params: c.params.deep_view(),
                rest: c.rest.deep_view(),
                body: views_of(c.body@),
                env: c.env as int,
            },
        ),
    }
}

/// The image of a runtime datum.
pub open spec fn rt_dat_view(d: Datum<RtData>) -> Dat<RtV>
    decreases d,
{
    match d {
        Datum::Sym(s) => Dat::Sym(s@),
        Datum::Bool(b) => Dat::Bool(b),
        Datum::Char(c) => Dat::Char(c),
        Datum::Str(s) => Dat::Str(s@),
        Datum::Vector(v) => Dat::Vector(views_of(v@)),
        Datum::Bytes(b) => Dat::Bytes(b@),
        Datum::Num(n) => Dat::Num(n),
        Datum::Nil => Dat::Nil,
        Datum::Cons(rc) => Dat::Cons(Box::new(rt_dat_view(rc.0)), Box::new(rt_dat_view(rc.1))),
        Datum::Ext(t) => Dat::Ext(rt_view(t)),
    }
}

/// The images of a sequence of runtime datums, elementwise.
pub open spec fn views_of(s: Seq<Datum<RtData>>) -> Seq<Dat<RtV>>
    decreases s,
{
    Seq::new(
        s.len(),
        |i: int|
            if 0 <= i < s.len() {
                rt_dat_view(s[i])
            } else {
                Dat::Nil
            },
    )
}

/// The image of a runtime datum, through a reference.
pub open spec fn rdv(d: &Datum<RtData>) -> Dat<RtV> {
    rt_dat_view(*d)
}

impl DeepView for RtData {
    type V = RtV;

    open spec fn deep_view(&self) -> RtV {
        rt_view(*self)
    }
}

impl ExtData for RtData {
    /// Two runtime values are `eqv?` only when both are the same primitive;
    /// closures are compared by nothing weaker than identity, which sharing
    /// does not expose, so they compare unequal.
    open spec fn eq_spec(&self, other: &Self) -> bool {
        match (self, other) {
            (RtData::Prim(p1), RtData::Prim(p2)) => p1 == p2,
            _ => false,
        }
    }

    fn dup(&self) -> (r: Self) {
        match self {
            RtData::Prim(p) => RtData::Prim(*p),
            RtData::Closure(c) => RtData::Closure(rc_clone(c)),
        }
    }

    fn ext_eq(&self, other: &Self) -> (r: bool) {
        match (self, other) {
            (RtData::Prim(p1), RtData::Prim(p2)) => *p1 == *p2,
            _ => false,
        }
    }

    open spec fn text_spec(&self) -> Seq<char> {
        match self {
            RtData::Prim(p) => "#<primitive "@ + crate::prim::proc_name_spec(*p) + ">"@,
            RtData::Closure(_) => "#<closure>"@,
        }
    }

    fn ext_text(&self) -> (r: String) {
        match self {
            RtData::Prim(p) => {
                let r = "#<primitive ".to_owned().concat(
                    crate::prim::proc_to_str(p).as_str(),
                ).concat(">");
                proof {
                    assert(r@ =~= "#<primitive "@ + crate::prim::proc_name_spec(*p) + ">"@);
                }
                r
            },
            RtData::Closure(_) => "#<closure>".to_owned(),
        }
    }
}

/// Anything but `#f` is truthy.
pub open spec fn truthy(d: Dat<RtV>) -> bool {
    !(d == Dat::<RtV>::Bool(false))
}

/// Whether a datum image is well formed against a store of `n` frames:
/// every closure it holds points at an existing frame.
pub open spec fn dv_wf(d: Dat<RtV>, n: int) -> bool
    decreases d,
{
    match d {
        Dat::Vector(els) => dvs_wf(els, n),
        Dat::Cons(h, t) => dv_wf(*h, n) && dv_wf(*t, n),
        Dat::Ext(t) => match t {
            RtV::Prim(_) => true,
            RtV::Closure(c) => 0 <= c.env < n && dvs_wf(c.body, n),
        },
        _ => true,
    }
}

/// Well-formedness of each element of a sequence of images.
pub open spec fn dvs_wf(s: Seq<Dat<RtV>>, n: int) -> bool
    decreases s,
{
    if s.len() == 0 {
        true
    } else {
        dv_wf(s[0], n) && dvs_wf(s.subrange(1, s.len() as int), n)
    }
}

/// Well-formedness is preserved when the store grows.
pub proof fn lemma_dv_wf_mono(d: Dat<RtV>, n: int, m: int)
    requires
        dv_wf(d, n),
        n <= m,
    ensures
        dv_wf(d, m),
    decreases d,
{
    match d {
        Dat::Vector(els) => {
            lemma_dvs_wf_mono(els, n, m);
        },
        Dat::Cons(h, t) => {
            lemma_dv_wf_mono(*h, n, m);
            lemma_dv_wf_mono(*t, n, m);
        },
        Dat::Ext(t) => match t {
            RtV::Closure(c) => {
                lemma_dvs_wf_mono(c.body, n, m);
            },
            _ => {},
        },
        _ => {},
    }
}

/// Monotonicity, elementwise.
pub proof fn lemma_dvs_wf_mono(s: Seq<Dat<RtV>>, n: int, m: int)
    requires
        dvs_wf(s, n),
        n <= m,
    ensures
        dvs_wf(s, m),
    decreases s,
{
    if s.len() > 0 {
        lemma_dv_wf_mono(s[0], n, m);
        lemma_dvs_wf_mono(s.subrange(1, s.len() as int), n, m);
    }
}

/// An element of a well-formed sequence is well formed.
pub proof fn lemma_dvs_wf_index(s: Seq<Dat<RtV>>, n: int, i: int)
    requires
        dvs_wf(s, n),
        0 <= i < s.len(),
    ensures
        dv_wf(s[i], n),
    decreases s,
{
    if i > 0 {
        lemma_dvs_wf_index(s.subrange(1, s.len() as int), n, i - 1);
    }
}

/// `eqv?` on images: by-value equality on flat data, pairs and vectors;
/// primitives by handle; closures never.
pub open spec fn eqv_dat(x: Dat<RtV>, y: Dat<RtV>) -> bool
    decreases x,
{
    match (x, y) {
        (Dat::Sym(a), Dat::Sym(b)) => a == b,
        (Dat::Bool(a), Dat::Bool(b)) => a == b,
        (Dat::Char(a), Dat::Char(b)) => a == b,
        (Dat::Str(a), Dat::Str(b)) => a == b,
        (Dat::Vector(a), Dat::Vector(b)) => eqv_dats(a, b),
        (Dat::Bytes(a), Dat::Bytes(b)) => a == b,
        (Dat::Num(a), Dat::Num(b)) => a == b,
        (Dat::Nil, Dat::Nil) => true,
        (Dat::Cons(h1, t1), Dat::Cons(h2, t2)) => eqv_dat(*h1, *h2) && eqv_dat(*t1, *t2),
        (Dat::Ext(a), Dat::Ext(b)) => match (a, b) {
            (RtV::Prim(p1), RtV::Prim(p2)) => p1 == p2,
            _ => false,
        },
        _ => false,
    }
}

/// `eqv?` on sequences of images, elementwise.
pub open spec fn eqv_dats(x: Seq<Dat<RtV>>, y: Seq<Dat<RtV>>) -> bool
    decreases x,
{
    if x.len() != y.len() {
        false
    } else if x.len() == 0 {
        true
    } else {
        eqv_dat(x[0], y[0]) && eqv_dats(x.subrange(1, x.len() as int), y.subrange(1, y.len() as int))
    }
}

/// Compare two runtime datum vectors from an index on.
fn eqv_vec_from(x: &Vec<Datum<RtData>>, y: &Vec<Datum<RtData>>, i: usize) -> (r: bool)
    requires
        i <= x@.len(),
        i <= y@.len(),
    ensures
        r == eqv_dats(views_of(x@).skip(i as int), views_of(y@).skip(i as int)),
    decreases x@.skip(i as int),
{
    let ghost xs = views_of(x@);
    let ghost ys = views_of(y@);
    if x.len() - i != y.len() - i {
        return false;
    }
    if i == x.len() {
        return true;
    }
    proof {
        assert(x@.skip(i as int)[0] == x@[i as int]);
        assert(decreases_to!(x@.skip(i as int) => x@.skip(i as int)[0]));
    }
    let r0 = eqv_datum(&x[i], &y[i]);
    proof {
        assert(xs.skip(i as int)[0] == xs[i as int]);
        assert(xs[i as int] == rt_dat_view(x@[i as int]));
        assert(ys.skip(i as int)[0] == ys[i as int]);
        assert(ys[i as int] == rt_dat_view(y@[i as int]));
    }
    if !r0 {
        return false;
    }
    proof {
        assert(decreases_to!(x@.skip(i as int) => x@.skip(i + 1 as int))) by {
            assert(x@.skip(i + 1 as int) =~= x@.skip(i as int).subrange(
                1,
                x@.skip(i as int).len() as int,
            ));
        }
    }
    let r1 = eqv_vec_from(x, y, i + 1);
    proof {
        assert(xs.skip(i + 1 as int) =~= xs.skip(i as int).subrange(
            1,
            xs.skip(i as int).len() as int,
        ));
        assert(ys.skip(i + 1 as int) =~= ys.skip(i as int).subrange(
            1,
            ys.skip(i as int).len() as int,
        ));
    }
    r1
}

/// `eqv?`: structural equality of values; procedures are equal only when
/// they are the same primitive.
pub fn eqv_datum(a: &Datum<RtData>, b: &Datum<RtData>) -> (r: bool)
    ensures
        r == eqv_dat(rt_dat_view(*a), rt_dat_view(*b)),
    decreases *a,
{
    match (a, b) {
        (Datum::Sym(x), Datum::Sym(y)) => {
            let r0 = *x == *y;
            proof {
                assert(rt_dat_view(*a) == Dat::<RtV>::Sym(x@));
                assert(rt_dat_view(*b) == Dat::<RtV>::Sym(y@));
                assert(eqv_dat(Dat::<RtV>::Sym(x@), Dat::<RtV>::Sym(y@)) == (x@ == y@));
                assert(r0 == eqv_dat(rt_dat_view(*a), rt_dat_view(*b)));
            }
            r0
        },
        (Datum::Bool(x), Datum::Bool(y)) => {
            let r0 = *x == *y;
            proof {
                assert(r0 == eqv_dat(rt_dat_view(*a), rt_dat_view(*b)));
            }
            r0
        },
        (Datum::Char(x), Datum::Char(y)) => {
            let r0 = *x == *y;
            proof {
                assert(r0 == eqv_dat(rt_dat_view(*a), rt_dat_view(*b)));
            }
            r0
        },
        (Datum::Str(x), Datum::Str(y)) => {
            let r0 = **x == **y;
            proof {
                assert(r0 == eqv_dat(rt_dat_view(*a), rt_dat_view(*b)));
            }
            r0
        },
        (Datum::Vector(x), Datum::Vector(y)) => {
            proof {
                assert(x@.skip(0) =~= x@);
                assert(decreases_to!(*a => x@));
            }
            let r0 = eqv_vec_from(x, y, 0);
            proof {
                assert(views_of(x@).skip(0) =~= views_of(x@));
                assert(views_of(y@).skip(0) =~= views_of(y@));
                assert(r0 == eqv_dat(rt_dat_view(*a), rt_dat_view(*b)));
            }
            r0
        },
        (Datum::Bytes(x), Datum::Bytes(y)) => {
            let r0 = crate::datum::bytes_eq(x, y);
            proof {
                assert(r0 == eqv_dat(rt_dat_view(*a), rt_dat_view(*b)));
            }
            r0
        },
        (Datum::Num(x), Datum::Num(y)) => {
            let r0 = *x == *y;
            proof {
                assert(r0 == eqv_dat(rt_dat_view(*a), rt_dat_view(*b)));
            }
            r0
        },
        (Datum::Nil, Datum::Nil) => {
            proof {
                assert(eqv_dat(rt_dat_view(*a), rt_dat_view(*b)));
            }
            true
        },
        (Datum::Cons(x), Datum::Cons(y)) => {
            let r0 = eqv_datum(&x.0, &y.0) && eqv_datum(&x.1, &y.1);
            proof {
                assert(r0 == eqv_dat(rt_dat_view(*a), rt_dat_view(*b)));
            }
            r0
        },
        (Datum::Ext(x), Datum::Ext(y)) => {
            let r0 = x.ext_eq(y);
            proof {
                assert(r0 == x.eq_spec(y));
                match (x, y) {
                    (RtData::Prim(p1), RtData::Prim(p2)) => {
                        assert(rt_view(*x) == RtV::Prim(*p1));
                        assert(rt_view(*y) == RtV::Prim(*p2));
                        assert(r0 == (*p1 == *p2));
                        assert(r0 == eqv_dat(rt_dat_view(*a), rt_dat_view(*b)));
                    },
                    (RtData::Prim(p1), RtData::Closure(c2)) => {
                        assert(!r0);
                        assert(rt_view(*y) is Closure);
                        assert(!eqv_dat(rt_dat_view(*a), rt_dat_view(*b)));
                    },
                    (RtData::Closure(c1), RtData::Prim(p2)) => {
                        assert(!r0);
                        assert(rt_view(*x) is Closure);
                        assert(!eqv_dat(rt_dat_view(*a), rt_dat_view(*b)));
                    },
                    (RtData::Closure(c1), RtData::Closure(c2)) => {
                        assert(!r0);
                        assert(rt_view(*x) is Closure);
                        assert(!eqv_dat(rt_dat_view(*a), rt_dat_view(*b)));
                    },
                }
            }
            r0
        },
        _ => {
            proof {
                assert(!eqv_dat(rt_dat_view(*a), rt_dat_view(*b)));
            }
            false
        },
    }
}

} // verus!
