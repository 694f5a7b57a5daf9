//! The primitive adapter framework. Rather than hand-writing arity and type
//! checks in every primitive, each primitive is described by a shape — fold,
//! fold with at least one argument, chained comparison, unary predicate or
//! unary accessor — and a closed tagged dispatch turns a shape into the
//! common "apply to evaluated arguments" capability.

use vstd::prelude::*;
use crate::datum::{Datum, Dat, ExtData, cons};
use crate::value::{RtData, RtV, rt_dat_view, views_of, eqv_dat, eqv_datum};
use crate::number::{Number, add_spec, sub_spec, mul_spec, div_spec, neg_spec};
use crate::realnum::{Real, real_lt_spec, real_le_spec, real_eq_spec, get_real_spec, get_real};
use crate::error::Error;
use crate::prim::PFunc;
use crate::flt::{fcmp_of, fround_of, flt_cmp, flt_round, RM_TRUNC};

verus! {

/// The number a datum image holds, if it holds one.
pub open spec fn as_num(d: Dat<RtV>) -> Option<Number> {
    match d {
        Dat::Num(n) => Some(n),
        _ => None,
    }
}

/// The number a datum holds, if it holds one.
pub fn num_of(d: &Datum<RtData>) -> (r: Option<Number>)
    ensures
        r == as_num(rt_dat_view(*d)),
{
    match d {
        Datum::Num(n) => Some(*n),
        _ => None,
    }
}

/// The binary numeric operations a fold can carry.
#[derive(Clone, Copy, Debug, PartialEq, Eq, Structural)]
pub enum NumBinOp {
    NbAdd,
    NbSub,
    NbMul,
    NbDiv,
}

/// What one step of a numeric fold computes.
pub open spec fn nb_apply(op: NumBinOp, a: Number, b: Number) -> Result<Number, Error> {
    match op {
        NumBinOp::NbAdd => add_spec(a, b),
        NumBinOp::NbSub => sub_spec(a, b),
        NumBinOp::NbMul => mul_spec(a, b),
        NumBinOp::NbDiv => div_spec(a, b),
    }
}

/// One step of a numeric fold.
pub fn nb_step(op: NumBinOp, a: Number, b: Number) -> (r: Result<Number, Error>)
    ensures
        r == nb_apply(op, a, b),
{
    match op {
        NumBinOp::NbAdd => crate::number::add(a, b),
        NumBinOp::NbSub => crate::number::sub(a, b),
        NumBinOp::NbMul => crate::number::mul(a, b),
        NumBinOp::NbDiv => crate::number::div(a, b),
    }
}

/// A left fold of a numeric operation over argument images: a non-number is
/// a type error, and each step may report its own error.
pub open spec fn num_fold_spec(op: NumBinOp, args: Seq<Dat<RtV>>, acc: Number) -> Result<
    Number,
    Error,
>
    decreases args,
{
    if args.len() == 0 {
        Ok(acc)
    } else {
        match as_num(args[0]) {
            None => Err(Error::TypeError),
            Some(n) => match nb_apply(op, acc, n) {
                Err(e) => Err(e),
                Ok(m) => num_fold_spec(op, args.subrange(1, args.len() as int), m),
            },
        }
    }
}

/// Fold the operation over the arguments from index `i` on.
fn num_fold_from(op: NumBinOp, args: &Vec<Datum<RtData>>, i: usize, acc: Number) -> (r: Result<
    Number,
    Error,
>)
    requires
        i <= args@.len(),
    ensures
        r == num_fold_spec(op, views_of(args@).skip(i as int), acc),
    decreases args@.len() - i,
{
    let ghost vs = views_of(args@);
    if i == args.len() {
        return Ok(acc);
    }
    proof {
        assert(vs.skip(i as int)[0] == vs[i as int]);
        assert(vs[i as int] == rt_dat_view(args@[i as int]));
    }
    let n = match num_of(&args[i]) {
        None => {
            return Err(Error::TypeError);
        },
        Some(n) => n,
    };
    let m = match nb_step(op, acc, n) {
        Err(e) => {
            return Err(e);
        },
        Ok(m) => m,
    };
    let r1 = num_fold_from(op, args, i + 1, m);
    proof {
        assert(vs.skip(i + 1 as int) =~= vs.skip(i as int).subrange(
            1,
            vs.skip(i as int).len() as int,
        ));
    }
    r1
}

/// The proper list holding the given images in order.
pub open spec fn list_of(args: Seq<Dat<RtV>>) -> Dat<RtV>
    decreases args,
{
    if args.len() == 0 {
        Dat::Nil
    } else {
        Dat::Cons(Box::new(args[0]), Box::new(list_of(args.subrange(1, args.len() as int))))
    }
}

/// Build the proper list of the arguments from index `i` on.
pub(crate) fn build_list(args: &Vec<Datum<RtData>>, i: usize) -> (r: Datum<RtData>)
    requires
        i <= args@.len(),
    ensures
        rt_dat_view(r) == list_of(views_of(args@).skip(i as int)),
    decreases args@.len() - i,
{
    let ghost vs = views_of(args@);
    if i == args.len() {
        return Datum::Nil;
    }
    proof {
        assert(vs.skip(i as int)[0] == vs[i as int]);
        assert(vs[i as int] == rt_dat_view(args@[i as int]));
    }
    let tail = build_list(args, i + 1);
    proof {
        assert(vs.skip(i + 1 as int) =~= vs.skip(i as int).subrange(
            1,
            vs.skip(i as int).len() as int,
        ));
    }
    cons(args[i].dup(), tail)
}

/// The real values of the argument images: a non-real is a type error.
pub open spec fn reals_of(args: Seq<Dat<RtV>>) -> Result<Seq<Real>, Error>
    decreases args,
{
    if args.len() == 0 {
        Ok(Seq::empty())
    } else {
        match as_num(args[0]) {
            None => Err(Error::TypeError),
            Some(n) => match get_real_spec(n) {
                None => Err(Error::TypeError),
                Some(x) => match reals_of(args.subrange(1, args.len() as int)) {
                    Err(e) => Err(e),
                    Ok(rest) => Ok(seq![x] + rest),
                },
            },
        }
    }
}

/// Collect the real values of the arguments from index `i` on.
fn reals_from(args: &Vec<Datum<RtData>>, i: usize) -> (r: Result<Vec<Real>, Error>)
    requires
        i <= args@.len(),
    ensures
        match (r, reals_of(views_of(args@).skip(i as int))) {
            (Ok(v), Ok(s)) => v@ == s,
            (Err(e), Err(es)) => e == es,
            _ => false,
        },
    decreases args@.len() - i,
{
    let ghost vs = views_of(args@);
    if i == args.len() {
        let empty: Vec<Real> = Vec::new();
        proof {
            assert(empty@ =~= Seq::<Real>::empty());
        }
        return Ok(empty);
    }
    proof {
        assert(vs.skip(i as int)[0] == vs[i as int]);
        assert(vs[i as int] == rt_dat_view(args@[i as int]));
    }
    let n = match num_of(&args[i]) {
        None => {
            return Err(Error::TypeError);
        },
        Some(n) => n,
    };
    let x = match get_real(&n) {
        None => {
            return Err(Error::TypeError);
        },
        Some(x) => x,
    };
    match reals_from(args, i + 1) {
        Err(e) => {
            proof {
                assert(vs.skip(i + 1 as int) =~= vs.skip(i as int).subrange(
                    1,
                    vs.skip(i as int).len() as int,
                ));
            }
            Err(e)
        },
        Ok(mut rest) => {
            proof {
                assert(vs.skip(i + 1 as int) =~= vs.skip(i as int).subrange(
                    1,
                    vs.skip(i as int).len() as int,
                ));
            }
            rest.insert(0, x);
            proof {
                let s = reals_of(vs.skip(i as int)).unwrap();
                assert(rest@ =~= s);
            }
            Ok(rest)
        },
    }
}

/// The comparison relations a chain can carry.
#[derive(Clone, Copy, Debug, PartialEq, Eq, Structural)]
pub enum CmpOp {
    CmpEq,
    CmpLt,
    CmpGt,
    CmpLe,
    CmpGe,
}

/// What one comparison of the chain means.
pub open spec fn cmp_apply(op: CmpOp, a: Real, b: Real) -> bool {
    match op {
        CmpOp::CmpEq => real_eq_spec(a, b),
        CmpOp::CmpLt => real_lt_spec(a, b),
        CmpOp::CmpGt => real_lt_spec(b, a),
        CmpOp::CmpLe => real_le_spec(a, b),
        CmpOp::CmpGe => real_le_spec(b, a),
    }
}

/// One comparison of the chain.
fn cmp_step(op: CmpOp, a: Real, b: Real) -> (r: bool)
    ensures
        r == cmp_apply(op, a, b),
{
    match op {
        CmpOp::CmpEq => a.eq_val(b),
        CmpOp::CmpLt => a.lt(b),
        CmpOp::CmpGt => a.gt(b),
        CmpOp::CmpLe => a.le(b),
        CmpOp::CmpGe => a.ge(b),
    }
}

/// A chained comparison holds exactly when every adjacent pair satisfies the
/// relation.
pub open spec fn chain_spec(op: CmpOp, rs: Seq<Real>) -> bool
    decreases rs,
{
    if rs.len() <= 1 {
        true
    } else {
        cmp_apply(op, rs[0], rs[1]) && chain_spec(op, rs.subrange(1, rs.len() as int))
    }
}

/// A chained comparison is true exactly when every adjacent pair of the
/// real values satisfies the relation.
pub proof fn lemma_chain_adjacent(op: CmpOp, rs: Seq<Real>)
    ensures
        chain_spec(op, rs) <==> (forall|i: int|
            0 <= i < rs.len() - 1 ==> cmp_apply(op, rs[i], #[trigger] rs[i + 1])),
    decreases rs,
{
    if rs.len() > 1 {
        let tail = rs.subrange(1, rs.len() as int);
        lemma_chain_adjacent(op, tail);
        if chain_spec(op, rs) {
            assert forall|i: int| 0 <= i < rs.len() - 1 implies cmp_apply(
                op,
                rs[i],
                #[trigger] rs[i + 1],
            ) by {
                if i == 0 {
                } else {
                    assert(cmp_apply(op, tail[i - 1], tail[i]));
                    assert(tail[i - 1] == rs[i]);
                    assert(tail[i] == rs[i + 1]);
                }
            }
        }
        if forall|i: int| 0 <= i < rs.len() - 1 ==> cmp_apply(op, rs[i], #[trigger] rs[i + 1]) {
            assert forall|j: int| 0 <= j < tail.len() - 1 implies cmp_apply(
                op,
                tail[j],
                #[trigger] tail[j + 1],
            ) by {
                assert(tail[j] == rs[j + 1]);
                assert(tail[j + 1] == rs[j + 2]);
                assert(cmp_apply(op, rs[j + 1], rs[j + 1 + 1]));
            }
            assert(cmp_apply(op, rs[0], rs[0int + 1]));
            assert(chain_spec(op, rs));
        }
    }
}

/// Evaluate the chain from index `i` on.
fn chain_from(op: CmpOp, rs: &Vec<Real>, i: usize) -> (r: bool)
    requires
        i <= rs@.len(),
    ensures
        r == chain_spec(op, rs@.skip(i as int)),
    decreases rs@.len() - i,
{
    if rs.len() - i <= 1 {
        return true;
    }
    proof {
        assert(rs@.skip(i as int)[0] == rs@[i as int]);
        assert(rs@.skip(i as int)[1] == rs@[i + 1 as int]);
    }
    if !cmp_step(op, rs[i], rs[i + 1]) {
        return false;
    }
    let r1 = chain_from(op, rs, i + 1);
    proof {
        assert(rs@.skip(i + 1 as int) =~= rs@.skip(i as int).subrange(
            1,
            rs@.skip(i as int).len() as int,
        ));
    }
    r1
}

/// How an adapter's outcome is held against its specification: values agree
/// by image and errors agree exactly.
pub open spec fn prim_result_matches(
    r: Result<Datum<RtData>, Error>,
    s: Result<Dat<RtV>, Error>,
) -> bool {
    match (r, s) {
        (Ok(d), Ok(dv)) => rt_dat_view(d) == dv,
        (Err(e), Err(es)) => e == es,
        _ => false,
    }
}

/// One common capability: apply a primitive to its evaluated arguments.
pub trait PrimFunc {
    /// What the primitive returns for the given argument images.
    spec fn call_spec(&self, args: Seq<Dat<RtV>>) -> Result<Dat<RtV>, Error>;

    /// Apply the primitive to evaluated arguments.
    fn call(&self, args: Vec<Datum<RtData>>) -> (r: Result<Datum<RtData>, Error>)
        ensures
            prim_result_matches(r, self.call_spec(views_of(args@))),
    ;
}

/// The operations registered as plain folds with an identity.
#[derive(Clone, Copy, Debug, PartialEq, Eq, Structural)]
pub enum FoldOp {
    FoldAdd,
    FoldMul,
    FoldList,
}

/// A commutative variadic operation with an implicit identity for zero
/// arguments: `+`, `*`, `list`.
#[derive(Clone, Copy, Debug, PartialEq, Eq, Structural)]
pub struct Fold {
    pub op: FoldOp,
}

impl PrimFunc for Fold {
    open spec fn call_spec(&self, args: Seq<Dat<RtV>>) -> Result<Dat<RtV>, Error> {
        match self.op {
            FoldOp::FoldAdd => match num_fold_spec(
                NumBinOp::NbAdd,
                args,
                Number::Exact { re: crate::rational::Rational::from_int_spec(0), im: crate::rational::Rational::from_int_spec(0) },
            ) {
                Ok(n) => Ok(Dat::Num(n)),
                Err(e) => Err(e),
            },
            FoldOp::FoldMul => match num_fold_spec(
                NumBinOp::NbMul,
                args,
                Number::Exact { re: crate::rational::Rational::from_int_spec(1), im: crate::rational::Rational::from_int_spec(0) },
            ) {
                Ok(n) => Ok(Dat::Num(n)),
                Err(e) => Err(e),
            },
            FoldOp::FoldList => Ok(list_of(args)),
        }
    }

    fn call(&self, args: Vec<Datum<RtData>>) -> (r: Result<Datum<RtData>, Error>) {
        proof {
            assert(views_of(args@).skip(0) =~= views_of(args@));
        }
        match self.op {
            FoldOp::FoldAdd => match num_fold_from(NumBinOp::NbAdd, &args, 0, Number::zero()) {
                Ok(n) => Ok(Datum::Num(n)),
                Err(e) => Err(e),
            },
            FoldOp::FoldMul => match num_fold_from(NumBinOp::NbMul, &args, 0, Number::one()) {
                Ok(n) => Ok(Datum::Num(n)),
                Err(e) => Err(e),
            },
            FoldOp::FoldList => Ok(build_list(&args, 0)),
        }
    }
}

/// A variadic operation requiring at least one argument: `-`. One argument
/// alone is negated; further arguments fold from the left.
#[derive(Clone, Copy, Debug, PartialEq, Eq, Structural)]
pub struct Fold1 {
}

impl PrimFunc for Fold1 {
    open spec fn call_spec(&self, args: Seq<Dat<RtV>>) -> Result<Dat<RtV>, Error> {
        if args.len() == 0 {
            Err(Error::ArgNumError)
        } else {
            match as_num(args[0]) {
                None => Err(Error::TypeError),
                Some(n0) => if args.len() == 1 {
                    match neg_spec(n0) {
                        Ok(m) => Ok(Dat::Num(m)),
                        Err(e) => Err(e),
                    }
                } else {
                    match num_fold_spec(NumBinOp::NbSub, args.subrange(1, args.len() as int), n0) {
                        Ok(m) => Ok(Dat::Num(m)),
                        Err(e) => Err(e),
                    }
                },
            }
        }
    }

    fn call(&self, args: Vec<Datum<RtData>>) -> (r: Result<Datum<RtData>, Error>) {
        if args.len() == 0 {
            return Err(Error::ArgNumError);
        }
        proof {
            assert(views_of(args@)[0] == rt_dat_view(args@[0]));
        }
        let n0 = match num_of(&args[0]) {
            None => {
                return Err(Error::TypeError);
            },
            Some(n0) => n0,
        };
        if args.len() == 1 {
            match crate::number::neg(n0) {
                Ok(m) => Ok(Datum::Num(m)),
                Err(e) => Err(e),
            }
        } else {
            proof {
                assert(views_of(args@).skip(1) =~= views_of(args@).subrange(
                    1,
                    views_of(args@).len() as int,
                ));
            }
            match num_fold_from(NumBinOp::NbSub, &args, 1, n0) {
                Ok(m) => Ok(Datum::Num(m)),
                Err(e) => Err(e),
            }
        }
    }
}

/// A variadic, fallible operation requiring at least one argument: `/`. One
/// argument alone is inverted; division by an exact zero fails.
#[derive(Clone, Copy, Debug, PartialEq, Eq, Structural)]
pub struct Fold1Err {
}

impl PrimFunc for Fold1Err {
    open spec fn call_spec(&self, args: Seq<Dat<RtV>>) -> Result<Dat<RtV>, Error> {
        if args.len() == 0 {
            Err(Error::ArgNumError)
        } else {
            match as_num(args[0]) {
                None => Err(Error::TypeError),
                Some(n0) => if args.len() == 1 {
                    match div_spec(Number::one_spec(), n0) {
                        Ok(m) => Ok(Dat::Num(m)),
                        Err(e) => Err(e),
                    }
                } else {
                    match num_fold_spec(NumBinOp::NbDiv, args.subrange(1, args.len() as int), n0) {
                        Ok(m) => Ok(Dat::Num(m)),
                        Err(e) => Err(e),
                    }
                },
            }
        }
    }

    fn call(&self, args: Vec<Datum<RtData>>) -> (r: Result<Datum<RtData>, Error>) {
        if args.len() == 0 {
            return Err(Error::ArgNumError);
        }
        proof {
            assert(views_of(args@)[0] == rt_dat_view(args@[0]));
        }
        let n0 = match num_of(&args[0]) {
            None => {
                return Err(Error::TypeError);
            },
            Some(n0) => n0,
        };
        if args.len() == 1 {
            match crate::number::div(Number::one(), n0) {
                Ok(m) => Ok(Datum::Num(m)),
                Err(e) => Err(e),
            }
        } else {
            proof {
                assert(views_of(args@).skip(1) =~= views_of(args@).subrange(
                    1,
                    views_of(args@).len() as int,
                ));
            }
            match num_fold_from(NumBinOp::NbDiv, &args, 1, n0) {
                Ok(m) => Ok(Datum::Num(m)),
                Err(e) => Err(e),
            }
        }
    }
}

/// The chained numeric equality `=`, requiring at least two real arguments.
#[derive(Clone, Copy, Debug, PartialEq, Eq, Structural)]
pub struct Fold2 {
}

/// What a chained comparison over argument images returns.
pub open spec fn chain_call_spec(op: CmpOp, args: Seq<Dat<RtV>>) -> Result<Dat<RtV>, Error> {
    if args.len() < 2 {
        Err(Error::ArgNumError)
    } else {
        match reals_of(args) {
            Err(e) => Err(e),
            Ok(rs) => Ok(Dat::Bool(chain_spec(op, rs))),
        }
    }
}

/// Run a chained comparison over evaluated arguments.
fn chain_call(op: CmpOp, args: &Vec<Datum<RtData>>) -> (r: Result<Datum<RtData>, Error>)
    ensures
        prim_result_matches(r, chain_call_spec(op, views_of(args@))),
{
    if args.len() < 2 {
        return Err(Error::ArgNumError);
    }
    proof {
        assert(views_of(args@).skip(0) =~= views_of(args@));
    }
    match reals_from(args, 0) {
        Err(e) => Err(e),
        Ok(rs) => {
            proof {
                assert(rs@.skip(0) =~= rs@);
            }
            Ok(Datum::Bool(chain_from(op, &rs, 0)))
        },
    }
}

impl PrimFunc for Fold2 {
    open spec fn call_spec(&self, args: Seq<Dat<RtV>>) -> Result<Dat<RtV>, Error> {
        chain_call_spec(CmpOp::CmpEq, args)
    }

    fn call(&self, args: Vec<Datum<RtData>>) -> (r: Result<Datum<RtData>, Error>) {
        chain_call(CmpOp::CmpEq, &args)
    }
}

/// A chained order comparison (`<`, `>`, `<=`, `>=`), requiring at least two
/// real arguments; the result is true exactly when every adjacent pair
/// satisfies the relation.
#[derive(Clone, Copy, Debug, PartialEq, Eq, Structural)]
pub struct FoldR2 {
    pub op: CmpOp,
}

impl PrimFunc for FoldR2 {
    open spec fn call_spec(&self, args: Seq<Dat<RtV>>) -> Result<Dat<RtV>, Error> {
        chain_call_spec(self.op, args)
    }

    fn call(&self, args: Vec<Datum<RtData>>) -> (r: Result<Datum<RtData>, Error>) {
        chain_call(self.op, &args)
    }
}

/// The type predicates registered as unary primitives.
#[derive(Clone, Copy, Debug, PartialEq, Eq, Structural)]
pub enum PredOp {
    PredBoolean,
    PredPair,
    PredSymbol,
    PredNumber,
    PredChar,
    PredString,
    PredVector,
    PredProcedure,
    PredNull,
    PredReal,
    PredRational,
    PredInteger,
    PredExact,
    PredInexact,
}

/// Whether an IEEE double bit pattern is finite.
pub open spec fn f_is_finite(bits: u64) -> bool {
    (bits >> 52) & 0x7FF != 0x7FF
}

/// What each predicate says of an argument image. The numeric predicates
/// `exact?` and `inexact?` demand a number.
pub open spec fn pred_spec(op: PredOp, d: Dat<RtV>) -> Result<bool, Error> {
    match op {
        PredOp::PredBoolean => Ok(d is Bool),
        PredOp::PredPair => Ok(d is Cons),
        PredOp::PredSymbol => Ok(d is Sym),
        PredOp::PredNumber => Ok(d is Num),
        PredOp::PredChar => Ok(d is Char),
        PredOp::PredString => Ok(d is Str),
        PredOp::PredVector => Ok(d is Vector),
        PredOp::PredProcedure => Ok(d is Ext),
        PredOp::PredNull => Ok(d is Nil),
        PredOp::PredReal => Ok(
            match as_num(d) {
                Some(n) => n.is_real_spec(),
                None => false,
            },
        ),
        PredOp::PredRational => Ok(
            match as_num(d) {
                Some(n) => match get_real_spec(n) {
                    Some(Real::Rat(_)) => true,
                    Some(Real::Flt(b)) => f_is_finite(b),
                    None => false,
                },
                None => false,
            },
        ),
        PredOp::PredInteger => Ok(
            match as_num(d) {
                Some(n) => match get_real_spec(n) {
                    Some(Real::Rat(q)) => q.den() == 1,
                    Some(Real::Flt(b)) => fcmp_of(fround_of(b, 2), b) == Some(0i8),
                    None => false,
                },
                None => false,
            },
        ),
        PredOp::PredExact => match as_num(d) {
            Some(n) => Ok(n.is_exact_spec()),
            None => Err(Error::TypeError),
        },
        PredOp::PredInexact => match as_num(d) {
            Some(n) => Ok(n.is_inexact_spec()),
            None => Err(Error::TypeError),
        },
    }
}

/// A unary predicate primitive.
#[derive(Clone, Copy, Debug, PartialEq, Eq, Structural)]
pub struct R1 {
    pub op: PredOp,
}

impl PrimFunc for R1 {
    open spec fn call_spec(&self, args: Seq<Dat<RtV>>) -> Result<Dat<RtV>, Error> {
        if args.len() != 1 {
            Err(Error::ArgNumError)
        } else {
            match pred_spec(self.op, args[0]) {
                Ok(b) => Ok(Dat::Bool(b)),
                Err(e) => Err(e),
            }
        }
    }

    fn call(&self, args: Vec<Datum<RtData>>) -> (r: Result<Datum<RtData>, Error>) {
        if args.len() != 1 {
            return Err(Error::ArgNumError);
        }
        proof {
            assert(views_of(args@)[0] == rt_dat_view(args@[0]));
        }
        let d = &args[0];
        let b = match self.op {
            PredOp::PredBoolean => matches!(d, Datum::Bool(_)),
            PredOp::PredPair => matches!(d, Datum::Cons(_)),
            PredOp::PredSymbol => matches!(d, Datum::Sym(_)),
            PredOp::PredNumber => matches!(d, Datum::Num(_)),
            PredOp::PredChar => matches!(d, Datum::Char(_)),
            PredOp::PredString => matches!(d, Datum::Str(_)),
            PredOp::PredVector => matches!(d, Datum::Vector(_)),
            PredOp::PredProcedure => matches!(d, Datum::Ext(_)),
            PredOp::PredNull => matches!(d, Datum::Nil),
            PredOp::PredReal => match num_of(d) {
                Some(n) => n.is_real(),
                None => false,
            },
            PredOp::PredRational => match num_of(d) {
                Some(n) => match get_real(&n) {
                    Some(Real::Rat(_)) => true,
                    Some(Real::Flt(b)) => (b >> 52) & 0x7FF != 0x7FF,
                    None => false,
                },
                None => false,
            },
            PredOp::PredInteger => match num_of(d) {
                Some(n) => match get_real(&n) {
                    Some(Real::Rat(q)) => q.is_integer(),
                    Some(Real::Flt(b)) => {
                        let t = flt_round(b, RM_TRUNC);
                        match flt_cmp(t, b) {
                            Some(c) => c == 0,
                            None => false,
                        }
                    },
                    None => false,
                },
                None => false,
            },
            PredOp::PredExact => match num_of(d) {
                Some(n) => n.is_exact(),
                None => {
                    return Err(Error::TypeError);
                },
            },
            PredOp::PredInexact => match num_of(d) {
                Some(n) => n.is_inexact(),
                None => {
                    return Err(Error::TypeError);
                },
            },
        };
        Ok(Datum::Bool(b))
    }
}

/// The unary accessors and tests registered as `F1` primitives.
#[derive(Clone, Copy, Debug, PartialEq, Eq, Structural)]
pub enum F1Op {
    F1Car,
    F1Cdr,
    F1Zero,
}

/// What each unary accessor returns: the head or tail of a pair, or the
/// zero test of a number; anything else is a type error.
pub open spec fn f1_spec(op: F1Op, d: Dat<RtV>) -> Result<Dat<RtV>, Error> {
    match op {
        F1Op::F1Car => match d {
            Dat::Cons(h, _) => Ok(*h),
            _ => Err(Error::TypeError),
        },
        F1Op::F1Cdr => match d {
            Dat::Cons(_, t) => Ok(*t),
            _ => Err(Error::TypeError),
        },
        F1Op::F1Zero => match as_num(d) {
            Some(n) => Ok(Dat::Bool(n.is_zero_spec())),
            None => Err(Error::TypeError),
        },
    }
}

/// A unary accessor primitive.
#[derive(Clone, Copy, Debug, PartialEq, Eq, Structural)]
pub struct F1 {
    pub op: F1Op,
}

impl PrimFunc for F1 {
    open spec fn call_spec(&self, args: Seq<Dat<RtV>>) -> Result<Dat<RtV>, Error> {
        if args.len() != 1 {
            Err(Error::ArgNumError)
        } else {
            f1_spec(self.op, args[0])
        }
    }

    fn call(&self, args: Vec<Datum<RtData>>) -> (r: Result<Datum<RtData>, Error>) {
        if args.len() != 1 {
            return Err(Error::ArgNumError);
        }
        proof {
            assert(views_of(args@)[0] == rt_dat_view(args@[0]));
        }
        match self.op {
            F1Op::F1Car => match &args[0] {
                Datum::Cons(rc) => Ok(rc.0.dup()),
                _ => Err(Error::TypeError),
            },
            F1Op::F1Cdr => match &args[0] {
                Datum::Cons(rc) => Ok(rc.1.dup()),
                _ => Err(Error::TypeError),
            },
            F1Op::F1Zero => match num_of(&args[0]) {
                Some(n) => Ok(Datum::Bool(n.is_zero())),
                None => Err(Error::TypeError),
            },
        }
    }
}

/// A primitive's shape: how its arity and typing are checked generically.
#[derive(Clone, Copy, Debug, PartialEq, Eq, Structural)]
pub enum PrimShape {
    ShFold(Fold),
    ShFold1(Fold1),
    ShFold1Err(Fold1Err),
    ShFold2(Fold2),
    ShFoldR2(FoldR2),
    ShR1(R1),
    ShF1(F1),
}

/// What a shape returns for the given argument images.
pub open spec fn shape_call_spec(s: PrimShape, args: Seq<Dat<RtV>>) -> Result<Dat<RtV>, Error> {
    match s {
        PrimShape::ShFold(x) => x.call_spec(args),
        PrimShape::ShFold1(x) => x.call_spec(args),
        PrimShape::ShFold1Err(x) => x.call_spec(args),
        PrimShape::ShFold2(x) => x.call_spec(args),
        PrimShape::ShFoldR2(x) => x.call_spec(args),
        PrimShape::ShR1(x) => x.call_spec(args),
        PrimShape::ShF1(x) => x.call_spec(args),
    }
}

/// Apply a shape to evaluated arguments.
pub fn shape_call(s: &PrimShape, args: Vec<Datum<RtData>>) -> (r: Result<Datum<RtData>, Error>)
    ensures
        prim_result_matches(r, shape_call_spec(*s, views_of(args@))),
{
    match s {
        PrimShape::ShFold(x) => x.call(args),
        PrimShape::ShFold1(x) => x.call(args),
        PrimShape::ShFold1Err(x) => x.call(args),
        PrimShape::ShFold2(x) => x.call(args),
        PrimShape::ShFoldR2(x) => x.call(args),
        PrimShape::ShR1(x) => x.call(args),
        PrimShape::ShF1(x) => x.call(args),
    }
}

/// Which shape realizes each primitive procedure; `eval` and `begin` are not
/// shapes, the evaluator itself handles them.
pub open spec fn shape_of_spec(f: PFunc) -> Option<PrimShape> {
    match f {
        PFunc::PEval => None,
        PFunc::PBegin => None,
        PFunc::PAdd => Some(PrimShape::ShFold(Fold { op: FoldOp::FoldAdd })),
        PFunc::PMul => Some(PrimShape::ShFold(Fold { op: FoldOp::FoldMul })),
        PFunc::PList => Some(PrimShape::ShFold(Fold { op: FoldOp::FoldList })),
        PFunc::PSub => Some(PrimShape::ShFold1(Fold1 {  })),
        PFunc::PDiv => Some(PrimShape::ShFold1Err(Fold1Err {  })),
        PFunc::PEQ => Some(PrimShape::ShFold2(Fold2 {  })),
        PFunc::PLT => Some(PrimShape::ShFoldR2(FoldR2 { op: CmpOp::CmpLt })),
        PFunc::PGT => Some(PrimShape::ShFoldR2(FoldR2 { op: CmpOp::CmpGt })),
        PFunc::PLE => Some(PrimShape::ShFoldR2(FoldR2 { op: CmpOp::CmpLe })),
        PFunc::PGE => Some(PrimShape::ShFoldR2(FoldR2 { op: CmpOp::CmpGe })),
        PFunc::PCar => Some(PrimShape::ShF1(F1 { op: F1Op::F1Car })),
        PFunc::PCdr => Some(PrimShape::ShF1(F1 { op: F1Op::F1Cdr })),
        PFunc::PZero => Some(PrimShape::ShF1(F1 { op: F1Op::F1Zero })),
        PFunc::PBoolean => Some(PrimShape::ShR1(R1 { op: PredOp::PredBoolean })),
        PFunc::PPair => Some(PrimShape::ShR1(R1 { op: PredOp::PredPair })),
        PFunc::PSymbol => Some(PrimShape::ShR1(R1 { op: PredOp::PredSymbol })),
        PFunc::PNumber => Some(PrimShape::ShR1(R1 { op: PredOp::PredNumber })),
        PFunc::PChar => Some(PrimShape::ShR1(R1 { op: PredOp::PredChar })),
        PFunc::PString => Some(PrimShape::ShR1(R1 { op: PredOp::PredString })),
        PFunc::PVector => Some(PrimShape::ShR1(R1 { op: PredOp::PredVector })),
        PFunc::PProcedure => Some(PrimShape::ShR1(R1 { op: PredOp::PredProcedure })),
        PFunc::PNull => Some(PrimShape::ShR1(R1 { op: PredOp::PredNull })),
        PFunc::PReal => Some(PrimShape::ShR1(R1 { op: PredOp::PredReal })),
        PFunc::PRational => Some(PrimShape::ShR1(R1 { op: PredOp::PredRational })),
        PFunc::PInteger => Some(PrimShape::ShR1(R1 { op: PredOp::PredInteger })),
        PFunc::PExact => Some(PrimShape::ShR1(R1 { op: PredOp::PredExact })),
        PFunc::PInexact => Some(PrimShape::ShR1(R1 { op: PredOp::PredInexact })),
        PFunc::PEqv => None,
        PFunc::PEqual => None,
    }
}

/// Which shape realizes each primitive.
pub fn shape_of(f: PFunc) -> (r: Option<PrimShape>)
    ensures
        r == shape_of_spec(f),
{
    match f {
        PFunc::PEval => None,
        PFunc::PBegin => None,
        PFunc::PAdd => Some(PrimShape::ShFold(Fold { op: FoldOp::FoldAdd })),
        PFunc::PMul => Some(PrimShape::ShFold(Fold { op: FoldOp::FoldMul })),
        PFunc::PList => Some(PrimShape::ShFold(Fold { op: FoldOp::FoldList })),
        PFunc::PSub => Some(PrimShape::ShFold1(Fold1 {  })),
        PFunc::PDiv => Some(PrimShape::ShFold1Err(Fold1Err {  })),
        PFunc::PEQ => Some(PrimShape::ShFold2(Fold2 {  })),
        PFunc::PLT => Some(PrimShape::ShFoldR2(FoldR2 { op: CmpOp::CmpLt })),
        PFunc::PGT => Some(PrimShape::ShFoldR2(FoldR2 { op: CmpOp::CmpGt })),
        PFunc::PLE => Some(PrimShape::ShFoldR2(FoldR2 { op: CmpOp::CmpLe })),
        PFunc::PGE => Some(PrimShape::ShFoldR2(FoldR2 { op: CmpOp::CmpGe })),
        PFunc::PCar => Some(PrimShape::ShF1(F1 { op: F1Op::F1Car })),
        PFunc::PCdr => Some(PrimShape::ShF1(F1 { op: F1Op::F1Cdr })),
        PFunc::PZero => Some(PrimShape::ShF1(F1 { op: F1Op::F1Zero })),
        PFunc::PBoolean => Some(PrimShape::ShR1(R1 { op: PredOp::PredBoolean })),
        PFunc::PPair => Some(PrimShape::ShR1(R1 { op: PredOp::PredPair })),
        PFunc::PSymbol => Some(PrimShape::ShR1(R1 { op: PredOp::PredSymbol })),
        PFunc::PNumber => Some(PrimShape::ShR1(R1 { op: PredOp::PredNumber })),
        PFunc::PChar => Some(PrimShape::ShR1(R1 { op: PredOp::PredChar })),
        PFunc::PString => Some(PrimShape::ShR1(R1 { op: PredOp::PredString })),
        PFunc::PVector => Some(PrimShape::ShR1(R1 { op: PredOp::PredVector })),
        PFunc::PProcedure => Some(PrimShape::ShR1(R1 { op: PredOp::PredProcedure })),
        PFunc::PNull => Some(PrimShape::ShR1(R1 { op: PredOp::PredNull })),
        PFunc::PReal => Some(PrimShape::ShR1(R1 { op: PredOp::PredReal })),
        PFunc::PRational => Some(PrimShape::ShR1(R1 { op: PredOp::PredRational })),
        PFunc::PInteger => Some(PrimShape::ShR1(R1 { op: PredOp::PredInteger })),
        PFunc::PExact => Some(PrimShape::ShR1(R1 { op: PredOp::PredExact })),
        PFunc::PInexact => Some(PrimShape::ShR1(R1 { op: PredOp::PredInexact })),
        PFunc::PEqv => None,
        PFunc::PEqual => None,
    }
}

/// What applying a primitive to evaluated arguments returns. `eqv?` and
/// `equal?` compare two values structurally; `begin` returns its last
/// argument, or `()` for none; every other primitive goes through its shape.
pub open spec fn apply_prim_spec(f: PFunc, args: Seq<Dat<RtV>>) -> Result<Dat<RtV>, Error>
    recommends
        !(f is PEval),
{
    match f {
        PFunc::PBegin => if args.len() == 0 {
            Ok(Dat::Nil)
        } else {
            Ok(args.last())
        },
        PFunc::PEqv => if args.len() != 2 {
            Err(Error::ArgNumError)
        } else {
            Ok(Dat::Bool(eqv_dat(args[0], args[1])))
        },
        PFunc::PEqual => if args.len() != 2 {
            Err(Error::ArgNumError)
        } else {
            Ok(Dat::Bool(eqv_dat(args[0], args[1])))
        },
        _ => match shape_of_spec(f) {
            Some(s) => shape_call_spec(s, args),
            None => Err(Error::NotCallable),
        },
    }
}

/// Apply a primitive other than `eval` to its evaluated arguments.
pub fn apply_prim(f: PFunc, args: Vec<Datum<RtData>>) -> (r: Result<Datum<RtData>, Error>)
    requires
        !(f is PEval),
    ensures
        prim_result_matches(r, apply_prim_spec(f, views_of(args@))),
{
    match f {
        PFunc::PBegin => {
            if args.len() == 0 {
                Ok(Datum::Nil)
            } else {
                proof {
                    assert(views_of(args@)[args@.len() - 1] == rt_dat_view(
                        args@[args@.len() - 1],
                    ));
                }
                Ok(args[args.len() - 1].dup())
            }
        },
        PFunc::PEqv | PFunc::PEqual => {
            if args.len() != 2 {
                return Err(Error::ArgNumError);
            }
            proof {
                assert(views_of(args@)[0] == rt_dat_view(args@[0]));
                assert(views_of(args@)[1] == rt_dat_view(args@[1]));
            }
            Ok(Datum::Bool(eqv_datum(&args[0], &args[1])))
        },
        _ => {
            match shape_of(f) {
                Some(s) => shape_call(&s, args),
                None => Err(Error::NotCallable),
            }
        },
    }
}

/// The primitives the framework registers, in registry order; `complex?` is
/// a synonym of `number?`.
pub open spec fn libprim_spec() -> Seq<PFunc> {
    seq![
        PFunc::PAdd,
        PFunc::PSub,
        PFunc::PMul,
        PFunc::PDiv,
        PFunc::PList,
        PFunc::PBoolean,
        PFunc::PPair,
        PFunc::PSymbol,
        PFunc::PNumber,
        PFunc::PChar,
        PFunc::PString,
        PFunc::PVector,
        PFunc::PProcedure,
        PFunc::PNull,
        PFunc::PCar,
        PFunc::PCdr,
        PFunc::PZero,
        PFunc::PNumber,
        PFunc::PReal,
        PFunc::PRational,
        PFunc::PInteger,
        PFunc::PEQ,
        PFunc::PLT,
        PFunc::PGT,
        PFunc::PLE,
        PFunc::PGE,
    ]
}

/// The registry name of each entry: the primitive's own name, except the
/// `complex?` synonym.
pub open spec fn libprim_name(i: int) -> Seq<char> {
    if i == 17 {
        "complex?"@
    } else {
        crate::prim::proc_name_spec(libprim_spec()[i])
    }
}

/// Lists all registered primitive procedures with their names and shapes.
pub fn libprimitive() -> (r: Vec<(String, PrimShape)>)
    ensures
        r@.len() == libprim_spec().len(),
        forall|i: int|
            0 <= i < r@.len() ==> (#[trigger] r@[i]).0@ == libprim_name(i) && r@[i].1
                == shape_of_spec(libprim_spec()[i]).unwrap(),
{
    let prims = [PFunc::PAdd, PFunc::PSub, PFunc::PMul, PFunc::PDiv, PFunc::PList,
        PFunc::PBoolean, PFunc::PPair, PFunc::PSymbol, PFunc::PNumber, PFunc::PChar,
        PFunc::PString, PFunc::PVector, PFunc::PProcedure, PFunc::PNull, PFunc::PCar, PFunc::PCdr,
        PFunc::PZero, PFunc::PNumber, PFunc::PReal, PFunc::PRational, PFunc::PInteger, PFunc::PEQ,
        PFunc::PLT, PFunc::PGT, PFunc::PLE, PFunc::PGE];
    let mut v: Vec<(String, PrimShape)> = Vec::new();
    let mut i: usize = 0;
    while i < 26
        invariant
            v@.len() == i,
            0 <= i <= 26,
            prims@ =~= libprim_spec(),
            forall|j: int|
                0 <= j < i ==> (#[trigger] v@[j]).0@ == libprim_name(j) && v@[j].1
                    == shape_of_spec(libprim_spec()[j]).unwrap(),
        decreases 26 - i,
    {
        let p = prims[i];
        let name = if i == 17 {
            "complex?".to_owned()
        } else {
            crate::prim::proc_to_str(&p)
        };
        let sh = match shape_of(p) {
            Some(sh) => sh,
            None => PrimShape::ShR1(R1 { op: PredOp::PredNumber }),
        };
        v.push((name, sh));
        i = i + 1;
    }
    v
}

} // verus!
