//! The primitive procedures and special-form keywords of the prelude, as
//! closed tagged sets, and their printed names.

use vstd::prelude::*;

verus! {

/// Every primitive procedure of the prelude.
#[derive(Clone, Copy, Debug, PartialEq, Eq, Structural)]
pub enum PFunc {
    PEval,
    PBegin,
    PAdd,
    PSub,
    PMul,
    PDiv,
    PCar,
    PCdr,
    PEqv,
    PEqual,
    PNumber,
    PReal,
    PInteger,
    PExact,
    PInexact,
    PEQ,
    PGT,
    PLT,
    PGE,
    PLE,
    PList,
    PZero,
    PBoolean,
    PPair,
    PSymbol,
    PChar,
    PString,
    PVector,
    PProcedure,
    PNull,
    PRational,
}

/// The name each primitive is bound to.
pub open spec fn proc_name_spec(prim: PFunc) -> Seq<char> {
    match prim {
        PFunc::PEval => "eval"@,
        PFunc::PBegin => "begin"@,
        PFunc::PAdd => "+"@,
        PFunc::PSub => "-"@,
        PFunc::PMul => "*"@,
        PFunc::PDiv => "/"@,
        PFunc::PCar => "car"@,
        PFunc::PCdr => "cdr"@,
        PFunc::PEqv => "eqv?"@,
        PFunc::PEqual => "equal?"@,
        PFunc::PNumber => "number?"@,
        PFunc::PReal => "real?"@,
        PFunc::PInteger => "integer?"@,
        PFunc::PExact => "exact?"@,
        PFunc::PInexact => "inexact?"@,
        PFunc::PEQ => "="@,
        PFunc::PGT => ">"@,
        PFunc::PLT => "<"@,
        PFunc::PGE => ">="@,
        PFunc::PLE => "<="@,
        PFunc::PList => "list"@,
        PFunc::PZero => "zero?"@,
        PFunc::PBoolean => "boolean?"@,
        PFunc::PPair => "pair?"@,
        PFunc::PSymbol => "symbol?"@,
        PFunc::PChar => "char?"@,
        PFunc::PString => "string?"@,
        PFunc::PVector => "vector?"@,
        PFunc::PProcedure => "procedure?"@,
        PFunc::PNull => "null?"@,
        PFunc::PRational => "rational?"@,
    }
}

/// The printed name of a primitive.
pub fn proc_to_str(prim: &PFunc) -> (r: String)
    ensures
        r@ == proc_name_spec(*prim),
{
    match prim {
        PFunc::PEval => "eval".to_owned(),
        PFunc::PBegin => "begin".to_owned(),
        PFunc::PAdd => "+".to_owned(),
        PFunc::PSub => "-".to_owned(),
        PFunc::PMul => "*".to_owned(),
        PFunc::PDiv => "/".to_owned(),
        PFunc::PCar => "car".to_owned(),
        PFunc::PCdr => "cdr".to_owned(),
        PFunc::PEqv => "eqv?".to_owned(),
        PFunc::PEqual => "equal?".to_owned(),
        PFunc::PNumber => "number?".to_owned(),
        PFunc::PReal => "real?".to_owned(),
        PFunc::PInteger => "integer?".to_owned(),
        PFunc::PExact => "exact?".to_owned(),
        PFunc::PInexact => "inexact?".to_owned(),
        PFunc::PEQ => "=".to_owned(),
        PFunc::PGT => ">".to_owned(),
        PFunc::PLT => "<".to_owned(),
        PFunc::PGE => ">=".to_owned(),
        PFunc::PLE => "<=".to_owned(),
        PFunc::PList => "list".to_owned(),
        PFunc::PZero => "zero?".to_owned(),
        PFunc::PBoolean => "boolean?".to_owned(),
        PFunc::PPair => "pair?".to_owned(),
        PFunc::PSymbol => "symbol?".to_owned(),
        PFunc::PChar => "char?".to_owned(),
        PFunc::PString => "string?".to_owned(),
        PFunc::PVector => "vector?".to_owned(),
        PFunc::PProcedure => "procedure?".to_owned(),
        PFunc::PNull => "null?".to_owned(),
        PFunc::PRational => "rational?".to_owned(),
    }
}

/// The primitives the global environment starts with, in order.
pub open spec fn prelude_spec() -> Seq<PFunc> {
    seq![
        PFunc::PEval,
        PFunc::PBegin,
        PFunc::PAdd,
        PFunc::PSub,
        PFunc::PMul,
        PFunc::PDiv,
        PFunc::PCar,
        PFunc::PCdr,
        PFunc::PEqv,
        PFunc::PEqual,
        PFunc::PNumber,
        PFunc::PReal,
        PFunc::PInteger,
        PFunc::PExact,
        PFunc::PInexact,
        PFunc::PEQ,
        PFunc::PGT,
        PFunc::PLT,
        PFunc::PGE,
        PFunc::PLE,
    ]
}

/// Name/primitive pairs for the standard prelude.
pub fn prelude() -> (r: Vec<(String, PFunc)>)
    ensures
        r@.len() == prelude_spec().len(),
        forall|i: int|
            0 <= i < r@.len() ==> (#[trigger] r@[i]).1 == prelude_spec()[i] && r@[i].0@
                == proc_name_spec(prelude_spec()[i]),
{
    let mut v: Vec<(String, PFunc)> = Vec::new();
    let prims = [PFunc::PEval, PFunc::PBegin, PFunc::PAdd, PFunc::PSub, PFunc::PMul, PFunc::PDiv,
        PFunc::PCar, PFunc::PCdr, PFunc::PEqv, PFunc::PEqual, PFunc::PNumber, PFunc::PReal,
        PFunc::PInteger, PFunc::PExact, PFunc::PInexact, PFunc::PEQ, PFunc::PGT, PFunc::PLT,
        PFunc::PGE, PFunc::PLE];
    let mut i: usize = 0;
    while i < 20
        invariant
            v@.len() == i,
            0 <= i <= 20,
            prims@ =~= prelude_spec(),
            forall|j: int|
                0 <= j < i ==> (#[trigger] v@[j]).1 == prelude_spec()[j] && v@[j].0@
                    == proc_name_spec(prelude_spec()[j]),
        decreases 20 - i,
    {
        let p = prims[i];
        v.push((proc_to_str(&p), p));
        i = i + 1;
    }
    v
}

/// Every special form the evaluator recognizes by keyword.
#[derive(Clone, Copy, Debug, PartialEq, Eq, Structural)]
pub enum PrimSyntax {
    SynIf,
    SynLambda,
    SynDefine,
    SynSet,
    SynQuote,
    SynQQuote,
    SynUnquote,
}

/// The keyword of each special form.
pub open spec fn syntax_name_spec(syn: PrimSyntax) -> Seq<char> {
    match syn {
        PrimSyntax::SynIf => "if"@,
        PrimSyntax::SynLambda => "lambda"@,
        PrimSyntax::SynDefine => "define"@,
        PrimSyntax::SynSet => "set!"@,
        PrimSyntax::SynQuote => "quote"@,
        PrimSyntax::SynQQuote => "quasiquote"@,
        PrimSyntax::SynUnquote => "unquote"@,
    }
}

/// The printed keyword of a special form.
pub fn syntax_to_str(syn: &PrimSyntax) -> (r: String)
    ensures
        r@ == syntax_name_spec(*syn),
{
    match syn {
        PrimSyntax::SynIf => "if".to_owned(),
        PrimSyntax::SynLambda => "lambda".to_owned(),
        PrimSyntax::SynDefine => "define".to_owned(),
        PrimSyntax::SynSet => "set!".to_owned(),
        PrimSyntax::SynQuote => "quote".to_owned(),
        PrimSyntax::SynQQuote => "quasiquote".to_owned(),
        PrimSyntax::SynUnquote => "unquote".to_owned(),
    }
}

/// The special forms, in order.
pub open spec fn syntax_prelude_spec() -> Seq<PrimSyntax> {
    seq![
        PrimSyntax::SynIf,
        PrimSyntax::SynLambda,
        PrimSyntax::SynDefine,
        PrimSyntax::SynSet,
        PrimSyntax::SynQuote,
        PrimSyntax::SynQQuote,
        PrimSyntax::SynUnquote,
    ]
}

/// Keyword/special-form pairs the evaluator recognizes.
pub fn syntax_prelude() -> (r: Vec<(String, PrimSyntax)>)
    ensures
        r@.len() == syntax_prelude_spec().len(),
        forall|i: int|
            0 <= i < r@.len() ==> (#[trigger] r@[i]).1 == syntax_prelude_spec()[i] && r@[i].0@
                == syntax_name_spec(syntax_prelude_spec()[i]),
{
    let mut v: Vec<(String, PrimSyntax)> = Vec::new();
    let syns = [PrimSyntax::SynIf, PrimSyntax::SynLambda, PrimSyntax::SynDefine,
        PrimSyntax::SynSet, PrimSyntax::SynQuote, PrimSyntax::SynQQuote, PrimSyntax::SynUnquote];
    let mut i: usize = 0;
    while i < 7
        invariant
            v@.len() == i,
            0 <= i <= 7,
            syns@ =~= syntax_prelude_spec(),
            forall|j: int|
                0 <= j < i ==> (#[trigger] v@[j]).1 == syntax_prelude_spec()[j] && v@[j].0@
                    == syntax_name_spec(syntax_prelude_spec()[j]),
        decreases 7 - i,
    {
        let s = syns[i];
        v.push((syntax_to_str(&s), s));
        i = i + 1;
    }
    v
}

} // verus!
