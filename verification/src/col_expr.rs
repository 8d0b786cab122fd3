//! Typing a column expression (the body of a `filter`, `derive`, `agg`, ...) against the
//! schema of the frame it runs on: a misspelled column is an error on a closed schema and
//! unknown on an open one, column arithmetic promotes like scalar arithmetic, and the
//! dimension rules of scalar code hold row by row (`mass > 2kg` is fine on a `kg` column,
//! `mass > 2s` is an error, `price * n` composes dimensions).

use vstd::prelude::*;
use crate::units::{Dim, add_exps, fits_i8};
use crate::frames::{
    ColTy, FrameCol, CDim, EvaluationOp, is_numeric, numeric_join, numeric_join_of, cdim,
    dim_clash, dim_clash_of, cdim_join, cdim_join_of, cdim_join_fits, apply_result_col,
    apply_result_of,
};
use crate::frame_schema::{FrameSchema, NoSuchColumn, lookup, miss_view, names_of};
use crate::text::same_text;
use crate::dim_check::{sum_fits, CmpOp, compare_verb, compare_verb_spec};

verus! {

/// A column expression, as the type analysis reads it.
#[derive(Debug)]
pub enum ColExpr {
    /// An integer literal, and whether it is `0`.
    Int(bool),
    /// A float literal with its unit's dimension when it has one, and whether it is zero.
    Float(Option<Dim>, bool),
    /// A string literal.
    Str,
    /// `true` or `false`.
    Bool,
    /// `col("name")`: a column of the input by name; `None` when the name is no literal.
    Col(Option<String>),
    /// `n()`: the number of rows.
    Count,
    /// A value from outside the frame (a `$` splice, a name in scope, a plain call),
    /// broadcast to every row, of the type it has.
    Outer(ColTy),
    /// The same column as its part: a grouping, `lit(x)`, `x.alias(..)`, a naming, an
    /// unwrap.
    Same(Box<ColExpr>),
    /// `if c { t } else { f }` as a column.
    When(Box<ColExpr>, Box<ColExpr>, Box<ColExpr>),
    /// `f(base, extra)`: an aggregation or column function by name, with its extra
    /// argument when it has one.
    Apply(String, Box<ColExpr>, Option<Box<ColExpr>>),
    /// `base.m()`: a column method by name.
    Method(String, Box<ColExpr>),
    /// `base.cast("ty")`, with the target when it is a literal.
    Cast(Option<String>, Box<ColExpr>),
    /// `base.is_in([cells])` or `is_in(base, [cells])` with a list of cells.
    IsIn(Box<ColExpr>, ColList),
    /// `a op b`.
    Arith(EvaluationOp, Box<ColExpr>, Box<ColExpr>),
    /// A comparison `a op b`: `==`, `!=`, `<`, `<=`, `>`, `>=`.
    Compare(CmpOp, Box<ColExpr>, Box<ColExpr>),
    /// `a && b` or `a || b`.
    Logical(Box<ColExpr>, Box<ColExpr>),
    /// `a ?? b`.
    Coalesce(Box<ColExpr>, Box<ColExpr>),
    /// `!x`.
    Not(Box<ColExpr>),
    /// `~x`.
    BitNot(Box<ColExpr>),
    /// Anything else: nothing is known of it.
    Unknown,
}

/// The cells of a list literal.
#[derive(Debug)]
pub enum ColList {
    Nil,
    Cons(Box<ColExpr>, Box<ColList>),
}

/// Why a column expression is refused.
#[derive(Debug)]
pub enum ColError {
    /// A column a closed schema does not have.
    Missing(NoSuchColumn),
    /// The two arms of an `if` column disagree.
    Branches(Dim, Dim),
    /// A comparison across dimensions: `op` is the comparison's operator (`==` for an
    /// `eq` or an `is_in` cell, `!=` for a `neq`).
    Compare(CmpOp, Dim, Dim),
    /// `+`, `-` or `%` across dimensions.
    Combine(EvaluationOp, Dim, Dim),
    /// The fallback of `??` measures something else.
    Fallback(Dim, Dim),
    /// An exponent of a composed dimension leaves the `i8` range.
    Overflow,
}

/// What the contracts see of a refusal: a missing column as its name and the columns
/// there are.
pub enum ColFault {
    Missing(Seq<char>, Seq<char>),
    Branches(Dim, Dim),
    Compare(CmpOp, Dim, Dim),
    Combine(EvaluationOp, Dim, Dim),
    Fallback(Dim, Dim),
    Overflow,
}

pub open spec fn fault_of(e: ColError) -> ColFault {
    match e {
        ColError::Missing(m) => ColFault::Missing(miss_view(m).0, miss_view(m).1),
        ColError::Branches(x, y) => ColFault::Branches(x, y),
        ColError::Compare(op, x, y) => ColFault::Compare(op, x, y),
        ColError::Combine(op, x, y) => ColFault::Combine(op, x, y),
        ColError::Fallback(x, y) => ColFault::Fallback(x, y),
        ColError::Overflow => ColFault::Overflow,
    }
}

/// What the contracts see of a typing result.
pub open spec fn col_view(r: Result<(FrameCol, CDim), ColError>) -> Result<(FrameCol, CDim), ColFault> {
    match r {
        Ok(x) => Ok(x),
        Err(e) => Err(fault_of(e)),
    }
}

/// A column's dimension status (see `frames::cdim`).
pub open spec fn cdim_of(col: FrameCol) -> CDim {
    match (col.ty, col.dim) {
        (_, Some(d)) => CDim::Q(d),
        (Some(t), None) => if is_numeric(t) {
            CDim::Plain
        } else {
            CDim::Any
        },
        _ => CDim::Any,
    }
}

/// The unit a dimension status carries.
pub open spec fn unit_of(d: CDim) -> Option<Dim> {
    match d {
        CDim::Q(x) => Some(x),
        _ => None,
    }
}

/// `e` is a literal zero.
pub open spec fn is_zero(e: ColExpr) -> bool
    decreases e,
{
    match e {
        ColExpr::Int(z) => z,
        ColExpr::Float(_, z) => z,
        ColExpr::Same(x) => is_zero(*x),
        _ => false,
    }
}

/// The column the function `f` makes of `base`, with its dimension status; an overflow
/// when `f` is `var` and squaring the unit leaves the range.
pub open spec fn apply_spec(f: Seq<char>, base: FrameCol) -> Result<(FrameCol, CDim), ColFault> {
    if f == "var"@ && (base.dim matches Some(d) && !fits_i8(add_exps(d, d))) {
        Err(ColFault::Overflow)
    } else {
        let c = apply_result_of(f, base);
        Ok((c, cdim_of(c)))
    }
}

/// The dimension status of an `if` column from those of its arms (which do not clash).
pub open spec fn when_dim(t: CDim, f: CDim) -> CDim {
    match (t, f) {
        (CDim::Q(x), CDim::Q(y)) => if x == y {
            CDim::Q(x)
        } else {
            CDim::Any
        },
        (CDim::Plain, CDim::Plain) => CDim::Plain,
        _ => CDim::Any,
    }
}

/// The column a cast to `target` makes of `base`.
pub open spec fn cast_spec(target: Option<Seq<char>>, base: FrameCol, bd: CDim) -> FrameCol {
    match target {
        Some(t) => if t == "int"@ {
            FrameCol { ty: Some(ColTy::Int), dim: unit_of(bd) }
        } else if t == "float"@ {
            FrameCol { ty: Some(ColTy::Float), dim: unit_of(bd) }
        } else {
            base
        },
        None => base,
    }
}

/// The type and dimension status of `e` on a frame with the columns `es` (`closed` when it
/// has no others), or the first refusal met.
pub open spec fn col_spec(e: ColExpr, es: Seq<(Seq<char>, FrameCol)>, closed: bool) -> Result<
    (FrameCol, CDim),
    ColFault,
>
    decreases e,
{
    match e {
        ColExpr::Int(_) => Ok((FrameCol { ty: Some(ColTy::Int), dim: None }, CDim::Plain)),
        ColExpr::Float(d, _) => Ok(
            (
                FrameCol { ty: Some(ColTy::Float), dim: d },
                match d {
                    Some(x) => CDim::Q(x),
                    None => CDim::Plain,
                },
            ),
        ),
        ColExpr::Str => Ok((FrameCol { ty: Some(ColTy::Str), dim: None }, CDim::Any)),
        ColExpr::Bool => Ok((FrameCol { ty: Some(ColTy::Bool), dim: None }, CDim::Any)),
        ColExpr::Count => Ok((FrameCol { ty: Some(ColTy::Int), dim: None }, CDim::Plain)),
        ColExpr::Outer(t) => Ok((FrameCol { ty: Some(t), dim: None }, CDim::Any)),
        ColExpr::Unknown => Ok((FrameCol { ty: None, dim: None }, CDim::Any)),
        ColExpr::Col(None) => Ok((FrameCol { ty: None, dim: None }, CDim::Any)),
        ColExpr::Col(Some(n)) => match lookup(es, closed, n@) {
            Ok(c) => Ok((c, cdim_of(c))),
            Err(m) => Err(ColFault::Missing(m.0, m.1)),
        },
        ColExpr::Same(x) => col_spec(*x, es, closed),
        ColExpr::When(c, t, f) => match col_spec(*c, es, closed) {
            Err(x) => Err(x),
            Ok(_) => match col_spec(*t, es, closed) {
                Err(x) => Err(x),
                Ok((tc, td)) => match col_spec(*f, es, closed) {
                    Err(x) => Err(x),
                    Ok((fc, fd)) => match dim_clash_of(td, fd) {
                        Some((x, y)) => Err(ColFault::Branches(x, y)),
                        None => {
                            let d = when_dim(td, fd);
                            Ok(
                                (
                                    FrameCol {
                                        ty: match tc.ty {
                                            Some(ty) => Some(ty),
                                            None => fc.ty,
                                        },
                                        dim: unit_of(d),
                                    },
                                    d,
                                ),
                            )
                        },
                    },
                },
            },
        },
        ColExpr::Apply(f, base, extra) => match col_spec(*base, es, closed) {
            Err(x) => Err(x),
            Ok((bc, bd)) => {
                let checked = match extra {
                    None => Ok(()),
                    Some(x) => match col_spec(*x, es, closed) {
                        Err(err) => Err(err),
                        Ok((_, xd)) => if (f@ == "eq"@ || f@ == "neq"@) && !is_zero(*x) {
                            match dim_clash_of(bd, xd) {
                                Some((p, q)) => Err(
                                    ColFault::Compare(
                                        if f@ == "eq"@ {
                                            CmpOp::Eq
                                        } else {
                                            CmpOp::Ne
                                        },
                                        p,
                                        q,
                                    ),
                                ),
                                None => Ok(()),
                            }
                        } else {
                            Ok(())
                        },
                    },
                };
                match checked {
                    Err(err) => Err(err),
                    Ok(_) => apply_spec(f@, bc),
                }
            },
        },
        ColExpr::Method(m, base) => match col_spec(*base, es, closed) {
            Err(x) => Err(x),
            Ok((bc, _)) => apply_spec(m@, bc),
        },
        ColExpr::Cast(t, base) => match col_spec(*base, es, closed) {
            Err(x) => Err(x),
            Ok((bc, bd)) => {
                let c = cast_spec(
                    match t {
                        Some(s) => Some(s@),
                        None => None,
                    },
                    bc,
                    bd,
                );
                Ok((c, cdim_of(c)))
            },
        },
        ColExpr::IsIn(base, cells) => match col_spec(*base, es, closed) {
            Err(x) => Err(x),
            Ok((bc, bd)) => match cells_spec(cells, bd, es, closed) {
                Err(x) => Err(x),
                Ok(_) => apply_spec("is_in"@, bc),
            },
        },
        ColExpr::Arith(op, a, b) => match col_spec(*a, es, closed) {
            Err(x) => Err(x),
            Ok((ac, ad)) => match col_spec(*b, es, closed) {
                Err(x) => Err(x),
                Ok((bc, bd)) => if (op is Plus || op is Minus || op is Modulo) && dim_clash_of(
                    ad,
                    bd,
                ) is Some {
                    let (x, y) = dim_clash_of(ad, bd).unwrap();
                    Err(ColFault::Combine(op, x, y))
                } else if !cdim_join_fits(op, ad, bd) {
                    Err(ColFault::Overflow)
                } else {
                    let d = cdim_join_of(op, ad, bd);
                    Ok((FrameCol { ty: numeric_join_of(op, ac.ty, bc.ty), dim: unit_of(d) }, d))
                },
            },
        },
        ColExpr::Compare(op, a, b) => match col_spec(*a, es, closed) {
            Err(x) => Err(x),
            Ok((_, ad)) => match col_spec(*b, es, closed) {
                Err(x) => Err(x),
                Ok((_, bd)) => if !is_zero(*a) && !is_zero(*b) && dim_clash_of(ad, bd) is Some {
                    let (x, y) = dim_clash_of(ad, bd).unwrap();
                    Err(ColFault::Compare(op, x, y))
                } else {
                    Ok((FrameCol { ty: Some(ColTy::Bool), dim: None }, CDim::Any))
                },
            },
        },
        ColExpr::Logical(a, b) => match col_spec(*a, es, closed) {
            Err(x) => Err(x),
            Ok(_) => match col_spec(*b, es, closed) {
                Err(x) => Err(x),
                Ok(_) => Ok((FrameCol { ty: Some(ColTy::Bool), dim: None }, CDim::Any)),
            },
        },
        ColExpr::Coalesce(a, b) => match col_spec(*a, es, closed) {
            Err(x) => Err(x),
            Ok((ac, ad)) => match col_spec(*b, es, closed) {
                Err(x) => Err(x),
                Ok((_, bd)) => match dim_clash_of(ad, bd) {
                    Some((x, y)) => Err(ColFault::Fallback(x, y)),
                    None => Ok((ac, ad)),
                },
            },
        },
        ColExpr::Not(x) => match col_spec(*x, es, closed) {
            Err(err) => Err(err),
            Ok(_) => Ok((FrameCol { ty: Some(ColTy::Bool), dim: None }, CDim::Any)),
        },
        ColExpr::BitNot(x) => match col_spec(*x, es, closed) {
            Err(err) => Err(err),
            Ok(_) => Ok((FrameCol { ty: Some(ColTy::Int), dim: None }, CDim::Plain)),
        },
    }
}

/// Checking the cells of an `is_in` list against a column of dimension status `bd`: the
/// first refusal met, if any.
pub open spec fn cells_spec(cells: ColList, bd: CDim, es: Seq<(Seq<char>, FrameCol)>, closed: bool) -> Result<
    (),
    ColFault,
>
    decreases cells,
{
    match cells {
        ColList::Nil => Ok(()),
        ColList::Cons(x, rest) => match col_spec(*x, es, closed) {
            Err(err) => Err(err),
            Ok((_, xd)) => match dim_clash_of(bd, xd) {
                Some((p, q)) => Err(ColFault::Compare(CmpOp::Eq, p, q)),
                None => cells_spec(*rest, bd, es, closed),
            },
        },
    }
}

/// What the contracts see of a check of cells.
pub open spec fn unit_view(r: Result<(), ColError>) -> Result<(), ColFault> {
    match r {
        Ok(_) => Ok(()),
        Err(e) => Err(fault_of(e)),
    }
}

fn zero(e: &ColExpr) -> (r: bool)
    ensures
        r == is_zero(*e),
    decreases e,
{
    match e {
        ColExpr::Int(z) => *z,
        ColExpr::Float(_, z) => *z,
        ColExpr::Same(x) => zero(x),
        _ => false,
    }
}

fn join_fits(op: EvaluationOp, a: CDim, b: CDim) -> (r: bool)
    ensures
        r == cdim_join_fits(op, a, b),
{
    match (op, a, b) {
        (EvaluationOp::Multiply, CDim::Q(x), CDim::Q(y)) => sum_fits(&x, &y, false),
        (EvaluationOp::Divide, CDim::Q(x), CDim::Q(y)) => sum_fits(&x, &y, true),
        (EvaluationOp::Div, CDim::Q(x), CDim::Q(y)) => sum_fits(&x, &y, true),
        (EvaluationOp::Divide, CDim::Plain, CDim::Q(y)) => sum_fits(&Dim::none(), &y, true),
        (EvaluationOp::Div, CDim::Plain, CDim::Q(y)) => sum_fits(&Dim::none(), &y, true),
        _ => true,
    }
}

fn apply_fn(f: &str, base: FrameCol) -> (r: Result<(FrameCol, CDim), ColError>)
    ensures
        col_view(r) == apply_spec(f@, base),
{
    if same_text(f, "var") {
        if let Some(d) = base.dim {
            if !sum_fits(&d, &d, false) {
                return Err(ColError::Overflow);
            }
        }
    }
    let c = apply_result_col(f, base);
    let d = cdim(&c);
    Ok((c, d))
}

fn type_or(a: Option<ColTy>, b: Option<ColTy>) -> (r: Option<ColTy>)
    ensures
        r == match a {
            Some(t) => Some(t),
            None => b,
        },
{
    match a {
        Some(t) => Some(t),
        None => b,
    }
}

fn when_of(t: CDim, f: CDim) -> (r: CDim)
    ensures
        r == when_dim(t, f),
{
    match (t, f) {
        (CDim::Q(x), CDim::Q(y)) => if x == y {
            proof {
                if x.0@ == y.0@ {
                    vstd::array::axiom_array_ext_equal(x.0, y.0);
                }
            }
            CDim::Q(x)
        } else {
            CDim::Any
        },
        (CDim::Plain, CDim::Plain) => CDim::Plain,
        _ => CDim::Any,
    }
}

fn col_when(e: &ColExpr, input: &FrameSchema) -> (r: Result<(FrameCol, CDim), ColError>)
    requires
        *e is When,
    ensures
        col_view(r) == col_spec(*e, input.entries(), input.closed),
    decreases e, 0nat,
{
    match e {
        ColExpr::When(c, t, f) => {
            if let Err(x) = col_expr(c, input) {
                return Err(x);
            }
            let (tc, td) = match col_expr(t, input) {
                Ok(v) => v,
                Err(x) => return Err(x),
            };
            let (fc, fd) = match col_expr(f, input) {
                Ok(v) => v,
                Err(x) => return Err(x),
            };
            if let Some((x, y)) = dim_clash(td, fd) {
                return Err(ColError::Branches(x, y));
            }
            let d = when_of(td, fd);
            Ok((FrameCol { ty: type_or(tc.ty, fc.ty), dim: d.dim() }, d))
        },
        _ => Err(ColError::Overflow),
    }
}

fn col_apply(e: &ColExpr, input: &FrameSchema) -> (r: Result<(FrameCol, CDim), ColError>)
    requires
        *e is Apply,
    ensures
        col_view(r) == col_spec(*e, input.entries(), input.closed),
    decreases e, 0nat,
{
    match e {
        ColExpr::Apply(f, base, extra) => {
            let (bc, bd) = match col_expr(base, input) {
                Ok(v) => v,
                Err(x) => return Err(x),
            };
            if let Some(x) = extra {
                let (_, xd) = match col_expr(x, input) {
                    Ok(v) => v,
                    Err(err) => return Err(err),
                };
                let is_eq = same_text(f.as_str(), "eq");
                if (is_eq || same_text(f.as_str(), "neq")) && !zero(x) {
                    if let Some((p, q)) = dim_clash(bd, xd) {
                        let op = if is_eq {
                            CmpOp::Eq
                        } else {
                            CmpOp::Ne
                        };
                        return Err(ColError::Compare(op, p, q));
                    }
                }
            }
            apply_fn(f.as_str(), bc)
        },
        _ => Err(ColError::Overflow),
    }
}

fn col_cells(cells: &ColList, bd: CDim, input: &FrameSchema) -> (r: Result<(), ColError>)
    ensures
        unit_view(r) == cells_spec(*cells, bd, input.entries(), input.closed),
    decreases cells, 2nat,
{
    match cells {
        ColList::Nil => Ok(()),
        ColList::Cons(x, rest) => {
            let (_, xd) = match col_expr(x, input) {
                Ok(v) => v,
                Err(err) => return Err(err),
            };
            if let Some((p, q)) = dim_clash(bd, xd) {
                return Err(ColError::Compare(CmpOp::Eq, p, q));
            }
            col_cells(rest, bd, input)
        },
    }
}

fn col_arith(e: &ColExpr, input: &FrameSchema) -> (r: Result<(FrameCol, CDim), ColError>)
    requires
        *e is Arith,
    ensures
        col_view(r) == col_spec(*e, input.entries(), input.closed),
    decreases e, 0nat,
{
    match e {
        ColExpr::Arith(op, a, b) => {
            let (ac, ad) = match col_expr(a, input) {
                Ok(v) => v,
                Err(x) => return Err(x),
            };
            let (bc, bd) = match col_expr(b, input) {
                Ok(v) => v,
                Err(x) => return Err(x),
            };
            let keeps = match op {
                EvaluationOp::Plus | EvaluationOp::Minus | EvaluationOp::Modulo => true,
                _ => false,
            };
            if keeps {
                if let Some((x, y)) = dim_clash(ad, bd) {
                    return Err(ColError::Combine(*op, x, y));
                }
            }
            if !join_fits(*op, ad, bd) {
                return Err(ColError::Overflow);
            }
            let d = cdim_join(*op, ad, bd);
            Ok((FrameCol { ty: numeric_join(*op, &ac.ty, &bc.ty), dim: d.dim() }, d))
        },
        _ => Err(ColError::Overflow),
    }
}

fn col_pair(e: &ColExpr, input: &FrameSchema) -> (r: Result<(FrameCol, CDim), ColError>)
    requires
        *e is Compare || *e is Logical || *e is Coalesce,
    ensures
        col_view(r) == col_spec(*e, input.entries(), input.closed),
    decreases e, 0nat,
{
    match e {
        ColExpr::Compare(op, a, b) => {
            let (_, ad) = match col_expr(a, input) {
                Ok(v) => v,
                Err(x) => return Err(x),
            };
            let (_, bd) = match col_expr(b, input) {
                Ok(v) => v,
                Err(x) => return Err(x),
            };
            if !zero(a) && !zero(b) {
                if let Some((x, y)) = dim_clash(ad, bd) {
                    return Err(ColError::Compare(*op, x, y));
                }
            }
            Ok((FrameCol::known(ColTy::Bool), CDim::Any))
        },
        ColExpr::Logical(a, b) => {
            if let Err(x) = col_expr(a, input) {
                return Err(x);
            }
            if let Err(x) = col_expr(b, input) {
                return Err(x);
            }
            Ok((FrameCol::known(ColTy::Bool), CDim::Any))
        },
        ColExpr::Coalesce(a, b) => {
            let (ac, ad) = match col_expr(a, input) {
                Ok(v) => v,
                Err(x) => return Err(x),
            };
            let (_, bd) = match col_expr(b, input) {
                Ok(v) => v,
                Err(x) => return Err(x),
            };
            if let Some((x, y)) = dim_clash(ad, bd) {
                return Err(ColError::Fallback(x, y));
            }
            Ok((ac, ad))
        },
        _ => Err(ColError::Overflow),
    }
}

/// The type and dimension status of the column expression `e` on a frame of schema
/// `input`, or the first refusal met: a column a closed schema lacks, a dimension clash
/// in `+ - %`, a comparison, the arms of an `if` or the fallback of `??`, or a composed
/// dimension out of range.
pub fn col_expr(e: &ColExpr, input: &FrameSchema) -> (r: Result<(FrameCol, CDim), ColError>)
    ensures
        col_view(r) == col_spec(*e, input.entries(), input.closed),
    decreases e, 1nat,
{
    match e {
        ColExpr::Int(_) => Ok((FrameCol::known(ColTy::Int), CDim::Plain)),
        ColExpr::Float(d, _) => Ok(
            (
                FrameCol { ty: Some(ColTy::Float), dim: *d },
                match d {
                    Some(x) => CDim::Q(*x),
                    None => CDim::Plain,
                },
            ),
        ),
        ColExpr::Str => Ok((FrameCol::known(ColTy::Str), CDim::Any)),
        ColExpr::Bool => Ok((FrameCol::known(ColTy::Bool), CDim::Any)),
        ColExpr::Count => Ok((FrameCol::known(ColTy::Int), CDim::Plain)),
        ColExpr::Outer(t) => Ok((FrameCol::known(t.duplicate()), CDim::Any)),
        ColExpr::Unknown => Ok((FrameCol::unknown(), CDim::Any)),
        ColExpr::Col(None) => Ok((FrameCol::unknown(), CDim::Any)),
        ColExpr::Col(Some(n)) => match input.col(n.as_str()) {
            Ok(c) => {
                let d = cdim(&c);
                Ok((c, d))
            },
            Err(m) => Err(ColError::Missing(m)),
        },
        ColExpr::Same(x) => col_expr(x, input),
        ColExpr::When(..) => col_when(e, input),
        ColExpr::Apply(..) => col_apply(e, input),
        ColExpr::Method(m, base) => {
            let (bc, _) = match col_expr(base, input) {
                Ok(v) => v,
                Err(x) => return Err(x),
            };
            apply_fn(m.as_str(), bc)
        },
        ColExpr::Cast(t, base) => {
            let (bc, bd) = match col_expr(base, input) {
                Ok(v) => v,
                Err(x) => return Err(x),
            };
            let c = match t {
                Some(s) => if same_text(s.as_str(), "int") {
                    FrameCol { ty: Some(ColTy::Int), dim: bd.dim() }
                } else if same_text(s.as_str(), "float") {
                    FrameCol { ty: Some(ColTy::Float), dim: bd.dim() }
                } else {
                    bc
                },
                None => bc,
            };
            let d = cdim(&c);
            Ok((c, d))
        },
        ColExpr::IsIn(base, cells) => {
            let (bc, bd) = match col_expr(base, input) {
                Ok(v) => v,
                Err(x) => return Err(x),
            };
            if let Err(x) = col_cells(cells, bd, input) {
                return Err(x);
            }
            apply_fn("is_in", bc)
        },
        ColExpr::Arith(..) => col_arith(e, input),
        ColExpr::Compare(..) | ColExpr::Logical(..) | ColExpr::Coalesce(..) => col_pair(e, input),
        ColExpr::Not(x) => match col_expr(x, input) {
            Ok(_) => Ok((FrameCol::known(ColTy::Bool), CDim::Any)),
            Err(err) => Err(err),
        },
        ColExpr::BitNot(x) => match col_expr(x, input) {
            Ok(_) => Ok((FrameCol::known(ColTy::Int), CDim::Plain)),
            Err(err) => Err(err),
        },
    }
}

/// A column read fails exactly on a closed schema that lacks the name: a misspelled
/// column is an error there, and stays unknown on an open schema.
pub proof fn lemma_missing_column_only_when_closed(
    name: String,
    es: Seq<(Seq<char>, FrameCol)>,
    closed: bool,
)
    ensures
        col_spec(ColExpr::Col(Some(name)), es, closed) is Err <==> (closed && !names_of(
            es,
        ).contains(name@)),
{
    crate::frame_schema::lemma_lookup_misses_only_when_closed(es, closed, name@);
}

/// A comparison against a literal zero never clashes, whatever the other side measures.
pub proof fn lemma_zero_compares_with_any_column(
    op: CmpOp,
    a: ColExpr,
    es: Seq<(Seq<char>, FrameCol)>,
    closed: bool,
)
    ensures
        col_spec(a, es, closed) is Ok ==> col_spec(
            ColExpr::Compare(op, Box::new(a), Box::new(ColExpr::Int(true))),
            es,
            closed,
        ) == Ok::<(FrameCol, CDim), ColFault>((FrameCol { ty: Some(ColTy::Bool), dim: None }, CDim::Any)),
{
    let z = ColExpr::Int(true);
    assert(is_zero(z));
    assert(col_spec(z, es, closed) is Ok);
    let e = ColExpr::Compare(op, Box::new(a), Box::new(z));
    if col_spec(a, es, closed) is Ok {
        assert(col_spec(e, es, closed) == Ok::<(FrameCol, CDim), ColFault>(
            (FrameCol { ty: Some(ColTy::Bool), dim: None }, CDim::Any),
        ));
    }
}

/// How a refusal is reported, before the names or dimensions it gives: `cannot compare`
/// for `==` and `!=`, `cannot order` for `<`, `<=`, `>`, `>=`, and so on.
pub open spec fn col_headline_spec(e: ColFault) -> Seq<char> {
    match e {
        ColFault::Missing(_, _) => "no such column"@,
        ColFault::Branches(_, _) => "branches disagree"@,
        ColFault::Compare(op, _, _) => "cannot "@ + compare_verb_spec(op),
        ColFault::Combine(op, _, _) => if op is Plus {
            "cannot add"@
        } else if op is Minus {
            "cannot subtract"@
        } else {
            "cannot combine"@
        },
        ColFault::Fallback(_, _) => "`??` fallback has a different dimension"@,
        ColFault::Overflow => "exponent out of range"@,
    }
}

impl ColError {
    /// How the refusal is reported, before the names or dimensions it gives.
    pub fn headline(&self) -> (r: String)
        ensures
            r@ == col_headline_spec(fault_of(*self)),
    {
        let mut r = String::new();
        match self {
            ColError::Missing(_) => r.append("no such column"),
            ColError::Branches(_, _) => r.append("branches disagree"),
            ColError::Compare(op, _, _) => {
                r.append("cannot ");
                r.append(compare_verb(*op));
            },
            ColError::Combine(op, _, _) => match op {
                EvaluationOp::Plus => r.append("cannot add"),
                EvaluationOp::Minus => r.append("cannot subtract"),
                _ => r.append("cannot combine"),
            },
            ColError::Fallback(_, _) => r.append("`??` fallback has a different dimension"),
            ColError::Overflow => r.append("exponent out of range"),
        }
        r
    }
}

/// A column comparison across two known, different dimensions, neither side a literal
/// zero, is refused naming its operator.
pub proof fn lemma_column_comparison_names_its_operator(
    op: CmpOp,
    a: ColExpr,
    b: ColExpr,
    es: Seq<(Seq<char>, FrameCol)>,
    closed: bool,
    x: Dim,
    y: Dim,
)
    requires
        col_spec(a, es, closed) matches Ok((_, CDim::Q(d))) && d == x,
        col_spec(b, es, closed) matches Ok((_, CDim::Q(d))) && d == y,
        x != y,
        !is_zero(a),
        !is_zero(b),
    ensures
        col_spec(ColExpr::Compare(op, Box::new(a), Box::new(b)), es, closed) == Err::<
            (FrameCol, CDim),
            ColFault,
        >(ColFault::Compare(op, x, y)),
{
}

} // verus!
