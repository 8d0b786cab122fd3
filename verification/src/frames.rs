//! What the type analysis knows about one column of a dataframe: the element type `pull`
//! gives and the unit the column carries, and how column arithmetic and aggregations
//! change both.

use vstd::prelude::*;
use crate::text::same_text;
use crate::units::{
    Dim, add_exps, dim_div, dim_is_none, dim_mul, dim_none, fits_i8, lemma_dim_div, lemma_dim_mul,
    sub_exps,
};

verus! {

/// The element types the column logic tells apart; `Other` is every other type.
#[derive(Debug)]
pub enum ColTy {
    Int,
    Float,
    Str,
    Bool,
    Array(Box<ColTy>),
    Other,
}

/// What the type analysis knows about one column of a frame.
#[derive(Debug)]
pub struct FrameCol {
    /// The element type `pull("name")` returns; `None` when it isn't tracked.
    pub ty: Option<ColTy>,
    /// The column's unit dimension, when it is a quantity column.
    pub dim: Option<Dim>,
}

impl ColTy {
    /// A copy of this type.
    pub fn duplicate(&self) -> (r: ColTy)
        ensures
            r == *self,
        decreases self,
    {
        match self {
            ColTy::Int => ColTy::Int,
            ColTy::Float => ColTy::Float,
            ColTy::Str => ColTy::Str,
            ColTy::Bool => ColTy::Bool,
            ColTy::Array(inner) => ColTy::Array(Box::new(inner.duplicate())),
            ColTy::Other => ColTy::Other,
        }
    }
}

impl FrameCol {
    /// A copy of this column.
    pub fn duplicate(&self) -> (r: FrameCol)
        ensures
            r == *self,
    {
        let ty = match &self.ty {
            Some(t) => Some(t.duplicate()),
            None => None,
        };
        FrameCol { ty, dim: self.dim }
    }

    /// A column of elements of type `ty`, carrying no unit.
    pub fn known(ty: ColTy) -> (c: FrameCol)
        ensures
            c.ty == Some(ty),
            c.dim is None,
    {
        FrameCol { ty: Some(ty), dim: None }
    }

    /// A column nothing is known of.
    pub fn unknown() -> (c: FrameCol)
        ensures
            c.ty is None,
            c.dim is None,
    {
        FrameCol { ty: None, dim: None }
    }
}

/// `t` is a number type.
pub open spec fn is_numeric(t: ColTy) -> bool {
    t is Int || t is Float
}

/// Whether `ty` is a number type.
pub fn numeric(ty: &ColTy) -> (r: bool)
    ensures
        r == is_numeric(*ty),
{
    match ty {
        ColTy::Int | ColTy::Float => true,
        _ => false,
    }
}

/// The binary operators of column arithmetic; `Div` is the integer-keeping `~/`.
#[derive(Debug, Clone, Copy, PartialEq, Eq)]
pub enum EvaluationOp {
    Plus,
    Minus,
    Multiply,
    Divide,
    Div,
    Modulo,
    And,
    Or,
    BitShiftLeft,
    BitShiftRight,
    Xor,
}

/// The element type of `a <op> b`, promoting like scalar arithmetic: `/` always gives a
/// float, `~/` and `%` keep two ints, `+` with a string concatenates, floats absorb
/// ints, `and`/`or` need bools, shifts and `^` give ints; `None` when either side is
/// untracked or the pair doesn't combine.
pub open spec fn numeric_join_of(op: EvaluationOp, a: Option<ColTy>, b: Option<ColTy>) -> Option<
    ColTy,
> {
    match (a, b) {
        (Some(a), Some(b)) => match op {
            EvaluationOp::Divide => if is_numeric(a) || is_numeric(b) {
                Some(ColTy::Float)
            } else {
                None
            },
            EvaluationOp::Div | EvaluationOp::Modulo | EvaluationOp::Minus
            | EvaluationOp::Multiply => if a is Int && b is Int {
                Some(ColTy::Int)
            } else if is_numeric(a) && is_numeric(b) {
                Some(ColTy::Float)
            } else {
                None
            },
            EvaluationOp::Plus => if a is Str || b is Str {
                Some(ColTy::Str)
            } else if a is Int && b is Int {
                Some(ColTy::Int)
            } else if is_numeric(a) && is_numeric(b) {
                Some(ColTy::Float)
            } else {
                None
            },
            EvaluationOp::And | EvaluationOp::Or => if a is Bool && b is Bool {
                Some(ColTy::Bool)
            } else {
                None
            },
            EvaluationOp::BitShiftLeft | EvaluationOp::BitShiftRight | EvaluationOp::Xor => Some(
                ColTy::Int,
            ),
        },
        _ => None,
    }
}

/// The element type `a <op> b` computes; see `numeric_join_of`.
pub fn numeric_join(op: EvaluationOp, a: &Option<ColTy>, b: &Option<ColTy>) -> (r: Option<ColTy>)
    ensures
        r == numeric_join_of(op, *a, *b),
{
    let (a, b) = match (a, b) {
        (Some(a), Some(b)) => (a, b),
        _ => return None,
    };
    let both_int = matches!(a, ColTy::Int) && matches!(b, ColTy::Int);
    let both_numeric = numeric(a) && numeric(b);
    match op {
        EvaluationOp::Divide => if numeric(a) || numeric(b) {
            Some(ColTy::Float)
        } else {
            None
        },
        EvaluationOp::Div | EvaluationOp::Modulo | EvaluationOp::Minus | EvaluationOp::Multiply => {
            if both_int {
                Some(ColTy::Int)
            } else if both_numeric {
                Some(ColTy::Float)
            } else {
                None
            }
        },
        EvaluationOp::Plus => if matches!(a, ColTy::Str) || matches!(b, ColTy::Str) {
            Some(ColTy::Str)
        } else if both_int {
            Some(ColTy::Int)
        } else if both_numeric {
            Some(ColTy::Float)
        } else {
            None
        },
        EvaluationOp::And | EvaluationOp::Or => if matches!(a, ColTy::Bool) && matches!(
            b,
            ColTy::Bool,
        ) {
            Some(ColTy::Bool)
        } else {
            None
        },
        EvaluationOp::BitShiftLeft | EvaluationOp::BitShiftRight | EvaluationOp::Xor => Some(
            ColTy::Int,
        ),
    }
}

/// Column arithmetic promotes the same whichever side each operand is on.
pub proof fn lemma_numeric_join_symmetric(op: EvaluationOp, a: Option<ColTy>, b: Option<ColTy>)
    ensures
        numeric_join_of(op, a, b) == numeric_join_of(op, b, a),
{
}

/// How certainly a column expression's dimension is known: a unit-carrying value, a
/// definitely plain number, or can't tell (which never causes an error).
#[derive(Debug, Clone, Copy)]
pub enum CDim {
    Any,
    Plain,
    Q(Dim),
}

impl CDim {
    /// The unit a column carries (`Any` and `Plain` carry none).
    pub fn dim(self) -> (r: Option<Dim>)
        ensures
            r == match self {
                CDim::Q(d) => Some(d),
                _ => None::<Dim>,
            },
    {
        match self {
            CDim::Q(d) => Some(d),
            _ => None,
        }
    }
}

/// A column's dimension status: a declared unit is `Q`, a numeric column with no unit is
/// `Plain`, anything else is out of reach.
pub fn cdim(col: &FrameCol) -> (r: CDim)
    ensures
        r == match (col.ty, col.dim) {
            (_, Some(d)) => CDim::Q(d),
            (Some(t), None) => if is_numeric(t) {
                CDim::Plain
            } else {
                CDim::Any
            },
            _ => CDim::Any,
        },
{
    match (&col.ty, col.dim) {
        (_, Some(d)) => CDim::Q(d),
        (Some(t), None) => if numeric(t) {
            CDim::Plain
        } else {
            CDim::Any
        },
        _ => CDim::Any,
    }
}

/// Two known sides that disagree where one dimension is needed, a plain number counting
/// as dimensionless; `None` when they agree or either side is unknown.
pub open spec fn dim_clash_of(a: CDim, b: CDim) -> Option<(Dim, Dim)> {
    match (a, b) {
        (CDim::Q(x), CDim::Q(y)) => if x != y {
            Some((x, y))
        } else {
            None
        },
        (CDim::Q(x), CDim::Plain) => if !dim_is_none(x) {
            Some((x, dim_none()))
        } else {
            None
        },
        (CDim::Plain, CDim::Q(y)) => if !dim_is_none(y) {
            Some((dim_none(), y))
        } else {
            None
        },
        _ => None,
    }
}

fn same_dim(x: &Dim, y: &Dim) -> (r: bool)
    ensures
        r == (*x == *y),
{
    let r = *x == *y;
    proof {
        if x.0@ == y.0@ {
            vstd::array::axiom_array_ext_equal(x.0, y.0);
        }
    }
    r
}

/// `a` and `b` side by side where one dimension is needed (`+ - %`, comparisons):
/// the two dimensions when both are known and differ.
pub fn dim_clash(a: CDim, b: CDim) -> (r: Option<(Dim, Dim)>)
    ensures
        r == dim_clash_of(a, b),
{
    match (a, b) {
        (CDim::Q(x), CDim::Q(y)) => if !same_dim(&x, &y) {
            Some((x, y))
        } else {
            None
        },
        (CDim::Q(x), CDim::Plain) => if !x.is_none() {
            Some((x, Dim::none()))
        } else {
            None
        },
        (CDim::Plain, CDim::Q(y)) => if !y.is_none() {
            Some((Dim::none(), y))
        } else {
            None
        },
        _ => None,
    }
}

/// A clash found one way round is found the other way round, its sides swapped.
pub proof fn lemma_dim_clash_symmetric(a: CDim, b: CDim)
    ensures
        dim_clash_of(b, a) == match dim_clash_of(a, b) {
            Some((x, y)) => Some((y, x)),
            None => None::<(Dim, Dim)>,
        },
{
}

/// The dimension arithmetic `a <op> b` needs to stay in range.
pub open spec fn cdim_join_fits(op: EvaluationOp, a: CDim, b: CDim) -> bool {
    match (op, a, b) {
        (EvaluationOp::Multiply, CDim::Q(x), CDim::Q(y)) => fits_i8(add_exps(x, y)),
        (EvaluationOp::Divide, CDim::Q(x), CDim::Q(y)) | (EvaluationOp::Div, CDim::Q(x), CDim::Q(
            y,
        )) => fits_i8(sub_exps(x, y)),
        (EvaluationOp::Divide, CDim::Plain, CDim::Q(y)) | (EvaluationOp::Div, CDim::Plain, CDim::Q(
            y,
        )) => fits_i8(sub_exps(dim_none(), y)),
        _ => true,
    }
}

/// The dimension `a <op> b` computes: `*` and `/` compose dimensions, a plain operand
/// scales without changing one, `+ - %` keep the known side's, and anything else is
/// unknown.
pub open spec fn cdim_join_of(op: EvaluationOp, a: CDim, b: CDim) -> CDim {
    match op {
        EvaluationOp::Multiply => match (a, b) {
            (CDim::Q(x), CDim::Q(y)) => CDim::Q(dim_mul(x, y)),
            (CDim::Q(x), _) | (_, CDim::Q(x)) => CDim::Q(x),
            (CDim::Plain, CDim::Plain) => CDim::Plain,
            _ => CDim::Any,
        },
        EvaluationOp::Divide | EvaluationOp::Div => match (a, b) {
            (CDim::Q(x), CDim::Q(y)) => CDim::Q(dim_div(x, y)),
            (CDim::Q(x), _) => CDim::Q(x),
            (CDim::Plain, CDim::Q(y)) => CDim::Q(dim_div(dim_none(), y)),
            (CDim::Plain, CDim::Plain) => CDim::Plain,
            _ => CDim::Any,
        },
        EvaluationOp::Plus | EvaluationOp::Minus | EvaluationOp::Modulo => match (a, b) {
            (CDim::Q(x), CDim::Q(_)) | (CDim::Q(x), CDim::Any) | (CDim::Any, CDim::Q(x)) => CDim::Q(
                x,
            ),
            (CDim::Plain, CDim::Plain) => CDim::Plain,
            _ => CDim::Any,
        },
        _ => CDim::Any,
    }
}

/// The dimension `a <op> b` computes; see `cdim_join_of`.
pub fn cdim_join(op: EvaluationOp, a: CDim, b: CDim) -> (r: CDim)
    requires
        cdim_join_fits(op, a, b),
    ensures
        r == cdim_join_of(op, a, b),
{
    match op {
        EvaluationOp::Multiply => match (a, b) {
            (CDim::Q(x), CDim::Q(y)) => {
                let z = x.mul(y);
                proof {
                    lemma_dim_mul(x, y, z);
                }
                CDim::Q(z)
            },
            (CDim::Q(x), _) | (_, CDim::Q(x)) => CDim::Q(x),
            (CDim::Plain, CDim::Plain) => CDim::Plain,
            _ => CDim::Any,
        },
        EvaluationOp::Divide | EvaluationOp::Div => match (a, b) {
            (CDim::Q(x), CDim::Q(y)) => {
                let z = x.div(y);
                proof {
                    lemma_dim_div(x, y, z);
                }
                CDim::Q(z)
            },
            (CDim::Q(x), _) => CDim::Q(x),
            (CDim::Plain, CDim::Q(y)) => {
                let z = Dim::none().div(y);
                proof {
                    lemma_dim_div(dim_none(), y, z);
                }
                CDim::Q(z)
            },
            (CDim::Plain, CDim::Plain) => CDim::Plain,
            _ => CDim::Any,
        },
        EvaluationOp::Plus | EvaluationOp::Minus | EvaluationOp::Modulo => match (a, b) {
            (CDim::Q(x), CDim::Q(_)) | (CDim::Q(x), CDim::Any) | (CDim::Any, CDim::Q(x)) => CDim::Q(
                x,
            ),
            (CDim::Plain, CDim::Plain) => CDim::Plain,
            _ => CDim::Any,
        },
        _ => CDim::Any,
    }
}

/// Multiplying columns gives the same dimension in either order.
pub proof fn lemma_cdim_mul_commutes(a: CDim, b: CDim)
    ensures
        cdim_join_of(EvaluationOp::Multiply, a, b) == cdim_join_of(EvaluationOp::Multiply, b, a),
{
    if let (CDim::Q(x), CDim::Q(y)) = (a, b) {
        assert(add_exps(x, y) =~= add_exps(y, x));
    }
}

/// Once `a` and `b` pass the clash check, `+`, `-` and `%` give the same dimension in
/// either order.
pub proof fn lemma_cdim_add_commutes(op: EvaluationOp, a: CDim, b: CDim)
    requires
        op is Plus || op is Minus || op is Modulo,
        dim_clash_of(a, b) is None,
    ensures
        cdim_join_of(op, a, b) == cdim_join_of(op, b, a),
{
}

/// The column an aggregation or column method `f` produces from `base`: counts are ints,
/// casts change the storage but keep the unit, means and spreads are floats in the
/// column's unit (a variance in its square), predicates are bools, string methods give
/// strings, reorderings give lists of the element, and anything else keeps the column.
pub open spec fn apply_result_of(f: Seq<char>, base: FrameCol) -> FrameCol {
    if f == "count"@ || f == "n"@ || f == "n_unique"@ || f == "len"@ || f == "arg_min"@ || f
        == "arg_max"@ || f == "rank"@ {
        FrameCol { ty: Some(ColTy::Int), dim: None }
    } else if f == "cast_int"@ {
        FrameCol { ty: Some(ColTy::Int), dim: base.dim }
    } else if f == "mean"@ || f == "average"@ || f == "median"@ || f == "quantile"@ || f
        == "std"@ || f == "cast_float"@ {
        FrameCol { ty: Some(ColTy::Float), dim: base.dim }
    } else if f == "var"@ {
        FrameCol {
            ty: Some(ColTy::Float),
            dim: match base.dim {
                Some(d) => Some(dim_mul(d, d)),
                None => None,
            },
        }
    } else if f == "is_null"@ || f == "is_not_null"@ || f == "contains"@ || f == "contains_many"@
        || f == "starts_with"@ || f == "ends_with"@ || f == "is_in"@ || f == "is_between"@ || f
        == "eq"@ || f == "neq"@ {
        FrameCol { ty: Some(ColTy::Bool), dim: None }
    } else if f == "to_upper"@ || f == "to_lower"@ || f == "strip"@ || f == "cast_str"@ || f
        == "str_slice"@ || f == "str_replace"@ {
        FrameCol { ty: Some(ColTy::Str), dim: None }
    } else if f == "unique"@ || f == "sort"@ || f == "sort_desc"@ || f == "reverse"@ {
        FrameCol {
            ty: match base.ty {
                Some(t) => Some(ColTy::Array(Box::new(t))),
                None => None,
            },
            dim: base.dim,
        }
    } else {
        base
    }
}

/// The column the aggregation or column method `f` produces from `base`.
pub fn apply_result_col(f: &str, base: FrameCol) -> (r: FrameCol)
    requires
        f@ == "var"@ ==> (base.dim matches Some(d) ==> fits_i8(add_exps(d, d))),
    ensures
        r == apply_result_of(f@, base),
{
    if same_text(f, "count") || same_text(f, "n") || same_text(f, "n_unique") || same_text(
        f,
        "len",
    ) || same_text(f, "arg_min") || same_text(f, "arg_max") || same_text(f, "rank") {
        return FrameCol::known(ColTy::Int);
    }
    if same_text(f, "cast_int") {
        return FrameCol { ty: Some(ColTy::Int), dim: base.dim };
    }
    if same_text(f, "mean") || same_text(f, "average") || same_text(f, "median") || same_text(
        f,
        "quantile",
    ) || same_text(f, "std") || same_text(f, "cast_float") {
        return FrameCol { ty: Some(ColTy::Float), dim: base.dim };
    }
    if same_text(f, "var") {
        let dim = match base.dim {
            Some(d) => {
                let sq = d.mul(d);
                proof {
                    lemma_dim_mul(d, d, sq);
                }
                Some(sq)
            },
            None => None,
        };
        return FrameCol { ty: Some(ColTy::Float), dim };
    }
    if same_text(f, "is_null") || same_text(f, "is_not_null") || same_text(f, "contains")
        || same_text(f, "contains_many") || same_text(f, "starts_with") || same_text(
        f,
        "ends_with",
    ) || same_text(f, "is_in") || same_text(f, "is_between") || same_text(f, "eq") || same_text(
        f,
        "neq",
    ) {
        return FrameCol::known(ColTy::Bool);
    }
    if same_text(f, "to_upper") || same_text(f, "to_lower") || same_text(f, "strip") || same_text(
        f,
        "cast_str",
    ) || same_text(f, "str_slice") || same_text(f, "str_replace") {
        return FrameCol::known(ColTy::Str);
    }
    if same_text(f, "unique") || same_text(f, "sort") || same_text(f, "sort_desc") || same_text(
        f,
        "reverse",
    ) {
        let ty = match base.ty {
            Some(t) => Some(ColTy::Array(Box::new(t))),
            None => None,
        };
        return FrameCol { ty, dim: base.dim };
    }
    base
}

/// A column whose dimension can't be told never clashes with anything.
pub proof fn lemma_unknown_column_never_clashes(b: CDim)
    ensures
        dim_clash_of(CDim::Any, b) is None,
        dim_clash_of(b, CDim::Any) is None,
{
}

} // verus!
