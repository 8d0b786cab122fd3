//! The dimension checker's rules on an expression: `+ - %` and comparisons need both sides
//! in one dimension (a literal `0` compares with anything), `*` and `/` combine dimensions,
//! `.sqrt()` halves them and `.pow(n)` scales them, the branches of an `if` agree, and a value
//! the checker cannot follow is unknown, which never causes an error. A value held to a
//! declared dimension (a `let` or `const` type, a parameter of a user function, a declared
//! return, a struct field, the target of an assignment) must have it.
//!
//! An expression reaches the checker with its names already resolved: each variable is a slot
//! of the environment, each number literal carries the dimension its unit gives it, each
//! method call names one of the built-in methods the checker knows, and each annotation is
//! read as the dimension it declares.

use vstd::prelude::*;
use crate::units::{Dim, exp, exps, add_exps, sub_exps, scale_exps, fits_i8, dim_is_none, all_even, N};
use crate::dims::{D, dim_of, clash_of, join_of, clash, join};
use crate::text::same_text;

verus! {

/// An arithmetic operator.
#[derive(Debug, Clone, Copy, PartialEq, Eq)]
pub enum Op {
    Add,
    Sub,
    Rem,
    Mul,
    Div,
}

/// A comparison operator.
#[derive(Debug, Clone, Copy, PartialEq, Eq)]
pub enum CmpOp {
    /// `==`
    Eq,
    /// `!=`
    Ne,
    /// `<`
    Lt,
    /// `<=`
    Le,
    /// `>`
    Gt,
    /// `>=`
    Ge,
}

/// `op` orders its sides (`<`, `<=`, `>`, `>=`) rather than testing them for equality.
pub open spec fn is_ordering(op: CmpOp) -> bool {
    !(op is Eq || op is Ne)
}

/// The verb a mismatch of the comparison `op` is reported with: equality compares,
/// ordering orders.
pub open spec fn compare_verb_spec(op: CmpOp) -> Seq<char> {
    if is_ordering(op) {
        "order"@
    } else {
        "compare"@
    }
}

/// The verb a mismatch of the comparison `op` is reported with.
pub fn compare_verb(op: CmpOp) -> (r: &'static str)
    ensures
        r@ == compare_verb_spec(op),
{
    match op {
        CmpOp::Eq | CmpOp::Ne => {
            proof {
                reveal_strlit("compare");
            }
            "compare"
        },
        _ => {
            proof {
                reveal_strlit("order");
            }
            "order"
        },
    }
}

/// A built-in method of numbers, intervals and lists, as the checker reads it.
#[derive(Debug, Clone, Copy)]
pub enum Method {
    /// `width` of an interval.
    Width,
    /// `sample` of an interval.
    Sample,
    /// `contains` on an interval.
    Contains,
    /// `overlaps` on an interval.
    Overlaps,
    /// `pow(n)`, with the exponent when it is an integer literal below 100 in size.
    Pow(Option<i8>),
    /// `abs`, `round`, `floor`, `ceil`, `to_int`, `to_float`, `neg`: the dimension stays.
    Keep,
    /// `signum`: a plain number.
    Signum,
    /// `min` or `max`.
    MinMax,
    /// `hypot`.
    Hypot,
    /// `clamp(lo, hi)`.
    Clamp,
    /// `sqrt`.
    Sqrt,
    /// `sin`, `cos`, `tan`, `asin`, `acos`, `atan`, `exp`, `ln`: plain numbers only.
    Plain,
    /// `to(unit)`: `Some(Some(d))` for a unit literal of dimension `d`, `Some(None)` for a
    /// literal that is no unit, `None` when the argument is not a literal.
    To(Option<Option<Dim>>),
    /// `push` on a list.
    Push,
    /// `pop` or `sum` on a list.
    PopSum,
    /// `len` of a list.
    Len,
    /// Any other method.
    Other,
}

/// A resolved expression.
#[derive(Debug)]
pub enum DimExpr {
    /// A number literal with the dimension its unit gives it (plain without a unit), and
    /// whether it is zero.
    Num(Dim, bool),
    /// A variable, by its slot in the environment; a slot past the end is not followed.
    Var(usize),
    /// Something the checker does not follow, with no parts to check.
    Unknown,
    /// `-x` or `+x`.
    Neg(Box<DimExpr>),
    /// `a op b`.
    Arith(Op, Box<DimExpr>, Box<DimExpr>),
    /// A comparison `a op b`: `==`, `!=`, `<`, `<=`, `>`, `>=`.
    Compare(CmpOp, Box<DimExpr>, Box<DimExpr>),
    /// `if c { t } else { f }`.
    If(Box<DimExpr>, Box<DimExpr>, Box<DimExpr>),
    /// `recv.method(first, second)`; no built-in method reads more than two arguments.
    Call(Method, Box<DimExpr>, Option<Box<DimExpr>>, Option<Box<DimExpr>>),
    /// Two parts that are checked, in order, for a value that is not followed (a logical
    /// operator, a loop, a block whose value is dropped, ...).
    Other(Box<DimExpr>, Box<DimExpr>),
    /// `a ?? b`: the fallback has to measure what it replaces.
    Coalesce(Box<DimExpr>, Box<DimExpr>),
    /// `a[k]`: an item of a list.
    Index(Box<DimExpr>, Box<DimExpr>),
    /// `a.lo`, `a.mid` or `a.hi`: a bound of an interval.
    Bound(Box<DimExpr>),
    /// `[items]`: a list literal, whose items share one dimension.
    List(DimList),
    /// `match x { arms }`: the scrutinee, then each arm's value; the arms agree.
    Match(Box<DimExpr>, DimList),
    /// `let` binding slot `slot` of the environment to a value, for the rest of a block.
    Let(usize, Box<DimExpr>, Box<DimExpr>),
    /// A value held to a declared type (a `let x: T = v` or a `const`), read as that type.
    Declared(D, Box<DimExpr>),
    /// `place = v` (checked, as `+=` and `-=` are) or another compound assignment.
    Assign(bool, Box<DimExpr>, Box<DimExpr>),
    /// `return v`, or the value a function body ends with, against the declared return.
    Return(D, Box<DimExpr>),
    /// A call of the user function named here, each argument with the parameter it fills
    /// (its name and declared type) when that parameter is annotated, and the declared
    /// return, which is what the call is worth.
    CallFn(String, DimArgs, D),
    /// A struct literal, each field's value with the field (its name and declared type)
    /// when the struct declares it.
    Struct(DimArgs),
}

/// Arguments of a call, or fields of a struct literal: each value, with the name and
/// declared type it is held to when there is one.
#[derive(Debug)]
pub enum DimArgs {
    Nil,
    Cons(Option<(String, D)>, Box<DimExpr>, Box<DimArgs>),
}

/// The items of a list literal.
#[derive(Debug)]
pub enum DimList {
    Nil,
    Cons(Box<DimExpr>, Box<DimList>),
}

/// Where a value is held to a dimension it must have.
#[derive(Debug)]
pub enum Site {
    /// The declared type of a `let` or a `const`.
    Declared,
    /// The place an `=`, `+=` or `-=` assigns to.
    Assignment,
    /// A parameter, by name, of a function, by name.
    Argument(String, String),
    /// The declared return type of the function the value leaves.
    Return,
    /// A field, by name, of a struct literal.
    Field(String),
    /// The value `??` falls back to.
    Fallback,
    /// An item pushed onto a list.
    ListItem,
    /// An argument of a built-in method.
    Method(Method),
}

impl Site {
    /// A copy of this site.
    pub fn duplicate(&self) -> (r: Site)
        ensures
            r == *self,
    {
        match self {
            Site::Declared => Site::Declared,
            Site::Assignment => Site::Assignment,
            Site::Argument(p, f) => Site::Argument(p.clone(), f.clone()),
            Site::Return => Site::Return,
            Site::Field(k) => Site::Field(k.clone()),
            Site::Fallback => Site::Fallback,
            Site::ListItem => Site::ListItem,
            Site::Method(m) => Site::Method(*m),
        }
    }
}

/// A dimension mistake.
#[derive(Debug)]
pub enum DimError {
    /// `+`, `-` or `%` on two dimensions.
    Combine(Op, Dim, Dim),
    /// A comparison `op` of two dimensions ("cannot compare" for `==` and `!=`, "cannot
    /// order" for `<`, `<=`, `>`, `>=`).
    Compare(CmpOp, Dim, Dim),
    /// Two branches that disagree.
    Branches(Dim, Dim),
    /// A value of the wrong dimension where one is wanted: where, expected, found.
    Mismatch(Site, Dim, Dim),
    /// The square root of a dimension with an odd exponent.
    NoSqrt(Dim),
    /// A function of plain numbers given a dimension.
    NeedsPlain(Dim),
    /// A conversion into a unit of another dimension: from, to.
    Convert(Dim, Dim),
    /// A conversion into text that is no unit.
    NotAUnit,
    /// A list whose items are of two dimensions.
    Mix(Dim, Dim),
}

/// The dimension of `a ^ n`.
pub open spec fn dim_pow(a: Dim, n: int) -> Dim {
    choose|z: Dim| exps(z) == scale_exps(a, n)
}

/// The dimension whose exponents are half of `a`'s.
pub open spec fn dim_half(a: Dim) -> Dim {
    choose|z: Dim| halves(z, a)
}

/// Every exponent of `z` is half of `a`'s.
pub open spec fn halves(z: Dim, a: Dim) -> bool {
    forall|i: int| 0 <= i < N ==> #[trigger] exp(z, i) * 2 == exp(a, i)
}

/// The dimension of a product `a * b`.
pub open spec fn dim_times(a: Dim, b: Dim) -> Dim {
    choose|z: Dim| exps(z) == add_exps(a, b)
}

/// The dimension of a quotient `a / b`.
pub open spec fn dim_over(a: Dim, b: Dim) -> Dim {
    choose|z: Dim| exps(z) == sub_exps(a, b)
}

/// The error a mismatch at `site` between what is wanted and what is found gives, if any.
pub open spec fn expect_errs(site: Site, want: D, got: D) -> Seq<DimError> {
    match clash_of(want, got) {
        Some((w, g)) => seq![DimError::Mismatch(site, w, g)],
        None => seq![],
    }
}

/// `a op b` on the facts of its sides: the fact of the result and the errors, or `None` when
/// an exponent of a product or quotient leaves the `i8` range.
pub open spec fn arith_spec(op: Op, l: D, r: D) -> Option<(D, Seq<DimError>)> {
    match op {
        Op::Mul | Op::Div => {
            let interval = l is Iv || r is Iv;
            match (dim_of(l), dim_of(r)) {
                (Some(a), Some(b)) => {
                    let s = if op == Op::Mul { add_exps(a, b) } else { sub_exps(a, b) };
                    if !fits_i8(s) {
                        None
                    } else {
                        let d = if op == Op::Mul { dim_times(a, b) } else { dim_over(a, b) };
                        Some((if interval { D::Iv(d) } else { D::Q(d) }, seq![]))
                    }
                },
                _ => Some((D::Any, seq![])),
            }
        },
        _ => {
            let errs = match clash_of(l, r) {
                Some((a, b)) => seq![DimError::Combine(op, a, b)],
                None => seq![],
            };
            let v = match (l, r) {
                (D::Iv(a), D::Iv(b)) => if a == b { D::Iv(a) } else { join_of(l, r) },
                (D::Iv(a), D::Q(b)) => if a == b { D::Iv(a) } else { join_of(l, r) },
                (D::Q(a), D::Iv(b)) => if a == b { D::Iv(a) } else { join_of(l, r) },
                _ => join_of(l, r),
            };
            Some((v, errs))
        },
    }
}

/// The errors the comparison `op` gives: none when either side is a literal zero.
pub open spec fn compare_errs(op: CmpOp, lzero: bool, rzero: bool, l: D, r: D) -> Seq<DimError> {
    if lzero || rzero {
        seq![]
    } else {
        match clash_of(l, r) {
            Some((a, b)) => seq![DimError::Compare(op, a, b)],
            None => seq![],
        }
    }
}

/// The errors of two branches that disagree.
pub open spec fn branch_errs(a: D, b: D) -> Seq<DimError> {
    match clash_of(a, b) {
        Some((x, y)) => seq![DimError::Branches(x, y)],
        None => seq![],
    }
}

/// The plain number.
pub open spec fn plain() -> D {
    D::Q(crate::units::dim_none())
}

/// What a built-in method gives on a receiver and its first two arguments (each `None` when
/// absent): the fact of the result and the errors, or `None` when a power's exponents leave
/// the `i8` range.
pub open spec fn method_spec(m: Method, recv: D, a1: Option<D>, a2: Option<D>) -> Option<
    (D, Seq<DimError>),
> {
    let first_errs = |want: D|
        match a1 {
            Some(a) => expect_errs(if m is Push { Site::ListItem } else { Site::Method(m) }, want, a),
            None => seq![],
        };
    match recv {
        D::Iv(d) => match m {
            Method::Width | Method::Sample => Some((D::Q(d), seq![])),
            Method::Contains => Some((plain(), first_errs(D::Q(d)))),
            Method::Overlaps => Some((plain(), first_errs(D::Iv(d)))),
            Method::Pow(Some(n)) => if fits_i8(scale_exps(d, n as int)) {
                Some((D::Iv(dim_pow(d, n as int)), seq![]))
            } else {
                None
            },
            Method::Pow(None) => Some((if dim_is_none(d) { D::Iv(d) } else { D::Any }, seq![])),
            _ => Some((D::Any, seq![])),
        },
        D::Q(d) => match m {
            Method::Keep => Some((D::Q(d), seq![])),
            Method::Signum => Some((plain(), seq![])),
            Method::MinMax | Method::Hypot => Some((D::Q(d), first_errs(recv))),
            Method::Clamp => Some(
                (
                    D::Q(d),
                    first_errs(recv) + match a2 {
                        Some(a) => expect_errs(Site::Method(m), recv, a),
                        None => seq![],
                    },
                ),
            ),
            Method::Sqrt => if all_even(d) {
                Some((D::Q(dim_half(d)), seq![]))
            } else {
                Some((D::Any, seq![DimError::NoSqrt(d)]))
            },
            Method::Pow(Some(n)) => if fits_i8(scale_exps(d, n as int)) {
                Some((D::Q(dim_pow(d, n as int)), seq![]))
            } else {
                None
            },
            Method::Pow(None) => Some((if dim_is_none(d) { plain() } else { D::Any }, seq![])),
            Method::Plain => Some(
                (plain(), if dim_is_none(d) { seq![] } else { seq![DimError::NeedsPlain(d)] }),
            ),
            Method::To(Some(Some(u))) => Some(
                (plain(), if u != d { seq![DimError::Convert(d, u)] } else { seq![] }),
            ),
            Method::To(Some(None)) => Some((plain(), seq![DimError::NotAUnit])),
            _ => Some((if m is To { plain() } else { D::Any }, seq![])),
        },
        D::Arr(inner) => match m {
            Method::Push => Some((D::Any, first_errs(*inner))),
            Method::MinMax | Method::PopSum => Some((*inner, seq![])),
            Method::Len => Some((plain(), seq![])),
            _ => Some((D::Any, seq![])),
        },
        D::Any => Some((D::Any, seq![])),
    }
}

/// Whether `e` is a literal zero.
pub open spec fn is_zero(e: DimExpr) -> bool {
    e matches DimExpr::Num(_, z) && z
}

/// What the checker finds for `e` in the environment `env`: the fact of its value and the
/// errors, in the order the checker meets them, or `None` when an exponent leaves the `i8`
/// range.
pub open spec fn eval_spec(e: DimExpr, env: Seq<D>) -> Option<(D, Seq<DimError>)>
    decreases e,
{
    match e {
        DimExpr::Num(d, _) => Some((D::Q(d), seq![])),
        DimExpr::Var(i) => Some((if i < env.len() { env[i as int] } else { D::Any }, seq![])),
        DimExpr::Unknown => Some((D::Any, seq![])),
        DimExpr::Neg(x) => eval_spec(*x, env),
        DimExpr::Arith(op, a, b) => match (eval_spec(*a, env), eval_spec(*b, env)) {
            (Some((l, ea)), Some((r, eb))) => match arith_spec(op, l, r) {
                Some((d, ec)) => Some((d, ea + eb + ec)),
                None => None,
            },
            _ => None,
        },
        DimExpr::Compare(op, a, b) => match (eval_spec(*a, env), eval_spec(*b, env)) {
            (Some((l, ea)), Some((r, eb))) => Some(
                (D::Any, ea + eb + compare_errs(op, is_zero(*a), is_zero(*b), l, r)),
            ),
            _ => None,
        },
        DimExpr::If(c, t, f) => match (eval_spec(*c, env), eval_spec(*t, env), eval_spec(*f, env)) {
            (Some((_, ec)), Some((dt, et)), Some((df, ef))) => Some(
                (join_of(dt, df), ec + et + ef + branch_errs(dt, df)),
            ),
            _ => None,
        },
        DimExpr::Call(m, recv, a1, a2) => {
            let r1 = match a1 {
                Some(x) => match eval_spec(*x, env) {
                    Some((d, es)) => Some((Some(d), es)),
                    None => None,
                },
                None => Some((None, seq![])),
            };
            let r2 = match a2 {
                Some(x) => match eval_spec(*x, env) {
                    Some((d, es)) => Some((Some(d), es)),
                    None => None,
                },
                None => Some((None, seq![])),
            };
            match (eval_spec(*recv, env), r1, r2) {
                (Some((dr, er)), Some((d1, e1)), Some((d2, e2))) => match method_spec(
                    m,
                    dr,
                    d1,
                    d2,
                ) {
                    Some((d, em)) => Some((d, er + e1 + e2 + em)),
                    None => None,
                },
                _ => None,
            }
        },
        DimExpr::Other(a, b) => match (eval_spec(*a, env), eval_spec(*b, env)) {
            (Some((_, ea)), Some((_, eb))) => Some((D::Any, ea + eb)),
            _ => None,
        },
        DimExpr::Coalesce(a, b) => match (eval_spec(*a, env), eval_spec(*b, env)) {
            (Some((l, ea)), Some((r, eb))) => Some((l, ea + eb + expect_errs(Site::Fallback, l, r))),
            _ => None,
        },
        DimExpr::Index(a, k) => match (eval_spec(*a, env), eval_spec(*k, env)) {
            (Some((l, ea)), Some((_, ek))) => Some(
                (
                    match l {
                        D::Arr(inner) => *inner,
                        _ => D::Any,
                    },
                    ea + ek,
                ),
            ),
            _ => None,
        },
        DimExpr::Bound(a) => match eval_spec(*a, env) {
            Some((l, ea)) => Some(
                (
                    match l {
                        D::Iv(d) => D::Q(d),
                        _ => D::Any,
                    },
                    ea,
                ),
            ),
            None => None,
        },
        DimExpr::List(items) => match list_spec(items, env, None, false) {
            Some((out, es)) => Some(
                (
                    D::Arr(
                        Box::new(
                            match out {
                                Some(d) => d,
                                None => D::Any,
                            },
                        ),
                    ),
                    es,
                ),
            ),
            None => None,
        },
        DimExpr::Match(x, arms) => match eval_spec(*x, env) {
            None => None,
            Some((_, ex)) => match list_spec(arms, env, None, true) {
                Some((out, es)) => Some(
                    (
                        match out {
                            Some(d) => d,
                            None => D::Any,
                        },
                        ex + es,
                    ),
                ),
                None => None,
            },
        },
        DimExpr::Let(slot, v, body) => match eval_spec(*v, env) {
            None => None,
            Some((d, ev)) => match eval_spec(*body, bound(env, slot as int, d)) {
                Some((r, eb)) => Some((r, ev + eb)),
                None => None,
            },
        },
        DimExpr::Declared(want, v) => match eval_spec(*v, env) {
            None => None,
            Some((got, ev)) => Some((want, ev + expect_errs(Site::Declared, want, got))),
        },
        DimExpr::Assign(checked, a, b) => match (eval_spec(*a, env), eval_spec(*b, env)) {
            (Some((l, ea)), Some((r, eb))) => Some(
                (
                    D::Any,
                    ea + eb + if checked {
                        expect_errs(Site::Assignment, l, r)
                    } else {
                        seq![]
                    },
                ),
            ),
            _ => None,
        },
        DimExpr::Return(want, v) => match eval_spec(*v, env) {
            None => None,
            Some((got, ev)) => Some((D::Any, ev + expect_errs(Site::Return, want, got))),
        },
        DimExpr::CallFn(f, args, ret) => match args_eval(args, env) {
            None => None,
            Some((ds, ea)) => Some((ret, ea + arg_checks(args, ds, 0, f))),
        },
        DimExpr::Struct(fields) => match fields_spec(fields, env) {
            None => None,
            Some(es) => Some((D::Any, es)),
        },
    }
}

/// The facts of the arguments `l`, in order, and the errors inside them; `None` on an
/// exponent out of range.
pub open spec fn args_eval(l: DimArgs, env: Seq<D>) -> Option<(Seq<D>, Seq<DimError>)>
    decreases l,
{
    match l {
        DimArgs::Nil => Some((seq![], seq![])),
        DimArgs::Cons(_, x, rest) => match eval_spec(*x, env) {
            None => None,
            Some((d, ex)) => match args_eval(*rest, env) {
                None => None,
                Some((ds, er)) => Some((seq![d] + ds, ex + er)),
            },
        },
    }
}

/// The mismatches of the arguments `l` (the `k`-th of whose facts is `ds[k]`) against
/// the parameters of the function `f` they fill.
pub open spec fn arg_checks(l: DimArgs, ds: Seq<D>, k: int, f: String) -> Seq<DimError>
    decreases l,
{
    match l {
        DimArgs::Nil => seq![],
        DimArgs::Cons(p, _, rest) => (match p {
            Some((pn, want)) => if 0 <= k < ds.len() {
                expect_errs(Site::Argument(pn, f), want, ds[k])
            } else {
                seq![]
            },
            None => seq![],
        }) + arg_checks(*rest, ds, k + 1, f),
    }
}

/// The errors of a struct literal's fields `l`, each value checked, then held to its
/// field's declared type; `None` on an exponent out of range.
pub open spec fn fields_spec(l: DimArgs, env: Seq<D>) -> Option<Seq<DimError>>
    decreases l,
{
    match l {
        DimArgs::Nil => Some(seq![]),
        DimArgs::Cons(p, x, rest) => match eval_spec(*x, env) {
            None => None,
            Some((d, ex)) => match fields_spec(*rest, env) {
                None => None,
                Some(er) => Some(
                    ex + match p {
                        Some((k, want)) => expect_errs(Site::Field(k), want, d),
                        None => seq![],
                    } + er,
                ),
            },
        },
    }
}

/// The environment with slot `slot` bound to `d` (unchanged when there is no such slot).
pub open spec fn bound(env: Seq<D>, slot: int, d: D) -> Seq<D> {
    if 0 <= slot < env.len() {
        env.update(slot, d)
    } else {
        env
    }
}

/// The error two items of one list of different dimensions give.
pub open spec fn mix_errs(a: D, b: D) -> Seq<DimError> {
    match clash_of(a, b) {
        Some((x, y)) => seq![DimError::Mix(x, y)],
        None => seq![],
    }
}

/// Checking the items `l` of a list (or, with `arms`, the arms of a `match`) after those
/// whose shared fact is `prev` (`None` before the first): the shared fact of them all and
/// the errors, or `None` on an exponent out of range.
pub open spec fn list_spec(l: DimList, env: Seq<D>, prev: Option<D>, arms: bool) -> Option<
    (Option<D>, Seq<DimError>),
>
    decreases l,
{
    match l {
        DimList::Nil => Some((prev, seq![])),
        DimList::Cons(x, rest) => match eval_spec(*x, env) {
            None => None,
            Some((d, ex)) => {
                let next = match prev {
                    None => d,
                    Some(p) => join_of(p, d),
                };
                let em = match prev {
                    None => seq![],
                    Some(p) => if arms {
                        branch_errs(p, d)
                    } else {
                        mix_errs(p, d)
                    },
                };
                match list_spec(*rest, env, Some(next), arms) {
                    None => None,
                    Some((o, er)) => Some((o, ex + em + er)),
                }
            },
        },
    }
}

fn copy_d(d: &D) -> (r: D)
    ensures
        r == *d,
    decreases d,
{
    match d {
        D::Any => D::Any,
        D::Q(x) => D::Q(*x),
        D::Iv(x) => D::Iv(*x),
        D::Arr(x) => D::Arr(Box::new(copy_d(x))),
    }
}

fn same(x: &Dim, y: &Dim) -> (r: bool)
    ensures
        r == (*x == *y),
{
    let r = *x == *y;
    proof {
        if x.0@ == y.0@ {
            vstd::array::axiom_array_ext_equal(x.0, y.0);
        }
    }
    r
}

/// Whether every exponent of `a * b` (or `a / b`, when `minus`) fits an `i8`.
pub(crate) fn sum_fits(a: &Dim, b: &Dim, minus: bool) -> (r: bool)
    ensures
        r == fits_i8(if minus { sub_exps(*a, *b) } else { add_exps(*a, *b) }),
{
    let ghost s = if minus { sub_exps(*a, *b) } else { add_exps(*a, *b) };
    let mut i: usize = 0;
    while i < N
        invariant
            0 <= i <= N,
            s == (if minus { sub_exps(*a, *b) } else { add_exps(*a, *b) }),
            forall|j: int| 0 <= j < i ==> i8::MIN <= #[trigger] s[j] <= i8::MAX,
        decreases N - i,
    {
        let x: i16 = a.0[i] as i16;
        let y: i16 = b.0[i] as i16;
        let v: i16 = if minus { x - y } else { x + y };
        assert(s[i as int] == v);
        if v < -128 || v > 127 {
            return false;
        }
        i += 1;
    }
    true
}

/// Whether every exponent of `a ^ n` fits an `i8`.
fn scale_fits(a: &Dim, n: i8) -> (r: bool)
    ensures
        r == fits_i8(scale_exps(*a, n as int)),
{
    let ghost s = scale_exps(*a, n as int);
    let mut i: usize = 0;
    while i < N
        invariant
            0 <= i <= N,
            s == scale_exps(*a, n as int),
            forall|j: int| 0 <= j < i ==> i8::MIN <= #[trigger] s[j] <= i8::MAX,
        decreases N - i,
    {
        let x: i16 = a.0[i] as i16;
        let y: i16 = n as i16;
        assert(-128 <= x <= 127 && -128 <= y <= 127);
        assert(-16384 <= x * y <= 16384) by (nonlinear_arith)
            requires
                -128 <= x <= 127,
                -128 <= y <= 127,
        ;
        let v: i16 = x * y;
        assert(s[i as int] == v);
        if v < -128 || v > 127 {
            return false;
        }
        i += 1;
    }
    true
}

fn is_none(d: &Dim) -> (r: bool)
    ensures
        r == dim_is_none(*d),
{
    d.is_none()
}

fn expect(site: Site, want: &D, got: &D) -> (r: Vec<DimError>)
    ensures
        r@ == expect_errs(site, *want, *got),
{
    match clash(want, got) {
        Some((w, g)) => vec![DimError::Mismatch(site, w, g)],
        None => Vec::new(),
    }
}

fn first_expect(site: Site, want: &D, a1: Option<&D>) -> (r: Vec<DimError>)
    ensures
        r@ == match a1 {
            Some(a) => expect_errs(site, *want, *a),
            None => Seq::<DimError>::empty(),
        },
{
    match a1 {
        Some(a) => expect(site, want, a),
        None => Vec::new(),
    }
}

/// `a op b` on the facts of its sides, as the checker computes it.
pub fn arith_dim(op: Op, l: D, r: &D) -> (res: Option<(D, Vec<DimError>)>)
    ensures
        match arith_spec(op, l, *r) {
            Some((d, es)) => res matches Some((x, v)) && x == d && v@ == es,
            None => res is None,
        },
{
    match op {
        Op::Mul | Op::Div => {
            let interval = matches!(l, D::Iv(_)) || matches!(r, D::Iv(_));
            match (l.dim(), r.dim()) {
                (Some(a), Some(b)) => {
                    let minus = match op {
                        Op::Mul => false,
                        _ => true,
                    };
                    if !sum_fits(&a, &b, minus) {
                        return None;
                    }
                    let d = if minus {
                        let d = a.div(b);
                        proof {
                            let z = dim_over(a, b);
                            assert(exps(z) == sub_exps(a, b));
                            crate::units::lemma_exps_injective(d, z);
                        }
                        d
                    } else {
                        let d = a.mul(b);
                        proof {
                            let z = dim_times(a, b);
                            assert(exps(z) == add_exps(a, b));
                            crate::units::lemma_exps_injective(d, z);
                        }
                        d
                    };
                    let v = if interval { D::Iv(d) } else { D::Q(d) };
                    Some((v, Vec::new()))
                },
                _ => Some((D::Any, Vec::new())),
            }
        },
        _ => {
            let errs = match clash(&l, r) {
                Some((a, b)) => vec![DimError::Combine(op, a, b)],
                None => Vec::new(),
            };
            let iv: Option<Dim> = match (&l, r) {
                (D::Iv(a), D::Iv(b)) => if same(a, b) { Some(*a) } else { None },
                (D::Iv(a), D::Q(b)) => if same(a, b) { Some(*a) } else { None },
                (D::Q(a), D::Iv(b)) => if same(a, b) { Some(*a) } else { None },
                _ => None,
            };
            let v = match iv {
                Some(a) => D::Iv(a),
                None => join(l, r),
            };
            Some((v, errs))
        },
    }
}

/// A power's dimension: every exponent scaled by `n`.
fn pow_dim(d: Dim, n: i8) -> (r: Dim)
    requires
        fits_i8(scale_exps(d, n as int)),
    ensures
        r == dim_pow(d, n as int),
{
    let r = d.powi(n);
    proof {
        let z = dim_pow(d, n as int);
        assert(exps(z) == scale_exps(d, n as int));
        crate::units::lemma_exps_injective(r, z);
    }
    r
}

/// What a built-in method gives on a receiver and its first two arguments, as the checker
/// computes it.
pub fn method_dim(m: Method, recv: &D, a1: Option<&D>, a2: Option<&D>) -> (res: Option<
    (D, Vec<DimError>),
>)
    ensures
        match method_spec(
            m,
            *recv,
            match a1 {
                Some(a) => Some(*a),
                None => None,
            },
            match a2 {
                Some(a) => Some(*a),
                None => None,
            },
        ) {
            Some((d, es)) => res matches Some((x, v)) && x == d && v@ == es,
            None => res is None,
        },
{
    let none: Dim = Dim::none();
    match recv {
        D::Iv(d) => match m {
            Method::Width | Method::Sample => Some((D::Q(*d), Vec::new())),
            Method::Contains => Some((D::Q(none), first_expect(Site::Method(m), &D::Q(*d), a1))),
            Method::Overlaps => Some((D::Q(none), first_expect(Site::Method(m), &D::Iv(*d), a1))),
            Method::Pow(Some(n)) => if scale_fits(d, n) {
                Some((D::Iv(pow_dim(*d, n)), Vec::new()))
            } else {
                None
            },
            Method::Pow(None) => Some(
                (if is_none(d) { D::Iv(*d) } else { D::Any }, Vec::new()),
            ),
            _ => Some((D::Any, Vec::new())),
        },
        D::Q(d) => match m {
            Method::Keep => Some((D::Q(*d), Vec::new())),
            Method::Signum => Some((D::Q(none), Vec::new())),
            Method::MinMax | Method::Hypot => Some((D::Q(*d), first_expect(Site::Method(m), recv, a1))),
            Method::Clamp => {
                let mut es = first_expect(Site::Method(m), recv, a1);
                let mut more = match a2 {
                    Some(a) => expect(Site::Method(m), recv, a),
                    None => Vec::new(),
                };
                es.append(&mut more);
                Some((D::Q(*d), es))
            },
            Method::Sqrt => match d.sqrt() {
                Some(h) => {
                    proof {
                        let z = dim_half(*d);
                        assert(halves(h, *d));
                        assert(halves(z, *d));
                        assert forall|i: int| 0 <= i < N implies #[trigger] exps(h)[i] == exps(
                            z,
                        )[i] by {
                            assert(exp(h, i) * 2 == exp(*d, i));
                            assert(exp(z, i) * 2 == exp(*d, i));
                        }
                        assert(exps(h) =~= exps(z));
                        crate::units::lemma_exps_injective(h, z);
                    }
                    Some((D::Q(h), Vec::new()))
                },
                None => Some((D::Any, vec![DimError::NoSqrt(*d)])),
            },
            Method::Pow(Some(n)) => if scale_fits(d, n) {
                Some((D::Q(pow_dim(*d, n)), Vec::new()))
            } else {
                None
            },
            Method::Pow(None) => Some(
                (if is_none(d) { D::Q(none) } else { D::Any }, Vec::new()),
            ),
            Method::Plain => Some(
                (
                    D::Q(none),
                    if is_none(d) { Vec::new() } else { vec![DimError::NeedsPlain(*d)] },
                ),
            ),
            Method::To(Some(Some(u))) => Some(
                (
                    D::Q(none),
                    if !same(&u, d) { vec![DimError::Convert(*d, u)] } else { Vec::new() },
                ),
            ),
            Method::To(Some(None)) => Some((D::Q(none), vec![DimError::NotAUnit])),
            Method::To(None) => Some((D::Q(none), Vec::new())),
            _ => Some((D::Any, Vec::new())),
        },
        D::Arr(inner) => match m {
            Method::Push => Some((D::Any, first_expect(Site::ListItem, inner, a1))),
            Method::MinMax | Method::PopSum => Some((copy_d(inner), Vec::new())),
            Method::Len => Some((D::Q(none), Vec::new())),
            _ => Some((D::Any, Vec::new())),
        },
        D::Any => Some((D::Any, Vec::new())),
    }
}

fn push_all(errs: &mut Vec<DimError>, more: Vec<DimError>)
    ensures
        final(errs)@ == old(errs)@ + more@,
{
    let mut more = more;
    errs.append(&mut more);
}

fn eval_arg(a: &Option<Box<DimExpr>>, env: &[D], errs: &mut Vec<DimError>) -> (r: Option<
    Option<D>,
>)
    ensures
        match a {
            Some(x) => match eval_spec(**x, env@) {
                Some((d, es)) => r == Some(Some(d)) && final(errs)@ == old(errs)@ + es,
                None => r is None,
            },
            None => r == Some(None::<D>) && final(errs)@ == old(errs)@,
        },
    decreases a, 2nat,
{
    match a {
        Some(x) => match eval(x, env, errs) {
            Some(d) => Some(Some(d)),
            None => None,
        },
        None => Some(None),
    }
}

fn eval_arith(e: &DimExpr, env: &[D], errs: &mut Vec<DimError>) -> (r: Option<D>)
    requires
        *e is Arith,
    ensures
        match eval_spec(*e, env@) {
            Some((d, es)) => r == Some(d) && final(errs)@ == old(errs)@ + es,
            None => r is None,
        },
    decreases e, 0nat,
{
    match e {
        DimExpr::Arith(op, a, b) => {
            let l = match eval(a, env, errs) {
                Some(l) => l,
                None => return None,
            };
            let r = match eval(b, env, errs) {
                Some(r) => r,
                None => return None,
            };
            match arith_dim(*op, l, &r) {
                Some((d, es)) => {
                    push_all(errs, es);
                    proof {
                        let (_, ea) = eval_spec(**a, env@)->0;
                        let (_, eb) = eval_spec(**b, env@)->0;
                        assert(errs@ =~= old(errs)@ + (ea + eb + es@));
                    }
                    Some(d)
                },
                None => None,
            }
        },
        _ => None,
    }
}

fn eval_compare(e: &DimExpr, env: &[D], errs: &mut Vec<DimError>) -> (r: Option<D>)
    requires
        *e is Compare,
    ensures
        match eval_spec(*e, env@) {
            Some((d, es)) => r == Some(d) && final(errs)@ == old(errs)@ + es,
            None => r is None,
        },
    decreases e, 0nat,
{
    match e {
        DimExpr::Compare(op, a, b) => {
            let l = match eval(a, env, errs) {
                Some(l) => l,
                None => return None,
            };
            let r = match eval(b, env, errs) {
                Some(r) => r,
                None => return None,
            };
            let lz = match &**a {
                DimExpr::Num(_, z) => *z,
                _ => false,
            };
            let rz = match &**b {
                DimExpr::Num(_, z) => *z,
                _ => false,
            };
            let es: Vec<DimError> = if lz || rz {
                Vec::new()
            } else {
                match clash(&l, &r) {
                    Some((x, y)) => vec![DimError::Compare(*op, x, y)],
                    None => Vec::new(),
                }
            };
            push_all(errs, es);
            proof {
                let (_, ea) = eval_spec(**a, env@)->0;
                let (_, eb) = eval_spec(**b, env@)->0;
                assert(errs@ =~= old(errs)@ + (ea + eb + compare_errs(
                    *op,
                    is_zero(**a),
                    is_zero(**b),
                    l,
                    r,
                )));
            }
            Some(D::Any)
        },
        _ => None,
    }
}

fn eval_if(e: &DimExpr, env: &[D], errs: &mut Vec<DimError>) -> (r: Option<D>)
    requires
        *e is If,
    ensures
        match eval_spec(*e, env@) {
            Some((d, es)) => r == Some(d) && final(errs)@ == old(errs)@ + es,
            None => r is None,
        },
    decreases e, 0nat,
{
    match e {
        DimExpr::If(c, t, f) => {
            if eval(c, env, errs).is_none() {
                return None;
            }
            let dt = match eval(t, env, errs) {
                Some(d) => d,
                None => return None,
            };
            let df = match eval(f, env, errs) {
                Some(d) => d,
                None => return None,
            };
            let es: Vec<DimError> = match clash(&dt, &df) {
                Some((x, y)) => vec![DimError::Branches(x, y)],
                None => Vec::new(),
            };
            push_all(errs, es);
            proof {
                let (_, ec) = eval_spec(**c, env@)->0;
                let (_, et) = eval_spec(**t, env@)->0;
                let (_, ef) = eval_spec(**f, env@)->0;
                assert(errs@ =~= old(errs)@ + (ec + et + ef + branch_errs(dt, df)));
            }
            Some(join(dt, &df))
        },
        _ => None,
    }
}

fn eval_call(e: &DimExpr, env: &[D], errs: &mut Vec<DimError>) -> (r: Option<D>)
    requires
        *e is Call,
    ensures
        match eval_spec(*e, env@) {
            Some((d, es)) => r == Some(d) && final(errs)@ == old(errs)@ + es,
            None => r is None,
        },
    decreases e, 0nat,
{
    match e {
        DimExpr::Call(m, recv, a1, a2) => {
            let dr = match eval(recv, env, errs) {
                Some(d) => d,
                None => return None,
            };
            let d1 = match eval_arg(a1, env, errs) {
                Some(d) => d,
                None => return None,
            };
            let d2 = match eval_arg(a2, env, errs) {
                Some(d) => d,
                None => return None,
            };
            let r1: Option<&D> = match &d1 {
                Some(d) => Some(d),
                None => None,
            };
            let r2: Option<&D> = match &d2 {
                Some(d) => Some(d),
                None => None,
            };
            match method_dim(*m, &dr, r1, r2) {
                Some((d, es)) => {
                    push_all(errs, es);
                    proof {
                        let (_, er) = eval_spec(**recv, env@)->0;
                        let e1 = match a1 {
                            Some(x) => (eval_spec(**x, env@)->0).1,
                            None => Seq::<DimError>::empty(),
                        };
                        let e2 = match a2 {
                            Some(x) => (eval_spec(**x, env@)->0).1,
                            None => Seq::<DimError>::empty(),
                        };
                        assert(errs@ =~= old(errs)@ + (er + e1 + e2 + es@));
                    }
                    Some(d)
                },
                None => None,
            }
        },
        _ => None,
    }
}

fn eval_other(e: &DimExpr, env: &[D], errs: &mut Vec<DimError>) -> (r: Option<D>)
    requires
        *e is Other,
    ensures
        match eval_spec(*e, env@) {
            Some((d, es)) => r == Some(d) && final(errs)@ == old(errs)@ + es,
            None => r is None,
        },
    decreases e, 0nat,
{
    match e {
        DimExpr::Other(a, b) => {
            if eval(a, env, errs).is_none() {
                return None;
            }
            if eval(b, env, errs).is_none() {
                return None;
            }
            proof {
                let (_, ea) = eval_spec(**a, env@)->0;
                let (_, eb) = eval_spec(**b, env@)->0;
                assert(errs@ =~= old(errs)@ + (ea + eb));
            }
            Some(D::Any)
        },
        _ => None,
    }
}

fn eval(e: &DimExpr, env: &[D], errs: &mut Vec<DimError>) -> (r: Option<D>)
    ensures
        match eval_spec(*e, env@) {
            Some((d, es)) => r == Some(d) && final(errs)@ == old(errs)@ + es,
            None => r is None,
        },
    decreases e, 1nat,
{
    match e {
        DimExpr::Num(d, _) => {
            assert(errs@ =~= errs@ + Seq::<DimError>::empty());
            Some(D::Q(*d))
        },
        DimExpr::Var(i) => {
            assert(errs@ =~= errs@ + Seq::<DimError>::empty());
            if *i < env.len() {
                Some(copy_d(&env[*i]))
            } else {
                Some(D::Any)
            }
        },
        DimExpr::Unknown => {
            assert(errs@ =~= errs@ + Seq::<DimError>::empty());
            Some(D::Any)
        },
        DimExpr::Neg(x) => eval(x, env, errs),
        DimExpr::Arith(..) => eval_arith(e, env, errs),
        DimExpr::Compare(..) => eval_compare(e, env, errs),
        DimExpr::If(..) => eval_if(e, env, errs),
        DimExpr::Call(..) => eval_call(e, env, errs),
        DimExpr::Other(..) => eval_other(e, env, errs),
        DimExpr::Coalesce(..) | DimExpr::Index(..) | DimExpr::Bound(..) | DimExpr::List(..) => eval_more(e, env, errs),
        DimExpr::Match(..) | DimExpr::Let(..) => eval_scoped(e, env, errs),
        DimExpr::Declared(..) | DimExpr::Assign(..) | DimExpr::Return(..) | DimExpr::CallFn(..)
        | DimExpr::Struct(..) => eval_held(e, env, errs),
    }
}

fn eval_list(l: &DimList, env: &[D], prev: Option<D>, arms: bool, errs: &mut Vec<DimError>) -> (r: Option<
    Option<D>,
>)
    ensures
        match list_spec(*l, env@, prev, arms) {
            Some((o, es)) => r == Some(o) && final(errs)@ == old(errs)@ + es,
            None => r is None,
        },
    decreases l, 2nat,
{
    match l {
        DimList::Nil => {
            assert(errs@ =~= errs@ + Seq::<DimError>::empty());
            Some(prev)
        },
        DimList::Cons(x, rest) => {
            let ghost e0 = errs@;
            let d = match eval(x, env, errs) {
                Some(d) => d,
                None => return None,
            };
            let ghost e1 = errs@;
            let ghost prev_g = prev;
            let next = match prev {
                None => d,
                Some(p) => {
                    let es: Vec<DimError> = match clash(&p, &d) {
                        Some((a, b)) => if arms {
                            vec![DimError::Branches(a, b)]
                        } else {
                            vec![DimError::Mix(a, b)]
                        },
                        None => Vec::new(),
                    };
                    push_all(errs, es);
                    join(p, &d)
                },
            };
            let ghost e2 = errs@;
            let r = eval_list(rest, env, Some(next), arms, errs);
            proof {
                if let Some(_) = r {
                    let ex = (eval_spec(**x, env@)->0).1;
                    let em = match prev_g {
                        None => Seq::<DimError>::empty(),
                        Some(p) => if arms {
                            branch_errs(p, d)
                        } else {
                            mix_errs(p, d)
                        },
                    };
                    let er = (list_spec(**rest, env@, Some(next), arms)->0).1;
                    assert(e1 == e0 + ex);
                    assert(e2 =~= e1 + em);
                    assert(errs@ == e2 + er);
                    assert(errs@ =~= e0 + (ex + em + er));
                }
            }
            r
        },
    }
}

fn env_with(env: &[D], slot: usize, d: D) -> (r: Vec<D>)
    ensures
        r@ == bound(env@, slot as int, d),
{
    let mut out: Vec<D> = Vec::new();
    let mut k: usize = 0;
    let ghost want = bound(env@, slot as int, d);
    while k < env.len()
        invariant
            k <= env@.len(),
            want == bound(env@, slot as int, d),
            want.len() == env@.len(),
            out@ == want.take(k as int),
        decreases env@.len() - k,
    {
        let x = if k == slot {
            copy_d(&d)
        } else {
            copy_d(&env[k])
        };
        out.push(x);
        assert(out@ =~= want.take(k + 1));
        k += 1;
    }
    assert(want.take(env@.len() as int) =~= want);
    out
}

fn eval_scoped(e: &DimExpr, env: &[D], errs: &mut Vec<DimError>) -> (r: Option<D>)
    requires
        *e is Match || *e is Let,
    ensures
        match eval_spec(*e, env@) {
            Some((d, es)) => r == Some(d) && final(errs)@ == old(errs)@ + es,
            None => r is None,
        },
    decreases e, 0nat,
{
    match e {
        DimExpr::Match(x, arms) => {
            if eval(x, env, errs).is_none() {
                return None;
            }
            let ghost e1 = errs@;
            match eval_list(arms, env, None, true, errs) {
                Some(out) => {
                    proof {
                        let ex = (eval_spec(**x, env@)->0).1;
                        let es = (list_spec(*arms, env@, None, true)->0).1;
                        assert(errs@ =~= old(errs)@ + (ex + es));
                    }
                    Some(
                        match out {
                            Some(d) => d,
                            None => D::Any,
                        },
                    )
                },
                None => None,
            }
        },
        DimExpr::Let(slot, v, body) => {
            let d = match eval(v, env, errs) {
                Some(d) => d,
                None => return None,
            };
            let inner = env_with(env, *slot, d);
            let r = eval(body, inner.as_slice(), errs);
            proof {
                if r is Some {
                    let ev = (eval_spec(**v, env@)->0).1;
                    let eb = (eval_spec(**body, bound(env@, *slot as int, d))->0).1;
                    assert(errs@ =~= old(errs)@ + (ev + eb));
                }
            }
            r
        },
        _ => None,
    }
}

proof fn lemma_no_checks_past_end(l: DimArgs, ds: Seq<D>, k: int, f: String)
    requires
        k >= ds.len(),
    ensures
        arg_checks(l, ds, k, f) == Seq::<DimError>::empty(),
    decreases l,
{
    if let DimArgs::Cons(_, _, rest) = l {
        lemma_no_checks_past_end(*rest, ds, k + 1, f);
        assert(arg_checks(l, ds, k, f) =~= Seq::<DimError>::empty());
    }
}

fn eval_args(l: &DimArgs, env: &[D], errs: &mut Vec<DimError>) -> (r: Option<Vec<D>>)
    ensures
        match args_eval(*l, env@) {
            Some((ds, es)) => r matches Some(v) && v@ == ds && final(errs)@ == old(errs)@ + es,
            None => r is None,
        },
    decreases l, 2nat,
{
    match l {
        DimArgs::Nil => {
            assert(errs@ =~= errs@ + Seq::<DimError>::empty());
            Some(Vec::new())
        },
        DimArgs::Cons(_, x, rest) => {
            let ghost e0 = errs@;
            let d = match eval(x, env, errs) {
                Some(d) => d,
                None => return None,
            };
            let ghost e1 = errs@;
            let mut v = match eval_args(rest, env, errs) {
                Some(v) => v,
                None => return None,
            };
            let ghost tail = v@;
            v.insert(0, d);
            proof {
                let ex = (eval_spec(**x, env@)->0).1;
                let er = (args_eval(**rest, env@)->0).1;
                assert(v@ =~= seq![d] + tail);
                assert(errs@ =~= e0 + (ex + er));
            }
            Some(v)
        },
    }
}

fn check_args(l: &DimArgs, ds: &Vec<D>, k: usize, f: &String, errs: &mut Vec<DimError>)
    requires
        k <= ds@.len(),
    ensures
        final(errs)@ == old(errs)@ + arg_checks(*l, ds@, k as int, *f),
    decreases l,
{
    if k >= ds.len() {
        proof {
            lemma_no_checks_past_end(*l, ds@, k as int, *f);
        }
        assert(errs@ =~= errs@ + Seq::<DimError>::empty());
        return;
    }
    match l {
        DimArgs::Nil => {
            assert(errs@ =~= errs@ + Seq::<DimError>::empty());
        },
        DimArgs::Cons(p, _, rest) => {
            let ghost e0 = errs@;
            match p {
                Some((pn, want)) => {
                    let es = expect(Site::Argument(pn.clone(), f.clone()), want, &ds[k]);
                    push_all(errs, es);
                },
                None => {},
            }
            let ghost e1 = errs@;
            check_args(rest, ds, k + 1, f, errs);
            proof {
                let here = match p {
                    Some((pn, want)) => expect_errs(Site::Argument(*pn, *f), *want, ds@[k as int]),
                    None => Seq::<DimError>::empty(),
                };
                assert(e1 =~= e0 + here);
                assert(errs@ =~= e0 + arg_checks(*l, ds@, k as int, *f));
            }
        },
    }
}

fn eval_fields(l: &DimArgs, env: &[D], errs: &mut Vec<DimError>) -> (r: bool)
    ensures
        match fields_spec(*l, env@) {
            Some(es) => r && final(errs)@ == old(errs)@ + es,
            None => !r,
        },
    decreases l, 2nat,
{
    match l {
        DimArgs::Nil => {
            assert(errs@ =~= errs@ + Seq::<DimError>::empty());
            true
        },
        DimArgs::Cons(p, x, rest) => {
            let ghost e0 = errs@;
            let d = match eval(x, env, errs) {
                Some(d) => d,
                None => return false,
            };
            let ghost e1 = errs@;
            match p {
                Some((k, want)) => {
                    let es = expect(Site::Field(k.clone()), want, &d);
                    push_all(errs, es);
                },
                None => {},
            }
            let ghost e2 = errs@;
            if !eval_fields(rest, env, errs) {
                return false;
            }
            proof {
                let ex = (eval_spec(**x, env@)->0).1;
                let em = match p {
                    Some((k, want)) => expect_errs(Site::Field(*k), *want, d),
                    None => Seq::<DimError>::empty(),
                };
                let er = fields_spec(**rest, env@)->0;
                assert(e1 == e0 + ex);
                assert(e2 =~= e1 + em);
                assert(errs@ =~= e0 + (ex + em + er));
            }
            true
        },
    }
}

fn eval_held(e: &DimExpr, env: &[D], errs: &mut Vec<DimError>) -> (r: Option<D>)
    requires
        *e is Declared || *e is Assign || *e is Return || *e is CallFn || *e is Struct,
    ensures
        match eval_spec(*e, env@) {
            Some((d, es)) => r == Some(d) && final(errs)@ == old(errs)@ + es,
            None => r is None,
        },
    decreases e, 0nat,
{
    match e {
        DimExpr::Declared(want, v) => {
            let got = match eval(v, env, errs) {
                Some(d) => d,
                None => return None,
            };
            let es = expect(Site::Declared, want, &got);
            push_all(errs, es);
            proof {
                let ev = (eval_spec(**v, env@)->0).1;
                assert(errs@ =~= old(errs)@ + (ev + expect_errs(Site::Declared, *want, got)));
            }
            Some(copy_d(want))
        },
        DimExpr::Assign(checked, a, b) => {
            let l = match eval(a, env, errs) {
                Some(d) => d,
                None => return None,
            };
            let r = match eval(b, env, errs) {
                Some(d) => d,
                None => return None,
            };
            if *checked {
                let es = expect(Site::Assignment, &l, &r);
                push_all(errs, es);
            }
            proof {
                let ea = (eval_spec(**a, env@)->0).1;
                let eb = (eval_spec(**b, env@)->0).1;
                let ec = if *checked {
                    expect_errs(Site::Assignment, l, r)
                } else {
                    Seq::<DimError>::empty()
                };
                assert(errs@ =~= old(errs)@ + (ea + eb + ec));
            }
            Some(D::Any)
        },
        DimExpr::Return(want, v) => {
            let got = match eval(v, env, errs) {
                Some(d) => d,
                None => return None,
            };
            let es = expect(Site::Return, want, &got);
            push_all(errs, es);
            proof {
                let ev = (eval_spec(**v, env@)->0).1;
                assert(errs@ =~= old(errs)@ + (ev + expect_errs(Site::Return, *want, got)));
            }
            Some(D::Any)
        },
        DimExpr::CallFn(f, args, ret) => {
            let ds = match eval_args(args, env, errs) {
                Some(v) => v,
                None => return None,
            };
            let ghost e1 = errs@;
            check_args(args, &ds, 0, f, errs);
            proof {
                let ea = (args_eval(*args, env@)->0).1;
                assert(errs@ =~= old(errs)@ + (ea + arg_checks(*args, ds@, 0, *f)));
            }
            Some(copy_d(ret))
        },
        DimExpr::Struct(fields) => {
            if !eval_fields(fields, env, errs) {
                return None;
            }
            Some(D::Any)
        },
        _ => None,
    }
}

fn eval_more(e: &DimExpr, env: &[D], errs: &mut Vec<DimError>) -> (r: Option<D>)
    requires
        *e is Coalesce || *e is Index || *e is Bound || *e is List,
    ensures
        match eval_spec(*e, env@) {
            Some((d, es)) => r == Some(d) && final(errs)@ == old(errs)@ + es,
            None => r is None,
        },
    decreases e, 0nat,
{
    match e {
        DimExpr::Coalesce(a, b) => {
            let l = match eval(a, env, errs) {
                Some(l) => l,
                None => return None,
            };
            let r = match eval(b, env, errs) {
                Some(r) => r,
                None => return None,
            };
            let es = expect(Site::Fallback, &l, &r);
            push_all(errs, es);
            proof {
                let (_, ea) = eval_spec(**a, env@)->0;
                let (_, eb) = eval_spec(**b, env@)->0;
                assert(errs@ =~= old(errs)@ + (ea + eb + expect_errs(Site::Fallback, l, r)));
            }
            Some(l)
        },
        DimExpr::Index(a, k) => {
            let l = match eval(a, env, errs) {
                Some(l) => l,
                None => return None,
            };
            if eval(k, env, errs).is_none() {
                return None;
            }
            proof {
                let (_, ea) = eval_spec(**a, env@)->0;
                let (_, ek) = eval_spec(**k, env@)->0;
                assert(errs@ =~= old(errs)@ + (ea + ek));
            }
            match l {
                D::Arr(inner) => Some(*inner),
                _ => Some(D::Any),
            }
        },
        DimExpr::Bound(a) => match eval(a, env, errs) {
            Some(D::Iv(d)) => Some(D::Q(d)),
            Some(_) => Some(D::Any),
            None => None,
        },
        DimExpr::List(items) => match eval_list(items, env, None, false, errs) {
            Some(out) => Some(
                D::Arr(
                    Box::new(
                        match out {
                            Some(d) => d,
                            None => D::Any,
                        },
                    ),
                ),
            ),
            None => None,
        },
        _ => None,
    }
}

/// What the checker finds for `e` in the environment `env` (the fact of each variable's
/// slot): the fact of its value and every dimension mistake in it, in the order the checker
/// meets them; `None` when an exponent of a product, quotient or power leaves the `i8` range.
pub fn expr_dim(e: &DimExpr, env: &[D]) -> (r: Option<(D, Vec<DimError>)>)
    ensures
        match eval_spec(*e, env@) {
            Some((d, es)) => r matches Some((x, v)) && x == d && v@ == es,
            None => r is None,
        },
{
    let mut errs: Vec<DimError> = Vec::new();
    match eval(e, env, &mut errs) {
        Some(d) => {
            assert(errs@ =~= (eval_spec(*e, env@)->0).1);
            Some((d, errs))
        },
        None => None,
    }
}

/// The method a built-in name stands for, given the exponent of a `pow` call (when it is an
/// integer literal below 100 in size) and the unit of a `to` call (as for [`Method::To`]).
pub open spec fn method_named_spec(name: Seq<char>, power: Option<i8>, unit: Option<Option<Dim>>) -> Method {
    if name == "width"@ {
        Method::Width
    } else if name == "sample"@ {
        Method::Sample
    } else if name == "contains"@ {
        Method::Contains
    } else if name == "overlaps"@ {
        Method::Overlaps
    } else if name == "pow"@ {
        Method::Pow(power)
    } else if name == "abs"@ || name == "round"@ || name == "floor"@ || name == "ceil"@ || name
        == "to_int"@ || name == "to_float"@ || name == "neg"@ {
        Method::Keep
    } else if name == "signum"@ {
        Method::Signum
    } else if name == "min"@ || name == "max"@ {
        Method::MinMax
    } else if name == "hypot"@ {
        Method::Hypot
    } else if name == "clamp"@ {
        Method::Clamp
    } else if name == "sqrt"@ {
        Method::Sqrt
    } else if name == "sin"@ || name == "cos"@ || name == "tan"@ || name == "asin"@ || name
        == "acos"@ || name == "atan"@ || name == "exp"@ || name == "ln"@ {
        Method::Plain
    } else if name == "to"@ {
        Method::To(unit)
    } else if name == "push"@ {
        Method::Push
    } else if name == "pop"@ || name == "sum"@ {
        Method::PopSum
    } else if name == "len"@ {
        Method::Len
    } else {
        Method::Other
    }
}

fn is_one_of(name: &str, options: &[&str]) -> (r: bool)
    ensures
        r == exists|i: int| 0 <= i < options@.len() && options@[i]@ == name@,
{
    let mut k: usize = 0;
    while k < options.len()
        invariant
            k <= options@.len(),
            forall|i: int| 0 <= i < k ==> options@[i]@ != name@,
        decreases options@.len() - k,
    {
        if same_text(options[k], name) {
            return true;
        }
        k += 1;
    }
    false
}

/// The method a built-in name stands for (see [`method_named_spec`]).
pub fn method_named(name: &str, power: Option<i8>, unit: Option<Option<Dim>>) -> (m: Method)
    ensures
        m == method_named_spec(name@, power, unit),
{
    if same_text(name, "width") {
        Method::Width
    } else if same_text(name, "sample") {
        Method::Sample
    } else if same_text(name, "contains") {
        Method::Contains
    } else if same_text(name, "overlaps") {
        Method::Overlaps
    } else if same_text(name, "pow") {
        Method::Pow(power)
    } else if is_one_of(name, &["abs", "round", "floor", "ceil", "to_int", "to_float", "neg"]) {
        Method::Keep
    } else if same_text(name, "signum") {
        Method::Signum
    } else if is_one_of(name, &["min", "max"]) {
        Method::MinMax
    } else if same_text(name, "hypot") {
        Method::Hypot
    } else if same_text(name, "clamp") {
        Method::Clamp
    } else if same_text(name, "sqrt") {
        Method::Sqrt
    } else if is_one_of(name, &["sin", "cos", "tan", "asin", "acos", "atan", "exp", "ln"]) {
        Method::Plain
    } else if same_text(name, "to") {
        Method::To(unit)
    } else if same_text(name, "push") {
        Method::Push
    } else if is_one_of(name, &["pop", "sum"]) {
        Method::PopSum
    } else if same_text(name, "len") {
        Method::Len
    } else {
        Method::Other
    }
}

/// What a built-in method, called by name, gives on a receiver and its first two arguments
/// (see [`method_spec`] and [`method_named_spec`]).
pub fn builtin_dim(
    name: &str,
    power: Option<i8>,
    unit: Option<Option<Dim>>,
    recv: &D,
    a1: Option<&D>,
    a2: Option<&D>,
) -> (res: Option<(D, Vec<DimError>)>)
    ensures
        match method_spec(
            method_named_spec(name@, power, unit),
            *recv,
            match a1 {
                Some(a) => Some(*a),
                None => None,
            },
            match a2 {
                Some(a) => Some(*a),
                None => None,
            },
        ) {
            Some((d, es)) => res matches Some((x, v)) && x == d && v@ == es,
            None => res is None,
        },
{
    method_dim(method_named(name, power, unit), recv, a1, a2)
}

/// A value the checker cannot follow never causes an error: not in arithmetic on either
/// side, not in a comparison, not between branches.
pub proof fn lemma_unknown_never_errs(op: Op, cmp: CmpOp, d: D, lz: bool, rz: bool)
    ensures
        arith_spec(op, D::Any, d) matches Some((_, es)) && es.len() == 0,
        arith_spec(op, d, D::Any) matches Some((_, es)) && es.len() == 0,
        compare_errs(cmp, lz, rz, D::Any, d).len() == 0,
        compare_errs(cmp, lz, rz, d, D::Any).len() == 0,
        branch_errs(D::Any, d).len() == 0,
        branch_errs(d, D::Any).len() == 0,
{
}

/// Comparing against a literal zero is always fine.
pub proof fn lemma_zero_compares_with_anything(cmp: CmpOp, l: D, r: D, other: bool)
    ensures
        compare_errs(cmp, true, other, l, r).len() == 0,
        compare_errs(cmp, other, true, l, r).len() == 0,
{
}

/// `+`, `-` and `%` on one dimension keep it, with no error; on two known dimensions that
/// differ, they give exactly the error naming both.
pub proof fn lemma_same_dimension_adds(op: Op, a: Dim, b: Dim)
    requires
        op == Op::Add || op == Op::Sub || op == Op::Rem,
    ensures
        arith_spec(op, D::Q(a), D::Q(a)) == Some((D::Q(a), Seq::<DimError>::empty())),
        a != b ==> arith_spec(op, D::Q(a), D::Q(b)) == Some(
            (D::Any, seq![DimError::Combine(op, a, b)]),
        ),
{
}

/// `*` and `/` combine two known dimensions into the product's (or quotient's), with no
/// error, whenever its exponents fit.
pub proof fn lemma_products_combine(a: Dim, b: Dim)
    ensures
        fits_i8(add_exps(a, b)) ==> arith_spec(Op::Mul, D::Q(a), D::Q(b)) == Some(
            (D::Q(dim_times(a, b)), Seq::<DimError>::empty()),
        ),
        fits_i8(sub_exps(a, b)) ==> arith_spec(Op::Div, D::Q(a), D::Q(b)) == Some(
            (D::Q(dim_over(a, b)), Seq::<DimError>::empty()),
        ),
{
}

/// A comparison of two known, different dimensions, neither side a literal zero, gives one
/// error that names the comparison: "cannot compare" for `==` and `!=`, "cannot order" for
/// `<`, `<=`, `>`, `>=`.
pub proof fn lemma_comparison_names_its_operator(op: CmpOp, a: Dim, b: Dim)
    requires
        a != b,
    ensures
        compare_errs(op, false, false, D::Q(a), D::Q(b)) == seq![DimError::Compare(op, a, b)],
        headline_spec(DimError::Compare(op, a, b)) == if is_ordering(op) {
            "cannot order"@
        } else {
            "cannot compare"@
        },
{
    reveal_strlit("cannot ");
    reveal_strlit("order");
    reveal_strlit("compare");
    reveal_strlit("cannot order");
    reveal_strlit("cannot compare");
    assert("cannot "@ + "order"@ =~= "cannot order"@);
    assert("cannot "@ + "compare"@ =~= "cannot compare"@);
}

/// What a mismatch at `site` is reported as.
pub open spec fn site_text(site: Site) -> Seq<char> {
    match site {
        Site::Declared => "declared type doesn't match"@,
        Site::Assignment => "assignment doesn't match"@,
        Site::Argument(p, f) => "argument `"@ + p@ + "` of `"@ + f@ + "`"@,
        Site::Return => "returns the wrong dimension"@,
        Site::Field(k) => "field `"@ + k@ + "`"@,
        Site::Fallback => "`??` fallback has a different dimension"@,
        Site::ListItem => "list item"@,
        Site::Method(m) => match m {
            Method::Contains => "`contains` needs the same dimension"@,
            Method::Overlaps => "`overlaps` needs the same dimension"@,
            Method::Clamp => "`clamp` bounds need the same dimension"@,
            Method::Hypot => "`hypot` needs the same dimension"@,
            Method::MinMax => "`min` and `max` need the same dimension"@,
            _ => "needs the same dimension"@,
        },
    }
}

impl Site {
    /// What a mismatch here is reported as: `declared type doesn't match`, `argument `x` of
    /// `f``, `returns the wrong dimension`, `field `p``, ...
    pub fn text(&self) -> (r: String)
        ensures
            r@ == site_text(*self),
    {
        let mut r = String::new();
        match self {
            Site::Declared => r.append("declared type doesn't match"),
            Site::Assignment => r.append("assignment doesn't match"),
            Site::Argument(p, f) => {
                r.append("argument `");
                r.append(p.as_str());
                r.append("` of `");
                r.append(f.as_str());
                r.append("`");
            },
            Site::Return => r.append("returns the wrong dimension"),
            Site::Field(k) => {
                r.append("field `");
                r.append(k.as_str());
                r.append("`");
            },
            Site::Fallback => r.append("`??` fallback has a different dimension"),
            Site::ListItem => r.append("list item"),
            Site::Method(m) => match m {
                Method::Contains => r.append("`contains` needs the same dimension"),
                Method::Overlaps => r.append("`overlaps` needs the same dimension"),
                Method::Clamp => r.append("`clamp` bounds need the same dimension"),
                Method::Hypot => r.append("`hypot` needs the same dimension"),
                Method::MinMax => r.append("`min` and `max` need the same dimension"),
                _ => r.append("needs the same dimension"),
            },
        }
        r
    }
}

/// How a dimension mistake is reported, before the dimensions it names.
pub open spec fn headline_spec(e: DimError) -> Seq<char> {
    match e {
        DimError::Combine(op, _, _) => if op is Add {
            "cannot add"@
        } else if op is Sub {
            "cannot subtract"@
        } else {
            "cannot combine"@
        },
        DimError::Compare(op, _, _) => "cannot "@ + compare_verb_spec(op),
        DimError::Branches(_, _) => "branches disagree"@,
        DimError::Mismatch(site, _, _) => site_text(site),
        DimError::NoSqrt(_) => "cannot take the square root of"@,
        DimError::NeedsPlain(_) => "needs a plain number"@,
        DimError::Convert(_, _) => "cannot express"@,
        DimError::NotAUnit => "isn't a unit"@,
        DimError::Mix(_, _) => "a list mixes"@,
    }
}

impl DimError {
    /// How the mistake is reported, before the dimensions it names: `cannot add`,
    /// `cannot order`, `branches disagree`, ...
    pub fn headline(&self) -> (r: String)
        ensures
            r@ == headline_spec(*self),
    {
        let mut r = String::new();
        match self {
            DimError::Combine(op, _, _) => match op {
                Op::Add => r.append("cannot add"),
                Op::Sub => r.append("cannot subtract"),
                _ => r.append("cannot combine"),
            },
            DimError::Compare(op, _, _) => {
                r.append("cannot ");
                r.append(compare_verb(*op));
            },
            DimError::Branches(_, _) => r.append("branches disagree"),
            DimError::Mismatch(site, _, _) => {
                let t = site.text();
                r.append(t.as_str());
            },
            DimError::NoSqrt(_) => r.append("cannot take the square root of"),
            DimError::NeedsPlain(_) => r.append("needs a plain number"),
            DimError::Convert(_, _) => r.append("cannot express"),
            DimError::NotAUnit => r.append("isn't a unit"),
            DimError::Mix(_, _) => r.append("a list mixes"),
        }
        r
    }
}

/// `x.signum()` is a plain number whatever `x` measures: on a receiver that checks to a
/// quantity of any dimension, the call checks to the dimensionless quantity with no error
/// beyond the receiver's own, and adding a plain number to it is fine.
pub proof fn lemma_signum_is_plain(x: DimExpr, env: Seq<D>, d: Dim, es: Seq<DimError>)
    requires
        eval_spec(x, env) == Some((D::Q(d), es)),
    ensures
        eval_spec(DimExpr::Call(Method::Signum, Box::new(x), None, None), env) == Some(
            (D::Q(crate::units::dim_none()), es),
        ),
        eval_spec(
            DimExpr::Arith(
                Op::Add,
                Box::new(DimExpr::Call(Method::Signum, Box::new(x), None, None)),
                Box::new(DimExpr::Num(crate::units::dim_none(), false)),
            ),
            env,
        ) == Some((D::Q(crate::units::dim_none()), es)),
{
    let call = DimExpr::Call(Method::Signum, Box::new(x), None, None);
    assert(es + Seq::<DimError>::empty() + Seq::<DimError>::empty() + Seq::<DimError>::empty() =~= es);
    assert(eval_spec(call, env) == Some((D::Q(crate::units::dim_none()), es)));
    let one = DimExpr::Num(crate::units::dim_none(), false);
    lemma_same_dimension_adds(Op::Add, crate::units::dim_none(), crate::units::dim_none());
    assert(eval_spec(one, env) == Some((D::Q(crate::units::dim_none()), Seq::<DimError>::empty())));
    assert(arith_spec(Op::Add, D::Q(crate::units::dim_none()), D::Q(crate::units::dim_none())) == Some(
        (D::Q(crate::units::dim_none()), Seq::<DimError>::empty()),
    ));
    assert(es + Seq::<DimError>::empty() + Seq::<DimError>::empty() =~= es);
    assert(eval_spec(DimExpr::Arith(Op::Add, Box::new(call), Box::new(one)), env) == Some(
        (D::Q(crate::units::dim_none()), es + Seq::<DimError>::empty() + Seq::<DimError>::empty()),
    ));
}

} // verus!
