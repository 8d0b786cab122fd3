//! What a parsed body refers to, read off its syntax tree: every identifier in a value or
//! call position, the name on the right of `::` and of a bare member access, every name a
//! pattern binds (in `let`, `for`, `if let`, `while let`, `match` arms and closure
//! parameters), and what the expression parts of an f-string refer to. The text of a string
//! literal, a literal part of an f-string, a named argument's name, a field's key and a
//! comment (which the parse drops) are never references.

use vstd::prelude::*;
use crate::text::texts;

verus! {

/// A parsed expression: one variant per shape of expression the parser builds.
#[derive(Debug)]
pub enum Expr {
    /// A name in a value or call position.
    Ident(String),
    /// A call: the callee and the arguments.
    Call(Box<Expr>, Vec<Argument>),
    /// A bare member access `.name` (its name).
    Member(String),
    /// `left.right`.
    Dot(Box<Expr>, Box<Expr>),
    /// `left::name`.
    Path(Box<Expr>, String),
    /// `left[key]`.
    Index(Box<Expr>, Box<Expr>),
    /// A block: its statements and the expression it yields, if any.
    Block(Vec<Stmt>, Option<Box<Expr>>),
    /// `break`, with its value if any.
    Break(Option<Box<Expr>>),
    /// A closure: its parameters and its body.
    Closure(Vec<Binding>, Box<Expr>),
    /// A collect expression over its value.
    Collect(Box<Expr>),
    /// `continue`.
    Continue,
    /// `a ?? b`.
    Coalescence(Box<Expr>, Box<Expr>),
    /// `a == b` and the other comparisons.
    Equality(Box<Expr>, Box<Expr>),
    /// `a + b` and the other arithmetic operators.
    Evaluation(Box<Expr>, Box<Expr>),
    /// `a && b`, `a || b`.
    Logical(Box<Expr>, Box<Expr>),
    /// `for binding in iterator { body }`.
    For(Box<Pat>, Box<Expr>, Box<Expr>),
    /// An f-string: its literal and expression parts in order.
    FString(Vec<FStringPart>),
    /// `(inner)`.
    Grouping(Box<Expr>),
    /// `if condition { main } else { other }`, with the `let` pattern of an `if let`.
    If(Box<Expr>, Box<Expr>, Option<Box<Expr>>, Option<Box<Pat>>),
    /// `a in b`.
    In(Box<Expr>, Box<Expr>),
    /// A literal.
    Literal(Literal),
    /// `loop { body }`.
    Loop(Box<Expr>),
    /// `match identity { cases }`.
    Match(Box<Expr>, Vec<MatchCase>),
    /// `raise value`.
    Raise(Box<Expr>),
    /// `start..end`.
    Range(Box<Expr>, Box<Expr>),
    /// `return`, with its value if any.
    Return(Option<Box<Expr>>),
    /// A unary operator on its operand.
    Unary(Box<Expr>),
    /// `expr!` / `expr?`.
    Unwrap(Box<Expr>),
    /// `while header { body }`, with the `let` pattern of a `while let`.
    While(Option<Box<Pat>>, Box<Expr>, Box<Expr>),
    /// `left absolve handler`.
    Absolve(Box<Expr>, Box<Expr>),
    /// An expression that failed to parse.
    Poison,
}

/// An argument of a call: its name, when it is a named argument, and its value.
#[derive(Debug)]
pub struct Argument {
    pub name: Option<String>,
    pub value: Expr,
}

/// A closure parameter: its pattern and its default value, if any.
#[derive(Debug)]
pub struct Binding {
    pub left: Pat,
    pub right: Option<Expr>,
}

/// A part of an f-string.
#[derive(Debug)]
pub enum FStringPart {
    /// Literal text.
    Text(String),
    /// An interpolated expression.
    Value(Expr),
}

/// A `match` arm: its pattern, its guard if any, and its body.
#[derive(Debug)]
pub struct MatchCase {
    pub pat: Pat,
    pub guard: Option<Expr>,
    pub body: Expr,
}

/// A parsed statement.
#[derive(Debug)]
pub enum Stmt {
    /// `let pattern = right else { other }`.
    Let(Pat, Expr, Option<Expr>),
    /// `left = right` (and the compound assignments).
    Assignment(Expr, Expr),
    /// An expression statement.
    Expr(Expr),
    /// A nested item: the body of the function it declares, if it declares one.
    Item(Option<Expr>),
    /// A module declaration.
    Module,
}

/// A parsed pattern.
#[derive(Debug)]
pub enum Pat {
    /// A name it binds.
    Ident(String),
    /// `(a, b, ...)`.
    Tuple(Vec<Pat>),
    /// `a | b | ...`.
    Or(Vec<Pat>),
    /// `Path { key = pattern, ... }`: the path and each field's key and pattern.
    Struct(Box<Expr>, Vec<(String, Pat)>),
    /// `Path(a, b, ...)`.
    TupleVariant(Box<Expr>, Vec<Pat>),
    /// A bare path `A::B`.
    Variant(Box<Expr>),
    /// `pattern?`.
    NullBind(Box<Pat>),
    /// A literal pattern.
    Literal(Literal),
    /// A pattern that failed to parse.
    Poison,
}

/// A parsed literal.
#[derive(Debug)]
pub enum Literal {
    /// `[a, b, ...]`.
    Array(Vec<Expr>),
    /// `(a, b, ...)`.
    Tuple(Vec<Expr>),
    /// `{ key: value, ... }`: each key and value.
    Dictionary(Vec<(String, Expr)>),
    /// `Name { key = value, ... }`: the name and each field's key and value.
    Struct(Box<Expr>, Vec<(String, Expr)>),
    /// A string literal's text.
    Str(String),
    /// An integer.
    Int(i64),
    /// `true` or `false`.
    Bool(bool),
    /// Any other literal (a float, `null`, `()`).
    Other,
}

/// The names the expression `e` refers to, in walk order (once per reference).
pub open spec fn expr_refs_spec(e: Expr) -> Seq<Seq<char>>
    decreases e,
{
    match e {
        Expr::Ident(n) => seq![n@],
        Expr::Call(f, args) => expr_refs_spec(*f) + args_refs_spec(args@),
        Expr::Member(n) => seq![n@],
        Expr::Dot(l, r) => expr_refs_spec(*l) + expr_refs_spec(*r),
        Expr::Path(l, n) => expr_refs_spec(*l).push(n@),
        Expr::Index(l, k) => expr_refs_spec(*l) + expr_refs_spec(*k),
        Expr::Block(body, y) => stmts_refs_spec(body@) + match y {
            Some(x) => expr_refs_spec(*x),
            None => seq![],
        },
        Expr::Break(v) => match v {
            Some(x) => expr_refs_spec(*x),
            None => seq![],
        },
        Expr::Closure(params, body) => bindings_refs_spec(params@) + expr_refs_spec(*body),
        Expr::Collect(x) => expr_refs_spec(*x),
        Expr::Continue => seq![],
        Expr::Coalescence(a, b) => expr_refs_spec(*a) + expr_refs_spec(*b),
        Expr::Equality(a, b) => expr_refs_spec(*a) + expr_refs_spec(*b),
        Expr::Evaluation(a, b) => expr_refs_spec(*a) + expr_refs_spec(*b),
        Expr::Logical(a, b) => expr_refs_spec(*a) + expr_refs_spec(*b),
        Expr::For(p, it, body) => pat_refs_spec(*p) + expr_refs_spec(*it) + expr_refs_spec(*body),
        Expr::FString(parts) => parts_refs_spec(parts@),
        Expr::Grouping(x) => expr_refs_spec(*x),
        Expr::If(c, m, other, p) => expr_refs_spec(*c) + expr_refs_spec(*m) + match other {
            Some(x) => expr_refs_spec(*x),
            None => seq![],
        } + match p {
            Some(q) => pat_refs_spec(*q),
            None => seq![],
        },
        Expr::In(a, b) => expr_refs_spec(*a) + expr_refs_spec(*b),
        Expr::Literal(l) => literal_refs_spec(l),
        Expr::Loop(x) => expr_refs_spec(*x),
        Expr::Match(x, cases) => expr_refs_spec(*x) + cases_refs_spec(cases@),
        Expr::Raise(x) => expr_refs_spec(*x),
        Expr::Range(a, b) => expr_refs_spec(*a) + expr_refs_spec(*b),
        Expr::Return(v) => match v {
            Some(x) => expr_refs_spec(*x),
            None => seq![],
        },
        Expr::Unary(x) => expr_refs_spec(*x),
        Expr::Unwrap(x) => expr_refs_spec(*x),
        Expr::While(p, h, body) => (match p {
            Some(q) => pat_refs_spec(*q),
            None => seq![],
        }) + expr_refs_spec(*h) + expr_refs_spec(*body),
        Expr::Absolve(a, b) => expr_refs_spec(*a) + expr_refs_spec(*b),
        Expr::Poison => seq![],
    }
}

/// The names the statement `s` refers to.
pub open spec fn stmt_refs_spec(s: Stmt) -> Seq<Seq<char>>
    decreases s,
{
    match s {
        Stmt::Let(p, r, other) => pat_refs_spec(p) + expr_refs_spec(r) + match other {
            Some(x) => expr_refs_spec(x),
            None => seq![],
        },
        Stmt::Assignment(l, r) => expr_refs_spec(l) + expr_refs_spec(r),
        Stmt::Expr(e) => expr_refs_spec(e),
        Stmt::Item(body) => match body {
            Some(x) => expr_refs_spec(x),
            None => seq![],
        },
        Stmt::Module => seq![],
    }
}

/// The names the pattern `p` binds or refers to.
pub open spec fn pat_refs_spec(p: Pat) -> Seq<Seq<char>>
    decreases p,
{
    match p {
        Pat::Ident(n) => seq![n@],
        Pat::Tuple(ps) => pats_refs_spec(ps@),
        Pat::Or(ps) => pats_refs_spec(ps@),
        Pat::Struct(path, fields) => expr_refs_spec(*path) + field_pats_refs_spec(fields@),
        Pat::TupleVariant(path, ps) => expr_refs_spec(*path) + pats_refs_spec(ps@),
        Pat::Variant(path) => expr_refs_spec(*path),
        Pat::NullBind(q) => pat_refs_spec(*q),
        Pat::Literal(l) => literal_refs_spec(l),
        Pat::Poison => seq![],
    }
}

/// The names the literal `l` refers to.
pub open spec fn literal_refs_spec(l: Literal) -> Seq<Seq<char>>
    decreases l,
{
    match l {
        Literal::Array(es) => exprs_refs_spec(es@),
        Literal::Tuple(es) => exprs_refs_spec(es@),
        Literal::Dictionary(fs) => field_exprs_refs_spec(fs@),
        Literal::Struct(name, fs) => expr_refs_spec(*name) + field_exprs_refs_spec(fs@),
        _ => seq![],
    }
}

pub open spec fn exprs_refs_spec(s: Seq<Expr>) -> Seq<Seq<char>>
    decreases s,
{
    if s.len() == 0 {
        seq![]
    } else {
        exprs_refs_spec(s.drop_last()) + expr_refs_spec(s.last())
    }
}

pub open spec fn args_refs_spec(s: Seq<Argument>) -> Seq<Seq<char>>
    decreases s,
{
    if s.len() == 0 {
        seq![]
    } else {
        args_refs_spec(s.drop_last()) + expr_refs_spec(s.last().value)
    }
}

pub open spec fn stmts_refs_spec(s: Seq<Stmt>) -> Seq<Seq<char>>
    decreases s,
{
    if s.len() == 0 {
        seq![]
    } else {
        stmts_refs_spec(s.drop_last()) + stmt_refs_spec(s.last())
    }
}

pub open spec fn bindings_refs_spec(s: Seq<Binding>) -> Seq<Seq<char>>
    decreases s,
{
    if s.len() == 0 {
        seq![]
    } else {
        bindings_refs_spec(s.drop_last()) + pat_refs_spec(s.last().left) + match s.last().right {
            Some(x) => expr_refs_spec(x),
            None => seq![],
        }
    }
}

pub open spec fn parts_refs_spec(s: Seq<FStringPart>) -> Seq<Seq<char>>
    decreases s,
{
    if s.len() == 0 {
        seq![]
    } else {
        parts_refs_spec(s.drop_last()) + match s.last() {
            FStringPart::Text(_) => seq![],
            FStringPart::Value(x) => expr_refs_spec(x),
        }
    }
}

pub open spec fn cases_refs_spec(s: Seq<MatchCase>) -> Seq<Seq<char>>
    decreases s,
{
    if s.len() == 0 {
        seq![]
    } else {
        cases_refs_spec(s.drop_last()) + pat_refs_spec(s.last().pat) + match s.last().guard {
            Some(g) => expr_refs_spec(g),
            None => seq![],
        } + expr_refs_spec(s.last().body)
    }
}

pub open spec fn pats_refs_spec(s: Seq<Pat>) -> Seq<Seq<char>>
    decreases s,
{
    if s.len() == 0 {
        seq![]
    } else {
        pats_refs_spec(s.drop_last()) + pat_refs_spec(s.last())
    }
}

pub open spec fn field_pats_refs_spec(s: Seq<(String, Pat)>) -> Seq<Seq<char>>
    decreases s,
{
    if s.len() == 0 {
        seq![]
    } else {
        field_pats_refs_spec(s.drop_last()) + pat_refs_spec(s.last().1)
    }
}

pub open spec fn field_exprs_refs_spec(s: Seq<(String, Expr)>) -> Seq<Seq<char>>
    decreases s,
{
    if s.len() == 0 {
        seq![]
    } else {
        field_exprs_refs_spec(s.drop_last()) + expr_refs_spec(s.last().1)
    }
}

fn exprs_refs(v: &Vec<Expr>, out: &mut Vec<String>)
    ensures
        texts(final(out)@) == texts(old(out)@) + exprs_refs_spec(v@),
    decreases v, 1nat,
{
    let ghost start = texts(out@);
    let mut k: usize = 0;
    while k < v.len()
        invariant
            k <= v@.len(),
            texts(out@) == start + exprs_refs_spec(v@.take(k as int)),
        decreases v@.len() - k,
    {
        proof {
            assert(decreases_to!(*v => v@));
            assert(decreases_to!(v@ => v@[k as int]));
            assert(v@.take(k + 1).drop_last() =~= v@.take(k as int));
            assert(v@.take(k + 1).last() == v@[k as int]);
        }
        expr_refs(&v[k], out);
        assert(texts(out@) =~= start + exprs_refs_spec(v@.take(k + 1)));
        k += 1;
    }
    assert(v@.take(v@.len() as int) =~= v@);
}

fn args_refs(v: &Vec<Argument>, out: &mut Vec<String>)
    ensures
        texts(final(out)@) == texts(old(out)@) + args_refs_spec(v@),
    decreases v, 1nat,
{
    let ghost start = texts(out@);
    let mut k: usize = 0;
    while k < v.len()
        invariant
            k <= v@.len(),
            texts(out@) == start + args_refs_spec(v@.take(k as int)),
        decreases v@.len() - k,
    {
        proof {
            assert(decreases_to!(*v => v@));
            assert(decreases_to!(v@ => v@[k as int]));
            assert(v@.take(k + 1).drop_last() =~= v@.take(k as int));
            assert(v@.take(k + 1).last() == v@[k as int]);
        }
        expr_refs(&v[k].value, out);
        assert(texts(out@) =~= start + args_refs_spec(v@.take(k + 1)));
        k += 1;
    }
    assert(v@.take(v@.len() as int) =~= v@);
}

fn stmts_refs(v: &Vec<Stmt>, out: &mut Vec<String>)
    ensures
        texts(final(out)@) == texts(old(out)@) + stmts_refs_spec(v@),
    decreases v, 1nat,
{
    let ghost start = texts(out@);
    let mut k: usize = 0;
    while k < v.len()
        invariant
            k <= v@.len(),
            texts(out@) == start + stmts_refs_spec(v@.take(k as int)),
        decreases v@.len() - k,
    {
        proof {
            assert(decreases_to!(*v => v@));
            assert(decreases_to!(v@ => v@[k as int]));
            assert(v@.take(k + 1).drop_last() =~= v@.take(k as int));
            assert(v@.take(k + 1).last() == v@[k as int]);
        }
        stmt_refs(&v[k], out);
        assert(texts(out@) =~= start + stmts_refs_spec(v@.take(k + 1)));
        k += 1;
    }
    assert(v@.take(v@.len() as int) =~= v@);
}

fn bindings_refs(v: &Vec<Binding>, out: &mut Vec<String>)
    ensures
        texts(final(out)@) == texts(old(out)@) + bindings_refs_spec(v@),
    decreases v, 1nat,
{
    let ghost start = texts(out@);
    let mut k: usize = 0;
    while k < v.len()
        invariant
            k <= v@.len(),
            texts(out@) == start + bindings_refs_spec(v@.take(k as int)),
        decreases v@.len() - k,
    {
        proof {
            assert(decreases_to!(*v => v@));
            assert(decreases_to!(v@ => v@[k as int]));
            assert(v@.take(k + 1).drop_last() =~= v@.take(k as int));
            assert(v@.take(k + 1).last() == v@[k as int]);
        }
        pat_refs(&v[k].left, out);
        opt_refs(&v[k].right, out);
        assert(texts(out@) =~= start + bindings_refs_spec(v@.take(k + 1)));
        k += 1;
    }
    assert(v@.take(v@.len() as int) =~= v@);
}

fn parts_refs(v: &Vec<FStringPart>, out: &mut Vec<String>)
    ensures
        texts(final(out)@) == texts(old(out)@) + parts_refs_spec(v@),
    decreases v, 1nat,
{
    let ghost start = texts(out@);
    let mut k: usize = 0;
    while k < v.len()
        invariant
            k <= v@.len(),
            texts(out@) == start + parts_refs_spec(v@.take(k as int)),
        decreases v@.len() - k,
    {
        proof {
            assert(decreases_to!(*v => v@));
            assert(decreases_to!(v@ => v@[k as int]));
            assert(v@.take(k + 1).drop_last() =~= v@.take(k as int));
            assert(v@.take(k + 1).last() == v@[k as int]);
        }
        match &v[k] {
            FStringPart::Text(_) => {},
            FStringPart::Value(x) => expr_refs(x, out),
        }
        assert(texts(out@) =~= start + parts_refs_spec(v@.take(k + 1)));
        k += 1;
    }
    assert(v@.take(v@.len() as int) =~= v@);
}

fn cases_refs(v: &Vec<MatchCase>, out: &mut Vec<String>)
    ensures
        texts(final(out)@) == texts(old(out)@) + cases_refs_spec(v@),
    decreases v, 1nat,
{
    let ghost start = texts(out@);
    let mut k: usize = 0;
    while k < v.len()
        invariant
            k <= v@.len(),
            texts(out@) == start + cases_refs_spec(v@.take(k as int)),
        decreases v@.len() - k,
    {
        proof {
            assert(decreases_to!(*v => v@));
            assert(decreases_to!(v@ => v@[k as int]));
            assert(v@.take(k + 1).drop_last() =~= v@.take(k as int));
            assert(v@.take(k + 1).last() == v@[k as int]);
        }
        pat_refs(&v[k].pat, out);
        opt_refs(&v[k].guard, out);
        expr_refs(&v[k].body, out);
        assert(texts(out@) =~= start + cases_refs_spec(v@.take(k + 1)));
        k += 1;
    }
    assert(v@.take(v@.len() as int) =~= v@);
}

fn pats_refs(v: &Vec<Pat>, out: &mut Vec<String>)
    ensures
        texts(final(out)@) == texts(old(out)@) + pats_refs_spec(v@),
    decreases v, 1nat,
{
    let ghost start = texts(out@);
    let mut k: usize = 0;
    while k < v.len()
        invariant
            k <= v@.len(),
            texts(out@) == start + pats_refs_spec(v@.take(k as int)),
        decreases v@.len() - k,
    {
        proof {
            assert(decreases_to!(*v => v@));
            assert(decreases_to!(v@ => v@[k as int]));
            assert(v@.take(k + 1).drop_last() =~= v@.take(k as int));
            assert(v@.take(k + 1).last() == v@[k as int]);
        }
        pat_refs(&v[k], out);
        assert(texts(out@) =~= start + pats_refs_spec(v@.take(k + 1)));
        k += 1;
    }
    assert(v@.take(v@.len() as int) =~= v@);
}

fn field_pats_refs(v: &Vec<(String, Pat)>, out: &mut Vec<String>)
    ensures
        texts(final(out)@) == texts(old(out)@) + field_pats_refs_spec(v@),
    decreases v, 1nat,
{
    let ghost start = texts(out@);
    let mut k: usize = 0;
    while k < v.len()
        invariant
            k <= v@.len(),
            texts(out@) == start + field_pats_refs_spec(v@.take(k as int)),
        decreases v@.len() - k,
    {
        proof {
            assert(decreases_to!(*v => v@));
            assert(decreases_to!(v@ => v@[k as int]));
            assert(v@.take(k + 1).drop_last() =~= v@.take(k as int));
            assert(v@.take(k + 1).last() == v@[k as int]);
        }
        pat_refs(&v[k].1, out);
        assert(texts(out@) =~= start + field_pats_refs_spec(v@.take(k + 1)));
        k += 1;
    }
    assert(v@.take(v@.len() as int) =~= v@);
}

fn field_exprs_refs(v: &Vec<(String, Expr)>, out: &mut Vec<String>)
    ensures
        texts(final(out)@) == texts(old(out)@) + field_exprs_refs_spec(v@),
    decreases v, 1nat,
{
    let ghost start = texts(out@);
    let mut k: usize = 0;
    while k < v.len()
        invariant
            k <= v@.len(),
            texts(out@) == start + field_exprs_refs_spec(v@.take(k as int)),
        decreases v@.len() - k,
    {
        proof {
            assert(decreases_to!(*v => v@));
            assert(decreases_to!(v@ => v@[k as int]));
            assert(v@.take(k + 1).drop_last() =~= v@.take(k as int));
            assert(v@.take(k + 1).last() == v@[k as int]);
        }
        expr_refs(&v[k].1, out);
        assert(texts(out@) =~= start + field_exprs_refs_spec(v@.take(k + 1)));
        k += 1;
    }
    assert(v@.take(v@.len() as int) =~= v@);
}

fn push_name(out: &mut Vec<String>, n: &String)
    ensures
        texts(final(out)@) == texts(old(out)@).push(n@),
{
    out.push(n.clone());
    assert(texts(out@) =~= texts(old(out)@).push(n@));
}

fn opt_refs(o: &Option<Expr>, out: &mut Vec<String>)
    ensures
        texts(final(out)@) == texts(old(out)@) + match *o {
            Some(x) => expr_refs_spec(x),
            None => Seq::<Seq<char>>::empty(),
        },
    decreases o, 1nat,
{
    match o {
        Some(x) => expr_refs(x, out),
        None => {
            assert(texts(out@) =~= texts(out@) + Seq::<Seq<char>>::empty());
        },
    }
}

fn opt_box_refs(o: &Option<Box<Expr>>, out: &mut Vec<String>)
    ensures
        texts(final(out)@) == texts(old(out)@) + match *o {
            Some(x) => expr_refs_spec(*x),
            None => Seq::<Seq<char>>::empty(),
        },
    decreases o, 1nat,
{
    match o {
        Some(x) => expr_refs(x, out),
        None => {
            assert(texts(out@) =~= texts(out@) + Seq::<Seq<char>>::empty());
        },
    }
}

fn opt_pat_refs(o: &Option<Box<Pat>>, out: &mut Vec<String>)
    ensures
        texts(final(out)@) == texts(old(out)@) + match *o {
            Some(q) => pat_refs_spec(*q),
            None => Seq::<Seq<char>>::empty(),
        },
    decreases o, 1nat,
{
    match o {
        Some(q) => pat_refs(q, out),
        None => {
            assert(texts(out@) =~= texts(out@) + Seq::<Seq<char>>::empty());
        },
    }
}


/// Adds to `out` the names the expression `e` refers to, in walk order.
pub fn expr_refs(e: &Expr, out: &mut Vec<String>)
    ensures
        texts(final(out)@) == texts(old(out)@) + expr_refs_spec(*e),
    decreases e, 2nat,
{
    let ghost start = texts(out@);
    match e {
        Expr::Ident(n) | Expr::Member(n) => {
            push_name(out, n);
            assert(texts(out@) =~= start + expr_refs_spec(*e));
        },
        Expr::Path(l, n) => {
            expr_refs(l, out);
            push_name(out, n);
            assert(texts(out@) =~= start + expr_refs_spec(*e));
        },
        Expr::Dot(a, b) | Expr::Index(a, b) | Expr::Coalescence(a, b) | Expr::Equality(a, b)
        | Expr::Evaluation(a, b) | Expr::Logical(a, b) | Expr::In(a, b) | Expr::Range(a, b)
        | Expr::Absolve(a, b) => {
            expr_refs(a, out);
            expr_refs(b, out);
            assert(texts(out@) =~= start + expr_refs_spec(*e));
        },
        Expr::Collect(x) | Expr::Grouping(x) | Expr::Loop(x) | Expr::Raise(x) | Expr::Unary(x)
        | Expr::Unwrap(x) => {
            expr_refs(x, out);
        },
        Expr::Break(v) | Expr::Return(v) => {
            opt_box_refs(v, out);
        },
        Expr::Continue | Expr::Poison => {
            assert(texts(out@) =~= start + expr_refs_spec(*e));
        },
        Expr::Literal(l) => {
            literal_refs(l, out);
        },
        _ => {
            compound_refs(e, out);
        },
    }
}

fn compound_refs(e: &Expr, out: &mut Vec<String>)
    requires
        *e is Call || *e is Block || *e is Closure || *e is For || *e is FString || *e is If
            || *e is Match || *e is While,
    ensures
        texts(final(out)@) == texts(old(out)@) + expr_refs_spec(*e),
    decreases e, 1nat,
{
    let ghost start = texts(out@);
    match e {
        Expr::Call(f, args) => {
            expr_refs(f, out);
            args_refs(args, out);
        },
        Expr::Block(body, y) => {
            stmts_refs(body, out);
            opt_box_refs(y, out);
        },
        Expr::Closure(params, body) => {
            bindings_refs(params, out);
            expr_refs(body, out);
        },
        Expr::For(p, it, body) => {
            pat_refs(p, out);
            expr_refs(it, out);
            expr_refs(body, out);
        },
        Expr::FString(parts) => {
            parts_refs(parts, out);
        },
        Expr::If(c, m, other, p) => {
            expr_refs(c, out);
            expr_refs(m, out);
            opt_box_refs(other, out);
            opt_pat_refs(p, out);
        },
        Expr::Match(x, cases) => {
            expr_refs(x, out);
            cases_refs(cases, out);
        },
        Expr::While(p, h, body) => {
            opt_pat_refs(p, out);
            expr_refs(h, out);
            expr_refs(body, out);
        },
        _ => {},
    }
    assert(texts(out@) =~= start + expr_refs_spec(*e));
}

/// Adds to `out` the names the statement `s` refers to, in walk order.
pub fn stmt_refs(s: &Stmt, out: &mut Vec<String>)
    ensures
        texts(final(out)@) == texts(old(out)@) + stmt_refs_spec(*s),
    decreases s, 2nat,
{
    let ghost start = texts(out@);
    match s {
        Stmt::Let(p, r, other) => {
            pat_refs(p, out);
            expr_refs(r, out);
            opt_refs(other, out);
        },
        Stmt::Assignment(l, r) => {
            expr_refs(l, out);
            expr_refs(r, out);
        },
        Stmt::Expr(x) => {
            expr_refs(x, out);
        },
        Stmt::Item(body) => {
            opt_refs(body, out);
        },
        Stmt::Module => {},
    }
    assert(texts(out@) =~= start + stmt_refs_spec(*s));
}

/// Adds to `out` the names the pattern `p` binds or refers to, in walk order.
pub fn pat_refs(p: &Pat, out: &mut Vec<String>)
    ensures
        texts(final(out)@) == texts(old(out)@) + pat_refs_spec(*p),
    decreases p, 2nat,
{
    let ghost start = texts(out@);
    match p {
        Pat::Ident(n) => push_name(out, n),
        Pat::Tuple(ps) | Pat::Or(ps) => pats_refs(ps, out),
        Pat::Struct(path, fields) => {
            expr_refs(path, out);
            field_pats_refs(fields, out);
        },
        Pat::TupleVariant(path, ps) => {
            expr_refs(path, out);
            pats_refs(ps, out);
        },
        Pat::Variant(path) => expr_refs(path, out),
        Pat::NullBind(q) => pat_refs(q, out),
        Pat::Literal(l) => literal_refs(l, out),
        Pat::Poison => {},
    }
    assert(texts(out@) =~= start + pat_refs_spec(*p));
}

/// Adds to `out` the names the literal `l` refers to, in walk order.
pub fn literal_refs(l: &Literal, out: &mut Vec<String>)
    ensures
        texts(final(out)@) == texts(old(out)@) + literal_refs_spec(*l),
    decreases l, 2nat,
{
    let ghost start = texts(out@);
    match l {
        Literal::Array(es) | Literal::Tuple(es) => exprs_refs(es, out),
        Literal::Dictionary(fs) => field_exprs_refs(fs, out),
        Literal::Struct(name, fs) => {
            expr_refs(name, out);
            field_exprs_refs(fs, out);
        },
        _ => {},
    }
    assert(texts(out@) =~= start + literal_refs_spec(*l));
}

/// The names a parsed body refers to, in walk order.
pub fn references(body: &Expr) -> (r: Vec<String>)
    ensures
        texts(r@) == expr_refs_spec(*body),
{
    let mut out: Vec<String> = Vec::new();
    assert(texts(out@) =~= Seq::<Seq<char>>::empty());
    expr_refs(body, &mut out);
    assert(texts(out@) =~= expr_refs_spec(*body));
    out
}

/// The text of a string literal is never a reference, as an expression, as a pattern, or
/// as a call's argument, whatever the text says and whatever the argument is named.
pub proof fn lemma_string_text_is_never_a_reference(t: String, name: Option<String>, args: Seq<Argument>)
    ensures
        expr_refs_spec(Expr::Literal(Literal::Str(t))) == Seq::<Seq<char>>::empty(),
        pat_refs_spec(Pat::Literal(Literal::Str(t))) == Seq::<Seq<char>>::empty(),
        args_refs_spec(args.push(Argument { name: name, value: Expr::Literal(Literal::Str(t)) }))
            == args_refs_spec(args),
{
    assert(literal_refs_spec(Literal::Str(t)) =~= Seq::<Seq<char>>::empty());
    assert(expr_refs_spec(Expr::Literal(Literal::Str(t))) =~= Seq::<Seq<char>>::empty());
    assert(pat_refs_spec(Pat::Literal(Literal::Str(t))) =~= Seq::<Seq<char>>::empty());
    let a2 = args.push(Argument { name: name, value: Expr::Literal(Literal::Str(t)) });
    assert(a2.drop_last() =~= args);
    assert(a2.last().value == Expr::Literal(Literal::Str(t)));
    assert(args_refs_spec(a2) == args_refs_spec(args) + expr_refs_spec(Expr::Literal(Literal::Str(t))));
    assert(args_refs_spec(a2) =~= args_refs_spec(args));
}

/// The literal parts of an f-string are never references: an f-string refers to what its
/// interpolated expressions refer to, and to nothing else.
pub proof fn lemma_fstring_text_is_never_a_reference(parts: Seq<FStringPart>, t: String, x: Expr)
    ensures
        parts_refs_spec(parts.push(FStringPart::Text(t))) == parts_refs_spec(parts),
        parts_refs_spec(parts.push(FStringPart::Value(x))) == parts_refs_spec(parts)
            + expr_refs_spec(x),
{
    assert(parts.push(FStringPart::Text(t)).drop_last() =~= parts);
    assert(parts.push(FStringPart::Value(x)).drop_last() =~= parts);
    assert(parts_refs_spec(parts.push(FStringPart::Text(t))) =~= parts_refs_spec(parts));
}

/// A name is referred to by two parts in order exactly when one of them refers to it.
pub proof fn lemma_refs_of_parts(a: Expr, b: Expr, name: Seq<char>)
    ensures
        expr_refs_spec(Expr::Evaluation(Box::new(a), Box::new(b))).contains(name) <==> (
        expr_refs_spec(a).contains(name) || expr_refs_spec(b).contains(name)),
{
    let s = expr_refs_spec(a) + expr_refs_spec(b);
    if expr_refs_spec(a).contains(name) {
        let i = choose|i: int| 0 <= i < expr_refs_spec(a).len() && expr_refs_spec(a)[i] == name;
        assert(s[i] == name);
    }
    if expr_refs_spec(b).contains(name) {
        let i = choose|i: int| 0 <= i < expr_refs_spec(b).len() && expr_refs_spec(b)[i] == name;
        assert(s[expr_refs_spec(a).len() + i] == name);
    }
    if s.contains(name) {
        let i = choose|i: int| 0 <= i < s.len() && s[i] == name;
        if i < expr_refs_spec(a).len() {
            assert(expr_refs_spec(a)[i] == name);
        } else {
            assert(expr_refs_spec(b)[i - expr_refs_spec(a).len()] == name);
        }
    }
}

} // verus!
