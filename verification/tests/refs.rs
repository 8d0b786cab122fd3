use mimas::refs::{
    expr_refs, literal_refs, pat_refs, references, stmt_refs, Argument, Binding, Expr,
    FStringPart, Literal, MatchCase, Pat, Stmt,
};

fn id(s: &str) -> Expr {
    Expr::Ident(s.to_string())
}

fn b(e: Expr) -> Box<Expr> {
    Box::new(e)
}

fn text(s: &str) -> Expr {
    Expr::Literal(Literal::Str(s.to_string()))
}

fn num(n: i64) -> Expr {
    Expr::Literal(Literal::Int(n))
}

fn arg(value: Expr) -> Argument {
    Argument { name: None, value }
}

fn bind(s: &str) -> Pat {
    Pat::Ident(s.to_string())
}

fn path(left: Expr, name: &str) -> Expr {
    Expr::Path(b(left), name.to_string())
}

#[test]
fn paths_and_member_names_are_references() {
    // `m::f(x, "y")`: the path's names, then the argument, never the string's text
    let body = Expr::Call(b(path(id("m"), "f")), vec![arg(id("x")), arg(text("y"))]);
    assert_eq!(references(&body), vec!["m", "f", "x"]);
    // `obj.len` and a bare `.len`
    let dot = Expr::Dot(b(id("obj")), b(Expr::Member("len".to_string())));
    assert_eq!(references(&dot), vec!["obj", "len"]);
    // `xs[i]`
    let index = Expr::Index(b(id("xs")), b(id("i")));
    assert_eq!(references(&index), vec!["xs", "i"]);
}

#[test]
fn string_literal_text_is_never_a_reference() {
    assert_eq!(references(&text("square(2)")), Vec::<String>::new());
    let call = Expr::Call(b(id("print")), vec![arg(text("call square(n) now"))]);
    assert_eq!(references(&call), vec!["print"]);
    let as_pattern = Pat::Literal(Literal::Str("square".to_string()));
    let mut out = Vec::new();
    pat_refs(&as_pattern, &mut out);
    assert!(out.is_empty());
}

#[test]
fn named_argument_names_are_not_references() {
    let call = Expr::Call(
        b(id("f")),
        vec![Argument { name: Some("key".to_string()), value: id("v") }, arg(num(1))],
    );
    assert_eq!(references(&call), vec!["f", "v"]);
}

#[test]
fn fstring_text_parts_are_skipped() {
    // f"square(n) = {square(n)}"
    let f = Expr::FString(vec![
        FStringPart::Text("square(n) = ".to_string()),
        FStringPart::Value(Expr::Call(b(id("square")), vec![arg(id("n"))])),
        FStringPart::Text(" done".to_string()),
    ]);
    assert_eq!(references(&f), vec!["square", "n"]);
    let only_text = Expr::FString(vec![FStringPart::Text("helper()".to_string())]);
    assert_eq!(references(&only_text), Vec::<String>::new());
}

#[test]
fn closure_parameters_and_defaults_are_walked() {
    // |x, y = d| x + y
    let c = Expr::Closure(
        vec![
            Binding { left: bind("x"), right: None },
            Binding { left: bind("y"), right: Some(id("d")) },
        ],
        b(Expr::Evaluation(b(id("x")), b(id("y")))),
    );
    assert_eq!(references(&c), vec!["x", "y", "d", "x", "y"]);
}

#[test]
fn match_arms_give_pattern_guard_and_body() {
    // match s { Shape::Circle(r) if r == 0 => r, Shape::Empty => none }
    let m = Expr::Match(
        b(id("s")),
        vec![
            MatchCase {
                pat: Pat::TupleVariant(b(path(id("Shape"), "Circle")), vec![bind("r")]),
                guard: Some(Expr::Equality(b(id("r")), b(num(0)))),
                body: id("r"),
            },
            MatchCase {
                pat: Pat::Variant(b(path(id("Shape"), "Empty"))),
                guard: None,
                body: id("none"),
            },
        ],
    );
    assert_eq!(
        references(&m),
        vec!["s", "Shape", "Circle", "r", "r", "r", "Shape", "Empty", "none"]
    );
}

#[test]
fn let_statements_and_blocks_are_walked_in_order() {
    // { let (a, b) = pair else { return }; fn inner() { c }; mod m; a = b; a }
    let block = Expr::Block(
        vec![
            Stmt::Let(
                Pat::Tuple(vec![bind("a"), bind("b")]),
                id("pair"),
                Some(Expr::Return(None)),
            ),
            Stmt::Item(Some(id("c"))),
            Stmt::Item(None),
            Stmt::Module,
            Stmt::Assignment(id("a"), id("b")),
        ],
        Some(b(id("a"))),
    );
    assert_eq!(references(&block), vec!["a", "b", "pair", "c", "a", "b", "a"]);
    let mut out = Vec::new();
    stmt_refs(&Stmt::Expr(Expr::Break(Some(b(id("v"))))), &mut out);
    assert_eq!(out, vec!["v"]);
}

#[test]
fn if_let_and_while_let_bindings_are_references() {
    // if let Some(v) = opt { v } else { 0 }: condition, body, else, then the binding
    let i = Expr::If(
        b(id("opt")),
        b(id("v")),
        Some(b(num(0))),
        Some(Box::new(Pat::TupleVariant(b(id("Some")), vec![bind("v")]))),
    );
    assert_eq!(references(&i), vec!["opt", "v", "Some", "v"]);
    // while let x? = next() { x }: binding, header, body
    let w = Expr::While(
        Some(Box::new(Pat::NullBind(Box::new(bind("x"))))),
        b(Expr::Call(b(id("next")), vec![])),
        b(id("x")),
    );
    assert_eq!(references(&w), vec!["x", "next", "x"]);
    // for i in 0..n { total }
    let f = Expr::For(
        Box::new(bind("i")),
        b(Expr::Range(b(num(0)), b(id("n")))),
        b(id("total")),
    );
    assert_eq!(references(&f), vec!["i", "n", "total"]);
}

#[test]
fn literal_keys_are_not_references() {
    // Point { x = a, y = b }
    let point = Literal::Struct(
        b(id("Point")),
        vec![("x".to_string(), id("a")), ("y".to_string(), id("b"))],
    );
    let mut out = Vec::new();
    literal_refs(&point, &mut out);
    assert_eq!(out, vec!["Point", "a", "b"]);
    // { key: value } and [p, q] and (r,)
    let dict = Expr::Literal(Literal::Dictionary(vec![("key".to_string(), id("value"))]));
    assert_eq!(references(&dict), vec!["value"]);
    let arr = Expr::Literal(Literal::Array(vec![id("p"), id("q")]));
    assert_eq!(references(&arr), vec!["p", "q"]);
    let tup = Expr::Literal(Literal::Tuple(vec![id("r")]));
    assert_eq!(references(&tup), vec!["r"]);
    assert_eq!(references(&Expr::Literal(Literal::Bool(true))), Vec::<String>::new());
    assert_eq!(references(&Expr::Literal(Literal::Other)), Vec::<String>::new());
}

#[test]
fn pattern_field_keys_are_not_references() {
    // Point { x = px, y = 0 } | other
    let p = Pat::Or(vec![
        Pat::Struct(
            b(id("Point")),
            vec![
                ("x".to_string(), bind("px")),
                ("y".to_string(), Pat::Literal(Literal::Int(0))),
            ],
        ),
        bind("other"),
        Pat::Poison,
    ]);
    let mut out = Vec::new();
    pat_refs(&p, &mut out);
    assert_eq!(out, vec!["Point", "px", "other"]);
}

#[test]
fn every_other_expression_walks_its_operands() {
    let two = |f: fn(Box<Expr>, Box<Expr>) -> Expr| f(b(id("l")), b(id("r")));
    for e in [
        two(Expr::Coalescence),
        two(Expr::Equality),
        two(Expr::Evaluation),
        two(Expr::Logical),
        two(Expr::In),
        two(Expr::Range),
        two(Expr::Absolve),
    ] {
        assert_eq!(references(&e), vec!["l", "r"]);
    }
    let one = |f: fn(Box<Expr>) -> Expr| f(b(id("x")));
    for e in [
        one(Expr::Collect),
        one(Expr::Grouping),
        one(Expr::Loop),
        one(Expr::Raise),
        one(Expr::Unary),
        one(Expr::Unwrap),
    ] {
        assert_eq!(references(&e), vec!["x"]);
    }
    assert_eq!(references(&Expr::Return(Some(b(id("x"))))), vec!["x"]);
    assert_eq!(references(&Expr::Continue), Vec::<String>::new());
    assert_eq!(references(&Expr::Poison), Vec::<String>::new());
}

#[test]
fn walking_appends_after_what_is_there() {
    let mut out = vec!["seen".to_string()];
    expr_refs(&Expr::Evaluation(b(id("a")), b(id("a"))), &mut out);
    assert_eq!(out, vec!["seen", "a", "a"]);
}
