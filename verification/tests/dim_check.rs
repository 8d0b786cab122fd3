use mimas::dim_check::{
    builtin_dim, expr_dim, method_named, CmpOp, DimArgs, DimError, DimExpr, DimList, Method, Op, Site,
};
use mimas::dims::D;
use mimas::units::{energy, length, power, time, Dim};

fn num(d: Dim) -> DimExpr {
    DimExpr::Num(d, false)
}

fn bx(e: DimExpr) -> Box<DimExpr> {
    Box::new(e)
}

fn arith(op: Op, a: DimExpr, b: DimExpr) -> DimExpr {
    DimExpr::Arith(op, bx(a), bx(b))
}

fn area() -> Dim {
    Dim([2, 0, 0, 0, 0, 0, 0, 0, 0, 0])
}

#[test]
fn power_times_time_is_energy() {
    let (d, errs) = expr_dim(&arith(Op::Mul, num(power()), num(time())), &[]).unwrap();
    assert!(matches!(d, D::Q(x) if x == energy()));
    assert!(errs.is_empty());
    let (d, errs) = expr_dim(&arith(Op::Div, num(energy()), num(time())), &[]).unwrap();
    assert!(matches!(d, D::Q(x) if x == power()));
    assert!(errs.is_empty());
}

#[test]
fn power_plus_time_is_a_mistake() {
    let (d, errs) = expr_dim(&arith(Op::Add, num(power()), num(time())), &[]).unwrap();
    assert!(matches!(d, D::Any));
    assert_eq!(errs.len(), 1);
    assert!(matches!(errs[0], DimError::Combine(Op::Add, a, b) if a == power() && b == time()));
    let (d, errs) = expr_dim(&arith(Op::Sub, num(power()), num(power())), &[]).unwrap();
    assert!(matches!(d, D::Q(x) if x == power()));
    assert!(errs.is_empty());
}

#[test]
fn comparisons_need_one_dimension_except_against_zero() {
    let cmp = DimExpr::Compare(CmpOp::Lt, bx(num(power())), bx(num(time())));
    let (_, errs) = expr_dim(&cmp, &[]).unwrap();
    assert!(matches!(errs[..], [DimError::Compare(CmpOp::Lt, a, b)] if a == power() && b == time()));
    let zero = DimExpr::Compare(CmpOp::Lt, bx(num(power())), bx(DimExpr::Num(Dim::none(), true)));
    assert!(expr_dim(&zero, &[]).unwrap().1.is_empty());
}

#[test]
fn unknown_never_errs() {
    // slot 3 is past the end of the environment: not followed
    let e = arith(Op::Add, DimExpr::Var(3), num(power()));
    let (d, errs) = expr_dim(&e, &[D::Q(time())]).unwrap();
    assert!(matches!(d, D::Any));
    assert!(errs.is_empty());
    let e = arith(Op::Add, DimExpr::Var(0), num(power()));
    let (_, errs) = expr_dim(&e, &[D::Q(time())]).unwrap();
    assert_eq!(errs.len(), 1);
}

#[test]
fn branches_must_agree() {
    let e = DimExpr::If(bx(DimExpr::Unknown), bx(num(power())), bx(num(time())));
    let (d, errs) = expr_dim(&e, &[]).unwrap();
    assert!(matches!(d, D::Any));
    assert!(matches!(errs[..], [DimError::Branches(a, b)] if a == power() && b == time()));
    let e = DimExpr::If(bx(DimExpr::Unknown), bx(num(power())), bx(num(power())));
    let (d, errs) = expr_dim(&e, &[]).unwrap();
    assert!(matches!(d, D::Q(x) if x == power()));
    assert!(errs.is_empty());
}

#[test]
fn sqrt_halves_and_pow_scales() {
    let e = DimExpr::Call(Method::Sqrt, bx(num(area())), None, None);
    let (d, errs) = expr_dim(&e, &[]).unwrap();
    assert!(matches!(d, D::Q(x) if x == length()));
    assert!(errs.is_empty());
    let e = DimExpr::Call(Method::Sqrt, bx(num(length())), None, None);
    let (d, errs) = expr_dim(&e, &[]).unwrap();
    assert!(matches!(d, D::Any));
    assert!(matches!(errs[..], [DimError::NoSqrt(x)] if x == length()));
    let e = DimExpr::Call(Method::Pow(Some(2)), bx(num(length())), None, None);
    assert!(matches!(expr_dim(&e, &[]).unwrap().0, D::Q(x) if x == area()));
    // 2 * 100 leaves the range of an exponent
    let e = DimExpr::Call(Method::Pow(Some(100)), bx(num(area())), None, None);
    assert!(expr_dim(&e, &[]).is_none());
}

#[test]
fn builtins_by_name() {
    assert!(matches!(method_named("hypot", None, None), Method::Hypot));
    assert!(matches!(method_named("floor", None, None), Method::Keep));
    assert!(matches!(method_named("frobnicate", None, None), Method::Other));
    let (d, errs) = builtin_dim("sin", None, None, &D::Q(power()), None, None).unwrap();
    assert!(matches!(d, D::Q(x) if x == Dim::none()));
    assert!(matches!(errs[..], [DimError::NeedsPlain(x)] if x == power()));
    let (_, errs) =
        builtin_dim("clamp", None, None, &D::Q(power()), Some(&D::Q(power())), Some(&D::Q(time())))
            .unwrap();
    assert!(matches!(errs[..], [DimError::Mismatch(_, a, b)] if a == power() && b == time()));
    let (_, errs) =
        builtin_dim("to", None, Some(Some(energy())), &D::Q(power()), None, None).unwrap();
    assert!(matches!(errs[..], [DimError::Convert(a, b)] if a == power() && b == energy()));
    let list = D::Arr(Box::new(D::Q(power())));
    assert!(matches!(builtin_dim("sum", None, None, &list, None, None).unwrap().0, D::Q(x) if x == power()));
    assert!(matches!(builtin_dim("len", None, None, &list, None, None).unwrap().0, D::Q(x) if x == Dim::none()));
}

#[test]
fn lists_fallbacks_indexes_and_bounds() {
    let items = DimList::Cons(
        bx(num(power())),
        Box::new(DimList::Cons(bx(num(time())), Box::new(DimList::Nil))),
    );
    let (d, errs) = expr_dim(&DimExpr::List(items), &[]).unwrap();
    assert!(matches!(d, D::Arr(inner) if matches!(*inner, D::Any)));
    assert!(matches!(errs[..], [DimError::Mix(a, b)] if a == power() && b == time()));
    let same = DimList::Cons(bx(num(power())), Box::new(DimList::Cons(bx(num(power())), Box::new(DimList::Nil))));
    let list = DimExpr::List(same);
    let (d, errs) = expr_dim(&DimExpr::Index(bx(list), bx(num(Dim::none()))), &[]).unwrap();
    assert!(matches!(d, D::Q(x) if x == power()));
    assert!(errs.is_empty());
    let e = DimExpr::Coalesce(bx(num(power())), bx(num(time())));
    let (d, errs) = expr_dim(&e, &[]).unwrap();
    assert!(matches!(d, D::Q(x) if x == power()));
    assert!(matches!(errs[..], [DimError::Mismatch(_, a, b)] if a == power() && b == time()));
    let (d, _) = expr_dim(&DimExpr::Bound(bx(DimExpr::Var(0))), &[D::Iv(energy())]).unwrap();
    assert!(matches!(d, D::Q(x) if x == energy()));
}

#[test]
fn match_arms_agree_and_let_binds_a_slot() {
    let arms = DimList::Cons(
        bx(num(power())),
        Box::new(DimList::Cons(bx(num(time())), Box::new(DimList::Nil))),
    );
    let (d, errs) = expr_dim(&DimExpr::Match(bx(DimExpr::Unknown), arms), &[]).unwrap();
    assert!(matches!(d, D::Any));
    assert!(matches!(errs[..], [DimError::Branches(a, b)] if a == power() && b == time()));
    // `let e = 2kW * 3h; e + 1kWh` over one slot
    let e = DimExpr::Let(
        0,
        bx(arith(Op::Mul, num(power()), num(time()))),
        bx(arith(Op::Add, DimExpr::Var(0), num(energy()))),
    );
    let (d, errs) = expr_dim(&e, &[D::Any]).unwrap();
    assert!(matches!(d, D::Q(x) if x == energy()));
    assert!(errs.is_empty());
    let e = DimExpr::Let(0, bx(num(time())), bx(arith(Op::Add, DimExpr::Var(0), num(energy()))));
    assert_eq!(expr_dim(&e, &[D::Any]).unwrap().1.len(), 1);
}

fn headlines(e: &DimExpr) -> Vec<String> {
    expr_dim(e, &[]).unwrap().1.iter().map(|x| x.headline()).collect()
}

#[test]
fn nonsense_arithmetic_is_rejected() {
    let kw = || num(power());
    let s = || num(time());
    assert_eq!(headlines(&arith(Op::Add, kw(), s())), vec!["cannot add"]);
    assert_eq!(headlines(&arith(Op::Sub, kw(), s())), vec!["cannot subtract"]);
    assert_eq!(headlines(&DimExpr::Compare(CmpOp::Gt, bx(kw()), bx(s()))), vec!["cannot order"]);
    assert_eq!(
        headlines(&DimExpr::Compare(CmpOp::Eq, bx(kw()), bx(num(length())))),
        vec!["cannot compare"]
    );
    let list = DimList::Cons(bx(kw()), Box::new(DimList::Cons(bx(s()), Box::new(DimList::Nil))));
    assert_eq!(headlines(&DimExpr::List(list)), vec!["a list mixes"]);
    let branches = DimExpr::If(bx(DimExpr::Unknown), bx(kw()), bx(s()));
    assert_eq!(headlines(&branches), vec!["branches disagree"]);
    // every ordering orders, every equality compares
    for op in [CmpOp::Lt, CmpOp::Le, CmpOp::Gt, CmpOp::Ge] {
        assert_eq!(headlines(&DimExpr::Compare(op, bx(kw()), bx(s()))), vec!["cannot order"]);
    }
    for op in [CmpOp::Eq, CmpOp::Ne] {
        assert_eq!(headlines(&DimExpr::Compare(op, bx(kw()), bx(s()))), vec!["cannot compare"]);
    }
    assert!(headlines(&DimExpr::Compare(CmpOp::Gt, bx(kw()), bx(DimExpr::Num(Dim::none(), true)))).is_empty());
}

fn arg(p: &str, want: D, value: DimExpr, rest: DimArgs) -> DimArgs {
    DimArgs::Cons(Some((p.to_string(), want)), bx(value), Box::new(rest))
}

#[test]
fn declared_dimensions_are_enforced() {
    let plain = || D::Q(Dim::none());
    // `let a: float = 5kW;` and `let a: kW = 5.0;`
    let e = DimExpr::Declared(plain(), bx(num(power())));
    assert_eq!(headlines(&e), vec!["declared type doesn't match"]);
    let e = DimExpr::Declared(D::Q(power()), bx(num(Dim::none())));
    assert_eq!(headlines(&e), vec!["declared type doesn't match"]);
    // `fn f(x: float) -> float { x }; f(5kW)` and `fn f(p: kW) -> kW { p }; f(5s)`
    let e = DimExpr::CallFn("f".to_string(), arg("x", plain(), num(power()), DimArgs::Nil), plain());
    assert_eq!(headlines(&e), vec!["argument `x` of `f`"]);
    let e = DimExpr::CallFn("f".to_string(), arg("p", D::Q(power()), num(time()), DimArgs::Nil), D::Q(power()));
    let (d, errs) = expr_dim(&e, &[]).unwrap();
    assert!(matches!(d, D::Q(x) if x == power()));
    assert!(matches!(&errs[..], [DimError::Mismatch(Site::Argument(p, f), a, b)] if p == "p" && f == "f" && *a == power() && *b == time()));
    // `fn f(p: kW) -> s { p }`
    let e = DimExpr::Return(D::Q(time()), bx(num(power())));
    assert_eq!(headlines(&e), vec!["returns the wrong dimension"]);
    // `struct S { p: kW }; S { p = 5s }`
    let e = DimExpr::Struct(arg("p", D::Q(power()), num(time()), DimArgs::Nil));
    assert_eq!(headlines(&e), vec!["field `p`"]);
    // `x = 5s` where `x` is a power; `x *= 2.0` is not held to it
    let e = DimExpr::Assign(true, bx(DimExpr::Var(0)), bx(num(time())));
    assert_eq!(expr_dim(&e, &[D::Q(power())]).unwrap().1.len(), 1);
    let e = DimExpr::Assign(false, bx(DimExpr::Var(0)), bx(num(time())));
    assert!(expr_dim(&e, &[D::Q(power())]).unwrap().1.is_empty());
    // `5kW.sin()` and `5m.sqrt()`
    let e = DimExpr::Call(Method::Plain, bx(num(power())), None, None);
    assert_eq!(headlines(&e), vec!["needs a plain number"]);
    let e = DimExpr::Call(Method::Sqrt, bx(num(length())), None, None);
    assert_eq!(headlines(&e), vec!["cannot take the square root of"]);
    let e = DimExpr::Call(Method::To(Some(Some(time()))), bx(num(power())), None, None);
    assert_eq!(headlines(&e), vec!["cannot express"]);
}
