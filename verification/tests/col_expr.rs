use mimas::col_expr::{col_expr, ColError, ColExpr, ColList};
use mimas::frame_call::{frame_method_call, CallOutcome, FrameCall};
use mimas::frame_schema::{schema_from_spec, table_col, FrameSchema};
use mimas::dim_check::CmpOp;
use mimas::frames::{CDim, ColTy, EvaluationOp, FrameCol};
use mimas::units::{mass, time, Dim};

fn bx(e: ColExpr) -> Box<ColExpr> {
    Box::new(e)
}

fn col(name: &str) -> ColExpr {
    ColExpr::Col(Some(name.to_string()))
}

/// `mass:kg n:int name:str`, closed.
fn parcels() -> FrameSchema {
    let s = FrameSchema::empty();
    let s = table_col(&s, Some("mass"), FrameCol { ty: Some(ColTy::Float), dim: Some(mass()) });
    let s = table_col(&s, Some("n"), FrameCol::known(ColTy::Int));
    table_col(&s, Some("name"), FrameCol::known(ColTy::Str))
}

fn kg(x: bool) -> ColExpr {
    ColExpr::Float(Some(mass()), x)
}

#[test]
fn a_misspelled_column_is_an_error_on_a_closed_schema_only() {
    let s = parcels();
    match col_expr(&col("mas"), &s) {
        Err(ColError::Missing(m)) => {
            assert_eq!(m.name, "mas");
            assert_eq!(m.columns, "mass, n, name");
        },
        other => panic!("expected a missing column, got {other:?}"),
    }
    let mut open = parcels();
    open.closed = false;
    let (c, d) = col_expr(&col("mas"), &open).unwrap();
    assert!(c.ty.is_none() && matches!(d, CDim::Any));
    let (c, d) = col_expr(&col("mass"), &s).unwrap();
    assert!(matches!(c.ty, Some(ColTy::Float)));
    assert!(matches!(d, CDim::Q(x) if x == mass()));
}

#[test]
fn comparisons_keep_one_dimension() {
    let s = parcels();
    let ok = ColExpr::Compare(CmpOp::Gt, bx(col("mass")), bx(kg(false)));
    assert!(matches!(col_expr(&ok, &s).unwrap().0.ty, Some(ColTy::Bool)));
    let bad = ColExpr::Compare(CmpOp::Gt, bx(col("mass")), bx(ColExpr::Float(Some(time()), false)));
    assert!(matches!(col_expr(&bad, &s), Err(ColError::Compare(_, a, b)) if a == mass() && b == time()));
    // a literal zero compares with anything
    let zero = ColExpr::Compare(CmpOp::Gt, bx(col("mass")), bx(ColExpr::Int(true)));
    assert!(col_expr(&zero, &s).is_ok());
    let plain = ColExpr::Compare(CmpOp::Gt, bx(col("mass")), bx(ColExpr::Int(false)));
    assert!(matches!(col_expr(&plain, &s), Err(ColError::Compare(_, a, b)) if a == mass() && b == Dim::none()));
}

#[test]
fn arithmetic_promotes_and_composes_dimensions() {
    let s = parcels();
    // `mass * n`: a float column in kg
    let e = ColExpr::Arith(EvaluationOp::Multiply, bx(col("mass")), bx(col("n")));
    let (c, d) = col_expr(&e, &s).unwrap();
    assert!(matches!(c.ty, Some(ColTy::Float)));
    assert!(matches!(d, CDim::Q(x) if x == mass()));
    // `n + n` stays int and plain
    let e = ColExpr::Arith(EvaluationOp::Plus, bx(col("n")), bx(col("n")));
    let (c, d) = col_expr(&e, &s).unwrap();
    assert!(matches!(c.ty, Some(ColTy::Int)));
    assert!(matches!(d, CDim::Plain));
    // `mass + 2s` is refused
    let e = ColExpr::Arith(EvaluationOp::Plus, bx(col("mass")), bx(ColExpr::Float(Some(time()), false)));
    assert!(matches!(
        col_expr(&e, &s),
        Err(ColError::Combine(EvaluationOp::Plus, a, b)) if a == mass() && b == time()
    ));
}

#[test]
fn branches_cells_and_fallbacks_share_the_column_dimension() {
    let s = parcels();
    let e = ColExpr::When(bx(ColExpr::Bool), bx(col("mass")), bx(ColExpr::Float(Some(time()), false)));
    assert!(matches!(col_expr(&e, &s), Err(ColError::Branches(a, b)) if a == mass() && b == time()));
    let e = ColExpr::When(bx(ColExpr::Bool), bx(col("mass")), bx(kg(false)));
    assert!(matches!(col_expr(&e, &s).unwrap().1, CDim::Q(x) if x == mass()));
    let cells = ColList::Cons(bx(kg(false)), Box::new(ColList::Cons(bx(ColExpr::Float(Some(time()), false)), Box::new(ColList::Nil))));
    let e = ColExpr::IsIn(bx(col("mass")), cells);
    assert!(matches!(col_expr(&e, &s), Err(ColError::Compare(_, a, b)) if a == mass() && b == time()));
    let e = ColExpr::IsIn(bx(col("mass")), ColList::Cons(bx(kg(false)), Box::new(ColList::Nil)));
    assert!(matches!(col_expr(&e, &s).unwrap().0.ty, Some(ColTy::Bool)));
    let e = ColExpr::Coalesce(bx(col("mass")), bx(ColExpr::Float(Some(time()), false)));
    assert!(matches!(col_expr(&e, &s), Err(ColError::Fallback(a, b)) if a == mass() && b == time()));
}

#[test]
fn functions_methods_and_casts() {
    let s = parcels();
    let e = ColExpr::Apply("mean".to_string(), bx(col("mass")), None);
    let (c, d) = col_expr(&e, &s).unwrap();
    assert!(matches!(c.ty, Some(ColTy::Float)) && matches!(d, CDim::Q(x) if x == mass()));
    let e = ColExpr::Apply("eq".to_string(), bx(col("mass")), Some(bx(ColExpr::Float(Some(time()), false))));
    assert!(matches!(col_expr(&e, &s), Err(ColError::Compare(..))));
    let e = ColExpr::Method("count".to_string(), bx(col("name")));
    assert!(matches!(col_expr(&e, &s).unwrap().0.ty, Some(ColTy::Int)));
    let e = ColExpr::Cast(Some("int".to_string()), bx(col("mass")));
    let (c, d) = col_expr(&e, &s).unwrap();
    assert!(matches!(c.ty, Some(ColTy::Int)) && matches!(d, CDim::Q(x) if x == mass()));
    // a spec'd schema works the same way
    let t = schema_from_spec("w:kg").unwrap();
    let e = ColExpr::Arith(EvaluationOp::Divide, bx(col("w")), bx(kg(false)));
    assert!(matches!(col_expr(&e, &t).unwrap().1, CDim::Q(x) if x == Dim::none()));
}

fn keys(s: &FrameSchema) -> Vec<String> {
    s.cols.keys().cloned().collect()
}

#[test]
fn frame_methods_reshape_and_check_the_schema() {
    let s = parcels();
    match frame_method_call(&FrameCall::Pull("mass".to_string()), &s) {
        Ok(CallOutcome::Column(c)) => assert!(matches!(c.dim, Some(x) if x == mass())),
        other => panic!("expected a column, got {other:?}"),
    }
    assert!(matches!(
        frame_method_call(&FrameCall::Pull("weight".to_string()), &s),
        Err(ColError::Missing(m)) if m.name == "weight"
    ));
    // a filter keeps every column once its conditions check
    let ok = FrameCall::Filter(vec![ColExpr::Compare(CmpOp::Gt, bx(col("mass")), bx(kg(false)))]);
    match frame_method_call(&ok, &s) {
        Ok(CallOutcome::Frame(f)) => assert_eq!(keys(&f), vec!["mass", "n", "name"]),
        other => panic!("expected a frame, got {other:?}"),
    }
    let bad = FrameCall::Filter(vec![
        ColExpr::Bool,
        ColExpr::Compare(CmpOp::Gt, bx(col("mass")), bx(ColExpr::Float(Some(time()), false))),
    ]);
    assert!(matches!(frame_method_call(&bad, &s), Err(ColError::Compare(..))));
    assert!(matches!(
        frame_method_call(&FrameCall::Check(vec!["n".to_string(), "nme".to_string()]), &s),
        Err(ColError::Missing(m)) if m.name == "nme"
    ));
    match frame_method_call(&FrameCall::Rename("n".to_string(), "count".to_string()), &s) {
        Ok(CallOutcome::Frame(f)) => assert_eq!(keys(&f), vec!["mass", "count", "name"]),
        other => panic!("expected a frame, got {other:?}"),
    }
    match frame_method_call(&FrameCall::SelectNames(vec!["name".to_string(), "mass".to_string()]), &s) {
        Ok(CallOutcome::Frame(f)) => assert_eq!(keys(&f), vec!["name", "mass"]),
        other => panic!("expected a frame, got {other:?}"),
    }
    let items = vec![
        (Some("total".to_string()), ColExpr::Arith(EvaluationOp::Multiply, bx(col("mass")), bx(col("n")))),
        (None, col("n")),
    ];
    match frame_method_call(&FrameCall::Mutate(items), &s) {
        Ok(CallOutcome::Frame(f)) => {
            assert_eq!(keys(&f), vec!["mass", "n", "name", "total"]);
            assert!(!f.closed);
            assert!(matches!(f.cols.get("total").unwrap().dim, Some(x) if x == mass()));
        },
        other => panic!("expected a frame, got {other:?}"),
    }
    match frame_method_call(&FrameCall::GroupBy(vec!["name".to_string()]), &s) {
        Ok(CallOutcome::Grouped(f, ks)) => {
            assert_eq!(ks, vec!["name"]);
            assert_eq!(keys(&f).len(), 3);
        },
        other => panic!("expected a grouped frame, got {other:?}"),
    }
}

#[test]
fn column_comparisons_say_which_kind_they_are() {
    let s = parcels();
    let t = || ColExpr::Float(Some(time()), false);
    let e = ColExpr::Compare(CmpOp::Le, bx(col("mass")), bx(t()));
    let err = col_expr(&e, &s).unwrap_err();
    assert!(matches!(err, ColError::Compare(CmpOp::Le, ..)));
    assert_eq!(err.headline(), "cannot order");
    let e = ColExpr::Compare(CmpOp::Ne, bx(col("mass")), bx(t()));
    assert_eq!(col_expr(&e, &s).unwrap_err().headline(), "cannot compare");
    let e = ColExpr::Apply("neq".to_string(), bx(col("mass")), Some(bx(t())));
    assert!(matches!(col_expr(&e, &s), Err(ColError::Compare(CmpOp::Ne, ..))));
    let e = ColExpr::Arith(EvaluationOp::Minus, bx(col("mass")), bx(t()));
    assert_eq!(col_expr(&e, &s).unwrap_err().headline(), "cannot subtract");
}
