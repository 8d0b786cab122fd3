use mimas::bench::{fib, fib_iter};
use mimas::dims::{clash, join, D};
use mimas::text::present;
use mimas::formats::{
    channels_for_format, column_kind, merge_kind, node_kind, raster_channels, Kind,
    LayerError, NodeKind,
};
use mimas::frames::{
    apply_result_col, cdim, cdim_join, dim_clash, numeric_join, CDim, ColTy, EvaluationOp,
    FrameCol,
};
use mimas::tests_list::unique_test_name;
use mimas::units::{length, time, Dim};

#[test]
fn fibonacci_numbers() {
    assert_eq!(fib_iter(0), 0);
    assert_eq!(fib_iter(10), 55);
    assert_eq!(fib_iter(100), 687995182);
    assert_eq!(fib_iter(20000), 988094463);
    assert_eq!(fib_iter(-3), 0);
    assert_eq!(fib(10), 55);
    assert_eq!(fib(1), 1);
    assert_eq!(fib(-2), -2);
}

#[test]
fn dimension_facts_clash_and_join() {
    let m = D::Q(length());
    assert_eq!(clash(&m, &D::Iv(time())), Some((length(), time())));
    assert_eq!(clash(&m, &D::Q(length())), None);
    assert_eq!(clash(&m, &D::Any), None);
    let lm = D::Arr(Box::new(D::Q(length())));
    let lt = D::Arr(Box::new(D::Q(time())));
    assert_eq!(clash(&lm, &lt), Some((length(), time())));
    assert!(matches!(join(D::Q(length()), &D::Q(length())), D::Q(d) if d == length()));
    assert!(matches!(join(D::Q(length()), &D::Iv(length())), D::Any));
    match join(D::Arr(Box::new(D::Q(length()))), &lm) {
        D::Arr(inner) => assert!(matches!(*inner, D::Q(d) if d == length())),
        _ => panic!("a list joined with a list stays a list"),
    }
    assert_eq!(D::Iv(time()).dim(), Some(time()));
    assert_eq!(D::Any.dim(), None);
}

#[test]
fn column_types_promote_like_scalars() {
    let int = Some(ColTy::Int);
    let float = Some(ColTy::Float);
    let text = Some(ColTy::Str);
    assert!(matches!(numeric_join(EvaluationOp::Divide, &int, &int), Some(ColTy::Float)));
    assert!(matches!(numeric_join(EvaluationOp::Div, &int, &int), Some(ColTy::Int)));
    assert!(matches!(numeric_join(EvaluationOp::Modulo, &int, &float), Some(ColTy::Float)));
    assert!(matches!(numeric_join(EvaluationOp::Plus, &text, &int), Some(ColTy::Str)));
    assert!(numeric_join(EvaluationOp::Minus, &text, &int).is_none());
    assert!(matches!(
        numeric_join(EvaluationOp::And, &Some(ColTy::Bool), &Some(ColTy::Bool)),
        Some(ColTy::Bool)
    ));
    assert!(matches!(numeric_join(EvaluationOp::Xor, &text, &text), Some(ColTy::Int)));
    assert!(numeric_join(EvaluationOp::Plus, &None, &int).is_none());
}

#[test]
fn column_dimensions_combine() {
    let m = CDim::Q(length());
    let s = CDim::Q(time());
    assert_eq!(dim_clash(m, s), Some((length(), time())));
    assert_eq!(dim_clash(m, CDim::Plain), Some((length(), Dim::none())));
    assert_eq!(dim_clash(CDim::Plain, CDim::Q(Dim::none())), None);
    assert_eq!(dim_clash(m, CDim::Any), None);
    assert!(matches!(cdim_join(EvaluationOp::Multiply, m, s), CDim::Q(d) if d == length().mul(time())));
    assert!(matches!(cdim_join(EvaluationOp::Divide, CDim::Plain, s), CDim::Q(d) if d == Dim::none().div(time())));
    assert!(matches!(cdim_join(EvaluationOp::Plus, CDim::Any, m), CDim::Q(d) if d == length()));
    assert!(matches!(cdim_join(EvaluationOp::Plus, CDim::Plain, CDim::Plain), CDim::Plain));
    assert!(matches!(cdim_join(EvaluationOp::And, m, m), CDim::Any));
    let col = FrameCol { ty: Some(ColTy::Float), dim: None };
    assert!(matches!(cdim(&col), CDim::Plain));
    assert!(matches!(cdim(&FrameCol::known(ColTy::Str)), CDim::Any));
}

#[test]
fn aggregations_shape_their_columns() {
    let base = || FrameCol { ty: Some(ColTy::Float), dim: Some(length()) };
    let var = apply_result_col("var", base());
    assert!(matches!(var.ty, Some(ColTy::Float)));
    assert_eq!(var.dim, Some(length().mul(length())));
    let count = apply_result_col("count", base());
    assert!(matches!(count.ty, Some(ColTy::Int)));
    assert_eq!(count.dim, None);
    let mean = apply_result_col("mean", base());
    assert_eq!(mean.dim, Some(length()));
    let sorted = apply_result_col("sort", base());
    assert!(matches!(sorted.ty, Some(ColTy::Array(ref t)) if matches!(**t, ColTy::Float)));
    let upper = apply_result_col("to_upper", base());
    assert!(matches!(upper.ty, Some(ColTy::Str)));
    let same = apply_result_col("sum", base());
    assert_eq!(same.dim, Some(length()));
    assert!(FrameCol::unknown().ty.is_none());
}

#[test]
fn spreadsheet_columns_settle_on_a_kind() {
    assert_eq!(merge_kind(None, Kind::Int), Some(Kind::Int));
    assert_eq!(merge_kind(Some(Kind::Int), Kind::Float), Some(Kind::Float));
    assert_eq!(merge_kind(Some(Kind::Bool), Kind::Bool), Some(Kind::Bool));
    assert_eq!(merge_kind(Some(Kind::Bool), Kind::Int), Some(Kind::Str));
    assert_eq!(column_kind(&[Some(Kind::Int), None, Some(Kind::Float)]), Some(Kind::Float));
    assert_eq!(column_kind(&[None, None]), None);
    assert_eq!(
        column_kind(&[Some(Kind::DateTime), Some(Kind::Int), Some(Kind::Float)]),
        Some(Kind::Str)
    );
    assert_eq!(channels_for_format("rgba8unorm"), Some(4));
    assert_eq!(channels_for_format("r8unorm"), Some(1));
    assert_eq!(channels_for_format("bgra"), None);
}

#[test]
fn column_kind_ignores_cell_order() {
    let cells = [Some(Kind::Float), Some(Kind::Int), None, Some(Kind::Int)];
    let mut reversed = cells;
    reversed.reverse();
    assert_eq!(column_kind(&cells), Some(Kind::Float));
    assert_eq!(column_kind(&reversed), Some(Kind::Float));
    let mixed = [Some(Kind::Str), Some(Kind::Int), Some(Kind::Int)];
    let moved = [Some(Kind::Int), Some(Kind::Int), Some(Kind::Str)];
    assert_eq!(column_kind(&mixed), Some(Kind::Str));
    assert_eq!(column_kind(&moved), Some(Kind::Str));
    let dates = [Some(Kind::DateTime), None, Some(Kind::DateTime)];
    assert_eq!(column_kind(&dates), Some(Kind::DateTime));
}

#[test]
fn layer_nodes_are_looked_up_by_id() {
    let nodes = vec![
        (1, "group".to_string()),
        (2, "divider".to_string()),
        (3, "raster".to_string()),
        (4, "void".to_string()),
        (5, "vector".to_string()),
        (3, "void".to_string()),
    ];
    assert_eq!(node_kind(&nodes, 1), Ok(Some((NodeKind::Group, 0))));
    assert_eq!(node_kind(&nodes, 2), Ok(None));
    // the last node with an id is the one a map built from the list keeps
    assert_eq!(node_kind(&nodes, 3), Ok(Some((NodeKind::Void, 5))));
    assert_eq!(node_kind(&nodes, 4), Ok(Some((NodeKind::Void, 3))));
    assert_eq!(node_kind(&nodes, 5), Err(LayerError::Unsupported(5, "vector".to_string())));
    assert_eq!(node_kind(&nodes, 9), Err(LayerError::Undefined(9)));
    assert_eq!(node_kind(&[], 0), Err(LayerError::Undefined(0)));
}

#[test]
fn raster_pixel_data_must_match_its_bounds() {
    assert_eq!(raster_channels(7, "rgba8unorm", 2, 3, 24), Ok(4));
    assert_eq!(raster_channels(7, "r8unorm", 2, 3, 6), Ok(1));
    assert_eq!(
        raster_channels(7, "rgba8unorm", 2, 3, 23),
        Err(LayerError::PixelSize(7, 23, 2, 3, 4))
    );
    assert_eq!(
        raster_channels(7, "bgra8", 2, 3, 24),
        Err(LayerError::UnknownFormat(7, "bgra8".to_string()))
    );
    assert_eq!(raster_channels(8, "r8unorm", 0, 5, 0), Ok(1));
    // bounds whose byte count does not fit in memory never match
    assert_eq!(
        raster_channels(9, "rgba8unorm", i64::MAX, i64::MAX, 0),
        Err(LayerError::PixelSize(9, 0, i64::MAX, i64::MAX, 4))
    );
}

#[test]
fn dividers_are_left_out_of_a_group() {
    assert_eq!(present(vec![Some(1), None, Some(3), None]), vec![1, 3]);
    assert_eq!(present::<u8>(vec![None, None]), Vec::<u8>::new());
    assert_eq!(present::<u8>(vec![]), Vec::<u8>::new());
}

#[test]
fn repeated_test_cases_get_numbered_names() {
    let mut seen = Vec::new();
    assert_eq!(unique_test_name(&mut seen, "f(1) == 2".to_string()), "f(1) == 2");
    assert_eq!(unique_test_name(&mut seen, "f(1) == 2".to_string()), "f(1) == 2 #2");
    assert_eq!(unique_test_name(&mut seen, "f(1) == 2".to_string()), "f(1) == 2 #3");
    assert_eq!(seen, vec!["f(1) == 2", "f(1) == 2 #2", "f(1) == 2 #3"]);
    let mut taken = vec!["x".to_string(), "x #2".to_string()];
    assert_eq!(unique_test_name(&mut taken, "x".to_string()), "x #3");
    assert_eq!(unique_test_name(&mut taken, "y".to_string()), "y");
}
