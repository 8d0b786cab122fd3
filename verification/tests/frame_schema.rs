use mimas::frame_schema::{
    agg_schema, apply_schema_spec, check_names, join_schemas, mutate_schema, rename,
    schema_columns, schema_from_spec, select_exprs, select_names, table_col, FrameSchema,
    SchemaError,
};
use mimas::frames::{ColTy, FrameCol};
use mimas::units::energy;

fn strings(v: &[&str]) -> Vec<String> {
    v.iter().map(|s| s.to_string()).collect()
}

fn names(s: &FrameSchema) -> Vec<String> {
    s.cols.keys().cloned().collect()
}

fn ty_of(s: &FrameSchema, name: &str) -> String {
    format!("{:?}", s.cols.get(name).map(|c| &c.ty))
}

/// `table { id: [..], zone: [..], fare: [..] }` with int, str, float columns.
fn trips() -> FrameSchema {
    let s = FrameSchema::empty();
    let s = table_col(&s, Some("id"), FrameCol::known(ColTy::Int));
    let s = table_col(&s, Some("zone"), FrameCol::known(ColTy::Str));
    table_col(&s, Some("fare"), FrameCol::known(ColTy::Float))
}

#[test]
fn a_closed_schema_rejects_a_misspelled_column() {
    let s = trips();
    let err = s.col("fair").unwrap_err();
    assert_eq!(err.name, "fair");
    assert_eq!(err.columns, "id, zone, fare");
    assert!(matches!(s.col("fare").unwrap().ty, Some(ColTy::Float)));
    assert_eq!(schema_columns(&s), "id, zone, fare");
}

#[test]
fn an_open_schema_answers_unknown_instead_of_failing() {
    let s = table_col(&trips(), None, FrameCol::unknown());
    assert!(!s.closed);
    let c = s.col("anything").unwrap();
    assert!(c.ty.is_none() && c.dim.is_none());
    assert_eq!(names(&s), strings(&["id", "zone", "fare"]));
}

#[test]
fn schema_specs_declare_typed_and_unit_columns() {
    let s = schema_from_spec("fare:float, kwh:kWh zone:str").unwrap();
    assert!(s.closed);
    assert_eq!(names(&s), strings(&["fare", "kwh", "zone"]));
    let kwh = s.col("kwh").unwrap();
    assert!(matches!(kwh.ty, Some(ColTy::Float)));
    assert_eq!(kwh.dim, Some(energy()));
    assert!(matches!(s.col("zone").unwrap().ty, Some(ColTy::Str)));
    assert_eq!(schema_from_spec("").unwrap_err(), "empty schema spec");
}

#[test]
fn applying_a_spec_checks_a_closed_receiver() {
    let recv = trips();
    match apply_schema_spec(Some(&recv), "fare:float kwh:kWh") {
        Err(SchemaError::NoSuchColumn(e)) => {
            assert_eq!(e.name, "kwh");
            assert_eq!(e.columns, "id, zone, fare");
        }
        other => panic!("expected a missing column, got {:?}", other),
    }
    let ok = apply_schema_spec(Some(&recv), "zone:str fare:float").unwrap();
    assert_eq!(names(&ok), strings(&["zone", "fare"]));
    let open = table_col(&recv, None, FrameCol::unknown());
    assert!(apply_schema_spec(Some(&open), "kwh:kWh").is_ok());
    assert!(apply_schema_spec(None, "kwh:kWh").is_ok());
    match apply_schema_spec(None, "fare") {
        Err(SchemaError::BadSpec(m)) => assert_eq!(m, "schema entry `fare` needs a `name:type` pair"),
        other => panic!("expected a bad spec, got {:?}", other),
    }
}

#[test]
fn selecting_names_projects_in_list_order() {
    let s = trips();
    let p = select_names(&s, &strings(&["fare", "id"])).unwrap();
    assert_eq!(names(&p), strings(&["fare", "id"]));
    assert!(p.closed);
    let twice = select_names(&s, &strings(&["zone", "zone"])).unwrap();
    assert_eq!(names(&twice), strings(&["zone"]));
    let err = select_names(&s, &strings(&["id", "nope", "gone"])).unwrap_err();
    assert_eq!(err.name, "nope");
    assert!(check_names(&s, &strings(&["zone", "id"])).is_ok());
    assert_eq!(check_names(&s, &strings(&["zone", "x", "y"])).unwrap_err().name, "x");
}

#[test]
fn renaming_keeps_the_column_in_place() {
    let s = trips();
    let r = rename(&s, "zone", "area").unwrap();
    assert_eq!(names(&r), strings(&["id", "area", "fare"]));
    assert_eq!(ty_of(&r, "area"), "Some(Some(Str))");
    // renaming onto a taken name moves that entry to the renamed column's place
    let onto = rename(&s, "fare", "id").unwrap();
    assert_eq!(names(&onto), strings(&["zone", "id"]));
    assert_eq!(ty_of(&onto, "id"), "Some(Some(Float))");
    let same = rename(&s, "id", "id").unwrap();
    assert_eq!(names(&same), strings(&["id", "zone", "fare"]));
    assert_eq!(rename(&s, "nope", "x").unwrap_err().columns, "id, zone, fare");
    // on an open schema an unlisted column renames to nothing
    let open = table_col(&s, None, FrameCol::unknown());
    let r = rename(&open, "ghost", "x").unwrap();
    assert_eq!(names(&r), strings(&["id", "zone", "fare"]));
}

#[test]
fn joins_keep_the_left_columns_then_the_right_non_keys() {
    let left = trips();
    let right = table_col(
        &table_col(
            &table_col(&FrameSchema::empty(), Some("zone"), FrameCol::known(ColTy::Str)),
            Some("fare"),
            FrameCol::known(ColTy::Int),
        ),
        Some("borough"),
        FrameCol::known(ColTy::Str),
    );
    let j = join_schemas(&left, &right, &strings(&["zone"])).unwrap();
    assert_eq!(names(&j), strings(&["id", "zone", "fare", "fare_right", "borough"]));
    assert_eq!(ty_of(&j, "fare"), "Some(Some(Float))");
    assert_eq!(ty_of(&j, "fare_right"), "Some(Some(Int))");
    assert!(j.closed);
    let err = join_schemas(&left, &right, &strings(&["borough"])).unwrap_err();
    assert_eq!(err.name, "borough");
    assert_eq!(err.columns, "id, zone, fare");
    let err = join_schemas(&left, &right, &strings(&["id"])).unwrap_err();
    assert_eq!(err.columns, "zone, fare, borough");
    let open_right = table_col(&right, None, FrameCol::unknown());
    let j = join_schemas(&left, &open_right, &strings(&["zone", "id"])).unwrap();
    assert!(!j.closed);
}

#[test]
fn derived_columns_replace_in_place_or_append() {
    let s = trips();
    let items = vec![
        (Some("fare".to_string()), FrameCol::known(ColTy::Int)),
        (Some("tip".to_string()), FrameCol::known(ColTy::Float)),
    ];
    let m = mutate_schema(&s, Some(&items));
    assert_eq!(names(&m), strings(&["id", "zone", "fare", "tip"]));
    assert_eq!(ty_of(&m, "fare"), "Some(Some(Int))");
    assert!(m.closed);
    let unnamed = vec![(None, FrameCol::unknown())];
    assert!(!mutate_schema(&s, Some(&unnamed)).closed);
    let same = mutate_schema(&s, None);
    assert_eq!(names(&same), strings(&["id", "zone", "fare"]));
    assert!(same.closed);
    let sel = select_exprs(&s, &items);
    assert_eq!(names(&sel), strings(&["fare", "tip"]));
}

#[test]
fn aggregations_list_the_keys_then_the_aggregates() {
    let s = trips();
    let items = vec![
        (Some("total".to_string()), FrameCol::known(ColTy::Float)),
        (Some("n".to_string()), FrameCol::known(ColTy::Int)),
    ];
    let a = agg_schema(&s, &strings(&["zone"]), Some(&items)).unwrap();
    assert_eq!(names(&a), strings(&["zone", "total", "n"]));
    assert!(a.closed);
    let unread = agg_schema(&s, &strings(&["zone"]), None).unwrap();
    assert_eq!(names(&unread), strings(&["zone"]));
    assert!(!unread.closed);
    assert_eq!(agg_schema(&s, &strings(&["borough"]), Some(&items)).unwrap_err().name, "borough");
}
