use mimas::schema::{parse_schema, schema_spec_fits, try_parse_schema, SchemaTy};
use mimas::units::{energy, money, power, time, Dim};

#[test]
fn schema_reads_names_and_types() {
    let s = parse_schema("fare:float kwh:kWh name:str ok:bool n:int").unwrap();
    assert_eq!(s.len(), 5);
    assert_eq!(s[0].0, "fare");
    assert_eq!(s[0].1, SchemaTy::Float);
    assert_eq!(s[1].1, SchemaTy::Unit(power().mul(time())));
    assert_eq!(s[1].1, SchemaTy::Unit(energy()));
    assert_eq!(s[2].1, SchemaTy::Str);
    assert_eq!(s[3].1, SchemaTy::Bool);
    assert_eq!(s[4].1, SchemaTy::Int);
}

#[test]
fn schema_type_names() {
    assert_eq!(SchemaTy::Int.describe(), "int");
    // a unit type prints as its base dimensions, so different units read differently
    assert_eq!(SchemaTy::Unit(energy()).describe(), "m^2*kg/s^2");
    assert_eq!(SchemaTy::Unit(money()).describe(), "usd");
    assert_eq!(SchemaTy::Unit(money().div(energy())).describe(), "s^2*usd/m^2*kg");
    assert_eq!(SchemaTy::Unit(Dim::none()).describe(), "1");
    assert_eq!(SchemaTy::Unit(Dim::none().div(time())).describe(), "1/s");
}

#[test]
fn schema_errors_name_the_problem() {
    assert_eq!(
        parse_schema("fare").unwrap_err(),
        "schema entry `fare` needs a `name:type` pair"
    );
    assert_eq!(parse_schema("f-x:int").unwrap_err(), "`f-x` isn't a column name");
    assert_eq!(
        parse_schema("a:int, a:float").unwrap_err(),
        "`a` appears twice in the schema"
    );
    assert_eq!(parse_schema(" ,, ").unwrap_err(), "empty schema spec");
    assert_eq!(
        parse_schema("a:bogus").unwrap_err(),
        "`bogus` isn't a column type -- expected `int`, `float`, `str`, `bool`, or a unit like `kWh`"
    );
}

#[test]
fn specs_are_checked_for_unit_overflow_before_parsing() {
    assert!(schema_spec_fits("fare:float kwh:kWh"));
    assert!(schema_spec_fits("bad entry"));
    assert!(!schema_spec_fits("x:m^100*m^100"));
    assert!(try_parse_schema("x:m^100*m^100").is_none());
    // an earlier error is reported before the overflow is reached
    assert!(schema_spec_fits("x y:m^100*m^100"));
    assert_eq!(
        try_parse_schema("x y:m^100*m^100").unwrap().unwrap_err(),
        "schema entry `x` needs a `name:type` pair"
    );
}
