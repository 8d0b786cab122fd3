use mimas::syntax::{foreign_spelling, quantity_text};

fn parts(v: &[(&str, i8)]) -> Vec<(String, i8)> {
    v.iter().map(|(u, e)| (u.to_string(), *e)).collect()
}

#[test]
fn borrowed_spellings_get_a_hint() {
    assert_eq!(foreign_spelling("and"), Some(("unknown operator `and`", "mimas spells this `&&`")));
    assert_eq!(foreign_spelling("or"), Some(("unknown operator `or`", "mimas spells this `||`")));
    assert_eq!(
        foreign_spelling("elif"),
        Some(("unknown keyword `elif`", "mimas spells this `else if`"))
    );
    assert_eq!(
        foreign_spelling("as"),
        Some(("mimas has no `as` casts", "convert with a method instead, e.g. `.to_float()`"))
    );
    assert_eq!(foreign_spelling("AND"), None);
    assert_eq!(foreign_spelling("andy"), None);
    assert_eq!(foreign_spelling(""), None);
}

#[test]
fn compound_units_read_back_as_written() {
    assert_eq!(quantity_text(&parts(&[("m", 1), ("s", -2)])), "m/s^2");
    assert_eq!(quantity_text(&parts(&[("usd", 1), ("kWh", -1)])), "usd/kWh");
    assert_eq!(quantity_text(&parts(&[("kg", 1), ("m", 2), ("s", -3)])), "kg*m^2/s^3");
    assert_eq!(quantity_text(&parts(&[("s", -1)])), "s^-1");
    assert_eq!(quantity_text(&parts(&[("m", 3), ("kg", 1)])), "m^3*kg");
    assert_eq!(quantity_text(&parts(&[("m", -128)])), "m^-128");
    assert_eq!(quantity_text(&parts(&[("m", 1), ("s", 0)])), "m/s^0");
    assert_eq!(quantity_text(&parts(&[])), "");
}
