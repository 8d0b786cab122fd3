use mimas::units::{
    energy, expr_fits, length, lookup_dim, money, parse, power, scan_suffix, time, Dim,
};

#[test]
fn suffixes_stop_where_units_stop() {
    assert_eq!(scan_suffix("kW"), Some(2));
    assert_eq!(scan_suffix("kW + 1"), Some(2));
    assert_eq!(scan_suffix("usd/kWh)"), Some(7));
    assert_eq!(scan_suffix("m/s^2 "), Some(5));
    // `/x` isn't a unit, so the division stays a division
    assert_eq!(scan_suffix("W/x"), Some(1));
    assert_eq!(scan_suffix("W/2"), Some(1));
    assert_eq!(scan_suffix("kWhx"), None);
    assert_eq!(scan_suffix("x"), None);
    assert_eq!(scan_suffix("_m"), None);
}

#[test]
fn describing_dimensions() {
    assert_eq!(power().describe(), "power (W)");
    assert_eq!(Dim::none().describe(), "a plain number");
    assert_eq!(power().mul(time()).describe(), "energy (J)");
    // a tariff reads as a ratio of familiar things
    assert_eq!(money().div(energy()).describe(), "usd/J");
    assert_eq!(length().div(time()).describe(), "m/s");
}

#[test]
fn square_roots_need_even_exponents() {
    assert_eq!(length().powi(2).sqrt(), Some(length()));
    assert_eq!(length().sqrt(), None);
}

#[test]
fn units_name_their_dimension() {
    assert_eq!(lookup_dim("kW"), Some(power()));
    assert_eq!(lookup_dim("kWh"), Some(power().mul(time())));
    assert_eq!(lookup_dim("bogus"), None);
}

#[test]
fn unit_expressions_combine_dimensions() {
    assert_eq!(parse("usd/kWh").unwrap().dim, money().div(energy()));
    assert_eq!(parse("m/s^2").unwrap().dim, length().div(time().powi(2)));
    assert_eq!(parse("W*h").unwrap().dim, energy());
    assert!(parse("m/bogus").is_none());
    let f = parse("m/s^2").unwrap().factors;
    assert_eq!(f.len(), 2);
    assert_eq!((f[1].unit, f[1].exp, f[1].divide), ("s", 2, true));
}

#[test]
fn dimension_algebra() {
    let e = energy();
    assert!(Dim::none().is_none());
    assert!(!e.is_none());
    assert_eq!(e.mul(Dim::none()), e);
    assert_eq!(e.div(e), Dim::none());
    assert_eq!(e.mul(time()).div(time()), e);
    assert_eq!(power().powi(0), Dim::none());
    assert_eq!(e.powi(-1), Dim::none().div(e));
}

#[test]
fn describing_powers_and_inverses() {
    assert_eq!(Dim::none().div(time()).describe(), "frequency (Hz)");
    assert_eq!(length().mul(length()).describe(), "N/Pa");
    assert_eq!(Dim::none().div(money()).describe(), "1/usd");
}

#[test]
fn every_unit_name_has_a_dimension() {
    for name in ["m", "km", "cm", "mm", "inch", "ft", "mi", "kg", "g", "mg", "lb", "tonne", "s", "ms", "us", "min", "h", "d", "wk", "yr", "A", "mA", "K", "mol", "cd", "V", "kV", "C", "Hz", "kHz", "N", "kN", "Pa", "kPa", "J", "kJ", "MJ", "Wh", "kWh", "MWh", "W", "mW", "kW", "MW", "usd", "px", "frame", "rad", "deg", "pct"] {
        assert!(lookup_dim(name).is_some(), "{name}");
    }
    assert!(lookup_dim("Kw").is_none());
    assert!(lookup_dim("").is_none());
}

#[test]
fn exponent_arithmetic_is_checked_before_parsing() {
    assert!(expr_fits("m/s^2"));
    assert!(expr_fits("m^127"));
    assert!(!expr_fits("m^100*m^100"));
    assert!(!expr_fits("kWh^100"));
    assert!(expr_fits("bogus^100*m"));
    // the arithmetic runs factor by factor: an overflow before an unknown unit counts,
    // one after it is never reached
    assert!(!expr_fits("m^100*m^100/bogus"));
    assert!(expr_fits("bogus/m^100*m^100"));
    assert!(!expr_fits("m^100*m^100 trailing"));
    assert!(parse("bogus/m^100*m^100").is_none());
}

fn scale_of(name: &str) -> Option<f64> {
    let s = mimas::scales::unit_scale(name)?;
    let mut x = s.num as f64;
    if s.pi {
        x *= std::f64::consts::PI;
    }
    Some(x / s.den as f64)
}

#[test]
fn unit_scales_read_back_as_their_float_values() {
    let table: [(&str, f64); 12] = [
        ("m", 1.0),
        ("km", 1e3),
        ("cm", 1e-2),
        ("inch", 0.0254),
        ("ft", 0.3048),
        ("mi", 1609.344),
        ("lb", 0.453_592_37),
        ("us", 1e-6),
        ("yr", 31_557_600.0),
        ("MWh", 3.6e9),
        ("deg", std::f64::consts::PI / 180.0),
        ("pct", 0.01),
    ];
    for (name, value) in table {
        assert_eq!(scale_of(name), Some(value), "{name}");
    }
    assert_eq!(scale_of("furlong"), None);
    assert_eq!(
        mimas::scales::unit_scale("deg"),
        Some(mimas::scales::Scale { num: 1, den: 180, pi: true })
    );
}
