//! The scale of each unit: the factor from it to the coherent base unit of its dimension,
//! held exactly as a ratio of integers, times π for the angle unit that needs it. Turning a
//! scale into a float is left to the caller.

use vstd::prelude::*;
use vstd::string::StringSliceAdditionalSpecFns;
use crate::text::range_eq;
use crate::units::unit_spec;

verus! {

/// A unit's scale: `num / den`, times π when `pi` is set.
#[derive(Debug, Clone, Copy, PartialEq, Eq, Structural)]
pub struct Scale {
    pub num: u64,
    pub den: u64,
    pub pi: bool,
}

/// The scale of each unit name, `None` for a name that isn't a unit.
#[verifier::opaque]
pub open spec fn scale_spec(name: Seq<u8>) -> Option<Scale> {
    if name == "m".spec_bytes() {
        Some(Scale { num: 1, den: 1, pi: false })
    } else if name == "km".spec_bytes() {
        Some(Scale { num: 1000, den: 1, pi: false })
    } else if name == "cm".spec_bytes() {
        Some(Scale { num: 1, den: 100, pi: false })
    } else if name == "mm".spec_bytes() {
        Some(Scale { num: 1, den: 1000, pi: false })
    } else if name == "inch".spec_bytes() {
        Some(Scale { num: 254, den: 10000, pi: false })
    } else if name == "ft".spec_bytes() {
        Some(Scale { num: 3048, den: 10000, pi: false })
    } else if name == "mi".spec_bytes() {
        Some(Scale { num: 1609344, den: 1000, pi: false })
    } else if name == "kg".spec_bytes() {
        Some(Scale { num: 1, den: 1, pi: false })
    } else if name == "g".spec_bytes() {
        Some(Scale { num: 1, den: 1000, pi: false })
    } else if name == "mg".spec_bytes() {
        Some(Scale { num: 1, den: 1000000, pi: false })
    } else if name == "lb".spec_bytes() {
        Some(Scale { num: 45359237, den: 100000000, pi: false })
    } else if name == "tonne".spec_bytes() {
        Some(Scale { num: 1000, den: 1, pi: false })
    } else if name == "s".spec_bytes() {
        Some(Scale { num: 1, den: 1, pi: false })
    } else if name == "ms".spec_bytes() {
        Some(Scale { num: 1, den: 1000, pi: false })
    } else if name == "us".spec_bytes() {
        Some(Scale { num: 1, den: 1000000, pi: false })
    } else if name == "min".spec_bytes() {
        Some(Scale { num: 60, den: 1, pi: false })
    } else if name == "h".spec_bytes() {
        Some(Scale { num: 3600, den: 1, pi: false })
    } else if name == "d".spec_bytes() {
        Some(Scale { num: 86400, den: 1, pi: false })
    } else if name == "wk".spec_bytes() {
        Some(Scale { num: 604800, den: 1, pi: false })
    } else if name == "yr".spec_bytes() {
        Some(Scale { num: 31557600, den: 1, pi: false })
    } else if name == "A".spec_bytes() {
        Some(Scale { num: 1, den: 1, pi: false })
    } else if name == "mA".spec_bytes() {
        Some(Scale { num: 1, den: 1000, pi: false })
    } else if name == "K".spec_bytes() {
        Some(Scale { num: 1, den: 1, pi: false })
    } else if name == "mol".spec_bytes() {
        Some(Scale { num: 1, den: 1, pi: false })
    } else if name == "cd".spec_bytes() {
        Some(Scale { num: 1, den: 1, pi: false })
    } else if name == "V".spec_bytes() {
        Some(Scale { num: 1, den: 1, pi: false })
    } else if name == "kV".spec_bytes() {
        Some(Scale { num: 1000, den: 1, pi: false })
    } else if name == "C".spec_bytes() {
        Some(Scale { num: 1, den: 1, pi: false })
    } else if name == "Hz".spec_bytes() {
        Some(Scale { num: 1, den: 1, pi: false })
    } else if name == "kHz".spec_bytes() {
        Some(Scale { num: 1000, den: 1, pi: false })
    } else if name == "N".spec_bytes() {
        Some(Scale { num: 1, den: 1, pi: false })
    } else if name == "kN".spec_bytes() {
        Some(Scale { num: 1000, den: 1, pi: false })
    } else if name == "Pa".spec_bytes() {
        Some(Scale { num: 1, den: 1, pi: false })
    } else if name == "kPa".spec_bytes() {
        Some(Scale { num: 1000, den: 1, pi: false })
    } else if name == "J".spec_bytes() {
        Some(Scale { num: 1, den: 1, pi: false })
    } else if name == "kJ".spec_bytes() {
        Some(Scale { num: 1000, den: 1, pi: false })
    } else if name == "MJ".spec_bytes() {
        Some(Scale { num: 1000000, den: 1, pi: false })
    } else if name == "Wh".spec_bytes() {
        Some(Scale { num: 3600, den: 1, pi: false })
    } else if name == "kWh".spec_bytes() {
        Some(Scale { num: 3600000, den: 1, pi: false })
    } else if name == "MWh".spec_bytes() {
        Some(Scale { num: 3600000000, den: 1, pi: false })
    } else if name == "W".spec_bytes() {
        Some(Scale { num: 1, den: 1, pi: false })
    } else if name == "mW".spec_bytes() {
        Some(Scale { num: 1, den: 1000, pi: false })
    } else if name == "kW".spec_bytes() {
        Some(Scale { num: 1000, den: 1, pi: false })
    } else if name == "MW".spec_bytes() {
        Some(Scale { num: 1000000, den: 1, pi: false })
    } else if name == "usd".spec_bytes() {
        Some(Scale { num: 1, den: 1, pi: false })
    } else if name == "px".spec_bytes() {
        Some(Scale { num: 1, den: 1, pi: false })
    } else if name == "frame".spec_bytes() {
        Some(Scale { num: 1, den: 1, pi: false })
    } else if name == "rad".spec_bytes() {
        Some(Scale { num: 1, den: 1, pi: false })
    } else if name == "deg".spec_bytes() {
        Some(Scale { num: 1, den: 180, pi: true })
    } else if name == "pct".spec_bytes() {
        Some(Scale { num: 1, den: 100, pi: false })
    } else {
        None
    }
}

/// The scale of unit `name`, when the name is exactly a unit.
pub fn unit_scale(name: &str) -> (r: Option<Scale>)
    ensures
        r == scale_spec(name.spec_bytes()),
{
    reveal(scale_spec);
    let b = name.as_bytes();
    assert(b@.subrange(0, b@.len() as int) =~= b@);
    if range_eq(b, 0, b.len(), "m".as_bytes()) {
        Some(Scale { num: 1, den: 1, pi: false })
    } else if range_eq(b, 0, b.len(), "km".as_bytes()) {
        Some(Scale { num: 1000, den: 1, pi: false })
    } else if range_eq(b, 0, b.len(), "cm".as_bytes()) {
        Some(Scale { num: 1, den: 100, pi: false })
    } else if range_eq(b, 0, b.len(), "mm".as_bytes()) {
        Some(Scale { num: 1, den: 1000, pi: false })
    } else if range_eq(b, 0, b.len(), "inch".as_bytes()) {
        Some(Scale { num: 254, den: 10000, pi: false })
    } else if range_eq(b, 0, b.len(), "ft".as_bytes()) {
        Some(Scale { num: 3048, den: 10000, pi: false })
    } else if range_eq(b, 0, b.len(), "mi".as_bytes()) {
        Some(Scale { num: 1609344, den: 1000, pi: false })
    } else if range_eq(b, 0, b.len(), "kg".as_bytes()) {
        Some(Scale { num: 1, den: 1, pi: false })
    } else if range_eq(b, 0, b.len(), "g".as_bytes()) {
        Some(Scale { num: 1, den: 1000, pi: false })
    } else if range_eq(b, 0, b.len(), "mg".as_bytes()) {
        Some(Scale { num: 1, den: 1000000, pi: false })
    } else if range_eq(b, 0, b.len(), "lb".as_bytes()) {
        Some(Scale { num: 45359237, den: 100000000, pi: false })
    } else if range_eq(b, 0, b.len(), "tonne".as_bytes()) {
        Some(Scale { num: 1000, den: 1, pi: false })
    } else if range_eq(b, 0, b.len(), "s".as_bytes()) {
        Some(Scale { num: 1, den: 1, pi: false })
    } else if range_eq(b, 0, b.len(), "ms".as_bytes()) {
        Some(Scale { num: 1, den: 1000, pi: false })
    } else if range_eq(b, 0, b.len(), "us".as_bytes()) {
        Some(Scale { num: 1, den: 1000000, pi: false })
    } else if range_eq(b, 0, b.len(), "min".as_bytes()) {
        Some(Scale { num: 60, den: 1, pi: false })
    } else if range_eq(b, 0, b.len(), "h".as_bytes()) {
        Some(Scale { num: 3600, den: 1, pi: false })
    } else if range_eq(b, 0, b.len(), "d".as_bytes()) {
        Some(Scale { num: 86400, den: 1, pi: false })
    } else if range_eq(b, 0, b.len(), "wk".as_bytes()) {
        Some(Scale { num: 604800, den: 1, pi: false })
    } else if range_eq(b, 0, b.len(), "yr".as_bytes()) {
        Some(Scale { num: 31557600, den: 1, pi: false })
    } else if range_eq(b, 0, b.len(), "A".as_bytes()) {
        Some(Scale { num: 1, den: 1, pi: false })
    } else if range_eq(b, 0, b.len(), "mA".as_bytes()) {
        Some(Scale { num: 1, den: 1000, pi: false })
    } else if range_eq(b, 0, b.len(), "K".as_bytes()) {
        Some(Scale { num: 1, den: 1, pi: false })
    } else if range_eq(b, 0, b.len(), "mol".as_bytes()) {
        Some(Scale { num: 1, den: 1, pi: false })
    } else if range_eq(b, 0, b.len(), "cd".as_bytes()) {
        Some(Scale { num: 1, den: 1, pi: false })
    } else if range_eq(b, 0, b.len(), "V".as_bytes()) {
        Some(Scale { num: 1, den: 1, pi: false })
    } else if range_eq(b, 0, b.len(), "kV".as_bytes()) {
        Some(Scale { num: 1000, den: 1, pi: false })
    } else if range_eq(b, 0, b.len(), "C".as_bytes()) {
        Some(Scale { num: 1, den: 1, pi: false })
    } else if range_eq(b, 0, b.len(), "Hz".as_bytes()) {
        Some(Scale { num: 1, den: 1, pi: false })
    } else if range_eq(b, 0, b.len(), "kHz".as_bytes()) {
        Some(Scale { num: 1000, den: 1, pi: false })
    } else if range_eq(b, 0, b.len(), "N".as_bytes()) {
        Some(Scale { num: 1, den: 1, pi: false })
    } else if range_eq(b, 0, b.len(), "kN".as_bytes()) {
        Some(Scale { num: 1000, den: 1, pi: false })
    } else if range_eq(b, 0, b.len(), "Pa".as_bytes()) {
        Some(Scale { num: 1, den: 1, pi: false })
    } else if range_eq(b, 0, b.len(), "kPa".as_bytes()) {
        Some(Scale { num: 1000, den: 1, pi: false })
    } else if range_eq(b, 0, b.len(), "J".as_bytes()) {
        Some(Scale { num: 1, den: 1, pi: false })
    } else if range_eq(b, 0, b.len(), "kJ".as_bytes()) {
        Some(Scale { num: 1000, den: 1, pi: false })
    } else if range_eq(b, 0, b.len(), "MJ".as_bytes()) {
        Some(Scale { num: 1000000, den: 1, pi: false })
    } else if range_eq(b, 0, b.len(), "Wh".as_bytes()) {
        Some(Scale { num: 3600, den: 1, pi: false })
    } else if range_eq(b, 0, b.len(), "kWh".as_bytes()) {
        Some(Scale { num: 3600000, den: 1, pi: false })
    } else if range_eq(b, 0, b.len(), "MWh".as_bytes()) {
        Some(Scale { num: 3600000000, den: 1, pi: false })
    } else if range_eq(b, 0, b.len(), "W".as_bytes()) {
        Some(Scale { num: 1, den: 1, pi: false })
    } else if range_eq(b, 0, b.len(), "mW".as_bytes()) {
        Some(Scale { num: 1, den: 1000, pi: false })
    } else if range_eq(b, 0, b.len(), "kW".as_bytes()) {
        Some(Scale { num: 1000, den: 1, pi: false })
    } else if range_eq(b, 0, b.len(), "MW".as_bytes()) {
        Some(Scale { num: 1000000, den: 1, pi: false })
    } else if range_eq(b, 0, b.len(), "usd".as_bytes()) {
        Some(Scale { num: 1, den: 1, pi: false })
    } else if range_eq(b, 0, b.len(), "px".as_bytes()) {
        Some(Scale { num: 1, den: 1, pi: false })
    } else if range_eq(b, 0, b.len(), "frame".as_bytes()) {
        Some(Scale { num: 1, den: 1, pi: false })
    } else if range_eq(b, 0, b.len(), "rad".as_bytes()) {
        Some(Scale { num: 1, den: 1, pi: false })
    } else if range_eq(b, 0, b.len(), "deg".as_bytes()) {
        Some(Scale { num: 1, den: 180, pi: true })
    } else if range_eq(b, 0, b.len(), "pct".as_bytes()) {
        Some(Scale { num: 1, den: 100, pi: false })
    } else {
        None
    }
}

/// Every unit has a scale and every scale belongs to a unit, and no scale is zero or
/// undefined.
pub proof fn lemma_every_unit_has_a_scale(name: Seq<u8>)
    ensures
        scale_spec(name) is Some <==> unit_spec(name) is Some,
        scale_spec(name) matches Some(s) ==> s.num > 0 && s.den > 0,
{
    reveal(scale_spec);
    reveal(unit_spec);
}

} // verus!
