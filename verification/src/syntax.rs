//! Surface-syntax helpers: what to say about spellings borrowed from other languages, and
//! how a compound unit annotation (`m/s^2`, `usd/kWh`) reads back as text.

use vstd::prelude::*;
use crate::text::{dec, push_dec, same_text};

verus! {

/// The diagnostic for a word that other languages use where this one has its own
/// spelling: the message and the hint.
pub open spec fn foreign_spelling_spec(name: Seq<char>) -> Option<(Seq<char>, Seq<char>)> {
    if name == "and"@ {
        Some(("unknown operator `and`"@, "mimas spells this `&&`"@))
    } else if name == "or"@ {
        Some(("unknown operator `or`"@, "mimas spells this `||`"@))
    } else if name == "elif"@ {
        Some(("unknown keyword `elif`"@, "mimas spells this `else if`"@))
    } else if name == "as"@ {
        Some(("mimas has no `as` casts"@, "convert with a method instead, e.g. `.to_float()`"@))
    } else {
        None
    }
}

/// Operators and keywords from other languages, with what to say about them.
pub fn foreign_spelling(name: &str) -> (r: Option<(&'static str, &'static str)>)
    ensures
        match r {
            Some((msg, hint)) => foreign_spelling_spec(name@) == Some((msg@, hint@)),
            None => foreign_spelling_spec(name@) is None,
        },
{
    if same_text(name, "and") {
        Some(("unknown operator `and`", "mimas spells this `&&`"))
    } else if same_text(name, "or") {
        Some(("unknown operator `or`", "mimas spells this `||`"))
    } else if same_text(name, "elif") {
        Some(("unknown keyword `elif`", "mimas spells this `else if`"))
    } else if same_text(name, "as") {
        Some(("mimas has no `as` casts", "convert with a method instead, e.g. `.to_float()`"))
    } else {
        None
    }
}

/// The decimal rendering of a signed integer, with a leading `-` when negative.
pub open spec fn signed_dec(e: int) -> Seq<char> {
    if e < 0 {
        "-"@ + dec((-e) as nat)
    } else {
        dec(e as nat)
    }
}

/// The text of the unit at position `i` of a compound unit, with exponent `e`: the first
/// unit stands bare (`m`, `m^2`), later ones multiply (`*kg`, `*kg^2`) or divide (`/s`,
/// `/s^2`).
pub open spec fn quantity_part(i: int, unit: Seq<char>, e: int) -> Seq<char> {
    if i == 0 {
        if e == 1 {
            unit
        } else {
            unit + "^"@ + signed_dec(e)
        }
    } else if e == 1 {
        "*"@ + unit
    } else if e == -1 {
        "/"@ + unit
    } else if e > 0 {
        "*"@ + unit + "^"@ + dec(e as nat)
    } else {
        "/"@ + unit + "^"@ + signed_dec(-e)
    }
}

/// The text of the first `n` units of a compound unit.
pub open spec fn quantity_text_upto(parts: Seq<(Seq<char>, i8)>, n: int) -> Seq<char>
    decreases n,
{
    if n <= 0 || n > parts.len() {
        seq![]
    } else {
        quantity_text_upto(parts, n - 1) + quantity_part(n - 1, parts[n - 1].0, parts[n - 1].1 as int)
    }
}

/// The units and exponents of a compound unit, as the contracts see them.
pub open spec fn parts_view(parts: Seq<(String, i8)>) -> Seq<(Seq<char>, i8)> {
    parts.map_values(|p: (String, i8)| (p.0@, p.1))
}

fn push_signed(out: &mut String, e: i8)
    ensures
        final(out)@ == old(out)@ + signed_dec(e as int),
{
    if e < 0 {
        out.append("-");
        let m: i16 = -(e as i16);
        push_dec(out, m as usize);
    } else {
        push_dec(out, e as usize);
    }
    assert(out@ =~= old(out)@ + signed_dec(e as int));
}

/// The text a compound unit annotation is written as: `m/s^2`, `usd/kWh`, `kg*m^2/s^3`.
/// Each unit after the first carries its operator, and the exponent follows a `^` unless
/// it is one.
pub fn quantity_text(parts: &[(String, i8)]) -> (r: String)
    requires
        forall|i: int| 0 < i < parts@.len() ==> #[trigger] parts@[i].1 != i8::MIN,
    ensures
        r@ == quantity_text_upto(parts_view(parts@), parts@.len() as int),
{
    let ghost pv = parts_view(parts@);
    let mut out = String::new();
    let mut i: usize = 0;
    while i < parts.len()
        invariant
            i <= parts@.len(),
            pv == parts_view(parts@),
            forall|i: int| 0 < i < parts@.len() ==> #[trigger] parts@[i].1 != i8::MIN,
            out@ == quantity_text_upto(pv, i as int),
        decreases parts@.len() - i,
    {
        let unit = &parts[i].0;
        let e = parts[i].1;
        let ghost before = out@;
        assert(pv[i as int] == (unit@, e));
        if i == 0 {
            out.append(unit.as_str());
            if e != 1 {
                out.append("^");
                push_signed(&mut out, e);
            }
        } else if e == 1 {
            out.append("*");
            out.append(unit.as_str());
        } else if e == -1 {
            out.append("/");
            out.append(unit.as_str());
        } else if e > 0 {
            out.append("*");
            out.append(unit.as_str());
            out.append("^");
            push_dec(&mut out, e as usize);
        } else {
            out.append("/");
            out.append(unit.as_str());
            out.append("^");
            let m: i8 = -e;
            push_signed(&mut out, m);
        }
        proof {
            reveal_strlit("^");
            reveal_strlit("*");
            reveal_strlit("/");
            assert(out@ =~= before + quantity_part(i as int, unit@, e as int));
        }
        i += 1;
    }
    out
}

} // verus!
