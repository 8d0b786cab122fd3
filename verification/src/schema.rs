//! The `name:type` spec strings that `df.schema("fare:float kwh:kWh")` accepts.
//!
//! One parser serves both consumers: the runtime validates columns against it, and the
//! solver reads the same spec to type `pull` calls.

use vstd::prelude::*;
use vstd::string::StringSliceAdditionalSpecFns;
use vstd::utf8::{encode_utf8, is_char_boundary, valid_utf8};
use crate::text::{find_byte, is_ident_byte, ws_at, ws_width, range_eq, substr, text_of};
use crate::units::{Dim, base_text_spec, exps, factors_from, fold_exps, unit_expr_fits};

verus! {

/// What a schema spec entry asserts about its column.
#[derive(Debug, Clone, Copy, PartialEq)]
pub enum SchemaTy {
    Int,
    Float,
    Str,
    Bool,
    /// A numeric column read as quantities in this dimension (`kwh:kWh`).
    Unit(Dim),
}

impl SchemaTy {
    /// The human-readable spelling for error messages; a unit type prints as its base
    /// dimensions (`kWh` as `kg*m^2/s^2`).
    pub fn describe(&self) -> (r: String)
        ensures
            r@ == match *self {
                SchemaTy::Int => "int"@,
                SchemaTy::Float => "float"@,
                SchemaTy::Str => "str"@,
                SchemaTy::Bool => "bool"@,
                SchemaTy::Unit(d) => base_text_spec(d),
            },
    {
        let mut r = String::new();
        match self {
            SchemaTy::Int => r.append("int"),
            SchemaTy::Float => r.append("float"),
            SchemaTy::Str => r.append("str"),
            SchemaTy::Bool => r.append("bool"),
            SchemaTy::Unit(d) => r.append(d.base_text().as_str()),
        }
        r
    }
}

/// The width of the separator character starting at byte `i`: a comma or a character with
/// the Unicode `White_Space` property; zero when there is none there.
pub open spec fn sep_width(b: Seq<u8>, i: int) -> int {
    if 0 <= i < b.len() && b[i] == 44 {
        1
    } else {
        ws_width(b, i)
    }
}

/// Where the token starting at `i` ends: the next separator, or the end of the text.
pub open spec fn token_end(b: Seq<u8>, i: int) -> int
    decreases b.len() - i,
{
    if i < 0 || i >= b.len() || sep_width(b, i) > 0 {
        i
    } else {
        token_end(b, i + 1)
    }
}

/// The dimension a unit type spells.
pub open spec fn unit_dim_of(t: Seq<u8>) -> Dim {
    let fs = factors_from(t, 0, false).unwrap();
    choose|d: Dim| exps(d) == fold_exps(fs, fs.len() as int)
}

/// The column type named by `t`: `None` when the unit arithmetic carried out on it
/// overflows, `Some(Err(()))` when it names no type, else `Some(Ok(ty))`.
pub open spec fn type_of(t: Seq<u8>) -> Option<Result<SchemaTy, ()>> {
    if t == "int".spec_bytes() {
        Some(Ok(SchemaTy::Int))
    } else if t == "float".spec_bytes() {
        Some(Ok(SchemaTy::Float))
    } else if t == "str".spec_bytes() || t == "string".spec_bytes() {
        Some(Ok(SchemaTy::Str))
    } else if t == "bool".spec_bytes() {
        Some(Ok(SchemaTy::Bool))
    } else if !unit_expr_fits(t) {
        None
    } else if factors_from(t, 0, false) is None {
        Some(Err(()))
    } else {
        Some(Ok(SchemaTy::Unit(unit_dim_of(t))))
    }
}

/// A column name: nonempty, ASCII letters, digits and `_` only.
pub open spec fn is_column_name(n: Seq<u8>) -> bool {
    n.len() > 0 && forall|i: int| 0 <= i < n.len() ==> is_ident_byte(#[trigger] n[i])
}

/// `acc` already names column `n`.
pub open spec fn names_column(acc: Seq<(Seq<u8>, SchemaTy)>, n: Seq<u8>) -> bool {
    exists|j: int| 0 <= j < acc.len() && (#[trigger] acc[j]).0 == n
}

/// One `name:type` token read against the entries before it: the entry, or the message it
/// is refused with; `None` when reading it would overflow.
pub open spec fn entry_of(t: Seq<u8>, acc: Seq<(Seq<u8>, SchemaTy)>) -> Option<
    Result<(Seq<u8>, SchemaTy), Seq<char>>,
> {
    match find_byte(t, 58, 0) {
        None => Some(Err("schema entry `"@ + text_of(t) + "` needs a `name:type` pair"@)),
        Some(c) => {
            let name = t.subrange(0, c);
            let ty = t.subrange(c + 1, t.len() as int);
            if !is_column_name(name) {
                Some(Err("`"@ + text_of(name) + "` isn't a column name"@))
            } else {
                match type_of(ty) {
                    None => None,
                    Some(Err(_)) => Some(
                        Err(
                            "`"@ + text_of(ty)
                                + "` isn't a column type -- expected `int`, `float`, `str`, `bool`, or a unit like `kWh`"@,
                        ),
                    ),
                    Some(Ok(sty)) => if names_column(acc, name) {
                        Some(Err("`"@ + text_of(name) + "` appears twice in the schema"@))
                    } else {
                        Some(Ok((name, sty)))
                    },
                }
            }
        },
    }
}

/// The schema read from byte `i` on, after the entries `acc`; `None` when reading it would
/// overflow.
pub open spec fn schema_from(b: Seq<u8>, i: int, acc: Seq<(Seq<u8>, SchemaTy)>) -> Option<
    Result<Seq<(Seq<u8>, SchemaTy)>, Seq<char>>,
>
    decreases b.len() - i,
{
    if i < 0 || i >= b.len() {
        if acc.len() == 0 {
            Some(Err("empty schema spec"@))
        } else {
            Some(Ok(acc))
        }
    } else if sep_width(b, i) > 0 {
        schema_from(b, i + sep_width(b, i), acc)
    } else {
        let e = token_end(b, i);
        if e <= i || e > b.len() {
            None
        } else {
            match entry_of(b.subrange(i, e), acc) {
                None => None,
                Some(Err(m)) => Some(Err(m)),
                Some(Ok(entry)) => schema_from(b, e, acc.push(entry)),
            }
        }
    }
}

/// The entries of a parsed schema, names as bytes.
pub open spec fn entries_view(v: Seq<(String, SchemaTy)>) -> Seq<(Seq<u8>, SchemaTy)> {
    v.map_values(|e: (String, SchemaTy)| (encode_utf8(e.0@), e.1))
}

fn sep_at(b: &[u8], i: usize) -> (w: usize)
    requires
        i < b@.len(),
    ensures
        w == sep_width(b@, i as int),
{
    if b[i] == 44 {
        1
    } else {
        ws_at(b, i)
    }
}

proof fn lemma_sep_boundary(b: Seq<u8>, i: int)
    requires
        valid_utf8(b),
        0 <= i < b.len(),
        is_char_boundary(b, i),
        sep_width(b, i) > 0,
    ensures
        i + sep_width(b, i) <= b.len(),
        is_char_boundary(b, i + sep_width(b, i)),
{
    crate::text::lemma_next_boundary(b, i);
    let s = b.subrange(i, b.len() as int);
    assert(s[0] == b[i]);
}

/// A byte where a separator starts is a character boundary.
proof fn lemma_sep_start_boundary(b: Seq<u8>, i: int)
    requires
        valid_utf8(b),
        0 <= i < b.len(),
        sep_width(b, i) > 0,
    ensures
        is_char_boundary(b, i),
{
    vstd::utf8::is_char_boundary_iff_not_is_continuation_byte(b, i);
}

/// Reads the token `spec[i..e]` as one entry, given the entries before it; `None` when
/// reading its unit would overflow.
fn read_entry(spec: &str, i: usize, e: usize, acc: &Vec<(String, SchemaTy)>) -> (r: Option<
    Result<(String, SchemaTy), String>,
>)
    requires
        i < e <= spec.spec_bytes().len(),
        is_char_boundary(spec.spec_bytes(), i as int),
        is_char_boundary(spec.spec_bytes(), e as int),
    ensures
        match entry_of(spec.spec_bytes().subrange(i as int, e as int), entries_view(acc@)) {
            Some(Ok(entry)) => r matches Some(Ok(x)) && encode_utf8(x.0@) == entry.0 && x.1
                == entry.1,
            Some(Err(msg)) => r matches Some(Err(m)) && m@ == msg,
            None => r is None,
        },
{
    let b = spec.as_bytes();
    proof {
        vstd::utf8::encode_utf8_valid_utf8(spec@);
    }
    let ghost t = b@.subrange(i as int, e as int);
    // the first `:` in it
    let mut c = i;
    while c < e && b[c] != 58
        invariant
            i <= c <= e <= b@.len(),
            t == b@.subrange(i as int, e as int),
            find_byte(t, 58, 0) == find_byte(t, 58, c - i),
        decreases e - c,
    {
        assert(t[c - i] == b@[c as int]);
        c += 1;
    }
    if c == e {
        assert(find_byte(t, 58, 0) is None);
        let token = substr(spec, i, e);
        let mut m = String::new();
        m.append("schema entry `");
        m.append(token);
        m.append("` needs a `name:type` pair");
        assert(m@ =~= "schema entry `"@ + text_of(t) + "` needs a `name:type` pair"@);
        return Some(Err(m));
    }
    assert(t[c - i] == b@[c as int]);
    assert(find_byte(t, 58, 0) == Some((c - i) as int));
    proof {
        crate::text::lemma_ascii_boundaries(b@, c as int);
    }
    let ghost name = t.subrange(0, c - i);
    let ghost ty = t.subrange(c - i + 1, t.len() as int);
    assert(name =~= b@.subrange(i as int, c as int));
    assert(ty =~= b@.subrange(c + 1, e as int));
    let name_s = substr(spec, i, c);
    // the name: letters, digits and `_`
    let mut k = i;
    while k < c && crate::text::ident_byte(b[k])
        invariant
            i <= k <= c < b@.len(),
            forall|j: int| i <= j < k ==> is_ident_byte(#[trigger] b@[j]),
        decreases c - k,
    {
        k += 1;
    }
    if c == i || k < c {
        proof {
            if c > i {
                assert(name[k - i] == b@[k as int]);
            }
        }
        assert(!is_column_name(name));
        let mut m = String::new();
        m.append("`");
        m.append(name_s);
        m.append("` isn't a column name");
        assert(m@ =~= "`"@ + text_of(name) + "` isn't a column name"@);
        return Some(Err(m));
    }
    assert forall|j: int| 0 <= j < name.len() implies is_ident_byte(#[trigger] name[j]) by {
        assert(name[j] == b@[i + j]);
    }
    assert(is_column_name(name));
    let ty_s = substr(spec, c + 1, e);
    if !(range_eq(b, c + 1, e, "int".as_bytes()) || range_eq(b, c + 1, e, "float".as_bytes())
        || range_eq(b, c + 1, e, "str".as_bytes()) || range_eq(b, c + 1, e, "string".as_bytes())
        || range_eq(b, c + 1, e, "bool".as_bytes()) || crate::units::expr_fits(ty_s)) {
        assert(type_of(ty) is None);
        return None;
    }
    let sty = match read_type(b, c + 1, e, ty_s) {
        Some(t) => t,
        None => {
            let mut m = String::new();
            m.append("`");
            m.append(ty_s);
            m.append(
                "` isn't a column type -- expected `int`, `float`, `str`, `bool`, or a unit like `kWh`",
            );
            assert(m@ =~= "`"@ + text_of(ty)
                + "` isn't a column type -- expected `int`, `float`, `str`, `bool`, or a unit like `kWh`"@);
            return Some(Err(m));
        },
    };
    let name_owned = name_s.to_owned();
    assert(encode_utf8(name_owned@) == name);
    if names_contain(acc, &name_owned) {
        let mut m = String::new();
        m.append("`");
        m.append(name_s);
        m.append("` appears twice in the schema");
        assert(m@ =~= "`"@ + text_of(name) + "` appears twice in the schema"@);
        return Some(Err(m));
    }
    assert(entry_of(t, entries_view(acc@)) == Some(Ok::<(Seq<u8>, SchemaTy), Seq<char>>((name, sty))));
    Some(Ok((name_owned, sty)))
}

/// Whether `acc` already has an entry named `name`.
fn names_contain(acc: &Vec<(String, SchemaTy)>, name: &String) -> (r: bool)
    ensures
        r == names_column(entries_view(acc@), encode_utf8(name@)),
{
    let mut j: usize = 0;
    while j < acc.len()
        invariant
            0 <= j <= acc@.len(),
            forall|q: int| 0 <= q < j ==> (#[trigger] entries_view(acc@)[q]).0 != encode_utf8(name@),
        decreases acc@.len() - j,
    {
        if acc[j].0 == *name {
            assert(entries_view(acc@)[j as int].0 == encode_utf8(name@));
            return true;
        }
        proof {
            if entries_view(acc@)[j as int].0 == encode_utf8(name@) {
                vstd::utf8::encode_utf8_decode_utf8(acc@[j as int].0@);
                vstd::utf8::encode_utf8_decode_utf8(name@);
            }
        }
        j += 1;
    }
    false
}

/// Reads the column type spelled by `b[lo..hi]` (`ty` is that text); `None` when it names no
/// type.
fn read_type(b: &[u8], lo: usize, hi: usize, ty: &str) -> (r: Option<SchemaTy>)
    requires
        lo <= hi <= b@.len(),
        ty.spec_bytes() == b@.subrange(lo as int, hi as int),
        type_of(b@.subrange(lo as int, hi as int)) is Some,
    ensures
        match type_of(b@.subrange(lo as int, hi as int)).unwrap() {
            Ok(t) => r == Some(t),
            Err(_) => r is None,
        },
{
    if range_eq(b, lo, hi, "int".as_bytes()) {
        Some(SchemaTy::Int)
    } else if range_eq(b, lo, hi, "float".as_bytes()) {
        Some(SchemaTy::Float)
    } else if range_eq(b, lo, hi, "str".as_bytes()) || range_eq(b, lo, hi, "string".as_bytes()) {
        Some(SchemaTy::Str)
    } else if range_eq(b, lo, hi, "bool".as_bytes()) {
        Some(SchemaTy::Bool)
    } else {
        match crate::units::parse(ty) {
            Some(u) => {
                proof {
                    let t = b@.subrange(lo as int, hi as int);
                    let fs = factors_from(t, 0, false).unwrap();
                    let d2 = unit_dim_of(t);
                    assert(exps(d2) == fold_exps(fs, fs.len() as int));
                    crate::units::lemma_exps_injective(u.dim, d2);
                }
                Some(SchemaTy::Unit(u.dim))
            },
            None => None,
        }
    }
}

/// Where the token starting at the boundary `i` ends; that is a boundary too.
fn token_span(b: &[u8], i: usize) -> (e: usize)
    requires
        i < b@.len(),
        valid_utf8(b@),
        sep_width(b@, i as int) == 0,
    ensures
        e == token_end(b@, i as int),
        i < e <= b@.len(),
        is_char_boundary(b@, e as int),
{
    let n = b.len();
    let mut e = i + 1;
    while e < n && sep_at(b, e) == 0
        invariant
            i < e <= b@.len(),
            n == b@.len(),
            token_end(b@, i as int) == token_end(b@, e as int),
        decreases b@.len() - e,
    {
        e += 1;
    }
    proof {
        vstd::utf8::is_char_boundary_start_end_of_seq(b@);
        if e < b.len() {
            lemma_sep_start_boundary(b@, e as int);
        }
    }
    e
}

/// Parse `zone:int, fare:float kwh:kWh` into `(name, ty)` pairs, in spec order, or the
/// message the spec is refused with; `None` when reading a unit would overflow.
/// Separators are commas and whitespace; each token is `name:type` where `type` is
/// `int`, `float`, `str`, `bool`, or a unit like `kWh` (which means floats in that
/// dimension).
pub fn try_parse_schema(spec: &str) -> (r: Option<Result<Vec<(String, SchemaTy)>, String>>)
    ensures
        match schema_from(spec.spec_bytes(), 0, seq![]) {
            Some(Ok(entries)) => r matches Some(Ok(v)) && entries_view(v@) == entries,
            Some(Err(msg)) => r matches Some(Err(m)) && m@ == msg,
            None => r is None,
        },
{
    let b = spec.as_bytes();
    let ghost whole = schema_from(b@, 0, seq![]);
    proof {
        vstd::utf8::encode_utf8_valid_utf8(spec@);
        vstd::utf8::is_char_boundary_start_end_of_seq(b@);
    }
    let mut out: Vec<(String, SchemaTy)> = Vec::new();
    assert(entries_view(out@) =~= seq![]);
    let mut i: usize = 0;
    while i < b.len()
        invariant
            i <= b@.len(),
            b@ == spec.spec_bytes(),
            valid_utf8(b@),
            is_char_boundary(b@, i as int),
            whole == schema_from(b@, 0, seq![]),
            whole == schema_from(b@, i as int, entries_view(out@)),
        decreases b@.len() - i,
    {
        let w = sep_at(b, i);
        if w > 0 {
            proof {
                lemma_sep_boundary(b@, i as int);
            }
            i = i + w;
            continue;
        }
        let e = token_span(b, i);
        let ghost before = entries_view(out@);
        match read_entry(spec, i, e, &out) {
            Some(Ok(entry)) => {
                out.push(entry);
                assert(entries_view(out@) =~= before.push((encode_utf8(entry.0@), entry.1)));
            },
            Some(Err(m)) => {
                return Some(Err(m));
            },
            None => {
                return None;
            },
        }
        i = e;
    }
    if out.len() == 0 {
        let mut m = String::new();
        m.append("empty schema spec");
        return Some(Err(m));
    }
    Some(Ok(out))
}

/// Whether `spec` can be read without an overflow in its units: only then may
/// `parse_schema` be called.
pub fn schema_spec_fits(spec: &str) -> (r: bool)
    ensures
        r == (schema_from(spec.spec_bytes(), 0, seq![]) is Some),
{
    try_parse_schema(spec).is_some()
}

/// Parse `zone:int, fare:float kwh:kWh` into `(name, ty)` pairs, in spec order.
/// Separators are commas and whitespace; each token is `name:type` where `type` is
/// `int`, `float`, `str`, `bool`, or a unit like `kWh` (which means floats in that
/// dimension).
pub fn parse_schema(spec: &str) -> (r: Result<Vec<(String, SchemaTy)>, String>)
    requires
        schema_from(spec.spec_bytes(), 0, seq![]) is Some,
    ensures
        match schema_from(spec.spec_bytes(), 0, seq![]).unwrap() {
            Ok(entries) => r matches Ok(v) && entries_view(v@) == entries,
            Err(msg) => r matches Err(m) && m@ == msg,
        },
{
    match try_parse_schema(spec) {
        Some(r) => r,
        None => Err(String::new()),
    }
}


/// Every name of `es` is a column name, and no two entries share one.
pub open spec fn names_distinct(es: Seq<(Seq<u8>, SchemaTy)>) -> bool {
    &&& forall|k: int| 0 <= k < es.len() ==> is_column_name(#[trigger] es[k].0)
    &&& forall|j: int, k: int| 0 <= j < k < es.len() ==> #[trigger] es[j].0 != #[trigger] es[k].0
}

proof fn lemma_schema_from_distinct(b: Seq<u8>, i: int, acc: Seq<(Seq<u8>, SchemaTy)>)
    requires
        names_distinct(acc),
        schema_from(b, i, acc) matches Some(Ok(_)),
    ensures
        schema_from(b, i, acc) matches Some(Ok(es)) && names_distinct(es),
    decreases b.len() - i,
{
    if 0 <= i < b.len() {
        if sep_width(b, i) > 0 {
            lemma_schema_from_distinct(b, i + sep_width(b, i), acc);
        } else {
            let e = token_end(b, i);
            if let Some(Ok(entry)) = entry_of(b.subrange(i, e), acc) {
                let acc2 = acc.push(entry);
                assert forall|j: int, k: int| 0 <= j < k < acc2.len() implies #[trigger] acc2[j].0
                    != #[trigger] acc2[k].0 by {
                    if k == acc.len() {
                        if acc[j].0 == entry.0 {
                            assert(names_column(acc, entry.0));
                        }
                    }
                }
                lemma_schema_from_distinct(b, e, acc2);
            }
        }
    }
}

/// A schema names each of its columns once, and each name is a column name.
pub proof fn lemma_schema_names_distinct(b: Seq<u8>)
    requires
        schema_from(b, 0, seq![]) matches Some(Ok(_)),
    ensures
        schema_from(b, 0, seq![]) matches Some(Ok(es)) && names_distinct(es),
{
    lemma_schema_from_distinct(b, 0, seq![]);
}

proof fn lemma_type_words_differ()
    ensures
        "int".spec_bytes() != "float".spec_bytes(),
        "int".spec_bytes() != "str".spec_bytes(),
        "int".spec_bytes() != "string".spec_bytes(),
        "int".spec_bytes() != "bool".spec_bytes(),
        "float".spec_bytes() != "str".spec_bytes(),
        "float".spec_bytes() != "string".spec_bytes(),
        "float".spec_bytes() != "bool".spec_bytes(),
        "str".spec_bytes() != "string".spec_bytes(),
        "str".spec_bytes() != "bool".spec_bytes(),
        "string".spec_bytes() != "bool".spec_bytes(),
{
    reveal_strlit("int");
    reveal_strlit("float");
    reveal_strlit("str");
    reveal_strlit("string");
    reveal_strlit("bool");
    vstd::string::is_ascii_spec_bytes("int");
    vstd::string::is_ascii_spec_bytes("float");
    vstd::string::is_ascii_spec_bytes("str");
    vstd::string::is_ascii_spec_bytes("string");
    vstd::string::is_ascii_spec_bytes("bool");
    assert("int".spec_bytes().len() == 3 && "int".spec_bytes()[0] == 105u8);
    assert("str".spec_bytes().len() == 3 && "str".spec_bytes()[0] == 115u8);
    assert("float".spec_bytes().len() == 5);
    assert("string".spec_bytes().len() == 6);
    assert("bool".spec_bytes().len() == 4);
}

/// The type words read as their column types, and no other text does: `int` alone gives an
/// int column, `float` alone a float one, `str` and its long form `string` a text one, and
/// `bool` alone a boolean one; anything else is a unit or not a type at all.
pub proof fn lemma_type_words(t: Seq<u8>)
    ensures
        (type_of(t) == Some(Ok::<SchemaTy, ()>(SchemaTy::Int))) <==> t == "int".spec_bytes(),
        (type_of(t) == Some(Ok::<SchemaTy, ()>(SchemaTy::Float))) <==> t == "float".spec_bytes(),
        (type_of(t) == Some(Ok::<SchemaTy, ()>(SchemaTy::Str))) <==> (t == "str".spec_bytes() || t
            == "string".spec_bytes()),
        (type_of(t) == Some(Ok::<SchemaTy, ()>(SchemaTy::Bool))) <==> t == "bool".spec_bytes(),
        type_of("string".spec_bytes()) == type_of("str".spec_bytes()),
{
    lemma_type_words_differ();
}

} // verus!
