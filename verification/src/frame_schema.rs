//! Dataframe schemas: the ordered column-name → column map the type analysis keeps beside
//! each frame, so `df.pull("fare")` is typed by name and a misspelled column is a
//! check-time error instead of a runtime raise. `closed = false` marks frames that may hold
//! columns the analysis can't see; a lookup that misses there is no error.
//!
//! The columns live in an `IndexMap`, whose insertion order is the frame's column order.

use vstd::prelude::*;
use indexmap::IndexMap;
use crate::frames::{ColTy, FrameCol};
use vstd::string::StringSliceAdditionalSpecFns;
use vstd::utf8::{decode_utf8, encode_utf8};
use crate::schema::{entries_view, lemma_schema_names_distinct, names_distinct, parse_schema, schema_from, SchemaTy};
use crate::text::{contains_text, join_with, lemma_join_with_push, texts};

verus! {

#[verifier::external_type_specification]
#[verifier::external_body]
#[verifier::reject_recursive_types(K)]
#[verifier::reject_recursive_types(V)]
#[verifier::reject_recursive_types(S)]
pub struct ExIndexMap<K, V, S>(IndexMap<K, V, S>);

/// The entries of a column map, in its order: each column's name and what is known of it.
pub uninterp spec fn col_entries(m: IndexMap<String, FrameCol>) -> Seq<(Seq<char>, FrameCol)>;

/// The position of the first entry named `k`.
pub open spec fn key_pos(e: Seq<(Seq<char>, FrameCol)>, k: Seq<char>) -> Option<int>
    decreases e.len(),
{
    if e.len() == 0 {
        None
    } else {
        match key_pos(e.drop_last(), k) {
            Some(i) => Some(i),
            None => if e.last().0 == k {
                Some(e.len() - 1)
            } else {
                None
            },
        }
    }
}

/// No two entries share a name.
pub open spec fn distinct_keys(e: Seq<(Seq<char>, FrameCol)>) -> bool {
    forall|i: int, j: int| 0 <= i < j < e.len() ==> e[i].0 != e[j].0
}

/// The names of the entries, in order.
pub open spec fn names_of(e: Seq<(Seq<char>, FrameCol)>) -> Seq<Seq<char>> {
    e.map_values(|p: (Seq<char>, FrameCol)| p.0)
}

/// `insert`: an existing entry keeps its place and takes the new value; a new one goes last.
pub open spec fn entries_insert(e: Seq<(Seq<char>, FrameCol)>, k: Seq<char>, v: FrameCol) -> Seq<
    (Seq<char>, FrameCol),
> {
    match key_pos(e, k) {
        Some(i) => e.update(i, (e[i].0, v)),
        None => e.push((k, v)),
    }
}

/// `shift_remove`: the entry goes and the later ones close up.
pub open spec fn entries_remove(e: Seq<(Seq<char>, FrameCol)>, k: Seq<char>) -> Seq<
    (Seq<char>, FrameCol),
> {
    match key_pos(e, k) {
        Some(i) => e.remove(i),
        None => e,
    }
}

/// `insert_before`: a new entry goes exactly at `idx`; an existing one takes the new value
/// and moves to just before what was at `idx` (one place less when it came from before it).
pub open spec fn entries_insert_before(
    e: Seq<(Seq<char>, FrameCol)>,
    idx: int,
    k: Seq<char>,
    v: FrameCol,
) -> Seq<(Seq<char>, FrameCol)> {
    match key_pos(e, k) {
        Some(j) => e.remove(j).insert(
            if idx > j {
                idx - 1
            } else {
                idx
            },
            (e[j].0, v),
        ),
        None => e.insert(idx, (k, v)),
    }
}

pub proof fn lemma_key_pos(e: Seq<(Seq<char>, FrameCol)>, k: Seq<char>)
    ensures
        match key_pos(e, k) {
            Some(i) => 0 <= i < e.len() && e[i].0 == k && forall|j: int|
                0 <= j < i ==> #[trigger] e[j].0 != k,
            None => forall|j: int| 0 <= j < e.len() ==> #[trigger] e[j].0 != k,
        },
    decreases e.len(),
{
    if e.len() > 0 {
        lemma_key_pos(e.drop_last(), k);
        let d = e.drop_last();
        assert forall|j: int| 0 <= j < d.len() implies d[j] == e[j] by {}
    }
}

pub proof fn lemma_key_pos_at(e: Seq<(Seq<char>, FrameCol)>, k: Seq<char>, i: int)
    requires
        distinct_keys(e),
        0 <= i < e.len(),
        e[i].0 == k,
    ensures
        key_pos(e, k) == Some(i),
{
    lemma_key_pos(e, k);
}

proof fn lemma_insert_distinct(e: Seq<(Seq<char>, FrameCol)>, k: Seq<char>, v: FrameCol)
    requires
        distinct_keys(e),
    ensures
        distinct_keys(entries_insert(e, k, v)),
        names_of(entries_insert(e, k, v)) == match key_pos(e, k) {
            Some(i) => names_of(e),
            None => names_of(e).push(k),
        },
{
    lemma_key_pos(e, k);
    let r = entries_insert(e, k, v);
    match key_pos(e, k) {
        Some(i) => {
            assert(names_of(r) =~= names_of(e));
        },
        None => {
            assert(names_of(r) =~= names_of(e).push(k));
        },
    }
}

proof fn lemma_remove_distinct(e: Seq<(Seq<char>, FrameCol)>, k: Seq<char>)
    requires
        distinct_keys(e),
    ensures
        distinct_keys(entries_remove(e, k)),
{
    lemma_key_pos(e, k);
    match key_pos(e, k) {
        Some(i) => {
            let r = e.remove(i);
            assert forall|a: int, b: int| 0 <= a < b < r.len() implies r[a].0 != r[b].0 by {
                let a2 = if a < i { a } else { a + 1 };
                let b2 = if b < i { b } else { b + 1 };
                assert(r[a] == e[a2]);
                assert(r[b] == e[b2]);
            }
        },
        None => {},
    }
}

proof fn lemma_insert_before_distinct(e: Seq<(Seq<char>, FrameCol)>, idx: int, k: Seq<char>, v: FrameCol)
    requires
        distinct_keys(e),
        0 <= idx <= e.len(),
    ensures
        distinct_keys(entries_insert_before(e, idx, k, v)),
{
    lemma_key_pos(e, k);
    match key_pos(e, k) {
        Some(j) => {
            let r1 = e.remove(j);
            let t = if idx > j { idx - 1 } else { idx };
            let r = r1.insert(t, (e[j].0, v));
            assert forall|a: int, b: int| 0 <= a < b < r1.len() implies r1[a].0 != r1[b].0 by {
                let a2 = if a < j { a } else { a + 1 };
                let b2 = if b < j { b } else { b + 1 };
                assert(r1[a] == e[a2]);
                assert(r1[b] == e[b2]);
            }
            assert forall|a: int| 0 <= a < r1.len() implies r1[a].0 != k by {
                let a2 = if a < j { a } else { a + 1 };
                assert(r1[a] == e[a2]);
            }
            assert forall|a: int, b: int| 0 <= a < b < r.len() implies r[a].0 != r[b].0 by {
                if a < t {
                    assert(r[a] == r1[a]);
                } else if a == t {
                    assert(r[a].0 == k);
                } else {
                    assert(r[a] == r1[a - 1]);
                }
                if b < t {
                    assert(r[b] == r1[b]);
                } else if b == t {
                    assert(r[b].0 == k);
                } else {
                    assert(r[b] == r1[b - 1]);
                }
            }
        },
        None => {
            let r = e.insert(idx, (k, v));
            assert forall|a: int, b: int| 0 <= a < b < r.len() implies r[a].0 != r[b].0 by {
                if a < idx {
                    assert(r[a] == e[a]);
                } else if a == idx {
                    assert(r[a].0 == k);
                } else {
                    assert(r[a] == e[a - 1]);
                }
                if b < idx {
                    assert(r[b] == e[b]);
                } else if b == idx {
                    assert(r[b].0 == k);
                } else {
                    assert(r[b] == e[b - 1]);
                }
            }
        },
    }
}

/// `IndexMap::new`: a map with no entries.
#[verifier::external_body]
fn cols_new() -> (m: IndexMap<String, FrameCol>)
    ensures
        col_entries(m) == Seq::<(Seq<char>, FrameCol)>::empty(),
{
    IndexMap::new()
}

/// `IndexMap::len`: the number of entries.
#[verifier::external_body]
fn cols_len(m: &IndexMap<String, FrameCol>) -> (n: usize)
    ensures
        n == col_entries(*m).len(),
{
    m.len()
}

/// `IndexMap::get_index`: references to the name and value at position `i`, if there is
/// one.
#[verifier::external_body]
fn cols_get_index<'a>(m: &'a IndexMap<String, FrameCol>, i: usize) -> (r: Option<
    (&'a String, &'a FrameCol),
>)
    ensures
        match r {
            Some((k, v)) => i < col_entries(*m).len() && k@ == col_entries(*m)[i as int].0 && *v
                == col_entries(*m)[i as int].1,
            None => i >= col_entries(*m).len(),
        },
{
    m.get_index(i)
}

/// `IndexMap::get_index_of`: the position of the entry named `k` (names are unique in a
/// map, so the first such entry is the only one).
#[verifier::external_body]
fn cols_get_index_of(m: &IndexMap<String, FrameCol>, k: &str) -> (r: Option<usize>)
    ensures
        match key_pos(col_entries(*m), k@) {
            Some(i) => r == Some(i as usize),
            None => r is None,
        },
{
    m.get_index_of(k)
}

/// `IndexMap::get`: a reference to the value of the entry named `k`, if there is one.
#[verifier::external_body]
fn cols_get<'a>(m: &'a IndexMap<String, FrameCol>, k: &str) -> (r: Option<&'a FrameCol>)
    ensures
        match key_pos(col_entries(*m), k@) {
            Some(i) => r matches Some(v) && *v == col_entries(*m)[i].1,
            None => r is None,
        },
{
    m.get(k)
}

/// `IndexMap::contains_key`: whether an entry is named `k`.
#[verifier::external_body]
fn cols_contains_key(m: &IndexMap<String, FrameCol>, k: &str) -> (r: bool)
    ensures
        r == (key_pos(col_entries(*m), k@) is Some),
{
    m.contains_key(k)
}

/// `IndexMap::insert`: an existing entry named `k` keeps its place and takes `v`; otherwise
/// the entry goes last.
#[verifier::external_body]
fn cols_insert(m: &mut IndexMap<String, FrameCol>, k: String, v: FrameCol)
    ensures
        col_entries(*final(m)) == entries_insert(col_entries(*old(m)), k@, v),
{
    m.insert(k, v);
}

/// `IndexMap::shift_remove`: the entry named `k` goes, the later ones keep their order.
#[verifier::external_body]
fn cols_shift_remove(m: &mut IndexMap<String, FrameCol>, k: &str)
    ensures
        col_entries(*final(m)) == entries_remove(col_entries(*old(m)), k@),
{
    m.shift_remove(k);
}

/// `IndexMap::insert_before`: a new entry goes exactly at `idx`; an existing one named `k`
/// takes `v` and moves to just before what was at `idx` (one place less when it came from
/// before it). It panics on a position past the end, which the precondition rules out.
#[verifier::external_body]
fn cols_insert_before(m: &mut IndexMap<String, FrameCol>, idx: usize, k: String, v: FrameCol)
    requires
        idx <= col_entries(*old(m)).len(),
    ensures
        col_entries(*final(m)) == entries_insert_before(col_entries(*old(m)), idx as int, k@, v),
{
    m.insert_before(idx, k, v);
}

/// The names of the entries, in order (`IndexMap::keys`, collected).
#[verifier::external_body]
fn cols_keys(m: &IndexMap<String, FrameCol>) -> (r: Vec<String>)
    ensures
        r@.map_values(|s: String| s@) == names_of(col_entries(*m)),
{
    m.keys().cloned().collect()
}

/// A dataframe's columns as the type analysis sees them.
#[derive(Debug)]
pub struct FrameSchema {
    /// The columns by name, in the frame's order.
    pub cols: IndexMap<String, FrameCol>,
    /// `false` when unseen columns may also be present (splices, opaque sources); a lookup
    /// only fails on a closed schema.
    pub closed: bool,
}

/// A schema as the contracts see it: its entries in order, and whether it is closed.
pub type SchemaView = (Seq<(Seq<char>, FrameCol)>, bool);

/// A lookup that missed: the name asked for, and the schema's column list.
pub type MissView = (Seq<char>, Seq<char>);

impl FrameSchema {
    /// The entries, in the frame's order.
    pub open spec fn entries(&self) -> Seq<(Seq<char>, FrameCol)> {
        col_entries(self.cols)
    }

    /// What the contracts see of the schema.
    pub open spec fn view_of(&self) -> SchemaView {
        (self.entries(), self.closed)
    }

    /// No two columns share a name (as in every `IndexMap`).
    pub open spec fn wf(&self) -> bool {
        distinct_keys(self.entries())
    }
}

/// `name` is not a column of the schema the analysis consulted; `columns` lists the ones it
/// has, joined by `, `.
#[derive(Debug)]
pub struct NoSuchColumn {
    pub name: String,
    pub columns: String,
}

/// A column nothing is known of.
pub open spec fn unknown_col() -> FrameCol {
    FrameCol { ty: None, dim: None }
}

/// The column list an error shows: the names joined by `, `.
pub open spec fn columns_text(e: Seq<(Seq<char>, FrameCol)>) -> Seq<char> {
    join_with(names_of(e), ", "@)
}

/// What looking up `name` gives: the column; on an open schema an unknown column when it
/// is not listed; on a closed one a miss.
pub open spec fn lookup(e: Seq<(Seq<char>, FrameCol)>, closed: bool, name: Seq<char>) -> Result<
    FrameCol,
    MissView,
> {
    match key_pos(e, name) {
        Some(i) => Ok(e[i].1),
        None => if closed {
            Err((name, columns_text(e)))
        } else {
            Ok(unknown_col())
        },
    }
}

/// The view of a miss.
pub open spec fn miss_view(err: NoSuchColumn) -> MissView {
    (err.name@, err.columns@)
}

/// The view of a result that is a column or a miss.
pub open spec fn col_result_view(r: Result<FrameCol, NoSuchColumn>) -> Result<FrameCol, MissView> {
    match r {
        Ok(c) => Ok(c),
        Err(e) => Err(miss_view(e)),
    }
}

/// The view of a result that is a schema or a miss.
pub open spec fn schema_result_view(r: Result<FrameSchema, NoSuchColumn>) -> Result<
    SchemaView,
    MissView,
> {
    match r {
        Ok(s) => Ok(s.view_of()),
        Err(e) => Err(miss_view(e)),
    }
}

/// A copy of a column map, entry by entry.
fn copy_cols(m: &IndexMap<String, FrameCol>) -> (r: IndexMap<String, FrameCol>)
    requires
        distinct_keys(col_entries(*m)),
    ensures
        col_entries(r) == col_entries(*m),
{
    let ghost e = col_entries(*m);
    let n = cols_len(m);
    let mut out = cols_new();
    let mut i: usize = 0;
    while i < n
        invariant
            i <= n,
            n == e.len(),
            e == col_entries(*m),
            distinct_keys(e),
            col_entries(out) == e.take(i as int),
        decreases n - i,
    {
        if let Some((k, v)) = cols_get_index(m, i) {
            proof {
                let t = e.take(i as int);
                lemma_key_pos(t, k@);
                assert forall|j: int| 0 <= j < i implies #[trigger] t[j].0 != k@ by {
                    assert(t[j] == e[j]);
                }
            }
            cols_insert(&mut out, k.clone(), v.duplicate());
        }
        proof {
            assert(e.take(i + 1) =~= e.take(i as int).push(e[i as int]));
        }
        i += 1;
    }
    proof {
        assert(e.take(n as int) =~= e);
    }
    out
}

/// The column names of `schema`, joined by `, `.
pub fn schema_columns(schema: &FrameSchema) -> (r: String)
    ensures
        r@ == columns_text(schema.entries()),
{
    let keys = cols_keys(&schema.cols);
    let ghost names = names_of(schema.entries());
    assert(keys@.len() == names.len()) by {
        assert(keys@.map_values(|s: String| s@).len() == keys@.len());
    }
    let mut out = String::new();
    let mut i: usize = 0;
    while i < keys.len()
        invariant
            i <= keys@.len(),
            keys@.len() == names.len(),
            keys@.map_values(|s: String| s@) == names,
            out@ == join_with(names.take(i as int), ", "@),
        decreases keys@.len() - i,
    {
        assert(keys@[i as int]@ == names[i as int]) by {
            assert(keys@.map_values(|s: String| s@)[i as int] == keys@[i as int]@);
        }
        proof {
            reveal_strlit(", ");
            lemma_join_with_push(names.take(i as int), ", "@, names[i as int]);
            assert(names.take(i + 1) =~= names.take(i as int).push(names[i as int]));
        }
        if i > 0 {
            out.append(", ");
        }
        out.append(keys[i].as_str());
        i += 1;
    }
    assert(names.take(keys@.len() as int) =~= names);
    out
}

fn no_such_column(name: &str, schema: &FrameSchema) -> (e: NoSuchColumn)
    ensures
        miss_view(e) == (name@, columns_text(schema.entries())),
{
    NoSuchColumn { name: name.to_string(), columns: schema_columns(schema) }
}

impl FrameSchema {
    /// A closed schema with no columns (`table {}` before any column is added).
    pub fn empty() -> (s: FrameSchema)
        ensures
            s.view_of() == (Seq::<(Seq<char>, FrameCol)>::empty(), true),
            s.wf(),
    {
        FrameSchema { cols: cols_new(), closed: true }
    }

    /// The `name` column; on an open schema a column that is not listed is unknown, on a
    /// closed one it is an error that lists the columns there are.
    pub fn col(&self, name: &str) -> (r: Result<FrameCol, NoSuchColumn>)
        ensures
            col_result_view(r) == lookup(self.entries(), self.closed, name@),
    {
        match cols_get(&self.cols, name) {
            Some(c) => Ok(c.duplicate()),
            None => if !self.closed {
                Ok(FrameCol::unknown())
            } else {
                Err(no_such_column(name, self))
            },
        }
    }

    /// A copy of this schema.
    pub fn duplicate(&self) -> (r: FrameSchema)
        requires
            self.wf(),
        ensures
            r.view_of() == self.view_of(),
            r.wf(),
    {
        FrameSchema { cols: copy_cols(&self.cols), closed: self.closed }
    }
}

/// The view of computed columns: each one's name, when it can be read, and what is known
/// of it.
pub open spec fn item_view(items: Seq<(Option<String>, FrameCol)>) -> Seq<(Option<Seq<char>>, FrameCol)> {
    items.map_values(
        |p: (Option<String>, FrameCol)|
            (
                match p.0 {
                    Some(n) => Some(n@),
                    None => None,
                },
                p.1,
            ),
    )
}

/// Projecting to the first `k` listed names: each with its looked-up column, in list order
/// (a name listed twice keeps its first place); the first miss is the error.
pub open spec fn select_upto(
    e: Seq<(Seq<char>, FrameCol)>,
    closed: bool,
    names: Seq<Seq<char>>,
    k: int,
) -> Result<Seq<(Seq<char>, FrameCol)>, MissView>
    decreases k,
{
    if k <= 0 {
        Ok(seq![])
    } else {
        match select_upto(e, closed, names, k - 1) {
            Err(m) => Err(m),
            Ok(acc) => match lookup(e, closed, names[k - 1]) {
                Err(m) => Err(m),
                Ok(c) => Ok(entries_insert(acc, names[k - 1], c)),
            },
        }
    }
}

/// The first of the first `k` names that misses.
pub open spec fn first_miss(e: Seq<(Seq<char>, FrameCol)>, closed: bool, names: Seq<Seq<char>>, k: int) -> Option<
    MissView,
>
    decreases k,
{
    if k <= 0 {
        None
    } else {
        match first_miss(e, closed, names, k - 1) {
            Some(m) => Some(m),
            None => match lookup(e, closed, names[k - 1]) {
                Err(m) => Some(m),
                Ok(_) => None,
            },
        }
    }
}

/// Adding the first `k` computed columns to `(acc, closed)`: a named one is inserted (in
/// place when the name is taken), an unnamed one may add columns nobody can name, so the
/// schema opens.
pub open spec fn derive_upto(
    acc: Seq<(Seq<char>, FrameCol)>,
    closed: bool,
    items: Seq<(Option<Seq<char>>, FrameCol)>,
    k: int,
) -> SchemaView
    decreases k,
{
    if k <= 0 {
        (acc, closed)
    } else {
        let prev = derive_upto(acc, closed, items, k - 1);
        match items[k - 1].0 {
            Some(n) => (entries_insert(prev.0, n, items[k - 1].1), prev.1),
            None => (prev.0, false),
        }
    }
}

/// `rename(from, to)`: `from` must resolve; when it is listed, its column takes the name
/// `to` at its place (an existing `to` moves there and takes the column).
pub open spec fn rename_spec(e: Seq<(Seq<char>, FrameCol)>, closed: bool, from: Seq<char>, to: Seq<char>) -> Result<
    SchemaView,
    MissView,
> {
    match lookup(e, closed, from) {
        Err(m) => Err(m),
        Ok(c) => Ok(
            (
                match key_pos(e, from) {
                    Some(i) => entries_insert_before(e.remove(i), i, to, c),
                    None => e,
                },
                closed,
            ),
        ),
    }
}

/// Projects `schema` to the listed names, in list order (`select_names`, and the query
/// `select` verb); the result is as closed as the input.
pub fn select_names(schema: &FrameSchema, names: &[String]) -> (r: Result<FrameSchema, NoSuchColumn>)
    requires
        schema.wf(),
    ensures
        schema_result_view(r) == match select_upto(
            schema.entries(),
            schema.closed,
            texts(names@),
            names@.len() as int,
        ) {
            Ok(acc) => Ok((acc, schema.closed)),
            Err(m) => Err(m),
        },
        r matches Ok(s) ==> s.wf(),
{
    let ghost e = schema.entries();
    let ghost nv = texts(names@);
    let mut out = cols_new();
    let mut i: usize = 0;
    while i < names.len()
        invariant
            i <= names@.len(),
            e == schema.entries(),
            nv == texts(names@),
            select_upto(e, schema.closed, nv, i as int) == Ok::<_, MissView>(col_entries(out)),
            distinct_keys(col_entries(out)),
        decreases names@.len() - i,
    {
        assert(nv[i as int] == names@[i as int]@);
        let c = match schema.col(names[i].as_str()) {
            Ok(c) => c,
            Err(err) => {
                proof {
                    lemma_select_err_sticks(e, schema.closed, nv, i + 1, names@.len() as int);
                }
                return Err(err);
            },
        };
        proof {
            lemma_insert_distinct(col_entries(out), nv[i as int], c);
        }
        cols_insert(&mut out, names[i].clone(), c);
        i += 1;
    }
    Ok(FrameSchema { cols: out, closed: schema.closed })
}

proof fn lemma_select_err_sticks(e: Seq<(Seq<char>, FrameCol)>, closed: bool, names: Seq<Seq<char>>, k: int, n: int)
    requires
        0 < k <= n,
        select_upto(e, closed, names, k) is Err,
    ensures
        select_upto(e, closed, names, n) == select_upto(e, closed, names, k),
    decreases n - k,
{
    if k < n {
        lemma_select_err_sticks(e, closed, names, k, n - 1);
    }
}

proof fn lemma_miss_sticks(e: Seq<(Seq<char>, FrameCol)>, closed: bool, names: Seq<Seq<char>>, k: int, n: int)
    requires
        0 < k <= n,
        first_miss(e, closed, names, k) is Some,
    ensures
        first_miss(e, closed, names, n) == first_miss(e, closed, names, k),
    decreases n - k,
{
    if k < n {
        lemma_miss_sticks(e, closed, names, k, n - 1);
    }
}

/// Checks that each listed name resolves (the keys of `sort`, `distinct`, `group_by`); the
/// first that misses is the error.
pub fn check_names(schema: &FrameSchema, names: &[String]) -> (r: Result<(), NoSuchColumn>)
    ensures
        match first_miss(schema.entries(), schema.closed, texts(names@), names@.len() as int) {
            Some(m) => r matches Err(err) && miss_view(err) == m,
            None => r is Ok,
        },
{
    let ghost e = schema.entries();
    let ghost nv = texts(names@);
    let mut i: usize = 0;
    while i < names.len()
        invariant
            i <= names@.len(),
            e == schema.entries(),
            nv == texts(names@),
            first_miss(e, schema.closed, nv, i as int) is None,
        decreases names@.len() - i,
    {
        assert(nv[i as int] == names@[i as int]@);
        match schema.col(names[i].as_str()) {
            Ok(_) => {},
            Err(err) => {
                proof {
                    lemma_miss_sticks(e, schema.closed, nv, i + 1, names@.len() as int);
                }
                return Err(err);
            },
        }
        i += 1;
    }
    Ok(())
}

/// `rename(from, to)`: the column `from` takes the name `to` at its place.
pub fn rename(schema: &FrameSchema, from: &str, to: &str) -> (r: Result<FrameSchema, NoSuchColumn>)
    requires
        schema.wf(),
    ensures
        schema_result_view(r) == rename_spec(schema.entries(), schema.closed, from@, to@),
        r matches Ok(s) ==> s.wf(),
{
    let c = schema.col(from)?;
    let mut cols = copy_cols(&schema.cols);
    let ghost e = schema.entries();
    if let Some(idx) = cols_get_index_of(&cols, from) {
        proof {
            lemma_key_pos(e, from@);
            lemma_remove_distinct(e, from@);
        }
        cols_shift_remove(&mut cols, from);
        let len = cols_len(&cols);
        let at = if idx < len { idx } else { len };
        proof {
            lemma_insert_before_distinct(e.remove(idx as int), at as int, to@, c);
        }
        cols_insert_before(&mut cols, at, to.to_string(), c);
    }
    Ok(FrameSchema { cols, closed: schema.closed })
}

fn add_items(out: &mut FrameSchema, items: &[(Option<String>, FrameCol)])
    requires
        old(out).wf(),
    ensures
        final(out).view_of() == derive_upto(
            old(out).entries(),
            old(out).closed,
            item_view(items@),
            items@.len() as int,
        ),
        final(out).wf(),
{
    let ghost e0 = out.entries();
    let ghost c0 = out.closed;
    let ghost iv = item_view(items@);
    let mut i: usize = 0;
    while i < items.len()
        invariant
            i <= items@.len(),
            iv == item_view(items@),
            out.view_of() == derive_upto(e0, c0, iv, i as int),
            out.wf(),
        decreases items@.len() - i,
    {
        assert(iv[i as int].1 == items@[i as int].1);
        match &items[i].0 {
            Some(n) => {
                assert(iv[i as int].0 == Some(n@));
                proof {
                    lemma_insert_distinct(out.entries(), n@, items@[i as int].1);
                }
                cols_insert(&mut out.cols, n.clone(), items[i].1.duplicate());
            },
            None => {
                assert(iv[i as int].0 is None);
                out.closed = false;
            },
        }
        i += 1;
    }
}

/// The `mutate` / `derive` result: the input's columns plus each computed column, given as
/// its name (`None` when it has none the analysis can read) and what is known of it. With
/// no readable list, the schema is unchanged.
pub fn mutate_schema(schema: &FrameSchema, items: Option<&[(Option<String>, FrameCol)]>) -> (r: FrameSchema)
    requires
        schema.wf(),
    ensures
        r.view_of() == match items {
            Some(it) => derive_upto(schema.entries(), schema.closed, item_view(it@), it@.len() as int),
            None => schema.view_of(),
        },
        r.wf(),
{
    let mut out = schema.duplicate();
    if let Some(it) = items {
        add_items(&mut out, it);
    }
    out
}

/// The `select([...])` result: exactly the computed columns, in order.
pub fn select_exprs(schema: &FrameSchema, items: &[(Option<String>, FrameCol)]) -> (r: FrameSchema)
    ensures
        r.view_of() == derive_upto(seq![], schema.closed, item_view(items@), items@.len() as int),
        r.wf(),
{
    let mut out = FrameSchema { cols: cols_new(), closed: schema.closed };
    add_items(&mut out, items);
    out
}

/// The schema an aggregation produces: the group keys in input order, then the named
/// aggregates. A list that can't be read (`None`) may grow columns nobody can name, so the
/// result is open.
pub fn agg_schema(
    input: &FrameSchema,
    keys: &[String],
    items: Option<&[(Option<String>, FrameCol)]>,
) -> (r: Result<FrameSchema, NoSuchColumn>)
    requires
        input.wf(),
    ensures
        schema_result_view(r) == match select_upto(
            input.entries(),
            input.closed,
            texts(keys@),
            keys@.len() as int,
        ) {
            Err(m) => Err(m),
            Ok(acc) => Ok(
                match items {
                    Some(it) => derive_upto(acc, input.closed, item_view(it@), it@.len() as int),
                    None => (acc, false),
                },
            ),
        },
        r matches Ok(s) ==> s.wf(),
{
    let mut out = select_names(input, keys)?;
    match items {
        Some(it) => add_items(&mut out, it),
        None => out.closed = false,
    }
    Ok(out)
}

/// A `table { … }` column: with a name the column is inserted; a name the analysis can't
/// read opens the schema.
pub fn table_col(schema: &FrameSchema, name: Option<&str>, col: FrameCol) -> (r: FrameSchema)
    requires
        schema.wf(),
    ensures
        r.view_of() == match name {
            Some(n) => (entries_insert(schema.entries(), n@, col), schema.closed),
            None => (schema.entries(), false),
        },
        r.wf(),
{
    let mut out = schema.duplicate();
    match name {
        Some(n) => {
            proof {
                lemma_insert_distinct(out.entries(), n@, col);
            }
            cols_insert(&mut out.cols, n.to_string(), col);
        },
        None => out.closed = false,
    }
    out
}

/// The first of the first `k` join keys that misses on the left, then on the right.
pub open spec fn join_miss(
    a: Seq<(Seq<char>, FrameCol)>,
    a_closed: bool,
    b: Seq<(Seq<char>, FrameCol)>,
    b_closed: bool,
    keys: Seq<Seq<char>>,
    k: int,
) -> Option<MissView>
    decreases k,
{
    if k <= 0 {
        None
    } else {
        match join_miss(a, a_closed, b, b_closed, keys, k - 1) {
            Some(m) => Some(m),
            None => match lookup(a, a_closed, keys[k - 1]) {
                Err(m) => Some(m),
                Ok(_) => match lookup(b, b_closed, keys[k - 1]) {
                    Err(m) => Some(m),
                    Ok(_) => None,
                },
            },
        }
    }
}

/// The columns of a join after the first `k` right-hand columns: a key is not repeated, and
/// a right-hand name the left already has gets the suffix `_right`, as polars names it.
pub open spec fn join_upto(
    acc: Seq<(Seq<char>, FrameCol)>,
    b: Seq<(Seq<char>, FrameCol)>,
    keys: Seq<Seq<char>>,
    k: int,
) -> Seq<(Seq<char>, FrameCol)>
    decreases k,
{
    if k <= 0 {
        acc
    } else {
        let prev = join_upto(acc, b, keys, k - 1);
        let name = b[k - 1].0;
        if keys.contains(name) {
            prev
        } else if key_pos(prev, name) is Some {
            entries_insert(prev, name + "_right"@, b[k - 1].1)
        } else {
            entries_insert(prev, name, b[k - 1].1)
        }
    }
}

/// A join of `a` and `b` on `keys`: every key must resolve on both sides; the result is
/// `a`'s columns, then `b`'s non-key ones, closed when both inputs are.
pub open spec fn join_spec(a: SchemaView, b: SchemaView, keys: Seq<Seq<char>>) -> Result<SchemaView, MissView> {
    match join_miss(a.0, a.1, b.0, b.1, keys, keys.len() as int) {
        Some(m) => Err(m),
        None => Ok((join_upto(a.0, b.0, keys, b.0.len() as int), a.1 && b.1)),
    }
}

proof fn lemma_join_miss_sticks(
    a: Seq<(Seq<char>, FrameCol)>,
    a_closed: bool,
    b: Seq<(Seq<char>, FrameCol)>,
    b_closed: bool,
    keys: Seq<Seq<char>>,
    k: int,
    n: int,
)
    requires
        0 < k <= n,
        join_miss(a, a_closed, b, b_closed, keys, k) is Some,
    ensures
        join_miss(a, a_closed, b, b_closed, keys, n) == join_miss(a, a_closed, b, b_closed, keys, k),
    decreases n - k,
{
    if k < n {
        lemma_join_miss_sticks(a, a_closed, b, b_closed, keys, k, n - 1);
    }
}

/// Joins the schemas of two frames on `keys` (`df.join`, and the query `join` verb).
pub fn join_schemas(a: &FrameSchema, b: &FrameSchema, keys: &[String]) -> (r: Result<FrameSchema, NoSuchColumn>)
    requires
        a.wf(),
        b.wf(),
    ensures
        schema_result_view(r) == join_spec(a.view_of(), b.view_of(), texts(keys@)),
        r matches Ok(s) ==> s.wf(),
{
    let ghost ae = a.entries();
    let ghost be = b.entries();
    let ghost kv = texts(keys@);
    let mut i: usize = 0;
    while i < keys.len()
        invariant
            i <= keys@.len(),
            ae == a.entries(),
            be == b.entries(),
            kv == texts(keys@),
            join_miss(ae, a.closed, be, b.closed, kv, i as int) is None,
        decreases keys@.len() - i,
    {
        assert(kv[i as int] == keys@[i as int]@);
        let r1 = a.col(keys[i].as_str());
        if let Err(err) = r1 {
            proof {
                lemma_join_miss_sticks(ae, a.closed, be, b.closed, kv, i + 1, keys@.len() as int);
            }
            return Err(err);
        }
        let r2 = b.col(keys[i].as_str());
        if let Err(err) = r2 {
            proof {
                lemma_join_miss_sticks(ae, a.closed, be, b.closed, kv, i + 1, keys@.len() as int);
            }
            return Err(err);
        }
        i += 1;
    }
    let mut cols = copy_cols(&a.cols);
    let n = cols_len(&b.cols);
    let mut j: usize = 0;
    while j < n
        invariant
            j <= n,
            n == be.len(),
            be == b.entries(),
            kv == texts(keys@),
            col_entries(cols) == join_upto(ae, be, kv, j as int),
            distinct_keys(col_entries(cols)),
        decreases n - j,
    {
        if let Some((name, col)) = cols_get_index(&b.cols, j) {
            let ghost prev = col_entries(cols);
            if contains_text(keys, name.as_str()) {
            } else if cols_contains_key(&cols, name.as_str()) {
                let mut suffixed = name.clone();
                suffixed.append("_right");
                proof {
                    reveal_strlit("_right");
                    lemma_insert_distinct(prev, suffixed@, *col);
                }
                cols_insert(&mut cols, suffixed, col.duplicate());
            } else {
                proof {
                    lemma_insert_distinct(prev, name@, *col);
                }
                cols_insert(&mut cols, name.clone(), col.duplicate());
            }
        }
        j += 1;
    }
    Ok(FrameSchema { cols, closed: a.closed && b.closed })
}

/// The column a schema-spec entry declares; a unit means floats in that dimension.
pub open spec fn spec_col(t: SchemaTy) -> FrameCol {
    match t {
        SchemaTy::Int => FrameCol { ty: Some(ColTy::Int), dim: None },
        SchemaTy::Float => FrameCol { ty: Some(ColTy::Float), dim: None },
        SchemaTy::Str => FrameCol { ty: Some(ColTy::Str), dim: None },
        SchemaTy::Bool => FrameCol { ty: Some(ColTy::Bool), dim: None },
        SchemaTy::Unit(d) => FrameCol { ty: Some(ColTy::Float), dim: Some(d) },
    }
}

/// The columns a parsed schema spec declares, in spec order.
pub open spec fn spec_entries(es: Seq<(Seq<u8>, SchemaTy)>) -> Seq<(Seq<char>, FrameCol)> {
    es.map_values(|p: (Seq<u8>, SchemaTy)| (decode_utf8(p.0), spec_col(p.1)))
}

fn col_of(t: SchemaTy) -> (c: FrameCol)
    ensures
        c == spec_col(t),
{
    match t {
        SchemaTy::Int => FrameCol { ty: Some(ColTy::Int), dim: None },
        SchemaTy::Float => FrameCol { ty: Some(ColTy::Float), dim: None },
        SchemaTy::Str => FrameCol { ty: Some(ColTy::Str), dim: None },
        SchemaTy::Bool => FrameCol { ty: Some(ColTy::Bool), dim: None },
        SchemaTy::Unit(d) => FrameCol { ty: Some(ColTy::Float), dim: Some(d) },
    }
}

/// Entry `i` of a parsed schema is new among the entries before it, and adding it extends
/// their columns by its own.
proof fn lemma_spec_entry_step(entries: Seq<(String, SchemaTy)>, i: int)
    requires
        0 <= i < entries.len(),
        names_distinct(entries_view(entries)),
    ensures
        key_pos(spec_entries(entries_view(entries).take(i)), entries[i].0@) is None,
        spec_entries(entries_view(entries).take(i + 1)) == spec_entries(
            entries_view(entries).take(i),
        ).push((entries[i].0@, spec_col(entries[i].1))),
{
    let es = entries_view(entries);
    let name = entries[i].0;
    assert(es[i] == (encode_utf8(name@), entries[i].1));
    vstd::utf8::encode_utf8_decode_utf8(name@);
    let acc = spec_entries(es.take(i));
    lemma_key_pos(acc, name@);
    assert forall|j: int| 0 <= j < i implies #[trigger] acc[j].0 != name@ by {
        assert(acc[j].0 == decode_utf8(es[j].0));
        assert(es[j].0 != es[i].0);
        assert(es[j] == entries_view(entries)[j]);
        vstd::utf8::encode_utf8_decode_utf8(entries[j].0@);
        if acc[j].0 == name@ {
            assert(entries[j].0@ == name@);
        }
    }
    assert(spec_entries(es.take(i + 1)) =~= acc.push((name@, spec_col(entries[i].1))));
}

/// The columns of a parsed schema have distinct names.
proof fn lemma_spec_entries_distinct(entries: Seq<(String, SchemaTy)>)
    requires
        names_distinct(entries_view(entries)),
    ensures
        forall|a: int, b: int|
            0 <= a < b < spec_entries(entries_view(entries)).len() ==> spec_entries(
                entries_view(entries),
            )[a].0 != spec_entries(entries_view(entries))[b].0,
{
    let es = entries_view(entries);
    let e = spec_entries(es);
    assert forall|a: int, b: int| 0 <= a < b < e.len() implies e[a].0 != e[b].0 by {
        assert(es[a] == entries_view(entries)[a]);
        assert(es[b] == entries_view(entries)[b]);
        vstd::utf8::encode_utf8_decode_utf8(entries[a].0@);
        vstd::utf8::encode_utf8_decode_utf8(entries[b].0@);
        if e[a].0 == e[b].0 {
            assert(entries[a].0@ == entries[b].0@);
        }
    }
}

/// `df.schema("fare:float kwh:kWh")`: the closed schema the spec declares, or the spec's
/// error message. The runtime checks frames against the same parse.
pub fn schema_from_spec(spec: &str) -> (r: Result<FrameSchema, String>)
    requires
        schema_from(spec.spec_bytes(), 0, seq![]) is Some,
    ensures
        match schema_from(spec.spec_bytes(), 0, seq![]).unwrap() {
            Ok(es) => r matches Ok(s) && s.view_of() == (spec_entries(es), true) && s.wf(),
            Err(msg) => r matches Err(m) && m@ == msg,
        },
{
    let entries = match parse_schema(spec) {
        Ok(v) => v,
        Err(msg) => return Err(msg),
    };
    let ghost es = entries_view(entries@);
    proof {
        lemma_schema_names_distinct(spec.spec_bytes());
    }
    let mut cols = cols_new();
    let mut i: usize = 0;
    while i < entries.len()
        invariant
            i <= entries@.len(),
            es == entries_view(entries@),
            names_distinct(es),
            col_entries(cols) == spec_entries(es.take(i as int)),
        decreases entries@.len() - i,
    {
        let name = &entries[i].0;
        proof {
            lemma_spec_entry_step(entries@, i as int);
        }
        cols_insert(&mut cols, name.clone(), col_of(entries[i].1));
        i += 1;
    }
    proof {
        assert(es.take(entries@.len() as int) =~= es);
        lemma_spec_entries_distinct(entries@);
    }
    Ok(FrameSchema { cols, closed: true })
}

/// Why `df.schema(…)` was refused: a spec that does not parse, or a column the (closed)
/// receiver doesn't have.
#[derive(Debug)]
pub enum SchemaError {
    BadSpec(String),
    NoSuchColumn(NoSuchColumn),
}

/// The first of the first `k` names that `e` does not list.
pub open spec fn first_absent(names: Seq<Seq<char>>, e: Seq<(Seq<char>, FrameCol)>, k: int) -> Option<
    Seq<char>,
>
    decreases k,
{
    if k <= 0 {
        None
    } else {
        match first_absent(names, e, k - 1) {
            Some(n) => Some(n),
            None => if key_pos(e, names[k - 1]) is None {
                Some(names[k - 1])
            } else {
                None
            },
        }
    }
}

proof fn lemma_absent_sticks(names: Seq<Seq<char>>, e: Seq<(Seq<char>, FrameCol)>, k: int, n: int)
    requires
        0 < k <= n,
        first_absent(names, e, k) is Some,
    ensures
        first_absent(names, e, n) == first_absent(names, e, k),
    decreases n - k,
{
    if k < n {
        lemma_absent_sticks(names, e, k, n - 1);
    }
}

/// The position of the first column of `src` that `rs` does not list.
fn find_absent(src: &FrameSchema, rs: &FrameSchema) -> (r: Option<usize>)
    ensures
        match first_absent(names_of(src.entries()), rs.entries(), src.entries().len() as int) {
            Some(a) => r matches Some(i) && i < src.entries().len() && src.entries()[i as int].0 == a,
            None => r is None,
        },
{
    let ghost e = src.entries();
    let ghost names = names_of(e);
    let n = cols_len(&src.cols);
    let mut i: usize = 0;
    while i < n
        invariant
            i <= n,
            n == e.len(),
            e == src.entries(),
            names == names_of(e),
            first_absent(names, rs.entries(), i as int) is None,
        decreases n - i,
    {
        if let Some((name, _)) = cols_get_index(&src.cols, i) {
            assert(names[i as int] == name@);
            if !cols_contains_key(&rs.cols, name.as_str()) {
                proof {
                    lemma_absent_sticks(names, rs.entries(), i + 1, n as int);
                }
                return Some(i);
            }
        }
        i += 1;
    }
    None
}

/// `recv.schema("…")`: the schema the spec declares, once a closed receiver is known to have
/// every column it names (the first it lacks is the error).
pub fn apply_schema_spec(recv: Option<&FrameSchema>, spec: &str) -> (r: Result<FrameSchema, SchemaError>)
    requires
        schema_from(spec.spec_bytes(), 0, seq![]) is Some,
    ensures
        match schema_from(spec.spec_bytes(), 0, seq![]).unwrap() {
            Err(msg) => r matches Err(SchemaError::BadSpec(m)) && m@ == msg,
            Ok(es) => match recv {
                Some(rs) => if rs.closed {
                    match first_absent(names_of(spec_entries(es)), rs.entries(), es.len() as int) {
                        Some(absent) => r matches Err(SchemaError::NoSuchColumn(miss)) && miss_view(miss)
                            == (absent, columns_text(rs.entries())),
                        None => r matches Ok(s) && s.view_of() == (spec_entries(es), true),
                    }
                } else {
                    r matches Ok(s) && s.view_of() == (spec_entries(es), true)
                },
                None => r matches Ok(s) && s.view_of() == (spec_entries(es), true),
            },
        },
        r matches Ok(s) ==> s.wf(),
{
    let schema = match schema_from_spec(spec) {
        Ok(s) => s,
        Err(msg) => return Err(SchemaError::BadSpec(msg)),
    };
    if let Some(rs) = recv {
        if rs.closed {
            if let Some(i) = find_absent(&schema, rs) {
                if let Some((name, _)) = cols_get_index(&schema.cols, i) {
                    return Err(SchemaError::NoSuchColumn(no_such_column(name.as_str(), rs)));
                }
            }
        }
    }
    Ok(schema)
}

/// On an open schema a lookup never fails; on a closed one it fails exactly for the names
/// the schema does not list.
pub proof fn lemma_lookup_misses_only_when_closed(
    e: Seq<(Seq<char>, FrameCol)>,
    closed: bool,
    name: Seq<char>,
)
    ensures
        lookup(e, closed, name) is Err <==> (closed && !names_of(e).contains(name)),
{
    lemma_key_pos(e, name);
    if names_of(e).contains(name) {
        let j = choose|j: int| 0 <= j < names_of(e).len() && names_of(e)[j] == name;
        assert(e[j].0 == name);
    }
    if let Some(i) = key_pos(e, name) {
        assert(names_of(e)[i] == name);
    }
}

proof fn lemma_names_grow(e: Seq<(Seq<char>, FrameCol)>, k: Seq<char>, v: FrameCol)
    requires
        distinct_keys(e),
    ensures
        names_of(entries_insert(e, k, v)).len() >= names_of(e).len(),
        names_of(entries_insert(e, k, v)).take(e.len() as int) == names_of(e),
        names_of(entries_insert(e, k, v)).contains(k),
        forall|x: Seq<char>| names_of(e).contains(x) ==> names_of(entries_insert(e, k, v)).contains(x),
{
    lemma_insert_distinct(e, k, v);
    lemma_key_pos(e, k);
    let n2 = names_of(entries_insert(e, k, v));
    match key_pos(e, k) {
        Some(i) => {
            assert(n2[i] == k);
            assert(n2.take(e.len() as int) =~= names_of(e));
        },
        None => {
            assert(n2[e.len() as int] == k);
            assert(n2.take(e.len() as int) =~= names_of(e));
            assert forall|x: Seq<char>| names_of(e).contains(x) implies n2.contains(x) by {
                let j = choose|j: int| 0 <= j < names_of(e).len() && names_of(e)[j] == x;
                assert(n2[j] == x);
            }
        },
    }
}

proof fn lemma_join_upto(
    a: Seq<(Seq<char>, FrameCol)>,
    b: Seq<(Seq<char>, FrameCol)>,
    keys: Seq<Seq<char>>,
    k: int,
)
    requires
        distinct_keys(a),
        0 <= k <= b.len(),
    ensures
        distinct_keys(join_upto(a, b, keys, k)),
        names_of(join_upto(a, b, keys, k)).len() >= a.len(),
        names_of(join_upto(a, b, keys, k)).take(a.len() as int) == names_of(a),
        forall|j: int|
            0 <= j < k && !keys.contains(#[trigger] b[j].0) ==> names_of(join_upto(a, b, keys, k)).contains(
                b[j].0,
            ) || names_of(join_upto(a, b, keys, k)).contains(b[j].0 + "_right"@),
    decreases k,
{
    if k > 0 {
        lemma_join_upto(a, b, keys, k - 1);
        let prev = join_upto(a, b, keys, k - 1);
        let name = b[k - 1].0;
        if !keys.contains(name) {
            let key = if key_pos(prev, name) is Some {
                name + "_right"@
            } else {
                name
            };
            lemma_names_grow(prev, key, b[k - 1].1);
            lemma_insert_distinct(prev, key, b[k - 1].1);
            let cur = join_upto(a, b, keys, k);
            assert(cur == entries_insert(prev, key, b[k - 1].1));
            assert(names_of(cur).take(a.len() as int) =~= names_of(cur).take(prev.len() as int).take(
                a.len() as int,
            ));
        }
    }
}

/// A join keeps the left frame's columns, in order, at the front; every right-hand column
/// that is not a key is there too, under its own name or with `_right`; and the result is
/// closed exactly when both inputs are.
pub proof fn lemma_join_keeps_columns(a: SchemaView, b: SchemaView, keys: Seq<Seq<char>>)
    requires
        distinct_keys(a.0),
        distinct_keys(b.0),
        join_spec(a, b, keys) is Ok,
    ensures
        join_spec(a, b, keys) matches Ok(j) && {
            &&& names_of(j.0).take(a.0.len() as int) == names_of(a.0)
            &&& forall|i: int|
                0 <= i < b.0.len() && !keys.contains(#[trigger] b.0[i].0) ==> names_of(j.0).contains(
                    b.0[i].0,
                ) || names_of(j.0).contains(b.0[i].0 + "_right"@)
            &&& j.1 == (a.1 && b.1)
            &&& distinct_keys(j.0)
        },
{
    lemma_join_upto(a.0, b.0, keys, b.0.len() as int);
}

/// Renaming a listed column to a name no other column has changes only that column's
/// name, and in place.
pub proof fn lemma_rename_in_place(
    e: Seq<(Seq<char>, FrameCol)>,
    closed: bool,
    from: Seq<char>,
    to: Seq<char>,
    i: int,
)
    requires
        distinct_keys(e),
        0 <= i < e.len(),
        e[i].0 == from,
        to == from || !names_of(e).contains(to),
    ensures
        rename_spec(e, closed, from, to) == Ok::<SchemaView, MissView>((e.update(i, (to, e[i].1)), closed)),
{
    lemma_key_pos_at(e, from, i);
    let r1 = e.remove(i);
    lemma_key_pos(r1, to);
    if let Some(j) = key_pos(r1, to) {
        let j2 = if j < i { j } else { j + 1 };
        assert(r1[j] == e[j2]);
        assert(names_of(e)[j2] == to);
        assert(false);
    }
    assert(r1.insert(i, (to, e[i].1)) =~= e.update(i, (to, e[i].1)));
}

proof fn lemma_select_names(e: Seq<(Seq<char>, FrameCol)>, closed: bool, names: Seq<Seq<char>>, k: int)
    requires
        0 <= k <= names.len(),
        forall|a: int, b: int| 0 <= a < b < names.len() ==> names[a] != names[b],
        select_upto(e, closed, names, k) is Ok,
    ensures
        select_upto(e, closed, names, k) matches Ok(acc) && names_of(acc) == names.take(k) && distinct_keys(
            acc,
        ),
    decreases k,
{
    if k > 0 {
        lemma_select_names(e, closed, names, k - 1);
        let acc = select_upto(e, closed, names, k - 1)->Ok_0;
        let c = lookup(e, closed, names[k - 1])->Ok_0;
        lemma_key_pos(acc, names[k - 1]);
        assert(names_of(acc) == names.take(k - 1));
        if let Some(i) = key_pos(acc, names[k - 1]) {
            assert(names_of(acc)[i] == acc[i].0);
            assert(names.take(k - 1)[i] == names[i]);
            assert(names[i] == names[k - 1]);
            assert(false);
        }
        lemma_insert_distinct(acc, names[k - 1], c);
        assert(names.take(k) =~= names.take(k - 1).push(names[k - 1]));
    }
}

/// Projecting to distinct names that all resolve lists exactly those names, in that order.
pub proof fn lemma_select_lists_names(e: Seq<(Seq<char>, FrameCol)>, closed: bool, names: Seq<Seq<char>>)
    requires
        forall|a: int, b: int| 0 <= a < b < names.len() ==> names[a] != names[b],
        select_upto(e, closed, names, names.len() as int) is Ok,
    ensures
        select_upto(e, closed, names, names.len() as int) matches Ok(acc) && names_of(acc) == names,
{
    lemma_select_names(e, closed, names, names.len() as int);
    assert(names.take(names.len() as int) =~= names);
}

proof fn lemma_derive_upto(
    acc: Seq<(Seq<char>, FrameCol)>,
    closed: bool,
    items: Seq<(Option<Seq<char>>, FrameCol)>,
    k: int,
)
    requires
        distinct_keys(acc),
        0 <= k <= items.len(),
    ensures
        distinct_keys(derive_upto(acc, closed, items, k).0),
        names_of(derive_upto(acc, closed, items, k).0).len() >= acc.len(),
        names_of(derive_upto(acc, closed, items, k).0).take(acc.len() as int) == names_of(acc),
        forall|j: int|
            0 <= j < k && #[trigger] items[j].0 is Some ==> names_of(derive_upto(acc, closed, items, k).0).contains(
                items[j].0.unwrap(),
            ),
        derive_upto(acc, closed, items, k).1 == (closed && forall|j: int|
            0 <= j < k ==> #[trigger] items[j].0 is Some),
    decreases k,
{
    if k > 0 {
        lemma_derive_upto(acc, closed, items, k - 1);
        let prev = derive_upto(acc, closed, items, k - 1);
        if let Some(n) = items[k - 1].0 {
            lemma_names_grow(prev.0, n, items[k - 1].1);
            lemma_insert_distinct(prev.0, n, items[k - 1].1);
            let cur = derive_upto(acc, closed, items, k);
            assert(names_of(cur.0).take(acc.len() as int) =~= names_of(cur.0).take(prev.0.len() as int).take(
                acc.len() as int,
            ));
        } else {
            assert(!(items[k - 1].0 is Some));
            assert(derive_upto(acc, closed, items, k).0 == prev.0);
        }
    }
}

/// Adding computed columns keeps the existing ones, in order, at the front; every named
/// computed column is there afterwards; and the schema stays closed exactly when it was and
/// every computed column has a readable name.
pub proof fn lemma_derive_keeps_columns(
    e: Seq<(Seq<char>, FrameCol)>,
    closed: bool,
    items: Seq<(Option<Seq<char>>, FrameCol)>,
)
    requires
        distinct_keys(e),
    ensures
        ({
            let r = derive_upto(e, closed, items, items.len() as int);
            &&& names_of(r.0).take(e.len() as int) == names_of(e)
            &&& forall|j: int|
                0 <= j < items.len() && #[trigger] items[j].0 is Some ==> names_of(r.0).contains(
                    items[j].0.unwrap(),
                )
            &&& r.1 == (closed && forall|j: int| 0 <= j < items.len() ==> #[trigger] items[j].0 is Some)
            &&& distinct_keys(r.0)
        }),
{
    lemma_derive_upto(e, closed, items, items.len() as int);
}

/// A column a schema spec declares keeps the type it was declared with: exactly the `int`
/// entries become int columns, the `str` ones text, the `bool` ones booleans; floats and
/// units become float columns, and only a unit gives the column a dimension, its own.
pub proof fn lemma_spec_columns_keep_their_type(t: SchemaTy)
    ensures
        (spec_col(t).ty == Some(ColTy::Int)) <==> t == SchemaTy::Int,
        (spec_col(t).ty == Some(ColTy::Str)) <==> t == SchemaTy::Str,
        (spec_col(t).ty == Some(ColTy::Bool)) <==> t == SchemaTy::Bool,
        (spec_col(t).ty == Some(ColTy::Float)) <==> (t == SchemaTy::Float || t is Unit),
        spec_col(t).dim is Some <==> t is Unit,
        t matches SchemaTy::Unit(d) ==> spec_col(t).dim == Some(d),
{
}

} // verus!
