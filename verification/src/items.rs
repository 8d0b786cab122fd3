//! Top-level `fn` items of Mimas source: where each one sits and what it is called, who
//! mentions whom, and the edits that put one back.
//!
//! Items come from the page's parse when it parses (the caller hands in each function's
//! name and span); otherwise a brace matcher finds them, stepping over comments, quoted
//! literals and the `where:` example blocks that follow a function. Who refers to whom
//! likewise goes by what each function's parse refers to, with a text search for `name(`
//! when a function does not parse.

use vstd::prelude::*;
use vstd::string::StringSliceAdditionalSpecFns;
use vstd::utf8::{encode_utf8, is_char_boundary, valid_utf8};
use crate::digest::{blake3_digest, hash_item, hex_of};
use crate::refs::{Expr, expr_refs_spec, references};
use crate::tests_list::{lemma_dec_injective, lemma_dec_len};
use vstd::set_lib::{lemma_int_range, lemma_len_subset, lemma_map_size, set_int_range};
use crate::text::{
    alpha, contains_text, count_newlines, dec, find_byte, find_byte_at, ident_len, is_alpha,
    join_with, lemma_ascii_boundaries, lemma_find_byte, lemma_ident_len, lemma_newlines_bound,
    lemma_skip_ws_to, newlines, push_dec, range_eq, same_text, scan_ident_bytes, skip_ws_in,
    skip_ws_to, substr, text_of, texts, ws_at, ws_before, ws_end_width, ws_width,
};

verus! {

/// Where an extracted item sits, in bytes: its start, the start and end of its name, and
/// its end.
pub type Span = (int, int, int, int);

/// `lit` occurs in `b` at `i`.
pub open spec fn starts_at(b: Seq<u8>, i: int, lit: Seq<u8>) -> bool {
    0 <= i && i + lit.len() <= b.len() && b.subrange(i, i + lit.len()) == lit
}

/// Where the `*/` closing a block comment starts, searching from `j`.
pub open spec fn comment_close(b: Seq<u8>, j: int) -> Option<int>
    decreases b.len() - j,
{
    if j < 0 || j + 1 >= b.len() {
        None
    } else if b[j] == 42 && b[j + 1] == 47 {
        Some(j)
    } else {
        comment_close(b, j + 1)
    }
}

/// Where scanning resumes after a comment starting at `i` (`//` to the end of its line,
/// `/*` to its `*/`, either to the end of the text when unclosed); `None` when no
/// comment starts there.
pub open spec fn comment_end(b: Seq<u8>, i: int) -> Option<int> {
    if 0 <= i && i + 1 < b.len() && b[i] == 47 && b[i + 1] == 47 {
        match find_byte(b, 10, i) {
            Some(nl) => Some(nl + 1),
            None => Some(b.len() as int),
        }
    } else if 0 <= i && i + 1 < b.len() && b[i] == 47 && b[i + 1] == 42 {
        match comment_close(b, i + 2) {
            Some(e) => Some(e + 2),
            None => Some(b.len() as int),
        }
    } else {
        None
    }
}

/// Where a literal quoted by `q` whose body starts at `j` ends: just past the closing
/// quote, each backslash escaping the byte after it; the end of the text when unclosed.
pub open spec fn string_close(b: Seq<u8>, j: int, q: u8) -> int
    decreases b.len() + 1 - j,
{
    if j < 0 || j >= b.len() {
        b.len() as int
    } else if b[j] == 92 {
        string_close(b, j + 2, q)
    } else if b[j] == q {
        j + 1
    } else {
        string_close(b, j + 1, q)
    }
}

/// Where scanning resumes after a `"` or `'` literal starting at `i`; `None` when none
/// starts there.
pub open spec fn string_end(b: Seq<u8>, i: int) -> Option<int> {
    if 0 <= i < b.len() && (b[i] == 34 || b[i] == 39) {
        Some(string_close(b, i + 1, b[i]))
    } else {
        None
    }
}

pub proof fn lemma_comment_close(b: Seq<u8>, j: int)
    requires
        0 <= j,
    ensures
        comment_close(b, j) matches Some(e) ==> j <= e && e + 1 < b.len() && b[e] == 42 && b[e
            + 1] == 47,
    decreases b.len() - j,
{
    if j + 1 < b.len() && !(b[j] == 42 && b[j + 1] == 47) {
        lemma_comment_close(b, j + 1);
    }
}

pub proof fn lemma_comment_end(b: Seq<u8>, i: int)
    requires
        0 <= i < b.len(),
    ensures
        comment_end(b, i) matches Some(k) ==> i < k <= b.len(),
{
    lemma_find_byte(b, 10, i);
    lemma_comment_close(b, i + 2);
}

pub proof fn lemma_string_close(b: Seq<u8>, j: int, q: u8)
    requires
        0 <= j <= b.len(),
    ensures
        j <= string_close(b, j, q) <= b.len(),
    decreases b.len() + 1 - j,
{
    if j < b.len() {
        if b[j] == 92 {
            if j + 2 <= b.len() {
                lemma_string_close(b, j + 2, q);
            }
        } else if b[j] != q {
            lemma_string_close(b, j + 1, q);
        }
    }
}

pub proof fn lemma_string_end(b: Seq<u8>, i: int)
    requires
        0 <= i < b.len(),
    ensures
        string_end(b, i) matches Some(k) ==> i < k <= b.len(),
{
    lemma_string_close(b, i + 1, b[i]);
}

/// Matching braces from `i` at nesting `depth`, stepping byte by byte outside comments and
/// literals (the inner bytes of a character are stepped over): `Some(c)` when the brace that
/// closes the block is at `c`, `None` when the text ends first.
pub open spec fn close_of(b: Seq<u8>, i: int, depth: int) -> Option<int>
    decreases b.len() - i,
{
    if i < 0 || i >= b.len() {
        None
    } else if !is_char_boundary(b, i) {
        close_of(b, i + 1, depth)
    } else if comment_end(b, i) is Some {
        let k = comment_end(b, i).unwrap();
        proof {
            lemma_comment_end(b, i);
        }
        close_of(b, k, depth)
    } else if string_end(b, i) is Some {
        let k = string_end(b, i).unwrap();
        proof {
            lemma_string_end(b, i);
        }
        close_of(b, k, depth)
    } else if b[i] == 123 {
        close_of(b, i + 1, depth + 1)
    } else if b[i] == 125 && depth == 1 {
        Some(i)
    } else if b[i] == 125 {
        close_of(b, i + 1, depth - 1)
    } else {
        close_of(b, i + 1, depth)
    }
}

pub proof fn lemma_close_of(b: Seq<u8>, i: int, depth: int)
    requires
        0 <= i,
    ensures
        close_of(b, i, depth) matches Some(c) ==> i <= c < b.len() && b[c] == 125,
    decreases b.len() - i,
{
    if 0 <= i < b.len() && !is_char_boundary(b, i) {
        lemma_close_of(b, i + 1, depth);
    } else if 0 <= i < b.len() {
        if comment_end(b, i) is Some {
            lemma_comment_end(b, i);
            lemma_close_of(b, comment_end(b, i).unwrap(), depth);
        } else if string_end(b, i) is Some {
            lemma_string_end(b, i);
            lemma_close_of(b, string_end(b, i).unwrap(), depth);
        } else if b[i] == 123 {
            lemma_close_of(b, i + 1, depth + 1);
        } else if b[i] == 125 && depth == 1 {
        } else if b[i] == 125 {
            lemma_close_of(b, i + 1, depth - 1);
        } else {
            lemma_close_of(b, i + 1, depth);
        }
    }
}

/// A `where` block opens at `i`: after any whitespace comes `where:`, `where {`, or a
/// bare `where` that ends the text, and whitespace is skipped only from a line start.
pub open spec fn where_start(b: Seq<u8>, i: int) -> bool {
    let t = skip_ws_to(b, i, b.len() as int);
    &&& 0 <= i <= b.len()
    &&& (starts_at(b, t, "where:".spec_bytes()) || starts_at(b, t, "where {".spec_bytes()) || b.subrange(
        t,
        b.len() as int,
    ) == "where".spec_bytes())
    &&& (t == i || i == 0 || b[i - 1] == 10)
}

/// Where the text of the line starting at `j` ends: before its `\n`, or before the `\r`
/// of its `\r\n`, or at the end of the text.
pub open spec fn line_end(b: Seq<u8>, j: int) -> int {
    match find_byte(b, 10, j) {
        Some(n) => if n > j && b[n - 1] == 13 {
            n - 1
        } else {
            n
        },
        None => b.len() as int,
    }
}

/// The line `b[j..hi]` belongs to a `where` block: blank, indented, a lone `}`, or a
/// `//` comment.
pub open spec fn line_continues(b: Seq<u8>, j: int, hi: int) -> bool {
    let t = skip_ws_to(b, j, hi);
    ||| t == hi
    ||| (j < hi && (b[j] == 32 || b[j] == 9))
    ||| (t < hi && b[t] == 125 && skip_ws_to(b, t + 1, hi) == hi)
    ||| (t + 2 <= hi && b[t] == 47 && b[t + 1] == 47)
}

pub proof fn lemma_line_end(b: Seq<u8>, j: int)
    requires
        0 <= j < b.len(),
    ensures
        j <= line_end(b, j) <= b.len(),
        line_end(b, j) < b.len() ==> b[line_end(b, j)] == 10 || (b[line_end(b, j)] == 13
            && line_end(b, j) + 1 < b.len() && b[line_end(b, j) + 1] == 10),
{
    lemma_find_byte(b, 10, j);
}

/// Where the lines of a `where` block, from the one starting at `j`, end; `None` where
/// the walk over them stops advancing, which a continuation line ended by `\r\n` makes
/// it do.
pub open spec fn where_lines(b: Seq<u8>, j: int) -> Option<int>
    decreases b.len() - j,
{
    if j < 0 || j >= b.len() {
        Some(j)
    } else {
        let hi = line_end(b, j);
        if line_continues(b, j, hi) {
            let k = if hi < b.len() && b[hi] == 10 {
                hi + 1
            } else {
                hi
            };
            proof {
                lemma_line_end(b, j);
            }
            if k > j {
                where_lines(b, k)
            } else {
                None
            }
        } else {
            Some(j)
        }
    }
}

pub proof fn lemma_where_lines(b: Seq<u8>, j: int)
    requires
        0 <= j <= b.len(),
    ensures
        where_lines(b, j) matches Some(k) ==> j <= k <= b.len(),
    decreases b.len() - j,
{
    if j < b.len() {
        let hi = line_end(b, j);
        lemma_line_end(b, j);
        if line_continues(b, j, hi) {
            let k = if hi < b.len() && b[hi] == 10 {
                hi + 1
            } else {
                hi
            };
            if k > j {
                lemma_where_lines(b, k);
            }
        }
    }
}

/// Where scanning resumes after the `where` block opening at `i`: past its header line
/// and the lines that continue it.
pub open spec fn where_end(b: Seq<u8>, i: int) -> Option<int> {
    let t = skip_ws_to(b, i, b.len() as int);
    match find_byte(b, 10, t) {
        Some(nl) => where_lines(b, nl + 1),
        None => Some(b.len() as int),
    }
}

pub proof fn lemma_where_end(b: Seq<u8>, i: int)
    requires
        0 <= i < b.len(),
    ensures
        where_end(b, i) matches Some(k) ==> i < k <= b.len(),
{
    let t = skip_ws_to(b, i, b.len() as int);
    lemma_skip_ws_to(b, i, b.len() as int);
    lemma_find_byte(b, 10, t);
    if let Some(nl) = find_byte(b, 10, t) {
        lemma_where_lines(b, nl + 1);
    }
}

/// A top-level `fn` keyword at `i`: at the start of the text or after whitespace, and
/// followed by whitespace or `_`.
pub open spec fn fn_start(b: Seq<u8>, i: int) -> bool {
    &&& 0 <= i && i + 2 < b.len()
    &&& b[i] == 102 && b[i + 1] == 110
    &&& (i == 0 || ws_end_width(b, i) > 0)
    &&& (ws_width(b, i + 2) > 0 || b[i + 2] == 95)
}

/// The item whose `fn` is at `start`, when a name, a body and its closing brace follow.
pub open spec fn fn_at(b: Seq<u8>, start: int) -> Option<Span> {
    let lo = skip_ws_to(b, start + 2, b.len() as int);
    if !(0 <= lo < b.len() && (is_alpha(b[lo]) || b[lo] == 95)) {
        None
    } else {
        let hi = lo + 1 + ident_len(b.subrange(lo + 1, b.len() as int));
        match find_byte(b, 123, hi) {
            None => None,
            Some(open) => match close_of(b, open, 0) {
                None => None,
                Some(c) => Some((start, lo, hi, c + 1)),
            },
        }
    }
}

pub proof fn lemma_fn_at(b: Seq<u8>, start: int)
    requires
        0 <= start && start + 2 <= b.len(),
    ensures
        fn_at(b, start) matches Some(sp) ==> {
            &&& sp.0 == start && start + 2 <= sp.1 < sp.2 < sp.3 <= b.len()
            &&& b[sp.3 - 1] == 125
            &&& is_alpha(b[sp.1]) || b[sp.1] == 95
            &&& forall|k: int| sp.1 < k < sp.2 ==> crate::text::is_ident_byte(#[trigger] b[k])
        },
{
    let lo = skip_ws_to(b, start + 2, b.len() as int);
    lemma_skip_ws_to(b, start + 2, b.len() as int);
    if 0 <= lo < b.len() && (is_alpha(b[lo]) || b[lo] == 95) {
        let t = b.subrange(lo + 1, b.len() as int);
        lemma_ident_len(t);
        let hi = lo + 1 + ident_len(t);
        assert forall|k: int| lo < k < hi implies crate::text::is_ident_byte(#[trigger] b[k]) by {
            assert(b[k] == t[k - lo - 1]);
        }
        lemma_find_byte(b, 123, hi);
        if let Some(open) = find_byte(b, 123, hi) {
            lemma_close_of(b, open, 0);
        }
    }
}

/// Scanning from `i` at brace nesting `depth`, having found the items `acc`: every item
/// of the text, in order (the inner bytes of a character are stepped over); `None` where
/// the walk over a `where` block would stop advancing.
pub open spec fn scan(b: Seq<u8>, i: int, depth: int, acc: Seq<Span>) -> Option<Seq<Span>>
    decreases b.len() - i,
{
    if i < 0 || i >= b.len() {
        Some(acc)
    } else if !is_char_boundary(b, i) {
        scan(b, i + 1, depth, acc)
    } else if comment_end(b, i) is Some {
        let k = comment_end(b, i).unwrap();
        proof {
            lemma_comment_end(b, i);
        }
        scan(b, k, depth, acc)
    } else if string_end(b, i) is Some {
        let k = string_end(b, i).unwrap();
        proof {
            lemma_string_end(b, i);
        }
        scan(b, k, depth, acc)
    } else if b[i] == 123 {
        scan(b, i + 1, depth + 1, acc)
    } else if b[i] == 125 {
        scan(
            b,
            i + 1,
            if depth > 0 {
                depth - 1
            } else {
                0
            },
            acc,
        )
    } else if depth == 0 && where_start(b, i) {
        match where_end(b, i) {
            None => None,
            Some(k) => {
                proof {
                    lemma_where_end(b, i);
                }
                scan(b, k, depth, acc)
            },
        }
    } else {
        let f = if depth == 0 && fn_start(b, i) {
            fn_at(b, i)
        } else {
            None
        };
        match f {
            None => scan(b, i + 1, depth, acc),
            Some(sp) => {
                proof {
                    lemma_fn_at(b, i);
                }
                scan(b, sp.3, depth, acc.push(sp))
            },
        }
    }
}

/// The items the brace matcher finds in `b`, when it gets through the text.
pub open spec fn brace_spans(b: Seq<u8>) -> Option<Seq<Span>> {
    scan(b, 0, 0, seq![])
}

/// A top-level function as it appears in a page of Mimas source.
#[derive(Debug, Clone, Eq)]
pub struct Item {
    pub name: String,
    pub start: usize,
    pub end: usize,
    pub source: String,
}

impl PartialEq for Item {
    fn eq(&self, other: &Item) -> (r: bool) {
        self.name == other.name && self.start == other.start && self.end == other.end
            && self.source == other.source
    }
}

impl vstd::std_specs::cmp::PartialEqSpecImpl for Item {
    open spec fn obeys_eq_spec() -> bool {
        true
    }

    open spec fn eq_spec(&self, other: &Item) -> bool {
        self.name@ == other.name@ && self.start == other.start && self.end == other.end
            && self.source@ == other.source@
    }
}

/// `it` is the item of `b` at `sp`.
pub open spec fn item_matches(b: Seq<u8>, it: Item, sp: Span) -> bool {
    &&& it.start == sp.0 && it.end == sp.3
    &&& it.name@ == text_of(b.subrange(sp.1, sp.2))
    &&& it.source@ == text_of(b.subrange(sp.0, sp.3))
}

/// `items` are the items of `b` at `spans`, one for one.
pub open spec fn items_match(b: Seq<u8>, items: Seq<Item>, spans: Seq<Span>) -> bool {
    &&& items.len() == spans.len()
    &&& forall|k: int| 0 <= k < spans.len() ==> item_matches(b, #[trigger] items[k], spans[k])
}

/// What a page's parse says of one top-level function: its name and byte span.
pub type Parsed = (Seq<char>, int, int);

/// A top-level function of a page as the contracts see it: its name and byte span.
pub type PageItem = (Seq<char>, int, int);

/// The functions of `b` by its parse: each span clamped to the page, kept when it is
/// nonempty and cut at character boundaries.
pub open spec fn parsed_items(b: Seq<u8>, fs: Seq<Parsed>) -> Seq<PageItem>
    decreases fs.len(),
{
    if fs.len() == 0 {
        seq![]
    } else {
        let rest = parsed_items(b, fs.drop_last());
        let f = fs.last();
        let lo = clamp(f.1, b.len() as int);
        let hi = clamp(f.2, b.len() as int);
        if lo < hi && is_char_boundary(b, lo) && is_char_boundary(b, hi) {
            rest.push((f.0, lo, hi))
        } else {
            rest
        }
    }
}

/// The functions the brace matcher finds at `sps`.
pub open spec fn brace_items(b: Seq<u8>, sps: Seq<Span>) -> Seq<PageItem> {
    sps.map_values(|sp: Span| (text_of(b.subrange(sp.1, sp.2)), sp.0, sp.3))
}

/// The top-level functions of the page `b`: by its parse when it parses (`parsed`), else by
/// the brace matcher.
pub open spec fn page_items(b: Seq<u8>, parsed: Option<Seq<Parsed>>) -> Seq<PageItem> {
    match parsed {
        Some(fs) => parsed_items(b, fs),
        None => brace_items(b, brace_spans(b).unwrap()),
    }
}

/// The page can be read: it parsed, or the brace matcher gets through it.
pub open spec fn page_ok(b: Seq<u8>, parsed: Option<Seq<Parsed>>) -> bool {
    parsed is Some || brace_spans(b) is Some
}

/// The view of a parse's functions.
pub open spec fn parsed_view(fs: Option<&[(String, usize, usize)]>) -> Option<Seq<Parsed>> {
    match fs {
        Some(v) => Some(v@.map_values(|f: (String, usize, usize)| (f.0@, f.1 as int, f.2 as int))),
        None => None,
    }
}

/// `it` is the page item `p` of `b`.
pub open spec fn item_is(b: Seq<u8>, it: Item, p: PageItem) -> bool {
    &&& it.start == p.1 && it.end == p.2
    &&& it.name@ == p.0
    &&& it.source@ == text_of(b.subrange(p.1, p.2))
}

/// `items` are the page items `ps` of `b`, one for one.
pub open spec fn items_are(b: Seq<u8>, items: Seq<Item>, ps: Seq<PageItem>) -> bool {
    &&& items.len() == ps.len()
    &&& forall|k: int| 0 <= k < ps.len() ==> item_is(b, #[trigger] items[k], ps[k])
}

/// The page item `p` lies inside `b`, nonempty, cut at character boundaries.
pub open spec fn cut_ok(b: Seq<u8>, p: PageItem) -> bool {
    &&& 0 <= p.1 < p.2 <= b.len()
    &&& is_char_boundary(b, p.1) && is_char_boundary(b, p.2)
}

proof fn lemma_parsed_items_cut(b: Seq<u8>, fs: Seq<Parsed>)
    requires
        forall|k: int| 0 <= k < fs.len() ==> 0 <= (#[trigger] fs[k]).1 && 0 <= fs[k].2,
    ensures
        forall|k: int| 0 <= k < parsed_items(b, fs).len() ==> cut_ok(b, #[trigger] parsed_items(b, fs)[k]),
    decreases fs.len(),
{
    if fs.len() > 0 {
        let d = fs.drop_last();
        assert forall|k: int| 0 <= k < d.len() implies 0 <= (#[trigger] d[k]).1 && 0 <= d[k].2 by {
            assert(d[k] == fs[k]);
        }
        lemma_parsed_items_cut(b, d);
        assert(fs[fs.len() - 1] == fs.last());
        let rest = parsed_items(b, d);
        let all = parsed_items(b, fs);
        assert forall|k: int| 0 <= k < all.len() implies cut_ok(b, #[trigger] all[k]) by {
            if k < rest.len() {
                assert(all[k] == rest[k]);
            }
        }
    }
}

fn comment_close_at(b: &[u8], from: usize) -> (r: Option<usize>)
    ensures
        match r {
            Some(e) => comment_close(b@, from as int) == Some(e as int) && e + 1 < b@.len(),
            None => comment_close(b@, from as int) is None,
        },
{
    let n = b.len();
    let mut j = from;
    while j < n && n - j >= 2
        invariant
            from <= j,
            n == b@.len(),
            comment_close(b@, j as int) == comment_close(b@, from as int),
        decreases n - j,
    {
        if b[j] == 42 && b[j + 1] == 47 {
            return Some(j);
        }
        j += 1;
    }
    None
}

/// Steps `i` over a comment starting there; `false`, leaving `i`, when none does.
fn skip_comment(b: &[u8], i: &mut usize) -> (r: bool)
    requires
        *old(i) < b@.len(),
    ensures
        r == comment_end(b@, *old(i) as int) is Some,
        r ==> *final(i) as int == comment_end(b@, *old(i) as int).unwrap(),
        !r ==> *final(i) == *old(i),
{
    let n = b.len();
    let at = *i;
    if n - at >= 2 && b[at] == 47 && b[at + 1] == 47 {
        match find_byte_at(b, 10, at) {
            Some(nl) => *i = nl + 1,
            None => *i = n,
        }
        return true;
    }
    if n - at >= 2 && b[at] == 47 && b[at + 1] == 42 {
        match comment_close_at(b, at + 2) {
            Some(e) => *i = e + 2,
            None => *i = n,
        }
        return true;
    }
    false
}

/// Steps `i` over a quoted literal starting there; `false`, leaving `i`, when none does.
fn skip_string(b: &[u8], i: &mut usize) -> (r: bool)
    requires
        *old(i) < b@.len(),
    ensures
        r == string_end(b@, *old(i) as int) is Some,
        r ==> *final(i) as int == string_end(b@, *old(i) as int).unwrap(),
        !r ==> *final(i) == *old(i),
{
    let n = b.len();
    let at = *i;
    let q = b[at];
    if q != 34 && q != 39 {
        return false;
    }
    let mut j = at + 1;
    while j < n
        invariant
            at < j <= n,
            n == b@.len(),
            q == b@[at as int],
            q == 34 || q == 39,
            at == *old(i),
            *i == at,
            string_close(b@, j as int, q) == string_close(b@, at + 1, q),
        decreases n - j,
    {
        if b[j] == 92 {
            if n - j <= 2 {
                assert(string_close(b@, j + 2, q) == n);
                assert(string_close(b@, n as int, q) == n);
                j = n;
            } else {
                j = j + 2;
            }
            continue;
        }
        if b[j] == q {
            *i = j + 1;
            return true;
        }
        j += 1;
    }
    *i = n;
    true
}

/// Matches the `{` at `open`: the index of the brace that closes it.
fn match_brace(source: &str, b: &[u8], open: usize) -> (r: Option<usize>)
    requires
        b@ == source.spec_bytes(),
        open < b@.len(),
        b@[open as int] == 123,
    ensures
        match r {
            Some(c) => close_of(b@, open as int, 0) == Some(c as int),
            None => close_of(b@, open as int, 0) is None,
        },
{
    proof {
        vstd::utf8::encode_utf8_valid_utf8(source@);
        lemma_ascii_boundaries(b@, open as int);
    }
    let n = b.len();
    let mut depth: usize = 0;
    let mut i = open;
    while i < n
        invariant
            open <= i <= n,
            n == b@.len(),
            depth <= i,
            (i == open && depth == 0) || (i > open && depth >= 1),
            b@[open as int] == 123,
            b@ == source.spec_bytes(),
            is_char_boundary(b@, open as int),
            close_of(b@, i as int, depth as int) == close_of(b@, open as int, 0),
        decreases n - i,
    {
        if !source.is_char_boundary(i) {
            i += 1;
            continue;
        }
        let at = i;
        proof {
            lemma_comment_end(b@, at as int);
            lemma_string_end(b@, at as int);
        }
        if skip_comment(b, &mut i) {
            continue;
        }
        if skip_string(b, &mut i) {
            continue;
        }
        if b[i] == 123 {
            depth += 1;
        } else if b[i] == 125 {
            if depth == 1 {
                return Some(i);
            }
            depth = depth - 1;
        }
        i += 1;
    }
    None
}

/// The end of the text of the line starting at `j`.
fn line_end_at(b: &[u8], j: usize) -> (hi: usize)
    requires
        j < b@.len(),
    ensures
        hi == line_end(b@, j as int),
{
    match find_byte_at(b, 10, j) {
        Some(nl) => if nl > j && b[nl - 1] == 13 {
            nl - 1
        } else {
            nl
        },
        None => b.len(),
    }
}

/// Whether the line `b[j..hi]` belongs to a `where` block.
fn continues_block(b: &[u8], j: usize, hi: usize) -> (r: bool)
    requires
        j <= hi <= b@.len(),
    ensures
        r == line_continues(b@, j as int, hi as int),
{
    let t = skip_ws_in(b, j, hi);
    proof {
        lemma_skip_ws_to(b@, j as int, hi as int);
    }
    if t == hi {
        return true;
    }
    if j < hi && (b[j] == 32 || b[j] == 9) {
        return true;
    }
    if t < hi && b[t] == 125 && skip_ws_in(b, t + 1, hi) == hi {
        return true;
    }
    hi - t >= 2 && b[t] == 47 && b[t + 1] == 47
}

/// Steps `i` over a `where` block opening there: `Some(true)` then; `Some(false)`, leaving
/// `i`, when none opens there; `None` when the walk over the block's lines stops advancing.
fn skip_where_block(b: &[u8], i: &mut usize) -> (r: Option<bool>)
    requires
        *old(i) < b@.len(),
    ensures
        match r {
            Some(true) => where_start(b@, *old(i) as int) && where_end(b@, *old(i) as int) is Some
                && *final(i) as int == where_end(
                b@,
                *old(i) as int,
            ).unwrap(),
            Some(false) => !where_start(b@, *old(i) as int) && *final(i) == *old(i),
            None => where_start(b@, *old(i) as int) && where_end(b@, *old(i) as int) is None,
        },
{
    let n = b.len();
    let at = *i;
    let t = skip_ws_in(b, at, n);
    proof {
        lemma_skip_ws_to(b@, at as int, n as int);
    }
    let colon = "where:".as_bytes();
    let brace = "where {".as_bytes();
    let bare = "where".as_bytes();
    let head = (n - t >= colon.len() && range_eq(b, t, t + colon.len(), colon)) || (n - t
        >= brace.len() && range_eq(b, t, t + brace.len(), brace)) || range_eq(b, t, n, bare);
    if !head {
        return Some(false);
    }
    if t > at && at > 0 && b[at - 1] != 10 {
        return Some(false);
    }
    let mut j = match find_byte_at(b, 10, t) {
        Some(nl) => nl + 1,
        None => {
            *i = n;
            return Some(true);
        },
    };
    let ghost first = j;
    proof {
        lemma_where_end(b@, at as int);
    }
    assert(where_start(b@, at as int));
    assert(where_end(b@, at as int) == where_lines(b@, first as int));
    while j < n
        invariant
            first <= j <= n,
            n == b@.len(),
            at == *old(i),
            at < n,
            where_start(b@, at as int),
            where_end(b@, at as int) == where_lines(b@, first as int),
            where_lines(b@, j as int) == where_lines(b@, first as int),
        decreases n - j,
    {
        let hi = line_end_at(b, j);
        proof {
            lemma_line_end(b@, j as int);
        }
        if !continues_block(b, j, hi) {
            *i = j;
            return Some(true);
        }
        let k = if hi < n && b[hi] == 10 {
            hi + 1
        } else {
            hi
        };
        if k <= j {
            return None;
        }
        j = k;
    }
    *i = j;
    Some(true)
}

/// Whether a top-level `fn` keyword starts at `i`.
fn is_fn_start(b: &[u8], i: usize) -> (r: bool)
    requires
        i <= b@.len(),
    ensures
        r == fn_start(b@, i as int),
{
    b.len() - i > 2 && b[i] == 102 && b[i + 1] == 110 && (i == 0 || ws_before(b, i) > 0) && (
    ws_at(b, i + 2) > 0 || b[i + 2] == 95)
}

/// The item whose `fn` keyword is at `start`, if a name, a body and its closing brace
/// follow.
fn parse_fn(source: &str, b: &[u8], start: usize) -> (r: Option<Item>)
    requires
        b@ == source.spec_bytes(),
        start + 2 < b@.len(),
        is_char_boundary(b@, start as int),
    ensures
        match r {
            Some(it) => fn_at(b@, start as int) matches Some(sp) && item_matches(
                b@,
                it,
                sp,
            ),
            None => fn_at(b@, start as int) is None,
        },
{
    let n = b.len();
    let lo = skip_ws_in(b, start + 2, n);
    proof {
        lemma_skip_ws_to(b@, start + 2, n as int);
        lemma_fn_at(b@, start as int);
    }
    if !(lo < n && (alpha(b[lo]) || b[lo] == 95)) {
        return None;
    }
    let hi = scan_ident_bytes(b, lo + 1);
    let open = match find_byte_at(b, 123, hi) {
        Some(o) => o,
        None => return None,
    };
    let c = match match_brace(source, b, open) {
        Some(c) => c,
        None => return None,
    };
    let end = c + 1;
    proof {
        vstd::utf8::encode_utf8_valid_utf8(source@);
        lemma_ascii_boundaries(b@, lo as int);
        lemma_ascii_boundaries(b@, hi - 1);
        lemma_ascii_boundaries(b@, c as int);
    }
    let name = substr(source, lo, hi).to_owned();
    let text = substr(source, start, end).to_owned();
    Some(Item { name, start, end, source: text })
}

/// The brace matcher's top-level functions of `source`, in order: each `fn` at brace depth
/// zero, outside comments, literals and `where` blocks, with a name and a braced body.
fn extract_braces(source: &str) -> (r: Option<Vec<Item>>)
    ensures
        match r {
            Some(items) => brace_spans(source.spec_bytes()) is Some && items_match(
                source.spec_bytes(),
                items@,
                brace_spans(source.spec_bytes()).unwrap(),
            ),
            None => brace_spans(source.spec_bytes()) is None,
        },
{
    let b = source.as_bytes();
    let n = b.len();
    let mut items: Vec<Item> = Vec::new();
    let mut depth: usize = 0;
    let mut i: usize = 0;
    let ghost mut acc: Seq<Span> = seq![];
    while i < n
        invariant
            b@ == source.spec_bytes(),
            n == b@.len(),
            i <= n,
            depth <= i,
            scan(b@, i as int, depth as int, acc) == brace_spans(b@),
            items_match(b@, items@, acc),
        decreases n - i,
    {
        if !source.is_char_boundary(i) {
            i += 1;
            continue;
        }
        let at = i;
        proof {
            lemma_comment_end(b@, at as int);
            lemma_string_end(b@, at as int);
        }
        if skip_comment(b, &mut i) {
            continue;
        }
        if skip_string(b, &mut i) {
            continue;
        }
        let ch = b[i];
        if ch == 123 {
            depth += 1;
            i += 1;
            continue;
        }
        if ch == 125 {
            depth = if depth > 0 {
                depth - 1
            } else {
                0
            };
            i += 1;
            continue;
        }
        if depth == 0 {
            proof {
                lemma_where_end(b@, at as int);
            }
            let stepped = skip_where_block(b, &mut i);
            match stepped {
                None => return None,
                Some(over) => if over {
                    continue;
                },
            }
        }
        if depth == 0 && is_fn_start(b, i) {
            proof {
                lemma_fn_at(b@, at as int);
            }
            match parse_fn(source, b, i) {
                Some(item) => {
                    let ghost sp = fn_at(b@, at as int).unwrap();
                    proof {
                        acc = acc.push(sp);
                    }
                    i = item.end;
                    items.push(item);
                    continue;
                },
                None => {},
            }
        }
        i += 1;
    }
    Some(items)
}

/// The functions a page's parse found, as items: each span clamped to the page, skipped
/// when empty or not cut at character boundaries.
fn items_from_parse(source: &str, fns: &[(String, usize, usize)]) -> (items: Vec<Item>)
    ensures
        items_are(
            source.spec_bytes(),
            items@,
            parsed_items(source.spec_bytes(), parsed_view(Some(fns)).unwrap()),
        ),
{
    let ghost b = source.spec_bytes();
    let ghost fv = parsed_view(Some(fns)).unwrap();
    let n = source.as_bytes().len();
    let mut items: Vec<Item> = Vec::new();
    let mut k: usize = 0;
    while k < fns.len()
        invariant
            k <= fns@.len(),
            b == source.spec_bytes(),
            n == b.len(),
            fv == parsed_view(Some(fns)).unwrap(),
            items_are(b, items@, parsed_items(b, fv.take(k as int))),
        decreases fns@.len() - k,
    {
        let (name, s0, e0) = (&fns[k].0, fns[k].1, fns[k].2);
        proof {
            assert(fv.take(k + 1).drop_last() =~= fv.take(k as int));
            assert(fv.take(k + 1).last() == (name@, s0 as int, e0 as int));
        }
        let lo = if s0 < n { s0 } else { n };
        let hi = if e0 < n { e0 } else { n };
        if lo < hi && source.is_char_boundary(lo) && source.is_char_boundary(hi) {
            let text = substr(source, lo, hi).to_owned();
            items.push(Item { name: name.clone(), start: lo, end: hi, source: text });
            proof {
                let ps = parsed_items(b, fv.take(k + 1));
                assert(ps == parsed_items(b, fv.take(k as int)).push((name@, lo as int, hi as int)));
                assert forall|j: int| 0 <= j < ps.len() implies item_is(b, #[trigger] items@[j], ps[j]) by {
                    if j < k {
                    }
                }
            }
        }
        k += 1;
    }
    assert(fv.take(fns@.len() as int) =~= fv);
    items
}

/// The top-level functions of `source`, in order, when the page can be read: from its
/// parse when it parses (`parsed`: each function's name and byte span as the parser gives
/// them), else from the brace matcher; `None` when neither gets through the page (the brace
/// matcher's walk over a `where` block stops advancing).
pub fn try_extract(source: &str, parsed: Option<&[(String, usize, usize)]>) -> (r: Option<Vec<Item>>)
    ensures
        r is Some <==> page_ok(source.spec_bytes(), parsed_view(parsed)),
        r matches Some(items) ==> items_are(
            source.spec_bytes(),
            items@,
            page_items(source.spec_bytes(), parsed_view(parsed)),
        ),
{
    match parsed {
        Some(fns) => Some(items_from_parse(source, fns)),
        None => match extract_braces(source) {
            Some(items) => {
                let ghost b = source.spec_bytes();
                proof {
                    let sps = brace_spans(b).unwrap();
                    assert forall|k: int| 0 <= k < sps.len() implies item_is(
                        b,
                        #[trigger] items@[k],
                        brace_items(b, sps)[k],
                    ) by {
                        assert(item_matches(b, items@[k], sps[k]));
                    }
                }
                Some(items)
            },
            None => None,
        },
    }
}

/// The top-level functions of `source`, in order: from its parse when it parses
/// (`parsed`: each function's name and byte span as the parser gives them), else from the
/// brace matcher, which steps over what it cannot match (an unclosed body, a character it
/// does not know), keeping the functions it did close.
pub fn extract(source: &str, parsed: Option<&[(String, usize, usize)]>) -> (items: Vec<Item>)
    requires
        page_ok(source.spec_bytes(), parsed_view(parsed)),
    ensures
        items_are(source.spec_bytes(), items@, page_items(source.spec_bytes(), parsed_view(parsed))),
{
    match try_extract(source, parsed) {
        Some(items) => items,
        None => Vec::new(),
    }
}

/// The line, counted from 1, on which byte `start` of `b` falls (the last line when
/// `start` is past the end).
pub open spec fn line_at(b: Seq<u8>, start: int) -> int {
    newlines(b.subrange(0, clamp(start, b.len() as int))) + 1int
}

/// `k`, or `n` when `k` is past it.
pub open spec fn clamp(k: int, n: int) -> int {
    if k < n {
        k
    } else {
        n
    }
}

/// How many lines `str::lines` yields for the text with bytes `b`.
pub open spec fn line_count(b: Seq<u8>) -> int {
    newlines(b) as int + if b.len() > 0 && b.last() != 10 {
        1int
    } else {
        0int
    }
}

pub proof fn lemma_line_count(b: Seq<u8>)
    ensures
        0 <= line_count(b) <= b.len(),
{
    lemma_newlines_bound(b);
    if b.len() > 0 {
        lemma_newlines_bound(b.drop_last());
    }
}

/// How many characters the bytes `b[..k]` hold.
pub open spec fn chars_before(b: Seq<u8>, k: int) -> int {
    text_of(b.subrange(0, k)).len() as int
}

/// The character offsets `(lo, hi)` in `b` of the bytes `start..end`: `lo` is 0 unless
/// `start` falls in `b` and begins a character; `hi` is the length of `b` in characters
/// unless `end`, clamped to `b`, begins one.
pub open spec fn char_offsets(b: Seq<u8>, start: int, end: int) -> (int, int) {
    let e = clamp(end, b.len() as int);
    (
        if 0 <= start <= b.len() && is_char_boundary(b, start) {
            chars_before(b, start)
        } else {
            0
        },
        if is_char_boundary(b, e) {
            chars_before(b, e)
        } else {
            text_of(b).len() as int
        },
    )
}

impl Item {
    /// The bytes of the item's text.
    pub open spec fn text_bytes(self) -> Seq<u8> {
        encode_utf8(self.source@)
    }

    /// The item's height in lines; never less than one.
    pub open spec fn height(self) -> int {
        if line_count(self.text_bytes()) > 1 {
            line_count(self.text_bytes())
        } else {
            1
        }
    }

    /// The lines `(first, last)` the item covers in `b`, counted from 1.
    pub open spec fn lines_in(self, b: Seq<u8>) -> (int, int) {
        (line_at(b, self.start as int), line_at(b, self.start as int) + self.height() - 1)
    }

    /// The item's start, where it falls in the page `b`, begins a character, and the
    /// page's line numbers fit in a `usize`.
    pub open spec fn starts_in(self, b: Seq<u8>) -> bool {
        &&& is_char_boundary(b, clamp(self.start as int, b.len() as int))
        &&& b.len() < usize::MAX
    }

    /// As `starts_in`, and the item's last line number in `b` fits in a `usize` too.
    pub open spec fn fits(self, b: Seq<u8>) -> bool {
        &&& self.starts_in(b)
        &&& b.len() + self.text_bytes().len() < usize::MAX
    }

    /// The item's character offsets in `b`.
    pub open spec fn chars_in(self, b: Seq<u8>) -> (int, int) {
        char_offsets(b, self.start as int, self.end as int)
    }

    /// An item whose byte span is unknown; `apply_item` looks its name up again.
    pub fn named(name: &str, source: &str) -> (it: Item)
        ensures
            it.name@ == name@,
            it.source@ == source@,
            it.start == 0,
            it.end == 0,
    {
        Item { name: name.to_owned(), start: 0, end: 0, source: source.to_owned() }
    }

    /// The line, counted from 1, on which the item starts in `source`.
    pub fn line(&self, source: &str) -> (r: usize)
        requires
            self.starts_in(source.spec_bytes()),
        ensures
            r == line_at(source.spec_bytes(), self.start as int),
    {
        let b = source.as_bytes();
        let k = if self.start < b.len() {
            self.start
        } else {
            b.len()
        };
        proof {
            lemma_newlines_bound(b@.subrange(0, k as int));
        }
        count_newlines(b, k) + 1
    }

    /// Whether byte offset `byte` falls inside the item.
    pub fn contains_byte(&self, byte: usize) -> (r: bool)
        ensures
            r == (self.start <= byte < self.end),
    {
        byte >= self.start && byte < self.end
    }

    /// How many lines the item's text spans; at least one.
    pub fn n_lines(&self) -> (r: usize)
        ensures
            r == self.height(),
    {
        let b = self.source.as_str().as_bytes();
        let nl = count_newlines(b, b.len());
        proof {
            assert(b@.subrange(0, b@.len() as int) =~= b@);
            lemma_line_count(b@);
        }
        let n = if b.len() > 0 && b[b.len() - 1] != 10 {
            nl + 1
        } else {
            nl
        };
        if n > 1 {
            n
        } else {
            1
        }
    }

    /// The first and last line, counted from 1, that the item covers in `source`.
    pub fn line_span(&self, source: &str) -> (r: (usize, usize))
        requires
            self.fits(source.spec_bytes()),
        ensures
            r.0 == self.lines_in(source.spec_bytes()).0,
            r.1 == self.lines_in(source.spec_bytes()).1,
    {
        let start = self.line(source);
        let n = self.n_lines();
        proof {
            let b = source.spec_bytes();
            lemma_newlines_bound(b.subrange(0, clamp(self.start as int, b.len() as int)));
            lemma_line_count(self.text_bytes());
        }
        (start, start + (n - 1))
    }

    /// Whether line `line` of `source`, counted from 1, falls inside the item.
    pub fn contains_line(&self, source: &str, line: usize) -> (r: bool)
        requires
            self.fits(source.spec_bytes()),
        ensures
            r == (self.lines_in(source.spec_bytes()).0 <= line <= self.lines_in(
                source.spec_bytes(),
            ).1),
    {
        let (lo, hi) = self.line_span(source);
        line >= lo && line <= hi
    }

    /// The item's character offsets in `source`, start inclusive, end exclusive.
    pub fn char_span(&self, source: &str) -> (r: (usize, usize))
        ensures
            r.0 == self.chars_in(source.spec_bytes()).0,
            r.1 == self.chars_in(source.spec_bytes()).1,
    {
        let b = source.as_bytes();
        proof {
            vstd::utf8::encode_utf8_valid_utf8(source@);
            vstd::utf8::is_char_boundary_start_end_of_seq(b@);
        }
        let lo = if self.start <= b.len() && source.is_char_boundary(self.start) {
            substr(source, 0, self.start).unicode_len()
        } else {
            0
        };
        let e = if self.end < b.len() {
            self.end
        } else {
            b.len()
        };
        let hi = if source.is_char_boundary(e) {
            substr(source, 0, e).unicode_len()
        } else {
            proof {
                vstd::utf8::encode_utf8_decode_utf8(source@);
            }
            source.unicode_len()
        };
        (lo, hi)
    }

    /// The item's length in bytes.
    pub fn byte_len(&self) -> (r: usize)
        ensures
            r == if self.end >= self.start {
                self.end - self.start
            } else {
                0
            },
    {
        self.end.saturating_sub(self.start)
    }
}

/// `s` holds `name` directly followed by `(`: a call of `name`, as a text search sees it.
pub open spec fn mentions_call(s: Seq<u8>, name: Seq<u8>) -> bool {
    exists|k: int| starts_at(s, k, name.push(40))
}

/// Whether `s` holds `name` directly followed by `(`.
fn calls_in(s: &[u8], name: &[u8]) -> (r: bool)
    ensures
        r == mentions_call(s@, name@),
{
    let m = name.len();
    let ghost pat = name@.push(40);
    if s.len() <= m {
        proof {
            assert forall|k: int| !starts_at(s@, k, pat) by {}
        }
        return false;
    }
    let mut k: usize = 0;
    while k < s.len() - m
        invariant
            m == name@.len(),
            pat == name@.push(40),
            m < s@.len(),
            k <= s@.len() - m,
            forall|j: int| 0 <= j < k ==> !starts_at(s@, j, pat),
        decreases s@.len() - m - k,
    {
        proof {
            assert(s@.subrange(k as int, k + m + 1) =~= s@.subrange(k as int, k + m as int).push(
                s@[k + m],
            ));
        }
        if range_eq(s, k, k + m, name) && s[k + m] == 40 {
            assert(starts_at(s@, k as int, pat));
            return true;
        }
        proof {
            if starts_at(s@, k as int, pat) {
                assert(s@.subrange(k as int, k + m + 1).drop_last() =~= s@.subrange(
                    k as int,
                    k + m as int,
                ));
                assert(pat.drop_last() =~= name@);
                assert(s@.subrange(k as int, k + m + 1)[m as int] == pat[m as int]);
            }
        }
        k += 1;
    }
    proof {
        assert forall|j: int| !starts_at(s@, j, pat) by {
            if 0 <= j < k {
            }
        }
    }
    false
}

/// The first index in `i..n` that satisfies `p`.
pub open spec fn first_at(p: spec_fn(int) -> bool, i: int, n: int) -> Option<int>
    decreases n - i,
{
    if i < 0 || i >= n {
        None
    } else if p(i) {
        Some(i)
    } else {
        first_at(p, i + 1, n)
    }
}

pub proof fn lemma_first_at(p: spec_fn(int) -> bool, i: int, n: int)
    requires
        0 <= i,
    ensures
        match first_at(p, i, n) {
            Some(k) => i <= k < n && p(k) && forall|j: int| i <= j < k ==> !#[trigger] p(j),
            None => forall|j: int| i <= j < n ==> !#[trigger] p(j),
        },
    decreases n - i,
{
    if i < n && !p(i) {
        lemma_first_at(p, i + 1, n);
    }
}

/// Item `k` of `items` is called `name`.
pub open spec fn has_name(items: Seq<Item>, name: Seq<char>) -> spec_fn(int) -> bool {
    |k: int| items[k].name@ == name
}

/// Item `k` of `items` holds byte offset `byte`.
pub open spec fn holds_byte(items: Seq<Item>, byte: int) -> spec_fn(int) -> bool {
    |k: int| items[k].start <= byte < items[k].end
}

/// Item `k` of `items` covers line `line` of the page `b`.
pub open spec fn holds_line(items: Seq<Item>, b: Seq<u8>, line: int) -> spec_fn(int) -> bool {
    |k: int| items[k].lines_in(b).0 <= line <= items[k].lines_in(b).1
}

/// The index of the first item of `items` called `name`.
pub open spec fn index_named(items: Seq<Item>, name: Seq<char>) -> Option<int> {
    first_at(has_name(items, name), 0, items.len() as int)
}

/// Whether an item's text refers to `name`: among `refs`, what its parse refers to; when it
/// does not parse, as a call found by text search.
pub open spec fn refers_to(text: Seq<u8>, refs: Option<Seq<Seq<char>>>, name: Seq<char>) -> bool {
    match refs {
        Some(v) => v.contains(name),
        None => mentions_call(text, encode_utf8(name)),
    }
}

/// What the parse of each item refers to, as the contracts see it.
pub open spec fn refs_view(v: Seq<Option<Expr>>) -> Seq<Option<Seq<Seq<char>>>> {
    v.map_values(
        |r: Option<Expr>|
            match r {
                Some(e) => Some(expr_refs_spec(e)),
                None => None,
            },
    )
}

impl Item {
    /// The item's summary line: name, first line in `b`, and byte span.
    pub open spec fn overlay_text(self, b: Seq<u8>) -> Seq<char> {
        self.name@ + "  L"@ + dec(line_at(b, self.start as int) as nat) + "  ["@ + dec(
            self.start as nat,
        ) + ".."@ + dec(self.end as nat) + "]"@
    }

    /// Whether the item refers to `name`: when its text parsed (`body`), whether the
    /// reference walk of the parse finds `name` (a call, a value, a member name; never text
    /// inside a string literal or a comment); when it does not parse (`None`), whether `name`
    /// occurs as a call (`name` directly followed by `(`) found by text search.
    pub fn mentions(&self, name: &str, body: Option<&Expr>) -> (r: bool)
        ensures
            r == refers_to(
                self.text_bytes(),
                match body {
                    Some(e) => Some(expr_refs_spec(*e)),
                    None => None,
                },
                name@,
            ),
    {
        match body {
            Some(e) => {
                let v = references(e);
                contains_text(v.as_slice(), name)
            },
            None => calls_in(self.source.as_str().as_bytes(), name.as_bytes()),
        }
    }

    /// `name  L<line>  [<start>..<end>]`.
    pub fn overlay_line(&self, source: &str) -> (r: String)
        requires
            self.starts_in(source.spec_bytes()),
        ensures
            r@ == self.overlay_text(source.spec_bytes()),
    {
        let mut r = String::new();
        r.append(self.name.as_str());
        r.append("  L");
        push_dec(&mut r, self.line(source));
        r.append("  [");
        push_dec(&mut r, self.start);
        r.append("..");
        push_dec(&mut r, self.end);
        r.append("]");
        r
    }

    /// The item's name, height, byte length and line span, one per line.
    pub fn counts_overlay(&self, source: &str) -> (r: String)
        requires
            self.fits(source.spec_bytes()),
        ensures
            r@ == "name      "@ + self.name@ + "\nlines     "@ + dec(self.height() as nat)
                + "\nbytes     "@ + dec(
                if self.end >= self.start {
                    (self.end - self.start) as nat
                } else {
                    0nat
                },
            ) + "\nspan      L"@ + dec(self.lines_in(source.spec_bytes()).0 as nat) + "-L"@
                + dec(self.lines_in(source.spec_bytes()).1 as nat),
    {
        let (lo, hi) = self.line_span(source);
        let mut r = String::new();
        r.append("name      ");
        r.append(self.name.as_str());
        r.append("\nlines     ");
        push_dec(&mut r, self.n_lines());
        r.append("\nbytes     ");
        push_dec(&mut r, self.byte_len());
        r.append("\nspan      L");
        push_dec(&mut r, lo);
        r.append("-L");
        push_dec(&mut r, hi);
        r
    }
}

/// The first item called `name`.
pub fn named<'a>(items: &'a [Item], name: &str) -> (r: Option<&'a Item>)
    ensures
        match r {
            Some(it) => index_named(items@, name@) matches Some(k) && *it == items@[k],
            None => index_named(items@, name@) is None,
        },
{
    let mut k: usize = 0;
    while k < items.len()
        invariant
            k <= items@.len(),
            first_at(has_name(items@, name@), k as int, items@.len() as int) == index_named(
                items@,
                name@,
            ),
        decreases items@.len() - k,
    {
        if same_text(items[k].name.as_str(), name) {
            return Some(&items[k]);
        }
        k += 1;
    }
    None
}

/// The names of `items`, in order.
pub fn names<'a>(items: &'a [Item]) -> (r: Vec<&'a str>)
    ensures
        r@.len() == items@.len(),
        forall|k: int| 0 <= k < items@.len() ==> (#[trigger] r@[k])@ == items@[k].name@,
{
    let mut r: Vec<&'a str> = Vec::new();
    let mut k: usize = 0;
    while k < items.len()
        invariant
            k <= items@.len(),
            r@.len() == k,
            forall|j: int| 0 <= j < k ==> (#[trigger] r@[j])@ == items@[j].name@,
        decreases items@.len() - k,
    {
        r.push(items[k].name.as_str());
        k += 1;
    }
    r
}

/// The first item that holds byte offset `byte`.
pub fn at_byte<'a>(items: &'a [Item], byte: usize) -> (r: Option<&'a Item>)
    ensures
        match r {
            Some(it) => first_at(holds_byte(items@, byte as int), 0, items@.len() as int) matches Some(
                k,
            ) && *it == items@[k],
            None => first_at(holds_byte(items@, byte as int), 0, items@.len() as int) is None,
        },
{
    let mut k: usize = 0;
    while k < items.len()
        invariant
            k <= items@.len(),
            first_at(holds_byte(items@, byte as int), k as int, items@.len() as int) == first_at(
                holds_byte(items@, byte as int),
                0,
                items@.len() as int,
            ),
        decreases items@.len() - k,
    {
        if items[k].contains_byte(byte) {
            return Some(&items[k]);
        }
        k += 1;
    }
    None
}

/// The first item that covers line `line` of `source`.
pub fn at_line<'a>(items: &'a [Item], source: &str, line: usize) -> (r: Option<&'a Item>)
    requires
        forall|k: int| 0 <= k < items@.len() ==> (#[trigger] items@[k]).fits(source.spec_bytes()),
    ensures
        match r {
            Some(it) => first_at(
                holds_line(items@, source.spec_bytes(), line as int),
                0,
                items@.len() as int,
            ) matches Some(k) && *it == items@[k],
            None => first_at(
                holds_line(items@, source.spec_bytes(), line as int),
                0,
                items@.len() as int,
            ) is None,
        },
{
    let mut k: usize = 0;
    while k < items.len()
        invariant
            k <= items@.len(),
            forall|j: int| 0 <= j < items@.len() ==> (#[trigger] items@[j]).fits(source.spec_bytes()),
            first_at(holds_line(items@, source.spec_bytes(), line as int), k as int, items@.len() as int)
                == first_at(
                holds_line(items@, source.spec_bytes(), line as int),
                0,
                items@.len() as int,
            ),
        decreases items@.len() - k,
    {
        if items[k].contains_line(source, line) {
            return Some(&items[k]);
        }
        k += 1;
    }
    None
}

/// `base_n`.
pub open spec fn suffixed(base: Seq<char>, n: nat) -> Seq<char> {
    base + "_"@ + dec(n)
}

/// The first free `base_n` for `n` from `n` up to 9999, else `base_<items + 1>`.
pub open spec fn free_suffix(items: Seq<Item>, base: Seq<char>, n: int) -> Seq<char>
    decreases 10000 - n,
{
    if n < 0 || n >= 10000 {
        suffixed(base, (items.len() + 1) as nat)
    } else if index_named(items, suffixed(base, n as nat)) is None {
        suffixed(base, n as nat)
    } else {
        free_suffix(items, base, n + 1)
    }
}

/// `base` when no item has that name, else the first free `base_2`, `base_3`, ….
pub open spec fn unique_spec(items: Seq<Item>, base: Seq<char>) -> Seq<char> {
    if index_named(items, base) is None {
        base
    } else {
        free_suffix(items, base, 2)
    }
}

/// A name no item of `items` has: `base` itself when free, else `base_2`, `base_3`, …
/// up to `base_9999`, and past those `base_` followed by one more than the item count.
pub fn unique_name(items: &[Item], base: &str) -> (r: String)
    requires
        items@.len() < usize::MAX,
    ensures
        r@ == unique_spec(items@, base@),
        items@.len() <= 9998 ==> index_named(items@, r@) is None,
{
    proof {
        if items@.len() <= 9998 {
            lemma_unique_name_is_free_on_short_lists(items@, base@);
        }
    }
    if named(items, base).is_none() {
        return base.to_owned();
    }
    let mut n: usize = 2;
    while n < 10000
        invariant
            2 <= n <= 10000,
            index_named(items@, base@) is Some,
            items@.len() < usize::MAX,
            free_suffix(items@, base@, n as int) == free_suffix(items@, base@, 2),
        decreases 10000 - n,
    {
        let mut candidate = String::new();
        candidate.append(base);
        candidate.append("_");
        push_dec(&mut candidate, n);
        assert(candidate@ =~= suffixed(base@, n as nat));
        if named(items, candidate.as_str()).is_none() {
            return candidate;
        }
        n += 1;
    }
    let mut last = String::new();
    last.append(base);
    last.append("_");
    push_dec(&mut last, items.len() + 1);
    assert(last@ =~= suffixed(base@, (items@.len() + 1) as nat));
    last
}

/// A free name for a copy of `name`: `unique_name` of `name_copy`.
pub fn unique_copy_name(items: &[Item], name: &str) -> (r: String)
    requires
        items@.len() < usize::MAX,
    ensures
        r@ == unique_spec(items@, name@ + "_copy"@),
{
    let mut base = String::new();
    base.append(name);
    base.append("_copy");
    assert(base@ =~= name@ + "_copy"@);
    unique_name(items, base.as_str())
}


/// Page item `k` of `ps` is called `name`.
pub open spec fn page_named(ps: Seq<PageItem>, name: Seq<char>) -> spec_fn(int) -> bool {
    |k: int| ps[k].0 == name
}

/// `lit` occurs in `b` at position `k`.
pub open spec fn occurs_at(b: Seq<u8>, lit: Seq<u8>) -> spec_fn(int) -> bool {
    |k: int| starts_at(b, k, lit)
}

/// The bytes of `fn ` followed by `old`: the header `rename_fn` rewrites.
pub open spec fn fn_header(old: Seq<u8>) -> Seq<u8> {
    seq![102u8, 110, 32] + old
}

/// `b` with its first `fn old` made `fn new`; unchanged when it holds none.
pub open spec fn renamed(b: Seq<u8>, old: Seq<u8>, new: Seq<char>) -> Seq<char> {
    match first_at(occurs_at(b, fn_header(old)), 0, b.len() + 1int) {
        Some(k) => text_of(b.subrange(0, k)) + "fn "@ + new + text_of(
            b.subrange(k + 3 + old.len(), b.len() as int),
        ),
        None => text_of(b),
    }
}

/// Rewrites the first `fn old` of `source` to `fn new`.
pub fn rename_fn(source: &str, old: &str, new: &str) -> (r: String)
    ensures
        r@ == renamed(source.spec_bytes(), old.spec_bytes(), new@),
{
    let b = source.as_bytes();
    let o = old.as_bytes();
    let n = b.len();
    let m = o.len();
    let ghost p = fn_header(o@);
    proof {
        vstd::utf8::encode_utf8_valid_utf8(source@);
        vstd::utf8::encode_utf8_valid_utf8(old@);
        vstd::utf8::encode_utf8_decode_utf8(source@);
    }
    let mut k: usize = 0;
    while k < n
        invariant
            k <= n,
            n == b@.len(),
            m == o@.len(),
            b@ == source.spec_bytes(),
            o@ == old.spec_bytes(),
            p == fn_header(o@),
            valid_utf8(b@),
            valid_utf8(o@),
            first_at(occurs_at(b@, p), k as int, n + 1int) == first_at(occurs_at(b@, p), 0, n + 1int),
        decreases n - k,
    {
        let fits = n - k >= 3 && m <= n - k - 3;
        if fits && b[k] == 102 && b[k + 1] == 110 && b[k + 2] == 32 && range_eq(
            b,
            k + 3,
            k + 3 + m,
            o,
        ) {
            proof {
                assert(b@.subrange(k as int, k + 3 + m) =~= p);
                vstd::utf8::is_char_boundary_start_end_of_seq(b@);
                vstd::utf8::is_char_boundary_iff_not_is_continuation_byte(b@, k as int);
                lemma_ascii_boundaries(b@, k + 2);
                crate::text::lemma_match_boundary(b@, k + 3, o@);
            }
            let mut r = String::new();
            r.append(substr(source, 0, k));
            r.append("fn ");
            r.append(new);
            r.append(substr(source, k + 3 + m, n));
            assert(occurs_at(b@, p)(k as int));
            return r;
        }
        proof {
            if starts_at(b@, k as int, p) {
                assert(b@.subrange(k as int, k + 3 + m)[0] == p[0]);
                assert(b@.subrange(k as int, k + 3 + m)[1] == p[1]);
                assert(b@.subrange(k as int, k + 3 + m)[2] == p[2]);
                assert(b@.subrange(k + 3, k + 3 + m) =~= o@) by {
                    assert forall|j: int| 0 <= j < m implies b@.subrange(k + 3, k + 3 + m)[j]
                        == o@[j] by {
                        assert(b@.subrange(k as int, k + 3 + m)[3 + j] == p[3 + j]);
                    }
                }
            }
        }
        k += 1;
    }
    proof {
        lemma_first_at(occurs_at(b@, p), k as int, n + 1int);
    }
    source.to_owned()
}

/// `s` with `del` characters from offset `lo` replaced by `ins`, offsets past the end
/// standing for the end.
pub open spec fn spliced(s: Seq<char>, lo: int, del: int, ins: Seq<char>) -> Seq<char> {
    s.subrange(0, clamp(lo, s.len() as int)) + ins + s.subrange(
        clamp(lo + del, s.len() as int),
        s.len() as int,
    )
}

fn splice_chars(source: &str, lo: usize, del: usize, ins: &str) -> (r: String)
    requires
        lo + del <= usize::MAX,
    ensures
        r@ == spliced(source@, lo as int, del as int, ins@),
{
    let n = source.unicode_len();
    let a = if lo < n {
        lo
    } else {
        n
    };
    let e = if lo + del < n {
        lo + del
    } else {
        n
    };
    let mut out = String::new();
    out.append(source.substring_char(0, a));
    out.append(ins);
    out.append(source.substring_char(e, n));
    out
}

/// What goes after `s` to add the item text `t` on a line of its own: a newline to end
/// `s`'s last line, a blank line, `t`, and a newline if `t` lacks one.
pub open spec fn appended_text(s: Seq<char>, t: Seq<char>) -> Seq<char> {
    (if s.len() > 0 && s.last() != '\n' {
        seq!['\n']
    } else {
        seq![]
    }) + (if s.len() > 0 {
        seq!['\n']
    } else {
        seq![]
    }) + t + (if t.len() == 0 || t.last() != '\n' {
        seq!['\n']
    } else {
        seq![]
    })
}

/// The edit that puts `item` into the page `b` (its text `s`, its functions `ps`): over the
/// function of that name when there is one, `(char offset, chars to delete, text to insert)`; else at the end.
pub open spec fn item_edit(b: Seq<u8>, ps: Seq<PageItem>, s: Seq<char>, item: Item) -> (int, int, Seq<char>) {
    match first_at(page_named(ps, item.name@), 0, ps.len() as int) {
        Some(k) => {
            let (lo, hi) = char_offsets(b, ps[k].1, ps[k].2);
            (
                lo,
                if hi >= lo {
                    hi - lo
                } else {
                    0
                },
                item.source@,
            )
        },
        None => (s.len() as int, 0, appended_text(s, item.source@)),
    }
}

pub proof fn lemma_first_at_ext(p: spec_fn(int) -> bool, q: spec_fn(int) -> bool, i: int, n: int)
    requires
        forall|k: int| i <= k < n ==> #[trigger] p(k) == q(k),
    ensures
        first_at(p, i, n) == first_at(q, i, n),
    decreases n - i,
{
    if 0 <= i < n && !p(i) {
        lemma_first_at_ext(p, q, i + 1, n);
    }
}

/// The edit that puts `item` into `source`: replace the function of that name, or append it
/// after a blank line. Offsets count characters; the item's own offsets are not used. The
/// page's functions are found as `extract` finds them, from `parsed` when it is given.
pub fn apply_item_span(source: &str, item: &Item, parsed: Option<&[(String, usize, usize)]>) -> (r: (
    usize,
    usize,
    String,
))
    requires
        page_ok(source.spec_bytes(), parsed_view(parsed)),
    ensures
        r.0 == item_edit(source.spec_bytes(), page_items(source.spec_bytes(), parsed_view(parsed)), source@, *item).0,
        r.1 == item_edit(source.spec_bytes(), page_items(source.spec_bytes(), parsed_view(parsed)), source@, *item).1,
        r.2@ == item_edit(source.spec_bytes(), page_items(source.spec_bytes(), parsed_view(parsed)), source@, *item).2,
        r.0 + r.1 <= usize::MAX,
{
    let items = extract(source, parsed);
    let ghost b = source.spec_bytes();
    let ghost sps = page_items(b, parsed_view(parsed));
    proof {
        assert forall|k: int| 0 <= k < sps.len() implies #[trigger] has_name(items@, item.name@)(k)
            == page_named(sps, item.name@)(k) by {
            assert(item_is(b, items@[k], sps[k]));
        }
        lemma_first_at_ext(
            has_name(items@, item.name@),
            page_named(sps, item.name@),
            0,
            sps.len() as int,
        );
    }
    match named(items.as_slice(), item.name.as_str()) {
        Some(existing) => {
            let (lo, hi) = existing.char_span(source);
            proof {
                lemma_first_at(has_name(items@, item.name@), 0, items@.len() as int);
                let k = index_named(items@, item.name@).unwrap();
                assert(item_is(b, items@[k], sps[k]));
            }
            (lo, hi.saturating_sub(lo), item.source.clone())
        },
        None => {
            let mut ins = String::new();
            let n = source.unicode_len();
            proof {
                reveal_strlit("\n");
            }
            if n > 0 && source.get_char(n - 1) != '\n' {
                ins.append("\n");
            }
            if n > 0 {
                ins.append("\n");
            }
            ins.append(item.source.as_str());
            let m = item.source.as_str().unicode_len();
            if m == 0 || item.source.as_str().get_char(m - 1) != '\n' {
                ins.append("\n");
            }
            assert(ins@ =~= appended_text(source@, item.source@));
            (n, 0, ins)
        },
    }
}

/// `source` with `item` put in: over the function of that name, else appended at the end
/// (the page's functions as `extract` finds them, from `parsed` when it is given).
pub fn apply_item(source: &str, item: &Item, parsed: Option<&[(String, usize, usize)]>) -> (r: String)
    requires
        page_ok(source.spec_bytes(), parsed_view(parsed)),
    ensures
        r@ == spliced(
            source@,
            item_edit(source.spec_bytes(), page_items(source.spec_bytes(), parsed_view(parsed)), source@, *item).0,
            item_edit(source.spec_bytes(), page_items(source.spec_bytes(), parsed_view(parsed)), source@, *item).1,
            item_edit(source.spec_bytes(), page_items(source.spec_bytes(), parsed_view(parsed)), source@, *item).2,
        ),
{
    let (lo, del, ins) = apply_item_span(source, item, parsed);
    splice_chars(source, lo, del, ins.as_str())
}

/// How many top-level functions `source` holds, found as `extract` finds them.
pub fn fn_count(source: &str, parsed: Option<&[(String, usize, usize)]>) -> (r: usize)
    requires
        page_ok(source.spec_bytes(), parsed_view(parsed)),
    ensures
        r == page_items(source.spec_bytes(), parsed_view(parsed)).len(),
{
    extract(source, parsed).len()
}

/// `fns       <count>`.
pub fn fn_counts_overlay(source: &str, parsed: Option<&[(String, usize, usize)]>) -> (r: String)
    requires
        page_ok(source.spec_bytes(), parsed_view(parsed)),
    ensures
        r@ == "fns       "@ + dec(page_items(source.spec_bytes(), parsed_view(parsed)).len()),
{
    let mut r = String::new();
    r.append("fns       ");
    push_dec(&mut r, fn_count(source, parsed));
    r
}

/// `sp` is an item span of the page `b`: inside it, cut at character boundaries, its text
/// opening with `fn` and closing with `}`.
pub open spec fn span_ok(b: Seq<u8>, sp: Span) -> bool {
    &&& 0 <= sp.0 < sp.1 < sp.2 < sp.3 <= b.len()
    &&& is_char_boundary(b, sp.0) && is_char_boundary(b, sp.1) && is_char_boundary(b, sp.2)
        && is_char_boundary(b, sp.3)
    &&& b[sp.0] == 102 && b[sp.0 + 1] == 110
    &&& b[sp.3 - 1] == 125
}

/// Every span of `sps` is an item span of `b`, and each ends before the next begins.
pub open spec fn spans_in_order(b: Seq<u8>, sps: Seq<Span>) -> bool {
    &&& forall|k: int| 0 <= k < sps.len() ==> span_ok(b, #[trigger] sps[k])
    &&& forall|j: int, k: int| 0 <= j < k < sps.len() ==> #[trigger] sps[j].3 <= #[trigger] sps[k].0
}

proof fn lemma_scan_in_order(b: Seq<u8>, i: int, depth: int, acc: Seq<Span>)
    requires
        valid_utf8(b),
        0 <= i,
        spans_in_order(b, acc),
        acc.len() > 0 ==> acc.last().3 <= i,
        scan(b, i, depth, acc) is Some,
    ensures
        spans_in_order(b, scan(b, i, depth, acc).unwrap()),
    decreases b.len() - i,
{
    if i < b.len() {
        lemma_comment_end(b, i);
        lemma_string_end(b, i);
        if !is_char_boundary(b, i) {
            lemma_scan_in_order(b, i + 1, depth, acc);
        } else if comment_end(b, i) is Some {
            lemma_scan_in_order(b, comment_end(b, i).unwrap(), depth, acc);
        } else if string_end(b, i) is Some {
            lemma_scan_in_order(b, string_end(b, i).unwrap(), depth, acc);
        } else if b[i] == 123 {
            lemma_scan_in_order(b, i + 1, depth + 1, acc);
        } else if b[i] == 125 {
            lemma_scan_in_order(
                b,
                i + 1,
                if depth > 0 {
                    depth - 1
                } else {
                    0
                },
                acc,
            );
        } else if depth == 0 && where_start(b, i) {
            lemma_where_end(b, i);
            lemma_scan_in_order(b, where_end(b, i).unwrap(), depth, acc);
        } else {
            let f = if depth == 0 && fn_start(b, i) {
                fn_at(b, i)
            } else {
                None
            };
            match f {
                None => lemma_scan_in_order(b, i + 1, depth, acc),
                Some(sp) => {
                    lemma_fn_at(b, i);
                    lemma_ascii_boundaries(b, sp.1);
                    lemma_ascii_boundaries(b, sp.2 - 1);
                    lemma_ascii_boundaries(b, sp.3 - 1);
                    let acc2 = acc.push(sp);
                    assert forall|j: int, k: int| 0 <= j < k < acc2.len() implies #[trigger] acc2[j].3
                        <= #[trigger] acc2[k].0 by {
                        if k == acc.len() {
                            if j < acc.len() - 1 {
                                assert(acc[j].3 <= acc[acc.len() - 1].0);
                            }
                        }
                    }
                    lemma_scan_in_order(b, sp.3, depth, acc2);
                },
            }
        }
    }
}

/// The items the matcher finds lie inside the text, cut at character boundaries, each
/// beginning with `fn` and ending with `}`, in order and without overlap.
pub proof fn lemma_items_in_order(b: Seq<u8>)
    requires
        valid_utf8(b),
        brace_spans(b) is Some,
    ensures
        spans_in_order(b, brace_spans(b).unwrap()),
{
    lemma_scan_in_order(b, 0, 0, seq![]);
}

/// What the caller searches read of an item: its name, the bytes of its text, and where
/// it starts and ends.
pub type Entry = (Seq<char>, Seq<u8>, int, int);

/// The entries of `items`.
pub open spec fn item_entries(items: Seq<Item>) -> Seq<Entry> {
    items.map_values(|it: Item| (it.name@, it.text_bytes(), it.start as int, it.end as int))
}

/// The entries of the page items `ps` of `b`.
pub open spec fn page_entries(b: Seq<u8>, ps: Seq<PageItem>) -> Seq<Entry> {
    ps.map_values(|p: PageItem| (p.0, b.subrange(p.1, p.2), p.1, p.2))
}

/// Every function of a readable page lies inside it, cut at character boundaries.
proof fn lemma_page_items_cut(b: Seq<u8>, parsed: Option<Seq<Parsed>>)
    requires
        valid_utf8(b),
        page_ok(b, parsed),
        parsed matches Some(fs) ==> forall|k: int| 0 <= k < fs.len() ==> 0 <= (#[trigger] fs[k]).1
            && 0 <= fs[k].2,
    ensures
        forall|k: int| 0 <= k < page_items(b, parsed).len() ==> cut_ok(b, #[trigger] page_items(b, parsed)[k]),
{
    match parsed {
        Some(fs) => lemma_parsed_items_cut(b, fs),
        None => {
            let sps = brace_spans(b).unwrap();
            lemma_items_in_order(b);
            assert forall|k: int| 0 <= k < page_items(b, parsed).len() implies cut_ok(
                b,
                #[trigger] page_items(b, parsed)[k],
            ) by {
                assert(span_ok(b, sps[k]));
            }
        },
    }
}

/// The items `extract` gives for a page are the entries of the page's functions.
proof fn lemma_entries(b: Seq<u8>, items: Seq<Item>, parsed: Option<Seq<Parsed>>)
    requires
        valid_utf8(b),
        page_ok(b, parsed),
        parsed matches Some(fs) ==> forall|k: int| 0 <= k < fs.len() ==> 0 <= (#[trigger] fs[k]).1
            && 0 <= fs[k].2,
        items_are(b, items, page_items(b, parsed)),
    ensures
        item_entries(items) == page_entries(b, page_items(b, parsed)),
        forall|k: int| 0 <= k < items.len() ==> (#[trigger] items[k]).starts_in(b) || b.len()
            >= usize::MAX,
{
    let ps = page_items(b, parsed);
    lemma_page_items_cut(b, parsed);
    assert forall|k: int| 0 <= k < items.len() implies #[trigger] item_entries(items)[k]
        == page_entries(b, ps)[k] by {
        let p = ps[k];
        assert(cut_ok(b, p));
        assert(item_is(b, items[k], p));
        crate::text::lemma_boundary_in_prefix(b, p.1, p.2);
        vstd::utf8::valid_utf8_split(b.subrange(0, p.2), p.1);
        assert(b.subrange(0, p.2).subrange(p.1, p.2) =~= b.subrange(p.1, p.2));
        vstd::utf8::decode_utf8_encode_utf8(b.subrange(p.1, p.2));
    }
    assert(item_entries(items) =~= page_entries(b, ps));
    assert forall|k: int| 0 <= k < items.len() implies (#[trigger] items[k]).starts_in(b) || b.len()
        >= usize::MAX by {
        assert(cut_ok(b, ps[k]));
        assert(item_is(b, items[k], ps[k]));
    }
}

/// The names, in order, of the entries other than `callee` that refer to `callee`, given
/// what each one's parse refers to (`rs`, one per entry).
pub open spec fn callers_of(es: Seq<Entry>, rs: Seq<Option<Seq<Seq<char>>>>, callee: Seq<char>) -> Seq<
    Seq<char>,
>
    decreases es.len(),
{
    if es.len() == 0 {
        seq![]
    } else {
        let rest = callers_of(es.drop_last(), rs.drop_last(), callee);
        let e = es.last();
        if e.0 != callee && refers_to(e.1, rs[es.len() - 1], callee) {
            rest.push(e.0)
        } else {
            rest
        }
    }
}

/// The texts of `v`.
pub open spec fn views(v: Seq<&str>) -> Seq<Seq<char>> {
    v.map_values(|s: &str| s@)
}

/// The names of the items, other than `callee` itself, that refer to `callee`, given what
/// each item's parsed body refers to (`bodies`, one per item; `None` for text that does
/// not parse, which is searched for calls instead).
pub fn callers<'a>(items: &'a [Item], callee: &str, bodies: &[Option<Expr>]) -> (r: Vec<&'a str>)
    requires
        bodies@.len() == items@.len(),
    ensures
        views(r@) == callers_of(item_entries(items@), refs_view(bodies@), callee@),
{
    let mut r: Vec<&'a str> = Vec::new();
    let ghost es = item_entries(items@);
    let ghost rs = refs_view(bodies@);
    let mut k: usize = 0;
    while k < items.len()
        invariant
            k <= items@.len(),
            bodies@.len() == items@.len(),
            es == item_entries(items@),
            rs == refs_view(bodies@),
            views(r@) == callers_of(es.take(k as int), rs.take(k as int), callee@),
        decreases items@.len() - k,
    {
        proof {
            assert(es.take(k + 1).drop_last() =~= es.take(k as int));
            assert(rs.take(k + 1).drop_last() =~= rs.take(k as int));
            assert(es.take(k + 1).last() == es[k as int]);
            assert(rs.take(k + 1)[k as int] == rs[k as int]);
        }
        let it = &items[k];
        let b_k: Option<&Expr> = match &bodies[k] {
            Some(e) => Some(e),
            None => None,
        };
        if !same_text(it.name.as_str(), callee) && it.mentions(callee, b_k) {
            r.push(it.name.as_str());
        }
        assert(views(r@) =~= callers_of(es.take(k + 1), rs.take(k + 1), callee@));
        k += 1;
    }
    assert(es.take(items@.len() as int) =~= es);
    assert(rs.take(items@.len() as int) =~= rs);
    r
}

/// How many items, other than `callee`, refer to `callee`.
pub fn caller_count(items: &[Item], callee: &str, bodies: &[Option<Expr>]) -> (r: usize)
    requires
        bodies@.len() == items@.len(),
    ensures
        r == callers_of(item_entries(items@), refs_view(bodies@), callee@).len(),
{
    callers(items, callee, bodies).len()
}

/// `callee    <name>` over `callers   <count>` for the functions of `source` (found as
/// `extract` finds them; `bodies`, one per function, as for
/// `callers`).
pub fn callers_counts_overlay(
    source: &str,
    callee: &str,
    parsed: Option<&[(String, usize, usize)]>,
    bodies: &[Option<Expr>],
) -> (r: String)
    requires
        page_ok(source.spec_bytes(), parsed_view(parsed)),
        bodies@.len() == page_items(source.spec_bytes(), parsed_view(parsed)).len(),
    ensures
        r@ == "callee    "@ + callee@ + "\ncallers   "@ + dec(
            callers_of(
                page_entries(source.spec_bytes(), page_items(source.spec_bytes(), parsed_view(parsed))),
                refs_view(bodies@),
                callee@,
            ).len(),
        ),
{
    let items = extract(source, parsed);
    proof {
        vstd::utf8::encode_utf8_valid_utf8(source@);
        lemma_entries(source.spec_bytes(), items@, parsed_view(parsed));
    }
    let mut r = String::new();
    r.append("callee    ");
    r.append(callee);
    r.append("\ncallers   ");
    push_dec(&mut r, caller_count(items.as_slice(), callee, bodies));
    r
}

/// Entry `k` of `es` is called `name`.
pub open spec fn entry_named(es: Seq<Entry>, name: Seq<char>) -> spec_fn(int) -> bool {
    |k: int| es[k].0 == name
}

/// The index of the first entry called `name`.
pub open spec fn entry_index(es: Seq<Entry>, name: Seq<char>) -> Option<int> {
    first_at(entry_named(es, name), 0, es.len() as int)
}

/// An entry's summary line in the page `b`: name, first line, byte span.
pub open spec fn entry_overlay(b: Seq<u8>, e: Entry) -> Seq<char> {
    e.0 + "  L"@ + dec(line_at(b, e.2) as nat) + "  ["@ + dec(e.2 as nat) + ".."@ + dec(
        e.3 as nat,
    ) + "]"@
}

/// The report line for caller `c`: its summary when an entry has that name.
pub open spec fn caller_line(b: Seq<u8>, es: Seq<Entry>, c: Seq<char>) -> Seq<char> {
    "  "@ + match entry_index(es, c) {
        Some(k) => entry_overlay(b, es[k]),
        None => c,
    }
}

/// Who calls `callee` among `es`: a count line followed by one summary per caller, or a
/// note that nothing does.
pub open spec fn callers_report(
    b: Seq<u8>,
    es: Seq<Entry>,
    rs: Seq<Option<Seq<Seq<char>>>>,
    callee: Seq<char>,
) -> Seq<char> {
    let found = callers_of(es, rs, callee);
    if found.len() == 0 {
        callee + "  no callers on this page"@
    } else {
        join_with(
            seq![callee + "  <-  "@ + dec(found.len()) + " caller(s)"@] + found.map_values(
                |c: Seq<char>| caller_line(b, es, c),
            ),
            "\n"@,
        )
    }
}

fn callers_overlay_items(items: &[Item], source: &str, callee: &str, bodies: &[Option<Expr>]) -> (r: String)
    requires
        forall|k: int| 0 <= k < items@.len() ==> (#[trigger] items@[k]).starts_in(source.spec_bytes()),
        bodies@.len() == items@.len(),
    ensures
        r@ == callers_report(source.spec_bytes(), item_entries(items@), refs_view(bodies@), callee@),
{
    let ghost b = source.spec_bytes();
    let ghost es = item_entries(items@);
    let found = callers(items, callee, bodies);
    let ghost fv = views(found@);
    let mut r = String::new();
    r.append(callee);
    if found.len() == 0 {
        r.append("  no callers on this page");
        return r;
    }
    r.append("  <-  ");
    push_dec(&mut r, found.len());
    r.append(" caller(s)");
    let ghost head = r@;
    let ghost f = |c: Seq<char>| caller_line(b, es, c);
    proof {
        assert(seq![head] + fv.take(0).map_values(f) =~= seq![head]);
        assert(join_with(seq![head], "\n"@) == head) by {
            assert(seq![head].len() == 1);
        }
    }
    let mut j: usize = 0;
    while j < found.len()
        invariant
            j <= found@.len(),
            fv == views(found@),
            es == item_entries(items@),
            b == source.spec_bytes(),
            f == (|c: Seq<char>| caller_line(b, es, c)),
            forall|k: int| 0 <= k < items@.len() ==> (#[trigger] items@[k]).starts_in(b),
            r@ == join_with(seq![head] + fv.take(j as int).map_values(f), "\n"@),
        decreases found@.len() - j,
    {
        let c = found[j];
        r.append("\n");
        r.append("  ");
        proof {
            lemma_first_at(has_name(items@, c@), 0, items@.len() as int);
            assert forall|k: int| 0 <= k < items@.len() implies #[trigger] has_name(items@, c@)(k)
                == entry_named(es, c@)(k) by {}
            lemma_first_at_ext(has_name(items@, c@), entry_named(es, c@), 0, items@.len() as int);
        }
        match named(items, c) {
            Some(it) => r.append(it.overlay_line(source).as_str()),
            None => r.append(c),
        }
        proof {
            let parts = seq![head] + fv.take(j as int).map_values(f);
            assert(seq![head] + fv.take(j + 1).map_values(f) =~= parts.push(f(fv[j as int])));
            crate::text::lemma_join_with_push(parts, "\n"@, f(fv[j as int]));
            assert(fv[j as int] == c@);
        }
        j += 1;
    }
    assert(fv.take(found@.len() as int) =~= fv);
    r
}

/// Who calls `callee` on the page `source`: a count line and one summary line per caller,
/// or a note that nothing does (functions found as `extract` finds them; `bodies`, one per
/// function, as for `callers`).
pub fn callers_overlay(
    source: &str,
    callee: &str,
    parsed: Option<&[(String, usize, usize)]>,
    bodies: &[Option<Expr>],
) -> (r: String)
    requires
        page_ok(source.spec_bytes(), parsed_view(parsed)),
        source.spec_bytes().len() < usize::MAX,
        bodies@.len() == page_items(source.spec_bytes(), parsed_view(parsed)).len(),
    ensures
        r@ == callers_report(
            source.spec_bytes(),
            page_entries(source.spec_bytes(), page_items(source.spec_bytes(), parsed_view(parsed))),
            refs_view(bodies@),
            callee@,
        ),
{
    let items = extract(source, parsed);
    proof {
        vstd::utf8::encode_utf8_valid_utf8(source@);
        lemma_entries(source.spec_bytes(), items@, parsed_view(parsed));
    }
    callers_overlay_items(items.as_slice(), source, callee, bodies)
}

/// The page line for the item called `name`: who calls it, or that nothing does.
pub open spec fn page_line(es: Seq<Entry>, rs: Seq<Option<Seq<Seq<char>>>>, name: Seq<char>) -> Seq<
    char,
> {
    let found = callers_of(es, rs, name);
    if found.len() == 0 {
        name + "  no callers"@
    } else {
        name + "  <-  "@ + join_with(found, ", "@)
    }
}

/// One page line per entry, or a note that there are none.
pub open spec fn page_report(es: Seq<Entry>, rs: Seq<Option<Seq<Seq<char>>>>) -> Seq<char> {
    if es.len() == 0 {
        "no fn items"@
    } else {
        join_with(es.map_values(|e: Entry| page_line(es, rs, e.0)), "\n"@)
    }
}

/// `parts` joined by `sep`.
fn join_strs(parts: &Vec<&str>, sep: &str) -> (r: String)
    ensures
        r@ == join_with(views(parts@), sep@),
{
    let mut r = String::new();
    let mut j: usize = 0;
    while j < parts.len()
        invariant
            j <= parts@.len(),
            r@ == join_with(views(parts@).take(j as int), sep@),
        decreases parts@.len() - j,
    {
        proof {
            assert(views(parts@).take(j + 1) =~= views(parts@).take(j as int).push(parts@[j as int]@));
            crate::text::lemma_join_with_push(views(parts@).take(j as int), sep@, parts@[j as int]@);
        }
        if j > 0 {
            r.append(sep);
        }
        r.append(parts[j]);
        j += 1;
    }
    assert(views(parts@).take(parts@.len() as int) =~= views(parts@));
    r
}

/// For every top-level function of `source`, who calls it (functions found as `extract`
/// finds them; `bodies`, one per function, as for
/// `callers`).
pub fn callers_page_overlay(
    source: &str,
    parsed: Option<&[(String, usize, usize)]>,
    bodies: &[Option<Expr>],
) -> (r: String)
    requires
        page_ok(source.spec_bytes(), parsed_view(parsed)),
        bodies@.len() == page_items(source.spec_bytes(), parsed_view(parsed)).len(),
    ensures
        r@ == page_report(
            page_entries(source.spec_bytes(), page_items(source.spec_bytes(), parsed_view(parsed))),
            refs_view(bodies@),
        ),
{
    let items = extract(source, parsed);
    proof {
        vstd::utf8::encode_utf8_valid_utf8(source@);
        lemma_entries(source.spec_bytes(), items@, parsed_view(parsed));
    }
    let ghost es = item_entries(items@);
    if items.len() == 0 {
        return "no fn items".to_owned();
    }
    let ghost rs = refs_view(bodies@);
    let ghost g = |e: Entry| page_line(es, rs, e.0);
    let mut r = String::new();
    let mut k: usize = 0;
    while k < items.len()
        invariant
            k <= items@.len(),
            es == item_entries(items@),
            rs == refs_view(bodies@),
            bodies@.len() == items@.len(),
            g == (|e: Entry| page_line(es, rs, e.0)),
            r@ == join_with(es.take(k as int).map_values(g), "\n"@),
        decreases items@.len() - k,
    {
        let it = &items[k];
        let found = callers(items.as_slice(), it.name.as_str(), bodies);
        let mut line = String::new();
        line.append(it.name.as_str());
        if found.len() == 0 {
            line.append("  no callers");
        } else {
            line.append("  <-  ");
            line.append(join_strs(&found, ", ").as_str());
        }
        proof {
            assert(line@ == g(es[k as int]));
            assert(es.take(k + 1).map_values(g) =~= es.take(k as int).map_values(g).push(
                g(es[k as int]),
            ));
            crate::text::lemma_join_with_push(es.take(k as int).map_values(g), "\n"@, line@);
        }
        if k > 0 {
            r.append("\n");
        }
        r.append(line.as_str());
        k += 1;
    }
    assert(es.take(items@.len() as int) =~= es);
    r
}

impl Item {
    /// The item's content hash, given its canonical token text (`None` when its source
    /// does not lex, and the raw source is hashed).
    pub fn hash(&self, canonical: Option<&str>) -> (r: String)
        ensures
            r@ == hex_of(
                blake3_digest(
                    match canonical {
                        Some(c) => c.spec_bytes(),
                        None => self.text_bytes(),
                    },
                ),
            ),
    {
        hash_item(canonical, self.source.as_str())
    }

    /// The text stored for the item: its canonical token text when it lexes, else its
    /// raw source.
    pub fn canonical_source(&self, canonical: Option<&str>) -> (r: String)
        ensures
            r@ == match canonical {
                Some(c) => c@,
                None => self.source@,
            },
    {
        match canonical {
            Some(c) => c.to_owned(),
            None => self.source.clone(),
        }
    }

    /// `name  hash`.
    pub fn hash_line(&self, canonical: Option<&str>) -> (r: String)
        ensures
            r@ == self.name@ + "  "@ + hex_of(
                blake3_digest(
                    match canonical {
                        Some(c) => c.spec_bytes(),
                        None => self.text_bytes(),
                    },
                ),
            ),
    {
        let mut r = String::new();
        r.append(self.name.as_str());
        r.append("  ");
        r.append(self.hash(canonical).as_str());
        r
    }
}

/// The report line for the function `p` of the page `b`: its name and its content hash, taken
/// over its canonical token text when it has one, else over its raw text.
pub open spec fn page_hash_line(b: Seq<u8>, p: PageItem, canon: Option<Seq<char>>) -> Seq<char> {
    p.0 + "  "@ + hex_of(
        blake3_digest(
            encode_utf8(
                match canon {
                    Some(c) => c,
                    None => text_of(b.subrange(p.1, p.2)),
                },
            ),
        ),
    )
}

/// One hash line per item, or a note that there are none.
pub open spec fn hashes_report(b: Seq<u8>, ps: Seq<PageItem>, canons: Seq<Option<Seq<char>>>) -> Seq<
    char,
> {
    if ps.len() == 0 {
        "no fn items"@
    } else {
        join_with(Seq::new(ps.len(), |k: int| page_hash_line(b, ps[k], canons[k])), "\n"@)
    }
}

/// The texts of optional strings.
pub open spec fn canon_views(v: Seq<Option<String>>) -> Seq<Option<Seq<char>>> {
    v.map_values(
        |c: Option<String>|
            match c {
                Some(s) => Some(s@),
                None => None,
            },
    )
}

/// `name  hash` for every top-level function of `source` (found as `extract` finds them),
/// given each one's canonical token text in order (`None` for one that does not lex).
pub fn hashes_overlay(
    source: &str,
    parsed: Option<&[(String, usize, usize)]>,
    canonicals: &[Option<String>],
) -> (r: String)
    requires
        page_ok(source.spec_bytes(), parsed_view(parsed)),
        canonicals@.len() == page_items(source.spec_bytes(), parsed_view(parsed)).len(),
    ensures
        r@ == hashes_report(
            source.spec_bytes(),
            page_items(source.spec_bytes(), parsed_view(parsed)),
            canon_views(canonicals@),
        ),
{
    let items = extract(source, parsed);
    let ghost b = source.spec_bytes();
    let ghost spans = page_items(b, parsed_view(parsed));
    let ghost cv = canon_views(canonicals@);
    let ghost lines = Seq::new(spans.len(), |k: int| page_hash_line(b, spans[k], cv[k]));
    if items.len() == 0 {
        proof {
            reveal_strlit("no fn items");
        }
        return "no fn items".to_string();
    }
    let mut r = String::new();
    let mut k: usize = 0;
    while k < items.len()
        invariant
            k <= items@.len(),
            items_are(b, items@, spans),
            items@.len() == canonicals@.len(),
            cv == canon_views(canonicals@),
            lines == Seq::new(spans.len(), |k: int| page_hash_line(b, spans[k], cv[k])),
            r@ == join_with(lines.take(k as int), "\n"@),
        decreases items@.len() - k,
    {
        let canon = match &canonicals[k] {
            Some(c) => Some(c.as_str()),
            None => None,
        };
        let line = items[k].hash_line(canon);
        proof {
            assert(item_is(b, items@[k as int], spans[k as int]));
            assert(line@ == lines[k as int]);
            crate::text::lemma_join_with_push(lines.take(k as int), "\n"@, line@);
            assert(lines.take(k + 1) =~= lines.take(k as int).push(line@));
            reveal_strlit("\n");
        }
        if k > 0 {
            r.append("\n");
        }
        r.append(line.as_str());
        k += 1;
    }
    assert(lines.take(items@.len() as int) =~= lines);
    r
}

/// No function is listed as its own caller.
pub proof fn lemma_callers_exclude_callee(es: Seq<Entry>, rs: Seq<Option<Seq<Seq<char>>>>, callee: Seq<char>)
    ensures
        forall|k: int| 0 <= k < callers_of(es, rs, callee).len() ==> #[trigger] callers_of(es, rs, callee)[k]
            != callee,
    decreases es.len(),
{
    if es.len() > 0 {
        lemma_callers_exclude_callee(es.drop_last(), rs.drop_last(), callee);
        let rest = callers_of(es.drop_last(), rs.drop_last(), callee);
        let all = callers_of(es, rs, callee);
        assert forall|k: int| 0 <= k < all.len() implies #[trigger] all[k] != callee by {
            if k < rest.len() {
                assert(all[k] == rest[k]);
            }
        }
    }
}

proof fn lemma_free_suffix_is_free(items: Seq<Item>, base: Seq<char>, n: int, m: int)
    requires
        2 <= n <= m < 10000,
        index_named(items, suffixed(base, m as nat)) is None,
    ensures
        index_named(items, free_suffix(items, base, n)) is None,
    decreases 10000 - n,
{
    if index_named(items, suffixed(base, n as nat)) is Some {
        lemma_free_suffix_is_free(items, base, n + 1, m);
    }
}

/// The name `unique_name` picks belongs to no item, whenever `base` or one of `base_2` up
/// to `base_9999` is free.
pub proof fn lemma_unique_name_is_free(items: Seq<Item>, base: Seq<char>, m: int)
    requires
        index_named(items, base) is None || (2 <= m < 10000 && index_named(
            items,
            suffixed(base, m as nat),
        ) is None),
    ensures
        index_named(items, unique_spec(items, base)) is None,
{
    if index_named(items, base) is Some {
        lemma_free_suffix_is_free(items, base, 2, m);
    }
}

proof fn lemma_suffixed_injective(base: Seq<char>, a: nat, b: nat)
    requires
        suffixed(base, a) == suffixed(base, b),
    ensures
        a == b,
{
    reveal_strlit("_");
    let k = base.len() + 1;
    assert(suffixed(base, a).skip(k as int) =~= dec(a));
    assert(suffixed(base, b).skip(k as int) =~= dec(b));
    lemma_dec_injective(a, b);
}

proof fn lemma_suffixed_is_not_base(base: Seq<char>, a: nat)
    ensures
        suffixed(base, a) != base,
{
    reveal_strlit("_");
    lemma_dec_len(a);
    assert(suffixed(base, a).len() > base.len());
}

/// An item is called `name` exactly when `index_named` finds one.
proof fn lemma_index_named_finds(items: Seq<Item>, name: Seq<char>)
    ensures
        index_named(items, name) is Some <==> exists|k: int| 0 <= k < items.len() && #[trigger] items[k].name@ == name,
{
    lemma_first_at(has_name(items, name), 0, items.len() as int);
    if exists|k: int| 0 <= k < items.len() && #[trigger] items[k].name@ == name {
        let k = choose|k: int| 0 <= k < items.len() && #[trigger] items[k].name@ == name;
        assert(has_name(items, name)(k));
    }
}

/// `unique_name` always finds a free name on a list of at most 9998 items: `base` and the
/// 9998 names `base_2` to `base_9999` cannot all be taken by so few items.
pub proof fn lemma_unique_name_is_free_on_short_lists(items: Seq<Item>, base: Seq<char>)
    requires
        items.len() <= 9998,
    ensures
        index_named(items, unique_spec(items, base)) is None,
{
    if index_named(items, base) is None {
        return;
    }
    if exists|m: int| 2 <= m < 10000 && #[trigger] index_named(items, suffixed(base, m as nat)) is None {
        let m = choose|m: int| 2 <= m < 10000 && #[trigger] index_named(items, suffixed(base, m as nat)) is None;
        lemma_unique_name_is_free(items, base, m);
        return;
    }
    let names = Seq::new(items.len(), |k: int| items[k].name@);
    let x = set_int_range(1, 10000);
    let f = |n: int| if n == 1 { base } else { suffixed(base, n as nat) };
    lemma_int_range(1, 10000);
    assert(vstd::relations::injective_on(f, x)) by {
        assert forall|p: int, q: int| x.contains(p) && x.contains(q) && #[trigger] f(p) == #[trigger] f(q)
            implies p == q by {
            if p == 1 && q != 1 {
                lemma_suffixed_is_not_base(base, q as nat);
            } else if p != 1 && q == 1 {
                lemma_suffixed_is_not_base(base, p as nat);
            } else if p != 1 && q != 1 {
                lemma_suffixed_injective(base, p as nat, q as nat);
            }
        }
    }
    let y = x.map(f);
    lemma_map_size(x, y, f);
    let s = names.to_set();
    assert(y.subset_of(s)) by {
        assert forall|v: Seq<char>| y.contains(v) implies s.contains(v) by {
            let n = choose|n: int| x.contains(n) && f(n) == v;
            if n != 1 {
                assert(index_named(items, suffixed(base, n as nat)) is Some);
            }
            assert(index_named(items, v) is Some);
            lemma_index_named_finds(items, v);
            let k = choose|k: int| 0 <= k < items.len() && #[trigger] items[k].name@ == v;
            assert(names[k] == v);
            assert(names.contains(v));
        }
    }
    names.lemma_cardinality_of_set();
    lemma_len_subset(y, s);
    assert(false);
}

/// Putting an item into a page ignores the item's own byte offsets: two items with the
/// same name and text make the same edit.
pub proof fn lemma_edit_ignores_offsets(b: Seq<u8>, ps: Seq<PageItem>, s: Seq<char>, x: Item, y: Item)
    requires
        x.name@ == y.name@,
        x.source@ == y.source@,
    ensures
        item_edit(b, ps, s, x) == item_edit(b, ps, s, y),
{
}

} // verus!
