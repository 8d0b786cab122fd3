//! The text methods that cut a text at a delimiter: `split`, `lines` and `replace`.
//! Matches are taken from the left and do not overlap; an empty delimiter matches before
//! every character and at the end.

use vstd::prelude::*;
use vstd::string::StringSliceAdditionalSpecFns;
use crate::text::{join_with, texts};

verus! {

/// `d` occurs in `s` at position `i`.
pub open spec fn text_at(s: Seq<char>, d: Seq<char>, i: int) -> bool {
    0 <= i && i + d.len() <= s.len() && s.subrange(i, i + d.len()) == d
}

/// The first position at or after `i` where `d` occurs in `s`.
pub open spec fn find_from(s: Seq<char>, d: Seq<char>, i: int) -> Option<int>
    decreases s.len() + 1 - i,
{
    if i < 0 || i > s.len() || i + d.len() > s.len() {
        None
    } else if text_at(s, d, i) {
        Some(i)
    } else {
        find_from(s, d, i + 1)
    }
}

pub proof fn lemma_find_from(s: Seq<char>, d: Seq<char>, i: int)
    requires
        0 <= i,
    ensures
        match find_from(s, d, i) {
            Some(k) => i <= k && text_at(s, d, k) && forall|j: int| i <= j < k ==> !#[trigger] text_at(s, d, j),
            None => forall|j: int| i <= j ==> !#[trigger] text_at(s, d, j),
        },
    decreases s.len() + 1 - i,
{
    if i <= s.len() && i + d.len() <= s.len() && !text_at(s, d, i) {
        lemma_find_from(s, d, i + 1);
    }
}

/// The pieces of `s` between the matches of a non-empty `d`, from the left.
pub open spec fn split_at_matches(s: Seq<char>, d: Seq<char>) -> Seq<Seq<char>>
    decreases s.len(),
{
    if d.len() == 0 {
        seq![s]
    } else {
        match find_from(s, d, 0) {
            Some(i) => {
                proof {
                    lemma_find_from(s, d, 0);
                }
                seq![s.take(i)] + split_at_matches(s.skip(i + d.len()), d)
            },
            None => seq![s],
        }
    }
}

/// The pieces `s.split(d)` gives: with an empty `d`, an empty piece, then each character,
/// then an empty piece; otherwise the pieces between the matches of `d`.
pub open spec fn split_spec(s: Seq<char>, d: Seq<char>) -> Seq<Seq<char>> {
    if d.len() == 0 {
        seq![Seq::<char>::empty()] + Seq::new(s.len(), |k: int| seq![s[k]]) + seq![
            Seq::<char>::empty(),
        ]
    } else {
        split_at_matches(s, d)
    }
}

/// Whether `d` occurs in `s` at char position `i`.
fn matches_at(s: &str, d: &str, i: usize, n: usize, m: usize) -> (r: bool)
    requires
        n == s@.len(),
        m == d@.len(),
        i + m <= n,
    ensures
        r == text_at(s@, d@, i as int),
{
    let mut j: usize = 0;
    while j < m
        invariant
            n == s@.len(),
            m == d@.len(),
            i + m <= n,
            j <= m,
            forall|t: int| 0 <= t < j ==> s@[i + t] == d@[t],
        decreases m - j,
    {
        if s.get_char(i + j) != d.get_char(j) {
            assert(s@.subrange(i as int, i + m)[j as int] != d@[j as int]);
            return false;
        }
        j += 1;
    }
    assert(s@.subrange(i as int, i + m) =~= d@);
    true
}

proof fn lemma_find_in_rest(s: Seq<char>, d: Seq<char>, start: int, i: int)
    requires
        0 <= start <= i,
        i <= s.len(),
    ensures
        find_from(s.skip(start), d, i - start) == match find_from(s, d, i) {
            Some(k) => Some(k - start),
            None => None::<int>,
        },
    decreases s.len() + 1 - i,
{
    let t = s.skip(start);
    if d.len() == 0 {
        assert(s.subrange(i, i) =~= d);
    }
    if i + d.len() <= s.len() {
        assert(t.subrange(i - start, i - start + d.len()) =~= s.subrange(i, i + d.len()));
        if !text_at(s, d, i) {
            lemma_find_in_rest(s, d, start, i + 1);
        }
    }
}

/// `s.split(delim)`: the pieces of `s` between the matches of `delim`.
pub fn split(s: &str, delim: &str) -> (r: Vec<String>)
    ensures
        texts(r@) == split_spec(s@, delim@),
{
    let n = s.unicode_len();
    let m = delim.unicode_len();
    let mut out: Vec<String> = Vec::new();
    if m == 0 {
        out.push(String::new());
        assert(texts(out@) =~= seq![Seq::<char>::empty()] + Seq::new(0, |j: int| seq![s@[j]]));
        let mut k: usize = 0;
        while k < n
            invariant
                n == s@.len(),
                k <= n,
                texts(out@) == seq![Seq::<char>::empty()] + Seq::new(k as nat, |j: int| seq![s@[j]]),
            decreases n - k,
        {
            let piece = s.substring_char(k, k + 1).to_owned();
            assert(piece@ =~= seq![s@[k as int]]);
            let ghost before = texts(out@);
            out.push(piece);
            assert(texts(out@) =~= before.push(piece@));
            assert(seq![Seq::<char>::empty()] + Seq::new((k + 1) as nat, |j: int| seq![s@[j]]) =~= (seq![
                Seq::<char>::empty(),
            ] + Seq::new(k as nat, |j: int| seq![s@[j]])).push(seq![s@[k as int]]));
            k += 1;
        }
        let ghost before = texts(out@);
        out.push(String::new());
        assert(texts(out@) =~= before.push(Seq::<char>::empty()));
        assert(texts(out@) =~= split_spec(s@, delim@));
        return out;
    }
    let mut start: usize = 0;
    let mut i: usize = 0;
    assert(s@.skip(0) =~= s@);
    assert(texts(out@) + split_at_matches(s@, delim@) =~= split_at_matches(s@, delim@));
    while m <= n - i
        invariant
            n == s@.len(),
            m == delim@.len(),
            m > 0,
            start <= i <= n,
            texts(out@) + split_at_matches(s@.skip(start as int), delim@) == split_at_matches(s@, delim@),
            find_from(s@, delim@, start as int) == find_from(s@, delim@, i as int),
        decreases n + 1 - i,
    {
        let ghost t = s@.skip(start as int);
        if matches_at(s, delim, i, n, m) {
            proof {
                lemma_find_in_rest(s@, delim@, start as int, start as int);
                assert(find_from(s@, delim@, i as int) == Some(i as int));
                assert(find_from(t, delim@, 0) == Some(i - start));
                assert(t.take(i - start) =~= s@.subrange(start as int, i as int));
                assert(t.skip(i - start + m) =~= s@.skip(i + m));
                assert(split_at_matches(t, delim@) == seq![t.take(i - start)] + split_at_matches(
                    t.skip(i - start + m),
                    delim@,
                ));
            }
            let piece = s.substring_char(start, i).to_owned();
            let ghost before = texts(out@);
            out.push(piece);
            proof {
                assert(texts(out@) =~= before.push(s@.subrange(start as int, i as int)));
                assert(texts(out@) + split_at_matches(s@.skip(i + m), delim@) =~= before + (seq![
                    t.take(i - start),
                ] + split_at_matches(t.skip(i - start + m), delim@)));
            }
            start = i + m;
            i = start;
        } else {
            i += 1;
        }
    }
    proof {
        let t = s@.skip(start as int);
        lemma_find_in_rest(s@, delim@, start as int, start as int);
        assert(find_from(s@, delim@, i as int) is None);
        assert(find_from(t, delim@, 0) is None);
        assert(t =~= s@.subrange(start as int, n as int));
    }
    let ghost before = texts(out@);
    out.push(s.substring_char(start, n).to_owned());
    assert(texts(out@) =~= before.push(s@.subrange(start as int, n as int)));
    out
}

/// A piece without the one carriage return that may end it.
pub open spec fn strip_cr(t: Seq<char>) -> Seq<char> {
    if t.len() > 0 && t.last() == '\r' {
        t.drop_last()
    } else {
        t
    }
}

/// The lines `s.lines()` gives: the pieces between newlines, each that a newline ended
/// without a carriage return before it, and the last piece left out when it is empty.
pub open spec fn lines_spec(s: Seq<char>) -> Seq<Seq<char>> {
    let parts = split_at_matches(s, seq!['\n']);
    let body = parts.drop_last().map_values(|t: Seq<char>| strip_cr(t));
    if parts.last().len() == 0 {
        body
    } else {
        body.push(parts.last())
    }
}

proof fn lemma_split_nonempty(s: Seq<char>, d: Seq<char>)
    ensures
        split_at_matches(s, d).len() >= 1,
    decreases s.len(),
{
    if d.len() > 0 {
        if let Some(i) = find_from(s, d, 0) {
            lemma_find_from(s, d, 0);
            lemma_split_nonempty(s.skip(i + d.len()), d);
        }
    }
}

fn without_cr(t: &str) -> (r: String)
    ensures
        r@ == strip_cr(t@),
{
    let n = t.unicode_len();
    if n > 0 && t.get_char(n - 1) == '\r' {
        let r = t.substring_char(0, n - 1).to_owned();
        assert(r@ =~= t@.drop_last());
        r
    } else {
        t.to_owned()
    }
}

/// `s.lines()`: the lines of `s`, a newline or a carriage return and newline ending each.
pub fn lines(s: &str) -> (r: Vec<String>)
    ensures
        texts(r@) == lines_spec(s@),
{
    let parts = split(s, "\n");
    proof {
        reveal_strlit("\n");
        assert("\n"@ =~= seq!['\n']);
        lemma_split_nonempty(s@, seq!['\n']);
    }
    let ghost ps = texts(parts@);
    let count = parts.len();
    let mut out: Vec<String> = Vec::new();
    let mut k: usize = 0;
    while k + 1 < count
        invariant
            count == parts@.len(),
            count >= 1,
            ps == texts(parts@),
            k + 1 <= count,
            texts(out@) == ps.take(k as int).map_values(|t: Seq<char>| strip_cr(t)),
        decreases count - k,
    {
        let line = without_cr(parts[k].as_str());
        let ghost before = texts(out@);
        out.push(line);
        assert(texts(out@) =~= before.push(strip_cr(ps[k as int])));
        assert(texts(out@) =~= ps.take(k + 1).map_values(|t: Seq<char>| strip_cr(t)));
        k += 1;
    }
    assert(ps.take(k as int) =~= ps.drop_last());
    let last = parts[count - 1].as_str();
    if last.unicode_len() > 0 {
        let ghost before = texts(out@);
        out.push(last.to_owned());
        assert(texts(out@) =~= before.push(ps.last()));
    }
    out
}

/// `s.replace(needle, new)`: every match of `needle` in `s`, from the left and not
/// overlapping, replaced by `new`; an empty `needle` puts `new` before every character and
/// at the end.
pub fn replace(s: &str, needle: &str, new: &str) -> (r: String)
    ensures
        r@ == join_with(split_spec(s@, needle@), new@),
{
    let parts = split(s, needle);
    let ghost ps = texts(parts@);
    let mut out = String::new();
    let mut k: usize = 0;
    while k < parts.len()
        invariant
            ps == texts(parts@),
            k <= parts@.len(),
            out@ == join_with(ps.take(k as int), new@),
        decreases parts@.len() - k,
    {
        proof {
            assert(ps.take(k + 1).drop_last() =~= ps.take(k as int));
        }
        if k > 0 {
            out.append(new);
        }
        out.append(parts[k].as_str());
        assert(out@ =~= join_with(ps.take(k + 1), new@));
        k += 1;
    }
    assert(ps.take(parts@.len() as int) =~= ps);
    out
}

proof fn lemma_join_cons(a: Seq<char>, rest: Seq<Seq<char>>, d: Seq<char>)
    requires
        rest.len() >= 1,
    ensures
        join_with(seq![a] + rest, d) == a + d + join_with(rest, d),
    decreases rest.len(),
{
    let all = seq![a] + rest;
    if rest.len() == 1 {
        assert(all.drop_last() =~= seq![a]);
        assert(all.last() == rest[0]);
        assert(join_with(seq![a], d) == a);
        assert(join_with(all, d) == join_with(all.drop_last(), d) + d + all.last());
        assert(join_with(rest, d) == rest[0]);
    } else {
        lemma_join_cons(a, rest.drop_last(), d);
        assert(all.drop_last() =~= seq![a] + rest.drop_last());
        assert(all.last() == rest.last());
        assert(join_with(all, d) == join_with(all.drop_last(), d) + d + all.last());
        assert(join_with(rest, d) == join_with(rest.drop_last(), d) + d + rest.last());
        assert(a + d + join_with(rest.drop_last(), d) + d + rest.last() =~= a + d + (join_with(
            rest.drop_last(),
            d,
        ) + d + rest.last()));
    }
}

proof fn lemma_join_matches(s: Seq<char>, d: Seq<char>)
    requires
        d.len() > 0,
    ensures
        join_with(split_at_matches(s, d), d) == s,
    decreases s.len(),
{
    if let Some(i) = find_from(s, d, 0) {
        lemma_find_from(s, d, 0);
        let rest = s.skip(i + d.len());
        lemma_join_matches(rest, d);
        lemma_split_nonempty(rest, d);
        lemma_join_cons(s.take(i), split_at_matches(rest, d), d);
        assert(s.take(i) + d + rest =~= s);
    } else {
        assert(join_with(seq![s], d) == s);
    }
}

proof fn lemma_join_chars(s: Seq<char>, k: int)
    requires
        0 <= k <= s.len(),
    ensures
        join_with(seq![Seq::<char>::empty()] + Seq::new(k as nat, |j: int| seq![s[j]]), Seq::<char>::empty())
            == s.take(k),
    decreases k,
{
    let q = seq![Seq::<char>::empty()] + Seq::new(k as nat, |j: int| seq![s[j]]);
    if k == 0 {
        assert(q =~= seq![Seq::<char>::empty()]);
        assert(s.take(0) =~= Seq::<char>::empty());
    } else {
        lemma_join_chars(s, k - 1);
        assert(q.drop_last() =~= seq![Seq::<char>::empty()] + Seq::new((k - 1) as nat, |j: int| seq![s[j]]));
        assert(q.last() == seq![s[k - 1]]);
        assert(s.take(k - 1) + Seq::<char>::empty() + seq![s[k - 1]] =~= s.take(k));
    }
}

/// Joining the pieces of a split back together with the delimiter gives the text back; so
/// replacing a text's matches of `d` with `d` changes nothing.
pub proof fn lemma_split_then_join(s: Seq<char>, d: Seq<char>)
    ensures
        join_with(split_spec(s, d), d) == s,
{
    if d.len() > 0 {
        lemma_join_matches(s, d);
    } else {
        lemma_join_chars(s, s.len() as int);
        let q = seq![Seq::<char>::empty()] + Seq::new(s.len(), |j: int| seq![s[j]]);
        let all = q.push(Seq::<char>::empty());
        assert(split_spec(s, d) =~= all);
        assert(all.drop_last() =~= q);
        assert(s.take(s.len() as int) =~= s);
        assert(d =~= Seq::<char>::empty());
        assert(s + Seq::<char>::empty() + Seq::<char>::empty() =~= s);
    }
}

} // verus!
