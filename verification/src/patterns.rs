//! Regular-expression search for the `find` and `find_all` text methods. The `regex` crate
//! compiles the pattern and finds the matches; an invalid pattern is raised with the crate's
//! message, no match is an absence, and a match reads as the texts of the capture groups that
//! took part in it, the whole match first.

use vstd::prelude::*;
use crate::split::text_at;
use crate::text::{kept, present, texts};

verus! {

#[verifier::external_type_specification]
#[verifier::external_body]
pub struct ExRegex(regex::Regex);

#[verifier::external_type_specification]
#[verifier::external_body]
pub struct ExRegexError(regex::Error);

/// Whether the `regex` crate compiles `pattern` (with its default limits).
pub uninterp spec fn regex_compiles(pattern: Seq<char>) -> bool;

/// `regex::Regex::new`: compiles `pattern`; whether it succeeds depends on the pattern alone.
#[verifier::external_body]
fn compile(pattern: &str) -> (r: Result<regex::Regex, regex::Error>)
    ensures
        r is Ok == regex_compiles(pattern@),
{
    regex::Regex::new(pattern)
}

/// The message of a pattern error, as `regex::Error`'s `Display` writes it.
#[verifier::external_body]
fn error_text(e: &regex::Error) -> String {
    e.to_string()
}

/// `group` is the text of some stretch of `s`.
pub open spec fn is_piece_of(s: Seq<char>, group: Seq<char>) -> bool {
    exists|i: int| #[trigger] text_at(s, group, i)
}

/// What a search may find: the whole match present first, and every group that took part
/// a stretch of the searched text.
pub open spec fn groups_ok(s: Seq<char>, groups: Seq<Option<String>>) -> bool {
    &&& groups.len() >= 1
    &&& groups[0] is Some
    &&& forall|k: int| 0 <= k < groups.len() && (#[trigger] groups[k]) is Some ==> is_piece_of(s, groups[k]->0@)
}

/// `regex::Regex::captures`: the capture groups of the first match in `s`, `None` for a group
/// that did not take part; `None` when nothing matches. Which match and which groups come back
/// is left to the crate; of a match, its documentation gives that group 0, the whole match, is
/// always present and that each group is a stretch of the haystack.
#[verifier::external_body]
fn first_captures(re: &regex::Regex, s: &str) -> (r: Option<Vec<Option<String>>>)
    ensures
        r matches Some(v) ==> groups_ok(s@, v@),
{
    re.captures(s).map(|caps| caps.iter().map(|m| m.map(|g| g.as_str().to_string())).collect())
}

/// `regex::Regex::captures_iter`: the capture groups of each successive match in `s`, as for
/// `first_captures`.
#[verifier::external_body]
fn every_captures(re: &regex::Regex, s: &str) -> (r: Vec<Vec<Option<String>>>)
    ensures
        forall|k: int| 0 <= k < r@.len() ==> groups_ok(s@, (#[trigger] r@[k])@),
{
    re.captures_iter(s)
        .map(|caps| caps.iter().map(|m| m.map(|g| g.as_str().to_string())).collect())
        .collect()
}

/// `s.find(pattern)`: the groups of the first match of `pattern` in `s`, the whole match
/// first, `None` when nothing matches; an invalid pattern is an error with the crate's
/// message.
pub fn find(s: &str, pattern: &str) -> (r: Result<Option<Vec<String>>, String>)
    ensures
        r is Err <==> !regex_compiles(pattern@),
        r matches Ok(Some(v)) ==> v@.len() >= 1
            && forall|k: int| 0 <= k < v@.len() ==> is_piece_of(s@, #[trigger] texts(v@)[k]),
{
    match compile(pattern) {
        Err(e) => Err(error_text(&e)),
        Ok(re) => match first_captures(&re, s) {
            None => Ok(None),
            Some(groups) => {
                let ghost g = groups@;
                let v = present(groups);
                proof {
                    lemma_kept_pieces(s@, g);
                }
                Ok(Some(v))
            },
        },
    }
}

/// `s.find_all(pattern)`: the groups of every match of `pattern` in `s`, from the left; an
/// invalid pattern is an error with the crate's message.
pub fn find_all(s: &str, pattern: &str) -> (r: Result<Option<Vec<Vec<String>>>, String>)
    ensures
        r is Err <==> !regex_compiles(pattern@),
        r matches Ok(o) ==> o matches Some(all) && forall|k: int| 0 <= k < all@.len() ==> {
            let v = #[trigger] all@[k];
            v@.len() >= 1 && forall|j: int| 0 <= j < v@.len() ==> is_piece_of(s@, #[trigger] texts(v@)[j])
        },
{
    match compile(pattern) {
        Err(e) => Err(error_text(&e)),
        Ok(re) => {
            let matches = every_captures(&re, s);
            let ghost ms = matches@;
            let mut out: Vec<Vec<String>> = Vec::new();
            let mut rest = matches;
            let n = rest.len();
            let mut k: usize = 0;
            while rest.len() > 0
                invariant
                    k <= n,
                    n == ms.len(),
                    rest@ == ms.skip(k as int),
                    out@.len() == k,
                    forall|j: int| 0 <= j < ms.len() ==> groups_ok(s@, (#[trigger] ms[j])@),
                    forall|j: int| 0 <= j < k ==> {
                        let v = #[trigger] out@[j];
                        v@.len() >= 1 && forall|i: int| 0 <= i < v@.len() ==> is_piece_of(s@, #[trigger] texts(v@)[i])
                    },
                decreases rest@.len(),
            {
                let groups = rest.remove(0);
                assert(groups == ms[k as int]);
                let ghost g = groups@;
                let v = present(groups);
                proof {
                    lemma_kept_pieces(s@, g);
                }
                out.push(v);
                k += 1;
            }
            Ok(Some(out))
        },
    }
}

/// The groups kept from a match are stretches of the searched text, the whole match first.
proof fn lemma_kept_pieces(s: Seq<char>, g: Seq<Option<String>>)
    requires
        groups_ok(s, g),
    ensures
        kept(g).len() >= 1,
        forall|k: int| 0 <= k < kept(g).len() ==> is_piece_of(s, #[trigger] texts(kept(g))[k]),
{
    lemma_kept_of_prefix(s, g, g.len() as int);
    assert(g.take(g.len() as int) =~= g);
}

proof fn lemma_kept_of_prefix(s: Seq<char>, g: Seq<Option<String>>, n: int)
    requires
        groups_ok(s, g),
        1 <= n <= g.len(),
    ensures
        kept(g.take(n)).len() >= 1,
        forall|k: int| 0 <= k < kept(g.take(n)).len() ==> is_piece_of(s, #[trigger] texts(kept(g.take(n)))[k]),
    decreases n,
{
    let t = g.take(n);
    assert(t.drop_last() =~= g.take(n - 1));
    if n == 1 {
        assert(g.take(0) =~= Seq::<Option<String>>::empty());
        assert(kept(g.take(0)) =~= Seq::<String>::empty());
        assert(t.last() == g[0]);
        assert(kept(t) =~= seq![g[0]->0]);
        assert(is_piece_of(s, g[0]->0@));
    } else {
        lemma_kept_of_prefix(s, g, n - 1);
        let before = kept(g.take(n - 1));
        assert(t.last() == g[n - 1]);
        assert forall|k: int| 0 <= k < kept(t).len() implies is_piece_of(s, #[trigger] texts(kept(t))[k]) by {
            if k < before.len() {
                assert(kept(t)[k] == before[k]);
                assert(texts(before)[k] == before[k]@);
            } else {
                assert(g[n - 1] is Some);
                assert(kept(t)[k] == g[n - 1]->0);
            }
        }
    }
}

} // verus!
