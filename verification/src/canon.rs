//! The canonical form of a source slice, which content hashes cover: its tokens with the
//! trivia dropped, joined by single spaces. Whitespace and comments do not move the hash;
//! every meaningful token does. The item's own name (the identifier right after the first
//! `fn`) erases to `_`, so renaming a function keeps its hash.
//!
//! The tokens come from the lexer, each with its class and its display text.

use vstd::prelude::*;

verus! {

/// What the canonical form tells apart among tokens.
#[derive(Debug, Clone, Copy, PartialEq, Eq, Structural)]
pub enum TokClass {
    /// A token the lexer could not read.
    Invalid,
    /// A comment: trivia.
    Comment,
    /// The `fn` keyword.
    Fn,
    /// An identifier.
    Ident,
    /// A float literal; its text is what `f64` displays for the value.
    Float,
    /// Any other token.
    Other,
}

/// A token as the contracts see it: its class and its text.
pub type TokView = (TokClass, Seq<char>);

/// The views of tokens.
pub open spec fn toks_view(v: Seq<(TokClass, String)>) -> Seq<TokView> {
    v.map_values(|t: (TokClass, String)| (t.0, t.1@))
}

/// `s` spells `inf` or `NaN` at position `i`.
pub open spec fn spells_special(s: Seq<char>, i: int) -> bool {
    s.subrange(i, i + 3) == seq!['i', 'n', 'f'] || s.subrange(i, i + 3) == seq!['N', 'a', 'N']
}

/// `s` is already marked as a float: it holds `.`, `e` or `E`, or spells `inf` or `NaN`.
pub open spec fn marked_float(s: Seq<char>) -> bool {
    (exists|i: int| 0 <= i < s.len() && (s[i] == '.' || s[i] == 'e' || s[i] == 'E'))
        || (exists|i: int| 0 <= i && i + 3 <= s.len() && #[trigger] spells_special(s, i))
}

/// A float's canonical text: as displayed, with `.0` added when nothing marks it as a float,
/// so that an int and a float never share a canonical token.
pub open spec fn float_text(s: Seq<char>) -> Seq<char> {
    if marked_float(s) {
        s
    } else {
        s + seq!['.', '0']
    }
}

/// The canonical form after the first `k` tokens: the text so far, whether the item's name
/// has been erased, and whether the last meaningful token was `fn`.
pub open spec fn canon_state(toks: Seq<TokView>, k: int) -> (Seq<char>, bool, bool)
    decreases k,
{
    if k <= 0 {
        (seq![], false, false)
    } else {
        let (out, erased, after_fn) = canon_state(toks, k - 1);
        let t = toks[k - 1];
        if t.0 == TokClass::Comment {
            (out, erased, after_fn)
        } else {
            let sep = if out.len() > 0 {
                seq![' ']
            } else {
                seq![]
            };
            let (piece, erased2) = if t.0 == TokClass::Float {
                (float_text(t.1), erased)
            } else if !erased && after_fn && t.0 == TokClass::Ident {
                (seq!['_'], true)
            } else {
                (t.1, erased)
            };
            (out + sep + piece, erased2, t.0 == TokClass::Fn)
        }
    }
}

/// The canonical form of a token stream: `None` when a token could not be read or the
/// lexer recorded an error (an unterminated string or comment).
pub open spec fn canonical_of(toks: Seq<TokView>, lex_ok: bool) -> Option<Seq<char>> {
    if !lex_ok || exists|i: int| 0 <= i < toks.len() && toks[i].0 == TokClass::Invalid {
        None
    } else {
        Some(canon_state(toks, toks.len() as int).0)
    }
}

fn is_marked_float(s: &str) -> (r: bool)
    ensures
        r == marked_float(s@),
{
    let n = s.unicode_len();
    let mut i: usize = 0;
    while i < n
        invariant
            i <= n,
            n == s@.len(),
            forall|j: int| 0 <= j < i ==> !(s@[j] == '.' || s@[j] == 'e' || s@[j] == 'E'),
            forall|j: int| 0 <= j < i && j + 3 <= n ==> !#[trigger] spells_special(s@, j),
        decreases n - i,
    {
        let c = s.get_char(i);
        if c == '.' || c == 'e' || c == 'E' {
            return true;
        }
        if n - i >= 3 {
            let a = s.get_char(i);
            let b = s.get_char(i + 1);
            let d = s.get_char(i + 2);
            if (a == 'i' && b == 'n' && d == 'f') || (a == 'N' && b == 'a' && d == 'N') {
                assert(s@.subrange(i as int, i + 3) =~= seq![a, b, d]);
                assert(spells_special(s@, i as int));
                return true;
            }
            proof {
                assert(s@.subrange(i as int, i + 3) =~= seq![a, b, d]);
                if spells_special(s@, i as int) {
                    assert(seq![a, b, d][0] == a);
                }
            }
        }
        i += 1;
    }
    false
}

/// The canonical form of a source slice from its tokens (`lex_ok`: the lexer recorded no
/// error): each token's text joined by single spaces, comments dropped, the item's own name
/// as `_`, and floats kept distinct from ints.
pub fn canonical(toks: &[(TokClass, String)], lex_ok: bool) -> (r: Option<String>)
    ensures
        r matches Some(c) ==> canonical_of(toks_view(toks@), lex_ok) == Some(c@),
        r is None ==> canonical_of(toks_view(toks@), lex_ok) is None,
{
    let ghost tv = toks_view(toks@);
    let mut out = String::new();
    let mut erased = false;
    let mut after_fn = false;
    let mut k: usize = 0;
    while k < toks.len()
        invariant
            k <= toks@.len(),
            tv == toks_view(toks@),
            canon_state(tv, k as int) == (out@, erased, after_fn),
            forall|i: int| 0 <= i < k ==> tv[i].0 != TokClass::Invalid,
        decreases toks@.len() - k,
    {
        let class = toks[k].0;
        let text = &toks[k].1;
        assert(tv[k as int] == (class, text@));
        if class == TokClass::Invalid {
            return None;
        }
        if class != TokClass::Comment {
            let ghost before = out@;
            if out.unicode_len() > 0 {
                out.append(" ");
            }
            let ghost with_sep = out@;
            if class == TokClass::Float {
                out.append(text.as_str());
                if !is_marked_float(text.as_str()) {
                    out.append(".0");
                }
            } else if !erased && after_fn && class == TokClass::Ident {
                out.append("_");
                erased = true;
            } else {
                out.append(text.as_str());
            }
            after_fn = class == TokClass::Fn;
            proof {
                reveal_strlit(" ");
                reveal_strlit(".0");
                reveal_strlit("_");
                assert(with_sep == before + (if before.len() > 0 {
                    seq![' ']
                } else {
                    seq![]
                }));
                assert(out@ =~= canon_state(tv, k + 1).0);
            }
        }
        k += 1;
    }
    if !lex_ok {
        return None;
    }
    Some(out)
}

/// Renaming a function keeps its canonical form: two token streams that differ only in the
/// item's own name (an identifier right after the first `fn`, before any name was erased)
/// read the same.
pub proof fn lemma_rename_is_free(toks: Seq<TokView>, j: int, other: Seq<char>, lex_ok: bool)
    requires
        0 <= j < toks.len(),
        toks[j].0 == TokClass::Ident,
        !canon_state(toks, j).1,
        canon_state(toks, j).2,
    ensures
        canonical_of(toks.update(j, (TokClass::Ident, other)), lex_ok) == canonical_of(toks, lex_ok),
{
    let t2 = toks.update(j, (TokClass::Ident, other));
    lemma_same_prefix(toks, t2, j);
    lemma_same_after(toks, t2, j + 1, toks.len() as int);
    if exists|i: int| 0 <= i < toks.len() && toks[i].0 == TokClass::Invalid {
        let i = choose|i: int| 0 <= i < toks.len() && toks[i].0 == TokClass::Invalid;
        assert(t2[i].0 == TokClass::Invalid);
    }
    if exists|i: int| 0 <= i < t2.len() && t2[i].0 == TokClass::Invalid {
        let i = choose|i: int| 0 <= i < t2.len() && t2[i].0 == TokClass::Invalid;
        assert(toks[i].0 == TokClass::Invalid);
    }
}

proof fn lemma_same_prefix(a: Seq<TokView>, b: Seq<TokView>, k: int)
    requires
        0 <= k <= a.len(),
        k <= b.len(),
        forall|i: int| 0 <= i < k ==> a[i] == b[i],
    ensures
        canon_state(a, k) == canon_state(b, k),
    decreases k,
{
    if k > 0 {
        lemma_same_prefix(a, b, k - 1);
    }
}

/// After position `j` both streams step the same tokens from the same state.
proof fn lemma_same_after(a: Seq<TokView>, b: Seq<TokView>, from: int, k: int)
    requires
        1 <= from <= k <= a.len(),
        a.len() == b.len(),
        canon_state(a, from) == canon_state(b, from),
        forall|i: int| from <= i < a.len() ==> a[i] == b[i],
    ensures
        canon_state(a, k) == canon_state(b, k),
    decreases k - from,
{
    if k > from {
        lemma_same_after(a, b, from, k - 1);
    }
}

/// A comment does not change the canonical form: removing one reads the same.
pub proof fn lemma_comments_are_trivia(toks: Seq<TokView>, j: int, lex_ok: bool)
    requires
        0 <= j < toks.len(),
        toks[j].0 == TokClass::Comment,
    ensures
        canonical_of(toks.remove(j), lex_ok) == canonical_of(toks, lex_ok),
{
    let t2 = toks.remove(j);
    lemma_same_prefix(toks, t2, j);
    assert(canon_state(toks, j + 1) == canon_state(toks, j));
    lemma_shifted(toks, t2, j, toks.len() as int);
    if exists|i: int| 0 <= i < toks.len() && toks[i].0 == TokClass::Invalid {
        let i = choose|i: int| 0 <= i < toks.len() && toks[i].0 == TokClass::Invalid;
        assert(i != j);
        if i < j {
            assert(t2[i] == toks[i]);
        } else {
            assert(t2[i - 1] == toks[i]);
        }
    }
    if exists|i: int| 0 <= i < t2.len() && t2[i].0 == TokClass::Invalid {
        let i = choose|i: int| 0 <= i < t2.len() && t2[i].0 == TokClass::Invalid;
        if i < j {
            assert(t2[i] == toks[i]);
        } else {
            assert(t2[i] == toks[i + 1]);
        }
    }
}

/// With token `j` of `a` a comment and `b` being `a` without it, the states agree after
/// the same tokens.
proof fn lemma_shifted(a: Seq<TokView>, b: Seq<TokView>, j: int, k: int)
    requires
        0 <= j < a.len(),
        b == a.remove(j),
        a[j].0 == TokClass::Comment,
        j + 1 <= k <= a.len(),
        canon_state(a, j + 1) == canon_state(b, j),
    ensures
        canon_state(a, k) == canon_state(b, k - 1),
    decreases k - j,
{
    if k > j + 1 {
        lemma_shifted(a, b, j, k - 1);
        assert(b[k - 2] == a[k - 1]);
    }
}

} // verus!
