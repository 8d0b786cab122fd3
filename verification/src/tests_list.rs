//! Names for the cases of a `#[tests]` list: each case is named by its source text, and a
//! text that repeats gets ` #2`, ` #3`, … so every case keeps a name of its own.

use vstd::prelude::*;
use vstd::set_lib::{lemma_int_range, lemma_len_subset, lemma_map_size, set_int_range};
use crate::text::{contains_text, dec, digit_char, push_dec, texts};

verus! {

/// `name #n`.
pub open spec fn numbered(name: Seq<char>, n: nat) -> Seq<char> {
    name + " #"@ + dec(n)
}

/// The least `n` from 2 on for which `name #n` is not taken.
pub open spec fn least_free(taken: Seq<Seq<char>>, name: Seq<char>) -> nat {
    choose|n: nat|
        n >= 2 && !taken.contains(numbered(name, n)) && forall|m: nat|
            2 <= m < n ==> taken.contains(#[trigger] numbered(name, m))
}

/// The name a case with text `name` gets, the names `taken` being in use: the text itself
/// when free, else the first free `name #n` from `n = 2`.
pub open spec fn case_name(taken: Seq<Seq<char>>, name: Seq<char>) -> Seq<char> {
    if !taken.contains(name) {
        name
    } else {
        numbered(name, least_free(taken, name))
    }
}

proof fn lemma_digit_char_injective(a: nat, b: nat)
    requires
        a < 10,
        b < 10,
        digit_char(a) == digit_char(b),
    ensures
        a == b,
{
}

pub(crate) proof fn lemma_dec_len(n: nat)
    ensures
        dec(n).len() >= 1,
        n >= 10 ==> dec(n).len() >= 2,
    decreases n,
{
    if n >= 10 {
        lemma_dec_len(n / 10);
    }
}

/// Different numbers have different decimal texts.
pub(crate) proof fn lemma_dec_injective(a: nat, b: nat)
    requires
        dec(a) == dec(b),
    ensures
        a == b,
    decreases a,
{
    lemma_dec_len(a);
    lemma_dec_len(b);
    if a < 10 && b < 10 {
        assert(dec(a)[0] == digit_char(a));
        assert(dec(b)[0] == digit_char(b));
        lemma_digit_char_injective(a, b);
    } else if a >= 10 && b >= 10 {
        let (x, y) = (dec(a), dec(b));
        assert(x.last() == digit_char(a % 10));
        assert(y.last() == digit_char(b % 10));
        lemma_digit_char_injective(a % 10, b % 10);
        assert(x.drop_last() =~= dec(a / 10));
        assert(y.drop_last() =~= dec(b / 10));
        lemma_dec_injective(a / 10, b / 10);
    }
}

proof fn lemma_numbered_injective(name: Seq<char>, a: nat, b: nat)
    requires
        numbered(name, a) == numbered(name, b),
    ensures
        a == b,
{
    reveal_strlit(" #");
    let k = name.len() + 2;
    assert(numbered(name, a).skip(k as int) =~= dec(a));
    assert(numbered(name, b).skip(k as int) =~= dec(b));
    lemma_dec_injective(a, b);
}

/// When `name #2` … `name #(n-1)` are all taken, there are at least `n - 2` taken names.
proof fn lemma_taken_bound(taken: Seq<Seq<char>>, name: Seq<char>, n: int)
    requires
        n >= 2,
        forall|m: nat| 2 <= m < n ==> taken.contains(#[trigger] numbered(name, m)),
    ensures
        n - 2 <= taken.len(),
{
    let x = set_int_range(2, n);
    let f = |m: int| numbered(name, m as nat);
    lemma_int_range(2, n);
    assert(vstd::relations::injective_on(f, x)) by {
        assert forall|p: int, q: int| x.contains(p) && x.contains(q) && #[trigger] f(p) == #[trigger] f(
            q,
        ) implies p == q by {
            lemma_numbered_injective(name, p as nat, q as nat);
        }
    }
    let y = x.map(f);
    lemma_map_size(x, y, f);
    let s = taken.to_set();
    assert(y.subset_of(s)) by {
        assert forall|v: Seq<char>| y.contains(v) implies s.contains(v) by {
            let m = choose|m: int| x.contains(m) && f(m) == v;
            assert(taken.contains(numbered(name, m as nat)));
        }
    }
    taken.lemma_cardinality_of_set();
    lemma_len_subset(y, s);
}

/// Names a test case `name`, or `name #n` for the first free `n` from 2 when that is
/// taken, and records the name as taken.
pub fn unique_test_name(seen: &mut Vec<String>, name: String) -> (r: String)
    requires
        old(seen)@.len() + 2 < usize::MAX,
    ensures
        r@ == case_name(texts(old(seen)@), name@),
        texts(final(seen)@) == texts(old(seen)@).push(r@),
{
    let ghost taken = texts(seen@);
    if !contains_text(seen.as_slice(), name.as_str()) {
        let r = name.clone();
        seen.push(name);
        assert(texts(seen@) =~= taken.push(r@));
        return r;
    }
    let mut n: usize = 2;
    loop
        invariant
            2 <= n <= taken.len() + 2,
            taken.len() + 2 < usize::MAX,
            taken == texts(old(seen)@),
            texts(seen@) == taken,
            taken.contains(name@),
            forall|m: nat| 2 <= m < n ==> taken.contains(#[trigger] numbered(name@, m)),
        decreases taken.len() + 2 - n,
    {
        let mut candidate = String::new();
        candidate.append(name.as_str());
        candidate.append(" #");
        push_dec(&mut candidate, n);
        assert(candidate@ =~= numbered(name@, n as nat));
        if !contains_text(seen.as_slice(), candidate.as_str()) {
            proof {
                let k = least_free(taken, name@);
                assert(n >= 2 && !taken.contains(numbered(name@, n as nat)) && forall|m: nat|
                    2 <= m < n ==> taken.contains(#[trigger] numbered(name@, m)));
                if k != n {
                    if k < n {
                        assert(taken.contains(numbered(name@, k)));
                    } else {
                        assert(taken.contains(numbered(name@, n as nat)));
                    }
                }
            }
            let r = candidate.clone();
            seen.push(candidate);
            assert(texts(seen@) =~= taken.push(r@));
            return r;
        }
        proof {
            lemma_taken_bound(taken, name@, n + 1);
        }
        n += 1;
    }
}

proof fn lemma_has_least(taken: Seq<Seq<char>>, name: Seq<char>, i: nat, n: nat)
    requires
        2 <= i <= n,
        !taken.contains(numbered(name, n)),
        forall|m: nat| 2 <= m < i ==> taken.contains(#[trigger] numbered(name, m)),
    ensures
        exists|k: nat|
            k >= 2 && !taken.contains(numbered(name, k)) && forall|m: nat|
                2 <= m < k ==> taken.contains(#[trigger] numbered(name, m)),
    decreases n - i,
{
    if !taken.contains(numbered(name, i)) {
        assert(i >= 2 && !taken.contains(numbered(name, i)) && forall|m: nat|
            2 <= m < i ==> taken.contains(#[trigger] numbered(name, m)));
    } else {
        lemma_has_least(taken, name, i + 1, n);
    }
}

/// Every case keeps a name of its own: the name given is never one already taken.
pub proof fn lemma_case_name_is_free(taken: Seq<Seq<char>>, name: Seq<char>)
    ensures
        !taken.contains(case_name(taken, name)),
{
    if taken.contains(name) {
        let n = (taken.len() + 2) as nat;
        if taken.contains(numbered(name, n)) {
            if forall|m: nat| 2 <= m < n ==> taken.contains(#[trigger] numbered(name, m)) {
                lemma_taken_bound(taken, name, n + 1int);
            }
            let w = choose|m: nat| 2 <= m < n && !taken.contains(#[trigger] numbered(name, m));
            lemma_has_least(taken, name, 2, w);
        } else {
            lemma_has_least(taken, name, 2, n);
        }
    }
}

} // verus!
