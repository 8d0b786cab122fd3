//! The `#[test]` and `#[tests]` markers on an item: which uses are errors.
//!
//! `#[test]` marks a free function taking no parameters; `#[tests]` marks a list of
//! checks. Each marker may appear once per item, and no other marker exists.

use vstd::prelude::*;
use crate::text::{same_text, texts};

verus! {

/// What an attribute is attached to, as far as checking it goes.
#[derive(Debug, Clone, Copy, PartialEq, Eq, Structural)]
pub enum AttrTarget {
    /// A function: whether it is a method, and whether it takes parameters.
    Function { is_method: bool, has_params: bool },
    /// A `#[tests]` list.
    Tests,
    /// Any other item.
    Other,
}

/// What is wrong with an attribute.
#[derive(Debug, Clone, Copy, PartialEq, Eq, Structural)]
pub enum AttrProblem {
    /// The marker appears a second time on the item.
    Duplicate,
    /// A test marker where tests are not allowed, or on a method.
    TestOnMethod,
    /// `#[test]` on a function that takes parameters.
    TestTakesParameters,
    /// `#[test]` on something other than a function.
    NotOnFunction,
    /// `#[tests]` on something other than a list of checks.
    TestsNeedsList,
    /// A marker that does not exist.
    Unknown,
}

/// One error about the attribute at index `at`; the errors that quote the attribute carry
/// its name.
#[derive(Debug)]
pub struct AttrError {
    pub problem: AttrProblem,
    pub at: usize,
    pub name: Option<String>,
}

/// An error as the contracts see it.
pub type ErrView = (AttrProblem, int, Option<Seq<char>>);

/// The errors the attribute `name` at index `at` raises, given whether `test` and `tests`
/// were seen before it.
pub open spec fn attr_errors(
    name: Seq<char>,
    at: int,
    target: AttrTarget,
    allow_test: bool,
    seen_test: bool,
    seen_tests: bool,
) -> Seq<ErrView> {
    if name == "test"@ {
        (if seen_test {
            seq![(AttrProblem::Duplicate, at, Some(name))]
        } else {
            seq![]
        }) + match target {
            AttrTarget::Function { is_method, has_params } => if allow_test {
                (if is_method {
                    seq![(AttrProblem::TestOnMethod, at, None)]
                } else {
                    seq![]
                }) + (if has_params {
                    seq![(AttrProblem::TestTakesParameters, at, None)]
                } else {
                    seq![]
                })
            } else {
                seq![(AttrProblem::TestOnMethod, at, None)]
            },
            _ => seq![(AttrProblem::NotOnFunction, at, Some(name))],
        }
    } else if name == "tests"@ {
        (if seen_tests {
            seq![(AttrProblem::Duplicate, at, Some(name))]
        } else {
            seq![]
        }) + match target {
            AttrTarget::Tests => if allow_test {
                seq![]
            } else {
                seq![(AttrProblem::TestOnMethod, at, None)]
            },
            _ => seq![(AttrProblem::TestsNeedsList, at, None)],
        }
    } else {
        seq![(AttrProblem::Unknown, at, Some(name))]
    }
}

/// The errors the first `k` attributes `names` raise, in order.
pub open spec fn errors_upto(names: Seq<Seq<char>>, target: AttrTarget, allow_test: bool, k: int) -> Seq<
    ErrView,
>
    decreases k,
{
    if k <= 0 || k > names.len() {
        seq![]
    } else {
        let before = names.take(k - 1);
        errors_upto(names, target, allow_test, k - 1) + attr_errors(
            names[k - 1],
            k - 1,
            target,
            allow_test,
            before.contains("test"@),
            before.contains("tests"@),
        )
    }
}

/// The views of a list of errors.
pub open spec fn errors_view(v: Seq<AttrError>) -> Seq<ErrView> {
    v.map_values(
        |e: AttrError|
            (
                e.problem,
                e.at as int,
                match e.name {
                    Some(n) => Some(n@),
                    None => None,
                },
            ),
    )
}

fn report(out: &mut Vec<AttrError>, problem: AttrProblem, at: usize, name: Option<&String>)
    ensures
        errors_view(final(out)@) == errors_view(old(out)@).push(
            (
                problem,
                at as int,
                match name {
                    Some(n) => Some(n@),
                    None => None,
                },
            ),
        ),
{
    let name = match name {
        Some(n) => Some(n.clone()),
        None => None,
    };
    let ghost before = out@;
    out.push(AttrError { problem, at, name });
    assert(errors_view(out@) =~= errors_view(before).push(errors_view(out@).last()));
}

/// The errors the attributes `attrs` of an item raise, in order: a second `test` or
/// `tests` is a duplicate; `test` belongs on a function (not a method, and one without
/// parameters, where tests are allowed at all) and `tests` on a list of checks; any
/// other name is unknown.
pub fn validate_attrs(attrs: &[String], target: AttrTarget, allow_test: bool) -> (r: Vec<AttrError>)
    ensures
        errors_view(r@) == errors_upto(texts(attrs@), target, allow_test, attrs@.len() as int),
{
    let ghost names = texts(attrs@);
    let mut out: Vec<AttrError> = Vec::new();
    let mut seen_test = false;
    let mut seen_tests = false;
    let mut k: usize = 0;
    while k < attrs.len()
        invariant
            k <= attrs@.len(),
            names == texts(attrs@),
            seen_test == names.take(k as int).contains("test"@),
            seen_tests == names.take(k as int).contains("tests"@),
            errors_view(out@) == errors_upto(names, target, allow_test, k as int),
        decreases attrs@.len() - k,
    {
        let name = &attrs[k];
        let ghost start = errors_view(out@);
        let ghost errs = attr_errors(names[k as int], k as int, target, allow_test, seen_test, seen_tests);
        assert(names[k as int] == name@);
        if same_text(name.as_str(), "test") {
            if seen_test {
                report(&mut out, AttrProblem::Duplicate, k, Some(name));
            }
            seen_test = true;
            match target {
                AttrTarget::Function { is_method, has_params } => {
                    if allow_test {
                        if is_method {
                            report(&mut out, AttrProblem::TestOnMethod, k, None);
                        }
                        if has_params {
                            report(&mut out, AttrProblem::TestTakesParameters, k, None);
                        }
                    } else {
                        report(&mut out, AttrProblem::TestOnMethod, k, None);
                    }
                },
                _ => report(&mut out, AttrProblem::NotOnFunction, k, Some(name)),
            }
        } else if same_text(name.as_str(), "tests") {
            if seen_tests {
                report(&mut out, AttrProblem::Duplicate, k, Some(name));
            }
            seen_tests = true;
            match target {
                AttrTarget::Tests => {
                    if !allow_test {
                        report(&mut out, AttrProblem::TestOnMethod, k, None);
                    }
                },
                _ => report(&mut out, AttrProblem::TestsNeedsList, k, None),
            }
        } else {
            report(&mut out, AttrProblem::Unknown, k, Some(name));
        }
        proof {
            reveal_strlit("test");
            reveal_strlit("tests");
            assert(errors_view(out@) =~= start + errs);
            assert(names.take(k + 1) =~= names.take(k as int).push(names[k as int]));
            assert(names.take(k + 1).take(k as int) =~= names.take(k as int));
            vstd::seq_lib::lemma_seq_contains_after_push(names.take(k as int), names[k as int], "test"@);
            vstd::seq_lib::lemma_seq_contains_after_push(names.take(k as int), names[k as int], "tests"@);
        }
        k += 1;
    }
    assert(names.take(attrs@.len() as int) =~= names);
    out
}

/// Whether the parser keeps an error raised with its cursor at `next`: not when an error
/// was already raised at that position (`last_error`), nor when the input was cut short and
/// the cursor sits at its end (`explained`).
pub open spec fn kept(last_error: Option<usize>, next: usize, explained: bool) -> bool {
    last_error != Some(next) && !explained
}

/// Whether the parser keeps an error raised at `next`, and the position it marks as the
/// last one with an error (always `next`).
pub fn error_kept(last_error: Option<usize>, next: usize, explained: bool) -> (r: (bool, Option<usize>))
    ensures
        r.0 == kept(last_error, next, explained),
        r.1 == Some(next),
{
    let fresh = match last_error {
        Some(at) => at != next,
        None => true,
    };
    (fresh && !explained, Some(next))
}

/// Once an error has been raised at a cursor position, no later error at that position is
/// kept: of the errors one attribute check raises, at most the first is reported.
pub proof fn lemma_one_error_per_position(next: usize, explained: bool)
    ensures
        !kept(Some(next), next, explained),
{
}

} // verus!
