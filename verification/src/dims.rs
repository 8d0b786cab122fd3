//! What dimensional analysis knows about a value, and how two such facts combine.
//!
//! A plain number is dimensionless; `+ - %` and comparisons need both sides in one
//! dimension; a value the analysis cannot follow is unknown, and unknown never causes an
//! error.

use vstd::prelude::*;
use crate::units::Dim;

verus! {

/// What the analysis knows about a value.
#[derive(Debug)]
pub enum D {
    /// Can't tell (or isn't a number): never an error.
    Any,
    /// A number in this dimension; the dimensionless dimension is a plain number.
    Q(Dim),
    /// A list whose items share one dimension.
    Arr(Box<D>),
    /// An interval of numbers in this dimension.
    Iv(Dim),
}

/// The dimension of a quantity or of an interval of them.
pub open spec fn dim_of(d: D) -> Option<Dim> {
    match d {
        D::Q(x) | D::Iv(x) => Some(x),
        _ => None,
    }
}

/// Two known dimensions that differ, looking through lists; `None` when either side is
/// unknown or they agree.
pub open spec fn clash_of(a: D, b: D) -> Option<(Dim, Dim)>
    decreases a,
{
    match (a, b) {
        (D::Arr(x), D::Arr(y)) => clash_of(*x, *y),
        _ => match (dim_of(a), dim_of(b)) {
            (Some(x), Some(y)) => if x != y {
                Some((x, y))
            } else {
                None
            },
            _ => None,
        },
    }
}

/// The fact two agreeing values share: the same quantity (or interval) when both are it,
/// lists of the shared item fact, and unknown otherwise.
pub open spec fn join_of(a: D, b: D) -> D
    decreases a,
{
    match (a, b) {
        (D::Q(x), D::Q(y)) => if x == y {
            a
        } else {
            D::Any
        },
        (D::Iv(x), D::Iv(y)) => if x == y {
            a
        } else {
            D::Any
        },
        (D::Arr(x), D::Arr(y)) => D::Arr(Box::new(join_of(*x, *y))),
        _ => D::Any,
    }
}

fn same_dim(x: &Dim, y: &Dim) -> (r: bool)
    ensures
        r == (*x == *y),
{
    let r = *x == *y;
    proof {
        if x.0@ == y.0@ {
            vstd::array::axiom_array_ext_equal(x.0, y.0);
        }
    }
    r
}

impl D {
    /// The dimension of a quantity or an interval of them.
    pub fn dim(&self) -> (r: Option<Dim>)
        ensures
            r == dim_of(*self),
    {
        match self {
            D::Q(d) | D::Iv(d) => Some(*d),
            _ => None,
        }
    }
}

/// Two known dimensions that differ; `None` when either is unknown or they agree.
pub fn clash(a: &D, b: &D) -> (r: Option<(Dim, Dim)>)
    ensures
        r == clash_of(*a, *b),
    decreases a,
{
    match (a, b) {
        (D::Arr(x), D::Arr(y)) => clash(x, y),
        _ => match (a.dim(), b.dim()) {
            (Some(x), Some(y)) => if !same_dim(&x, &y) {
                Some((x, y))
            } else {
                None
            },
            _ => None,
        },
    }
}

/// The dimension two agreeing values share (unknown wins, so a doubt propagates as a
/// doubt).
pub fn join(a: D, b: &D) -> (r: D)
    ensures
        r == join_of(a, *b),
    decreases a,
{
    match a {
        D::Q(x) => match b {
            D::Q(y) if same_dim(&x, y) => D::Q(x),
            _ => D::Any,
        },
        D::Iv(x) => match b {
            D::Iv(y) if same_dim(&x, y) => D::Iv(x),
            _ => D::Any,
        },
        D::Arr(x) => match b {
            D::Arr(y) => D::Arr(Box::new(join(*x, y))),
            _ => D::Any,
        },
        D::Any => D::Any,
    }
}

/// Nothing clashes with itself.
pub proof fn lemma_no_self_clash(a: D)
    ensures
        clash_of(a, a) is None,
    decreases a,
{
    if let D::Arr(x) = a {
        lemma_no_self_clash(*x);
    }
}

/// A clash found one way round is found the other way round, its two sides swapped.
pub proof fn lemma_clash_symmetric(a: D, b: D)
    ensures
        clash_of(b, a) == match clash_of(a, b) {
            Some((x, y)) => Some((y, x)),
            None => None::<(Dim, Dim)>,
        },
    decreases a,
{
    if let (D::Arr(x), D::Arr(y)) = (a, b) {
        lemma_clash_symmetric(*x, *y);
    }
}

/// Joining is symmetric, and joining a fact with itself gives it back.
pub proof fn lemma_join_laws(a: D, b: D)
    ensures
        join_of(a, b) == join_of(b, a),
        join_of(a, a) == a,
    decreases a,
{
    if let (D::Arr(x), D::Arr(y)) = (a, b) {
        lemma_join_laws(*x, *y);
    }
    if let D::Arr(x) = a {
        lemma_join_laws(*x, *x);
    }
}

/// When the join knows a dimension, both sides had it and did not clash.
pub proof fn lemma_join_known(a: D, b: D)
    ensures
        dim_of(join_of(a, b)) matches Some(x) ==> dim_of(a) == Some(x) && dim_of(b) == Some(x)
            && clash_of(a, b) is None,
{
}

/// A value the analysis cannot follow never clashes with anything.
pub proof fn lemma_unknown_never_clashes(b: D)
    ensures
        clash_of(D::Any, b) is None,
        clash_of(b, D::Any) is None,
{
}

} // verus!
