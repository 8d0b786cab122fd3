//! What a method call on a dataframe does to the schema tracked beside it: `pull` reads a
//! column, `filter` checks its conditions, `sort` and friends check the names they list,
//! `head` and friends keep every column, `rename`, `select_names` and `mutate` reshape the
//! schema, and `group_by` checks its keys and keeps them beside the schema.

use vstd::prelude::*;
use crate::frames::FrameCol;
use crate::frame_schema::{
    FrameSchema, SchemaView, lookup, first_miss, rename_spec, select_upto, derive_upto, item_view,
    check_names, rename, select_names, mutate_schema, miss_view,
};
use crate::col_expr::{ColExpr, ColError, ColFault, col_expr, col_spec, fault_of};
use crate::text::texts;

verus! {

/// A method call on a frame, its arguments as the schema analysis reads them.
#[derive(Debug)]
pub enum FrameCall {
    /// `pull("name")`.
    Pull(String),
    /// `filter(conditions...)`.
    Filter(Vec<ColExpr>),
    /// `sort`, `arrange`, `distinct` or `drop_nulls` with the column names they list.
    Check(Vec<String>),
    /// `head`, `tail`, `slice`, `take` or `sample`.
    Keep,
    /// `rename(from, to)`.
    Rename(String, String),
    /// `select_names([names])`.
    SelectNames(Vec<String>),
    /// `mutate([items])` / `with_columns`: each item's name (when it has one) and
    /// expression.
    Mutate(Vec<(Option<String>, ColExpr)>),
    /// `group_by([keys])`.
    GroupBy(Vec<String>),
}

/// What a call gives: the column `pull` reads, the frame's schema after the call, or a
/// grouped frame's schema and keys.
#[derive(Debug)]
pub enum CallOutcome {
    Column(FrameCol),
    Frame(FrameSchema),
    Grouped(FrameSchema, Vec<String>),
}

/// What the contracts see of an outcome.
pub enum OutcomeView {
    Column(FrameCol),
    Frame(SchemaView),
    Grouped(SchemaView, Seq<Seq<char>>),
}

pub open spec fn outcome_view(o: CallOutcome) -> OutcomeView {
    match o {
        CallOutcome::Column(c) => OutcomeView::Column(c),
        CallOutcome::Frame(s) => OutcomeView::Frame(s.view_of()),
        CallOutcome::Grouped(s, ks) => OutcomeView::Grouped(s.view_of(), texts(ks@)),
    }
}

pub open spec fn call_view(r: Result<CallOutcome, ColError>) -> Result<OutcomeView, ColFault> {
    match r {
        Ok(o) => Ok(outcome_view(o)),
        Err(e) => Err(fault_of(e)),
    }
}

/// The first refusal among the first `k` conditions.
pub open spec fn conds_fault(conds: Seq<ColExpr>, es: Seq<(Seq<char>, FrameCol)>, closed: bool, k: int) -> Option<
    ColFault,
>
    decreases k,
{
    if k <= 0 {
        None
    } else {
        match conds_fault(conds, es, closed, k - 1) {
            Some(f) => Some(f),
            None => match col_spec(conds[k - 1], es, closed) {
                Err(f) => Some(f),
                Ok(_) => None,
            },
        }
    }
}

/// The columns the first `k` items compute, each with its name, or the first refusal.
pub open spec fn items_cols(
    items: Seq<(Option<String>, ColExpr)>,
    es: Seq<(Seq<char>, FrameCol)>,
    closed: bool,
    k: int,
) -> Result<Seq<(Option<Seq<char>>, FrameCol)>, ColFault>
    decreases k,
{
    if k <= 0 {
        Ok(seq![])
    } else {
        match items_cols(items, es, closed, k - 1) {
            Err(f) => Err(f),
            Ok(acc) => match col_spec(items[k - 1].1, es, closed) {
                Err(f) => Err(f),
                Ok((c, _)) => Ok(
                    acc.push(
                        (
                            match items[k - 1].0 {
                                Some(n) => Some(n@),
                                None => None,
                            },
                            c,
                        ),
                    ),
                ),
            },
        }
    }
}

/// What the call `c` gives on a frame with the columns `es` (`closed` when it has no
/// others), or the first refusal: a name a closed schema lacks, or a column expression
/// refused.
pub open spec fn call_spec(c: FrameCall, es: Seq<(Seq<char>, FrameCol)>, closed: bool) -> Result<
    OutcomeView,
    ColFault,
> {
    match c {
        FrameCall::Pull(n) => match lookup(es, closed, n@) {
            Ok(col) => Ok(OutcomeView::Column(col)),
            Err(m) => Err(ColFault::Missing(m.0, m.1)),
        },
        FrameCall::Filter(cs) => match conds_fault(cs@, es, closed, cs@.len() as int) {
            Some(f) => Err(f),
            None => Ok(OutcomeView::Frame((es, closed))),
        },
        FrameCall::Check(ns) => match first_miss(es, closed, texts(ns@), ns@.len() as int) {
            Some(m) => Err(ColFault::Missing(m.0, m.1)),
            None => Ok(OutcomeView::Frame((es, closed))),
        },
        FrameCall::Keep => Ok(OutcomeView::Frame((es, closed))),
        FrameCall::Rename(from, to) => match rename_spec(es, closed, from@, to@) {
            Ok(v) => Ok(OutcomeView::Frame(v)),
            Err(m) => Err(ColFault::Missing(m.0, m.1)),
        },
        FrameCall::SelectNames(ns) => match select_upto(es, closed, texts(ns@), ns@.len() as int) {
            Ok(acc) => Ok(OutcomeView::Frame((acc, closed))),
            Err(m) => Err(ColFault::Missing(m.0, m.1)),
        },
        FrameCall::Mutate(items) => match items_cols(items@, es, closed, items@.len() as int) {
            Err(f) => Err(f),
            Ok(iv) => Ok(OutcomeView::Frame(derive_upto(es, closed, iv, iv.len() as int))),
        },
        FrameCall::GroupBy(ks) => match first_miss(es, closed, texts(ks@), ks@.len() as int) {
            Some(m) => Err(ColFault::Missing(m.0, m.1)),
            None => Ok(OutcomeView::Grouped((es, closed), texts(ks@))),
        },
    }
}

fn check_conds(conds: &Vec<ColExpr>, recv: &FrameSchema) -> (r: Result<(), ColError>)
    ensures
        match conds_fault(conds@, recv.entries(), recv.closed, conds@.len() as int) {
            Some(f) => r matches Err(e) && fault_of(e) == f,
            None => r is Ok,
        },
{
    let mut k: usize = 0;
    while k < conds.len()
        invariant
            k <= conds@.len(),
            conds_fault(conds@, recv.entries(), recv.closed, k as int) is None,
        decreases conds@.len() - k,
    {
        match col_expr(&conds[k], recv) {
            Ok(_) => {},
            Err(e) => {
                proof {
                    lemma_fault_sticks(conds@, recv.entries(), recv.closed, k + 1, conds@.len() as int);
                }
                return Err(e);
            },
        }
        k += 1;
    }
    Ok(())
}

proof fn lemma_fault_sticks(conds: Seq<ColExpr>, es: Seq<(Seq<char>, FrameCol)>, closed: bool, k: int, n: int)
    requires
        0 < k <= n,
        conds_fault(conds, es, closed, k) is Some,
    ensures
        conds_fault(conds, es, closed, n) == conds_fault(conds, es, closed, k),
    decreases n - k,
{
    if k < n {
        lemma_fault_sticks(conds, es, closed, k, n - 1);
    }
}

proof fn lemma_items_err_sticks(
    items: Seq<(Option<String>, ColExpr)>,
    es: Seq<(Seq<char>, FrameCol)>,
    closed: bool,
    k: int,
    n: int,
)
    requires
        0 < k <= n,
        items_cols(items, es, closed, k) is Err,
    ensures
        items_cols(items, es, closed, n) == items_cols(items, es, closed, k),
    decreases n - k,
{
    if k < n {
        lemma_items_err_sticks(items, es, closed, k, n - 1);
    }
}

fn compute_items(items: &Vec<(Option<String>, ColExpr)>, recv: &FrameSchema) -> (r: Result<
    Vec<(Option<String>, FrameCol)>,
    ColError,
>)
    ensures
        match items_cols(items@, recv.entries(), recv.closed, items@.len() as int) {
            Ok(iv) => r matches Ok(v) && item_view(v@) == iv,
            Err(f) => r matches Err(e) && fault_of(e) == f,
        },
{
    let mut out: Vec<(Option<String>, FrameCol)> = Vec::new();
    let mut k: usize = 0;
    assert(item_view(out@) =~= Seq::<(Option<Seq<char>>, FrameCol)>::empty());
    while k < items.len()
        invariant
            k <= items@.len(),
            items_cols(items@, recv.entries(), recv.closed, k as int) == Ok::<
                Seq<(Option<Seq<char>>, FrameCol)>,
                ColFault,
            >(item_view(out@)),
        decreases items@.len() - k,
    {
        match col_expr(&items[k].1, recv) {
            Ok((c, _)) => {
                let name = match &items[k].0 {
                    Some(n) => Some(n.clone()),
                    None => None,
                };
                let ghost before = item_view(out@);
                out.push((name, c));
                assert(item_view(out@) =~= before.push(
                    (
                        match items@[k as int].0 {
                            Some(n) => Some(n@),
                            None => None,
                        },
                        c,
                    ),
                ));
            },
            Err(e) => {
                proof {
                    lemma_items_err_sticks(items@, recv.entries(), recv.closed, k + 1, items@.len() as int);
                }
                return Err(e);
            },
        }
        k += 1;
    }
    Ok(out)
}

fn copy_names(v: &Vec<String>) -> (r: Vec<String>)
    ensures
        texts(r@) == texts(v@),
{
    let mut out: Vec<String> = Vec::new();
    let mut k: usize = 0;
    while k < v.len()
        invariant
            k <= v@.len(),
            texts(out@) == texts(v@).take(k as int),
        decreases v@.len() - k,
    {
        let s = v[k].clone();
        let ghost before = out@;
        out.push(s);
        assert(texts(out@) =~= texts(before).push(s@));
        assert(texts(v@).take(k + 1) =~= texts(v@).take(k as int).push(v@[k as int]@));
        assert(texts(out@) =~= texts(v@).take(k + 1));
        k += 1;
    }
    assert(texts(v@).take(v@.len() as int) =~= texts(v@));
    out
}

/// The method call `c` on a frame of schema `recv`: the column `pull` reads, the frame's
/// schema after the call, or the grouped schema and its keys; or the first refusal (a
/// name a closed schema lacks, a column expression refused).
pub fn frame_method_call(c: &FrameCall, recv: &FrameSchema) -> (r: Result<CallOutcome, ColError>)
    requires
        recv.wf(),
    ensures
        call_view(r) == call_spec(*c, recv.entries(), recv.closed),
        r matches Ok(CallOutcome::Frame(s)) ==> s.wf(),
{
    match c {
        FrameCall::Pull(n) => match recv.col(n.as_str()) {
            Ok(col) => Ok(CallOutcome::Column(col)),
            Err(m) => Err(ColError::Missing(m)),
        },
        FrameCall::Filter(cs) => match check_conds(cs, recv) {
            Ok(_) => Ok(CallOutcome::Frame(recv.duplicate())),
            Err(e) => Err(e),
        },
        FrameCall::Check(ns) => match check_names(recv, ns.as_slice()) {
            Ok(_) => Ok(CallOutcome::Frame(recv.duplicate())),
            Err(m) => Err(ColError::Missing(m)),
        },
        FrameCall::Keep => Ok(CallOutcome::Frame(recv.duplicate())),
        FrameCall::Rename(from, to) => match rename(recv, from.as_str(), to.as_str()) {
            Ok(s) => Ok(CallOutcome::Frame(s)),
            Err(m) => Err(ColError::Missing(m)),
        },
        FrameCall::SelectNames(ns) => match select_names(recv, ns.as_slice()) {
            Ok(s) => Ok(CallOutcome::Frame(s)),
            Err(m) => Err(ColError::Missing(m)),
        },
        FrameCall::Mutate(items) => match compute_items(items, recv) {
            Ok(cols) => {
                let s = mutate_schema(recv, Some(cols.as_slice()));
                Ok(CallOutcome::Frame(s))
            },
            Err(e) => Err(e),
        },
        FrameCall::GroupBy(ks) => match check_names(recv, ks.as_slice()) {
            Ok(_) => Ok(CallOutcome::Grouped(recv.duplicate(), copy_names(ks))),
            Err(m) => Err(ColError::Missing(m)),
        },
    }
}

} // verus!
