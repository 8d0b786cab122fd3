//! The pure dataflow structure of one function body, for drawing as a block diagram: its
//! parameters, the operations between them and its return, and which operation's value
//! feeds which other operation.
//!
//! Only straight-line bodies are drawn. A body compiles to a chain of blocks joined by
//! plain `Jump`s, which is walked as one sequence; a real decision (a conditional jump, a
//! switch, a loop step, a phi, or coming back to a block already walked) stops the walk.

use vstd::prelude::*;
use crate::items::first_at;
use crate::text::{dec, join_with, push_dec, push_dec_u64, same_text};

verus! {

/// A constant operand, as the lowered program holds it. A float keeps the text `Display`
/// writes for it, and a string the text `Debug` writes for it (quotes and escapes).
#[derive(Debug)]
pub enum Constant {
    Bool(bool),
    Int(i64),
    Float(String),
    Str(String),
    Null,
    Array(Vec<Constant>),
}

/// A piece of a format string: an interpolated value, or literal text.
#[derive(Debug)]
pub enum FormatPart {
    Value(usize),
    Literal,
}

/// One lowered instruction. Operands are instruction ids; `op` holds the operator's
/// symbol; `body`, `adt`, `key`, `slot` and `id` are the ids of a function body, a type,
/// an interned string, a field slot and a native function.
#[derive(Debug)]
pub enum Inst {
    Constant(Constant),
    BinOp { op: String, left: usize, right: usize },
    UnaryOp { op: String, right: usize },
    NewArray,
    NewDict,
    SetIndex { set: usize, index: usize, value: usize },
    GetIndex { set: usize, index: usize },
    GetField { src: usize, slot: usize },
    SetField { receiver: usize, value: usize, slot: usize },
    Push { array: usize, value: usize },
    Insert { dict: usize, value: usize, key: usize },
    Len(usize),
    ToFloat(usize),
    Sqrt(usize),
    Unwrap(usize),
    Raise(usize),
    IsRaised(usize),
    UnwrapRaised(usize),
    In(usize, usize, bool),
    Format(Vec<FormatPart>),
    RefBody(usize),
    MakeClosure { body: usize, captures: Vec<usize> },
    Call { callee: usize, args: Vec<usize> },
    CallDirect { body: usize, args: Vec<usize> },
    CallNative { id: usize, args: Vec<usize> },
    NewInstance { adt: usize, fields: Vec<usize> },
    IsInstance { adt: usize, src: usize },
    Panic,
    GetLocal(usize),
    SetLocal(usize, usize),
    Return(usize),
    Jump { target: usize },
    JumpIfFalse,
    Switch,
    Phi,
    ForNext,
}

/// One function body: its parameters (local ids), the declaration of each local, the
/// instruction stream of each block, and the instructions by id.
#[derive(Debug)]
pub struct Body {
    pub params: Vec<usize>,
    pub locals: Vec<usize>,
    pub blocks: Vec<Vec<usize>>,
    pub instructions: Vec<Inst>,
}

/// A lowered program, as much of it as the dataflow view reads.
#[derive(Debug)]
pub struct Ir {
    /// Each top-level item with a body: its declaration id and its body id, in order.
    pub item_bodies: Vec<(usize, usize)>,
    /// Declaration names, by declaration id.
    pub dec_names: Vec<String>,
    /// Type names, by type id.
    pub adt_names: Vec<String>,
    /// Interned strings, by id.
    pub strs: Vec<String>,
    pub bodies: Vec<Body>,
}

/// The decimal text of a signed integer.
pub open spec fn int_text(i: int) -> Seq<char> {
    if i < 0 {
        "-"@ + dec((-i) as nat)
    } else {
        dec(i as nat)
    }
}

/// The label of a constant: its value as the program would print it.
pub open spec fn constant_text(c: Constant) -> Seq<char>
    decreases c, 0nat,
{
    match c {
        Constant::Bool(b) => if b {
            "true"@
        } else {
            "false"@
        },
        Constant::Int(i) => int_text(i as int),
        Constant::Float(t) => t@,
        Constant::Str(t) => t@,
        Constant::Null => "null"@,
        Constant::Array(items) => "["@ + constants_text(items@, items@.len() as int) + "]"@,
    }
}

/// The labels of the first `n` of `items`, joined by `, `.
pub open spec fn constants_text(items: Seq<Constant>, n: int) -> Seq<char>
    decreases items, 1nat, n,
{
    if n <= 0 || n > items.len() {
        seq![]
    } else if n == 1 {
        constant_text(items[0])
    } else {
        constants_text(items, n - 1) + ", "@ + constant_text(items[n - 1])
    }
}

/// Appends the decimal text of `i`.
fn push_int(out: &mut String, i: i64)
    ensures
        final(out)@ == old(out)@ + int_text(i as int),
{
    if i < 0 {
        out.append("-");
        let m: u64 = if i == i64::MIN {
            9223372036854775808u64
        } else {
            (-i) as u64
        };
        push_dec_u64(out, m);
    } else {
        push_dec_u64(out, i as u64);
    }
}

/// The label of a constant: its value as the program would print it.
fn constant_label(c: &Constant) -> (r: String)
    ensures
        r@ == constant_text(*c),
    decreases c,
{
    match c {
        Constant::Bool(b) => if *b {
            "true".to_owned()
        } else {
            "false".to_owned()
        },
        Constant::Int(i) => {
            let mut r = String::new();
            push_int(&mut r, *i);
            r
        },
        Constant::Float(t) => t.clone(),
        Constant::Str(t) => t.clone(),
        Constant::Null => "null".to_owned(),
        Constant::Array(items) => {
            let mut r = String::new();
            r.append("[");
            let mut k: usize = 0;
            while k < items.len()
                invariant
                    k <= items@.len(),
                    *c is Array && (*c)->Array_0 == *items,
                    r@ == "["@ + constants_text(items@, k as int),
                decreases items@.len() - k,
            {
                if k > 0 {
                    r.append(", ");
                }
                proof {
                    assert(decreases_to!(*c => (*c)->Array_0));
                    assert(decreases_to!(*items => items@));
                    assert(decreases_to!(items@ => items@[k as int]));
                }
                let s = constant_label(&items[k]);
                r.append(s.as_str());
                proof {
                    if k == 0 {
                        assert(constants_text(items@, 1) == constant_text(items@[0]));
                        assert(constants_text(items@, 0) == Seq::<char>::empty());
                    }
                }
                k += 1;
            }
            r.append("]");
            r
        },
    }
}

/// The last index below `n` that satisfies `p`.
pub open spec fn last_at(p: spec_fn(int) -> bool, n: int) -> Option<int>
    decreases n,
{
    if n <= 0 {
        None
    } else if p(n - 1) {
        Some(n - 1)
    } else {
        last_at(p, n - 1)
    }
}

/// Item `k` of `ir` has body `body`.
pub open spec fn has_body(ir: Ir, body: int) -> spec_fn(int) -> bool {
    |k: int| ir.item_bodies@[k].1 == body
}

/// The name a direct reference to `body` is labelled with: the last item with that body,
/// or `?` when no item has it.
pub open spec fn body_name(ir: Ir, body: int) -> Seq<char> {
    match last_at(has_body(ir, body), ir.item_bodies@.len() as int) {
        Some(k) => ir.dec_names@[ir.item_bodies@[k].0 as int]@,
        None => "?"@,
    }
}

/// Every item names a declaration and a body of `ir`.
pub open spec fn items_ok(ir: Ir) -> bool {
    forall|k: int|
        0 <= k < ir.item_bodies@.len() ==> (#[trigger] ir.item_bodies@[k]).0 < ir.dec_names@.len()
            && ir.item_bodies@[k].1 < ir.bodies@.len()
}

fn body_label<'a>(ir: &'a Ir, body: usize) -> (r: &'a str)
    requires
        items_ok(*ir),
    ensures
        r@ == body_name(*ir, body as int),
{
    let mut k = ir.item_bodies.len();
    while k > 0
        invariant
            k <= ir.item_bodies@.len(),
            items_ok(*ir),
            last_at(has_body(*ir, body as int), k as int) == last_at(
                has_body(*ir, body as int),
                ir.item_bodies@.len() as int,
            ),
        decreases k,
    {
        if ir.item_bodies[k - 1].1 == body {
            return ir.dec_names[ir.item_bodies[k - 1].0].as_str();
        }
        k -= 1;
    }
    proof {
        reveal_strlit("?");
    }
    "?"
}

/// The instructions that never become a node of their own: local reads and writes, the
/// return, and control flow.
pub open spec fn is_special(inst: Inst) -> bool {
    inst is GetLocal || inst is SetLocal || inst is Return || inst is Jump || inst is JumpIfFalse
        || inst is Switch || inst is Phi || inst is ForNext
}

/// The label of an operation node.
pub open spec fn label_of(ir: Ir, inst: Inst) -> Seq<char> {
    match inst {
        Inst::Constant(c) => constant_text(c),
        Inst::BinOp { op, .. } => op@,
        Inst::UnaryOp { op, .. } => op@,
        Inst::NewArray => "[ ]"@,
        Inst::NewDict => "~{ }"@,
        Inst::SetIndex { .. } => "[i] ="@,
        Inst::GetIndex { .. } => "[i]"@,
        Inst::GetField { slot, .. } => "."@ + dec(slot as nat),
        Inst::SetField { slot, .. } => "."@ + dec(slot as nat) + " ="@,
        Inst::Push { .. } => "push"@,
        Inst::Insert { key, .. } => "insert ."@ + ir.strs@[key as int]@,
        Inst::Len(_) => "len"@,
        Inst::ToFloat(_) => "to_float"@,
        Inst::Sqrt(_) => "sqrt"@,
        Inst::Unwrap(_) => "unwrap"@,
        Inst::Raise(_) => "raise"@,
        Inst::IsRaised(_) => "is_raised"@,
        Inst::UnwrapRaised(_) => "unwrap_raised"@,
        Inst::In(_, _, condition) => if condition {
            "in"@
        } else {
            "not in"@
        },
        Inst::Format(_) => "format"@,
        Inst::RefBody(body) => "fn "@ + body_name(ir, body as int),
        Inst::MakeClosure { body, .. } => "closure "@ + body_name(ir, body as int),
        Inst::Call { .. } => "call"@,
        Inst::CallDirect { body, .. } => body_name(ir, body as int),
        Inst::CallNative { id, .. } => "native #"@ + dec(id as nat),
        Inst::NewInstance { adt, .. } => "new "@ + ir.adt_names@[adt as int]@,
        Inst::IsInstance { adt, .. } => "is "@ + ir.adt_names@[adt as int]@,
        _ => "panic"@,
    }
}

/// The instruction's ids point into `ir` and its body `b`.
pub open spec fn inst_ok(ir: Ir, b: Body, inst: Inst) -> bool {
    match inst {
        Inst::Insert { key, .. } => key < ir.strs@.len(),
        Inst::NewInstance { adt, .. } => adt < ir.adt_names@.len(),
        Inst::IsInstance { adt, .. } => adt < ir.adt_names@.len(),
        Inst::GetLocal(l) => l < b.locals@.len(),
        Inst::SetLocal(l, _) => l < b.locals@.len(),
        Inst::Jump { target } => target < b.blocks@.len(),
        _ => true,
    }
}

/// The label of the node an operation becomes.
fn node_label(ir: &Ir, b: &Body, inst: &Inst) -> (r: String)
    requires
        !is_special(*inst),
        items_ok(*ir),
        inst_ok(*ir, *b, *inst),
    ensures
        r@ == label_of(*ir, *inst),
{
    let mut r = String::new();
    match inst {
        Inst::Constant(c) => return constant_label(c),
        Inst::BinOp { op, .. } => r.append(op.as_str()),
        Inst::UnaryOp { op, .. } => r.append(op.as_str()),
        Inst::NewArray => r.append("[ ]"),
        Inst::NewDict => r.append("~{ }"),
        Inst::SetIndex { .. } => r.append("[i] ="),
        Inst::GetIndex { .. } => r.append("[i]"),
        Inst::GetField { slot, .. } => {
            r.append(".");
            push_dec(&mut r, *slot);
        },
        Inst::SetField { slot, .. } => {
            r.append(".");
            push_dec(&mut r, *slot);
            r.append(" =");
        },
        Inst::Push { .. } => r.append("push"),
        Inst::Insert { key, .. } => {
            r.append("insert .");
            r.append(ir.strs[*key].as_str());
        },
        Inst::Len(_) => r.append("len"),
        Inst::ToFloat(_) => r.append("to_float"),
        Inst::Sqrt(_) => r.append("sqrt"),
        Inst::Unwrap(_) => r.append("unwrap"),
        Inst::Raise(_) => r.append("raise"),
        Inst::IsRaised(_) => r.append("is_raised"),
        Inst::UnwrapRaised(_) => r.append("unwrap_raised"),
        Inst::In(_, _, condition) => if *condition {
            r.append("in")
        } else {
            r.append("not in")
        },
        Inst::Format(_) => r.append("format"),
        Inst::RefBody(body) => {
            r.append("fn ");
            r.append(body_label(ir, *body));
        },
        Inst::MakeClosure { body, .. } => {
            r.append("closure ");
            r.append(body_label(ir, *body));
        },
        Inst::Call { .. } => r.append("call"),
        Inst::CallDirect { body, .. } => r.append(body_label(ir, *body)),
        Inst::CallNative { id, .. } => {
            r.append("native #");
            push_dec(&mut r, *id);
        },
        Inst::NewInstance { adt, .. } => {
            r.append("new ");
            r.append(ir.adt_names[*adt].as_str());
        },
        Inst::IsInstance { adt, .. } => {
            r.append("is ");
            r.append(ir.adt_names[*adt].as_str());
        },
        _ => r.append("panic"),
    }
    r
}

/// An operand feeding a node: the instruction it comes from, and the port it arrives at.
pub type Operand = (int, Option<Seq<char>>);

/// The interpolated values of a format string, in order.
pub open spec fn format_operands(parts: Seq<FormatPart>) -> Seq<Operand>
    decreases parts.len(),
{
    if parts.len() == 0 {
        seq![]
    } else {
        let rest = format_operands(parts.drop_last());
        match parts.last() {
            FormatPart::Value(v) => rest.push((v as int, None)),
            FormatPart::Literal => rest,
        }
    }
}

/// The operands of an operation, with a port where one could be taken for another.
pub open spec fn operands_spec(inst: Inst) -> Seq<Operand> {
    match inst {
        Inst::BinOp { left, right, .. } => seq![
            (left as int, Some("left"@)),
            (right as int, Some("right"@)),
        ],
        Inst::UnaryOp { right, .. } => seq![(right as int, None)],
        Inst::SetIndex { set, index, value } => seq![
            (set as int, Some("set"@)),
            (index as int, Some("index"@)),
            (value as int, Some("value"@)),
        ],
        Inst::GetIndex { set, index } => seq![
            (set as int, Some("set"@)),
            (index as int, Some("index"@)),
        ],
        Inst::GetField { src, .. } => seq![(src as int, None)],
        Inst::SetField { receiver, value, .. } => seq![
            (receiver as int, Some("self"@)),
            (value as int, Some("value"@)),
        ],
        Inst::Push { array, value } => seq![
            (array as int, Some("array"@)),
            (value as int, Some("value"@)),
        ],
        Inst::Insert { dict, value, .. } => seq![
            (dict as int, Some("dict"@)),
            (value as int, Some("value"@)),
        ],
        Inst::Len(v) => seq![(v as int, None)],
        Inst::ToFloat(v) => seq![(v as int, None)],
        Inst::Sqrt(v) => seq![(v as int, None)],
        Inst::Unwrap(v) => seq![(v as int, None)],
        Inst::Raise(v) => seq![(v as int, None)],
        Inst::IsRaised(v) => seq![(v as int, None)],
        Inst::UnwrapRaised(v) => seq![(v as int, None)],
        Inst::In(needle, haystack, _) => seq![
            (needle as int, Some("needle"@)),
            (haystack as int, Some("in"@)),
        ],
        Inst::Format(parts) => format_operands(parts@),
        Inst::MakeClosure { captures, .. } => with_port(captures@, Some("capture"@)),
        Inst::Call { callee, args } => seq![(callee as int, Some("fn"@))] + with_port(args@, None),
        Inst::CallDirect { args, .. } => with_port(args@, None),
        Inst::CallNative { args, .. } => with_port(args@, None),
        Inst::NewInstance { fields, .. } => with_port(fields@, None),
        Inst::IsInstance { src, .. } => seq![(src as int, None)],
        _ => seq![],
    }
}

/// The view of an operand list.
pub open spec fn operands_view(v: Seq<(usize, Option<&str>)>) -> Seq<Operand> {
    v.map_values(|o: (usize, Option<&str>)| (o.0 as int, port_view(o.1)))
}

/// The view of a port.
pub open spec fn port_view(p: Option<&str>) -> Option<Seq<char>> {
    match p {
        Some(s) => Some(s@),
        None => None,
    }
}

/// `ids` as operands, all arriving at `port`.
pub open spec fn with_port(ids: Seq<usize>, port: Option<Seq<char>>) -> Seq<Operand> {
    ids.map_values(|v: usize| (v as int, port))
}

fn push_all(out: &mut Vec<(usize, Option<&'static str>)>, ids: &Vec<usize>, port: Option<
    &'static str,
>)
    ensures
        operands_view(final(out)@) == operands_view(old(out)@) + with_port(ids@, port_view(port)),
{
    let ghost start = operands_view(out@);
    let mut k: usize = 0;
    while k < ids.len()
        invariant
            k <= ids@.len(),
            start == operands_view(old(out)@),
            operands_view(out@) == start + with_port(ids@.take(k as int), port_view(port)),
        decreases ids@.len() - k,
    {
        let ghost before = out@;
        out.push((ids[k], port));
        proof {
            assert(operands_view(out@) =~= operands_view(before).push(
                (ids@[k as int] as int, port_view(port)),
            ));
            assert(with_port(ids@.take(k + 1), port_view(port)) =~= with_port(
                ids@.take(k as int),
                port_view(port),
            ).push((ids@[k as int] as int, port_view(port))));
        }
        k += 1;
    }
    assert(ids@.take(ids@.len() as int) =~= ids@);
}

/// The operands of an operation, with their ports.
fn operands_of(inst: &Inst) -> (r: Vec<(usize, Option<&'static str>)>)
    ensures
        operands_view(r@) == operands_spec(*inst),
{
    let mut r: Vec<(usize, Option<&'static str>)> = Vec::new();
    match inst {
        Inst::BinOp { left, right, .. } => {
            r.push((*left, Some("left")));
            r.push((*right, Some("right")));
        },
        Inst::UnaryOp { right, .. } => r.push((*right, None)),
        Inst::SetIndex { set, index, value } => {
            r.push((*set, Some("set")));
            r.push((*index, Some("index")));
            r.push((*value, Some("value")));
        },
        Inst::GetIndex { set, index } => {
            r.push((*set, Some("set")));
            r.push((*index, Some("index")));
        },
        Inst::GetField { src, .. } => r.push((*src, None)),
        Inst::SetField { receiver, value, .. } => {
            r.push((*receiver, Some("self")));
            r.push((*value, Some("value")));
        },
        Inst::Push { array, value } => {
            r.push((*array, Some("array")));
            r.push((*value, Some("value")));
        },
        Inst::Insert { dict, value, .. } => {
            r.push((*dict, Some("dict")));
            r.push((*value, Some("value")));
        },
        Inst::Len(v) | Inst::ToFloat(v) | Inst::Sqrt(v) | Inst::Unwrap(v) | Inst::Raise(v)
        | Inst::IsRaised(v) | Inst::UnwrapRaised(v) => r.push((*v, None)),
        Inst::In(needle, haystack, _) => {
            r.push((*needle, Some("needle")));
            r.push((*haystack, Some("in")));
        },
        Inst::Format(parts) => {
            let mut k: usize = 0;
            while k < parts.len()
                invariant
                    k <= parts@.len(),
                    operands_view(r@) == format_operands(parts@.take(k as int)),
                decreases parts@.len() - k,
            {
                proof {
                    assert(parts@.take(k + 1).drop_last() =~= parts@.take(k as int));
                }
                match &parts[k] {
                    FormatPart::Value(v) => r.push((*v, None)),
                    FormatPart::Literal => {},
                }
                assert(operands_view(r@) =~= format_operands(parts@.take(k + 1)));
                k += 1;
            }
            assert(parts@.take(parts@.len() as int) =~= parts@);
        },
        Inst::MakeClosure { captures, .. } => push_all(&mut r, captures, Some("capture")),
        Inst::Call { callee, args } => {
            r.push((*callee, Some("fn")));
            push_all(&mut r, args, None);
        },
        Inst::CallDirect { args, .. } | Inst::CallNative { args, .. } => push_all(&mut r, args, None),
        Inst::NewInstance { fields, .. } => push_all(&mut r, fields, None),
        Inst::IsInstance { src, .. } => r.push((*src, None)),
        _ => {},
    }
    assert(operands_view(r@) =~= operands_spec(*inst));
    r
}

/// What a node is in the diagram.
#[derive(Debug, Clone, Copy, PartialEq, Eq, Structural)]
pub enum NodeKind {
    /// A parameter: where a value enters the function.
    In,
    /// The function's return: where a value leaves.
    Out,
    /// Any other operation.
    Op,
}

/// A box of the diagram.
#[derive(Debug)]
pub struct DataflowNode {
    pub label: String,
    pub kind: NodeKind,
}

/// A wire: from node `from` into node `to`, arriving at `port` when one is named.
#[derive(Debug)]
pub struct DataflowEdge {
    pub from: usize,
    pub to: usize,
    pub port: Option<&'static str>,
}

/// One function's dataflow graph; an edge's ends are indices into `nodes`.
#[derive(Debug)]
pub struct DataflowGraph {
    pub function_name: String,
    pub nodes: Vec<DataflowNode>,
    pub edges: Vec<DataflowEdge>,
}

/// Why no graph could be drawn.
#[derive(Debug)]
pub enum DataflowError {
    /// No top-level function has this name.
    UnknownFunction(String),
    /// The body branches or loops.
    HasControlFlow,
}

impl DataflowError {
    /// The error's text, as it is displayed.
    pub fn message(&self) -> (r: String)
        ensures
            r@ == match self {
                DataflowError::UnknownFunction(name) => "no function named `"@ + name@ + "`"@,
                DataflowError::HasControlFlow => "this function has branches or loops -- dataflow view is scoped to straight-line functions for now"@,
            },
    {
        match self {
            DataflowError::UnknownFunction(name) => {
                let mut r = String::new();
                r.append("no function named `");
                r.append(name.as_str());
                r.append("`");
                r
            },
            DataflowError::HasControlFlow => {
                "this function has branches or loops -- dataflow view is scoped to straight-line functions for now".to_string()
            },
        }
    }
}

/// A node as the contracts see it: label and kind.
pub type NodeView = (Seq<char>, NodeKind);

/// An edge as the contracts see it: from, to, port.
pub type EdgeView = (int, int, Option<Seq<char>>);

/// The walk's state: the nodes and edges so far, the node each instruction became, and
/// the node each local last took its value from.
pub type Flow = (Seq<NodeView>, Seq<EdgeView>, Seq<Option<int>>, Seq<Option<int>>);

/// Entry `v` of `t`, when there is one.
pub open spec fn get(t: Seq<Option<int>>, v: int) -> Option<int> {
    if 0 <= v < t.len() {
        t[v]
    } else {
        None
    }
}

/// `t` with entry `i` set to `v`, when there is such an entry.
pub open spec fn put(t: Seq<Option<int>>, i: int, v: Option<int>) -> Seq<Option<int>> {
    if 0 <= i < t.len() {
        t.update(i, v)
    } else {
        t
    }
}

/// The wires from `ops` into node `to`, after `edges`: one for each operand that has
/// become a node.
pub open spec fn add_edges(edges: Seq<EdgeView>, ops: Seq<Operand>, made: Seq<Option<int>>, to: int) -> Seq<
    EdgeView,
>
    decreases ops.len(),
{
    if ops.len() == 0 {
        edges
    } else {
        let before = add_edges(edges, ops.drop_last(), made, to);
        match get(made, ops.last().0) {
            Some(src) => before.push((src, to, ops.last().1)),
            None => before,
        }
    }
}

/// The name of a body's local.
pub open spec fn local_text(ir: Ir, b: Body, local: int) -> Seq<char> {
    ir.dec_names@[b.locals@[local] as int]@
}

/// The state after the first `k` parameters of `b` have each become an `In` node.
pub open spec fn start(ir: Ir, b: Body, k: int) -> Flow
    decreases k,
{
    if k <= 0 {
        (
            seq![],
            seq![],
            Seq::new(b.instructions@.len(), |i: int| None::<int>),
            Seq::new(b.locals@.len(), |i: int| None::<int>),
        )
    } else {
        let s = start(ir, b, k - 1);
        let p = b.params@[k - 1] as int;
        (
            s.0.push((local_text(ir, b, p), NodeKind::In)),
            s.1,
            s.2,
            put(s.3, p, Some(s.0.len() as int)),
        )
    }
}

/// The state after instruction `id` of `b` (one that is not control flow).
pub open spec fn step(ir: Ir, b: Body, s: Flow, id: int) -> Flow {
    let idx = s.0.len() as int;
    match b.instructions@[id] {
        Inst::GetLocal(l) => match get(s.3, l as int) {
            Some(src) => (s.0, s.1, put(s.2, id, Some(src)), s.3),
            None => s,
        },
        Inst::SetLocal(l, v) => match get(s.2, v as int) {
            Some(src) => (s.0, s.1, s.2, put(s.3, l as int, Some(src))),
            None => s,
        },
        Inst::Return(v) => (
            s.0.push(("out"@, NodeKind::Out)),
            match get(s.2, v as int) {
                Some(src) => s.1.push((src, idx, None)),
                None => s.1,
            },
            put(s.2, id, Some(idx)),
            s.3,
        ),
        other => (
            s.0.push((label_of(ir, other), NodeKind::Op)),
            add_edges(s.1, operands_spec(other), s.2, idx),
            put(s.2, id, Some(idx)),
            s.3,
        ),
    }
}

/// A conditional jump, switch, loop step or phi: a decision the diagram cannot draw.
pub open spec fn is_decision(inst: Inst) -> bool {
    inst is JumpIfFalse || inst is Switch || inst is ForNext || inst is Phi
}

/// Running the block `stream` from position `k` on state `s`, the block's jump so far
/// being `next`: the state after it and the block it jumps to, or `None` at a decision.
pub open spec fn run_stream(ir: Ir, b: Body, stream: Seq<usize>, k: int, s: Flow, next: Option<int>) -> Option<
    (Flow, Option<int>),
>
    decreases stream.len() - k,
{
    if k < 0 || k >= stream.len() {
        Some((s, next))
    } else {
        let id = stream[k] as int;
        match b.instructions@[id] {
            Inst::Jump { target } => run_stream(ir, b, stream, k + 1, s, Some(target as int)),
            inst => if is_decision(inst) {
                None
            } else {
                run_stream(ir, b, stream, k + 1, step(ir, b, s, id), next)
            },
        }
    }
}

/// The blocks not yet walked.
pub open spec fn count_false(v: Seq<bool>) -> nat
    decreases v.len(),
{
    if v.len() == 0 {
        0
    } else {
        count_false(v.drop_last()) + if v.last() {
            0nat
        } else {
            1nat
        }
    }
}

pub proof fn lemma_count_false(v: Seq<bool>, i: int)
    requires
        0 <= i < v.len(),
        !v[i],
    ensures
        count_false(v.update(i, true)) < count_false(v),
    decreases v.len(),
{
    if i < v.len() - 1 {
        lemma_count_false(v.drop_last(), i);
        assert(v.update(i, true).drop_last() =~= v.drop_last().update(i, true));
    } else {
        assert(v.update(i, true).drop_last() =~= v.drop_last());
    }
}

/// Walking the chain of blocks from `current`, the blocks in `visited` walked already:
/// the final state, or `None` at a decision or at a block walked before.
pub open spec fn walk(ir: Ir, b: Body, current: int, visited: Seq<bool>, s: Flow) -> Option<Flow>
    decreases count_false(visited),
{
    if !(0 <= current < visited.len()) || visited[current] {
        None
    } else {
        match run_stream(ir, b, b.blocks@[current]@, 0, s, None) {
            None => None,
            Some((s2, None)) => Some(s2),
            Some((s2, Some(t))) => {
                proof {
                    lemma_count_false(visited, current);
                }
                walk(ir, b, t, visited.update(current, true), s2)
            },
        }
    }
}

/// Item `k` of `ir` is called `name`.
pub open spec fn item_called(ir: Ir, name: Seq<char>) -> spec_fn(int) -> bool {
    |k: int| ir.dec_names@[ir.item_bodies@[k].0 as int]@ == name
}

/// The first item called `name`.
pub open spec fn item_named(ir: Ir, name: Seq<char>) -> Option<int> {
    first_at(item_called(ir, name), 0, ir.item_bodies@.len() as int)
}

/// The body of the first item called `name`.
pub open spec fn body_of(ir: Ir, name: Seq<char>) -> Body {
    ir.bodies@[ir.item_bodies@[item_named(ir, name).unwrap()].1 as int]
}

/// `name`'s diagram: `None` when no item has that name, `Some(None)` when its body
/// branches or loops, else its nodes and edges.
pub open spec fn dataflow_of(ir: Ir, name: Seq<char>) -> Option<Option<(Seq<NodeView>, Seq<EdgeView>)>> {
    match item_named(ir, name) {
        None => None,
        Some(_) => {
            let b = body_of(ir, name);
            let s0 = start(ir, b, b.params@.len() as int);
            match walk(ir, b, 0, Seq::new(b.blocks@.len(), |i: int| false), s0) {
                None => Some(None),
                Some(s) => Some(Some((s.0, s.1))),
            }
        },
    }
}

/// An instruction that ends a block: the return, or a plain jump to the next block.
pub open spec fn ends_block(inst: Inst) -> bool {
    inst is Return || inst is Jump
}

/// The body's ids point into `ir` and into the body itself, and, as lowering leaves every
/// body, a return or a plain jump only stands last in its block.
pub open spec fn body_ok(ir: Ir, b: Body) -> bool {
    &&& b.blocks@.len() > 0
    &&& forall|k: int, j: int|
        0 <= k < b.blocks@.len() && 0 <= j < b.blocks@[k]@.len() - 1 ==> !ends_block(
            b.instructions@[#[trigger] b.blocks@[k]@[j] as int],
        )
    &&& forall|k: int| 0 <= k < b.params@.len() ==> #[trigger] b.params@[k] < b.locals@.len()
    &&& forall|k: int| 0 <= k < b.locals@.len() ==> #[trigger] b.locals@[k] < ir.dec_names@.len()
    &&& forall|k: int, j: int|
        0 <= k < b.blocks@.len() && 0 <= j < b.blocks@[k]@.len() ==> #[trigger] b.blocks@[k]@[j]
            < b.instructions@.len()
    &&& forall|k: int| 0 <= k < b.instructions@.len() ==> inst_ok(ir, b, #[trigger] b.instructions@[k])
}

/// The views of a graph's nodes.
pub open spec fn nodes_view(v: Seq<DataflowNode>) -> Seq<NodeView> {
    v.map_values(|n: DataflowNode| (n.label@, n.kind))
}

/// The views of a graph's edges.
pub open spec fn edges_view(v: Seq<DataflowEdge>) -> Seq<EdgeView> {
    v.map_values(|e: DataflowEdge| (e.from as int, e.to as int, port_view(e.port)))
}

/// The views of a table of node indices.
pub open spec fn table_view(v: Seq<Option<usize>>) -> Seq<Option<int>> {
    v.map_values(
        |o: Option<usize>|
            match o {
                Some(x) => Some(x as int),
                None => None,
            },
    )
}

fn table_get(t: &Vec<Option<usize>>, v: usize) -> (r: Option<usize>)
    ensures
        match r {
            Some(x) => get(table_view(t@), v as int) == Some(x as int),
            None => get(table_view(t@), v as int) is None,
        },
{
    if v < t.len() {
        t[v]
    } else {
        None
    }
}

/// Wires each operand of `ops` that has become a node into node `to`.
fn wire(
    edges: &mut Vec<DataflowEdge>,
    made: &Vec<Option<usize>>,
    ops: &Vec<(usize, Option<&'static str>)>,
    to: usize,
)
    ensures
        edges_view(final(edges)@) == add_edges(
            edges_view(old(edges)@),
            operands_view(ops@),
            table_view(made@),
            to as int,
        ),
{
    let ghost start = edges_view(edges@);
    let mut k: usize = 0;
    while k < ops.len()
        invariant
            k <= ops@.len(),
            start == edges_view(old(edges)@),
            edges_view(edges@) == add_edges(
                start,
                operands_view(ops@).take(k as int),
                table_view(made@),
                to as int,
            ),
        decreases ops@.len() - k,
    {
        proof {
            assert(operands_view(ops@).take(k + 1).drop_last() =~= operands_view(ops@).take(
                k as int,
            ));
        }
        let (operand, port) = ops[k];
        let ghost before = edges@;
        match table_get(made, operand) {
            Some(src) => {
                edges.push(DataflowEdge { from: src, to, port });
                assert(edges_view(edges@) =~= edges_view(before).push(
                    (src as int, to as int, port_view(port)),
                ));
            },
            None => {},
        }
        k += 1;
    }
    assert(operands_view(ops@).take(ops@.len() as int) =~= operands_view(ops@));
}

/// Applies instruction `id` of body `b` (not a jump or a decision) to the walk's state.
fn apply_inst(
    ir: &Ir,
    b: &Body,
    id: usize,
    nodes: &mut Vec<DataflowNode>,
    edges: &mut Vec<DataflowEdge>,
    made: &mut Vec<Option<usize>>,
    sources: &mut Vec<Option<usize>>,
)
    requires
        items_ok(*ir),
        body_ok(*ir, *b),
        id < b.instructions@.len(),
        !(b.instructions@[id as int] is Jump),
        !is_decision(b.instructions@[id as int]),
        old(made)@.len() == b.instructions@.len(),
        old(sources)@.len() == b.locals@.len(),
    ensures
        final(made)@.len() == b.instructions@.len(),
        final(sources)@.len() == b.locals@.len(),
        (nodes_view(final(nodes)@), edges_view(final(edges)@), table_view(final(made)@), table_view(
            final(sources)@,
        )) == step(
            *ir,
            *b,
            (
                nodes_view(old(nodes)@),
                edges_view(old(edges)@),
                table_view(old(made)@),
                table_view(old(sources)@),
            ),
            id as int,
        ),
{
    let ghost s = (nodes_view(nodes@), edges_view(edges@), table_view(made@), table_view(sources@));
    let idx = nodes.len();
    let inst = &b.instructions[id];
    assert(inst_ok(*ir, *b, b.instructions@[id as int]));
    match inst {
        Inst::GetLocal(local) => {
            match table_get(sources, *local) {
                Some(src) => {
                    made.set(id, Some(src));
                    assert(table_view(made@) =~= put(s.2, id as int, Some(src as int)));
                },
                None => {},
            }
        },
        Inst::SetLocal(local, value) => {
            match table_get(made, *value) {
                Some(src) => {
                    sources.set(*local, Some(src));
                    assert(table_view(sources@) =~= put(s.3, *local as int, Some(src as int)));
                },
                None => {},
            }
        },
        Inst::Return(value) => {
            nodes.push(DataflowNode { label: "out".to_owned(), kind: NodeKind::Out });
            match table_get(made, *value) {
                Some(src) => {
                    let ghost before = edges@;
                    edges.push(DataflowEdge { from: src, to: idx, port: None });
                    assert(edges_view(edges@) =~= edges_view(before).push(
                        (src as int, idx as int, None),
                    ));
                },
                None => {},
            }
            made.set(id, Some(idx));
            assert(table_view(made@) =~= put(s.2, id as int, Some(idx as int)));
            assert(nodes_view(nodes@) =~= s.0.push(("out"@, NodeKind::Out)));
        },
        other => {
            let label = node_label(ir, b, other);
            nodes.push(DataflowNode { label, kind: NodeKind::Op });
            let ops = operands_of(other);
            wire(edges, made, &ops, idx);
            made.set(id, Some(idx));
            assert(table_view(made@) =~= put(s.2, id as int, Some(idx as int)));
            assert(nodes_view(nodes@) =~= s.0.push((label_of(*ir, *other), NodeKind::Op)));
        },
    }
}

/// The name of local `local` of body `body_id`.
fn local_name(ir: &Ir, body_id: usize, local: usize) -> (r: String)
    requires
        body_id < ir.bodies@.len(),
        local < ir.bodies@[body_id as int].locals@.len(),
        ir.bodies@[body_id as int].locals@[local as int] < ir.dec_names@.len(),
    ensures
        r@ == local_text(*ir, ir.bodies@[body_id as int], local as int),
{
    let dec = ir.bodies[body_id].locals[local];
    ir.dec_names[dec].clone()
}

/// The dataflow graph of the function called `function_name`: a node for each parameter
/// (`In`), each operation (`Op`) and the return (`Out`), and a wire from the node that
/// makes each value to every operation that uses it. Reads of locals and writes to them
/// are wires, not nodes; the chain of blocks joined by plain jumps is walked in order.
pub fn function_dataflow(ir: &Ir, function_name: &str) -> (r: Result<DataflowGraph, DataflowError>)
    requires
        items_ok(*ir),
        item_named(*ir, function_name@) is Some ==> body_ok(*ir, body_of(*ir, function_name@)),
    ensures
        match r {
            Ok(g) => g.function_name@ == function_name@ && dataflow_of(*ir, function_name@)
                == Some(Some((nodes_view(g.nodes@), edges_view(g.edges@)))),
            Err(DataflowError::UnknownFunction(n)) => n@ == function_name@ && dataflow_of(
                *ir,
                function_name@,
            ) is None,
            Err(DataflowError::HasControlFlow) => dataflow_of(*ir, function_name@) == Some(
                None::<(Seq<NodeView>, Seq<EdgeView>)>,
            ),
        },
{
    let mut k: usize = 0;
    let mut found = false;
    while k < ir.item_bodies.len() && !found
        invariant
            k <= ir.item_bodies@.len(),
            items_ok(*ir),
            found ==> k < ir.item_bodies@.len() && item_called(*ir, function_name@)(k as int)
                && item_named(*ir, function_name@) == Some(k as int),
            !found ==> first_at(
                item_called(*ir, function_name@),
                k as int,
                ir.item_bodies@.len() as int,
            ) == item_named(*ir, function_name@),
        decreases ir.item_bodies@.len() - k + if found {
            0int
        } else {
            1int
        },
    {
        if same_text(ir.dec_names[ir.item_bodies[k].0].as_str(), function_name) {
            found = true;
        } else {
            k += 1;
        }
    }
    if !found {
        return Err(DataflowError::UnknownFunction(function_name.to_owned()));
    }
    let body_id = ir.item_bodies[k].1;
    let b = &ir.bodies[body_id];
    let ghost bv = *b;
    assert(bv == body_of(*ir, function_name@));
    let mut nodes: Vec<DataflowNode> = Vec::new();
    let mut edges: Vec<DataflowEdge> = Vec::new();
    let mut made: Vec<Option<usize>> = Vec::new();
    while made.len() < b.instructions.len()
        invariant
            bv == *b,
            made@.len() <= bv.instructions@.len(),
            forall|i: int| 0 <= i < made@.len() ==> made@[i] is None,
        decreases bv.instructions@.len() - made@.len(),
    {
        made.push(None);
    }
    let mut sources: Vec<Option<usize>> = Vec::new();
    while sources.len() < b.locals.len()
        invariant
            bv == *b,
            sources@.len() <= bv.locals@.len(),
            forall|i: int| 0 <= i < sources@.len() ==> sources@[i] is None,
        decreases bv.locals@.len() - sources@.len(),
    {
        sources.push(None);
    }
    proof {
        assert(table_view(made@) =~= start(*ir, bv, 0).2);
        assert(table_view(sources@) =~= start(*ir, bv, 0).3);
        assert(nodes_view(nodes@) =~= start(*ir, bv, 0).0);
        assert(edges_view(edges@) =~= start(*ir, bv, 0).1);
    }
    let mut p: usize = 0;
    while p < b.params.len()
        invariant
            p <= bv.params@.len(),
            bv == *b,
            items_ok(*ir),
            body_ok(*ir, bv),
            body_id < ir.bodies@.len(),
            bv == ir.bodies@[body_id as int],
            made@.len() == bv.instructions@.len(),
            sources@.len() == bv.locals@.len(),
            (nodes_view(nodes@), edges_view(edges@), table_view(made@), table_view(sources@))
                == start(*ir, bv, p as int),
        decreases bv.params@.len() - p,
    {
        let param = b.params[p];
        assert(bv.params@[p as int] < bv.locals@.len());
        assert(bv.locals@[param as int] < ir.dec_names@.len());
        let name = local_name(ir, body_id, param);
        let idx = nodes.len();
        let ghost before = (nodes@, sources@);
        nodes.push(DataflowNode { label: name, kind: NodeKind::In });
        sources.set(param, Some(idx));
        proof {
            assert(nodes_view(nodes@) =~= nodes_view(before.0).push(
                (local_text(*ir, bv, param as int), NodeKind::In),
            ));
            assert(table_view(sources@) =~= put(table_view(before.1),
                param as int,
                Some(idx as int),
            ));
        }
        p += 1;
    }
    let mut visited: Vec<bool> = Vec::new();
    while visited.len() < b.blocks.len()
        invariant
            bv == *b,
            visited@.len() <= bv.blocks@.len(),
            forall|i: int| 0 <= i < visited@.len() ==> !visited@[i],
        decreases bv.blocks@.len() - visited@.len(),
    {
        visited.push(false);
    }
    assert(visited@ =~= Seq::new(bv.blocks@.len(), |i: int| false));
    let ghost goal = walk(
        *ir,
        bv,
        0,
        visited@,
        (nodes_view(nodes@), edges_view(edges@), table_view(made@), table_view(sources@)),
    );
    proof {
        assert(dataflow_of(*ir, function_name@) == match goal {
            None => Some(None),
            Some(s) => Some(Some((s.0, s.1))),
        });
    }
    let mut current: usize = 0;
    loop
        invariant_except_break
            current < bv.blocks@.len(),
            visited@.len() == bv.blocks@.len(),
            walk(
                *ir,
                bv,
                current as int,
                visited@,
                (nodes_view(nodes@), edges_view(edges@), table_view(made@), table_view(sources@)),
            ) == goal,
        invariant
            items_ok(*ir),
            body_ok(*ir, bv),
            bv == *b,
            made@.len() == bv.instructions@.len(),
            sources@.len() == bv.locals@.len(),
            dataflow_of(*ir, function_name@) == match goal {
                None => Some(None),
                Some(s) => Some(Some((s.0, s.1))),
            },
        ensures
            goal == Some(
                (nodes_view(nodes@), edges_view(edges@), table_view(made@), table_view(sources@)),
            ),
        decreases count_false(visited@),
    {
        if visited[current] {
            return Err(DataflowError::HasControlFlow);
        }
        let ghost block_start = (
            nodes_view(nodes@),
            edges_view(edges@),
            table_view(made@),
            table_view(sources@),
        );
        let ghost seen = visited@;
        proof {
            lemma_count_false(visited@, current as int);
        }
        visited.set(current, true);
        let stream = &b.blocks[current];
        let mut next_block: Option<usize> = None;
        let mut j: usize = 0;
        while j < stream.len()
            invariant
                j <= stream@.len(),
                items_ok(*ir),
                body_ok(*ir, bv),
                bv == *b,
                current < bv.blocks@.len(),
                *stream == bv.blocks@[current as int],
                made@.len() == bv.instructions@.len(),
                sources@.len() == bv.locals@.len(),
                run_stream(
                    *ir,
                    bv,
                    stream@,
                    j as int,
                    (nodes_view(nodes@), edges_view(edges@), table_view(made@), table_view(sources@)),
                    match next_block {
                        Some(t) => Some(t as int),
                        None => None,
                    },
                ) == run_stream(*ir, bv, stream@, 0, block_start, None),
                next_block matches Some(t) ==> t < bv.blocks@.len(),
                seen.len() == bv.blocks@.len(),
                !seen[current as int],
                visited@ == seen.update(current as int, true),
                walk(*ir, bv, current as int, seen, block_start) == goal,
                dataflow_of(*ir, function_name@) == match goal {
                    None => Some(None),
                    Some(s) => Some(Some((s.0, s.1))),
                },
            decreases stream@.len() - j,
        {
            let id = stream[j];
            assert(bv.blocks@[current as int]@[j as int] < bv.instructions@.len());
            assert(inst_ok(*ir, bv, bv.instructions@[id as int]));
            match &b.instructions[id] {
                Inst::Jump { target } => {
                    next_block = Some(*target);
                },
                Inst::JumpIfFalse | Inst::Switch | Inst::ForNext | Inst::Phi => {
                    return Err(DataflowError::HasControlFlow);
                },
                _ => {
                    apply_inst(ir, b, id, &mut nodes, &mut edges, &mut made, &mut sources);
                },
            }
            j += 1;
        }
        match next_block {
            Some(t) => {
                current = t;
            },
            None => {
                break;
            },
        }
    }
    Ok(DataflowGraph { function_name: function_name.to_owned(), nodes, edges })
}

/// The walk's state is sound: its first `m` nodes are the `In` nodes and no other node is
/// one, every wire runs from an earlier node into a later one, and every recorded source
/// is a node.
pub open spec fn flow_ok(s: Flow, m: int) -> bool {
    &&& m <= s.0.len()
    &&& forall|i: int| 0 <= i < s.0.len() ==> ((#[trigger] s.0[i]).1 == NodeKind::In <==> i < m)
    &&& forall|e: int| 0 <= e < s.1.len() ==> 0 <= (#[trigger] s.1[e]).0 < s.1[e].1 < s.0.len()
    &&& forall|i: int| 0 <= i < s.2.len() ==> ((#[trigger] s.2[i]) matches Some(x) ==> 0 <= x < s.0.len())
    &&& forall|i: int| 0 <= i < s.3.len() ==> ((#[trigger] s.3[i]) matches Some(x) ==> 0 <= x < s.0.len())
}

proof fn lemma_start_ok(ir: Ir, b: Body, k: int)
    requires
        0 <= k <= b.params@.len(),
    ensures
        flow_ok(start(ir, b, k), k),
        start(ir, b, k).0.len() == k,
    decreases k,
{
    if k > 0 {
        lemma_start_ok(ir, b, k - 1);
        let s = start(ir, b, k - 1);
        let t = start(ir, b, k);
        let p = b.params@[k - 1] as int;
        assert forall|i: int| 0 <= i < t.0.len() implies ((#[trigger] t.0[i]).1 == NodeKind::In
            <==> i < k) by {
            if i < k - 1 {
                assert(t.0[i] == s.0[i]);
            }
        }
        assert forall|i: int| 0 <= i < t.2.len() implies ((#[trigger] t.2[i]) matches Some(x) ==> 0
            <= x < t.0.len()) by {
            assert(t.2[i] == s.2[i]);
        }
        assert forall|i: int| 0 <= i < t.3.len() implies ((#[trigger] t.3[i]) matches Some(x) ==> 0
            <= x < t.0.len()) by {
            if i != p {
                assert(t.3[i] == s.3[i]);
            }
        }
    } else {
        let t = start(ir, b, 0);
        assert forall|i: int| 0 <= i < t.2.len() implies ((#[trigger] t.2[i]) matches Some(x) ==> 0
            <= x < t.0.len()) by {}
        assert forall|i: int| 0 <= i < t.3.len() implies ((#[trigger] t.3[i]) matches Some(x) ==> 0
            <= x < t.0.len()) by {}
    }
}

proof fn lemma_add_edges_ok(edges: Seq<EdgeView>, ops: Seq<Operand>, made: Seq<Option<int>>, to: int)
    requires
        0 <= to,
        forall|e: int| 0 <= e < edges.len() ==> 0 <= (#[trigger] edges[e]).0 < edges[e].1 <= to,
        forall|i: int| 0 <= i < made.len() ==> ((#[trigger] made[i]) matches Some(x) ==> 0 <= x < to),
    ensures
        forall|e: int|
            0 <= e < add_edges(edges, ops, made, to).len() ==> 0 <= (#[trigger] add_edges(
                edges,
                ops,
                made,
                to,
            )[e]).0 < add_edges(edges, ops, made, to)[e].1 <= to,
    decreases ops.len(),
{
    if ops.len() > 0 {
        lemma_add_edges_ok(edges, ops.drop_last(), made, to);
        let before = add_edges(edges, ops.drop_last(), made, to);
        let v = ops.last().0;
        if 0 <= v < made.len() {
            assert(get(made, v) == made[v]);
        }
        let after = add_edges(edges, ops, made, to);
        assert forall|e: int| 0 <= e < after.len() implies 0 <= (#[trigger] after[e]).0 < after[e].1
            <= to by {
            if e < before.len() {
                assert(after[e] == before[e]);
            }
        }
    }
}

proof fn lemma_step_ok(ir: Ir, b: Body, s: Flow, id: int, m: int)
    requires
        flow_ok(s, m),
    ensures
        flow_ok(step(ir, b, s, id), m),
{
    let idx = s.0.len() as int;
    let t = step(ir, b, s, id);
    match b.instructions@[id] {
        Inst::GetLocal(l) => {
            if 0 <= l < s.3.len() {
                assert(get(s.3, l as int) == s.3[l as int]);
            }
            assert forall|i: int| 0 <= i < t.2.len() implies ((#[trigger] t.2[i]) matches Some(x)
                ==> 0 <= x < t.0.len()) by {
                if i != id {
                    assert(t.2[i] == s.2[i]);
                }
            }
        },
        Inst::SetLocal(l, v) => {
            if 0 <= v < s.2.len() {
                assert(get(s.2, v as int) == s.2[v as int]);
            }
            assert forall|i: int| 0 <= i < t.3.len() implies ((#[trigger] t.3[i]) matches Some(x)
                ==> 0 <= x < t.0.len()) by {
                if i != l {
                    assert(t.3[i] == s.3[i]);
                }
            }
        },
        Inst::Return(v) => {
            if 0 <= v < s.2.len() {
                assert(get(s.2, v as int) == s.2[v as int]);
            }
            assert forall|i: int| 0 <= i < t.0.len() implies ((#[trigger] t.0[i]).1 == NodeKind::In
                <==> i < m) by {
                if i < idx {
                    assert(t.0[i] == s.0[i]);
                }
            }
            assert forall|e: int| 0 <= e < t.1.len() implies 0 <= (#[trigger] t.1[e]).0 < t.1[e].1
                < t.0.len() by {
                if e < s.1.len() {
                    assert(t.1[e] == s.1[e]);
                }
            }
            assert forall|i: int| 0 <= i < t.2.len() implies ((#[trigger] t.2[i]) matches Some(x)
                ==> 0 <= x < t.0.len()) by {
                if i != id {
                    assert(t.2[i] == s.2[i]);
                }
            }
            assert forall|i: int| 0 <= i < t.3.len() implies ((#[trigger] t.3[i]) matches Some(x)
                ==> 0 <= x < t.0.len()) by {
                assert(t.3[i] == s.3[i]);
            }
        },
        other => {
            assert forall|e: int| 0 <= e < s.1.len() implies 0 <= (#[trigger] s.1[e]).0 < s.1[e].1
                <= idx by {}
            lemma_add_edges_ok(s.1, operands_spec(other), s.2, idx);
            assert forall|i: int| 0 <= i < t.0.len() implies ((#[trigger] t.0[i]).1 == NodeKind::In
                <==> i < m) by {
                if i < idx {
                    assert(t.0[i] == s.0[i]);
                }
            }
            assert forall|i: int| 0 <= i < t.2.len() implies ((#[trigger] t.2[i]) matches Some(x)
                ==> 0 <= x < t.0.len()) by {
                if i != id {
                    assert(t.2[i] == s.2[i]);
                }
            }
            assert forall|i: int| 0 <= i < t.3.len() implies ((#[trigger] t.3[i]) matches Some(x)
                ==> 0 <= x < t.0.len()) by {
                assert(t.3[i] == s.3[i]);
            }
        },
    }
}

proof fn lemma_run_stream_ok(ir: Ir, b: Body, stream: Seq<usize>, k: int, s: Flow, next: Option<int>, m: int)
    requires
        flow_ok(s, m),
    ensures
        run_stream(ir, b, stream, k, s, next) matches Some((s2, _)) ==> flow_ok(s2, m),
    decreases stream.len() - k,
{
    if 0 <= k < stream.len() {
        let id = stream[k] as int;
        match b.instructions@[id] {
            Inst::Jump { target } => lemma_run_stream_ok(ir, b, stream, k + 1, s, Some(target as int), m),
            inst => if !is_decision(inst) {
                lemma_step_ok(ir, b, s, id, m);
                lemma_run_stream_ok(ir, b, stream, k + 1, step(ir, b, s, id), next, m);
            },
        }
    }
}

proof fn lemma_walk_ok(ir: Ir, b: Body, current: int, visited: Seq<bool>, s: Flow, m: int)
    requires
        flow_ok(s, m),
    ensures
        walk(ir, b, current, visited, s) matches Some(s2) ==> flow_ok(s2, m),
    decreases count_false(visited),
{
    if 0 <= current < visited.len() && !visited[current] {
        lemma_run_stream_ok(ir, b, b.blocks@[current]@, 0, s, None, m);
        match run_stream(ir, b, b.blocks@[current]@, 0, s, None) {
            Some((s2, Some(t))) => {
                lemma_count_false(visited, current);
                lemma_walk_ok(ir, b, t, visited.update(current, true), s2, m);
            },
            _ => {},
        }
    }
}

/// In a function's diagram the parameters are the first nodes and the only `In` nodes,
/// and every wire runs from an earlier node into a later one, so the diagram has no
/// cycles.
pub proof fn lemma_dataflow_is_acyclic(ir: Ir, name: Seq<char>)
    requires
        dataflow_of(ir, name) is Some,
        dataflow_of(ir, name).unwrap() is Some,
    ensures
        ({
            let (nodes, edges) = dataflow_of(ir, name).unwrap().unwrap();
            let m = body_of(ir, name).params@.len() as int;
            &&& m <= nodes.len()
            &&& forall|i: int| 0 <= i < nodes.len() ==> ((#[trigger] nodes[i]).1 == NodeKind::In
                <==> i < m)
            &&& forall|e: int| 0 <= e < edges.len() ==> 0 <= (#[trigger] edges[e]).0 < edges[e].1
                < nodes.len()
        }),
{
    let b = body_of(ir, name);
    let m = b.params@.len() as int;
    lemma_start_ok(ir, b, m);
    lemma_walk_ok(ir, b, 0, Seq::new(b.blocks@.len(), |i: int| false), start(ir, b, m), m);
}

/// The number of `Out` nodes among `nodes`.
pub open spec fn count_out(nodes: Seq<NodeView>) -> nat
    decreases nodes.len(),
{
    if nodes.len() == 0 {
        0
    } else {
        count_out(nodes.drop_last()) + if nodes.last().1 == NodeKind::Out {
            1nat
        } else {
            0nat
        }
    }
}

/// `a` begins with `b`.
pub open spec fn extends(a: Seq<NodeView>, b: Seq<NodeView>) -> bool {
    b.len() <= a.len() && forall|i: int| 0 <= i < b.len() ==> a[i] == b[i]
}

proof fn lemma_start_shape(ir: Ir, b: Body, k: int)
    requires
        0 <= k <= b.params@.len(),
    ensures
        count_out(start(ir, b, k).0) == 0,
        start(ir, b, k).0.len() == k,
        forall|i: int| 0 <= i < k ==> #[trigger] start(ir, b, k).0[i] == (
            local_text(ir, b, b.params@[i] as int),
            NodeKind::In,
        ),
    decreases k,
{
    if k > 0 {
        lemma_start_shape(ir, b, k - 1);
        let s = start(ir, b, k - 1);
        let t = start(ir, b, k);
        assert(t.0.drop_last() =~= s.0);
        assert forall|i: int| 0 <= i < k implies #[trigger] t.0[i] == (
            local_text(ir, b, b.params@[i] as int),
            NodeKind::In,
        ) by {
            if i < k - 1 {
                assert(t.0[i] == s.0[i]);
            }
        }
    }
}

proof fn lemma_step_shape(ir: Ir, b: Body, s: Flow, id: int)
    ensures
        extends(step(ir, b, s, id).0, s.0),
        count_out(step(ir, b, s, id).0) == count_out(s.0) + if b.instructions@[id] is Return {
            1nat
        } else {
            0nat
        },
{
    let t = step(ir, b, s, id);
    if t.0.len() > s.0.len() {
        assert(t.0.drop_last() =~= s.0);
    }
}

proof fn lemma_extends_trans(a: Seq<NodeView>, b: Seq<NodeView>, c: Seq<NodeView>)
    requires
        extends(a, b),
        extends(b, c),
    ensures
        extends(a, c),
{
}

proof fn lemma_run_stream_shape(
    ir: Ir,
    b: Body,
    stream: Seq<usize>,
    k: int,
    s: Flow,
    next: Option<int>,
)
    requires
        0 <= k,
        forall|j: int| 0 <= j < stream.len() - 1 ==> !ends_block(b.instructions@[#[trigger] stream[j] as int]),
        next is Some ==> k >= stream.len(),
    ensures
        run_stream(ir, b, stream, k, s, next) matches Some((s2, nx)) ==> extends(s2.0, s.0) && (
        count_out(s2.0) == count_out(s.0) || (count_out(s2.0) == count_out(s.0) + 1 && nx is None)),
    decreases stream.len() - k,
{
    if k < stream.len() {
        let id = stream[k] as int;
        match b.instructions@[id] {
            Inst::Jump { target } => {
                if k < stream.len() - 1 {
                    assert(!ends_block(b.instructions@[stream[k] as int]));
                }
                lemma_run_stream_shape(ir, b, stream, k + 1, s, Some(target as int));
            },
            inst => if !is_decision(inst) {
                let s1 = step(ir, b, s, id);
                lemma_step_shape(ir, b, s, id);
                lemma_run_stream_shape(ir, b, stream, k + 1, s1, next);
                if let Some((s2, nx)) = run_stream(ir, b, stream, k + 1, s1, next) {
                    lemma_extends_trans(s2.0, s1.0, s.0);
                    if inst is Return {
                        if k < stream.len() - 1 {
                            assert(!ends_block(b.instructions@[stream[k] as int]));
                        }
                        assert(run_stream(ir, b, stream, k + 1, s1, next) == Some((s1, next)));
                    }
                }
            },
        }
    } else {
        assert(extends(s.0, s.0));
    }
}

proof fn lemma_walk_shape(ir: Ir, b: Body, current: int, visited: Seq<bool>, s: Flow)
    requires
        body_ok(ir, b),
        count_out(s.0) == 0,
        visited.len() == b.blocks@.len(),
    ensures
        walk(ir, b, current, visited, s) matches Some(s2) ==> extends(s2.0, s.0) && count_out(s2.0)
            <= 1,
    decreases count_false(visited),
{
    if 0 <= current < visited.len() && !visited[current] {
        let stream = b.blocks@[current]@;
        assert forall|j: int| 0 <= j < stream.len() - 1 implies !ends_block(
            b.instructions@[#[trigger] stream[j] as int],
        ) by {
            assert(stream[j] == b.blocks@[current]@[j]);
        }
        lemma_run_stream_shape(ir, b, stream, 0, s, None);
        match run_stream(ir, b, stream, 0, s, None) {
            Some((s2, Some(t))) => {
                lemma_count_false(visited, current);
                lemma_walk_shape(ir, b, t, visited.update(current, true), s2);
                if let Some(s3) = walk(ir, b, t, visited.update(current, true), s2) {
                    lemma_extends_trans(s3.0, s2.0, s.0);
                }
            },
            _ => {},
        }
    }
}

/// A function's diagram has at most one `Out` node (the return is the single exit of the
/// branch-free chain), and its first nodes are its parameters in order, each labelled with
/// the parameter's declared name.
pub proof fn lemma_dataflow_shape(ir: Ir, name: Seq<char>)
    requires
        dataflow_of(ir, name) is Some,
        dataflow_of(ir, name).unwrap() is Some,
        body_ok(ir, body_of(ir, name)),
    ensures
        ({
            let (nodes, edges) = dataflow_of(ir, name).unwrap().unwrap();
            let b = body_of(ir, name);
            &&& count_out(nodes) <= 1
            &&& b.params@.len() <= nodes.len()
            &&& forall|i: int| 0 <= i < b.params@.len() ==> #[trigger] nodes[i] == (
                local_text(ir, b, b.params@[i] as int),
                NodeKind::In,
            )
        }),
{
    let b = body_of(ir, name);
    let m = b.params@.len() as int;
    lemma_start_shape(ir, b, m);
    lemma_walk_shape(ir, b, 0, Seq::new(b.blocks@.len(), |i: int| false), start(ir, b, m));
    let nodes = dataflow_of(ir, name).unwrap().unwrap().0;
    assert forall|i: int| 0 <= i < m implies #[trigger] nodes[i] == (
        local_text(ir, b, b.params@[i] as int),
        NodeKind::In,
    ) by {
        assert(nodes[i] == start(ir, b, m).0[i]);
    }
}

/// An `in` test is labelled `in` when it asks for membership and `not in` when it asks for
/// its absence, whatever it tests and wherever: the two never share a label.
pub proof fn lemma_in_labels(ir: Ir, ir2: Ir, a: usize, b: usize, a2: usize, b2: usize, c: bool)
    ensures
        label_of(ir, Inst::In(a, b, true)) == "in"@,
        label_of(ir, Inst::In(a, b, false)) == "not "@ + label_of(ir, Inst::In(a, b, true)),
        label_of(ir, Inst::In(a, b, c)) == label_of(ir2, Inst::In(a2, b2, c)),
        label_of(ir, Inst::In(a, b, true)) != label_of(ir2, Inst::In(a2, b2, false)),
{
    reveal_strlit("in");
    reveal_strlit("not ");
    reveal_strlit("not in");
    assert("not "@ + "in"@ =~= "not in"@);
}

} // verus!
