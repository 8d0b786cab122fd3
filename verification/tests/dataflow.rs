use mimas::dataflow::{
    function_dataflow, Body, Constant, DataflowError, FormatPart, Inst, Ir, NodeKind,
};

fn program(instructions: Vec<Inst>, blocks: Vec<Vec<usize>>) -> Ir {
    Ir {
        item_bodies: vec![(0, 0)],
        dec_names: vec!["double".to_string(), "x".to_string()],
        adt_names: vec!["Point".to_string()],
        strs: vec!["k".to_string()],
        bodies: vec![Body { params: vec![0], locals: vec![1], blocks, instructions }],
    }
}

#[test]
fn straight_line_body_becomes_a_circuit() {
    let ir = program(
        vec![
            Inst::GetLocal(0),
            Inst::Constant(Constant::Int(2)),
            Inst::BinOp { op: "*".to_string(), left: 0, right: 1 },
            Inst::Return(2),
        ],
        vec![vec![0, 1, 2, 3]],
    );
    let g = function_dataflow(&ir, "double").unwrap();
    assert_eq!(g.function_name, "double");
    let labels: Vec<&str> = g.nodes.iter().map(|n| n.label.as_str()).collect();
    assert_eq!(labels, vec!["x", "2", "*", "out"]);
    let kinds: Vec<NodeKind> = g.nodes.iter().map(|n| n.kind).collect();
    assert_eq!(kinds, vec![NodeKind::In, NodeKind::Op, NodeKind::Op, NodeKind::Out]);
    let edges: Vec<(usize, usize, Option<&str>)> =
        g.edges.iter().map(|e| (e.from, e.to, e.port)).collect();
    assert_eq!(edges, vec![(0, 2, Some("left")), (1, 2, Some("right")), (2, 3, None)]);
    // one exit, and the parameter first under its declared name
    assert_eq!(g.nodes.iter().filter(|n| n.kind == NodeKind::Out).count(), 1);
    assert_eq!((g.nodes[0].label.as_str(), g.nodes[0].kind), ("x", NodeKind::In));
}

#[test]
fn blocks_joined_by_jumps_are_one_sequence() {
    let ir = program(
        vec![
            Inst::GetLocal(0),
            Inst::Jump { target: 1 },
            Inst::Sqrt(0),
            Inst::SetLocal(0, 2),
            Inst::GetLocal(0),
            Inst::Return(4),
        ],
        vec![vec![0, 1], vec![2, 3, 4, 5]],
    );
    let g = function_dataflow(&ir, "double").unwrap();
    let labels: Vec<&str> = g.nodes.iter().map(|n| n.label.as_str()).collect();
    assert_eq!(labels, vec!["x", "sqrt", "out"]);
    let edges: Vec<(usize, usize)> = g.edges.iter().map(|e| (e.from, e.to)).collect();
    assert_eq!(edges, vec![(0, 1), (1, 2)]);
}

#[test]
fn decisions_and_loops_are_refused() {
    let branchy = program(vec![Inst::JumpIfFalse], vec![vec![0]]);
    assert!(matches!(
        function_dataflow(&branchy, "double"),
        Err(DataflowError::HasControlFlow)
    ));
    let looping = program(vec![Inst::Jump { target: 0 }], vec![vec![0]]);
    assert!(matches!(
        function_dataflow(&looping, "double"),
        Err(DataflowError::HasControlFlow)
    ));
}

#[test]
fn unknown_functions_are_named() {
    let ir = program(vec![Inst::Return(0)], vec![vec![0]]);
    match function_dataflow(&ir, "nope") {
        Err(DataflowError::UnknownFunction(n)) => assert_eq!(n, "nope"),
        _ => panic!("expected an unknown function"),
    }
}

#[test]
fn labels_name_what_each_operation_does() {
    let ir = program(
        vec![
            Inst::Constant(Constant::Int(-5)),
            Inst::Constant(Constant::Array(vec![Constant::Int(1), Constant::Bool(true)])),
            Inst::CallDirect { body: 0, args: vec![0] },
            Inst::GetField { src: 2, slot: 3 },
            Inst::Insert { dict: 1, value: 0, key: 0 },
            Inst::NewInstance { adt: 0, fields: vec![0, 3] },
            Inst::In(0, 1, false),
            Inst::Format(vec![FormatPart::Literal, FormatPart::Value(6)]),
            Inst::CallNative { id: 7, args: vec![] },
            Inst::RefBody(9),
        ],
        vec![vec![0, 1, 2, 3, 4, 5, 6, 7, 8, 9]],
    );
    let g = function_dataflow(&ir, "double").unwrap();
    let labels: Vec<&str> = g.nodes.iter().map(|n| n.label.as_str()).collect();
    assert_eq!(
        labels,
        vec![
            "x", "-5", "[1, true]", "double", ".3", "insert .k", "new Point", "not in", "format",
            "native #7", "fn ?"
        ]
    );
    let into_format: Vec<(usize, usize, Option<&str>)> = g
        .edges
        .iter()
        .filter(|e| e.to == 8)
        .map(|e| (e.from, e.to, e.port))
        .collect();
    assert_eq!(into_format, vec![(7, 8, None)]);
}

#[test]
fn dataflow_errors_read_as_messages() {
    assert_eq!(
        DataflowError::UnknownFunction("nope".to_string()).message(),
        "no function named `nope`"
    );
    assert_eq!(
        DataflowError::HasControlFlow.message(),
        "this function has branches or loops -- dataflow view is scoped to straight-line functions for now"
    );
}
