use nefor_mag::contract::MagType;
use nefor_mag::error::MagError;
use nefor_mag::flow::{EdgeValue, GraphValue, NodeValue, Value};
use nefor_mag::graph::{extract_graph, validate};

fn make_node(id: &str, node_type: &str, input: MagType, output: MagType) -> NodeValue {
    NodeValue {
        id: id.into(),
        node_type: node_type.into(),
        args: vec![],
        input_type: input,
        output_type: output,
    }
}

fn make_edge(from: &str, to: &str) -> EdgeValue {
    EdgeValue {
        from: from.into(),
        to: to.into(),
    }
}

fn router() -> NodeValue {
    make_node(
        "a",
        "router",
        MagType::named("Input"),
        MagType::Union(vec![MagType::named("X"), MagType::named("Y")]),
    )
}

#[test]
fn extract_graph_from_value() {
    let graph = GraphValue {
        nodes: vec![],
        edges: vec![],
        terminal: String::new(),
    };
    let val = Value::Graph(graph);
    assert!(extract_graph(val).is_ok());
}

#[test]
fn extract_graph_rejects_non_graph() {
    assert!(extract_graph(Value::Int(42)).is_err());
}

#[test]
fn valid_simple_graph() {
    let graph = GraphValue {
        nodes: vec![
            make_node("a", "llm", MagType::named("A"), MagType::named("B")),
            make_node("b", "check", MagType::named("B"), MagType::named("C")),
        ],
        edges: vec![make_edge("a", "b")],
        terminal: "b".into(),
    };
    assert!(validate(&graph).is_ok());
}

#[test]
fn missing_terminal_errors() {
    let graph = GraphValue {
        nodes: vec![make_node(
            "a",
            "llm",
            MagType::named("A"),
            MagType::named("B"),
        )],
        edges: vec![],
        terminal: String::new(),
    };
    assert!(matches!(validate(&graph), Err(MagError::NoTerminal)));
}

#[test]
fn terminal_references_nonexistent_node() {
    let graph = GraphValue {
        nodes: vec![make_node(
            "a",
            "llm",
            MagType::named("A"),
            MagType::named("B"),
        )],
        edges: vec![],
        terminal: "missing".into(),
    };
    assert!(validate(&graph).is_err());
}

#[test]
fn disconnected_node_errors() {
    let graph = GraphValue {
        nodes: vec![
            make_node("a", "llm", MagType::named("A"), MagType::named("B")),
            make_node("b", "check", MagType::named("B"), MagType::named("C")),
            make_node("c", "isolated", MagType::named("X"), MagType::named("Y")),
        ],
        edges: vec![make_edge("a", "b")],
        terminal: "b".into(),
    };
    let err = validate(&graph).unwrap_err();
    assert!(
        matches!(err, MagError::Disconnected { ref node } if node == "c"),
        "expected Disconnected error for 'c', got: {err:?}"
    );
}

#[test]
fn no_path_to_terminal_errors() {
    let graph = GraphValue {
        nodes: vec![
            make_node("a", "llm", MagType::named("A"), MagType::named("B")),
            make_node("b", "check", MagType::named("B"), MagType::named("C")),
            make_node("c", "output", MagType::named("C"), MagType::named("D")),
        ],
        edges: vec![make_edge("a", "b")],
        terminal: "b".into(),
    };
    let err = validate(&graph).unwrap_err();
    assert!(matches!(err, MagError::Disconnected { .. }), "got: {err:?}");
}

#[test]
fn dead_branch_union_not_covered() {
    let graph = GraphValue {
        nodes: vec![
            router(),
            make_node("b", "handler-x", MagType::named("X"), MagType::named("Out")),
        ],
        edges: vec![make_edge("a", "b")],
        terminal: "b".into(),
    };
    let err = validate(&graph).unwrap_err();
    assert!(
        matches!(err, MagError::DeadBranch { ref variant, .. }
            if variant.same(&MagType::named("Y"))),
        "got: {err:?}"
    );
}

#[test]
fn dead_branch_union_fully_covered() {
    let graph = GraphValue {
        nodes: vec![
            router(),
            make_node("b", "handler-x", MagType::named("X"), MagType::named("Out")),
            make_node("c", "handler-y", MagType::named("Y"), MagType::named("Out")),
            make_node("sink", "sink", MagType::named("Out"), MagType::named("Out")),
        ],
        edges: vec![
            make_edge("a", "b"),
            make_edge("a", "c"),
            make_edge("b", "sink"),
            make_edge("c", "sink"),
        ],
        terminal: "sink".into(),
    };
    assert!(validate(&graph).is_ok());
}

#[test]
fn bare_cycle_is_accepted() {
    let graph = GraphValue {
        nodes: vec![
            make_node("a", "llm", MagType::named("A"), MagType::named("B")),
            make_node("b", "check", MagType::named("B"), MagType::named("A")),
        ],
        edges: vec![make_edge("a", "b"), make_edge("b", "a")],
        terminal: "b".into(),
    };
    assert!(validate(&graph).is_ok());
}

#[test]
fn longer_cycle_is_accepted() {
    let graph = GraphValue {
        nodes: vec![
            make_node("a", "llm", MagType::named("A"), MagType::named("B")),
            make_node("b", "check", MagType::named("B"), MagType::named("C")),
            make_node("c", "route", MagType::named("C"), MagType::named("A")),
        ],
        edges: vec![
            make_edge("a", "b"),
            make_edge("b", "c"),
            make_edge("c", "a"),
        ],
        terminal: "c".into(),
    };
    assert!(validate(&graph).is_ok());
}

#[test]
fn edge_type_mismatch_errors() {
    let graph = GraphValue {
        nodes: vec![
            make_node("a", "llm", MagType::named("A"), MagType::named("B")),
            make_node("b", "check", MagType::named("C"), MagType::named("D")),
        ],
        edges: vec![make_edge("a", "b")],
        terminal: "b".into(),
    };
    let err = validate(&graph).unwrap_err();
    assert!(
        matches!(err, MagError::EdgeTypeMismatch { .. }),
        "got: {err:?}"
    );
}

#[test]
fn edge_type_compatible_with_var() {
    let graph = GraphValue {
        nodes: vec![
            make_node("a", "llm", MagType::named("A"), MagType::var("OUTPUT")),
            make_node("b", "check", MagType::var("INPUT"), MagType::named("D")),
        ],
        edges: vec![make_edge("a", "b")],
        terminal: "b".into(),
    };
    assert!(validate(&graph).is_ok());
}

#[test]
fn edge_type_union_partial_match() {
    let graph = GraphValue {
        nodes: vec![
            router(),
            make_node("b", "handler-x", MagType::named("X"), MagType::named("Out")),
            make_node("c", "handler-y", MagType::named("Y"), MagType::named("Out")),
            make_node("sink", "sink", MagType::named("Out"), MagType::named("Out")),
        ],
        edges: vec![
            make_edge("a", "b"),
            make_edge("a", "c"),
            make_edge("b", "sink"),
            make_edge("c", "sink"),
        ],
        terminal: "sink".into(),
    };
    assert!(validate(&graph).is_ok());
}
