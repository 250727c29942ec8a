use nefor_mag::contract::MagType;
use nefor_mag::driver::validate_modification;
use nefor_mag::env::Env;
use nefor_mag::flow::{EdgeValue, FnValue, GraphValue, NodeValue, Value};
use nefor_mag::ir::{lower, qualify_type, value_to_json, ActorIr, ModificationIr, RuleIr};
use nefor_mag::json::Json;
use nefor_mag::session::define_standard;

fn node(id: &str, ty: &str, input: MagType, output: MagType) -> NodeValue {
    NodeValue {
        id: id.into(),
        node_type: ty.into(),
        args: vec![],
        input_type: input,
        output_type: output,
    }
}

fn edge(from: &str, to: &str) -> EdgeValue {
    EdgeValue {
        from: from.into(),
        to: to.into(),
    }
}

fn dests<'a>(actor: &'a ActorIr, key: &str) -> Vec<&'a str> {
    actor
        .routes
        .iter()
        .find(|(route, _)| route == key)
        .unwrap()
        .1
        .iter()
        .map(|to| to.as_str())
        .collect()
}

fn actor(id: &str, factory: &str) -> ActorIr {
    ActorIr {
        id: id.into(),
        factory: factory.into(),
        params: Json::Object(vec![]),
        routes: vec![],
    }
}

fn standard_env() -> Env {
    let mut env = Env::empty("main");
    define_standard(&mut env);
    env
}

#[test]
fn qualify_bare_type() {
    assert_eq!(
        qualify_type(&MagType::Named("ToolCalls".into())),
        "mag.ToolCalls"
    );
}

#[test]
fn qualify_dotted_type_passes_through() {
    assert_eq!(
        qualify_type(&MagType::Named("generic-tool.ToolCalls".into())),
        "generic-tool.ToolCalls"
    );
}

#[test]
fn qualify_var_always_prefixed() {
    assert_eq!(qualify_type(&MagType::Var("INPUT".into())), "mag.INPUT");
}

#[test]
fn value_to_json_rejects_function() {
    let val = Value::Fn(FnValue {
        params: vec![],
        body: vec![],
        closure: vec![],
    });
    assert!(value_to_json(&val).is_err());
}

#[test]
fn edges_invert_into_routes() {
    let graph = GraphValue {
        nodes: vec![
            node("a", "llm", MagType::named("A"), MagType::named("B")),
            node("sink", "sink", MagType::named("B"), MagType::named("B")),
        ],
        edges: vec![edge("a", "sink")],
        terminal: "sink".into(),
    };
    let ir = lower(graph).unwrap();
    assert_eq!(ir.actors.len(), 2);
    assert_eq!(ir.actors[0].id, "a");
    assert_eq!(ir.actors[0].factory, "llm");
    assert_eq!(dests(&ir.actors[0], "mag.B"), vec!["sink"]);
    assert!(ir.actors[1].routes.is_empty());
}

#[test]
fn union_output_becomes_multiple_route_keys() {
    let graph = GraphValue {
        nodes: vec![
            node(
                "router",
                "router",
                MagType::named("IN"),
                MagType::Union(vec![MagType::named("X"), MagType::named("Y")]),
            ),
            node("hx", "hx", MagType::named("X"), MagType::named("Out")),
            node("hy", "hy", MagType::named("Y"), MagType::named("Out")),
            node("sink", "sink", MagType::named("Out"), MagType::named("Out")),
        ],
        edges: vec![
            edge("router", "hx"),
            edge("router", "hy"),
            edge("hx", "sink"),
            edge("hy", "sink"),
        ],
        terminal: "sink".into(),
    };
    let ir = lower(graph).unwrap();
    let router = &ir.actors[0];
    assert_eq!(dests(router, "mag.X"), vec!["hx"]);
    assert_eq!(dests(router, "mag.Y"), vec!["hy"]);
}

#[test]
fn fanout_same_type_many_targets() {
    let graph = GraphValue {
        nodes: vec![
            node("a", "a", MagType::named("A"), MagType::named("T")),
            node("b", "b", MagType::named("T"), MagType::named("Out")),
            node("c", "c", MagType::named("T"), MagType::named("Out")),
            node("sink", "sink", MagType::named("Out"), MagType::named("Out")),
        ],
        edges: vec![
            edge("a", "b"),
            edge("a", "c"),
            edge("b", "sink"),
            edge("c", "sink"),
        ],
        terminal: "sink".into(),
    };
    let ir = lower(graph).unwrap();
    assert_eq!(dests(&ir.actors[0], "mag.T"), vec!["b", "c"]);
}

#[test]
fn terminal_renamed_to_sink_and_routes_follow() {
    let graph = GraphValue {
        nodes: vec![
            node("a", "llm", MagType::named("A"), MagType::named("B")),
            node("out", "sink", MagType::named("B"), MagType::named("B")),
        ],
        edges: vec![edge("a", "out")],
        terminal: "out".into(),
    };
    let ir = lower(graph).unwrap();
    assert_eq!(ir.actors[1].id, "sink");
    assert_eq!(dests(&ir.actors[0], "mag.B"), vec!["sink"]);
}

#[test]
fn source_gets_initial_activation() {
    let graph = GraphValue {
        nodes: vec![
            node("entry", "adapter", MagType::named("A"), MagType::named("B")),
            node("sink", "sink", MagType::named("B"), MagType::named("B")),
        ],
        edges: vec![edge("entry", "sink")],
        terminal: "sink".into(),
    };
    let ir = lower(graph).unwrap();
    assert_eq!(ir.messages.len(), 1);
    assert_eq!(ir.messages[0].to, "entry");
    let Json::Object(content) = &ir.messages[0].content else {
        panic!("object")
    };
    let kind = content.iter().find(|(name, _)| name == "kind").unwrap();
    assert!(matches!(&kind.1, Json::Str(text) if text == "task"));
}

#[test]
fn hash_is_order_independent() {
    let g1 = GraphValue {
        nodes: vec![
            node("a", "a", MagType::named("A"), MagType::named("B")),
            node("sink", "sink", MagType::named("B"), MagType::named("B")),
        ],
        edges: vec![edge("a", "sink")],
        terminal: "sink".into(),
    };
    let g2 = GraphValue {
        nodes: vec![
            node("sink", "sink", MagType::named("B"), MagType::named("B")),
            node("a", "a", MagType::named("A"), MagType::named("B")),
        ],
        edges: vec![edge("a", "sink")],
        terminal: "sink".into(),
    };
    assert_eq!(lower(g1).unwrap().hash, lower(g2).unwrap().hash);
}

#[test]
fn hashes_are_prefixed_digests_and_tell_graphs_apart() {
    let make = |factory: &str| GraphValue {
        nodes: vec![
            node("a", factory, MagType::named("A"), MagType::named("B")),
            node("sink", "sink", MagType::named("B"), MagType::named("B")),
        ],
        edges: vec![edge("a", "sink")],
        terminal: "sink".into(),
    };
    let first = lower(make("one")).unwrap().hash;
    let second = lower(make("two")).unwrap().hash;
    assert!(first.starts_with("sha256:"));
    assert_eq!(first.len(), 7 + 64);
    assert_ne!(first, second);
}

#[test]
fn duplicate_actor_id_rejected() {
    let ir = ModificationIr {
        actors: vec![actor("dup", "llm"), actor("dup", "sink")],
        messages: vec![],
        kills: vec![],
        rules: vec![],
        hash: String::new(),
    };
    let env = standard_env();
    let err = validate_modification(&ir, &env).unwrap_err();
    assert!(err.message().contains("dup"), "got: {}", err.message());
}

#[test]
fn rule_ref_to_missing_fn_rejected() {
    let ir = ModificationIr {
        actors: vec![actor("a", "llm")],
        messages: vec![],
        kills: vec![],
        rules: vec![RuleIr {
            on: "a".into(),
            fn_name: "does-not-exist".into(),
        }],
        hash: String::new(),
    };
    let env = standard_env();
    let err = validate_modification(&ir, &env).unwrap_err();
    assert!(err.message().contains("undefined fn"), "got: {}", err.message());
}

#[test]
fn lowered_graphs_can_be_loaded_and_have_a_sink() {
    let graph = |second: &str| GraphValue {
        nodes: vec![
            node("a", "a", MagType::named("A"), MagType::named("B")),
            node(second, "out", MagType::named("B"), MagType::named("B")),
        ],
        edges: vec![edge("a", second)],
        terminal: second.into(),
    };
    let ir = lower(graph("end")).unwrap();
    assert!(ir.actors.iter().any(|actor| actor.id == "sink"));
    assert!(validate_modification(&ir, &standard_env()).is_ok());
    let clash = lower(graph("a")).unwrap();
    assert!(validate_modification(&clash, &standard_env()).is_err());
}

#[test]
fn the_sink_emits_nothing_even_in_a_cycle() {
    let graph = GraphValue {
        nodes: vec![
            node("a", "a", MagType::named("A"), MagType::named("B")),
            node("b", "b", MagType::named("B"), MagType::named("A")),
        ],
        edges: vec![edge("a", "b"), edge("b", "a")],
        terminal: "b".into(),
    };
    let ir = lower(graph).unwrap();
    assert_eq!(dests(&ir.actors[0], "mag.B"), ["sink"]);
    assert_eq!(ir.actors[1].id, "sink");
    assert!(ir.actors[1].routes.is_empty());
    assert!(ir.messages.is_empty());
    let misfit = GraphValue {
        nodes: vec![
            node("a", "a", MagType::named("A"), MagType::named("B")),
            node("b", "b", MagType::named("B"), MagType::named("C")),
        ],
        edges: vec![edge("a", "b"), edge("b", "a")],
        terminal: "b".into(),
    };
    assert!(lower(misfit).is_err());
}

#[test]
fn reordered_graphs_have_one_hash() {
    let make = |reversed: bool| {
        let mut nodes = vec![
            node("a", "a", MagType::named("A"), MagType::named("T")),
            node("b", "b", MagType::named("T"), MagType::named("T")),
            node("c", "c", MagType::named("T"), MagType::named("T")),
            node("end", "out", MagType::named("T"), MagType::named("T")),
        ];
        let mut edges = vec![edge("a", "b"), edge("a", "c"), edge("b", "end"), edge("c", "end")];
        if reversed {
            nodes.reverse();
            edges.reverse();
        }
        lower(GraphValue {
            nodes,
            edges,
            terminal: "end".into(),
        })
        .unwrap()
    };
    let first = make(false);
    let second = make(true);
    assert_eq!(first.hash, second.hash);
    assert_eq!(first.actors[0].id, "a");
    assert_eq!(second.actors[0].id, "sink");
}
