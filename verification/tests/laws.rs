use nefor_mag::asking::{builtin, Question, Reply, Stop};
use nefor_mag::builtins::Builtin;
use nefor_mag::content::{
    canonical_json, json_to_typed_value, json_to_value, project_typed_value, value_to_json,
};
use nefor_mag::declare::ConcreteType;
use nefor_mag::diagnostic::SourceSnapshot;
use nefor_mag::env::Env;
use nefor_mag::error::MagError;
use nefor_mag::foreign::{ForeignDecl, ForeignEvidence};
use nefor_mag::ir::{hash_modification, ActorIr, MessageIr, RuleIr};
use nefor_mag::json::{Float, Json};
use nefor_mag::profile::{CompileProfile, CompileProfiler, Counter, Phase, ProfileStore};
use nefor_mag::registry::{error_class, inputs_with_contracts, snapshot_contracts};
use nefor_mag::fuel::{install, remaining, CompilerLimits};
use nefor_mag::loader::Loader;
use nefor_mag::machine::Machine;
use nefor_mag::scope::canonical_type;
use nefor_mag::session::{compile_text, define_standard, Session};
use nefor_mag::strings::{replace_text, strip_margin, trim_colons};
use nefor_mag::text::text_chars;
use nefor_mag::tokens::{read_pieces, Sort};
use nefor_mag::types::{substitute, MagType, Subst};
use nefor_mag::validity::{equal, json_equal};
use nefor_mag::value::Value;

fn text(value: &str) -> Json {
    Json::Str(value.into())
}

fn object(members: Vec<(&str, Json)>) -> Json {
    Json::Object(
        members
            .into_iter()
            .map(|(name, member)| (name.to_owned(), member))
            .collect(),
    )
}

fn standard_env() -> Env {
    let mut env = Env::empty("main");
    define_standard(&mut env);
    env
}

fn actor(id: &str, routes: Vec<(&str, Vec<&str>)>) -> ActorIr {
    ActorIr {
        id: id.into(),
        factory: "llm".into(),
        params: Json::Object(vec![]),
        routes: routes
            .into_iter()
            .map(|(key, to)| (key.into(), to.into_iter().map(|id| id.into()).collect()))
            .collect(),
    }
}

fn message(to: &str) -> MessageIr {
    MessageIr {
        to: to.into(),
        content: text("go"),
    }
}

fn rule(on: &str) -> RuleIr {
    RuleIr {
        on: on.into(),
        fn_name: "handle".into(),
    }
}

#[test]
fn the_empty_modification_has_a_known_hash() {
    assert_eq!(
        hash_modification(&vec![], &vec![], &vec![], &vec![]),
        "sha256:95abc44b7a4d735d544fde2c223e263acafa0d1097b9d93ed9bd061df4ad4251"
    );
}

#[test]
fn hashes_ignore_every_order() {
    let first = hash_modification(
        &vec![
            actor("a", vec![("mag.X", vec!["b", "c"]), ("mag.Y", vec!["b"])]),
            actor("b", vec![]),
        ],
        &vec![message("a"), message("b")],
        &vec!["k".into(), "l".into()],
        &vec![rule("a"), rule("b")],
    );
    let second = hash_modification(
        &vec![
            actor("b", vec![]),
            actor("a", vec![("mag.Y", vec!["b"]), ("mag.X", vec!["c", "b"])]),
        ],
        &vec![message("b"), message("a")],
        &vec!["l".into(), "k".into()],
        &vec![rule("b"), rule("a")],
    );
    assert_eq!(first, second);
    let third = hash_modification(&vec![], &vec![], &vec!["k".into()], &vec![]);
    assert_ne!(first, third);
}

#[test]
fn canonical_documents_have_their_members_in_order() {
    let document = object(vec![
        ("b", Json::Array(vec![object(vec![("z", Json::Null), ("y", Json::Bool(true))])])),
        ("a", Json::Int(-3)),
    ]);
    let canonical = canonical_json(&document);
    assert_eq!(
        canonical.to_text(),
        "{\"a\":-3,\"b\":[{\"y\":true,\"z\":null}]}"
    );
    assert_eq!(canonical_json(&canonical).to_text(), canonical.to_text());
    assert!(json_equal(&document, &canonical));
    assert!(!json_equal(&document, &Json::Null));
}

#[test]
fn documents_come_back_from_values_in_canonical_form() {
    let document = object(vec![
        ("name", text("quote \" and \u{1}")),
        (
            "list",
            Json::Array(vec![
                Json::Int(1),
                Json::Float(Float {
                    bits: 1.5f64.to_bits(),
                    text: "1.5".into(),
                    shown: "1.5".into(),
                }),
            ]),
        ),
    ]);
    let written = value_to_json(&json_to_value(&document)).unwrap();
    assert_eq!(
        written.to_text(),
        "{\"list\":[1,1.5],\"name\":\"quote \\\" and \\u0001\"}"
    );
    assert_eq!(written.to_text(), canonical_json(&document).to_text());
}

#[test]
fn documents_are_projected_only_onto_their_types() {
    let env = standard_env();
    let flags = MagType::List(Box::new(MagType::Bool));
    let document = Json::Array(vec![Json::Bool(true), text("yes")]);
    assert!(json_to_typed_value(&env, &document, &flags).is_ok());
    let error = project_typed_value(&env, &document, &flags).unwrap_err();
    assert_eq!(error.message(), "type error: expected Bool");
    let fine = Json::Array(vec![Json::Bool(true)]);
    assert!(project_typed_value(&env, &fine, &flags).is_ok());
    let error = project_typed_value(&env, &Json::Null, &flags).unwrap_err();
    assert_eq!(error.message(), "type error: expected List<Bool>");
}

#[test]
fn values_equal_themselves() {
    let env = standard_env();
    let make = || {
        Value::MapOf(vec![
            (Value::Str("a".into()), Value::List(vec![Value::Int(1)])),
            (Value::Str("b".into()), Value::SetOf(vec![Value::Unit])),
        ])
    };
    assert!(equal(&env, &make(), &make()));
    assert!(!equal(&env, &make(), &Value::Unit));
    let typed = Value::Typed(Box::new(Value::Int(1)), MagType::Int);
    assert!(equal(&env, &typed, &Value::Int(1)));
    let function = Value::BuiltinFn("count".into());
    assert!(!equal(&env, &function, &function));
}

#[test]
fn tokens_follow_one_another_up_to_the_end() {
    let source = "let a = `odd name` // note\n\"x\" -> -2.5 >= 1";
    let chars = text_chars(source);
    let pieces = read_pieces(&chars).unwrap();
    let mut at = 0;
    for piece in &pieces[..pieces.len() - 1] {
        assert!(at <= piece.from && piece.from < piece.to);
        at = piece.to;
    }
    let last = pieces.last().unwrap();
    assert!(matches!(last.sort, Sort::Eof));
    assert_eq!((last.from, last.to), (chars.len(), chars.len()));
    assert!(matches!(&pieces[3].sort, Sort::Ident(name) if name == "odd name"));
}

#[test]
fn texts_are_replaced_and_stripped() {
    assert_eq!(replace_text("a-b-c", "-", "+"), "a+b+c");
    assert_eq!(strip_margin("\n  |one\n\t| two\n"), "\none\n two\n");
    assert_eq!(trim_colons("::key"), "key");
}

#[test]
fn contracts_are_found_in_snapshots() {
    let list = Json::Array(vec![Json::Int(1), Json::Int(2)]);
    assert_eq!(snapshot_contracts(&list).unwrap().len(), 2);
    let nested = object(vec![("foreign_contracts", list)]);
    assert_eq!(snapshot_contracts(&nested).unwrap().len(), 2);
    assert!(snapshot_contracts(&object(vec![("foreign_contracts", Json::Null)])).is_none());
    assert!(snapshot_contracts(&object(vec![])).is_none());
    assert!(snapshot_contracts(&text("contracts")).is_none());
    assert_eq!(
        inputs_with_contracts(vec![Json::Int(1)]).to_text(),
        "{\"foreign_contracts\":[1]}"
    );
}

#[test]
fn errors_are_classified() {
    let class = |error: MagError| error_class(&error);
    assert_eq!(class(MagError::Lex("x".into())), ("syntax_lex", "lex"));
    assert_eq!(class(MagError::Parse("x".into())), ("syntax_parse", "parse"));
    assert_eq!(class(MagError::Type("x".into())), ("type_error", "typecheck"));
    assert_eq!(class(MagError::Unresolved("x".into())), ("type_error", "typecheck"));
    assert_eq!(
        class(MagError::Arity { expected: 1, got: 2 }),
        ("type_error", "typecheck")
    );
    assert_eq!(class(MagError::Budget("x".into())), ("evaluation_budget", "evaluate"));
    assert_eq!(class(MagError::Eval("x".into())), ("evaluation_error", "evaluate"));
    assert_eq!(class(MagError::NoTerminal), ("evaluation_error", "evaluate"));
    let lexical = compile_text(&SourceSnapshot::named("a", "let x = \"open")).unwrap_err();
    assert_eq!(class(lexical), ("syntax_lex", "lex"));
    let syntactic = compile_text(&SourceSnapshot::named("a", "let = 1")).unwrap_err();
    assert_eq!(class(syntactic), ("syntax_parse", "parse"));
}

#[test]
fn declarations_are_gathered_by_their_identities() {
    let env = standard_env();
    let list = |types: Vec<ConcreteType>| {
        vec![Value::List(types.into_iter().map(Value::TypeDescriptor).collect())]
    };
    let declared = |entries: Vec<(&str, ConcreteType)>| {
        Reply::Value(Value::MapOf(
            entries
                .into_iter()
                .map(|(id, ty)| (Value::Str(id.into()), Value::TypeDescriptor(ty)))
                .collect(),
        ))
    };
    let args = list(vec![ConcreteType::String, ConcreteType::Int]);
    assert!(matches!(
        builtin(&env, &vec![], Builtin::DescriptorTable, &args),
        Err(Stop::Ask(Question::Declarations(ConcreteType::String)))
    ));
    let replies = vec![
        (
            Question::Declarations(ConcreteType::String),
            declared(vec![("b", ConcreteType::String), ("a", ConcreteType::Unit)]),
        ),
        (
            Question::Declarations(ConcreteType::Int),
            declared(vec![("c", ConcreteType::Int), ("a", ConcreteType::Unit)]),
        ),
    ];
    let table = builtin(&env, &replies, Builtin::DescriptorTable, &args).unwrap();
    let Value::MapOf(entries) = table else {
        panic!("map")
    };
    let ids: Vec<_> = entries.iter().map(|(id, _)| id.as_str().unwrap()).collect();
    assert_eq!(ids, ["a", "b", "c"]);

    let replies = vec![
        (
            Question::Declarations(ConcreteType::String),
            declared(vec![("a", ConcreteType::String)]),
        ),
        (
            Question::Declarations(ConcreteType::Int),
            declared(vec![("a", ConcreteType::Int)]),
        ),
    ];
    let error = match builtin(&env, &replies, Builtin::DescriptorTable, &args) {
        Err(Stop::Failed(error)) => error,
        other => panic!("{other:?}"),
    };
    assert_eq!(
        error.message(),
        "type error: semantic type identity collision at a"
    );
    let error = match builtin(&env, &vec![], Builtin::DescriptorTable, &vec![Value::Unit]) {
        Err(Stop::Failed(error)) => error,
        other => panic!("{other:?}"),
    };
    assert_eq!(
        error.message(),
        "type error: descriptor_table expects a descriptor list"
    );
}

#[test]
fn foreign_evidence_is_written_with_its_types() {
    let evidence = |output: ConcreteType| ForeignEvidence {
        identity: "agent".into(),
        arguments: vec![ConcreteType::Int],
        input: ConcreteType::Unit,
        output,
    };
    assert_eq!(
        evidence(ConcreteType::List {
            item: Box::new(ConcreteType::String)
        })
        .to_json()
        .to_text(),
        "{\"version\":2,\"identity\":\"agent\",\"arguments\":[{\"kind\":\"primitive\",\"name\":\"Int\"}],\"input\":{\"kind\":\"primitive\",\"name\":\"Unit\"},\"output\":{\"kind\":\"list\",\"item\":{\"kind\":\"primitive\",\"name\":\"String\"}}}"
    );
    assert!(evidence(ConcreteType::Int).same(&evidence(ConcreteType::Int)));
    assert!(!evidence(ConcreteType::Int).same(&evidence(ConcreteType::Bool)));
    let declared = |name: &str| ForeignDecl {
        name: name.into(),
        type_params: vec!["T".into()],
        specialization: vec![MagType::Int],
        params: MagType::Unit,
        input: MagType::Int,
        output: MagType::String,
    };
    assert!(declared("a").same(&declared("a")));
    assert!(!declared("a").same(&declared("b")));
}

#[test]
fn modules_are_loaded_once() {
    let mut session = Session {
        machine: Machine::new(standard_env(), vec![]),
        loader: Loader::new(),
        sources: vec![(
            "numbers".into(),
            SourceSnapshot::named("numbers", "let one = 1\nlet two = int_mul(2, one)"),
        )],
    };
    let _ = install(&mut session.machine.budget, CompilerLimits::with_steps(100));
    let members = |value: Value| match value {
        Value::ModuleNamespace(members) => members
            .iter()
            .map(|(name, _)| name.clone())
            .collect::<Vec<_>>(),
        other => panic!("{other:?}"),
    };
    let first = session.eval_require("numbers", 10).unwrap();
    assert_eq!(members(first), ["one", "two"]);
    let left = remaining(&session.machine.budget);
    let second = session.eval_require("numbers", 10).unwrap();
    assert_eq!(members(second), ["one", "two"]);
    assert_eq!(remaining(&session.machine.budget), left);
}

#[test]
fn types_without_replaced_variables_stay_as_they_are() {
    let ty = MagType::Function(
        vec![MagType::Var("T".into())],
        Box::new(MagType::List(Box::new(MagType::Var("U".into())))),
    );
    assert!(substitute(&ty, &Subst::new()).same(&ty));
    let mut other = Subst::new();
    other.insert("V".into(), MagType::Int);
    assert!(substitute(&ty, &other).same(&ty));
    other.insert("T".into(), MagType::Int);
    assert_eq!(substitute(&ty, &other).text(), "fn(Int) -> List<U>");
}

#[test]
fn values_conform_where_the_host_says_so() {
    let env = standard_env();
    let args = vec![Value::Int(1), Value::TypeDescriptor(ConcreteType::Int)];
    let schema = || {
        (
            Question::Schema(ConcreteType::Int),
            Reply::Value(Value::TypeSchema(text("schema"))),
        )
    };
    let valid = |reply: Reply| (Question::Valid(ConcreteType::Int, "1".into()), reply);
    let outcome = |replies: Vec<(Question, Reply)>| {
        builtin(&env, &replies, Builtin::Conforms, &args)
    };
    assert!(matches!(
        outcome(vec![]),
        Err(Stop::Ask(Question::Schema(ConcreteType::Int)))
    ));
    assert!(matches!(
        outcome(vec![schema()]),
        Err(Stop::Ask(Question::Valid(ConcreteType::Int, document))) if document == "1"
    ));
    assert!(matches!(
        outcome(vec![schema(), valid(Reply::Value(Value::Unit))]),
        Ok(Value::Bool(true))
    ));
    assert!(matches!(
        outcome(vec![schema(), valid(Reply::Ill("no".into()))]),
        Ok(Value::Bool(false))
    ));
    assert!(matches!(
        outcome(vec![(
            Question::Schema(ConcreteType::Int),
            Reply::Failed("no schema".into())
        )]),
        Ok(Value::Bool(false))
    ));
}

#[test]
fn profiles_grow_and_start_over() {
    let mut store = ProfileStore::new();
    let other = CompileProfiler::new(&mut store);
    let profiler = CompileProfiler::new(&mut store);
    let shared = profiler.clone();
    other.count(&mut store, Counter::FunctionCalls, 9);
    profiler.add_phase(&mut store, Phase::Checking, 7);
    shared.add_phase(&mut store, Phase::Checking, u128::MAX);
    profiler.count(&mut store, Counter::EvaluatorSteps, 3);
    shared.count(&mut store, Counter::MemoizedCallHits, 2);
    shared.count(&mut store, Counter::EvaluatorSteps, 1);
    let earlier = profiler.snapshot(&store);
    assert!(shared.snapshot(&store) == earlier);
    assert_eq!(earlier.phases.checking_ns, u64::MAX);
    assert_eq!(earlier.counters.evaluator_steps, 4);
    assert_eq!(earlier.counters.memoized_call_hits, 2);
    assert_eq!(earlier.counters.function_calls, 0);
    profiler.reset(&mut store);
    assert!(profiler.snapshot(&store) == CompileProfile::default());
    assert!(shared.snapshot(&store) == CompileProfile::default());
    assert_eq!(other.snapshot(&store).counters.function_calls, 9);
    assert_eq!(earlier.counters.evaluator_steps, 4);
}

#[test]
fn evaluations_are_counted() {
    let source = "let one: fn(Int) -> Int = |n| => n\nlet a = one(1)\nlet b = one(1)\nartifact(count([a, b]))";
    let module = compile_text(&SourceSnapshot::named("test.mag", source)).unwrap();
    let mut machine = Machine::new(standard_env(), vec![]);
    let limits = CompilerLimits::with_steps(100);
    let _ = install(&mut machine.budget, limits);
    machine.eval_program(module, limits).unwrap();
    let counters = machine.counters;
    assert_eq!(counters.evaluator_steps, 100 - remaining(&machine.budget).unwrap());
    assert_eq!(counters.memoized_call_misses, 1);
    assert_eq!(counters.memoized_call_stores, 1);
    assert_eq!(counters.memoized_call_hits, 1);
    assert_eq!(counters.function_calls, 4);
    assert_eq!(counters.builtin_calls, 2);
}

#[test]
fn margins_end_at_every_kind_of_white_space() {
    assert_eq!(strip_margin("\u{3000}\u{a0}\u{2028}|x"), "x");
    assert_eq!(strip_margin("\u{200b}|x"), "\u{200b}|x");
}

#[test]
fn texts_are_quoted_with_escapes() {
    let shown = text("\u{8}\t\n\u{c}\r\u{1f}\"\\\u{7f}/\u{e9}").to_text();
    assert_eq!(
        shown,
        "\"\\b\\t\\n\\f\\r\\u001f\\\"\\\\\u{7f}/\u{e9}\""
    );
}

#[test]
fn large_integers_keep_their_digits() {
    let nearest = || Float {
        bits: 18446744073709551615f64.to_bits(),
        text: "1.8446744073709552e19".into(),
        shown: "18446744073709552000".into(),
    };
    let large = Json::Large(u64::MAX, nearest());
    assert_eq!(large.to_text(), "18446744073709551615");
    assert!(json_equal(&large, &large.copy()));
    assert!(!json_equal(&large, &Json::Float(nearest())));
    assert!(matches!(json_to_value(&large), Value::Float(number) if number.bits == nearest().bits));
}

#[test]
fn maps_give_back_what_was_put() {
    let env = standard_env();
    let call = |function: Builtin, args: Vec<Value>| builtin(&env, &vec![], function, &args);
    let word = |value: &str| Value::Str(value.into());
    let map = Value::MapOf(vec![(word("a"), Value::Int(1)), (word("b"), Value::Int(2))]);
    let changed = call(Builtin::MapPut, vec![map.copy(), word("a"), Value::Int(3)]).unwrap();
    let longer = call(Builtin::MapPut, vec![changed, word("c"), Value::Int(4)]).unwrap();
    let get = |map: &Value, key: &str| match call(Builtin::MapGet, vec![map.copy(), word(key)]) {
        Ok(Value::Int(value)) => Some(value),
        _ => None,
    };
    assert_eq!(get(&longer, "a"), Some(3));
    assert_eq!(get(&longer, "b"), Some(2));
    assert_eq!(get(&longer, "c"), Some(4));
    assert_eq!(get(&map, "a"), Some(1));
    assert_eq!(get(&map, "c"), None);
    let Value::MapOf(entries) = longer else {
        panic!("map")
    };
    let keys: Vec<_> = entries.iter().map(|(key, _)| key.as_str().unwrap()).collect();
    assert_eq!(keys, ["a", "b", "c"]);
}

#[test]
fn keys_that_are_not_equal_are_told_apart() {
    let env = standard_env();
    let call = |function: Builtin, args: Vec<Value>| builtin(&env, &vec![], function, &args);
    let record = |x: i64, y: i64| {
        Value::Fields(vec![("x".into(), Value::Int(x)), ("y".into(), Value::Int(y))])
    };
    let turned = Value::Fields(vec![("y".into(), Value::Int(2)), ("x".into(), Value::Int(1))]);
    let set = |items: &[i64]| Value::SetOf(items.iter().map(|item| Value::Int(*item)).collect());
    let keys = || {
        vec![
            record(1, 2),
            set(&[1, 2]),
            Value::MapOf(vec![(set(&[1]), Value::Int(0)), (set(&[2]), Value::Int(0))]),
            Value::JsonValue(object(vec![("a", text("b")), ("c", text("d"))])),
        ]
    };
    let map = Value::MapOf(
        keys().into_iter().enumerate().map(|(at, key)| (key, Value::Int(at as i64))).collect(),
    );
    let same = vec![
        turned,
        set(&[2, 1]),
        Value::MapOf(vec![(set(&[2]), Value::Int(0)), (set(&[1]), Value::Int(0))]),
        Value::JsonValue(object(vec![("c", text("d")), ("a", text("b"))])),
    ];
    for (at, key) in same.iter().enumerate() {
        let put = call(Builtin::MapPut, vec![map.copy(), key.copy(), Value::Int(9)]).unwrap();
        for (there, other) in keys().into_iter().enumerate() {
            assert_eq!(equal(&env, key, &other), at == there);
            assert_eq!(equal(&env, &other, key), at == there);
            let expected = if at == there { 9 } else { there as i64 };
            let found = call(Builtin::MapGet, vec![put.copy(), other]);
            assert!(matches!(found, Ok(Value::Int(value)) if value == expected));
        }
        let Value::MapOf(entries) = put else {
            panic!("map")
        };
        assert_eq!(entries.len(), 4);
    }
    let absent = call(Builtin::MapGet, vec![map, record(2, 1)]);
    assert!(absent.is_err());
}

#[test]
fn calls_of_what_cannot_be_called_are_counted() {
    let mut machine = Machine::new(standard_env(), vec![]);
    let args = |items: Vec<Value>| vec![Value::Int(1), Value::List(items)];
    let empty = machine.collection_builtin(Builtin::IndexedMap, &args(vec![]));
    assert!(matches!(empty, Ok(Value::List(items)) if items.is_empty()));
    assert_eq!(machine.counters.function_calls, 0);
    let refused = machine.collection_builtin(Builtin::IndexedMap, &args(vec![Value::Int(2)]));
    assert!(
        matches!(refused, Err(Stop::Failed(MagError::Eval(message))) if message == "cannot call int")
    );
    assert_eq!(machine.counters.function_calls, 1);
    assert_eq!(machine.counters.builtin_calls, 0);
}

#[test]
fn canonical_types_do_not_depend_on_names_of_variables() {
    let ty = |first: &str, second: &str| {
        MagType::Function(
            vec![MagType::Var(first.into()), MagType::Var(second.into())],
            Box::new(MagType::List(Box::new(MagType::Var(first.into())))),
        )
    };
    assert_eq!(canonical_type(&ty("A", "B")), "fn($0, $1) -> List<$0>");
    assert_eq!(canonical_type(&ty("B", "A")), canonical_type(&ty("A", "B")));
    assert_ne!(canonical_type(&ty("A", "A")), canonical_type(&ty("A", "B")));
}
