use nefor_mag::asking::{Question, Reply, Stop};
use nefor_mag::builtins::Builtin;
use nefor_mag::diagnostic::SourceSnapshot;
use nefor_mag::driver::{compile, compile_with_inputs, load_with_inputs, validate_loaded_rules, validate_loaded_rules_profiled, validate_rule_fn, Artifact};
use nefor_mag::env::Env;
use nefor_mag::error::MagError;
use nefor_mag::json::Json;
use nefor_mag::machine::Machine;
use nefor_mag::profile::{CompileProfiler, ProfileStore};
use nefor_mag::value::Value;

fn text(value: &str) -> Json {
    Json::Str(value.into())
}

fn object(members: Vec<(&str, Json)>) -> Json {
    Json::Object(
        members
            .into_iter()
            .map(|(name, value)| (name.to_owned(), value))
            .collect(),
    )
}

fn produces(source: &str) -> String {
    match compile(source, vec![], vec![]) {
        Ok(artifact) => artifact.data.to_text(),
        Err(stop) => panic!("{stop:?}"),
    }
}

fn fails(source: &str) -> MagError {
    let replies = vec![imports_of("missing", &[])];
    match compile(source, vec![], replies) {
        Err(Stop::Failed(error)) => error,
        other => panic!("{other:?}"),
    }
}

/// The answer that some imports would define a name.
fn imports_of(name: &str, imports: &[&str]) -> (Question, Reply) {
    let imports = imports.iter().map(|import| Value::Str((*import).into())).collect();
    (Question::Imports(name.into()), Reply::Value(Value::List(imports)))
}

/// The answers that tell the text of a file.
fn file(path: &str, content: &str) -> Vec<(Question, Reply)> {
    let full = format!("/work/{path}");
    vec![
        (Question::Locate(path.into()), Reply::Value(Value::Str(full.clone()))),
        (Question::File(full), Reply::Value(Value::Str(content.into()))),
    ]
}

/// The answers that tell the document in a file.
fn document(path: &str, content: &str, document: Json) -> Vec<(Question, Reply)> {
    let full = format!("/work/{path}");
    vec![
        (Question::LocateJson(path.into()), Reply::Value(Value::Str(full.clone()))),
        (Question::File(full), Reply::Value(Value::Str(content.into()))),
        (Question::Document(content.into()), Reply::Value(Value::JsonValue(document))),
    ]
}

fn module(name: &str, source: &str) -> (String, SourceSnapshot) {
    (name.to_owned(), SourceSnapshot::named(name, source))
}

#[test]
fn names_in_dead_bindings_have_to_be_defined() {
    let error = fails("type Empty {}\nlet run: fn() -> Artifact = | | => { let dead = missing\n artifact(Empty {}) }\nrun()");
    assert!(matches!(error, MagError::Unresolved(name) if name == "missing"));
}

#[test]
fn functions_return_what_they_declare() {
    let error = fails("type Empty {}\nlet run: fn() -> Int = | | => \"wrong\"\nartifact(Empty {})");
    assert!(matches!(error, MagError::Type(_)), "{}", error.message());
}

#[test]
fn bindings_cannot_be_inferred_from_each_other() {
    let error = fails("type Empty {}\nlet a = b\nlet b = a\nartifact(Empty {})");
    assert!(matches!(error, MagError::Type(_)), "{}", error.message());
}

#[test]
fn missing_modules_are_asked_for() {
    let result = compile(
        "import missing.module.{}\ntype Empty {}\nartifact(Empty {})",
        vec![],
        vec![],
    );
    assert!(
        matches!(result, Err(Stop::Ask(Question::Module(name))) if name == "missing.module")
    );
}

#[test]
fn partial_functions_fail_where_they_are_demanded() {
    let error = fails("let run: fn() -> Artifact = | | => { let bad = remove_at([1], 9)\n artifact(bad) }\nrun()");
    assert_eq!(
        error.message(),
        "eval: initializing bad: remove_at index 9 is out of bounds for 1 values"
    );
    let error = fails("type Ok {ok: Bool}\nlet dead = remove_at([1], 9)\nartifact(Ok {ok: true})");
    assert!(matches!(error, MagError::Eval(_)));
}

#[test]
fn endless_recursion_exceeds_the_budget() {
    let error = fails("let loop: fn(Int) -> Int = |n| => loop(n)\nlet run: fn() -> Artifact = | | => { let dead = loop(0)\n artifact(dead) }\nrun()");
    assert!(matches!(error, MagError::Budget(_)), "{}", error.message());
}

#[test]
fn branches_that_are_not_taken_are_not_evaluated() {
    assert_eq!(
        produces("type Ok {ok: Bool}\nlet run: fn() -> Artifact = | | => if false then artifact(remove_at([1], 9)) else artifact(Ok {ok: true})\nrun()"),
        "{\"ok\":true}"
    );
}

#[test]
fn modules_are_checked_although_nothing_uses_them() {
    let result = compile(
        "import broken.{}\ntype Empty {}\nartifact(Empty {})",
        vec![module("broken", "let broken = missing")],
        vec![imports_of("missing", &[])],
    );
    assert!(
        matches!(result, Err(Stop::Failed(MagError::Unresolved(name))) if name == "missing")
    );
}

#[test]
fn files_are_read_through_the_host() {
    let source = "type ReadArtifact {text: String, items: List<String>}\nlet text = read(\"message.txt\")\nlet data = read_json(\"listing.json\")\nartifact(ReadArtifact {text: text, items: (get(data, \"items\"): List<String>)})";
    let result = compile(source, vec![], vec![]);
    assert!(matches!(result, Err(Stop::Ask(Question::Locate(path))) if path == "message.txt"));
    let mut replies = file("message.txt", "hello\n");
    replies.extend(document(
        "listing.json",
        "{\"items\": [\"second\", \"first\"]}",
        object(vec![("items", Json::Array(vec![text("second"), text("first")]))]),
    ));
    let result = compile(source, vec![], replies);
    match result {
        Ok(artifact) => assert_eq!(
            artifact.data.to_text(),
            "{\"items\":[\"second\",\"first\"],\"text\":\"hello\\n\"}"
        ),
        Err(stop) => panic!("{stop:?}"),
    }
}

#[test]
fn texts_are_interpolated_when_they_are_read() {
    let source = "type Out {text: String}\nartifact(Out {text: str(read(\"a.txt\"))})";
    let result = compile(source, vec![], file("a.txt", "line"));
    assert_eq!(result.unwrap().data.to_text(), "{\"text\":\"line\"}");
    let mut machine = Machine::new(Env::empty("main"), file("a.txt", "to {{name}}"));
    let fields = Value::Fields(vec![("name".into(), Value::Str("you".into()))]);
    let filled = machine.read_file(Builtin::Read, &vec![Value::Str("a.txt".into()), fields]);
    assert!(matches!(filled, Ok(Value::Str(text)) if text == "to you"));
}

#[test]
fn files_that_cannot_be_read_are_told_by_their_first_path() {
    let refused = || {
        let mut replies = file("a.txt", "");
        replies.push((
            Question::Locate("./a.txt".into()),
            Reply::Value(Value::Str("/work/a.txt".into())),
        ));
        replies[1].1 = Reply::Failed("not found".into());
        replies
    };
    let result = compile("artifact(read(\"a.txt\"))", vec![], refused());
    assert!(
        matches!(result, Err(Stop::Failed(MagError::Eval(message))) if message == "cannot read a.txt: not found")
    );
    let result = compile("artifact(read(\"./a.txt\"))", vec![], refused());
    assert!(
        matches!(result, Err(Stop::Failed(MagError::Eval(message))) if message == "cannot read ./a.txt: not found")
    );
    let mut machine = Machine::new(Env::empty("main"), refused());
    for path in ["a.txt", "./a.txt"] {
        let result = machine.read_file(Builtin::Read, &vec![Value::Str(path.into())]);
        assert!(
            matches!(result, Err(Stop::Failed(MagError::Eval(message))) if message == "cannot read a.txt: not found")
        );
    }
    assert_eq!(machine.counters.file_read_cache_hits, 1);
    let mut replies = document("a.json", "{", Json::Null);
    replies[2].1 = Reply::Failed("end of text".into());
    let result = compile("artifact(read_json(\"a.json\"))", vec![], replies);
    assert!(
        matches!(result, Err(Stop::Failed(MagError::Eval(message))) if message == "cannot parse JSON a.json: end of text")
    );
}

#[test]
fn requests_for_files_are_counted() {
    let source = SourceSnapshot::named(
        "main.mag",
        "let a = read(\"a.txt\")\nlet b = read(\"./a.txt\")\nlet c = read(\"c.txt\")\nartifact([a, b, c])",
    );
    let mut replies = file("a.txt", "one");
    replies.extend(file("c.txt", "two"));
    replies.push((
        Question::Locate("./a.txt".into()),
        Reply::Value(Value::Str("/work/a.txt".into())),
    ));
    let program = match load_with_inputs(&source, object(vec![]), vec![], replies) {
        Ok(program) => program,
        Err(stop) => panic!("{stop:?}"),
    };
    assert_eq!(program.artifact.data.to_text(), "[\"one\",\"one\",\"two\"]");
    let counters = program.session.machine.counters;
    assert_eq!(counters.file_read_requests, 3);
    assert_eq!(counters.file_read_cache_hits, 1);
    assert_eq!(counters.file_read_cache_misses, 2);
}

#[test]
fn a_module_that_is_imported_twice_is_requested_once() {
    let counters = |source: &str| {
        let source = SourceSnapshot::named("main.mag", source);
        let modules = vec![module("a", "let one = 1"), module("b", "import a.{}\nlet two = 2")];
        match load_with_inputs(&source, object(vec![]), modules, vec![]) {
            Ok(program) => program.session.machine.counters,
            Err(stop) => panic!("{stop:?}"),
        }
    };
    let twice = counters("import a.{}\nimport a.{one}\nartifact(one)");
    assert_eq!(twice.module_requests, 1);
    assert_eq!(twice.module_cache_hits, 0);
    assert_eq!(twice.modules_loaded, 1);
    let inside = counters("import b.{two}\nimport a.{one}\nartifact([one, two])");
    assert_eq!(inside.module_requests, 3);
    assert_eq!(inside.module_cache_hits, 1);
    assert_eq!(inside.modules_loaded, 2);
}

#[test]
fn functions_that_are_made_are_counted_with_the_names_in_scope() {
    let counters = |source: &str| {
        let source = SourceSnapshot::named("main.mag", source);
        match load_with_inputs(&source, object(vec![]), vec![], vec![]) {
            Ok(program) => program.session.machine.counters,
            Err(stop) => panic!("{stop:?}"),
        }
    };
    let none = counters("artifact(1)");
    assert_eq!(none.environment_snapshots, 0);
    assert_eq!(none.environment_snapshot_bindings, 0);
    let one = counters("let f: fn(Int) -> Int = |n| => n\nartifact(1)");
    assert_eq!(one.environment_snapshots, 1);
    let two = counters("let f: fn(Int) -> Int = |n| => n\nlet x = 1\nartifact(x)");
    assert_eq!(two.environment_snapshots, 1);
    assert_eq!(two.environment_snapshot_bindings, one.environment_snapshot_bindings + 1);
}

#[test]
fn undefined_names_are_told_with_the_imports_that_define_them() {
    let source = "artifact(missing)";
    let result = compile(source, vec![], vec![]);
    assert!(matches!(result, Err(Stop::Ask(Question::Imports(name))) if name == "missing"));
    let replies = vec![imports_of("missing", &["a.b", "c"])];
    let result = compile(source, vec![], replies);
    assert!(
        matches!(result, Err(Stop::Failed(MagError::Unresolved(name))) if name == "missing; possible imports: a.b, c")
    );
    let source = "type Box {inner: Missing}\nartifact(1)";
    let result = compile(source, vec![], vec![imports_of("Missing", &["m"])]);
    assert!(
        matches!(result, Err(Stop::Failed(MagError::Unresolved(name))) if name == "Missing; possible imports: m")
    );
}

#[test]
fn host_inputs_are_read_as_types() {
    let source = "type Step {enabled: Bool, label: String}\ntype Config {steps: List<Step>}\nartifact(host_input(\"config\", type_tag<Config>()))";
    let inputs = |enabled: Json| {
        object(vec![(
            "config",
            object(vec![(
                "steps",
                Json::Array(vec![object(vec![
                    ("enabled", enabled),
                    ("label", text("build")),
                ])]),
            )]),
        )])
    };
    let artifact = compile_with_inputs(source, inputs(Json::Bool(true)), vec![], vec![]).unwrap();
    assert_eq!(
        artifact.data.to_text(),
        "{\"steps\":[{\"enabled\":true,\"label\":\"build\"}]}"
    );
    let result = compile_with_inputs(source, inputs(text("yes")), vec![], vec![]);
    assert!(matches!(result, Err(Stop::Failed(MagError::Type(_)))));
    let error = fails("artifact(host_input(\"count\", type_tag<Int>()))");
    assert_eq!(error.message(), "type error: host input \"count\" is not present");
}

#[test]
fn closures_capture_local_bindings() {
    assert_eq!(
        produces("type ClosureArtifact {captured: Int, suffix: String}\nlet run: fn(Int) -> Artifact = |value| => { let captured = value\n let emit: fn(String) -> Artifact = |suffix| => artifact(ClosureArtifact {captured: captured, suffix: suffix})\n emit(\"ok\") }\nrun(6)"),
        "{\"captured\":6,\"suffix\":\"ok\"}"
    );
}

#[test]
fn closures_in_values_refer_to_each_other() {
    assert_eq!(
        produces("type Handlers {even: fn(List<Int>) -> Bool, odd: fn(List<Int>) -> Bool}\nlet handlers = Handlers {even: ((|items| => if (=)(count(items), 0) then true else get(handlers, \"odd\")(remove_at(items, 0))): fn(List<Int>) -> Bool), odd: ((|items| => if (=)(count(items), 0) then false else get(handlers, \"even\")(remove_at(items, 0))): fn(List<Int>) -> Bool)}\nartifact(get(handlers, \"even\")([1, 2]))"),
        "true"
    );
}

#[test]
fn types_of_one_shape_stay_apart() {
    let result = compile(
        "import left.types.{}\nimport right.types.{}\nlet accept_left: fn(left.types.Payload) -> left.types.Payload = |value| => value\nartifact(accept_left(right.types.Payload {value: 1}))",
        vec![
            module("left.types", "type Payload {value: Int}"),
            module("right.types", "type Payload {value: Int}"),
        ],
        vec![],
    );
    assert!(matches!(result, Err(Stop::Failed(MagError::Type(_)))), "{result:?}");
}

#[test]
fn order_follows_keys_modules_and_files() {
    let source = "import ordered.values.{}\ntype Ranked {rank: String, label: String}\ntype OrderingArtifact {collection: List<String>, module: List<String>, file: List<String>}\nlet manifest = read_json(\"order.json\")\nlet ranked = [Ranked {rank: \"2\", label: \"b\"}, Ranked {rank: \"1\", label: \"a\"}]\nlet sorted_ranked = sort_by(((|entry| => get(entry, \"rank\")): fn(Ranked) -> String), ranked)\nlet collection = map(((|entry| => get(entry, \"label\")): fn(Ranked) -> String), sorted_ranked)\nartifact(OrderingArtifact {collection: collection, module: ordered.values.items, file: (get(manifest, \"items\"): List<String>)})";
    let result = compile(
        source,
        vec![module(
            "ordered.values",
            "let items = [\"module-z\", \"module-a\"]",
        )],
        document(
            "order.json",
            "{\"items\": [\"file-2\", \"file-1\"]}",
            object(vec![("items", Json::Array(vec![text("file-2"), text("file-1")]))]),
        ),
    );
    match result {
        Ok(artifact) => assert_eq!(
            artifact.data.to_text(),
            "{\"collection\":[\"a\",\"b\"],\"file\":[\"file-2\",\"file-1\"],\"module\":[\"module-z\",\"module-a\"]}"
        ),
        Err(stop) => panic!("{stop:?}"),
    }
}

#[test]
fn generic_functions_are_called_on_their_own_types() {
    assert_eq!(
        produces("type GenericValue {value: Int}\ntype CountArtifact {count: Int}\nlet identity<T>: fn(T) -> T = |value| => value\nlet values = [GenericValue {value: 1}, GenericValue {value: 2}]\nlet copied = map(((|value| => identity(value)): fn(GenericValue) -> GenericValue), values)\nartifact(CountArtifact {count: count(copied)})"),
        "{\"count\":2}"
    );
}

#[test]
fn variants_are_matched() {
    assert_eq!(
        produces("type Option<T> = Some(T) | None(Unit)\nlet pick: fn(Option<Int>) -> Int = |option| => match option { case Option.Some(value) => value, case Option.None(unit) => 0 }\nlet some: Option<Int> = Option.Some(4)\nlet none: Option<Int> = Option.None(nil)\nartifact([pick(some), pick(none)])"),
        "[4,0]"
    );
}

#[test]
fn circular_imports_are_refused() {
    let result = compile(
        "import a.{}\nartifact(1)",
        vec![module("a", "import b.{}\nlet x = 1"), module("b", "import a.{}\nlet y = 1")],
        vec![],
    );
    assert!(
        matches!(result, Err(Stop::Failed(MagError::Eval(message))) if message == "circular require: a -> b -> a")
    );
}

#[test]
fn colliding_imports_are_refused_with_repairs() {
    let result = compile(
        "import a\nimport b\nartifact(value)",
        vec![module("a", "let value = 1"), module("b", "let value = 2")],
        vec![],
    );
    let Err(Stop::Failed(MagError::Type(message))) = result else {
        panic!("collision")
    };
    assert_eq!(
        message,
        "import collision at 'value'; candidates: imported export a.value, imported export b.value; repairs: replace `import a` with `import a.{}`, or add `import a.{value as _}`; replace `import b` with `import b.{}`, or add `import b.{value as _}`"
    );
    let result = compile(
        "import a.{other}\nartifact(1)",
        vec![module("a", "let value = 1")],
        vec![],
    );
    assert!(
        matches!(result, Err(Stop::Failed(MagError::Unresolved(name))) if name == "a.other (import selector)")
    );
}

#[test]
fn open_selective_and_aliased_imports_define_names() {
    let modules = || vec![module("a.b", "let one = 1\nlet two = 2")];
    for (source, expected) in [
        ("import a.b\nartifact([one, two, a.b.one])", "[1,2,1]"),
        ("import a.b.{two as zwei}\nartifact([zwei, a.b.one])", "[2,1]"),
        ("import a.b as m\nartifact([m.one, m.two])", "[1,2]"),
    ] {
        match compile(source, modules(), vec![]) {
            Ok(artifact) => assert_eq!(artifact.data.to_text(), expected),
            Err(stop) => panic!("{source}: {stop:?}"),
        }
    }
}

#[test]
fn binding_cycles_are_named() {
    let error = fails("let f: fn() -> Int = | | => x\nlet x = f()\nartifact(x)");
    assert_eq!(
        error.message(),
        "eval: initializing x: binding initialization cycle: x -> f -> x"
    );
}

#[test]
fn programs_have_to_return_artifacts() {
    let error = fails("1");
    assert_eq!(
        error.message(),
        "eval: top-level program must return Artifact, got int"
    );
}

#[test]
fn arithmetic_is_checked() {
    assert_eq!(produces("artifact(int_mul(6, 7))"), "42");
    let error = fails("artifact(int_mul(9223372036854775807, 2))");
    assert!(error
        .message()
        .contains("int_mul overflow: 9223372036854775807 * 2"));
}

#[test]
fn texts_are_replaced_stripped_and_shown() {
    assert_eq!(
        produces("artifact([replace(\"a-b-c\", \"-\", \"+\"), strip_margin(\"  |x\\n  |y\"), str(1, true, \"z\")])"),
        "[\"a+b+c\",\"x\\ny\",\"1truez\"]"
    );
    assert_eq!(
        produces("type T {b: Int, a: Int}\nartifact(canonical(T {b: 1, a: 2}))"),
        "\"{\\\"a\\\":2,\\\"b\\\":1}\""
    );
}

#[test]
fn floats_are_answered_by_the_host() {
    let result = compile("artifact(2.5)", vec![], vec![]);
    assert!(matches!(result, Err(Stop::Ask(Question::Number(notation))) if notation == "2.5"));
}

#[test]
fn loaded_programs_carry_a_hash_and_their_rules() {
    let source = SourceSnapshot::named("main.mag", "let handle: fn(String) -> Artifact = |text| => artifact(text)\nlet pair: fn(Int, Int) -> Int = |a, b| => a\nartifact(1)");
    let program = match load_with_inputs(&source, object(vec![]), vec![], vec![]) {
        Ok(program) => program,
        Err(stop) => panic!("{stop:?}"),
    };
    assert_eq!(program.hash.len(), 64);
    let env = &program.session.machine.env;
    assert!(validate_rule_fn(env, "handle").is_ok());
    assert_eq!(
        validate_rule_fn(env, "pair").unwrap_err().message(),
        "type error: rule function 'pair' must be unary, got 2 parameters"
    );
    assert!(matches!(
        validate_rule_fn(env, "absent"),
        Err(MagError::Unresolved(_))
    ));
    let rule = |ty: &str| {
        object(vec![
            ("id", text("r")),
            ("fn", text("handle")),
            (
                "on",
                object(vec![(
                    "type",
                    object(vec![("kind", text("primitive")), ("name", text(ty))]),
                )]),
            ),
        ])
    };
    let artifact = |ty: &str| Artifact {
        format: "nefor.graph-modification/v1".into(),
        data: object(vec![("rules", Json::Array(vec![rule(ty)]))]),
    };
    assert!(validate_loaded_rules(env, &artifact("String")).is_ok());
    assert_eq!(
        validate_loaded_rules(env, &artifact("Int")).unwrap_err().message(),
        "type error: rule \"r\": type error: rule function 'handle' input does not match its structural source type"
    );
    let mut store = ProfileStore::new();
    let profiler = CompileProfiler::new(&mut store);
    let three = Artifact {
        format: "nefor.graph-modification/v1".into(),
        data: object(vec![(
            "rules",
            Json::Array(vec![rule("String"), rule("Int"), rule("String")]),
        )]),
    };
    assert!(validate_loaded_rules_profiled(env, &artifact("String"), profiler, &mut store).is_ok());
    assert_eq!(profiler.snapshot(&store).counters.resident_rules_validated, 1);
    assert!(validate_loaded_rules_profiled(env, &three, profiler, &mut store).is_err());
    assert_eq!(profiler.snapshot(&store).counters.resident_rules_validated, 3);
}

#[test]
fn rule_functions_are_called_on_documents() {
    let source = SourceSnapshot::named("main.mag", "let handle: fn(String) -> Artifact = |text| => artifact(str(text, \"!\"))\nartifact(1)");
    let mut program = match load_with_inputs(&source, object(vec![]), vec![], vec![]) {
        Ok(program) => program,
        Err(stop) => panic!("{stop:?}"),
    };
    let machine = &mut program.session.machine;
    let asked = match machine.eval_fn("handle", &text("hi")) {
        Err(Stop::Ask(question)) => question,
        other => panic!("{other:?}"),
    };
    assert!(matches!(&asked, Question::Valid(_, document) if document == "\"hi\""));
    machine.replies.push((asked, Reply::Value(Value::Bool(true))));
    let artifact = machine.eval_fn("handle", &text("hi")).unwrap();
    assert_eq!(artifact.data.to_text(), "\"hi!\"");
}

#[test]
fn evidence_of_types_enters_artifacts() {
    let source = "type Choice {label: String}\ntype EvidenceArtifact {descriptor: TypeDescriptor, schema: TypeSchema, semantic_id: SemanticTypeId, selected: Choice}\nlet value = Choice {label: \"yes\"}\nartifact(EvidenceArtifact {descriptor: type_evidence(type_tag<Choice>()), schema: type_schema(type_tag<Choice>()), semantic_id: type_id(type_evidence(type_tag<Choice>())), selected: value})";
    let mut replies: Vec<(Question, Reply)> = vec![];
    let artifact = loop {
        let known = replies
            .iter()
            .map(|(question, reply)| (question.copy(), reply.copy()))
            .collect();
        match compile(source, vec![], known) {
            Ok(artifact) => break artifact,
            Err(Stop::Ask(question)) => {
                let reply = match &question {
                    Question::Schema(_) => Reply::Value(Value::TypeSchema(text("schema"))),
                    Question::TypeId(_) => Reply::Value(Value::SemanticTypeId("identity".into())),
                    other => panic!("{other:?}"),
                };
                replies.push((question, reply));
            }
            Err(stop) => panic!("{stop:?}"),
        }
    };
    assert_eq!(
        artifact.data.to_text(),
        "{\"descriptor\":{\"kind\":\"named\",\"name\":\"main.Choice\",\"arguments\":[],\"body\":{\"kind\":\"record\",\"fields\":[{\"name\":\"label\",\"type\":{\"kind\":\"primitive\",\"name\":\"String\"}}]}},\"schema\":\"schema\",\"selected\":{\"label\":\"yes\"},\"semantic_id\":\"identity\"}"
    );
}

#[test]
fn calls_on_one_value_are_made_once() {
    let items = vec!["1"; 20].join(", ");
    let source = format!(
        "let twice: fn(List<Int>) -> Int = |rest| => int_mul(walk(rest), walk(rest))\nlet walk: fn(List<Int>) -> Int = |items| => if (=)(count(items), 0) then 1 else twice(remove_at(items, 0))\nartifact(walk([{items}]))"
    );
    assert_eq!(produces(&source), "1");
}

#[test]
fn matches_have_to_be_exhaustive() {
    let error = fails("type Option<T> = Some(T) | None(Unit)\nlet pick: fn(Option<Int>) -> Int = |option| => match option { case Option.Some(value) => value }\nartifact(1)");
    assert!(
        error.message().contains("non-exhaustive match; missing None"),
        "{}",
        error.message()
    );
}

#[test]
fn answers_that_are_not_needed_change_nothing() {
    let source = "artifact(read(\"a.txt\"))";
    let mut replies = file("a.txt", "text");
    replies.extend(file("b.txt", "other"));
    replies.extend(file("a.txt", "late"));
    let fewer = compile(source, vec![], file("a.txt", "text")).unwrap();
    let more = compile(source, vec![], replies).unwrap();
    assert_eq!(fewer.data.to_text(), "\"text\"");
    assert_eq!(more.data.to_text(), fewer.data.to_text());
}
