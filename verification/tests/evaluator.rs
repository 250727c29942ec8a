use nefor_mag::asking::Stop;
use nefor_mag::authored::{BlockItem, Expr, Function, NamePath, Parameter, Type};
use nefor_mag::builtins::Builtin;
use nefor_mag::check::compile_block;
use nefor_mag::diagnostic::SourceSnapshot;
use nefor_mag::env::Env;
use nefor_mag::error::MagError;
use nefor_mag::fuel::{
    ensure, enter_call, enter_expr, install, remaining, step, Budget, CompilerLimits,
};
use nefor_mag::json::Float;
use nefor_mag::machine::Machine;
use nefor_mag::session::{compile_text, define_standard};
use nefor_mag::validity::equal;
use nefor_mag::value::Value;

fn standard_env() -> Env {
    let mut env = Env::empty("main");
    define_standard(&mut env);
    env
}

fn machine(env: Env) -> Machine {
    Machine::new(env, vec![])
}

fn failure(stop: Stop) -> MagError {
    match stop {
        Stop::Failed(error) => error,
        Stop::Ask(question) => panic!("asked {question:?}"),
    }
}

/// Makes a function without parameters that returns what a name stands for in the
/// scopes in force.
fn constant_function(machine: &mut Machine, name: &str) -> Result<Value, MagError> {
    let body = vec![BlockItem::Expr(Expr::Name(NamePath::single(name)))];
    let function = Function {
        type_params: vec![],
        params: vec![],
        result: Type::Name(NamePath::single("Int")),
        body,
    };
    let block = compile_block(
        &mut machine.env,
        &vec![BlockItem::Expr(Expr::Function(function))],
    )?;
    let _ = install(&mut machine.budget, CompilerLimits::with_steps(100));
    machine.eval_checked_block(&block).map_err(failure)
}

/// Replaces the scopes in force by the usual names and given ones.
fn fresh_scopes(machine: &mut Machine, values: Vec<(&str, Value)>) {
    machine.env.scopes = vec![vec![]];
    define_standard(&mut machine.env);
    for (name, value) in values {
        machine.env.define(name, value);
    }
}

fn typed_int(value: Value) -> i64 {
    match value {
        Value::Typed(value, _) => match value.as_ref() {
            Value::Int(value) => *value,
            other => panic!("expected typed Int, got {other:?}"),
        },
        other => panic!("expected typed Int, got {other:?}"),
    }
}

fn float(value: f64) -> Value {
    Value::Float(Float {
        bits: value.to_bits(),
        text: format!("{value}"),
        shown: format!("{value}"),
    })
}

#[test]
fn float_equality_preserves_every_bit() {
    let env = standard_env();
    let nan = f64::from_bits(0x7ff8_0000_0000_0001);
    let other_nan = f64::from_bits(0x7ff8_0000_0000_0002);
    assert!(equal(&env, &float(nan), &float(nan)));
    assert!(!equal(&env, &float(nan), &float(other_nan)));
    assert!(!equal(&env, &float(0.0), &float(-0.0)));
}

#[test]
fn group_by_defensively_rejects_a_runtime_non_string_key() {
    let mut machine = machine(standard_env());
    let values = Value::List(vec![Value::List(vec![Value::Int(1)])]);
    let error = failure(
        machine
            .collection_builtin(
                Builtin::GroupBy,
                &vec![Value::BuiltinFn("count".into()), values],
            )
            .unwrap_err(),
    );

    assert_eq!(error.message(), "eval: group_by callback must return String");
}

#[test]
fn default_evaluation_budget_allows_exactly_1_000_000_steps() {
    let limit = CompilerLimits::default().evaluation_steps;
    assert_eq!(limit, 1_000_000);
    let mut budget = Budget::new();
    let _fuel = install(&mut budget, CompilerLimits::with_steps(limit));

    for _ in 0..limit {
        step(&mut budget).unwrap();
    }

    assert_eq!(remaining(&budget), Some(0));
    assert!(matches!(step(&mut budget), Err(MagError::Budget(_))));
}

#[test]
fn budgets_nest_and_give_back_what_they_replace() {
    let mut budget = Budget::new();
    assert!(matches!(step(&mut budget), Err(MagError::Budget(message))
        if message == "evaluation started without an installed budget"));
    let outer = install(&mut budget, CompilerLimits::with_steps(5));
    step(&mut budget).unwrap();
    let kept = ensure(&mut budget, CompilerLimits::with_steps(100));
    assert_eq!(remaining(&budget), Some(4));
    kept.restore(&mut budget);
    assert_eq!(remaining(&budget), Some(4));
    let inner = install(&mut budget, CompilerLimits::with_steps(1));
    step(&mut budget).unwrap();
    assert!(matches!(step(&mut budget), Err(MagError::Budget(message))
        if message == "expression step limit reached"));
    inner.restore(&mut budget);
    assert_eq!(remaining(&budget), Some(4));
    outer.restore(&mut budget);
    assert_eq!(remaining(&budget), None);
}

#[test]
fn depths_are_limited_and_given_back() {
    let mut budget = Budget::new();
    let limits = CompilerLimits {
        evaluation_steps: 10,
        call_depth: 2,
        expression_depth: 1,
    };
    let _guard = install(&mut budget, limits);
    let first = enter_call(&mut budget).unwrap();
    let second = enter_call(&mut budget).unwrap();
    assert!(matches!(enter_call(&mut budget), Err(MagError::Budget(message))
        if message == "function call depth limit reached"));
    second.leave(&mut budget);
    first.leave(&mut budget);
    assert_eq!(budget.call_depth, 0);
    let open = enter_expr(&mut budget).unwrap();
    assert!(matches!(enter_expr(&mut budget), Err(MagError::Budget(message))
        if message == "expression nesting limit reached"));
    open.leave(&mut budget);
    assert_eq!(budget.expr_depth, 0);
}

#[test]
fn lexical_closure_overrides_colliding_caller_binding() {
    let mut machine = machine(Env::empty("main"));
    fresh_scopes(&mut machine, vec![("value", Value::Int(1))]);
    let function = constant_function(&mut machine, "value").unwrap();
    fresh_scopes(&mut machine, vec![("value", Value::Int(99))]);
    let _fuel = install(&mut machine.budget, CompilerLimits::with_steps(100));

    assert_eq!(typed_int(machine.apply(&function, &vec![]).unwrap()), 1);
}

#[test]
fn caller_only_late_binding_is_invisible() {
    let mut machine = machine(Env::empty("main"));
    fresh_scopes(&mut machine, vec![("late", Value::Int(42))]);
    fresh_scopes(&mut machine, vec![]);
    let result = constant_function(&mut machine, "late");

    assert!(matches!(result, Err(MagError::Unresolved(name)) if name == "late"));
}

#[test]
fn checked_same_type_closure_duplicates_are_ambiguous() {
    let mut machine = machine(Env::empty("main"));
    fresh_scopes(
        &mut machine,
        vec![("value", Value::Int(1)), ("value", Value::Int(2))],
    );
    let result = constant_function(&mut machine, "value");

    assert!(result
        .unwrap_err()
        .message()
        .contains("ambiguous overload value"));
}

#[test]
fn value_parameters_override_same_named_generic_bindings() {
    let mut machine = machine(Env::empty("main"));
    fresh_scopes(&mut machine, vec![]);
    let variable = || Type::Name(NamePath::single("T"));
    let function = Function {
        type_params: vec!["T".into()],
        params: vec![Parameter {
            name: "T".into(),
            ty: variable(),
        }],
        result: variable(),
        body: vec![BlockItem::Expr(Expr::Name(NamePath::single("T")))],
    };
    let block = compile_block(
        &mut machine.env,
        &vec![BlockItem::Expr(Expr::Function(function))],
    )
    .unwrap();
    let _fuel = install(&mut machine.budget, CompilerLimits::with_steps(100));
    let function = machine.eval_checked_block(&block).map_err(failure).unwrap();
    fresh_scopes(&mut machine, vec![]);

    assert_eq!(
        typed_int(machine.apply(&function, &vec![Value::Int(7)]).unwrap()),
        7
    );
}

#[test]
fn memoized_result_is_independent_of_caller_only_bindings() {
    let mut machine = machine(Env::empty("main"));
    fresh_scopes(&mut machine, vec![("value", Value::Int(1))]);
    let function = constant_function(&mut machine, "value").unwrap();
    let _fuel = install(&mut machine.budget, CompilerLimits::with_steps(100));

    fresh_scopes(&mut machine, vec![("value", Value::Int(99))]);
    assert_eq!(typed_int(machine.apply(&function, &vec![]).unwrap()), 1);
    fresh_scopes(&mut machine, vec![("value", Value::Int(100))]);
    assert_eq!(typed_int(machine.apply(&function, &vec![]).unwrap()), 1);
}

#[test]
fn lists_are_sorted_stably_and_grouped_in_order_of_their_keys() {
    let mut machine = machine(standard_env());
    let _fuel = install(&mut machine.budget, CompilerLimits::with_steps(100));
    let word = |text: &str| Value::Str(text.into());
    let words = Value::List(vec![word("b"), word("a"), word("b")]);
    let sorted = machine
        .collection_builtin(
            Builtin::SortBy,
            &vec![Value::BuiltinFn("str".into()), words],
        )
        .unwrap();
    let Value::List(items) = sorted else {
        panic!("list")
    };
    let texts: Vec<_> = items.iter().map(|item| item.as_str().unwrap()).collect();
    assert_eq!(texts, ["a", "b", "b"]);

    let words = Value::List(vec![word("b"), word("a"), word("b")]);
    let grouped = machine
        .collection_builtin(
            Builtin::GroupBy,
            &vec![Value::BuiltinFn("str".into()), words],
        )
        .unwrap();
    let Value::MapOf(entries) = grouped else {
        panic!("map")
    };
    let sizes: Vec<_> = entries
        .iter()
        .map(|(key, group)| match group {
            Value::List(items) => (key.as_str().unwrap(), items.len()),
            other => panic!("{other:?}"),
        })
        .collect();
    assert_eq!(sizes, [("a", 1), ("b", 2)]);
}

#[test]
fn repeated_call_reuses_the_cached_shared_result_without_spending_fuel() {
    let source = r#"
            let values = [1, 2, 3]
            let copy: fn(List<Int>) -> List<Int> = |items| =>
              map(((|item| => item): fn(Int) -> Int), items)
            let copied = copy(values)
            artifact(())
        "#;
    let source = SourceSnapshot::named("test.mag", source);
    let module = compile_text(&source).unwrap();
    let mut machine = machine(standard_env());
    let _fuel = install(&mut machine.budget, CompilerLimits::with_steps(1_000));
    machine
        .eval_program(module, CompilerLimits::with_steps(1_000))
        .unwrap();
    let argument = machine.env.find("values").unwrap().copy();
    let function = machine.env.find("copy").unwrap().copy();

    let first = machine.apply(&function, &vec![argument.copy()]).unwrap();
    let after_first = remaining(&machine.budget).unwrap();
    let second = machine.apply(&function, &vec![argument]).unwrap();

    assert_eq!(remaining(&machine.budget), Some(after_first));
    match (first, second) {
        (Value::Typed(left, _), Value::Typed(right, _)) => {
            assert!(equal(&machine.env, &left, &right));
            assert!(matches!(left.as_ref(), Value::List(items) if items.len() == 3));
        }
        values => panic!("expected typed results, got {values:?}"),
    }
}

#[test]
fn calls_on_documents_are_made_anew() {
    let source = "let kinds: fn(List<JsonValue>) -> Int = |items| => count(items)\nartifact(1)";
    let module = compile_text(&SourceSnapshot::named("test.mag", source)).unwrap();
    let mut machine = machine(standard_env());
    let _fuel = install(&mut machine.budget, CompilerLimits::with_steps(1_000));
    machine
        .eval_program(module, CompilerLimits::with_steps(1_000))
        .unwrap();
    let function = machine.env.find("kinds").unwrap().copy();
    let argument = || {
        let ty = nefor_mag::types::MagType::List(Box::new(nefor_mag::types::MagType::JsonValue));
        let items = vec![Value::JsonValue(nefor_mag::json::Json::Null)];
        Value::Typed(Box::new(Value::List(items)), ty)
    };
    machine.apply(&function, &vec![argument()]).unwrap();
    let before = remaining(&machine.budget).unwrap();
    machine.apply(&function, &vec![argument()]).unwrap();
    assert!(remaining(&machine.budget).unwrap() < before);
}
