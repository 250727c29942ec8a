//! Programs: from source text to an artifact, and calls into a loaded program.

use crate::asking::{Halt, Query, Question, Reply, Stop, answer, answered, reply_views};
use crate::content::{
    concrete_json, concrete_type_to_json, find_member, json_to_typed_value, member_at, typed_val,
};
use crate::cursor::NESTING_LIMIT;
use crate::declare::{Concrete, ConcreteType};
use crate::diagnostic::{Source, SourceSnapshot};
use crate::env::{Env, World, defined, looked_up};
use crate::error::{Failure, MagError, failure_text, verdict};
use crate::evaluate::evaluation;
use crate::files::file_views;
use crate::fuel::{CompilerLimits, install, installed, limits_for};
use crate::invariance::ids_differ;
use crate::ir::{
    Actor, Message, Modification, ModificationIr, Rule, actor_views, message_views, rule_views,
    sha256_hex, sha256_text,
};
use crate::json::{Data, Json, data_items, data_members, json_text};
use crate::loader::{Loader, Loads};
use crate::machine::{At, Done, Forced, Machine, Run, fails, forces};
use crate::profile::{
    CompileProfile, CompileProfiler, Counter, OperationCounters, ProfileStore, add_count, counted,
    no_counts, profile_of, with_profile,
};
use crate::program::{at_budget, named_applied};
use crate::resolve::{TYPE_DEPTH_LIMIT, concrete_type};
use crate::session::{
    Loaded, Session, Sources, compile_text, define_standard, halts, program_loaded, source_forms,
    source_views, standard,
};
use crate::text::{
    cat3, cat4, cat5, cat6, count_text, debug_shown, debug_text, decimal, same_text, texts,
};
use crate::types::{MagType, Ty, ty_text, tys};
use crate::validity::{data_equal, json_equal};
use crate::value::{FnVal, FnValue, Val, Value, bare, raw, val_kind};
use vstd::prelude::*;
use vstd::string::*;
use vstd::utf8::*;

verus! {

// ---------------------------------------------------------------------------
// Artifacts
// ---------------------------------------------------------------------------

/// What a program produces: a document, and the format that it is in.
#[derive(Debug)]
pub struct Artifact {
    pub format: String,
    pub data: Json,
}

pub ghost struct Product {
    pub format: Seq<char>,
    pub data: Data,
}

impl Artifact {
    pub open spec fn view(&self) -> Product {
        Product { format: self.format@, data: self.data@ }
    }
}

/// The artifact that a document describes by its format and its data; another
/// document is data without a format.
pub open spec fn product_of(data: Data) -> Product {
    match data {
        Data::Object(members) => match (member_at(members, "format"@, 0), member_at(
            members,
            "data"@,
            0,
        )) {
            (Some(Data::Str(format)), Some(inner)) => Product { format, data: inner },
            _ => Product { format: Seq::empty(), data },
        },
        _ => Product { format: Seq::empty(), data },
    }
}

/// The document of an artifact.
pub open spec fn product_document(product: Product) -> Data {
    Data::Object(seq![("format"@, Data::Str(product.format)), ("data"@, product.data)])
}

/// The artifact that a value is, under the types that it was given.
pub open spec fn artifact_in(value: Val, source: Seq<char>) -> Result<Product, Failure>
    decreases value,
{
    match value {
        Val::Artifact(data) => Ok(product_of(data)),
        Val::Typed(inner, Ty::Artifact) => artifact_in(*inner, source),
        other => Err(
            Failure::Eval(source + " must return Artifact, got "@ + val_kind(other)),
        ),
    }
}

fn make_artifact(json: &Json) -> (artifact: Artifact)
    ensures
        artifact@ == product_of(json@),
{
    if let Json::Object(members) = json {
        if let (Some(Json::Str(format)), Some(inner)) = (
            find_member(members, "format"),
            find_member(members, "data"),
        ) {
            return Artifact { format: format.clone(), data: inner.copy() };
        }
    }
    let format = String::new();
    assert(format@ =~= Seq::empty());
    Artifact { format, data: json.copy() }
}

pub open spec fn product_result(result: Result<Artifact, MagError>) -> Result<Product, Failure> {
    match result {
        Ok(artifact) => Ok(artifact@),
        Err(error) => Err(error@),
    }
}

/// Takes the artifact out of a value.
pub fn extract_artifact(value: &Value, source: &str) -> (result: Result<Artifact, MagError>)
    ensures
        product_result(result) == artifact_in(value@, source@),
    decreases value,
{
    match value {
        Value::Artifact(json) => Ok(make_artifact(json)),
        Value::Typed(inner, ty) => {
            let inner: &Value = inner;
            if let MagType::Artifact = ty {
                return extract_artifact(inner, source);
            }
            Err(
                MagError::Eval(
                    cat3(source, " must return Artifact, got ", value.kind_name()),
                ),
            )
        },
        _ => Err(
            MagError::Eval(cat3(source, " must return Artifact, got ", value.kind_name())),
        ),
    }
}

/// The hash of an artifact: the digest of its document.
pub open spec fn product_hash(product: Product) -> Seq<char> {
    sha256_text(encode_utf8(json_text(product_document(product))))
}

impl Artifact {
    pub fn hash(&self) -> (hash: String)
        ensures
            hash@ == product_hash(self@),
    {
        let mut members: Vec<(String, Json)> = Vec::new();
        let format = Json::Str(self.format.clone());
        assert(format@ == Data::Str(self.format@));
        members.push(("format".to_owned(), format));
        members.push(("data".to_owned(), self.data.copy()));
        assert(data_members(members@) =~= seq![
            ("format"@, Data::Str(self.format@)),
            ("data"@, self.data@),
        ]);
        let document = Json::Object(members);
        let text = document.to_text();
        sha256_hex(text.as_str().as_bytes())
    }
}

// ---------------------------------------------------------------------------
// Compilation
// ---------------------------------------------------------------------------

/// The world in which a program starts.
pub open spec fn starting_world(inputs: Data) -> World {
    defined(
        standard(
            World {
                scopes: seq![Seq::empty()],
                bindings: Seq::empty(),
                module: "main"@,
                obligations: Seq::empty(),
                memo: Seq::empty(),
            },
        ),
        "inputs"@,
        Val::HostInputs(inputs),
    )
}

/// Where an evaluation stands before it starts, under the usual limits.
pub open spec fn starting_at(replies: Seq<(Query, Result<Val, Failure>)>) -> At {
    At { exprs: 128, calls: 64, forced: Seq::empty(), replies }
}

/// The evaluation of a program with its imports, under the usual limits.
pub open spec fn program_outcome(
    source: Source,
    inputs: Data,
    sources: Sources,
    replies: Seq<(Query, Result<Val, Failure>)>,
) -> Loaded {
    let run = Run {
        world: starting_world(inputs),
        steps: Some(1_000_000u64),
        counts: no_counts(),
        files: Seq::empty(),
    };
    let loads = Loads { loaded: Seq::empty(), loading: Seq::empty(), foreign: Set::empty() };
    match source_forms(source) {
        Err(failure) => halts(run, loads, Halt::Failed(failure)),
        Ok(forms) => program_loaded(
            run,
            loads,
            sources,
            forms,
            starting_at(replies),
            NESTING_LIMIT as nat,
        ),
    }
}

/// What a program compiles to.
pub open spec fn program_artifact(outcome: Loaded) -> Result<Product, Halt> {
    match outcome.result {
        Err(halt) => Err(halt),
        Ok(value) => match artifact_in(value, "top-level program"@) {
            Ok(product) => Ok(product),
            Err(failure) => Err(Halt::Failed(failure)),
        },
    }
}

pub open spec fn artifact_outcome(result: Result<Artifact, Stop>) -> Result<Product, Halt> {
    match result {
        Ok(artifact) => Ok(artifact@),
        Err(stop) => Err(stop@),
    }
}

/// A session with given inputs, in which nothing has been evaluated. It has the modules and
/// the answers of the host that are known so far.
pub fn start_session(
    inputs: Json,
    sources: Vec<(String, SourceSnapshot)>,
    replies: Vec<(Question, Reply)>,
) -> (session: Session)
    ensures
        session.machine.run() == (Run {
            world: starting_world(inputs@),
            steps: Some(1_000_000u64),
            counts: no_counts(),
            files: Seq::empty(),
        }),
        session.machine.at() == starting_at(reply_views(replies@)),
        session.loader@ == (Loads {
            loaded: Seq::empty(),
            loading: Seq::empty(),
            foreign: Set::empty(),
        }),
        session.sources == sources,
{
    let mut env = Env::empty("main");
    define_standard(&mut env);
    env.define("inputs", Value::HostInputs(inputs));
    let mut machine = Machine::new(env, replies);
    let _ = install(&mut machine.budget, CompilerLimits::default());
    assert(forces(machine.forced@) =~= Seq::<Forced>::empty());
    Session { machine, loader: Loader::new(), sources }
}

/// A program that was evaluated, and what it produced.
pub struct LoadedProgram {
    pub session: Session,
    pub artifact: Artifact,
    pub hash: String,
}

/// Compiles a source text with given inputs. The modules that it imports and the
/// answers of the host are those that are known so far; where one is missing, it
/// is asked for.
pub fn load_with_inputs(
    source: &SourceSnapshot,
    inputs: Json,
    sources: Vec<(String, SourceSnapshot)>,
    replies: Vec<(Question, Reply)>,
) -> (result: Result<LoadedProgram, Stop>)
    ensures
        ({
            let outcome = program_outcome(
                source@,
                inputs@,
                source_views(sources@),
                reply_views(replies@),
            );
            match (result, program_artifact(outcome)) {
                (Ok(program), Ok(product)) => program.artifact@ == product && program.hash@
                    == product_hash(product) && program.session.machine.run() == outcome.run
                    && program.session.loader@ == outcome.loads,
                (Err(stop), Err(halt)) => stop@ == halt,
                _ => false,
            }
        }),
{
    let mut session = start_session(inputs, sources, replies);
    let module = match compile_text(source) {
        Err(error) => return Err(Stop::Failed(error)),
        Ok(module) => module,
    };
    match session.eval_module(module, NESTING_LIMIT) {
        Err(stop) => Err(stop),
        Ok(value) => match extract_artifact(&value, "top-level program") {
            Err(error) => Err(Stop::Failed(error)),
            Ok(artifact) => {
                let hash = artifact.hash();
                Ok(LoadedProgram { session, artifact, hash })
            },
        },
    }
}

/// Compiles a text in memory with given inputs.
pub fn compile_with_inputs(
    text: &str,
    inputs: Json,
    sources: Vec<(String, SourceSnapshot)>,
    replies: Vec<(Question, Reply)>,
) -> (result: Result<Artifact, Stop>)
    ensures
        artifact_outcome(result) == program_artifact(
            program_outcome(
                Source { name: "<memory>"@, path: None, text: text@ },
                inputs@,
                source_views(sources@),
                reply_views(replies@),
            ),
        ),
{
    let source = SourceSnapshot::named("<memory>", text);
    match load_with_inputs(&source, inputs, sources, replies) {
        Ok(program) => Ok(program.artifact),
        Err(stop) => Err(stop),
    }
}

/// Compiles a text in memory without inputs.
pub fn compile(
    text: &str,
    sources: Vec<(String, SourceSnapshot)>,
    replies: Vec<(Question, Reply)>,
) -> (result: Result<Artifact, Stop>)
    ensures
        artifact_outcome(result) == program_artifact(
            program_outcome(
                Source { name: "<memory>"@, path: None, text: text@ },
                Data::Object(Seq::empty()),
                source_views(sources@),
                reply_views(replies@),
            ),
        ),
{
    let inputs = Json::Object(Vec::new());
    assert(inputs@ == Data::Object(Seq::empty())) by {
        assert(data_members(inputs->Object_0@) =~= Seq::empty());
    }
    compile_with_inputs(text, inputs, sources, replies)
}

// ---------------------------------------------------------------------------
// Rules
// ---------------------------------------------------------------------------

/// The value of a name, without the types that annotations gave it.
pub open spec fn called_value(world: World, name: Seq<char>) -> Option<Val> {
    match looked_up(world, name) {
        None => None,
        Some(value) => Some(bare(value)),
    }
}

/// The function that a rule names.
pub open spec fn rule_function(world: World, name: Seq<char>) -> Result<FnVal, Failure> {
    match called_value(world, name) {
        None => Err(Failure::Unresolved(name)),
        Some(Val::Fn(function)) => if function.params.len() != 1 {
            Err(
                Failure::Type(
                    "rule function '"@ + name + "' must be unary, got "@ + decimal(
                        function.params.len(),
                    ) + " parameters"@,
                ),
            )
        } else if function.return_type != Ty::Artifact {
            Err(
                Failure::Type(
                    "rule function '"@ + name + "' must return Artifact, got "@ + ty_text(
                        function.return_type,
                    ),
                ),
            )
        } else {
            Ok(*function)
        },
        Some(_) => Err(Failure::Type("rule function '"@ + name + "' is not a function"@)),
    }
}

fn find_rule_function<'a>(env: &'a Env, name: &str) -> (result: Result<&'a FnValue, MagError>)
    ensures
        match (result, rule_function(env@, name@)) {
            (Ok(function), Ok(view)) => function@ == view,
            (Err(error), Err(failure)) => error@ == failure,
            _ => false,
        },
{
    let value = match env.find(name) {
        None => return Err(MagError::Unresolved(name.to_owned())),
        Some(value) => raw(value),
    };
    match value {
        Value::Fn(function) => {
            let function: &FnValue = function;
            assert(value@ == Val::Fn(Box::new(function@)));
            assert(texts(function.params@).len() == function.params@.len());
            if function.params.len() != 1 {
                let count = count_text(function.params.len());
                return Err(
                    MagError::Type(
                        cat5(
                            "rule function '",
                            name,
                            "' must be unary, got ",
                            count.as_str(),
                            " parameters",
                        ),
                    ),
                );
            }
            if let MagType::Artifact = function.return_type {
                return Ok(function);
            }
            let ty = function.return_type.text();
            Err(
                MagError::Type(
                    cat4("rule function '", name, "' must return Artifact, got ", ty.as_str()),
                ),
            )
        },
        _ => Err(MagError::Type(cat3("rule function '", name, "' is not a function"))),
    }
}

/// Checks that a rule names a function of one parameter that returns an artifact.
pub fn validate_rule_fn(env: &Env, name: &str) -> (result: Result<(), MagError>)
    ensures
        verdict(result) == (match rule_function(env@, name@) {
            Ok(_) => Ok::<(), Failure>(()),
            Err(failure) => Err(failure),
        }),
{
    match find_rule_function(env, name) {
        Ok(_) => Ok(()),
        Err(error) => Err(error),
    }
}

/// Whether the function that a rule names takes what its source emits.
pub open spec fn rule_input(world: World, name: Seq<char>, expected: Data) -> Result<(), Failure> {
    match rule_function(world, name) {
        Err(failure) => Err(failure),
        Ok(function) => if function.param_types.len() == 0 {
            Err(
                Failure::Type(
                    "rule function '"@ + name + "' input does not match its structural source type"@,
                ),
            )
        } else {
            match concrete_type(world, function.param_types[0]) {
                Err(failure) => Err(failure),
                Ok(ty) => if data_equal(concrete_json(ty), expected) {
                    Ok(())
                } else {
                    Err(
                        Failure::Type(
                            "rule function '"@ + name
                                + "' input does not match its structural source type"@,
                        ),
                    )
                },
            }
        },
    }
}

fn mismatch(name: &str) -> (error: MagError)
    ensures
        error@ == Failure::Type(
            "rule function '"@ + name@ + "' input does not match its structural source type"@,
        ),
{
    MagError::Type(
        cat3("rule function '", name, "' input does not match its structural source type"),
    )
}

pub fn validate_rule_fn_input(env: &Env, name: &str, expected: &Json) -> (result: Result<
    (),
    MagError,
>)
    ensures
        verdict(result) == rule_input(env@, name@, expected@),
{
    let function = match find_rule_function(env, name) {
        Err(error) => return Err(error),
        Ok(function) => function,
    };
    assert(tys(function.param_types@).len() == function.param_types@.len());
    if function.param_types.len() == 0 {
        return Err(mismatch(name));
    }
    assert(tys(function.param_types@)[0] == function.param_types@[0]@);
    match ConcreteType::resolve(env, &function.param_types[0]) {
        Err(error) => Err(error),
        Ok(ty) => {
            let actual = concrete_type_to_json(&ty);
            if json_equal(&actual, expected) {
                Ok(())
            } else {
                Err(mismatch(name))
            }
        },
    }
}

/// A member of a document, if it is an object that has it.
pub open spec fn member_of(data: Data, name: Seq<char>) -> Option<Data> {
    match data {
        Data::Object(members) => member_at(members, name, 0),
        _ => None,
    }
}

fn find_in<'a>(json: &'a Json, name: &str) -> (member: Option<&'a Json>)
    ensures
        match (member, member_of(json@, name@)) {
            (Some(member), Some(view)) => member@ == view,
            (None, None) => true,
            _ => false,
        },
{
    match json {
        Json::Object(members) => find_member(members, name),
        _ => None,
    }
}

pub open spec fn rule_id(rule: Data) -> Seq<char> {
    match member_of(rule, "id"@) {
        Some(Data::Str(id)) => id,
        _ => "<malformed>"@,
    }
}

/// Whether a rule of an artifact names a function that fits it.
pub open spec fn rule_valid(world: World, rule: Data) -> Result<(), Failure> {
    let shown = debug_shown(rule_id(rule));
    match member_of(rule, "fn"@) {
        Some(Data::Str(function)) => {
            let input = match member_of(rule, "on"@) {
                Some(on) => member_of(on, "type"@),
                None => None,
            };
            match input {
                Some(ty) => match rule_input(world, function, ty) {
                    Ok(_) => Ok(()),
                    Err(failure) => Err(
                        Failure::Type("rule "@ + shown + ": "@ + failure_text(failure)),
                    ),
                },
                None => Err(
                    Failure::Type("rule "@ + shown + " missing source semantic type"@),
                ),
            }
        },
        _ => Err(Failure::Type("rule "@ + shown + " missing function name"@)),
    }
}

pub open spec fn rules_valid(world: World, rules: Seq<Data>, i: int) -> Result<(), Failure>
    decreases rules.len() - i,
{
    if i < 0 || i >= rules.len() {
        Ok(())
    } else {
        match rule_valid(world, rules[i]) {
            Err(failure) => Err(failure),
            Ok(_) => rules_valid(world, rules, i + 1),
        }
    }
}

/// Whether the rules of a graph modification name functions that fit them; an
/// artifact in another format has none.
pub open spec fn product_rules(world: World, product: Product) -> Result<(), Failure> {
    if product.format != "nefor.graph-modification/v1"@ {
        Ok(())
    } else {
        match member_of(product.data, "rules"@) {
            Some(Data::Array(rules)) => rules_valid(world, rules, 0),
            _ => Ok(()),
        }
    }
}

fn check_rule(env: &Env, rule: &Json) -> (result: Result<(), MagError>)
    ensures
        verdict(result) == rule_valid(env@, rule@),
{
    let id = match find_in(rule, "id") {
        Some(Json::Str(id)) => id.clone(),
        _ => "<malformed>".to_owned(),
    };
    let shown = debug_text(id.as_str());
    let function = match find_in(rule, "fn") {
        Some(Json::Str(function)) => function,
        _ => return Err(
            MagError::Type(cat3("rule ", shown.as_str(), " missing function name")),
        ),
    };
    let input = match find_in(rule, "on") {
        Some(on) => find_in(on, "type"),
        None => None,
    };
    match input {
        None => Err(
            MagError::Type(cat3("rule ", shown.as_str(), " missing source semantic type")),
        ),
        Some(ty) => match validate_rule_fn_input(env, function.as_str(), ty) {
            Ok(_) => Ok(()),
            Err(error) => {
                let message = error.message();
                Err(MagError::Type(cat4("rule ", shown.as_str(), ": ", message.as_str())))
            },
        },
    }
}

/// Counters after the rules from index `i` on were checked: each one counts, and none after
/// one that does not hold.
pub open spec fn rules_counted(
    counters: OperationCounters,
    world: World,
    rules: Seq<Data>,
    i: int,
) -> OperationCounters
    decreases rules.len() - i,
{
    if i < 0 || i >= rules.len() {
        counters
    } else {
        let more = counted(counters, Counter::ResidentRulesValidated, 1);
        match rule_valid(world, rules[i]) {
            Err(_) => more,
            Ok(_) => rules_counted(more, world, rules, i + 1),
        }
    }
}

/// Counters after the rules of an artifact were checked.
pub open spec fn product_rules_counted(
    counters: OperationCounters,
    world: World,
    product: Product,
) -> OperationCounters {
    if product.format != "nefor.graph-modification/v1"@ {
        counters
    } else {
        match member_of(product.data, "rules"@) {
            Some(Data::Array(rules)) => rules_counted(counters, world, rules, 0),
            _ => counters,
        }
    }
}

fn check_rules(env: &Env, artifact: &Artifact, before: OperationCounters) -> (outcome: (
    Result<(), MagError>,
    OperationCounters,
))
    ensures
        verdict(outcome.0) == product_rules(env@, artifact@),
        outcome.1 == product_rules_counted(before, env@, artifact@),
{
    if !same_text(artifact.format.as_str(), "nefor.graph-modification/v1") {
        return (Ok(()), before);
    }
    let mut counters = before;
    match find_in(&artifact.data, "rules") {
        Some(Json::Array(rules)) => {
            let ghost all = data_items(rules@);
            let mut i: usize = 0;
            while i < rules.len()
                invariant
                    i <= rules@.len(),
                    all == data_items(rules@),
                    product_rules(env@, artifact@) == rules_valid(env@, all, 0),
                    rules_valid(env@, all, 0) == rules_valid(env@, all, i as int),
                    product_rules_counted(before, env@, artifact@) == rules_counted(
                        counters,
                        env@,
                        all,
                        i as int,
                    ),
                decreases rules@.len() - i,
            {
                assert(all[i as int] == rules@[i as int]@);
                counters = add_count(counters, Counter::ResidentRulesValidated, 1);
                match check_rule(env, &rules[i]) {
                    Err(error) => return (Err(error), counters),
                    Ok(_) => {},
                }
                i = i + 1;
            }
            (Ok(()), counters)
        },
        _ => (Ok(()), counters),
    }
}

/// Checks every rule that an artifact holds.
pub fn validate_loaded_rules(env: &Env, artifact: &Artifact) -> (result: Result<(), MagError>)
    ensures
        verdict(result) == product_rules(env@, artifact@),
{
    let (result, _) = check_rules(env, artifact, CompileProfile::default().counters);
    result
}

/// Checks every rule that an artifact holds, and counts those that were looked at.
pub fn validate_loaded_rules_profiled(
    env: &Env,
    artifact: &Artifact,
    profiler: CompileProfiler,
    store: &mut ProfileStore,
) -> (result: Result<(), MagError>)
    requires
        profiler.belongs_to(old(store)@),
    ensures
        verdict(result) == product_rules(env@, artifact@),
        final(store)@ == with_profile(
            old(store)@,
            profiler,
            (CompileProfile {
                counters: product_rules_counted(
                    profile_of(old(store)@, profiler).counters,
                    env@,
                    artifact@,
                ),
                ..profile_of(old(store)@, profiler)
            }),
        ),
{
    let mut profile = profiler.snapshot(store);
    let (result, counters) = check_rules(env, artifact, profile.counters);
    profile.counters = counters;
    store.profiles.set(profiler.slot, profile);
    result
}

// ---------------------------------------------------------------------------
// Calls into a program
// ---------------------------------------------------------------------------

/// The type of the one parameter of a function that is called by name.
pub open spec fn callee_type(world: World, name: Seq<char>) -> Result<Ty, Failure> {
    match called_value(world, name) {
        None => Err(Failure::Unresolved(name)),
        Some(Val::Fn(function)) => if function.param_types.len() == 1 {
            Ok(function.param_types[0])
        } else {
            Err(
                Failure::Type(
                    "function '"@ + name + "' must be unary, got "@ + decimal(
                        function.param_types.len(),
                    ) + " parameters"@,
                ),
            )
        },
        Some(_) => Err(Failure::Type("'"@ + name + "' is not a function"@)),
    }
}

/// Whether a document fits the schema of a type, as the host says.
pub open spec fn input_fits(
    replies: Seq<(Query, Result<Val, Failure>)>,
    name: Seq<char>,
    ty: Ty,
    concrete: Concrete,
    input: Data,
) -> Result<(), Halt> {
    match answered(replies, Query::Valid(concrete, json_text(input))) {
        Ok(_) => Ok(()),
        Err(Halt::Failed(Failure::Type(detail))) => Err(
            Halt::Failed(
                Failure::Type(
                    "rule function '"@ + name + "' input does not conform to "@ + ty_text(ty)
                        + ": "@ + detail,
                ),
            ),
        ),
        Err(halt) => Err(halt),
    }
}

/// Calls a function of a program on a document.
pub open spec fn function_result(run: Run, name: Seq<char>, input: Data, at: At) -> Done {
    match callee_type(run.world, name) {
        Err(failure) => fails(run, failure),
        Ok(ty) => match concrete_type(run.world, ty) {
            Err(failure) => fails(run, failure),
            Ok(concrete) => match input_fits(at.replies, name, ty, concrete, input) {
                Err(halt) => Done { run, result: Err(halt) },
                Ok(_) => match typed_val(
                    run.world,
                    false,
                    input,
                    ty,
                    TYPE_DEPTH_LIMIT as nat,
                ) {
                    Err(failure) => fails(run, failure),
                    Ok(value) => named_applied(
                        run,
                        name,
                        Val::Typed(Box::new(value), ty),
                        at,
                    ),
                },
            },
        },
    }
}

fn find_callee_type(env: &Env, name: &str) -> (result: Result<MagType, MagError>)
    ensures
        match (result, callee_type(env@, name@)) {
            (Ok(ty), Ok(view)) => ty@ == view,
            (Err(error), Err(failure)) => error@ == failure,
            _ => false,
        },
{
    let value = match env.find(name) {
        None => return Err(MagError::Unresolved(name.to_owned())),
        Some(value) => raw(value),
    };
    match value {
        Value::Fn(function) => {
            let function: &FnValue = function;
            assert(value@ == Val::Fn(Box::new(function@)));
            assert(tys(function.param_types@).len() == function.param_types@.len());
            if function.param_types.len() == 1 {
                assert(tys(function.param_types@)[0] == function.param_types@[0]@);
                return Ok(function.param_types[0].copy());
            }
            let count = count_text(function.param_types.len());
            Err(
                MagError::Type(
                    cat5(
                        "function '",
                        name,
                        "' must be unary, got ",
                        count.as_str(),
                        " parameters",
                    ),
                ),
            )
        },
        _ => Err(MagError::Type(cat3("'", name, "' is not a function"))),
    }
}

fn check_input(
    replies: &Vec<(Question, Reply)>,
    name: &str,
    ty: &MagType,
    concrete: ConcreteType,
    input: &Json,
) -> (result: Result<(), Stop>)
    ensures
        (match result {
            Ok(_) => Ok::<(), Halt>(()),
            Err(stop) => Err(stop@),
        }) == input_fits(reply_views(replies@), name@, ty@, concrete@, input@),
{
    match answer(replies, Question::Valid(concrete, input.to_text())) {
        Ok(_) => Ok(()),
        Err(Stop::Failed(MagError::Type(detail))) => {
            let shown = ty.text();
            Err(
                Stop::Failed(
                    MagError::Type(
                        cat6(
                            "rule function '",
                            name,
                            "' input does not conform to ",
                            shown.as_str(),
                            ": ",
                            detail.as_str(),
                        ),
                    ),
                ),
            )
        },
        Err(stop) => Err(stop),
    }
}

impl Machine {
    #[verifier::rlimit(40)]
    fn call_on(&mut self, name: &str, input: &Json) -> (result: Result<Value, Stop>)
        ensures
            evaluation(final(self).run(), result) == function_result(
                old(self).run(),
                name@,
                input@,
                old(self).at(),
            ),
            old(self).level(*final(self)),
    {
        let ty = match find_callee_type(&self.env, name) {
            Err(error) => return Err(Stop::Failed(error)),
            Ok(ty) => ty,
        };
        let concrete = match ConcreteType::resolve(&self.env, &ty) {
            Err(error) => return Err(Stop::Failed(error)),
            Ok(concrete) => concrete,
        };
        match check_input(&self.replies, name, &ty, concrete, input) {
            Err(stop) => return Err(stop),
            Ok(_) => {},
        }
        let value = match json_to_typed_value(&self.env, input, &ty) {
            Err(error) => return Err(Stop::Failed(error)),
            Ok(value) => value,
        };
        let ghost inner = value@;
        let argument = Value::Typed(Box::new(value), ty);
        assert(argument@ == Val::Typed(Box::new(inner), ty@));
        self.apply_named(name, argument)
    }

    /// Calls a function of a program on a document, under the usual limits.
    pub fn eval_fn(&mut self, name: &str, input: &Json) -> (result: Result<Artifact, Stop>)
        ensures
            ({
                let budget = installed(old(self).budget, limits_for(1_000_000));
                let outcome = function_result(
                    Run { steps: budget.remaining, ..old(self).run() },
                    name@,
                    input@,
                    at_budget(old(self).at(), budget),
                );
                &&& artifact_outcome(result) == (match outcome.result {
                    Err(halt) => Err(halt),
                    Ok(value) => match artifact_in(value, "function '"@ + name@ + "'"@) {
                        Ok(product) => Ok(product),
                        Err(failure) => Err(Halt::Failed(failure)),
                    },
                })
                &&& final(self).env@ == outcome.run.world
                &&& final(self).counters == outcome.run.counts
                &&& file_views(final(self).files@) == outcome.run.files
                &&& final(self).budget.remaining == old(self).budget.remaining
                &&& old(self).level(*final(self))
            }),
    {
        let guard = install(&mut self.budget, CompilerLimits::default());
        assert(self.at() == at_budget(
            old(self).at(),
            installed(old(self).budget, limits_for(1_000_000)),
        ));
        let result = self.call_on(name, input);
        guard.restore(&mut self.budget);
        match result {
            Err(stop) => Err(stop),
            Ok(value) => {
                let source = cat3("function '", name, "'");
                match extract_artifact(&value, source.as_str()) {
                    Err(error) => Err(Stop::Failed(error)),
                    Ok(artifact) => Ok(artifact),
                }
            },
        }
    }
}

// ---------------------------------------------------------------------------
// Modifications
// ---------------------------------------------------------------------------

/// Whether an actor stands among the first `n`.
pub open spec fn actor_known(actors: Seq<Actor>, id: Seq<char>, n: int) -> bool {
    exists|i: int| 0 <= i < n && (#[trigger] actors[i]).id == id
}

pub open spec fn actors_unique(actors: Seq<Actor>, i: int) -> Result<(), Failure>
    decreases actors.len() - i,
{
    if i < 0 || i >= actors.len() {
        Ok(())
    } else if actor_known(actors, actors[i].id, i) {
        Err(
            Failure::Graph(
                "duplicate actor id '"@ + actors[i].id
                    + "' — instance ids must be unique across the program"@,
            ),
        )
    } else {
        actors_unique(actors, i + 1)
    }
}

pub open spec fn targets_known(actors: Seq<Actor>, messages: Seq<Message>, i: int) -> Result<
    (),
    Failure,
>
    decreases messages.len() - i,
{
    if i < 0 || i >= messages.len() {
        Ok(())
    } else if !actor_known(actors, messages[i].to, actors.len() as int) {
        Err(Failure::Graph("message targets unknown actor '"@ + messages[i].to + "'"@))
    } else {
        targets_known(actors, messages, i + 1)
    }
}

/// Whether a rule names a function of one parameter.
pub open spec fn rule_named(world: World, name: Seq<char>) -> Result<(), Failure> {
    match called_value(world, name) {
        None => Err(Failure::Eval("rule references undefined fn '"@ + name + "'"@)),
        Some(Val::Fn(function)) => if function.params.len() == 1 {
            Ok(())
        } else {
            Err(
                Failure::Eval(
                    "rule fn '"@ + name + "' must be unary, takes "@ + decimal(
                        function.params.len(),
                    ) + " arguments"@,
                ),
            )
        },
        Some(other) => Err(
            Failure::Eval(
                "rule fn '"@ + name + "' is not a function (got "@ + val_kind(other) + ")"@,
            ),
        ),
    }
}

pub open spec fn rules_named(world: World, actors: Seq<Actor>, rules: Seq<Rule>, i: int) -> Result<
    (),
    Failure,
>
    decreases rules.len() - i,
{
    if i < 0 || i >= rules.len() {
        Ok(())
    } else {
        match rule_named(world, rules[i].fn_name) {
            Err(failure) => Err(failure),
            Ok(_) => if !actor_known(actors, rules[i].on, actors.len() as int) {
                Err(Failure::Graph("rule 'on' references unknown actor '"@ + rules[i].on + "'"@))
            } else {
                rules_named(world, actors, rules, i + 1)
            },
        }
    }
}

/// Whether a modification can be loaded: its actors are told apart, its messages
/// reach actors, and its rules name functions and actors.
pub open spec fn modification_valid(world: World, ir: Modification) -> Result<(), Failure> {
    match actors_unique(ir.actors, 0) {
        Err(failure) => Err(failure),
        Ok(_) => match targets_known(ir.actors, ir.messages, 0) {
            Err(failure) => Err(failure),
            Ok(_) => rules_named(world, ir.actors, ir.rules, 0),
        },
    }
}

fn knows_actor(ir: &ModificationIr, id: &str, n: usize) -> (yes: bool)
    requires
        n <= ir.actors@.len(),
    ensures
        yes == actor_known(ir@.actors, id@, n as int),
{
    let ghost all = actor_views(ir.actors@);
    let mut i: usize = 0;
    while i < n
        invariant
            i <= n <= ir.actors@.len(),
            all == actor_views(ir.actors@),
            forall|k: int| 0 <= k < i ==> (#[trigger] all[k]).id != id@,
        decreases n - i,
    {
        assert(all[i as int] == ir.actors@[i as int]@);
        if same_text(ir.actors[i].id.as_str(), id) {
            assert(all[i as int].id == id@);
            return true;
        }
        i = i + 1;
    }
    false
}

fn check_actors(ir: &ModificationIr) -> (result: Result<(), MagError>)
    ensures
        verdict(result) == actors_unique(ir@.actors, 0),
{
    let ghost all = actor_views(ir.actors@);
    let mut i: usize = 0;
    while i < ir.actors.len()
        invariant
            i <= ir.actors@.len(),
            all == actor_views(ir.actors@),
            all == ir@.actors,
            actors_unique(all, 0) == actors_unique(all, i as int),
        decreases ir.actors@.len() - i,
    {
        assert(all[i as int] == ir.actors@[i as int]@);
        let id = ir.actors[i].id.as_str();
        if knows_actor(ir, id, i) {
            return Err(
                MagError::Graph(
                    cat3(
                        "duplicate actor id '",
                        id,
                        "' — instance ids must be unique across the program",
                    ),
                ),
            );
        }
        i = i + 1;
    }
    Ok(())
}

fn check_targets(ir: &ModificationIr) -> (result: Result<(), MagError>)
    ensures
        verdict(result) == targets_known(ir@.actors, ir@.messages, 0),
{
    let ghost all = message_views(ir.messages@);
    assert(ir@.actors.len() == ir.actors@.len());
    let mut i: usize = 0;
    while i < ir.messages.len()
        invariant
            i <= ir.messages@.len(),
            all == message_views(ir.messages@),
            all == ir@.messages,
            ir@.actors.len() == ir.actors@.len(),
            targets_known(ir@.actors, all, 0) == targets_known(ir@.actors, all, i as int),
        decreases ir.messages@.len() - i,
    {
        assert(all[i as int] == ir.messages@[i as int]@);
        let to = ir.messages[i].to.as_str();
        if !knows_actor(ir, to, ir.actors.len()) {
            return Err(MagError::Graph(cat3("message targets unknown actor '", to, "'")));
        }
        i = i + 1;
    }
    Ok(())
}

fn check_rule_name(env: &Env, name: &str) -> (result: Result<(), MagError>)
    ensures
        verdict(result) == rule_named(env@, name@),
{
    let value = match env.find(name) {
        None => return Err(
            MagError::Eval(cat3("rule references undefined fn '", name, "'")),
        ),
        Some(value) => raw(value),
    };
    match value {
        Value::Fn(function) => {
            let function: &FnValue = function;
            assert(value@ == Val::Fn(Box::new(function@)));
            assert(texts(function.params@).len() == function.params@.len());
            if function.params.len() == 1 {
                return Ok(());
            }
            let count = count_text(function.params.len());
            Err(
                MagError::Eval(
                    cat5(
                        "rule fn '",
                        name,
                        "' must be unary, takes ",
                        count.as_str(),
                        " arguments",
                    ),
                ),
            )
        },
        other => Err(
            MagError::Eval(
                cat5("rule fn '", name, "' is not a function (got ", other.kind_name(), ")"),
            ),
        ),
    }
}

/// Checks that a modification can be loaded.
pub fn validate_modification(ir: &ModificationIr, env: &Env) -> (result: Result<(), MagError>)
    ensures
        verdict(result) == modification_valid(env@, ir@),
{
    match check_actors(ir) {
        Err(error) => return Err(error),
        Ok(_) => {},
    }
    match check_targets(ir) {
        Err(error) => return Err(error),
        Ok(_) => {},
    }
    let ghost all = rule_views(ir.rules@);
    assert(ir@.actors.len() == ir.actors@.len());
    let mut i: usize = 0;
    while i < ir.rules.len()
        invariant
            i <= ir.rules@.len(),
            all == rule_views(ir.rules@),
            all == ir@.rules,
            ir@.actors.len() == ir.actors@.len(),
            modification_valid(env@, ir@) == rules_named(env@, ir@.actors, all, i as int),
        decreases ir.rules@.len() - i,
    {
        assert(all[i as int] == ir.rules@[i as int]@);
        let rule = &ir.rules[i];
        match check_rule_name(env, rule.fn_name.as_str()) {
            Err(error) => return Err(error),
            Ok(_) => {},
        }
        if !knows_actor(ir, rule.on.as_str(), ir.actors.len()) {
            return Err(
                MagError::Graph(
                    cat3("rule 'on' references unknown actor '", rule.on.as_str(), "'"),
                ),
            );
        }
        i = i + 1;
    }
    Ok(())
}

// ---------------------------------------------------------------------------
// Laws
// ---------------------------------------------------------------------------

proof fn lemma_actors_unique(actors: Seq<Actor>, i: int)
    requires
        0 <= i,
    ensures
        actors_unique(actors, i) is Ok <==> forall|m: int, n: int|
            0 <= m < n < actors.len() && i <= n ==> (#[trigger] actors[m]).id != (
            #[trigger] actors[n]).id,
    decreases actors.len() - i,
{
    if i < actors.len() {
        lemma_actors_unique(actors, i + 1);
        if actor_known(actors, actors[i].id, i) {
            let m = choose|m: int| 0 <= m < i && (#[trigger] actors[m]).id == actors[i].id;
            assert(actors[m].id == actors[i].id);
        }
    }
}

proof fn lemma_targets_known(actors: Seq<Actor>, messages: Seq<Message>, i: int)
    requires
        0 <= i,
    ensures
        targets_known(actors, messages, i) is Ok <==> forall|n: int|
            i <= n < messages.len() ==> actor_known(
                actors,
                (#[trigger] messages[n]).to,
                actors.len() as int,
            ),
    decreases messages.len() - i,
{
    if i < messages.len() {
        lemma_targets_known(actors, messages, i + 1);
    }
}

proof fn lemma_rules_named(world: World, actors: Seq<Actor>, rules: Seq<Rule>, i: int)
    requires
        0 <= i,
    ensures
        rules_named(world, actors, rules, i) is Ok <==> forall|n: int|
            i <= n < rules.len() ==> rule_named(world, (#[trigger] rules[n]).fn_name) is Ok
                && actor_known(actors, rules[n].on, actors.len() as int),
    decreases rules.len() - i,
{
    if i < rules.len() {
        lemma_rules_named(world, actors, rules, i + 1);
    }
}

/// A modification can be loaded exactly where no two of its actors have one id, its
/// messages go to its actors, and its rules are on its actors and name functions of one
/// parameter.
pub proof fn lemma_modification_valid(world: World, ir: Modification)
    ensures
        modification_valid(world, ir) is Ok <==> {
            &&& ids_differ(ir.actors)
            &&& forall|n: int|
                0 <= n < ir.messages.len() ==> actor_known(
                    ir.actors,
                    (#[trigger] ir.messages[n]).to,
                    ir.actors.len() as int,
                )
            &&& forall|n: int|
                0 <= n < ir.rules.len() ==> rule_named(world, (#[trigger] ir.rules[n]).fn_name)
                    is Ok && actor_known(ir.actors, ir.rules[n].on, ir.actors.len() as int)
        },
{
    lemma_actors_unique(ir.actors, 0);
    lemma_targets_known(ir.actors, ir.messages, 0);
    lemma_rules_named(world, ir.actors, ir.rules, 0);
}

} // verus!
