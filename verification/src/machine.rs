//! Evaluation of checked programs.

use crate::asking::{
    Halt, Query, Question, Reply, answered, calls_back, computed, failing, reply_views,
};
use crate::builtins::{Builtin, builtin_name, builtin_of};
use crate::calls::{Call, call_checked, resolved_call};
use crate::checked::{
    BindingId, Typed, TypedArm, TypedBinding, TypedBlock, TypedFn, TypedKind, TypedParam,
};
use crate::collections::{Kept, finished, kept, kept_vals};
use crate::content::put_field;
use crate::declare::ConstructorId;
use crate::env::{Bound, Env, Named, World, allocated, names_bound, ready_value};
use crate::error::{Failure, failure_text};
use crate::files::{file_read, file_views, reads};
use crate::frames::{
    binding_name, cell_of, completed, declared, initializer_of, inside_call, keyed, next_cell,
    ready_bound,
};
use crate::fuel::{Budget, call_room, expr_room, stepped_once, too_deep, too_many_calls};
use crate::memo::{all_memorable, remembered, remembering};
use crate::profile::{Counter, OperationCounters, counted, saturated};
use crate::resolve::concrete_type;
use crate::rules::takes_exactly;
use crate::text::joined;
use crate::types::Ty;
use crate::validity::{at_run_time, is_true, marked, validation};
use crate::value::{FnVal, Val, bare, val_kind};
use vstd::prelude::*;

verus! {

/// A binding that is being forced, or the target of a call that was made while
/// one was.
#[derive(Debug)]
pub struct Force {
    pub cell: BindingId,
    pub name: String,
    pub initializing: bool,
}

pub ghost struct Forced {
    pub cell: BindingId,
    pub name: Seq<char>,
    pub initializing: bool,
}

impl Force {
    pub open spec fn view(&self) -> Forced {
        Forced { cell: self.cell, name: self.name@, initializing: self.initializing }
    }
}

pub open spec fn forces(list: Seq<Force>) -> Seq<Forced> {
    Seq::new(list.len(), |i: int| list[i].view())
}

/// An evaluation: the environment, the budget, the bindings that are being
/// forced, the answers of the host, what was counted, and the files that were read
/// with the paths by which they were asked for first.
#[derive(Debug)]
pub struct Machine {
    pub env: Env,
    pub budget: Budget,
    pub forced: Vec<Force>,
    pub replies: Vec<(Question, Reply)>,
    pub counters: OperationCounters,
    pub files: Vec<(String, String)>,
}

/// What an evaluation changes.
pub ghost struct Run {
    pub world: World,
    pub steps: Option<u64>,
    pub counts: OperationCounters,
    pub files: Seq<(Seq<char>, Seq<char>)>,
}

/// Where an evaluation stands: how many expressions and calls can still be
/// opened, what is being forced, and what the host has answered.
pub ghost struct At {
    pub exprs: nat,
    pub calls: nat,
    pub forced: Seq<Forced>,
    pub replies: Seq<(Query, Result<Val, Failure>)>,
}

/// What came of an evaluation.
pub ghost struct Done {
    pub run: Run,
    pub result: Result<Val, Halt>,
}

/// What came of the evaluation of several expressions.
pub ghost struct DoneAll {
    pub run: Run,
    pub result: Result<Seq<Val>, Halt>,
}

/// What came of the evaluation of fields.
pub ghost struct DoneFields {
    pub run: Run,
    pub result: Result<Kept, Halt>,
}

impl Machine {
    pub open spec fn run(&self) -> Run {
        Run {
            world: self.env@,
            steps: self.budget.remaining,
            counts: self.counters,
            files: file_views(self.files@),
        }
    }

    pub open spec fn at(&self) -> At {
        At {
            exprs: expr_room(self.budget),
            calls: call_room(self.budget),
            forced: forces(self.forced@),
            replies: reply_views(self.replies@),
        }
    }

    /// Whether another machine stands where this one does.
    pub open spec fn level(&self, other: Machine) -> bool {
        self.budget.expr_depth == other.budget.expr_depth && self.budget.call_depth
            == other.budget.call_depth && self.budget.expr_limit == other.budget.expr_limit
            && self.budget.call_limit == other.budget.call_limit && forces(self.forced@) == forces(
            other.forced@,
        ) && self.replies@ == other.replies@
    }
}

// ---------------------------------------------------------------------------
// What evaluation means
// ---------------------------------------------------------------------------

pub open spec fn fails(run: Run, failure: Failure) -> Done {
    Done { run, result: Err(Halt::Failed(failure)) }
}

/// The first of the forced bindings, from index `i` on, that is a given one and
/// still gets its value; or -1.
pub open spec fn cycle_start(forced: Seq<Forced>, cell: BindingId, i: int) -> int
    decreases forced.len() - i,
{
    if i < 0 || i >= forced.len() {
        -1
    } else if forced[i].cell == cell && forced[i].initializing {
        i
    } else {
        cycle_start(forced, cell, i + 1)
    }
}

pub open spec fn forced_names(forced: Seq<Forced>) -> Seq<Seq<char>> {
    Seq::new(forced.len(), |i: int| forced[i].name)
}

pub open spec fn cycle_failure(forced: Seq<Forced>, start: int, name: Seq<char>) -> Failure {
    Failure::Eval(
        "binding initialization cycle: "@ + joined(
            forced_names(forced.skip(start)).push(name),
            " -> "@,
        ),
    )
}

pub open spec fn callable(value: Val) -> bool {
    bare(value) is Fn || bare(value) is BuiltinFn
}

/// An order on arguments in which those of a called-back function come first.
pub open spec fn weight(args: Seq<Val>) -> nat {
    if args.len() == 0 || args.len() > 3 {
        0
    } else if callable(args[0]) {
        2 * args.len() + 1
    } else {
        2 * args.len()
    }
}

/// An evaluation after something was counted once.
pub open spec fn noting(run: Run, counter: Counter) -> Run {
    Run { counts: counted(run.counts, counter, 1), ..run }
}

/// An evaluation after the scopes were copied into a function.
pub open spec fn noting_snapshot(run: Run) -> Run {
    let taken = noting(run, Counter::EnvironmentSnapshots);
    Run {
        counts: counted(
            taken.counts,
            Counter::EnvironmentSnapshotBindings,
            saturated(0, names_bound(run.world.scopes, run.world.scopes.len() as int)) as int,
        ),
        ..taken
    }
}

/// An evaluation after a call was counted.
pub open spec fn noting_call(run: Run, function: Val) -> Run {
    if function is BuiltinFn {
        noting(noting(run, Counter::FunctionCalls), Counter::BuiltinCalls)
    } else {
        noting(run, Counter::FunctionCalls)
    }
}

/// An evaluation after a remembered call was looked for.
pub open spec fn noting_recall(run: Run, args: Seq<Val>, found: bool) -> Run {
    if !all_memorable(args) {
        run
    } else if found {
        noting(run, Counter::MemoizedCallHits)
    } else {
        noting(run, Counter::MemoizedCallMisses)
    }
}

/// An evaluation after a call was remembered.
pub open spec fn noting_store(run: Run, args: Seq<Val>) -> Run {
    if all_memorable(args) {
        noting(run, Counter::MemoizedCallStores)
    } else {
        run
    }
}

/// Evaluates an expression: opens it and spends a step.
pub open spec fn evaluated(run: Run, expr: Typed, at: At) -> Done
    decreases at.exprs, at.calls, 0int, 0int, 0int,
{
    if at.exprs == 0 {
        fails(run, too_deep())
    } else {
        match stepped_once(run.steps) {
            Err(failure) => fails(run, failure),
            Ok(steps) => expression(
                Run { steps, ..noting(run, Counter::EvaluatorSteps) },
                expr,
                At { exprs: (at.exprs - 1) as nat, ..at },
            ),
        }
    }
}

pub open spec fn expression(run: Run, expr: Typed, at: At) -> Done
    decreases at.exprs, at.calls, 9int, 0int, 0int,
{
    match expr.kind {
        TypedKind::Unit => Done { run, result: Ok(Val::Unit) },
        TypedKind::Str(text) => Done { run, result: Ok(Val::Str(text)) },
        TypedKind::Int(value) => Done { run, result: Ok(Val::Int(value)) },
        TypedKind::Float(notation) => Done {
            run,
            result: answered(at.replies, Query::Number(notation)),
        },
        TypedKind::Bool(value) => Done { run, result: Ok(Val::Bool(value)) },
        TypedKind::Keyword(name) => Done { run, result: Ok(Val::Str(":"@ + name)) },
        TypedKind::BindingRef(key) => forced_binding(run, key, at),
        TypedKind::Vector(items) => {
            let done = evaluated_from(run, items, 0, Seq::empty(), at);
            Done {
                run: done.run,
                result: match done.result {
                    Ok(values) => Ok(Val::List(values)),
                    Err(halt) => Err(halt),
                },
            }
        },
        TypedKind::Fields(fields) => {
            let done = fields_from(run, fields, 0, Seq::empty(), at);
            Done {
                run: done.run,
                result: match done.result {
                    Ok(values) => Ok(Val::Fields(values)),
                    Err(halt) => Err(halt),
                },
            }
        },
        TypedKind::If(condition, then_branch, else_branch) => {
            let done = evaluated(run, *condition, at);
            match done.result {
                Err(_) => done,
                Ok(value) => if is_true(value) {
                    evaluated(done.run, *then_branch, at)
                } else {
                    evaluated(done.run, *else_branch, at)
                },
            }
        },
        TypedKind::Construct(owner, constructor, payload) => {
            let done = evaluated(run, *payload, at);
            match done.result {
                Err(_) => done,
                Ok(value) => Done {
                    run: done.run,
                    result: Ok(
                        Val::Adt(at_run_time(run.world, owner), constructor, Box::new(value)),
                    ),
                },
            }
        },
        TypedKind::Match(value, arms) => {
            let done = evaluated(run, *value, at);
            match done.result {
                Err(_) => done,
                Ok(value) => match bare(value) {
                    Val::Adt(_, constructor, payload) => match arm_for(arms, constructor, 0) {
                        None => fails(
                            done.run,
                            Failure::Type(
                                "match has no arm for selected constructor "@ + constructor.name,
                            ),
                        ),
                        Some(arm) => {
                            let inner = evaluated(
                                Run {
                                    world: keyed(
                                        inner_scope(done.run.world),
                                        arm.binding.id,
                                        ready_bound(arm.binding.name, *payload),
                                    ),
                                    ..done.run
                                },
                                *arm.body,
                                at,
                            );
                            Done {
                                run: Run { world: outer_scope(inner.run.world), ..inner.run },
                                result: inner.result,
                            }
                        },
                    },
                    _ => fails(done.run, Failure::Type("match value is not an ADT"@)),
                },
            }
        },
        TypedKind::Call(callee, args, type_bindings) => {
            let target = evaluated(run, *callee, at);
            match target.result {
                Err(_) => target,
                Ok(function) => {
                    let values = evaluated_from(target.run, args, 0, Seq::empty(), at);
                    match values.result {
                        Err(halt) => Done { run: values.run, result: Err(halt) },
                        Ok(args) => {
                            let world = values.run.world;
                            let done = applied_value(
                                values.run,
                                function,
                                args,
                                Some(at_run_time(world, callee.ty)),
                                bindings_at_run_time(world, type_bindings),
                                At { forced: with_call(at.forced, world, *callee), ..at },
                            );
                            match done.result {
                                Err(_) => done,
                                Ok(value) => Done {
                                    run: done.run,
                                    result: Ok(
                                        collection_marked(
                                            value,
                                            at_run_time(done.run.world, expr.ty),
                                        ),
                                    ),
                                },
                            }
                        },
                    }
                },
            }
        },
        TypedKind::Function(function) => Done {
            run: Run { world: allocated(run.world, nameless_bound()), ..noting_snapshot(run) },
            result: Ok(
                Val::Fn(
                    Box::new(
                        made_function(*function, next_cell(run.world), run.world.scopes),
                    ),
                ),
            ),
        },
        TypedKind::Ascribe(target, value) => {
            let done = evaluated(run, *value, at);
            match done.result {
                Err(_) => done,
                Ok(value) => Done {
                    run: done.run,
                    result: failing(
                        marked(done.run.world, value, at_run_time(done.run.world, target)),
                    ),
                },
            }
        },
        TypedKind::TypeTag(ty) => Done {
            run,
            result: match concrete_type(run.world, at_run_time(run.world, ty)) {
                Ok(ty) => Ok(Val::TypeTag(ty)),
                Err(failure) => Err(Halt::Failed(failure)),
            },
        },
    }
}

/// The value of a binding, which is made when it is first needed.
pub open spec fn forced_binding(run: Run, key: BindingId, at: At) -> Done
    decreases at.exprs, at.calls, 1int, 0int, 0int,
{
    let cell = cell_of(run.world, key);
    let name = binding_name(run.world, cell);
    let start = cycle_start(at.forced, cell, 0);
    if start != -1 {
        fails(run, cycle_failure(at.forced, start, name))
    } else {
        match ready_value(run.world, cell) {
            Some(value) => Done { run, result: Ok(value) },
            None => match initializer_of(run.world, cell) {
                None => fails(run, Failure::Unresolved(name)),
                Some(initializer) => {
                    let done = evaluated(
                        run,
                        initializer,
                        At {
                            forced: at.forced.push(Forced { cell, name, initializing: true }),
                            ..at
                        },
                    );
                    match done.result {
                        Err(_) => done,
                        Ok(value) => Done {
                            run: Run { world: completed(done.run.world, cell, value), ..done.run },
                            result: Ok(value),
                        },
                    }
                },
            },
        }
    }
}

/// Evaluates expressions from index `i` on and adds their values to others.
pub open spec fn evaluated_from(
    run: Run,
    list: Seq<Typed>,
    i: int,
    before: Seq<Val>,
    at: At,
) -> DoneAll
    decreases at.exprs, at.calls, 2int, 0int, list.len() - i,
{
    if i < 0 || i >= list.len() {
        DoneAll { run, result: Ok(before) }
    } else {
        let done = evaluated(run, list[i], at);
        match done.result {
            Err(halt) => DoneAll { run: done.run, result: Err(halt) },
            Ok(value) => evaluated_from(done.run, list, i + 1, before.push(value), at),
        }
    }
}

/// Evaluates fields from index `i` on and adds them to others.
pub open spec fn fields_from(
    run: Run,
    fields: Seq<(Seq<char>, Typed)>,
    i: int,
    before: Kept,
    at: At,
) -> DoneFields
    decreases at.exprs, at.calls, 2int, 0int, fields.len() - i,
{
    if i < 0 || i >= fields.len() {
        DoneFields { run, result: Ok(before) }
    } else {
        let done = evaluated(run, fields[i].1, at);
        match done.result {
            Err(halt) => DoneFields { run: done.run, result: Err(halt) },
            Ok(value) => fields_from(
                done.run,
                fields,
                i + 1,
                put_field(before, fields[i].0, value),
                at,
            ),
        }
    }
}

/// The first arm for a constructor, from index `i` on.
pub open spec fn arm_for(arms: Seq<TypedArm>, constructor: ConstructorId, i: int) -> Option<TypedArm>
    decreases arms.len() - i,
{
    if i < 0 || i >= arms.len() {
        None
    } else if arms[i].constructor == constructor {
        Some(arms[i])
    } else {
        arm_for(arms, constructor, i + 1)
    }
}

pub open spec fn inner_scope(world: World) -> World {
    World { scopes: world.scopes.push(Seq::empty()), ..world }
}

pub open spec fn outer_scope(world: World) -> World {
    if world.scopes.len() > 1 {
        World { scopes: world.scopes.drop_last(), ..world }
    } else {
        world
    }
}

/// What is being forced during a call: while something is, the target of a call
/// is noted too.
pub open spec fn with_call(forced: Seq<Forced>, world: World, callee: Typed) -> Seq<Forced> {
    match callee.kind {
        TypedKind::BindingRef(key) => if forced.len() > 0 {
            let cell = cell_of(world, key);
            forced.push(Forced { cell, name: binding_name(world, cell), initializing: false })
        } else {
            forced
        },
        _ => forced,
    }
}

pub open spec fn bindings_at_run_time(world: World, bindings: Seq<(Seq<char>, Ty)>) -> Seq<
    (Seq<char>, Ty),
> {
    Seq::new(bindings.len(), |i: int| (bindings[i].0, at_run_time(world, bindings[i].1)))
}

/// Maps and sets that calls return are marked with their types.
pub open spec fn collection_marked(value: Val, ty: Ty) -> Val {
    match ty {
        Ty::MapOf(_, _) => Val::Typed(Box::new(value), ty),
        Ty::SetOf(_) => Val::Typed(Box::new(value), ty),
        _ => value,
    }
}

pub open spec fn param_names(params: Seq<TypedParam>) -> Seq<Seq<char>> {
    Seq::new(params.len(), |i: int| params[i].name)
}

pub open spec fn param_tys(params: Seq<TypedParam>) -> Seq<Ty> {
    Seq::new(params.len(), |i: int| params[i].ty)
}

/// A binding that only tells something apart from other things.
pub open spec fn nameless_bound() -> Bound {
    Bound {
        name: Seq::empty(),
        ty: None,
        value: None,
        requirements: Seq::empty(),
        initializer: None,
    }
}

/// The value of a function that is made in given scopes, told apart by a binding of its own.
pub open spec fn made_function(
    function: TypedFn,
    id: BindingId,
    scopes: Seq<Seq<Named>>,
) -> FnVal {
    FnVal {
        id,
        name: function.name,
        type_params: function.type_params,
        equality_params: function.equality_params,
        params: param_names(function.params),
        param_types: param_tys(function.params),
        return_type: function.result,
        checked: function,
        closure: scopes,
    }
}

/// Forces the bindings of a block from index `i` on.
pub open spec fn forced_from(run: Run, list: Seq<TypedBinding>, i: int, at: At) -> Done
    decreases at.exprs, at.calls, 3int, 0int, list.len() - i,
{
    if i < 0 || i >= list.len() {
        Done { run, result: Ok(Val::Unit) }
    } else {
        let done = forced_binding(run, list[i].id, at);
        match done.result {
            Err(halt) => Done { run: done.run, result: Err(initializing(list[i].name, halt)) },
            Ok(_) => forced_from(done.run, list, i + 1, at),
        }
    }
}

/// What is said of a failure while a binding gets its value.
pub open spec fn initializing(name: Seq<char>, halt: Halt) -> Halt {
    match halt {
        Halt::Failed(Failure::Type(message)) => Halt::Failed(
            Failure::Type("initializing "@ + name + ": "@ + message),
        ),
        Halt::Failed(Failure::Eval(message)) => Halt::Failed(
            Failure::Eval("initializing "@ + name + ": "@ + message),
        ),
        other => other,
    }
}

/// Evaluates expressions from index `i` on for the value of the last one.
pub open spec fn last_from(run: Run, list: Seq<Typed>, i: int, value: Val, at: At) -> Done
    decreases at.exprs, at.calls, 2int, 0int, list.len() - i,
{
    if i < 0 || i >= list.len() {
        Done { run, result: Ok(value) }
    } else {
        let done = evaluated(run, list[i], at);
        match done.result {
            Err(_) => done,
            Ok(value) => last_from(done.run, list, i + 1, value, at),
        }
    }
}

/// Evaluates a block: all its bindings, then its expressions.
pub open spec fn block_evaluated(run: Run, block: TypedBlock, at: At) -> Done
    decreases at.exprs, at.calls, 8int, 0int, 0int,
{
    let forced = forced_from(
        Run { world: declared(run.world, block.bindings, 0), ..run },
        block.bindings,
        0,
        at,
    );
    match forced.result {
        Err(_) => forced,
        Ok(_) => last_from(forced.run, block.expressions, 0, Val::Unit, at),
    }
}

/// Calls a value on arguments.
pub open spec fn applied_value(
    run: Run,
    function: Val,
    args: Seq<Val>,
    signature: Option<Ty>,
    bindings: Seq<(Seq<char>, Ty)>,
    at: At,
) -> Done
    decreases at.exprs, at.calls, weight(args), 2int, 0int,
{
    let noted = noting_call(run, function);
    match bare(function) {
        Val::Fn(function) => function_applied(noted, *function, args, signature, bindings, at),
        Val::BuiltinFn(name) => match builtin_of(name) {
            None => fails(noted, Failure::Eval("unknown builtin "@ + name)),
            Some(builtin) => builtin_applied(noted, builtin, args, at),
        },
        _ => fails(noted, Failure::Eval("cannot call "@ + val_kind(function))),
    }
}

pub open spec fn about_function(what: Seq<char>, function: FnVal, failure: Failure) -> Failure {
    match function.name {
        Some(name) => Failure::Type(what + name + ": "@ + failure_text(failure)),
        None => failure,
    }
}

/// What a function returns, marked with the type that the call gives it.
pub open spec fn returned(world: World, function: FnVal, value: Val, ty: Ty) -> Result<Val, Failure> {
    match validation(world, value, ty) {
        Err(failure) => Err(about_function("returning from "@, function, failure)),
        Ok(_) => marked(world, value, ty),
    }
}

pub open spec fn call_of(
    world: World,
    function: FnVal,
    args: Seq<Val>,
    signature: Option<Ty>,
    bindings: Seq<(Seq<char>, Ty)>,
) -> Call {
    match signature {
        Some(signature) => resolved_call(world, function, signature, bindings),
        None => call_checked(world, function, args),
    }
}

pub open spec fn function_applied(
    run: Run,
    function: FnVal,
    args: Seq<Val>,
    signature: Option<Ty>,
    bindings: Seq<(Seq<char>, Ty)>,
    at: At,
) -> Done
    decreases at.exprs, at.calls, 0int, 1int, 0int,
{
    if at.calls == 0 {
        fails(run, too_many_calls())
    } else if args.len() != function.params.len() {
        fails(run, Failure::Arity { expected: function.params.len(), got: args.len() })
    } else {
        let call = call_of(run.world, function, args, signature, bindings);
        match call.result {
            Err(failure) => fails(
                Run { world: call.world, ..run },
                about_function("calling "@, function, failure),
            ),
            Ok((ty, types)) => {
                let found = remembered(call.world, function.id, signature, types, args);
                let noted = noting_recall(run, args, found is Some);
                match found {
                    Some(value) => Done {
                        run: Run { world: call.world, ..noted },
                        result: Ok(value),
                    },
                    None => body_evaluated(
                        noted,
                        call.world,
                        function,
                        args,
                        signature,
                        ty,
                        types,
                        at,
                    ),
                }
            },
        }
    }
}

/// Evaluates the body of a function for a caller, and remembers what it returns.
pub open spec fn body_evaluated(
    run: Run,
    caller: World,
    function: FnVal,
    args: Seq<Val>,
    signature: Option<Ty>,
    ty: Ty,
    types: Map<Seq<char>, Ty>,
    at: At,
) -> Done
    decreases at.exprs, at.calls, 0int, 0int, 0int,
{
    if at.calls == 0 {
        fails(run, too_many_calls())
    } else {
        let done = block_evaluated(
            Run { world: inside_call(caller, function, types, args), ..run },
            function.checked.body,
            At { calls: (at.calls - 1) as nat, ..at },
        );
        let world = World { scopes: caller.scopes, ..done.run.world };
        let back = Run { world, ..done.run };
        match done.result {
            Err(halt) => Done { run: back, result: Err(halt) },
            Ok(value) => match returned(world, function, value, ty) {
                Err(failure) => fails(back, failure),
                Ok(result) => Done {
                    run: Run {
                        world: remembering(world, function.id, signature, types, args, result),
                        ..noting_store(back, args)
                    },
                    result: Ok(result),
                },
            },
        }
    }
}

/// Calls a function of the language.
pub open spec fn builtin_applied(run: Run, builtin: Builtin, args: Seq<Val>, at: At) -> Done
    decreases at.exprs, at.calls, weight(args), 1int, 0int,
{
    if reads(builtin) {
        file_read(run, builtin, args, at.replies)
    } else if !calls_back(builtin) {
        Done { run, result: computed(run.world, at.replies, builtin, args) }
    } else if args.len() != takes_exactly(builtin) {
        fails(run, Failure::Arity { expected: takes_exactly(builtin), got: args.len() })
    } else {
        match bare(args[args.len() - 1]) {
            Val::List(items) => if builtin is Fold {
                folded_from(run, args[0], args[1], items, 0, at)
            } else if builtin is IndexedMap {
                if callable(args[0]) {
                    let done = indexed_from(run, args[0], items, 0, Seq::empty(), at);
                    Done {
                        run: done.run,
                        result: match done.result {
                            Ok(list) => Ok(Val::List(kept_vals(list))),
                            Err(halt) => Err(halt),
                        },
                    }
                } else if items.len() == 0 {
                    Done { run, result: Ok(Val::List(Seq::empty())) }
                } else {
                    fails(
                        noting_call(run, args[0]),
                        Failure::Eval("cannot call "@ + val_kind(args[0])),
                    )
                }
            } else {
                let done = kept_from(run, builtin, args[0], items, 0, Seq::empty(), at);
                Done {
                    run: done.run,
                    result: match done.result {
                        Ok(list) => Ok(finished(builtin, list)),
                        Err(halt) => Err(halt),
                    },
                }
            },
            _ => fails(run, Failure::Eval(builtin_name(builtin) + " expects a collection"@)),
        }
    }
}

/// Calls a function on items from index `i` on and keeps what belongs to the
/// result.
pub open spec fn kept_from(
    run: Run,
    builtin: Builtin,
    function: Val,
    items: Seq<Val>,
    i: int,
    before: Kept,
    at: At,
) -> DoneFields
    decreases at.exprs, at.calls, 4int, 0int, items.len() - i,
{
    if i < 0 || i >= items.len() {
        DoneFields { run, result: Ok(before) }
    } else {
        let done = applied_value(run, function, seq![items[i]], None, Seq::empty(), at);
        match done.result {
            Err(halt) => DoneFields { run: done.run, result: Err(halt) },
            Ok(out) => match kept(builtin, before, items[i], out) {
                Err(failure) => DoneFields { run: done.run, result: Err(Halt::Failed(failure)) },
                Ok(after) => kept_from(done.run, builtin, function, items, i + 1, after, at),
            },
        }
    }
}

/// Calls a function on indices and items from index `i` on.
pub open spec fn indexed_from(
    run: Run,
    function: Val,
    items: Seq<Val>,
    i: int,
    before: Kept,
    at: At,
) -> DoneFields
    decreases at.exprs, at.calls, 4int, 3int, items.len() - i,
{
    if i < 0 || i >= items.len() {
        DoneFields { run, result: Ok(before) }
    } else {
        let done = applied_value(
            run,
            function,
            seq![Val::Int((i as i64) as int), items[i]],
            None,
            Seq::empty(),
            at,
        );
        match done.result {
            Err(halt) => DoneFields { run: done.run, result: Err(halt) },
            Ok(out) => indexed_from(
                done.run,
                function,
                items,
                i + 1,
                before.push((Seq::empty(), out)),
                at,
            ),
        }
    }
}

/// Calls a function on what it made so far and on items from index `i` on.
pub open spec fn folded_from(
    run: Run,
    function: Val,
    before: Val,
    items: Seq<Val>,
    i: int,
    at: At,
) -> Done
    decreases at.exprs, at.calls, 6int, 0int, items.len() - i,
{
    if i < 0 || i >= items.len() {
        Done { run, result: Ok(before) }
    } else {
        let done = applied_value(run, function, seq![before, items[i]], None, Seq::empty(), at);
        match done.result {
            Err(_) => done,
            Ok(value) => folded_from(done.run, function, value, items, i + 1, at),
        }
    }
}

} // verus!
