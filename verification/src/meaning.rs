//! What expressions and calls come to, in terms of what their parts come to.

use crate::asking::Halt;
use crate::checked::{BindingId, Typed, TypedArm, TypedBlock, TypedFn, TypedKind, TypedParam};
use crate::collections::Kept;
use crate::content::{field_value, put_field};
use crate::declare::ConstructorId;
use crate::env::{Bound, Named, World, defined, known, looked_up, ready_value};
use crate::error::Failure;
use crate::frames::{
    binding_name, cell_in, cell_of, cell_within, declaring, initializer_of, inside_call, keyed,
    next_cell, ready_bound, with_arguments, with_types,
};
use crate::machine::{
    At, Done, DoneAll, DoneFields, Forced, Run, applied_value, arm_for, bindings_at_run_time,
    block_evaluated, call_of, cycle_start, evaluated, evaluated_from, fields_from, forced_binding,
    function_applied, inner_scope, last_from, noting, noting_recall, outer_scope, with_call,
};
use crate::memo::remembered;
use crate::order::lemma_before_irreflexive;
use crate::profile::{Counter, counted};
use crate::scope::{lemma_sorted_names, sorted_names};
use crate::selection::{lemma_put_field, names_rise};
use crate::types::Ty;
use crate::typing::lemma_marked_conforms;
use crate::validity::{at_run_time, of_type};
use crate::value::{FnVal, Val, bare};
use vstd::prelude::*;

verus! {

// ---------------------------------------------------------------------------
// Expressions
// ---------------------------------------------------------------------------

/// Where the inside of an expression is evaluated: one expression deeper, and one step later.
pub open spec fn opened(run: Run, at: At, inner: Run, inside: At) -> bool {
    &&& at.exprs > 0
    &&& run.steps matches Some(left) && left > 0 && inner.steps == Some((left - 1) as u64)
    &&& inner.world == run.world
    &&& inner.files == run.files
    &&& inner.counts == counted(run.counts, Counter::EvaluatorSteps, 1)
    &&& inside == (At { exprs: (at.exprs - 1) as nat, ..at })
}

/// Literals stand for themselves.
pub proof fn lemma_literals(run: Run, expr: Typed, at: At, inner: Run, inside: At)
    requires
        opened(run, at, inner, inside),
    ensures
        expr.kind matches TypedKind::Unit ==> evaluated(run, expr, at) == (Done {
            run: inner,
            result: Ok(Val::Unit),
        }),
        expr.kind matches TypedKind::Int(value) ==> evaluated(run, expr, at) == (Done {
            run: inner,
            result: Ok(Val::Int(value)),
        }),
        expr.kind matches TypedKind::Bool(value) ==> evaluated(run, expr, at) == (Done {
            run: inner,
            result: Ok(Val::Bool(value)),
        }),
        expr.kind matches TypedKind::Str(text) ==> evaluated(run, expr, at) == (Done {
            run: inner,
            result: Ok(Val::Str(text)),
        }),
        expr.kind matches TypedKind::Keyword(name) ==> evaluated(run, expr, at) == (Done {
            run: inner,
            result: Ok(Val::Str(seq![':'] + name)),
        }),
{
    reveal_strlit(":");
    assert(":"@ =~= seq![':']);
    assert(inner == (Run { steps: inner.steps, ..noting(run, Counter::EvaluatorSteps) }));
}

/// A condition that is true selects the first branch, and one that is false the second. The
/// other branch is not evaluated. A condition that fails lets the whole fail.
pub proof fn lemma_if(
    run: Run,
    expr: Typed,
    condition: Typed,
    first: Typed,
    second: Typed,
    at: At,
    inner: Run,
    inside: At,
)
    requires
        expr.kind == TypedKind::If(Box::new(condition), Box::new(first), Box::new(second)),
        opened(run, at, inner, inside),
    ensures
        ({
            let asked = evaluated(inner, condition, inside);
            match asked.result {
                Err(_) => evaluated(run, expr, at) == asked,
                Ok(value) => {
                    &&& bare(value) == Val::Bool(true) ==> evaluated(run, expr, at) == evaluated(
                        asked.run,
                        first,
                        inside,
                    )
                    &&& bare(value) == Val::Bool(false) ==> evaluated(run, expr, at) == evaluated(
                        asked.run,
                        second,
                        inside,
                    )
                },
            }
        }),
{
    assert(inner == (Run { steps: inner.steps, ..noting(run, Counter::EvaluatorSteps) }));
}

/// Expressions, evaluated one after the other, come to the given values and leave the given
/// states.
pub open spec fn values_in_turn(list: Seq<Typed>, runs: Seq<Run>, values: Seq<Val>, at: At) -> bool {
    &&& runs.len() == list.len() + 1
    &&& values.len() == list.len()
    &&& forall|i: int|
        0 <= i < list.len() ==> evaluated(runs[i], #[trigger] list[i], at) == (Done {
            run: runs[i + 1],
            result: Ok(values[i]),
        })
}

proof fn lemma_all_evaluated(list: Seq<Typed>, runs: Seq<Run>, values: Seq<Val>, i: int, at: At)
    requires
        values_in_turn(list, runs, values, at),
        0 <= i <= list.len(),
    ensures
        evaluated_from(runs[i], list, i, values.take(i), at) == (DoneAll {
            run: runs.last(),
            result: Ok(values),
        }),
    decreases list.len() - i,
{
    if i < list.len() {
        assert(evaluated(runs[i], list[i], at).result == Ok::<Val, Halt>(values[i]));
        assert(values.take(i).push(values[i]) =~= values.take(i + 1));
        lemma_all_evaluated(list, runs, values, i + 1, at);
    } else {
        assert(values.take(i) =~= values);
    }
}

/// A list holds the values of its items, in their order.
pub proof fn lemma_list(
    run: Run,
    expr: Typed,
    list: Seq<Typed>,
    runs: Seq<Run>,
    values: Seq<Val>,
    at: At,
    inside: At,
)
    requires
        expr.kind == TypedKind::Vector(list),
        values_in_turn(list, runs, values, inside),
        opened(run, at, runs[0], inside),
    ensures
        evaluated(run, expr, at) == (Done { run: runs.last(), result: Ok(Val::List(values)) }),
{
    let inner = runs[0];
    assert(inner == (Run { steps: inner.steps, ..noting(run, Counter::EvaluatorSteps) }));
    assert(values.take(0) =~= Seq::<Val>::empty());
    lemma_all_evaluated(list, runs, values, 0, inside);
}

/// The expressions of fields.
pub open spec fn field_exprs(fields: Seq<(Seq<char>, Typed)>) -> Seq<Typed> {
    Seq::new(fields.len(), |i: int| fields[i].1)
}

proof fn lemma_all_fields_evaluated(
    fields: Seq<(Seq<char>, Typed)>,
    runs: Seq<Run>,
    values: Seq<Val>,
    i: int,
    before: Kept,
    at: At,
) -> (made: Kept)
    requires
        values_in_turn(field_exprs(fields), runs, values, at),
        forall|j: int, k: int|
            0 <= j < k < fields.len() ==> (#[trigger] fields[j]).0 != (#[trigger] fields[k]).0,
        0 <= i <= fields.len(),
        names_rise(before),
        forall|k: int|
            0 <= k < i ==> field_value(before, (#[trigger] fields[k]).0, 0) == Some(values[k]),
    ensures
        fields_from(runs[i], fields, i, before, at) == (DoneFields {
            run: runs.last(),
            result: Ok(made),
        }),
        names_rise(made),
        forall|k: int|
            0 <= k < fields.len() ==> field_value(made, (#[trigger] fields[k]).0, 0) == Some(
                values[k],
            ),
    decreases fields.len() - i,
{
    if i < fields.len() {
        assert(field_exprs(fields)[i] == fields[i].1);
        let next = put_field(before, fields[i].0, values[i]);
        lemma_put_field(before, fields[i].0, values[i], fields[i].0);
        assert forall|k: int| 0 <= k < i + 1 implies field_value(
            next,
            (#[trigger] fields[k]).0,
            0,
        ) == Some(values[k]) by {
            lemma_put_field(before, fields[i].0, values[i], fields[k].0);
        }
        lemma_all_fields_evaluated(fields, runs, values, i + 1, next, at)
    } else {
        before
    }
}

/// A record with different field names has under each name the value of that field.
pub proof fn lemma_record(
    run: Run,
    expr: Typed,
    fields: Seq<(Seq<char>, Typed)>,
    runs: Seq<Run>,
    values: Seq<Val>,
    at: At,
    inside: At,
)
    requires
        expr.kind == TypedKind::Fields(fields),
        forall|j: int, k: int|
            0 <= j < k < fields.len() ==> (#[trigger] fields[j]).0 != (#[trigger] fields[k]).0,
        values_in_turn(field_exprs(fields), runs, values, inside),
        opened(run, at, runs[0], inside),
    ensures
        evaluated(run, expr, at).run == runs.last(),
        evaluated(run, expr, at).result matches Ok(Val::Fields(made)) && forall|k: int|
            0 <= k < fields.len() ==> field_value(made, (#[trigger] fields[k]).0, 0) == Some(
                values[k],
            ),
{
    let inner = runs[0];
    assert(inner == (Run { steps: inner.steps, ..noting(run, Counter::EvaluatorSteps) }));
    let made = lemma_all_fields_evaluated(fields, runs, values, 0, Seq::empty(), inside);
}

/// A variant holds the value of its payload under its constructor.
pub proof fn lemma_construct(
    run: Run,
    expr: Typed,
    owner: Ty,
    constructor: ConstructorId,
    payload: Typed,
    at: At,
    inner: Run,
    inside: At,
)
    requires
        expr.kind == TypedKind::Construct(owner, constructor, Box::new(payload)),
        opened(run, at, inner, inside),
    ensures
        ({
            let held = evaluated(inner, payload, inside);
            match held.result {
                Err(_) => evaluated(run, expr, at) == held,
                Ok(value) => evaluated(run, expr, at).run == held.run && (evaluated(
                    run,
                    expr,
                    at,
                ).result matches Ok(Val::Adt(_, id, inside_value)) && id == constructor
                    && *inside_value == value),
            }
        }),
{
    assert(inner == (Run { steps: inner.steps, ..noting(run, Counter::EvaluatorSteps) }));
}

proof fn lemma_arm_found(arms: Seq<TypedArm>, constructor: ConstructorId, i: int, n: int)
    requires
        0 <= i <= n < arms.len(),
        arms[n].constructor == constructor,
        forall|k: int| i <= k < n ==> (#[trigger] arms[k]).constructor != constructor,
    ensures
        arm_for(arms, constructor, i) == Some(arms[n]),
    decreases n - i,
{
    if i < n {
        assert(arms[i].constructor != constructor);
        lemma_arm_found(arms, constructor, i + 1, n);
    }
}

/// A match on a variant evaluates the first arm for its constructor, in a scope in which the
/// binding of the arm stands for the payload. Afterwards that scope is gone.
pub proof fn lemma_match(
    run: Run,
    expr: Typed,
    subject: Typed,
    arms: Seq<TypedArm>,
    n: int,
    at: At,
    inner: Run,
    inside: At,
)
    requires
        expr.kind == TypedKind::Match(Box::new(subject), arms),
        opened(run, at, inner, inside),
        evaluated(inner, subject, inside).result matches Ok(value) && (bare(
            value,
        ) matches Val::Adt(_, constructor, _) && 0 <= n < arms.len() && arms[n].constructor
            == constructor && forall|k: int|
            0 <= k < n ==> (#[trigger] arms[k]).constructor != constructor),
        evaluated(inner, subject, inside).run.world.bindings.len() < u64::MAX,
    ensures
        ({
            let asked = evaluated(inner, subject, inside);
            let payload = bare(asked.result->Ok_0)->Adt_2;
            let bound = Run {
                world: keyed(
                    World { scopes: asked.run.world.scopes.push(Seq::empty()), ..asked.run.world },
                    arms[n].binding.id,
                    ready_bound(arms[n].binding.name, *payload),
                ),
                ..asked.run
            };
            let done = evaluated(bound, *arms[n].body, inside);
            &&& ready_value(bound.world, cell_of(bound.world, arms[n].binding.id)) == Some(*payload)
            &&& evaluated(run, expr, at).result == done.result
            &&& evaluated(run, expr, at).run == (Run {
                world: outer_scope(done.run.world),
                ..done.run
            })
        }),
{
    assert(inner == (Run { steps: inner.steps, ..noting(run, Counter::EvaluatorSteps) }));
    let asked = evaluated(inner, subject, inside);
    let value = asked.result->Ok_0;
    let constructor = bare(value)->Adt_1;
    lemma_arm_found(arms, constructor, 0, n);
    let world = inner_scope(asked.run.world);
    lemma_keyed_found(
        world,
        arms[n].binding.id,
        ready_bound(arms[n].binding.name, *bare(value)->Adt_2),
    );
}

// ---------------------------------------------------------------------------
// Bindings
// ---------------------------------------------------------------------------

/// A key of the innermost scope stands for the binding that it was given last.
pub proof fn lemma_keyed_found(world: World, key: BindingId, bound: Bound)
    requires
        world.scopes.len() > 0,
        world.bindings.len() < u64::MAX,
    ensures
        ready_value(keyed(world, key, bound), cell_of(keyed(world, key, bound), key)) == bound.value,
        keyed(world, key, bound).bindings[cell_of(keyed(world, key, bound), key).0 as int] == bound,
{
    let after = keyed(world, key, bound);
    let n = after.scopes.len() as int;
    let scope = after.scopes[n - 1];
    assert(scope.last() == (bound.name, next_cell(world), key));
    assert(scope[scope.len() - 1] == (bound.name, next_cell(world), key));
    assert(cell_of(after, key) == next_cell(world));
}

/// A key that is given a binding leaves what other keys stand for as it is.
proof fn lemma_keyed_others(world: World, key: BindingId, bound: Bound, other: BindingId)
    requires
        world.scopes.len() > 0,
        other != key,
    ensures
        cell_of(keyed(world, key, bound), other) == cell_of(world, other),
{
    let after = keyed(world, key, bound);
    let n = world.scopes.len() as int;
    let scope = world.scopes[n - 1];
    let longer = after.scopes[n - 1];
    assert(longer == scope.push((bound.name, next_cell(world), key)));
    assert(cell_in(longer, other, longer.len() as int) == cell_in(
        longer,
        other,
        scope.len() as int,
    ));
    lemma_same_slots(scope, longer, other, scope.len() as int);
    lemma_same_scopes(world.scopes, after.scopes, other, n - 1);
}

proof fn lemma_same_slots(left: Seq<Named>, right: Seq<Named>, key: BindingId, n: int)
    requires
        n <= left.len(),
        n <= right.len(),
        forall|i: int| 0 <= i < n ==> left[i] == right[i],
    ensures
        cell_in(left, key, n) == cell_in(right, key, n),
    decreases n,
{
    if n > 0 {
        lemma_same_slots(left, right, key, n - 1);
    }
}

proof fn lemma_same_scopes(
    left: Seq<Seq<Named>>,
    right: Seq<Seq<Named>>,
    key: BindingId,
    n: int,
)
    requires
        n <= left.len(),
        n <= right.len(),
        forall|i: int| 0 <= i < n ==> left[i] == right[i],
    ensures
        cell_within(left, key, n) == cell_within(right, key, n),
    decreases n,
{
    if n > 0 {
        lemma_same_scopes(left, right, key, n - 1);
    }
}

/// A key stands for a binding that has a value.
spec fn stands_for(world: World, key: BindingId, value: Val) -> bool {
    known(world, cell_of(world, key)) && ready_value(world, cell_of(world, key)) == Some(value)
}

proof fn lemma_arguments_keep(
    world: World,
    params: Seq<TypedParam>,
    args: Seq<Val>,
    i: int,
    key: BindingId,
    value: Val,
)
    requires
        world.scopes.len() > 0,
        0 <= i,
        stands_for(world, key, value),
        forall|k: int| i <= k < params.len() ==> (#[trigger] params[k]).id != key,
    ensures
        stands_for(with_arguments(world, params, args, i), key, value),
    decreases params.len() - i,
{
    if i < params.len() && i < args.len() {
        let bound = ready_bound(params[i].name, args[i]);
        let next = keyed(world, params[i].id, bound);
        assert(params[i].id != key);
        lemma_keyed_others(world, params[i].id, bound, key);
        assert(next.bindings == world.bindings.push(bound));
        lemma_arguments_keep(next, params, args, i + 1, key, value);
    }
}

proof fn lemma_arguments_found(
    world: World,
    params: Seq<TypedParam>,
    args: Seq<Val>,
    i: int,
    n: int,
    start: int,
)
    requires
        world.scopes.len() > 0,
        start + params.len() <= u64::MAX,
        world.bindings.len() == start + i,
        0 <= i <= n < params.len(),
        n < args.len(),
        forall|j: int, k: int|
            0 <= j < k < params.len() ==> (#[trigger] params[j]).id != (#[trigger] params[k]).id,
    ensures
        stands_for(with_arguments(world, params, args, i), params[n].id, args[n]),
    decreases n - i,
{
    let bound = ready_bound(params[i].name, args[i]);
    let next = keyed(world, params[i].id, bound);
    if i == n {
        lemma_keyed_found(world, params[i].id, bound);
        lemma_arguments_keep(next, params, args, i + 1, params[n].id, args[n]);
    } else {
        lemma_arguments_found(next, params, args, i + 1, n, start);
    }
}

/// Inside a call each parameter stands for the argument in its place.
pub proof fn lemma_parameters_stand_for_arguments(
    world: World,
    function: FnVal,
    types: Map<Seq<char>, Ty>,
    args: Seq<Val>,
    n: int,
)
    requires
        0 <= n < function.checked.params.len(),
        n < args.len(),
        forall|j: int, k: int|
            0 <= j < k < function.checked.params.len() ==> (
            #[trigger] function.checked.params[j]).id != (#[trigger] function.checked.params[k]).id,
        world.bindings.len() + types.dom().len() + function.checked.params.len() <= u64::MAX,
        types.dom().finite(),
    ensures
        ({
            let inner = inside_call(world, function, types, args);
            ready_value(inner, cell_of(inner, function.checked.params[n].id)) == Some(args[n])
        }),
{
    let entered = World {
        scopes: function.closure.push(declaring(world, world.scopes, world.scopes.len() as int)),
        ..world
    };
    let names = sorted_names(types.dom());
    lemma_sorted_names(types.dom());
    lemma_types_counted(entered, names, types, 0);
    assert(names.no_duplicates()) by {
        assert forall|i: int, j: int|
            0 <= i < names.len() && 0 <= j < names.len() && i != j implies names[i] != names[j] by {
            lemma_before_irreflexive(names[i]);
        }
    }
    names.unique_seq_to_set();
    let typed = with_types(entered, names, types, 0);
    lemma_arguments_found(
        typed,
        function.checked.params,
        args,
        0,
        n,
        typed.bindings.len() as int,
    );
}

proof fn lemma_types_counted(
    world: World,
    names: Seq<Seq<char>>,
    types: Map<Seq<char>, Ty>,
    i: int,
)
    requires
        0 <= i <= names.len(),
        world.scopes.len() > 0,
    ensures
        with_types(world, names, types, i).bindings.len() == world.bindings.len() + names.len() - i,
        with_types(world, names, types, i).scopes.len() == world.scopes.len(),
    decreases names.len() - i,
{
    if i < names.len() {
        lemma_types_counted(
            defined(world, names[i], Val::Type(types[names[i]])),
            names,
            types,
            i + 1,
        );
    }
}

// ---------------------------------------------------------------------------
// Calls and blocks
// ---------------------------------------------------------------------------

/// A call evaluates what is called and then the arguments, in their order, and calls the one
/// on the others. Maps and sets that it returns carry their type.
pub proof fn lemma_call(
    run: Run,
    expr: Typed,
    callee: Typed,
    args: Seq<Typed>,
    type_bindings: Seq<(Seq<char>, Ty)>,
    function: Val,
    runs: Seq<Run>,
    values: Seq<Val>,
    at: At,
    inner: Run,
    inside: At,
)
    requires
        expr.kind == TypedKind::Call(Box::new(callee), args, type_bindings),
        opened(run, at, inner, inside),
        values_in_turn(args, runs, values, inside),
        evaluated(inner, callee, inside) == (Done { run: runs[0], result: Ok(function) }),
    ensures
        ({
            let world = runs.last().world;
            let done = applied_value(
                runs.last(),
                function,
                values,
                Some(at_run_time(world, callee.ty)),
                bindings_at_run_time(world, type_bindings),
                At { forced: with_call(at.forced, world, callee), ..inside },
            );
            &&& evaluated(run, expr, at).run == done.run
            &&& match (done.result, evaluated(run, expr, at).result) {
                (Ok(value), Ok(returned)) => bare(returned) == bare(value),
                (Err(halt), Err(shown)) => halt == shown,
                _ => false,
            }
        }),
{
    assert(inner == (Run { steps: inner.steps, ..noting(run, Counter::EvaluatorSteps) }));
    assert(values.take(0) =~= Seq::<Val>::empty());
    lemma_all_evaluated(args, runs, values, 0, inside);
}

proof fn lemma_last_evaluated(
    list: Seq<Typed>,
    runs: Seq<Run>,
    values: Seq<Val>,
    i: int,
    before: Val,
    at: At,
)
    requires
        values_in_turn(list, runs, values, at),
        0 <= i <= list.len(),
        i > 0 ==> before == values[i - 1],
        i == 0 ==> before == Val::Unit,
    ensures
        last_from(runs[i], list, i, before, at) == (Done {
            run: runs.last(),
            result: Ok(
                if values.len() == 0 {
                    Val::Unit
                } else {
                    values.last()
                },
            ),
        }),
    decreases list.len() - i,
{
    if i < list.len() {
        assert(evaluated(runs[i], list[i], at).result == Ok::<Val, Halt>(values[i]));
        lemma_last_evaluated(list, runs, values, i + 1, values[i], at);
    }
}

/// A block without bindings comes to the value of its last expression, and an empty one to
/// the unit.
pub proof fn lemma_block_value(
    block: TypedBlock,
    runs: Seq<Run>,
    values: Seq<Val>,
    at: At,
)
    requires
        block.bindings.len() == 0,
        values_in_turn(block.expressions, runs, values, at),
    ensures
        block_evaluated(runs[0], block, at) == (Done {
            run: runs.last(),
            result: Ok(
                if values.len() == 0 {
                    Val::Unit
                } else {
                    values.last()
                },
            ),
        }),
{
    lemma_last_evaluated(block.expressions, runs, values, 0, Val::Unit, at);
}

/// A binding whose value is ready has that value, and one whose value is still to be made has
/// from then on the value of its expression.
pub proof fn lemma_binding_value(run: Run, key: BindingId, at: At)
    requires
        forall|i: int|
            0 <= i < at.forced.len() ==> (#[trigger] at.forced[i]).cell != cell_of(run.world, key),
    ensures
        ({
            let cell = cell_of(run.world, key);
            let done = forced_binding(run, key, at);
            &&& ready_value(run.world, cell) matches Some(value) ==> done == (Done {
                run,
                result: Ok(value),
            })
            &&& ready_value(run.world, cell) is None && initializer_of(
                run.world,
                cell,
            ) is Some ==> exists|inside: At|
                {
                    let made = #[trigger] evaluated(
                        run,
                        initializer_of(run.world, cell)->Some_0,
                        inside,
                    );
                    &&& inside.exprs == at.exprs
                    &&& inside.calls == at.calls
                    &&& inside.replies == at.replies
                    &&& done.result == made.result
                    &&& (made.result is Ok && known(made.run.world, cell)) ==> ready_value(
                        done.run.world,
                        cell,
                    ) == Some(made.result->Ok_0)
                }
        }),
{
    let cell = cell_of(run.world, key);
    lemma_not_forced(at.forced, cell, 0);
    if ready_value(run.world, cell) is None && initializer_of(run.world, cell) is Some {
        let name = binding_name(run.world, cell);
        let inside = At {
            forced: at.forced.push(Forced { cell, name, initializing: true }),
            ..at
        };
        let made = evaluated(run, initializer_of(run.world, cell)->Some_0, inside);
        assert(forced_binding(run, key, at).result == made.result);
    }
}

proof fn lemma_not_forced(forced: Seq<Forced>, cell: BindingId, i: int)
    requires
        0 <= i,
        forall|k: int| 0 <= k < forced.len() ==> (#[trigger] forced[k]).cell != cell,
    ensures
        cycle_start(forced, cell, i) == -1,
    decreases forced.len() - i,
{
    if i < forced.len() {
        assert(forced[i].cell != cell);
        lemma_not_forced(forced, cell, i + 1);
    }
}

// ---------------------------------------------------------------------------
// Functions
// ---------------------------------------------------------------------------

/// A function literal comes to a function that keeps its code and the scopes in which it
/// stands.
pub proof fn lemma_function_literal(
    run: Run,
    expr: Typed,
    function: TypedFn,
    at: At,
    inner: Run,
    inside: At,
)
    requires
        expr.kind == TypedKind::Function(Box::new(function)),
        opened(run, at, inner, inside),
    ensures
        evaluated(run, expr, at).result matches Ok(Val::Fn(made)) && {
            &&& made.closure == run.world.scopes
            &&& made.checked == function
            &&& made.name == function.name
            &&& made.return_type == function.result
            &&& made.params.len() == function.params.len()
            &&& made.param_types.len() == function.params.len()
            &&& forall|i: int|
                0 <= i < function.params.len() ==> made.params[i] == (
                #[trigger] function.params[i]).name && made.param_types[i] == function.params[i].ty
        },
{
    assert(inner == (Run { steps: inner.steps, ..noting(run, Counter::EvaluatorSteps) }));
}

proof fn lemma_types_keep_scopes(
    world: World,
    names: Seq<Seq<char>>,
    types: Map<Seq<char>, Ty>,
    i: int,
    n: int,
)
    requires
        0 <= i,
        world.scopes.len() == n + 1,
        n >= 0,
    ensures
        with_types(world, names, types, i).scopes.len() == n + 1,
        with_types(world, names, types, i).scopes.take(n) == world.scopes.take(n),
    decreases names.len() - i,
{
    if i < names.len() {
        let next = defined(world, names[i], Val::Type(types[names[i]]));
        assert(next.scopes.take(n) =~= world.scopes.take(n));
        lemma_types_keep_scopes(next, names, types, i + 1, n);
    }
}

proof fn lemma_arguments_keep_scopes(
    world: World,
    params: Seq<TypedParam>,
    args: Seq<Val>,
    i: int,
    n: int,
)
    requires
        0 <= i,
        world.scopes.len() == n + 1,
        n >= 0,
    ensures
        with_arguments(world, params, args, i).scopes.len() == n + 1,
        with_arguments(world, params, args, i).scopes.take(n) == world.scopes.take(n),
    decreases params.len() - i,
{
    if i < params.len() && i < args.len() {
        let next = keyed(world, params[i].id, ready_bound(params[i].name, args[i]));
        assert(next.scopes.take(n) =~= world.scopes.take(n));
        lemma_arguments_keep_scopes(next, params, args, i + 1, n);
    }
}

/// The body of a function sees the scopes in which the function was made, and one more.
pub proof fn lemma_call_sees_closure(
    world: World,
    function: FnVal,
    types: Map<Seq<char>, Ty>,
    args: Seq<Val>,
)
    ensures
        inside_call(world, function, types, args).scopes.len() == function.closure.len() + 1,
        inside_call(world, function, types, args).scopes.take(function.closure.len() as int)
            == function.closure,
{
    let n = function.closure.len() as int;
    let entered = World {
        scopes: function.closure.push(declaring(world, world.scopes, world.scopes.len() as int)),
        ..world
    };
    assert(entered.scopes.take(n) =~= function.closure);
    let names = sorted_names(types.dom());
    lemma_types_keep_scopes(entered, names, types, 0, n);
    lemma_arguments_keep_scopes(
        with_types(entered, names, types, 0),
        function.checked.params,
        args,
        0,
        n,
    );
}

/// A call that memory does not answer evaluates the body of the function inside the call.
/// Where that fails the call fails in the same way, and what it returns belongs to the type
/// that the call gives its result.
pub proof fn lemma_call_runs_body(
    run: Run,
    function: FnVal,
    args: Seq<Val>,
    signature: Option<Ty>,
    bindings: Seq<(Seq<char>, Ty)>,
    at: At,
    ty: Ty,
    types: Map<Seq<char>, Ty>,
)
    requires
        at.calls > 0,
        args.len() == function.params.len(),
        call_of(run.world, function, args, signature, bindings).result == Ok::<
            (Ty, Map<Seq<char>, Ty>),
            Failure,
        >((ty, types)),
        remembered(
            call_of(run.world, function, args, signature, bindings).world,
            function.id,
            signature,
            types,
            args,
        ) is None,
    ensures
        ({
            let caller = call_of(run.world, function, args, signature, bindings).world;
            let body = block_evaluated(
                Run {
                    world: inside_call(caller, function, types, args),
                    ..noting_recall(run, args, false)
                },
                function.checked.body,
                At { calls: (at.calls - 1) as nat, ..at },
            );
            let done = function_applied(run, function, args, signature, bindings, at);
            &&& done.run.world.scopes == caller.scopes
            &&& done.run.steps == body.run.steps
            &&& body.result matches Err(halt) ==> done.result == Err::<Val, Halt>(halt)
            &&& done.result matches Ok(value) ==> body.result is Ok && of_type(
                World { scopes: caller.scopes, ..body.run.world },
                value,
                ty,
            ) && (!(ty is Product) ==> bare(value) == bare(body.result->Ok_0))
        }),
{
    let caller = call_of(run.world, function, args, signature, bindings).world;
    let body = block_evaluated(
        Run {
            world: inside_call(caller, function, types, args),
            ..noting_recall(run, args, false)
        },
        function.checked.body,
        At { calls: (at.calls - 1) as nat, ..at },
    );
    if let Ok(value) = body.result {
        lemma_marked_conforms(World { scopes: caller.scopes, ..body.run.world }, value, ty);
    }
}

/// Calls that are nested too deep fail.
pub proof fn lemma_calls_end(
    run: Run,
    function: FnVal,
    args: Seq<Val>,
    signature: Option<Ty>,
    bindings: Seq<(Seq<char>, Ty)>,
    at: At,
)
    requires
        at.calls == 0,
    ensures
        function_applied(run, function, args, signature, bindings, at).result matches Err(
            Halt::Failed(Failure::Budget(_)),
        ),
{
}

// ---------------------------------------------------------------------------
// Names
// ---------------------------------------------------------------------------

/// A name that is given a value in the innermost scope stands for that value.
pub proof fn lemma_defined_found(world: World, name: Seq<char>, value: Val)
    requires
        world.scopes.len() > 0,
        world.bindings.len() < u64::MAX,
    ensures
        looked_up(defined(world, name, value), name) == Some(value),
{
    let after = defined(world, name, value);
    let n = after.scopes.len() as int;
    let scope = after.scopes[n - 1];
    assert(scope[scope.len() - 1] == (
        name,
        BindingId(world.bindings.len() as u64),
        BindingId(world.bindings.len() as u64),
    ));
}

} // verus!
