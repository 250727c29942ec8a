//! What every evaluation keeps: scopes, values that were made, and the budget.

use crate::asking::calls_back;
use crate::builtins::{Builtin, builtin_of};
use crate::calls::{Call, argument_types, assigned, call_admitted, fit_all, ty_vars};
use crate::checked::{BindingId, Typed, TypedArm, TypedBinding, TypedBlock, TypedKind, TypedParam};
use crate::collections::{Kept, kept};
use crate::compat::{equality_required, equality_required_from, fit_any};
use crate::content::put_field;
use crate::env::{Bound, World, defined, known, ready_value};
use crate::error::Failure;
use crate::frames::{
    binding_name, cell_of, completed, declared, declaring, initializer_of, inside_call, keyed,
    pending_bound, ready_bound, with_arguments, with_types,
};
use crate::fuel::{stepped_once, too_many_calls};
use crate::machine::{
    At, Done, Forced, Run, about_function, applied_value, arm_for, bindings_at_run_time,
    block_evaluated, body_evaluated, builtin_applied, call_of, callable, cycle_start, evaluated,
    evaluated_from, expression, fails, fields_from, folded_from, forced_binding, forced_from,
    function_applied, indexed_from, inner_scope, kept_from, last_from, noting, noting_call,
    noting_recall, outer_scope, weight, with_call,
};
use crate::memo::{alike_from, all_memorable, lemma_remembers, remembered};
use crate::profile::Counter;
use crate::rules::takes_exactly;
use crate::scope::sorted_names;
use crate::types::{Ty, substituted};
use crate::validity::{at_run_time, is_true};
use crate::value::{FnVal, Val, bare};
use vstd::prelude::*;

verus! {

/// Steps are spent and never gained.
pub open spec fn spends(before: Option<u64>, after: Option<u64>) -> bool {
    match (before, after) {
        (Some(before), Some(after)) => after <= before,
        (None, None) => true,
        _ => false,
    }
}

/// A binding is about to get its value.
pub open spec fn in_making(forced: Seq<Forced>, id: BindingId) -> bool {
    exists|i: int| 0 <= i < forced.len() && (#[trigger] forced[i]).cell == id && forced[i].initializing
}

/// No binding is lost, a binding that has a value keeps it, and a binding that is about
/// to get its value does not get another one meanwhile.
pub open spec fn keeps_values(before: World, after: World, forced: Seq<Forced>) -> bool {
    &&& before.bindings.len() <= after.bindings.len()
    &&& forall|id: BindingId| #[trigger]
        ready_value(before, id) is Some ==> ready_value(after, id) == ready_value(before, id)
    &&& forall|id: BindingId| #[trigger]
        known(before, id) && in_making(forced, id) && ready_value(before, id) is None
            ==> ready_value(after, id) is None
}

/// What an evaluation keeps.
pub open spec fn keeps(before: Run, after: Run, forced: Seq<Forced>) -> bool {
    &&& spends(before.steps, after.steps)
    &&& after.world.scopes == before.world.scopes
    &&& keeps_values(before.world, after.world, forced)
}

/// What a block keeps: it may add to the innermost scope.
pub open spec fn keeps_outer(before: Run, after: Run, forced: Seq<Forced>) -> bool {
    &&& spends(before.steps, after.steps)
    &&& keeps_values(before.world, after.world, forced)
    &&& after.world.scopes.len() == before.world.scopes.len()
    &&& forall|i: int|
        0 <= i < before.world.scopes.len() - 1 ==> after.world.scopes[i] == before.world.scopes[i]
}

proof fn lemma_cycle_start(forced: Seq<Forced>, cell: BindingId, i: int)
    requires
        0 <= i,
    ensures
        cycle_start(forced, cell, i) != -1 <==> exists|n: int|
            i <= n < forced.len() && (#[trigger] forced[n]).cell == cell && forced[n].initializing,
    decreases forced.len() - i,
{
    if i < forced.len() {
        lemma_cycle_start(forced, cell, i + 1);
    }
}

proof fn lemma_keeps_more(before: World, after: World, forced: Seq<Forced>, extra: Forced)
    requires
        keeps_values(before, after, forced.push(extra)),
    ensures
        keeps_values(before, after, forced),
{
    assert forall|id: BindingId| #[trigger]
        known(before, id) && in_making(forced, id) && ready_value(before, id) is None implies ready_value(
        after,
        id,
    ) is None by {
        let i = choose|i: int|
            0 <= i < forced.len() && (#[trigger] forced[i]).cell == id && forced[i].initializing;
        assert(forced.push(extra)[i] == forced[i]);
        assert(in_making(forced.push(extra), id));
    }
}

proof fn lemma_keeps_both(a: World, b: World, c: World, forced: Seq<Forced>)
    requires
        keeps_values(a, b, forced),
        keeps_values(b, c, forced),
    ensures
        keeps_values(a, c, forced),
{
    assert forall|id: BindingId| #[trigger] ready_value(a, id) is Some implies ready_value(c, id)
        == ready_value(a, id) by {
        assert(ready_value(b, id) == ready_value(a, id));
    }
    assert forall|id: BindingId| #[trigger]
        known(a, id) && in_making(forced, id) && ready_value(a, id) is None implies ready_value(
        c,
        id,
    ) is None by {
        assert(known(b, id));
    }
}

proof fn lemma_keyed(world: World, key: BindingId, bound: Bound, forced: Seq<Forced>)
    ensures
        keeps_values(world, keyed(world, key, bound), forced),
        keyed(world, key, bound).scopes.len() == world.scopes.len(),
        forall|i: int|
            0 <= i < world.scopes.len() - 1 ==> keyed(world, key, bound).scopes[i]
                == world.scopes[i],
{
}

proof fn lemma_defined(world: World, name: Seq<char>, value: Val, forced: Seq<Forced>)
    ensures
        keeps_values(world, defined(world, name, value), forced),
        defined(world, name, value).scopes.len() == world.scopes.len(),
{
}

proof fn lemma_declared(world: World, list: Seq<TypedBinding>, i: int, forced: Seq<Forced>)
    ensures
        keeps_values(world, declared(world, list, i), forced),
        declared(world, list, i).scopes.len() == world.scopes.len(),
        forall|k: int|
            0 <= k < world.scopes.len() - 1 ==> declared(world, list, i).scopes[k]
                == world.scopes[k],
    decreases list.len() - i,
{
    if 0 <= i < list.len() {
        let next = keyed(world, list[i].id, pending_bound(list[i]));
        lemma_keyed(world, list[i].id, pending_bound(list[i]), forced);
        lemma_declared(next, list, i + 1, forced);
        lemma_keeps_both(world, next, declared(world, list, i), forced);
    }
}

proof fn lemma_with_types(
    world: World,
    names: Seq<Seq<char>>,
    types: Map<Seq<char>, Ty>,
    i: int,
    forced: Seq<Forced>,
)
    ensures
        keeps_values(world, with_types(world, names, types, i), forced),
        with_types(world, names, types, i).scopes.len() == world.scopes.len(),
    decreases names.len() - i,
{
    if 0 <= i < names.len() {
        let next = defined(world, names[i], Val::Type(types[names[i]]));
        lemma_defined(world, names[i], Val::Type(types[names[i]]), forced);
        lemma_with_types(next, names, types, i + 1, forced);
        lemma_keeps_both(world, next, with_types(world, names, types, i), forced);
    }
}

proof fn lemma_with_arguments(
    world: World,
    params: Seq<TypedParam>,
    args: Seq<Val>,
    i: int,
    forced: Seq<Forced>,
)
    ensures
        keeps_values(world, with_arguments(world, params, args, i), forced),
        with_arguments(world, params, args, i).scopes.len() == world.scopes.len(),
    decreases params.len() - i,
{
    if 0 <= i < params.len() && i < args.len() {
        let bound = ready_bound(params[i].name, args[i]);
        let next = keyed(world, params[i].id, bound);
        lemma_keyed(world, params[i].id, bound, forced);
        lemma_with_arguments(next, params, args, i + 1, forced);
        lemma_keeps_both(world, next, with_arguments(world, params, args, i), forced);
    }
}

proof fn lemma_inside_call(
    world: World,
    function: FnVal,
    types: Map<Seq<char>, Ty>,
    args: Seq<Val>,
    forced: Seq<Forced>,
)
    ensures
        keeps_values(world, inside_call(world, function, types, args), forced),
        inside_call(world, function, types, args).scopes.len() > 0,
{
    let entered = World {
        scopes: function.closure.push(declaring(world, world.scopes, world.scopes.len() as int)),
        ..world
    };
    assert(keeps_values(world, entered, forced));
    let names = sorted_names(types.dom());
    let typed = with_types(entered, names, types, 0);
    lemma_with_types(entered, names, types, 0, forced);
    lemma_with_arguments(typed, function.checked.params, args, 0, forced);
    lemma_keeps_both(world, entered, typed, forced);
    lemma_keeps_both(world, typed, inside_call(world, function, types, args), forced);
}

proof fn lemma_required_frame(world: World, types: Seq<Ty>, subst: Map<Seq<char>, Ty>, i: int)
    ensures
        equality_required_from(world, types, subst, i).world.scopes == world.scopes,
        equality_required_from(world, types, subst, i).world.bindings == world.bindings,
        equality_required_from(world, types, subst, i).world.memo == world.memo,
    decreases types.len() - i,
{
    if 0 <= i < types.len() {
        let first = equality_required(world, substituted(types[i], subst));
        lemma_required_frame(first.world, types, subst, i + 1);
    }
}

proof fn lemma_admitted_frame(
    world: World,
    params: Seq<Seq<char>>,
    ty: Ty,
    subst: Map<Seq<char>, Ty>,
)
    ensures
        call_admitted(world, params, ty, subst).world.scopes == world.scopes,
        call_admitted(world, params, ty, subst).world.bindings == world.bindings,
        call_admitted(world, params, ty, subst).world.memo == world.memo,
{
    lemma_required_frame(world, ty_vars(params), subst, 0);
}

proof fn lemma_call_frame(
    world: World,
    function: FnVal,
    args: Seq<Val>,
    signature: Option<Ty>,
    bindings: Seq<(Seq<char>, Ty)>,
)
    ensures
        call_of(world, function, args, signature, bindings).world.scopes == world.scopes,
        call_of(world, function, args, signature, bindings).world.bindings == world.bindings,
        call_of(world, function, args, signature, bindings).world.memo == world.memo,
{
    match signature {
        Some(signature) => {
            if let Ty::Function(params, result) = signature {
                let arguments = fit_all(
                    world,
                    params,
                    function.param_types,
                    assigned(bindings, bindings.len() as int),
                    None,
                );
                let fit = fit_any(
                    world,
                    *result,
                    substituted(function.return_type, arguments.subst),
                    arguments.subst,
                );
                lemma_admitted_frame(world, function.equality_params, *result, fit.subst);
            }
        },
        None => {
            if let Ok(actuals) = argument_types(args, 0) {
                let fit = fit_all(world, actuals, function.param_types, Map::empty(), None);
                lemma_admitted_frame(
                    world,
                    function.equality_params,
                    substituted(function.return_type, fit.subst),
                    fit.subst,
                );
            }
        },
    }
}

// ---------------------------------------------------------------------------
// Evaluation
// ---------------------------------------------------------------------------

proof fn lemma_keeps_twice(a: Run, b: Run, c: Run, forced: Seq<Forced>)
    requires
        keeps(a, b, forced),
        keeps(b, c, forced),
    ensures
        keeps(a, c, forced),
{
    lemma_keeps_both(a.world, b.world, c.world, forced);
}

/// Evaluating an expression leaves the scopes as they were, changes no value that was
/// made before, gives no value to a binding that is already being made, and gains no steps.
pub proof fn lemma_evaluated_keeps(run: Run, expr: Typed, at: At)
    requires
        run.world.scopes.len() > 0,
    ensures
        keeps(run, evaluated(run, expr, at).run, at.forced),
    decreases at.exprs, at.calls, 0int, 0int, 0int,
{
    if at.exprs > 0 {
        if let Ok(steps) = stepped_once(run.steps) {
            let inner = At { exprs: (at.exprs - 1) as nat, ..at };
            lemma_expression_keeps(
                Run { steps, ..noting(run, Counter::EvaluatorSteps) },
                expr,
                inner,
            );
        }
    }
}

proof fn lemma_expression_keeps(run: Run, expr: Typed, at: At)
    requires
        run.world.scopes.len() > 0,
    ensures
        keeps(run, expression(run, expr, at).run, at.forced),
    decreases at.exprs, at.calls, 9int, 0int, 0int,
{
    match expr.kind {
        TypedKind::BindingRef(key) => {
            lemma_forced_keeps(run, key, at);
        },
        TypedKind::Vector(items) => {
            lemma_evaluated_from_keeps(run, items, 0, Seq::empty(), at);
        },
        TypedKind::Fields(fields) => {
            lemma_fields_keep(run, fields, 0, Seq::empty(), at);
        },
        TypedKind::If(condition, then_branch, else_branch) => {
            let done = evaluated(run, *condition, at);
            lemma_evaluated_keeps(run, *condition, at);
            if let Ok(value) = done.result {
                if is_true(value) {
                    lemma_evaluated_keeps(done.run, *then_branch, at);
                } else {
                    lemma_evaluated_keeps(done.run, *else_branch, at);
                }
                lemma_keeps_twice(run, done.run, expression(run, expr, at).run, at.forced);
            }
        },
        TypedKind::Construct(_, _, payload) => {
            lemma_evaluated_keeps(run, *payload, at);
        },
        TypedKind::Match(value, arms) => {
            lemma_match_keeps(run, expr, *value, arms, at);
        },
        TypedKind::Call(callee, args, type_bindings) => {
            lemma_call_keeps(run, expr, *callee, args, type_bindings, at);
        },
        TypedKind::Ascribe(_, value) => {
            lemma_evaluated_keeps(run, *value, at);
        },
        _ => {},
    }
}

proof fn lemma_match_keeps(run: Run, expr: Typed, value: Typed, arms: Seq<TypedArm>, at: At)
    requires
        run.world.scopes.len() > 0,
        expr.kind == TypedKind::Match(Box::new(value), arms),
    ensures
        keeps(run, expression(run, expr, at).run, at.forced),
    decreases at.exprs, at.calls, 8int, 1int, 0int,
{
    let done = evaluated(run, value, at);
    lemma_evaluated_keeps(run, value, at);
    if let Ok(value) = done.result {
        if let Val::Adt(_, constructor, payload) = bare(value) {
            if let Some(arm) = arm_for(arms, constructor, 0) {
                let bound = ready_bound(arm.binding.name, *payload);
                let pushed = inner_scope(done.run.world);
                let inside = Run { world: keyed(pushed, arm.binding.id, bound), ..done.run };
                lemma_keyed(pushed, arm.binding.id, bound, at.forced);
                lemma_evaluated_keeps(inside, *arm.body, at);
                let inner = evaluated(inside, *arm.body, at);
                let after = Run { world: outer_scope(inner.run.world), ..inner.run };
                assert(keeps_values(done.run.world, pushed, at.forced));
                lemma_keeps_both(done.run.world, pushed, inside.world, at.forced);
                lemma_keeps_both(done.run.world, inside.world, inner.run.world, at.forced);
                assert(keeps_values(done.run.world, after.world, at.forced));
                assert(after.world.scopes =~= done.run.world.scopes);
                lemma_keeps_twice(run, done.run, after, at.forced);
            }
        }
    }
}

proof fn lemma_call_keeps(
    run: Run,
    expr: Typed,
    callee: Typed,
    args: Seq<Typed>,
    type_bindings: Seq<(Seq<char>, Ty)>,
    at: At,
)
    requires
        run.world.scopes.len() > 0,
        expr.kind == TypedKind::Call(Box::new(callee), args, type_bindings),
    ensures
        keeps(run, expression(run, expr, at).run, at.forced),
    decreases at.exprs, at.calls, 8int, 1int, 0int,
{
    let target = evaluated(run, callee, at);
    lemma_evaluated_keeps(run, callee, at);
    if let Ok(function) = target.result {
        let values = evaluated_from(target.run, args, 0, Seq::empty(), at);
        lemma_evaluated_from_keeps(target.run, args, 0, Seq::empty(), at);
        lemma_keeps_twice(run, target.run, values.run, at.forced);
        if let Ok(list) = values.result {
            let world = values.run.world;
            let forced = with_call(at.forced, world, callee);
            let inner = At { forced, ..at };
            let signature = Some(at_run_time(world, callee.ty));
            let bindings = bindings_at_run_time(world, type_bindings);
            let done = applied_value(values.run, function, list, signature, bindings, inner);
            lemma_applied_keeps(values.run, function, list, signature, bindings, inner);
            if forced != at.forced {
                lemma_keeps_more(world, done.run.world, at.forced, forced.last());
                assert(forced =~= at.forced.push(forced.last()));
            }
            lemma_keeps_twice(run, values.run, done.run, at.forced);
        }
    }
}

proof fn lemma_forced_keeps(run: Run, key: BindingId, at: At)
    requires
        run.world.scopes.len() > 0,
    ensures
        keeps(run, forced_binding(run, key, at).run, at.forced),
    decreases at.exprs, at.calls, 1int, 0int, 0int,
{
    let cell = cell_of(run.world, key);
    let name = binding_name(run.world, cell);
    lemma_cycle_start(at.forced, cell, 0);
    if cycle_start(at.forced, cell, 0) == -1 && ready_value(run.world, cell) is None {
        if let Some(initializer) = initializer_of(run.world, cell) {
            let entry = Forced { cell, name, initializing: true };
            let forced = at.forced.push(entry);
            let done = evaluated(run, initializer, At { forced, ..at });
            lemma_evaluated_keeps(run, initializer, At { forced, ..at });
            lemma_keeps_more(run.world, done.run.world, at.forced, entry);
            if let Ok(value) = done.result {
                let after = completed(done.run.world, cell, value);
                assert(forced[at.forced.len() as int] == entry);
                assert(in_making(forced, cell));
                assert(known(run.world, cell));
                assert(ready_value(done.run.world, cell) is None);
                assert forall|id: BindingId| #[trigger] ready_value(run.world, id) is Some implies ready_value(
                    after,
                    id,
                ) == ready_value(run.world, id) by {
                    assert(ready_value(done.run.world, id) == ready_value(run.world, id));
                }
                assert forall|id: BindingId| #[trigger]
                    known(run.world, id) && in_making(at.forced, id) && ready_value(
                        run.world,
                        id,
                    ) is None implies ready_value(after, id) is None by {
                    assert(ready_value(done.run.world, id) is None);
                    assert(id != cell) by {
                        let i = choose|i: int|
                            0 <= i < at.forced.len() && (#[trigger] at.forced[i]).cell == id
                                && at.forced[i].initializing;
                        assert(at.forced[i].cell == id);
                    }
                }
            }
        }
    }
}

proof fn lemma_evaluated_from_keeps(run: Run, list: Seq<Typed>, i: int, before: Seq<Val>, at: At)
    requires
        run.world.scopes.len() > 0,
    ensures
        keeps(run, evaluated_from(run, list, i, before, at).run, at.forced),
    decreases at.exprs, at.calls, 2int, 0int, list.len() - i,
{
    if 0 <= i < list.len() {
        let done = evaluated(run, list[i], at);
        lemma_evaluated_keeps(run, list[i], at);
        if let Ok(value) = done.result {
            let rest = evaluated_from(done.run, list, i + 1, before.push(value), at);
            lemma_evaluated_from_keeps(done.run, list, i + 1, before.push(value), at);
            lemma_keeps_twice(run, done.run, rest.run, at.forced);
        }
    }
}

proof fn lemma_fields_keep(
    run: Run,
    fields: Seq<(Seq<char>, Typed)>,
    i: int,
    before: Kept,
    at: At,
)
    requires
        run.world.scopes.len() > 0,
    ensures
        keeps(run, fields_from(run, fields, i, before, at).run, at.forced),
    decreases at.exprs, at.calls, 2int, 0int, fields.len() - i,
{
    if 0 <= i < fields.len() {
        let done = evaluated(run, fields[i].1, at);
        lemma_evaluated_keeps(run, fields[i].1, at);
        if let Ok(value) = done.result {
            let next = put_field(before, fields[i].0, value);
            lemma_fields_keep(done.run, fields, i + 1, next, at);
            lemma_keeps_twice(
                run,
                done.run,
                fields_from(done.run, fields, i + 1, next, at).run,
                at.forced,
            );
        }
    }
}

proof fn lemma_forced_from_keeps(run: Run, list: Seq<TypedBinding>, i: int, at: At)
    requires
        run.world.scopes.len() > 0,
    ensures
        keeps(run, forced_from(run, list, i, at).run, at.forced),
    decreases at.exprs, at.calls, 3int, 0int, list.len() - i,
{
    if 0 <= i < list.len() {
        let done = forced_binding(run, list[i].id, at);
        lemma_forced_keeps(run, list[i].id, at);
        if done.result is Ok {
            lemma_forced_from_keeps(done.run, list, i + 1, at);
            lemma_keeps_twice(
                run,
                done.run,
                forced_from(done.run, list, i + 1, at).run,
                at.forced,
            );
        }
    }
}

proof fn lemma_last_keeps(run: Run, list: Seq<Typed>, i: int, value: Val, at: At)
    requires
        run.world.scopes.len() > 0,
    ensures
        keeps(run, last_from(run, list, i, value, at).run, at.forced),
    decreases at.exprs, at.calls, 2int, 0int, list.len() - i,
{
    if 0 <= i < list.len() {
        let done = evaluated(run, list[i], at);
        lemma_evaluated_keeps(run, list[i], at);
        if let Ok(value) = done.result {
            lemma_last_keeps(done.run, list, i + 1, value, at);
            lemma_keeps_twice(
                run,
                done.run,
                last_from(done.run, list, i + 1, value, at).run,
                at.forced,
            );
        }
    }
}

/// Evaluating a block adds to the innermost scope only, changes no value that was made
/// before, and gains no steps.
pub proof fn lemma_block_keeps(run: Run, block: TypedBlock, at: At)
    requires
        run.world.scopes.len() > 0,
    ensures
        keeps_outer(run, block_evaluated(run, block, at).run, at.forced),
    decreases at.exprs, at.calls, 8int, 0int, 0int,
{
    let start = Run { world: declared(run.world, block.bindings, 0), ..run };
    lemma_declared(run.world, block.bindings, 0, at.forced);
    let forced = forced_from(start, block.bindings, 0, at);
    lemma_forced_from_keeps(start, block.bindings, 0, at);
    lemma_keeps_both(run.world, start.world, forced.run.world, at.forced);
    if forced.result is Ok {
        lemma_last_keeps(forced.run, block.expressions, 0, Val::Unit, at);
        lemma_keeps_both(
            run.world,
            forced.run.world,
            last_from(forced.run, block.expressions, 0, Val::Unit, at).run.world,
            at.forced,
        );
    }
}

/// A call leaves the scopes of its caller as they were, changes no value that was made
/// before, and gains no steps.
pub proof fn lemma_applied_keeps(
    run: Run,
    function: Val,
    args: Seq<Val>,
    signature: Option<Ty>,
    bindings: Seq<(Seq<char>, Ty)>,
    at: At,
)
    requires
        run.world.scopes.len() > 0,
    ensures
        keeps(run, applied_value(run, function, args, signature, bindings, at).run, at.forced),
    decreases at.exprs, at.calls, weight(args), 2int, 0int,
{
    let noted = noting_call(run, function);
    match bare(function) {
        Val::Fn(function) => {
            lemma_function_keeps(noted, *function, args, signature, bindings, at);
        },
        Val::BuiltinFn(name) => {
            if let Some(builtin) = builtin_of(name) {
                lemma_builtin_keeps(noted, builtin, args, at);
            }
        },
        _ => {},
    }
}

proof fn lemma_function_keeps(
    run: Run,
    function: FnVal,
    args: Seq<Val>,
    signature: Option<Ty>,
    bindings: Seq<(Seq<char>, Ty)>,
    at: At,
)
    requires
        run.world.scopes.len() > 0,
    ensures
        keeps(run, function_applied(run, function, args, signature, bindings, at).run, at.forced),
    decreases at.exprs, at.calls, 0int, 0int, 0int,
{
    if at.calls > 0 && args.len() == function.params.len() {
        let call = call_of(run.world, function, args, signature, bindings);
        lemma_call_frame(run.world, function, args, signature, bindings);
        assert(keeps_values(run.world, call.world, at.forced));
        if let Ok((_, types)) = call.result {
            let found = remembered(call.world, function.id, signature, types, args);
            let noted = noting_recall(run, args, found is Some);
            let inside = Run { world: inside_call(call.world, function, types, args), ..noted };
            lemma_inside_call(call.world, function, types, args, at.forced);
            let inner = At { calls: (at.calls - 1) as nat, ..at };
            let done = block_evaluated(inside, function.checked.body, inner);
            lemma_block_keeps(inside, function.checked.body, inner);
            lemma_keeps_both(run.world, call.world, inside.world, at.forced);
            lemma_keeps_both(run.world, inside.world, done.run.world, at.forced);
            let world = World { scopes: call.world.scopes, ..done.run.world };
            assert(keeps_values(run.world, world, at.forced));
            let after = function_applied(run, function, args, signature, bindings, at).run.world;
            assert(after.bindings == world.bindings || after.bindings == call.world.bindings);
        }
    }
}

proof fn lemma_builtin_keeps(run: Run, builtin: Builtin, args: Seq<Val>, at: At)
    requires
        run.world.scopes.len() > 0,
    ensures
        keeps(run, builtin_applied(run, builtin, args, at).run, at.forced),
    decreases at.exprs, at.calls, weight(args), 1int, 0int,
{
    if calls_back(builtin) && args.len() == takes_exactly(builtin) {
        if let Val::List(items) = bare(args[args.len() - 1]) {
            if builtin is Fold {
                lemma_folded_keeps(run, args[0], args[1], items, 0, at);
            } else if builtin is IndexedMap {
                if callable(args[0]) {
                    lemma_indexed_keeps(run, args[0], items, 0, Seq::empty(), at);
                }
            } else {
                lemma_kept_keeps(run, builtin, args[0], items, 0, Seq::empty(), at);
            }
        }
    }
}

proof fn lemma_kept_keeps(
    run: Run,
    builtin: Builtin,
    function: Val,
    items: Seq<Val>,
    i: int,
    before: Kept,
    at: At,
)
    requires
        run.world.scopes.len() > 0,
    ensures
        keeps(run, kept_from(run, builtin, function, items, i, before, at).run, at.forced),
    decreases at.exprs, at.calls, 4int, 0int, items.len() - i,
{
    if 0 <= i < items.len() {
        let done = applied_value(run, function, seq![items[i]], None, Seq::empty(), at);
        lemma_applied_keeps(run, function, seq![items[i]], None, Seq::empty(), at);
        if let Ok(out) = done.result {
            if let Ok(after) = kept(builtin, before, items[i], out) {
                lemma_kept_keeps(done.run, builtin, function, items, i + 1, after, at);
                lemma_keeps_twice(
                    run,
                    done.run,
                    kept_from(done.run, builtin, function, items, i + 1, after, at).run,
                    at.forced,
                );
            }
        }
    }
}

proof fn lemma_indexed_keeps(
    run: Run,
    function: Val,
    items: Seq<Val>,
    i: int,
    before: Kept,
    at: At,
)
    requires
        run.world.scopes.len() > 0,
        callable(function),
    ensures
        keeps(run, indexed_from(run, function, items, i, before, at).run, at.forced),
    decreases at.exprs, at.calls, 4int, 3int, items.len() - i,
{
    if 0 <= i < items.len() {
        let args = seq![Val::Int((i as i64) as int), items[i]];
        let done = applied_value(run, function, args, None, Seq::empty(), at);
        lemma_applied_keeps(run, function, args, None, Seq::empty(), at);
        if let Ok(out) = done.result {
            let next = before.push((Seq::empty(), out));
            lemma_indexed_keeps(done.run, function, items, i + 1, next, at);
            lemma_keeps_twice(
                run,
                done.run,
                indexed_from(done.run, function, items, i + 1, next, at).run,
                at.forced,
            );
        }
    }
}

proof fn lemma_folded_keeps(
    run: Run,
    function: Val,
    before: Val,
    items: Seq<Val>,
    i: int,
    at: At,
)
    requires
        run.world.scopes.len() > 0,
    ensures
        keeps(run, folded_from(run, function, before, items, i, at).run, at.forced),
    decreases at.exprs, at.calls, 6int, 0int, items.len() - i,
{
    if 0 <= i < items.len() {
        let done = applied_value(run, function, seq![before, items[i]], None, Seq::empty(), at);
        lemma_applied_keeps(run, function, seq![before, items[i]], None, Seq::empty(), at);
        if let Ok(value) = done.result {
            lemma_folded_keeps(done.run, function, value, items, i + 1, at);
            lemma_keeps_twice(
                run,
                done.run,
                folded_from(done.run, function, value, items, i + 1, at).run,
                at.forced,
            );
        }
    }
}

/// Every expression that is evaluated costs at least one step.
pub proof fn lemma_evaluation_costs(run: Run, expr: Typed, at: At)
    requires
        run.world.scopes.len() > 0,
    ensures
        evaluated(run, expr, at).result is Ok ==> match (
            run.steps,
            evaluated(run, expr, at).run.steps,
        ) {
            (Some(before), Some(after)) => after < before,
            _ => false,
        },
{
    if at.exprs > 0 {
        if let Ok(steps) = stepped_once(run.steps) {
            let inner = At { exprs: (at.exprs - 1) as nat, ..at };
            lemma_expression_keeps(
                Run { steps, ..noting(run, Counter::EvaluatorSteps) },
                expr,
                inner,
            );
        }
    }
}

// ---------------------------------------------------------------------------
// Remembered calls
// ---------------------------------------------------------------------------

/// A call that is repeated returns what it returned before, spends no step and changes
/// nothing, as long as its arguments can be remembered and it is checked with the same
/// outcome.
pub proof fn lemma_repeated_call(
    run: Run,
    function: FnVal,
    args: Seq<Val>,
    signature: Option<Ty>,
    bindings: Seq<(Seq<char>, Ty)>,
    at: At,
)
    requires
        all_memorable(args),
        alike_from(args, args, 0),
        call_of(
            function_applied(run, function, args, signature, bindings, at).run.world,
            function,
            args,
            signature,
            bindings,
        ) == (Call {
            world: function_applied(run, function, args, signature, bindings, at).run.world,
            result: call_of(run.world, function, args, signature, bindings).result,
        }),
    ensures
        ({
            let first = function_applied(run, function, args, signature, bindings, at);
            first.result is Ok ==> function_applied(
                first.run,
                function,
                args,
                signature,
                bindings,
                at,
            ) == (Done { run: noting(first.run, Counter::MemoizedCallHits), result: first.result })
        }),
{
    let first = function_applied(run, function, args, signature, bindings, at);
    if let Ok(value) = first.result {
        let call = call_of(run.world, function, args, signature, bindings);
        let types = call.result->Ok_0.1;
        if remembered(call.world, function.id, signature, types, args) is Some {
            lemma_call_frame(run.world, function, args, signature, bindings);
        } else {
            let noted = noting_recall(run, args, false);
            let inside = Run { world: inside_call(call.world, function, types, args), ..noted };
            let inner = At { calls: (at.calls - 1) as nat, ..at };
            let done = block_evaluated(inside, function.checked.body, inner);
            let world = World { scopes: call.world.scopes, ..done.run.world };
            lemma_remembers(world, function.id, signature, types, args, value);
        }
    }
}

/// A call that is made whether it is remembered or not.
pub open spec fn applied_anew(
    run: Run,
    function: FnVal,
    args: Seq<Val>,
    signature: Option<Ty>,
    bindings: Seq<(Seq<char>, Ty)>,
    at: At,
) -> Done {
    if at.calls == 0 {
        fails(run, too_many_calls())
    } else if args.len() != function.params.len() {
        fails(run, Failure::Arity { expected: function.params.len(), got: args.len() })
    } else {
        let call = call_of(run.world, function, args, signature, bindings);
        match call.result {
            Err(failure) => fails(
                Run { world: call.world, ..run },
                about_function("calling "@, function, failure),
            ),
            Ok((ty, types)) => body_evaluated(
                noting_recall(run, args, false),
                call.world,
                function,
                args,
                signature,
                ty,
                types,
                at,
            ),
        }
    }
}

/// What is remembered in a world is what making the calls anew gives.
pub open spec fn memory_true(run: Run, at: At) -> bool {
    forall|
        function: FnVal,
        args: Seq<Val>,
        signature: Option<Ty>,
        bindings: Seq<(Seq<char>, Ty)>,
    |
        function_applied(run, function, args, signature, bindings, at).result is Ok
            && call_answered(run, function, args, signature, bindings, at) ==> #[trigger] applied_anew(
            run,
            function,
            args,
            signature,
            bindings,
            at,
        ).result == function_applied(run, function, args, signature, bindings, at).result
}

/// A call is answered from memory.
pub open spec fn call_answered(
    run: Run,
    function: FnVal,
    args: Seq<Val>,
    signature: Option<Ty>,
    bindings: Seq<(Seq<char>, Ty)>,
    at: At,
) -> bool {
    let call = call_of(run.world, function, args, signature, bindings);
    at.calls > 0 && args.len() == function.params.len() && (call.result matches Ok((_, types))
        && remembered(call.world, function.id, signature, types, args) is Some)
}

/// Memory in which nothing is left is true.
pub proof fn lemma_forgotten_is_true(run: Run, at: At)
    requires
        run.world.memo.len() == 0,
    ensures
        memory_true(run, at),
{
    assert forall|
        function: FnVal,
        args: Seq<Val>,
        signature: Option<Ty>,
        bindings: Seq<(Seq<char>, Ty)>,
    | !call_answered(run, function, args, signature, bindings, at) by {
        lemma_call_frame(run.world, function, args, signature, bindings);
    }
}

/// Where memory is true, a call comes to the same whether it is answered from memory or
/// made anew, and memory never costs more steps.
pub proof fn lemma_memory_changes_cost_only(
    run: Run,
    function: FnVal,
    args: Seq<Val>,
    signature: Option<Ty>,
    bindings: Seq<(Seq<char>, Ty)>,
    at: At,
)
    requires
        memory_true(run, at),
        run.world.scopes.len() > 0,
    ensures
        function_applied(run, function, args, signature, bindings, at).result == applied_anew(
            run,
            function,
            args,
            signature,
            bindings,
            at,
        ).result,
        spends(
            function_applied(run, function, args, signature, bindings, at).run.steps,
            applied_anew(run, function, args, signature, bindings, at).run.steps,
        ),
{
    let anew = applied_anew(run, function, args, signature, bindings, at);
    if call_answered(run, function, args, signature, bindings, at) {
        let call = call_of(run.world, function, args, signature, bindings);
        let types = call.result->Ok_0.1;
        let noted = noting_recall(run, args, false);
        let inside = Run { world: inside_call(call.world, function, types, args), ..noted };
        let inner = At { calls: (at.calls - 1) as nat, ..at };
        lemma_inside_call(call.world, function, types, args, at.forced);
        lemma_block_keeps(inside, function.checked.body, inner);
    }
}

} // verus!
