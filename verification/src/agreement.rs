//! The types that the rules give to calls of functions of the language agree with what these
//! calls return.

use crate::asking::Halt;
use crate::basics::{lemma_compound_types, lemma_lists, lemma_remove_at, lemma_simple_types};
use crate::builtins::Builtin;
use crate::checking::suits;
use crate::compat::fit_any;
use crate::env::World;
use crate::fitting::{agree, lemma_fit_agrees};
use crate::machine::{At, Run, builtin_applied};
use crate::primitives::{key_index, lemma_key_index};
use crate::resolve::TYPE_DEPTH_LIMIT;
use crate::rules::{callback_verdict, fitted, fold_verdict, indexed_verdict, rule_result};
use crate::types::Ty;
use crate::validity::of_type;
use crate::value::Val;
use vstd::prelude::*;

verus! {

/// What a call that needs nothing of its host returns belongs to the type that the rules give
/// it, where that type does not depend on the arguments.
pub proof fn lemma_plain_results(
    run: Run,
    builtin: Builtin,
    args: Seq<Val>,
    types: Seq<Ty>,
    at: At,
    value: Val,
)
    requires
        builtin is MapContains || builtin is MapCount || builtin is SetContains
            || builtin is SetCount || builtin is Count || builtin is Not || builtin is IntMul
            || builtin is IntGt || builtin is Equal || builtin is Str || builtin is StripMargin
            || builtin is Replace || builtin is Canonical || builtin is FunctionName
            || builtin is Artifact || builtin is Pack || builtin is Fail || builtin is Require,
        builtin_applied(run, builtin, args, at).result == Ok::<Val, Halt>(value),
    ensures
        of_type(run.world, value, rule_result(builtin, types)),
        builtin_applied(run, builtin, args, at).run == run,
{
}

/// The names that `keys` returns are texts.
pub proof fn lemma_keys_are_texts(run: Run, args: Seq<Val>, types: Seq<Ty>, at: At, value: Val)
    requires
        builtin_applied(run, Builtin::Keys, args, at).result == Ok::<Val, Halt>(value),
    ensures
        of_type(run.world, value, rule_result(Builtin::Keys, types)),
{
    if let Val::List(names) = value {
        assert forall|i: int| 0 <= i < names.len() implies of_type(
            run.world,
            #[trigger] names[i],
            Ty::String,
        ) by {
            lemma_simple_types(run.world, names[i]);
        }
        lemma_compound_types(run.world, value, Ty::String, Ty::String, Seq::empty());
    }
}

/// What functions on a list return belongs to the type that the rules give them, where the
/// list belongs to its type.
pub proof fn lemma_list_results(
    run: Run,
    items: Seq<Val>,
    more: Seq<Val>,
    index: int,
    item: Ty,
    at: At,
    value: Val,
)
    requires
        of_type(run.world, Val::List(items), Ty::List(Box::new(item))),
        of_type(run.world, Val::List(more), Ty::List(Box::new(item))),
    ensures
        ({
            let list = Ty::List(Box::new(item));
            &&& builtin_applied(run, Builtin::First, seq![Val::List(items)], at).result == Ok::<
                Val,
                Halt,
            >(value) ==> of_type(run.world, value, rule_result(Builtin::First, seq![list]))
            &&& builtin_applied(
                run,
                Builtin::Concat,
                seq![Val::List(items), Val::List(more)],
                at,
            ).result == Ok::<Val, Halt>(value) ==> of_type(
                run.world,
                value,
                rule_result(Builtin::Concat, seq![list, list]),
            )
            &&& builtin_applied(
                run,
                Builtin::RemoveAt,
                seq![Val::List(items), Val::Int(index)],
                at,
            ).result == Ok::<Val, Halt>(value) ==> of_type(
                run.world,
                value,
                rule_result(Builtin::RemoveAt, seq![list, Ty::Int]),
            )
        }),
{
    let world = run.world;
    lemma_compound_types(world, Val::List(items), item, item, Seq::empty());
    lemma_compound_types(world, Val::List(more), item, item, Seq::empty());
    let left = Val::List(items);
    let right = Val::List(more);
    lemma_lists(run, left, right, items, more, at);
    lemma_remove_at(run, left, Val::Int(index), items, index, at);
    let both = items + more;
    assert forall|i: int| 0 <= i < both.len() implies of_type(world, #[trigger] both[i], item) by {
        if i < items.len() {
            assert(both[i] == items[i]);
        } else {
            assert(both[i] == more[i - items.len()]);
        }
    }
    lemma_compound_types(world, Val::List(both), item, item, Seq::empty());
    if 0 <= index < items.len() {
        let fewer = items.take(index) + items.skip(index + 1);
        assert forall|i: int| 0 <= i < fewer.len() implies of_type(
            world,
            #[trigger] fewer[i],
            item,
        ) by {
            if i < index {
                assert(fewer[i] == items[i]);
            } else {
                assert(fewer[i] == items[i + 1]);
            }
        }
        lemma_compound_types(world, Val::List(fewer), item, item, Seq::empty());
    }
    if items.len() > 0 {
        assert(of_type(world, items[0], item));
    }
}

/// What functions on a map return belongs to the type that the rules give them, where the map
/// and the other arguments belong to their types.
pub proof fn lemma_map_results(
    run: Run,
    entries: Seq<(Val, Val)>,
    key: Val,
    value: Val,
    key_type: Ty,
    value_type: Ty,
    at: At,
    result: Val,
)
    requires
        of_type(
            run.world,
            Val::MapOf(entries),
            Ty::MapOf(Box::new(key_type), Box::new(value_type)),
        ),
        of_type(run.world, key, key_type),
        of_type(run.world, value, value_type),
    ensures
        ({
            let map = Ty::MapOf(Box::new(key_type), Box::new(value_type));
            let given = Val::MapOf(entries);
            &&& builtin_applied(run, Builtin::MapPut, seq![given, key, value], at).result == Ok::<
                Val,
                Halt,
            >(result) ==> of_type(
                run.world,
                result,
                rule_result(Builtin::MapPut, seq![map, key_type, value_type]),
            )
            &&& builtin_applied(run, Builtin::MapInsert, seq![given, key, value], at).result == Ok::<
                Val,
                Halt,
            >(result) ==> of_type(
                run.world,
                result,
                rule_result(Builtin::MapInsert, seq![map, key_type, value_type]),
            )
            &&& builtin_applied(run, Builtin::MapGet, seq![given, key], at).result == Ok::<
                Val,
                Halt,
            >(result) ==> of_type(
                run.world,
                result,
                rule_result(Builtin::MapGet, seq![map, key_type]),
            )
        }),
{
    let world = run.world;
    let given = Val::MapOf(entries);
    lemma_compound_types(world, given, value_type, key_type, Seq::empty());
    let at_key = key_index(world, entries, key, 0);
    lemma_key_index(world, entries, key, 0);
    let longer = entries.push((key, value));
    assert forall|i: int| 0 <= i < longer.len() implies of_type(
        world,
        (#[trigger] longer[i]).0,
        key_type,
    ) && of_type(world, longer[i].1, value_type) by {
        if i < entries.len() {
            assert(longer[i] == entries[i]);
        }
    }
    lemma_compound_types(world, Val::MapOf(longer), value_type, key_type, Seq::empty());
    if at_key != -1 {
        let changed = entries.update(at_key, (entries[at_key].0, value));
        assert forall|i: int| 0 <= i < changed.len() implies of_type(
            world,
            (#[trigger] changed[i]).0,
            key_type,
        ) && of_type(world, changed[i].1, value_type) by {
            assert(of_type(world, entries[i].0, key_type));
        }
        lemma_compound_types(world, Val::MapOf(changed), value_type, key_type, Seq::empty());
        assert(of_type(world, entries[at_key].1, value_type));
    }
}

// ---------------------------------------------------------------------------
// Functions that are called back
// ---------------------------------------------------------------------------

proof fn lemma_fitted_suits(world: World, actual: Ty, expected: Ty)
    ensures
        fitted(world, actual, expected) is Ok ==> suits(world, actual, expected),
{
    let limit = TYPE_DEPTH_LIMIT as nat;
    lemma_fit_agrees(world, actual, expected, Map::empty(), None, limit);
    let outcome = fit_any(world, actual, expected, Map::empty());
    if outcome.result is Ok {
        assert(agree(world, actual, expected, outcome.subst, limit));
    }
}

/// A function that is called for each item of a list takes one argument, and the items suit
/// it. It returns a truth value for `filter`, a text for `sort_by` and `group_by`, and a list
/// for `flat_map`.
pub proof fn lemma_callback_suits(world: World, builtin: Builtin, item: Ty, callback: Ty)
    ensures
        callback_verdict(world, builtin, item, callback) is Ok ==> (callback matches Ty::Function(
            params,
            result,
        ) && {
            &&& params.len() == 1
            &&& suits(world, item, params[0])
            &&& builtin is Filter ==> suits(world, *result, Ty::Bool)
            &&& builtin is SortBy || builtin is GroupBy ==> suits(world, *result, Ty::String)
            &&& builtin is FlatMap ==> *result is List
        }),
{
    if let Ty::Function(params, result) = callback {
        if params.len() == 1 {
            lemma_fitted_suits(world, item, params[0]);
            lemma_fitted_suits(world, *result, Ty::Bool);
            lemma_fitted_suits(world, *result, Ty::String);
        }
    }
}

/// The function that `fold` calls takes what is made so far and an item, and returns something
/// that it can take again. The function that `indexed_map` calls takes an index and an item.
pub proof fn lemma_fold_callback_suits(world: World, initial: Ty, item: Ty, callback: Ty)
    ensures
        fold_verdict(world, initial, item, callback) is Ok ==> (callback matches Ty::Function(
            params,
            result,
        ) && {
            &&& params.len() == 2
            &&& suits(world, initial, params[0])
            &&& suits(world, item, params[1])
            &&& suits(world, *result, params[0])
        }),
        indexed_verdict(world, item, callback) is Ok ==> (callback matches Ty::Function(
            params,
            _,
        ) && {
            &&& params.len() == 2
            &&& suits(world, Ty::Int, params[0])
            &&& suits(world, item, params[1])
        }),
{
    if let Ty::Function(params, result) = callback {
        if params.len() == 2 {
            lemma_fitted_suits(world, initial, params[0]);
            lemma_fitted_suits(world, item, params[1]);
            lemma_fitted_suits(world, *result, params[0]);
            lemma_fitted_suits(world, Ty::Int, params[0]);
        }
    }
}

} // verus!
