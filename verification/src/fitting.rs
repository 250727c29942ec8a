//! What it means that a type fits where another one is expected.

use crate::compat::{Fit, actual_binds, expected_binds, fit, fit_from, fit_parts, fits};
use crate::declare::{Body, Concrete, Constructor};
use crate::env::{World, decl_of};
use crate::error::Failure;
use crate::resolve::{
    TYPE_DEPTH_LIMIT, concrete, concrete_body, concrete_fields_from, concrete_from,
    concrete_payloads_from, concrete_type,
};
use crate::types::{Ty, substituted, substituted_all, vars, vars_from, zipped};
use crate::typing::{extends, lemma_fit_extends, lemma_fit_reflexive, lemma_substituted_absent};
use vstd::prelude::*;

verus! {

// ---------------------------------------------------------------------------
// Types that agree
// ---------------------------------------------------------------------------

/// Two types that are the same once variables are replaced by what they stand for: they are
/// equal, or resolve to one concrete type, or have the same form and their parts agree. The
/// type of what never happens agrees with every type, that of the empty list with every list.
pub open spec fn agree(
    world: World,
    given: Ty,
    wanted: Ty,
    bound: Map<Seq<char>, Ty>,
    depth: nat,
) -> bool
    decreases depth,
{
    ||| given == wanted
    ||| given is Never
    ||| given is EmptyList && wanted is List
    ||| concrete_type(world, given) is Ok && concrete_type(world, given) == concrete_type(
        world,
        wanted,
    )
    ||| depth > 0 && wanted is Var && bound.dom().contains(wanted->Var_0) && agree(
        world,
        given,
        bound[wanted->Var_0],
        bound,
        (depth - 1) as nat,
    )
    ||| depth > 0 && given is Var && bound.dom().contains(given->Var_0) && agree(
        world,
        bound[given->Var_0],
        wanted,
        bound,
        (depth - 1) as nat,
    )
    ||| depth > 0 && match (given, wanted) {
        (Ty::Named(name, args), Ty::Named(other, others)) => {
            &&& name == other
            &&& args.len() == others.len()
            &&& forall|i: int|
                0 <= i < args.len() ==> agree(
                    world,
                    #[trigger] args[i],
                    others[i],
                    bound,
                    (depth - 1) as nat,
                )
        },
        (Ty::TypeTag(item), Ty::TypeTag(other)) => agree(
            world,
            *item,
            *other,
            bound,
            (depth - 1) as nat,
        ),
        (Ty::List(item), Ty::List(other)) => agree(
            world,
            *item,
            *other,
            bound,
            (depth - 1) as nat,
        ),
        (Ty::SetOf(item), Ty::SetOf(other)) => agree(
            world,
            *item,
            *other,
            bound,
            (depth - 1) as nat,
        ),
        (Ty::MapOf(key, value), Ty::MapOf(other_key, other)) => agree(
            world,
            *key,
            *other_key,
            bound,
            (depth - 1) as nat,
        ) && agree(world, *value, *other, bound, (depth - 1) as nat),
        (Ty::Product(items), Ty::Product(others)) => {
            &&& items.len() == others.len()
            &&& forall|i: int|
                0 <= i < items.len() ==> agree(
                    world,
                    #[trigger] items[i],
                    others[i],
                    bound,
                    (depth - 1) as nat,
                )
        },
        (Ty::Function(params, result), Ty::Function(others, other)) => {
            &&& params.len() == others.len()
            &&& forall|i: int|
                0 <= i < params.len() ==> agree(
                    world,
                    #[trigger] params[i],
                    others[i],
                    bound,
                    (depth - 1) as nat,
                )
            &&& agree(world, *result, *other, bound, (depth - 1) as nat)
        },
        _ => false,
    }
}

/// Types that agree still do when variables stand for more.
pub(crate) proof fn lemma_agree_extends(
    world: World,
    given: Ty,
    wanted: Ty,
    earlier: Map<Seq<char>, Ty>,
    later: Map<Seq<char>, Ty>,
    depth: nat,
)
    requires
        agree(world, given, wanted, earlier, depth),
        extends(later, earlier),
    ensures
        agree(world, given, wanted, later, depth),
    decreases depth, 0int,
{
    if depth > 0 {
        let less = (depth - 1) as nat;
        if wanted is Var && earlier.dom().contains(wanted->Var_0) && agree(
            world,
            given,
            earlier[wanted->Var_0],
            earlier,
            less,
        ) {
            lemma_agree_extends(world, given, earlier[wanted->Var_0], earlier, later, less);
        } else if given is Var && earlier.dom().contains(given->Var_0) && agree(
            world,
            earlier[given->Var_0],
            wanted,
            earlier,
            less,
        ) {
            lemma_agree_extends(world, earlier[given->Var_0], wanted, earlier, later, less);
        } else if given != wanted && !(given is Never) && !(concrete_type(world, given) is Ok
            && concrete_type(world, given) == concrete_type(world, wanted)) {
            match (given, wanted) {
                (Ty::Named(_, args), Ty::Named(_, others)) => {
                    lemma_all_extend(world, args, others, earlier, later, less);
                },
                (Ty::TypeTag(item), Ty::TypeTag(other)) => {
                    lemma_agree_extends(world, *item, *other, earlier, later, less);
                },
                (Ty::List(item), Ty::List(other)) => {
                    lemma_agree_extends(world, *item, *other, earlier, later, less);
                },
                (Ty::SetOf(item), Ty::SetOf(other)) => {
                    lemma_agree_extends(world, *item, *other, earlier, later, less);
                },
                (Ty::MapOf(key, value), Ty::MapOf(other_key, other)) => {
                    lemma_agree_extends(world, *key, *other_key, earlier, later, less);
                    lemma_agree_extends(world, *value, *other, earlier, later, less);
                },
                (Ty::Product(items), Ty::Product(others)) => {
                    lemma_all_extend(world, items, others, earlier, later, less);
                },
                (Ty::Function(params, result), Ty::Function(others, other)) => {
                    lemma_all_extend(world, params, others, earlier, later, less);
                    lemma_agree_extends(world, *result, *other, earlier, later, less);
                },
                _ => {},
            }
        }
    }
}

proof fn lemma_all_extend(
    world: World,
    given: Seq<Ty>,
    wanted: Seq<Ty>,
    earlier: Map<Seq<char>, Ty>,
    later: Map<Seq<char>, Ty>,
    depth: nat,
)
    requires
        given.len() == wanted.len(),
        forall|i: int|
            0 <= i < given.len() ==> agree(world, #[trigger] given[i], wanted[i], earlier, depth),
        extends(later, earlier),
    ensures
        forall|i: int|
            0 <= i < given.len() ==> agree(world, #[trigger] given[i], wanted[i], later, depth),
    decreases depth, 1int,
{
    assert forall|i: int| 0 <= i < given.len() implies agree(
        world,
        #[trigger] given[i],
        wanted[i],
        later,
        depth,
    ) by {
        lemma_agree_extends(world, given[i], wanted[i], earlier, later, depth);
    }
}

/// Types that fit agree, with what the fit tells of the variables.
pub proof fn lemma_fit_agrees(
    world: World,
    actual: Ty,
    expected: Ty,
    subst: Map<Seq<char>, Ty>,
    bindable: Option<Set<Seq<char>>>,
    fuel: nat,
)
    ensures
        ({
            let outcome = fit(world, actual, expected, subst, bindable, fuel);
            outcome.result is Ok ==> agree(world, actual, expected, outcome.subst, fuel)
        }),
    decreases fuel, 1int,
{
    let outcome = fit(world, actual, expected, subst, bindable, fuel);
    lemma_fit_extends(world, actual, expected, subst, bindable, fuel);
    if actual == expected || fuel == 0 {
    } else if expected is Var && expected_binds(bindable, expected->Var_0) {
        let name = expected->Var_0;
        if subst.dom().contains(name) {
            lemma_fit_agrees(world, actual, subst[name], subst, bindable, (fuel - 1) as nat);
        } else {
            assert(agree(world, actual, outcome.subst[name], outcome.subst, (fuel - 1) as nat));
        }
    } else if actual is Var && actual_binds(bindable, actual->Var_0) {
        let name = actual->Var_0;
        if subst.dom().contains(name) {
            lemma_fit_agrees(world, subst[name], expected, subst, bindable, (fuel - 1) as nat);
        } else {
            assert(agree(world, outcome.subst[name], expected, outcome.subst, (fuel - 1) as nat));
        }
    } else if !(expected is Var) && !(actual is Never) && !(actual is EmptyList
        && expected is List) && !(concrete_type(world, actual) is Ok && concrete_type(
        world,
        expected,
    ) is Ok) {
        lemma_parts_agree(world, actual, expected, subst, bindable, fuel);
    }
}

proof fn lemma_parts_agree(
    world: World,
    actual: Ty,
    expected: Ty,
    subst: Map<Seq<char>, Ty>,
    bindable: Option<Set<Seq<char>>>,
    fuel: nat,
)
    requires
        fuel > 0,
    ensures
        ({
            let outcome = fit_parts(world, actual, expected, subst, bindable, fuel);
            outcome.result is Ok ==> agree(world, actual, expected, outcome.subst, fuel)
        }),
    decreases fuel, 0int,
{
    let less = (fuel - 1) as nat;
    match (expected, actual) {
        (Ty::Named(_, wanted), Ty::Named(_, given)) => {
            lemma_each_agrees(world, given, wanted, 0, subst, bindable, less);
        },
        (Ty::TypeTag(wanted), Ty::TypeTag(given)) => {
            lemma_fit_agrees(world, *given, *wanted, subst, bindable, less);
        },
        (Ty::List(wanted), Ty::List(given)) => {
            lemma_fit_agrees(world, *given, *wanted, subst, bindable, less);
        },
        (Ty::SetOf(wanted), Ty::SetOf(given)) => {
            lemma_fit_agrees(world, *given, *wanted, subst, bindable, less);
        },
        (Ty::MapOf(wanted_key, wanted), Ty::MapOf(given_key, given)) => {
            let keys = fit(world, *given_key, *wanted_key, subst, bindable, less);
            lemma_fit_agrees(world, *given_key, *wanted_key, subst, bindable, less);
            if keys.result is Ok {
                let both = fit(world, *given, *wanted, keys.subst, bindable, less);
                lemma_fit_agrees(world, *given, *wanted, keys.subst, bindable, less);
                lemma_fit_extends(world, *given, *wanted, keys.subst, bindable, less);
                lemma_agree_extends(world, *given_key, *wanted_key, keys.subst, both.subst, less);
            }
        },
        (Ty::Product(wanted), Ty::Product(given)) => {
            lemma_each_agrees(world, given, wanted, 0, subst, bindable, less);
        },
        (Ty::Function(wanted, wanted_result), Ty::Function(given, given_result)) => {
            if given.len() == wanted.len() {
                let params = fit_from(world, given, wanted, 0, subst, bindable, less);
                lemma_each_agrees(world, given, wanted, 0, subst, bindable, less);
                if params.result is Ok {
                    let both = fit(
                        world,
                        *given_result,
                        *wanted_result,
                        params.subst,
                        bindable,
                        less,
                    );
                    lemma_fit_agrees(
                        world,
                        *given_result,
                        *wanted_result,
                        params.subst,
                        bindable,
                        less,
                    );
                    lemma_fit_extends(
                        world,
                        *given_result,
                        *wanted_result,
                        params.subst,
                        bindable,
                        less,
                    );
                    assert forall|i: int| 0 <= i < given.len() && both.result is Ok implies agree(
                        world,
                        #[trigger] given[i],
                        wanted[i],
                        both.subst,
                        less,
                    ) by {
                        lemma_agree_extends(
                            world,
                            given[i],
                            wanted[i],
                            params.subst,
                            both.subst,
                            less,
                        );
                    }
                }
            }
        },
        _ => {},
    }
}

proof fn lemma_each_agrees(
    world: World,
    actuals: Seq<Ty>,
    expecteds: Seq<Ty>,
    i: int,
    subst: Map<Seq<char>, Ty>,
    bindable: Option<Set<Seq<char>>>,
    fuel: nat,
)
    requires
        0 <= i,
    ensures
        ({
            let outcome = fit_from(world, actuals, expecteds, i, subst, bindable, fuel);
            &&& extends(outcome.subst, subst)
            &&& outcome.result is Ok ==> forall|k: int|
                i <= k < actuals.len() && k < expecteds.len() ==> agree(
                    world,
                    #[trigger] actuals[k],
                    expecteds[k],
                    outcome.subst,
                    fuel,
                )
        }),
    decreases fuel, 2int, actuals.len() - i,
{
    if i < actuals.len() && i < expecteds.len() {
        let first = fit(world, actuals[i], expecteds[i], subst, bindable, fuel);
        lemma_fit_extends(world, actuals[i], expecteds[i], subst, bindable, fuel);
        lemma_fit_agrees(world, actuals[i], expecteds[i], subst, bindable, fuel);
        if first.result is Ok {
            let outcome = fit_from(
                world,
                actuals,
                expecteds,
                i + 1,
                first.subst,
                bindable,
                fuel,
            );
            lemma_each_agrees(world, actuals, expecteds, i + 1, first.subst, bindable, fuel);
            if outcome.result is Ok {
                lemma_agree_extends(
                    world,
                    actuals[i],
                    expecteds[i],
                    first.subst,
                    outcome.subst,
                    fuel,
                );
            }
        }
    }
}

/// A function fits where another one is expected only if they take as many arguments, and
/// both the arguments and the results agree.
pub proof fn lemma_function_fit(
    world: World,
    params: Seq<Ty>,
    result: Ty,
    others: Seq<Ty>,
    other: Ty,
    subst: Map<Seq<char>, Ty>,
    bindable: Option<Set<Seq<char>>>,
    fuel: nat,
)
    ensures
        ({
            let outcome = fit(
                world,
                Ty::Function(params, Box::new(result)),
                Ty::Function(others, Box::new(other)),
                subst,
                bindable,
                fuel,
            );
            outcome.result is Ok ==> {
                &&& params.len() == others.len()
                &&& agree(world, result, other, outcome.subst, fuel)
                &&& forall|i: int|
                    0 <= i < params.len() ==> agree(
                        world,
                        #[trigger] params[i],
                        others[i],
                        outcome.subst,
                        fuel,
                    )
            }
        }),
{
    let given = Ty::Function(params, Box::new(result));
    let wanted = Ty::Function(others, Box::new(other));
    let outcome = fit(world, given, wanted, subst, bindable, fuel);
    lemma_fit_agrees(world, given, wanted, subst, bindable, fuel);
    if outcome.result is Ok && given != wanted {
        assert(concrete_type(world, given) is Err);
        let less = (fuel - 1) as nat;
        lemma_agree_deeper(world, result, other, outcome.subst, less);
        assert forall|i: int| 0 <= i < params.len() implies agree(
            world,
            #[trigger] params[i],
            others[i],
            outcome.subst,
            fuel,
        ) by {
            lemma_agree_deeper(world, params[i], others[i], outcome.subst, less);
        }
    }
}

proof fn lemma_agree_deeper(
    world: World,
    given: Ty,
    wanted: Ty,
    bound: Map<Seq<char>, Ty>,
    depth: nat,
)
    requires
        agree(world, given, wanted, bound, depth),
    ensures
        agree(world, given, wanted, bound, depth + 1),
    decreases depth, 0int,
{
    if depth > 0 {
        let less = (depth - 1) as nat;
        if wanted is Var && bound.dom().contains(wanted->Var_0) && agree(
            world,
            given,
            bound[wanted->Var_0],
            bound,
            less,
        ) {
            lemma_agree_deeper(world, given, bound[wanted->Var_0], bound, less);
        } else if given is Var && bound.dom().contains(given->Var_0) && agree(
            world,
            bound[given->Var_0],
            wanted,
            bound,
            less,
        ) {
            lemma_agree_deeper(world, bound[given->Var_0], wanted, bound, less);
        } else if given != wanted && !(given is Never) && !(concrete_type(world, given) is Ok
            && concrete_type(world, given) == concrete_type(world, wanted)) {
            match (given, wanted) {
                (Ty::Named(_, args), Ty::Named(_, others)) => {
                    lemma_all_deeper(world, args, others, bound, less);
                },
                (Ty::TypeTag(item), Ty::TypeTag(other)) => {
                    lemma_agree_deeper(world, *item, *other, bound, less);
                },
                (Ty::List(item), Ty::List(other)) => {
                    if !(given is EmptyList) {
                        lemma_agree_deeper(world, *item, *other, bound, less);
                    }
                },
                (Ty::SetOf(item), Ty::SetOf(other)) => {
                    lemma_agree_deeper(world, *item, *other, bound, less);
                },
                (Ty::MapOf(key, value), Ty::MapOf(other_key, other)) => {
                    lemma_agree_deeper(world, *key, *other_key, bound, less);
                    lemma_agree_deeper(world, *value, *other, bound, less);
                },
                (Ty::Product(items), Ty::Product(others)) => {
                    lemma_all_deeper(world, items, others, bound, less);
                },
                (Ty::Function(params, result), Ty::Function(others, other)) => {
                    lemma_all_deeper(world, params, others, bound, less);
                    lemma_agree_deeper(world, *result, *other, bound, less);
                },
                _ => {},
            }
        }
    }
}

proof fn lemma_all_deeper(
    world: World,
    given: Seq<Ty>,
    wanted: Seq<Ty>,
    bound: Map<Seq<char>, Ty>,
    depth: nat,
)
    requires
        given.len() == wanted.len(),
        forall|i: int|
            0 <= i < given.len() ==> agree(world, #[trigger] given[i], wanted[i], bound, depth),
    ensures
        forall|i: int|
            0 <= i < given.len() ==> agree(
                world,
                #[trigger] given[i],
                wanted[i],
                bound,
                depth + 1,
            ),
    decreases depth, 1int,
{
    assert forall|i: int| 0 <= i < given.len() implies agree(
        world,
        #[trigger] given[i],
        wanted[i],
        bound,
        depth + 1,
    ) by {
        lemma_agree_deeper(world, given[i], wanted[i], bound, depth);
    }
}

// ---------------------------------------------------------------------------
// Types without variables
// ---------------------------------------------------------------------------

/// A type without variables, and without the types of what never happens and of the empty
/// list.
pub open spec fn settled_type(ty: Ty) -> bool
    decreases ty,
{
    match ty {
        Ty::Var(_) | Ty::Never | Ty::EmptyList => false,
        Ty::Named(_, args) => forall|i: int|
            0 <= i < args.len() ==> settled_type(#[trigger] args[i]),
        Ty::TypeTag(item) => settled_type(*item),
        Ty::List(item) => settled_type(*item),
        Ty::SetOf(item) => settled_type(*item),
        Ty::MapOf(key, value) => settled_type(*key) && settled_type(*value),
        Ty::Product(items) => forall|i: int|
            0 <= i < items.len() ==> settled_type(#[trigger] items[i]),
        Ty::Function(params, result) => settled_type(*result) && forall|i: int|
            0 <= i < params.len() ==> settled_type(#[trigger] params[i]),
        _ => true,
    }
}

/// Two types that are equal up to the declarations that they resolve to.
pub open spec fn same_type(world: World, left: Ty, right: Ty) -> bool
    decreases left,
{
    ||| left == right
    ||| concrete_type(world, left) is Ok && concrete_type(world, left) == concrete_type(
        world,
        right,
    )
    ||| match (left, right) {
        (Ty::Named(name, args), Ty::Named(other, others)) => {
            &&& name == other
            &&& args.len() == others.len()
            &&& forall|i: int|
                0 <= i < args.len() ==> same_type(world, #[trigger] args[i], others[i])
        },
        (Ty::TypeTag(item), Ty::TypeTag(other)) => same_type(world, *item, *other),
        (Ty::List(item), Ty::List(other)) => same_type(world, *item, *other),
        (Ty::SetOf(item), Ty::SetOf(other)) => same_type(world, *item, *other),
        (Ty::MapOf(key, value), Ty::MapOf(other_key, other)) => same_type(
            world,
            *key,
            *other_key,
        ) && same_type(world, *value, *other),
        (Ty::Product(items), Ty::Product(others)) => {
            &&& items.len() == others.len()
            &&& forall|i: int|
                0 <= i < items.len() ==> same_type(world, #[trigger] items[i], others[i])
        },
        (Ty::Function(params, result), Ty::Function(others, other)) => {
            &&& params.len() == others.len()
            &&& forall|i: int|
                0 <= i < params.len() ==> same_type(world, #[trigger] params[i], others[i])
            &&& same_type(world, *result, *other)
        },
        _ => false,
    }
}

proof fn lemma_agree_same(
    world: World,
    given: Ty,
    wanted: Ty,
    bound: Map<Seq<char>, Ty>,
    depth: nat,
)
    requires
        settled_type(given),
        settled_type(wanted),
        agree(world, given, wanted, bound, depth),
    ensures
        same_type(world, given, wanted),
    decreases depth, 0int,
{
    if given != wanted && !(concrete_type(world, given) is Ok && concrete_type(world, given)
        == concrete_type(world, wanted)) {
        let less = (depth - 1) as nat;
        match (given, wanted) {
            (Ty::Named(_, args), Ty::Named(_, others)) => {
                lemma_all_same(world, args, others, bound, less);
            },
            (Ty::TypeTag(item), Ty::TypeTag(other)) => {
                lemma_agree_same(world, *item, *other, bound, less);
            },
            (Ty::List(item), Ty::List(other)) => {
                lemma_agree_same(world, *item, *other, bound, less);
            },
            (Ty::SetOf(item), Ty::SetOf(other)) => {
                lemma_agree_same(world, *item, *other, bound, less);
            },
            (Ty::MapOf(key, value), Ty::MapOf(other_key, other)) => {
                lemma_agree_same(world, *key, *other_key, bound, less);
                lemma_agree_same(world, *value, *other, bound, less);
            },
            (Ty::Product(items), Ty::Product(others)) => {
                lemma_all_same(world, items, others, bound, less);
            },
            (Ty::Function(params, result), Ty::Function(others, other)) => {
                lemma_all_same(world, params, others, bound, less);
                lemma_agree_same(world, *result, *other, bound, less);
            },
            _ => {},
        }
    }
}

proof fn lemma_all_same(
    world: World,
    given: Seq<Ty>,
    wanted: Seq<Ty>,
    bound: Map<Seq<char>, Ty>,
    depth: nat,
)
    requires
        given.len() == wanted.len(),
        forall|i: int| 0 <= i < given.len() ==> settled_type(#[trigger] given[i]),
        forall|i: int| 0 <= i < wanted.len() ==> settled_type(#[trigger] wanted[i]),
        forall|i: int|
            0 <= i < given.len() ==> agree(world, #[trigger] given[i], wanted[i], bound, depth),
    ensures
        forall|i: int| 0 <= i < given.len() ==> same_type(world, #[trigger] given[i], wanted[i]),
    decreases depth, 1int,
{
    assert forall|i: int| 0 <= i < given.len() implies same_type(
        world,
        #[trigger] given[i],
        wanted[i],
    ) by {
        assert(settled_type(wanted[i]));
        lemma_agree_same(world, given[i], wanted[i], bound, depth);
    }
}

/// Types without variables fit only where they are the same up to their declarations.
pub proof fn lemma_settled_fit(
    world: World,
    actual: Ty,
    expected: Ty,
    subst: Map<Seq<char>, Ty>,
    bindable: Option<Set<Seq<char>>>,
    fuel: nat,
)
    requires
        settled_type(actual),
        settled_type(expected),
        fit(world, actual, expected, subst, bindable, fuel).result is Ok,
    ensures
        same_type(world, actual, expected),
{
    lemma_fit_agrees(world, actual, expected, subst, bindable, fuel);
    lemma_agree_same(
        world,
        actual,
        expected,
        fit(world, actual, expected, subst, bindable, fuel).subst,
        fuel,
    );
}

// ---------------------------------------------------------------------------
// Concrete types
// ---------------------------------------------------------------------------

proof fn lemma_each_concrete(world: World, types: Seq<Ty>, i: int, fuel: nat)
    requires
        0 <= i <= types.len(),
    ensures
        match concrete_from(world, types, i, fuel) {
            Ok(list) => list.len() == types.len() - i && forall|k: int|
                0 <= k < list.len() ==> concrete(world, types[i + k], fuel) == Ok::<
                    Concrete,
                    Failure,
                >(#[trigger] list[k]),
            Err(_) => exists|k: int|
                i <= k < types.len() && concrete(world, #[trigger] types[k], fuel) is Err,
        },
    decreases types.len() - i,
{
    if i < types.len() {
        lemma_each_concrete(world, types, i + 1, fuel);
        if let Ok(first) = concrete(world, types[i], fuel) {
            if let Ok(rest) = concrete_from(world, types, i + 1, fuel) {
                let list = seq![first] + rest;
                assert forall|k: int| 0 <= k < list.len() implies concrete(
                    world,
                    types[i + k],
                    fuel,
                ) == Ok::<Concrete, Failure>(#[trigger] list[k]) by {
                    if k > 0 {
                        assert(list[k] == rest[k - 1]);
                        assert(types[i + 1 + (k - 1)] == types[i + k]);
                    }
                }
            }
        }
    }
}

/// More room for nesting leaves a concrete form as it is.
proof fn lemma_concrete_deeper(world: World, ty: Ty, fuel: nat)
    requires
        concrete(world, ty, fuel) is Ok,
    ensures
        concrete(world, ty, fuel + 1) == concrete(world, ty, fuel),
    decreases fuel, 0int, 0int,
{
    let less = (fuel - 1) as nat;
    match ty {
        Ty::List(item) => {
            lemma_concrete_deeper(world, *item, less);
        },
        Ty::SetOf(item) => {
            lemma_concrete_deeper(world, *item, less);
        },
        Ty::MapOf(key, value) => {
            lemma_concrete_deeper(world, *key, less);
            lemma_concrete_deeper(world, *value, less);
        },
        Ty::Product(items) => {
            lemma_from_deeper(world, items, 0, less);
        },
        Ty::Named(name, arguments) => {
            lemma_from_deeper(world, arguments, 0, less);
            let declaration = decl_of(world, name)->Some_0;
            let subst = zipped(declaration.params, arguments);
            let resolved = concrete_from(world, arguments, 0, less)->Ok_0;
            assert(concrete(world, ty, fuel) == concrete_body(
                world,
                name,
                resolved,
                declaration.body,
                subst,
                less,
            ));
            assert(concrete(world, ty, fuel + 1) == concrete_body(
                world,
                name,
                resolved,
                declaration.body,
                subst,
                fuel,
            ));
            match declaration.body {
                Body::Fields(fields) => {
                    lemma_fields_deeper(world, fields, subst, 0, less);
                },
                Body::TransparentAlias(ty) => {
                    lemma_concrete_deeper(world, substituted(ty, subst), less);
                },
                Body::Alias(ty) => {
                    lemma_concrete_deeper(world, substituted(ty, subst), less);
                },
                Body::Adt(list) => {
                    lemma_payloads_deeper(world, list, subst, 0, less);
                },
                Body::Native => {},
            }
        },
        _ => {},
    }
}

proof fn lemma_from_deeper(world: World, types: Seq<Ty>, i: int, fuel: nat)
    requires
        concrete_from(world, types, i, fuel) is Ok,
    ensures
        concrete_from(world, types, i, fuel + 1) == concrete_from(world, types, i, fuel),
    decreases fuel, 1int, types.len() - i,
{
    if 0 <= i < types.len() {
        lemma_concrete_deeper(world, types[i], fuel);
        lemma_from_deeper(world, types, i + 1, fuel);
    }
}

proof fn lemma_fields_deeper(
    world: World,
    fields: Seq<(Seq<char>, Ty)>,
    subst: Map<Seq<char>, Ty>,
    i: int,
    fuel: nat,
)
    requires
        concrete_fields_from(world, fields, subst, i, fuel) is Ok,
    ensures
        concrete_fields_from(world, fields, subst, i, fuel + 1) == concrete_fields_from(
            world,
            fields,
            subst,
            i,
            fuel,
        ),
    decreases fuel, 1int, fields.len() - i,
{
    if 0 <= i < fields.len() {
        lemma_concrete_deeper(world, substituted(fields[i].1, subst), fuel);
        lemma_fields_deeper(world, fields, subst, i + 1, fuel);
    }
}

proof fn lemma_payloads_deeper(
    world: World,
    list: Seq<Constructor>,
    subst: Map<Seq<char>, Ty>,
    i: int,
    fuel: nat,
)
    requires
        concrete_payloads_from(world, list, subst, i, fuel) is Ok,
    ensures
        concrete_payloads_from(world, list, subst, i, fuel + 1) == concrete_payloads_from(
            world,
            list,
            subst,
            i,
            fuel,
        ),
    decreases fuel, 1int, list.len() - i,
{
    if 0 <= i < list.len() {
        lemma_concrete_deeper(world, substituted(list[i].payload, subst), fuel);
        lemma_payloads_deeper(world, list, subst, i + 1, fuel);
    }
}

/// The concrete form of a type has the form of the type, and consists of the concrete forms
/// of its parts.
pub proof fn lemma_concrete_parts(world: World, ty: Ty)
    requires
        concrete_type(world, ty) is Ok,
    ensures
        match ty {
            Ty::JsonValue => concrete_type(world, ty)->Ok_0 is JsonValue,
            Ty::Unit => concrete_type(world, ty)->Ok_0 is Unit,
            Ty::Bool => concrete_type(world, ty)->Ok_0 is Bool,
            Ty::Int => concrete_type(world, ty)->Ok_0 is Int,
            Ty::Float => concrete_type(world, ty)->Ok_0 is Float,
            Ty::String => concrete_type(world, ty)->Ok_0 is String,
            Ty::List(item) => concrete_type(world, ty)->Ok_0 matches Concrete::List(inner)
                && concrete_type(world, *item) == Ok::<Concrete, Failure>(*inner),
            Ty::SetOf(item) => concrete_type(world, ty)->Ok_0 matches Concrete::SetOf(inner)
                && concrete_type(world, *item) == Ok::<Concrete, Failure>(*inner),
            Ty::MapOf(key, value) => concrete_type(world, ty)->Ok_0 matches Concrete::MapOf(
                inner_key,
                inner,
            ) && concrete_type(world, *key) == Ok::<Concrete, Failure>(*inner_key)
                && concrete_type(world, *value) == Ok::<Concrete, Failure>(*inner),
            Ty::Product(items) => concrete_type(world, ty)->Ok_0 matches Concrete::Product(inner)
                && inner.len() == items.len() && forall|i: int|
                0 <= i < items.len() ==> concrete_type(world, #[trigger] items[i]) == Ok::<
                    Concrete,
                    Failure,
                >(inner[i]),
            Ty::Named(name, args) => decl_of(world, name) is Some && decl_of(
                world,
                name,
            )->Some_0.params.len() == args.len() && forall|i: int|
                0 <= i < args.len() ==> concrete_type(world, #[trigger] args[i]) is Ok,
            _ => false,
        },
{
    let less = (TYPE_DEPTH_LIMIT - 1) as nat;
    match ty {
        Ty::List(item) => {
            lemma_concrete_deeper(world, *item, less);
        },
        Ty::SetOf(item) => {
            lemma_concrete_deeper(world, *item, less);
        },
        Ty::MapOf(key, value) => {
            lemma_concrete_deeper(world, *key, less);
            lemma_concrete_deeper(world, *value, less);
        },
        Ty::Product(items) => {
            lemma_each_concrete(world, items, 0, less);
            let inner = concrete_from(world, items, 0, less)->Ok_0;
            assert forall|i: int| 0 <= i < items.len() implies concrete_type(
                world,
                #[trigger] items[i],
            ) == Ok::<Concrete, Failure>(inner[i]) by {
                assert(items[0 + i] == items[i]);
                assert(concrete(world, items[i], less) == Ok::<Concrete, Failure>(inner[i]));
                lemma_concrete_deeper(world, items[i], less);
            }
        },
        Ty::Named(_, args) => {
            lemma_each_concrete(world, args, 0, less);
            let inner = concrete_from(world, args, 0, less)->Ok_0;
            assert forall|i: int| 0 <= i < args.len() implies concrete_type(
                world,
                #[trigger] args[i],
            ) is Ok by {
                assert(args[0 + i] == args[i]);
                assert(concrete(world, args[i], less) == Ok::<Concrete, Failure>(inner[i]));
                lemma_concrete_deeper(world, args[i], less);
            }
        },
        _ => {},
    }
}

/// A type that resolves to a concrete one has no variables.
pub proof fn lemma_concrete_closed(world: World, ty: Ty, fuel: nat)
    requires
        concrete(world, ty, fuel) is Ok,
    ensures
        vars(ty) == Set::<Seq<char>>::empty(),
    decreases fuel, 0int, 0int,
{
    let less = (fuel - 1) as nat;
    match ty {
        Ty::List(item) => {
            lemma_concrete_closed(world, *item, less);
        },
        Ty::SetOf(item) => {
            lemma_concrete_closed(world, *item, less);
        },
        Ty::MapOf(key, value) => {
            lemma_concrete_closed(world, *key, less);
            lemma_concrete_closed(world, *value, less);
        },
        Ty::Product(items) => {
            lemma_from_closed(world, items, 0, less);
        },
        Ty::Named(_, arguments) => {
            lemma_from_closed(world, arguments, 0, less);
        },
        _ => {},
    }
    assert(vars(ty) =~= Set::<Seq<char>>::empty());
}

proof fn lemma_from_closed(world: World, types: Seq<Ty>, i: int, fuel: nat)
    requires
        concrete_from(world, types, i, fuel) is Ok,
    ensures
        vars_from(types, i) == Set::<Seq<char>>::empty(),
    decreases fuel, 1int, types.len() - i,
{
    if 0 <= i < types.len() {
        lemma_concrete_closed(world, types[i], fuel);
        lemma_from_closed(world, types, i + 1, fuel);
    }
    assert(vars_from(types, i) =~= Set::<Seq<char>>::empty());
}

// ---------------------------------------------------------------------------
// Instances
// ---------------------------------------------------------------------------

/// A type that is nested no deeper than a number of levels.
pub open spec fn within(ty: Ty, depth: nat) -> bool
    decreases ty,
{
    match ty {
        Ty::Var(_) => depth > 0,
        Ty::Named(_, args) => depth > 0 && forall|i: int|
            0 <= i < args.len() ==> within(#[trigger] args[i], (depth - 1) as nat),
        Ty::TypeTag(item) => depth > 0 && within(*item, (depth - 1) as nat),
        Ty::List(item) => depth > 0 && within(*item, (depth - 1) as nat),
        Ty::SetOf(item) => depth > 0 && within(*item, (depth - 1) as nat),
        Ty::MapOf(key, value) => depth > 0 && within(*key, (depth - 1) as nat) && within(
            *value,
            (depth - 1) as nat,
        ),
        Ty::Product(items) => depth > 0 && forall|i: int|
            0 <= i < items.len() ==> within(#[trigger] items[i], (depth - 1) as nat),
        Ty::Function(params, result) => depth > 0 && within(*result, (depth - 1) as nat) && forall|
            i: int,
        |
            0 <= i < params.len() ==> within(#[trigger] params[i], (depth - 1) as nat),
        _ => true,
    }
}

/// Those of some variables that a substitution replaces may be bound.
pub open spec fn may_learn(
    variables: Set<Seq<char>>,
    instance: Map<Seq<char>, Ty>,
    bindable: Option<Set<Seq<char>>>,
) -> bool {
    forall|name: Seq<char>| #[trigger]
        variables.contains(name) ==> instance.dom().contains(name) ==> (bindable matches Some(
            names,
        ) ==> names.contains(name))
}

/// What is said of a fit of an instance: it succeeds, and what it learns is what the instance
/// was made with.
pub open spec fn learns(outcome: Fit, instance: Map<Seq<char>, Ty>) -> bool {
    outcome.result is Ok && extends(instance, outcome.subst)
}

/// Every instance of a type fits it, and nothing is learnt but what the instance was made
/// with.
pub proof fn lemma_instance_fits(
    world: World,
    ty: Ty,
    instance: Map<Seq<char>, Ty>,
    subst: Map<Seq<char>, Ty>,
    bindable: Option<Set<Seq<char>>>,
    fuel: nat,
)
    requires
        extends(instance, subst),
        may_learn(vars(ty), instance, bindable),
        within(ty, fuel),
    ensures
        learns(fit(world, substituted(ty, instance), ty, subst, bindable, fuel), instance),
    decreases fuel, 1int, 0int,
{
    let given = substituted(ty, instance);
    if given != ty {
        if concrete_type(world, ty) is Ok {
            lemma_concrete_closed(world, ty, TYPE_DEPTH_LIMIT as nat);
            lemma_substituted_absent(ty, instance);
        }
        if let Ty::Var(name) = ty {
            assert(vars(ty).contains(name));
            assert(expected_binds(bindable, name));
            if subst.dom().contains(name) {
                assert(subst[name] == given);
                lemma_fit_reflexive(world, given, subst, bindable, (fuel - 1) as nat);
            } else {
                let outcome = fit(world, given, ty, subst, bindable, fuel);
                assert(outcome == fits(subst.insert(name, given)));
                assert(extends(instance, outcome.subst));
            }
        } else {
            assert(!(given is Var) && !(given is Never) && !(given is EmptyList));
            lemma_parts_of_instance_fit(world, ty, instance, subst, bindable, fuel);
            assert(fit(world, given, ty, subst, bindable, fuel) == fit_parts(
                world,
                given,
                ty,
                subst,
                bindable,
                fuel,
            ));
        }
    }
}

proof fn lemma_parts_of_instance_fit(
    world: World,
    ty: Ty,
    instance: Map<Seq<char>, Ty>,
    subst: Map<Seq<char>, Ty>,
    bindable: Option<Set<Seq<char>>>,
    fuel: nat,
)
    requires
        extends(instance, subst),
        may_learn(vars(ty), instance, bindable),
        within(ty, fuel),
        !(ty is Var),
        substituted(ty, instance) != ty,
    ensures
        learns(fit_parts(world, substituted(ty, instance), ty, subst, bindable, fuel), instance),
    decreases fuel, 0int, 0int,
{
    let less = (fuel - 1) as nat;
    match ty {
        Ty::Named(_, args) => {
            assert(substituted_all(args, instance).len() == args.len());
            lemma_instances_fit(world, args, instance, 0, subst, bindable, less);
        },
        Ty::TypeTag(item) => {
            lemma_instance_fits(world, *item, instance, subst, bindable, less);
        },
        Ty::List(item) => {
            lemma_instance_fits(world, *item, instance, subst, bindable, less);
        },
        Ty::SetOf(item) => {
            lemma_instance_fits(world, *item, instance, subst, bindable, less);
        },
        Ty::MapOf(key, value) => {
            assert(vars(ty) == vars(*key).union(vars(*value)));
            assert forall|name: Seq<char>| #[trigger]
                vars(*key).contains(name) implies vars(ty).contains(name) by {}
            assert forall|name: Seq<char>| #[trigger]
                vars(*value).contains(name) implies vars(ty).contains(name) by {}
            lemma_instance_fits(world, *key, instance, subst, bindable, less);
            let keys = fit(
                world,
                substituted(*key, instance),
                *key,
                subst,
                bindable,
                less,
            );
            lemma_instance_fits(world, *value, instance, keys.subst, bindable, less);
        },
        Ty::Product(items) => {
            assert(substituted_all(items, instance).len() == items.len());
            lemma_instances_fit(world, items, instance, 0, subst, bindable, less);
        },
        Ty::Function(params, result) => {
            assert(substituted_all(params, instance).len() == params.len());
            assert(vars(ty) == vars_from(params, 0).union(vars(*result)));
            assert forall|name: Seq<char>| #[trigger]
                vars(*result).contains(name) implies vars(ty).contains(name) by {}
            assert forall|name: Seq<char>| #[trigger]
                vars_from(params, 0).contains(name) implies vars(ty).contains(name) by {}
            lemma_instances_fit(world, params, instance, 0, subst, bindable, less);
            let all = fit_from(
                world,
                substituted_all(params, instance),
                params,
                0,
                subst,
                bindable,
                less,
            );
            lemma_instance_fits(world, *result, instance, all.subst, bindable, less);
        },
        _ => {},
    }
}

proof fn lemma_instances_fit(
    world: World,
    types: Seq<Ty>,
    instance: Map<Seq<char>, Ty>,
    i: int,
    subst: Map<Seq<char>, Ty>,
    bindable: Option<Set<Seq<char>>>,
    fuel: nat,
)
    requires
        0 <= i,
        extends(instance, subst),
        may_learn(vars_from(types, i), instance, bindable),
        forall|k: int| 0 <= k < types.len() ==> within(#[trigger] types[k], fuel),
    ensures
        learns(
            fit_from(
                world,
                substituted_all(types, instance),
                types,
                i,
                subst,
                bindable,
                fuel,
            ),
            instance,
        ),
    decreases fuel, 2int, types.len() - i,
{
    if i < types.len() {
        assert(vars_from(types, i) == vars(types[i]).union(vars_from(types, i + 1)));
        assert forall|name: Seq<char>| #[trigger]
            vars(types[i]).contains(name) implies vars_from(types, i).contains(name) by {}
        assert forall|name: Seq<char>| #[trigger]
            vars_from(types, i + 1).contains(name) implies vars_from(types, i).contains(
            name,
        ) by {}
        lemma_instance_fits(world, types[i], instance, subst, bindable, fuel);
        let first = fit(
            world,
            substituted(types[i], instance),
            types[i],
            subst,
            bindable,
            fuel,
        );
        lemma_instances_fit(world, types, instance, i + 1, first.subst, bindable, fuel);
    }
}

/// What never happens fits wherever no variable is expected, and the empty list wherever a
/// list is.
pub proof fn lemma_empty_fits(
    world: World,
    expected: Ty,
    item: Ty,
    subst: Map<Seq<char>, Ty>,
    bindable: Option<Set<Seq<char>>>,
    fuel: nat,
)
    requires
        fuel > 0,
        !(expected is Var),
    ensures
        fit(world, Ty::Never, expected, subst, bindable, fuel) == (Fit { subst, result: Ok(()) }),
        fit(world, Ty::EmptyList, Ty::List(Box::new(item)), subst, bindable, fuel) == (Fit {
            subst,
            result: Ok(()),
        }),
{
}

/// A variable that may be bound takes the first type that it meets.
pub proof fn lemma_variable_takes(
    world: World,
    actual: Ty,
    name: Seq<char>,
    subst: Map<Seq<char>, Ty>,
    bindable: Option<Set<Seq<char>>>,
    fuel: nat,
)
    requires
        fuel > 0,
        actual != Ty::Var(name),
        !subst.dom().contains(name),
        bindable matches Some(names) ==> names.contains(name),
    ensures
        fit(world, actual, Ty::Var(name), subst, bindable, fuel) == (Fit {
            subst: subst.insert(name, actual),
            result: Ok(()),
        }),
{
}

/// A variable that may not be bound takes nothing but itself.
pub proof fn lemma_variable_refuses(
    world: World,
    actual: Ty,
    name: Seq<char>,
    subst: Map<Seq<char>, Ty>,
    names: Set<Seq<char>>,
    fuel: nat,
)
    requires
        !names.contains(name),
        actual != Ty::Var(name),
        actual matches Ty::Var(other) ==> !names.contains(other),
    ensures
        fit(world, actual, Ty::Var(name), subst, Some(names), fuel).result is Err,
{
}

} // verus!
