//! What it takes for an expression to pass checking.

use crate::authored::{Arm, Lambda, Term, TypeTerm};
use crate::block::{introduced, next_id};
use crate::calls::{argument_types, call_checked, fit_all, fit_argument, fit_pass};
use crate::check::{
    arm_expected, arm_joined, attempted_instance, block_type, bound_params, compiled,
    compiled_args, compiled_arms, compiled_block, compiled_elements, compiled_function,
    compiled_members, compiled_raw, compiled_record, compiled_slots, empty_slots, named_before,
};
use crate::checked::{BindingId, Typed, TypedArm, TypedKind, TypedParam};
use crate::compat::{
    constructors_of, exhaustion, field_at, fit_binding, fit_static, lemma_exhaustive,
    record_fields,
};
use crate::compile::{
    Matched, Slots, collected, completed, concrete_calls, overload_result, statically,
};
use crate::declare::{Constructor, ConstructorId};
use crate::env::{World, gathering};
use crate::error::Failure;
use crate::fitting::{
    agree, lemma_agree_extends, lemma_fit_agrees, lemma_settled_fit, same_type, settled_type,
};
use crate::infer::{arm_constructor, written_type};
use crate::overload::{Hole, Instance, Rejection};
use crate::resolve::{TYPE_DEPTH_LIMIT, resolved};
use crate::scope::{Candidate, binder_candidate, type_vars_in};
use crate::types::{Ty, internal_vars, open_type, substituted};
use crate::typing::{extends, lemma_fit_extends};
use crate::value::{FnVal, Val, type_of};
use vstd::prelude::*;

verus! {

/// A type agrees with another one for some choice of what variables stand for.
pub open spec fn suits(world: World, given: Ty, wanted: Ty) -> bool {
    exists|bound: Map<Seq<char>, Ty>| #[trigger]
        agree(world, given, wanted, bound, TYPE_DEPTH_LIMIT as nat)
}

/// A type that is taken where another one is expected suits it; types without variables are
/// the same up to their declarations.
pub proof fn lemma_statically_suits(world: World, actual: Ty, expected: Ty)
    ensures
        statically(world, actual, expected) is Ok ==> suits(world, actual, expected),
        statically(world, actual, expected) is Ok && settled_type(actual) && settled_type(expected)
            ==> same_type(world, actual, expected),
        actual == expected ==> statically(world, actual, expected) is Ok,
{
    let bindable = Some(internal_vars(actual).union(internal_vars(expected)));
    let limit = TYPE_DEPTH_LIMIT as nat;
    let outcome = fit_static(world, actual, expected, Map::empty());
    lemma_fit_agrees(world, actual, expected, Map::empty(), bindable, limit);
    if outcome.result is Ok {
        assert(agree(world, actual, expected, outcome.subst, limit));
        if settled_type(actual) && settled_type(expected) {
            lemma_settled_fit(world, actual, expected, Map::empty(), bindable, limit);
        }
    }
}

/// An expression that passes where a type is expected has a type that suits it. Where neither
/// type has variables, both are the same up to their declarations.
pub proof fn lemma_checked_suits(
    world: World,
    scopes: Seq<Candidate>,
    term: Term,
    expected: Ty,
)
    ensures
        compiled(world, scopes, term, Some(expected)).result matches Ok(value) ==> {
            let after = compiled_raw(world, scopes, term, Some(expected)).world;
            &&& suits(after, value.ty, expected)
            &&& settled_type(value.ty) && settled_type(expected) ==> same_type(
                after,
                value.ty,
                expected,
            )
        },
{
    let raw = compiled_raw(world, scopes, term, Some(expected));
    if let Ok(value) = raw.result {
        lemma_statically_suits(raw.world, value.ty, expected);
    }
}

/// Literals have the types of their kinds and stay as they are.
pub proof fn lemma_literals_checked(world: World, scopes: Seq<Candidate>, expected: Option<Ty>)
    ensures
        forall|value: int| #[trigger]
            compiled_raw(world, scopes, Term::Int(value), expected).result == Ok::<Typed, Failure>(
                Typed { ty: Ty::Int, kind: TypedKind::Int(value) },
            ),
        forall|value: bool| #[trigger]
            compiled_raw(world, scopes, Term::Bool(value), expected).result == Ok::<
                Typed,
                Failure,
            >(Typed { ty: Ty::Bool, kind: TypedKind::Bool(value) }),
        forall|text: Seq<char>| #[trigger]
            compiled_raw(world, scopes, Term::Str(text), expected).result == Ok::<Typed, Failure>(
                Typed { ty: Ty::String, kind: TypedKind::Str(text) },
            ),
        compiled_raw(world, scopes, Term::Unit, expected).result == Ok::<Typed, Failure>(
            Typed { ty: Ty::Unit, kind: TypedKind::Unit },
        ),
{
}

/// A conditional that passes tests a truth value, keeps its parts in their places, and has
/// branches whose types suit one another, or one that never returns. Its type is that of a
/// branch that does.
pub proof fn lemma_conditional_checked(
    world: World,
    scopes: Seq<Candidate>,
    condition: Term,
    first: Term,
    second: Term,
    expected: Option<Ty>,
)
    ensures
        ({
            let whole = compiled_raw(
                world,
                scopes,
                Term::If(Box::new(condition), Box::new(first), Box::new(second)),
                expected,
            );
            let test = compiled(world, scopes, condition, Some(Ty::Bool));
            let left = compiled(test.world, scopes, first, expected);
            let right = compiled(left.world, scopes, second, expected);
            whole.result matches Ok(value) ==> {
                &&& test.result is Ok && left.result is Ok && right.result is Ok
                &&& value.kind == TypedKind::If(
                    Box::new(test.result->Ok_0),
                    Box::new(left.result->Ok_0),
                    Box::new(right.result->Ok_0),
                )
                &&& left.result->Ok_0.ty is Never ==> value.ty == right.result->Ok_0.ty
                &&& !(left.result->Ok_0.ty is Never) && right.result->Ok_0.ty is Never
                    ==> value.ty == left.result->Ok_0.ty
                &&& !(left.result->Ok_0.ty is Never) && !(right.result->Ok_0.ty is Never)
                    ==> value.ty == right.result->Ok_0.ty && suits(
                    whole.world,
                    left.result->Ok_0.ty,
                    right.result->Ok_0.ty,
                )
            }
        }),
{
    let test = compiled(world, scopes, condition, Some(Ty::Bool));
    if test.result is Ok {
        let left = compiled(test.world, scopes, first, expected);
        if left.result is Ok {
            let right = compiled(left.world, scopes, second, expected);
            if right.result is Ok {
                lemma_statically_suits(
                    right.world,
                    left.result->Ok_0.ty,
                    right.result->Ok_0.ty,
                );
            }
        }
    }
}

/// A value that passes an annotation has the type that was written, and the type that it had
/// by itself suits that one.
pub proof fn lemma_annotation_checked(
    world: World,
    scopes: Seq<Candidate>,
    target: TypeTerm,
    value: Term,
)
    requires
        !(value is Construct) && !(value is Fields) && !(value is Vector),
    ensures
        compiled_raw(
            world,
            scopes,
            Term::Annotate(target, Box::new(value)),
            None,
        ).result matches Ok(whole) ==> {
            let ty = resolved(world, target, type_vars_in(scopes));
            let inner = compiled(world, scopes, value, Some(ty->Ok_0));
            &&& ty is Ok
            &&& inner.result is Ok
            &&& whole.ty == ty->Ok_0
            &&& whole.kind == TypedKind::Ascribe(ty->Ok_0, Box::new(inner.result->Ok_0))
            &&& suits(inner.world, inner.result->Ok_0.ty, whole.ty)
        },
{
    if let Ok(ty) = resolved(world, target, type_vars_in(scopes)) {
        let inner = compiled(world, scopes, value, Some(ty));
        if let Ok(typed) = inner.result {
            lemma_statically_suits(inner.world, typed.ty, ty);
        }
    }
}

// ---------------------------------------------------------------------------
// Matches
// ---------------------------------------------------------------------------

#[verifier::rlimit(30)]
proof fn lemma_arms_checked(
    world: World,
    scopes: Seq<Candidate>,
    value: Typed,
    list: Seq<Constructor>,
    arms: Seq<Arm>,
    i: int,
    seen: Seq<ConstructorId>,
    current: Option<Ty>,
    values: Seq<TypedArm>,
)
    requires
        0 <= i <= arms.len(),
        seen.len() == values.len() == i,
        seen.no_duplicates(),
        forall|k: int| 0 <= k < i ==> (#[trigger] values[k]).constructor == seen[k],
        forall|k: int| 0 <= k < i ==> (#[trigger] values[k]).binding.name == arms[k].binding,
    ensures
        compiled_arms(
            world,
            scopes,
            value,
            list,
            arms,
            i,
            seen,
            current,
            values,
        ).result matches Ok(whole) ==> (whole.kind matches TypedKind::Match(subject, made) && {
            &&& *subject == value
            &&& made.len() == arms.len()
            &&& forall|k: int|
                0 <= k < made.len() ==> (#[trigger] made[k]).binding.name == arms[k].binding
            &&& forall|j: int, k: int|
                0 <= j < k < made.len() ==> (#[trigger] made[j]).constructor != (
                #[trigger] made[k]).constructor
            &&& forall|n: int| 0 <= n < list.len() ==> has_arm(made, (#[trigger] list[n]).id)
        }),
    decreases arms.len() - i,
{
    if i >= arms.len() {
        lemma_exhaustive(list, seen);
        assert forall|j: int, k: int| 0 <= j < k < values.len() implies (
        #[trigger] values[j]).constructor != (#[trigger] values[k]).constructor by {
            assert(seen[j] != seen[k]);
        }
        if exhaustion(list, seen) is Ok {
            assert forall|n: int| 0 <= n < list.len() implies has_arm(
                values,
                (#[trigger] list[n]).id,
            ) by {
                assert(seen.contains(list[n].id));
                let k = choose|k: int| 0 <= k < seen.len() && seen[k] == list[n].id;
                assert(values[k].constructor == list[n].id);
            }
        }
    } else if let Ok(constructor) = arm_constructor(
        world,
        type_vars_in(scopes),
        value.ty,
        arms[i].pattern,
    ) {
        if !seen.contains(constructor.id) {
            let inner = introduced(world, scopes, arms[i].binding, constructor.payload);
            if let Ok(around) = inner.result {
                let body = compiled(inner.world, around, arms[i].body, arm_expected(current));
                if let Ok(typed) = body.result {
                    if let Ok(next) = arm_joined(body.world, current, typed.ty) {
                        let arm = TypedArm {
                            constructor: constructor.id,
                            binding: TypedParam {
                                id: next_id(world),
                                name: arms[i].binding,
                                ty: constructor.payload,
                            },
                            body: Box::new(typed),
                        };
                        let more = seen.push(constructor.id);
                        assert(more.no_duplicates());
                        lemma_arms_checked(
                            body.world,
                            scopes,
                            value,
                            list,
                            arms,
                            i + 1,
                            more,
                            Some(next),
                            values.push(arm),
                        );
                    }
                }
            }
        }
    }
}

/// Some arm is for a constructor.
pub open spec fn has_arm(arms: Seq<TypedArm>, id: ConstructorId) -> bool {
    exists|k: int| 0 <= k < arms.len() && (#[trigger] arms[k]).constructor == id
}

/// A match that passes has an arm for every constructor of the type that it matches on, and
/// no two arms for one. The arms keep their order and the names that they bind.
pub proof fn lemma_match_checked(
    world: World,
    scopes: Seq<Candidate>,
    subject: Term,
    arms: Seq<Arm>,
    expected: Option<Ty>,
)
    ensures
        compiled_raw(
            world,
            scopes,
            Term::Match(Box::new(subject), arms),
            expected,
        ).result matches Ok(whole) ==> {
            let asked = compiled(world, scopes, subject, None);
            &&& asked.result is Ok
            &&& constructors_of(asked.world, asked.result->Ok_0.ty) is Ok
            &&& whole.kind matches TypedKind::Match(value, made) && {
                &&& *value == asked.result->Ok_0
                &&& made.len() == arms.len()
                &&& forall|k: int|
                    0 <= k < made.len() ==> (#[trigger] made[k]).binding.name == arms[k].binding
                &&& forall|j: int, k: int|
                    0 <= j < k < made.len() ==> (#[trigger] made[j]).constructor != (
                    #[trigger] made[k]).constructor
                &&& forall|n: int|
                    0 <= n < constructors_of(asked.world, value.ty)->Ok_0.len() ==> has_arm(
                        made,
                        (#[trigger] constructors_of(asked.world, value.ty)->Ok_0[n]).id,
                    )
            }
        },
{
    let asked = compiled(world, scopes, subject, None);
    if let Ok(value) = asked.result {
        if let Ok(list) = constructors_of(asked.world, value.ty) {
            lemma_arms_checked(
                asked.world,
                scopes,
                value,
                list,
                arms,
                0,
                Seq::empty(),
                expected,
                Seq::empty(),
            );
        }
    }
}

// ---------------------------------------------------------------------------
// Calls
// ---------------------------------------------------------------------------

/// An argument suits a parameter, where some of the variables of the parameter stand for what
/// was learnt before.
pub open spec fn argument_suits(
    world: World,
    actual: Ty,
    param: Ty,
    learnt: Map<Seq<char>, Ty>,
) -> bool {
    exists|earlier: Map<Seq<char>, Ty>|
        extends(learnt, earlier) && #[trigger] agree(
            world,
            actual,
            substituted(param, earlier),
            learnt,
            TYPE_DEPTH_LIMIT as nat,
        )
}

proof fn lemma_argument_later(
    world: World,
    actual: Ty,
    param: Ty,
    learnt: Map<Seq<char>, Ty>,
    later: Map<Seq<char>, Ty>,
)
    requires
        argument_suits(world, actual, param, learnt),
        extends(later, learnt),
    ensures
        argument_suits(world, actual, param, later),
{
    let limit = TYPE_DEPTH_LIMIT as nat;
    let earlier = choose|earlier: Map<Seq<char>, Ty>|
        extends(learnt, earlier) && #[trigger] agree(
            world,
            actual,
            substituted(param, earlier),
            learnt,
            limit,
        );
    lemma_agree_extends(world, actual, substituted(param, earlier), learnt, later, limit);
    assert(extends(later, earlier));
}

proof fn lemma_argument_fits(
    world: World,
    actual: Ty,
    param: Ty,
    subst: Map<Seq<char>, Ty>,
    bindable: Option<Set<Seq<char>>>,
)
    ensures
        ({
            let outcome = fit_argument(
                world,
                actual,
                substituted(param, subst),
                subst,
                bindable,
            );
            &&& extends(outcome.subst, subst)
            &&& outcome.result is Ok ==> argument_suits(world, actual, param, outcome.subst)
        }),
{
    let wanted = substituted(param, subst);
    let limit = TYPE_DEPTH_LIMIT as nat;
    let names = match bindable {
        None => None,
        Some(names) => Some(names.union(internal_vars(actual)).union(internal_vars(wanted))),
    };
    lemma_fit_extends(world, actual, wanted, subst, names, limit);
    lemma_fit_agrees(world, actual, wanted, subst, names, limit);
}

proof fn lemma_pass_fits(
    world: World,
    actuals: Seq<Ty>,
    params: Seq<Ty>,
    open: bool,
    i: int,
    subst: Map<Seq<char>, Ty>,
    bindable: Option<Set<Seq<char>>>,
)
    requires
        0 <= i,
    ensures
        ({
            let outcome = fit_pass(world, actuals, params, open, i, subst, bindable);
            &&& extends(outcome.subst, subst)
            &&& outcome.result is Ok ==> forall|k: int|
                i <= k < params.len() && open_type(params[k]) == open ==> argument_suits(
                    world,
                    actuals[k],
                    #[trigger] params[k],
                    outcome.subst,
                )
        }),
    decreases params.len() - i,
{
    if i < params.len() {
        if open_type(params[i]) != open {
            lemma_pass_fits(world, actuals, params, open, i + 1, subst, bindable);
        } else {
            let first = fit_argument(
                world,
                actuals[i],
                substituted(params[i], subst),
                subst,
                bindable,
            );
            lemma_argument_fits(world, actuals[i], params[i], subst, bindable);
            if first.result is Ok {
                let outcome = fit_pass(
                    world,
                    actuals,
                    params,
                    open,
                    i + 1,
                    first.subst,
                    bindable,
                );
                lemma_pass_fits(world, actuals, params, open, i + 1, first.subst, bindable);
                lemma_argument_later(
                    world,
                    actuals[i],
                    params[i],
                    first.subst,
                    outcome.subst,
                );
            }
        }
    }
}

/// Arguments that fit the parameters of a call all suit them, with what the fit tells of the
/// variables.
pub proof fn lemma_arguments_suit(
    world: World,
    actuals: Seq<Ty>,
    params: Seq<Ty>,
    subst: Map<Seq<char>, Ty>,
    bindable: Option<Set<Seq<char>>>,
)
    ensures
        ({
            let outcome = fit_all(world, actuals, params, subst, bindable);
            &&& extends(outcome.subst, subst)
            &&& outcome.result is Ok ==> forall|k: int|
                0 <= k < params.len() ==> argument_suits(
                    world,
                    actuals[k],
                    #[trigger] params[k],
                    outcome.subst,
                )
        }),
{
    let first = fit_pass(world, actuals, params, false, 0, subst, bindable);
    lemma_pass_fits(world, actuals, params, false, 0, subst, bindable);
    if first.result is Ok {
        let outcome = fit_pass(world, actuals, params, true, 0, first.subst, bindable);
        lemma_pass_fits(world, actuals, params, true, 0, first.subst, bindable);
        assert forall|k: int| 0 <= k < params.len() && outcome.result is Ok implies argument_suits(
            world,
            actuals[k],
            #[trigger] params[k],
            outcome.subst,
        ) by {
            if !open_type(params[k]) {
                lemma_argument_later(
                    world,
                    actuals[k],
                    params[k],
                    first.subst,
                    outcome.subst,
                );
            }
        }
    }
}

proof fn lemma_types_of_arguments(args: Seq<Val>, i: int)
    requires
        0 <= i <= args.len(),
    ensures
        argument_types(args, i) matches Ok(types) ==> types.len() == args.len() - i && forall|
            k: int,
        |
            0 <= k < types.len() ==> type_of(args[i + k]) == Some(#[trigger] types[k]),
    decreases args.len() - i,
{
    if i < args.len() {
        lemma_types_of_arguments(args, i + 1);
        if let Ok(types) = argument_types(args, i) {
            let rest = argument_types(args, i + 1)->Ok_0;
            assert forall|k: int| 0 <= k < types.len() implies type_of(args[i + k]) == Some(
                #[trigger] types[k],
            ) by {
                if k > 0 {
                    assert(types[k] == rest[k - 1]);
                    assert(args[i + 1 + (k - 1)] == args[i + k]);
                }
            }
        }
    }
}

/// A call of a function on values passes only where there are as many values as parameters
/// and their types suit those of the parameters. What it returns has the declared type, with
/// the variables replaced by what was learnt from the arguments.
pub proof fn lemma_call_checked(world: World, function: FnVal, args: Seq<Val>)
    ensures
        call_checked(world, function, args).result matches Ok((ty, learnt)) ==> {
            &&& args.len() == function.param_types.len()
            &&& ty == substituted(function.return_type, learnt)
            &&& forall|k: int|
                0 <= k < args.len() ==> type_of(#[trigger] args[k]) is Some && argument_suits(
                    world,
                    type_of(args[k])->Some_0,
                    function.param_types[k],
                    learnt,
                )
        },
{
    lemma_types_of_arguments(args, 0);
    if let Ok(actuals) = argument_types(args, 0) {
        lemma_arguments_suit(world, actuals, function.param_types, Map::empty(), None);
        assert forall|k: int| 0 <= k < args.len() implies type_of(#[trigger] args[k]) == Some(
            actuals[k],
        ) by {
            assert(args[0 + k] == args[k]);
            assert(type_of(args[0 + k]) == Some(actuals[k]));
        }
        if function.param_types.len() == args.len() {
            let outcome = fit_all(world, actuals, function.param_types, Map::empty(), None);
            if outcome.result is Ok {
                assert forall|k: int| 0 <= k < args.len() implies argument_suits(
                    world,
                    type_of(#[trigger] args[k])->Some_0,
                    function.param_types[k],
                    outcome.subst,
                ) by {
                    assert(argument_suits(
                        world,
                        actuals[k],
                        function.param_types[k],
                        outcome.subst,
                    ));
                }
            }
        }
    }
}

// ---------------------------------------------------------------------------
// Overloads
// ---------------------------------------------------------------------------

proof fn lemma_concrete_counted(found: Seq<Matched>, n: int)
    requires
        0 <= n <= found.len(),
    ensures
        forall|m: int|
            0 <= m < concrete_calls(found, n).len() ==> exists|k: int|
                0 <= k < n && #[trigger] found[k] == #[trigger] concrete_calls(found, n)[m]
                    && found[k].candidate.binders.len() == 0,
        forall|k: int|
            0 <= k < n && (#[trigger] found[k]).candidate.binders.len() == 0 ==> concrete_calls(
                found,
                n,
            ).len() > 0,
        forall|j: int, k: int|
            0 <= j < k < n && (#[trigger] found[j]).candidate.binders.len() == 0 && (
            #[trigger] found[k]).candidate.binders.len() == 0 ==> concrete_calls(found, n).len()
                > 1,
        concrete_calls(found, n).len() > 1 ==> exists|j: int, k: int|
            0 <= j < k < n && (#[trigger] found[j]).candidate.binders.len() == 0 && (
            #[trigger] found[k]).candidate.binders.len() == 0,
    decreases n,
{
    if n > 0 {
        lemma_concrete_counted(found, n - 1);
        let before = concrete_calls(found, n - 1);
        let after = concrete_calls(found, n);
        assert forall|m: int| 0 <= m < after.len() implies exists|k: int|
            0 <= k < n && #[trigger] found[k] == #[trigger] after[m]
                && found[k].candidate.binders.len() == 0 by {
            if m < before.len() {
                assert(after[m] == before[m]);
                let k = choose|k: int|
                    0 <= k < n - 1 && #[trigger] found[k] == before[m]
                        && found[k].candidate.binders.len() == 0;
                assert(found[k] == after[m]);
            } else {
                assert(found[n - 1] == after[m]);
            }
        }
        if after.len() > 1 && before.len() <= 1 {
            assert(before.len() == 1);
            let k = choose|k: int|
                0 <= k < n - 1 && #[trigger] found[k] == before[0]
                    && found[k].candidate.binders.len() == 0;
            assert(found[n - 1].candidate.binders.len() == 0);
        }
    }
}

/// The call that a match stands for.
pub open spec fn call_of_match(found: Matched) -> Typed {
    Typed {
        ty: found.output,
        kind: TypedKind::Call(
            Box::new(
                Typed { ty: found.callee, kind: TypedKind::BindingRef(found.candidate.id) },
            ),
            found.args,
            found.bindings,
        ),
    }
}

/// A call comes to the candidate that matches, where there is only one, and otherwise to the
/// only one among those that match that has no type parameters. Where none matches, or more
/// than one is left, it fails.
pub proof fn lemma_overload_chosen(
    name: Seq<char>,
    found: Seq<Matched>,
    refused: Seq<Rejection>,
    n: int,
)
    ensures
        found.len() == 0 ==> overload_result(name, found, refused) is Err,
        found.len() == 1 ==> overload_result(name, found, refused) == Ok::<Typed, Failure>(
            call_of_match(found[0]),
        ),
        found.len() > 1 && 0 <= n < found.len() && found[n].candidate.binders.len() == 0 && (
        forall|k: int|
            0 <= k < found.len() && k != n ==> (#[trigger] found[k]).candidate.binders.len() > 0)
            ==> overload_result(name, found, refused) == Ok::<Typed, Failure>(
            call_of_match(found[n]),
        ),
        found.len() > 1 && (forall|k: int|
            0 <= k < found.len() ==> (#[trigger] found[k]).candidate.binders.len() > 0)
            ==> overload_result(name, found, refused) is Err,
        (exists|j: int, k: int|
            0 <= j < k < found.len() && (#[trigger] found[j]).candidate.binders.len() == 0 && (
            #[trigger] found[k]).candidate.binders.len() == 0) ==> overload_result(
            name,
            found,
            refused,
        ) is Err,
{
    lemma_concrete_counted(found, found.len() as int);
    let concrete = concrete_calls(found, found.len() as int);
    if concrete.len() == 1 {
        assert(concrete[0] == concrete[0]);
        let k = choose|k: int|
            0 <= k < found.len() && #[trigger] found[k] == concrete[0]
                && found[k].candidate.binders.len() == 0;
        assert(found[k] == concrete[0]);
    }
}

// ---------------------------------------------------------------------------
// Arguments of calls
// ---------------------------------------------------------------------------

/// A value is what an argument comes to where its parameter is expected, and its type suits
/// that parameter. What some variables of the parameter stand for was learnt before.
pub open spec fn argument_checked(
    scopes: Seq<Candidate>,
    arg: Term,
    param: Ty,
    value: Typed,
    learnt: Map<Seq<char>, Ty>,
) -> bool {
    exists|before: World, earlier: Map<Seq<char>, Ty>|
        {
            let one = #[trigger] compiled(
                before,
                scopes,
                arg,
                Some(substituted(param, earlier)),
            );
            &&& extends(learnt, earlier)
            &&& one.result == Ok::<Typed, Failure>(value)
            &&& agree(
                one.world,
                value.ty,
                substituted(param, earlier),
                learnt,
                TYPE_DEPTH_LIMIT as nat,
            )
        }
}

proof fn lemma_checked_later(
    scopes: Seq<Candidate>,
    arg: Term,
    param: Ty,
    value: Typed,
    learnt: Map<Seq<char>, Ty>,
    later: Map<Seq<char>, Ty>,
)
    requires
        argument_checked(scopes, arg, param, value, learnt),
        extends(later, learnt),
    ensures
        argument_checked(scopes, arg, param, value, later),
{
    let limit = TYPE_DEPTH_LIMIT as nat;
    let (before, earlier) = choose|before: World, earlier: Map<Seq<char>, Ty>|
        {
            let one = #[trigger] compiled(
                before,
                scopes,
                arg,
                Some(substituted(param, earlier)),
            );
            &&& extends(learnt, earlier)
            &&& one.result == Ok::<Typed, Failure>(value)
            &&& agree(one.world, value.ty, substituted(param, earlier), learnt, limit)
        };
    let one = compiled(before, scopes, arg, Some(substituted(param, earlier)));
    lemma_agree_extends(
        one.world,
        value.ty,
        substituted(param, earlier),
        learnt,
        later,
        limit,
    );
    assert(extends(later, earlier));
}

/// Every slot that is filled holds a checked argument.
spec fn slots_hold(
    scopes: Seq<Candidate>,
    args: Seq<Term>,
    params: Seq<Ty>,
    state: Slots,
) -> bool {
    &&& state.slots.len() == params.len()
    &&& forall|k: int|
        0 <= k < params.len() && k < args.len() && (#[trigger] state.slots[k]) is Some
            ==> argument_checked(
            scopes,
            args[k],
            params[k],
            state.slots[k]->Some_0,
            state.subst,
        )
}

proof fn lemma_slots_checked(
    world: World,
    scopes: Seq<Candidate>,
    args: Seq<Term>,
    params: Seq<Ty>,
    names: Option<Seq<Seq<char>>>,
    bindable: Set<Seq<char>>,
    holes: Seq<Hole>,
    open: bool,
    i: int,
    before: Slots,
)
    requires
        0 <= i,
        slots_hold(scopes, args, params, before),
    ensures
        compiled_slots(
            world,
            scopes,
            args,
            params,
            names,
            bindable,
            holes,
            open,
            i,
            before,
        ).result matches Ok(state) ==> slots_hold(scopes, args, params, state) && extends(
            state.subst,
            before.subst,
        ),
    decreases args.len() - i,
{
    if i < args.len() && i < params.len() {
        if open_type(params[i]) != open {
            lemma_slots_checked(
                world,
                scopes,
                args,
                params,
                names,
                bindable,
                holes,
                open,
                i + 1,
                before,
            );
        } else {
            let parameter = substituted(params[i], before.subst);
            let argument = compiled(world, scopes, args[i], Some(parameter));
            if let Ok(value) = argument.result {
                let fit = fit_binding(
                    argument.world,
                    value.ty,
                    parameter,
                    before.subst,
                    bindable,
                );
                let limit = TYPE_DEPTH_LIMIT as nat;
                let free = Some(
                    bindable.union(internal_vars(value.ty)).union(internal_vars(parameter)),
                );
                lemma_fit_extends(
                    argument.world,
                    value.ty,
                    parameter,
                    before.subst,
                    free,
                    limit,
                );
                lemma_fit_agrees(
                    argument.world,
                    value.ty,
                    parameter,
                    before.subst,
                    free,
                    limit,
                );
                if fit.result is Ok {
                    let next = Slots {
                        slots: before.slots.update(i, Some(value)),
                        subst: fit.subst,
                        checked: before.checked + 1,
                    };
                    assert(argument_checked(scopes, args[i], params[i], value, fit.subst));
                    assert forall|k: int|
                        0 <= k < params.len() && k < args.len() && (
                        #[trigger] next.slots[k]) is Some implies argument_checked(
                        scopes,
                        args[k],
                        params[k],
                        next.slots[k]->Some_0,
                        next.subst,
                    ) by {
                        if k != i {
                            assert(before.slots[k] is Some);
                            lemma_checked_later(
                                scopes,
                                args[k],
                                params[k],
                                before.slots[k]->Some_0,
                                before.subst,
                                next.subst,
                            );
                        }
                    }
                    lemma_slots_checked(
                        argument.world,
                        scopes,
                        args,
                        params,
                        names,
                        bindable,
                        holes,
                        open,
                        i + 1,
                        next,
                    );
                }
            }
        }
    }
}

proof fn lemma_slots_collected(slots: Seq<Option<Typed>>, i: int)
    requires
        0 <= i <= slots.len(),
    ensures
        collected(slots, i) matches Some(values) ==> values.len() == slots.len() - i && forall|
            k: int,
        |
            0 <= k < values.len() ==> slots[i + k] == Some(#[trigger] values[k]),
    decreases slots.len() - i,
{
    if i < slots.len() {
        lemma_slots_collected(slots, i + 1);
        if let Some(values) = collected(slots, i) {
            let rest = collected(slots, i + 1)->Some_0;
            assert forall|k: int| 0 <= k < values.len() implies slots[i + k] == Some(
                #[trigger] values[k],
            ) by {
                if k > 0 {
                    assert(values[k] == rest[k - 1]);
                    assert(slots[i + 1 + (k - 1)] == slots[i + k]);
                }
            }
        }
    }
}

/// The arguments of a call that pass keep their order, and each of them is checked against
/// the parameter in its place.
pub proof fn lemma_arguments_checked(
    world: World,
    scopes: Seq<Candidate>,
    args: Seq<Term>,
    params: Seq<Ty>,
    names: Option<Seq<Seq<char>>>,
    bindable: Set<Seq<char>>,
    holes: Seq<Hole>,
)
    requires
        args.len() == params.len(),
    ensures
        compiled_args(world, scopes, args, params, names, bindable, holes).result matches Ok(
            (values, learnt),
        ) ==> values.len() == args.len() && forall|k: int|
            0 <= k < args.len() ==> argument_checked(
                scopes,
                args[k],
                params[k],
                #[trigger] values[k],
                learnt,
            ),
{
    let start = empty_slots(params.len());
    lemma_slots_checked(
        world,
        scopes,
        args,
        params,
        names,
        bindable,
        holes,
        false,
        0,
        start,
    );
    let first = compiled_slots(
        world,
        scopes,
        args,
        params,
        names,
        bindable,
        holes,
        false,
        0,
        start,
    );
    if let Ok(closed) = first.result {
        lemma_slots_checked(
            first.world,
            scopes,
            args,
            params,
            names,
            bindable,
            holes,
            true,
            0,
            closed,
        );
        let second = compiled_slots(
            first.world,
            scopes,
            args,
            params,
            names,
            bindable,
            holes,
            true,
            0,
            closed,
        );
        if let Ok(state) = second.result {
            lemma_slots_collected(state.slots, 0);
            if let Some(values) = collected(state.slots, 0) {
                assert forall|k: int| 0 <= k < args.len() implies argument_checked(
                    scopes,
                    args[k],
                    params[k],
                    #[trigger] values[k],
                    state.subst,
                ) by {
                    assert(state.slots[0 + k] == Some(values[k]));
                    assert(state.slots[k] is Some);
                }
            }
        }
    }
}

proof fn lemma_completed_keeps(
    world: World,
    name: Seq<char>,
    candidate: Candidate,
    instance: Instance,
    params: Seq<Ty>,
    result: Ty,
    args: Seq<Typed>,
    subst: Map<Seq<char>, Ty>,
    expected: Option<Ty>,
)
    ensures
        completed(
            world,
            name,
            candidate,
            instance,
            params,
            result,
            args,
            subst,
            expected,
        ).result matches Ok(found) ==> found.candidate == candidate && found.args == args,
{
}

/// A call that matches a candidate calls that candidate, with the arguments of the call in
/// their order, and each of them is checked against the parameter in its place.
pub proof fn lemma_match_checks_arguments(
    world: World,
    scopes: Seq<Candidate>,
    name: Seq<char>,
    candidate: Candidate,
    instance: Instance,
    params: Seq<Ty>,
    result: Ty,
    args: Seq<Term>,
    expected: Option<Ty>,
)
    requires
        params.len() == args.len(),
    ensures
        attempted_instance(
            world,
            scopes,
            name,
            candidate,
            instance,
            params,
            result,
            args,
            expected,
        ).1 matches Ok(found) ==> {
            &&& found.candidate == candidate
            &&& found.args.len() == args.len()
            &&& exists|learnt: Map<Seq<char>, Ty>| #[trigger]
                all_checked(scopes, args, params, found.args, learnt)
        },
{
    reveal(attempted_instance);
    lemma_arguments_checked(
        world,
        scopes,
        args,
        params,
        candidate.parameters,
        instance.bindable,
        instance.holes,
    );
    let given = compiled_args(
        world,
        scopes,
        args,
        params,
        candidate.parameters,
        instance.bindable,
        instance.holes,
    );
    if let Ok((values, learnt)) = given.result {
        lemma_completed_keeps(
            given.world,
            name,
            candidate,
            instance,
            params,
            result,
            values,
            learnt,
            expected,
        );
        assert(all_checked(scopes, args, params, values, learnt));
    }
}

/// Each of some values is a checked argument.
pub open spec fn all_checked(
    scopes: Seq<Candidate>,
    args: Seq<Term>,
    params: Seq<Ty>,
    values: Seq<Typed>,
    learnt: Map<Seq<char>, Ty>,
) -> bool {
    forall|k: int|
        0 <= k < args.len() ==> argument_checked(
            scopes,
            args[k],
            params[k],
            #[trigger] values[k],
            learnt,
        )
}

// ---------------------------------------------------------------------------
// Functions
// ---------------------------------------------------------------------------

proof fn lemma_params_bound(
    world: World,
    scopes: Seq<Candidate>,
    params: Seq<(Seq<char>, TypeTerm)>,
    types: Seq<Ty>,
    i: int,
    values: Seq<TypedParam>,
)
    requires
        params.len() == types.len(),
        0 <= i <= params.len(),
        values.len() == i,
        forall|k: int|
            0 <= k < i ==> (#[trigger] values[k]).name == params[k].0 && values[k].ty == types[k],
    ensures
        bound_params(world, scopes, params, types, i, values).result matches Ok((_, made))
            ==> made.len() == params.len() && forall|k: int|
            0 <= k < made.len() ==> (#[trigger] made[k]).name == params[k].0 && made[k].ty
                == types[k],
    decreases params.len() - i,
{
    if i < params.len() {
        let next = introduced(world, scopes, params[i].0, types[i]);
        if let Ok(more) = next.result {
            lemma_params_bound(
                next.world,
                more,
                params,
                types,
                i + 1,
                values.push(
                    TypedParam { id: next_id(world), name: params[i].0, ty: types[i] },
                ),
            );
        }
    }
}

/// A function that passes has the type that was written. Its parameters keep their names and
/// their order, and what its body comes to suits the declared result.
pub proof fn lemma_function_checked(
    world: World,
    scopes: Seq<Candidate>,
    name: Option<Seq<char>>,
    function: Lambda,
    expected: Option<Ty>,
    binding: Option<BindingId>,
)
    ensures
        compiled_function(
            world,
            scopes,
            name,
            function,
            expected,
            binding,
        ).result matches Ok(value) ==> {
            &&& written_type(world, type_vars_in(scopes), function) == Ok::<Ty, Failure>(value.ty)
            &&& expected matches Some(ty) ==> suits(world, value.ty, ty)
            &&& value.ty matches Ty::Function(types, result) && (
            value.kind matches TypedKind::Function(made) && {
                &&& made.result == *result
                &&& made.type_params == function.type_params
                &&& function.params.len() == types.len() ==> made.params.len() == types.len()
                    && forall|k: int|
                    0 <= k < types.len() ==> (#[trigger] made.params[k]).name
                        == function.params[k].0 && made.params[k].ty == types[k]
                &&& suits_somewhere(
                        if made.body.expressions.len() == 0 {
                            Ty::Unit
                        } else {
                            made.body.expressions.last().ty
                        },
                        *result,
                    )
            })
        },
{
    if let Ok(Ty::Function(types, result)) = written_type(world, type_vars_in(scopes), function) {
        if let Some(ty) = expected {
            lemma_statically_suits(world, Ty::Function(types, result), ty);
        }
        let around = if function.type_params.len() == 0 {
            scopes
        } else {
            scopes.push(binder_candidate(function.type_params))
        };
        let bound = bound_params(world, around, function.params, types, 0, Seq::empty());
        if function.params.len() == types.len() {
            lemma_params_bound(world, around, function.params, types, 0, Seq::empty());
        }
        if let Ok((inner, params)) = bound.result {
            let block = compiled_block(
                gathering(bound.world),
                inner,
                function.body,
                Some(*result),
            );
            if let Ok(body) = block.result {
                let after = compiled_function(
                    world,
                    scopes,
                    name,
                    function,
                    expected,
                    binding,
                ).world;
                lemma_statically_suits(after, block_type(body), *result);
                if statically(after, block_type(body), *result) is Ok {
                    assert(suits(after, block_type(body), *result));
                }
            }
        }
    }
}

// ---------------------------------------------------------------------------
// Lists and records
// ---------------------------------------------------------------------------

/// A value is what an expression comes to in some state, whatever is expected of it.
pub open spec fn comes_to(scopes: Seq<Candidate>, term: Term, value: Typed) -> bool {
    exists|before: World, wanted: Option<Ty>|
        (#[trigger] compiled(before, scopes, term, wanted)).result == Ok::<Typed, Failure>(value)
}

/// A type suits another one in some state of checking.
pub open spec fn suits_somewhere(given: Ty, wanted: Ty) -> bool {
    exists|after: World| #[trigger] suits(after, given, wanted)
}

proof fn lemma_elements_checked(
    world: World,
    scopes: Seq<Candidate>,
    items: Seq<Term>,
    i: int,
    item_type: Option<Ty>,
    values: Seq<Typed>,
)
    requires
        0 <= i <= items.len(),
        values.len() == i,
        i > 0 <==> item_type is Some,
        forall|k: int| 0 <= k < i ==> comes_to(scopes, items[k], #[trigger] values[k]),
        forall|k: int|
            0 <= k < i ==> suits_somewhere((#[trigger] values[k]).ty, item_type->Some_0),
    ensures
        compiled_elements(
            world,
            scopes,
            items,
            None,
            i,
            item_type,
            Map::empty(),
            values,
        ).result matches Ok(whole) ==> (whole.kind matches TypedKind::Vector(made) && {
            &&& made.len() == items.len()
            &&& forall|k: int| 0 <= k < made.len() ==> comes_to(scopes, items[k], #[trigger] made[k])
            &&& items.len() == 0 ==> whole.ty is EmptyList
            &&& items.len() > 0 ==> (whole.ty matches Ty::List(item) && forall|k: int|
                0 <= k < made.len() ==> suits_somewhere((#[trigger] made[k]).ty, *item))
        }),
    decreases items.len() - i,
{
    if i < items.len() {
        let item = compiled(world, scopes, items[i], None);
        if let Ok(value) = item.result {
            assert(comes_to(scopes, items[i], value));
            let more = values.push(value);
            match item_type {
                Some(current) => {
                    lemma_statically_suits(item.world, value.ty, current);
                    if statically(item.world, value.ty, current) is Ok {
                        assert(suits(item.world, value.ty, current));
                        lemma_elements_checked(
                            item.world,
                            scopes,
                            items,
                            i + 1,
                            item_type,
                            more,
                        );
                    }
                },
                None => {
                    lemma_statically_suits(item.world, value.ty, value.ty);
                    assert(suits(item.world, value.ty, value.ty));
                    lemma_elements_checked(
                        item.world,
                        scopes,
                        items,
                        i + 1,
                        Some(value.ty),
                        more,
                    );
                },
            }
        }
    }
}

/// A list of which nothing is expected keeps its items in their order, and the types of all
/// of them suit its item type.
pub proof fn lemma_list_checked(world: World, scopes: Seq<Candidate>, items: Seq<Term>)
    ensures
        compiled_raw(world, scopes, Term::Vector(items), None).result matches Ok(whole) ==> (
        whole.kind matches TypedKind::Vector(made) && {
            &&& made.len() == items.len()
            &&& forall|k: int| 0 <= k < made.len() ==> comes_to(scopes, items[k], #[trigger] made[k])
            &&& items.len() == 0 ==> whole.ty is EmptyList
            &&& items.len() > 0 ==> (whole.ty matches Ty::List(item) && forall|k: int|
                0 <= k < made.len() ==> suits_somewhere((#[trigger] made[k]).ty, *item))
        }),
{
    lemma_elements_checked(world, scopes, items, 0, None, Seq::empty());
}

#[verifier::rlimit(30)]
proof fn lemma_members_checked(
    world: World,
    scopes: Seq<Candidate>,
    fields: Seq<(Seq<char>, Term)>,
    wanted: Seq<(Seq<char>, Ty)>,
    i: int,
    values: Seq<(Seq<char>, Typed)>,
)
    requires
        0 <= i <= fields.len(),
        values.len() == i,
        forall|j: int, k: int|
            0 <= j < k < i ==> (#[trigger] fields[j]).0 != (#[trigger] fields[k]).0,
        forall|k: int|
            0 <= k < i ==> (#[trigger] values[k]).0 == fields[k].0 && comes_to(
                scopes,
                fields[k].1,
                values[k].1,
            ),
        forall|k: int|
            0 <= k < i ==> field_suits(wanted, (#[trigger] values[k]).0, values[k].1.ty),
    ensures
        compiled_members(world, scopes, fields, wanted, i, values).result matches Ok(made)
            ==> members_checked(scopes, fields, wanted, made),
    decreases fields.len() - i,
{
    if i < fields.len() {
        lemma_named_before(fields, fields[i].0, i);
        if !named_before(fields, fields[i].0, i) {
            let expected = field_at(wanted, fields[i].0, 0);
            let field = compiled(world, scopes, fields[i].1, expected);
            if let Ok(value) = field.result {
                assert(comes_to(scopes, fields[i].1, value));
                if let Some(ty) = expected {
                    lemma_checked_suits(world, scopes, fields[i].1, ty);
                    let after = compiled_raw(world, scopes, fields[i].1, Some(ty)).world;
                    assert(suits(after, value.ty, ty));
                }
                assert(field_suits(wanted, fields[i].0, value.ty));
                lemma_members_checked(
                    field.world,
                    scopes,
                    fields,
                    wanted,
                    i + 1,
                    values.push((fields[i].0, value)),
                );
            }
        }
    }
}

proof fn lemma_named_before(fields: Seq<(Seq<char>, Term)>, name: Seq<char>, n: int)
    requires
        0 <= n <= fields.len(),
    ensures
        named_before(fields, name, n) <==> exists|k: int|
            0 <= k < n && (#[trigger] fields[k]).0 == name,
    decreases n,
{
    if n > 0 {
        lemma_named_before(fields, name, n - 1);
    }
}

/// A type suits the one that is declared for a field.
pub open spec fn field_suits(wanted: Seq<(Seq<char>, Ty)>, name: Seq<char>, given: Ty) -> bool {
    field_at(wanted, name, 0) matches Some(ty) ==> suits_somewhere(given, ty)
}

/// The fields of a record keep their names and their order, no name stands twice, and each
/// value suits the type that is declared for its field.
pub open spec fn members_checked(
    scopes: Seq<Candidate>,
    fields: Seq<(Seq<char>, Term)>,
    wanted: Seq<(Seq<char>, Ty)>,
    made: Seq<(Seq<char>, Typed)>,
) -> bool {
    &&& made.len() == fields.len()
    &&& forall|j: int, k: int|
        0 <= j < k < fields.len() ==> (#[trigger] fields[j]).0 != (#[trigger] fields[k]).0
    &&& forall|k: int|
        0 <= k < made.len() ==> (#[trigger] made[k]).0 == fields[k].0 && comes_to(
            scopes,
            fields[k].1,
            made[k].1,
        )
    &&& forall|k: int|
        0 <= k < made.len() ==> field_suits(wanted, (#[trigger] made[k]).0, made[k].1.ty)
}

/// A record of a named type that passes has checked fields, and that type.
pub proof fn lemma_record_checked(
    world: World,
    scopes: Seq<Candidate>,
    fields: Seq<(Seq<char>, Term)>,
    expected: Ty,
)
    ensures
        compiled_record(world, scopes, fields, expected).result matches Ok(whole) ==> {
            &&& whole.ty == expected
            &&& record_fields(world, expected) matches Some(wanted) && (
            whole.kind matches TypedKind::Fields(made) && members_checked(
                scopes,
                fields,
                wanted,
                made,
            ))
        },
{
    if let Some(wanted) = record_fields(world, expected) {
        lemma_members_checked(world, scopes, fields, wanted, 0, Seq::empty());
    }
}

} // verus!
