//! Which type parameters have to support equality.
//!
//! What a function asks of its type parameters holds wherever its value goes:
//! through records, conditionals and callbacks as much as through a direct call.

use crate::calls::{ty_vars, var_types};
use crate::checked::{
    BindingId, Called, CheckedBinding, CheckedExpr, CheckedExprKind, CheckedFn, CheckedMatchArm,
    Typed, TypedArm, TypedBinding, TypedFn, TypedKind, block_calls, called,
    collect_called_bindings_in_block, typed_arms, typed_bindings, typed_members, typeds,
};
use crate::compat::{
    Step, compatible_with_bindable, equality_required_from, equality_variables, field_at,
    find_equality_variables, find_field, fit_binding, named_field_types, record_fields, stepped,
    validate_equality_requirements,
};
use crate::env::{Env, World, gathered, gathering, required, requirements_of, ungathered};
use crate::error::{Failure, MagError};
use crate::scope::{resolved_binding_requirements, sort_names, sorted_names, use_requirements};
use crate::text::{contains_text, texts};
use crate::types::{
    MagType, Names, Subst, Ty, lemma_take_set, same_types, substitute, substituted, tys,
    variables, vars,
};
use vstd::prelude::*;

verus! {

// ---------------------------------------------------------------------------
// Uses at a type
// ---------------------------------------------------------------------------

/// What the variables of an expression stand for where a type is expected.
pub open spec fn specialization(
    world: World,
    ty: Ty,
    expected: Ty,
    outer: Map<Seq<char>, Ty>,
) -> Map<Seq<char>, Ty> {
    let original = substituted(ty, outer);
    fit_binding(world, substituted(expected, outer), original, outer, vars(original)).subst
}

pub open spec fn next_step(first: Step, second: Step) -> Step {
    match first.result {
        Err(_) => first,
        Ok(_) => second,
    }
}

pub open spec fn item_expected(used: Ty, i: int, own: Ty) -> Ty {
    match used {
        Ty::List(item) => *item,
        Ty::Product(items) => if 0 <= i < items.len() {
            items[i]
        } else {
            own
        },
        _ => own,
    }
}

pub open spec fn member_expected(world: World, used: Ty, name: Seq<char>, own: Ty) -> Ty {
    match record_fields(world, used) {
        Some(fields) => match field_at(fields, name, 0) {
            Some(ty) => ty,
            None => own,
        },
        None => own,
    }
}

/// Requires what the bindings that an expression refers to ask for, where the
/// expression is used at a type.
pub open spec fn specialized(
    world: World,
    expr: Typed,
    expected: Ty,
    outer: Map<Seq<char>, Ty>,
) -> Step
    decreases expr, 0int,
{
    let subst = specialization(world, expr.ty, expected, outer);
    let used = substituted(expr.ty, subst);
    match expr.kind {
        TypedKind::BindingRef(id) => equality_required_from(
            world,
            use_requirements(world, id, used),
            subst,
            0,
        ),
        TypedKind::Function(function) => {
            let own = equality_required_from(
                world,
                ty_vars(function.equality_params),
                subst,
                0,
            );
            let bindings = specialized_bindings(own.world, function.body.bindings, subst, 0);
            next_step(
                own,
                next_step(
                    bindings,
                    specialized_own(bindings.world, function.body.expressions, subst, 0),
                ),
            )
        },
        TypedKind::Call(callee, args, _) => {
            let signature = substituted(callee.ty, subst);
            let first = specialized(world, *callee, signature, subst);
            match signature {
                Ty::Function(params, _) => next_step(
                    first,
                    specialized_args(first.world, args, params, subst, 0),
                ),
                _ => first,
            }
        },
        TypedKind::Vector(items) => specialized_items(world, items, used, subst, 0),
        TypedKind::Fields(fields) => specialized_members(world, fields, used, subst, 0),
        TypedKind::If(condition, then_branch, else_branch) => {
            let first = specialized(world, *condition, Ty::Bool, subst);
            let second = specialized(first.world, *then_branch, used, subst);
            next_step(
                first,
                next_step(second, specialized(second.world, *else_branch, used, subst)),
            )
        },
        TypedKind::Ascribe(_, value) => specialized(world, *value, used, subst),
        TypedKind::Construct(_, _, payload) => specialized(world, *payload, payload.ty, subst),
        TypedKind::Match(value, arms) => {
            let first = specialized(world, *value, value.ty, subst);
            next_step(first, specialized_arms(first.world, arms, used, subst, 0))
        },
        _ => Step { world, result: Ok(()) },
    }
}

/// Expressions that are used at their own types, from index `i` on.
pub open spec fn specialized_own(
    world: World,
    list: Seq<Typed>,
    subst: Map<Seq<char>, Ty>,
    i: int,
) -> Step
    decreases list, list.len() - i,
{
    if i < 0 || i >= list.len() {
        Step { world, result: Ok(()) }
    } else {
        let first = specialized(world, list[i], list[i].ty, subst);
        next_step(first, specialized_own(first.world, list, subst, i + 1))
    }
}

pub open spec fn specialized_bindings(
    world: World,
    list: Seq<TypedBinding>,
    subst: Map<Seq<char>, Ty>,
    i: int,
) -> Step
    decreases list, list.len() - i,
{
    if i < 0 || i >= list.len() {
        Step { world, result: Ok(()) }
    } else {
        let first = specialized(world, list[i].initializer, list[i].ty, subst);
        next_step(first, specialized_bindings(first.world, list, subst, i + 1))
    }
}

pub open spec fn specialized_args(
    world: World,
    args: Seq<Typed>,
    params: Seq<Ty>,
    subst: Map<Seq<char>, Ty>,
    i: int,
) -> Step
    decreases args, args.len() - i,
{
    if i < 0 || i >= args.len() || i >= params.len() {
        Step { world, result: Ok(()) }
    } else {
        let first = specialized(world, args[i], params[i], subst);
        next_step(first, specialized_args(first.world, args, params, subst, i + 1))
    }
}

pub open spec fn specialized_items(
    world: World,
    items: Seq<Typed>,
    used: Ty,
    subst: Map<Seq<char>, Ty>,
    i: int,
) -> Step
    decreases items, items.len() - i,
{
    if i < 0 || i >= items.len() {
        Step { world, result: Ok(()) }
    } else {
        let first = specialized(world, items[i], item_expected(used, i, items[i].ty), subst);
        next_step(first, specialized_items(first.world, items, used, subst, i + 1))
    }
}

pub open spec fn specialized_members(
    world: World,
    fields: Seq<(Seq<char>, Typed)>,
    used: Ty,
    subst: Map<Seq<char>, Ty>,
    i: int,
) -> Step
    decreases fields, fields.len() - i,
{
    if i < 0 || i >= fields.len() {
        Step { world, result: Ok(()) }
    } else {
        let expected = member_expected(world, used, fields[i].0, fields[i].1.ty);
        let first = specialized(world, fields[i].1, expected, subst);
        next_step(first, specialized_members(first.world, fields, used, subst, i + 1))
    }
}

pub open spec fn specialized_arms(
    world: World,
    arms: Seq<TypedArm>,
    used: Ty,
    subst: Map<Seq<char>, Ty>,
    i: int,
) -> Step
    decreases arms, arms.len() - i,
{
    if i < 0 || i >= arms.len() {
        Step { world, result: Ok(()) }
    } else {
        let first = specialized(world, *arms[i].body, used, subst);
        next_step(first, specialized_arms(first.world, arms, used, subst, i + 1))
    }
}

fn specialize(env: &Env, ty: &MagType, expected: &MagType, outer: &Subst) -> (subst: Subst)
    ensures
        subst@ == specialization(env@, ty@, expected@, outer@),
{
    let mut subst = outer.copy();
    let original = substitute(ty, outer);
    let expected = substitute(expected, outer);
    let bindable = variables(&original);
    let _ = compatible_with_bindable(env, &expected, &original, &mut subst, &bindable);
    subst
}

pub fn check_equality_specialization(
    env: &mut Env,
    expression: &CheckedExpr,
    expected: &MagType,
    outer: &Subst,
) -> (result: Result<(), MagError>)
    ensures
        stepped(final(env)@, result) == specialized(
            old(env)@,
            expression@,
            expected@,
            outer@,
        ),
    decreases expression, 0int,
{
    let subst = specialize(env, &expression.ty, expected, outer);
    let used = substitute(&expression.ty, &subst);
    assert(expression@.kind == expression.kind@);
    match &expression.kind {
        CheckedExprKind::BindingRef(id) => {
            let requirements = resolved_binding_requirements(env, *id, &used);
            validate_equality_requirements(env, &requirements, &subst)
        },
        CheckedExprKind::Function(function) => check_function(env, function, &subst),
        CheckedExprKind::Call { callee, args, .. } => {
            let inner: &CheckedExpr = callee;
            assert(inner@.ty == inner.ty@);
            let signature = substitute(&inner.ty, &subst);
            match check_equality_specialization(env, inner, &signature, &subst) {
                Err(error) => return Err(error),
                Ok(_) => {},
            }
            match &signature {
                MagType::Function(params, _) => check_args(env, args, params, &subst),
                _ => Ok(()),
            }
        },
        CheckedExprKind::Vector(items) => check_items(env, items, &used, &subst),
        CheckedExprKind::Fields(fields) => check_members(env, fields, &used, &subst),
        CheckedExprKind::If { condition, then_branch, else_branch } => {
            match check_equality_specialization(env, condition, &MagType::Bool, &subst) {
                Err(error) => return Err(error),
                Ok(_) => {},
            }
            match check_equality_specialization(env, then_branch, &used, &subst) {
                Err(error) => return Err(error),
                Ok(_) => {},
            }
            check_equality_specialization(env, else_branch, &used, &subst)
        },
        CheckedExprKind::Ascribe { value, .. } => check_equality_specialization(
            env,
            value,
            &used,
            &subst,
        ),
        CheckedExprKind::Construct { payload, .. } => {
            let inner: &CheckedExpr = payload;
            assert(inner@.ty == inner.ty@);
            check_equality_specialization(env, inner, &inner.ty, &subst)
        },
        CheckedExprKind::Match { value, arms } => {
            let inner: &CheckedExpr = value;
            assert(inner@.ty == inner.ty@);
            match check_equality_specialization(env, inner, &inner.ty, &subst) {
                Err(error) => return Err(error),
                Ok(_) => {},
            }
            check_arms(env, arms, &used, &subst)
        },
        _ => Ok(()),
    }
}

fn check_function(env: &mut Env, function: &CheckedFn, subst: &Subst) -> (result: Result<
    (),
    MagError,
>)
    ensures
        stepped(final(env)@, result) == ({
            let view = function@;
            let own = equality_required_from(
                old(env)@,
                ty_vars(view.equality_params),
                subst@,
                0,
            );
            let bindings = specialized_bindings(own.world, view.body.bindings, subst@, 0);
            next_step(
                own,
                next_step(
                    bindings,
                    specialized_own(bindings.world, view.body.expressions, subst@, 0),
                ),
            )
        }),
    decreases function, 0int,
{
    let body = &function.body;
    assert(function@.body == body@);
    assert(body@.bindings == typed_bindings(body.bindings@));
    assert(body@.expressions == typeds(body.expressions@));
    let requirements = var_types(&function.equality_params);
    match validate_equality_requirements(env, &requirements, subst) {
        Err(error) => return Err(error),
        Ok(_) => {},
    }
    match check_bindings(env, &body.bindings, subst) {
        Err(error) => return Err(error),
        Ok(_) => {},
    }
    check_own(env, &body.expressions, subst)
}

fn check_own(env: &mut Env, list: &Vec<CheckedExpr>, subst: &Subst) -> (result: Result<
    (),
    MagError,
>)
    ensures
        stepped(final(env)@, result) == specialized_own(old(env)@, typeds(list@), subst@, 0),
    decreases list, 0int,
{
    let ghost all = typeds(list@);
    let ghost whole = specialized_own(old(env)@, all, subst@, 0);
    let mut i: usize = 0;
    while i < list.len()
        invariant
            i <= list@.len(),
            all == typeds(list@),
            whole == specialized_own(old(env)@, all, subst@, 0),
            whole == specialized_own(env@, all, subst@, i as int),
        decreases list@.len() - i,
    {
        assert(all[i as int] == list@[i as int]@);
        assert(list@[i as int]@.ty == list@[i as int].ty@);
        match check_equality_specialization(env, &list[i], &list[i].ty, subst) {
            Err(error) => return Err(error),
            Ok(_) => {},
        }
        i = i + 1;
    }
    Ok(())
}

fn check_bindings(env: &mut Env, list: &Vec<CheckedBinding>, subst: &Subst) -> (result: Result<
    (),
    MagError,
>)
    ensures
        stepped(final(env)@, result) == specialized_bindings(
            old(env)@,
            typed_bindings(list@),
            subst@,
            0,
        ),
    decreases list, 0int,
{
    let ghost all = typed_bindings(list@);
    let ghost whole = specialized_bindings(old(env)@, all, subst@, 0);
    let mut i: usize = 0;
    while i < list.len()
        invariant
            i <= list@.len(),
            all == typed_bindings(list@),
            whole == specialized_bindings(old(env)@, all, subst@, 0),
            whole == specialized_bindings(env@, all, subst@, i as int),
        decreases list@.len() - i,
    {
        let binding = &list[i];
        assert(all[i as int] == binding@);
        assert(binding@.initializer == binding.initializer@);
        match check_equality_specialization(env, &binding.initializer, &binding.ty, subst) {
            Err(error) => return Err(error),
            Ok(_) => {},
        }
        i = i + 1;
    }
    Ok(())
}

fn check_args(env: &mut Env, args: &Vec<CheckedExpr>, params: &Vec<MagType>, subst: &Subst) -> (result:
    Result<(), MagError>)
    ensures
        stepped(final(env)@, result) == specialized_args(
            old(env)@,
            typeds(args@),
            tys(params@),
            subst@,
            0,
        ),
    decreases args, 0int,
{
    let ghost all = typeds(args@);
    let ghost types = tys(params@);
    let ghost whole = specialized_args(old(env)@, all, types, subst@, 0);
    let mut i: usize = 0;
    while i < args.len() && i < params.len()
        invariant
            i <= args@.len(),
            i <= params@.len(),
            all == typeds(args@),
            types == tys(params@),
            whole == specialized_args(old(env)@, all, types, subst@, 0),
            whole == specialized_args(env@, all, types, subst@, i as int),
        decreases args@.len() - i,
    {
        assert(all[i as int] == args@[i as int]@);
        assert(types[i as int] == params@[i as int]@);
        match check_equality_specialization(env, &args[i], &params[i], subst) {
            Err(error) => return Err(error),
            Ok(_) => {},
        }
        i = i + 1;
    }
    Ok(())
}

fn expected_item(used: &MagType, i: usize, own: &MagType) -> (ty: MagType)
    ensures
        ty@ == item_expected(used@, i as int, own@),
{
    match used {
        MagType::List(item) => item.copy(),
        MagType::Product(items) => {
            assert(tys(items@).len() == items@.len());
            if i < items.len() {
                assert(tys(items@)[i as int] == items@[i as int]@);
                items[i].copy()
            } else {
                own.copy()
            }
        },
        _ => own.copy(),
    }
}

fn check_items(env: &mut Env, items: &Vec<CheckedExpr>, used: &MagType, subst: &Subst) -> (result:
    Result<(), MagError>)
    ensures
        stepped(final(env)@, result) == specialized_items(
            old(env)@,
            typeds(items@),
            used@,
            subst@,
            0,
        ),
    decreases items, 0int,
{
    let ghost all = typeds(items@);
    let ghost whole = specialized_items(old(env)@, all, used@, subst@, 0);
    let mut i: usize = 0;
    while i < items.len()
        invariant
            i <= items@.len(),
            all == typeds(items@),
            whole == specialized_items(old(env)@, all, used@, subst@, 0),
            whole == specialized_items(env@, all, used@, subst@, i as int),
        decreases items@.len() - i,
    {
        assert(all[i as int] == items@[i as int]@);
        assert(items@[i as int]@.ty == items@[i as int].ty@);
        let expected = expected_item(used, i, &items[i].ty);
        match check_equality_specialization(env, &items[i], &expected, subst) {
            Err(error) => return Err(error),
            Ok(_) => {},
        }
        i = i + 1;
    }
    Ok(())
}

fn expected_member(env: &Env, used: &MagType, name: &str, own: &MagType) -> (ty: MagType)
    ensures
        ty@ == member_expected(env@, used@, name@, own@),
{
    match named_field_types(env, used) {
        Some(fields) => match find_field(&fields, name) {
            Some(ty) => ty,
            None => own.copy(),
        },
        None => own.copy(),
    }
}

fn check_members(
    env: &mut Env,
    fields: &Vec<(String, CheckedExpr)>,
    used: &MagType,
    subst: &Subst,
) -> (result: Result<(), MagError>)
    ensures
        stepped(final(env)@, result) == specialized_members(
            old(env)@,
            typed_members(fields@),
            used@,
            subst@,
            0,
        ),
    decreases fields, 0int,
{
    let ghost all = typed_members(fields@);
    let ghost whole = specialized_members(old(env)@, all, used@, subst@, 0);
    let mut i: usize = 0;
    while i < fields.len()
        invariant
            i <= fields@.len(),
            all == typed_members(fields@),
            whole == specialized_members(old(env)@, all, used@, subst@, 0),
            whole == specialized_members(env@, all, used@, subst@, i as int),
        decreases fields@.len() - i,
    {
        let field = &fields[i];
        assert(all[i as int] == (field.0@, field.1@));
        assert(field.1@.ty == field.1.ty@);
        let expected = expected_member(env, used, field.0.as_str(), &field.1.ty);
        match check_equality_specialization(env, &field.1, &expected, subst) {
            Err(error) => return Err(error),
            Ok(_) => {},
        }
        i = i + 1;
    }
    Ok(())
}

fn check_arms(env: &mut Env, arms: &Vec<CheckedMatchArm>, used: &MagType, subst: &Subst) -> (result:
    Result<(), MagError>)
    ensures
        stepped(final(env)@, result) == specialized_arms(
            old(env)@,
            typed_arms(arms@),
            used@,
            subst@,
            0,
        ),
    decreases arms, 0int,
{
    let ghost all = typed_arms(arms@);
    let ghost whole = specialized_arms(old(env)@, all, used@, subst@, 0);
    let mut i: usize = 0;
    while i < arms.len()
        invariant
            i <= arms@.len(),
            all == typed_arms(arms@),
            whole == specialized_arms(old(env)@, all, used@, subst@, 0),
            whole == specialized_arms(env@, all, used@, subst@, i as int),
        decreases arms@.len() - i,
    {
        let arm = &arms[i];
        assert(all[i as int] == arm@);
        assert(*arm@.body == (*arm.body)@);
        match check_equality_specialization(env, &arm.body, used, subst) {
            Err(error) => return Err(error),
            Ok(_) => {},
        }
        i = i + 1;
    }
    Ok(())
}

// ---------------------------------------------------------------------------
// The bindings of a block
// ---------------------------------------------------------------------------

/// The names of the variables among the first `n` types.
pub open spec fn var_names(types: Seq<Ty>, n: int) -> Set<Seq<char>>
    decreases n,
{
    if n <= 0 {
        Set::empty()
    } else {
        match types[n - 1] {
            Ty::Var(name) => var_names(types, n - 1).insert(name),
            _ => var_names(types, n - 1),
        }
    }
}

/// The variables that have to support equality for types from index `i` on to
/// support it.
pub open spec fn variables_of(world: World, types: Seq<Ty>, i: int) -> Result<
    Set<Seq<char>>,
    Failure,
>
    decreases types.len() - i,
{
    if i < 0 || i >= types.len() {
        Ok(Set::empty())
    } else {
        match equality_variables(world, types[i]) {
            Err(failure) => Err(failure),
            Ok(first) => match variables_of(world, types, i + 1) {
                Err(failure) => Err(failure),
                Ok(rest) => Ok(first.union(rest)),
            },
        }
    }
}

/// The variables that calls from index `i` on require to support equality.
pub open spec fn called_variables(world: World, list: Seq<Called>, i: int) -> Result<
    Set<Seq<char>>,
    Failure,
>
    decreases list.len() - i,
{
    if i < 0 || i >= list.len() {
        Ok(Set::empty())
    } else {
        match variables_of(world, use_requirements(world, list[i].0, list[i].1), 0) {
            Err(failure) => Err(failure),
            Ok(first) => match called_variables(world, list, i + 1) {
                Err(failure) => Err(failure),
                Ok(rest) => Ok(first.union(rest)),
            },
        }
    }
}

/// The variables that a binding requires to support equality, where some were
/// found in its initializer.
pub open spec fn binding_variables(world: World, binding: TypedBinding, found: Set<Seq<char>>) -> Result<
    Set<Seq<char>>,
    Failure,
> {
    match binding.initializer.kind {
        TypedKind::Function(function) => {
            let before = requirements_of(world, binding.id);
            match called_variables(world, block_calls(function.body), 0) {
                Err(failure) => Err(failure),
                Ok(called) => Ok(
                    var_names(before, before.len() as int).union(
                        found.intersect(function.type_params.to_set()),
                    ).union(called),
                ),
            }
        },
        _ => Ok(found),
    }
}

/// A pass over the bindings of a block: whether it changed what is required.
pub ghost struct Round {
    pub world: World,
    pub result: Result<bool, Failure>,
}

/// The pass from index `i` on.
pub open spec fn required_round(world: World, list: Seq<TypedBinding>, i: int, changed: bool) -> Round
    decreases list.len() - i,
{
    if i < 0 || i >= list.len() {
        Round { world, result: Ok(changed) }
    } else {
        let step = specialized(gathering(world), list[i].initializer, list[i].ty, Map::empty());
        let found = gathered(step.world);
        let after = ungathered(step.world);
        match step.result {
            Err(failure) => Round { world: after, result: Err(failure) },
            Ok(_) => match binding_variables(after, list[i], found) {
                Err(failure) => Round { world: after, result: Err(failure) },
                Ok(names) => {
                    let requirements = ty_vars(sorted_names(names));
                    if requirements == requirements_of(after, list[i].id) {
                        required_round(after, list, i + 1, changed)
                    } else {
                        required_round(
                            required(after, list[i].id, requirements),
                            list,
                            i + 1,
                            true,
                        )
                    }
                },
            },
        }
    }
}

/// Passes until nothing changes.
pub open spec fn required_settled(world: World, list: Seq<TypedBinding>, rounds: nat) -> Step
    decreases rounds,
{
    let round = required_round(world, list, 0, false);
    match round.result {
        Err(failure) => Step { world: round.world, result: Err(failure) },
        Ok(changed) => if !changed {
            Step { world: round.world, result: Ok(()) }
        } else if rounds == 0 {
            Step {
                world: round.world,
                result: Err(Failure::Type("equality requirements do not settle"@)),
            }
        } else {
            required_settled(round.world, list, (rounds - 1) as nat)
        },
    }
}

/// Those of the first `n` required variables that are type parameters.
pub open spec fn required_params(types: Seq<Ty>, params: Set<Seq<char>>, n: int) -> Seq<Seq<char>>
    decreases n,
{
    if n <= 0 {
        Seq::empty()
    } else {
        match types[n - 1] {
            Ty::Var(name) => if params.contains(name) {
                required_params(types, params, n - 1).push(name)
            } else {
                required_params(types, params, n - 1)
            },
            _ => required_params(types, params, n - 1),
        }
    }
}

/// A binding whose function names the type parameters that have to support
/// equality.
pub open spec fn annotated(world: World, binding: TypedBinding) -> TypedBinding {
    match binding.initializer.kind {
        TypedKind::Function(function) => {
            let types = requirements_of(world, binding.id);
            TypedBinding {
                initializer: Typed {
                    ty: binding.ty,
                    kind: TypedKind::Function(
                        Box::new(
                            TypedFn {
                                equality_params: required_params(
                                    types,
                                    function.type_params.to_set(),
                                    types.len() as int,
                                ),
                                ..*function
                            },
                        ),
                    ),
                },
                ..binding
            }
        },
        _ => binding,
    }
}

pub open spec fn annotated_all(world: World, list: Seq<TypedBinding>) -> Seq<TypedBinding> {
    Seq::new(list.len(), |i: int| annotated(world, list[i]))
}

/// A state of checking and the bindings that it came to.
pub ghost struct Bindings {
    pub world: World,
    pub result: Result<Seq<TypedBinding>, Failure>,
}

/// How many passes are made at most.
pub const ROUND_LIMIT: u64 = 0xffff_ffff_ffff_ffff;

/// The bindings of a block with what they require.
pub open spec fn finalized(world: World, list: Seq<TypedBinding>) -> Bindings {
    let settled = required_settled(world, list, ROUND_LIMIT as nat);
    Bindings {
        world: settled.world,
        result: match settled.result {
            Err(failure) => Err(failure),
            Ok(_) => Ok(annotated_all(settled.world, list)),
        },
    }
}

fn collect_var_names(types: &Vec<MagType>) -> (names: Names)
    ensures
        names@ == var_names(tys(types@), types@.len() as int),
{
    let ghost all = tys(types@);
    let mut names = Names::new();
    let mut i: usize = 0;
    while i < types.len()
        invariant
            i <= types@.len(),
            all == tys(types@),
            names@ == var_names(all, i as int),
        decreases types@.len() - i,
    {
        assert(all[i as int] == types@[i as int]@);
        if let MagType::Var(name) = &types[i] {
            names.insert(name.clone());
        }
        i = i + 1;
    }
    names
}

pub open spec fn name_set(result: Result<Names, MagError>) -> Result<Set<Seq<char>>, Failure> {
    match result {
        Ok(names) => Ok(names@),
        Err(error) => Err(error@),
    }
}

fn collect_variables(env: &Env, types: &Vec<MagType>) -> (result: Result<Names, MagError>)
    ensures
        name_set(result) == variables_of(env@, tys(types@), 0),
{
    let ghost all = tys(types@);
    let mut names = Names::new();
    let mut i: usize = 0;
    while i < types.len()
        invariant
            i <= types@.len(),
            all == tys(types@),
            match variables_of(env@, all, 0) {
                Ok(whole) => match variables_of(env@, all, i as int) {
                    Ok(rest) => whole =~= names@.union(rest),
                    Err(_) => false,
                },
                Err(failure) => variables_of(env@, all, i as int) == Err::<
                    Set<Seq<char>>,
                    Failure,
                >(failure),
            },
        decreases types@.len() - i,
    {
        assert(all[i as int] == types@[i as int]@);
        match find_equality_variables(env, &types[i]) {
            Err(error) => return Err(error),
            Ok(found) => {
                names.extend(&found);
            },
        }
        i = i + 1;
    }
    assert(names@ =~= names@.union(Set::empty()));
    Ok(names)
}

fn collect_called_variables(env: &Env, list: &Vec<(BindingId, MagType)>) -> (result: Result<
    Names,
    MagError,
>)
    ensures
        name_set(result) == called_variables(env@, called(list@), 0),
{
    let ghost all = called(list@);
    let mut names = Names::new();
    let mut i: usize = 0;
    while i < list.len()
        invariant
            i <= list@.len(),
            all == called(list@),
            match called_variables(env@, all, 0) {
                Ok(whole) => match called_variables(env@, all, i as int) {
                    Ok(rest) => whole =~= names@.union(rest),
                    Err(_) => false,
                },
                Err(failure) => called_variables(env@, all, i as int) == Err::<
                    Set<Seq<char>>,
                    Failure,
                >(failure),
            },
        decreases list@.len() - i,
    {
        assert(all[i as int] == (list@[i as int].0, list@[i as int].1@));
        let requirements = resolved_binding_requirements(env, list[i].0, &list[i].1);
        match collect_variables(env, &requirements) {
            Err(error) => return Err(error),
            Ok(found) => {
                names.extend(&found);
            },
        }
        i = i + 1;
    }
    assert(names@ =~= names@.union(Set::empty()));
    Ok(names)
}

fn common_names(names: &Names, params: &Vec<String>) -> (common: Names)
    ensures
        common@ == names@.intersect(texts(params@).to_set()),
{
    let ghost all = texts(params@);
    let mut common = Names::new();
    let mut i: usize = 0;
    assert(all.take(0).to_set() =~= Set::<Seq<char>>::empty());
    while i < params.len()
        invariant
            i <= params@.len(),
            all == texts(params@),
            common@ =~= names@.intersect(all.take(i as int).to_set()),
        decreases params@.len() - i,
    {
        proof {
            lemma_take_set(all, i as int);
        }
        if names.contains(params[i].as_str()) {
            common.insert(params[i].clone());
        }
        i = i + 1;
    }
    assert(all.take(all.len() as int) =~= all);
    common
}

fn find_binding_variables(env: &Env, binding: &CheckedBinding, found: Names) -> (result: Result<
    Names,
    MagError,
>)
    ensures
        name_set(result) == binding_variables(env@, binding@, found@),
{
    let initializer = &binding.initializer;
    assert(binding@.initializer == initializer@);
    assert(initializer@.kind == initializer.kind@);
    match &initializer.kind {
        CheckedExprKind::Function(function) => {
            let f: &CheckedFn = function;
            assert(f@.body == f.body@);
            assert(f@.type_params == texts(f.type_params@));
            let before = env.equality_requirements(binding.id);
            assert(tys(before@).len() == before@.len());
            let mut names = collect_var_names(&before);
            let mut list: Vec<(BindingId, MagType)> = Vec::new();
            collect_called_bindings_in_block(&f.body, &mut list);
            assert(called(list@) =~= block_calls(f@.body));
            match collect_called_variables(env, &list) {
                Err(error) => Err(error),
                Ok(more) => {
                    names.extend(&common_names(&found, &f.type_params));
                    names.extend(&more);
                    Ok(names)
                },
            }
        },
        _ => Ok(found),
    }
}

pub open spec fn rounded(world: World, result: Result<bool, MagError>) -> Round {
    Round {
        world,
        result: match result {
            Ok(changed) => Ok(changed),
            Err(error) => Err(error@),
        },
    }
}

fn require_round(env: &mut Env, list: &Vec<CheckedBinding>) -> (result: Result<bool, MagError>)
    ensures
        rounded(final(env)@, result) == required_round(
            old(env)@,
            typed_bindings(list@),
            0,
            false,
        ),
{
    let ghost all = typed_bindings(list@);
    let ghost whole = required_round(old(env)@, all, 0, false);
    let mut changed = false;
    let mut i: usize = 0;
    while i < list.len()
        invariant
            i <= list@.len(),
            all == typed_bindings(list@),
            whole == required_round(old(env)@, all, 0, false),
            whole == required_round(env@, all, i as int, changed),
        decreases list@.len() - i,
    {
        let binding = &list[i];
        assert(all[i as int] == binding@);
        assert(binding@.initializer == binding.initializer@);
        env.open_obligations();
        let step = check_equality_specialization(
            env,
            &binding.initializer,
            &binding.ty,
            &Subst::new(),
        );
        let found = env.close_obligations();
        match step {
            Err(error) => return Err(error),
            Ok(_) => {},
        }
        let names = match find_binding_variables(env, binding, found) {
            Err(error) => return Err(error),
            Ok(names) => names,
        };
        let requirements = var_types(&sort_names(&names));
        let known = env.equality_requirements(binding.id);
        if !same_types(&requirements, &known) {
            env.set_equality_requirements(binding.id, requirements);
            changed = true;
        }
        i = i + 1;
    }
    Ok(changed)
}

fn settle_requirements(env: &mut Env, list: &Vec<CheckedBinding>) -> (result: Result<(), MagError>)
    ensures
        stepped(final(env)@, result) == required_settled(
            old(env)@,
            typed_bindings(list@),
            ROUND_LIMIT as nat,
        ),
{
    let ghost all = typed_bindings(list@);
    let ghost whole = required_settled(old(env)@, all, ROUND_LIMIT as nat);
    let mut rounds: u64 = ROUND_LIMIT;
    loop
        invariant
            all == typed_bindings(list@),
            whole == required_settled(old(env)@, all, ROUND_LIMIT as nat),
            whole == required_settled(env@, all, rounds as nat),
        decreases rounds,
    {
        match require_round(env, list) {
            Err(error) => return Err(error),
            Ok(changed) => {
                if !changed {
                    return Ok(());
                }
                if rounds == 0 {
                    return Err(MagError::Type("equality requirements do not settle".to_owned()));
                }
                rounds = rounds - 1;
            },
        }
    }
}

fn find_required_params(types: &Vec<MagType>, params: &Vec<String>) -> (names: Vec<String>)
    ensures
        texts(names@) == required_params(
            tys(types@),
            texts(params@).to_set(),
            types@.len() as int,
        ),
{
    let ghost all = tys(types@);
    let ghost known = texts(params@).to_set();
    let mut names: Vec<String> = Vec::new();
    assert(texts(names@) =~= Seq::<Seq<char>>::empty());
    let mut i: usize = 0;
    while i < types.len()
        invariant
            i <= types@.len(),
            all == tys(types@),
            known == texts(params@).to_set(),
            texts(names@) == required_params(all, known, i as int),
        decreases types@.len() - i,
    {
        assert(all[i as int] == types@[i as int]@);
        if let MagType::Var(name) = &types[i] {
            if contains_text(params, name.as_str()) {
                let ghost before = texts(names@);
                names.push(name.clone());
                assert(texts(names@) =~= before.push(name@));
            }
        }
        i = i + 1;
    }
    names
}

fn annotate(env: &Env, binding: &CheckedBinding) -> (result: CheckedBinding)
    ensures
        result@ == annotated(env@, binding@),
{
    let initializer = &binding.initializer;
    assert(binding@.initializer == initializer@);
    assert(initializer@.kind == initializer.kind@);
    match &initializer.kind {
        CheckedExprKind::Function(function) => {
            let f: &CheckedFn = function;
            assert(f@.type_params == texts(f.type_params@));
            let types = env.equality_requirements(binding.id);
            assert(tys(types@).len() == types@.len());
            let equality_params = find_required_params(&types, &f.type_params);
            let mut updated = f.copy();
            updated.equality_params = equality_params;
            let ghost view = updated@;
            assert(view == TypedFn { equality_params: texts(equality_params@), ..f@ });
            let kind = CheckedExprKind::Function(updated);
            assert(kind@ == TypedKind::Function(Box::new(view)));
            let initializer = CheckedExpr { ty: binding.ty.copy(), kind };
            assert(initializer@ == Typed { ty: binding.ty@, kind: kind@ });
            CheckedBinding {
                id: binding.id,
                name: binding.name.clone(),
                ty: binding.ty.copy(),
                initializer,
            }
        },
        _ => CheckedBinding {
            id: binding.id,
            name: binding.name.clone(),
            ty: binding.ty.copy(),
            initializer: initializer.copy(),
        },
    }
}

pub open spec fn bound_all(world: World, result: Result<Vec<CheckedBinding>, MagError>) -> Bindings {
    Bindings {
        world,
        result: match result {
            Ok(list) => Ok(typed_bindings(list@)),
            Err(error) => Err(error@),
        },
    }
}

/// Finds what equality the bindings of a block require.
pub fn finalize_block_equality_requirements(env: &mut Env, bindings: &Vec<CheckedBinding>) -> (result:
    Result<Vec<CheckedBinding>, MagError>)
    ensures
        bound_all(final(env)@, result) == finalized(old(env)@, typed_bindings(bindings@)),
        result matches Ok(list) ==> list@.len() == bindings@.len(),
{
    match settle_requirements(env, bindings) {
        Err(error) => return Err(error),
        Ok(_) => {},
    }
    let ghost all = typed_bindings(bindings@);
    let mut list: Vec<CheckedBinding> = Vec::new();
    let mut i: usize = 0;
    while i < bindings.len()
        invariant
            i <= bindings@.len(),
            all == typed_bindings(bindings@),
            list@.len() == i,
            forall|j: int| 0 <= j < i ==> (#[trigger] list@[j])@ == annotated(env@, all[j]),
        decreases bindings@.len() - i,
    {
        assert(all[i as int] == bindings@[i as int]@);
        list.push(annotate(env, &bindings[i]));
        i = i + 1;
    }
    assert(typed_bindings(list@) =~= annotated_all(env@, all));
    Ok(list)
}

} // verus!
