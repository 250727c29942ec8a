//! Checking a program: every expression gets a type, and every name the binding
//! that it stands for. Whoever evaluates a checked program resolves no name and
//! no overload again.

use crate::authored::{Argument, TypeArgument};
use crate::builtins::{function, ty_function};
use crate::calls::option_argument_terms;
use crate::checked::{
    BindingId, CheckedBlock, CheckedExpr, CheckedExprKind, Typed, TypedBlock, TypedKind, checked,
    copy_checked, option_name, typed_members, typeds,
};
use crate::compat::{
    compatible_static, compatible_with_bindable, equality_required_from, fit_binding, fit_static,
    fits, substitute_fields, substituted_fields, validate_equality_requirements,
};
use crate::declare::{copy_fields, field_types};
use crate::env::{Env, World, candidate_ids, ready_value};
use crate::equality::{check_equality_specialization, specialized};
use crate::error::{Failure, MagError, failure_text, verdict};
use crate::overload::{
    CallCandidateRejection, CallRejectionReason, Hole, InferredTypeArgumentHole, Instance,
    InstantiatedCallCandidate, Reason, Rejection, conflicting_explicit_hole, conflicting_hole,
    constrain_result, hole_views, holes_filled, rejected, rejections, render_call_rejections,
    result_fit, validate_inferred_holes,
};
use crate::scope::{
    Candidate, CheckedCandidate, cands, instance_bindable, instance_requirements, instance_type,
    instantiate_candidate, instantiated_equality_requirements, option_texts, visible,
    visible_candidates,
};
use crate::text::{
    cat2, cat3, cat4, cat6, count_text, decimal, join_texts, joined, same_text, texts,
};
use crate::types::{
    MagType, Names, Subst, Ty, internal_type_variables, internal_vars, substitute, substitute_all,
    substituted, substituted_all, ty_text, ty_texts, type_texts, tys,
};
use crate::value::{Val, Value, option_ty};
use vstd::prelude::*;

verus! {

// ---------------------------------------------------------------------------
// Outcomes
// ---------------------------------------------------------------------------

/// A state of checking and the expression that it came to.
pub ghost struct Compiled {
    pub world: World,
    pub result: Result<Typed, Failure>,
}

/// A state of checking and the expressions that it came to.
pub ghost struct Compileds {
    pub world: World,
    pub result: Result<Seq<Typed>, Failure>,
}

/// A state of checking and the fields that it came to.
pub ghost struct Members {
    pub world: World,
    pub result: Result<Seq<(Seq<char>, Typed)>, Failure>,
}

/// A state of checking and the block that it came to.
pub ghost struct Blocked {
    pub world: World,
    pub result: Result<TypedBlock, Failure>,
}

pub open spec fn done(world: World, value: Typed) -> Compiled {
    Compiled { world, result: Ok(value) }
}

pub open spec fn failed(world: World, failure: Failure) -> Compiled {
    Compiled { world, result: Err(failure) }
}

pub open spec fn compiling(world: World, result: Result<CheckedExpr, MagError>) -> Compiled {
    Compiled {
        world,
        result: match result {
            Ok(value) => Ok(value@),
            Err(error) => Err(error@),
        },
    }
}

pub open spec fn compiling_all(world: World, result: Result<Vec<CheckedExpr>, MagError>) -> Compileds {
    Compileds {
        world,
        result: match result {
            Ok(list) => Ok(typeds(list@)),
            Err(error) => Err(error@),
        },
    }
}

pub open spec fn compiling_members(
    world: World,
    result: Result<Vec<(String, CheckedExpr)>, MagError>,
) -> Members {
    Members {
        world,
        result: match result {
            Ok(list) => Ok(typed_members(list@)),
            Err(error) => Err(error@),
        },
    }
}

pub open spec fn compiling_block(world: World, result: Result<CheckedBlock, MagError>) -> Blocked {
    Blocked {
        world,
        result: match result {
            Ok(block) => Ok(block@),
            Err(error) => Err(error@),
        },
    }
}

/// The verdict on a type where another one is expected, while checking.
pub open spec fn statically(world: World, actual: Ty, expected: Ty) -> Result<(), Failure> {
    match fit_static(world, actual, expected, Map::empty()).result {
        Ok(_) => Ok(()),
        Err(message) => Err(Failure::Type(message)),
    }
}

pub fn check_static(env: &Env, actual: &MagType, expected: &MagType) -> (result: Result<
    (),
    MagError,
>)
    ensures
        verdict(result) == statically(env@, actual@, expected@),
{
    let mut subst = Subst::new();
    match compatible_static(env, actual, expected, &mut subst) {
        Ok(_) => Ok(()),
        Err(message) => Err(MagError::Type(message)),
    }
}

pub open spec fn option_type(ty: Option<&MagType>) -> Option<Ty> {
    match ty {
        Some(ty) => Some(ty@),
        None => None,
    }
}

/// An expression that has to fit what is expected, at which its equality
/// requirements hold.
pub open spec fn accepted(world: World, value: Typed, expected: Option<Ty>) -> Compiled {
    let fit = match expected {
        Some(ty) => statically(world, value.ty, ty),
        None => Ok(()),
    };
    match fit {
        Err(failure) => failed(world, failure),
        Ok(_) => {
            let ty = match expected {
                Some(ty) => ty,
                None => value.ty,
            };
            let step = specialized(world, value, ty, Map::empty());
            match step.result {
                Err(failure) => failed(step.world, failure),
                Ok(_) => done(step.world, value),
            }
        },
    }
}

pub(crate) fn accept(env: &mut Env, value: CheckedExpr, expected: Option<&MagType>) -> (result: Result<
    CheckedExpr,
    MagError,
>)
    ensures
        compiling(final(env)@, result) == accepted(old(env)@, value@, option_type(expected)),
{
    assert(value@.ty == value.ty@);
    match expected {
        Some(ty) => {
            match check_static(env, &value.ty, ty) {
                Err(error) => return Err(error),
                Ok(_) => {},
            }
            match check_equality_specialization(env, &value, ty, &Subst::new()) {
                Err(error) => Err(error),
                Ok(_) => Ok(value),
            }
        },
        None => match check_equality_specialization(env, &value, &value.ty, &Subst::new()) {
            Err(error) => Err(error),
            Ok(_) => Ok(value),
        },
    }
}

/// The types of expressions.
pub open spec fn types_of(list: Seq<Typed>) -> Seq<Ty> {
    Seq::new(list.len(), |i: int| list[i].ty)
}

pub(crate) fn collect_types(list: &Vec<CheckedExpr>) -> (types: Vec<MagType>)
    ensures
        tys(types@) == types_of(typeds(list@)),
{
    let ghost all = typeds(list@);
    let mut types: Vec<MagType> = Vec::new();
    let mut i: usize = 0;
    while i < list.len()
        invariant
            i <= list@.len(),
            types@.len() == i,
            all == typeds(list@),
            forall|j: int| 0 <= j < i ==> (#[trigger] types@[j])@ == all[j].ty,
        decreases list@.len() - i,
    {
        assert(all[i as int] == list@[i as int]@);
        assert(list@[i as int]@.ty == list@[i as int].ty@);
        types.push(list[i].ty.copy());
        i = i + 1;
    }
    assert(tys(types@) =~= types_of(all));
    types
}

/// A call of a binding.
pub open spec fn built_call(id: BindingId, args: Seq<Typed>, params: Seq<Ty>, result: Ty) -> Typed {
    Typed {
        ty: result,
        kind: TypedKind::Call(
            Box::new(
                Typed { ty: ty_function(params, result), kind: TypedKind::BindingRef(id) },
            ),
            args,
            Seq::empty(),
        ),
    }
}

pub(crate) fn build_call(id: BindingId, args: Vec<CheckedExpr>, params: Vec<MagType>, result: MagType) -> (call:
    CheckedExpr)
    ensures
        call@ == built_call(id, typeds(args@), tys(params@), result@),
{
    let callee = checked(function(params, result.copy()), CheckedExprKind::BindingRef(id));
    let bindings: Vec<(String, MagType)> = Vec::new();
    assert(field_types(bindings@) =~= Seq::<(Seq<char>, Ty)>::empty());
    let kind = CheckedExprKind::Call { callee: Box::new(callee), args, type_bindings: bindings };
    assert(callee@.kind == TypedKind::BindingRef(id));
    assert(kind@ == TypedKind::Call(
        Box::new(callee@),
        typeds(args@),
        Seq::<(Seq<char>, Ty)>::empty(),
    ));
    checked(result, kind)
}

pub(crate) fn one_checked(first: CheckedExpr) -> (list: Vec<CheckedExpr>)
    ensures
        typeds(list@) == seq![first@],
{
    let list = vec![first];
    assert(typeds(list@) =~= seq![first@]);
    list
}

pub(crate) fn two_checked(first: CheckedExpr, second: CheckedExpr) -> (list: Vec<CheckedExpr>)
    ensures
        typeds(list@) == seq![first@, second@],
{
    let list = vec![first, second];
    assert(typeds(list@) =~= seq![first@, second@]);
    list
}

pub(crate) fn three_checked(first: CheckedExpr, second: CheckedExpr, third: CheckedExpr) -> (list: Vec<
    CheckedExpr,
>)
    ensures
        typeds(list@) == seq![first@, second@, third@],
{
    let list = vec![first, second, third];
    assert(typeds(list@) =~= seq![first@, second@, third@]);
    list
}

// ---------------------------------------------------------------------------
// Names
// ---------------------------------------------------------------------------

/// The type of a candidate where something is expected of it, if it fits.
pub open spec fn symbol_type(world: World, candidate: Candidate, expected: Option<Ty>) -> Option<Ty> {
    let ty = instance_type(candidate);
    match expected {
        None => Some(ty),
        Some(wanted) => {
            let bindable = instance_bindable(candidate).union(internal_vars(wanted));
            if candidate.binders.len() != 0 {
                let fit = fit_binding(world, wanted, ty, Map::empty(), bindable);
                match fit.result {
                    Ok(_) => Some(substituted(ty, fit.subst)),
                    Err(_) => None,
                }
            } else {
                match fit_binding(world, ty, wanted, Map::empty(), bindable).result {
                    Ok(_) => Some(ty),
                    Err(_) => None,
                }
            }
        },
    }
}

/// The candidates among the first `n` that fit, with their types.
pub open spec fn symbol_matches(world: World, list: Seq<Candidate>, expected: Option<Ty>, n: int) -> Seq<
    (Candidate, Ty),
>
    decreases n,
{
    if n <= 0 {
        Seq::empty()
    } else {
        let before = symbol_matches(world, list, expected, n - 1);
        match symbol_type(world, list[n - 1], expected) {
            Some(ty) => before.push((list[n - 1], ty)),
            None => before,
        }
    }
}

/// Those of the first `n` matches that have no type parameters.
pub open spec fn concrete_matches(list: Seq<(Candidate, Ty)>, n: int) -> Seq<(Candidate, Ty)>
    decreases n,
{
    if n <= 0 {
        Seq::empty()
    } else if list[n - 1].0.binders.len() == 0 {
        concrete_matches(list, n - 1).push(list[n - 1])
    } else {
        concrete_matches(list, n - 1)
    }
}

/// Those of the first `n` matches that are no functions.
pub open spec fn data_matches(list: Seq<(Candidate, Ty)>, n: int) -> Seq<(Candidate, Ty)>
    decreases n,
{
    if n <= 0 {
        Seq::empty()
    } else if list[n - 1].1 is Function {
        data_matches(list, n - 1)
    } else {
        data_matches(list, n - 1).push(list[n - 1])
    }
}

/// The matches that are left: the only one without type parameters, and, where
/// nothing is expected, the only one that is no function.
pub open spec fn narrowed(list: Seq<(Candidate, Ty)>, unexpected: bool) -> Seq<(Candidate, Ty)> {
    let concrete = concrete_matches(list, list.len() as int);
    let first = if list.len() > 1 && concrete.len() == 1 {
        concrete
    } else {
        list
    };
    let data = data_matches(first, first.len() as int);
    if unexpected && first.len() > 1 && data.len() == 1 {
        data
    } else {
        first
    }
}

pub open spec fn match_types(list: Seq<(Candidate, Ty)>) -> Seq<Ty> {
    Seq::new(list.len(), |i: int| list[i].1)
}

pub open spec fn expected_text(expected: Option<Ty>) -> Seq<char> {
    match expected {
        Some(ty) => ty_text(ty),
        None => "context"@,
    }
}

/// What a name stands for.
pub open spec fn symbol(
    world: World,
    scopes: Seq<Candidate>,
    name: Seq<char>,
    expected: Option<Ty>,
) -> Result<Typed, Failure> {
    let all = visible(world, scopes, name);
    let left = narrowed(
        symbol_matches(world, all, expected, all.len() as int),
        expected is None,
    );
    if left.len() == 1 {
        Ok(Typed { ty: left[0].1, kind: TypedKind::BindingRef(left[0].0.id) })
    } else if left.len() != 0 {
        Err(
            Failure::Type(
                "ambiguous overload "@ + name + "; candidates: "@ + joined(
                    ty_texts(match_types(left)),
                    ", "@,
                ),
            ),
        )
    } else if all.len() == 0 {
        Err(Failure::Unresolved(name))
    } else {
        Err(Failure::Type("no overload "@ + name + " matches "@ + expected_text(expected)))
    }
}

pub open spec fn matched(list: Seq<(CheckedCandidate, MagType)>) -> Seq<(Candidate, Ty)> {
    Seq::new(list.len(), |i: int| (list[i].0@, list[i].1@))
}

fn fit_symbol(env: &Env, candidate: &CheckedCandidate, expected: Option<&MagType>) -> (ty: Option<
    MagType,
>)
    ensures
        option_ty(ty) == symbol_type(env@, candidate@, option_type(expected)),
{
    let (ty, mut bindable) = instantiate_candidate(candidate);
    match expected {
        None => Some(ty),
        Some(wanted) => {
            bindable.extend(&internal_type_variables(wanted));
            let mut subst = Subst::new();
            assert(texts(candidate.generic_binders@).len() == candidate.generic_binders@.len());
            if candidate.generic_binders.len() != 0 {
                match compatible_with_bindable(env, wanted, &ty, &mut subst, &bindable) {
                    Ok(_) => Some(substitute(&ty, &subst)),
                    Err(_) => None,
                }
            } else {
                match compatible_with_bindable(env, &ty, wanted, &mut subst, &bindable) {
                    Ok(_) => Some(ty),
                    Err(_) => None,
                }
            }
        },
    }
}

fn keep_concrete(list: &Vec<(CheckedCandidate, MagType)>) -> (kept: Vec<(CheckedCandidate, MagType)>)
    ensures
        matched(kept@) == concrete_matches(matched(list@), list@.len() as int),
{
    let ghost all = matched(list@);
    let mut kept: Vec<(CheckedCandidate, MagType)> = Vec::new();
    assert(matched(kept@) =~= concrete_matches(all, 0));
    let mut i: usize = 0;
    while i < list.len()
        invariant
            i <= list@.len(),
            all == matched(list@),
            matched(kept@) == concrete_matches(all, i as int),
        decreases list@.len() - i,
    {
        assert(all[i as int] == (list@[i as int].0@, list@[i as int].1@));
        assert(texts(list@[i as int].0.generic_binders@).len()
            == list@[i as int].0.generic_binders@.len());
        if list[i].0.generic_binders.len() == 0 {
            let ghost before = matched(kept@);
            kept.push((list[i].0.copy(), list[i].1.copy()));
            assert(matched(kept@) =~= before.push(all[i as int]));
        }
        i = i + 1;
    }
    kept
}

fn keep_data(list: &Vec<(CheckedCandidate, MagType)>) -> (kept: Vec<(CheckedCandidate, MagType)>)
    ensures
        matched(kept@) == data_matches(matched(list@), list@.len() as int),
{
    let ghost all = matched(list@);
    let mut kept: Vec<(CheckedCandidate, MagType)> = Vec::new();
    assert(matched(kept@) =~= data_matches(all, 0));
    let mut i: usize = 0;
    while i < list.len()
        invariant
            i <= list@.len(),
            all == matched(list@),
            matched(kept@) == data_matches(all, i as int),
        decreases list@.len() - i,
    {
        assert(all[i as int] == (list@[i as int].0@, list@[i as int].1@));
        match &list[i].1 {
            MagType::Function(_, _) => {},
            _ => {
                let ghost before = matched(kept@);
                kept.push((list[i].0.copy(), list[i].1.copy()));
                assert(matched(kept@) =~= before.push(all[i as int]));
            },
        }
        i = i + 1;
    }
    kept
}

fn narrow(list: Vec<(CheckedCandidate, MagType)>, unexpected: bool) -> (left: Vec<
    (CheckedCandidate, MagType),
>)
    ensures
        matched(left@) == narrowed(matched(list@), unexpected),
{
    let concrete = keep_concrete(&list);
    assert(matched(concrete@).len() == concrete@.len());
    assert(matched(list@).len() == list@.len());
    let first = if list.len() > 1 && concrete.len() == 1 {
        concrete
    } else {
        list
    };
    assert(matched(first@).len() == first@.len());
    let data = keep_data(&first);
    assert(matched(data@).len() == data@.len());
    if unexpected && first.len() > 1 && data.len() == 1 {
        data
    } else {
        first
    }
}

pub fn compile_symbol(
    env: &Env,
    scopes: &Vec<CheckedCandidate>,
    name: &str,
    expected: Option<&MagType>,
) -> (result: Result<CheckedExpr, MagError>)
    ensures
        (match result {
            Ok(value) => Ok(value@),
            Err(error) => Err(error@),
        }) == symbol(env@, cands(scopes@), name@, option_type(expected)),
{
    let found = visible_candidates(env, scopes, name);
    let ghost all = cands(found@);
    let ghost wanted = option_type(expected);
    let mut list: Vec<(CheckedCandidate, MagType)> = Vec::new();
    assert(matched(list@) =~= symbol_matches(env@, all, wanted, 0));
    let mut i: usize = 0;
    while i < found.len()
        invariant
            i <= found@.len(),
            all == cands(found@),
            wanted == option_type(expected),
            matched(list@) == symbol_matches(env@, all, wanted, i as int),
        decreases found@.len() - i,
    {
        assert(all[i as int] == found@[i as int]@);
        if let Some(ty) = fit_symbol(env, &found[i], expected) {
            let ghost before = matched(list@);
            let ghost added = (found@[i as int]@, ty@);
            list.push((found[i].copy(), ty));
            assert(matched(list@) =~= before.push(added));
        }
        i = i + 1;
    }
    assert(all.len() == found@.len());
    let left = narrow(list, expected.is_none());
    let ghost views = matched(left@);
    assert(views == narrowed(
        symbol_matches(env@, all, wanted, all.len() as int),
        wanted is None,
    ));
    assert(views.len() == left@.len());
    if left.len() == 1 {
        assert(views[0] == (left@[0].0@, left@[0].1@));
        let value = checked(left[0].1.copy(), CheckedExprKind::BindingRef(left[0].0.id));
        return Ok(value);
    }
    if left.len() != 0 {
        let mut types: Vec<MagType> = Vec::new();
        let mut i: usize = 0;
        while i < left.len()
            invariant
                i <= left@.len(),
                types@.len() == i,
                views == matched(left@),
                forall|j: int| 0 <= j < i ==> (#[trigger] types@[j])@ == views[j].1,
            decreases left@.len() - i,
        {
            types.push(left[i].1.copy());
            i = i + 1;
        }
        assert(tys(types@) =~= match_types(views));
        let parts = type_texts(&types);
        let list = join_texts(&parts, ", ");
        return Err(
            MagError::Type(cat4("ambiguous overload ", name, "; candidates: ", list.as_str())),
        );
    }
    if found.len() == 0 {
        return Err(MagError::Unresolved(name.to_owned()));
    }
    let context = match expected {
        Some(ty) => ty.text(),
        None => "context".to_owned(),
    };
    Err(MagError::Type(cat4("no overload ", name, " matches ", context.as_str())))
}

// ---------------------------------------------------------------------------
// Parts of calls that need no further checking of expressions
// ---------------------------------------------------------------------------

/// A function that fits a call.
pub ghost struct Matched {
    pub candidate: Candidate,
    pub args: Seq<Typed>,
    pub output: Ty,
    pub callee: Ty,
    pub bindings: Seq<(Seq<char>, Ty)>,
}

pub struct CallMatch {
    pub candidate: CheckedCandidate,
    pub args: Vec<CheckedExpr>,
    pub output: MagType,
    pub callee_type: MagType,
    pub type_bindings: Vec<(String, MagType)>,
}

impl CallMatch {
    pub open spec fn view(&self) -> Matched {
        Matched {
            candidate: self.candidate@,
            args: typeds(self.args@),
            output: self.output@,
            callee: self.callee_type@,
            bindings: field_types(self.type_bindings@),
        }
    }
}

pub open spec fn call_matches(list: Seq<CallMatch>) -> Seq<Matched> {
    Seq::new(list.len(), |i: int| list[i].view())
}

/// What an attempt to call a candidate came to.
pub ghost struct Completion {
    pub world: World,
    pub result: Result<Matched, Reason>,
}

/// A call whose arguments fit: its result has to fit too, every hole has to be
/// filled, and what has to support equality must do so.
pub open spec fn completed(
    world: World,
    name: Seq<char>,
    candidate: Candidate,
    instance: Instance,
    params: Seq<Ty>,
    result: Ty,
    args: Seq<Typed>,
    subst: Map<Seq<char>, Ty>,
    expected: Option<Ty>,
) -> Completion {
    let output = substituted(result, subst);
    let fit = match expected {
        Some(ty) => result_fit(world, output, ty, subst, instance.bindable),
        None => fits(subst),
    };
    match fit.result {
        Err(message) => Completion {
            world,
            result: Err(
                Reason::ResultMismatch(
                    match expected {
                        Some(ty) => ty,
                        None => Ty::Unit,
                    },
                    output,
                    failure_text(Failure::Type(message)),
                ),
            ),
        },
        Ok(_) => match holes_filled(name, instance.holes, fit.subst) {
            Err(failure) => Completion {
                world,
                result: Err(Reason::HoleConflict(failure_text(failure))),
            },
            Ok(_) => {
                let step = equality_required_from(
                    world,
                    instance_requirements(world, candidate),
                    fit.subst,
                    0,
                );
                Completion {
                    world: step.world,
                    result: match step.result {
                        Err(failure) => Err(Reason::Equality(failure_text(failure))),
                        Ok(_) => Ok(
                            Matched {
                                candidate,
                                args,
                                output: substituted(result, fit.subst),
                                callee: ty_function(
                                    substituted_all(params, fit.subst),
                                    substituted(result, fit.subst),
                                ),
                                bindings: substituted_fields(instance.bindings, fit.subst),
                            },
                        ),
                    },
                }
            },
        },
    }
}

pub open spec fn completing(world: World, result: Result<CallMatch, CallRejectionReason>) -> Completion {
    Completion {
        world,
        result: match result {
            Ok(found) => Ok(found@),
            Err(reason) => Err(reason@),
        },
    }
}

pub(crate) fn complete(
    env: &mut Env,
    name: &str,
    candidate: &CheckedCandidate,
    instance: &InstantiatedCallCandidate,
    params: &Vec<MagType>,
    result: &MagType,
    args: Vec<CheckedExpr>,
    subst: Subst,
    expected: Option<&MagType>,
) -> (outcome: Result<CallMatch, CallRejectionReason>)
    ensures
        completing(final(env)@, outcome) == completed(
            old(env)@,
            name@,
            candidate@,
            instance@,
            tys(params@),
            result@,
            typeds(args@),
            subst@,
            option_type(expected),
        ),
{
    let mut subst = subst;
    let output = substitute(result, &subst);
    if let Some(ty) = expected {
        match constrain_result(env, &output, ty, &mut subst, &instance.bindable) {
            Err(message) => {
                let error = MagError::Type(message).message();
                return Err(
                    CallRejectionReason::ResultMismatch { expected: ty.copy(), actual: output, error },
                );
            },
            Ok(_) => {},
        }
    }
    match validate_inferred_holes(name, &instance.holes, &subst) {
        Err(error) => {
            return Err(CallRejectionReason::HoleConflict { error: error.message() });
        },
        Ok(_) => {},
    }
    let requirements = instantiated_equality_requirements(env, candidate);
    match validate_equality_requirements(env, &requirements, &subst) {
        Err(error) => {
            return Err(CallRejectionReason::Equality { error: error.message() });
        },
        Ok(_) => {},
    }
    let output = substitute(result, &subst);
    let callee_type = function(substitute_all(params, &subst), output.copy());
    Ok(
        CallMatch {
            candidate: candidate.copy(),
            args,
            output,
            callee_type,
            type_bindings: substitute_fields(&instance.type_bindings, &subst),
        },
    )
}

/// Those of the first `n` matches whose candidate has no type parameters.
pub open spec fn concrete_calls(list: Seq<Matched>, n: int) -> Seq<Matched>
    decreases n,
{
    if n <= 0 {
        Seq::empty()
    } else if list[n - 1].candidate.binders.len() == 0 {
        concrete_calls(list, n - 1).push(list[n - 1])
    } else {
        concrete_calls(list, n - 1)
    }
}

/// The call that candidates come to.
pub open spec fn overload_result(name: Seq<char>, found: Seq<Matched>, refused: Seq<Rejection>) -> Result<
    Typed,
    Failure,
> {
    let concrete = concrete_calls(found, found.len() as int);
    let left = if found.len() > 1 && concrete.len() == 1 {
        concrete
    } else {
        found
    };
    if left.len() == 1 {
        Ok(
            Typed {
                ty: left[0].output,
                kind: TypedKind::Call(
                    Box::new(
                        Typed {
                            ty: left[0].callee,
                            kind: TypedKind::BindingRef(left[0].candidate.id),
                        },
                    ),
                    left[0].args,
                    left[0].bindings,
                ),
            },
        )
    } else if left.len() == 0 {
        Err(rejected(name, refused))
    } else {
        Err(Failure::Type("ambiguous overload "@ + name + " for call"@))
    }
}

fn finish_call(found: &CallMatch) -> (call: CheckedExpr)
    ensures
        call@ == (Typed {
            ty: found@.output,
            kind: TypedKind::Call(
                Box::new(
                    Typed {
                        ty: found@.callee,
                        kind: TypedKind::BindingRef(found@.candidate.id),
                    },
                ),
                found@.args,
                found@.bindings,
            ),
        }),
{
    let callee = checked(
        found.callee_type.copy(),
        CheckedExprKind::BindingRef(found.candidate.id),
    );
    assert(callee@.kind == TypedKind::BindingRef(found.candidate.id));
    let args = copy_checked(&found.args);
    let type_bindings = copy_fields(&found.type_bindings);
    let kind = CheckedExprKind::Call { callee: Box::new(callee), args, type_bindings };
    assert(kind@ == TypedKind::Call(
        Box::new(callee@),
        typeds(args@),
        field_types(type_bindings@),
    ));
    checked(found.output.copy(), kind)
}

pub(crate) fn finish_overload(
    name: &str,
    found: Vec<CallMatch>,
    refused: Vec<CallCandidateRejection>,
) -> (result: Result<CheckedExpr, MagError>)
    ensures
        (match result {
            Ok(value) => Ok(value@),
            Err(error) => Err(error@),
        }) == overload_result(name@, call_matches(found@), rejections(refused@)),
{
    let ghost all = call_matches(found@);
    assert(all.len() == found@.len());
    let mut concrete: Vec<usize> = Vec::new();
    let mut i: usize = 0;
    while i < found.len()
        invariant
            i <= found@.len(),
            all == call_matches(found@),
            concrete@.len() == concrete_calls(all, i as int).len(),
            forall|j: int|
                0 <= j < concrete@.len() ==> (#[trigger] concrete@[j]) < found@.len()
                    && concrete_calls(all, i as int)[j] == all[concrete@[j] as int],
        decreases found@.len() - i,
    {
        assert(all[i as int] == found@[i as int]@);
        assert(texts(found@[i as int].candidate.generic_binders@).len()
            == found@[i as int].candidate.generic_binders@.len());
        if found[i].candidate.generic_binders.len() == 0 {
            concrete.push(i);
        }
        i = i + 1;
    }
    if found.len() > 1 && concrete.len() == 1 {
        let k = concrete[0];
        assert(all[k as int] == found@[k as int]@);
        return Ok(finish_call(&found[k]));
    }
    if found.len() == 1 {
        assert(all[0] == found@[0]@);
        return Ok(finish_call(&found[0]));
    }
    if found.len() == 0 {
        return Err(render_call_rejections(name, refused));
    }
    Err(MagError::Type(cat3("ambiguous overload ", name, " for call")))
}

/// Numbers in ascending order, with one more.
pub open spec fn put_number(list: Seq<nat>, n: nat) -> Seq<nat>
    decreases list.len(),
{
    if list.len() == 0 {
        seq![n]
    } else if list.last() == n {
        list
    } else if list.last() < n {
        list.push(n)
    } else {
        put_number(list.drop_last(), n).push(list.last())
    }
}

/// How many type parameters the first `n` candidates have, in ascending order.
pub open spec fn binder_counts(list: Seq<Candidate>, n: int) -> Seq<nat>
    decreases n,
{
    if n <= 0 {
        Seq::empty()
    } else {
        put_number(binder_counts(list, n - 1), list[n - 1].binders.len())
    }
}

pub open spec fn number_texts(list: Seq<nat>) -> Seq<Seq<char>> {
    Seq::new(list.len(), |i: int| decimal(list[i]))
}

pub open spec fn numbers(list: Seq<usize>) -> Seq<nat> {
    Seq::new(list.len(), |i: int| list[i] as nat)
}

fn insert_number(list: &mut Vec<usize>, n: usize)
    ensures
        numbers(final(list)@) == put_number(numbers(old(list)@), n as nat),
{
    let ghost all = numbers(list@);
    let mut at: usize = list.len();
    assert(all.take(at as int) =~= all);
    assert(put_number(all, n as nat) =~= put_number(all.take(at as int), n as nat) + all.skip(
        at as int,
    ));
    while at > 0 && list[at - 1] > n
        invariant
            at <= list@.len(),
            list@ == old(list)@,
            all == numbers(list@),
            put_number(all, n as nat) == put_number(all.take(at as int), n as nat) + all.skip(
                at as int,
            ),
        decreases at,
    {
        proof {
            let shorter = all.take(at as int);
            assert(shorter.last() == all[at - 1]);
            assert(shorter.drop_last() =~= all.take(at - 1));
            assert(put_number(all.take(at - 1), n as nat).push(all[at - 1]) + all.skip(at as int)
                =~= put_number(all.take(at - 1), n as nat) + all.skip(at - 1));
        }
        at = at - 1;
    }
    if at > 0 && list[at - 1] == n {
        proof {
            let shorter = all.take(at as int);
            assert(shorter.last() == all[at - 1]);
            assert(shorter + all.skip(at as int) =~= all);
        }
        return;
    }
    list.insert(at, n);
    proof {
        let shorter = all.take(at as int);
        if at > 0 {
            assert(shorter.last() == all[at - 1]);
            assert(numbers(list@) =~= shorter.push(n as nat) + all.skip(at as int));
        } else {
            assert(shorter =~= Seq::empty());
            assert(numbers(list@) =~= seq![n as nat] + all.skip(0));
        }
    }
}

/// Those of the first `n` candidates that have a number of type parameters.
pub open spec fn with_binder_count(list: Seq<Candidate>, count: nat, n: int) -> Seq<Candidate>
    decreases n,
{
    if n <= 0 {
        Seq::empty()
    } else if list[n - 1].binders.len() == count {
        with_binder_count(list, count, n - 1).push(list[n - 1])
    } else {
        with_binder_count(list, count, n - 1)
    }
}

pub open spec fn none_generic_from(list: Seq<Candidate>, i: int) -> bool
    decreases list.len() - i,
{
    0 <= i < list.len() ==> (list[i].binders.len() == 0 && none_generic_from(list, i + 1))
}

pub open spec fn not_generic(name: Seq<char>) -> Failure {
    Failure::Type(
        name + " is not a generic function and does not accept explicit type arguments"@,
    )
}

pub(crate) fn not_generic_error(name: &str) -> (error: MagError)
    ensures
        error@ == not_generic(name@),
{
    MagError::Type(
        cat2(name, " is not a generic function and does not accept explicit type arguments"),
    )
}

/// The candidates that take the type arguments of a call.
pub open spec fn taking(name: Seq<char>, list: Seq<Candidate>, explicit: Option<Seq<Argument>>) -> Result<
    Seq<Candidate>,
    Failure,
> {
    match explicit {
        None => Ok(list),
        Some(arguments) => if none_generic_from(list, 0) {
            Err(not_generic(name))
        } else {
            let left = with_binder_count(list, arguments.len(), list.len() as int);
            if left.len() == 0 {
                Err(
                    Failure::Type(
                        "generic call "@ + name + " has no overload with exactly "@ + decimal(
                            arguments.len(),
                        ) + " type arguments; declared arities: "@ + joined(
                            number_texts(binder_counts(list, list.len() as int)),
                            ", "@,
                        ),
                    ),
                )
            } else {
                Ok(left)
            }
        },
    }
}

pub(crate) fn take_explicit(
    name: &str,
    list: Vec<CheckedCandidate>,
    explicit: Option<&Vec<TypeArgument>>,
) -> (result: Result<Vec<CheckedCandidate>, MagError>)
    ensures
        (match result {
            Ok(left) => Ok(cands(left@)),
            Err(error) => Err(error@),
        }) == taking(name@, cands(list@), option_argument_terms(explicit)),
{
    let arguments = match explicit {
        None => return Ok(list),
        Some(arguments) => arguments,
    };
    let ghost all = cands(list@);
    let count = arguments.len();
    let mut generic = false;
    let mut left: Vec<CheckedCandidate> = Vec::new();
    let mut counts: Vec<usize> = Vec::new();
    assert(cands(left@) =~= with_binder_count(all, count as nat, 0));
    assert(numbers(counts@) =~= binder_counts(all, 0));
    let mut i: usize = 0;
    while i < list.len()
        invariant
            i <= list@.len(),
            all == cands(list@),
            generic ==> !none_generic_from(all, 0),
            !generic ==> none_generic_from(all, 0) == none_generic_from(all, i as int),
            cands(left@) == with_binder_count(all, count as nat, i as int),
            numbers(counts@) == binder_counts(all, i as int),
        decreases list@.len() - i,
    {
        assert(all[i as int] == list@[i as int]@);
        assert(texts(list@[i as int].generic_binders@).len()
            == list@[i as int].generic_binders@.len());
        let own = list[i].generic_binders.len();
        if own != 0 {
            generic = true;
        }
        if own == count {
            let ghost before = cands(left@);
            let added = list[i].copy();
            left.push(added);
            assert(cands(left@) =~= before.push(added@));
        }
        insert_number(&mut counts, own);
        i = i + 1;
    }
    assert(all.len() == list@.len());
    if !generic {
        return Err(not_generic_error(name));
    }
    assert(cands(left@).len() == left@.len());
    if left.len() == 0 {
        let mut parts: Vec<String> = Vec::new();
        let ghost sorted = numbers(counts@);
        let mut i: usize = 0;
        while i < counts.len()
            invariant
                i <= counts@.len(),
                parts@.len() == i,
                sorted == numbers(counts@),
                forall|j: int| 0 <= j < i ==> (#[trigger] parts@[j])@ == decimal(sorted[j]),
            decreases counts@.len() - i,
        {
            assert(sorted[i as int] == counts@[i as int] as nat);
            parts.push(count_text(counts[i]));
            i = i + 1;
        }
        assert(texts(parts@) =~= number_texts(sorted));
        let arities = join_texts(&parts, ", ");
        let count = count_text(count);
        return Err(
            MagError::Type(
                cat6(
                    "generic call ",
                    name,
                    " has no overload with exactly ",
                    count.as_str(),
                    " type arguments; declared arities: ",
                    arities.as_str(),
                ),
            ),
        );
    }
    Ok(left)
}

/// The functions among the first `n` candidates.
pub open spec fn function_cands(list: Seq<Candidate>, n: int) -> Seq<Candidate>
    decreases n,
{
    if n <= 0 {
        Seq::empty()
    } else if list[n - 1].ty is Function {
        function_cands(list, n - 1).push(list[n - 1])
    } else {
        function_cands(list, n - 1)
    }
}

pub(crate) fn keep_functions(list: &Vec<CheckedCandidate>) -> (kept: Vec<CheckedCandidate>)
    ensures
        cands(kept@) == function_cands(cands(list@), list@.len() as int),
{
    let ghost all = cands(list@);
    let mut kept: Vec<CheckedCandidate> = Vec::new();
    assert(cands(kept@) =~= function_cands(all, 0));
    let mut i: usize = 0;
    while i < list.len()
        invariant
            i <= list@.len(),
            all == cands(list@),
            cands(kept@) == function_cands(all, i as int),
        decreases list@.len() - i,
    {
        assert(all[i as int] == list@[i as int]@);
        if let MagType::Function(_, _) = &list[i].ty {
            let ghost before = cands(kept@);
            let added = list[i].copy();
            kept.push(added);
            assert(cands(kept@) =~= before.push(added@));
        }
        i = i + 1;
    }
    kept
}

/// The first binding, from index `i` on, that is the function of the language
/// with a name.
pub open spec fn builtin_binding(world: World, ids: Seq<BindingId>, name: Seq<char>, i: int) -> Option<
    BindingId,
>
    decreases ids.len() - i,
{
    if i < 0 || i >= ids.len() {
        None
    } else if ready_value(world, ids[i]) == Some(Val::BuiltinFn(name)) {
        Some(ids[i])
    } else {
        builtin_binding(world, ids, name, i + 1)
    }
}

pub open spec fn builtin_bound(world: World, name: Seq<char>) -> Option<BindingId> {
    builtin_binding(world, candidate_ids(world, name), name, 0)
}

pub fn builtin_id(env: &Env, name: &str) -> (id: Option<BindingId>)
    ensures
        id == builtin_bound(env@, name@),
{
    let ids = env.lookup_candidate_ids(name);
    let mut i: usize = 0;
    while i < ids.len()
        invariant
            i <= ids@.len(),
            ids@ == candidate_ids(env@, name@),
            builtin_binding(env@, ids@, name@, 0) == builtin_binding(
                env@,
                ids@,
                name@,
                i as int,
            ),
        decreases ids@.len() - i,
    {
        if let Some(Value::BuiltinFn(builtin)) = env.ready_binding(ids[i]) {
            if same_text(builtin.as_str(), name) {
                return Some(ids[i]);
            }
        }
        i = i + 1;
    }
    None
}

// ---------------------------------------------------------------------------
// Arguments
// ---------------------------------------------------------------------------

/// Why an argument does not fit.
pub struct CallArgumentFailure {
    pub index: usize,
    pub name: Option<String>,
    pub checked_arguments: usize,
    pub expected: MagType,
    pub actual: Option<MagType>,
    pub conflicting_hole: Option<(usize, String, MagType)>,
    pub error: String,
}

pub ghost struct ArgumentFailure {
    pub index: nat,
    pub name: Option<Seq<char>>,
    pub checked: nat,
    pub expected: Ty,
    pub actual: Option<Ty>,
    pub conflict: Option<(nat, Seq<char>, Ty)>,
    pub error: Seq<char>,
}

pub open spec fn conflict_view(conflict: Option<(usize, String, MagType)>) -> Option<
    (nat, Seq<char>, Ty),
> {
    match conflict {
        Some((place, binder, ty)) => Some((place as nat, binder@, ty@)),
        None => None,
    }
}

impl CallArgumentFailure {
    pub open spec fn view(&self) -> ArgumentFailure {
        ArgumentFailure {
            index: self.index as nat,
            name: option_name(self.name),
            checked: self.checked_arguments as nat,
            expected: self.expected@,
            actual: option_ty(self.actual),
            conflict: conflict_view(self.conflicting_hole),
            error: self.error@,
        }
    }
}

pub open spec fn argument_reason(failure: ArgumentFailure) -> Reason {
    match failure.conflict {
        Some((place, binder, actual)) => Reason::SubstitutionConflict(
            failure.index,
            failure.name,
            place,
            binder,
            failure.expected,
            actual,
            failure.error,
        ),
        None => Reason::Argument(
            failure.index,
            failure.name,
            failure.expected,
            failure.actual,
            failure.error,
        ),
    }
}

pub(crate) fn explain_argument(failure: CallArgumentFailure) -> (reason: CallRejectionReason)
    ensures
        reason@ == argument_reason(failure@),
{
    match failure.conflicting_hole {
        Some((hole_index, hole_binder, actual)) => CallRejectionReason::SubstitutionConflict {
            index: failure.index,
            name: failure.name,
            hole_index,
            hole_binder,
            expected: failure.expected,
            actual,
            error: failure.error,
        },
        None => CallRejectionReason::Argument {
            index: failure.index,
            name: failure.name,
            expected: failure.expected,
            actual: failure.actual,
            error: failure.error,
        },
    }
}

pub open spec fn name_at(names: Option<Seq<Seq<char>>>, i: int) -> Option<Seq<char>> {
    match names {
        Some(names) => if 0 <= i < names.len() {
            Some(names[i])
        } else {
            None
        },
        None => None,
    }
}

pub(crate) fn find_name(names: &Option<Vec<String>>, i: usize) -> (name: Option<String>)
    ensures
        option_name(name) == name_at(option_texts(*names), i as int),
{
    match names {
        Some(names) => {
            assert(texts(names@).len() == names@.len());
            if i < names.len() {
                assert(texts(names@)[i as int] == names@[i as int]@);
                Some(names[i].clone())
            } else {
                None
            }
        },
        None => None,
    }
}

pub open spec fn conflict_with(
    world: World,
    actual: Option<Ty>,
    parameter: Ty,
    subst: Map<Seq<char>, Ty>,
    bindable: Set<Seq<char>>,
    holes: Seq<Hole>,
) -> Option<(nat, Seq<char>, Ty)> {
    match actual {
        None => None,
        Some(ty) => match conflicting_hole(world, ty, parameter, subst, bindable, holes) {
            Some((place, binder)) => Some((place, binder, ty)),
            None => None,
        },
    }
}

pub(crate) fn find_conflict(
    env: &Env,
    actual: &Option<MagType>,
    parameter: &MagType,
    subst: &Subst,
    bindable: &Names,
    holes: &Vec<InferredTypeArgumentHole>,
) -> (conflict: Option<(usize, String, MagType)>)
    ensures
        conflict_view(conflict) == conflict_with(
            env@,
            option_ty(*actual),
            parameter@,
            subst@,
            bindable@,
            hole_views(holes@),
        ),
{
    match actual {
        None => None,
        Some(ty) => match conflicting_explicit_hole(env, ty, parameter, subst, bindable, holes) {
            Some((place, binder)) => Some((place, binder, ty.copy())),
            None => None,
        },
    }
}

/// The arguments that are checked so far, each in its place, and what they tell
/// about variables.
pub ghost struct Slots {
    pub slots: Seq<Option<Typed>>,
    pub subst: Map<Seq<char>, Ty>,
    pub checked: nat,
}

pub ghost struct SlotPass {
    pub world: World,
    pub result: Result<Slots, ArgumentFailure>,
}

pub open spec fn option_typed(value: Option<CheckedExpr>) -> Option<Typed> {
    match value {
        Some(value) => Some(value@),
        None => None,
    }
}

pub open spec fn slot_views(list: Seq<Option<CheckedExpr>>) -> Seq<Option<Typed>> {
    Seq::new(list.len(), |i: int| option_typed(list[i]))
}

/// The arguments from index `i` on, if all are there.
pub open spec fn collected(slots: Seq<Option<Typed>>, i: int) -> Option<Seq<Typed>>
    decreases slots.len() - i,
{
    if i < 0 || i >= slots.len() {
        Some(Seq::empty())
    } else {
        match slots[i] {
            None => None,
            Some(first) => match collected(slots, i + 1) {
                None => None,
                Some(rest) => Some(seq![first] + rest),
            },
        }
    }
}

pub(crate) fn collect_slots(slots: &Vec<Option<CheckedExpr>>) -> (list: Option<Vec<CheckedExpr>>)
    ensures
        match (list, collected(slot_views(slots@), 0)) {
            (Some(list), Some(view)) => typeds(list@) == view && list@.len() == slots@.len(),
            (None, None) => true,
            _ => false,
        },
{
    let ghost all = slot_views(slots@);
    let mut list: Vec<CheckedExpr> = Vec::new();
    let mut i: usize = 0;
    while i < slots.len()
        invariant
            i <= slots@.len(),
            list@.len() == i,
            all == slot_views(slots@),
            match collected(all, 0) {
                Some(view) => match collected(all, i as int) {
                    Some(rest) => view == typeds(list@) + rest,
                    None => false,
                },
                None => collected(all, i as int) is None,
            },
        decreases slots@.len() - i,
    {
        assert(all[i as int] == option_typed(slots@[i as int]));
        match &slots[i] {
            None => return None,
            Some(value) => {
                let ghost before = typeds(list@);
                let value = value.copy();
                let ghost added = value@;
                list.push(value);
                proof {
                    assert(typeds(list@) =~= before.push(added));
                    if let Some(rest) = collected(all, i + 1) {
                        assert(before + (seq![added] + rest) =~= before.push(added) + rest);
                    }
                }
            },
        }
        i = i + 1;
    }
    assert(typeds(list@) + Seq::<Typed>::empty() =~= typeds(list@));
    Some(list)
}

/// Requires what arguments from index `i` on ask for at the types that they are
/// passed at.
pub open spec fn passed(
    world: World,
    args: Seq<Typed>,
    params: Seq<Ty>,
    names: Option<Seq<Seq<char>>>,
    subst: Map<Seq<char>, Ty>,
    checked: nat,
    i: int,
) -> (World, Result<(), ArgumentFailure>)
    decreases args.len() - i,
{
    if i < 0 || i >= args.len() || i >= params.len() {
        (world, Ok(()))
    } else {
        let expected = substituted(params[i], subst);
        let step = specialized(world, args[i], expected, subst);
        match step.result {
            Err(failure) => (
                step.world,
                Err(
                    ArgumentFailure {
                        index: i as nat,
                        name: name_at(names, i),
                        checked,
                        expected,
                        actual: Some(args[i].ty),
                        conflict: None,
                        error: failure_text(failure),
                    },
                ),
            ),
            Ok(_) => passed(step.world, args, params, names, subst, checked, i + 1),
        }
    }
}

pub open spec fn argument_verdict(result: Result<(), CallArgumentFailure>) -> Result<
    (),
    ArgumentFailure,
> {
    match result {
        Ok(_) => Ok(()),
        Err(failure) => Err(failure@),
    }
}

pub(crate) fn pass_arguments(
    env: &mut Env,
    args: &Vec<CheckedExpr>,
    params: &Vec<MagType>,
    names: &Option<Vec<String>>,
    subst: &Subst,
    checked_arguments: usize,
) -> (result: Result<(), CallArgumentFailure>)
    ensures
        (final(env)@, argument_verdict(result)) == passed(
            old(env)@,
            typeds(args@),
            tys(params@),
            option_texts(*names),
            subst@,
            checked_arguments as nat,
            0,
        ),
{
    let ghost all = typeds(args@);
    let ghost types = tys(params@);
    let ghost labels = option_texts(*names);
    let ghost whole = passed(
        old(env)@,
        all,
        types,
        labels,
        subst@,
        checked_arguments as nat,
        0,
    );
    let mut i: usize = 0;
    while i < args.len() && i < params.len()
        invariant
            i <= args@.len(),
            i <= params@.len(),
            all == typeds(args@),
            types == tys(params@),
            labels == option_texts(*names),
            whole == passed(
                old(env)@,
                all,
                types,
                labels,
                subst@,
                checked_arguments as nat,
                0,
            ),
            whole == passed(
                env@,
                all,
                types,
                labels,
                subst@,
                checked_arguments as nat,
                i as int,
            ),
        decreases args@.len() - i,
    {
        assert(all[i as int] == args@[i as int]@);
        assert(args@[i as int]@.ty == args@[i as int].ty@);
        assert(types[i as int] == params@[i as int]@);
        let expected = substitute(&params[i], subst);
        match check_equality_specialization(env, &args[i], &expected, subst) {
            Err(error) => {
                return Err(
                    CallArgumentFailure {
                        index: i,
                        name: find_name(names, i),
                        checked_arguments,
                        expected,
                        actual: Some(args[i].ty.copy()),
                        conflicting_hole: None,
                        error: error.message(),
                    },
                );
            },
            Ok(_) => {},
        }
        i = i + 1;
    }
    Ok(())
}

} // verus!
