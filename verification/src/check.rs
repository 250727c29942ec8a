//! Checking expressions, functions and blocks.

use crate::authored::{
    Argument, Arm, BlockItem, Expr, Function, Item, Lambda, MatchArm, Parameter, Term, Type,
    TypeArgument, TypeTerm, arm_terms, field_terms, items, option_arguments, parameter_terms,
    path_text, terms,
};
use crate::block::{
    all_lets, allocate_lets, declare_functions, declare_values, declared, find_declared,
    find_invalid, first_invalid, introduce, introduced, let_ids, next_id, places, strict_lets,
    with_functions, with_lets, with_shapes,
};
use crate::builtins::{
    Builtin, builtin_name, builtin_of, function, list, map_type, one, open_var, tag, three, two,
    ty_function, ty_list, ty_map, ty_tag, variable,
};
use crate::calls::{option_argument_terms, ty_vars, var_types};
use crate::checked::{
    BindingId, CheckedBinding, CheckedBlock, CheckedExpr, CheckedExprKind, CheckedFn,
    CheckedMatchArm, CheckedParam, Typed, TypedArm, TypedBinding, TypedBlock, TypedFn, TypedKind,
    TypedParam, checked, typed_arms, typed_bindings, typed_members, typed_params, typeds,
};
use crate::compat::{
    adt_constructors, compatible_static, compatible_with_bindable, constructor_ids,
    constructor_named, constructors_of, contains_constructor, contains_newtype,
    ensure_adt_exhaustive, equality_required, exhaustion, field_at, field_type, find_field,
    fit_binding, fit_static, fits, holds_newtype, instantiated_constructor, is_newtype_boundary,
    named_field_types, newtype_boundary, newtype_underlying, record_fields,
    require_equality_admissible, selected, underlying,
};
use crate::compile::{
    ArgumentFailure, Blocked, CallArgumentFailure, CallMatch, Compiled, Compileds, Matched,
    Members, SlotPass, Slots, accept, accepted, argument_reason, build_call, built_call,
    builtin_bound, builtin_id, call_matches, check_static, collect_slots, collect_types,
    collected, compile_symbol, compiling, compiling_all, compiling_block, compiling_members,
    complete, completed, conflict_with, done, explain_argument, failed, find_conflict, find_name,
    finish_overload, function_cands, keep_functions, name_at, not_generic, not_generic_error,
    one_checked, option_type, overload_result, pass_arguments, passed, slot_views, statically,
    symbol, take_explicit, taking, three_checked, two_checked, types_of,
};
use crate::declare::{
    Constructor, ConstructorDecl, ConstructorDeclarationId, ConstructorId, constructors,
    field_types,
};
use crate::env::{Env, World, gathered, gathering, noted, required, ungathered};
use crate::equality::{Bindings, bound_all, finalize_block_equality_requirements, finalized};
use crate::error::{Failure, MagError, failure_text};
use crate::infer::{
    arm_constructor, exactly_names, find_arm_constructor, infer, infer_builtin,
    infer_fn_signature_scoped, inferred, inferred_builtin, key_of, literal_key, match_names,
    name_of, term_names, type_names, written_type,
};
use crate::overload::{
    CallCandidateRejection, CallRejectionReason, Hole, InferredTypeArgumentHole, Instance,
    InstantiatedCallCandidate, Reason, Rejection, constrain_result, hole_views,
    instantiate_call_candidate, instantiated, rejections, result_fit,
};
use crate::resolve::{resolve_type, resolved, typing};
use crate::rules::{expects, refuse, say, says};
use crate::scope::{
    Candidate, CheckedCandidate, binder_candidate, cands, copy_candidates, locals_in,
    option_texts, type_binders, type_vars_in, visible, visible_candidates, visible_type_variables,
    visible_types,
};
use crate::text::{
    cat2, cat3, cat4, cat5, contains_text, copy_texts, debug_option, option_shown, same_text,
    texts,
};
use crate::types::{
    MagType, Names, Subst, Ty, contains_union, internal_type_variables, internal_vars,
    lemma_take_set, open_type, substitute, substituted, ty_text, tys,
};
use crate::value::option_ty;
use vstd::prelude::*;

verus! {

// ---------------------------------------------------------------------------
// What checking comes to
// ---------------------------------------------------------------------------

/// An expression after checking, where something may be expected of it.
pub open spec fn compiled(world: World, scopes: Seq<Candidate>, term: Term, expected: Option<Ty>) -> Compiled
    decreases term, 3int,
{
    let raw = compiled_raw(world, scopes, term, expected);
    match raw.result {
        Err(_) => raw,
        Ok(value) => accepted(raw.world, value, expected),
    }
}

/// An expression after checking, before it is held to what is expected.
pub open spec fn compiled_raw(
    world: World,
    scopes: Seq<Candidate>,
    term: Term,
    expected: Option<Ty>,
) -> Compiled
    decreases term, 2int,
{
    match term {
        Term::Unit => done(world, Typed { ty: Ty::Unit, kind: TypedKind::Unit }),
        Term::Bool(value) => done(world, Typed { ty: Ty::Bool, kind: TypedKind::Bool(value) }),
        Term::Int(value) => done(world, Typed { ty: Ty::Int, kind: TypedKind::Int(value) }),
        Term::Float(value) => done(world, Typed { ty: Ty::Float, kind: TypedKind::Float(value) }),
        Term::Str(value) => done(world, Typed { ty: Ty::String, kind: TypedKind::Str(value) }),
        Term::Keyword(value) => done(
            world,
            Typed { ty: Ty::String, kind: TypedKind::Keyword(value) },
        ),
        Term::Name(path) => Compiled {
            world,
            result: symbol(world, scopes, path_text(path), expected),
        },
        Term::Vector(items) => match expected {
            Some(Ty::Product(_)) => compiled_product(world, scopes, items),
            Some(Ty::List(item)) => compiled_elements(
                world,
                scopes,
                items,
                Some(*item),
                0,
                Some(*item),
                Map::empty(),
                Seq::empty(),
            ),
            _ => compiled_elements(
                world,
                scopes,
                items,
                None,
                0,
                None,
                Map::empty(),
                Seq::empty(),
            ),
        },
        Term::Fields(_) => failed(
            world,
            Failure::Type("standalone record values are unsupported; use a named type or Map"@),
        ),
        Term::If(condition, then_branch, else_branch) => {
            let test = compiled(world, scopes, *condition, Some(Ty::Bool));
            match test.result {
                Err(_) => test,
                Ok(test_value) => {
                    let left = compiled(test.world, scopes, *then_branch, expected);
                    match left.result {
                        Err(_) => left,
                        Ok(left_value) => {
                            let right = compiled(left.world, scopes, *else_branch, expected);
                            match right.result {
                                Err(_) => right,
                                Ok(right_value) => Compiled {
                                    world: right.world,
                                    result: joined_branches(
                                        right.world,
                                        test_value,
                                        left_value,
                                        right_value,
                                    ),
                                },
                            }
                        },
                    }
                },
            }
        },
        Term::Construct(owner, constructor, payload) => match resolved(
            world,
            owner,
            type_vars_in(scopes),
        ) {
            Err(failure) => failed(world, failure),
            Ok(owner) => match constructor_named(world, owner, constructor) {
                Err(failure) => failed(world, failure),
                Ok(found) => {
                    let inner = compiled_payload(world, scopes, *payload, found.payload);
                    match inner.result {
                        Err(_) => inner,
                        Ok(value) => done(
                            inner.world,
                            Typed {
                                ty: owner,
                                kind: TypedKind::Construct(owner, found.id, Box::new(value)),
                            },
                        ),
                    }
                },
            },
        },
        Term::Match(value, arms) => {
            let scrutinee = compiled(world, scopes, *value, None);
            match scrutinee.result {
                Err(_) => scrutinee,
                Ok(typed) => match constructors_of(scrutinee.world, typed.ty) {
                    Err(failure) => failed(scrutinee.world, failure),
                    Ok(list) => compiled_arms(
                        scrutinee.world,
                        scopes,
                        typed,
                        list,
                        arms,
                        0,
                        Seq::empty(),
                        expected,
                        Seq::empty(),
                    ),
                },
            }
        },
        Term::Ascribe(target, value) => compiled_ascribe(world, scopes, target, *value),
        Term::Annotate(target, value) => compiled_annotate(world, scopes, target, *value),
        Term::TypeTag(target) => match resolved(world, target, type_vars_in(scopes)) {
            Err(failure) => failed(world, failure),
            Ok(ty) => done(world, Typed { ty: ty_tag(ty), kind: TypedKind::TypeTag(ty) }),
        },
        Term::Function(function) => compiled_function(
            world,
            scopes,
            None,
            *function,
            expected,
            None,
        ),
        Term::Call(_, _, _) => compiled_call(world, scopes, term, expected),
        Term::Invalid(message) => failed(world, Failure::Type(message)),
    }
}

/// The two branches of a conditional brought together.
pub open spec fn joined_branches(world: World, test: Typed, left: Typed, right: Typed) -> Result<
    Typed,
    Failure,
> {
    let kind = TypedKind::If(Box::new(test), Box::new(left), Box::new(right));
    if left.ty is Never {
        Ok(Typed { ty: right.ty, kind })
    } else if right.ty is Never {
        Ok(Typed { ty: left.ty, kind })
    } else {
        match statically(world, left.ty, right.ty) {
            Ok(_) => Ok(Typed { ty: right.ty, kind }),
            Err(_) => Err(
                Failure::Type(
                    "if branches must return one compatible type, got "@ + ty_text(left.ty)
                        + " and "@ + ty_text(right.ty),
                ),
            ),
        }
    }
}

/// Expressions from index `i` on, of which nothing is expected.
pub open spec fn compiled_all(world: World, scopes: Seq<Candidate>, list: Seq<Term>, i: int) -> Compileds
    decreases list, 0int, list.len() - i,
{
    if i < 0 || i >= list.len() {
        Compileds { world, result: Ok(Seq::empty()) }
    } else {
        let first = compiled(world, scopes, list[i], None);
        match first.result {
            Err(failure) => Compileds { world: first.world, result: Err(failure) },
            Ok(value) => {
                let rest = compiled_all(first.world, scopes, list, i + 1);
                Compileds {
                    world: rest.world,
                    result: match rest.result {
                        Err(failure) => Err(failure),
                        Ok(values) => Ok(seq![value] + values),
                    },
                }
            },
        }
    }
}

pub open spec fn compiled_product(world: World, scopes: Seq<Candidate>, items: Seq<Term>) -> Compiled
    decreases items, 1int,
{
    let all = compiled_all(world, scopes, items, 0);
    match all.result {
        Err(failure) => failed(all.world, failure),
        Ok(values) => done(
            all.world,
            Typed { ty: Ty::Product(types_of(values)), kind: TypedKind::Vector(values) },
        ),
    }
}

/// A list whose items before index `i` are checked.
pub open spec fn compiled_elements(
    world: World,
    scopes: Seq<Candidate>,
    items: Seq<Term>,
    wanted: Option<Ty>,
    i: int,
    item_type: Option<Ty>,
    subst: Map<Seq<char>, Ty>,
    values: Seq<Typed>,
) -> Compiled
    decreases items, 0int, items.len() - i,
{
    if i < 0 || i >= items.len() {
        let ty = match item_type {
            Some(item) => ty_list(item),
            None => Ty::EmptyList,
        };
        done(world, Typed { ty, kind: TypedKind::Vector(values) })
    } else {
        let item_wanted = match wanted {
            Some(ty) => Some(substituted(ty, subst)),
            None => None,
        };
        let item = compiled(world, scopes, items[i], item_wanted);
        match item.result {
            Err(_) => item,
            Ok(value) => match (wanted, item_wanted) {
                (Some(open), Some(ty)) => {
                    let fit = fit_static(item.world, value.ty, ty, subst);
                    match fit.result {
                        Err(message) => failed(item.world, Failure::Type(message)),
                        Ok(_) => compiled_elements(
                            item.world,
                            scopes,
                            items,
                            wanted,
                            i + 1,
                            Some(substituted(open, fit.subst)),
                            fit.subst,
                            values.push(value),
                        ),
                    }
                },
                _ => match item_type {
                    Some(current) => match statically(item.world, value.ty, current) {
                        Err(_) => failed(
                            item.world,
                            Failure::Type(
                                "list elements must have one compatible type, got "@ + ty_text(
                                    current,
                                ) + " and "@ + ty_text(value.ty),
                            ),
                        ),
                        Ok(_) => compiled_elements(
                            item.world,
                            scopes,
                            items,
                            wanted,
                            i + 1,
                            item_type,
                            subst,
                            values.push(value),
                        ),
                    },
                    None => compiled_elements(
                        item.world,
                        scopes,
                        items,
                        wanted,
                        i + 1,
                        Some(value.ty),
                        subst,
                        values.push(value),
                    ),
                },
            },
        }
    }
}

/// Whether one of the first `n` fields has a name.
pub open spec fn named_before(fields: Seq<(Seq<char>, Term)>, name: Seq<char>, n: int) -> bool
    decreases n,
{
    n > 0 && (fields[n - 1].0 == name || named_before(fields, name, n - 1))
}

/// The fields of a record from index `i` on.
pub open spec fn compiled_members(
    world: World,
    scopes: Seq<Candidate>,
    fields: Seq<(Seq<char>, Term)>,
    wanted: Seq<(Seq<char>, Ty)>,
    i: int,
    values: Seq<(Seq<char>, Typed)>,
) -> Members
    decreases fields, 0int, fields.len() - i,
{
    if i < 0 || i >= fields.len() {
        Members { world, result: Ok(values) }
    } else if named_before(fields, fields[i].0, i) {
        Members { world, result: Err(Failure::Type("duplicate named field "@ + fields[i].0)) }
    } else {
        let field = compiled(world, scopes, fields[i].1, field_at(wanted, fields[i].0, 0));
        match field.result {
            Err(failure) => Members { world: field.world, result: Err(failure) },
            Ok(value) => compiled_members(
                field.world,
                scopes,
                fields,
                wanted,
                i + 1,
                values.push((fields[i].0, value)),
            ),
        }
    }
}

/// A record of a named type.
pub open spec fn compiled_record(
    world: World,
    scopes: Seq<Candidate>,
    fields: Seq<(Seq<char>, Term)>,
    expected: Ty,
) -> Compiled
    decreases fields, 1int,
{
    match record_fields(world, expected) {
        None => failed(
            world,
            Failure::Type("named field literal cannot construct "@ + ty_text(expected)),
        ),
        Some(wanted) => {
            let all = compiled_members(world, scopes, fields, wanted, 0, Seq::empty());
            match all.result {
                Err(failure) => failed(all.world, failure),
                Ok(values) => done(
                    all.world,
                    Typed { ty: expected, kind: TypedKind::Fields(values) },
                ),
            }
        },
    }
}

/// The payload of a constructor.
pub open spec fn compiled_payload(
    world: World,
    scopes: Seq<Candidate>,
    payload: Term,
    expected: Ty,
) -> Compiled
    decreases payload, 4int,
{
    match payload {
        Term::Fields(fields) => match record_fields(world, expected) {
            None => failed(
                world,
                Failure::Type("constructor field payload cannot construct "@ + ty_text(expected)),
            ),
            Some(wanted) => if !exactly_names(term_names(fields), type_names(wanted)) {
                failed(
                    world,
                    Failure::Type("constructor fields must exactly match "@ + ty_text(expected)),
                )
            } else {
                compiled_record(world, scopes, fields, expected)
            },
        },
        _ => compiled(world, scopes, payload, Some(expected)),
    }
}

pub open spec fn arm_expected(result: Option<Ty>) -> Option<Ty> {
    match result {
        Some(ty) => if ty is Never {
            None
        } else {
            Some(ty)
        },
        None => None,
    }
}

/// The type of a match with one more arm, while checking.
pub open spec fn arm_joined(world: World, current: Option<Ty>, body: Ty) -> Result<Ty, Failure> {
    match current {
        None => Ok(body),
        Some(ty) => if ty is Never && !(body is Never) {
            Ok(body)
        } else {
            match statically(world, body, ty) {
                Ok(_) => Ok(ty),
                Err(_) => Err(
                    Failure::Type(
                        "match arms must return one compatible type, got "@ + ty_text(ty)
                            + " and "@ + ty_text(body),
                    ),
                ),
            }
        },
    }
}

/// A match whose arms before index `i` are checked.
pub open spec fn compiled_arms(
    world: World,
    scopes: Seq<Candidate>,
    value: Typed,
    list: Seq<Constructor>,
    arms: Seq<Arm>,
    i: int,
    seen: Seq<ConstructorId>,
    current: Option<Ty>,
    values: Seq<TypedArm>,
) -> Compiled
    decreases arms, 0int, arms.len() - i,
{
    if i < 0 || i >= arms.len() {
        match exhaustion(list, seen) {
            Err(failure) => failed(world, failure),
            Ok(_) => done(
                world,
                Typed {
                    ty: match current {
                        Some(ty) => ty,
                        None => Ty::Unit,
                    },
                    kind: TypedKind::Match(Box::new(value), values),
                },
            ),
        }
    } else {
        match arm_constructor(world, type_vars_in(scopes), value.ty, arms[i].pattern) {
            Err(failure) => failed(world, failure),
            Ok(constructor) => if seen.contains(constructor.id) {
                failed(
                    world,
                    Failure::Type("duplicate match arm for "@ + path_text(arms[i].pattern)),
                )
            } else {
                let id = next_id(world);
                let inner = introduced(world, scopes, arms[i].binding, constructor.payload);
                match inner.result {
                    Err(failure) => failed(inner.world, failure),
                    Ok(around) => {
                        let body = compiled(
                            inner.world,
                            around,
                            arms[i].body,
                            arm_expected(current),
                        );
                        match body.result {
                            Err(_) => body,
                            Ok(typed) => match arm_joined(body.world, current, typed.ty) {
                                Err(failure) => failed(body.world, failure),
                                Ok(next) => compiled_arms(
                                    body.world,
                                    scopes,
                                    value,
                                    list,
                                    arms,
                                    i + 1,
                                    seen.push(constructor.id),
                                    Some(next),
                                    values.push(
                                        TypedArm {
                                            constructor: constructor.id,
                                            binding: TypedParam {
                                                id,
                                                name: arms[i].binding,
                                                ty: constructor.payload,
                                            },
                                            body: Box::new(typed),
                                        },
                                    ),
                                ),
                            },
                        }
                    },
                }
            },
        }
    }
}

/// Whether a value of a type may be taken as another type.
pub open spec fn convertible(world: World, source: Ty, target: Ty) -> bool {
    statically(world, source, target) is Ok || newtype_boundary(world, source, target)
}

pub open spec fn ascribed(world: World, value: Typed, target: Ty) -> Result<Typed, Failure> {
    if (holds_newtype(world, value.ty) || holds_newtype(world, target)) && !convertible(
        world,
        value.ty,
        target,
    ) {
        Err(
            Failure::Type(
                "invalid ascription from "@ + ty_text(value.ty) + " to "@ + ty_text(target),
            ),
        )
    } else {
        Ok(Typed { ty: target, kind: TypedKind::Ascribe(target, Box::new(value)) })
    }
}

/// The value of an ascription before it is converted. An ascription owns a
/// conversion to a newtype; calls still see what is expected of them.
pub open spec fn compiled_source(world: World, scopes: Seq<Candidate>, target: Ty, value: Term) -> Compiled
    decreases value, 4int,
{
    match value {
        Term::Fields(fields) => compiled_record(world, scopes, fields, target),
        Term::Vector(items) => if target is Product {
            compiled_product(world, scopes, items)
        } else {
            compiled(world, scopes, value, None)
        },
        Term::Call(_, _, _) => match underlying(world, target) {
            Some(inner) => {
                let first = compiled_call(world, scopes, value, Some(inner));
                match first.result {
                    Ok(_) => first,
                    Err(_) => {
                        let second = compiled_call(first.world, scopes, value, None);
                        match second.result {
                            Ok(typed) => if convertible(second.world, typed.ty, target) {
                                second
                            } else {
                                Compiled { world: second.world, result: first.result }
                            },
                            Err(_) => Compiled { world: second.world, result: first.result },
                        }
                    },
                }
            },
            None => if holds_newtype(world, target) {
                compiled_call(world, scopes, value, None)
            } else {
                compiled_call(world, scopes, value, Some(target))
            },
        },
        Term::Name(path) => if visible(world, scopes, path_text(path)).len() > 1 {
            compiled(world, scopes, value, Some(target))
        } else {
            compiled(world, scopes, value, None)
        },
        _ => compiled(world, scopes, value, None),
    }
}

pub open spec fn compiled_ascribe(
    world: World,
    scopes: Seq<Candidate>,
    target: TypeTerm,
    value: Term,
) -> Compiled
    decreases value, 5int,
{
    match resolved(world, target, type_vars_in(scopes)) {
        Err(failure) => failed(world, failure),
        Ok(ty) => {
            let inner = compiled_source(world, scopes, ty, value);
            match inner.result {
                Err(_) => inner,
                Ok(typed) => Compiled {
                    world: inner.world,
                    result: ascribed(inner.world, typed, ty),
                },
            }
        },
    }
}

pub open spec fn compiled_annotate(
    world: World,
    scopes: Seq<Candidate>,
    target: TypeTerm,
    value: Term,
) -> Compiled
    decreases value, 6int,
{
    match resolved(world, target, type_vars_in(scopes)) {
        Err(failure) => failed(world, failure),
        Ok(ty) => if value is Construct {
            compiled_ascribe(world, scopes, target, value)
        } else {
            let inner = match value {
                Term::Fields(fields) => compiled_record(world, scopes, fields, ty),
                Term::Vector(items) => if ty is Product {
                    compiled_product(world, scopes, items)
                } else {
                    compiled(world, scopes, value, Some(ty))
                },
                _ => compiled(world, scopes, value, Some(ty)),
            };
            match inner.result {
                Err(_) => inner,
                Ok(typed) => match statically(inner.world, typed.ty, ty) {
                    Err(failure) => failed(inner.world, failure),
                    Ok(_) => done(
                        inner.world,
                        Typed { ty, kind: TypedKind::Ascribe(ty, Box::new(typed)) },
                    ),
                },
            }
        },
    }
}

// ---------------------------------------------------------------------------
// Calls
// ---------------------------------------------------------------------------

/// The arguments from index `i` on whose parameter is open, or those whose
/// parameter is not.
pub open spec fn compiled_slots(
    world: World,
    scopes: Seq<Candidate>,
    args: Seq<Term>,
    params: Seq<Ty>,
    names: Option<Seq<Seq<char>>>,
    bindable: Set<Seq<char>>,
    holes: Seq<Hole>,
    open: bool,
    i: int,
    before: Slots,
) -> SlotPass
    decreases args, 0int, args.len() - i,
{
    if i < 0 || i >= args.len() || i >= params.len() {
        SlotPass { world, result: Ok(before) }
    } else if open_type(params[i]) != open {
        compiled_slots(
            world,
            scopes,
            args,
            params,
            names,
            bindable,
            holes,
            open,
            i + 1,
            before,
        )
    } else {
        let parameter = substituted(params[i], before.subst);
        let argument = compiled(world, scopes, args[i], Some(parameter));
        match argument.result {
            Err(failure) => {
                let found = inferred(argument.world, locals_in(scopes), args[i]);
                let actual = match found.result {
                    Ok(ty) => Some(ty),
                    Err(_) => None,
                };
                SlotPass {
                    world: found.world,
                    result: Err(
                        ArgumentFailure {
                            index: i as nat,
                            name: name_at(names, i),
                            checked: before.checked,
                            expected: parameter,
                            actual,
                            conflict: conflict_with(
                                found.world,
                                actual,
                                params[i],
                                before.subst,
                                bindable,
                                holes,
                            ),
                            error: failure_text(failure),
                        },
                    ),
                }
            },
            Ok(value) => {
                let fit = fit_binding(
                    argument.world,
                    value.ty,
                    parameter,
                    before.subst,
                    bindable,
                );
                match fit.result {
                    Err(message) => SlotPass {
                        world: argument.world,
                        result: Err(
                            ArgumentFailure {
                                index: i as nat,
                                name: name_at(names, i),
                                checked: before.checked,
                                expected: parameter,
                                actual: Some(value.ty),
                                conflict: conflict_with(
                                    argument.world,
                                    Some(value.ty),
                                    params[i],
                                    fit.subst,
                                    bindable,
                                    holes,
                                ),
                                error: message,
                            },
                        ),
                    },
                    Ok(_) => compiled_slots(
                        argument.world,
                        scopes,
                        args,
                        params,
                        names,
                        bindable,
                        holes,
                        open,
                        i + 1,
                        Slots {
                            slots: before.slots.update(i, Some(value)),
                            subst: fit.subst,
                            checked: before.checked + 1,
                        },
                    ),
                }
            },
        }
    }
}

pub open spec fn empty_slots(count: nat) -> Slots {
    Slots {
        slots: Seq::new(count, |i: int| None::<Typed>),
        subst: Map::empty(),
        checked: 0,
    }
}

pub ghost struct Arguments {
    pub world: World,
    pub result: Result<(Seq<Typed>, Map<Seq<char>, Ty>), ArgumentFailure>,
}

/// The arguments of a call; those whose parameter is open come last.
pub open spec fn compiled_args(
    world: World,
    scopes: Seq<Candidate>,
    args: Seq<Term>,
    params: Seq<Ty>,
    names: Option<Seq<Seq<char>>>,
    bindable: Set<Seq<char>>,
    holes: Seq<Hole>,
) -> Arguments
    decreases args, 1int,
{
    let first = compiled_slots(
        world,
        scopes,
        args,
        params,
        names,
        bindable,
        holes,
        false,
        0,
        empty_slots(params.len()),
    );
    match first.result {
        Err(failure) => Arguments { world: first.world, result: Err(failure) },
        Ok(closed) => {
            let second = compiled_slots(
                first.world,
                scopes,
                args,
                params,
                names,
                bindable,
                holes,
                true,
                0,
                closed,
            );
            match second.result {
                Err(failure) => Arguments { world: second.world, result: Err(failure) },
                Ok(state) => match collected(state.slots, 0) {
                    None => Arguments {
                        world: second.world,
                        result: Err(
                            ArgumentFailure {
                                index: 0,
                                name: name_at(names, 0),
                                checked: state.checked,
                                expected: if params.len() > 0 {
                                    params[0]
                                } else {
                                    Ty::Unit
                                },
                                actual: None,
                                conflict: None,
                                error: "internal error: unchecked call argument"@,
                            },
                        ),
                    },
                    Some(values) => {
                        let (after, verdict) = passed(
                            second.world,
                            values,
                            params,
                            names,
                            state.subst,
                            state.checked,
                            0,
                        );
                        Arguments {
                            world: after,
                            result: match verdict {
                                Err(failure) => Err(failure),
                                Ok(_) => Ok((values, state.subst)),
                            },
                        }
                    },
                },
            }
        },
    }
}

pub ghost struct Attempt {
    pub world: World,
    pub result: Result<Matched, Rejection>,
}

pub open spec fn option_len(explicit: Option<Seq<Argument>>) -> Option<nat> {
    match explicit {
        Some(arguments) => Some(arguments.len()),
        None => None,
    }
}

/// The rejection of a candidate by a call.
pub open spec fn refusal(
    candidate: Candidate,
    order: nat,
    explicit: Option<Seq<Argument>>,
    args: Seq<Term>,
    count: nat,
    reason: Reason,
) -> Rejection {
    Rejection {
        candidate,
        value_arity: args.len(),
        type_arity: option_len(explicit),
        checked: count,
        reason,
        order,
    }
}

/// The attempt to call a candidate that is made ready for the call.
#[verifier::opaque]
pub open spec fn attempted_instance(
    world: World,
    scopes: Seq<Candidate>,
    name: Seq<char>,
    candidate: Candidate,
    instance: Instance,
    params: Seq<Ty>,
    result: Ty,
    args: Seq<Term>,
    expected: Option<Ty>,
) -> (World, Result<Matched, (nat, Reason)>)
    decreases args, 2int,
{
    let given = compiled_args(
        world,
        scopes,
        args,
        params,
        candidate.parameters,
        instance.bindable,
        instance.holes,
    );
    match given.result {
        Err(failure) => (given.world, Err((failure.checked, argument_reason(failure)))),
        Ok((values, subst)) => {
            let end = completed(
                given.world,
                name,
                candidate,
                instance,
                params,
                result,
                values,
                subst,
                expected,
            );
            (
                end.world,
                match end.result {
                    Ok(found) => Ok(found),
                    Err(reason) => Err((args.len(), reason)),
                },
            )
        },
    }
}

/// The attempt to call one candidate.
pub open spec fn attempted(
    world: World,
    scopes: Seq<Candidate>,
    name: Seq<char>,
    candidate: Candidate,
    order: nat,
    explicit: Option<Seq<Argument>>,
    args: Seq<Term>,
    expected: Option<Ty>,
) -> Attempt
    decreases args, 3int,
{
    match instantiated(world, scopes, name, candidate, explicit) {
        Err(failure) => Attempt {
            world,
            result: Err(
                refusal(
                    candidate,
                    order,
                    explicit,
                    args,
                    0,
                    Reason::TypeArguments(failure_text(failure)),
                ),
            ),
        },
        Ok(instance) => match instance.ty {
            Ty::Function(params, result) => if params.len() != args.len() {
                Attempt {
                    world,
                    result: Err(
                        refusal(
                            candidate,
                            order,
                            explicit,
                            args,
                            0,
                            Reason::ValueArity(params.len(), args.len()),
                        ),
                    ),
                }
            } else {
                let (after, outcome) = attempted_instance(
                    world,
                    scopes,
                    name,
                    candidate,
                    instance,
                    params,
                    *result,
                    args,
                    expected,
                );
                Attempt {
                    world: after,
                    result: match outcome {
                        Ok(found) => Ok(found),
                        Err((count, reason)) => Err(
                            refusal(candidate, order, explicit, args, count, reason),
                        ),
                    },
                }
            },
            _ => Attempt {
                world,
                result: Err(
                    refusal(
                        candidate,
                        order,
                        explicit,
                        args,
                        0,
                        Reason::TypeArguments(
                            "candidate is not callable: "@ + ty_text(instance.ty),
                        ),
                    ),
                ),
            },
        },
    }
}

pub ghost struct Attempts {
    pub world: World,
    pub found: Seq<Matched>,
    pub refused: Seq<Rejection>,
}

/// The attempts to call candidates from index `i` on.
pub open spec fn attempts_from(
    world: World,
    scopes: Seq<Candidate>,
    name: Seq<char>,
    list: Seq<Candidate>,
    i: int,
    explicit: Option<Seq<Argument>>,
    args: Seq<Term>,
    expected: Option<Ty>,
    found: Seq<Matched>,
    refused: Seq<Rejection>,
) -> Attempts
    decreases args, 4int, list.len() - i,
{
    if i < 0 || i >= list.len() {
        Attempts { world, found, refused }
    } else {
        let attempt = attempted(
            world,
            scopes,
            name,
            list[i],
            i as nat,
            explicit,
            args,
            expected,
        );
        match attempt.result {
            Ok(one) => attempts_from(
                attempt.world,
                scopes,
                name,
                list,
                i + 1,
                explicit,
                args,
                expected,
                found.push(one),
                refused,
            ),
            Err(rejection) => attempts_from(
                attempt.world,
                scopes,
                name,
                list,
                i + 1,
                explicit,
                args,
                expected,
                found,
                refused.push(rejection),
            ),
        }
    }
}

/// A call of one of several functions.
pub open spec fn compiled_overload(
    world: World,
    scopes: Seq<Candidate>,
    name: Seq<char>,
    list: Seq<Candidate>,
    explicit: Option<Seq<Argument>>,
    args: Seq<Term>,
    expected: Option<Ty>,
) -> Compiled
    decreases args, 5int,
{
    match taking(name, list, explicit) {
        Err(failure) => failed(world, failure),
        Ok(left) => {
            let attempts = attempts_from(
                world,
                scopes,
                name,
                left,
                0,
                explicit,
                args,
                expected,
                Seq::empty(),
                Seq::empty(),
            );
            Compiled {
                world: attempts.world,
                result: overload_result(name, attempts.found, attempts.refused),
            }
        },
    }
}

/// The arguments of a call through a value, from index `i` on.
pub open spec fn compiled_direct(
    world: World,
    scopes: Seq<Candidate>,
    args: Seq<Term>,
    params: Seq<Ty>,
    i: int,
    subst: Map<Seq<char>, Ty>,
    values: Seq<Typed>,
) -> (World, Result<(Seq<Typed>, Map<Seq<char>, Ty>), Failure>)
    decreases args, 0int, args.len() - i,
{
    if i < 0 || i >= args.len() || i >= params.len() {
        (world, Ok((values, subst)))
    } else {
        let parameter = substituted(params[i], subst);
        let argument = compiled(world, scopes, args[i], Some(parameter));
        match argument.result {
            Err(failure) => (argument.world, Err(failure)),
            Ok(value) => {
                let fit = fit_static(argument.world, value.ty, parameter, subst);
                match fit.result {
                    Err(message) => (argument.world, Err(Failure::Type(message))),
                    Ok(_) => compiled_direct(
                        argument.world,
                        scopes,
                        args,
                        params,
                        i + 1,
                        fit.subst,
                        values.push(value),
                    ),
                }
            },
        }
    }
}

/// The end of a call through a value.
pub open spec fn direct_result(
    world: World,
    callee: Typed,
    result: Ty,
    values: Seq<Typed>,
    subst: Map<Seq<char>, Ty>,
    expected: Option<Ty>,
) -> Result<Typed, Failure> {
    let output = substituted(result, subst);
    let fit = match expected {
        Some(ty) => result_fit(world, output, ty, subst, internal_vars(callee.ty)),
        None => fits(subst),
    };
    match fit.result {
        Err(message) => Err(Failure::Type(message)),
        Ok(_) => Ok(
            Typed {
                ty: substituted(output, fit.subst),
                kind: TypedKind::Call(Box::new(callee), values, Seq::empty()),
            },
        ),
    }
}

/// A call.
pub open spec fn compiled_call(
    world: World,
    scopes: Seq<Candidate>,
    call: Term,
    expected: Option<Ty>,
) -> Compiled
    decreases call, 1int,
{
    match call {
        Term::Call(callee, explicit, args) => match name_of(*callee) {
            Some(name) => {
                let all = visible(world, scopes, name);
                let list = function_cands(all, all.len() as int);
                let user = compiled_overload(
                    world,
                    scopes,
                    name,
                    list,
                    explicit,
                    args,
                    expected,
                );
                if list.len() != 0 && (user.result is Ok || builtin_bound(user.world, name)
                    is None) {
                    user
                } else {
                    let after = if list.len() != 0 {
                        user.world
                    } else {
                        world
                    };
                    match builtin_bound(after, name) {
                        Some(id) => if explicit is Some {
                            failed(after, not_generic(name))
                        } else {
                            compiled_builtin(after, scopes, name, id, args, expected)
                        },
                        None => compiled_value_call(after, scopes, call, expected),
                    }
                }
            },
            None => compiled_value_call(world, scopes, call, expected),
        },
        _ => failed(world, Failure::Type(Seq::empty())),
    }
}

/// A call of what an expression comes to.
pub open spec fn compiled_value_call(
    world: World,
    scopes: Seq<Candidate>,
    call: Term,
    expected: Option<Ty>,
) -> Compiled
    decreases call, 0int,
{
    match call {
        Term::Call(callee, explicit, args) => if explicit is Some {
            failed(
                world,
                Failure::Type(
                    "explicit type arguments require an immediate call to a named generic function"@,
                ),
            )
        } else {
            let target = compiled(world, scopes, *callee, None);
            match target.result {
                Err(_) => target,
                Ok(value) => match value.ty {
                    Ty::Function(params, result) => if params.len() != args.len() {
                        failed(
                            target.world,
                            Failure::Arity { expected: params.len(), got: args.len() },
                        )
                    } else {
                        let (after, given) = compiled_direct(
                            target.world,
                            scopes,
                            args,
                            params,
                            0,
                            Map::empty(),
                            Seq::empty(),
                        );
                        match given {
                            Err(failure) => failed(after, failure),
                            Ok((values, subst)) => Compiled {
                                world: after,
                                result: direct_result(
                                    after,
                                    value,
                                    *result,
                                    values,
                                    subst,
                                    expected,
                                ),
                            },
                        }
                    },
                    _ => failed(target.world, Failure::Type("cannot call "@ + ty_text(value.ty))),
                },
            }
        },
        _ => failed(world, Failure::Type(Seq::empty())),
    }
}

/// Data for an artifact: fields and lists of any kind.
pub open spec fn compiled_artifact(world: World, scopes: Seq<Candidate>, term: Term) -> Compiled
    decreases term, 4int,
{
    match term {
        Term::Fields(fields) => {
            let all = compiled_artifact_members(world, scopes, fields, 0, Seq::empty());
            match all.result {
                Err(failure) => failed(all.world, failure),
                Ok(values) => done(
                    all.world,
                    Typed { ty: Ty::JsonValue, kind: TypedKind::Fields(values) },
                ),
            }
        },
        Term::Vector(items) => {
            let all = compiled_artifact_items(world, scopes, items, 0, Seq::empty());
            match all.result {
                Err(failure) => failed(all.world, failure),
                Ok(values) => done(
                    all.world,
                    Typed { ty: Ty::JsonValue, kind: TypedKind::Vector(values) },
                ),
            }
        },
        _ => compiled(world, scopes, term, None),
    }
}

pub open spec fn compiled_artifact_members(
    world: World,
    scopes: Seq<Candidate>,
    fields: Seq<(Seq<char>, Term)>,
    i: int,
    values: Seq<(Seq<char>, Typed)>,
) -> Members
    decreases fields, 0int, fields.len() - i,
{
    if i < 0 || i >= fields.len() {
        Members { world, result: Ok(values) }
    } else if named_before(fields, fields[i].0, i) {
        Members { world, result: Err(Failure::Type("duplicate artifact field "@ + fields[i].0)) }
    } else {
        let field = compiled_artifact(world, scopes, fields[i].1);
        match field.result {
            Err(failure) => Members { world: field.world, result: Err(failure) },
            Ok(value) => compiled_artifact_members(
                field.world,
                scopes,
                fields,
                i + 1,
                values.push((fields[i].0, value)),
            ),
        }
    }
}

pub open spec fn compiled_artifact_items(
    world: World,
    scopes: Seq<Candidate>,
    items: Seq<Term>,
    i: int,
    values: Seq<Typed>,
) -> Compileds
    decreases items, 0int, items.len() - i,
{
    if i < 0 || i >= items.len() {
        Compileds { world, result: Ok(values) }
    } else {
        let item = compiled_artifact(world, scopes, items[i]);
        match item.result {
            Err(failure) => Compileds { world: item.world, result: Err(failure) },
            Ok(value) => compiled_artifact_items(
                item.world,
                scopes,
                items,
                i + 1,
                values.push(value),
            ),
        }
    }
}

pub open spec fn arity_failure(world: World, expected: nat, got: nat) -> Compiled {
    failed(world, Failure::Arity { expected, got })
}

/// What a walk over a list expects of the function that it calls.
pub open spec fn callback_wanted(builtin: Builtin, item: Ty, expected: Option<Ty>) -> Ty {
    let result = match builtin {
        Builtin::Filter => Ty::Bool,
        Builtin::SortBy | Builtin::GroupBy => Ty::String,
        Builtin::FlatMap => match expected {
            Some(ty) => ty,
            None => ty_list(open_var("result"@)),
        },
        _ => match expected {
            Some(Ty::List(result)) => *result,
            _ => open_var("result"@),
        },
    };
    if builtin is IndexedMap {
        ty_function(seq![Ty::Int, item], result)
    } else {
        ty_function(seq![item], result)
    }
}

pub open spec fn callback_failure(builtin: Builtin, failure: Failure) -> Failure {
    match builtin {
        Builtin::SortBy | Builtin::GroupBy => Failure::Type(
            builtin_name(builtin) + " callback must return String: "@ + failure_text(failure),
        ),
        Builtin::Filter => Failure::Type(
            "filter callback must return Bool: "@ + failure_text(failure),
        ),
        _ => failure,
    }
}

/// The type of a walk over a list.
pub open spec fn walk_output(builtin: Builtin, collection: Ty, result: Ty) -> Ty {
    match builtin {
        Builtin::Filter | Builtin::SortBy => collection,
        Builtin::GroupBy => ty_map(Ty::String, collection),
        Builtin::FlatMap => result,
        _ => ty_list(result),
    }
}

/// A walk over a list.
pub open spec fn compiled_walk(
    world: World,
    scopes: Seq<Candidate>,
    builtin: Builtin,
    id: BindingId,
    args: Seq<Term>,
    expected: Option<Ty>,
) -> Compiled
    decreases args, 0int,
{
    if args.len() != 2 {
        arity_failure(world, 2, args.len())
    } else {
        let collection = compiled(world, scopes, args[1], None);
        match collection.result {
            Err(_) => collection,
            Ok(list) => match list.ty {
                Ty::List(item) => {
                    let callback = compiled(
                        collection.world,
                        scopes,
                        args[0],
                        Some(callback_wanted(builtin, *item, expected)),
                    );
                    match callback.result {
                        Err(failure) => failed(callback.world, callback_failure(builtin, failure)),
                        Ok(value) => match value.ty {
                            Ty::Function(_, result) => done(
                                callback.world,
                                built_call(
                                    id,
                                    seq![value, list],
                                    seq![value.ty, list.ty],
                                    walk_output(builtin, list.ty, *result),
                                ),
                            ),
                            _ => failed(callback.world, says(builtin, " expects function"@)),
                        },
                    }
                },
                _ => failed(collection.world, says(builtin, " expects List"@)),
            },
        }
    }
}

pub open spec fn compiled_fold(
    world: World,
    scopes: Seq<Candidate>,
    id: BindingId,
    args: Seq<Term>,
) -> Compiled
    decreases args, 0int,
{
    if args.len() != 3 {
        arity_failure(world, 3, args.len())
    } else {
        let initial = compiled(world, scopes, args[1], None);
        match initial.result {
            Err(_) => initial,
            Ok(start) => {
                let collection = compiled(initial.world, scopes, args[2], None);
                match collection.result {
                    Err(_) => collection,
                    Ok(list) => match list.ty {
                        Ty::List(item) => {
                            let wanted = ty_function(seq![start.ty, *item], start.ty);
                            let callback = compiled(
                                collection.world,
                                scopes,
                                args[0],
                                Some(wanted),
                            );
                            match callback.result {
                                Err(_) => callback,
                                Ok(value) => done(
                                    callback.world,
                                    built_call(
                                        id,
                                        seq![value, start, list],
                                        seq![value.ty, start.ty, list.ty],
                                        start.ty,
                                    ),
                                ),
                            }
                        },
                        _ => failed(collection.world, says(Builtin::Fold, " expects List"@)),
                    },
                }
            },
        }
    }
}

pub open spec fn compiled_get(
    world: World,
    scopes: Seq<Candidate>,
    id: BindingId,
    args: Seq<Term>,
) -> Compiled
    decreases args, 0int,
{
    if args.len() != 2 {
        arity_failure(world, 2, args.len())
    } else {
        let target = compiled(world, scopes, args[0], None);
        match target.result {
            Err(_) => target,
            Ok(record) => if record.ty is HostInputs || record.ty is MapOf {
                failed(
                    target.world,
                    Failure::Type(expects(Builtin::Get, "a record"@, record.ty)),
                )
            } else {
                let key = compiled(target.world, scopes, args[1], Some(Ty::String));
                match key.result {
                    Err(_) => key,
                    Ok(value) => match selected(key.world, record.ty, literal_key(args)) {
                        None => failed(
                            key.world,
                            Failure::Type(
                                "cannot get "@ + option_shown(literal_key(args)) + " from "@
                                    + ty_text(record.ty),
                            ),
                        ),
                        Some(output) => done(
                            key.world,
                            built_call(
                                id,
                                seq![record, value],
                                seq![record.ty, Ty::String],
                                output,
                            ),
                        ),
                    },
                }
            },
        }
    }
}

/// A call of a function that the language provides.
pub open spec fn compiled_builtin(
    world: World,
    scopes: Seq<Candidate>,
    name: Seq<char>,
    id: BindingId,
    args: Seq<Term>,
    expected: Option<Ty>,
) -> Compiled
    decreases args, 2int,
{
    match builtin_of(name) {
        Some(Builtin::MapEmpty) if args.len() == 1 => match expected {
            Some(Ty::MapOf(key, value)) => {
                let step = equality_required(world, *key);
                match step.result {
                    Err(failure) => failed(step.world, failure),
                    Ok(_) => {
                        let argument = compiled(step.world, scopes, args[0], Some(ty_tag(*key)));
                        match argument.result {
                            Err(_) => argument,
                            Ok(tag) => done(
                                argument.world,
                                built_call(
                                    id,
                                    seq![tag],
                                    seq![tag.ty],
                                    ty_map(*key, *value),
                                ),
                            ),
                        }
                    },
                }
            },
            _ => failed(
                world,
                Failure::Type("one-argument __map_empty requires an expected Map type"@),
            ),
        },
        Some(Builtin::Get) => compiled_get(world, scopes, id, args),
        Some(Builtin::Canonical) if args.len() != 1 => arity_failure(world, 1, args.len()),
        Some(Builtin::Artifact) => if args.len() != 1 {
            arity_failure(world, 1, args.len())
        } else {
            let data = compiled_artifact(world, scopes, args[0]);
            match data.result {
                Err(_) => data,
                Ok(value) => done(
                    data.world,
                    built_call(id, seq![value], seq![value.ty], Ty::Artifact),
                ),
            }
        },
        Some(Builtin::Str) => {
            let all = compiled_all(world, scopes, args, 0);
            match all.result {
                Err(failure) => failed(all.world, failure),
                Ok(values) => done(
                    all.world,
                    built_call(id, values, types_of(values), Ty::String),
                ),
            }
        },
        Some(Builtin::MapList) => compiled_walk(
            world,
            scopes,
            Builtin::MapList,
            id,
            args,
            expected,
        ),
        Some(Builtin::Filter) => compiled_walk(world, scopes, Builtin::Filter, id, args, expected),
        Some(Builtin::FlatMap) => compiled_walk(
            world,
            scopes,
            Builtin::FlatMap,
            id,
            args,
            expected,
        ),
        Some(Builtin::SortBy) => compiled_walk(world, scopes, Builtin::SortBy, id, args, expected),
        Some(Builtin::GroupBy) => compiled_walk(
            world,
            scopes,
            Builtin::GroupBy,
            id,
            args,
            expected,
        ),
        Some(Builtin::IndexedMap) => compiled_walk(
            world,
            scopes,
            Builtin::IndexedMap,
            id,
            args,
            expected,
        ),
        Some(Builtin::Fold) => compiled_fold(world, scopes, id, args),
        _ => {
            let typing = inferred_builtin(world, locals_in(scopes), name, args);
            match typing.result {
                Err(failure) => failed(typing.world, failure),
                Ok(result) => {
                    let all = compiled_all(typing.world, scopes, args, 0);
                    match all.result {
                        Err(failure) => failed(all.world, failure),
                        Ok(values) => done(
                            all.world,
                            built_call(id, values, types_of(values), result),
                        ),
                    }
                },
            }
        },
    }
}

// ---------------------------------------------------------------------------
// Functions and blocks
// ---------------------------------------------------------------------------

pub ghost struct Params {
    pub world: World,
    pub result: Result<(Seq<Candidate>, Seq<TypedParam>), Failure>,
}

/// The parameters of a function from index `i` on, each with a binding.
pub open spec fn bound_params(
    world: World,
    scopes: Seq<Candidate>,
    params: Seq<(Seq<char>, TypeTerm)>,
    types: Seq<Ty>,
    i: int,
    values: Seq<TypedParam>,
) -> Params
    decreases params.len() - i,
{
    if i < 0 || i >= params.len() || i >= types.len() {
        Params { world, result: Ok((scopes, values)) }
    } else {
        let next = introduced(world, scopes, params[i].0, types[i]);
        match next.result {
            Err(failure) => Params { world: next.world, result: Err(failure) },
            Ok(more) => bound_params(
                next.world,
                more,
                params,
                types,
                i + 1,
                values.push(
                    TypedParam { id: next_id(world), name: params[i].0, ty: types[i] },
                ),
            ),
        }
    }
}

/// Those of the first `n` names that are in a set.
pub open spec fn names_in(list: Seq<Seq<char>>, names: Set<Seq<char>>, n: int) -> Seq<Seq<char>>
    decreases n,
{
    if n <= 0 {
        Seq::empty()
    } else if names.contains(list[n - 1]) {
        names_in(list, names, n - 1).push(list[n - 1])
    } else {
        names_in(list, names, n - 1)
    }
}

/// The type of the last expression of a block.
pub open spec fn block_type(block: TypedBlock) -> Ty {
    if block.expressions.len() == 0 {
        Ty::Unit
    } else {
        block.expressions.last().ty
    }
}

pub open spec fn function_label(name: Option<Seq<char>>) -> Seq<char> {
    match name {
        Some(name) => "function "@ + name + " "@,
        None => "function "@,
    }
}

/// The end of a function whose body is checked; `found` are the variables of
/// which the body requires equality.
pub open spec fn function_result(
    world: World,
    name: Option<Seq<char>>,
    function: Lambda,
    params: Seq<TypedParam>,
    types: Seq<Ty>,
    result: Ty,
    body: TypedBlock,
    found: Set<Seq<char>>,
    binding: Option<BindingId>,
) -> Compiled {
    let noted_world = noted(world, found.difference(function.type_params.to_set()));
    let equality_params = names_in(
        function.type_params,
        found,
        function.type_params.len() as int,
    );
    let after = match binding {
        Some(id) => required(noted_world, id, ty_vars(equality_params)),
        None => noted_world,
    };
    match statically(after, block_type(body), result) {
        Err(failure) => failed(
            after,
            Failure::Type(
                function_label(name) + "returns "@ + ty_text(block_type(body)) + ", declared "@
                    + ty_text(result) + ": "@ + (match failure {
                    Failure::Type(message) => message,
                    _ => Seq::empty(),
                }),
            ),
        ),
        Ok(_) => done(
            after,
            Typed {
                ty: ty_function(types, result),
                kind: TypedKind::Function(
                    Box::new(
                        TypedFn {
                            name,
                            type_params: function.type_params,
                            equality_params,
                            params,
                            result,
                            body,
                        },
                    ),
                ),
            },
        ),
    }
}

/// A function, which may be the initializer of a binding.
pub open spec fn compiled_function(
    world: World,
    scopes: Seq<Candidate>,
    name: Option<Seq<char>>,
    function: Lambda,
    expected: Option<Ty>,
    binding: Option<BindingId>,
) -> Compiled
    decreases function, 0int,
{
    match written_type(world, type_vars_in(scopes), function) {
        Err(failure) => failed(world, failure),
        Ok(Ty::Function(types, result)) => {
            let fit = match expected {
                Some(ty) => statically(world, ty_function(types, *result), ty),
                None => Ok(()),
            };
            match fit {
                Err(failure) => failed(world, failure),
                Ok(_) => {
                    let around = if function.type_params.len() == 0 {
                        scopes
                    } else {
                        scopes.push(binder_candidate(function.type_params))
                    };
                    let bound = bound_params(
                        world,
                        around,
                        function.params,
                        types,
                        0,
                        Seq::empty(),
                    );
                    match bound.result {
                        Err(failure) => failed(bound.world, failure),
                        Ok((inner, params)) => {
                            let block = compiled_block(
                                gathering(bound.world),
                                inner,
                                function.body,
                                Some(*result),
                            );
                            let after = ungathered(block.world);
                            match block.result {
                                Err(failure) => failed(after, failure),
                                Ok(body) => function_result(
                                    after,
                                    name,
                                    function,
                                    params,
                                    types,
                                    *result,
                                    body,
                                    gathered(block.world),
                                    binding,
                                ),
                            }
                        },
                    }
                },
            }
        },
        Ok(_) => failed(world, Failure::Type("typed fn signature required"@)),
    }
}

/// The type of a declared name, from index `i` of the candidates on.
pub open spec fn declared_type(scopes: Seq<Candidate>, name: Seq<char>, id: BindingId, i: int) -> Option<
    Ty,
>
    decreases scopes.len() - i,
{
    if i < 0 || i >= scopes.len() {
        None
    } else if scopes[i].name == name && scopes[i].id == id {
        Some(scopes[i].ty)
    } else {
        declared_type(scopes, name, id, i + 1)
    }
}

/// The initializers from the `k`th declaration on.
pub open spec fn initialized(
    world: World,
    scopes: Seq<Candidate>,
    start: int,
    list: Seq<Item>,
    at: Seq<int>,
    ids: Seq<BindingId>,
    k: int,
    values: Seq<TypedBinding>,
) -> Bindings
    decreases list, 0int, at.len() - k,
{
    if k < 0 || k >= at.len() {
        Bindings { world, result: Ok(values) }
    } else if 0 <= at[k] < list.len() {
        match list[at[k]] {
            Item::Let(name, term) => match declared_type(scopes, name, ids[k], start) {
                None => Bindings { world, result: Err(Failure::Unresolved(name)) },
                Some(ty) => {
                    let value = match term {
                        Term::Function(function) => compiled_function(
                            world,
                            scopes,
                            Some(name),
                            *function,
                            Some(ty),
                            Some(ids[k]),
                        ),
                        _ => compiled(world, scopes, term, Some(ty)),
                    };
                    match value.result {
                        Err(failure) => Bindings { world: value.world, result: Err(failure) },
                        Ok(initializer) => initialized(
                            value.world,
                            scopes,
                            start,
                            list,
                            at,
                            ids,
                            k + 1,
                            values.push(TypedBinding { id: ids[k], name, ty, initializer }),
                        ),
                    }
                },
            },
            _ => Bindings { world, result: Ok(values) },
        }
    } else {
        Bindings { world, result: Ok(values) }
    }
}

/// The place of the last expression among the first `n` items.
pub open spec fn last_expression(list: Seq<Item>, n: int) -> Option<int>
    decreases n,
{
    if n <= 0 {
        None
    } else if list[n - 1] is Expr {
        Some(n - 1)
    } else {
        last_expression(list, n - 1)
    }
}

/// The expressions of a block from index `i` on. Only the last one is held to
/// what is expected, and only if it can be checked with it.
pub open spec fn compiled_expressions(
    world: World,
    scopes: Seq<Candidate>,
    list: Seq<Item>,
    last: Option<int>,
    expected: Option<Ty>,
    i: int,
    values: Seq<Typed>,
) -> Compileds
    decreases list, 0int, list.len() - i,
{
    if i < 0 || i >= list.len() {
        Compileds { world, result: Ok(values) }
    } else {
        match list[i] {
            Item::Let(_, _) => compiled_expressions(
                world,
                scopes,
                list,
                last,
                expected,
                i + 1,
                values,
            ),
            Item::Invalid(message) => Compileds { world, result: Err(Failure::Type(message)) },
            Item::Expr(term) => {
                let wanted = if last == Some(i) {
                    expected
                } else {
                    None
                };
                let first = compiled(world, scopes, term, wanted);
                let chosen = if first.result is Err && wanted is Some {
                    compiled(first.world, scopes, term, None)
                } else {
                    first
                };
                match chosen.result {
                    Err(failure) => Compileds { world: chosen.world, result: Err(failure) },
                    Ok(value) => compiled_expressions(
                        chosen.world,
                        scopes,
                        list,
                        last,
                        expected,
                        i + 1,
                        values.push(value),
                    ),
                }
            },
        }
    }
}

/// A block.
pub open spec fn compiled_block(
    world: World,
    outer: Seq<Candidate>,
    list: Seq<Item>,
    expected: Option<Ty>,
) -> Blocked
    decreases list, 1int,
{
    match first_invalid(list, 0) {
        Some(failure) => Blocked { world, result: Err(failure) },
        None => {
            let at = declared(list, list.len() as int);
            let ids = let_ids(world, at.len());
            let functions = with_functions(
                with_lets(world, list, at, 0),
                outer,
                type_vars_in(outer),
                list,
                at,
                ids,
                0,
            );
            match functions.result {
                Err(failure) => Blocked { world: functions.world, result: Err(failure) },
                Ok(some) => {
                    let shapes = with_shapes(
                        functions.world,
                        some,
                        list,
                        at,
                        ids,
                        strict_lets(list, at, at.len() as int),
                    );
                    match shapes.result {
                        Err(failure) => Blocked { world: shapes.world, result: Err(failure) },
                        Ok(scopes) => {
                            let bindings = initialized(
                                shapes.world,
                                scopes,
                                outer.len() as int,
                                list,
                                at,
                                ids,
                                0,
                                Seq::empty(),
                            );
                            match bindings.result {
                                Err(failure) => Blocked {
                                    world: bindings.world,
                                    result: Err(failure),
                                },
                                Ok(raw) => {
                                    let end = finalized(bindings.world, raw);
                                    match end.result {
                                        Err(failure) => Blocked {
                                            world: end.world,
                                            result: Err(failure),
                                        },
                                        Ok(values) => {
                                            let expressions = compiled_expressions(
                                                end.world,
                                                scopes,
                                                list,
                                                last_expression(list, list.len() as int),
                                                expected,
                                                0,
                                                Seq::empty(),
                                            );
                                            Blocked {
                                                world: expressions.world,
                                                result: match expressions.result {
                                                    Err(failure) => Err(failure),
                                                    Ok(typed) => Ok(
                                                        TypedBlock {
                                                            frame_layout: binding_ids(values),
                                                            bindings: values,
                                                            expressions: typed,
                                                        },
                                                    ),
                                                },
                                            }
                                        },
                                    }
                                },
                            }
                        },
                    }
                },
            }
        },
    }
}

pub open spec fn binding_ids(list: Seq<TypedBinding>) -> Seq<BindingId> {
    Seq::new(list.len(), |i: int| list[i].id)
}

// ---------------------------------------------------------------------------
// Checking
// ---------------------------------------------------------------------------

pub fn compile_expr(
    env: &mut Env,
    scopes: &Vec<CheckedCandidate>,
    expression: &Expr,
    expected: Option<&MagType>,
) -> (result: Result<CheckedExpr, MagError>)
    ensures
        compiling(final(env)@, result) == compiled(
            old(env)@,
            cands(scopes@),
            expression@,
            option_type(expected),
        ),
    decreases expression, 3int,
{
    match compile_raw(env, scopes, expression, expected) {
        Err(error) => Err(error),
        Ok(value) => accept(env, value, expected),
    }
}

fn compile_raw(
    env: &mut Env,
    scopes: &Vec<CheckedCandidate>,
    expression: &Expr,
    expected: Option<&MagType>,
) -> (result: Result<CheckedExpr, MagError>)
    ensures
        compiling(final(env)@, result) == compiled_raw(
            old(env)@,
            cands(scopes@),
            expression@,
            option_type(expected),
        ),
    decreases expression, 2int,
{
    match expression {
        Expr::Unit => Ok(checked(MagType::Unit, CheckedExprKind::Unit)),
        Expr::Bool(value) => Ok(checked(MagType::Bool, CheckedExprKind::Bool(*value))),
        Expr::Int(value) => Ok(checked(MagType::Int, CheckedExprKind::Int(*value))),
        Expr::Float(value) => Ok(checked(MagType::Float, CheckedExprKind::Float(value.clone()))),
        Expr::Str(value) => Ok(checked(MagType::String, CheckedExprKind::Str(value.clone()))),
        Expr::Keyword(value) => Ok(
            checked(MagType::String, CheckedExprKind::Keyword(value.clone())),
        ),
        Expr::Name(path) => {
            let name = path.text();
            compile_symbol(env, scopes, name.as_str(), expected)
        },
        Expr::Vector(items) => compile_vector(env, scopes, items, expected),
        Expr::Fields(_) => Err(
            MagError::Type(
                "standalone record values are unsupported; use a named type or Map".to_owned(),
            ),
        ),
        Expr::If { .. } => compile_if(env, scopes, expression, expected),
        Expr::Construct { .. } => compile_construct(env, scopes, expression, expected),
        Expr::Match { .. } => compile_match(env, scopes, expression, expected),
        Expr::Ascribe { target, value } => compile_ascribe(env, scopes, target, value),
        Expr::Annotate { target, value } => compile_annotate(env, scopes, target, value),
        Expr::TypeTag(target) => compile_type_tag(env, scopes, target),
        Expr::Function(function) => compile_function(env, scopes, None, function, expected, None),
        Expr::Call { .. } => compile_call(env, scopes, expression, expected),
        Expr::Invalid(message) => Err(MagError::Type(message.clone())),
    }
}

fn compile_type_tag(env: &Env, scopes: &Vec<CheckedCandidate>, target: &Type) -> (result: Result<
    CheckedExpr,
    MagError,
>)
    ensures
        compiling(env@, result) == (match resolved(env@, target@, type_vars_in(cands(scopes@))) {
            Err(failure) => failed(env@, failure),
            Ok(ty) => done(env@, Typed { ty: ty_tag(ty), kind: TypedKind::TypeTag(ty) }),
        }),
{
    let vars = visible_type_variables(scopes);
    match resolve_type(env, target, &vars) {
        Err(error) => Err(error),
        Ok(ty) => Ok(checked(tag(ty.copy()), CheckedExprKind::TypeTag(ty))),
    }
}

fn join_branches(env: &Env, test: CheckedExpr, left: CheckedExpr, right: CheckedExpr) -> (result:
    Result<CheckedExpr, MagError>)
    ensures
        compiling(env@, result) == (Compiled {
            world: env@,
            result: joined_branches(env@, test@, left@, right@),
        }),
{
    assert(left@.ty == left.ty@);
    assert(right@.ty == right.ty@);
    let ty = match (&left.ty, &right.ty) {
        (MagType::Never, _) => right.ty.copy(),
        (_, MagType::Never) => left.ty.copy(),
        _ => {
            match check_static(env, &left.ty, &right.ty) {
                Ok(_) => {},
                Err(_) => {
                    let left = left.ty.text();
                    let right = right.ty.text();
                    return Err(
                        MagError::Type(
                            cat4(
                                "if branches must return one compatible type, got ",
                                left.as_str(),
                                " and ",
                                right.as_str(),
                            ),
                        ),
                    );
                },
            }
            right.ty.copy()
        },
    };
    let kind = CheckedExprKind::If {
        condition: Box::new(test),
        then_branch: Box::new(left),
        else_branch: Box::new(right),
    };
    assert(kind@ == TypedKind::If(Box::new(test@), Box::new(left@), Box::new(right@)));
    Ok(checked(ty, kind))
}

fn compile_if(
    env: &mut Env,
    scopes: &Vec<CheckedCandidate>,
    expression: &Expr,
    expected: Option<&MagType>,
) -> (result: Result<CheckedExpr, MagError>)
    requires
        expression is If,
    ensures
        compiling(final(env)@, result) == compiled_raw(
            old(env)@,
            cands(scopes@),
            expression@,
            option_type(expected),
        ),
    decreases expression, 1int,
{
    match expression {
        Expr::If { condition, then_branch, else_branch } => {
            let test = match compile_expr(env, scopes, condition, Some(&MagType::Bool)) {
                Err(error) => return Err(error),
                Ok(test) => test,
            };
            let left = match compile_expr(env, scopes, then_branch, expected) {
                Err(error) => return Err(error),
                Ok(left) => left,
            };
            let right = match compile_expr(env, scopes, else_branch, expected) {
                Err(error) => return Err(error),
                Ok(right) => right,
            };
            join_branches(env, test, left, right)
        },
        _ => Ok(checked(MagType::Unit, CheckedExprKind::Unit)),
    }
}

fn compile_all(env: &mut Env, scopes: &Vec<CheckedCandidate>, list: &Vec<Expr>) -> (result: Result<
    Vec<CheckedExpr>,
    MagError,
>)
    ensures
        compiling_all(final(env)@, result) == compiled_all(
            old(env)@,
            cands(scopes@),
            terms(list@),
            0,
        ),
    decreases list, 0int,
{
    let ghost all = terms(list@);
    let ghost around = cands(scopes@);
    let ghost whole = compiled_all(old(env)@, around, all, 0);
    let mut values: Vec<CheckedExpr> = Vec::new();
    let mut i: usize = 0;
    while i < list.len()
        invariant
            i <= list@.len(),
            values@.len() == i,
            all == terms(list@),
            around == cands(scopes@),
            whole == compiled_all(old(env)@, around, all, 0),
            ({
                let rest = compiled_all(env@, around, all, i as int);
                &&& whole.world == rest.world
                &&& match rest.result {
                    Ok(view) => whole.result == Ok::<Seq<Typed>, Failure>(typeds(values@) + view),
                    Err(failure) => whole.result == Err::<Seq<Typed>, Failure>(failure),
                }
            }),
        decreases list@.len() - i,
    {
        assert(all[i as int] == list@[i as int]@);
        let ghost before = typeds(values@);
        let value = match compile_expr(env, scopes, &list[i], None) {
            Err(error) => return Err(error),
            Ok(value) => value,
        };
        let ghost added = value@;
        values.push(value);
        proof {
            assert(typeds(values@) =~= before.push(added));
            let rest = compiled_all(env@, around, all, i + 1);
            if let Ok(view) = rest.result {
                assert(before + (seq![added] + view) =~= before.push(added) + view);
            }
        }
        i = i + 1;
    }
    assert(typeds(values@) + Seq::<Typed>::empty() =~= typeds(values@));
    Ok(values)
}

fn compile_product(env: &mut Env, scopes: &Vec<CheckedCandidate>, items: &Vec<Expr>) -> (result:
    Result<CheckedExpr, MagError>)
    ensures
        compiling(final(env)@, result) == compiled_product(
            old(env)@,
            cands(scopes@),
            terms(items@),
        ),
    decreases items, 1int,
{
    match compile_all(env, scopes, items) {
        Err(error) => Err(error),
        Ok(values) => {
            let types = collect_types(&values);
            Ok(checked(MagType::Product(types), CheckedExprKind::Vector(values)))
        },
    }
}

fn compile_vector(
    env: &mut Env,
    scopes: &Vec<CheckedCandidate>,
    items: &Vec<Expr>,
    expected: Option<&MagType>,
) -> (result: Result<CheckedExpr, MagError>)
    ensures
        compiling(final(env)@, result) == compiled_raw(
            old(env)@,
            cands(scopes@),
            Term::Vector(terms(items@)),
            option_type(expected),
        ),
    decreases items, 2int,
{
    match expected {
        Some(MagType::Product(_)) => compile_product(env, scopes, items),
        Some(MagType::List(item)) => compile_elements(env, scopes, items, Some(item)),
        _ => compile_elements(env, scopes, items, None),
    }
}

fn compile_elements(
    env: &mut Env,
    scopes: &Vec<CheckedCandidate>,
    items: &Vec<Expr>,
    wanted: Option<&MagType>,
) -> (result: Result<CheckedExpr, MagError>)
    ensures
        compiling(final(env)@, result) == compiled_elements(
            old(env)@,
            cands(scopes@),
            terms(items@),
            option_type(wanted),
            0,
            option_type(wanted),
            Map::empty(),
            Seq::empty(),
        ),
    decreases items, 1int,
{
    let ghost all = terms(items@);
    let ghost around = cands(scopes@);
    let ghost goal = option_type(wanted);
    let ghost whole = compiled_elements(
        old(env)@,
        around,
        all,
        goal,
        0,
        goal,
        Map::empty(),
        Seq::empty(),
    );
    let mut item_type: Option<MagType> = match wanted {
        Some(ty) => Some(ty.copy()),
        None => None,
    };
    let mut subst = Subst::new();
    let mut values: Vec<CheckedExpr> = Vec::new();
    assert(typeds(values@) =~= Seq::<Typed>::empty());
    let mut i: usize = 0;
    while i < items.len()
        invariant
            i <= items@.len(),
            all == terms(items@),
            around == cands(scopes@),
            goal == option_type(wanted),
            whole == compiled_elements(
                old(env)@,
                around,
                all,
                goal,
                0,
                goal,
                Map::empty(),
                Seq::empty(),
            ),
            whole == compiled_elements(
                env@,
                around,
                all,
                goal,
                i as int,
                option_ty(item_type),
                subst@,
                typeds(values@),
            ),
        decreases items@.len() - i,
    {
        assert(all[i as int] == items@[i as int]@);
        let ghost before = typeds(values@);
        match wanted {
            Some(open) => {
                let ty = substitute(open, &subst);
                let value = match compile_expr(env, scopes, &items[i], Some(&ty)) {
                    Err(error) => return Err(error),
                    Ok(value) => value,
                };
                assert(value@.ty == value.ty@);
                match compatible_static(env, &value.ty, &ty, &mut subst) {
                    Err(message) => return Err(MagError::Type(message)),
                    Ok(_) => {},
                }
                item_type = Some(substitute(open, &subst));
                let ghost added = value@;
                values.push(value);
                assert(typeds(values@) =~= before.push(added));
            },
            None => {
                let value = match compile_expr(env, scopes, &items[i], None) {
                    Err(error) => return Err(error),
                    Ok(value) => value,
                };
                assert(value@.ty == value.ty@);
                match &item_type {
                    Some(current) => match check_static(env, &value.ty, current) {
                        Err(_) => {
                            let current = current.text();
                            let own = value.ty.text();
                            return Err(
                                MagError::Type(
                                    cat4(
                                        "list elements must have one compatible type, got ",
                                        current.as_str(),
                                        " and ",
                                        own.as_str(),
                                    ),
                                ),
                            );
                        },
                        Ok(_) => {},
                    },
                    None => {
                        item_type = Some(value.ty.copy());
                    },
                }
                let ghost added = value@;
                values.push(value);
                assert(typeds(values@) =~= before.push(added));
            },
        }
        i = i + 1;
    }
    let ty = match item_type {
        Some(item) => list(item),
        None => MagType::EmptyList,
    };
    Ok(checked(ty, CheckedExprKind::Vector(values)))
}

fn name_repeated(fields: &Vec<(String, Expr)>, upto: usize, name: &str) -> (found: bool)
    requires
        upto <= fields@.len(),
    ensures
        found == named_before(field_terms(fields@), name@, upto as int),
{
    let ghost all = field_terms(fields@);
    let mut n: usize = upto;
    while n > 0
        invariant
            n <= upto <= fields@.len(),
            all == field_terms(fields@),
            named_before(all, name@, upto as int) == named_before(all, name@, n as int),
        decreases n,
    {
        n = n - 1;
        assert(all[n as int] == (fields@[n as int].0@, fields@[n as int].1@));
        if same_text(fields[n].0.as_str(), name) {
            return true;
        }
    }
    false
}

fn compile_members(
    env: &mut Env,
    scopes: &Vec<CheckedCandidate>,
    fields: &Vec<(String, Expr)>,
    wanted: &Vec<(String, MagType)>,
) -> (result: Result<Vec<(String, CheckedExpr)>, MagError>)
    ensures
        compiling_members(final(env)@, result) == compiled_members(
            old(env)@,
            cands(scopes@),
            field_terms(fields@),
            field_types(wanted@),
            0,
            Seq::empty(),
        ),
    decreases fields, 0int,
{
    let ghost all = field_terms(fields@);
    let ghost types = field_types(wanted@);
    let ghost around = cands(scopes@);
    let ghost whole = compiled_members(old(env)@, around, all, types, 0, Seq::empty());
    let mut values: Vec<(String, CheckedExpr)> = Vec::new();
    assert(typed_members(values@) =~= Seq::<(Seq<char>, Typed)>::empty());
    let mut i: usize = 0;
    while i < fields.len()
        invariant
            i <= fields@.len(),
            all == field_terms(fields@),
            types == field_types(wanted@),
            around == cands(scopes@),
            whole == compiled_members(old(env)@, around, all, types, 0, Seq::empty()),
            whole == compiled_members(
                env@,
                around,
                all,
                types,
                i as int,
                typed_members(values@),
            ),
        decreases fields@.len() - i,
    {
        let field = &fields[i];
        assert(all[i as int] == (field.0@, field.1@));
        if name_repeated(fields, i, field.0.as_str()) {
            return Err(MagError::Type(cat2("duplicate named field ", field.0.as_str())));
        }
        let found = find_field(wanted, field.0.as_str());
        let compiled_value = match &found {
            Some(ty) => compile_expr(env, scopes, &field.1, Some(ty)),
            None => compile_expr(env, scopes, &field.1, None),
        };
        let value = match compiled_value {
            Err(error) => return Err(error),
            Ok(value) => value,
        };
        let ghost before = typed_members(values@);
        let ghost added = (field.0@, value@);
        values.push((field.0.clone(), value));
        assert(typed_members(values@) =~= before.push(added));
        i = i + 1;
    }
    Ok(values)
}

fn compile_map(
    env: &mut Env,
    scopes: &Vec<CheckedCandidate>,
    fields: &Vec<(String, Expr)>,
    expected: &MagType,
) -> (result: Result<CheckedExpr, MagError>)
    ensures
        compiling(final(env)@, result) == compiled_record(
            old(env)@,
            cands(scopes@),
            field_terms(fields@),
            expected@,
        ),
    decreases fields, 1int,
{
    match named_field_types(env, expected) {
        None => {
            let text = expected.text();
            Err(MagError::Type(cat2("named field literal cannot construct ", text.as_str())))
        },
        Some(wanted) => match compile_members(env, scopes, fields, &wanted) {
            Err(error) => Err(error),
            Ok(values) => Ok(checked(expected.copy(), CheckedExprKind::Fields(values))),
        },
    }
}

fn compile_payload(
    env: &mut Env,
    scopes: &Vec<CheckedCandidate>,
    payload: &Expr,
    expected: &MagType,
) -> (result: Result<CheckedExpr, MagError>)
    ensures
        compiling(final(env)@, result) == compiled_payload(
            old(env)@,
            cands(scopes@),
            payload@,
            expected@,
        ),
    decreases payload, 4int,
{
    match payload {
        Expr::Fields(fields) => match named_field_types(env, expected) {
            None => {
                let text = expected.text();
                Err(
                    MagError::Type(
                        cat2("constructor field payload cannot construct ", text.as_str()),
                    ),
                )
            },
            Some(wanted) => {
                if !match_names(fields, &wanted) {
                    let text = expected.text();
                    return Err(
                        MagError::Type(
                            cat2("constructor fields must exactly match ", text.as_str()),
                        ),
                    );
                }
                compile_map(env, scopes, fields, expected)
            },
        },
        _ => compile_expr(env, scopes, payload, Some(expected)),
    }
}

fn compile_construct(
    env: &mut Env,
    scopes: &Vec<CheckedCandidate>,
    expression: &Expr,
    expected: Option<&MagType>,
) -> (result: Result<CheckedExpr, MagError>)
    requires
        expression is Construct,
    ensures
        compiling(final(env)@, result) == compiled_raw(
            old(env)@,
            cands(scopes@),
            expression@,
            option_type(expected),
        ),
    decreases expression, 1int,
{
    match expression {
        Expr::Construct { owner, constructor, payload } => {
            let vars = visible_type_variables(scopes);
            let owner = match resolve_type(env, owner, &vars) {
                Err(error) => return Err(error),
                Ok(owner) => owner,
            };
            let found = match instantiated_constructor(env, &owner, constructor.as_str()) {
                Err(error) => return Err(error),
                Ok(found) => found,
            };
            let value = match compile_payload(env, scopes, payload, &found.payload) {
                Err(error) => return Err(error),
                Ok(value) => value,
            };
            let kind = CheckedExprKind::Construct {
                owner: owner.copy(),
                constructor: found.id,
                payload: Box::new(value),
            };
            assert(kind@ == TypedKind::Construct(owner@, found@.id, Box::new(value@)));
            Ok(checked(owner, kind))
        },
        _ => Ok(checked(MagType::Unit, CheckedExprKind::Unit)),
    }
}

fn join_checked_arm(env: &Env, current: Option<MagType>, body: &MagType) -> (result: Result<
    MagType,
    MagError,
>)
    ensures
        typing(result) == arm_joined(env@, option_ty(current), body@),
{
    match current {
        None => Ok(body.copy()),
        Some(ty) => {
            match (&ty, body) {
                (MagType::Never, MagType::Never) => {},
                (MagType::Never, _) => return Ok(body.copy()),
                _ => {},
            }
            match check_static(env, body, &ty) {
                Ok(_) => Ok(ty),
                Err(_) => {
                    let current = ty.text();
                    let body = body.text();
                    Err(
                        MagError::Type(
                            cat4(
                                "match arms must return one compatible type, got ",
                                current.as_str(),
                                " and ",
                                body.as_str(),
                            ),
                        ),
                    )
                },
            }
        },
    }
}

fn expect_of_arm(current: &Option<MagType>) -> (expected: Option<MagType>)
    ensures
        option_ty(expected) == arm_expected(option_ty(*current)),
{
    match current {
        Some(ty) => match ty {
            MagType::Never => None,
            _ => Some(ty.copy()),
        },
        None => None,
    }
}

fn compile_match(
    env: &mut Env,
    scopes: &Vec<CheckedCandidate>,
    expression: &Expr,
    expected: Option<&MagType>,
) -> (result: Result<CheckedExpr, MagError>)
    requires
        expression is Match,
    ensures
        compiling(final(env)@, result) == compiled_raw(
            old(env)@,
            cands(scopes@),
            expression@,
            option_type(expected),
        ),
    decreases expression, 1int,
{
    match expression {
        Expr::Match { value, arms } => {
            let scrutinee = match compile_expr(env, scopes, value, None) {
                Err(error) => return Err(error),
                Ok(scrutinee) => scrutinee,
            };
            compile_arms(env, scopes, scrutinee, arms, expected)
        },
        _ => Ok(checked(MagType::Unit, CheckedExprKind::Unit)),
    }
}

#[verifier::rlimit(40)]
fn compile_arms(
    env: &mut Env,
    scopes: &Vec<CheckedCandidate>,
    value: CheckedExpr,
    arms: &Vec<MatchArm>,
    expected: Option<&MagType>,
) -> (result: Result<CheckedExpr, MagError>)
    ensures
        compiling(final(env)@, result) == (match constructors_of(old(env)@, value@.ty) {
            Err(failure) => failed(old(env)@, failure),
            Ok(list) => compiled_arms(
                old(env)@,
                cands(scopes@),
                value@,
                list,
                arm_terms(arms@),
                0,
                Seq::empty(),
                option_type(expected),
                Seq::empty(),
            ),
        }),
    decreases arms, 0int,
{
    let ghost all = arm_terms(arms@);
    let ghost around = cands(scopes@);
    let ghost goal = option_type(expected);
    assert(value@.ty == value.ty@);
    let found = match adt_constructors(env, &value.ty) {
        Err(error) => return Err(error),
        Ok(found) => found,
    };
    let ghost list = constructors(found@);
    let vars = visible_type_variables(scopes);
    let mut seen: Vec<ConstructorDeclarationId> = Vec::new();
    let mut current: Option<MagType> = match expected {
        Some(ty) => Some(ty.copy()),
        None => None,
    };
    let mut values: Vec<CheckedMatchArm> = Vec::new();
    let ghost whole = compiled_arms(
        old(env)@,
        around,
        value@,
        list,
        all,
        0,
        Seq::empty(),
        goal,
        Seq::empty(),
    );
    proof {
        assert(constructor_ids(seen@) =~= Seq::<ConstructorId>::empty());
        assert(typed_arms(values@) =~= Seq::<TypedArm>::empty());
    }
    let mut i: usize = 0;
    while i < arms.len()
        invariant
            i <= arms@.len(),
            all == arm_terms(arms@),
            around == cands(scopes@),
            vars@ == type_vars_in(around),
            value@.ty == value.ty@,
            list == constructors(found@),
            goal == option_type(expected),
            constructors_of(old(env)@, value@.ty) == Ok::<Seq<Constructor>, Failure>(list),
            whole == compiled_arms(
                old(env)@,
                around,
                value@,
                list,
                all,
                0,
                Seq::empty(),
                goal,
                Seq::empty(),
            ),
            whole == compiled_arms(
                env@,
                around,
                value@,
                list,
                all,
                i as int,
                constructor_ids(seen@),
                option_ty(current),
                typed_arms(values@),
            ),
        decreases arms@.len() - i,
    {
        let arm = &arms[i];
        assert(all[i as int] == arms@[i as int]@);
        assert(arm@.body == arm.body@);
        let constructor = match find_arm_constructor(env, &vars, &value.ty, &arm.pattern) {
            Err(error) => return Err(error),
            Ok(constructor) => constructor,
        };
        if contains_constructor(&seen, &constructor.id) {
            let pattern = arm.pattern.text();
            return Err(MagError::Type(cat2("duplicate match arm for ", pattern.as_str())));
        }
        let mut inner = copy_candidates(scopes);
        let id = match introduce(env, &mut inner, arm.binding.as_str(), &constructor.payload) {
            Err(error) => return Err(error),
            Ok(id) => id,
        };
        let wanted = expect_of_arm(&current);
        let body = match &wanted {
            Some(ty) => compile_expr(env, &inner, &arm.body, Some(ty)),
            None => compile_expr(env, &inner, &arm.body, None),
        };
        let body = match body {
            Err(error) => return Err(error),
            Ok(body) => body,
        };
        assert(body@.ty == body.ty@);
        match join_checked_arm(env, current, &body.ty) {
            Err(error) => return Err(error),
            Ok(next) => {
                current = Some(next);
            },
        }
        let ghost before_ids = constructor_ids(seen@);
        let ghost before_arms = typed_arms(values@);
        let ConstructorDecl { id: constructor_id, payload } = constructor;
        seen.push(constructor_id.copy());
        assert(constructor_ids(seen@) =~= before_ids.push(constructor_id@));
        let binding = CheckedParam { id, name: arm.binding.clone(), ty: payload };
        let value_arm = CheckedMatchArm {
            constructor: constructor_id,
            binding,
            body: Box::new(body),
        };
        let ghost added = value_arm@;
        assert(added == TypedArm {
            constructor: constructor_id@,
            binding: binding@,
            body: Box::new(body@),
        });
        values.push(value_arm);
        assert(typed_arms(values@) =~= before_arms.push(added));
        i = i + 1;
    }
    match ensure_adt_exhaustive(&found, &seen) {
        Err(error) => Err(error),
        Ok(_) => {
            let ty = match current {
                Some(ty) => ty,
                None => MagType::Unit,
            };
            let kind = CheckedExprKind::Match { value: Box::new(value), arms: values };
            assert(kind@ == TypedKind::Match(Box::new(value@), typed_arms(values@)));
            Ok(checked(ty, kind))
        },
    }
}

fn is_convertible(env: &Env, source: &MagType, target: &MagType) -> (yes: bool)
    ensures
        yes == convertible(env@, source@, target@),
{
    check_static(env, source, target).is_ok() || is_newtype_boundary(env, source, target)
}

fn ascribe(env: &Env, value: CheckedExpr, target: MagType) -> (result: Result<
    CheckedExpr,
    MagError,
>)
    ensures
        compiling(env@, result) == (Compiled {
            world: env@,
            result: ascribed(env@, value@, target@),
        }),
{
    assert(value@.ty == value.ty@);
    if (contains_newtype(env, &value.ty) || contains_newtype(env, &target)) && !is_convertible(
        env,
        &value.ty,
        &target,
    ) {
        let source = value.ty.text();
        let target = target.text();
        return Err(
            MagError::Type(
                cat4("invalid ascription from ", source.as_str(), " to ", target.as_str()),
            ),
        );
    }
    let kind = CheckedExprKind::Ascribe { target: target.copy(), value: Box::new(value) };
    assert(kind@ == TypedKind::Ascribe(target@, Box::new(value@)));
    Ok(checked(target, kind))
}

fn compile_newtype_call(
    env: &mut Env,
    scopes: &Vec<CheckedCandidate>,
    inner: &MagType,
    target: &MagType,
    value: &Expr,
) -> (result: Result<CheckedExpr, MagError>)
    requires
        value is Call,
        underlying(old(env)@, target@) == Some(inner@),
    ensures
        compiling(final(env)@, result) == compiled_source(
            old(env)@,
            cands(scopes@),
            target@,
            value@,
        ),
    decreases value, 3int,
{
    match compile_call(env, scopes, value, Some(inner)) {
        Ok(typed) => Ok(typed),
        Err(first) => match compile_call(env, scopes, value, None) {
            Ok(typed) => {
                assert(typed@.ty == typed.ty@);
                if is_convertible(env, &typed.ty, target) {
                    Ok(typed)
                } else {
                    Err(first)
                }
            },
            Err(_) => Err(first),
        },
    }
}

fn compile_source(
    env: &mut Env,
    scopes: &Vec<CheckedCandidate>,
    target: &MagType,
    value: &Expr,
) -> (result: Result<CheckedExpr, MagError>)
    ensures
        compiling(final(env)@, result) == compiled_source(
            old(env)@,
            cands(scopes@),
            target@,
            value@,
        ),
    decreases value, 4int,
{
    match value {
        Expr::Fields(fields) => compile_map(env, scopes, fields, target),
        Expr::Vector(items) => match target {
            MagType::Product(_) => compile_product(env, scopes, items),
            _ => compile_expr(env, scopes, value, None),
        },
        Expr::Call { .. } => match newtype_underlying(env, target) {
            Some(inner) => compile_newtype_call(env, scopes, &inner, target, value),
            None => {
                if contains_newtype(env, target) {
                    compile_call(env, scopes, value, None)
                } else {
                    compile_call(env, scopes, value, Some(target))
                }
            },
        },
        Expr::Name(path) => {
            let name = path.text();
            let found = visible_candidates(env, scopes, name.as_str());
            assert(cands(found@).len() == found@.len());
            if found.len() > 1 {
                compile_expr(env, scopes, value, Some(target))
            } else {
                compile_expr(env, scopes, value, None)
            }
        },
        _ => compile_expr(env, scopes, value, None),
    }
}

fn compile_ascribe(env: &mut Env, scopes: &Vec<CheckedCandidate>, target: &Type, value: &Expr) -> (result:
    Result<CheckedExpr, MagError>)
    ensures
        compiling(final(env)@, result) == compiled_ascribe(
            old(env)@,
            cands(scopes@),
            target@,
            value@,
        ),
    decreases value, 5int,
{
    let vars = visible_type_variables(scopes);
    let ty = match resolve_type(env, target, &vars) {
        Err(error) => return Err(error),
        Ok(ty) => ty,
    };
    match compile_source(env, scopes, &ty, value) {
        Err(error) => Err(error),
        Ok(typed) => ascribe(env, typed, ty),
    }
}

fn compile_annotate(
    env: &mut Env,
    scopes: &Vec<CheckedCandidate>,
    target: &Type,
    value: &Expr,
) -> (result: Result<CheckedExpr, MagError>)
    ensures
        compiling(final(env)@, result) == compiled_annotate(
            old(env)@,
            cands(scopes@),
            target@,
            value@,
        ),
    decreases value, 6int,
{
    let vars = visible_type_variables(scopes);
    let ty = match resolve_type(env, target, &vars) {
        Err(error) => return Err(error),
        Ok(ty) => ty,
    };
    let inner = match value {
        Expr::Construct { .. } => return compile_ascribe(env, scopes, target, value),
        Expr::Fields(fields) => compile_map(env, scopes, fields, &ty),
        Expr::Vector(items) => match &ty {
            MagType::Product(_) => compile_product(env, scopes, items),
            _ => compile_expr(env, scopes, value, Some(&ty)),
        },
        _ => compile_expr(env, scopes, value, Some(&ty)),
    };
    let typed = match inner {
        Err(error) => return Err(error),
        Ok(typed) => typed,
    };
    assert(typed@.ty == typed.ty@);
    match check_static(env, &typed.ty, &ty) {
        Err(error) => Err(error),
        Ok(_) => {
            let kind = CheckedExprKind::Ascribe { target: ty.copy(), value: Box::new(typed) };
            assert(kind@ == TypedKind::Ascribe(ty@, Box::new(typed@)));
            Ok(checked(ty, kind))
        },
    }
}

// ---------------------------------------------------------------------------
// Checking calls
// ---------------------------------------------------------------------------

/// How many of the first `n` parameters are open, or how many are not.
pub open spec fn open_count(params: Seq<Ty>, open: bool, n: int) -> nat
    decreases n,
{
    if n <= 0 {
        0
    } else if open_type(params[n - 1]) == open {
        open_count(params, open, n - 1) + 1
    } else {
        open_count(params, open, n - 1)
    }
}

proof fn lemma_open_count(params: Seq<Ty>, open: bool, n: int, m: int)
    requires
        n <= m,
    ensures
        open_count(params, open, n) <= open_count(params, open, m),
    decreases m - n,
{
    if n < m {
        lemma_open_count(params, open, n, m - 1);
    }
}

proof fn lemma_open_split(params: Seq<Ty>, n: int)
    requires
        0 <= n,
    ensures
        open_count(params, true, n) + open_count(params, false, n) == n,
    decreases n,
{
    if n > 0 {
        lemma_open_split(params, n - 1);
    }
}

fn impossible_argument(names: &Option<Vec<String>>, params: &Vec<MagType>, checked_arguments: usize) -> (failure:
    CallArgumentFailure)
    ensures
        failure@ == (ArgumentFailure {
            index: 0,
            name: name_at(option_texts(*names), 0),
            checked: checked_arguments as nat,
            expected: if tys(params@).len() > 0 {
                tys(params@)[0]
            } else {
                Ty::Unit
            },
            actual: None,
            conflict: None,
            error: "internal error: unchecked call argument"@,
        }),
{
    assert(tys(params@).len() == params@.len());
    CallArgumentFailure {
        index: 0,
        name: find_name(names, 0),
        checked_arguments,
        expected: if params.len() > 0 {
            params[0].copy()
        } else {
            MagType::Unit
        },
        actual: None,
        conflicting_hole: None,
        error: "internal error: unchecked call argument".to_owned(),
    }
}

/// The arguments that are checked so far, each in its place.
pub struct ArgumentSlots {
    pub slots: Vec<Option<CheckedExpr>>,
    pub subst: Subst,
    pub checked: usize,
}

impl ArgumentSlots {
    pub open spec fn view(&self) -> Slots {
        Slots {
            slots: slot_views(self.slots@),
            subst: self.subst@,
            checked: self.checked as nat,
        }
    }
}

pub open spec fn slotted(world: World, state: Slots, result: Result<(), CallArgumentFailure>) -> SlotPass {
    SlotPass {
        world,
        result: match result {
            Ok(_) => Ok(state),
            Err(failure) => Err(failure@),
        },
    }
}

fn argument_mismatch(
    env: &mut Env,
    scopes: &Vec<CheckedCandidate>,
    argument: &Expr,
    error: MagError,
    index: usize,
    param: &MagType,
    parameter: MagType,
    names: &Option<Vec<String>>,
    bindable: &Names,
    holes: &Vec<InferredTypeArgumentHole>,
    state: &ArgumentSlots,
) -> (failure: CallArgumentFailure)
    ensures
        ({
            let found = inferred(old(env)@, locals_in(cands(scopes@)), argument@);
            let actual = match found.result {
                Ok(ty) => Some(ty),
                Err(_) => None,
            };
            &&& final(env)@ == found.world
            &&& failure@ == ArgumentFailure {
                index: index as nat,
                name: name_at(option_texts(*names), index as int),
                checked: state@.checked,
                expected: parameter@,
                actual,
                conflict: conflict_with(
                    found.world,
                    actual,
                    param@,
                    state@.subst,
                    bindable@,
                    hole_views(holes@),
                ),
                error: failure_text(error@),
            }
        }),
{
    let locals = visible_types(scopes);
    let actual = match infer(env, &locals, argument) {
        Ok(ty) => Some(ty),
        Err(_) => None,
    };
    let conflicting_hole = find_conflict(env, &actual, param, &state.subst, bindable, holes);
    CallArgumentFailure {
        index,
        name: find_name(names, index),
        checked_arguments: state.checked,
        expected: parameter,
        actual,
        conflicting_hole,
        error: error.message(),
    }
}

#[verifier::rlimit(40)]
fn compile_slots(
    env: &mut Env,
    scopes: &Vec<CheckedCandidate>,
    args: &Vec<Expr>,
    params: &Vec<MagType>,
    names: &Option<Vec<String>>,
    bindable: &Names,
    holes: &Vec<InferredTypeArgumentHole>,
    open: bool,
    state: &mut ArgumentSlots,
) -> (result: Result<(), CallArgumentFailure>)
    requires
        args@.len() == params@.len(),
        old(state).slots@.len() == params@.len(),
        old(state).checked + open_count(tys(params@), open, params@.len() as int) <= usize::MAX,
    ensures
        slotted(final(env)@, final(state)@, result) == compiled_slots(
            old(env)@,
            cands(scopes@),
            terms(args@),
            tys(params@),
            option_texts(*names),
            bindable@,
            hole_views(holes@),
            open,
            0,
            old(state)@,
        ),
        final(state).slots@.len() == params@.len(),
        final(state).checked <= old(state).checked + open_count(
            tys(params@),
            open,
            params@.len() as int,
        ),
    decreases args, 0int,
{
    let ghost all = terms(args@);
    let ghost types = tys(params@);
    let ghost around = cands(scopes@);
    let ghost labels = option_texts(*names);
    let ghost open_holes = hole_views(holes@);
    let ghost start = state@;
    let ghost whole = compiled_slots(
        old(env)@,
        around,
        all,
        types,
        labels,
        bindable@,
        open_holes,
        open,
        0,
        start,
    );
    let mut i: usize = 0;
    while i < args.len()
        invariant
            i <= args@.len() == params@.len(),
            state.slots@.len() == params@.len(),
            state.checked <= old(state).checked + open_count(types, open, i as int),
            old(state).checked + open_count(types, open, params@.len() as int) <= usize::MAX,
            all == terms(args@),
            types == tys(params@),
            around == cands(scopes@),
            labels == option_texts(*names),
            open_holes == hole_views(holes@),
            start == old(state)@,
            whole == compiled_slots(
                old(env)@,
                around,
                all,
                types,
                labels,
                bindable@,
                open_holes,
                open,
                0,
                start,
            ),
            whole == compiled_slots(
                env@,
                around,
                all,
                types,
                labels,
                bindable@,
                open_holes,
                open,
                i as int,
                state@,
            ),
        decreases args@.len() - i,
    {
        assert(all[i as int] == args@[i as int]@);
        assert(types[i as int] == params@[i as int]@);
        proof {
            lemma_open_count(types, open, i + 1, params@.len() as int);
        }
        if contains_union(&params[i]) == open {
            let parameter = substitute(&params[i], &state.subst);
            match compile_expr(env, scopes, &args[i], Some(&parameter)) {
                Err(error) => {
                    return Err(
                        argument_mismatch(
                            env,
                            scopes,
                            &args[i],
                            error,
                            i,
                            &params[i],
                            parameter,
                            names,
                            bindable,
                            holes,
                            state,
                        ),
                    );
                },
                Ok(value) => {
                    assert(value@.ty == value.ty@);
                    match compatible_with_bindable(
                        env,
                        &value.ty,
                        &parameter,
                        &mut state.subst,
                        bindable,
                    ) {
                        Err(message) => {
                            let actual = Some(value.ty.copy());
                            let conflicting_hole = find_conflict(
                                env,
                                &actual,
                                &params[i],
                                &state.subst,
                                bindable,
                                holes,
                            );
                            return Err(
                                CallArgumentFailure {
                                    index: i,
                                    name: find_name(names, i),
                                    checked_arguments: state.checked,
                                    expected: parameter,
                                    actual,
                                    conflicting_hole,
                                    error: message,
                                },
                            );
                        },
                        Ok(_) => {},
                    }
                    let ghost before = slot_views(state.slots@);
                    let ghost added = value@;
                    state.slots.set(i, Some(value));
                    assert(slot_views(state.slots@) =~= before.update(i as int, Some(added)));
                    state.checked = state.checked + 1;
                },
            }
        }
        i = i + 1;
    }
    Ok(())
}

pub open spec fn argued(
    world: World,
    result: Result<(Vec<CheckedExpr>, Subst), CallArgumentFailure>,
) -> Arguments {
    Arguments {
        world,
        result: match result {
            Ok((values, subst)) => Ok((typeds(values@), subst@)),
            Err(failure) => Err(failure@),
        },
    }
}

fn no_slots(count: usize) -> (state: ArgumentSlots)
    ensures
        state@ == empty_slots(count as nat),
        state.slots@.len() == count,
        state.checked == 0,
{
    let mut slots: Vec<Option<CheckedExpr>> = Vec::new();
    while slots.len() < count
        invariant
            slots@.len() <= count,
            forall|j: int| 0 <= j < slots@.len() ==> (#[trigger] slots@[j]) is None,
        decreases count - slots@.len(),
    {
        slots.push(None);
    }
    assert(slot_views(slots@) =~= Seq::new(count as nat, |i: int| None::<Typed>));
    ArgumentSlots { slots, subst: Subst::new(), checked: 0 }
}

fn compile_call_args(
    env: &mut Env,
    scopes: &Vec<CheckedCandidate>,
    args: &Vec<Expr>,
    params: &Vec<MagType>,
    names: &Option<Vec<String>>,
    bindable: &Names,
    holes: &Vec<InferredTypeArgumentHole>,
) -> (result: Result<(Vec<CheckedExpr>, Subst), CallArgumentFailure>)
    requires
        args@.len() == params@.len(),
    ensures
        argued(final(env)@, result) == compiled_args(
            old(env)@,
            cands(scopes@),
            terms(args@),
            tys(params@),
            option_texts(*names),
            bindable@,
            hole_views(holes@),
        ),
    decreases args, 1int,
{
    let count = params.len();
    let ghost types = tys(params@);
    assert(types.len() == count);
    proof {
        lemma_open_split(types, count as int);
    }
    let mut state = no_slots(count);
    let first = compile_slots(
        env,
        scopes,
        args,
        params,
        names,
        bindable,
        holes,
        false,
        &mut state,
    );
    match first {
        Err(failure) => return Err(failure),
        Ok(_) => {},
    }
    let second = compile_slots(
        env,
        scopes,
        args,
        params,
        names,
        bindable,
        holes,
        true,
        &mut state,
    );
    match second {
        Err(failure) => return Err(failure),
        Ok(_) => {},
    }
    match collect_slots(&state.slots) {
        None => Err(impossible_argument(names, params, state.checked)),
        Some(values) => match pass_arguments(
            env,
            &values,
            params,
            names,
            &state.subst,
            state.checked,
        ) {
            Err(failure) => Err(failure),
            Ok(_) => Ok((values, state.subst)),
        },
    }
}


pub open spec fn attempting(world: World, result: Result<CallMatch, CallCandidateRejection>) -> Attempt {
    Attempt {
        world,
        result: match result {
            Ok(found) => Ok(found@),
            Err(rejection) => Err(rejection@),
        },
    }
}

fn reject(
    candidate: &CheckedCandidate,
    order: usize,
    explicit: Option<&Vec<TypeArgument>>,
    args: &Vec<Expr>,
    checked_arguments: usize,
    reason: CallRejectionReason,
) -> (rejection: CallCandidateRejection)
    ensures
        rejection@ == refusal(
            candidate@,
            order as nat,
            option_argument_terms(explicit),
            terms(args@),
            checked_arguments as nat,
            reason@,
        ),
{
    assert(terms(args@).len() == args@.len());
    CallCandidateRejection {
        candidate: candidate.copy(),
        value_arity: args.len(),
        explicit_type_arity: match explicit {
            Some(arguments) => Some(arguments.len()),
            None => None,
        },
        checked_arguments,
        reason,
        declaration_order: order,
    }
}

fn attempt_instance(
    env: &mut Env,
    scopes: &Vec<CheckedCandidate>,
    name: &str,
    candidate: &CheckedCandidate,
    instance: &InstantiatedCallCandidate,
    params: &Vec<MagType>,
    result: &MagType,
    args: &Vec<Expr>,
    expected: Option<&MagType>,
) -> (outcome: Result<CallMatch, (usize, CallRejectionReason)>)
    requires
        args@.len() == params@.len(),
    ensures
        (
            final(env)@,
            match outcome {
                Ok(found) => Ok(found@),
                Err((count, reason)) => Err((count as nat, reason@)),
            },
        ) == attempted_instance(
            old(env)@,
            cands(scopes@),
            name@,
            candidate@,
            instance@,
            tys(params@),
            result@,
            terms(args@),
            option_type(expected),
        ),
    decreases args, 2int,
{
    proof {
        reveal_with_fuel(attempted_instance, 1);
    }
    assert(terms(args@).len() == args@.len());
    let given = compile_call_args(
        env,
        scopes,
        args,
        params,
        &candidate.parameter_names,
        &instance.bindable,
        &instance.holes,
    );
    match given {
        Err(failure) => {
            let count = failure.checked_arguments;
            Err((count, explain_argument(failure)))
        },
        Ok((values, subst)) => match complete(
            env,
            name,
            candidate,
            instance,
            params,
            result,
            values,
            subst,
            expected,
        ) {
            Ok(found) => Ok(found),
            Err(reason) => Err((args.len(), reason)),
        },
    }
}

#[verifier::spinoff_prover]
fn attempt_call(
    env: &mut Env,
    scopes: &Vec<CheckedCandidate>,
    name: &str,
    candidate: &CheckedCandidate,
    order: usize,
    explicit: Option<&Vec<TypeArgument>>,
    args: &Vec<Expr>,
    expected: Option<&MagType>,
) -> (result: Result<CallMatch, CallCandidateRejection>)
    ensures
        attempting(final(env)@, result) == attempted(
            old(env)@,
            cands(scopes@),
            name@,
            candidate@,
            order as nat,
            option_argument_terms(explicit),
            terms(args@),
            option_type(expected),
        ),
    decreases args, 3int,
{
    assert(terms(args@).len() == args@.len());
    let instance = match instantiate_call_candidate(env, scopes, name, candidate, explicit) {
        Err(error) => {
            let reason = CallRejectionReason::TypeArguments { error: error.message() };
            return Err(reject(candidate, order, explicit, args, 0, reason));
        },
        Ok(instance) => instance,
    };
    match &instance.ty {
        MagType::Function(params, result) => {
            assert(tys(params@).len() == params@.len());
            if params.len() != args.len() {
                let reason = CallRejectionReason::ValueArity {
                    expected: params.len(),
                    actual: args.len(),
                };
                return Err(reject(candidate, order, explicit, args, 0, reason));
            }
            match attempt_instance(
                env,
                scopes,
                name,
                candidate,
                &instance,
                params,
                result,
                args,
                expected,
            ) {
                Ok(found) => Ok(found),
                Err((count, reason)) => Err(
                    reject(candidate, order, explicit, args, count, reason),
                ),
            }
        },
        _ => {
            let text = instance.ty.text();
            let reason = CallRejectionReason::TypeArguments {
                error: cat2("candidate is not callable: ", text.as_str()),
            };
            Err(reject(candidate, order, explicit, args, 0, reason))
        },
    }
}

fn compile_overloaded_call(
    env: &mut Env,
    scopes: &Vec<CheckedCandidate>,
    name: &str,
    candidates: Vec<CheckedCandidate>,
    explicit: Option<&Vec<TypeArgument>>,
    args: &Vec<Expr>,
    expected: Option<&MagType>,
) -> (result: Result<CheckedExpr, MagError>)
    ensures
        compiling(final(env)@, result) == compiled_overload(
            old(env)@,
            cands(scopes@),
            name@,
            cands(candidates@),
            option_argument_terms(explicit),
            terms(args@),
            option_type(expected),
        ),
    decreases args, 5int,
{
    let left = match take_explicit(name, candidates, explicit) {
        Err(error) => return Err(error),
        Ok(left) => left,
    };
    let ghost all = cands(left@);
    let ghost around = cands(scopes@);
    let ghost written = option_argument_terms(explicit);
    let ghost given = terms(args@);
    let ghost goal = option_type(expected);
    let ghost whole = attempts_from(
        old(env)@,
        around,
        name@,
        all,
        0,
        written,
        given,
        goal,
        Seq::empty(),
        Seq::empty(),
    );
    let mut found: Vec<CallMatch> = Vec::new();
    let mut refused: Vec<CallCandidateRejection> = Vec::new();
    proof {
        assert(call_matches(found@) =~= Seq::<Matched>::empty());
        assert(rejections(refused@) =~= Seq::<Rejection>::empty());
    }
    let mut i: usize = 0;
    while i < left.len()
        invariant
            i <= left@.len(),
            all == cands(left@),
            around == cands(scopes@),
            written == option_argument_terms(explicit),
            given == terms(args@),
            goal == option_type(expected),
            whole == attempts_from(
                env@,
                around,
                name@,
                all,
                i as int,
                written,
                given,
                goal,
                call_matches(found@),
                rejections(refused@),
            ),
        decreases left@.len() - i,
    {
        assert(all[i as int] == left@[i as int]@);
        let ghost before_found = call_matches(found@);
        let ghost before_refused = rejections(refused@);
        match attempt_call(env, scopes, name, &left[i], i, explicit, args, expected) {
            Ok(one) => {
                let ghost added = one@;
                found.push(one);
                assert(call_matches(found@) =~= before_found.push(added));
            },
            Err(rejection) => {
                let ghost added = rejection@;
                refused.push(rejection);
                assert(rejections(refused@) =~= before_refused.push(added));
            },
        }
        i = i + 1;
    }
    finish_overload(name, found, refused)
}

pub open spec fn directing(
    world: World,
    result: Result<(Vec<CheckedExpr>, Subst), MagError>,
) -> (World, Result<(Seq<Typed>, Map<Seq<char>, Ty>), Failure>) {
    (
        world,
        match result {
            Ok((values, subst)) => Ok((typeds(values@), subst@)),
            Err(error) => Err(error@),
        },
    )
}

fn compile_direct(
    env: &mut Env,
    scopes: &Vec<CheckedCandidate>,
    args: &Vec<Expr>,
    params: &Vec<MagType>,
) -> (result: Result<(Vec<CheckedExpr>, Subst), MagError>)
    requires
        args@.len() == params@.len(),
    ensures
        directing(final(env)@, result) == compiled_direct(
            old(env)@,
            cands(scopes@),
            terms(args@),
            tys(params@),
            0,
            Map::empty(),
            Seq::empty(),
        ),
    decreases args, 0int,
{
    let ghost all = terms(args@);
    let ghost types = tys(params@);
    let ghost around = cands(scopes@);
    let ghost whole = compiled_direct(
        old(env)@,
        around,
        all,
        types,
        0,
        Map::empty(),
        Seq::empty(),
    );
    let mut subst = Subst::new();
    let mut values: Vec<CheckedExpr> = Vec::new();
    assert(typeds(values@) =~= Seq::<Typed>::empty());
    let mut i: usize = 0;
    while i < args.len()
        invariant
            i <= args@.len() == params@.len(),
            all == terms(args@),
            types == tys(params@),
            around == cands(scopes@),
            whole == compiled_direct(
                old(env)@,
                around,
                all,
                types,
                0,
                Map::empty(),
                Seq::empty(),
            ),
            whole == compiled_direct(
                env@,
                around,
                all,
                types,
                i as int,
                subst@,
                typeds(values@),
            ),
        decreases args@.len() - i,
    {
        assert(all[i as int] == args@[i as int]@);
        assert(types[i as int] == params@[i as int]@);
        let parameter = substitute(&params[i], &subst);
        let value = match compile_expr(env, scopes, &args[i], Some(&parameter)) {
            Err(error) => return Err(error),
            Ok(value) => value,
        };
        assert(value@.ty == value.ty@);
        match compatible_static(env, &value.ty, &parameter, &mut subst) {
            Err(message) => return Err(MagError::Type(message)),
            Ok(_) => {},
        }
        let ghost before = typeds(values@);
        let ghost added = value@;
        values.push(value);
        assert(typeds(values@) =~= before.push(added));
        i = i + 1;
    }
    Ok((values, subst))
}

fn finish_direct(
    env: &Env,
    callee: CheckedExpr,
    result: &MagType,
    values: Vec<CheckedExpr>,
    subst: Subst,
    expected: Option<&MagType>,
) -> (outcome: Result<CheckedExpr, MagError>)
    ensures
        compiling(env@, outcome) == (Compiled {
            world: env@,
            result: direct_result(
                env@,
                callee@,
                result@,
                typeds(values@),
                subst@,
                option_type(expected),
            ),
        }),
{
    let mut subst = subst;
    assert(callee@.ty == callee.ty@);
    let output = substitute(result, &subst);
    if let Some(ty) = expected {
        let bindable = internal_type_variables(&callee.ty);
        match constrain_result(env, &output, ty, &mut subst, &bindable) {
            Err(message) => return Err(MagError::Type(message)),
            Ok(_) => {},
        }
    }
    let ty = substitute(&output, &subst);
    let bindings: Vec<(String, MagType)> = Vec::new();
    assert(field_types(bindings@) =~= Seq::<(Seq<char>, Ty)>::empty());
    let kind = CheckedExprKind::Call {
        callee: Box::new(callee),
        args: values,
        type_bindings: bindings,
    };
    assert(kind@ == TypedKind::Call(
        Box::new(callee@),
        typeds(values@),
        Seq::<(Seq<char>, Ty)>::empty(),
    ));
    Ok(checked(ty, kind))
}

fn compile_value_call(
    env: &mut Env,
    scopes: &Vec<CheckedCandidate>,
    call: &Expr,
    expected: Option<&MagType>,
) -> (result: Result<CheckedExpr, MagError>)
    requires
        call is Call,
    ensures
        compiling(final(env)@, result) == compiled_value_call(
            old(env)@,
            cands(scopes@),
            call@,
            option_type(expected),
        ),
    decreases call, 0int,
{
    match call {
        Expr::Call { callee, type_args, args } => {
            assert(terms(args@).len() == args@.len());
            assert(call@ == Term::Call(
                Box::new((**callee)@),
                option_arguments(*type_args),
                terms(args@),
            ));
            if type_args.is_some() {
                return Err(
                    MagError::Type(
                        "explicit type arguments require an immediate call to a named generic function".to_owned(),
                    ),
                );
            }
            let target = match compile_expr(env, scopes, callee, None) {
                Err(error) => return Err(error),
                Ok(target) => target,
            };
            assert(target@.ty == target.ty@);
            match &target.ty {
                MagType::Function(params, result) => {
                    assert(tys(params@).len() == params@.len());
                    if params.len() != args.len() {
                        return Err(
                            MagError::Arity { expected: params.len(), got: args.len() },
                        );
                    }
                    let (values, subst) = match compile_direct(env, scopes, args, params) {
                        Err(error) => return Err(error),
                        Ok(given) => given,
                    };
                    let result = result.copy();
                    finish_direct(env, target, &result, values, subst, expected)
                },
                _ => {
                    let text = target.ty.text();
                    Err(MagError::Type(cat2("cannot call ", text.as_str())))
                },
            }
        },
        _ => Ok(checked(MagType::Unit, CheckedExprKind::Unit)),
    }
}

fn compile_call(
    env: &mut Env,
    scopes: &Vec<CheckedCandidate>,
    call: &Expr,
    expected: Option<&MagType>,
) -> (result: Result<CheckedExpr, MagError>)
    requires
        call is Call,
    ensures
        compiling(final(env)@, result) == compiled_call(
            old(env)@,
            cands(scopes@),
            call@,
            option_type(expected),
        ),
    decreases call, 1int,
{
    match call {
        Expr::Call { callee, type_args, args } => {
            let explicit: Option<&Vec<TypeArgument>> = match type_args {
                Some(list) => Some(list),
                None => None,
            };
            assert(option_argument_terms(explicit) == option_arguments(*type_args));
            assert(call@ == Term::Call(
                Box::new((**callee)@),
                option_arguments(*type_args),
                terms(args@),
            ));
            match &**callee {
                Expr::Name(path) => {
                    let name = path.text();
                    assert(name_of((**callee)@) == Some(name@));
                    let all = visible_candidates(env, scopes, name.as_str());
                    assert(cands(all@).len() == all@.len());
                    let list = keep_functions(&all);
                    assert(cands(list@).len() == list@.len());
                    if list.len() != 0 {
                        let user = compile_overloaded_call(
                            env,
                            scopes,
                            name.as_str(),
                            list,
                            explicit,
                            args,
                            expected,
                        );
                        match user {
                            Ok(value) => return Ok(value),
                            Err(error) => {
                                if builtin_id(env, name.as_str()).is_none() {
                                    return Err(error);
                                }
                            },
                        }
                    }
                    match builtin_id(env, name.as_str()) {
                        Some(id) => {
                            if explicit.is_some() {
                                return Err(not_generic_error(name.as_str()));
                            }
                            compile_builtin_call(env, scopes, name.as_str(), id, args, expected)
                        },
                        None => compile_value_call(env, scopes, call, expected),
                    }
                },
                _ => {
                    assert(name_of((**callee)@) is None);
                    compile_value_call(env, scopes, call, expected)
                },
            }
        },
        _ => Ok(checked(MagType::Unit, CheckedExprKind::Unit)),
    }
}

fn compile_artifact_members(
    env: &mut Env,
    scopes: &Vec<CheckedCandidate>,
    fields: &Vec<(String, Expr)>,
) -> (result: Result<Vec<(String, CheckedExpr)>, MagError>)
    ensures
        compiling_members(final(env)@, result) == compiled_artifact_members(
            old(env)@,
            cands(scopes@),
            field_terms(fields@),
            0,
            Seq::empty(),
        ),
    decreases fields, 0int,
{
    let ghost all = field_terms(fields@);
    let ghost around = cands(scopes@);
    let ghost whole = compiled_artifact_members(old(env)@, around, all, 0, Seq::empty());
    let mut values: Vec<(String, CheckedExpr)> = Vec::new();
    assert(typed_members(values@) =~= Seq::<(Seq<char>, Typed)>::empty());
    let mut i: usize = 0;
    while i < fields.len()
        invariant
            i <= fields@.len(),
            all == field_terms(fields@),
            around == cands(scopes@),
            whole == compiled_artifact_members(old(env)@, around, all, 0, Seq::empty()),
            whole == compiled_artifact_members(
                env@,
                around,
                all,
                i as int,
                typed_members(values@),
            ),
        decreases fields@.len() - i,
    {
        let field = &fields[i];
        assert(all[i as int] == (field.0@, field.1@));
        if name_repeated(fields, i, field.0.as_str()) {
            return Err(MagError::Type(cat2("duplicate artifact field ", field.0.as_str())));
        }
        let value = match compile_artifact_expr(env, scopes, &field.1) {
            Err(error) => return Err(error),
            Ok(value) => value,
        };
        let ghost before = typed_members(values@);
        let ghost added = (field.0@, value@);
        values.push((field.0.clone(), value));
        assert(typed_members(values@) =~= before.push(added));
        i = i + 1;
    }
    Ok(values)
}

fn compile_artifact_items(env: &mut Env, scopes: &Vec<CheckedCandidate>, items: &Vec<Expr>) -> (result:
    Result<Vec<CheckedExpr>, MagError>)
    ensures
        compiling_all(final(env)@, result) == compiled_artifact_items(
            old(env)@,
            cands(scopes@),
            terms(items@),
            0,
            Seq::empty(),
        ),
    decreases items, 0int,
{
    let ghost all = terms(items@);
    let ghost around = cands(scopes@);
    let ghost whole = compiled_artifact_items(old(env)@, around, all, 0, Seq::empty());
    let mut values: Vec<CheckedExpr> = Vec::new();
    assert(typeds(values@) =~= Seq::<Typed>::empty());
    let mut i: usize = 0;
    while i < items.len()
        invariant
            i <= items@.len(),
            all == terms(items@),
            around == cands(scopes@),
            whole == compiled_artifact_items(old(env)@, around, all, 0, Seq::empty()),
            whole == compiled_artifact_items(env@, around, all, i as int, typeds(values@)),
        decreases items@.len() - i,
    {
        assert(all[i as int] == items@[i as int]@);
        let value = match compile_artifact_expr(env, scopes, &items[i]) {
            Err(error) => return Err(error),
            Ok(value) => value,
        };
        let ghost before = typeds(values@);
        let ghost added = value@;
        values.push(value);
        assert(typeds(values@) =~= before.push(added));
        i = i + 1;
    }
    Ok(values)
}

fn compile_artifact_expr(env: &mut Env, scopes: &Vec<CheckedCandidate>, expression: &Expr) -> (result:
    Result<CheckedExpr, MagError>)
    ensures
        compiling(final(env)@, result) == compiled_artifact(
            old(env)@,
            cands(scopes@),
            expression@,
        ),
    decreases expression, 4int,
{
    match expression {
        Expr::Fields(fields) => match compile_artifact_members(env, scopes, fields) {
            Err(error) => Err(error),
            Ok(values) => Ok(checked(MagType::JsonValue, CheckedExprKind::Fields(values))),
        },
        Expr::Vector(items) => match compile_artifact_items(env, scopes, items) {
            Err(error) => Err(error),
            Ok(values) => Ok(checked(MagType::JsonValue, CheckedExprKind::Vector(values))),
        },
        _ => compile_expr(env, scopes, expression, None),
    }
}

fn expect_of_callback(builtin: Builtin, item: &MagType, expected: Option<&MagType>) -> (ty: MagType)
    ensures
        ty@ == callback_wanted(builtin, item@, option_type(expected)),
{
    let result = match builtin {
        Builtin::Filter => MagType::Bool,
        Builtin::SortBy | Builtin::GroupBy => MagType::String,
        Builtin::FlatMap => match expected {
            Some(ty) => ty.copy(),
            None => list(variable("result")),
        },
        _ => match expected {
            Some(MagType::List(result)) => result.copy(),
            _ => variable("result"),
        },
    };
    match builtin {
        Builtin::IndexedMap => function(two(MagType::Int, item.copy()), result),
        _ => function(one(item.copy()), result),
    }
}

fn callback_error(builtin: Builtin, error: MagError) -> (result: MagError)
    ensures
        result@ == callback_failure(builtin, error@),
{
    match builtin {
        Builtin::SortBy | Builtin::GroupBy => {
            let message = error.message();
            MagError::Type(cat3(builtin.name(), " callback must return String: ", message.as_str()))
        },
        Builtin::Filter => {
            let message = error.message();
            MagError::Type(cat2("filter callback must return Bool: ", message.as_str()))
        },
        _ => error,
    }
}

fn output_of_walk(builtin: Builtin, collection: &MagType, result: &MagType) -> (ty: MagType)
    ensures
        ty@ == walk_output(builtin, collection@, result@),
{
    match builtin {
        Builtin::Filter | Builtin::SortBy => collection.copy(),
        Builtin::GroupBy => map_type(MagType::String, collection.copy()),
        Builtin::FlatMap => result.copy(),
        _ => list(result.copy()),
    }
}

fn compile_collection_builtin(
    env: &mut Env,
    scopes: &Vec<CheckedCandidate>,
    builtin: Builtin,
    id: BindingId,
    args: &Vec<Expr>,
    expected: Option<&MagType>,
) -> (result: Result<CheckedExpr, MagError>)
    ensures
        compiling(final(env)@, result) == compiled_walk(
            old(env)@,
            cands(scopes@),
            builtin,
            id,
            terms(args@),
            option_type(expected),
        ),
    decreases args, 0int,
{
    assert(terms(args@).len() == args@.len());
    if args.len() != 2 {
        return Err(MagError::Arity { expected: 2, got: args.len() });
    }
    assert(terms(args@)[0] == args@[0]@);
    assert(terms(args@)[1] == args@[1]@);
    let collection = match compile_expr(env, scopes, &args[1], None) {
        Err(error) => return Err(error),
        Ok(collection) => collection,
    };
    assert(collection@.ty == collection.ty@);
    let wanted = match &collection.ty {
        MagType::List(item) => expect_of_callback(builtin, item, expected),
        _ => return Err(say(builtin, " expects List")),
    };
    let callback = match compile_expr(env, scopes, &args[0], Some(&wanted)) {
        Err(error) => return Err(callback_error(builtin, error)),
        Ok(callback) => callback,
    };
    assert(callback@.ty == callback.ty@);
    let output = match &callback.ty {
        MagType::Function(_, result) => output_of_walk(builtin, &collection.ty, result),
        _ => return Err(say(builtin, " expects function")),
    };
    let params = two(callback.ty.copy(), collection.ty.copy());
    Ok(build_call(id, two_checked(callback, collection), params, output))
}

fn compile_fold_builtin(env: &mut Env, scopes: &Vec<CheckedCandidate>, id: BindingId, args: &Vec<Expr>) -> (result:
    Result<CheckedExpr, MagError>)
    ensures
        compiling(final(env)@, result) == compiled_fold(
            old(env)@,
            cands(scopes@),
            id,
            terms(args@),
        ),
    decreases args, 0int,
{
    assert(terms(args@).len() == args@.len());
    if args.len() != 3 {
        return Err(MagError::Arity { expected: 3, got: args.len() });
    }
    assert(terms(args@)[0] == args@[0]@);
    assert(terms(args@)[1] == args@[1]@);
    assert(terms(args@)[2] == args@[2]@);
    let initial = match compile_expr(env, scopes, &args[1], None) {
        Err(error) => return Err(error),
        Ok(initial) => initial,
    };
    assert(initial@.ty == initial.ty@);
    let collection = match compile_expr(env, scopes, &args[2], None) {
        Err(error) => return Err(error),
        Ok(collection) => collection,
    };
    assert(collection@.ty == collection.ty@);
    let wanted = match &collection.ty {
        MagType::List(item) => function(two(initial.ty.copy(), item.copy()), initial.ty.copy()),
        _ => return Err(say(Builtin::Fold, " expects List")),
    };
    let callback = match compile_expr(env, scopes, &args[0], Some(&wanted)) {
        Err(error) => return Err(error),
        Ok(callback) => callback,
    };
    assert(callback@.ty == callback.ty@);
    let params = three(callback.ty.copy(), initial.ty.copy(), collection.ty.copy());
    let output = initial.ty.copy();
    Ok(build_call(id, three_checked(callback, initial, collection), params, output))
}

fn compile_get(env: &mut Env, scopes: &Vec<CheckedCandidate>, id: BindingId, args: &Vec<Expr>) -> (result:
    Result<CheckedExpr, MagError>)
    ensures
        compiling(final(env)@, result) == compiled_get(
            old(env)@,
            cands(scopes@),
            id,
            terms(args@),
        ),
    decreases args, 0int,
{
    assert(terms(args@).len() == args@.len());
    if args.len() != 2 {
        return Err(MagError::Arity { expected: 2, got: args.len() });
    }
    assert(terms(args@)[0] == args@[0]@);
    assert(terms(args@)[1] == args@[1]@);
    let record = match compile_expr(env, scopes, &args[0], None) {
        Err(error) => return Err(error),
        Ok(record) => record,
    };
    assert(record@.ty == record.ty@);
    match &record.ty {
        MagType::HostInputs | MagType::MapOf(_, _) => {
            return Err(refuse(Builtin::Get, "a record", &record.ty));
        },
        _ => {},
    }
    let key = match compile_expr(env, scopes, &args[1], Some(&MagType::String)) {
        Err(error) => return Err(error),
        Ok(key) => key,
    };
    let literal = key_of(args);
    let output = match field_type(env, &record.ty, literal) {
        None => {
            let shown = debug_option(literal);
            let target = record.ty.text();
            return Err(
                MagError::Type(cat4("cannot get ", shown.as_str(), " from ", target.as_str())),
            );
        },
        Some(output) => output,
    };
    let params = two(record.ty.copy(), MagType::String);
    Ok(build_call(id, two_checked(record, key), params, output))
}

fn compile_map_empty(
    env: &mut Env,
    scopes: &Vec<CheckedCandidate>,
    id: BindingId,
    args: &Vec<Expr>,
    expected: Option<&MagType>,
) -> (result: Result<CheckedExpr, MagError>)
    requires
        args@.len() == 1,
    ensures
        compiling(final(env)@, result) == (match option_type(expected) {
            Some(Ty::MapOf(key, value)) => {
                let step = equality_required(old(env)@, *key);
                match step.result {
                    Err(failure) => failed(step.world, failure),
                    Ok(_) => {
                        let argument = compiled(
                            step.world,
                            cands(scopes@),
                            terms(args@)[0],
                            Some(ty_tag(*key)),
                        );
                        match argument.result {
                            Err(_) => argument,
                            Ok(tag) => done(
                                argument.world,
                                built_call(
                                    id,
                                    seq![tag],
                                    seq![tag.ty],
                                    ty_map(*key, *value),
                                ),
                            ),
                        }
                    },
                }
            },
            _ => failed(
                old(env)@,
                Failure::Type("one-argument __map_empty requires an expected Map type"@),
            ),
        }),
    decreases args, 0int,
{
    assert(terms(args@)[0] == args@[0]@);
    match expected {
        Some(MagType::MapOf(key, value)) => {
            match require_equality_admissible(env, key) {
                Err(error) => return Err(error),
                Ok(_) => {},
            }
            let wanted = tag(key.copy());
            let argument = match compile_expr(env, scopes, &args[0], Some(&wanted)) {
                Err(error) => return Err(error),
                Ok(argument) => argument,
            };
            assert(argument@.ty == argument.ty@);
            let params = one(argument.ty.copy());
            let output = map_type(key.copy(), value.copy());
            Ok(build_call(id, one_checked(argument), params, output))
        },
        _ => Err(
            MagError::Type("one-argument __map_empty requires an expected Map type".to_owned()),
        ),
    }
}

#[verifier::rlimit(60)]
fn compile_builtin_call(
    env: &mut Env,
    scopes: &Vec<CheckedCandidate>,
    name: &str,
    id: BindingId,
    args: &Vec<Expr>,
    expected: Option<&MagType>,
) -> (result: Result<CheckedExpr, MagError>)
    ensures
        compiling(final(env)@, result) == compiled_builtin(
            old(env)@,
            cands(scopes@),
            name@,
            id,
            terms(args@),
            option_type(expected),
        ),
    decreases args, 2int,
{
    assert(terms(args@).len() == args@.len());
    match Builtin::named(name) {
        Some(Builtin::MapEmpty) if args.len() == 1 => compile_map_empty(
            env,
            scopes,
            id,
            args,
            expected,
        ),
        Some(Builtin::Get) => compile_get(env, scopes, id, args),
        Some(Builtin::Canonical) if args.len() != 1 => Err(
            MagError::Arity { expected: 1, got: args.len() },
        ),
        Some(Builtin::Artifact) => {
            if args.len() != 1 {
                return Err(MagError::Arity { expected: 1, got: args.len() });
            }
            assert(terms(args@)[0] == args@[0]@);
            let data = match compile_artifact_expr(env, scopes, &args[0]) {
                Err(error) => return Err(error),
                Ok(data) => data,
            };
            assert(data@.ty == data.ty@);
            let params = one(data.ty.copy());
            Ok(build_call(id, one_checked(data), params, MagType::Artifact))
        },
        Some(Builtin::Str) => match compile_all(env, scopes, args) {
            Err(error) => Err(error),
            Ok(values) => {
                let params = collect_types(&values);
                Ok(build_call(id, values, params, MagType::String))
            },
        },
        Some(Builtin::MapList) => compile_collection_builtin(
            env,
            scopes,
            Builtin::MapList,
            id,
            args,
            expected,
        ),
        Some(Builtin::Filter) => compile_collection_builtin(
            env,
            scopes,
            Builtin::Filter,
            id,
            args,
            expected,
        ),
        Some(Builtin::FlatMap) => compile_collection_builtin(
            env,
            scopes,
            Builtin::FlatMap,
            id,
            args,
            expected,
        ),
        Some(Builtin::SortBy) => compile_collection_builtin(
            env,
            scopes,
            Builtin::SortBy,
            id,
            args,
            expected,
        ),
        Some(Builtin::GroupBy) => compile_collection_builtin(
            env,
            scopes,
            Builtin::GroupBy,
            id,
            args,
            expected,
        ),
        Some(Builtin::IndexedMap) => compile_collection_builtin(
            env,
            scopes,
            Builtin::IndexedMap,
            id,
            args,
            expected,
        ),
        Some(Builtin::Fold) => compile_fold_builtin(env, scopes, id, args),
        _ => {
            let locals = visible_types(scopes);
            let result = match infer_builtin(env, &locals, name, args) {
                Err(error) => return Err(error),
                Ok(result) => result,
            };
            let values = match compile_all(env, scopes, args) {
                Err(error) => return Err(error),
                Ok(values) => values,
            };
            let params = collect_types(&values);
            Ok(build_call(id, values, params, result))
        },
    }
}

// ---------------------------------------------------------------------------
// Checking functions and blocks
// ---------------------------------------------------------------------------

fn bind_params(
    env: &mut Env,
    scopes: &mut Vec<CheckedCandidate>,
    params: &Vec<Parameter>,
    types: &Vec<MagType>,
) -> (result: Result<Vec<CheckedParam>, MagError>)
    ensures
        ({
            let whole = bound_params(
                old(env)@,
                cands(old(scopes)@),
                parameter_terms(params@),
                tys(types@),
                0,
                Seq::empty(),
            );
            &&& final(env)@ == whole.world
            &&& match (result, whole.result) {
                (Ok(values), Ok((around, view))) => cands(final(scopes)@) == around
                    && typed_params(values@) == view,
                (Err(error), Err(failure)) => error@ == failure,
                _ => false,
            }
        }),
{
    let ghost all = parameter_terms(params@);
    let ghost views = tys(types@);
    let ghost whole = bound_params(
        old(env)@,
        cands(old(scopes)@),
        all,
        views,
        0,
        Seq::empty(),
    );
    let mut values: Vec<CheckedParam> = Vec::new();
    assert(typed_params(values@) =~= Seq::<TypedParam>::empty());
    let mut i: usize = 0;
    while i < params.len() && i < types.len()
        invariant
            i <= params@.len(),
            i <= types@.len(),
            all == parameter_terms(params@),
            views == tys(types@),
            whole == bound_params(
                old(env)@,
                cands(old(scopes)@),
                all,
                views,
                0,
                Seq::empty(),
            ),
            whole == bound_params(
                env@,
                cands(scopes@),
                all,
                views,
                i as int,
                typed_params(values@),
            ),
        decreases params@.len() - i,
    {
        assert(all[i as int] == (params@[i as int].name@, params@[i as int].ty@));
        assert(views[i as int] == types@[i as int]@);
        let id = match introduce(env, scopes, params[i].name.as_str(), &types[i]) {
            Err(error) => return Err(error),
            Ok(id) => id,
        };
        let ghost before = typed_params(values@);
        let value = CheckedParam { id, name: params[i].name.clone(), ty: types[i].copy() };
        values.push(value);
        assert(typed_params(values@) =~= before.push(value@));
        i = i + 1;
    }
    Ok(values)
}

fn keep_names(list: &Vec<String>, names: &Names) -> (kept: Vec<String>)
    ensures
        texts(kept@) == names_in(texts(list@), names@, list@.len() as int),
{
    let ghost all = texts(list@);
    let mut kept: Vec<String> = Vec::new();
    assert(texts(kept@) =~= names_in(all, names@, 0));
    let mut i: usize = 0;
    while i < list.len()
        invariant
            i <= list@.len(),
            all == texts(list@),
            texts(kept@) == names_in(all, names@, i as int),
        decreases list@.len() - i,
    {
        assert(all[i as int] == list@[i as int]@);
        if names.contains(list[i].as_str()) {
            let ghost before = texts(kept@);
            kept.push(list[i].clone());
            assert(texts(kept@) =~= before.push(list@[i as int]@));
        }
        i = i + 1;
    }
    kept
}

fn other_names(names: &Names, params: &Vec<String>) -> (others: Names)
    ensures
        others@ == names@.difference(texts(params@).to_set()),
{
    let ghost all = texts(names.items@);
    let ghost known = texts(params@).to_set();
    let mut others = Names::new();
    assert(all.take(0).to_set() =~= Set::<Seq<char>>::empty());
    let mut i: usize = 0;
    while i < names.items.len()
        invariant
            i <= names.items@.len(),
            all == texts(names.items@),
            known == texts(params@).to_set(),
            others@ =~= all.take(i as int).to_set().difference(known),
        decreases names.items@.len() - i,
    {
        proof {
            lemma_take_set(all, i as int);
        }
        if !contains_text(params, names.items[i].as_str()) {
            others.insert(names.items[i].clone());
        }
        i = i + 1;
    }
    assert(all.take(all.len() as int) =~= all);
    others
}

fn type_of_block(block: &CheckedBlock) -> (ty: MagType)
    ensures
        ty@ == block_type(block@),
{
    assert(block@.expressions == typeds(block.expressions@));
    let count = block.expressions.len();
    if count == 0 {
        MagType::Unit
    } else {
        assert(typeds(block.expressions@)[count - 1] == block.expressions@[count - 1]@);
        assert(block.expressions@[count - 1]@.ty == block.expressions@[count - 1].ty@);
        block.expressions[count - 1].ty.copy()
    }
}

#[verifier::rlimit(40)]
fn finish_function(
    env: &mut Env,
    name: Option<&str>,
    function: &Function,
    params: Vec<CheckedParam>,
    types: Vec<MagType>,
    result: MagType,
    body: CheckedBlock,
    found: &Names,
    binding: Option<BindingId>,
) -> (outcome: Result<CheckedExpr, MagError>)
    ensures
        compiling(final(env)@, outcome) == function_result(
            old(env)@,
            match name {
                Some(name) => Some(name@),
                None => None,
            },
            function@,
            typed_params(params@),
            tys(types@),
            result@,
            body@,
            found@,
            binding,
        ),
{
    assert(function@.type_params == texts(function.type_params@));
    assert(function@.type_params.len() == function.type_params@.len());
    env.record_equality_variables(&other_names(found, &function.type_params));
    let equality_params = keep_names(&function.type_params, found);
    if let Some(id) = binding {
        env.set_equality_requirements(id, var_types(&equality_params));
    }
    let actual = type_of_block(&body);
    let mut subst = Subst::new();
    match compatible_static(env, &actual, &result, &mut subst) {
        Err(message) => {
            let label = match name {
                Some(name) => cat3("function ", name, " "),
                None => "function ".to_owned(),
            };
            let actual = actual.text();
            let result = result.text();
            let first = cat5(
                label.as_str(),
                "returns ",
                actual.as_str(),
                ", declared ",
                result.as_str(),
            );
            return Err(MagError::Type(cat3(first.as_str(), ": ", message.as_str())));
        },
        Ok(_) => {},
    }
    let own_name = match name {
        Some(name) => Some(name.to_owned()),
        None => None,
    };
    let checked_function = CheckedFn {
        name: own_name,
        type_params: copy_texts(&function.type_params),
        equality_params,
        params,
        result: result.copy(),
        body,
    };
    let ghost view = checked_function@;
    assert(view.body == body@);
    assert(view.equality_params == texts(equality_params@));
    let kind = CheckedExprKind::Function(checked_function);
    assert(kind@ == TypedKind::Function(Box::new(view)));
    Ok(checked(MagType::Function(types, Box::new(result)), kind))
}

pub fn compile_function(
    env: &mut Env,
    scopes: &Vec<CheckedCandidate>,
    name: Option<&str>,
    function: &Function,
    expected: Option<&MagType>,
    binding: Option<BindingId>,
) -> (result: Result<CheckedExpr, MagError>)
    ensures
        compiling(final(env)@, result) == compiled_function(
            old(env)@,
            cands(scopes@),
            match name {
                Some(name) => Some(name@),
                None => None,
            },
            function@,
            option_type(expected),
            binding,
        ),
    decreases function, 0int,
{
    assert(function@.params == parameter_terms(function.params@));
    assert(function@.type_params == texts(function.type_params@));
    assert(function@.type_params.len() == function.type_params@.len());
    assert(function@.body == items(function.body@));
    let vars = visible_type_variables(scopes);
    let signature = match infer_fn_signature_scoped(env, &vars, function) {
        Err(error) => return Err(error),
        Ok(signature) => signature,
    };
    if let Some(ty) = expected {
        match &signature {
            MagType::Function(_, _) => match check_static(env, &signature, ty) {
                Err(error) => return Err(error),
                Ok(_) => {},
            },
            _ => {},
        }
    }
    match signature {
        MagType::Function(types, result) => {
            let mut inner = copy_candidates(scopes);
            if function.type_params.len() != 0 {
                let ghost before = cands(inner@);
                let binders = type_binders(&function.type_params);
                let ghost added = binders@;
                inner.push(binders);
                assert(cands(inner@) =~= before.push(added));
            }
            let params = match bind_params(env, &mut inner, &function.params, &types) {
                Err(error) => return Err(error),
                Ok(params) => params,
            };
            env.open_obligations();
            let block = compile_block_in(env, &inner, &function.body, Some(&*result));
            let found = env.close_obligations();
            match block {
                Err(error) => Err(error),
                Ok(body) => finish_function(
                    env,
                    name,
                    function,
                    params,
                    types,
                    *result,
                    body,
                    &found,
                    binding,
                ),
            }
        },
        _ => Err(MagError::Type("typed fn signature required".to_owned())),
    }
}

fn find_declared_type(scopes: &Vec<CheckedCandidate>, start: usize, name: &str, id: BindingId) -> (ty:
    Option<MagType>)
    ensures
        option_ty(ty) == declared_type(cands(scopes@), name@, id, start as int),
{
    let ghost all = cands(scopes@);
    let mut i: usize = start;
    while i < scopes.len()
        invariant
            all == cands(scopes@),
            declared_type(all, name@, id, start as int) == declared_type(
                all,
                name@,
                id,
                i as int,
            ),
        decreases scopes@.len() - i,
    {
        assert(all[i as int] == scopes@[i as int]@);
        if same_text(scopes[i].name.as_str(), name) && scopes[i].id == id {
            return Some(scopes[i].ty.copy());
        }
        i = i + 1;
    }
    None
}

fn compile_initializer(
    env: &mut Env,
    scopes: &Vec<CheckedCandidate>,
    name: &str,
    value: &Expr,
    ty: &MagType,
    id: BindingId,
) -> (result: Result<CheckedExpr, MagError>)
    ensures
        compiling(final(env)@, result) == (match value@ {
            Term::Function(function) => compiled_function(
                old(env)@,
                cands(scopes@),
                Some(name@),
                *function,
                Some(ty@),
                Some(id),
            ),
            _ => compiled(old(env)@, cands(scopes@), value@, Some(ty@)),
        }),
    decreases value, 4int,
{
    match value {
        Expr::Function(function) => compile_function(
            env,
            scopes,
            Some(name),
            function,
            Some(ty),
            Some(id),
        ),
        _ => compile_expr(env, scopes, value, Some(ty)),
    }
}

#[verifier::rlimit(40)]
fn compile_initializers(
    env: &mut Env,
    scopes: &Vec<CheckedCandidate>,
    start: usize,
    list: &Vec<BlockItem>,
    at: &Vec<usize>,
    ids: &Vec<BindingId>,
) -> (result: Result<Vec<CheckedBinding>, MagError>)
    requires
        all_lets(items(list@), places(at@)),
        ids@.len() == at@.len(),
    ensures
        bound_all(final(env)@, result) == initialized(
            old(env)@,
            cands(scopes@),
            start as int,
            items(list@),
            places(at@),
            ids@,
            0,
            Seq::empty(),
        ),
    decreases list, 0int,
{
    let ghost all = items(list@);
    let ghost where_at = places(at@);
    let ghost around = cands(scopes@);
    let ghost whole = initialized(
        old(env)@,
        around,
        start as int,
        all,
        where_at,
        ids@,
        0,
        Seq::empty(),
    );
    let mut values: Vec<CheckedBinding> = Vec::new();
    assert(typed_bindings(values@) =~= Seq::<TypedBinding>::empty());
    let mut k: usize = 0;
    while k < at.len()
        invariant
            k <= at@.len() == ids@.len(),
            all == items(list@),
            all.len() == list@.len(),
            where_at == places(at@),
            all_lets(all, where_at),
            around == cands(scopes@),
            whole == initialized(
                old(env)@,
                around,
                start as int,
                all,
                where_at,
                ids@,
                0,
                Seq::empty(),
            ),
            whole == initialized(
                env@,
                around,
                start as int,
                all,
                where_at,
                ids@,
                k as int,
                typed_bindings(values@),
            ),
        decreases at@.len() - k,
    {
        assert(where_at[k as int] == at@[k as int] as int);
        let item = &list[at[k]];
        assert(all[at@[k as int] as int] == item@);
        match item {
            BlockItem::Let { name, value } => {
                assert(item@ == Item::Let(name@, value@));
                let ty = match find_declared_type(scopes, start, name.as_str(), ids[k]) {
                    None => return Err(MagError::Unresolved(name.clone())),
                    Some(ty) => ty,
                };
                let initializer = match compile_initializer(
                    env,
                    scopes,
                    name.as_str(),
                    value,
                    &ty,
                    ids[k],
                ) {
                    Err(error) => return Err(error),
                    Ok(initializer) => initializer,
                };
                let ghost before = typed_bindings(values@);
                let binding = CheckedBinding { id: ids[k], name: name.clone(), ty, initializer };
                let ghost added = binding@;
                assert(added.initializer == initializer@);
                values.push(binding);
                assert(typed_bindings(values@) =~= before.push(added));
            },
            _ => {
                assert(false);
            },
        }
        k = k + 1;
    }
    Ok(values)
}

fn find_last(list: &Vec<BlockItem>) -> (last: Option<usize>)
    ensures
        (match last {
            Some(i) => Some(i as int),
            None => None,
        }) == last_expression(items(list@), list@.len() as int),
{
    let ghost all = items(list@);
    let mut n: usize = list.len();
    while n > 0
        invariant
            n <= list@.len(),
            all == items(list@),
            last_expression(all, list@.len() as int) == last_expression(all, n as int),
        decreases n,
    {
        assert(all[n - 1] == list@[n - 1]@);
        if let BlockItem::Expr(_) = &list[n - 1] {
            return Some(n - 1);
        }
        n = n - 1;
    }
    None
}

fn compile_last(
    env: &mut Env,
    scopes: &Vec<CheckedCandidate>,
    value: &Expr,
    wanted: Option<&MagType>,
) -> (result: Result<CheckedExpr, MagError>)
    ensures
        compiling(final(env)@, result) == ({
            let first = compiled(old(env)@, cands(scopes@), value@, option_type(wanted));
            if first.result is Err && wanted is Some {
                compiled(first.world, cands(scopes@), value@, None)
            } else {
                first
            }
        }),
    decreases value, 4int,
{
    match compile_expr(env, scopes, value, wanted) {
        Ok(value) => Ok(value),
        Err(error) => {
            if wanted.is_some() {
                compile_expr(env, scopes, value, None)
            } else {
                Err(error)
            }
        },
    }
}

fn compile_expressions(
    env: &mut Env,
    scopes: &Vec<CheckedCandidate>,
    list: &Vec<BlockItem>,
    expected: Option<&MagType>,
) -> (result: Result<Vec<CheckedExpr>, MagError>)
    ensures
        compiling_all(final(env)@, result) == compiled_expressions(
            old(env)@,
            cands(scopes@),
            items(list@),
            last_expression(items(list@), list@.len() as int),
            option_type(expected),
            0,
            Seq::empty(),
        ),
    decreases list, 0int,
{
    let ghost all = items(list@);
    let ghost around = cands(scopes@);
    let ghost goal = option_type(expected);
    let last = find_last(list);
    let ghost last_at = last_expression(all, list@.len() as int);
    let ghost whole = compiled_expressions(
        old(env)@,
        around,
        all,
        last_at,
        goal,
        0,
        Seq::empty(),
    );
    let mut values: Vec<CheckedExpr> = Vec::new();
    assert(typeds(values@) =~= Seq::<Typed>::empty());
    let mut i: usize = 0;
    while i < list.len()
        invariant
            i <= list@.len(),
            all == items(list@),
            around == cands(scopes@),
            goal == option_type(expected),
            last_at == last_expression(all, list@.len() as int),
            last_at == (match last {
                Some(i) => Some(i as int),
                None => None,
            }),
            whole == compiled_expressions(
                old(env)@,
                around,
                all,
                last_at,
                goal,
                0,
                Seq::empty(),
            ),
            whole == compiled_expressions(
                env@,
                around,
                all,
                last_at,
                goal,
                i as int,
                typeds(values@),
            ),
        decreases list@.len() - i,
    {
        let item = &list[i];
        assert(all[i as int] == item@);
        match item {
            BlockItem::Let { .. } => {},
            BlockItem::Invalid(message) => return Err(MagError::Type(message.clone())),
            BlockItem::Expr(value) => {
                assert(item@ == Item::Expr(value@));
                let is_last = match last {
                    Some(at) => at == i,
                    None => false,
                };
                let wanted = if is_last {
                    expected
                } else {
                    None
                };
                let value = match compile_last(env, scopes, value, wanted) {
                    Err(error) => return Err(error),
                    Ok(value) => value,
                };
                let ghost before = typeds(values@);
                let ghost added = value@;
                values.push(value);
                assert(typeds(values@) =~= before.push(added));
            },
        }
        i = i + 1;
    }
    Ok(values)
}

fn collect_binding_ids(list: &Vec<CheckedBinding>) -> (ids: Vec<BindingId>)
    ensures
        ids@ == binding_ids(typed_bindings(list@)),
{
    let ghost all = typed_bindings(list@);
    let mut ids: Vec<BindingId> = Vec::new();
    let mut i: usize = 0;
    while i < list.len()
        invariant
            i <= list@.len(),
            ids@.len() == i,
            all == typed_bindings(list@),
            forall|j: int| 0 <= j < i ==> (#[trigger] ids@[j]) == all[j].id,
        decreases list@.len() - i,
    {
        assert(all[i as int] == list@[i as int]@);
        assert(list@[i as int]@.id == list@[i as int].id);
        ids.push(list[i].id);
        i = i + 1;
    }
    assert(ids@ =~= binding_ids(all));
    ids
}

pub fn compile_block_in(
    env: &mut Env,
    outer: &Vec<CheckedCandidate>,
    list: &Vec<BlockItem>,
    expected: Option<&MagType>,
) -> (result: Result<CheckedBlock, MagError>)
    ensures
        compiling_block(final(env)@, result) == compiled_block(
            old(env)@,
            cands(outer@),
            items(list@),
            option_type(expected),
        ),
    decreases list, 1int,
{
    assert(items(list@).len() == list@.len());
    assert(cands(outer@).len() == outer@.len());
    if let Some(error) = find_invalid(list) {
        return Err(error);
    }
    let at = find_declared(list);
    assert(places(at@).len() == at@.len());
    let ids = allocate_lets(env, list, &at);
    let vars = visible_type_variables(outer);
    let mut scopes = copy_candidates(outer);
    match declare_functions(env, &mut scopes, &vars, list, &at, &ids) {
        Err(error) => return Err(error),
        Ok(_) => {},
    }
    match declare_values(env, &mut scopes, list, &at, &ids) {
        Err(error) => return Err(error),
        Ok(_) => {},
    }
    let raw = match compile_initializers(env, &scopes, outer.len(), list, &at, &ids) {
        Err(error) => return Err(error),
        Ok(raw) => raw,
    };
    let bindings = match finalize_block_equality_requirements(env, &raw) {
        Err(error) => return Err(error),
        Ok(bindings) => bindings,
    };
    let expressions = match compile_expressions(env, &scopes, list, expected) {
        Err(error) => return Err(error),
        Ok(expressions) => expressions,
    };
    let frame_layout = collect_binding_ids(&bindings);
    Ok(CheckedBlock { frame_layout, bindings, expressions })
}

/// Checks a block at the top of a program.
pub fn compile_block(env: &mut Env, list: &Vec<BlockItem>) -> (result: Result<
    CheckedBlock,
    MagError,
>)
    ensures
        compiling_block(final(env)@, result) == compiled_block(
            old(env)@,
            Seq::empty(),
            items(list@),
            None,
        ),
{
    let outer: Vec<CheckedCandidate> = Vec::new();
    assert(cands(outer@) =~= Seq::<Candidate>::empty());
    compile_block_in(env, &outer, list, None)
}

} // verus!
