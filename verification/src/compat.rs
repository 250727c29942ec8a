//! Which types fit where, and what a fit tells about type variables.

use crate::declare::{
    Body, ConcreteType, Constructor, ConstructorDecl, ConstructorDeclarationId, ConstructorId,
    TypeDeclBody, abstracted, constructors, field_types,
};
use crate::env::{Env, World, decl_of, noted};
use crate::error::{Failure, MagError, verdict};
use crate::resolve::{
    TYPE_DEPTH_LIMIT, concrete_type, unknown_type, unknown_type_error, wrong_count,
    wrong_count_error,
};
use crate::text::{cat2, cat3, cat4, cat5, join_texts, joined, same_text, texts};
use crate::types::{
    MagType, Names, Subst, Ty, internal_type_variables, internal_vars, substitute, substituted,
    ty_text, tys, zip_types, zipped,
};
use crate::value::option_ty;
use vstd::prelude::*;

verus! {

// ---------------------------------------------------------------------------
// Compatibility
// ---------------------------------------------------------------------------

/// The outcome of fitting types: what the variables stand for, and the reason
/// where it failed. What was learnt before a failure stays.
pub ghost struct Fit {
    pub subst: Map<Seq<char>, Ty>,
    pub result: Result<(), Seq<char>>,
}

pub open spec fn fits(subst: Map<Seq<char>, Ty>) -> Fit {
    Fit { subst, result: Ok(()) }
}

pub open spec fn misfit(subst: Map<Seq<char>, Ty>, message: Seq<char>) -> Fit {
    Fit { subst, result: Err(message) }
}

pub open spec fn expected_got(expected: Ty, actual: Ty) -> Seq<char> {
    "expected "@ + ty_text(expected) + ", got "@ + ty_text(actual)
}

pub open spec fn expected_nominal(expected: Ty, actual: Ty) -> Seq<char> {
    "expected nominal "@ + ty_text(expected) + ", got "@ + ty_text(actual)
        + "; use as for explicit refinement"@
}

/// Whether a variable may be bound: any may where no set is given.
pub open spec fn expected_binds(bindable: Option<Set<Seq<char>>>, name: Seq<char>) -> bool {
    match bindable {
        None => true,
        Some(names) => names.contains(name),
    }
}

pub open spec fn actual_binds(bindable: Option<Set<Seq<char>>>, name: Seq<char>) -> bool {
    match bindable {
        None => false,
        Some(names) => names.contains(name),
    }
}

pub open spec fn unless_fits(fit: Fit, message: Seq<char>) -> Fit {
    match fit.result {
        Ok(_) => fit,
        Err(_) => misfit(fit.subst, message),
    }
}

/// Fits a type where another one is expected. A variable takes the type that it
/// meets first and holds on to it. Concrete types fit only themselves.
pub open spec fn fit(
    world: World,
    actual: Ty,
    expected: Ty,
    subst: Map<Seq<char>, Ty>,
    bindable: Option<Set<Seq<char>>>,
    fuel: nat,
) -> Fit
    decreases fuel, 1int,
{
    if actual == expected {
        fits(subst)
    } else if fuel == 0 {
        misfit(subst, "type nesting limit reached"@)
    } else if expected is Var && expected_binds(bindable, expected->Var_0) {
        let name = expected->Var_0;
        if subst.dom().contains(name) {
            unless_fits(
                fit(world, actual, subst[name], subst, bindable, (fuel - 1) as nat),
                name + " was "@ + ty_text(subst[name]) + ", got "@ + ty_text(actual),
            )
        } else {
            fits(subst.insert(name, actual))
        }
    } else if actual is Var && actual_binds(bindable, actual->Var_0) {
        let name = actual->Var_0;
        if subst.dom().contains(name) {
            unless_fits(
                fit(world, subst[name], expected, subst, bindable, (fuel - 1) as nat),
                name + " was "@ + ty_text(subst[name]) + ", expected "@ + ty_text(expected),
            )
        } else {
            fits(subst.insert(name, expected))
        }
    } else if expected is Var {
        misfit(subst, expected_got(expected, actual))
    } else if actual is Never || (actual is EmptyList && expected is List) {
        fits(subst)
    } else if concrete_type(world, actual) is Ok && concrete_type(world, expected) is Ok {
        let source = concrete_type(world, actual)->Ok_0;
        let target = concrete_type(world, expected)->Ok_0;
        if source == target {
            fits(subst)
        } else if target is Named {
            misfit(subst, expected_nominal(abstracted(target), abstracted(source)))
        } else {
            misfit(subst, expected_got(abstracted(target), abstracted(source)))
        }
    } else {
        fit_parts(world, actual, expected, subst, bindable, fuel)
    }
}

/// Fits types of the same form part by part.
pub open spec fn fit_parts(
    world: World,
    actual: Ty,
    expected: Ty,
    subst: Map<Seq<char>, Ty>,
    bindable: Option<Set<Seq<char>>>,
    fuel: nat,
) -> Fit
    decreases fuel, 0int,
{
    if fuel == 0 {
        misfit(subst, "type nesting limit reached"@)
    } else {
        let less = (fuel - 1) as nat;
        match (expected, actual) {
            (Ty::Named(wanted, wanted_args), Ty::Named(given, given_args)) => {
                if given == wanted && given_args.len() == wanted_args.len() {
                    fit_from(world, given_args, wanted_args, 0, subst, bindable, less)
                } else {
                    misfit(subst, expected_nominal(expected, actual))
                }
            },
            (Ty::Named(_, _), _) => misfit(subst, expected_nominal(expected, actual)),
            (Ty::TypeTag(wanted), Ty::TypeTag(given)) => fit(
                world,
                *given,
                *wanted,
                subst,
                bindable,
                less,
            ),
            (Ty::List(wanted), Ty::List(given)) => fit(
                world,
                *given,
                *wanted,
                subst,
                bindable,
                less,
            ),
            (Ty::SetOf(wanted), Ty::SetOf(given)) => fit(
                world,
                *given,
                *wanted,
                subst,
                bindable,
                less,
            ),
            (Ty::MapOf(wanted_key, wanted), Ty::MapOf(given_key, given)) => {
                let keys = fit(world, *given_key, *wanted_key, subst, bindable, less);
                match keys.result {
                    Err(_) => keys,
                    Ok(_) => fit(world, *given, *wanted, keys.subst, bindable, less),
                }
            },
            (Ty::Product(wanted), Ty::Product(given)) => if given.len() == wanted.len() {
                fit_from(world, given, wanted, 0, subst, bindable, less)
            } else {
                misfit(subst, expected_got(expected, actual))
            },
            (Ty::Function(wanted, wanted_result), Ty::Function(given, given_result)) => {
                if given.len() == wanted.len() {
                    let params = fit_from(world, given, wanted, 0, subst, bindable, less);
                    match params.result {
                        Err(_) => params,
                        Ok(_) => fit(
                            world,
                            *given_result,
                            *wanted_result,
                            params.subst,
                            bindable,
                            less,
                        ),
                    }
                } else {
                    misfit(subst, expected_got(expected, actual))
                }
            },
            _ => misfit(subst, expected_got(expected, actual)),
        }
    }
}

/// Fits the types from index `i` on, one by one, up to the first failure.
pub open spec fn fit_from(
    world: World,
    actuals: Seq<Ty>,
    expecteds: Seq<Ty>,
    i: int,
    subst: Map<Seq<char>, Ty>,
    bindable: Option<Set<Seq<char>>>,
    fuel: nat,
) -> Fit
    decreases fuel, 2int, actuals.len() - i,
{
    if i < 0 || i >= actuals.len() || i >= expecteds.len() {
        fits(subst)
    } else {
        let first = fit(world, actuals[i], expecteds[i], subst, bindable, fuel);
        match first.result {
            Err(_) => first,
            Ok(_) => fit_from(world, actuals, expecteds, i + 1, first.subst, bindable, fuel),
        }
    }
}

/// The view of an optional set of names.
pub open spec fn option_names(names: Option<&Names>) -> Option<Set<Seq<char>>> {
    match names {
        Some(names) => Some(names@),
        None => None,
    }
}

/// The view of a fit.
pub open spec fn fitting(subst: Map<Seq<char>, Ty>, result: Result<(), String>) -> Fit {
    Fit {
        subst,
        result: match result {
            Ok(_) => Ok(()),
            Err(message) => Err(message@),
        },
    }
}

fn expected_got_text(expected: &MagType, actual: &MagType) -> (text: String)
    ensures
        text@ == expected_got(expected@, actual@),
{
    let expected = expected.text();
    let actual = actual.text();
    cat4("expected ", expected.as_str(), ", got ", actual.as_str())
}

fn expected_nominal_text(expected: &MagType, actual: &MagType) -> (text: String)
    ensures
        text@ == expected_nominal(expected@, actual@),
{
    let expected = expected.text();
    let actual = actual.text();
    cat5(
        "expected nominal ",
        expected.as_str(),
        ", got ",
        actual.as_str(),
        "; use as for explicit refinement",
    )
}

fn may_bind_expected(bindable: Option<&Names>, name: &str) -> (yes: bool)
    ensures
        yes == expected_binds(option_names(bindable), name@),
{
    match bindable {
        None => true,
        Some(names) => names.contains(name),
    }
}

fn may_bind_actual(bindable: Option<&Names>, name: &str) -> (yes: bool)
    ensures
        yes == actual_binds(option_names(bindable), name@),
{
    match bindable {
        None => false,
        Some(names) => names.contains(name),
    }
}

fn fit_concrete(env: &Env, actual: &MagType, expected: &MagType) -> (result: Option<
    Result<(), String>,
>)
    ensures
        match result {
            Some(result) => {
                &&& concrete_type(env@, actual@) is Ok
                &&& concrete_type(env@, expected@) is Ok
                &&& ({
                    let source = concrete_type(env@, actual@)->Ok_0;
                    let target = concrete_type(env@, expected@)->Ok_0;
                    match result {
                        Ok(_) => source == target,
                        Err(message) => source != target && message@ == (if target is Named {
                            expected_nominal(abstracted(target), abstracted(source))
                        } else {
                            expected_got(abstracted(target), abstracted(source))
                        }),
                    }
                })
            },
            None => concrete_type(env@, actual@) is Err || concrete_type(env@, expected@) is Err,
        },
{
    let source = match ConcreteType::resolve(env, actual) {
        Ok(source) => source,
        Err(_) => return None,
    };
    let target = match ConcreteType::resolve(env, expected) {
        Ok(target) => target,
        Err(_) => return None,
    };
    if target.accepts(&source) {
        return Some(Ok(()));
    }
    let wanted = target.to_mag_type();
    let given = source.to_mag_type();
    match target {
        ConcreteType::Named { .. } => Some(Err(expected_nominal_text(&wanted, &given))),
        _ => Some(Err(expected_got_text(&wanted, &given))),
    }
}

pub fn compatible_in(
    env: &Env,
    actual: &MagType,
    expected: &MagType,
    subst: &mut Subst,
    bindable: Option<&Names>,
    fuel: u32,
) -> (result: Result<(), String>)
    ensures
        fitting(final(subst)@, result) == fit(
            env@,
            actual@,
            expected@,
            old(subst)@,
            option_names(bindable),
            fuel as nat,
        ),
    decreases fuel, 2int,
{
    if actual.same(expected) {
        return Ok(());
    }
    if fuel == 0 {
        return Err("type nesting limit reached".to_owned());
    }
    if let MagType::Var(name) = expected {
        if may_bind_expected(bindable, name.as_str()) {
            let bound = match subst.get(name.as_str()) {
                Some(bound) => Some(bound.copy()),
                None => None,
            };
            return match bound {
                Some(bound) => match compatible_in(env, actual, &bound, subst, bindable, fuel - 1) {
                    Ok(_) => Ok(()),
                    Err(_) => {
                        let was = bound.text();
                        let got = actual.text();
                        Err(cat5(name.as_str(), " was ", was.as_str(), ", got ", got.as_str()))
                    },
                },
                None => {
                    subst.insert(name.clone(), actual.copy());
                    Ok(())
                },
            };
        }
    }
    if let MagType::Var(name) = actual {
        if may_bind_actual(bindable, name.as_str()) {
            let bound = match subst.get(name.as_str()) {
                Some(bound) => Some(bound.copy()),
                None => None,
            };
            return match bound {
                Some(bound) => match compatible_in(
                    env,
                    &bound,
                    expected,
                    subst,
                    bindable,
                    fuel - 1,
                ) {
                    Ok(_) => Ok(()),
                    Err(_) => {
                        let was = bound.text();
                        let wanted = expected.text();
                        Err(
                            cat5(
                                name.as_str(),
                                " was ",
                                was.as_str(),
                                ", expected ",
                                wanted.as_str(),
                            ),
                        )
                    },
                },
                None => {
                    subst.insert(name.clone(), expected.copy());
                    Ok(())
                },
            };
        }
    }
    if let MagType::Var(_) = expected {
        return Err(expected_got_text(expected, actual));
    }
    match (actual, expected) {
        (MagType::Never, _) => return Ok(()),
        (MagType::EmptyList, MagType::List(_)) => return Ok(()),
        _ => {},
    }
    match fit_concrete(env, actual, expected) {
        Some(result) => result,
        None => compatible_parts(env, actual, expected, subst, bindable, fuel),
    }
}

fn compatible_parts(
    env: &Env,
    actual: &MagType,
    expected: &MagType,
    subst: &mut Subst,
    bindable: Option<&Names>,
    fuel: u32,
) -> (result: Result<(), String>)
    requires
        fuel > 0,
    ensures
        fitting(final(subst)@, result) == fit_parts(
            env@,
            actual@,
            expected@,
            old(subst)@,
            option_names(bindable),
            fuel as nat,
        ),
    decreases fuel, 1int,
{
    match (expected, actual) {
        (MagType::Named(wanted, wanted_args), MagType::Named(given, given_args)) => {
            assert(tys(wanted_args@).len() == wanted_args@.len());
            assert(tys(given_args@).len() == given_args@.len());
            if same_text(given.as_str(), wanted.as_str()) && given_args.len() == wanted_args.len() {
                compatible_list(env, given_args, wanted_args, subst, bindable, fuel - 1)
            } else {
                Err(expected_nominal_text(expected, actual))
            }
        },
        (MagType::Named(_, _), _) => Err(expected_nominal_text(expected, actual)),
        (MagType::TypeTag(wanted), MagType::TypeTag(given)) => compatible_in(
            env,
            given,
            wanted,
            subst,
            bindable,
            fuel - 1,
        ),
        (MagType::List(wanted), MagType::List(given)) => compatible_in(
            env,
            given,
            wanted,
            subst,
            bindable,
            fuel - 1,
        ),
        (MagType::SetOf(wanted), MagType::SetOf(given)) => compatible_in(
            env,
            given,
            wanted,
            subst,
            bindable,
            fuel - 1,
        ),
        (MagType::MapOf(wanted_key, wanted), MagType::MapOf(given_key, given)) => {
            match compatible_in(env, given_key, wanted_key, subst, bindable, fuel - 1) {
                Err(message) => Err(message),
                Ok(_) => compatible_in(env, given, wanted, subst, bindable, fuel - 1),
            }
        },
        (MagType::Product(wanted), MagType::Product(given)) => {
            assert(tys(wanted@).len() == wanted@.len());
            assert(tys(given@).len() == given@.len());
            if given.len() == wanted.len() {
                compatible_list(env, given, wanted, subst, bindable, fuel - 1)
            } else {
                Err(expected_got_text(expected, actual))
            }
        },
        (MagType::Function(wanted, wanted_result), MagType::Function(given, given_result)) => {
            assert(tys(wanted@).len() == wanted@.len());
            assert(tys(given@).len() == given@.len());
            if given.len() == wanted.len() {
                match compatible_list(env, given, wanted, subst, bindable, fuel - 1) {
                    Err(message) => Err(message),
                    Ok(_) => compatible_in(
                        env,
                        given_result,
                        wanted_result,
                        subst,
                        bindable,
                        fuel - 1,
                    ),
                }
            } else {
                Err(expected_got_text(expected, actual))
            }
        },
        _ => Err(expected_got_text(expected, actual)),
    }
}

fn compatible_list(
    env: &Env,
    actuals: &Vec<MagType>,
    expecteds: &Vec<MagType>,
    subst: &mut Subst,
    bindable: Option<&Names>,
    fuel: u32,
) -> (result: Result<(), String>)
    requires
        actuals@.len() == expecteds@.len(),
    ensures
        fitting(final(subst)@, result) == fit_from(
            env@,
            tys(actuals@),
            tys(expecteds@),
            0,
            old(subst)@,
            option_names(bindable),
            fuel as nat,
        ),
    decreases fuel, 3int,
{
    let ghost given = tys(actuals@);
    let ghost wanted = tys(expecteds@);
    let ghost names = option_names(bindable);
    let ghost start = subst@;
    let mut i: usize = 0;
    while i < actuals.len()
        invariant
            i <= actuals@.len() == expecteds@.len(),
            given == tys(actuals@),
            wanted == tys(expecteds@),
            names == option_names(bindable),
            start == old(subst)@,
            fit_from(env@, given, wanted, 0, start, names, fuel as nat) == fit_from(
                env@,
                given,
                wanted,
                i as int,
                subst@,
                names,
                fuel as nat,
            ),
        decreases actuals@.len() - i,
    {
        assert(given[i as int] == actuals@[i as int]@);
        assert(wanted[i as int] == expecteds@[i as int]@);
        match compatible_in(env, &actuals[i], &expecteds[i], subst, bindable, fuel) {
            Err(message) => return Err(message),
            Ok(_) => {},
        }
        i = i + 1;
    }
    Ok(())
}

/// A fit in which any expected variable may be bound.
pub open spec fn fit_any(world: World, actual: Ty, expected: Ty, subst: Map<Seq<char>, Ty>) -> Fit {
    fit(world, actual, expected, subst, None, TYPE_DEPTH_LIMIT as nat)
}

/// A fit in which the checker's own variables may be bound.
pub open spec fn fit_static(world: World, actual: Ty, expected: Ty, subst: Map<Seq<char>, Ty>) -> Fit {
    fit(
        world,
        actual,
        expected,
        subst,
        Some(internal_vars(actual).union(internal_vars(expected))),
        TYPE_DEPTH_LIMIT as nat,
    )
}

/// A fit in which some variables may be bound besides the checker's own.
pub open spec fn fit_binding(
    world: World,
    actual: Ty,
    expected: Ty,
    subst: Map<Seq<char>, Ty>,
    bindable: Set<Seq<char>>,
) -> Fit {
    fit(
        world,
        actual,
        expected,
        subst,
        Some(bindable.union(internal_vars(actual)).union(internal_vars(expected))),
        TYPE_DEPTH_LIMIT as nat,
    )
}

pub fn compatible(env: &Env, actual: &MagType, expected: &MagType, subst: &mut Subst) -> (result:
    Result<(), String>)
    ensures
        fitting(final(subst)@, result) == fit_any(env@, actual@, expected@, old(subst)@),
{
    compatible_in(env, actual, expected, subst, None, TYPE_DEPTH_LIMIT)
}

pub fn compatible_static(
    env: &Env,
    actual: &MagType,
    expected: &MagType,
    subst: &mut Subst,
) -> (result: Result<(), String>)
    ensures
        fitting(final(subst)@, result) == fit_static(env@, actual@, expected@, old(subst)@),
{
    let mut names = internal_type_variables(actual);
    names.extend(&internal_type_variables(expected));
    compatible_in(env, actual, expected, subst, Some(&names), TYPE_DEPTH_LIMIT)
}

pub fn compatible_with_bindable(
    env: &Env,
    actual: &MagType,
    expected: &MagType,
    subst: &mut Subst,
    bindable: &Names,
) -> (result: Result<(), String>)
    ensures
        fitting(final(subst)@, result) == fit_binding(
            env@,
            actual@,
            expected@,
            old(subst)@,
            bindable@,
        ),
{
    let mut names = bindable.copy();
    names.extend(&internal_type_variables(actual));
    names.extend(&internal_type_variables(expected));
    compatible_in(env, actual, expected, subst, Some(&names), TYPE_DEPTH_LIMIT)
}

/// Whether a type fits where another one is expected, on its own.
pub open spec fn fits_alone(world: World, actual: Ty, expected: Ty) -> Result<(), Seq<char>> {
    fit_any(world, actual, expected, Map::empty()).result
}

/// Fits two types without keeping what is learnt about variables.
pub fn check_compatible(env: &Env, actual: &MagType, expected: &MagType) -> (result: Result<
    (),
    MagError,
>)
    ensures
        verdict(result) == (match fits_alone(env@, actual@, expected@) {
            Ok(_) => Ok::<(), Failure>(()),
            Err(message) => Err(Failure::Type(message)),
        }),
{
    let mut subst = Subst::new();
    match compatible(env, actual, expected, &mut subst) {
        Ok(_) => Ok(()),
        Err(message) => Err(MagError::Type(message)),
    }
}

// ---------------------------------------------------------------------------
// Records, newtypes and constructors
// ---------------------------------------------------------------------------

pub open spec fn substituted_fields(
    fields: Seq<(Seq<char>, Ty)>,
    subst: Map<Seq<char>, Ty>,
) -> Seq<(Seq<char>, Ty)> {
    Seq::new(fields.len(), |i: int| (fields[i].0, substituted(fields[i].1, subst)))
}

/// The fields of a named type, also behind other names.
pub open spec fn fields_of(world: World, ty: Ty, fuel: nat) -> Option<Seq<(Seq<char>, Ty)>>
    decreases fuel,
{
    match ty {
        Ty::Named(name, arguments) => match decl_of(world, name) {
            Some(declaration) => {
                let subst = zipped(declaration.params, arguments);
                match declaration.body {
                    Body::Fields(fields) => Some(substituted_fields(fields, subst)),
                    Body::TransparentAlias(body) | Body::Alias(body) => if fuel == 0 {
                        None
                    } else {
                        fields_of(world, substituted(body, subst), (fuel - 1) as nat)
                    },
                    _ => None,
                }
            },
            None => None,
        },
        _ => None,
    }
}

pub open spec fn record_fields(world: World, ty: Ty) -> Option<Seq<(Seq<char>, Ty)>> {
    fields_of(world, ty, TYPE_DEPTH_LIMIT as nat)
}

/// The view of optional fields.
pub open spec fn option_fields(fields: Option<Vec<(String, MagType)>>) -> Option<
    Seq<(Seq<char>, Ty)>,
> {
    match fields {
        Some(fields) => Some(field_types(fields@)),
        None => None,
    }
}

pub fn substitute_fields(fields: &Vec<(String, MagType)>, subst: &Subst) -> (result: Vec<
    (String, MagType),
>)
    ensures
        field_types(result@) == substituted_fields(field_types(fields@), subst@),
{
    let mut result: Vec<(String, MagType)> = Vec::new();
    let mut i: usize = 0;
    while i < fields.len()
        invariant
            i <= fields@.len(),
            result@.len() == i,
            forall|j: int|
                0 <= j < i ==> (#[trigger] result@[j]).0@ == fields@[j].0@ && result@[j].1@
                    == substituted(fields@[j].1@, subst@),
        decreases fields@.len() - i,
    {
        let field = &fields[i];
        result.push((field.0.clone(), substitute(&field.1, subst)));
        i = i + 1;
    }
    assert(field_types(result@) =~= substituted_fields(field_types(fields@), subst@));
    result
}

fn named_fields_in(env: &Env, ty: &MagType, fuel: u32) -> (fields: Option<Vec<(String, MagType)>>)
    ensures
        option_fields(fields) == fields_of(env@, ty@, fuel as nat),
    decreases fuel,
{
    match ty {
        MagType::Named(name, arguments) => match env.type_decl(name.as_str()) {
            Some(declaration) => {
                let subst = zip_types(&declaration.params, arguments);
                match &declaration.body {
                    TypeDeclBody::Fields(fields) => Some(substitute_fields(fields, &subst)),
                    TypeDeclBody::TransparentAlias(body) | TypeDeclBody::Alias(body) => {
                        if fuel == 0 {
                            return None;
                        }
                        let ty = substitute(body, &subst);
                        named_fields_in(env, &ty, fuel - 1)
                    },
                    _ => None,
                }
            },
            None => None,
        },
        _ => None,
    }
}

pub fn named_field_types(env: &Env, ty: &MagType) -> (fields: Option<Vec<(String, MagType)>>)
    ensures
        option_fields(fields) == record_fields(env@, ty@),
{
    named_fields_in(env, ty, TYPE_DEPTH_LIMIT)
}

/// The type under a name in a list of fields, from index `i` on.
pub open spec fn field_at(fields: Seq<(Seq<char>, Ty)>, name: Seq<char>, i: int) -> Option<Ty>
    decreases fields.len() - i,
{
    if i < 0 || i >= fields.len() {
        None
    } else if fields[i].0 == name {
        Some(fields[i].1)
    } else {
        field_at(fields, name, i + 1)
    }
}

pub fn find_field(fields: &Vec<(String, MagType)>, name: &str) -> (ty: Option<MagType>)
    ensures
        option_ty(ty) == field_at(field_types(fields@), name@, 0),
{
    let ghost all = field_types(fields@);
    let mut i: usize = 0;
    while i < fields.len()
        invariant
            i <= fields@.len(),
            all == field_types(fields@),
            field_at(all, name@, 0) == field_at(all, name@, i as int),
        decreases fields@.len() - i,
    {
        assert(all[i as int] == (fields@[i as int].0@, fields@[i as int].1@));
        if same_text(fields[i].0.as_str(), name) {
            return Some(fields[i].1.copy());
        }
        i = i + 1;
    }
    None
}

/// The type that a key selects from a value of a type.
pub open spec fn selected(world: World, ty: Ty, key: Option<Seq<char>>) -> Option<Ty> {
    match ty {
        Ty::JsonValue => Some(Ty::JsonValue),
        _ => match key {
            None => None,
            Some(key) => match record_fields(world, ty) {
                Some(fields) => field_at(fields, key, 0),
                None => None,
            },
        },
    }
}

pub fn field_type(env: &Env, ty: &MagType, key: Option<&str>) -> (result: Option<MagType>)
    ensures
        option_ty(result) == selected(
            env@,
            ty@,
            match key {
                Some(key) => Some(key@),
                None => None,
            },
        ),
{
    match ty {
        MagType::JsonValue => Some(MagType::JsonValue),
        _ => match key {
            None => None,
            Some(key) => match named_field_types(env, ty) {
                Some(fields) => find_field(&fields, key),
                None => None,
            },
        },
    }
}

/// The type whose values a newtype has.
pub open spec fn underlying(world: World, ty: Ty) -> Option<Ty> {
    match ty {
        Ty::Named(name, arguments) => match decl_of(world, name) {
            Some(declaration) => match declaration.body {
                Body::Alias(body) => Some(
                    substituted(body, zipped(declaration.params, arguments)),
                ),
                _ => None,
            },
            None => None,
        },
        _ => None,
    }
}

pub fn newtype_underlying(env: &Env, ty: &MagType) -> (result: Option<MagType>)
    ensures
        option_ty(result) == underlying(env@, ty@),
{
    match ty {
        MagType::Named(name, arguments) => match env.type_decl(name.as_str()) {
            Some(declaration) => match &declaration.body {
                TypeDeclBody::Alias(body) => {
                    let subst = zip_types(&declaration.params, arguments);
                    Some(substitute(body, &subst))
                },
                _ => None,
            },
            None => None,
        },
        _ => None,
    }
}

/// Whether one of two types is a newtype of the other.
pub open spec fn newtype_boundary(world: World, source: Ty, target: Ty) -> bool {
    ||| underlying(world, source) matches Some(inner) && fit_static(
        world,
        inner,
        target,
        Map::empty(),
    ).result is Ok
    ||| underlying(world, target) matches Some(inner) && fit_static(
        world,
        source,
        inner,
        Map::empty(),
    ).result is Ok
}

/// Fits two types on their own, where the checker's variables may be bound.
pub fn fits_static(env: &Env, actual: &MagType, expected: &MagType) -> (yes: bool)
    ensures
        yes == (fit_static(env@, actual@, expected@, Map::empty()).result is Ok),
{
    let mut subst = Subst::new();
    compatible_static(env, actual, expected, &mut subst).is_ok()
}

pub fn is_newtype_boundary(env: &Env, source: &MagType, target: &MagType) -> (yes: bool)
    ensures
        yes == newtype_boundary(env@, source@, target@),
{
    if let Some(inner) = newtype_underlying(env, source) {
        if fits_static(env, &inner, target) {
            return true;
        }
    }
    if let Some(inner) = newtype_underlying(env, target) {
        if fits_static(env, source, &inner) {
            return true;
        }
    }
    false
}

/// Whether a newtype occurs in a type.
pub open spec fn holds_newtype(world: World, ty: Ty) -> bool
    decreases ty, 0int,
{
    underlying(world, ty) is Some || match ty {
        Ty::List(item) => holds_newtype(world, *item),
        Ty::SetOf(item) => holds_newtype(world, *item),
        Ty::TypeTag(value) => holds_newtype(world, *value),
        Ty::MapOf(key, value) => holds_newtype(world, *key) || holds_newtype(world, *value),
        Ty::Product(items) => holds_newtype_from(world, items, 0),
        Ty::Function(params, result) => holds_newtype_from(world, params, 0) || holds_newtype(
            world,
            *result,
        ),
        Ty::Named(_, arguments) => holds_newtype_from(world, arguments, 0),
        _ => false,
    }
}

pub open spec fn holds_newtype_from(world: World, types: Seq<Ty>, i: int) -> bool
    decreases types, types.len() - i,
{
    0 <= i < types.len() && (holds_newtype(world, types[i]) || holds_newtype_from(
        world,
        types,
        i + 1,
    ))
}

pub fn contains_newtype(env: &Env, ty: &MagType) -> (yes: bool)
    ensures
        yes == holds_newtype(env@, ty@),
    decreases ty,
{
    if newtype_underlying(env, ty).is_some() {
        return true;
    }
    match ty {
        MagType::List(item) => contains_newtype(env, item),
        MagType::SetOf(item) => contains_newtype(env, item),
        MagType::TypeTag(value) => contains_newtype(env, value),
        MagType::MapOf(key, value) => contains_newtype(env, key) || contains_newtype(env, value),
        MagType::Product(items) => any_newtype(env, items),
        MagType::Function(params, result) => any_newtype(env, params) || contains_newtype(
            env,
            result,
        ),
        MagType::Named(_, arguments) => any_newtype(env, arguments),
        _ => false,
    }
}

fn any_newtype(env: &Env, types: &Vec<MagType>) -> (yes: bool)
    ensures
        yes == holds_newtype_from(env@, tys(types@), 0),
    decreases types,
{
    let ghost all = tys(types@);
    let mut i: usize = 0;
    while i < types.len()
        invariant
            i <= types@.len(),
            all == tys(types@),
            holds_newtype_from(env@, all, 0) == holds_newtype_from(env@, all, i as int),
        decreases types@.len() - i,
    {
        assert(all[i as int] == types@[i as int]@);
        if contains_newtype(env, &types[i]) {
            return true;
        }
        i = i + 1;
    }
    false
}

pub open spec fn substituted_constructors(
    list: Seq<Constructor>,
    subst: Map<Seq<char>, Ty>,
) -> Seq<Constructor> {
    Seq::new(
        list.len(),
        |i: int| Constructor { id: list[i].id, payload: substituted(list[i].payload, subst) },
    )
}

/// The constructors of a type whose values are matched.
pub open spec fn constructors_of(world: World, owner: Ty) -> Result<Seq<Constructor>, Failure> {
    match owner {
        Ty::Named(name, arguments) => match decl_of(world, name) {
            None => Err(unknown_type(name)),
            Some(declaration) => if declaration.params.len() != arguments.len() {
                Err(wrong_count(name, declaration.params.len(), arguments.len()))
            } else {
                match declaration.body {
                    Body::Adt(list) => Ok(
                        substituted_constructors(list, zipped(declaration.params, arguments)),
                    ),
                    _ => Err(Failure::Type("match expects an ADT value, got "@ + ty_text(owner))),
                }
            },
        },
        _ => Err(Failure::Type("match expects an ADT value, got "@ + ty_text(owner))),
    }
}

pub open spec fn constructing(result: Result<Vec<ConstructorDecl>, MagError>) -> Result<
    Seq<Constructor>,
    Failure,
> {
    match result {
        Ok(list) => Ok(constructors(list@)),
        Err(error) => Err(error@),
    }
}

fn not_matchable(owner: &MagType) -> (error: MagError)
    ensures
        error@ == Failure::Type("match expects an ADT value, got "@ + ty_text(owner@)),
{
    let owner = owner.text();
    MagError::Type(cat2("match expects an ADT value, got ", owner.as_str()))
}

pub fn adt_constructors(env: &Env, owner: &MagType) -> (result: Result<
    Vec<ConstructorDecl>,
    MagError,
>)
    ensures
        constructing(result) == constructors_of(env@, owner@),
{
    match owner {
        MagType::Named(name, arguments) => match env.type_decl(name.as_str()) {
            None => Err(unknown_type_error(name.as_str())),
            Some(declaration) => {
                assert(texts(declaration.params@).len() == declaration.params@.len());
                assert(tys(arguments@).len() == arguments@.len());
                if declaration.params.len() != arguments.len() {
                    return Err(
                        wrong_count_error(name.as_str(), declaration.params.len(), arguments.len()),
                    );
                }
                match &declaration.body {
                    TypeDeclBody::Adt(list) => {
                        let subst = zip_types(&declaration.params, arguments);
                        let mut found: Vec<ConstructorDecl> = Vec::new();
                        let mut i: usize = 0;
                        while i < list.len()
                            invariant
                                i <= list@.len(),
                                found@.len() == i,
                                forall|j: int|
                                    0 <= j < i ==> (#[trigger] found@[j]).id@ == list@[j].id@
                                        && found@[j].payload@ == substituted(
                                        list@[j].payload@,
                                        subst@,
                                    ),
                            decreases list@.len() - i,
                        {
                            found.push(
                                ConstructorDecl {
                                    id: list[i].id.copy(),
                                    payload: substitute(&list[i].payload, &subst),
                                },
                            );
                            i = i + 1;
                        }
                        assert(constructors(found@) =~= substituted_constructors(
                            constructors(list@),
                            subst@,
                        ));
                        Ok(found)
                    },
                    _ => Err(not_matchable(owner)),
                }
            },
        },
        _ => Err(not_matchable(owner)),
    }
}

/// The constructor with a name, from index `i` on.
pub open spec fn constructor_at(list: Seq<Constructor>, name: Seq<char>, i: int) -> Option<
    Constructor,
>
    decreases list.len() - i,
{
    if i < 0 || i >= list.len() {
        None
    } else if list[i].id.name == name {
        Some(list[i])
    } else {
        constructor_at(list, name, i + 1)
    }
}

/// The constructor of a type with a name.
pub open spec fn constructor_named(world: World, owner: Ty, name: Seq<char>) -> Result<
    Constructor,
    Failure,
> {
    match constructors_of(world, owner) {
        Err(failure) => Err(failure),
        Ok(list) => match constructor_at(list, name, 0) {
            Some(constructor) => Ok(constructor),
            None => Err(
                Failure::Type(
                    "constructor "@ + name + " is not a member of "@ + ty_text(owner),
                ),
            ),
        },
    }
}

pub fn instantiated_constructor(env: &Env, owner: &MagType, name: &str) -> (result: Result<
    ConstructorDecl,
    MagError,
>)
    ensures
        match (result, constructor_named(env@, owner@, name@)) {
            (Ok(constructor), Ok(view)) => constructor@ == view,
            (Err(error), Err(failure)) => error@ == failure,
            _ => false,
        },
{
    let list = match adt_constructors(env, owner) {
        Ok(list) => list,
        Err(error) => return Err(error),
    };
    let ghost all = constructors(list@);
    let mut i: usize = 0;
    while i < list.len()
        invariant
            i <= list@.len(),
            all == constructors(list@),
            constructors_of(env@, owner@) == Ok::<Seq<Constructor>, Failure>(all),
            constructor_at(all, name@, 0) == constructor_at(all, name@, i as int),
        decreases list@.len() - i,
    {
        assert(all[i as int] == list@[i as int]@);
        if same_text(list[i].id.name.as_str(), name) {
            return Ok(
                ConstructorDecl { id: list[i].id.copy(), payload: list[i].payload.copy() },
            );
        }
        i = i + 1;
    }
    let owner = owner.text();
    Err(MagError::Type(cat4("constructor ", name, " is not a member of ", owner.as_str())))
}

/// The constructor that a pattern names for a scrutinee.
pub open spec fn pattern_constructor(owner: Ty, pattern_owner: Option<Ty>, last: Seq<char>) -> Result<
    Seq<char>,
    Failure,
> {
    match pattern_owner {
        None => Ok(last),
        Some(pattern_owner) => match (owner, pattern_owner) {
            (Ty::Named(actual, _), Ty::Named(written, _)) if actual == written => Ok(last),
            _ => Err(
                Failure::Type(
                    "pattern owner "@ + ty_text(pattern_owner)
                        + " does not match scrutinee owner "@ + ty_text(owner),
                ),
            ),
        },
    }
}

pub fn match_constructor_name(
    owner: &MagType,
    resolved_pattern_owner: Option<&MagType>,
    last: String,
) -> (result: Result<String, MagError>)
    ensures
        match (
            result,
            pattern_constructor(
                owner@,
                match resolved_pattern_owner {
                    Some(ty) => Some(ty@),
                    None => None,
                },
                last@,
            ),
        ) {
            (Ok(name), Ok(view)) => name@ == view,
            (Err(error), Err(failure)) => error@ == failure,
            _ => false,
        },
{
    match resolved_pattern_owner {
        None => Ok(last),
        Some(pattern_owner) => {
            let same = match (owner, pattern_owner) {
                (MagType::Named(actual, _), MagType::Named(written, _)) => same_text(
                    actual.as_str(),
                    written.as_str(),
                ),
                _ => false,
            };
            if same {
                Ok(last)
            } else {
                let pattern = pattern_owner.text();
                let owner = owner.text();
                Err(
                    MagError::Type(
                        cat4(
                            "pattern owner ",
                            pattern.as_str(),
                            " does not match scrutinee owner ",
                            owner.as_str(),
                        ),
                    ),
                )
            }
        },
    }
}

/// The names of those among the first `n` constructors that no arm takes.
pub open spec fn unmatched(list: Seq<Constructor>, seen: Seq<ConstructorId>, n: int) -> Seq<Seq<char>>
    decreases n,
{
    if n <= 0 {
        Seq::empty()
    } else if seen.contains(list[n - 1].id) {
        unmatched(list, seen, n - 1)
    } else {
        unmatched(list, seen, n - 1).push(list[n - 1].id.name)
    }
}

pub open spec fn exhaustion(list: Seq<Constructor>, seen: Seq<ConstructorId>) -> Result<(), Failure> {
    let missing = unmatched(list, seen, list.len() as int);
    if missing.len() == 0 {
        Ok(())
    } else {
        Err(Failure::Type("non-exhaustive match; missing "@ + joined(missing, ", "@)))
    }
}

pub open spec fn constructor_ids(list: Seq<ConstructorDeclarationId>) -> Seq<ConstructorId> {
    Seq::new(list.len(), |i: int| list[i].view())
}

pub fn contains_constructor(
    seen: &Vec<ConstructorDeclarationId>,
    id: &ConstructorDeclarationId,
) -> (found: bool)
    ensures
        found == constructor_ids(seen@).contains(id@),
{
    let mut i: usize = 0;
    while i < seen.len()
        invariant
            i <= seen@.len(),
            forall|j: int| 0 <= j < i ==> #[trigger] constructor_ids(seen@)[j] != id@,
        decreases seen@.len() - i,
    {
        if seen[i].same(id) {
            assert(constructor_ids(seen@)[i as int] == id@);
            return true;
        }
        i = i + 1;
    }
    false
}

/// Reports constructors that no arm takes.
pub fn ensure_adt_exhaustive(
    list: &Vec<ConstructorDecl>,
    seen: &Vec<ConstructorDeclarationId>,
) -> (result: Result<(), MagError>)
    ensures
        verdict(result) == exhaustion(constructors(list@), constructor_ids(seen@)),
{
    let ghost all = constructors(list@);
    let ghost ids = constructor_ids(seen@);
    let mut missing: Vec<String> = Vec::new();
    assert(texts(missing@) =~= unmatched(all, ids, 0));
    let mut i: usize = 0;
    while i < list.len()
        invariant
            i <= list@.len(),
            all == constructors(list@),
            ids == constructor_ids(seen@),
            texts(missing@) == unmatched(all, ids, i as int),
        decreases list@.len() - i,
    {
        assert(all[i as int] == list@[i as int]@);
        if !contains_constructor(seen, &list[i].id) {
            let ghost before = texts(missing@);
            missing.push(list[i].id.name.clone());
            assert(texts(missing@) =~= before.push(list@[i as int].id.name@));
        }
        i = i + 1;
    }
    assert(texts(missing@).len() == missing@.len());
    if missing.len() == 0 {
        Ok(())
    } else {
        let names = join_texts(&missing, ", ");
        Err(MagError::Type(cat2("non-exhaustive match; missing ", names.as_str())))
    }
}

// ---------------------------------------------------------------------------
// Equality
// ---------------------------------------------------------------------------

/// The variables that have to support equality for a type to support it, or
/// the reason why it does not. A type that leads back to itself adds nothing.
pub open spec fn equality_of(world: World, ty: Ty, fuel: nat) -> Result<Set<Seq<char>>, Seq<char>>
    decreases fuel, 0int,
{
    if fuel == 0 {
        Ok(Set::empty())
    } else {
        let less = (fuel - 1) as nat;
        match ty {
            Ty::Var(name) => Ok(set![name]),
            Ty::Unit | Ty::Bool | Ty::Int | Ty::Float | Ty::String | Ty::JsonValue | Ty::Never
            | Ty::EmptyList => Ok(Set::empty()),
            Ty::List(item) => equality_of(world, *item, less),
            Ty::SetOf(item) => equality_of(world, *item, less),
            Ty::MapOf(key, value) => both_equal(
                equality_of(world, *key, less),
                equality_of(world, *value, less),
            ),
            Ty::Product(items) => equality_from(world, items, 0, less),
            Ty::Named(name, arguments) => both_equal(
                equality_from(world, arguments, 0, less),
                match decl_of(world, name) {
                    None => Err("unknown nominal type "@ + name),
                    Some(declaration) => {
                        let subst = zipped(declaration.params, arguments);
                        match declaration.body {
                            Body::Fields(fields) => equality_fields(world, fields, subst, 0, less),
                            Body::TransparentAlias(body) | Body::Alias(body) => equality_of(
                                world,
                                substituted(body, subst),
                                less,
                            ),
                            Body::Adt(list) => equality_payloads(world, list, subst, 0, less),
                            Body::Native => Err(
                                "type "@ + ty_text(ty)
                                    + " has opaque native behavior and does not support equality"@,
                            ),
                        }
                    },
                },
            ),
            Ty::Function(_, _) => Err(
                "function type "@ + ty_text(ty) + " does not support equality"@,
            ),
            _ => Err("type "@ + ty_text(ty) + " does not support equality"@),
        }
    }
}

/// Two findings taken together; the first reason counts.
pub open spec fn both_equal(
    first: Result<Set<Seq<char>>, Seq<char>>,
    second: Result<Set<Seq<char>>, Seq<char>>,
) -> Result<Set<Seq<char>>, Seq<char>> {
    match first {
        Err(message) => Err(message),
        Ok(left) => match second {
            Err(message) => Err(message),
            Ok(right) => Ok(left.union(right)),
        },
    }
}

pub open spec fn equality_from(world: World, types: Seq<Ty>, i: int, fuel: nat) -> Result<
    Set<Seq<char>>,
    Seq<char>,
>
    decreases fuel, 1int, types.len() - i,
{
    if i < 0 || i >= types.len() {
        Ok(Set::empty())
    } else {
        both_equal(
            equality_of(world, types[i], fuel),
            equality_from(world, types, i + 1, fuel),
        )
    }
}

pub open spec fn equality_fields(
    world: World,
    fields: Seq<(Seq<char>, Ty)>,
    subst: Map<Seq<char>, Ty>,
    i: int,
    fuel: nat,
) -> Result<Set<Seq<char>>, Seq<char>>
    decreases fuel, 1int, fields.len() - i,
{
    if i < 0 || i >= fields.len() {
        Ok(Set::empty())
    } else {
        both_equal(
            equality_of(world, substituted(fields[i].1, subst), fuel),
            equality_fields(world, fields, subst, i + 1, fuel),
        )
    }
}

pub open spec fn equality_payloads(
    world: World,
    list: Seq<Constructor>,
    subst: Map<Seq<char>, Ty>,
    i: int,
    fuel: nat,
) -> Result<Set<Seq<char>>, Seq<char>>
    decreases fuel, 1int, list.len() - i,
{
    if i < 0 || i >= list.len() {
        Ok(Set::empty())
    } else {
        both_equal(
            equality_of(world, substituted(list[i].payload, subst), fuel),
            equality_payloads(world, list, subst, i + 1, fuel),
        )
    }
}

/// What a search for such variables adds to those that are known.
pub open spec fn equality_added(
    before: Set<Seq<char>>,
    after: Set<Seq<char>>,
    result: Result<(), String>,
    finding: Result<Set<Seq<char>>, Seq<char>>,
) -> bool {
    match (result, finding) {
        (Ok(_), Ok(names)) => after == before.union(names),
        (Err(message), Err(view)) => message@ == view,
        _ => false,
    }
}

fn equality_admissible_in(env: &Env, ty: &MagType, variables: &mut Names, fuel: u32) -> (result:
    Result<(), String>)
    ensures
        equality_added(
            old(variables)@,
            final(variables)@,
            result,
            equality_of(env@, ty@, fuel as nat),
        ),
    decreases fuel, 0int,
{
    let ghost before = variables@;
    if fuel == 0 {
        assert(before =~= before.union(Set::empty()));
        return Ok(());
    }
    match ty {
        MagType::Var(name) => {
            variables.insert(name.clone());
            assert(variables@ =~= before.union(set![name@]));
            Ok(())
        },
        MagType::Unit | MagType::Bool | MagType::Int | MagType::Float | MagType::String
        | MagType::JsonValue | MagType::Never | MagType::EmptyList => {
            assert(before =~= before.union(Set::empty()));
            Ok(())
        },
        MagType::List(item) => equality_admissible_in(env, item, variables, fuel - 1),
        MagType::SetOf(item) => equality_admissible_in(env, item, variables, fuel - 1),
        MagType::MapOf(key, value) => match equality_admissible_in(env, key, variables, fuel - 1) {
            Err(message) => Err(message),
            Ok(_) => {
                let result = equality_admissible_in(env, value, variables, fuel - 1);
                proof {
                    if let (Ok(left), Ok(right)) = (
                        equality_of(env@, key@, (fuel - 1) as nat),
                        equality_of(env@, value@, (fuel - 1) as nat),
                    ) {
                        assert(before.union(left).union(right) =~= before.union(
                            left.union(right),
                        ));
                    }
                }
                result
            },
        },
        MagType::Product(items) => equality_admissible_list(env, items, variables, fuel - 1),
        MagType::Named(name, arguments) => {
            match equality_admissible_list(env, arguments, variables, fuel - 1) {
                Err(message) => return Err(message),
                Ok(_) => {},
            }
            let ghost middle = variables@;
            match env.type_decl(name.as_str()) {
                None => Err(cat2("unknown nominal type ", name.as_str())),
                Some(declaration) => {
                    let subst = zip_types(&declaration.params, arguments);
                    let result = match &declaration.body {
                        TypeDeclBody::Fields(fields) => equality_admissible_fields(
                            env,
                            fields,
                            &subst,
                            variables,
                            fuel - 1,
                        ),
                        TypeDeclBody::TransparentAlias(body) | TypeDeclBody::Alias(body) => {
                            let body = substitute(body, &subst);
                            equality_admissible_in(env, &body, variables, fuel - 1)
                        },
                        TypeDeclBody::Adt(list) => equality_admissible_payloads(
                            env,
                            list,
                            &subst,
                            variables,
                            fuel - 1,
                        ),
                        TypeDeclBody::Native => {
                            let text = ty.text();
                            Err(
                                cat3(
                                    "type ",
                                    text.as_str(),
                                    " has opaque native behavior and does not support equality",
                                ),
                            )
                        },
                    };
                    proof {
                        if let (Ok(left), Ok(whole)) = (
                            equality_from(env@, tys(arguments@), 0, (fuel - 1) as nat),
                            equality_of(env@, ty@, fuel as nat),
                        ) {
                            assert(exists|right: Set<Seq<char>>|
                                whole == left.union(right) && variables@ == middle.union(right));
                            let right = choose|right: Set<Seq<char>>|
                                whole == left.union(right) && variables@ == middle.union(right);
                            assert(before.union(left).union(right) =~= before.union(
                                left.union(right),
                            ));
                        }
                    }
                    result
                },
            }
        },
        MagType::Function(_, _) => {
            let text = ty.text();
            Err(cat3("function type ", text.as_str(), " does not support equality"))
        },
        _ => {
            let text = ty.text();
            Err(cat3("type ", text.as_str(), " does not support equality"))
        },
    }
}

fn equality_admissible_list(
    env: &Env,
    types: &Vec<MagType>,
    variables: &mut Names,
    fuel: u32,
) -> (result: Result<(), String>)
    ensures
        equality_added(
            old(variables)@,
            final(variables)@,
            result,
            equality_from(env@, tys(types@), 0, fuel as nat),
        ),
    decreases fuel, 1int,
{
    let ghost all = tys(types@);
    let ghost start = variables@;
    let mut i: usize = 0;
    while i < types.len()
        invariant
            i <= types@.len(),
            all == tys(types@),
            start == old(variables)@,
            match equality_from(env@, all, 0, fuel as nat) {
                Ok(whole) => match equality_from(env@, all, i as int, fuel as nat) {
                    Ok(rest) => start.union(whole) =~= variables@.union(rest),
                    Err(_) => false,
                },
                Err(message) => equality_from(env@, all, i as int, fuel as nat) == Err::<
                    Set<Seq<char>>,
                    Seq<char>,
                >(message),
            },
        decreases types@.len() - i,
    {
        assert(all[i as int] == types@[i as int]@);
        match equality_admissible_in(env, &types[i], variables, fuel) {
            Err(message) => return Err(message),
            Ok(_) => {},
        }
        i = i + 1;
    }
    assert(variables@ =~= variables@.union(Set::empty()));
    Ok(())
}

fn equality_admissible_fields(
    env: &Env,
    fields: &Vec<(String, MagType)>,
    subst: &Subst,
    variables: &mut Names,
    fuel: u32,
) -> (result: Result<(), String>)
    ensures
        equality_added(
            old(variables)@,
            final(variables)@,
            result,
            equality_fields(env@, field_types(fields@), subst@, 0, fuel as nat),
        ),
    decreases fuel, 1int,
{
    let ghost all = field_types(fields@);
    let ghost start = variables@;
    let mut i: usize = 0;
    while i < fields.len()
        invariant
            i <= fields@.len(),
            all == field_types(fields@),
            start == old(variables)@,
            match equality_fields(env@, all, subst@, 0, fuel as nat) {
                Ok(whole) => match equality_fields(env@, all, subst@, i as int, fuel as nat) {
                    Ok(rest) => start.union(whole) =~= variables@.union(rest),
                    Err(_) => false,
                },
                Err(message) => equality_fields(env@, all, subst@, i as int, fuel as nat) == Err::<
                    Set<Seq<char>>,
                    Seq<char>,
                >(message),
            },
        decreases fields@.len() - i,
    {
        assert(all[i as int] == (fields@[i as int].0@, fields@[i as int].1@));
        let ty = substitute(&fields[i].1, subst);
        match equality_admissible_in(env, &ty, variables, fuel) {
            Err(message) => return Err(message),
            Ok(_) => {},
        }
        i = i + 1;
    }
    assert(variables@ =~= variables@.union(Set::empty()));
    Ok(())
}

fn equality_admissible_payloads(
    env: &Env,
    list: &Vec<ConstructorDecl>,
    subst: &Subst,
    variables: &mut Names,
    fuel: u32,
) -> (result: Result<(), String>)
    ensures
        equality_added(
            old(variables)@,
            final(variables)@,
            result,
            equality_payloads(env@, constructors(list@), subst@, 0, fuel as nat),
        ),
    decreases fuel, 1int,
{
    let ghost all = constructors(list@);
    let ghost start = variables@;
    let mut i: usize = 0;
    while i < list.len()
        invariant
            i <= list@.len(),
            all == constructors(list@),
            start == old(variables)@,
            match equality_payloads(env@, all, subst@, 0, fuel as nat) {
                Ok(whole) => match equality_payloads(env@, all, subst@, i as int, fuel as nat) {
                    Ok(rest) => start.union(whole) =~= variables@.union(rest),
                    Err(_) => false,
                },
                Err(message) => equality_payloads(env@, all, subst@, i as int, fuel as nat)
                    == Err::<Set<Seq<char>>, Seq<char>>(message),
            },
        decreases list@.len() - i,
    {
        assert(all[i as int] == list@[i as int]@);
        let ty = substitute(&list[i].payload, subst);
        match equality_admissible_in(env, &ty, variables, fuel) {
            Err(message) => return Err(message),
            Ok(_) => {},
        }
        i = i + 1;
    }
    assert(variables@ =~= variables@.union(Set::empty()));
    Ok(())
}

/// The variables that have to support equality for a type to support it.
pub open spec fn equality_variables(world: World, ty: Ty) -> Result<Set<Seq<char>>, Failure> {
    match equality_of(world, ty, TYPE_DEPTH_LIMIT as nat) {
        Ok(names) => Ok(names),
        Err(message) => Err(Failure::Type(message)),
    }
}

pub fn find_equality_variables(env: &Env, ty: &MagType) -> (result: Result<Names, MagError>)
    ensures
        match (result, equality_variables(env@, ty@)) {
            (Ok(names), Ok(view)) => names@ == view,
            (Err(error), Err(failure)) => error@ == failure,
            _ => false,
        },
{
    let mut names = Names::new();
    match equality_admissible_in(env, ty, &mut names, TYPE_DEPTH_LIMIT) {
        Ok(_) => {
            proof {
                let view = equality_of(env@, ty@, TYPE_DEPTH_LIMIT as nat)->Ok_0;
                assert(Set::<Seq<char>>::empty().union(view) =~= view);
            }
            Ok(names)
        },
        Err(message) => Err(MagError::Type(message)),
    }
}

/// A state of checking and what it came to.
pub ghost struct Step {
    pub world: World,
    pub result: Result<(), Failure>,
}

pub open spec fn stepped(world: World, result: Result<(), MagError>) -> Step {
    Step { world, result: verdict(result) }
}

/// Requires a type to support equality; the variables that it depends on are
/// noted.
pub open spec fn equality_required(world: World, ty: Ty) -> Step {
    match equality_variables(world, ty) {
        Ok(names) => Step { world: noted(world, names), result: Ok(()) },
        Err(failure) => Step { world, result: Err(failure) },
    }
}

pub fn require_equality_admissible(env: &mut Env, ty: &MagType) -> (result: Result<(), MagError>)
    ensures
        stepped(final(env)@, result) == equality_required(old(env)@, ty@),
{
    match find_equality_variables(env, ty) {
        Ok(names) => {
            env.record_equality_variables(&names);
            Ok(())
        },
        Err(error) => Err(error),
    }
}

/// Requires each of some types, from index `i` on, to support equality.
pub open spec fn equality_required_from(
    world: World,
    types: Seq<Ty>,
    subst: Map<Seq<char>, Ty>,
    i: int,
) -> Step
    decreases types.len() - i,
{
    if i < 0 || i >= types.len() {
        Step { world, result: Ok(()) }
    } else {
        let first = equality_required(world, substituted(types[i], subst));
        match first.result {
            Err(_) => first,
            Ok(_) => equality_required_from(first.world, types, subst, i + 1),
        }
    }
}

pub fn validate_equality_requirements(
    env: &mut Env,
    requirements: &Vec<MagType>,
    subst: &Subst,
) -> (result: Result<(), MagError>)
    ensures
        stepped(final(env)@, result) == equality_required_from(
            old(env)@,
            tys(requirements@),
            subst@,
            0,
        ),
{
    let ghost all = tys(requirements@);
    let ghost start = env@;
    let mut i: usize = 0;
    while i < requirements.len()
        invariant
            i <= requirements@.len(),
            all == tys(requirements@),
            start == old(env)@,
            equality_required_from(start, all, subst@, 0) == equality_required_from(
                env@,
                all,
                subst@,
                i as int,
            ),
        decreases requirements@.len() - i,
    {
        assert(all[i as int] == requirements@[i as int]@);
        let ty = substitute(&requirements[i], subst);
        match require_equality_admissible(env, &ty) {
            Err(error) => return Err(error),
            Ok(_) => {},
        }
        i = i + 1;
    }
    Ok(())
}

// ---------------------------------------------------------------------------
// Laws
// ---------------------------------------------------------------------------

proof fn lemma_unmatched(list: Seq<Constructor>, seen: Seq<ConstructorId>, n: int)
    requires
        0 <= n <= list.len(),
    ensures
        unmatched(list, seen, n).len() == 0 <==> forall|i: int|
            0 <= i < n ==> seen.contains((#[trigger] list[i]).id),
    decreases n,
{
    if n > 0 {
        lemma_unmatched(list, seen, n - 1);
    }
}

/// A match is exhaustive exactly where every constructor of its type has been seen.
pub proof fn lemma_exhaustive(list: Seq<Constructor>, seen: Seq<ConstructorId>)
    ensures
        exhaustion(list, seen) is Ok <==> forall|i: int|
            0 <= i < list.len() ==> seen.contains((#[trigger] list[i]).id),
{
    lemma_unmatched(list, seen, list.len() as int);
}

} // verus!
