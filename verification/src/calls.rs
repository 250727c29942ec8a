//! Fitting the arguments of a call to the parameters of a function.

use crate::authored::{Argument, TypeArgument, argument_terms};
use crate::checked::BindingId;
use crate::compat::{
    Fit, check_compatible, compatible, compatible_with_bindable, equality_required_from, fit_any,
    fit_binding, fits, fits_alone, fitting, option_names, validate_equality_requirements,
};
use crate::declare::{field_types, same_names};
use crate::env::{Env, World, candidates, ready_value};
use crate::error::{Failure, MagError};
use crate::resolve::{resolve_type, resolved};
use crate::text::{cat2, cat3, cat4, count_text, decimal, texts};
use crate::types::{
    MagType, Names, Subst, Ty, contains_union, open_type, same_types, substitute, substituted,
    ty_text, tys,
};
use crate::value::{FnVal, FnValue, Val, Value, option_ty, type_of, val_kind, vals, value_type};
use vstd::prelude::*;

verus! {

// ---------------------------------------------------------------------------
// Arguments in order
// ---------------------------------------------------------------------------

/// A fit of an argument: any variable of the parameter may be bound, or those in
/// a set besides the checker's own.
pub open spec fn fit_argument(
    world: World,
    actual: Ty,
    expected: Ty,
    subst: Map<Seq<char>, Ty>,
    bindable: Option<Set<Seq<char>>>,
) -> Fit {
    match bindable {
        None => fit_any(world, actual, expected, subst),
        Some(names) => fit_binding(world, actual, expected, subst, names),
    }
}

/// Fits those arguments from index `i` on whose parameter is open, or those whose
/// parameter is not.
pub open spec fn fit_pass(
    world: World,
    actuals: Seq<Ty>,
    params: Seq<Ty>,
    open: bool,
    i: int,
    subst: Map<Seq<char>, Ty>,
    bindable: Option<Set<Seq<char>>>,
) -> Fit
    decreases params.len() - i,
{
    if i < 0 || i >= params.len() {
        fits(subst)
    } else if open_type(params[i]) != open {
        fit_pass(world, actuals, params, open, i + 1, subst, bindable)
    } else {
        let first = fit_argument(
            world,
            actuals[i],
            substituted(params[i], subst),
            subst,
            bindable,
        );
        match first.result {
            Err(_) => first,
            Ok(_) => fit_pass(world, actuals, params, open, i + 1, first.subst, bindable),
        }
    }
}

/// Fits all arguments; those whose parameter is open come last.
pub open spec fn fit_all(
    world: World,
    actuals: Seq<Ty>,
    params: Seq<Ty>,
    subst: Map<Seq<char>, Ty>,
    bindable: Option<Set<Seq<char>>>,
) -> Fit {
    let first = fit_pass(world, actuals, params, false, 0, subst, bindable);
    match first.result {
        Err(_) => first,
        Ok(_) => fit_pass(world, actuals, params, true, 0, first.subst, bindable),
    }
}

fn compatible_argument(
    env: &Env,
    actual: &MagType,
    expected: &MagType,
    subst: &mut Subst,
    bindable: Option<&Names>,
) -> (result: Result<(), String>)
    ensures
        fitting(final(subst)@, result) == fit_argument(
            env@,
            actual@,
            expected@,
            old(subst)@,
            option_names(bindable),
        ),
{
    match bindable {
        None => compatible(env, actual, expected, subst),
        Some(names) => compatible_with_bindable(env, actual, expected, subst, names),
    }
}

fn compatible_pass(
    env: &Env,
    actuals: &Vec<MagType>,
    params: &Vec<MagType>,
    open: bool,
    subst: &mut Subst,
    bindable: Option<&Names>,
) -> (result: Result<(), String>)
    requires
        actuals@.len() == params@.len(),
    ensures
        fitting(final(subst)@, result) == fit_pass(
            env@,
            tys(actuals@),
            tys(params@),
            open,
            0,
            old(subst)@,
            option_names(bindable),
        ),
{
    let ghost given = tys(actuals@);
    let ghost wanted = tys(params@);
    let ghost names = option_names(bindable);
    let ghost start = subst@;
    let mut i: usize = 0;
    while i < params.len()
        invariant
            i <= actuals@.len() == params@.len(),
            given == tys(actuals@),
            wanted == tys(params@),
            names == option_names(bindable),
            start == old(subst)@,
            fit_pass(env@, given, wanted, open, 0, start, names) == fit_pass(
                env@,
                given,
                wanted,
                open,
                i as int,
                subst@,
                names,
            ),
        decreases params@.len() - i,
    {
        assert(given[i as int] == actuals@[i as int]@);
        assert(wanted[i as int] == params@[i as int]@);
        if contains_union(&params[i]) == open {
            let expected = substitute(&params[i], subst);
            match compatible_argument(env, &actuals[i], &expected, subst, bindable) {
                Err(message) => return Err(message),
                Ok(_) => {},
            }
        }
        i = i + 1;
    }
    Ok(())
}

pub fn compatible_all(
    env: &Env,
    actuals: &Vec<MagType>,
    params: &Vec<MagType>,
    subst: &mut Subst,
    bindable: Option<&Names>,
) -> (result: Result<(), String>)
    requires
        actuals@.len() == params@.len(),
    ensures
        fitting(final(subst)@, result) == fit_all(
            env@,
            tys(actuals@),
            tys(params@),
            old(subst)@,
            option_names(bindable),
        ),
{
    match compatible_pass(env, actuals, params, false, subst, bindable) {
        Err(message) => Err(message),
        Ok(_) => compatible_pass(env, actuals, params, true, subst, bindable),
    }
}

// ---------------------------------------------------------------------------
// Calls of function values
// ---------------------------------------------------------------------------

/// The variables with some names.
pub open spec fn ty_vars(names: Seq<Seq<char>>) -> Seq<Ty> {
    Seq::new(names.len(), |i: int| Ty::Var(names[i]))
}

pub fn var_types(names: &Vec<String>) -> (types: Vec<MagType>)
    ensures
        tys(types@) == ty_vars(texts(names@)),
{
    let mut types: Vec<MagType> = Vec::new();
    let mut i: usize = 0;
    while i < names.len()
        invariant
            i <= names@.len(),
            types@.len() == i,
            forall|j: int| 0 <= j < i ==> (#[trigger] types@[j])@ == Ty::Var(names@[j]@),
        decreases names@.len() - i,
    {
        types.push(MagType::Var(names[i].clone()));
        i = i + 1;
    }
    assert(tys(types@) =~= ty_vars(texts(names@)));
    types
}

/// The types of argument values from index `i` on.
pub open spec fn argument_types(args: Seq<Val>, i: int) -> Result<Seq<Ty>, Failure>
    decreases args.len() - i,
{
    if i < 0 || i >= args.len() {
        Ok(Seq::empty())
    } else {
        match type_of(args[i]) {
            None => Err(
                Failure::Type("cannot pass "@ + val_kind(args[i]) + " as a typed argument"@),
            ),
            Some(first) => match argument_types(args, i + 1) {
                Err(failure) => Err(failure),
                Ok(rest) => Ok(seq![first] + rest),
            },
        }
    }
}

/// What a checked call comes to: its type and what the variables stand for.
pub ghost struct Call {
    pub world: World,
    pub result: Result<(Ty, Map<Seq<char>, Ty>), Failure>,
}

pub open spec fn calling(world: World, result: Result<(MagType, Subst), MagError>) -> Call {
    Call {
        world,
        result: match result {
            Ok((ty, subst)) => Ok((ty@, subst@)),
            Err(error) => Err(error@),
        },
    }
}

pub open spec fn call_admitted(
    world: World,
    equality_params: Seq<Seq<char>>,
    ty: Ty,
    subst: Map<Seq<char>, Ty>,
) -> Call {
    let step = equality_required_from(world, ty_vars(equality_params), subst, 0);
    Call {
        world: step.world,
        result: match step.result {
            Ok(_) => Ok((ty, subst)),
            Err(failure) => Err(failure),
        },
    }
}

/// A call of a function on argument values.
pub open spec fn call_checked(world: World, function: FnVal, args: Seq<Val>) -> Call {
    if function.param_types.len() != args.len() {
        Call { world, result: Err(Failure::Arity { expected: function.param_types.len(), got: args.len() }) }
    } else {
        match argument_types(args, 0) {
            Err(failure) => Call { world, result: Err(failure) },
            Ok(actuals) => {
                let fit = fit_all(world, actuals, function.param_types, Map::empty(), None);
                match fit.result {
                    Err(message) => Call { world, result: Err(Failure::Type(message)) },
                    Ok(_) => call_admitted(
                        world,
                        function.equality_params,
                        substituted(function.return_type, fit.subst),
                        fit.subst,
                    ),
                }
            },
        }
    }
}

fn type_arguments_of(args: &Vec<Value>) -> (result: Result<Vec<MagType>, MagError>)
    ensures
        match (result, argument_types(vals(args@), 0)) {
            (Ok(types), Ok(view)) => tys(types@) == view && types@.len() == args@.len(),
            (Err(error), Err(failure)) => error@ == failure,
            _ => false,
        },
{
    let ghost all = vals(args@);
    let mut types: Vec<MagType> = Vec::new();
    let mut i: usize = 0;
    while i < args.len()
        invariant
            i <= args@.len(),
            types@.len() == i,
            all == vals(args@),
            match argument_types(all, 0) {
                Ok(view) => match argument_types(all, i as int) {
                    Ok(rest) => view == tys(types@) + rest,
                    Err(_) => false,
                },
                Err(failure) => argument_types(all, i as int) == Err::<Seq<Ty>, Failure>(failure),
            },
        decreases args@.len() - i,
    {
        assert(all[i as int] == args@[i as int]@);
        match value_type(&args[i]) {
            None => {
                return Err(
                    MagError::Type(cat3("cannot pass ", args[i].kind_name(), " as a typed argument")),
                );
            },
            Some(ty) => {
                let ghost before = tys(types@);
                let ghost added = ty@;
                types.push(ty);
                proof {
                    assert(tys(types@) =~= before.push(added));
                    if let Ok(rest) = argument_types(all, i + 1) {
                        assert(before + (seq![added] + rest) =~= before.push(added) + rest);
                    }
                }
            },
        }
        i = i + 1;
    }
    assert(tys(types@) + Seq::<Ty>::empty() =~= tys(types@));
    Ok(types)
}

fn admit_call(env: &mut Env, equality_params: &Vec<String>, ty: MagType, subst: Subst) -> (result:
    Result<(MagType, Subst), MagError>)
    ensures
        calling(final(env)@, result) == call_admitted(
            old(env)@,
            texts(equality_params@),
            ty@,
            subst@,
        ),
{
    let requirements = var_types(equality_params);
    match validate_equality_requirements(env, &requirements, &subst) {
        Err(error) => Err(error),
        Ok(_) => Ok((ty, subst)),
    }
}

pub fn check_call(env: &mut Env, function: &FnValue, args: &Vec<Value>) -> (result: Result<
    (MagType, Subst),
    MagError,
>)
    ensures
        calling(final(env)@, result) == call_checked(old(env)@, function@, vals(args@)),
{
    assert(tys(function.param_types@).len() == function.param_types@.len());
    assert(vals(args@).len() == args@.len());
    if function.param_types.len() != args.len() {
        return Err(MagError::Arity { expected: function.param_types.len(), got: args.len() });
    }
    let actuals = match type_arguments_of(args) {
        Ok(actuals) => actuals,
        Err(error) => return Err(error),
    };
    let mut subst = Subst::new();
    match compatible_all(env, &actuals, &function.param_types, &mut subst, None) {
        Err(message) => return Err(MagError::Type(message)),
        Ok(_) => {},
    }
    let ty = substitute(&function.return_type, &subst);
    admit_call(env, &function.equality_params, ty, subst)
}

/// Assignments, of which a later one replaces an earlier one.
pub open spec fn assigned(entries: Seq<(Seq<char>, Ty)>, n: int) -> Map<Seq<char>, Ty>
    decreases n,
{
    if n <= 0 {
        Map::empty()
    } else {
        assigned(entries, n - 1).insert(entries[n - 1].0, entries[n - 1].1)
    }
}

pub fn assign(entries: &Vec<(String, MagType)>) -> (subst: Subst)
    ensures
        subst@ == assigned(field_types(entries@), entries@.len() as int),
{
    let ghost all = field_types(entries@);
    let mut subst = Subst::new();
    let mut i: usize = 0;
    while i < entries.len()
        invariant
            i <= entries@.len(),
            all == field_types(entries@),
            subst@ == assigned(all, i as int),
        decreases entries@.len() - i,
    {
        assert(all[i as int] == (entries@[i as int].0@, entries@[i as int].1@));
        subst.insert(entries[i].0.clone(), entries[i].1.copy());
        i = i + 1;
    }
    subst
}

/// A call whose target was resolved to a function type.
pub open spec fn resolved_call(
    world: World,
    function: FnVal,
    resolved: Ty,
    explicit: Seq<(Seq<char>, Ty)>,
) -> Call {
    match resolved {
        Ty::Function(params, result) => if params.len() != function.param_types.len() {
            Call {
                world,
                result: Err(
                    Failure::Type(
                        "checked call arity changed from "@ + decimal(function.param_types.len())
                            + " to "@ + decimal(params.len()),
                    ),
                ),
            }
        } else {
            let arguments = fit_all(
                world,
                params,
                function.param_types,
                assigned(explicit, explicit.len() as int),
                None,
            );
            match arguments.result {
                Err(message) => Call { world, result: Err(Failure::Type(message)) },
                Ok(_) => {
                    let fit = fit_any(
                        world,
                        *result,
                        substituted(function.return_type, arguments.subst),
                        arguments.subst,
                    );
                    match fit.result {
                        Err(message) => Call { world, result: Err(Failure::Type(message)) },
                        Ok(_) => call_admitted(
                            world,
                            function.equality_params,
                            *result,
                            fit.subst,
                        ),
                    }
                },
            }
        },
        _ => Call {
            world,
            result: Err(
                Failure::Type("checked call target must be a function, got "@ + ty_text(resolved)),
            ),
        },
    }
}

pub fn check_resolved_call(
    env: &mut Env,
    function: &FnValue,
    resolved: &MagType,
    explicit_bindings: &Vec<(String, MagType)>,
) -> (result: Result<(MagType, Subst), MagError>)
    ensures
        calling(final(env)@, result) == resolved_call(
            old(env)@,
            function@,
            resolved@,
            field_types(explicit_bindings@),
        ),
{
    match resolved {
        MagType::Function(params, result) => {
            assert(tys(function.param_types@).len() == function.param_types@.len());
            assert(tys(params@).len() == params@.len());
            if params.len() != function.param_types.len() {
                let from = count_text(function.param_types.len());
                let to = count_text(params.len());
                return Err(
                    MagError::Type(
                        cat4("checked call arity changed from ", from.as_str(), " to ", to.as_str()),
                    ),
                );
            }
            let mut subst = assign(explicit_bindings);
            match compatible_all(env, params, &function.param_types, &mut subst, None) {
                Err(message) => return Err(MagError::Type(message)),
                Ok(_) => {},
            }
            let expected = substitute(&function.return_type, &subst);
            match compatible(env, result, &expected, &mut subst) {
                Err(message) => return Err(MagError::Type(message)),
                Ok(_) => {},
            }
            admit_call(env, &function.equality_params, result.copy(), subst)
        },
        _ => {
            let text = resolved.text();
            Err(MagError::Type(cat2("checked call target must be a function, got ", text.as_str())))
        },
    }
}

// ---------------------------------------------------------------------------
// Names by type
// ---------------------------------------------------------------------------

/// Those of some ready bindings, from index `i` on, whose value fits a type.
pub open spec fn ids_fitting(world: World, ids: Seq<BindingId>, ty: Ty, i: int) -> Seq<BindingId>
    decreases ids.len() - i,
{
    if i < 0 || i >= ids.len() {
        Seq::empty()
    } else {
        let rest = ids_fitting(world, ids, ty, i + 1);
        match ready_value(world, ids[i]) {
            Some(value) => match type_of(value) {
                Some(actual) => if fits_alone(world, actual, ty) is Ok {
                    seq![ids[i]] + rest
                } else {
                    rest
                },
                None => rest,
            },
            None => rest,
        }
    }
}

/// The one binding of a name whose value fits a type.
pub open spec fn id_by_type(world: World, name: Seq<char>, ty: Ty) -> Result<BindingId, Failure> {
    let ids = ids_fitting(world, candidates(world, name), ty, 0);
    if ids.len() == 1 {
        Ok(ids[0])
    } else if ids.len() == 0 {
        Err(Failure::Type("no overload "@ + name + " matches "@ + ty_text(ty)))
    } else {
        Err(Failure::Type("ambiguous overload "@ + name + " for "@ + ty_text(ty)))
    }
}

pub fn lookup_by_type(env: &Env, name: &str, ty: &MagType) -> (result: Result<BindingId, MagError>)
    ensures
        match (result, id_by_type(env@, name@, ty@)) {
            (Ok(id), Ok(view)) => id == view,
            (Err(error), Err(failure)) => error@ == failure,
            _ => false,
        },
{
    let ids = env.lookup_candidates(name);
    let ghost all = ids@;
    let mut found: Vec<BindingId> = Vec::new();
    let mut i: usize = 0;
    while i < ids.len()
        invariant
            i <= ids@.len(),
            all == ids@,
            all == candidates(env@, name@),
            ids_fitting(env@, all, ty@, 0) =~= found@ + ids_fitting(env@, all, ty@, i as int),
        decreases ids@.len() - i,
    {
        let ghost before = found@;
        if let Some(value) = env.ready_binding(ids[i]) {
            if let Some(actual) = value_type(value) {
                if check_compatible(env, &actual, ty).is_ok() {
                    found.push(ids[i]);
                    assert(before + (seq![all[i as int]] + ids_fitting(env@, all, ty@, i + 1))
                        =~= found@ + ids_fitting(env@, all, ty@, i + 1));
                }
            }
        }
        i = i + 1;
    }
    assert(ids_fitting(env@, all, ty@, 0) =~= found@);
    if found.len() == 1 {
        Ok(found[0])
    } else {
        let text = ty.text();
        if found.len() == 0 {
            Err(MagError::Type(cat4("no overload ", name, " matches ", text.as_str())))
        } else {
            Err(MagError::Type(cat4("ambiguous overload ", name, " for ", text.as_str())))
        }
    }
}

// ---------------------------------------------------------------------------
// Overloads
// ---------------------------------------------------------------------------

/// A function that a name may stand for.
#[derive(Debug)]
pub struct Signature {
    pub binders: Vec<String>,
    pub params: Vec<MagType>,
    pub result: MagType,
}

pub ghost struct Sig {
    pub binders: Seq<Seq<char>>,
    pub params: Seq<Ty>,
    pub result: Ty,
}

impl Signature {
    pub open spec fn view(&self) -> Sig {
        Sig {
            binders: texts(self.binders@),
            params: tys(self.params@),
            result: self.result@,
        }
    }

    pub fn same(&self, other: &Signature) -> (same: bool)
        ensures
            same == (self@ == other@),
    {
        same_names(&self.binders, &other.binders) && same_types(&self.params, &other.params)
            && self.result.same(&other.result)
    }
}

pub open spec fn sigs(list: Seq<Signature>) -> Seq<Sig> {
    Seq::new(list.len(), |i: int| list[i].view())
}

/// What type arguments from index `i` on assign to their binders.
pub open spec fn explicit_assigned(
    world: World,
    binders: Seq<Seq<char>>,
    arguments: Seq<Argument>,
    visible: Set<Seq<char>>,
    subst: Map<Seq<char>, Ty>,
    i: int,
) -> Option<Map<Seq<char>, Ty>>
    decreases arguments.len() - i,
{
    if i < 0 || i >= arguments.len() {
        Some(subst)
    } else {
        match arguments[i] {
            Argument::Infer => explicit_assigned(
                world,
                binders,
                arguments,
                visible,
                subst,
                i + 1,
            ),
            Argument::Explicit(term) => match resolved(world, term, visible) {
                Err(_) => None,
                Ok(ty) => explicit_assigned(
                    world,
                    binders,
                    arguments,
                    visible,
                    subst.insert(binders[i], ty),
                    i + 1,
                ),
            },
        }
    }
}

pub open spec fn starting_subst(
    world: World,
    sig: Sig,
    explicit: Option<Seq<Argument>>,
    visible: Set<Seq<char>>,
) -> Option<Map<Seq<char>, Ty>> {
    match explicit {
        None => Some(Map::empty()),
        Some(arguments) => if sig.binders.len() != arguments.len() {
            None
        } else {
            explicit_assigned(world, sig.binders, arguments, visible, Map::empty(), 0)
        },
    }
}

/// The type of a call by a signature, if it takes the arguments.
pub open spec fn signature_result(
    world: World,
    sig: Sig,
    explicit: Option<Seq<Argument>>,
    actuals: Seq<Ty>,
    visible: Set<Seq<char>>,
) -> Option<Ty> {
    if sig.params.len() != actuals.len() {
        None
    } else {
        match starting_subst(world, sig, explicit, visible) {
            None => None,
            Some(subst) => {
                let fit = fit_all(world, actuals, sig.params, subst, Some(sig.binders.to_set()));
                match fit.result {
                    Err(_) => None,
                    Ok(_) => Some(substituted(sig.result, fit.subst)),
                }
            },
        }
    }
}

/// The results by those signatures from index `i` on that take the arguments;
/// with each whether the signature has no binders.
pub open spec fn signature_results(
    world: World,
    list: Seq<Sig>,
    explicit: Option<Seq<Argument>>,
    actuals: Seq<Ty>,
    visible: Set<Seq<char>>,
    i: int,
) -> Seq<(bool, Ty)>
    decreases list.len() - i,
{
    if i < 0 || i >= list.len() {
        Seq::empty()
    } else {
        let rest = signature_results(world, list, explicit, actuals, visible, i + 1);
        match signature_result(world, list[i], explicit, actuals, visible) {
            Some(ty) => seq![(list[i].binders.len() == 0, ty)] + rest,
            None => rest,
        }
    }
}

pub open spec fn results(list: Seq<(bool, MagType)>) -> Seq<(bool, Ty)> {
    Seq::new(list.len(), |i: int| (list[i].0, list[i].1@))
}

pub open spec fn option_argument_terms(arguments: Option<&Vec<TypeArgument>>) -> Option<
    Seq<Argument>,
> {
    match arguments {
        Some(arguments) => Some(argument_terms(arguments@)),
        None => None,
    }
}

fn assign_explicit(
    env: &Env,
    binders: &Vec<String>,
    arguments: &Vec<TypeArgument>,
    visible: &Names,
) -> (subst: Option<Subst>)
    requires
        binders@.len() == arguments@.len(),
    ensures
        match (
            subst,
            explicit_assigned(
                env@,
                texts(binders@),
                argument_terms(arguments@),
                visible@,
                Map::empty(),
                0,
            ),
        ) {
            (Some(subst), Some(view)) => subst@ == view,
            (None, None) => true,
            _ => false,
        },
{
    let ghost names = texts(binders@);
    let ghost terms = argument_terms(arguments@);
    let mut subst = Subst::new();
    let mut i: usize = 0;
    while i < arguments.len()
        invariant
            i <= arguments@.len() == binders@.len(),
            names == texts(binders@),
            terms == argument_terms(arguments@),
            explicit_assigned(env@, names, terms, visible@, Map::empty(), 0) == explicit_assigned(
                env@,
                names,
                terms,
                visible@,
                subst@,
                i as int,
            ),
        decreases arguments@.len() - i,
    {
        assert(terms[i as int] == arguments@[i as int]@);
        assert(names[i as int] == binders@[i as int]@);
        if let TypeArgument::Explicit(argument) = &arguments[i] {
            match resolve_type(env, argument, visible) {
                Err(_) => return None,
                Ok(ty) => {
                    subst.insert(binders[i].clone(), ty);
                },
            }
        }
        i = i + 1;
    }
    Some(subst)
}

fn match_signature(
    env: &Env,
    signature: &Signature,
    explicit: Option<&Vec<TypeArgument>>,
    actuals: &Vec<MagType>,
    visible: &Names,
) -> (result: Option<MagType>)
    ensures
        option_ty(result) == signature_result(
            env@,
            signature@,
            option_argument_terms(explicit),
            tys(actuals@),
            visible@,
        ),
{
    assert(tys(signature.params@).len() == signature.params@.len());
    assert(tys(actuals@).len() == actuals@.len());
    assert(texts(signature.binders@).len() == signature.binders@.len());
    if signature.params.len() != actuals.len() {
        return None;
    }
    let mut subst = match explicit {
        None => Subst::new(),
        Some(arguments) => {
            if signature.binders.len() != arguments.len() {
                return None;
            }
            match assign_explicit(env, &signature.binders, arguments, visible) {
                None => return None,
                Some(subst) => subst,
            }
        },
    };
    let bindable = Names::of(&signature.binders);
    match compatible_all(env, actuals, &signature.params, &mut subst, Some(&bindable)) {
        Err(_) => None,
        Ok(_) => Some(substitute(&signature.result, &subst)),
    }
}

pub fn match_signatures(
    env: &Env,
    list: &Vec<Signature>,
    explicit: Option<&Vec<TypeArgument>>,
    actuals: &Vec<MagType>,
    visible: &Names,
) -> (found: Vec<(bool, MagType)>)
    ensures
        results(found@) == signature_results(
            env@,
            sigs(list@),
            option_argument_terms(explicit),
            tys(actuals@),
            visible@,
            0,
        ),
{
    let ghost all = sigs(list@);
    let ghost terms = option_argument_terms(explicit);
    let ghost given = tys(actuals@);
    let mut found: Vec<(bool, MagType)> = Vec::new();
    let mut i: usize = 0;
    assert(results(found@) + signature_results(env@, all, terms, given, visible@, 0)
        =~= signature_results(env@, all, terms, given, visible@, 0));
    while i < list.len()
        invariant
            i <= list@.len(),
            all == sigs(list@),
            terms == option_argument_terms(explicit),
            given == tys(actuals@),
            signature_results(env@, all, terms, given, visible@, 0) == results(found@)
                + signature_results(env@, all, terms, given, visible@, i as int),
        decreases list@.len() - i,
    {
        assert(all[i as int] == list@[i as int]@);
        let ghost before = results(found@);
        let ghost rest = signature_results(env@, all, terms, given, visible@, i + 1);
        assert(texts(list@[i as int].binders@).len() == list@[i as int].binders@.len());
        match match_signature(env, &list[i], explicit, actuals, visible) {
            None => {},
            Some(ty) => {
                let ghost added = (list@[i as int].binders@.len() == 0, ty@);
                found.push((list[i].binders.len() == 0, ty));
                assert(results(found@) =~= before.push(added));
                assert(before + (seq![added] + rest) =~= before.push(added) + rest);
            },
        }
        i = i + 1;
    }
    assert(results(found@) + Seq::<(bool, Ty)>::empty() =~= results(found@));
    found
}

/// The results by signatures without binders among the first `n`.
pub open spec fn concrete_results(list: Seq<(bool, Ty)>, n: int) -> Seq<(bool, Ty)>
    decreases n,
{
    if n <= 0 {
        Seq::empty()
    } else if list[n - 1].0 {
        concrete_results(list, n - 1).push(list[n - 1])
    } else {
        concrete_results(list, n - 1)
    }
}

/// The results that are left: a single one by a signature without binders goes
/// before all others.
pub open spec fn preferred(list: Seq<(bool, Ty)>) -> Seq<(bool, Ty)> {
    let concrete = concrete_results(list, list.len() as int);
    if list.len() > 1 && concrete.len() == 1 {
        concrete
    } else {
        list
    }
}

pub fn prefer(found: Vec<(bool, MagType)>) -> (left: Vec<(bool, MagType)>)
    ensures
        results(left@) == preferred(results(found@)),
{
    let ghost all = results(found@);
    let mut concrete: Vec<(bool, MagType)> = Vec::new();
    assert(results(concrete@) =~= concrete_results(all, 0));
    let mut i: usize = 0;
    while i < found.len()
        invariant
            i <= found@.len(),
            all == results(found@),
            results(concrete@) == concrete_results(all, i as int),
        decreases found@.len() - i,
    {
        assert(all[i as int] == (found@[i as int].0, found@[i as int].1@));
        if found[i].0 {
            let ghost before = results(concrete@);
            concrete.push((true, found[i].1.copy()));
            assert(results(concrete@) =~= before.push((true, found@[i as int].1@)));
        }
        i = i + 1;
    }
    assert(results(concrete@).len() == concrete@.len());
    if found.len() > 1 && concrete.len() == 1 {
        concrete
    } else {
        found
    }
}

} // verus!
