//! Choosing among the functions that a name stands for: instances of generic
//! ones, and the account of why none fits.

use crate::authored::{Argument, TypeArgument, argument_terms};
use crate::checked::{BindingId, option_name};
use crate::compat::{Fit, compatible_with_bindable, fit_binding, fitting};
use crate::declare::field_types;
use crate::env::{Env, World};
use crate::error::{Failure, MagError, verdict};
use crate::order::{precedes, text_before};
use crate::resolve::{resolve_type, resolved};
use crate::scope::{
    Candidate, CheckedCandidate, cands, instance_bindable, instance_type, instance_var,
    instance_variable, instantiate_candidate, option_texts, type_vars_in, visible_type_variables,
};
use crate::text::{
    cat2, cat3, cat4, cat5, cat6, count_text, decimal, decimal_text, join_texts, joined,
    next_count_text, same_text, texts,
};
use crate::types::{
    MagType, Names, Subst, Ty, has_type_variables, internal_type_variables, internal_vars,
    substitute, substituted, ty_text, tys, variables, vars,
};
use crate::value::option_ty;
use vstd::prelude::*;

verus! {

// ---------------------------------------------------------------------------
// Types by name
// ---------------------------------------------------------------------------

/// Types by ascending name, with one more; a type of the same name is replaced.
pub open spec fn put_type(list: Seq<(Seq<char>, Ty)>, name: Seq<char>, ty: Ty) -> Seq<
    (Seq<char>, Ty),
>
    decreases list.len(),
{
    if list.len() == 0 {
        seq![(name, ty)]
    } else if list.last().0 == name {
        list.drop_last().push((name, ty))
    } else if text_before(list.last().0, name) {
        list.push((name, ty))
    } else {
        put_type(list.drop_last(), name, ty).push(list.last())
    }
}

pub fn insert_type(list: &mut Vec<(String, MagType)>, name: String, ty: MagType)
    ensures
        field_types(final(list)@) == put_type(field_types(old(list)@), name@, ty@),
{
    let ghost all = field_types(list@);
    let mut at: usize = list.len();
    assert(all.take(at as int) =~= all);
    assert(put_type(all, name@, ty@) =~= put_type(all.take(at as int), name@, ty@) + all.skip(
        at as int,
    ));
    while at > 0 && !same_text(list[at - 1].0.as_str(), name.as_str()) && !precedes(
        list[at - 1].0.as_str(),
        name.as_str(),
    )
        invariant
            at <= list@.len(),
            list@ == old(list)@,
            all == field_types(list@),
            put_type(all, name@, ty@) == put_type(all.take(at as int), name@, ty@) + all.skip(
                at as int,
            ),
        decreases at,
    {
        proof {
            let shorter = all.take(at as int);
            assert(shorter.last() == all[at - 1]);
            assert(shorter.drop_last() =~= all.take(at - 1));
            assert(put_type(shorter, name@, ty@) == put_type(all.take(at - 1), name@, ty@).push(
                all[at - 1],
            ));
            assert(put_type(all.take(at - 1), name@, ty@).push(all[at - 1]) + all.skip(at as int)
                =~= put_type(all.take(at - 1), name@, ty@) + all.skip(at - 1));
        }
        at = at - 1;
    }
    let ghost view = (name@, ty@);
    if at > 0 && same_text(list[at - 1].0.as_str(), name.as_str()) {
        list.set(at - 1, (name, ty));
        proof {
            let shorter = all.take(at as int);
            assert(shorter.last() == all[at - 1]);
            assert(shorter.drop_last() =~= all.take(at - 1));
            assert(field_types(list@) =~= all.take(at - 1).push(view) + all.skip(at as int));
        }
    } else {
        list.insert(at, (name, ty));
        proof {
            let shorter = all.take(at as int);
            if at > 0 {
                assert(shorter.last() == all[at - 1]);
                assert(field_types(list@) =~= shorter.push(view) + all.skip(at as int));
            } else {
                assert(shorter =~= Seq::empty());
                assert(field_types(list@) =~= seq![view] + all.skip(0));
            }
        }
    }
}

// ---------------------------------------------------------------------------
// Instances for a call
// ---------------------------------------------------------------------------

/// A type argument that is left to be inferred: its place, the type parameter
/// and the variable that stands for it.
pub type InferredTypeArgumentHole = (usize, String, String);

pub type Hole = (nat, Seq<char>, Seq<char>);

pub open spec fn hole_views(holes: Seq<InferredTypeArgumentHole>) -> Seq<Hole> {
    Seq::new(holes.len(), |i: int| (holes[i].0 as nat, holes[i].1@, holes[i].2@))
}

/// A candidate made ready for one call.
pub struct InstantiatedCallCandidate {
    pub ty: MagType,
    pub bindable: Names,
    pub holes: Vec<InferredTypeArgumentHole>,
    pub type_bindings: Vec<(String, MagType)>,
}

pub ghost struct Instance {
    pub ty: Ty,
    pub bindable: Set<Seq<char>>,
    pub holes: Seq<Hole>,
    pub bindings: Seq<(Seq<char>, Ty)>,
}

impl InstantiatedCallCandidate {
    pub open spec fn view(&self) -> Instance {
        Instance {
            ty: self.ty@,
            bindable: self.bindable@,
            holes: hole_views(self.holes@),
            bindings: field_types(self.type_bindings@),
        }
    }
}

/// What the type parameters stand for where none is given.
pub open spec fn instance_bindings(id: BindingId, binders: Seq<Seq<char>>, n: int) -> Seq<
    (Seq<char>, Ty),
>
    decreases n,
{
    if n <= 0 {
        Seq::empty()
    } else {
        put_type(
            instance_bindings(id, binders, n - 1),
            binders[n - 1],
            Ty::Var(instance_var(id, n - 1)),
        )
    }
}

/// What type arguments from index `i` on make of a candidate: its type
/// parameters, what may be bound, and the holes.
pub ghost struct Given {
    pub subst: Map<Seq<char>, Ty>,
    pub bindable: Set<Seq<char>>,
    pub holes: Seq<Hole>,
    pub bindings: Seq<(Seq<char>, Ty)>,
}

pub open spec fn given_from(
    world: World,
    scope: Set<Seq<char>>,
    candidate: Candidate,
    arguments: Seq<Argument>,
    i: int,
    before: Given,
) -> Result<Given, Failure>
    decreases arguments.len() - i,
{
    if i < 0 || i >= arguments.len() {
        Ok(before)
    } else {
        let binder = candidate.binders[i];
        match arguments[i] {
            Argument::Explicit(term) => match resolved(world, term, scope) {
                Err(failure) => Err(failure),
                Ok(ty) => given_from(
                    world,
                    scope,
                    candidate,
                    arguments,
                    i + 1,
                    Given {
                        subst: before.subst.insert(binder, ty),
                        bindings: put_type(before.bindings, binder, ty),
                        ..before
                    },
                ),
            },
            Argument::Infer => {
                let variable = instance_var(candidate.id, i);
                given_from(
                    world,
                    scope,
                    candidate,
                    arguments,
                    i + 1,
                    Given {
                        subst: before.subst.insert(binder, Ty::Var(variable)),
                        bindable: before.bindable.insert(variable),
                        holes: before.holes.push((i as nat, binder, variable)),
                        bindings: put_type(before.bindings, binder, Ty::Var(variable)),
                    },
                )
            },
        }
    }
}

pub open spec fn nothing_given() -> Given {
    Given {
        subst: Map::empty(),
        bindable: Set::empty(),
        holes: Seq::empty(),
        bindings: Seq::empty(),
    }
}

/// A candidate made ready for a call, with its type arguments where they are
/// written.
#[verifier::opaque]
pub open spec fn instantiated(
    world: World,
    scopes: Seq<Candidate>,
    name: Seq<char>,
    candidate: Candidate,
    explicit: Option<Seq<Argument>>,
) -> Result<Instance, Failure> {
    match explicit {
        None => Ok(
            Instance {
                ty: instance_type(candidate),
                bindable: instance_bindable(candidate),
                holes: Seq::empty(),
                bindings: instance_bindings(
                    candidate.id,
                    candidate.binders,
                    candidate.binders.len() as int,
                ),
            },
        ),
        Some(arguments) => if arguments.len() != candidate.binders.len() {
            Err(
                Failure::Type(
                    "generic call "@ + name + " expects exactly "@ + decimal(
                        candidate.binders.len(),
                    ) + " type arguments, got "@ + decimal(arguments.len()),
                ),
            )
        } else {
            match given_from(
                world,
                type_vars_in(scopes),
                candidate,
                arguments,
                0,
                nothing_given(),
            ) {
                Err(failure) => Err(failure),
                Ok(given) => Ok(
                    Instance {
                        ty: substituted(candidate.ty, given.subst),
                        bindable: given.bindable,
                        holes: given.holes,
                        bindings: given.bindings,
                    },
                ),
            }
        },
    }
}

pub open spec fn instancing(result: Result<InstantiatedCallCandidate, MagError>) -> Result<
    Instance,
    Failure,
> {
    match result {
        Ok(instance) => Ok(instance@),
        Err(error) => Err(error@),
    }
}

fn bind_instances(candidate: &CheckedCandidate) -> (bindings: Vec<(String, MagType)>)
    ensures
        field_types(bindings@) == instance_bindings(
            candidate@.id,
            candidate@.binders,
            candidate@.binders.len() as int,
        ),
{
    let ghost all = candidate@.binders;
    let mut bindings: Vec<(String, MagType)> = Vec::new();
    assert(field_types(bindings@) =~= Seq::<(Seq<char>, Ty)>::empty());
    let mut i: usize = 0;
    while i < candidate.generic_binders.len()
        invariant
            i <= candidate.generic_binders@.len(),
            all == texts(candidate.generic_binders@),
            field_types(bindings@) == instance_bindings(candidate.id, all, i as int),
        decreases candidate.generic_binders@.len() - i,
    {
        assert(all[i as int] == candidate.generic_binders@[i as int]@);
        let variable = instance_variable(candidate.id, i);
        insert_type(&mut bindings, candidate.generic_binders[i].clone(), MagType::Var(variable));
        i = i + 1;
    }
    bindings
}

fn give_arguments(
    env: &Env,
    scopes: &Vec<CheckedCandidate>,
    candidate: &CheckedCandidate,
    arguments: &Vec<TypeArgument>,
) -> (result: Result<InstantiatedCallCandidate, MagError>)
    requires
        arguments@.len() == candidate.generic_binders@.len(),
    ensures
        instancing(result) == (match given_from(
            env@,
            type_vars_in(cands(scopes@)),
            candidate@,
            argument_terms(arguments@),
            0,
            nothing_given(),
        ) {
            Err(failure) => Err::<Instance, Failure>(failure),
            Ok(given) => Ok(
                Instance {
                    ty: substituted(candidate@.ty, given.subst),
                    bindable: given.bindable,
                    holes: given.holes,
                    bindings: given.bindings,
                },
            ),
        }),
{
    let vars = visible_type_variables(scopes);
    let ghost scope = type_vars_in(cands(scopes@));
    let ghost terms = argument_terms(arguments@);
    let ghost view = candidate@;
    let ghost names = texts(candidate.generic_binders@);
    let mut subst = Subst::new();
    let mut bindable = Names::new();
    let mut holes: Vec<InferredTypeArgumentHole> = Vec::new();
    let mut bindings: Vec<(String, MagType)> = Vec::new();
    proof {
        assert(hole_views(holes@) =~= Seq::<Hole>::empty());
        assert(field_types(bindings@) =~= Seq::<(Seq<char>, Ty)>::empty());
    }
    let ghost whole = given_from(env@, scope, view, terms, 0, nothing_given());
    let mut i: usize = 0;
    while i < arguments.len()
        invariant
            i <= arguments@.len() == candidate.generic_binders@.len(),
            vars@ == scope,
            scope == type_vars_in(cands(scopes@)),
            terms == argument_terms(arguments@),
            view == candidate@,
            names == texts(candidate.generic_binders@),
            view.binders == names,
            whole == given_from(env@, scope, view, terms, 0, nothing_given()),
            whole == given_from(
                env@,
                scope,
                view,
                terms,
                i as int,
                Given {
                    subst: subst@,
                    bindable: bindable@,
                    holes: hole_views(holes@),
                    bindings: field_types(bindings@),
                },
            ),
        decreases arguments@.len() - i,
    {
        assert(terms[i as int] == arguments@[i as int]@);
        assert(names[i as int] == candidate.generic_binders@[i as int]@);
        let binder = &candidate.generic_binders[i];
        match &arguments[i] {
            TypeArgument::Explicit(argument) => match resolve_type(env, argument, &vars) {
                Err(error) => return Err(error),
                Ok(ty) => {
                    insert_type(&mut bindings, binder.clone(), ty.copy());
                    subst.insert(binder.clone(), ty);
                },
            },
            TypeArgument::Infer => {
                let variable = instance_variable(candidate.id, i);
                bindable.insert(variable.clone());
                let ghost before = hole_views(holes@);
                holes.push((i, binder.clone(), variable.clone()));
                assert(hole_views(holes@) =~= before.push((i as nat, binder@, variable@)));
                insert_type(&mut bindings, binder.clone(), MagType::Var(variable.clone()));
                subst.insert(binder.clone(), MagType::Var(variable));
            },
        }
        i = i + 1;
    }
    Ok(
        InstantiatedCallCandidate {
            ty: substitute(&candidate.ty, &subst),
            bindable,
            holes,
            type_bindings: bindings,
        },
    )
}

pub fn instantiate_call_candidate(
    env: &Env,
    scopes: &Vec<CheckedCandidate>,
    name: &str,
    candidate: &CheckedCandidate,
    explicit_type_args: Option<&Vec<TypeArgument>>,
) -> (result: Result<InstantiatedCallCandidate, MagError>)
    ensures
        instancing(result) == instantiated(
            env@,
            cands(scopes@),
            name@,
            candidate@,
            match explicit_type_args {
                Some(arguments) => Some(argument_terms(arguments@)),
                None => None,
            },
        ),
{
    reveal(instantiated);
    match explicit_type_args {
        None => {
            let (ty, bindable) = instantiate_candidate(candidate);
            let holes: Vec<InferredTypeArgumentHole> = Vec::new();
            assert(hole_views(holes@) =~= Seq::<Hole>::empty());
            Ok(
                InstantiatedCallCandidate {
                    ty,
                    bindable,
                    holes,
                    type_bindings: bind_instances(candidate),
                },
            )
        },
        Some(arguments) => {
            assert(texts(candidate.generic_binders@).len() == candidate.generic_binders@.len());
            if arguments.len() != candidate.generic_binders.len() {
                let expected = count_text(candidate.generic_binders.len());
                let got = count_text(arguments.len());
                return Err(
                    MagError::Type(
                        cat6(
                            "generic call ",
                            name,
                            " expects exactly ",
                            expected.as_str(),
                            " type arguments, got ",
                            got.as_str(),
                        ),
                    ),
                );
            }
            give_arguments(env, scopes, candidate, arguments)
        },
    }
}

/// The places of the first `n` holes that nothing fills.
pub open spec fn unfilled(holes: Seq<Hole>, subst: Map<Seq<char>, Ty>, n: int) -> Seq<Seq<char>>
    decreases n,
{
    if n <= 0 {
        Seq::empty()
    } else {
        let (place, binder, variable) = holes[n - 1];
        if internal_vars(substituted(Ty::Var(variable), subst)) == Set::<Seq<char>>::empty() {
            unfilled(holes, subst, n - 1)
        } else {
            unfilled(holes, subst, n - 1).push(
                "position "@ + decimal(place + 1) + " ("@ + binder + ")"@,
            )
        }
    }
}

/// Whether all holes are filled.
pub open spec fn holes_filled(name: Seq<char>, holes: Seq<Hole>, subst: Map<Seq<char>, Ty>) -> Result<
    (),
    Failure,
> {
    let open = unfilled(holes, subst, holes.len() as int);
    if open.len() == 0 {
        Ok(())
    } else {
        Err(
            Failure::Type(
                "cannot infer explicit type argument hole for "@ + name + " at "@ + joined(
                    open,
                    ", "@,
                ),
            ),
        )
    }
}

pub fn validate_inferred_holes(name: &str, holes: &Vec<InferredTypeArgumentHole>, subst: &Subst) -> (result:
    Result<(), MagError>)
    ensures
        verdict(result) == holes_filled(name@, hole_views(holes@), subst@),
{
    let ghost all = hole_views(holes@);
    let mut open: Vec<String> = Vec::new();
    assert(texts(open@) =~= unfilled(all, subst@, 0));
    let mut i: usize = 0;
    while i < holes.len()
        invariant
            i <= holes@.len(),
            all == hole_views(holes@),
            texts(open@) == unfilled(all, subst@, i as int),
        decreases holes@.len() - i,
    {
        let hole = &holes[i];
        assert(all[i as int] == (hole.0 as nat, hole.1@, hole.2@));
        let filled = substitute(&MagType::Var(hole.2.clone()), subst);
        if !internal_type_variables(&filled).is_empty() {
            let ghost before = texts(open@);
            let place = next_count_text(hole.0);
            let text = cat5("position ", place.as_str(), " (", hole.1.as_str(), ")");
            open.push(text);
            assert(texts(open@) =~= before.push(text@));
        }
        i = i + 1;
    }
    assert(texts(open@).len() == open@.len());
    if open.len() == 0 {
        Ok(())
    } else {
        let places = join_texts(&open, ", ");
        Err(
            MagError::Type(
                cat4(
                    "cannot infer explicit type argument hole for ",
                    name,
                    " at ",
                    places.as_str(),
                ),
            ),
        )
    }
}

/// Fits the result of a call to what is expected of it.
pub open spec fn result_fit(
    world: World,
    output: Ty,
    expected: Ty,
    subst: Map<Seq<char>, Ty>,
    bindable: Set<Seq<char>>,
) -> Fit {
    if vars(output) == Set::<Seq<char>>::empty() {
        fit_binding(world, output, expected, subst, bindable)
    } else {
        fit_binding(world, expected, output, subst, bindable)
    }
}

pub fn constrain_result(
    env: &Env,
    output: &MagType,
    expected: &MagType,
    subst: &mut Subst,
    bindable: &Names,
) -> (result: Result<(), String>)
    ensures
        fitting(final(subst)@, result) == result_fit(
            env@,
            output@,
            expected@,
            old(subst)@,
            bindable@,
        ),
{
    if has_type_variables(output) {
        compatible_with_bindable(env, expected, output, subst, bindable)
    } else {
        compatible_with_bindable(env, output, expected, subst, bindable)
    }
}

/// The holes from index `i` on that a parameter mentions and that are filled.
pub open spec fn filled_holes(
    holes: Seq<Hole>,
    mentioned: Set<Seq<char>>,
    subst: Map<Seq<char>, Ty>,
    i: int,
) -> Seq<Hole>
    decreases holes.len() - i,
{
    if i < 0 || i >= holes.len() {
        Seq::empty()
    } else {
        let rest = filled_holes(holes, mentioned, subst, i + 1);
        if mentioned.contains(holes[i].2) && subst.dom().contains(holes[i].2) {
            seq![holes[i]] + rest
        } else {
            rest
        }
    }
}

/// An assignment without the variables of holes from index `i` on.
pub open spec fn without_holes(subst: Map<Seq<char>, Ty>, holes: Seq<Hole>, i: int) -> Map<
    Seq<char>,
    Ty,
>
    decreases holes.len() - i,
{
    if i < 0 || i >= holes.len() {
        subst
    } else {
        without_holes(subst.remove(holes[i].2), holes, i + 1)
    }
}

/// The hole whose earlier filling is what keeps an argument from fitting.
pub open spec fn conflicting_hole(
    world: World,
    actual: Ty,
    parameter: Ty,
    subst: Map<Seq<char>, Ty>,
    bindable: Set<Seq<char>>,
    holes: Seq<Hole>,
) -> Option<(nat, Seq<char>)> {
    let relevant = filled_holes(holes, vars(parameter), subst, 0);
    if relevant.len() == 0 {
        None
    } else if fit_binding(
        world,
        actual,
        parameter,
        without_holes(subst, relevant, 0),
        bindable,
    ).result is Ok {
        Some((relevant[0].0, relevant[0].1))
    } else {
        None
    }
}

pub fn conflicting_explicit_hole(
    env: &Env,
    actual: &MagType,
    parameter: &MagType,
    subst: &Subst,
    bindable: &Names,
    holes: &Vec<InferredTypeArgumentHole>,
) -> (result: Option<(usize, String)>)
    ensures
        (match result {
            Some((place, binder)) => Some((place as nat, binder@)),
            None => None,
        }) == conflicting_hole(
            env@,
            actual@,
            parameter@,
            subst@,
            bindable@,
            hole_views(holes@),
        ),
{
    let mentioned = variables(parameter);
    let ghost all = hole_views(holes@);
    let mut relevant: Vec<InferredTypeArgumentHole> = Vec::new();
    let mut i: usize = 0;
    assert(hole_views(relevant@) + filled_holes(all, mentioned@, subst@, 0) =~= filled_holes(
        all,
        mentioned@,
        subst@,
        0,
    ));
    while i < holes.len()
        invariant
            i <= holes@.len(),
            all == hole_views(holes@),
            filled_holes(all, mentioned@, subst@, 0) == hole_views(relevant@) + filled_holes(
                all,
                mentioned@,
                subst@,
                i as int,
            ),
        decreases holes@.len() - i,
    {
        let hole = &holes[i];
        let ghost view = (hole.0 as nat, hole.1@, hole.2@);
        assert(all[i as int] == view);
        let ghost before = hole_views(relevant@);
        let ghost rest = filled_holes(all, mentioned@, subst@, i + 1);
        if mentioned.contains(hole.2.as_str()) && subst.get(hole.2.as_str()).is_some() {
            relevant.push((hole.0, hole.1.clone(), hole.2.clone()));
            assert(hole_views(relevant@) =~= before.push(view));
            assert(before + (seq![view] + rest) =~= before.push(view) + rest);
        }
        i = i + 1;
    }
    assert(hole_views(relevant@) + Seq::<Hole>::empty() =~= hole_views(relevant@));
    let ghost list = hole_views(relevant@);
    assert(list.len() == relevant@.len());
    if relevant.len() == 0 {
        return None;
    }
    let mut without = subst.copy();
    let mut i: usize = 0;
    while i < relevant.len()
        invariant
            i <= relevant@.len(),
            list == hole_views(relevant@),
            without_holes(subst@, list, 0) == without_holes(without@, list, i as int),
        decreases relevant@.len() - i,
    {
        assert(list[i as int].2 == relevant@[i as int].2@);
        without.remove(relevant[i].2.as_str());
        i = i + 1;
    }
    match compatible_with_bindable(env, actual, parameter, &mut without, bindable) {
        Err(_) => None,
        Ok(_) => {
            assert(list[0] == (relevant@[0].0 as nat, relevant@[0].1@, relevant@[0].2@));
            Some((relevant[0].0, relevant[0].1.clone()))
        },
    }
}

// ---------------------------------------------------------------------------
// Rejections
// ---------------------------------------------------------------------------

/// Why a candidate does not fit a call.
#[allow(inconsistent_fields)]
pub enum CallRejectionReason {
    TypeArguments { error: String },
    ValueArity { expected: usize, actual: usize },
    Argument {
        index: usize,
        name: Option<String>,
        expected: MagType,
        actual: Option<MagType>,
        error: String,
    },
    ResultMismatch { expected: MagType, actual: MagType, error: String },
    SubstitutionConflict {
        index: usize,
        name: Option<String>,
        hole_index: usize,
        hole_binder: String,
        expected: MagType,
        actual: MagType,
        error: String,
    },
    HoleConflict { error: String },
    Equality { error: String },
}

pub ghost enum Reason {
    TypeArguments(Seq<char>),
    ValueArity(nat, nat),
    Argument(nat, Option<Seq<char>>, Ty, Option<Ty>, Seq<char>),
    ResultMismatch(Ty, Ty, Seq<char>),
    SubstitutionConflict(nat, Option<Seq<char>>, nat, Seq<char>, Ty, Ty, Seq<char>),
    HoleConflict(Seq<char>),
    Equality(Seq<char>),
}

impl CallRejectionReason {
    pub open spec fn view(&self) -> Reason {
        match self {
            CallRejectionReason::TypeArguments { error } => Reason::TypeArguments(error@),
            CallRejectionReason::ValueArity { expected, actual } => Reason::ValueArity(
                *expected as nat,
                *actual as nat,
            ),
            CallRejectionReason::Argument { index, name, expected, actual, error } => {
                Reason::Argument(
                    *index as nat,
                    option_name(*name),
                    expected@,
                    option_ty(*actual),
                    error@,
                )
            },
            CallRejectionReason::ResultMismatch { expected, actual, error } => {
                Reason::ResultMismatch(expected@, actual@, error@)
            },
            CallRejectionReason::SubstitutionConflict {
                index,
                name,
                hole_index,
                hole_binder,
                expected,
                actual,
                error,
            } => Reason::SubstitutionConflict(
                *index as nat,
                option_name(*name),
                *hole_index as nat,
                hole_binder@,
                expected@,
                actual@,
                error@,
            ),
            CallRejectionReason::HoleConflict { error } => Reason::HoleConflict(error@),
            CallRejectionReason::Equality { error } => Reason::Equality(error@),
        }
    }
}

/// A candidate that does not fit a call, and how far it came.
pub struct CallCandidateRejection {
    pub candidate: CheckedCandidate,
    pub value_arity: usize,
    pub explicit_type_arity: Option<usize>,
    pub checked_arguments: usize,
    pub reason: CallRejectionReason,
    pub declaration_order: usize,
}

pub ghost struct Rejection {
    pub candidate: Candidate,
    pub value_arity: nat,
    pub type_arity: Option<nat>,
    pub checked: nat,
    pub reason: Reason,
    pub order: nat,
}

pub open spec fn option_nat(n: Option<usize>) -> Option<nat> {
    match n {
        Some(n) => Some(n as nat),
        None => None,
    }
}

impl CallCandidateRejection {
    pub open spec fn view(&self) -> Rejection {
        Rejection {
            candidate: self.candidate@,
            value_arity: self.value_arity as nat,
            type_arity: option_nat(self.explicit_type_arity),
            checked: self.checked_arguments as nat,
            reason: self.reason@,
            order: self.declaration_order as nat,
        }
    }

    /// How far the candidate came: by the arguments that passed, the stage that
    /// it failed at, and its place among the declarations, an earlier one first.
    pub fn closeness(&self) -> (rank: (usize, usize, usize))
        ensures
            rank.0 == self@.checked,
            rank.1 == stage_of(self@.reason),
            rank.2 == usize::MAX - self@.order,
    {
        let stage: usize = match &self.reason {
            CallRejectionReason::TypeArguments { .. } => 0,
            CallRejectionReason::ValueArity { .. } => 1,
            CallRejectionReason::Argument { .. } => 2,
            CallRejectionReason::SubstitutionConflict { .. } => 2,
            CallRejectionReason::ResultMismatch { .. } => 3,
            CallRejectionReason::HoleConflict { .. } => 4,
            CallRejectionReason::Equality { .. } => 5,
        };
        (self.checked_arguments, stage, usize::MAX - self.declaration_order)
    }
}

pub open spec fn rejections(list: Seq<CallCandidateRejection>) -> Seq<Rejection> {
    Seq::new(list.len(), |i: int| list[i].view())
}

pub open spec fn stage_of(reason: Reason) -> nat {
    match reason {
        Reason::TypeArguments(_) => 0,
        Reason::ValueArity(_, _) => 1,
        Reason::Argument(_, _, _, _, _) => 2,
        Reason::SubstitutionConflict(_, _, _, _, _, _, _) => 2,
        Reason::ResultMismatch(_, _, _) => 3,
        Reason::HoleConflict(_) => 4,
        Reason::Equality(_) => 5,
    }
}

/// Whether a candidate came further than another one.
pub open spec fn closer(left: Rejection, right: Rejection) -> bool {
    ||| left.checked > right.checked
    ||| left.checked == right.checked && stage_of(left.reason) > stage_of(right.reason)
    ||| left.checked == right.checked && stage_of(left.reason) == stage_of(right.reason)
        && left.order < right.order
}

/// A list by closeness, with one more rejection.
pub open spec fn ranked_with(list: Seq<Rejection>, rejection: Rejection) -> Seq<Rejection>
    decreases list.len(),
{
    if list.len() == 0 {
        seq![rejection]
    } else if closer(rejection, list.last()) {
        ranked_with(list.drop_last(), rejection).push(list.last())
    } else {
        list.push(rejection)
    }
}

/// The first `n` rejections by closeness.
pub open spec fn ranked(list: Seq<Rejection>, n: int) -> Seq<Rejection>
    decreases n,
{
    if n <= 0 {
        Seq::empty()
    } else {
        ranked_with(ranked(list, n - 1), list[n - 1])
    }
}

fn is_closer(left: &CallCandidateRejection, right: &CallCandidateRejection) -> (yes: bool)
    ensures
        yes == closer(left@, right@),
{
    let l = left.closeness();
    let r = right.closeness();
    if l.0 != r.0 {
        l.0 > r.0
    } else if l.1 != r.1 {
        l.1 > r.1
    } else {
        l.2 > r.2
    }
}

fn insert_ranked(list: &mut Vec<CallCandidateRejection>, rejection: CallCandidateRejection)
    ensures
        rejections(final(list)@) == ranked_with(rejections(old(list)@), rejection@),
{
    let ghost all = rejections(list@);
    let ghost view = rejection@;
    let mut at: usize = list.len();
    assert(all.take(at as int) =~= all);
    assert(ranked_with(all, view) =~= ranked_with(all.take(at as int), view) + all.skip(at as int));
    while at > 0 && is_closer(&rejection, &list[at - 1])
        invariant
            at <= list@.len(),
            list@ == old(list)@,
            all == rejections(list@),
            view == rejection@,
            ranked_with(all, view) == ranked_with(all.take(at as int), view) + all.skip(at as int),
        decreases at,
    {
        proof {
            let shorter = all.take(at as int);
            assert(shorter.last() == all[at - 1]);
            assert(shorter.drop_last() =~= all.take(at - 1));
            assert(ranked_with(all.take(at - 1), view).push(all[at - 1]) + all.skip(at as int)
                =~= ranked_with(all.take(at - 1), view) + all.skip(at - 1));
        }
        at = at - 1;
    }
    list.insert(at, rejection);
    proof {
        let shorter = all.take(at as int);
        if at > 0 {
            assert(shorter.last() == all[at - 1]);
            assert(rejections(list@) =~= shorter.push(view) + all.skip(at as int));
        } else {
            assert(shorter =~= Seq::empty());
            assert(rejections(list@) =~= seq![view] + all.skip(0));
        }
    }
}

/// A parameter in the text of a signature.
pub open spec fn parameter_text(names: Option<Seq<Seq<char>>>, i: int, ty: Ty) -> Seq<char> {
    match names {
        Some(names) => if i < names.len() {
            names[i] + ": "@ + ty_text(ty)
        } else {
            ty_text(ty)
        },
        None => ty_text(ty),
    }
}

pub open spec fn parameter_texts(names: Option<Seq<Seq<char>>>, params: Seq<Ty>) -> Seq<Seq<char>> {
    Seq::new(params.len(), |i: int| parameter_text(names, i, params[i]))
}

pub open spec fn signature_text(name: Seq<char>, candidate: Candidate) -> Seq<char> {
    match candidate.ty {
        Ty::Function(params, result) => {
            let binders = if candidate.binders.len() == 0 {
                Seq::empty()
            } else {
                "<"@ + joined(candidate.binders, ", "@) + ">"@
            };
            name + binders + "("@ + joined(parameter_texts(candidate.parameters, params), ", "@)
                + ") -> "@ + ty_text(*result)
        },
        _ => name + ": "@ + ty_text(candidate.ty),
    }
}

pub open spec fn argument_label(index: nat, name: Option<Seq<char>>) -> Seq<char> {
    match name {
        None => "argument "@ + decimal(index + 1),
        Some(name) => "argument "@ + decimal(index + 1) + " '"@ + name + "'"@,
    }
}

pub open spec fn reason_text(name: Seq<char>, reason: Reason) -> Seq<char> {
    match reason {
        Reason::TypeArguments(error) => error,
        Reason::HoleConflict(error) => error,
        Reason::Equality(error) => error,
        Reason::ValueArity(expected, actual) => "expects "@ + decimal(expected)
            + " value arguments, got "@ + decimal(actual),
        Reason::Argument(index, parameter, expected, actual, error) => {
            let got = match actual {
                Some(actual) => ", got "@ + ty_text(actual),
                None => Seq::empty(),
            };
            argument_label(index, parameter) + " expected "@ + ty_text(expected) + got + ": "@
                + error
        },
        Reason::SubstitutionConflict(index, parameter, place, binder, expected, actual, error) => {
            argument_label(index, parameter) + " expected "@ + ty_text(expected) + ", got "@
                + ty_text(actual)
                + ": conflicting inference for explicit type argument hole in "@ + name
                + " at position "@ + decimal(place + 1) + " ("@ + binder + "): "@ + error
        },
        Reason::ResultMismatch(expected, actual, error) => "result expected "@ + ty_text(expected)
            + ", got "@ + ty_text(actual) + ": "@ + error,
    }
}

pub open spec fn arity_text(rejection: Rejection) -> Seq<char> {
    let types = match rejection.type_arity {
        None => "type args inferred"@,
        Some(arity) => decimal(arity) + " explicit type args"@,
    };
    "candidate #"@ + decimal(rejection.candidate.id.0 as nat) + "; "@ + decimal(
        rejection.value_arity,
    ) + " value args; "@ + types
}

pub open spec fn rejection_text(name: Seq<char>, rejection: Rejection) -> Seq<char> {
    "- "@ + signature_text(name, rejection.candidate) + " ["@ + arity_text(rejection) + "]: "@
        + reason_text(name, rejection.reason)
}

/// The lines for the first `n` rejections.
pub open spec fn rejection_lines(name: Seq<char>, list: Seq<Rejection>, n: int) -> Seq<Seq<char>>
    decreases n,
{
    if n <= 0 {
        seq!["no overload "@ + name + " matches call; closest candidates:"@]
    } else {
        rejection_lines(name, list, n - 1).push(rejection_text(name, list[n - 1]))
    }
}

/// The failure of a call that no candidate fits.
pub open spec fn rejected(name: Seq<char>, list: Seq<Rejection>) -> Failure {
    let sorted = ranked(list, list.len() as int);
    Failure::Type(joined(rejection_lines(name, sorted, sorted.len() as int), "\n"@))
}

fn render_parameter(names: &Option<Vec<String>>, i: usize, ty: &MagType) -> (text: String)
    ensures
        text@ == parameter_text(option_texts(*names), i as int, ty@),
{
    let text = ty.text();
    match names {
        Some(names) => {
            assert(texts(names@).len() == names@.len());
            if i < names.len() {
                assert(texts(names@)[i as int] == names@[i as int]@);
                cat3(names[i].as_str(), ": ", text.as_str())
            } else {
                text
            }
        },
        None => text,
    }
}

fn render_signature(name: &str, candidate: &CheckedCandidate) -> (text: String)
    ensures
        text@ == signature_text(name@, candidate@),
{
    match &candidate.ty {
        MagType::Function(params, result) => {
            let ghost names = option_texts(candidate.parameter_names);
            let ghost all = tys(params@);
            let mut parts: Vec<String> = Vec::new();
            let mut i: usize = 0;
            while i < params.len()
                invariant
                    i <= params@.len(),
                    parts@.len() == i,
                    all == tys(params@),
                    names == option_texts(candidate.parameter_names),
                    forall|j: int|
                        0 <= j < i ==> (#[trigger] parts@[j])@ == parameter_text(names, j, all[j]),
                decreases params@.len() - i,
            {
                assert(all[i as int] == params@[i as int]@);
                parts.push(render_parameter(&candidate.parameter_names, i, &params[i]));
                i = i + 1;
            }
            assert(texts(parts@) =~= parameter_texts(names, all));
            let list = join_texts(&parts, ", ");
            let result = result.text();
            assert(texts(candidate.generic_binders@).len() == candidate.generic_binders@.len());
            let binders = if candidate.generic_binders.len() == 0 {
                "".to_owned()
            } else {
                let binders = join_texts(&candidate.generic_binders, ", ");
                cat3("<", binders.as_str(), ">")
            };
            proof {
                reveal_strlit("");
                if candidate.generic_binders@.len() == 0 {
                    assert(binders@ =~= Seq::<char>::empty());
                }
            }
            cat6(name, binders.as_str(), "(", list.as_str(), ") -> ", result.as_str())
        },
        _ => {
            let text = candidate.ty.text();
            cat3(name, ": ", text.as_str())
        },
    }
}

fn render_label(index: usize, name: &Option<String>) -> (text: String)
    ensures
        text@ == argument_label(index as nat, option_name(*name)),
{
    let place = next_count_text(index);
    match name {
        None => cat2("argument ", place.as_str()),
        Some(name) => cat5("argument ", place.as_str(), " '", name.as_str(), "'"),
    }
}

fn render_reason(name: &str, reason: &CallRejectionReason) -> (text: String)
    ensures
        text@ == reason_text(name@, reason@),
{
    match reason {
        CallRejectionReason::TypeArguments { error } => error.clone(),
        CallRejectionReason::HoleConflict { error } => error.clone(),
        CallRejectionReason::Equality { error } => error.clone(),
        CallRejectionReason::ValueArity { expected, actual } => {
            let expected = count_text(*expected);
            let actual = count_text(*actual);
            cat4("expects ", expected.as_str(), " value arguments, got ", actual.as_str())
        },
        CallRejectionReason::Argument { index, name: parameter, expected, actual, error } => {
            let label = render_label(*index, parameter);
            let expected = expected.text();
            let got = match actual {
                Some(actual) => {
                    let actual = actual.text();
                    cat2(", got ", actual.as_str())
                },
                None => "".to_owned(),
            };
            proof {
                reveal_strlit("");
                if actual is None {
                    assert(got@ =~= Seq::<char>::empty());
                }
            }
            cat6(
                label.as_str(),
                " expected ",
                expected.as_str(),
                got.as_str(),
                ": ",
                error.as_str(),
            )
        },
        CallRejectionReason::SubstitutionConflict {
            index,
            name: parameter,
            hole_index,
            hole_binder,
            expected,
            actual,
            error,
        } => {
            let label = render_label(*index, parameter);
            let expected = expected.text();
            let actual = actual.text();
            let place = next_count_text(*hole_index);
            let first = cat5(
                label.as_str(),
                " expected ",
                expected.as_str(),
                ", got ",
                actual.as_str(),
            );
            let second = cat5(
                first.as_str(),
                ": conflicting inference for explicit type argument hole in ",
                name,
                " at position ",
                place.as_str(),
            );
            cat5(second.as_str(), " (", hole_binder.as_str(), "): ", error.as_str())
        },
        CallRejectionReason::ResultMismatch { expected, actual, error } => {
            let expected = expected.text();
            let actual = actual.text();
            cat6(
                "result expected ",
                expected.as_str(),
                ", got ",
                actual.as_str(),
                ": ",
                error.as_str(),
            )
        },
    }
}

fn render_arity(rejection: &CallCandidateRejection) -> (text: String)
    ensures
        text@ == arity_text(rejection@),
{
    let types = match rejection.explicit_type_arity {
        None => "type args inferred".to_owned(),
        Some(arity) => {
            let arity = count_text(arity);
            cat2(arity.as_str(), " explicit type args")
        },
    };
    let id = decimal_text(rejection.candidate.id.0);
    let values = count_text(rejection.value_arity);
    cat6("candidate #", id.as_str(), "; ", values.as_str(), " value args; ", types.as_str())
}

fn render_rejection(name: &str, rejection: &CallCandidateRejection) -> (text: String)
    ensures
        text@ == rejection_text(name@, rejection@),
{
    let signature = render_signature(name, &rejection.candidate);
    let arities = render_arity(rejection);
    let reason = render_reason(name, &rejection.reason);
    cat6("- ", signature.as_str(), " [", arities.as_str(), "]: ", reason.as_str())
}

/// Reports why no candidate fits a call, the closest one first.
pub fn render_call_rejections(name: &str, list: Vec<CallCandidateRejection>) -> (error: MagError)
    ensures
        error@ == rejected(name@, rejections(list@)),
{
    let ghost all = rejections(list@);
    let mut sorted: Vec<CallCandidateRejection> = Vec::new();
    assert(rejections(sorted@) =~= ranked(all, 0));
    let mut rest = list;
    // Taken from the end of the reversed list, the rejections come in order.
    let mut reversed: Vec<CallCandidateRejection> = Vec::new();
    while rest.len() > 0
        invariant
            rejections(rest@) == all.take(rest@.len() as int),
            rest@.len() + reversed@.len() == all.len(),
            forall|j: int|
                0 <= j < reversed@.len() ==> (#[trigger] reversed@[j])@ == all[all.len() - 1 - j],
        decreases rest@.len(),
    {
        let ghost before = rest@;
        match rest.pop() {
            Some(rejection) => {
                proof {
                    let n = before.len() - 1;
                    assert(rejections(before)[n] == all.take(before.len() as int)[n]);
                    assert(rejections(rest@) =~= all.take(n));
                }
                reversed.push(rejection);
            },
            None => {},
        }
    }
    while reversed.len() > 0
        invariant
            reversed@.len() <= all.len(),
            forall|j: int|
                0 <= j < reversed@.len() ==> (#[trigger] reversed@[j])@ == all[all.len() - 1 - j],
            rejections(sorted@) == ranked(all, all.len() - reversed@.len()),
        decreases reversed@.len(),
    {
        match reversed.pop() {
            Some(rejection) => {
                insert_ranked(&mut sorted, rejection);
            },
            None => {},
        }
    }
    let ghost order = rejections(sorted@);
    let mut lines: Vec<String> = Vec::new();
    let head = cat3("no overload ", name, " matches call; closest candidates:");
    lines.push(head);
    assert(texts(lines@) =~= rejection_lines(name@, order, 0));
    let mut i: usize = 0;
    while i < sorted.len()
        invariant
            i <= sorted@.len(),
            order == rejections(sorted@),
            texts(lines@) == rejection_lines(name@, order, i as int),
        decreases sorted@.len() - i,
    {
        assert(order[i as int] == sorted@[i as int]@);
        let ghost before = texts(lines@);
        let line = render_rejection(name, &sorted[i]);
        lines.push(line);
        assert(texts(lines@) =~= before.push(line@));
        i = i + 1;
    }
    assert(order.len() == sorted@.len());
    MagError::Type(join_texts(&lines, "\n"))
}

} // verus!
