//! The type of an expression, found from the types of its parts.

use crate::authored::{
    Arm, Expr, Function, Lambda, MatchArm, NamePath, Parameter, Term, Type, TypeArgument,
    TypeTerm, arm_terms, field_terms, option_arguments, parameter_terms, path_last, path_owner,
    path_text, terms,
};
use crate::builtins::{Builtin, builtin_of, list, tag, ty_function, ty_list, ty_tag};
use crate::calls::{
    Sig, Signature, compatible_all, fit_all, id_by_type, lookup_by_type, match_signatures,
    option_argument_terms, prefer, preferred, results, signature_results, sigs,
};
use crate::checked::BindingId;
use crate::compat::{
    adt_constructors, check_compatible, constructor_ids, constructor_named, constructors_of,
    contains_constructor, ensure_adt_exhaustive, exhaustion, field_at, find_field, fits_alone,
    instantiated_constructor, match_constructor_name, named_field_types, pattern_constructor,
    record_fields,
};
use crate::declare::{
    Constructor, ConstructorDecl, ConstructorDeclarationId, ConstructorId, constructors,
    field_types,
};
use crate::env::{Env, World, candidates, looked_up, ready_value};
use crate::error::{Failure, MagError, verdict};
use crate::resolve::{resolve_type, resolved, resolved_from, typing};
use crate::rules::{
    Typing, builtin_arity, builtin_result, builtin_step, call_result, fitted, rule_step, typed,
    typed_arguments,
};
use crate::text::{
    cat2, cat3, cat4, copy_texts, count_text, decimal, join_texts, joined, same_text, texts,
};
use crate::types::{
    MagType, Names, Subst, Ty, collect_vars, copy_types, substitute, substituted, ty_text,
    ty_texts, type_texts, tys, vars,
};
use crate::value::{FnValue, Val, Value, option_ty, type_of, value_type};
use vstd::prelude::*;

verus! {

// ---------------------------------------------------------------------------
// Local names
// ---------------------------------------------------------------------------

/// A local name and one of the types that it may have.
#[derive(Debug)]
pub struct LocalCandidate {
    pub name: String,
    pub ty: MagType,
    pub generic_binders: Vec<String>,
}

pub ghost struct Local {
    pub name: Seq<char>,
    pub ty: Ty,
    pub binders: Seq<Seq<char>>,
}

impl LocalCandidate {
    pub open spec fn view(&self) -> Local {
        Local { name: self.name@, ty: self.ty@, binders: texts(self.generic_binders@) }
    }

    pub fn copy(&self) -> (copy: Self)
        ensures
            copy@ == self@,
    {
        LocalCandidate {
            name: self.name.clone(),
            ty: self.ty.copy(),
            generic_binders: copy_texts(&self.generic_binders),
        }
    }
}

pub open spec fn local_views(list: Seq<LocalCandidate>) -> Seq<Local> {
    Seq::new(list.len(), |i: int| list[i].view())
}

/// Those of the first `n` candidates that have a name.
pub open spec fn named_locals(locals: Seq<Local>, name: Seq<char>, n: int) -> Seq<Local>
    decreases n,
{
    if n <= 0 {
        Seq::empty()
    } else if locals[n - 1].name == name {
        named_locals(locals, name, n - 1).push(locals[n - 1])
    } else {
        named_locals(locals, name, n - 1)
    }
}

pub open spec fn locals_of(locals: Seq<Local>, name: Seq<char>) -> Seq<Local> {
    named_locals(locals, name, locals.len() as int)
}

pub fn local_candidates(locals: &Vec<LocalCandidate>, name: &str) -> (found: Vec<LocalCandidate>)
    ensures
        local_views(found@) == locals_of(local_views(locals@), name@),
{
    let ghost all = local_views(locals@);
    let mut found: Vec<LocalCandidate> = Vec::new();
    assert(local_views(found@) =~= named_locals(all, name@, 0));
    let mut i: usize = 0;
    while i < locals.len()
        invariant
            i <= locals@.len(),
            all == local_views(locals@),
            local_views(found@) == named_locals(all, name@, i as int),
        decreases locals@.len() - i,
    {
        assert(all[i as int] == locals@[i as int]@);
        if same_text(locals[i].name.as_str(), name) {
            let ghost before = local_views(found@);
            let added = locals[i].copy();
            found.push(added);
            assert(local_views(found@) =~= before.push(added@));
        }
        i = i + 1;
    }
    found
}

pub fn copy_locals(locals: &Vec<LocalCandidate>) -> (copy: Vec<LocalCandidate>)
    ensures
        local_views(copy@) == local_views(locals@),
{
    let mut copy: Vec<LocalCandidate> = Vec::new();
    let mut i: usize = 0;
    while i < locals.len()
        invariant
            i <= locals@.len(),
            copy@.len() == i,
            forall|j: int| 0 <= j < i ==> (#[trigger] copy@[j])@ == locals@[j]@,
        decreases locals@.len() - i,
    {
        copy.push(locals[i].copy());
        i = i + 1;
    }
    assert(local_views(copy@) =~= local_views(locals@));
    copy
}

/// The variables in the types of the first `n` candidates.
pub open spec fn vars_among(locals: Seq<Local>, n: int) -> Set<Seq<char>>
    decreases n,
{
    if n <= 0 {
        Set::empty()
    } else {
        vars_among(locals, n - 1).union(vars(locals[n - 1].ty))
    }
}

pub open spec fn local_vars(locals: Seq<Local>) -> Set<Seq<char>> {
    vars_among(locals, locals.len() as int)
}

pub fn local_variables(locals: &Vec<LocalCandidate>) -> (names: Names)
    ensures
        names@ == local_vars(local_views(locals@)),
{
    let ghost all = local_views(locals@);
    let mut names = Names::new();
    let mut i: usize = 0;
    while i < locals.len()
        invariant
            i <= locals@.len(),
            all == local_views(locals@),
            names@ == vars_among(all, i as int),
        decreases locals@.len() - i,
    {
        assert(all[i as int] == locals@[i as int]@);
        collect_vars(&locals[i].ty, &mut names);
        i = i + 1;
    }
    names
}

/// Whether a name has a candidate of a type.
pub open spec fn has_local(locals: Seq<Local>, name: Seq<char>, ty: Ty, i: int) -> bool
    decreases locals.len() - i,
{
    0 <= i < locals.len() && ((locals[i].name == name && locals[i].ty == ty) || has_local(
        locals,
        name,
        ty,
        i + 1,
    ))
}

pub open spec fn with_local(locals: Seq<Local>, name: Seq<char>, ty: Ty) -> Result<
    Seq<Local>,
    Failure,
> {
    if has_local(locals, name, ty, 0) {
        Err(Failure::Type("duplicate visible overload "@ + name + ": "@ + ty_text(ty)))
    } else {
        Ok(locals.push(Local { name, ty, binders: Seq::empty() }))
    }
}

/// Adds a candidate without binders.
pub fn add_local(locals: &mut Vec<LocalCandidate>, name: String, ty: MagType) -> (result: Result<
    (),
    MagError,
>)
    ensures
        match (result, with_local(local_views(old(locals)@), name@, ty@)) {
            (Ok(_), Ok(view)) => local_views(final(locals)@) == view,
            (Err(error), Err(failure)) => error@ == failure && final(locals)@ == old(locals)@,
            _ => false,
        },
{
    let ghost all = local_views(locals@);
    let mut i: usize = 0;
    while i < locals.len()
        invariant
            i <= locals@.len(),
            locals@ == old(locals)@,
            all == local_views(locals@),
            has_local(all, name@, ty@, 0) == has_local(all, name@, ty@, i as int),
        decreases locals@.len() - i,
    {
        assert(all[i as int] == locals@[i as int]@);
        if same_text(locals[i].name.as_str(), name.as_str()) && locals[i].ty.same(&ty) {
            let ty = ty.text();
            return Err(
                MagError::Type(cat4("duplicate visible overload ", name.as_str(), ": ", ty.as_str())),
            );
        }
        i = i + 1;
    }
    let binders: Vec<String> = Vec::new();
    let added = LocalCandidate { name, ty, generic_binders: binders };
    assert(texts(binders@) =~= Seq::<Seq<char>>::empty());
    locals.push(added);
    assert(local_views(locals@) =~= all.push(added@));
    Ok(())
}

/// The candidates among the first `n` that are no functions.
pub open spec fn data_locals(locals: Seq<Local>, n: int) -> Seq<Local>
    decreases n,
{
    if n <= 0 {
        Seq::empty()
    } else if locals[n - 1].ty is Function {
        data_locals(locals, n - 1)
    } else {
        data_locals(locals, n - 1).push(locals[n - 1])
    }
}

pub open spec fn local_tys(locals: Seq<Local>) -> Seq<Ty> {
    Seq::new(locals.len(), |i: int| locals[i].ty)
}

/// The type of a name.
pub open spec fn name_typed(world: World, locals: Seq<Local>, name: Seq<char>) -> Result<
    Ty,
    Failure,
> {
    let found = locals_of(locals, name);
    if found.len() == 0 {
        match looked_up(world, name) {
            Some(value) => match type_of(value) {
                Some(ty) => Ok(ty),
                None => Err(Failure::Unresolved(name)),
            },
            None => Err(Failure::Unresolved(name)),
        }
    } else if found.len() == 1 {
        Ok(found[0].ty)
    } else {
        let data = data_locals(found, found.len() as int);
        if data.len() == 1 {
            Ok(data[0].ty)
        } else {
            Err(
                Failure::Type(
                    "ambiguous overload "@ + name + "; candidates: "@ + joined(
                        ty_texts(local_tys(found)),
                        ", "@,
                    ),
                ),
            )
        }
    }
}

fn local_types(locals: &Vec<LocalCandidate>) -> (types: Vec<MagType>)
    ensures
        tys(types@) == local_tys(local_views(locals@)),
{
    let mut types: Vec<MagType> = Vec::new();
    let mut i: usize = 0;
    while i < locals.len()
        invariant
            i <= locals@.len(),
            types@.len() == i,
            forall|j: int| 0 <= j < i ==> (#[trigger] types@[j])@ == locals@[j].ty@,
        decreases locals@.len() - i,
    {
        types.push(locals[i].ty.copy());
        i = i + 1;
    }
    assert(tys(types@) =~= local_tys(local_views(locals@)));
    types
}

fn infer_name(env: &Env, locals: &Vec<LocalCandidate>, name: &str) -> (result: Result<
    MagType,
    MagError,
>)
    ensures
        typing(result) == name_typed(env@, local_views(locals@), name@),
{
    let found = local_candidates(locals, name);
    let ghost all = local_views(found@);
    assert(all.len() == found@.len());
    if found.len() == 0 {
        return match env.lookup(name) {
            Ok(value) => match value_type(value) {
                Some(ty) => Ok(ty),
                None => Err(MagError::Unresolved(name.to_owned())),
            },
            Err(error) => Err(error),
        };
    }
    if found.len() == 1 {
        assert(all[0] == found@[0]@);
        return Ok(found[0].ty.copy());
    }
    let mut data: Vec<LocalCandidate> = Vec::new();
    assert(local_views(data@) =~= data_locals(all, 0));
    let mut i: usize = 0;
    while i < found.len()
        invariant
            i <= found@.len(),
            all == local_views(found@),
            local_views(data@) == data_locals(all, i as int),
        decreases found@.len() - i,
    {
        assert(all[i as int] == found@[i as int]@);
        match &found[i].ty {
            MagType::Function(_, _) => {},
            _ => {
                let ghost before = local_views(data@);
                let added = found[i].copy();
                data.push(added);
                assert(local_views(data@) =~= before.push(added@));
            },
        }
        i = i + 1;
    }
    assert(local_views(data@).len() == data@.len());
    if data.len() == 1 {
        assert(local_views(data@)[0] == data@[0]@);
        return Ok(data[0].ty.copy());
    }
    let types = local_types(&found);
    let parts = type_texts(&types);
    let list = join_texts(&parts, ", ");
    Err(MagError::Type(cat4("ambiguous overload ", name, "; candidates: ", list.as_str())))
}

// ---------------------------------------------------------------------------
// Functions
// ---------------------------------------------------------------------------

pub open spec fn parameter_types(params: Seq<(Seq<char>, TypeTerm)>) -> Seq<TypeTerm> {
    Seq::new(params.len(), |i: int| params[i].1)
}

/// The type that a function is written with, where some variables are in scope.
pub open spec fn written_type(world: World, scope: Set<Seq<char>>, function: Lambda) -> Result<
    Ty,
    Failure,
> {
    let inner = scope.union(function.type_params.to_set());
    match resolved_from(world, parameter_types(function.params), inner, 0) {
        Err(failure) => Err(failure),
        Ok(params) => match resolved(world, function.result, inner) {
            Err(failure) => Err(failure),
            Ok(result) => Ok(ty_function(params, result)),
        },
    }
}

pub fn resolve_parameters(env: &Env, params: &Vec<Parameter>, vars: &Names) -> (result: Result<
    Vec<MagType>,
    MagError,
>)
    ensures
        match (result, resolved_from(env@, parameter_types(parameter_terms(params@)), vars@, 0)) {
            (Ok(types), Ok(view)) => tys(types@) == view && types@.len() == params@.len(),
            (Err(error), Err(failure)) => error@ == failure,
            _ => false,
        },
{
    let ghost all = parameter_types(parameter_terms(params@));
    let mut types: Vec<MagType> = Vec::new();
    let mut i: usize = 0;
    while i < params.len()
        invariant
            i <= params@.len(),
            types@.len() == i,
            all == parameter_types(parameter_terms(params@)),
            match resolved_from(env@, all, vars@, 0) {
                Ok(view) => match resolved_from(env@, all, vars@, i as int) {
                    Ok(rest) => view == tys(types@) + rest,
                    Err(_) => false,
                },
                Err(failure) => resolved_from(env@, all, vars@, i as int) == Err::<
                    Seq<Ty>,
                    Failure,
                >(failure),
            },
        decreases params@.len() - i,
    {
        assert(all[i as int] == params@[i as int].ty@);
        match resolve_type(env, &params[i].ty, vars) {
            Err(error) => return Err(error),
            Ok(ty) => {
                let ghost before = tys(types@);
                let ghost added = ty@;
                types.push(ty);
                proof {
                    assert(tys(types@) =~= before.push(added));
                    if let Ok(rest) = resolved_from(env@, all, vars@, i + 1) {
                        assert(before + (seq![added] + rest) =~= before.push(added) + rest);
                    }
                }
            },
        }
        i = i + 1;
    }
    assert(tys(types@) + Seq::<Ty>::empty() =~= tys(types@));
    Ok(types)
}

pub fn infer_fn_signature_scoped(env: &Env, scoped_type_vars: &Names, function: &Function) -> (result:
    Result<MagType, MagError>)
    ensures
        typing(result) == written_type(env@, scoped_type_vars@, function@),
{
    let mut vars = scoped_type_vars.copy();
    vars.extend_texts(&function.type_params);
    match resolve_parameters(env, &function.params, &vars) {
        Err(error) => Err(error),
        Ok(params) => match resolve_type(env, &function.result, &vars) {
            Err(error) => Err(error),
            Ok(result) => Ok(MagType::Function(params, Box::new(result))),
        },
    }
}

// ---------------------------------------------------------------------------
// Signatures of a name
// ---------------------------------------------------------------------------

/// The signatures among the first `n` candidates.
pub open spec fn local_signatures(locals: Seq<Local>, n: int) -> Seq<Sig>
    decreases n,
{
    if n <= 0 {
        Seq::empty()
    } else {
        match locals[n - 1].ty {
            Ty::Function(params, result) => local_signatures(locals, n - 1).push(
                Sig { binders: locals[n - 1].binders, params, result: *result },
            ),
            _ => local_signatures(locals, n - 1),
        }
    }
}

pub open spec fn has_sig(list: Seq<Sig>, sig: Sig, i: int) -> bool
    decreases list.len() - i,
{
    0 <= i < list.len() && (list[i] == sig || has_sig(list, sig, i + 1))
}

pub open spec fn with_sig(list: Seq<Sig>, sig: Sig) -> Seq<Sig> {
    if has_sig(list, sig, 0) {
        list
    } else {
        list.push(sig)
    }
}

/// A list of signatures with those of the first `n` of some ready bindings.
pub open spec fn with_bound(world: World, list: Seq<Sig>, ids: Seq<BindingId>, n: int) -> Seq<Sig>
    decreases n,
{
    if n <= 0 {
        list
    } else {
        let before = with_bound(world, list, ids, n - 1);
        match ready_value(world, ids[n - 1]) {
            Some(Val::Fn(function)) => with_sig(
                before,
                Sig {
                    binders: function.type_params,
                    params: function.param_types,
                    result: function.return_type,
                },
            ),
            _ => before,
        }
    }
}

/// The signatures that a name stands for.
pub open spec fn signatures_of(world: World, locals: Seq<Local>, name: Seq<char>) -> Seq<Sig> {
    let found = locals_of(locals, name);
    let ids = candidates(world, name);
    with_bound(world, local_signatures(found, found.len() as int), ids, ids.len() as int)
}

/// Whether one of the first `n` bindings is a function of the language.
pub open spec fn any_builtin(world: World, ids: Seq<BindingId>, n: int) -> bool
    decreases n,
{
    n > 0 && ((match ready_value(world, ids[n - 1]) {
        Some(Val::BuiltinFn(_)) => true,
        _ => false,
    }) || any_builtin(world, ids, n - 1))
}

pub open spec fn names_builtin(world: World, name: Seq<char>) -> bool {
    let ids = candidates(world, name);
    any_builtin(world, ids, ids.len() as int)
}

fn is_builtin(env: &Env, name: &str) -> (yes: bool)
    ensures
        yes == names_builtin(env@, name@),
{
    let ids = env.lookup_candidates(name);
    let mut i: usize = ids.len();
    while i > 0
        invariant
            i <= ids@.len(),
            ids@ == candidates(env@, name@),
            any_builtin(env@, ids@, ids@.len() as int) == any_builtin(env@, ids@, i as int),
        decreases i,
    {
        i = i - 1;
        if let Some(Value::BuiltinFn(_)) = env.ready_binding(ids[i]) {
            return true;
        }
    }
    false
}

fn add_signature(list: &mut Vec<Signature>, signature: Signature)
    ensures
        sigs(final(list)@) == with_sig(sigs(old(list)@), signature@),
{
    let ghost all = sigs(list@);
    let mut i: usize = 0;
    while i < list.len()
        invariant
            i <= list@.len(),
            list@ == old(list)@,
            all == sigs(list@),
            has_sig(all, signature@, 0) == has_sig(all, signature@, i as int),
        decreases list@.len() - i,
    {
        assert(all[i as int] == list@[i as int]@);
        if list[i].same(&signature) {
            return;
        }
        i = i + 1;
    }
    list.push(signature);
    assert(sigs(list@) =~= all.push(signature@));
}

pub fn visible_signatures(env: &Env, locals: &Vec<LocalCandidate>, name: &str) -> (list: Vec<
    Signature,
>)
    ensures
        sigs(list@) == signatures_of(env@, local_views(locals@), name@),
{
    let found = local_candidates(locals, name);
    let ghost all = local_views(found@);
    assert(all.len() == found@.len());
    let mut list: Vec<Signature> = Vec::new();
    assert(sigs(list@) =~= local_signatures(all, 0));
    let mut i: usize = 0;
    while i < found.len()
        invariant
            i <= found@.len(),
            all == local_views(found@),
            sigs(list@) == local_signatures(all, i as int),
        decreases found@.len() - i,
    {
        assert(all[i as int] == found@[i as int]@);
        if let MagType::Function(params, result) = &found[i].ty {
            let ghost before = sigs(list@);
            let added = Signature {
                binders: copy_texts(&found[i].generic_binders),
                params: copy_types(params),
                result: result.copy(),
            };
            list.push(added);
            assert(sigs(list@) =~= before.push(added@));
        }
        i = i + 1;
    }
    let ghost first = sigs(list@);
    let ids = env.lookup_candidates(name);
    let mut i: usize = 0;
    while i < ids.len()
        invariant
            i <= ids@.len(),
            sigs(list@) == with_bound(env@, first, ids@, i as int),
        decreases ids@.len() - i,
    {
        if let Some(Value::Fn(function)) = env.ready_binding(ids[i]) {
            let f: &FnValue = function;
            assert(f@.param_types == tys(f.param_types@));
            add_signature(
                &mut list,
                Signature {
                    binders: copy_texts(&f.type_params),
                    params: copy_types(&f.param_types),
                    result: f.return_type.copy(),
                },
            );
        }
        i = i + 1;
    }
    list
}

pub open spec fn all_concrete(list: Seq<Sig>, i: int) -> bool
    decreases list.len() - i,
{
    0 <= i < list.len() ==> (list[i].binders.len() == 0 && all_concrete(list, i + 1))
}

fn none_generic(list: &Vec<Signature>) -> (yes: bool)
    ensures
        yes == all_concrete(sigs(list@), 0),
{
    let ghost all = sigs(list@);
    let mut i: usize = 0;
    while i < list.len()
        invariant
            i <= list@.len(),
            all == sigs(list@),
            all_concrete(all, 0) == all_concrete(all, i as int),
        decreases list@.len() - i,
    {
        assert(all[i as int] == list@[i as int]@);
        assert(texts(list@[i as int].binders@).len() == list@[i as int].binders@.len());
        if list[i].binders.len() != 0 {
            return false;
        }
        i = i + 1;
    }
    true
}

// ---------------------------------------------------------------------------
// Expressions
// ---------------------------------------------------------------------------

/// A state of checking and the types that it came to.
pub ghost struct Typings {
    pub world: World,
    pub result: Result<Seq<Ty>, Failure>,
}

pub open spec fn settled(world: World, result: Result<Ty, Failure>) -> Typing {
    Typing { world, result }
}

/// The text of the second argument where it is a literal.
pub open spec fn literal_key(args: Seq<Term>) -> Option<Seq<char>> {
    if args.len() > 1 {
        match args[1] {
            Term::Str(text) => Some(text),
            Term::Keyword(text) => Some(text),
            _ => None,
        }
    } else {
        None
    }
}

pub open spec fn if_result(world: World, left: Ty, right: Ty) -> Result<Ty, Failure> {
    if left is Never {
        Ok(right)
    } else if right is Never {
        Ok(left)
    } else {
        match fits_alone(world, left, right) {
            Ok(_) => Ok(right),
            Err(_) => Err(
                Failure::Type(
                    "if branches must return one compatible type, got "@ + ty_text(left)
                        + " and "@ + ty_text(right),
                ),
            ),
        }
    }
}

/// How many candidates of a name fit a type, among the first `n`.
pub open spec fn locals_fitting(world: World, locals: Seq<Local>, ty: Ty, n: int) -> nat
    decreases n,
{
    if n <= 0 {
        0
    } else {
        locals_fitting(world, locals, ty, n - 1) + (if fits_alone(world, locals[n - 1].ty, ty)
            is Ok {
            1nat
        } else {
            0nat
        })
    }
}

/// Whether a value may be taken as a type: only names with several candidates
/// are looked at.
pub open spec fn ascription(world: World, locals: Seq<Local>, value: Term, target: Ty) -> Result<
    (),
    Failure,
> {
    match value {
        Term::Name(path) => {
            let name = path_text(path);
            let found = locals_of(locals, name);
            if found.len() > 1 {
                let count = locals_fitting(world, found, target, found.len() as int);
                if count == 1 {
                    Ok(())
                } else if count == 0 {
                    Err(Failure::Type("no overload "@ + name + " matches "@ + ty_text(target)))
                } else {
                    Err(Failure::Type("ambiguous overload "@ + name + " for "@ + ty_text(target)))
                }
            } else if candidates(world, name).len() > 1 {
                match id_by_type(world, name, target) {
                    Ok(_) => Ok(()),
                    Err(failure) => Err(failure),
                }
            } else {
                Ok(())
            }
        },
        _ => Ok(()),
    }
}

/// The type of an expression.
pub open spec fn inferred(world: World, locals: Seq<Local>, term: Term) -> Typing
    decreases term, 1int,
{
    match term {
        Term::Unit => settled(world, Ok(Ty::Unit)),
        Term::Bool(_) => settled(world, Ok(Ty::Bool)),
        Term::Int(_) => settled(world, Ok(Ty::Int)),
        Term::Float(_) => settled(world, Ok(Ty::Float)),
        Term::Str(_) => settled(world, Ok(Ty::String)),
        Term::Keyword(_) => settled(world, Ok(Ty::String)),
        Term::Name(path) => settled(world, name_typed(world, locals, path_text(path))),
        Term::Vector(items) => if items.len() == 0 {
            settled(world, Ok(Ty::EmptyList))
        } else {
            let first = inferred(world, locals, items[0]);
            match first.result {
                Err(_) => first,
                Ok(ty) => inferred_items(first.world, locals, items, 1, ty),
            }
        },
        Term::Fields(_) => settled(
            world,
            Err(
                Failure::Type(
                    "standalone record values are unsupported; use a named type or Map"@,
                ),
            ),
        ),
        Term::If(condition, then_branch, else_branch) => {
            let test = inferred(world, locals, *condition);
            match test.result {
                Err(_) => test,
                Ok(ty) => match fitted(test.world, ty, Ty::Bool) {
                    Err(failure) => settled(test.world, Err(failure)),
                    Ok(_) => {
                        let left = inferred(test.world, locals, *then_branch);
                        match left.result {
                            Err(_) => left,
                            Ok(left_type) => {
                                let right = inferred(left.world, locals, *else_branch);
                                match right.result {
                                    Err(_) => right,
                                    Ok(right_type) => settled(
                                        right.world,
                                        if_result(right.world, left_type, right_type),
                                    ),
                                }
                            },
                        }
                    },
                },
            }
        },
        Term::Construct(owner, constructor, payload) => match resolved(
            world,
            owner,
            local_vars(locals),
        ) {
            Err(failure) => settled(world, Err(failure)),
            Ok(owner) => match constructor_named(world, owner, constructor) {
                Err(failure) => settled(world, Err(failure)),
                Ok(found) => {
                    let against = inferred_against(world, locals, *payload, found.payload);
                    match against.result {
                        Err(_) => against,
                        Ok(_) => settled(against.world, Ok(owner)),
                    }
                },
            },
        },
        Term::Match(value, arms) => {
            let owner = inferred(world, locals, *value);
            match owner.result {
                Err(_) => owner,
                Ok(ty) => match constructors_of(owner.world, ty) {
                    Err(failure) => settled(owner.world, Err(failure)),
                    Ok(list) => inferred_arms(
                        owner.world,
                        locals,
                        ty,
                        list,
                        arms,
                        0,
                        Seq::empty(),
                        None,
                    ),
                },
            }
        },
        Term::Ascribe(target, value) => match resolved(world, target, local_vars(locals)) {
            Err(failure) => settled(world, Err(failure)),
            Ok(target) => match ascription(world, locals, *value, target) {
                Err(failure) => settled(world, Err(failure)),
                Ok(_) => settled(world, Ok(target)),
            },
        },
        Term::Annotate(target, value) => match resolved(world, target, local_vars(locals)) {
            Err(failure) => settled(world, Err(failure)),
            Ok(target) => if *value is Construct {
                settled(world, Ok(target))
            } else {
                inferred_against(world, locals, *value, target)
            },
        },
        Term::TypeTag(target) => match resolved(world, target, local_vars(locals)) {
            Err(failure) => settled(world, Err(failure)),
            Ok(target) => settled(world, Ok(ty_tag(target))),
        },
        Term::Function(function) => settled(
            world,
            written_type(world, local_vars(locals), *function),
        ),
        Term::Call(_, _, _) => inferred_call(world, locals, term),
        Term::Invalid(message) => settled(world, Err(Failure::Type(message))),
    }
}

/// The type of a list whose items from index `i` on have to fit a type.
pub open spec fn inferred_items(world: World, locals: Seq<Local>, items: Seq<Term>, i: int, ty: Ty) -> Typing
    decreases items, 0int, items.len() - i,
{
    if i < 0 || i >= items.len() {
        settled(world, Ok(ty_list(ty)))
    } else {
        let item = inferred(world, locals, items[i]);
        match item.result {
            Err(_) => item,
            Ok(item_type) => match fitted(item.world, item_type, ty) {
                Err(failure) => settled(item.world, Err(failure)),
                Ok(_) => inferred_items(item.world, locals, items, i + 1, ty),
            },
        }
    }
}

pub open spec fn term_names(fields: Seq<(Seq<char>, Term)>) -> Seq<Seq<char>> {
    Seq::new(fields.len(), |i: int| fields[i].0)
}

pub open spec fn type_names(fields: Seq<(Seq<char>, Ty)>) -> Seq<Seq<char>> {
    Seq::new(fields.len(), |i: int| fields[i].0)
}

/// Whether names are those of some fields, each once.
pub open spec fn exactly_names(written: Seq<Seq<char>>, expected: Seq<Seq<char>>) -> bool {
    &&& written.no_duplicates()
    &&& forall|name: Seq<char>| #[trigger] written.contains(name) <==> expected.contains(name)
}

/// The expected type, if an expression fits it. Only here fields make a record.
pub open spec fn inferred_against(world: World, locals: Seq<Local>, term: Term, expected: Ty) -> Typing
    decreases term, 2int,
{
    match term {
        Term::Fields(fields) => match record_fields(world, expected) {
            None => settled(
                world,
                Err(Failure::Type("named field literal cannot construct "@ + ty_text(expected))),
            ),
            Some(wanted) => if !exactly_names(term_names(fields), type_names(wanted)) {
                settled(
                    world,
                    Err(
                        Failure::Type("named field literal must exactly match "@ + ty_text(expected)),
                    ),
                )
            } else {
                inferred_fields(world, locals, fields, wanted, expected, 0)
            },
        },
        _ => {
            let actual = inferred(world, locals, term);
            match actual.result {
                Err(_) => actual,
                Ok(ty) => match fitted(actual.world, ty, expected) {
                    Err(failure) => settled(actual.world, Err(failure)),
                    Ok(_) => settled(actual.world, Ok(expected)),
                },
            }
        },
    }
}

pub open spec fn inferred_fields(
    world: World,
    locals: Seq<Local>,
    fields: Seq<(Seq<char>, Term)>,
    wanted: Seq<(Seq<char>, Ty)>,
    expected: Ty,
    i: int,
) -> Typing
    decreases fields, 0int, fields.len() - i,
{
    if i < 0 || i >= fields.len() {
        settled(world, Ok(expected))
    } else {
        let actual = inferred(world, locals, fields[i].1);
        match actual.result {
            Err(_) => actual,
            Ok(ty) => match field_at(wanted, fields[i].0, 0) {
                None => settled(
                    actual.world,
                    Err(
                        Failure::Type(
                            "unexpected field "@ + fields[i].0 + " for "@ + ty_text(expected),
                        ),
                    ),
                ),
                Some(field) => match fitted(actual.world, ty, field) {
                    Err(failure) => settled(actual.world, Err(failure)),
                    Ok(_) => inferred_fields(
                        actual.world,
                        locals,
                        fields,
                        wanted,
                        expected,
                        i + 1,
                    ),
                },
            },
        }
    }
}

/// The constructor that a pattern names, with the type of its payload.
pub open spec fn arm_constructor(
    world: World,
    scope: Set<Seq<char>>,
    owner: Ty,
    pattern: Seq<Seq<char>>,
) -> Result<Constructor, Failure> {
    let named = match path_owner(pattern) {
        None => pattern_constructor(owner, None, path_last(pattern)),
        Some(path) => match resolved(world, TypeTerm::Name(path), scope) {
            Err(failure) => Err(failure),
            Ok(ty) => pattern_constructor(owner, Some(ty), path_last(pattern)),
        },
    };
    match named {
        Err(failure) => Err(failure),
        Ok(name) => constructor_named(world, owner, name),
    }
}

/// The type of a match with one more arm.
pub open spec fn arm_result(world: World, current: Option<Ty>, body: Ty) -> Result<Ty, Failure> {
    match current {
        None => Ok(body),
        Some(ty) => if ty is Never && !(body is Never) {
            Ok(body)
        } else {
            match fits_alone(world, body, ty) {
                Ok(_) => Ok(ty),
                Err(_) => Err(
                    Failure::Type(
                        "match arms must return one compatible type, got "@ + ty_text(ty)
                            + " and "@ + ty_text(body),
                    ),
                ),
            }
        },
    }
}

/// The type of a match whose arms before index `i` are checked.
pub open spec fn inferred_arms(
    world: World,
    locals: Seq<Local>,
    owner: Ty,
    list: Seq<Constructor>,
    arms: Seq<Arm>,
    i: int,
    seen: Seq<ConstructorId>,
    current: Option<Ty>,
) -> Typing
    decreases arms, 0int, arms.len() - i,
{
    if i < 0 || i >= arms.len() {
        match exhaustion(list, seen) {
            Err(failure) => settled(world, Err(failure)),
            Ok(_) => settled(
                world,
                Ok(
                    match current {
                        Some(ty) => ty,
                        None => Ty::Unit,
                    },
                ),
            ),
        }
    } else {
        match arm_constructor(world, local_vars(locals), owner, arms[i].pattern) {
            Err(failure) => settled(world, Err(failure)),
            Ok(constructor) => if seen.contains(constructor.id) {
                settled(
                    world,
                    Err(Failure::Type("duplicate match arm for "@ + path_text(arms[i].pattern))),
                )
            } else {
                match with_local(locals, arms[i].binding, constructor.payload) {
                    Err(failure) => settled(world, Err(failure)),
                    Ok(inner) => {
                        let body = inferred(world, inner, arms[i].body);
                        match body.result {
                            Err(_) => body,
                            Ok(ty) => match arm_result(body.world, current, ty) {
                                Err(failure) => settled(body.world, Err(failure)),
                                Ok(next) => inferred_arms(
                                    body.world,
                                    locals,
                                    owner,
                                    list,
                                    arms,
                                    i + 1,
                                    seen.push(constructor.id),
                                    Some(next),
                                ),
                            },
                        }
                    },
                }
            },
        }
    }
}

/// The types of expressions from index `i` on.
pub open spec fn inferred_from(world: World, locals: Seq<Local>, list: Seq<Term>, i: int) -> Typings
    decreases list, 0int, list.len() - i,
{
    if i < 0 || i >= list.len() {
        Typings { world, result: Ok(Seq::empty()) }
    } else {
        let first = inferred(world, locals, list[i]);
        match first.result {
            Err(failure) => Typings { world: first.world, result: Err(failure) },
            Ok(ty) => {
                let rest = inferred_from(first.world, locals, list, i + 1);
                Typings {
                    world: rest.world,
                    result: match rest.result {
                        Err(failure) => Err(failure),
                        Ok(types) => Ok(seq![ty] + types),
                    },
                }
            },
        }
    }
}

/// The type of a call of a function of the language whose arguments before index
/// `i`, of `count`, have passed.
pub open spec fn inferred_rule(
    world: World,
    locals: Seq<Local>,
    builtin: Builtin,
    args: Seq<Term>,
    count: int,
    types: Seq<Ty>,
    i: int,
) -> Typing
    decreases args, 0int, count - i,
{
    if i < 0 || i >= count || i >= args.len() {
        settled(world, Ok(call_result(world, builtin, types, literal_key(args))))
    } else {
        let argument = inferred(world, locals, args[i]);
        match argument.result {
            Err(_) => argument,
            Ok(ty) => {
                let step = rule_step(
                    argument.world,
                    builtin,
                    i,
                    types.push(ty),
                    literal_key(args),
                );
                match step.result {
                    Err(failure) => settled(step.world, Err(failure)),
                    Ok(_) => inferred_rule(
                        step.world,
                        locals,
                        builtin,
                        args,
                        count,
                        types.push(ty),
                        i + 1,
                    ),
                }
            },
        }
    }
}

/// The type of a call of a function that the language provides.
pub open spec fn inferred_builtin(world: World, locals: Seq<Local>, name: Seq<char>, args: Seq<Term>) -> Typing
    decreases args, 1int,
{
    match builtin_of(name) {
        None => settled(world, Err(Failure::Type("no type rule for builtin "@ + name))),
        Some(builtin) => match typed_arguments(builtin, args.len()) {
            Err(failure) => settled(world, Err(failure)),
            Ok(count) => inferred_rule(
                world,
                locals,
                builtin,
                args,
                count as int,
                Seq::empty(),
                0,
            ),
        },
    }
}

pub open spec fn name_of(term: Term) -> Option<Seq<char>> {
    match term {
        Term::Name(path) => Some(path_text(path)),
        _ => None,
    }
}

/// The type of a call.
pub open spec fn inferred_call(world: World, locals: Seq<Local>, call: Term) -> Typing
    decreases call, 0int,
{
    match call {
        Term::Call(callee, explicit, args) => {
            let name = match name_of(*callee) {
                Some(name) => name,
                None => Seq::empty(),
            };
            let list = signatures_of(world, locals, name);
            if name_of(*callee) is Some && list.len() != 0 {
                if explicit is Some && all_concrete(list, 0) {
                    settled(
                        world,
                        Err(
                            Failure::Type(
                                name
                                    + " is not a generic function and does not accept explicit type arguments"@,
                            ),
                        ),
                    )
                } else {
                    let arguments = inferred_from(world, locals, args, 0);
                    match arguments.result {
                        Err(failure) => settled(arguments.world, Err(failure)),
                        Ok(types) => {
                            let found = preferred(
                                signature_results(
                                    arguments.world,
                                    list,
                                    explicit,
                                    types,
                                    local_vars(locals),
                                    0,
                                ),
                            );
                            if found.len() == 1 {
                                settled(arguments.world, Ok(found[0].1))
                            } else if found.len() != 0 {
                                settled(
                                    arguments.world,
                                    Err(
                                        Failure::Type("ambiguous overload "@ + name + " for call"@),
                                    ),
                                )
                            } else if names_builtin(world, name) && explicit is None {
                                inferred_builtin(arguments.world, locals, name, args)
                            } else {
                                settled(
                                    arguments.world,
                                    Err(
                                        Failure::Type("no overload "@ + name + " matches call"@),
                                    ),
                                )
                            }
                        },
                    }
                }
            } else if name_of(*callee) is Some && names_builtin(world, name) && explicit is None {
                inferred_builtin(world, locals, name, args)
            } else if explicit is Some {
                settled(
                    world,
                    Err(
                        Failure::Type(
                            "explicit type arguments require an immediate call to a named generic function"@,
                        ),
                    ),
                )
            } else {
                let callable = inferred(world, locals, *callee);
                match callable.result {
                    Err(_) => callable,
                    Ok(Ty::Function(params, result)) => if params.len() != args.len() {
                        settled(
                            callable.world,
                            Err(
                                Failure::Type(
                                    "call expects "@ + decimal(params.len()) + " arguments, got "@
                                        + decimal(args.len()),
                                ),
                            ),
                        )
                    } else {
                        let arguments = inferred_from(callable.world, locals, args, 0);
                        match arguments.result {
                            Err(failure) => settled(arguments.world, Err(failure)),
                            Ok(types) => {
                                let fit = fit_all(
                                    arguments.world,
                                    types,
                                    params,
                                    Map::empty(),
                                    None,
                                );
                                match fit.result {
                                    Err(message) => settled(
                                        arguments.world,
                                        Err(Failure::Type(message)),
                                    ),
                                    Ok(_) => settled(
                                        arguments.world,
                                        Ok(substituted(*result, fit.subst)),
                                    ),
                                }
                            },
                        }
                    },
                    Ok(other) => settled(
                        callable.world,
                        Err(Failure::Type("cannot call "@ + ty_text(other))),
                    ),
                }
            }
        },
        _ => settled(world, Ok(Ty::Unit)),
    }
}

fn infer_if(env: &Env, left: MagType, right: MagType) -> (result: Result<MagType, MagError>)
    ensures
        typing(result) == if_result(env@, left@, right@),
{
    match &left {
        MagType::Never => return Ok(right),
        _ => {},
    }
    match &right {
        MagType::Never => return Ok(left),
        _ => {},
    }
    match check_compatible(env, &left, &right) {
        Ok(_) => Ok(right),
        Err(_) => {
            let left = left.text();
            let right = right.text();
            Err(
                MagError::Type(
                    cat4(
                        "if branches must return one compatible type, got ",
                        left.as_str(),
                        " and ",
                        right.as_str(),
                    ),
                ),
            )
        },
    }
}

fn count_fitting(env: &Env, locals: &Vec<LocalCandidate>, ty: &MagType) -> (count: usize)
    ensures
        count == locals_fitting(env@, local_views(locals@), ty@, locals@.len() as int),
{
    let ghost all = local_views(locals@);
    let mut count: usize = 0;
    let mut i: usize = 0;
    while i < locals.len()
        invariant
            i <= locals@.len(),
            count <= i,
            all == local_views(locals@),
            count == locals_fitting(env@, all, ty@, i as int),
        decreases locals@.len() - i,
    {
        assert(all[i as int] == locals@[i as int]@);
        if check_compatible(env, &locals[i].ty, ty).is_ok() {
            count = count + 1;
        }
        i = i + 1;
    }
    count
}

fn check_ascription(env: &Env, locals: &Vec<LocalCandidate>, value: &Expr, target: &MagType) -> (result:
    Result<(), MagError>)
    ensures
        verdict(result) == ascription(env@, local_views(locals@), value@, target@),
{
    match value {
        Expr::Name(path) => {
            let name = path.text();
            let found = local_candidates(locals, name.as_str());
            assert(local_views(found@).len() == found@.len());
            if found.len() > 1 {
                let count = count_fitting(env, &found, target);
                if count == 1 {
                    return Ok(());
                }
                let text = target.text();
                if count == 0 {
                    return Err(
                        MagError::Type(
                            cat4("no overload ", name.as_str(), " matches ", text.as_str()),
                        ),
                    );
                }
                return Err(
                    MagError::Type(
                        cat4("ambiguous overload ", name.as_str(), " for ", text.as_str()),
                    ),
                );
            }
            if env.lookup_candidates(name.as_str()).len() > 1 {
                return match lookup_by_type(env, name.as_str(), target) {
                    Ok(_) => Ok(()),
                    Err(error) => Err(error),
                };
            }
            Ok(())
        },
        _ => Ok(()),
    }
}

pub fn find_arm_constructor(env: &Env, vars: &Names, owner: &MagType, pattern: &NamePath) -> (result:
    Result<ConstructorDecl, MagError>)
    ensures
        match (result, arm_constructor(env@, vars@, owner@, pattern@)) {
            (Ok(constructor), Ok(view)) => constructor@ == view,
            (Err(error), Err(failure)) => error@ == failure,
            _ => false,
        },
{
    let last = pattern.last();
    let named = match pattern.owner() {
        None => match_constructor_name(owner, None, last),
        Some(path) => match resolve_type(env, &Type::Name(path), vars) {
            Err(error) => return Err(error),
            Ok(ty) => match_constructor_name(owner, Some(&ty), last),
        },
    };
    match named {
        Err(error) => Err(error),
        Ok(name) => instantiated_constructor(env, owner, name.as_str()),
    }
}

pub fn join_arm(env: &Env, current: Option<MagType>, body: MagType) -> (result: Result<
    MagType,
    MagError,
>)
    ensures
        typing(result) == arm_result(env@, option_ty(current), body@),
{
    match current {
        None => Ok(body),
        Some(ty) => {
            match (&ty, &body) {
                (MagType::Never, MagType::Never) => {},
                (MagType::Never, _) => return Ok(body),
                _ => {},
            }
            match check_compatible(env, &body, &ty) {
                Ok(_) => Ok(ty),
                Err(_) => {
                    let current = ty.text();
                    let body = body.text();
                    Err(
                        MagError::Type(
                            cat4(
                                "match arms must return one compatible type, got ",
                                current.as_str(),
                                " and ",
                                body.as_str(),
                            ),
                        ),
                    )
                },
            }
        },
    }
}

fn has_name(fields: &Vec<(String, Expr)>, upto: usize, name: &str) -> (found: bool)
    requires
        upto <= fields@.len(),
    ensures
        found == exists|j: int| 0 <= j < upto && (#[trigger] fields@[j]).0@ == name@,
{
    let mut i: usize = 0;
    while i < upto
        invariant
            i <= upto <= fields@.len(),
            forall|j: int| 0 <= j < i ==> (#[trigger] fields@[j]).0@ != name@,
        decreases upto - i,
    {
        if same_text(fields[i].0.as_str(), name) {
            return true;
        }
        i = i + 1;
    }
    false
}

pub fn match_names(fields: &Vec<(String, Expr)>, wanted: &Vec<(String, MagType)>) -> (same: bool)
    ensures
        same == exactly_names(term_names(field_terms(fields@)), type_names(field_types(wanted@))),
{
    let ghost written = term_names(field_terms(fields@));
    let ghost expected = type_names(field_types(wanted@));
    assert(forall|j: int| 0 <= j < fields@.len() ==> #[trigger] written[j] == fields@[j].0@);
    assert(forall|j: int| 0 <= j < wanted@.len() ==> #[trigger] expected[j] == wanted@[j].0@);
    let mut i: usize = 0;
    while i < fields.len()
        invariant
            i <= fields@.len(),
            written.len() == fields@.len(),
            expected.len() == wanted@.len(),
            written == term_names(field_terms(fields@)),
            expected == type_names(field_types(wanted@)),
            forall|j: int| 0 <= j < fields@.len() ==> #[trigger] written[j] == fields@[j].0@,
            forall|j: int| 0 <= j < wanted@.len() ==> #[trigger] expected[j] == wanted@[j].0@,
            forall|j: int, k: int|
                0 <= j < k < i ==> #[trigger] written[j] != #[trigger] written[k],
            forall|j: int| 0 <= j < i ==> expected.contains(#[trigger] written[j]),
        decreases fields@.len() - i,
    {
        let ghost at = i as int;
        assert(written[at] == fields@[at].0@);
        if has_name(fields, i, fields[i].0.as_str()) {
            proof {
                let j = choose|j: int|
                    0 <= j < i && (#[trigger] fields@[j]).0@ == fields@[at].0@;
                assert(written[j] == written[at]);
                assert(!written.no_duplicates());
            }
            return false;
        }
        if find_field(wanted, fields[i].0.as_str()).is_none() {
            proof {
                lemma_field_absent(field_types(wanted@), fields@[at].0@, 0);
                assert(written.contains(written[at]));
                assert(!expected.contains(written[at]));
            }
            return false;
        }
        proof {
            lemma_field_present(field_types(wanted@), fields@[at].0@, 0);
            assert forall|j: int, k: int| 0 <= j < k < i + 1 implies #[trigger] written[j]
                != #[trigger] written[k] by {
                if k == at {
                    assert(fields@[j].0@ == written[j]);
                }
            }
        }
        i = i + 1;
    }
    let mut i: usize = 0;
    while i < wanted.len()
        invariant
            i <= wanted@.len(),
            written.len() == fields@.len(),
            expected.len() == wanted@.len(),
            written == term_names(field_terms(fields@)),
            expected == type_names(field_types(wanted@)),
            forall|j: int| 0 <= j < fields@.len() ==> #[trigger] written[j] == fields@[j].0@,
            forall|j: int| 0 <= j < wanted@.len() ==> #[trigger] expected[j] == wanted@[j].0@,
            forall|j: int| 0 <= j < i ==> written.contains(#[trigger] expected[j]),
        decreases wanted@.len() - i,
    {
        let ghost at = i as int;
        assert(expected[at] == wanted@[at].0@);
        if !has_name(fields, fields.len(), wanted[i].0.as_str()) {
            proof {
                assert(expected.contains(expected[at]));
                assert forall|j: int| 0 <= j < written.len() implies #[trigger] written[j]
                    != expected[at] by {
                    assert(fields@[j].0@ == written[j]);
                }
                assert(!written.contains(expected[at]));
            }
            return false;
        }
        proof {
            let j = choose|j: int|
                0 <= j < fields@.len() && (#[trigger] fields@[j]).0@ == wanted@[at].0@;
            assert(written[j] == expected[at]);
        }
        i = i + 1;
    }
    true
}

proof fn lemma_field_absent(fields: Seq<(Seq<char>, Ty)>, name: Seq<char>, i: int)
    requires
        0 <= i <= fields.len(),
        field_at(fields, name, i) is None,
    ensures
        forall|j: int| i <= j < fields.len() ==> #[trigger] type_names(fields)[j] != name,
    decreases fields.len() - i,
{
    if i < fields.len() {
        lemma_field_absent(fields, name, i + 1);
    }
}

proof fn lemma_field_present(fields: Seq<(Seq<char>, Ty)>, name: Seq<char>, i: int)
    requires
        0 <= i <= fields.len(),
        field_at(fields, name, i) is Some,
    ensures
        type_names(fields).contains(name),
    decreases fields.len() - i,
{
    if i < fields.len() {
        if fields[i].0 == name {
            assert(type_names(fields)[i] == name);
        } else {
            lemma_field_present(fields, name, i + 1);
        }
    }
}

pub fn infer(env: &mut Env, locals: &Vec<LocalCandidate>, expr: &Expr) -> (result: Result<
    MagType,
    MagError,
>)
    ensures
        typed(final(env)@, result) == inferred(old(env)@, local_views(locals@), expr@),
    decreases expr, 1int,
{
    match expr {
        Expr::Unit => Ok(MagType::Unit),
        Expr::Bool(_) => Ok(MagType::Bool),
        Expr::Int(_) => Ok(MagType::Int),
        Expr::Float(_) => Ok(MagType::Float),
        Expr::Str(_) | Expr::Keyword(_) => Ok(MagType::String),
        Expr::Name(path) => {
            let name = path.text();
            infer_name(env, locals, name.as_str())
        },
        Expr::Vector(items) => infer_list(env, locals, items),
        Expr::Fields(_) => Err(
            MagError::Type(
                "standalone record values are unsupported; use a named type or Map".to_owned(),
            ),
        ),
        Expr::If { .. } => infer_conditional(env, locals, expr),
        Expr::Construct { .. } => infer_construct(env, locals, expr),
        Expr::Match { value, arms } => {
            let owner = match infer(env, locals, value) {
                Err(error) => return Err(error),
                Ok(owner) => owner,
            };
            infer_match(env, locals, &owner, arms)
        },
        Expr::Ascribe { .. } => infer_ascribe(env, locals, expr),
        Expr::Annotate { .. } => infer_annotate(env, locals, expr),
        Expr::TypeTag(target) => {
            let vars = local_variables(locals);
            match resolve_type(env, target, &vars) {
                Err(error) => Err(error),
                Ok(target) => Ok(tag(target)),
            }
        },
        Expr::Function(function) => {
            let vars = local_variables(locals);
            infer_fn_signature_scoped(env, &vars, function)
        },
        Expr::Call { .. } => infer_call(env, locals, expr),
        Expr::Invalid(message) => Err(MagError::Type(message.clone())),
    }
}

fn infer_conditional(env: &mut Env, locals: &Vec<LocalCandidate>, expr: &Expr) -> (result: Result<
    MagType,
    MagError,
>)
    requires
        expr is If,
    ensures
        typed(final(env)@, result) == inferred(old(env)@, local_views(locals@), expr@),
    decreases expr, 0int,
{
    match expr {
        Expr::If { condition, then_branch, else_branch } => {
            let test = match infer(env, locals, condition) {
                Err(error) => return Err(error),
                Ok(test) => test,
            };
            match check_compatible(env, &test, &MagType::Bool) {
                Err(error) => return Err(error),
                Ok(_) => {},
            }
            let left = match infer(env, locals, then_branch) {
                Err(error) => return Err(error),
                Ok(left) => left,
            };
            let right = match infer(env, locals, else_branch) {
                Err(error) => return Err(error),
                Ok(right) => right,
            };
            infer_if(env, left, right)
        },
        _ => Ok(MagType::Unit),
    }
}

fn infer_construct(env: &mut Env, locals: &Vec<LocalCandidate>, expr: &Expr) -> (result: Result<
    MagType,
    MagError,
>)
    requires
        expr is Construct,
    ensures
        typed(final(env)@, result) == inferred(old(env)@, local_views(locals@), expr@),
    decreases expr, 0int,
{
    match expr {
        Expr::Construct { owner, constructor, payload } => {
            let vars = local_variables(locals);
            let owner = match resolve_type(env, owner, &vars) {
                Err(error) => return Err(error),
                Ok(owner) => owner,
            };
            let found = match instantiated_constructor(env, &owner, constructor.as_str()) {
                Err(error) => return Err(error),
                Ok(found) => found,
            };
            match infer_fields_against(env, locals, payload, &found.payload) {
                Err(error) => Err(error),
                Ok(_) => Ok(owner),
            }
        },
        _ => Ok(MagType::Unit),
    }
}

fn infer_ascribe(env: &mut Env, locals: &Vec<LocalCandidate>, expr: &Expr) -> (result: Result<
    MagType,
    MagError,
>)
    requires
        expr is Ascribe,
    ensures
        typed(final(env)@, result) == inferred(old(env)@, local_views(locals@), expr@),
    decreases expr, 0int,
{
    match expr {
        Expr::Ascribe { target, value } => {
            let vars = local_variables(locals);
            let target = match resolve_type(env, target, &vars) {
                Err(error) => return Err(error),
                Ok(target) => target,
            };
            match check_ascription(env, locals, value, &target) {
                Err(error) => Err(error),
                Ok(_) => Ok(target),
            }
        },
        _ => Ok(MagType::Unit),
    }
}

fn infer_annotate(env: &mut Env, locals: &Vec<LocalCandidate>, expr: &Expr) -> (result: Result<
    MagType,
    MagError,
>)
    requires
        expr is Annotate,
    ensures
        typed(final(env)@, result) == inferred(old(env)@, local_views(locals@), expr@),
    decreases expr, 0int,
{
    match expr {
        Expr::Annotate { target, value } => {
            let vars = local_variables(locals);
            let target = match resolve_type(env, target, &vars) {
                Err(error) => return Err(error),
                Ok(target) => target,
            };
            let inner: &Expr = value;
            assert((inner@ is Construct) == (inner is Construct));
            match inner {
                Expr::Construct { .. } => Ok(target),
                _ => infer_fields_against(env, locals, inner, &target),
            }
        },
        _ => Ok(MagType::Unit),
    }
}

fn infer_list(env: &mut Env, locals: &Vec<LocalCandidate>, items: &Vec<Expr>) -> (result: Result<
    MagType,
    MagError,
>)
    ensures
        typed(final(env)@, result) == inferred(
            old(env)@,
            local_views(locals@),
            Term::Vector(terms(items@)),
        ),
    decreases items, 0int,
{
    let ghost all = terms(items@);
    let ghost around = local_views(locals@);
    assert(all.len() == items@.len());
    if items.len() == 0 {
        return Ok(MagType::EmptyList);
    }
    assert(all[0] == items@[0]@);
    let first = match infer(env, locals, &items[0]) {
        Err(error) => return Err(error),
        Ok(first) => first,
    };
    let ghost start = env@;
    let ghost whole = inferred(old(env)@, around, Term::Vector(all));
    let mut i: usize = 1;
    while i < items.len()
        invariant
            1 <= i <= items@.len(),
            all == terms(items@),
            around == local_views(locals@),
            whole == inferred(old(env)@, around, Term::Vector(all)),
            whole == inferred_items(env@, around, all, i as int, first@),
        decreases items@.len() - i,
    {
        assert(all[i as int] == items@[i as int]@);
        let ty = match infer(env, locals, &items[i]) {
            Err(error) => return Err(error),
            Ok(ty) => ty,
        };
        match check_compatible(env, &ty, &first) {
            Err(error) => return Err(error),
            Ok(_) => {},
        }
        i = i + 1;
    }
    Ok(list(first))
}

pub fn infer_fields_against(
    env: &mut Env,
    locals: &Vec<LocalCandidate>,
    expression: &Expr,
    expected: &MagType,
) -> (result: Result<MagType, MagError>)
    ensures
        typed(final(env)@, result) == inferred_against(
            old(env)@,
            local_views(locals@),
            expression@,
            expected@,
        ),
    decreases expression, 2int,
{
    match expression {
        Expr::Fields(fields) => match named_field_types(env, expected) {
            None => {
                let text = expected.text();
                Err(MagError::Type(cat2("named field literal cannot construct ", text.as_str())))
            },
            Some(wanted) => {
                if !match_names(fields, &wanted) {
                    let text = expected.text();
                    return Err(
                        MagError::Type(
                            cat2("named field literal must exactly match ", text.as_str()),
                        ),
                    );
                }
                infer_fields(env, locals, fields, &wanted, expected)
            },
        },
        _ => {
            let actual = match infer(env, locals, expression) {
                Err(error) => return Err(error),
                Ok(actual) => actual,
            };
            match check_compatible(env, &actual, expected) {
                Err(error) => Err(error),
                Ok(_) => Ok(expected.copy()),
            }
        },
    }
}

fn infer_fields(
    env: &mut Env,
    locals: &Vec<LocalCandidate>,
    fields: &Vec<(String, Expr)>,
    wanted: &Vec<(String, MagType)>,
    expected: &MagType,
) -> (result: Result<MagType, MagError>)
    ensures
        typed(final(env)@, result) == inferred_fields(
            old(env)@,
            local_views(locals@),
            field_terms(fields@),
            field_types(wanted@),
            expected@,
            0,
        ),
    decreases fields, 0int,
{
    let ghost all = field_terms(fields@);
    let ghost types = field_types(wanted@);
    let ghost around = local_views(locals@);
    let ghost whole = inferred_fields(old(env)@, around, all, types, expected@, 0);
    let mut i: usize = 0;
    while i < fields.len()
        invariant
            i <= fields@.len(),
            all == field_terms(fields@),
            types == field_types(wanted@),
            around == local_views(locals@),
            whole == inferred_fields(old(env)@, around, all, types, expected@, 0),
            whole == inferred_fields(env@, around, all, types, expected@, i as int),
        decreases fields@.len() - i,
    {
        let field = &fields[i];
        assert(all[i as int] == (fields@[i as int].0@, fields@[i as int].1@));
        let actual = match infer(env, locals, &field.1) {
            Err(error) => return Err(error),
            Ok(actual) => actual,
        };
        match find_field(wanted, field.0.as_str()) {
            None => {
                let text = expected.text();
                return Err(
                    MagError::Type(
                        cat4("unexpected field ", field.0.as_str(), " for ", text.as_str()),
                    ),
                );
            },
            Some(ty) => match check_compatible(env, &actual, &ty) {
                Err(error) => return Err(error),
                Ok(_) => {},
            },
        }
        i = i + 1;
    }
    Ok(expected.copy())
}

fn infer_match(
    env: &mut Env,
    locals: &Vec<LocalCandidate>,
    owner: &MagType,
    arms: &Vec<MatchArm>,
) -> (result: Result<MagType, MagError>)
    ensures
        typed(final(env)@, result) == (match constructors_of(old(env)@, owner@) {
            Err(failure) => settled(old(env)@, Err(failure)),
            Ok(list) => inferred_arms(
                old(env)@,
                local_views(locals@),
                owner@,
                list,
                arm_terms(arms@),
                0,
                Seq::empty(),
                None,
            ),
        }),
    decreases arms, 0int,
{
    let ghost all = arm_terms(arms@);
    let ghost around = local_views(locals@);
    let found = match adt_constructors(env, owner) {
        Err(error) => return Err(error),
        Ok(found) => found,
    };
    let ghost list = constructors(found@);
    let vars = local_variables(locals);
    let mut seen: Vec<ConstructorDeclarationId> = Vec::new();
    let mut current: Option<MagType> = None;
    let ghost whole = inferred_arms(
        old(env)@,
        around,
        owner@,
        list,
        all,
        0,
        Seq::empty(),
        None,
    );
    assert(constructor_ids(seen@) =~= Seq::<ConstructorId>::empty());
    let mut i: usize = 0;
    while i < arms.len()
        invariant
            i <= arms@.len(),
            all == arm_terms(arms@),
            around == local_views(locals@),
            vars@ == local_vars(around),
            list == constructors(found@),
            constructors_of(old(env)@, owner@) == Ok::<Seq<Constructor>, Failure>(list),
            whole == inferred_arms(
                old(env)@,
                around,
                owner@,
                list,
                all,
                0,
                Seq::empty(),
                None,
            ),
            whole == inferred_arms(
                env@,
                around,
                owner@,
                list,
                all,
                i as int,
                constructor_ids(seen@),
                option_ty(current),
            ),
        decreases arms@.len() - i,
    {
        let arm = &arms[i];
        assert(all[i as int] == arms@[i as int]@);
        assert(arm@.body == arm.body@);
        let constructor = match find_arm_constructor(env, &vars, owner, &arm.pattern) {
            Err(error) => return Err(error),
            Ok(constructor) => constructor,
        };
        if contains_constructor(&seen, &constructor.id) {
            let pattern = arm.pattern.text();
            return Err(MagError::Type(cat2("duplicate match arm for ", pattern.as_str())));
        }
        let mut inner = copy_locals(locals);
        let ConstructorDecl { id, payload } = constructor;
        match add_local(&mut inner, arm.binding.clone(), payload) {
            Err(error) => return Err(error),
            Ok(_) => {},
        }
        let body = match infer(env, &inner, &arm.body) {
            Err(error) => return Err(error),
            Ok(body) => body,
        };
        match join_arm(env, current, body) {
            Err(error) => return Err(error),
            Ok(next) => {
                current = Some(next);
            },
        }
        let ghost before = constructor_ids(seen@);
        seen.push(id);
        assert(constructor_ids(seen@) =~= before.push(id@));
        i = i + 1;
    }
    match ensure_adt_exhaustive(&found, &seen) {
        Err(error) => Err(error),
        Ok(_) => match current {
            Some(ty) => Ok(ty),
            None => Ok(MagType::Unit),
        },
    }
}

/// A state of checking and the types that it came to.
pub open spec fn typed_all(world: World, result: Result<Vec<MagType>, MagError>) -> Typings {
    Typings {
        world,
        result: match result {
            Ok(types) => Ok(tys(types@)),
            Err(error) => Err(error@),
        },
    }
}

fn infer_all(env: &mut Env, locals: &Vec<LocalCandidate>, list: &Vec<Expr>) -> (result: Result<
    Vec<MagType>,
    MagError,
>)
    ensures
        typed_all(final(env)@, result) == inferred_from(
            old(env)@,
            local_views(locals@),
            terms(list@),
            0,
        ),
        result matches Ok(types) ==> types@.len() == list@.len(),
    decreases list, 0int,
{
    let ghost all = terms(list@);
    let ghost around = local_views(locals@);
    let ghost whole = inferred_from(old(env)@, around, all, 0);
    let mut types: Vec<MagType> = Vec::new();
    let mut i: usize = 0;
    while i < list.len()
        invariant
            i <= list@.len(),
            types@.len() == i,
            all == terms(list@),
            around == local_views(locals@),
            whole == inferred_from(old(env)@, around, all, 0),
            ({
                let rest = inferred_from(env@, around, all, i as int);
                &&& whole.world == rest.world
                &&& match rest.result {
                    Ok(view) => whole.result == Ok::<Seq<Ty>, Failure>(tys(types@) + view),
                    Err(failure) => whole.result == Err::<Seq<Ty>, Failure>(failure),
                }
            }),
        decreases list@.len() - i,
    {
        assert(all[i as int] == list@[i as int]@);
        let ghost before = tys(types@);
        let ty = match infer(env, locals, &list[i]) {
            Err(error) => return Err(error),
            Ok(ty) => ty,
        };
        let ghost added = ty@;
        types.push(ty);
        proof {
            assert(tys(types@) =~= before.push(added));
            let rest = inferred_from(env@, around, all, i + 1);
            if let Ok(view) = rest.result {
                assert(before + (seq![added] + view) =~= before.push(added) + view);
            }
        }
        i = i + 1;
    }
    assert(tys(types@) + Seq::<Ty>::empty() =~= tys(types@));
    Ok(types)
}

pub(crate) fn key_of(args: &Vec<Expr>) -> (key: Option<&str>)
    ensures
        (match key {
            Some(key) => Some(key@),
            None => None,
        }) == literal_key(terms(args@)),
{
    assert(terms(args@).len() == args@.len());
    if args.len() > 1 {
        assert(terms(args@)[1] == args@[1]@);
        match &args[1] {
            Expr::Str(text) => Some(text.as_str()),
            Expr::Keyword(text) => Some(text.as_str()),
            _ => None,
        }
    } else {
        None
    }
}

pub fn infer_builtin(
    env: &mut Env,
    locals: &Vec<LocalCandidate>,
    name: &str,
    args: &Vec<Expr>,
) -> (result: Result<MagType, MagError>)
    ensures
        typed(final(env)@, result) == inferred_builtin(
            old(env)@,
            local_views(locals@),
            name@,
            terms(args@),
        ),
    decreases args, 0int,
{
    let ghost all = terms(args@);
    let ghost around = local_views(locals@);
    assert(all.len() == args@.len());
    let builtin = match Builtin::named(name) {
        None => return Err(MagError::Type(cat2("no type rule for builtin ", name))),
        Some(builtin) => builtin,
    };
    let count = match builtin_arity(builtin, args.len()) {
        Err(error) => return Err(error),
        Ok(count) => count,
    };
    let key = key_of(args);
    let ghost key_view = literal_key(all);
    let mut types: Vec<MagType> = Vec::new();
    assert(tys(types@) =~= Seq::<Ty>::empty());
    let ghost whole = inferred_builtin(old(env)@, around, name@, all);
    let mut i: usize = 0;
    while i < count
        invariant
            i <= count <= args@.len(),
            count <= 3,
            count == 0 || count == args@.len(),
            types@.len() == i,
            all == terms(args@),
            around == local_views(locals@),
            key_view == literal_key(all),
            key_view == (match key {
                Some(key) => Some(key@),
                None => None,
            }),
            typed_arguments(builtin, args@.len()) == Ok::<nat, Failure>(count as nat),
            whole == inferred_builtin(old(env)@, around, name@, all),
            whole == inferred_rule(
                env@,
                around,
                builtin,
                all,
                count as int,
                tys(types@),
                i as int,
            ),
        decreases count - i,
    {
        assert(all[i as int] == args@[i as int]@);
        let ghost before = tys(types@);
        let ty = match infer(env, locals, &args[i]) {
            Err(error) => return Err(error),
            Ok(ty) => ty,
        };
        let ghost added = ty@;
        types.push(ty);
        assert(tys(types@) =~= before.push(added));
        match builtin_step(env, builtin, i, &types, key) {
            Err(error) => return Err(error),
            Ok(_) => {},
        }
        i = i + 1;
    }
    Ok(builtin_result(env, builtin, &types, key))
}

#[verifier::rlimit(60)]
fn infer_call(env: &mut Env, locals: &Vec<LocalCandidate>, expr: &Expr) -> (result: Result<
    MagType,
    MagError,
>)
    ensures
        typed(final(env)@, result) == inferred_call(old(env)@, local_views(locals@), expr@),
    decreases expr, 0int,
{
    match expr {
        Expr::Call { callee, type_args, args } => {
            let ghost around = local_views(locals@);
            assert(terms(args@).len() == args@.len());
            let explicit: Option<&Vec<TypeArgument>> = match type_args {
                Some(list) => Some(list),
                None => None,
            };
            let ghost written = option_arguments(*type_args);
            assert(option_argument_terms(explicit) == written);
            assert(expr@ == Term::Call(Box::new((**callee)@), written, terms(args@)));
            if let Expr::Name(path) = &**callee {
                let name = path.text();
                let builtin = is_builtin(env, name.as_str());
                let list = visible_signatures(env, locals, name.as_str());
                assert(sigs(list@).len() == list@.len());
                if list.len() != 0 {
                    if explicit.is_some() && none_generic(&list) {
                        return Err(
                            MagError::Type(
                                cat2(
                                    name.as_str(),
                                    " is not a generic function and does not accept explicit type arguments",
                                ),
                            ),
                        );
                    }
                    let types = match infer_all(env, locals, args) {
                        Err(error) => return Err(error),
                        Ok(types) => types,
                    };
                    let visible = local_variables(locals);
                    let found = prefer(match_signatures(env, &list, explicit, &types, &visible));
                    assert(results(found@).len() == found@.len());
                    if found.len() == 1 {
                        assert(results(found@)[0] == (found@[0].0, found@[0].1@));
                        return Ok(found[0].1.copy());
                    }
                    if found.len() != 0 {
                        return Err(
                            MagError::Type(cat3("ambiguous overload ", name.as_str(), " for call")),
                        );
                    }
                    if builtin && explicit.is_none() {
                        return infer_builtin(env, locals, name.as_str(), args);
                    }
                    return Err(
                        MagError::Type(cat3("no overload ", name.as_str(), " matches call")),
                    );
                }
                if builtin && explicit.is_none() {
                    return infer_builtin(env, locals, name.as_str(), args);
                }
            }
            if explicit.is_some() {
                return Err(
                    MagError::Type(
                        "explicit type arguments require an immediate call to a named generic function".to_owned(),
                    ),
                );
            }
            let callable = match infer(env, locals, callee) {
                Err(error) => return Err(error),
                Ok(callable) => callable,
            };
            match &callable {
                MagType::Function(params, result) => {
                    assert(tys(params@).len() == params@.len());
                    if params.len() != args.len() {
                        let expected = count_text(params.len());
                        let got = count_text(args.len());
                        return Err(
                            MagError::Type(
                                cat4(
                                    "call expects ",
                                    expected.as_str(),
                                    " arguments, got ",
                                    got.as_str(),
                                ),
                            ),
                        );
                    }
                    let types = match infer_all(env, locals, args) {
                        Err(error) => return Err(error),
                        Ok(types) => types,
                    };
                    let mut subst = Subst::new();
                    match compatible_all(env, &types, params, &mut subst, None) {
                        Err(message) => Err(MagError::Type(message)),
                        Ok(_) => Ok(substitute(result, &subst)),
                    }
                },
                _ => {
                    let text = callable.text();
                    Err(MagError::Type(cat2("cannot call ", text.as_str())))
                },
            }
        },
        _ => Ok(MagType::Unit),
    }
}

} // verus!
