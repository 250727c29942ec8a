//! What names stand for while a program is checked.

use crate::builtins::{collides, collides_with_builtin};
use crate::calls::{ty_vars, var_types};
use crate::checked::BindingId;
use crate::compat::{compatible_with_bindable, fit_binding};
use crate::env::{Env, World, bound_type, candidate_ids, ready_value, requirements_of, retyped};
use crate::error::{Failure, MagError};
use crate::infer::{Local, LocalCandidate, has_local, local_views};
use crate::order::{
    at_most, lemma_before_asymmetric, lemma_before_irreflexive, lemma_before_total,
    lemma_before_transitive, lemma_texts_ordered, precedes, text_before,
};
use crate::text::{cat2, cat4, copy_texts, count_text, decimal, decimal_text, same_text, texts};
use crate::types::{
    MagType, Names, Subst, Ty, collect_vars, lemma_take_set, substitute, substitute_all,
    substituted, substituted_all, ty_text, tys, variables, vars,
};
use crate::value::{FnValue, Val, Value};
use vstd::prelude::*;

verus! {

/// One of the bindings that a name may stand for. The candidates of all scopes
/// stand in one list, those of outer scopes first. The type parameters of the
/// functions around are candidates too, under a name that nobody can write.
#[derive(Debug)]
pub struct CheckedCandidate {
    pub name: String,
    pub id: BindingId,
    pub ty: MagType,
    pub generic_binders: Vec<String>,
    pub parameter_names: Option<Vec<String>>,
    pub contributes_type_vars: bool,
}

pub ghost struct Candidate {
    pub name: Seq<char>,
    pub id: BindingId,
    pub ty: Ty,
    pub binders: Seq<Seq<char>>,
    pub parameters: Option<Seq<Seq<char>>>,
    pub contributes: bool,
}

pub open spec fn option_texts(list: Option<Vec<String>>) -> Option<Seq<Seq<char>>> {
    match list {
        Some(list) => Some(texts(list@)),
        None => None,
    }
}

pub fn copy_option_texts(list: &Option<Vec<String>>) -> (copy: Option<Vec<String>>)
    ensures
        option_texts(copy) == option_texts(*list),
{
    match list {
        Some(list) => Some(copy_texts(list)),
        None => None,
    }
}

impl CheckedCandidate {
    pub open spec fn view(&self) -> Candidate {
        Candidate {
            name: self.name@,
            id: self.id,
            ty: self.ty@,
            binders: texts(self.generic_binders@),
            parameters: option_texts(self.parameter_names),
            contributes: self.contributes_type_vars,
        }
    }

    pub fn copy(&self) -> (copy: Self)
        ensures
            copy@ == self@,
    {
        CheckedCandidate {
            name: self.name.clone(),
            id: self.id,
            ty: self.ty.copy(),
            generic_binders: copy_texts(&self.generic_binders),
            parameter_names: copy_option_texts(&self.parameter_names),
            contributes_type_vars: self.contributes_type_vars,
        }
    }
}

pub open spec fn cands(list: Seq<CheckedCandidate>) -> Seq<Candidate> {
    Seq::new(list.len(), |i: int| list[i].view())
}

pub fn copy_candidates(list: &Vec<CheckedCandidate>) -> (copy: Vec<CheckedCandidate>)
    ensures
        cands(copy@) == cands(list@),
        copy@.len() == list@.len(),
{
    let mut copy: Vec<CheckedCandidate> = Vec::new();
    let mut i: usize = 0;
    while i < list.len()
        invariant
            i <= list@.len(),
            copy@.len() == i,
            forall|j: int| 0 <= j < i ==> (#[trigger] copy@[j])@ == list@[j]@,
        decreases list@.len() - i,
    {
        copy.push(list[i].copy());
        i = i + 1;
    }
    assert(cands(copy@) =~= cands(list@));
    copy
}

/// A candidate of a name and a type that brings nothing else.
pub open spec fn plain_candidate(name: Seq<char>, id: BindingId, ty: Ty) -> Candidate {
    Candidate { name, id, ty, binders: Seq::empty(), parameters: None, contributes: false }
}

pub fn plain(name: String, id: BindingId, ty: MagType) -> (candidate: CheckedCandidate)
    ensures
        candidate@ == plain_candidate(name@, id, ty@),
{
    let binders: Vec<String> = Vec::new();
    assert(texts(binders@) =~= Seq::<Seq<char>>::empty());
    CheckedCandidate {
        name,
        id,
        ty,
        generic_binders: binders,
        parameter_names: None,
        contributes_type_vars: false,
    }
}

/// The candidate that brings the type parameters of a function into scope.
pub open spec fn binder_candidate(type_params: Seq<Seq<char>>) -> Candidate {
    Candidate {
        name: "\0type-binders"@,
        id: BindingId(u64::MAX),
        ty: Ty::Product(ty_vars(type_params)),
        binders: Seq::empty(),
        parameters: None,
        contributes: true,
    }
}

pub fn type_binders(type_params: &Vec<String>) -> (candidate: CheckedCandidate)
    ensures
        candidate@ == binder_candidate(texts(type_params@)),
{
    let binders: Vec<String> = Vec::new();
    assert(texts(binders@) =~= Seq::<Seq<char>>::empty());
    CheckedCandidate {
        name: "\0type-binders".to_owned(),
        id: BindingId(u64::MAX),
        ty: MagType::Product(var_types(type_params)),
        generic_binders: binders,
        parameter_names: None,
        contributes_type_vars: true,
    }
}

// ---------------------------------------------------------------------------
// Candidates of a name
// ---------------------------------------------------------------------------

/// Those of the first `n` candidates that have a name.
pub open spec fn named_cands(scopes: Seq<Candidate>, name: Seq<char>, n: int) -> Seq<Candidate>
    decreases n,
{
    if n <= 0 {
        Seq::empty()
    } else if scopes[n - 1].name == name {
        named_cands(scopes, name, n - 1).push(scopes[n - 1])
    } else {
        named_cands(scopes, name, n - 1)
    }
}

/// The candidate that a binding of the environment is.
pub open spec fn env_candidate(world: World, name: Seq<char>, id: BindingId, ty: Ty) -> Candidate {
    match ready_value(world, id) {
        Some(Val::Fn(function)) => Candidate {
            name,
            id,
            ty,
            binders: function.type_params,
            parameters: Some(function.params),
            contributes: false,
        },
        _ => plain_candidate(name, id, ty),
    }
}

/// The candidates among the first `n` bindings of the environment; those without
/// a type are none.
pub open spec fn env_cands(world: World, name: Seq<char>, ids: Seq<BindingId>, n: int) -> Seq<
    Candidate,
>
    decreases n,
{
    if n <= 0 {
        Seq::empty()
    } else {
        match bound_type(world, ids[n - 1]) {
            Some(ty) => env_cands(world, name, ids, n - 1).push(
                env_candidate(world, name, ids[n - 1], ty),
            ),
            None => env_cands(world, name, ids, n - 1),
        }
    }
}

pub open spec fn has_id(list: Seq<Candidate>, id: BindingId, i: int) -> bool
    decreases list.len() - i,
{
    0 <= i < list.len() && (list[i].id == id || has_id(list, id, i + 1))
}

/// The first `n` candidates, each binding once.
pub open spec fn distinct(list: Seq<Candidate>, n: int) -> Seq<Candidate>
    decreases n,
{
    if n <= 0 {
        Seq::empty()
    } else {
        let before = distinct(list, n - 1);
        if has_id(before, list[n - 1].id, 0) {
            before
        } else {
            before.push(list[n - 1])
        }
    }
}

/// What a name may stand for.
pub open spec fn visible(world: World, scopes: Seq<Candidate>, name: Seq<char>) -> Seq<Candidate> {
    let ids = candidate_ids(world, name);
    let all = named_cands(scopes, name, scopes.len() as int) + env_cands(
        world,
        name,
        ids,
        ids.len() as int,
    );
    distinct(all, all.len() as int)
}

fn contains_id(list: &Vec<CheckedCandidate>, id: BindingId) -> (found: bool)
    ensures
        found == has_id(cands(list@), id, 0),
{
    let ghost all = cands(list@);
    let mut i: usize = 0;
    while i < list.len()
        invariant
            i <= list@.len(),
            all == cands(list@),
            has_id(all, id, 0) == has_id(all, id, i as int),
        decreases list@.len() - i,
    {
        assert(all[i as int] == list@[i as int]@);
        if list[i].id == id {
            return true;
        }
        i = i + 1;
    }
    false
}

fn env_candidates(env: &Env, name: &str, found: &mut Vec<CheckedCandidate>)
    ensures
        cands(final(found)@) == cands(old(found)@) + env_cands(
            env@,
            name@,
            candidate_ids(env@, name@),
            candidate_ids(env@, name@).len() as int,
        ),
{
    let ids = env.lookup_candidate_ids(name);
    let ghost start = cands(found@);
    assert(start + Seq::<Candidate>::empty() =~= start);
    let mut i: usize = 0;
    while i < ids.len()
        invariant
            i <= ids@.len(),
            ids@ == candidate_ids(env@, name@),
            cands(found@) == start + env_cands(env@, name@, ids@, i as int),
        decreases ids@.len() - i,
    {
        let ghost before = cands(found@);
        let ghost earlier = env_cands(env@, name@, ids@, i as int);
        if let Some(ty) = env.binding_type(ids[i]) {
            let mut candidate = plain(name.to_owned(), ids[i], ty);
            if let Some(Value::Fn(function)) = env.ready_binding(ids[i]) {
                let f: &FnValue = function;
                assert(f@.type_params == texts(f.type_params@));
                candidate.generic_binders = copy_texts(&f.type_params);
                candidate.parameter_names = Some(copy_texts(&f.params));
            }
            let ghost added = candidate@;
            found.push(candidate);
            assert(cands(found@) =~= before.push(added));
            assert(before.push(added) =~= start + earlier.push(added));
        }
        i = i + 1;
    }
}

pub fn visible_candidates(env: &Env, scopes: &Vec<CheckedCandidate>, name: &str) -> (found: Vec<
    CheckedCandidate,
>)
    ensures
        cands(found@) == visible(env@, cands(scopes@), name@),
{
    let ghost around = cands(scopes@);
    let mut all: Vec<CheckedCandidate> = Vec::new();
    assert(cands(all@) =~= named_cands(around, name@, 0));
    let mut i: usize = 0;
    while i < scopes.len()
        invariant
            i <= scopes@.len(),
            around == cands(scopes@),
            cands(all@) == named_cands(around, name@, i as int),
        decreases scopes@.len() - i,
    {
        assert(around[i as int] == scopes@[i as int]@);
        if same_text(scopes[i].name.as_str(), name) {
            let ghost before = cands(all@);
            let added = scopes[i].copy();
            all.push(added);
            assert(cands(all@) =~= before.push(added@));
        }
        i = i + 1;
    }
    env_candidates(env, name, &mut all);
    let ghost list = cands(all@);
    let mut found: Vec<CheckedCandidate> = Vec::new();
    assert(cands(found@) =~= distinct(list, 0));
    let mut i: usize = 0;
    while i < all.len()
        invariant
            i <= all@.len(),
            list == cands(all@),
            cands(found@) == distinct(list, i as int),
        decreases all@.len() - i,
    {
        assert(list[i as int] == all@[i as int]@);
        if !contains_id(&found, all[i].id) {
            let ghost before = cands(found@);
            let added = all[i].copy();
            found.push(added);
            assert(cands(found@) =~= before.push(added@));
        }
        i = i + 1;
    }
    found
}

/// The types of the first `n` candidates as those of local names, each once.
pub open spec fn scope_locals(scopes: Seq<Candidate>, n: int) -> Seq<Local>
    decreases n,
{
    if n <= 0 {
        Seq::empty()
    } else {
        let before = scope_locals(scopes, n - 1);
        let last = scopes[n - 1];
        if has_local(before, last.name, last.ty, 0) {
            before
        } else {
            before.push(Local { name: last.name, ty: last.ty, binders: last.binders })
        }
    }
}

pub open spec fn locals_in(scopes: Seq<Candidate>) -> Seq<Local> {
    scope_locals(scopes, scopes.len() as int)
}

fn contains_local(locals: &Vec<LocalCandidate>, name: &str, ty: &MagType) -> (found: bool)
    ensures
        found == has_local(local_views(locals@), name@, ty@, 0),
{
    let ghost all = local_views(locals@);
    let mut i: usize = 0;
    while i < locals.len()
        invariant
            i <= locals@.len(),
            all == local_views(locals@),
            has_local(all, name@, ty@, 0) == has_local(all, name@, ty@, i as int),
        decreases locals@.len() - i,
    {
        assert(all[i as int] == locals@[i as int]@);
        if same_text(locals[i].name.as_str(), name) && locals[i].ty.same(ty) {
            return true;
        }
        i = i + 1;
    }
    false
}

pub fn visible_types(scopes: &Vec<CheckedCandidate>) -> (locals: Vec<LocalCandidate>)
    ensures
        local_views(locals@) == locals_in(cands(scopes@)),
{
    let ghost all = cands(scopes@);
    let mut locals: Vec<LocalCandidate> = Vec::new();
    assert(local_views(locals@) =~= scope_locals(all, 0));
    let mut i: usize = 0;
    while i < scopes.len()
        invariant
            i <= scopes@.len(),
            all == cands(scopes@),
            local_views(locals@) == scope_locals(all, i as int),
        decreases scopes@.len() - i,
    {
        assert(all[i as int] == scopes@[i as int]@);
        if !contains_local(&locals, scopes[i].name.as_str(), &scopes[i].ty) {
            let ghost before = local_views(locals@);
            let added = LocalCandidate {
                name: scopes[i].name.clone(),
                ty: scopes[i].ty.copy(),
                generic_binders: copy_texts(&scopes[i].generic_binders),
            };
            locals.push(added);
            assert(local_views(locals@) =~= before.push(added@));
        }
        i = i + 1;
    }
    locals
}

/// The type parameters that the first `n` candidates bring.
pub open spec fn brought_vars(scopes: Seq<Candidate>, n: int) -> Set<Seq<char>>
    decreases n,
{
    if n <= 0 {
        Set::empty()
    } else if scopes[n - 1].contributes {
        brought_vars(scopes, n - 1).union(vars(scopes[n - 1].ty))
    } else {
        brought_vars(scopes, n - 1)
    }
}

pub open spec fn type_vars_in(scopes: Seq<Candidate>) -> Set<Seq<char>> {
    brought_vars(scopes, scopes.len() as int)
}

pub fn visible_type_variables(scopes: &Vec<CheckedCandidate>) -> (names: Names)
    ensures
        names@ == type_vars_in(cands(scopes@)),
{
    let ghost all = cands(scopes@);
    let mut names = Names::new();
    let mut i: usize = 0;
    while i < scopes.len()
        invariant
            i <= scopes@.len(),
            all == cands(scopes@),
            names@ == brought_vars(all, i as int),
        decreases scopes@.len() - i,
    {
        assert(all[i as int] == scopes@[i as int]@);
        if scopes[i].contributes_type_vars {
            collect_vars(&scopes[i].ty, &mut names);
        }
        i = i + 1;
    }
    names
}

// ---------------------------------------------------------------------------
// Types up to the names of their variables
// ---------------------------------------------------------------------------

/// The place of a name in a list, from index `i` on.
pub open spec fn place_of(seen: Seq<Seq<char>>, name: Seq<char>, i: int) -> Option<nat>
    decreases seen.len() - i,
{
    if i < 0 || i >= seen.len() {
        None
    } else if seen[i] == name {
        Some(i as nat)
    } else {
        place_of(seen, name, i + 1)
    }
}

/// A type whose variables are numbered in the order in which they first occur,
/// behind those that occurred already; with all that have occurred then.
pub open spec fn numbered(ty: Ty, seen: Seq<Seq<char>>) -> (Ty, Seq<Seq<char>>)
    decreases ty, 0int,
{
    match ty {
        Ty::Var(name) => match place_of(seen, name, 0) {
            Some(place) => (Ty::Var("$"@ + decimal(place)), seen),
            None => (Ty::Var("$"@ + decimal(seen.len())), seen.push(name)),
        },
        Ty::Named(name, arguments) => {
            let (arguments, after) = numbered_from(arguments, seen, 0);
            (Ty::Named(name, arguments), after)
        },
        Ty::TypeTag(item) => {
            let (item, after) = numbered(*item, seen);
            (Ty::TypeTag(Box::new(item)), after)
        },
        Ty::List(item) => {
            let (item, after) = numbered(*item, seen);
            (Ty::List(Box::new(item)), after)
        },
        Ty::SetOf(item) => {
            let (item, after) = numbered(*item, seen);
            (Ty::SetOf(Box::new(item)), after)
        },
        Ty::MapOf(key, value) => {
            let (key, between) = numbered(*key, seen);
            let (value, after) = numbered(*value, between);
            (Ty::MapOf(Box::new(key), Box::new(value)), after)
        },
        Ty::Product(items) => {
            let (items, after) = numbered_from(items, seen, 0);
            (Ty::Product(items), after)
        },
        Ty::Function(params, result) => {
            let (params, between) = numbered_from(params, seen, 0);
            let (result, after) = numbered(*result, between);
            (Ty::Function(params, Box::new(result)), after)
        },
        _ => (ty, seen),
    }
}

pub open spec fn numbered_from(types: Seq<Ty>, seen: Seq<Seq<char>>, i: int) -> (
    Seq<Ty>,
    Seq<Seq<char>>,
)
    decreases types, types.len() - i,
{
    if i < 0 || i >= types.len() {
        (Seq::empty(), seen)
    } else {
        let (first, between) = numbered(types[i], seen);
        let (rest, after) = numbered_from(types, between, i + 1);
        (seq![first] + rest, after)
    }
}

/// The text of a type in which the names of variables do not matter.
pub open spec fn canonical(ty: Ty) -> Seq<char> {
    ty_text(numbered(ty, Seq::empty()).0)
}

fn find_place(seen: &Vec<String>, name: &str) -> (place: Option<usize>)
    ensures
        match (place, place_of(texts(seen@), name@, 0)) {
            (Some(place), Some(view)) => place == view,
            (None, None) => true,
            _ => false,
        },
{
    let ghost all = texts(seen@);
    let mut i: usize = 0;
    while i < seen.len()
        invariant
            i <= seen@.len(),
            all == texts(seen@),
            place_of(all, name@, 0) == place_of(all, name@, i as int),
        decreases seen@.len() - i,
    {
        assert(all[i as int] == seen@[i as int]@);
        if same_text(seen[i].as_str(), name) {
            return Some(i);
        }
        i = i + 1;
    }
    None
}

fn canonicalize(ty: &MagType, seen: &mut Vec<String>) -> (result: MagType)
    ensures
        (result@, texts(final(seen)@)) == numbered(ty@, texts(old(seen)@)),
    decreases ty,
{
    match ty {
        MagType::Var(name) => match find_place(seen, name.as_str()) {
            Some(place) => {
                let number = count_text(place);
                MagType::Var(cat2("$", number.as_str()))
            },
            None => {
                let ghost before = texts(seen@);
                assert(before.len() == seen@.len());
                let number = count_text(seen.len());
                seen.push(name.clone());
                assert(texts(seen@) =~= before.push(name@));
                MagType::Var(cat2("$", number.as_str()))
            },
        },
        MagType::Named(name, arguments) => {
            let arguments = canonicalize_all(arguments, seen);
            MagType::Named(name.clone(), arguments)
        },
        MagType::TypeTag(item) => MagType::TypeTag(Box::new(canonicalize(item, seen))),
        MagType::List(item) => MagType::List(Box::new(canonicalize(item, seen))),
        MagType::SetOf(item) => MagType::SetOf(Box::new(canonicalize(item, seen))),
        MagType::MapOf(key, value) => {
            let key = canonicalize(key, seen);
            let value = canonicalize(value, seen);
            MagType::MapOf(Box::new(key), Box::new(value))
        },
        MagType::Product(items) => MagType::Product(canonicalize_all(items, seen)),
        MagType::Function(params, result) => {
            let params = canonicalize_all(params, seen);
            let result = canonicalize(result, seen);
            MagType::Function(params, Box::new(result))
        },
        _ => ty.copy(),
    }
}

fn canonicalize_all(types: &Vec<MagType>, seen: &mut Vec<String>) -> (results: Vec<MagType>)
    ensures
        (tys(results@), texts(final(seen)@)) == numbered_from(tys(types@), texts(old(seen)@), 0),
    decreases types,
{
    let ghost all = tys(types@);
    let ghost start = texts(seen@);
    let mut results: Vec<MagType> = Vec::new();
    let mut i: usize = 0;
    assert(tys(results@) + numbered_from(all, start, 0).0 =~= numbered_from(all, start, 0).0);
    while i < types.len()
        invariant
            i <= types@.len(),
            all == tys(types@),
            start == texts(old(seen)@),
            numbered_from(all, start, 0).0 == tys(results@) + numbered_from(
                all,
                texts(seen@),
                i as int,
            ).0,
            numbered_from(all, start, 0).1 == numbered_from(all, texts(seen@), i as int).1,
        decreases types@.len() - i,
    {
        assert(all[i as int] == types@[i as int]@);
        let ghost before = tys(results@);
        let ty = canonicalize(&types[i], seen);
        let ghost added = ty@;
        results.push(ty);
        proof {
            assert(tys(results@) =~= before.push(added));
            let rest = numbered_from(all, texts(seen@), i + 1).0;
            assert(before + (seq![added] + rest) =~= before.push(added) + rest);
        }
        i = i + 1;
    }
    assert(tys(results@) + Seq::<Ty>::empty() =~= tys(results@));
    results
}

pub fn canonical_type(ty: &MagType) -> (text: String)
    ensures
        text@ == canonical(ty@),
{
    let mut seen: Vec<String> = Vec::new();
    assert(texts(seen@) =~= Seq::<Seq<char>>::empty());
    canonicalize(ty, &mut seen).text()
}

// ---------------------------------------------------------------------------
// New candidates
// ---------------------------------------------------------------------------

/// Whether one of some candidates has a type, up to the names of variables.
pub open spec fn has_canonical(list: Seq<Candidate>, text: Seq<char>, i: int) -> bool
    decreases list.len() - i,
{
    0 <= i < list.len() && (canonical(list[i].ty) == text || has_canonical(list, text, i + 1))
}

/// Whether a candidate would stand for the same calls as a visible one.
pub open spec fn duplicated(world: World, scopes: Seq<Candidate>, candidate: Candidate) -> bool {
    has_canonical(visible(world, scopes, candidate.name), canonical(candidate.ty), 0) || collides(
        world,
        candidate.name,
        candidate.ty,
    )
}

pub open spec fn duplicate_failure(candidate: Candidate) -> Failure {
    Failure::Type(
        "duplicate visible overload "@ + candidate.name + ": "@ + ty_text(candidate.ty),
    )
}

/// Adds a candidate to the innermost scope.
pub fn insert_checked_candidate(
    env: &mut Env,
    scopes: &mut Vec<CheckedCandidate>,
    candidate: CheckedCandidate,
) -> (result: Result<(), MagError>)
    ensures
        match result {
            Ok(_) => {
                &&& !duplicated(old(env)@, cands(old(scopes)@), candidate@)
                &&& final(env)@ == retyped(old(env)@, candidate@.id, candidate@.ty)
                &&& cands(final(scopes)@) == cands(old(scopes)@).push(candidate@)
            },
            Err(error) => {
                &&& duplicated(old(env)@, cands(old(scopes)@), candidate@)
                &&& final(env)@ == old(env)@
                &&& final(scopes)@ == old(scopes)@
                &&& error@ == duplicate_failure(candidate@)
            },
        },
{
    let ghost around = cands(scopes@);
    let text = canonical_type(&candidate.ty);
    let found = visible_candidates(env, scopes, candidate.name.as_str());
    let ghost all = cands(found@);
    let mut same = false;
    let mut i: usize = 0;
    while i < found.len() && !same
        invariant
            i <= found@.len(),
            all == cands(found@),
            text@ == canonical(candidate@.ty),
            same ==> has_canonical(all, text@, 0),
            !same ==> has_canonical(all, text@, 0) == has_canonical(all, text@, i as int),
        decreases found@.len() - i,
    {
        assert(all[i as int] == found@[i as int]@);
        let other = canonical_type(&found[i].ty);
        if same_text(other.as_str(), text.as_str()) {
            same = true;
        }
        i = i + 1;
    }
    if same || collides_with_builtin(env, candidate.name.as_str(), &candidate.ty) {
        let ty = candidate.ty.text();
        return Err(
            MagError::Type(
                cat4("duplicate visible overload ", candidate.name.as_str(), ": ", ty.as_str()),
            ),
        );
    }
    env.set_binding_type(candidate.id, candidate.ty.copy());
    scopes.push(candidate);
    assert(cands(scopes@) =~= around.push(candidate@));
    Ok(())
}

// ---------------------------------------------------------------------------
// Instances of a generic candidate
// ---------------------------------------------------------------------------

/// The variable that stands for a type parameter in a use of a binding.
pub open spec fn instance_var(id: BindingId, i: int) -> Seq<char> {
    "\0binding"@ + decimal(id.0 as nat) + "."@ + decimal(i as nat)
}

/// What the first `n` type parameters stand for in a use of a binding.
pub open spec fn instance_subst(id: BindingId, binders: Seq<Seq<char>>, n: int) -> Map<Seq<char>, Ty>
    decreases n,
{
    if n <= 0 {
        Map::empty()
    } else {
        instance_subst(id, binders, n - 1).insert(
            binders[n - 1],
            Ty::Var(instance_var(id, n - 1)),
        )
    }
}

pub open spec fn instance_vars(id: BindingId, n: int) -> Set<Seq<char>>
    decreases n,
{
    if n <= 0 {
        Set::empty()
    } else {
        instance_vars(id, n - 1).insert(instance_var(id, n - 1))
    }
}

pub open spec fn instance_type(candidate: Candidate) -> Ty {
    substituted(
        candidate.ty,
        instance_subst(candidate.id, candidate.binders, candidate.binders.len() as int),
    )
}

pub open spec fn instance_bindable(candidate: Candidate) -> Set<Seq<char>> {
    instance_vars(candidate.id, candidate.binders.len() as int)
}

pub fn instance_variable(id: BindingId, i: usize) -> (name: String)
    ensures
        name@ == instance_var(id, i as int),
{
    let binding = decimal_text(id.0);
    let place = count_text(i);
    cat4("\0binding", binding.as_str(), ".", place.as_str())
}

pub fn instance_assignment(id: BindingId, binders: &Vec<String>) -> (result: (Subst, Names))
    ensures
        result.0@ == instance_subst(id, texts(binders@), binders@.len() as int),
        result.1@ == instance_vars(id, binders@.len() as int),
{
    let ghost all = texts(binders@);
    let mut subst = Subst::new();
    let mut names = Names::new();
    let mut i: usize = 0;
    while i < binders.len()
        invariant
            i <= binders@.len(),
            all == texts(binders@),
            subst@ == instance_subst(id, all, i as int),
            names@ == instance_vars(id, i as int),
        decreases binders@.len() - i,
    {
        assert(all[i as int] == binders@[i as int]@);
        let variable = instance_variable(id, i);
        names.insert(variable.clone());
        subst.insert(binders[i].clone(), MagType::Var(variable));
        i = i + 1;
    }
    (subst, names)
}

pub fn instantiate_candidate(candidate: &CheckedCandidate) -> (result: (MagType, Names))
    ensures
        result.0@ == instance_type(candidate@),
        result.1@ == instance_bindable(candidate@),
{
    assert(texts(candidate.generic_binders@).len() == candidate.generic_binders@.len());
    let (subst, names) = instance_assignment(candidate.id, &candidate.generic_binders);
    (substitute(&candidate.ty, &subst), names)
}

// ---------------------------------------------------------------------------
// What equality a binding asks for
// ---------------------------------------------------------------------------

/// The types that have to support equality for a binding, as it was checked.
pub open spec fn declared_requirements(world: World, id: BindingId) -> Seq<Ty> {
    let known = requirements_of(world, id);
    if known.len() != 0 {
        known
    } else {
        match ready_value(world, id) {
            Some(Val::Fn(function)) => ty_vars(function.equality_params),
            _ => known,
        }
    }
}

pub fn binding_requirements(env: &Env, id: BindingId) -> (types: Vec<MagType>)
    ensures
        tys(types@) == declared_requirements(env@, id),
{
    let known = env.equality_requirements(id);
    assert(tys(known@).len() == known@.len());
    if known.len() != 0 {
        return known;
    }
    match env.ready_binding(id) {
        Some(Value::Fn(function)) => {
            let f: &FnValue = function;
            assert(f@.equality_params == texts(f.equality_params@));
            var_types(&f.equality_params)
        },
        _ => known,
    }
}

/// What equality a use of a candidate asks for.
pub open spec fn instance_requirements(world: World, candidate: Candidate) -> Seq<Ty> {
    substituted_all(
        declared_requirements(world, candidate.id),
        instance_subst(candidate.id, candidate.binders, candidate.binders.len() as int),
    )
}

pub fn instantiated_equality_requirements(env: &Env, candidate: &CheckedCandidate) -> (types: Vec<
    MagType,
>)
    ensures
        tys(types@) == instance_requirements(env@, candidate@),
{
    assert(texts(candidate.generic_binders@).len() == candidate.generic_binders@.len());
    let (subst, _) = instance_assignment(candidate.id, &candidate.generic_binders);
    let types = binding_requirements(env, candidate.id);
    substitute_all(&types, &subst)
}

/// What equality a use of a binding at a type asks for.
pub open spec fn use_requirements(world: World, id: BindingId, used: Ty) -> Seq<Ty> {
    let declared = declared_requirements(world, id);
    if declared.len() == 0 {
        declared
    } else {
        match bound_type(world, id) {
            None => declared,
            Some(original) => {
                let fit = fit_binding(world, used, original, Map::empty(), vars(original));
                match fit.result {
                    Err(_) => declared,
                    Ok(_) => substituted_all(declared, fit.subst),
                }
            },
        }
    }
}

pub fn resolved_binding_requirements(env: &Env, id: BindingId, resolved: &MagType) -> (types: Vec<
    MagType,
>)
    ensures
        tys(types@) == use_requirements(env@, id, resolved@),
{
    let declared = binding_requirements(env, id);
    assert(tys(declared@).len() == declared@.len());
    if declared.len() == 0 {
        return declared;
    }
    match env.binding_type(id) {
        None => declared,
        Some(original) => {
            let names = variables(&original);
            let mut subst = Subst::new();
            match compatible_with_bindable(env, resolved, &original, &mut subst, &names) {
                Err(_) => declared,
                Ok(_) => substitute_all(&declared, &subst),
            }
        },
    }
}

// ---------------------------------------------------------------------------
// Names in ascending order
// ---------------------------------------------------------------------------

pub open spec fn ascending(list: Seq<Seq<char>>) -> bool {
    forall|i: int, j: int|
        0 <= i < j < list.len() ==> text_before(#[trigger] list[i], #[trigger] list[j])
}

/// A set of names in ascending order.
pub open spec fn sorted_names(names: Set<Seq<char>>) -> Seq<Seq<char>> {
    choose|list: Seq<Seq<char>>| #[trigger] ascending(list) && list.to_set() == names
}

/// Every finite set of names can be listed in ascending order.
pub proof fn lemma_sorted_names(names: Set<Seq<char>>)
    requires
        names.finite(),
    ensures
        ascending(sorted_names(names)),
        sorted_names(names).to_set() == names,
    decreases names.len(),
{
    broadcast use {vstd::multiset::group_multiset_axioms, vstd::seq_lib::group_to_multiset_ensures};

    if names =~= Set::empty() {
        let list = Seq::<Seq<char>>::empty();
        assert(list.to_set() =~= names);
        assert(ascending(list));
    } else {
        let name = names.choose();
        assert(names.contains(name));
        let others = names.remove(name);
        lemma_sorted_names(others);
        let earlier = sorted_names(others);
        let all = earlier.push(name);
        assert(!earlier.contains(name)) by {
            if earlier.contains(name) {
                assert(earlier.to_set().contains(name));
            }
        }
        assert(all.no_duplicates()) by {
            assert forall|i: int, j: int| 0 <= i < all.len() && 0 <= j < all.len() && i != j implies all[i] != all[j] by {
                if i < earlier.len() && j < earlier.len() {
                    if i < j {
                        assert(text_before(earlier[i], earlier[j]));
                    } else {
                        assert(text_before(earlier[j], earlier[i]));
                    }
                    lemma_before_irreflexive(all[i]);
                }
            }
        }
        let leq = at_most();
        lemma_texts_ordered();
        all.lemma_sort_by_ensures(leq);
        let list = all.sort_by(leq);
        all.lemma_multiset_has_no_duplicates();
        assert forall|i: int, j: int| 0 <= i < j < list.len() implies text_before(
            #[trigger] list[i],
            #[trigger] list[j],
        ) by {
            assert(leq(list[i], list[j]));
            lemma_before_total(list[i], list[j]);
            if list[i] == list[j] {
                let shorter = list.remove(i);
                assert(shorter[j - 1] == list[j]);
                assert(shorter.contains(list[i]));
                assert(shorter.to_multiset().count(list[i]) > 0);
                assert(list.contains(list[i]));
                assert(list.to_multiset().count(list[i]) >= 2);
                assert(all.to_multiset().contains(list[i]));
            }
        }
        assert(list.to_set() =~= names) by {
            assert forall|x: Seq<char>| list.to_set().contains(x) <==> names.contains(x) by {
                assert(list.contains(x) <==> list.to_multiset().count(x) > 0);
                assert(all.contains(x) <==> all.to_multiset().count(x) > 0);
                assert(all.contains(x) <==> earlier.contains(x) || x == name) by {
                    if earlier.contains(x) {
                        let k = earlier.index_of(x);
                        assert(all[k] == x);
                    }
                    if x == name {
                        assert(all[all.len() - 1] == x);
                    }
                }
                assert(earlier.contains(x) <==> earlier.to_set().contains(x));
            }
        }
        assert(ascending(list) && list.to_set() == names);
    }
}

/// There is one way to list a set of names in ascending order.
pub proof fn lemma_ascending_unique(left: Seq<Seq<char>>, right: Seq<Seq<char>>)
    requires
        ascending(left),
        ascending(right),
        left.to_set() == right.to_set(),
    ensures
        left == right,
    decreases left.len(),
{
    if left.len() == 0 {
        if right.len() > 0 {
            assert(right.to_set().contains(right[0]));
            assert(left.to_set().contains(right[0]));
        }
        assert(left =~= right);
    } else {
        assert(left.to_set().contains(left[0]));
        assert(right.to_set().contains(left[0]));
        let k = right.index_of(left[0]);
        assert(right[k] == left[0]);
        assert(left.to_set().contains(right[0]));
        let m = left.index_of(right[0]);
        assert(left[m] == right[0]);
        if k > 0 {
            assert(text_before(right[0], right[k]));
            if m > 0 {
                assert(text_before(left[0], left[m]));
                lemma_before_asymmetric(left[0], right[0]);
            } else {
                lemma_before_irreflexive(left[0]);
            }
        }
        assert(left[0] == right[0]);
        let l = left.drop_first();
        let r = right.drop_first();
        assert(ascending(l)) by {
            assert forall|i: int, j: int| 0 <= i < j < l.len() implies text_before(
                #[trigger] l[i],
                #[trigger] l[j],
            ) by {
                assert(text_before(left[i + 1], left[j + 1]));
            }
        }
        assert(ascending(r)) by {
            assert forall|i: int, j: int| 0 <= i < j < r.len() implies text_before(
                #[trigger] r[i],
                #[trigger] r[j],
            ) by {
                assert(text_before(right[i + 1], right[j + 1]));
            }
        }
        assert forall|x: Seq<char>| #[trigger] l.to_set().contains(x) implies r.to_set().contains(
            x,
        ) by {
            let i = l.index_of(x);
            assert(left[i + 1] == x);
            assert(left.to_set().contains(x));
            assert(right.to_set().contains(x));
            let j = right.index_of(x);
            assert(text_before(left[0], left[i + 1]));
            if j == 0 {
                lemma_before_irreflexive(x);
            }
            assert(r[j - 1] == x);
        }
        assert forall|x: Seq<char>| #[trigger] r.to_set().contains(x) implies l.to_set().contains(
            x,
        ) by {
            let i = r.index_of(x);
            assert(right[i + 1] == x);
            assert(right.to_set().contains(x));
            assert(left.to_set().contains(x));
            let j = left.index_of(x);
            assert(text_before(right[0], right[i + 1]));
            if j == 0 {
                lemma_before_irreflexive(x);
            }
            assert(l[j - 1] == x);
        }
        assert(l.to_set() =~= r.to_set());
        lemma_ascending_unique(l, r);
        assert(left =~= seq![left[0]] + l);
        assert(right =~= seq![right[0]] + r);
    }
}

proof fn lemma_insert_ascending(list: Seq<Seq<char>>, name: Seq<char>, at: int)
    requires
        ascending(list),
        0 <= at <= list.len(),
        forall|i: int| 0 <= i < at ==> text_before(#[trigger] list[i], name),
        forall|i: int| at <= i < list.len() ==> text_before(name, #[trigger] list[i]),
    ensures
        ascending(list.insert(at, name)),
        list.insert(at, name).to_set() == list.to_set().insert(name),
{
    let longer = list.insert(at, name);
    assert forall|x: Seq<char>| #[trigger] longer.to_set().contains(x) <==> list.to_set().insert(
        name,
    ).contains(x) by {
        if longer.contains(x) {
            let i = longer.index_of(x);
            if i < at {
                assert(list[i] == x);
            } else if i > at {
                assert(list[i - 1] == x);
            }
        }
        if list.contains(x) {
            let i = list.index_of(x);
            if i < at {
                assert(longer[i] == x);
            } else {
                assert(longer[i + 1] == x);
            }
        }
        if x == name {
            assert(longer[at] == x);
        }
    }
    assert(longer.to_set() =~= list.to_set().insert(name));
}

/// Lists a set of names in ascending order.
pub fn sort_names(names: &Names) -> (list: Vec<String>)
    ensures
        texts(list@) == sorted_names(names@),
        ascending(texts(list@)),
        texts(list@).to_set() == names@,
{
    let ghost all = texts(names.items@);
    let mut list: Vec<String> = Vec::new();
    assert(texts(list@) =~= Seq::<Seq<char>>::empty());
    assert(all.take(0).to_set() =~= Set::<Seq<char>>::empty());
    assert(texts(list@).to_set() =~= Set::<Seq<char>>::empty());
    let mut i: usize = 0;
    while i < names.items.len()
        invariant
            i <= names.items@.len(),
            all == texts(names.items@),
            ascending(texts(list@)),
            texts(list@).to_set() == all.take(i as int).to_set(),
        decreases names.items@.len() - i,
    {
        let name = &names.items[i];
        let ghost before = texts(list@);
        assert(all[i as int] == name@);
        let mut at: usize = 0;
        while at < list.len() && precedes(list[at].as_str(), name.as_str())
            invariant
                at <= list@.len(),
                before == texts(list@),
                forall|j: int| 0 <= j < at ==> text_before(#[trigger] before[j], name@),
            decreases list@.len() - at,
        {
            at = at + 1;
        }
        proof {
            lemma_take_set(all, i as int);
        }
        if at < list.len() && same_text(list[at].as_str(), name.as_str()) {
            proof {
                assert(before[at as int] == name@);
                assert(before.to_set().contains(name@));
                assert(before.to_set() =~= before.to_set().insert(name@));
            }
        } else {
            proof {
                assert forall|j: int| at <= j < before.len() implies text_before(
                    name@,
                    #[trigger] before[j],
                ) by {
                    lemma_before_total(before[at as int], name@);
                    if j > at {
                        assert(text_before(before[at as int], before[j]));
                        lemma_before_transitive(name@, before[at as int], before[j]);
                    }
                }
                lemma_insert_ascending(before, name@, at as int);
            }
            list.insert(at, name.clone());
            assert(texts(list@) =~= before.insert(at as int, name@));
        }
        i = i + 1;
    }
    proof {
        assert(all.take(all.len() as int) =~= all);
        let chosen = sorted_names(names@);
        assert(ascending(texts(list@)));
        lemma_ascending_unique(texts(list@), chosen);
    }
    list
}

} // verus!
