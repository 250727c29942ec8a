//! The names that a block declares, and their types.

use crate::authored::{
    BlockItem, Expr, Function, Item, Lambda, Parameter, Term, TypeTerm, items, parameter_terms,
    path_text,
};
use crate::checked::BindingId;
use crate::env::{Bound, Env, World, allocated, retyped};
use crate::error::{Failure, MagError};
use crate::infer::{infer, infer_fn_signature_scoped, inferred, settled, written_type};
use crate::rules::{Typing, typed};
use crate::scope::{
    Candidate, CheckedCandidate, cands, duplicate_failure, duplicated, insert_checked_candidate,
    instance_type, instantiate_candidate, locals_in, option_texts, plain, plain_candidate,
    visible, visible_candidates, visible_types,
};
use crate::text::{cat2, copy_texts, join_texts, joined, same_text, texts};
use crate::types::{MagType, Names, Ty};
use vstd::prelude::*;

verus! {

/// A state of checking and the candidates that it came to.
pub ghost struct Scoping {
    pub world: World,
    pub result: Result<Seq<Candidate>, Failure>,
}

/// A world and candidates with one more candidate, unless it is a duplicate.
pub open spec fn admitted(world: World, scopes: Seq<Candidate>, candidate: Candidate) -> Scoping {
    if duplicated(world, scopes, candidate) {
        Scoping { world, result: Err(duplicate_failure(candidate)) }
    } else {
        Scoping {
            world: retyped(world, candidate.id, candidate.ty),
            result: Ok(scopes.push(candidate)),
        }
    }
}

/// What a binding without a value starts with.
pub open spec fn unready(name: Seq<char>, ty: Option<Ty>) -> Bound {
    Bound { name, ty, value: None, requirements: Seq::empty(), initializer: None }
}

pub open spec fn next_id(world: World) -> BindingId {
    BindingId(world.bindings.len() as u64)
}

/// A new binding of a type, as a candidate of its name.
pub open spec fn introduced(world: World, scopes: Seq<Candidate>, name: Seq<char>, ty: Ty) -> Scoping {
    admitted(
        allocated(world, unready(name, Some(ty))),
        scopes,
        plain_candidate(name, next_id(world), ty),
    )
}

/// Makes a binding of a type and a candidate of its name.
pub fn introduce(env: &mut Env, scopes: &mut Vec<CheckedCandidate>, name: &str, ty: &MagType) -> (result:
    Result<BindingId, MagError>)
    ensures
        final(env)@ == introduced(old(env)@, cands(old(scopes)@), name@, ty@).world,
        match (result, introduced(old(env)@, cands(old(scopes)@), name@, ty@).result) {
            (Ok(id), Ok(view)) => id == next_id(old(env)@) && cands(final(scopes)@) == view,
            (Err(error), Err(failure)) => error@ == failure,
            _ => false,
        },
{
    let id = env.allocate_binding_id(name, Some(ty.copy()));
    assert(id == next_id(old(env)@));
    match insert_checked_candidate(env, scopes, plain(name.to_owned(), id, ty.copy())) {
        Err(error) => Err(error),
        Ok(_) => Ok(id),
    }
}

// ---------------------------------------------------------------------------
// Declarations
// ---------------------------------------------------------------------------

/// The failure of the first invalid item, from index `i` on.
pub open spec fn first_invalid(list: Seq<Item>, i: int) -> Option<Failure>
    decreases list.len() - i,
{
    if i < 0 || i >= list.len() {
        None
    } else {
        match list[i] {
            Item::Invalid(message) => Some(Failure::Type(message)),
            _ => first_invalid(list, i + 1),
        }
    }
}

pub fn find_invalid(list: &Vec<BlockItem>) -> (error: Option<MagError>)
    ensures
        (match error {
            Some(error) => Some(error@),
            None => None,
        }) == first_invalid(items(list@), 0),
{
    let ghost all = items(list@);
    let mut i: usize = 0;
    while i < list.len()
        invariant
            i <= list@.len(),
            all == items(list@),
            first_invalid(all, 0) == first_invalid(all, i as int),
        decreases list@.len() - i,
    {
        assert(all[i as int] == list@[i as int]@);
        if let BlockItem::Invalid(message) = &list[i] {
            return Some(MagError::Type(message.clone()));
        }
        i = i + 1;
    }
    None
}

/// The places of the declarations among the first `n` items.
pub open spec fn declared(list: Seq<Item>, n: int) -> Seq<int>
    decreases n,
{
    if n <= 0 {
        Seq::empty()
    } else if list[n - 1] is Let {
        declared(list, n - 1).push(n - 1)
    } else {
        declared(list, n - 1)
    }
}

/// Places as numbers.
pub open spec fn places(list: Seq<usize>) -> Seq<int> {
    Seq::new(list.len(), |i: int| list[i] as int)
}

/// Whether places are those of declarations.
pub open spec fn all_lets(list: Seq<Item>, at: Seq<int>) -> bool {
    forall|k: int| 0 <= k < at.len() ==> 0 <= #[trigger] at[k] < list.len() && list[at[k]] is Let
}

pub fn find_declared(list: &Vec<BlockItem>) -> (at: Vec<usize>)
    ensures
        places(at@) == declared(items(list@), list@.len() as int),
        all_lets(items(list@), places(at@)),
{
    let ghost all = items(list@);
    let mut at: Vec<usize> = Vec::new();
    assert(places(at@) =~= declared(all, 0));
    let mut i: usize = 0;
    while i < list.len()
        invariant
            i <= list@.len(),
            all == items(list@),
            all.len() == list@.len(),
            places(at@) == declared(all, i as int),
            all_lets(all, places(at@)),
        decreases list@.len() - i,
    {
        assert(all[i as int] == list@[i as int]@);
        if let BlockItem::Let { .. } = &list[i] {
            let ghost before = places(at@);
            at.push(i);
            assert(places(at@) =~= before.push(i as int));
        }
        i = i + 1;
    }
    at
}

/// The name that an item declares.
pub open spec fn let_name(item: Item) -> Seq<char> {
    match item {
        Item::Let(name, _) => name,
        _ => Seq::empty(),
    }
}

/// What an item initializes its name with.
pub open spec fn let_value(item: Item) -> Term {
    match item {
        Item::Let(_, value) => value,
        _ => Term::Unit,
    }
}

/// A world with bindings for the declarations from the `k`th on.
pub open spec fn with_lets(world: World, list: Seq<Item>, at: Seq<int>, k: int) -> World
    decreases at.len() - k,
{
    if k < 0 || k >= at.len() {
        world
    } else {
        with_lets(allocated(world, unready(let_name(list[at[k]]), None)), list, at, k + 1)
    }
}

/// The bindings for some declarations.
pub open spec fn let_ids(world: World, count: nat) -> Seq<BindingId> {
    Seq::new(count, |k: int| BindingId((world.bindings.len() + k) as u64))
}

pub fn allocate_lets(env: &mut Env, list: &Vec<BlockItem>, at: &Vec<usize>) -> (ids: Vec<BindingId>)
    requires
        all_lets(items(list@), places(at@)),
    ensures
        ids@ == let_ids(old(env)@, at@.len()),
        final(env)@ == with_lets(old(env)@, items(list@), places(at@), 0),
{
    let ghost all = items(list@);
    let ghost where_at = places(at@);
    let ghost start = env@;
    let ghost whole = with_lets(start, all, where_at, 0);
    let mut ids: Vec<BindingId> = Vec::new();
    let mut k: usize = 0;
    while k < at.len()
        invariant
            k <= at@.len(),
            start == old(env)@,
            all == items(list@),
            all.len() == list@.len(),
            where_at == places(at@),
            all_lets(all, where_at),
            whole == with_lets(start, all, where_at, 0),
            whole == with_lets(env@, all, where_at, k as int),
            env@.bindings.len() == start.bindings.len() + k,
            ids@.len() == k,
            forall|j: int|
                0 <= j < k ==> (#[trigger] ids@[j]) == BindingId(
                    (start.bindings.len() + j) as u64,
                ),
        decreases at@.len() - k,
    {
        assert(where_at[k as int] == at@[k as int] as int);
        let i = at[k];
        assert(all[i as int] == list@[i as int]@);
        match &list[i] {
            BlockItem::Let { name, .. } => {
                let id = env.allocate_binding_id(name.as_str(), None);
                ids.push(id);
            },
            _ => {
                assert(false);
            },
        }
        k = k + 1;
    }
    assert(ids@ =~= let_ids(start, at@.len()));
    ids
}

// ---------------------------------------------------------------------------
// Functions come first
// ---------------------------------------------------------------------------

pub open spec fn parameter_names(params: Seq<(Seq<char>, TypeTerm)>) -> Seq<Seq<char>> {
    Seq::new(params.len(), |i: int| params[i].0)
}

/// The names of the parameters of a function, also of an ascribed one.
pub open spec fn names_of_parameters(term: Term) -> Option<Seq<Seq<char>>>
    decreases term,
{
    match term {
        Term::Function(function) => Some(parameter_names(function.params)),
        Term::Ascribe(_, value) => names_of_parameters(*value),
        Term::Annotate(_, value) => names_of_parameters(*value),
        _ => None,
    }
}

fn collect_parameter_names(params: &Vec<Parameter>) -> (names: Vec<String>)
    ensures
        texts(names@) == parameter_names(parameter_terms(params@)),
{
    let mut names: Vec<String> = Vec::new();
    let mut i: usize = 0;
    while i < params.len()
        invariant
            i <= params@.len(),
            names@.len() == i,
            forall|j: int| 0 <= j < i ==> (#[trigger] names@[j])@ == params@[j].name@,
        decreases params@.len() - i,
    {
        names.push(params[i].name.clone());
        i = i + 1;
    }
    assert(texts(names@) =~= parameter_names(parameter_terms(params@)));
    names
}

pub fn function_parameter_names(expression: &Expr) -> (names: Option<Vec<String>>)
    ensures
        option_texts(names) == names_of_parameters(expression@),
    decreases expression,
{
    match expression {
        Expr::Function(function) => {
            let f: &Function = function;
            assert(f@.params == parameter_terms(f.params@));
            Some(collect_parameter_names(&f.params))
        },
        Expr::Ascribe { value, .. } => function_parameter_names(value),
        Expr::Annotate { value, .. } => function_parameter_names(value),
        _ => None,
    }
}

/// The candidate that a declared function is.
pub open spec fn function_candidate(name: Seq<char>, id: BindingId, ty: Ty, function: Lambda) -> Candidate {
    Candidate {
        name,
        id,
        ty,
        binders: function.type_params,
        parameters: Some(parameter_names(function.params)),
        contributes: false,
    }
}

/// Candidates with those of the declared functions from the `k`th declaration
/// on, by the types that they are written with.
pub open spec fn with_functions(
    world: World,
    scopes: Seq<Candidate>,
    scope: Set<Seq<char>>,
    list: Seq<Item>,
    at: Seq<int>,
    ids: Seq<BindingId>,
    k: int,
) -> Scoping
    decreases at.len() - k,
{
    if k < 0 || k >= at.len() {
        Scoping { world, result: Ok(scopes) }
    } else {
        match let_value(list[at[k]]) {
            Term::Function(function) => match written_type(world, scope, *function) {
                Err(failure) => Scoping { world, result: Err(failure) },
                Ok(ty) => {
                    let next = admitted(
                        world,
                        scopes,
                        function_candidate(let_name(list[at[k]]), ids[k], ty, *function),
                    );
                    match next.result {
                        Err(_) => next,
                        Ok(more) => with_functions(
                            next.world,
                            more,
                            scope,
                            list,
                            at,
                            ids,
                            k + 1,
                        ),
                    }
                },
            },
            _ => with_functions(world, scopes, scope, list, at, ids, k + 1),
        }
    }
}

pub fn declare_functions(
    env: &mut Env,
    scopes: &mut Vec<CheckedCandidate>,
    scope: &Names,
    list: &Vec<BlockItem>,
    at: &Vec<usize>,
    ids: &Vec<BindingId>,
) -> (result: Result<(), MagError>)
    requires
        all_lets(items(list@), places(at@)),
        ids@.len() == at@.len(),
    ensures
        ({
            let whole = with_functions(
                old(env)@,
                cands(old(scopes)@),
                scope@,
                items(list@),
                places(at@),
                ids@,
                0,
            );
            &&& final(env)@ == whole.world
            &&& match (result, whole.result) {
                (Ok(_), Ok(view)) => cands(final(scopes)@) == view,
                (Err(error), Err(failure)) => error@ == failure,
                _ => false,
            }
        }),
{
    let ghost all = items(list@);
    let ghost where_at = places(at@);
    let ghost whole = with_functions(
        old(env)@,
        cands(old(scopes)@),
        scope@,
        all,
        where_at,
        ids@,
        0,
    );
    let mut k: usize = 0;
    while k < at.len()
        invariant
            k <= at@.len() == ids@.len(),
            all == items(list@),
            all.len() == list@.len(),
            where_at == places(at@),
            all_lets(all, where_at),
            whole == with_functions(
                old(env)@,
                cands(old(scopes)@),
                scope@,
                all,
                where_at,
                ids@,
                0,
            ),
            whole == with_functions(
                env@,
                cands(scopes@),
                scope@,
                all,
                where_at,
                ids@,
                k as int,
            ),
        decreases at@.len() - k,
    {
        assert(where_at[k as int] == at@[k as int] as int);
        let i = at[k];
        assert(all[i as int] == list@[i as int]@);
        if let BlockItem::Let { name, value } = &list[i] {
            assert(let_value(all[i as int]) == value@);
            if let Expr::Function(function) = value {
                let f: &Function = function;
                assert(value@ == Term::Function(Box::new(f@)));
                assert(f@.params == parameter_terms(f.params@));
                assert(f@.type_params == texts(f.type_params@));
                let ty = match infer_fn_signature_scoped(env, scope, f) {
                    Err(error) => return Err(error),
                    Ok(ty) => ty,
                };
                let candidate = CheckedCandidate {
                    name: name.clone(),
                    id: ids[k],
                    ty,
                    generic_binders: copy_texts(&f.type_params),
                    parameter_names: Some(collect_parameter_names(&f.params)),
                    contributes_type_vars: false,
                };
                assert(candidate@ == function_candidate(name@, ids@[k as int], ty@, f@));
                match insert_checked_candidate(env, scopes, candidate) {
                    Err(error) => return Err(error),
                    Ok(_) => {},
                }
            }
        }
        k = k + 1;
    }
    Ok(())
}

// ---------------------------------------------------------------------------
// Other declarations, in the order in which they depend on each other
// ---------------------------------------------------------------------------

/// The declarations among the first `n` that are no functions.
pub open spec fn strict_lets(list: Seq<Item>, at: Seq<int>, n: int) -> Seq<int>
    decreases n,
{
    if n <= 0 {
        Seq::empty()
    } else if let_value(list[at[n - 1]]) is Function {
        strict_lets(list, at, n - 1)
    } else {
        strict_lets(list, at, n - 1).push(n - 1)
    }
}

/// Whether a block declares a name.
pub open spec fn declares_name(list: Seq<Item>, at: Seq<int>, name: Seq<char>, k: int) -> bool
    decreases at.len() - k,
{
    0 <= k < at.len() && (let_name(list[at[k]]) == name || declares_name(list, at, name, k + 1))
}

/// The type of an initializer before it is checked.
pub open spec fn shape(world: World, scopes: Seq<Candidate>, value: Term) -> Typing {
    match value {
        Term::Name(path) => {
            let found = visible(world, scopes, path_text(path));
            if found.len() == 1 && found[0].binders.len() != 0 {
                settled(world, Ok(instance_type(found[0])))
            } else {
                inferred(world, locals_in(scopes), value)
            }
        },
        _ => inferred(world, locals_in(scopes), value),
    }
}

pub fn infer_shape(env: &mut Env, scopes: &Vec<CheckedCandidate>, value: &Expr) -> (result: Result<
    MagType,
    MagError,
>)
    ensures
        typed(final(env)@, result) == shape(old(env)@, cands(scopes@), value@),
{
    if let Expr::Name(path) = value {
        let name = path.text();
        let found = visible_candidates(env, scopes, name.as_str());
        assert(cands(found@).len() == found@.len());
        if found.len() == 1 {
            assert(cands(found@)[0] == found@[0]@);
            assert(texts(found@[0].generic_binders@).len() == found@[0].generic_binders@.len());
            if found[0].generic_binders.len() != 0 {
                let (ty, _) = instantiate_candidate(&found[0]);
                return Ok(ty);
            }
        }
    }
    let locals = visible_types(scopes);
    infer(env, &locals, value)
}

/// The candidate that a declared value is.
pub open spec fn value_candidate(name: Seq<char>, id: BindingId, ty: Ty, value: Term) -> Candidate {
    Candidate {
        name,
        id,
        ty,
        binders: Seq::empty(),
        parameters: names_of_parameters(value),
        contributes: false,
    }
}

/// A pass over declarations without a type: the candidates then, and those that
/// still depend on one without a type.
pub ghost struct Pass {
    pub world: World,
    pub result: Result<(Seq<Candidate>, Seq<int>), Failure>,
}

/// The pass over `pending` from index `j` on; `left` is what it has put off.
pub open spec fn shape_pass(
    world: World,
    scopes: Seq<Candidate>,
    list: Seq<Item>,
    at: Seq<int>,
    ids: Seq<BindingId>,
    pending: Seq<int>,
    j: int,
    left: Seq<int>,
) -> Pass
    decreases pending.len() - j,
{
    if j < 0 || j >= pending.len() {
        Pass { world, result: Ok((scopes, left)) }
    } else {
        let k = pending[j];
        let name = let_name(list[at[k]]);
        let value = let_value(list[at[k]]);
        let found = shape(world, scopes, value);
        match found.result {
            Ok(ty) => {
                let next = admitted(found.world, scopes, value_candidate(name, ids[k], ty, value));
                match next.result {
                    Err(failure) => Pass { world: next.world, result: Err(failure) },
                    Ok(more) => shape_pass(
                        next.world,
                        more,
                        list,
                        at,
                        ids,
                        pending,
                        j + 1,
                        left,
                    ),
                }
            },
            Err(Failure::Unresolved(symbol)) => if declares_name(list, at, symbol, 0) {
                shape_pass(found.world, scopes, list, at, ids, pending, j + 1, left.push(k))
            } else {
                Pass { world: found.world, result: Err(Failure::Unresolved(symbol)) }
            },
            Err(failure) => Pass { world: found.world, result: Err(failure) },
        }
    }
}

/// The names of some declarations.
pub open spec fn names_at(list: Seq<Item>, at: Seq<int>, of: Seq<int>) -> Seq<Seq<char>> {
    Seq::new(of.len(), |j: int| let_name(list[at[of[j]]]))
}

/// Passes until every declaration has a type.
pub open spec fn with_shapes(
    world: World,
    scopes: Seq<Candidate>,
    list: Seq<Item>,
    at: Seq<int>,
    ids: Seq<BindingId>,
    pending: Seq<int>,
) -> Scoping
    decreases pending.len(),
{
    if pending.len() == 0 {
        Scoping { world, result: Ok(scopes) }
    } else {
        let pass = shape_pass(world, scopes, list, at, ids, pending, 0, Seq::empty());
        match pass.result {
            Err(failure) => Scoping { world: pass.world, result: Err(failure) },
            Ok((more, left)) => if left.len() < pending.len() {
                with_shapes(pass.world, more, list, at, ids, left)
            } else {
                Scoping {
                    world: pass.world,
                    result: Err(
                        Failure::Type(
                            "cannot infer recursive strict bindings: "@ + joined(
                                names_at(list, at, left),
                                ", "@,
                            ),
                        ),
                    ),
                }
            },
        }
    }
}

fn find_strict(list: &Vec<BlockItem>, at: &Vec<usize>) -> (pending: Vec<usize>)
    requires
        all_lets(items(list@), places(at@)),
    ensures
        places(pending@) == strict_lets(items(list@), places(at@), at@.len() as int),
        forall|j: int| 0 <= j < pending@.len() ==> #[trigger] pending@[j] < at@.len(),
{
    let ghost all = items(list@);
    let ghost where_at = places(at@);
    let mut pending: Vec<usize> = Vec::new();
    assert(places(pending@) =~= strict_lets(all, where_at, 0));
    let mut k: usize = 0;
    while k < at.len()
        invariant
            k <= at@.len(),
            all == items(list@),
            all.len() == list@.len(),
            where_at == places(at@),
            all_lets(all, where_at),
            places(pending@) == strict_lets(all, where_at, k as int),
            forall|j: int| 0 <= j < pending@.len() ==> #[trigger] pending@[j] < at@.len(),
        decreases at@.len() - k,
    {
        assert(where_at[k as int] == at@[k as int] as int);
        let i = at[k];
        assert(all[i as int] == list@[i as int]@);
        if let BlockItem::Let { value, .. } = &list[i] {
            assert(let_value(all[i as int]) == value@);
            let is_function = match value {
                Expr::Function(_) => true,
                _ => false,
            };
            assert(is_function == (value@ is Function));
            if !is_function {
                let ghost before = places(pending@);
                pending.push(k);
                assert(places(pending@) =~= before.push(k as int));
            }
        }
        k = k + 1;
    }
    pending
}

fn is_declared(list: &Vec<BlockItem>, at: &Vec<usize>, name: &str) -> (found: bool)
    requires
        all_lets(items(list@), places(at@)),
    ensures
        found == declares_name(items(list@), places(at@), name@, 0),
{
    let ghost all = items(list@);
    let ghost where_at = places(at@);
    let mut k: usize = 0;
    while k < at.len()
        invariant
            k <= at@.len(),
            all == items(list@),
            all.len() == list@.len(),
            where_at == places(at@),
            all_lets(all, where_at),
            declares_name(all, where_at, name@, 0) == declares_name(
                all,
                where_at,
                name@,
                k as int,
            ),
        decreases at@.len() - k,
    {
        assert(where_at[k as int] == at@[k as int] as int);
        let i = at[k];
        assert(all[i as int] == list@[i as int]@);
        if let BlockItem::Let { name: own, .. } = &list[i] {
            if same_text(own.as_str(), name) {
                return true;
            }
        }
        k = k + 1;
    }
    false
}

fn pass_shapes(
    env: &mut Env,
    scopes: &mut Vec<CheckedCandidate>,
    list: &Vec<BlockItem>,
    at: &Vec<usize>,
    ids: &Vec<BindingId>,
    pending: &Vec<usize>,
) -> (result: Result<Vec<usize>, MagError>)
    requires
        all_lets(items(list@), places(at@)),
        ids@.len() == at@.len(),
        forall|j: int| 0 <= j < pending@.len() ==> #[trigger] pending@[j] < at@.len(),
    ensures
        ({
            let whole = shape_pass(
                old(env)@,
                cands(old(scopes)@),
                items(list@),
                places(at@),
                ids@,
                places(pending@),
                0,
                Seq::empty(),
            );
            &&& final(env)@ == whole.world
            &&& match (result, whole.result) {
                (Ok(left), Ok((view, rest))) => {
                    &&& cands(final(scopes)@) == view
                    &&& places(left@) == rest
                    &&& forall|j: int| 0 <= j < left@.len() ==> #[trigger] left@[j] < at@.len()
                },
                (Err(error), Err(failure)) => error@ == failure,
                _ => false,
            }
        }),
{
    let ghost all = items(list@);
    let ghost where_at = places(at@);
    let ghost waiting = places(pending@);
    let ghost whole = shape_pass(
        old(env)@,
        cands(old(scopes)@),
        all,
        where_at,
        ids@,
        waiting,
        0,
        Seq::empty(),
    );
    let mut left: Vec<usize> = Vec::new();
    assert(places(left@) =~= Seq::<int>::empty());
    let mut j: usize = 0;
    while j < pending.len()
        invariant
            j <= pending@.len(),
            all == items(list@),
            all.len() == list@.len(),
            where_at == places(at@),
            waiting == places(pending@),
            all_lets(all, where_at),
            ids@.len() == at@.len(),
            forall|m: int| 0 <= m < pending@.len() ==> #[trigger] pending@[m] < at@.len(),
            forall|m: int| 0 <= m < left@.len() ==> #[trigger] left@[m] < at@.len(),
            whole == shape_pass(
                old(env)@,
                cands(old(scopes)@),
                all,
                where_at,
                ids@,
                waiting,
                0,
                Seq::empty(),
            ),
            whole == shape_pass(
                env@,
                cands(scopes@),
                all,
                where_at,
                ids@,
                waiting,
                j as int,
                places(left@),
            ),
        decreases pending@.len() - j,
    {
        assert(waiting[j as int] == pending@[j as int] as int);
        let k = pending[j];
        assert(where_at[k as int] == at@[k as int] as int);
        let i = at[k];
        assert(all[i as int] == list@[i as int]@);
        match &list[i] {
            BlockItem::Let { name, value } => {
                assert(let_value(all[i as int]) == value@);
                match infer_shape(env, scopes, value) {
                    Ok(ty) => {
                        let binders: Vec<String> = Vec::new();
                        assert(texts(binders@) =~= Seq::<Seq<char>>::empty());
                        let candidate = CheckedCandidate {
                            name: name.clone(),
                            id: ids[k],
                            ty,
                            generic_binders: binders,
                            parameter_names: function_parameter_names(value),
                            contributes_type_vars: false,
                        };
                        assert(candidate@ == value_candidate(
                            name@,
                            ids@[k as int],
                            ty@,
                            value@,
                        ));
                        match insert_checked_candidate(env, scopes, candidate) {
                            Err(error) => return Err(error),
                            Ok(_) => {},
                        }
                    },
                    Err(MagError::Unresolved(symbol)) => {
                        if is_declared(list, at, symbol.as_str()) {
                            let ghost before = places(left@);
                            left.push(k);
                            assert(places(left@) =~= before.push(k as int));
                        } else {
                            return Err(MagError::Unresolved(symbol));
                        }
                    },
                    Err(error) => return Err(error),
                }
            },
            _ => {
                assert(false);
            },
        }
        j = j + 1;
    }
    Ok(left)
}

fn collect_names(list: &Vec<BlockItem>, at: &Vec<usize>, of: &Vec<usize>) -> (names: Vec<String>)
    requires
        all_lets(items(list@), places(at@)),
        forall|j: int| 0 <= j < of@.len() ==> #[trigger] of@[j] < at@.len(),
    ensures
        texts(names@) == names_at(items(list@), places(at@), places(of@)),
{
    let ghost all = items(list@);
    let ghost where_at = places(at@);
    let ghost chosen = places(of@);
    let mut names: Vec<String> = Vec::new();
    let mut j: usize = 0;
    while j < of.len()
        invariant
            j <= of@.len(),
            names@.len() == j,
            all == items(list@),
            all.len() == list@.len(),
            where_at == places(at@),
            chosen == places(of@),
            all_lets(all, where_at),
            forall|m: int| 0 <= m < of@.len() ==> #[trigger] of@[m] < at@.len(),
            forall|m: int|
                0 <= m < j ==> (#[trigger] names@[m])@ == let_name(all[where_at[chosen[m]]]),
        decreases of@.len() - j,
    {
        assert(chosen[j as int] == of@[j as int] as int);
        let k = of[j];
        assert(where_at[k as int] == at@[k as int] as int);
        let i = at[k];
        assert(all[i as int] == list@[i as int]@);
        match &list[i] {
            BlockItem::Let { name, .. } => {
                names.push(name.clone());
            },
            _ => {
                assert(false);
                names.push("".to_owned());
            },
        }
        j = j + 1;
    }
    assert(texts(names@) =~= names_at(all, where_at, chosen));
    names
}

pub fn declare_values(
    env: &mut Env,
    scopes: &mut Vec<CheckedCandidate>,
    list: &Vec<BlockItem>,
    at: &Vec<usize>,
    ids: &Vec<BindingId>,
) -> (result: Result<(), MagError>)
    requires
        all_lets(items(list@), places(at@)),
        ids@.len() == at@.len(),
    ensures
        ({
            let whole = with_shapes(
                old(env)@,
                cands(old(scopes)@),
                items(list@),
                places(at@),
                ids@,
                strict_lets(items(list@), places(at@), at@.len() as int),
            );
            &&& final(env)@ == whole.world
            &&& match (result, whole.result) {
                (Ok(_), Ok(view)) => cands(final(scopes)@) == view,
                (Err(error), Err(failure)) => error@ == failure,
                _ => false,
            }
        }),
{
    let ghost all = items(list@);
    let ghost where_at = places(at@);
    let mut pending = find_strict(list, at);
    let ghost whole = with_shapes(
        old(env)@,
        cands(old(scopes)@),
        all,
        where_at,
        ids@,
        strict_lets(all, where_at, at@.len() as int),
    );
    while pending.len() > 0
        invariant
            all == items(list@),
            where_at == places(at@),
            all_lets(all, where_at),
            ids@.len() == at@.len(),
            forall|j: int| 0 <= j < pending@.len() ==> #[trigger] pending@[j] < at@.len(),
            whole == with_shapes(
                old(env)@,
                cands(old(scopes)@),
                all,
                where_at,
                ids@,
                strict_lets(all, where_at, at@.len() as int),
            ),
            whole == with_shapes(
                env@,
                cands(scopes@),
                all,
                where_at,
                ids@,
                places(pending@),
            ),
        decreases pending@.len(),
    {
        assert(places(pending@).len() == pending@.len());
        let left = match pass_shapes(env, scopes, list, at, ids, &pending) {
            Err(error) => return Err(error),
            Ok(left) => left,
        };
        assert(places(left@).len() == left@.len());
        if left.len() < pending.len() {
            pending = left;
        } else {
            let names = collect_names(list, at, &left);
            let names = join_texts(&names, ", ");
            return Err(
                MagError::Type(cat2("cannot infer recursive strict bindings: ", names.as_str())),
            );
        }
    }
    assert(places(pending@).len() == pending@.len());
    Ok(())
}

} // verus!
