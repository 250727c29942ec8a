//! Names in scope, and what is known of the bindings behind them.

use crate::checked::{BindingId, CheckedExpr, Typed};
use crate::declare::{Decl, TypeDecl};
use crate::error::{Failure, MagError};
use crate::memo::{Memo, MemoCall, memos};
use crate::profile::saturated;
use crate::text::{cat3, same_text};
use crate::types::{MagType, Names, Ty, copy_types, tys};
use crate::value::{Val, Value, option_ty, type_of, value_type};
use vstd::prelude::*;

verus! {

/// A name in a scope. Checked code refers to a binding by its key; each time
/// that code runs, the key stands for another binding.
#[derive(Debug)]
pub struct Slot {
    pub name: String,
    pub id: BindingId,
    pub key: BindingId,
}

/// What is known of a binding: its name, its type once it is checked, its value
/// once it is ready, the types that have to support equality for it, and the
/// expression that makes its value.
#[derive(Debug)]
pub struct Binding {
    pub name: String,
    pub ty: Option<MagType>,
    pub value: Option<Value>,
    pub requirements: Vec<MagType>,
    pub initializer: Option<CheckedExpr>,
}

/// The environment of a module. Bindings are identified by their index; scopes
/// are listed from the outermost to the innermost one. While functions are
/// checked, the variables that have to support equality are gathered in
/// `obligations`, one set for each function that is being checked.
#[derive(Debug)]
pub struct Env {
    pub scopes: Vec<Vec<Slot>>,
    pub bindings: Vec<Binding>,
    pub module: String,
    pub obligations: Vec<Names>,
    pub memo: Vec<MemoCall>,
}

/// A name, the binding that it names, and the key of that binding.
pub type Named = (Seq<char>, BindingId, BindingId);

pub ghost struct Bound {
    pub name: Seq<char>,
    pub ty: Option<Ty>,
    pub value: Option<Val>,
    pub requirements: Seq<Ty>,
    pub initializer: Option<Typed>,
}

pub ghost struct World {
    pub scopes: Seq<Seq<Named>>,
    pub bindings: Seq<Bound>,
    pub module: Seq<char>,
    pub obligations: Seq<Set<Seq<char>>>,
    pub memo: Seq<Memo>,
}

pub open spec fn named_slots(slots: Seq<Slot>) -> Seq<Named> {
    Seq::new(slots.len(), |i: int| (slots[i].name@, slots[i].id, slots[i].key))
}

pub open spec fn scope_views(scopes: Seq<Vec<Slot>>) -> Seq<Seq<Named>> {
    Seq::new(scopes.len(), |i: int| named_slots(scopes[i]@))
}

pub open spec fn option_val(value: Option<Value>) -> Option<Val> {
    match value {
        Some(value) => Some(value@),
        None => None,
    }
}

pub open spec fn option_typed(expr: Option<CheckedExpr>) -> Option<Typed> {
    match expr {
        Some(expr) => Some(expr@),
        None => None,
    }
}

impl Binding {
    pub open spec fn view(&self) -> Bound {
        Bound {
            name: self.name@,
            ty: option_ty(self.ty),
            value: option_val(self.value),
            requirements: tys(self.requirements@),
            initializer: option_typed(self.initializer),
        }
    }
}

pub open spec fn bound_views(bindings: Seq<Binding>) -> Seq<Bound> {
    Seq::new(bindings.len(), |i: int| bindings[i].view())
}

pub open spec fn name_sets(sets: Seq<Names>) -> Seq<Set<Seq<char>>> {
    Seq::new(sets.len(), |i: int| sets[i].view())
}

impl Env {
    pub open spec fn view(&self) -> World {
        World {
            scopes: scope_views(self.scopes@),
            bindings: bound_views(self.bindings@),
            module: self.module@,
            obligations: name_sets(self.obligations@),
            memo: memos(self.memo@),
        }
    }
}

impl Slot {
    pub fn copy(&self) -> (copy: Self)
        ensures
            copy.name@ == self.name@,
            copy.id == self.id,
            copy.key == self.key,
    {
        Slot { name: self.name.clone(), id: self.id, key: self.key }
    }
}

fn copy_slots(slots: &Vec<Slot>) -> (copy: Vec<Slot>)
    ensures
        named_slots(copy@) == named_slots(slots@),
{
    let mut copy: Vec<Slot> = Vec::new();
    let mut i: usize = 0;
    while i < slots.len()
        invariant
            i <= slots@.len(),
            copy@.len() == i,
            forall|j: int|
                0 <= j < i ==> (#[trigger] copy@[j]).name@ == slots@[j].name@ && copy@[j].id
                    == slots@[j].id && copy@[j].key == slots@[j].key,
        decreases slots@.len() - i,
    {
        copy.push(slots[i].copy());
        i = i + 1;
    }
    assert(named_slots(copy@) =~= named_slots(slots@));
    copy
}

pub fn copy_scopes(scopes: &Vec<Vec<Slot>>) -> (copy: Vec<Vec<Slot>>)
    ensures
        scope_views(copy@) == scope_views(scopes@),
{
    let mut copy: Vec<Vec<Slot>> = Vec::new();
    let mut i: usize = 0;
    while i < scopes.len()
        invariant
            i <= scopes@.len(),
            copy@.len() == i,
            forall|j: int|
                0 <= j < i ==> named_slots((#[trigger] copy@[j])@) == named_slots(scopes@[j]@),
        decreases scopes@.len() - i,
    {
        copy.push(copy_slots(&scopes[i]));
        i = i + 1;
    }
    assert(scope_views(copy@) =~= scope_views(scopes@));
    copy
}

// ---------------------------------------------------------------------------
// Reading
// ---------------------------------------------------------------------------

pub open spec fn known(world: World, id: BindingId) -> bool {
    id.0 < world.bindings.len()
}

/// The value of a binding that is ready.
pub open spec fn ready_value(world: World, id: BindingId) -> Option<Val> {
    if known(world, id) {
        world.bindings[id.0 as int].value
    } else {
        None
    }
}

/// The type of a binding that is checked.
pub open spec fn bound_type(world: World, id: BindingId) -> Option<Ty> {
    if known(world, id) {
        world.bindings[id.0 as int].ty
    } else {
        None
    }
}

pub open spec fn requirements_of(world: World, id: BindingId) -> Seq<Ty> {
    if known(world, id) {
        world.bindings[id.0 as int].requirements
    } else {
        Seq::empty()
    }
}

/// The bindings of a name among the first `n` names of a scope.
pub open spec fn ids_named(scope: Seq<Named>, name: Seq<char>, n: int) -> Seq<BindingId>
    decreases n,
{
    if n <= 0 {
        Seq::empty()
    } else if scope[n - 1].0 == name {
        ids_named(scope, name, n - 1).push(scope[n - 1].1)
    } else {
        ids_named(scope, name, n - 1)
    }
}

/// The bindings of a name in the first `n` scopes, those of inner scopes first.
pub open spec fn ids_within(scopes: Seq<Seq<Named>>, name: Seq<char>, n: int) -> Seq<BindingId>
    decreases n,
{
    if n <= 0 {
        Seq::empty()
    } else {
        ids_named(scopes[n - 1], name, scopes[n - 1].len() as int) + ids_within(
            scopes,
            name,
            n - 1,
        )
    }
}

pub open spec fn candidate_ids(world: World, name: Seq<char>) -> Seq<BindingId> {
    ids_within(world.scopes, name, world.scopes.len() as int)
}

/// Those of the first `n` bindings in a list that are ready.
pub open spec fn ready_ids(world: World, ids: Seq<BindingId>, n: int) -> Seq<BindingId>
    decreases n,
{
    if n <= 0 {
        Seq::empty()
    } else if ready_value(world, ids[n - 1]) is Some {
        ready_ids(world, ids, n - 1).push(ids[n - 1])
    } else {
        ready_ids(world, ids, n - 1)
    }
}

/// The ready bindings of a name.
pub open spec fn candidates(world: World, name: Seq<char>) -> Seq<BindingId> {
    let ids = candidate_ids(world, name);
    ready_ids(world, ids, ids.len() as int)
}

/// What a name stands for: the latest ready binding in the innermost scope that
/// has one.
pub open spec fn looked_up(world: World, name: Seq<char>) -> Option<Val> {
    lookup_within(world, name, world.scopes.len() as int)
}

pub open spec fn lookup_within(world: World, name: Seq<char>, n: int) -> Option<Val>
    decreases n,
{
    if n <= 0 {
        None
    } else {
        match lookup_in(world, world.scopes[n - 1], name, world.scopes[n - 1].len() as int) {
            Some(value) => Some(value),
            None => lookup_within(world, name, n - 1),
        }
    }
}

pub open spec fn lookup_in(world: World, scope: Seq<Named>, name: Seq<char>, n: int) -> Option<Val>
    decreases n,
{
    if n <= 0 {
        None
    } else if scope[n - 1].0 == name && ready_value(world, scope[n - 1].1) is Some {
        ready_value(world, scope[n - 1].1)
    } else {
        lookup_in(world, scope, name, n - 1)
    }
}

/// The declaration that a value is, if it declares a given type.
pub open spec fn declares(value: Option<Val>, name: Seq<char>) -> Option<Decl> {
    match value {
        Some(Val::TypeDecl(declaration)) => if declaration.name == name {
            Some(declaration)
        } else {
            None
        },
        _ => None,
    }
}

/// The declaration of a type, by its qualified name.
pub open spec fn decl_of(world: World, name: Seq<char>) -> Option<Decl> {
    decl_within(world, name, world.scopes.len() as int)
}

pub open spec fn decl_within(world: World, name: Seq<char>, n: int) -> Option<Decl>
    decreases n,
{
    if n <= 0 {
        None
    } else {
        match decl_in(world, world.scopes[n - 1], name, world.scopes[n - 1].len() as int) {
            Some(declaration) => Some(declaration),
            None => decl_within(world, name, n - 1),
        }
    }
}

pub open spec fn decl_in(world: World, scope: Seq<Named>, name: Seq<char>, n: int) -> Option<Decl>
    decreases n,
{
    if n <= 0 {
        None
    } else {
        match declares(ready_value(world, scope[n - 1].1), name) {
            Some(declaration) => Some(declaration),
            None => decl_in(world, scope, name, n - 1),
        }
    }
}

impl Env {
    /// An environment with one empty scope.
    pub fn empty(module: &str) -> (env: Self)
        ensures
            env@ == (World {
                scopes: seq![Seq::empty()],
                bindings: Seq::empty(),
                module: module@,
                obligations: Seq::empty(),
                memo: Seq::empty(),
            }),
    {
        let mut scopes: Vec<Vec<Slot>> = Vec::new();
        scopes.push(Vec::new());
        let env = Env {
            scopes,
            bindings: Vec::new(),
            module: module.to_owned(),
            obligations: Vec::new(),
            memo: Vec::new(),
        };
        proof {
            assert(named_slots(env.scopes@[0]@) =~= Seq::empty());
            assert(env@.scopes =~= seq![Seq::empty()]);
            assert(env@.bindings =~= Seq::empty());
            assert(env@.obligations =~= Seq::empty());
            assert(env@.memo =~= Seq::empty());
        }
        env
    }

    pub fn ready_binding(&self, id: BindingId) -> (value: Option<&Value>)
        ensures
            match (value, ready_value(self@, id)) {
                (Some(value), Some(view)) => value@ == view,
                (None, None) => true,
                _ => false,
            },
    {
        if id.0 < self.bindings.len() as u64 {
            assert(self@.bindings[id.0 as int] == self.bindings@[id.0 as int]@);
            match &self.bindings[id.0 as usize].value {
                Some(value) => Some(value),
                None => None,
            }
        } else {
            None
        }
    }

    pub fn binding_type(&self, id: BindingId) -> (ty: Option<MagType>)
        ensures
            option_ty(ty) == bound_type(self@, id),
    {
        if id.0 < self.bindings.len() as u64 {
            assert(self@.bindings[id.0 as int] == self.bindings@[id.0 as int]@);
            match &self.bindings[id.0 as usize].ty {
                Some(ty) => Some(ty.copy()),
                None => None,
            }
        } else {
            None
        }
    }

    pub fn equality_requirements(&self, id: BindingId) -> (types: Vec<MagType>)
        ensures
            tys(types@) == requirements_of(self@, id),
    {
        if id.0 < self.bindings.len() as u64 {
            assert(self@.bindings[id.0 as int] == self.bindings@[id.0 as int]@);
            copy_types(&self.bindings[id.0 as usize].requirements)
        } else {
            let none: Vec<MagType> = Vec::new();
            assert(tys(none@) =~= Seq::empty());
            none
        }
    }

    pub fn lookup_candidate_ids(&self, name: &str) -> (ids: Vec<BindingId>)
        ensures
            ids@ == candidate_ids(self@, name@),
    {
        let ghost world = self@;
        let mut ids: Vec<BindingId> = Vec::new();
        let mut n: usize = self.scopes.len();
        while n > 0
            invariant
                n <= self.scopes@.len(),
                world == self@,
                ids@ + ids_within(world.scopes, name@, n as int) =~= candidate_ids(world, name@),
            decreases n,
        {
            let scope = &self.scopes[n - 1];
            let ghost view = world.scopes[n - 1];
            let ghost before = ids@;
            assert(view == named_slots(scope@));
            let mut i: usize = 0;
            while i < scope.len()
                invariant
                    i <= scope@.len(),
                    view == named_slots(scope@),
                    ids@ =~= before + ids_named(view, name@, i as int),
                decreases scope@.len() - i,
            {
                assert(view[i as int] == (
                    scope@[i as int].name@,
                    scope@[i as int].id,
                    scope@[i as int].key,
                ));
                if same_text(scope[i].name.as_str(), name) {
                    ids.push(scope[i].id);
                }
                i = i + 1;
            }
            n = n - 1;
        }
        ids
    }

    /// The ready bindings of a name.
    pub fn lookup_candidates(&self, name: &str) -> (ids: Vec<BindingId>)
        ensures
            ids@ == candidates(self@, name@),
    {
        let all = self.lookup_candidate_ids(name);
        let mut ids: Vec<BindingId> = Vec::new();
        let mut i: usize = 0;
        while i < all.len()
            invariant
                i <= all@.len(),
                ids@ =~= ready_ids(self@, all@, i as int),
            decreases all@.len() - i,
        {
            if self.ready_binding(all[i]).is_some() {
                ids.push(all[i]);
            }
            i = i + 1;
        }
        ids
    }

    /// What a name stands for.
    pub fn find(&self, name: &str) -> (value: Option<&Value>)
        ensures
            match (value, looked_up(self@, name@)) {
                (Some(value), Some(view)) => value@ == view,
                (None, None) => true,
                _ => false,
            },
    {
        let ghost world = self@;
        let mut n: usize = self.scopes.len();
        while n > 0
            invariant
                n <= self.scopes@.len(),
                world == self@,
                looked_up(world, name@) == lookup_within(world, name@, n as int),
            decreases n,
        {
            let scope = &self.scopes[n - 1];
            let ghost view = world.scopes[n - 1];
            assert(view == named_slots(scope@));
            let mut i: usize = scope.len();
            while i > 0
                invariant
                    i <= scope@.len(),
                    world == self@,
                    1 <= n <= self.scopes@.len(),
                    view == world.scopes[n - 1],
                    view == named_slots(scope@),
                    looked_up(world, name@) == lookup_within(world, name@, n as int),
                    lookup_in(world, view, name@, view.len() as int) == lookup_in(
                        world,
                        view,
                        name@,
                        i as int,
                    ),
                decreases i,
            {
                i = i - 1;
                assert(view[i as int] == (
                    scope@[i as int].name@,
                    scope@[i as int].id,
                    scope@[i as int].key,
                ));
                if same_text(scope[i].name.as_str(), name) {
                    match self.ready_binding(scope[i].id) {
                        Some(value) => {
                            return Some(value);
                        },
                        None => {},
                    }
                }
            }
            n = n - 1;
        }
        None
    }

    pub fn lookup(&self, name: &str) -> (value: Result<&Value, MagError>)
        ensures
            match (value, looked_up(self@, name@)) {
                (Ok(value), Some(view)) => value@ == view,
                (Err(error), None) => error@ == Failure::Unresolved(name@),
                _ => false,
            },
    {
        match self.find(name) {
            Some(value) => Ok(value),
            None => Err(MagError::Unresolved(name.to_owned())),
        }
    }

    /// The declaration of a type.
    pub fn type_decl(&self, canonical: &str) -> (declaration: Option<&TypeDecl>)
        ensures
            match (declaration, decl_of(self@, canonical@)) {
                (Some(declaration), Some(view)) => declaration@ == view,
                (None, None) => true,
                _ => false,
            },
    {
        let ghost world = self@;
        let ghost name = canonical@;
        let mut n: usize = self.scopes.len();
        while n > 0
            invariant
                n <= self.scopes@.len(),
                world == self@,
                name == canonical@,
                decl_of(world, name) == decl_within(world, name, n as int),
            decreases n,
        {
            let scope = &self.scopes[n - 1];
            let ghost view = world.scopes[n - 1];
            assert(view == named_slots(scope@));
            let mut i: usize = scope.len();
            while i > 0
                invariant
                    i <= scope@.len(),
                    world == self@,
                    name == canonical@,
                    1 <= n <= self.scopes@.len(),
                    view == world.scopes[n - 1],
                    view == named_slots(scope@),
                    decl_of(world, name) == decl_within(world, name, n as int),
                    decl_in(world, view, name, view.len() as int) == decl_in(
                        world,
                        view,
                        name,
                        i as int,
                    ),
                decreases i,
            {
                i = i - 1;
                assert(view[i as int] == (
                    scope@[i as int].name@,
                    scope@[i as int].id,
                    scope@[i as int].key,
                ));
                match self.ready_binding(scope[i].id) {
                    Some(Value::TypeDecl(declaration)) => {
                        if same_text(declaration.name.as_str(), canonical) {
                            return Some(declaration);
                        }
                    },
                    _ => {},
                }
            }
            n = n - 1;
        }
        None
    }
}

// ---------------------------------------------------------------------------
// Writing
// ---------------------------------------------------------------------------

/// A world with one more binding, which no scope names.
pub open spec fn allocated(world: World, bound: Bound) -> World {
    World { bindings: world.bindings.push(bound), ..world }
}

/// A world in which the innermost scope names a binding.
pub open spec fn scoped(world: World, name: Seq<char>, id: BindingId, key: BindingId) -> World {
    if world.scopes.len() == 0 {
        world
    } else {
        World {
            scopes: world.scopes.update(
                world.scopes.len() - 1,
                world.scopes.last().push((name, id, key)),
            ),
            ..world
        }
    }
}

/// How many names the first `n` bindings of a scope have.
pub open spec fn names_in(scope: Seq<Named>, n: int) -> int
    decreases n,
{
    if n <= 0 || n > scope.len() {
        0
    } else if exists|k: int| 0 <= k < n - 1 && (#[trigger] scope[k]).0 == scope[n - 1].0 {
        names_in(scope, n - 1)
    } else {
        names_in(scope, n - 1) + 1
    }
}

/// How many names are bound in the first `n` scopes, each scope for itself.
pub open spec fn names_bound(scopes: Seq<Seq<Named>>, n: int) -> int
    decreases n,
{
    if n <= 0 || n > scopes.len() {
        0
    } else {
        names_bound(scopes, n - 1) + names_in(scopes[n - 1], scopes[n - 1].len() as int)
    }
}

fn count_names_in(scope: &Vec<Slot>) -> (count: u64)
    ensures
        count == names_in(named_slots(scope@), scope@.len() as int),
        count <= scope@.len(),
{
    let ghost all = named_slots(scope@);
    let mut count: u64 = 0;
    let mut n: usize = 0;
    while n < scope.len()
        invariant
            n <= scope@.len(),
            all == named_slots(scope@),
            count == names_in(all, n as int),
            count <= n,
        decreases scope@.len() - n,
    {
        assert(all[n as int].0 == scope@[n as int].name@);
        let mut repeated = false;
        let mut k: usize = 0;
        while k < n && !repeated
            invariant
                k <= n < scope@.len(),
                all == named_slots(scope@),
                all[n as int].0 == scope@[n as int].name@,
                repeated ==> exists|j: int| 0 <= j < n && (#[trigger] all[j]).0 == all[n as int].0,
                !repeated ==> forall|j: int|
                    0 <= j < k ==> (#[trigger] all[j]).0 != all[n as int].0,
            decreases n - k,
        {
            assert(all[k as int].0 == scope@[k as int].name@);
            if same_text(scope[k].name.as_str(), scope[n].name.as_str()) {
                repeated = true;
            }
            k = k + 1;
        }
        if !repeated {
            count = count + 1;
        }
        n = n + 1;
    }
    count
}

/// How many names are bound, up to the largest number.
pub fn count_names(scopes: &Vec<Vec<Slot>>) -> (count: u64)
    ensures
        count == saturated(0, names_bound(scope_views(scopes@), scopes@.len() as int)),
{
    let ghost all = scope_views(scopes@);
    let mut count: u64 = 0;
    let mut n: usize = 0;
    while n < scopes.len()
        invariant
            n <= scopes@.len(),
            all == scope_views(scopes@),
            count == saturated(0, names_bound(all, n as int)),
            0 <= names_bound(all, n as int),
        decreases scopes@.len() - n,
    {
        assert(all[n as int] == named_slots(scopes@[n as int]@));
        let more = count_names_in(&scopes[n]);
        count = count.saturating_add(more);
        n = n + 1;
    }
    count
}

/// A world in which the innermost scope gives a name to a value.
pub open spec fn defined(world: World, name: Seq<char>, value: Val) -> World {
    scoped(
        allocated(
            world,
            Bound {
                name,
                ty: type_of(value),
                value: Some(value),
                requirements: Seq::empty(),
                initializer: None,
            },
        ),
        name,
        BindingId(world.bindings.len() as u64),
        BindingId(world.bindings.len() as u64),
    )
}

pub open spec fn retyped(world: World, id: BindingId, ty: Ty) -> World {
    if known(world, id) {
        World {
            bindings: world.bindings.update(
                id.0 as int,
                Bound { ty: Some(ty), ..world.bindings[id.0 as int] },
            ),
            ..world
        }
    } else {
        world
    }
}

pub open spec fn required(world: World, id: BindingId, requirements: Seq<Ty>) -> World {
    if known(world, id) {
        World {
            bindings: world.bindings.update(
                id.0 as int,
                Bound { requirements, ..world.bindings[id.0 as int] },
            ),
            ..world
        }
    } else {
        world
    }
}

/// A world in which variables are noted as having to support equality.
pub open spec fn noted(world: World, names: Set<Seq<char>>) -> World {
    if world.obligations.len() == 0 {
        world
    } else {
        World {
            obligations: world.obligations.update(
                world.obligations.len() - 1,
                world.obligations.last().union(names),
            ),
            ..world
        }
    }
}

/// A world in which a new set of such variables is gathered.
pub open spec fn gathering(world: World) -> World {
    World { obligations: world.obligations.push(Set::empty()), ..world }
}

/// The set of variables that was gathered last.
pub open spec fn gathered(world: World) -> Set<Seq<char>> {
    if world.obligations.len() == 0 {
        Set::empty()
    } else {
        world.obligations.last()
    }
}

/// A world in which the latest such set is closed.
pub open spec fn ungathered(world: World) -> World {
    if world.obligations.len() == 0 {
        world
    } else {
        World { obligations: world.obligations.drop_last(), ..world }
    }
}

impl Env {
    pub fn push_scope(&mut self)
        ensures
            final(self)@ == (World { scopes: old(self)@.scopes.push(Seq::empty()), ..old(self)@ }),
    {
        let ghost before = self@;
        self.scopes.push(Vec::new());
        proof {
            assert(named_slots(self.scopes@.last()@) =~= Seq::empty());
            assert(self@.scopes =~= before.scopes.push(Seq::empty()));
        }
    }

    /// Closes the innermost scope; the outermost one stays.
    pub fn pop_scope(&mut self)
        ensures
            final(self)@ == (if old(self)@.scopes.len() > 1 {
                World { scopes: old(self)@.scopes.drop_last(), ..old(self)@ }
            } else {
                old(self)@
            }),
    {
        let ghost before = self@;
        if self.scopes.len() > 1 {
            self.scopes.pop();
            assert(self@.scopes =~= before.scopes.drop_last());
        }
    }

    /// Makes a binding that no scope names yet.
    pub fn allocate_binding_id(&mut self, name: &str, ty: Option<MagType>) -> (id: BindingId)
        ensures
            id.0 == old(self)@.bindings.len(),
            final(self)@ == allocated(
                old(self)@,
                Bound {
                    name: name@,
                    ty: option_ty(ty),
                    value: None,
                    requirements: Seq::empty(),
                    initializer: None,
                },
            ),
    {
        let ghost before = self@;
        let id = BindingId(self.bindings.len() as u64);
        let binding = Binding {
            name: name.to_owned(),
            ty,
            value: None,
            requirements: Vec::new(),
            initializer: None,
        };
        let ghost view = binding@;
        assert(view.requirements =~= Seq::empty());
        self.bindings.push(binding);
        assert(self@.bindings =~= before.bindings.push(view));
        id
    }

    /// Gives a name to a value in the innermost scope.
    pub fn define(&mut self, name: &str, value: Value)
        ensures
            final(self)@ == defined(old(self)@, name@, value@),
    {
        let ghost before = self@;
        let id = BindingId(self.bindings.len() as u64);
        let ty = value_type(&value);
        let binding = Binding {
            name: name.to_owned(),
            ty,
            value: Some(value),
            requirements: Vec::new(),
            initializer: None,
        };
        let ghost view = binding@;
        assert(view.requirements =~= Seq::empty());
        self.bindings.push(binding);
        assert(self@.bindings =~= before.bindings.push(view));
        let count = self.scopes.len();
        if count > 0 {
            let ghost inner = named_slots(self.scopes@[count - 1]@);
            let slot = Slot { name: name.to_owned(), id, key: id };
            self.scopes[count - 1].push(slot);
            proof {
                assert(named_slots(self.scopes@[count - 1]@) =~= inner.push((name@, id, id)));
                assert(self@.scopes =~= before.scopes.update(
                    count - 1,
                    before.scopes.last().push((name@, id, id)),
                ));
            }
        }
    }

    pub fn set_binding_type(&mut self, id: BindingId, ty: MagType)
        ensures
            final(self)@ == retyped(old(self)@, id, ty@),
    {
        let ghost before = self@;
        if id.0 < self.bindings.len() as u64 {
            let ghost view = ty@;
            self.bindings[id.0 as usize].ty = Some(ty);
            proof {
                let i = id.0 as int;
                assert(self@.bindings =~= before.bindings.update(
                    i,
                    Bound { ty: Some(view), ..before.bindings[i] },
                ));
            }
        }
    }

    pub fn set_equality_requirements(&mut self, id: BindingId, requirements: Vec<MagType>)
        ensures
            final(self)@ == required(old(self)@, id, tys(requirements@)),
    {
        let ghost before = self@;
        if id.0 < self.bindings.len() as u64 {
            let ghost view = tys(requirements@);
            self.bindings[id.0 as usize].requirements = requirements;
            proof {
                let i = id.0 as int;
                assert(self@.bindings =~= before.bindings.update(
                    i,
                    Bound { requirements: view, ..before.bindings[i] },
                ));
            }
        }
    }

    /// Notes variables that have to support equality.
    pub fn record_equality_variables(&mut self, variables: &Names)
        ensures
            final(self)@ == noted(old(self)@, variables@),
    {
        let ghost before = self@;
        let count = self.obligations.len();
        if count > 0 {
            self.obligations[count - 1].extend(variables);
            assert(self@.obligations =~= before.obligations.update(
                count - 1,
                before.obligations.last().union(variables@),
            ));
        }
    }

    pub fn open_obligations(&mut self)
        ensures
            final(self)@ == gathering(old(self)@),
    {
        let ghost before = self@;
        self.obligations.push(Names::new());
        assert(self@.obligations =~= before.obligations.push(Set::empty()));
    }

    pub fn close_obligations(&mut self) -> (names: Names)
        ensures
            names@ == gathered(old(self)@),
            final(self)@ == ungathered(old(self)@),
    {
        let ghost before = self@;
        match self.obligations.pop() {
            Some(names) => {
                assert(self@.obligations =~= before.obligations.drop_last());
                names
            },
            None => Names::new(),
        }
    }

    pub fn module(&self) -> (name: &str)
        ensures
            name@ == self@.module,
    {
        self.module.as_str()
    }

    /// The name of a declaration of this module.
    pub fn qualify(&self, local: &str) -> (name: String)
        ensures
            name@ == self@.module + "."@ + local@,
    {
        cat3(self.module.as_str(), ".", local)
    }
}

} // verus!
