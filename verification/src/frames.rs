//! The scopes and bindings of code that runs.

use crate::checked::{
    BindingId, CheckedBinding, CheckedExpr, Typed, TypedBinding, TypedParam, typed_bindings,
    typed_params,
};
use crate::env::{
    Binding, Bound, Env, Named, Slot, World, allocated, copy_scopes, defined, known, named_slots,
    option_typed, ready_value, scope_views, scoped,
};
use crate::scope::{sort_names, sorted_names};
use crate::text::{cat2, decimal, decimal_text, texts};
use crate::types::{Subst, Ty};
use crate::value::{FnVal, FnValue, Val, Value, type_of, vals, value_type};
use vstd::prelude::*;

verus! {

// ---------------------------------------------------------------------------
// Finding bindings
// ---------------------------------------------------------------------------

/// The binding that a key stands for among the first `n` names of a scope.
pub open spec fn cell_in(scope: Seq<Named>, key: BindingId, n: int) -> Option<BindingId>
    decreases n,
{
    if n <= 0 {
        None
    } else if scope[n - 1].2 == key {
        Some(scope[n - 1].1)
    } else {
        cell_in(scope, key, n - 1)
    }
}

/// The binding that a key stands for in the first `n` scopes, the innermost first.
pub open spec fn cell_within(scopes: Seq<Seq<Named>>, key: BindingId, n: int) -> Option<BindingId>
    decreases n,
{
    if n <= 0 {
        None
    } else {
        match cell_in(scopes[n - 1], key, scopes[n - 1].len() as int) {
            Some(cell) => Some(cell),
            None => cell_within(scopes, key, n - 1),
        }
    }
}

/// The binding that a key stands for; a key that no scope holds is a binding of
/// its own.
pub open spec fn cell_of(world: World, key: BindingId) -> BindingId {
    match cell_within(world.scopes, key, world.scopes.len() as int) {
        Some(cell) => cell,
        None => key,
    }
}

fn find_in(scope: &Vec<Slot>, key: BindingId) -> (cell: Option<BindingId>)
    ensures
        cell == cell_in(named_slots(scope@), key, scope@.len() as int),
{
    let ghost view = named_slots(scope@);
    let mut n: usize = scope.len();
    while n > 0
        invariant
            n <= scope@.len(),
            view == named_slots(scope@),
            cell_in(view, key, scope@.len() as int) == cell_in(view, key, n as int),
        decreases n,
    {
        assert(view[n - 1].2 == scope@[n - 1].key);
        if scope[n - 1].key == key {
            return Some(scope[n - 1].id);
        }
        n = n - 1;
    }
    None
}

pub fn find_cell(env: &Env, key: BindingId) -> (cell: BindingId)
    ensures
        cell == cell_of(env@, key),
{
    let ghost views = scope_views(env.scopes@);
    let mut n: usize = env.scopes.len();
    while n > 0
        invariant
            n <= env.scopes@.len(),
            views == scope_views(env.scopes@),
            cell_within(views, key, env.scopes@.len() as int) == cell_within(views, key, n as int),
        decreases n,
    {
        assert(views[n - 1] == named_slots(env.scopes@[n - 1]@));
        if let Some(cell) = find_in(&env.scopes[n - 1], key) {
            return cell;
        }
        n = n - 1;
    }
    key
}

/// The name of a binding, as messages show it.
pub open spec fn binding_name(world: World, cell: BindingId) -> Seq<char> {
    if known(world, cell) {
        world.bindings[cell.0 as int].name
    } else {
        "binding#"@ + decimal(cell.0 as nat)
    }
}

pub fn name_of_binding(env: &Env, cell: BindingId) -> (name: String)
    ensures
        name@ == binding_name(env@, cell),
{
    if cell.0 < env.bindings.len() as u64 {
        assert(env@.bindings[cell.0 as int] == env.bindings@[cell.0 as int]@);
        env.bindings[cell.0 as usize].name.clone()
    } else {
        let number = decimal_text(cell.0);
        cat2("binding#", number.as_str())
    }
}

/// The expression that makes the value of a binding.
pub open spec fn initializer_of(world: World, cell: BindingId) -> Option<Typed> {
    if known(world, cell) {
        world.bindings[cell.0 as int].initializer
    } else {
        None
    }
}

pub fn copy_initializer(env: &Env, cell: BindingId) -> (initializer: Option<CheckedExpr>)
    ensures
        option_typed(initializer) == initializer_of(env@, cell),
{
    if cell.0 < env.bindings.len() as u64 {
        assert(env@.bindings[cell.0 as int] == env.bindings@[cell.0 as int]@);
        match &env.bindings[cell.0 as usize].initializer {
            Some(expr) => Some(expr.copy()),
            None => None,
        }
    } else {
        None
    }
}

// ---------------------------------------------------------------------------
// Making bindings
// ---------------------------------------------------------------------------

pub open spec fn next_cell(world: World) -> BindingId {
    BindingId(world.bindings.len() as u64)
}

/// A world in which a key of the innermost scope stands for a new binding.
pub open spec fn keyed(world: World, key: BindingId, bound: Bound) -> World {
    scoped(allocated(world, bound), bound.name, next_cell(world), key)
}

/// A binding whose value is ready.
pub open spec fn ready_bound(name: Seq<char>, value: Val) -> Bound {
    Bound {
        name,
        ty: type_of(value),
        value: Some(value),
        requirements: Seq::empty(),
        initializer: None,
    }
}

/// A binding whose value is to be made by an expression.
pub open spec fn pending_bound(binding: TypedBinding) -> Bound {
    Bound {
        name: binding.name,
        ty: Some(binding.ty),
        value: None,
        requirements: Seq::empty(),
        initializer: Some(binding.initializer),
    }
}

fn add_binding(env: &mut Env, key: BindingId, binding: Binding)
    ensures
        final(env)@ == keyed(old(env)@, key, binding@),
{
    let ghost before = env@;
    let ghost view = binding@;
    let id = BindingId(env.bindings.len() as u64);
    let name = binding.name.clone();
    env.bindings.push(binding);
    assert(env@.bindings =~= before.bindings.push(view));
    let count = env.scopes.len();
    if count > 0 {
        let ghost inner = named_slots(env.scopes@[count - 1]@);
        let slot = Slot { name, id, key };
        env.scopes[count - 1].push(slot);
        proof {
            assert(named_slots(env.scopes@[count - 1]@) =~= inner.push((view.name, id, key)));
            assert(env@.scopes =~= before.scopes.update(
                count - 1,
                before.scopes.last().push((view.name, id, key)),
            ));
        }
    }
}

/// Gives a key of the innermost scope a value.
pub fn define_ready(env: &mut Env, key: BindingId, name: &str, value: Value)
    ensures
        final(env)@ == keyed(old(env)@, key, ready_bound(name@, value@)),
{
    let ty = value_type(&value);
    let binding = Binding {
        name: name.to_owned(),
        ty,
        value: Some(value),
        requirements: Vec::new(),
        initializer: None,
    };
    assert(binding@.requirements =~= Seq::empty());
    add_binding(env, key, binding);
}

/// A world with the bindings of a block, from index `i` on, in its innermost scope.
pub open spec fn declared(world: World, list: Seq<TypedBinding>, i: int) -> World
    decreases list.len() - i,
{
    if i < 0 || i >= list.len() {
        world
    } else {
        declared(keyed(world, list[i].id, pending_bound(list[i])), list, i + 1)
    }
}

pub fn declare_slots(env: &mut Env, list: &Vec<CheckedBinding>)
    ensures
        final(env)@ == declared(old(env)@, typed_bindings(list@), 0),
{
    let ghost all = typed_bindings(list@);
    let ghost whole = declared(env@, all, 0);
    let mut i: usize = 0;
    while i < list.len()
        invariant
            i <= list@.len(),
            all == typed_bindings(list@),
            whole == declared(env@, all, i as int),
        decreases list@.len() - i,
    {
        let item = &list[i];
        assert(all[i as int] == item@);
        let binding = Binding {
            name: item.name.clone(),
            ty: Some(item.ty.copy()),
            value: None,
            requirements: Vec::new(),
            initializer: Some(item.initializer.copy()),
        };
        assert(binding@.requirements =~= Seq::empty());
        assert(binding@ == pending_bound(item@));
        add_binding(env, item.id, binding);
        i = i + 1;
    }
}

/// A world in which a binding has got its value.
pub open spec fn completed(world: World, cell: BindingId, value: Val) -> World {
    if known(world, cell) {
        World {
            bindings: world.bindings.update(
                cell.0 as int,
                Bound { value: Some(value), ..world.bindings[cell.0 as int] },
            ),
            ..world
        }
    } else {
        world
    }
}

pub fn complete(env: &mut Env, cell: BindingId, value: Value)
    ensures
        final(env)@ == completed(old(env)@, cell, value@),
{
    let ghost before = env@;
    if cell.0 < env.bindings.len() as u64 {
        let ghost view = value@;
        env.bindings[cell.0 as usize].value = Some(value);
        proof {
            let i = cell.0 as int;
            assert(env@.bindings =~= before.bindings.update(
                i,
                Bound { value: Some(view), ..before.bindings[i] },
            ));
        }
    }
}

// ---------------------------------------------------------------------------
// Calls
// ---------------------------------------------------------------------------

/// The names of type declarations among the first `n` names of a scope.
pub open spec fn declaring_in(world: World, scope: Seq<Named>, n: int) -> Seq<Named>
    decreases n,
{
    if n <= 0 {
        Seq::empty()
    } else {
        match ready_value(world, scope[n - 1].1) {
            Some(Val::TypeDecl(_)) => declaring_in(world, scope, n - 1).push(scope[n - 1]),
            _ => declaring_in(world, scope, n - 1),
        }
    }
}

/// The names of type declarations in the first `n` scopes.
pub open spec fn declaring(world: World, scopes: Seq<Seq<Named>>, n: int) -> Seq<Named>
    decreases n,
{
    if n <= 0 {
        Seq::empty()
    } else {
        declaring(world, scopes, n - 1) + declaring_in(
            world,
            scopes[n - 1],
            scopes[n - 1].len() as int,
        )
    }
}

fn add_declaring(env: &Env, scope: &Vec<Slot>, slots: &mut Vec<Slot>)
    ensures
        named_slots(final(slots)@) == named_slots(old(slots)@) + declaring_in(
            env@,
            named_slots(scope@),
            scope@.len() as int,
        ),
{
    let ghost view = named_slots(scope@);
    let ghost start = named_slots(slots@);
    assert(start + declaring_in(env@, view, 0) =~= start);
    let mut n: usize = 0;
    while n < scope.len()
        invariant
            n <= scope@.len(),
            view == named_slots(scope@),
            named_slots(slots@) == start + declaring_in(env@, view, n as int),
        decreases scope@.len() - n,
    {
        let slot = &scope[n];
        let ghost before = named_slots(slots@);
        assert(view[n as int] == (slot.name@, slot.id, slot.key));
        match env.ready_binding(slot.id) {
            Some(Value::TypeDecl(_)) => {
                slots.push(slot.copy());
                assert(named_slots(slots@) =~= before.push(view[n as int]));
                assert(before.push(view[n as int]) =~= start + declaring_in(env@, view, n + 1));
            },
            _ => {},
        }
        n = n + 1;
    }
}

fn collect_declaring(env: &Env) -> (slots: Vec<Slot>)
    ensures
        named_slots(slots@) == declaring(env@, env@.scopes, env@.scopes.len() as int),
{
    let ghost views = env@.scopes;
    let mut slots: Vec<Slot> = Vec::new();
    assert(named_slots(slots@) =~= Seq::<Named>::empty());
    let mut n: usize = 0;
    while n < env.scopes.len()
        invariant
            n <= env.scopes@.len(),
            views == env@.scopes,
            views == scope_views(env.scopes@),
            named_slots(slots@) == declaring(env@, views, n as int),
        decreases env.scopes@.len() - n,
    {
        assert(views[n as int] == named_slots(env.scopes@[n as int]@));
        add_declaring(env, &env.scopes[n], &mut slots);
        n = n + 1;
    }
    slots
}

/// A world in which names, from index `i` on, stand for types.
pub open spec fn with_types(
    world: World,
    names: Seq<Seq<char>>,
    types: Map<Seq<char>, Ty>,
    i: int,
) -> World
    decreases names.len() - i,
{
    if i < 0 || i >= names.len() {
        world
    } else {
        with_types(defined(world, names[i], Val::Type(types[names[i]])), names, types, i + 1)
    }
}

/// A world in which parameters, from index `i` on, stand for argument values.
pub open spec fn with_arguments(
    world: World,
    params: Seq<TypedParam>,
    args: Seq<Val>,
    i: int,
) -> World
    decreases params.len() - i,
{
    if i < 0 || i >= params.len() || i >= args.len() {
        world
    } else {
        with_arguments(
            keyed(world, params[i].id, ready_bound(params[i].name, args[i])),
            params,
            args,
            i + 1,
        )
    }
}

/// The world inside a call: the scopes that the function was made in, and a scope
/// with the caller's type declarations, the types that the call fixes and the
/// arguments.
pub open spec fn inside_call(
    world: World,
    function: FnVal,
    types: Map<Seq<char>, Ty>,
    args: Seq<Val>,
) -> World {
    let entered = World {
        scopes: function.closure.push(declaring(world, world.scopes, world.scopes.len() as int)),
        ..world
    };
    with_arguments(
        with_types(entered, sorted_names(types.dom()), types, 0),
        function.checked.params,
        args,
        0,
    )
}

/// Enters a call; the scopes of the caller are handed back.
pub fn enter_function(env: &mut Env, function: &FnValue, types: &Subst, args: &Vec<Value>) -> (scopes:
    Vec<Vec<Slot>>)
    ensures
        scope_views(scopes@) == old(env)@.scopes,
        final(env)@ == inside_call(old(env)@, function@, types@, vals(args@)),
{
    let ghost outer = env@;
    let slots = collect_declaring(env);
    let mut scopes = copy_scopes(&function.closure);
    let ghost closure = scope_views(scopes@);
    scopes.push(slots);
    assert(scope_views(scopes@) =~= closure.push(named_slots(slots@)));
    core::mem::swap(&mut env.scopes, &mut scopes);
    let ghost entered = World {
        scopes: function@.closure.push(declaring(outer, outer.scopes, outer.scopes.len() as int)),
        ..outer
    };
    assert(env@ == entered);
    let keys = types.names();
    let names = sort_names(&keys);
    let ghost all = texts(names@);
    let ghost typed = with_types(entered, all, types@, 0);
    let mut i: usize = 0;
    while i < names.len()
        invariant
            i <= names@.len(),
            all == texts(names@),
            all.len() == names@.len(),
            all.to_set() == types@.dom(),
            typed == with_types(env@, all, types@, i as int),
        decreases names@.len() - i,
    {
        assert(all[i as int] == names@[i as int]@);
        assert(all.to_set().contains(all[i as int]));
        if let Some(ty) = types.get(names[i].as_str()) {
            env.define(names[i].as_str(), Value::Type(ty.copy()));
        }
        i = i + 1;
    }
    let ghost params = typed_params(function.checked.params@);
    let ghost values = vals(args@);
    assert(env@ == typed);
    let ghost whole = with_arguments(typed, params, values, 0);
    let mut k: usize = 0;
    while k < function.checked.params.len() && k < args.len()
        invariant
            k <= function.checked.params@.len(),
            k <= args@.len(),
            params == typed_params(function.checked.params@),
            values == vals(args@),
            whole == with_arguments(env@, params, values, k as int),
        decreases args@.len() - k,
    {
        let param = &function.checked.params[k];
        assert(params[k as int] == param@);
        assert(values[k as int] == args@[k as int]@);
        define_ready(env, param.id, param.name.as_str(), args[k].copy());
        k = k + 1;
    }
    assert(params.len() == function.checked.params@.len() && values.len() == args@.len());
    assert(function@.checked.params == params);
    scopes
}

// ---------------------------------------------------------------------------
// Laws
// ---------------------------------------------------------------------------

/// No slot of a scope stands for a declared type.
pub open spec fn declares_nothing(world: World, scope: Seq<Named>) -> bool {
    forall|i: int|
        0 <= i < scope.len() ==> !(ready_value(world, (#[trigger] scope[i]).1) matches Some(value)
            && value is TypeDecl)
}

proof fn lemma_declares_nothing(world: World, scope: Seq<Named>, n: int)
    requires
        declares_nothing(world, scope),
        n <= scope.len(),
    ensures
        declaring_in(world, scope, n) == Seq::<Named>::empty(),
    decreases n,
{
    if n > 0 {
        lemma_declares_nothing(world, scope, n - 1);
        assert(!(ready_value(world, scope[n - 1].1) matches Some(value) && value is TypeDecl));
    }
}

proof fn lemma_declaring_frame(
    world: World,
    other: World,
    scopes: Seq<Seq<Named>>,
    longer: Seq<Seq<Named>>,
    n: int,
)
    requires
        world.bindings == other.bindings,
        n <= scopes.len() <= longer.len(),
        forall|i: int| 0 <= i < scopes.len() ==> scopes[i] == longer[i],
    ensures
        declaring(world, scopes, n) == declaring(other, longer, n),
    decreases n,
{
    if n > 0 {
        lemma_declaring_frame(world, other, scopes, longer, n - 1);
        lemma_declaring_in_frame(world, other, scopes[n - 1], scopes[n - 1].len() as int);
    }
}

proof fn lemma_declaring_in_frame(world: World, other: World, scope: Seq<Named>, n: int)
    requires
        world.bindings == other.bindings,
        n <= scope.len(),
    ensures
        declaring_in(world, scope, n) == declaring_in(other, scope, n),
    decreases n,
{
    if n > 0 {
        lemma_declaring_in_frame(world, other, scope, n - 1);
    }
}

/// What a function sees when it is called does not depend on the values that only its
/// caller has bound: a scope of the caller without type declarations makes no difference.
pub proof fn lemma_call_ignores_caller(
    world: World,
    scope: Seq<Named>,
    function: FnVal,
    types: Map<Seq<char>, Ty>,
    args: Seq<Val>,
)
    requires
        declares_nothing(world, scope),
    ensures
        inside_call(World { scopes: world.scopes.push(scope), ..world }, function, types, args)
            == inside_call(world, function, types, args),
{
    let other = World { scopes: world.scopes.push(scope), ..world };
    let n = world.scopes.len() as int;
    lemma_declaring_frame(world, other, world.scopes, other.scopes, n);
    assert(declares_nothing(other, scope)) by {
        assert forall|i: int| 0 <= i < scope.len() implies !(ready_value(
            other,
            (#[trigger] scope[i]).1,
        ) matches Some(value) && value is TypeDecl) by {
            assert(ready_value(other, scope[i].1) == ready_value(world, scope[i].1));
        }
    }
    lemma_declares_nothing(other, scope, scope.len() as int);
    let seen = declaring(world, world.scopes, n);
    assert(declaring(other, other.scopes, n + 1) =~= seen);
}

} // verus!
