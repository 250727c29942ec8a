//! Which types support equality, and what names, constructors and fields stand for.

use crate::checked::{Typed, TypedKind};
use crate::checking::suits;
use crate::compat::{
    constructor_at, constructor_named, constructors_of, equality_from, equality_of, field_at,
    selected, substituted_fields,
};
use crate::compile::{concrete_matches, data_matches, narrowed, symbol, symbol_matches, symbol_type};
use crate::declare::{Body, Constructor};
use crate::env::{World, decl_of};
use crate::error::Failure;
use crate::fitting::{lemma_fit_agrees, within};
use crate::resolve::TYPE_DEPTH_LIMIT;
use crate::scope::{Candidate, instance_bindable, instance_type, visible};
use crate::types::{Ty, internal_vars, substituted, vars, vars_from, zipped};
use vstd::prelude::*;

verus! {

// ---------------------------------------------------------------------------
// Equality
// ---------------------------------------------------------------------------

/// A type in which a function, or something else that cannot be compared, stands.
pub open spec fn holds_incomparable(ty: Ty) -> bool
    decreases ty,
{
    match ty {
        Ty::Function(_, _) | Ty::TypeTag(_) | Ty::Artifact | Ty::PackedValue | Ty::HostInputs => true,
        Ty::List(item) => holds_incomparable(*item),
        Ty::SetOf(item) => holds_incomparable(*item),
        Ty::MapOf(key, value) => holds_incomparable(*key) || holds_incomparable(*value),
        Ty::Product(items) => exists|i: int|
            0 <= i < items.len() && holds_incomparable(#[trigger] items[i]),
        Ty::Named(_, args) => exists|i: int|
            0 <= i < args.len() && holds_incomparable(#[trigger] args[i]),
        _ => false,
    }
}

/// A type that supports equality holds nothing that cannot be compared. Every variable in it is
/// among those of which equality is then required.
pub proof fn lemma_equality_supported(world: World, ty: Ty, fuel: nat)
    requires
        fuel > 0,
        within(ty, (fuel - 1) as nat),
    ensures
        equality_of(world, ty, fuel) matches Ok(names) ==> !holds_incomparable(ty) && vars(
            ty,
        ).subset_of(names),
    decreases fuel, 0int, 0int,
{
    let less = (fuel - 1) as nat;
    match ty {
        Ty::List(item) => {
            lemma_equality_supported(world, *item, less);
        },
        Ty::SetOf(item) => {
            lemma_equality_supported(world, *item, less);
        },
        Ty::MapOf(key, value) => {
            lemma_equality_supported(world, *key, less);
            lemma_equality_supported(world, *value, less);
        },
        Ty::Product(items) => {
            lemma_parts_supported(world, items, 0, less);
        },
        Ty::Named(_, args) => {
            lemma_parts_supported(world, args, 0, less);
        },
        _ => {},
    }
}

proof fn lemma_parts_supported(world: World, types: Seq<Ty>, i: int, fuel: nat)
    requires
        0 <= i,
        fuel > 0,
        forall|k: int| 0 <= k < types.len() ==> within(#[trigger] types[k], (fuel - 1) as nat),
    ensures
        equality_from(world, types, i, fuel) matches Ok(names) ==> vars_from(types, i).subset_of(
            names,
        ) && forall|k: int|
            i <= k < types.len() ==> !holds_incomparable(#[trigger] types[k]),
    decreases fuel, 1int, types.len() - i,
{
    if i < types.len() {
        lemma_equality_supported(world, types[i], fuel);
        lemma_parts_supported(world, types, i + 1, fuel);
    }
}

// ---------------------------------------------------------------------------
// Constructors and fields
// ---------------------------------------------------------------------------

proof fn lemma_constructor_at(list: Seq<Constructor>, name: Seq<char>, i: int)
    requires
        0 <= i,
    ensures
        match constructor_at(list, name, i) {
            Some(constructor) => exists|n: int|
                {
                    &&& i <= n < list.len()
                    &&& #[trigger] list[n] == constructor
                    &&& list[n].id.name == name
                    &&& forall|k: int| i <= k < n ==> (#[trigger] list[k]).id.name != name
                },
            None => forall|k: int| i <= k < list.len() ==> (#[trigger] list[k]).id.name != name,
        },
    decreases list.len() - i,
{
    if i < list.len() {
        if list[i].id.name == name {
            assert(list[i] == constructor_at(list, name, i)->Some_0);
        } else {
            lemma_constructor_at(list, name, i + 1);
        }
    }
}

/// A constructor of a type is the first one that its declaration has under that name, with the
/// arguments of the type in place of the parameters.
pub proof fn lemma_constructor_found(
    world: World,
    owner: Seq<char>,
    arguments: Seq<Ty>,
    name: Seq<char>,
)
    ensures
        constructor_named(world, Ty::Named(owner, arguments), name) matches Ok(constructor) ==> (
        decl_of(world, owner) matches Some(declaration) && (declaration.body matches Body::Adt(
            declared,
        ) && declaration.params.len() == arguments.len() && exists|n: int|
            {
                &&& 0 <= n < declared.len()
                &&& (#[trigger] declared[n]).id.name == name
                &&& constructor.id == declared[n].id
                &&& constructor.payload == substituted(
                    declared[n].payload,
                    zipped(declaration.params, arguments),
                )
                &&& forall|k: int| 0 <= k < n ==> (#[trigger] declared[k]).id.name != name
            })),
{
    let ty = Ty::Named(owner, arguments);
    if let Ok(list) = constructors_of(world, ty) {
        lemma_constructor_at(list, name, 0);
        if let Some(constructor) = constructor_at(list, name, 0) {
            let declaration = decl_of(world, owner)->Some_0;
            let declared = declaration.body->Adt_0;
            let n = choose|n: int|
                {
                    &&& 0 <= n < list.len()
                    &&& #[trigger] list[n] == constructor
                    &&& list[n].id.name == name
                    &&& forall|k: int| 0 <= k < n ==> (#[trigger] list[k]).id.name != name
                };
            assert(declared[n].id.name == name);
            assert forall|k: int| 0 <= k < n implies (#[trigger] declared[k]).id.name != name by {
                assert(list[k].id == declared[k].id);
            }
        }
    }
}

/// The type of a field of a record is the one that is declared for it, with the arguments of
/// the type in place of the parameters.
pub proof fn lemma_field_selected(
    world: World,
    owner: Seq<char>,
    arguments: Seq<Ty>,
    key: Seq<char>,
    n: int,
)
    requires
        decl_of(world, owner) matches Some(declaration) && (declaration.body matches Body::Fields(
            fields,
        ) && 0 <= n < fields.len() && fields[n].0 == key && forall|k: int|
            0 <= k < n ==> (#[trigger] fields[k]).0 != key),
    ensures
        ({
            let declaration = decl_of(world, owner)->Some_0;
            selected(world, Ty::Named(owner, arguments), Some(key)) == Some(
                substituted(
                    declaration.body->Fields_0[n].1,
                    zipped(declaration.params, arguments),
                ),
            )
        }),
{
    let declaration = decl_of(world, owner)->Some_0;
    let fields = declaration.body->Fields_0;
    let found = substituted_fields(fields, zipped(declaration.params, arguments));
    assert forall|k: int| 0 <= k < n implies (#[trigger] found[k]).0 != key by {
        assert(fields[k].0 != key);
    }
    lemma_field_at(found, key, 0, n);
}

proof fn lemma_field_at(fields: Seq<(Seq<char>, Ty)>, name: Seq<char>, i: int, n: int)
    requires
        0 <= i <= n < fields.len(),
        fields[n].0 == name,
        forall|k: int| i <= k < n ==> (#[trigger] fields[k]).0 != name,
    ensures
        field_at(fields, name, i) == Some(fields[n].1),
    decreases n - i,
{
    if i < n {
        assert(fields[i].0 != name);
        lemma_field_at(fields, name, i + 1, n);
    }
}

// ---------------------------------------------------------------------------
// Names
// ---------------------------------------------------------------------------

/// A candidate fits where a type is expected of it: without type parameters its type suits
/// what is expected, and with them what is expected suits its type.
pub open spec fn candidate_suits(world: World, candidate: Candidate, expected: Option<Ty>) -> bool {
    expected matches Some(wanted) ==> if candidate.binders.len() == 0 {
        suits(world, instance_type(candidate), wanted)
    } else {
        suits(world, wanted, instance_type(candidate))
    }
}

proof fn lemma_symbol_type(world: World, candidate: Candidate, expected: Option<Ty>)
    ensures
        symbol_type(world, candidate, expected) is Some ==> candidate_suits(
            world,
            candidate,
            expected,
        ),
{
    if let Some(wanted) = expected {
        let ty = instance_type(candidate);
        let limit = TYPE_DEPTH_LIMIT as nat;
        let bindable = instance_bindable(candidate).union(internal_vars(wanted));
        let generic = Some(bindable.union(internal_vars(wanted)).union(internal_vars(ty)));
        let plain = Some(bindable.union(internal_vars(ty)).union(internal_vars(wanted)));
        lemma_fit_agrees(world, wanted, ty, Map::empty(), generic, limit);
        lemma_fit_agrees(world, ty, wanted, Map::empty(), plain, limit);
    }
}

/// Some candidate among the first `n` is a match.
spec fn comes_from(
    world: World,
    list: Seq<Candidate>,
    expected: Option<Ty>,
    n: int,
    found: (Candidate, Ty),
) -> bool {
    exists|k: int|
        {
            &&& 0 <= k < n
            &&& #[trigger] list[k] == found.0
            &&& symbol_type(world, list[k], expected) == Some(found.1)
        }
}

proof fn lemma_matches_come(world: World, list: Seq<Candidate>, expected: Option<Ty>, n: int)
    requires
        0 <= n <= list.len(),
    ensures
        forall|m: int|
            0 <= m < symbol_matches(world, list, expected, n).len() ==> comes_from(
                world,
                list,
                expected,
                n,
                #[trigger] symbol_matches(world, list, expected, n)[m],
            ),
    decreases n,
{
    if n > 0 {
        lemma_matches_come(world, list, expected, n - 1);
        let before = symbol_matches(world, list, expected, n - 1);
        let after = symbol_matches(world, list, expected, n);
        assert forall|m: int| 0 <= m < after.len() implies comes_from(
            world,
            list,
            expected,
            n,
            #[trigger] after[m],
        ) by {
            if m < before.len() {
                assert(after[m] == before[m]);
                assert(comes_from(world, list, expected, n - 1, before[m]));
                let k = choose|k: int|
                    {
                        &&& 0 <= k < n - 1
                        &&& #[trigger] list[k] == before[m].0
                        &&& symbol_type(world, list[k], expected) == Some(before[m].1)
                    };
                assert(list[k] == after[m].0);
            } else {
                assert(list[n - 1] == after[m].0);
            }
        }
    }
}

proof fn lemma_concrete_among(list: Seq<(Candidate, Ty)>, n: int)
    requires
        0 <= n <= list.len(),
    ensures
        forall|i: int|
            0 <= i < concrete_matches(list, n).len() ==> list.contains(
                #[trigger] concrete_matches(list, n)[i],
            ),
    decreases n,
{
    if n > 0 {
        lemma_concrete_among(list, n - 1);
        assert(list.contains(list[n - 1]));
        let before = concrete_matches(list, n - 1);
        let after = concrete_matches(list, n);
        assert forall|i: int| 0 <= i < after.len() implies list.contains(#[trigger] after[i]) by {
            if i < before.len() {
                assert(after[i] == before[i]);
            }
        }
    }
}

proof fn lemma_data_among(list: Seq<(Candidate, Ty)>, n: int)
    requires
        0 <= n <= list.len(),
    ensures
        forall|i: int|
            0 <= i < data_matches(list, n).len() ==> list.contains(
                #[trigger] data_matches(list, n)[i],
            ),
    decreases n,
{
    if n > 0 {
        lemma_data_among(list, n - 1);
        assert(list.contains(list[n - 1]));
        let before = data_matches(list, n - 1);
        let after = data_matches(list, n);
        assert forall|i: int| 0 <= i < after.len() implies list.contains(#[trigger] after[i]) by {
            if i < before.len() {
                assert(after[i] == before[i]);
            }
        }
    }
}

/// A name stands for a binding that can be seen under it and that fits what is expected. Where
/// none can be seen it is unresolved, and where one can be seen and nothing is expected it
/// stands for that one.
pub proof fn lemma_name_resolved(
    world: World,
    scopes: Seq<Candidate>,
    name: Seq<char>,
    expected: Option<Ty>,
)
    ensures
        ({
            let all = visible(world, scopes, name);
            &&& all.len() == 0 ==> symbol(world, scopes, name, expected) == Err::<Typed, Failure>(
                Failure::Unresolved(name),
            )
            &&& symbol(world, scopes, name, expected) matches Ok(value) ==> exists|k: int|
                {
                    &&& 0 <= k < all.len()
                    &&& value.kind == TypedKind::BindingRef((#[trigger] all[k]).id)
                    &&& candidate_suits(world, all[k], expected)
                }
            &&& all.len() == 1 && expected is None ==> symbol(world, scopes, name, expected)
                == Ok::<Typed, Failure>(
                Typed { ty: instance_type(all[0]), kind: TypedKind::BindingRef(all[0].id) },
            )
        }),
{
    let all = visible(world, scopes, name);
    let found = symbol_matches(world, all, expected, all.len() as int);
    let concrete = concrete_matches(found, found.len() as int);
    let first = if found.len() > 1 && concrete.len() == 1 {
        concrete
    } else {
        found
    };
    let left = narrowed(found, expected is None);
    lemma_matches_come(world, all, expected, all.len() as int);
    lemma_concrete_among(found, found.len() as int);
    lemma_data_among(first, first.len() as int);
    if left.len() == 1 {
        assert(found.contains(left[0])) by {
            if left == first {
                assert(first.contains(first[0]));
            } else {
                assert(first.contains(left[0]));
                let m = choose|m: int| 0 <= m < first.len() && first[m] == left[0];
                assert(found.contains(first[m])) by {
                    if first == found {
                        assert(found[m] == left[0]);
                    } else {
                        assert(found.contains(concrete[m]));
                    }
                }
            }
        }
        let m = choose|m: int| 0 <= m < found.len() && found[m] == left[0];
        assert(comes_from(world, all, expected, all.len() as int, found[m]));
        let k = choose|k: int|
            {
                &&& 0 <= k < all.len()
                &&& #[trigger] all[k] == found[m].0
                &&& symbol_type(world, all[k], expected) == Some(found[m].1)
            };
        lemma_symbol_type(world, all[k], expected);
        assert(all[k].id == left[0].0.id);
    }
    if all.len() == 1 && expected is None {
        let none = symbol_matches(world, all, expected, 0);
        assert(none.len() == 0);
        assert(found == none.push((all[0], instance_type(all[0]))));
        assert(left == found);
    }
    if all.len() == 0 {
        assert(found.len() == 0);
    }
}

} // verus!
