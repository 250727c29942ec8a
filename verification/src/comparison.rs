//! Laws of equality.

use crate::content::{field_value, member_at};
use crate::declare::Concrete;
use crate::env::World;
use crate::json::Data;
use crate::resolve::concrete_type;
use crate::types::Ty;
use crate::validity::{
    data_equal, equal_any, equal_entries, equal_entry, equal_fields, equal_items, equal_members,
    equals, items_equal, members_equal, nominal,
};
use crate::value::{Val, bare};
use vstd::prelude::*;

verus! {

// ---------------------------------------------------------------------------
// Documents
// ---------------------------------------------------------------------------

/// No object in a document has two members of one name.
pub open spec fn names_once(data: Data) -> bool
    decreases data,
{
    match data {
        Data::Array(items) => forall|i: int| 0 <= i < items.len() ==> names_once(#[trigger] items[i]),
        Data::Object(members) => {
            &&& forall|i: int, j: int|
                0 <= i < j < members.len() ==> (#[trigger] members[i]).0 != (
                #[trigger] members[j]).0
            &&& forall|i: int| 0 <= i < members.len() ==> names_once((#[trigger] members[i]).1)
        },
        _ => true,
    }
}

pub(crate) proof fn lemma_member_found(members: Seq<(Seq<char>, Data)>, n: int, i: int)
    requires
        forall|i: int, j: int|
            0 <= i < j < members.len() ==> (#[trigger] members[i]).0 != (#[trigger] members[j]).0,
        0 <= i <= n < members.len(),
    ensures
        member_at(members, members[n].0, i) == Some(members[n].1),
    decreases n - i,
{
    if i < n {
        lemma_member_found(members, n, i + 1);
        assert(members[i].0 != members[n].0);
    }
}

/// A document equals itself.
pub proof fn lemma_data_reflexive(data: Data)
    requires
        names_once(data),
    ensures
        data_equal(data, data),
    decreases data, 0int,
{
    match data {
        Data::Array(items) => {
            lemma_items_reflexive(items, 0);
        },
        Data::Object(members) => {
            lemma_members_reflexive(members, 0);
        },
        _ => {},
    }
}

proof fn lemma_items_reflexive(items: Seq<Data>, i: int)
    requires
        forall|i: int| 0 <= i < items.len() ==> names_once(#[trigger] items[i]),
    ensures
        items_equal(items, items, i),
    decreases items, items.len() - i,
{
    if 0 <= i < items.len() {
        lemma_data_reflexive(items[i]);
        lemma_items_reflexive(items, i + 1);
    }
}

proof fn lemma_members_reflexive(members: Seq<(Seq<char>, Data)>, i: int)
    requires
        forall|i: int, j: int|
            0 <= i < j < members.len() ==> (#[trigger] members[i]).0 != (#[trigger] members[j]).0,
        forall|i: int| 0 <= i < members.len() ==> names_once((#[trigger] members[i]).1),
    ensures
        members_equal(members, members, i),
    decreases members, members.len() - i,
{
    if 0 <= i < members.len() {
        lemma_member_found(members, i, 0);
        lemma_data_reflexive(members[i].1);
        lemma_members_reflexive(members, i + 1);
    }
}

// ---------------------------------------------------------------------------
// Values
// ---------------------------------------------------------------------------

/// A value that holds nothing that is never equal to anything, such as a function or a
/// variant of a type that is not concrete, and no field twice.
pub open spec fn comparable(world: World, value: Val) -> bool
    decreases value,
{
    match value {
        Val::Typed(inner, _) => comparable(world, *inner),
        Val::Unit | Val::Str(_) | Val::Int(_) | Val::Float(_) | Val::Bool(_) | Val::Keyword(_)
        | Val::Symbol(_) => true,
        Val::List(items) => forall|i: int|
            0 <= i < items.len() ==> comparable(world, #[trigger] items[i]),
        Val::Product(items) => forall|i: int|
            0 <= i < items.len() ==> comparable(world, #[trigger] items[i]),
        Val::SetOf(items) => forall|i: int|
            0 <= i < items.len() ==> comparable(world, #[trigger] items[i]),
        Val::MapOf(entries) => forall|i: int|
            0 <= i < entries.len() ==> comparable(world, (#[trigger] entries[i]).0) && comparable(
                world,
                entries[i].1,
            ),
        Val::Fields(fields) => {
            &&& forall|i: int, j: int|
                0 <= i < j < fields.len() ==> (#[trigger] fields[i]).0 != (#[trigger] fields[j]).0
            &&& forall|i: int|
                0 <= i < fields.len() ==> comparable(world, (#[trigger] fields[i]).1)
        },
        Val::Adt(owner, _, payload) => concrete_type(world, owner) is Ok && comparable(
            world,
            *payload,
        ),
        Val::JsonValue(data) => names_once(data),
        _ => false,
    }
}

pub(crate) proof fn lemma_field_found(fields: Seq<(Seq<char>, Val)>, n: int, i: int)
    requires
        forall|i: int, j: int|
            0 <= i < j < fields.len() ==> (#[trigger] fields[i]).0 != (#[trigger] fields[j]).0,
        0 <= i <= n < fields.len(),
    ensures
        field_value(fields, fields[n].0, i) == Some(fields[n].1),
    decreases n - i,
{
    if i < n {
        lemma_field_found(fields, n, i + 1);
        assert(fields[i].0 != fields[n].0);
    }
}

/// A type that is not a named one makes no difference to equality.
pub proof fn lemma_equals_untyped(world: World, left: Val, right: Val, ty: Ty)
    requires
        !(concrete_type(world, ty) matches Ok(concrete) && concrete is Named),
    ensures
        equals(world, left, Val::Typed(Box::new(right), ty)) == equals(world, left, right),
    decreases left,
{
    let typed = Val::Typed(Box::new(right), ty);
    assert(nominal(world, typed) == nominal(world, right));
    assert(bare(typed) == bare(right));
    if let Val::Typed(inner, _) = left {
        lemma_equals_untyped(world, *inner, right, ty);
    }
}

/// A comparable value equals itself.
pub proof fn lemma_equals_reflexive(world: World, value: Val)
    requires
        comparable(world, value),
    ensures
        equals(world, value, value),
    decreases value, 0int,
{
    match value {
        Val::Typed(inner, ty) => {
            lemma_equals_reflexive(world, *inner);
            match concrete_type(world, ty) {
                Ok(Concrete::Named(_, _, _)) => {},
                _ => {
                    assert(value == Val::Typed(inner, ty));
                    lemma_equals_untyped(world, *inner, *inner, ty);
                },
            }
        },
        Val::List(items) => {
            lemma_equal_items(world, items, 0);
        },
        Val::Product(items) => {
            lemma_equal_items(world, items, 0);
        },
        Val::SetOf(items) => {
            lemma_equal_members(world, items, 0);
        },
        Val::MapOf(entries) => {
            lemma_equal_entries(world, entries, 0);
        },
        Val::Fields(fields) => {
            lemma_equal_fields(world, fields, 0);
        },
        Val::Adt(_, _, payload) => {
            lemma_equals_reflexive(world, *payload);
        },
        Val::JsonValue(data) => {
            lemma_data_reflexive(data);
        },
        _ => {},
    }
}

proof fn lemma_equal_items(world: World, items: Seq<Val>, i: int)
    requires
        forall|i: int| 0 <= i < items.len() ==> comparable(world, #[trigger] items[i]),
    ensures
        equal_items(world, items, items, i),
    decreases items, items.len() - i,
{
    if 0 <= i < items.len() {
        lemma_equals_reflexive(world, items[i]);
        lemma_equal_items(world, items, i + 1);
    }
}

proof fn lemma_equal_any(world: World, items: Seq<Val>, n: int, j: int)
    requires
        0 <= j <= n < items.len(),
        equals(world, items[n], items[n]),
    ensures
        equal_any(world, items[n], items, j),
    decreases n - j,
{
    if j < n {
        lemma_equal_any(world, items, n, j + 1);
    }
}

proof fn lemma_equal_members(world: World, items: Seq<Val>, i: int)
    requires
        forall|i: int| 0 <= i < items.len() ==> comparable(world, #[trigger] items[i]),
    ensures
        equal_members(world, items, items, i),
    decreases items, items.len() - i,
{
    if 0 <= i < items.len() {
        lemma_equals_reflexive(world, items[i]);
        lemma_equal_any(world, items, i, 0);
        lemma_equal_members(world, items, i + 1);
    }
}

proof fn lemma_equal_entry(world: World, entries: Seq<(Val, Val)>, n: int, j: int)
    requires
        0 <= j <= n < entries.len(),
        equals(world, entries[n].0, entries[n].0),
        equals(world, entries[n].1, entries[n].1),
    ensures
        equal_entry(world, entries[n], entries, j),
    decreases n - j,
{
    if j < n {
        lemma_equal_entry(world, entries, n, j + 1);
    }
}

proof fn lemma_equal_entries(world: World, entries: Seq<(Val, Val)>, i: int)
    requires
        forall|i: int|
            0 <= i < entries.len() ==> comparable(world, (#[trigger] entries[i]).0) && comparable(
                world,
                entries[i].1,
            ),
    ensures
        equal_entries(world, entries, entries, i),
    decreases entries, entries.len() - i,
{
    if 0 <= i < entries.len() {
        lemma_equals_reflexive(world, entries[i].0);
        lemma_equals_reflexive(world, entries[i].1);
        lemma_equal_entry(world, entries, i, 0);
        lemma_equal_entries(world, entries, i + 1);
    }
}

proof fn lemma_equal_fields(world: World, fields: Seq<(Seq<char>, Val)>, i: int)
    requires
        forall|i: int, j: int|
            0 <= i < j < fields.len() ==> (#[trigger] fields[i]).0 != (#[trigger] fields[j]).0,
        forall|i: int| 0 <= i < fields.len() ==> comparable(world, (#[trigger] fields[i]).1),
    ensures
        equal_fields(world, fields, fields, i),
    decreases fields, fields.len() - i,
{
    if 0 <= i < fields.len() {
        lemma_field_found(fields, i, 0);
        lemma_equals_reflexive(world, fields[i].1);
        lemma_equal_fields(world, fields, i + 1);
    }
}

} // verus!
