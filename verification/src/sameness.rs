//! Equality is symmetric and transitive.

use crate::comparison::{lemma_field_found, lemma_member_found, names_once};
use crate::content::{field_value, member_at};
use crate::env::World;
use crate::json::Data;
use crate::validity::{
    data_equal, equal_any, equal_entries, equal_entry, equal_fields, equal_items, equal_members,
    equals, items_equal, members_equal, nominal,
};
use crate::value::{Val, bare};
use vstd::prelude::*;

verus! {

/// Whether an index stands among some.
spec fn reached(places: Seq<int>, j: int) -> bool {
    exists|i: int| 0 <= i < places.len() && #[trigger] places[i] == j
}

/// As many different indices as there are are all of them.
proof fn lemma_onto(places: Seq<int>, n: int)
    requires
        places.len() == n,
        forall|i: int| 0 <= i < n ==> 0 <= #[trigger] places[i] < n,
        forall|i: int, k: int| 0 <= i < k < n ==> places[i] != places[k],
    ensures
        forall|j: int| 0 <= j < n ==> #[trigger] reached(places, j),
{
    let range = vstd::set_lib::set_int_range(0, n);
    vstd::set_lib::lemma_int_range(0, n);
    assert(places.no_duplicates());
    places.unique_seq_to_set();
    assert(places.to_set().subset_of(range));
    vstd::set_lib::lemma_subset_equality(places.to_set(), range);
    assert forall|j: int| 0 <= j < n implies #[trigger] reached(places, j) by {
        assert(range.contains(j));
        assert(places.to_set().contains(j));
        assert(places.contains(j));
        let i = choose|i: int| 0 <= i < places.len() && places[i] == j;
        assert(places[i] == j);
    }
}

// ---------------------------------------------------------------------------
// Documents
// ---------------------------------------------------------------------------

proof fn lemma_items_each(left: Seq<Data>, right: Seq<Data>, i: int)
    requires
        0 <= i,
    ensures
        items_equal(left, right, i) <==> forall|k: int|
            i <= k < left.len() ==> data_equal(#[trigger] left[k], right[k]),
    decreases left.len() - i,
{
    if i < left.len() {
        lemma_items_each(left, right, i + 1);
    }
}

/// Whether members hold one of a name with an equal document.
pub open spec fn holds_member(name: Seq<char>, data: Data, members: Seq<(Seq<char>, Data)>) -> bool {
    member_at(members, name, 0) matches Some(other) && data_equal(data, other)
}

proof fn lemma_members_each(left: Seq<(Seq<char>, Data)>, right: Seq<(Seq<char>, Data)>, i: int)
    requires
        0 <= i,
    ensures
        members_equal(left, right, i) <==> forall|k: int|
            i <= k < left.len() ==> holds_member((#[trigger] left[k]).0, left[k].1, right),
    decreases left.len() - i,
{
    if i < left.len() {
        lemma_members_each(left, right, i + 1);
        assert(holds_member(left[i].0, left[i].1, right) == match member_at(right, left[i].0, 0) {
            Some(other) => data_equal(left[i].1, other),
            None => false,
        });
    }
}

proof fn lemma_member_place(members: Seq<(Seq<char>, Data)>, name: Seq<char>, i: int)
    requires
        0 <= i,
    ensures
        member_at(members, name, i) matches Some(data) ==> exists|m: int|
            i <= m < members.len() && #[trigger] members[m] == (name, data),
    decreases members.len() - i,
{
    if i < members.len() {
        if members[i].0 == name {
            assert(members[i] == (name, members[i].1));
        } else {
            lemma_member_place(members, name, i + 1);
        }
    }
}

/// A document equals whatever equals it.
pub proof fn lemma_data_symmetric(left: Data, right: Data)
    requires
        names_once(left),
        data_equal(left, right),
    ensures
        data_equal(right, left),
    decreases left,
{
    match (left, right) {
        (Data::Array(a), Data::Array(b)) => {
            lemma_items_each(a, b, 0);
            assert forall|k: int| 0 <= k < b.len() implies data_equal(#[trigger] b[k], a[k]) by {
                assert(data_equal(a[k], b[k]));
                lemma_data_symmetric(a[k], b[k]);
            }
            lemma_items_each(b, a, 0);
        },
        (Data::Object(a), Data::Object(b)) => {
            lemma_members_symmetric(a, b);
        },
        _ => {},
    }
}

proof fn lemma_members_symmetric(left: Seq<(Seq<char>, Data)>, right: Seq<(Seq<char>, Data)>)
    requires
        left.len() == right.len(),
        forall|i: int, j: int|
            0 <= i < j < left.len() ==> (#[trigger] left[i]).0 != (#[trigger] left[j]).0,
        forall|i: int| 0 <= i < left.len() ==> names_once((#[trigger] left[i]).1),
        members_equal(left, right, 0),
    ensures
        members_equal(right, left, 0),
    decreases left,
{
    let n = left.len() as int;
    lemma_members_each(left, right, 0);
    let places = Seq::new(
        left.len(),
        |i: int|
            choose|m: int|
                0 <= m < n && #[trigger] right[m] == (
                    left[i].0,
                    member_at(right, left[i].0, 0)->Some_0,
                ),
    );
    assert forall|i: int| 0 <= i < n implies 0 <= #[trigger] places[i] < n && right[places[i]] == (
        left[i].0,
        member_at(right, left[i].0, 0)->Some_0,
    ) && data_equal(left[i].1, right[places[i]].1) by {
        assert(holds_member(left[i].0, left[i].1, right));
        lemma_member_place(right, left[i].0, 0);
    }
    assert forall|i: int, k: int| 0 <= i < k < n implies places[i] != places[k] by {
        assert(right[places[i]].0 == left[i].0);
        assert(right[places[k]].0 == left[k].0);
        assert(left[i].0 != left[k].0);
    }
    lemma_onto(places, n);
    assert forall|j: int| 0 <= j < right.len() implies holds_member(
        (#[trigger] right[j]).0,
        right[j].1,
        left,
    ) by {
        assert(reached(places, j));
        let i = choose|i: int| 0 <= i < places.len() && #[trigger] places[i] == j;
        lemma_member_found(left, i, 0);
        lemma_data_symmetric(left[i].1, right[j].1);
    }
    lemma_members_each(right, left, 0);
}

/// Documents that equal one in the middle equal one another.
pub proof fn lemma_data_transitive(left: Data, middle: Data, right: Data)
    requires
        data_equal(left, middle),
        data_equal(middle, right),
    ensures
        data_equal(left, right),
    decreases left,
{
    match (left, middle, right) {
        (Data::Array(a), Data::Array(b), Data::Array(c)) => {
            lemma_items_each(a, b, 0);
            lemma_items_each(b, c, 0);
            assert forall|k: int| 0 <= k < a.len() implies data_equal(#[trigger] a[k], c[k]) by {
                assert(data_equal(a[k], b[k]) && data_equal(b[k], c[k]));
                lemma_data_transitive(a[k], b[k], c[k]);
            }
            lemma_items_each(a, c, 0);
        },
        (Data::Object(a), Data::Object(b), Data::Object(c)) => {
            lemma_members_each(a, b, 0);
            lemma_members_each(b, c, 0);
            assert forall|k: int| 0 <= k < a.len() implies holds_member(
                (#[trigger] a[k]).0,
                a[k].1,
                c,
            ) by {
                assert(holds_member(a[k].0, a[k].1, b));
                lemma_member_place(b, a[k].0, 0);
                let m = choose|m: int|
                    0 <= m < b.len() && #[trigger] b[m] == (
                        a[k].0,
                        member_at(b, a[k].0, 0)->Some_0,
                    );
                assert(holds_member(b[m].0, b[m].1, c));
                lemma_data_transitive(a[k].1, b[m].1, member_at(c, b[m].0, 0)->Some_0);
            }
            lemma_members_each(a, c, 0);
        },
        _ => {},
    }
}

// ---------------------------------------------------------------------------
// Values
// ---------------------------------------------------------------------------

/// A value in which no field of a record, no key of a map, no member of a set and no member
/// of an object stands twice.
pub open spec fn orderly(world: World, value: Val) -> bool
    decreases value,
{
    match value {
        Val::Typed(inner, _) => orderly(world, *inner),
        Val::List(items) => forall|i: int|
            0 <= i < items.len() ==> orderly(world, #[trigger] items[i]),
        Val::Product(items) => forall|i: int|
            0 <= i < items.len() ==> orderly(world, #[trigger] items[i]),
        Val::Adt(_, _, payload) => orderly(world, *payload),
        Val::SetOf(items) => {
            &&& forall|i: int, j: int|
                0 <= i < j < items.len() ==> !equals(
                    world,
                    #[trigger] items[i],
                    #[trigger] items[j],
                )
            &&& forall|i: int| 0 <= i < items.len() ==> orderly(world, #[trigger] items[i])
        },
        Val::MapOf(entries) => {
            &&& forall|i: int, j: int|
                0 <= i < j < entries.len() ==> !equals(
                    world,
                    (#[trigger] entries[i]).0,
                    (#[trigger] entries[j]).0,
                )
            &&& forall|i: int|
                0 <= i < entries.len() ==> orderly(world, (#[trigger] entries[i]).0) && orderly(
                    world,
                    entries[i].1,
                )
        },
        Val::Fields(fields) => {
            &&& forall|i: int, j: int|
                0 <= i < j < fields.len() ==> (#[trigger] fields[i]).0 != (#[trigger] fields[j]).0
            &&& forall|i: int| 0 <= i < fields.len() ==> orderly(world, (#[trigger] fields[i]).1)
        },
        Val::JsonValue(data) => names_once(data),
        _ => true,
    }
}

/// What the left side of an equality comes to below its types.
proof fn lemma_equals_left(world: World, left: Val, right: Val)
    ensures
        equals(world, left, right) == match nominal(world, left) {
            Some((own, inner)) => match nominal(world, right) {
                Some((other, below)) => own == other && equals(world, inner, below),
                None => false,
            },
            None => equals(world, bare(left), right),
        },
    decreases left,
{
    if let Val::Typed(inner, _) = left {
        lemma_equals_left(world, *inner, right);
    }
}

proof fn lemma_below_is_smaller(world: World, value: Val)
    ensures
        nominal(world, value) matches Some((_, inner)) ==> decreases_to!(value => inner),
        !(bare(value) is Typed),
        value is Typed ==> decreases_to!(value => bare(value)),
        orderly(world, value) ==> orderly(world, bare(value)),
        orderly(world, value) ==> (nominal(world, value) matches Some((_, inner)) ==> orderly(
            world,
            inner,
        )),
        bare(bare(value)) == bare(value),
        nominal(world, bare(value)) is None,
    decreases value,
{
    if let Val::Typed(inner, _) = value {
        lemma_below_is_smaller(world, *inner);
    }
}

pub(crate) proof fn lemma_all_items(world: World, left: Seq<Val>, right: Seq<Val>, i: int)
    requires
        0 <= i,
    ensures
        equal_items(world, left, right, i) <==> forall|k: int|
            i <= k < left.len() ==> equals(world, #[trigger] left[k], right[k]),
    decreases left.len() - i,
{
    if i < left.len() {
        lemma_all_items(world, left, right, i + 1);
    }
}

/// Whether a value equals one of some others.
pub open spec fn holds_item(world: World, item: Val, others: Seq<Val>) -> bool {
    exists|j: int| 0 <= j < others.len() && equals(world, item, #[trigger] others[j])
}

proof fn lemma_any_item(world: World, item: Val, others: Seq<Val>, j: int)
    requires
        0 <= j,
    ensures
        equal_any(world, item, others, j) <==> exists|k: int|
            j <= k < others.len() && equals(world, item, #[trigger] others[k]),
    decreases others.len() - j,
{
    if j < others.len() {
        lemma_any_item(world, item, others, j + 1);
    }
}

pub(crate) proof fn lemma_all_members(world: World, left: Seq<Val>, right: Seq<Val>, i: int)
    requires
        0 <= i,
    ensures
        equal_members(world, left, right, i) <==> forall|k: int|
            i <= k < left.len() ==> holds_item(world, #[trigger] left[k], right),
    decreases left.len() - i,
{
    if i < left.len() {
        lemma_any_item(world, left[i], right, 0);
        lemma_all_members(world, left, right, i + 1);
        assert(holds_item(world, left[i], right) == equal_any(world, left[i], right, 0));
    }
}

/// Whether two entries are equal.
pub open spec fn same_entry(world: World, left: (Val, Val), right: (Val, Val)) -> bool {
    equals(world, left.0, right.0) && equals(world, left.1, right.1)
}

/// Whether an entry equals one of some others.
pub open spec fn holds_entry(world: World, entry: (Val, Val), others: Seq<(Val, Val)>) -> bool {
    exists|j: int| 0 <= j < others.len() && same_entry(world, entry, #[trigger] others[j])
}

proof fn lemma_any_entry(world: World, entry: (Val, Val), others: Seq<(Val, Val)>, j: int)
    requires
        0 <= j,
    ensures
        equal_entry(world, entry, others, j) <==> exists|k: int|
            j <= k < others.len() && same_entry(world, entry, #[trigger] others[k]),
    decreases others.len() - j,
{
    if j < others.len() {
        lemma_any_entry(world, entry, others, j + 1);
        if equal_entry(world, entry, others, j) && !same_entry(world, entry, others[j]) {
            assert(equal_entry(world, entry, others, j + 1));
        }
    }
}

pub(crate) proof fn lemma_all_entries(world: World, left: Seq<(Val, Val)>, right: Seq<(Val, Val)>, i: int)
    requires
        0 <= i,
    ensures
        equal_entries(world, left, right, i) <==> forall|k: int|
            i <= k < left.len() ==> holds_entry(world, #[trigger] left[k], right),
    decreases left.len() - i,
{
    if i < left.len() {
        lemma_any_entry(world, left[i], right, 0);
        lemma_all_entries(world, left, right, i + 1);
        assert(holds_entry(world, left[i], right) == equal_entry(world, left[i], right, 0));
    }
}

/// Whether fields hold one of a name with an equal value.
pub open spec fn holds_field(
    world: World,
    name: Seq<char>,
    value: Val,
    fields: Seq<(Seq<char>, Val)>,
) -> bool {
    field_value(fields, name, 0) matches Some(other) && equals(world, value, other)
}

pub(crate) proof fn lemma_all_fields(
    world: World,
    left: Seq<(Seq<char>, Val)>,
    right: Seq<(Seq<char>, Val)>,
    i: int,
)
    requires
        0 <= i,
    ensures
        equal_fields(world, left, right, i) <==> forall|k: int|
            i <= k < left.len() ==> holds_field(world, (#[trigger] left[k]).0, left[k].1, right),
    decreases left.len() - i,
{
    if i < left.len() {
        lemma_all_fields(world, left, right, i + 1);
        assert(holds_field(world, left[i].0, left[i].1, right) == match field_value(
            right,
            left[i].0,
            0,
        ) {
            Some(other) => equals(world, left[i].1, other),
            None => false,
        });
    }
}

proof fn lemma_field_place(fields: Seq<(Seq<char>, Val)>, name: Seq<char>, i: int)
    requires
        0 <= i,
    ensures
        field_value(fields, name, i) matches Some(value) ==> exists|m: int|
            i <= m < fields.len() && #[trigger] fields[m] == (name, value),
    decreases fields.len() - i,
{
    if i < fields.len() {
        if fields[i].0 == name {
            assert(fields[i] == (name, fields[i].1));
        } else {
            lemma_field_place(fields, name, i + 1);
        }
    }
}

/// Values that equal one in the middle equal one another.
pub proof fn lemma_equals_transitive(world: World, left: Val, middle: Val, right: Val)
    requires
        equals(world, left, middle),
        equals(world, middle, right),
    ensures
        equals(world, left, right),
    decreases left,
{
    lemma_equals_left(world, left, middle);
    lemma_equals_left(world, middle, right);
    lemma_equals_left(world, left, right);
    lemma_below_is_smaller(world, left);
    lemma_below_is_smaller(world, middle);
    match nominal(world, left) {
        Some((_, inner)) => {
            let below = nominal(world, middle)->Some_0.1;
            let other = nominal(world, right)->Some_0.1;
            lemma_equals_transitive(world, inner, below, other);
        },
        None => {
            if left is Typed {
                lemma_equals_transitive(world, bare(left), middle, right);
            } else {
                match (left, bare(middle), bare(right)) {
                    (Val::List(a), Val::List(b), Val::List(c)) => {
                        lemma_items_transitive(world, a, b, c);
                    },
                    (Val::Product(a), Val::Product(b), Val::Product(c)) => {
                        lemma_items_transitive(world, a, b, c);
                    },
                    (Val::SetOf(a), Val::SetOf(b), Val::SetOf(c)) => {
                        lemma_sets_transitive(world, a, b, c);
                    },
                    (Val::MapOf(a), Val::MapOf(b), Val::MapOf(c)) => {
                        lemma_maps_transitive(world, a, b, c);
                    },
                    (Val::Fields(a), Val::Fields(b), Val::Fields(c)) => {
                        lemma_fields_transitive(world, a, b, c);
                    },
                    (Val::Adt(_, _, a), Val::Adt(_, _, b), Val::Adt(_, _, c)) => {
                        lemma_equals_transitive(world, *a, *b, *c);
                    },
                    (Val::JsonValue(a), Val::JsonValue(b), Val::JsonValue(c)) => {
                        lemma_data_transitive(a, b, c);
                    },
                    _ => {},
                }
            }
        },
    }
}

proof fn lemma_items_transitive(world: World, left: Seq<Val>, middle: Seq<Val>, right: Seq<Val>)
    requires
        left.len() == middle.len() == right.len(),
        equal_items(world, left, middle, 0),
        equal_items(world, middle, right, 0),
    ensures
        equal_items(world, left, right, 0),
    decreases left,
{
    lemma_all_items(world, left, middle, 0);
    lemma_all_items(world, middle, right, 0);
    assert forall|k: int| 0 <= k < left.len() implies equals(
        world,
        #[trigger] left[k],
        right[k],
    ) by {
        assert(equals(world, left[k], middle[k]) && equals(world, middle[k], right[k]));
        lemma_equals_transitive(world, left[k], middle[k], right[k]);
    }
    lemma_all_items(world, left, right, 0);
}

proof fn lemma_sets_transitive(world: World, left: Seq<Val>, middle: Seq<Val>, right: Seq<Val>)
    requires
        equal_members(world, left, middle, 0),
        equal_members(world, middle, right, 0),
    ensures
        equal_members(world, left, right, 0),
    decreases left,
{
    lemma_all_members(world, left, middle, 0);
    lemma_all_members(world, middle, right, 0);
    assert forall|k: int| 0 <= k < left.len() implies holds_item(
        world,
        #[trigger] left[k],
        right,
    ) by {
        assert(holds_item(world, left[k], middle));
        let m = choose|m: int|
            0 <= m < middle.len() && equals(world, left[k], #[trigger] middle[m]);
        assert(holds_item(world, middle[m], right));
        let j = choose|j: int|
            0 <= j < right.len() && equals(world, middle[m], #[trigger] right[j]);
        lemma_equals_transitive(world, left[k], middle[m], right[j]);
    }
    lemma_all_members(world, left, right, 0);
}

proof fn lemma_maps_transitive(
    world: World,
    left: Seq<(Val, Val)>,
    middle: Seq<(Val, Val)>,
    right: Seq<(Val, Val)>,
)
    requires
        equal_entries(world, left, middle, 0),
        equal_entries(world, middle, right, 0),
    ensures
        equal_entries(world, left, right, 0),
    decreases left,
{
    lemma_all_entries(world, left, middle, 0);
    lemma_all_entries(world, middle, right, 0);
    assert forall|k: int| 0 <= k < left.len() implies holds_entry(
        world,
        #[trigger] left[k],
        right,
    ) by {
        assert(holds_entry(world, left[k], middle));
        let m = choose|m: int|
            0 <= m < middle.len() && same_entry(world, left[k], #[trigger] middle[m]);
        assert(holds_entry(world, middle[m], right));
        let j = choose|j: int|
            0 <= j < right.len() && same_entry(world, middle[m], #[trigger] right[j]);
        lemma_equals_transitive(world, left[k].0, middle[m].0, right[j].0);
        lemma_equals_transitive(world, left[k].1, middle[m].1, right[j].1);
        assert(same_entry(world, left[k], right[j]));
    }
    lemma_all_entries(world, left, right, 0);
}

proof fn lemma_fields_transitive(
    world: World,
    left: Seq<(Seq<char>, Val)>,
    middle: Seq<(Seq<char>, Val)>,
    right: Seq<(Seq<char>, Val)>,
)
    requires
        equal_fields(world, left, middle, 0),
        equal_fields(world, middle, right, 0),
    ensures
        equal_fields(world, left, right, 0),
    decreases left,
{
    lemma_all_fields(world, left, middle, 0);
    lemma_all_fields(world, middle, right, 0);
    assert forall|k: int| 0 <= k < left.len() implies holds_field(
        world,
        (#[trigger] left[k]).0,
        left[k].1,
        right,
    ) by {
        assert(holds_field(world, left[k].0, left[k].1, middle));
        lemma_field_place(middle, left[k].0, 0);
        let m = choose|m: int|
            0 <= m < middle.len() && #[trigger] middle[m] == (
                left[k].0,
                field_value(middle, left[k].0, 0)->Some_0,
            );
        assert(holds_field(world, middle[m].0, middle[m].1, right));
        lemma_equals_transitive(
            world,
            left[k].1,
            middle[m].1,
            field_value(right, middle[m].0, 0)->Some_0,
        );
    }
    lemma_all_fields(world, left, right, 0);
}

/// An orderly value is equal to whatever it equals, the other way round too.
pub proof fn lemma_equals_symmetric(world: World, left: Val, right: Val)
    requires
        orderly(world, left),
        equals(world, left, right),
    ensures
        equals(world, right, left),
    decreases left,
{
    lemma_equals_left(world, left, right);
    lemma_equals_left(world, right, left);
    lemma_below_is_smaller(world, left);
    lemma_below_is_smaller(world, right);
    match nominal(world, left) {
        Some((_, inner)) => {
            lemma_equals_symmetric(world, inner, nominal(world, right)->Some_0.1);
        },
        None => {
            if left is Typed {
                lemma_equals_left(world, bare(left), right);
                lemma_equals_symmetric(world, bare(left), right);
                lemma_equals_left(world, right, bare(left));
                assert(equals(world, bare(right), bare(left)) == equals(world, bare(right), left));
            } else {
                match (left, bare(right)) {
                    (Val::List(a), Val::List(b)) => {
                        lemma_items_symmetric(world, a, b);
                    },
                    (Val::Product(a), Val::Product(b)) => {
                        lemma_items_symmetric(world, a, b);
                    },
                    (Val::SetOf(a), Val::SetOf(b)) => {
                        lemma_sets_symmetric(world, a, b);
                    },
                    (Val::MapOf(a), Val::MapOf(b)) => {
                        lemma_maps_symmetric(world, a, b);
                    },
                    (Val::Fields(a), Val::Fields(b)) => {
                        lemma_fields_symmetric(world, a, b);
                    },
                    (Val::Adt(_, _, a), Val::Adt(_, _, b)) => {
                        lemma_equals_symmetric(world, *a, *b);
                    },
                    (Val::JsonValue(a), Val::JsonValue(b)) => {
                        lemma_data_symmetric(a, b);
                    },
                    _ => {},
                }
            }
        },
    }
}

proof fn lemma_items_symmetric(world: World, left: Seq<Val>, right: Seq<Val>)
    requires
        left.len() == right.len(),
        forall|i: int| 0 <= i < left.len() ==> orderly(world, #[trigger] left[i]),
        equal_items(world, left, right, 0),
    ensures
        equal_items(world, right, left, 0),
    decreases left,
{
    lemma_all_items(world, left, right, 0);
    assert forall|k: int| 0 <= k < right.len() implies equals(
        world,
        #[trigger] right[k],
        left[k],
    ) by {
        assert(equals(world, left[k], right[k]));
        lemma_equals_symmetric(world, left[k], right[k]);
    }
    lemma_all_items(world, right, left, 0);
}

proof fn lemma_sets_symmetric(world: World, left: Seq<Val>, right: Seq<Val>)
    requires
        left.len() == right.len(),
        forall|i: int, j: int|
            0 <= i < j < left.len() ==> !equals(world, #[trigger] left[i], #[trigger] left[j]),
        forall|i: int| 0 <= i < left.len() ==> orderly(world, #[trigger] left[i]),
        equal_members(world, left, right, 0),
    ensures
        equal_members(world, right, left, 0),
    decreases left,
{
    let n = left.len() as int;
    lemma_all_members(world, left, right, 0);
    let places = Seq::new(
        left.len(),
        |i: int| choose|j: int| 0 <= j < n && equals(world, left[i], #[trigger] right[j]),
    );
    assert forall|i: int| 0 <= i < n implies 0 <= #[trigger] places[i] < n && equals(
        world,
        left[i],
        right[places[i]],
    ) by {
        assert(holds_item(world, left[i], right));
    }
    assert forall|i: int, k: int| 0 <= i < k < n implies places[i] != places[k] by {
        if places[i] == places[k] {
            let shared = right[places[k]];
            lemma_equals_symmetric(world, left[k], shared);
            lemma_equals_transitive(world, left[i], shared, left[k]);
        }
    }
    lemma_onto(places, n);
    assert forall|j: int| 0 <= j < right.len() implies holds_item(
        world,
        #[trigger] right[j],
        left,
    ) by {
        assert(reached(places, j));
        let i = choose|i: int| 0 <= i < places.len() && #[trigger] places[i] == j;
        lemma_equals_symmetric(world, left[i], right[j]);
    }
    lemma_all_members(world, right, left, 0);
}

proof fn lemma_maps_symmetric(world: World, left: Seq<(Val, Val)>, right: Seq<(Val, Val)>)
    requires
        left.len() == right.len(),
        forall|i: int, j: int|
            0 <= i < j < left.len() ==> !equals(
                world,
                (#[trigger] left[i]).0,
                (#[trigger] left[j]).0,
            ),
        forall|i: int|
            0 <= i < left.len() ==> orderly(world, (#[trigger] left[i]).0) && orderly(
                world,
                left[i].1,
            ),
        equal_entries(world, left, right, 0),
    ensures
        equal_entries(world, right, left, 0),
    decreases left,
{
    let n = left.len() as int;
    lemma_all_entries(world, left, right, 0);
    let places = Seq::new(
        left.len(),
        |i: int| choose|j: int| 0 <= j < n && same_entry(world, left[i], #[trigger] right[j]),
    );
    assert forall|i: int| 0 <= i < n implies 0 <= #[trigger] places[i] < n && same_entry(
        world,
        left[i],
        right[places[i]],
    ) by {
        assert(holds_entry(world, left[i], right));
    }
    assert forall|i: int, k: int| 0 <= i < k < n implies places[i] != places[k] by {
        if places[i] == places[k] {
            let shared = right[places[k]].0;
            assert(same_entry(world, left[i], right[places[i]]));
            assert(same_entry(world, left[k], right[places[k]]));
            lemma_equals_symmetric(world, left[k].0, shared);
            lemma_equals_transitive(world, left[i].0, shared, left[k].0);
        }
    }
    lemma_onto(places, n);
    assert forall|j: int| 0 <= j < right.len() implies holds_entry(
        world,
        #[trigger] right[j],
        left,
    ) by {
        assert(reached(places, j));
        let i = choose|i: int| 0 <= i < places.len() && #[trigger] places[i] == j;
        lemma_equals_symmetric(world, left[i].0, right[j].0);
        lemma_equals_symmetric(world, left[i].1, right[j].1);
        assert(same_entry(world, right[j], left[i]));
    }
    lemma_all_entries(world, right, left, 0);
}

proof fn lemma_fields_symmetric(
    world: World,
    left: Seq<(Seq<char>, Val)>,
    right: Seq<(Seq<char>, Val)>,
)
    requires
        left.len() == right.len(),
        forall|i: int, j: int|
            0 <= i < j < left.len() ==> (#[trigger] left[i]).0 != (#[trigger] left[j]).0,
        forall|i: int| 0 <= i < left.len() ==> orderly(world, (#[trigger] left[i]).1),
        equal_fields(world, left, right, 0),
    ensures
        equal_fields(world, right, left, 0),
    decreases left,
{
    let n = left.len() as int;
    lemma_all_fields(world, left, right, 0);
    let places = Seq::new(
        left.len(),
        |i: int|
            choose|m: int|
                0 <= m < n && #[trigger] right[m] == (
                    left[i].0,
                    field_value(right, left[i].0, 0)->Some_0,
                ),
    );
    assert forall|i: int| 0 <= i < n implies 0 <= #[trigger] places[i] < n && right[places[i]] == (
        left[i].0,
        field_value(right, left[i].0, 0)->Some_0,
    ) && equals(world, left[i].1, right[places[i]].1) by {
        assert(holds_field(world, left[i].0, left[i].1, right));
        lemma_field_place(right, left[i].0, 0);
    }
    assert forall|i: int, k: int| 0 <= i < k < n implies places[i] != places[k] by {
        assert(right[places[i]].0 == left[i].0);
        assert(right[places[k]].0 == left[k].0);
        assert(left[i].0 != left[k].0);
    }
    lemma_onto(places, n);
    assert forall|j: int| 0 <= j < right.len() implies holds_field(
        world,
        (#[trigger] right[j]).0,
        right[j].1,
        left,
    ) by {
        assert(reached(places, j));
        let i = choose|i: int| 0 <= i < places.len() && #[trigger] places[i] == j;
        lemma_field_found(left, i, 0);
        lemma_equals_symmetric(world, left[i].1, right[j].1);
    }
    lemma_all_fields(world, right, left, 0);
}

/// Two values that an orderly value equals are equal.
pub proof fn lemma_equal_to_the_same(world: World, value: Val, left: Val, right: Val)
    requires
        orderly(world, value),
        equals(world, value, left),
        equals(world, value, right),
    ensures
        equals(world, left, right),
{
    lemma_equals_symmetric(world, value, left);
    lemma_equals_transitive(world, left, value, right);
}

} // verus!
