//! A document that is read as a value and written again comes back in canonical form.

use crate::content::{
    field_jsons, json_fields, json_val, json_vals, ordered_items, ordered_json, ordered_members,
    put_field, val_json, val_jsons,
};
use crate::error::Failure;
use crate::json::Data;
use crate::order::{Entry, lemma_before_asymmetric, lemma_before_total, mapped, put, text_before};
use crate::value::Val;
use vstd::prelude::*;

verus! {

/// Every number in a document is one that the language has, with a notation of its own;
/// numbers without one are written as `null`.
pub open spec fn numbers_shown(data: Data) -> bool
    decreases data,
{
    match data {
        Data::Float(number) => number.text != "null"@,
        Data::Large(_, _) => false,
        Data::Array(items) => forall|i: int|
            0 <= i < items.len() ==> numbers_shown(#[trigger] items[i]),
        Data::Object(members) => forall|i: int|
            0 <= i < members.len() ==> numbers_shown((#[trigger] members[i]).1),
        _ => true,
    }
}

/// Fields are written as some entries.
pub open spec fn written_as(fields: Seq<(Seq<char>, Val)>, entries: Seq<Entry>) -> bool {
    &&& fields.len() == entries.len()
    &&& forall|i: int|
        0 <= i < fields.len() ==> (#[trigger] fields[i]).0 == entries[i].0 && val_json(fields[i].1)
            == Ok::<Data, Failure>(entries[i].1)
}

proof fn lemma_put_written(
    fields: Seq<(Seq<char>, Val)>,
    entries: Seq<Entry>,
    name: Seq<char>,
    value: Val,
    data: Data,
)
    requires
        written_as(fields, entries),
        val_json(value) == Ok::<Data, Failure>(data),
    ensures
        written_as(put_field(fields, name, value), put(entries, (name, data))),
    decreases fields.len(),
{
    if fields.len() > 0 {
        let last = fields.last().0;
        assert(fields[fields.len() - 1].0 == entries[entries.len() - 1].0);
        let shorter = fields.drop_last();
        let less = entries.drop_last();
        assert(written_as(shorter, less)) by {
            assert forall|i: int| 0 <= i < shorter.len() implies (#[trigger] shorter[i]).0
                == less[i].0 && val_json(shorter[i].1) == Ok::<Data, Failure>(less[i].1) by {
                assert(fields[i].0 == entries[i].0);
            }
        }
        lemma_before_total(last, name);
        if last != name {
            if text_before(last, name) {
                lemma_before_asymmetric(last, name);
            } else {
                lemma_put_written(shorter, less, name, value, data);
            }
        }
        let result = put_field(fields, name, value);
        let listed = put(entries, (name, data));
        assert forall|i: int| 0 <= i < result.len() implies (#[trigger] result[i]).0 == listed[i].0
            && val_json(result[i].1) == Ok::<Data, Failure>(listed[i].1) by {
            if last == name || text_before(last, name) {
                if i < shorter.len() {
                    assert(fields[i].0 == entries[i].0);
                } else if i < fields.len() && last != name {
                    assert(fields[i].0 == entries[i].0);
                }
            } else {
                let inner = put_field(shorter, name, value);
                if i < inner.len() {
                    assert(result[i] == inner[i]);
                } else {
                    assert(fields[fields.len() - 1].0 == entries[entries.len() - 1].0);
                }
            }
        }
    }
}

proof fn lemma_fields_written(fields: Seq<(Seq<char>, Val)>, entries: Seq<Entry>, i: int)
    requires
        written_as(fields, entries),
        0 <= i <= fields.len(),
    ensures
        field_jsons(fields, i) == Ok::<Seq<Entry>, Failure>(entries.skip(i)),
    decreases fields.len() - i,
{
    if i < fields.len() {
        lemma_fields_written(fields, entries, i + 1);
        assert(fields[i].0 == entries[i].0);
        assert(seq![entries[i]] + entries.skip(i + 1) =~= entries.skip(i));
    } else {
        assert(entries.skip(i) =~= Seq::empty());
    }
}

/// Reading a document as a value and writing that value gives the document in canonical
/// form.
pub proof fn lemma_value_round_trip(data: Data)
    requires
        numbers_shown(data),
    ensures
        val_json(json_val(data)) == Ok::<Data, Failure>(ordered_json(data)),
    decreases data, 0int,
{
    match data {
        Data::Array(items) => {
            lemma_items_round_trip(items, 0);
            assert(ordered_items(items).skip(0) =~= ordered_items(items));
        },
        Data::Object(members) => {
            let n = members.len() as int;
            lemma_members_round_trip(members, n);
            assert(ordered_members(members).take(n) =~= ordered_members(members));
            let entries = mapped(ordered_members(members));
            lemma_fields_written(json_fields(members, n), entries, 0);
            assert(entries.skip(0) =~= entries);
        },
        _ => {},
    }
}

proof fn lemma_items_round_trip(items: Seq<Data>, i: int)
    requires
        forall|i: int| 0 <= i < items.len() ==> numbers_shown(#[trigger] items[i]),
        0 <= i <= items.len(),
    ensures
        val_jsons(json_vals(items, i), 0) == Ok::<Seq<Data>, Failure>(
            ordered_items(items).skip(i),
        ),
    decreases items, items.len() - i,
{
    let ordered = ordered_items(items);
    if i < items.len() {
        lemma_value_round_trip(items[i]);
        lemma_items_round_trip(items, i + 1);
        let rest = json_vals(items, i + 1);
        lemma_jsons_shift(json_val(items[i]), rest, 0);
        assert(seq![ordered[i]] + ordered.skip(i + 1) =~= ordered.skip(i));
    } else {
        assert(ordered.skip(i) =~= Seq::empty());
    }
}

/// Writing a list with one more item in front.
proof fn lemma_jsons_shift(first: Val, rest: Seq<Val>, i: int)
    requires
        0 <= i <= rest.len(),
    ensures
        val_jsons(seq![first] + rest, i + 1) == val_jsons(rest, i),
    decreases rest.len() - i,
{
    if i < rest.len() {
        lemma_jsons_shift(first, rest, i + 1);
        assert((seq![first] + rest)[i + 1] == rest[i]);
    }
}

proof fn lemma_members_round_trip(members: Seq<(Seq<char>, Data)>, n: int)
    requires
        forall|i: int| 0 <= i < members.len() ==> numbers_shown((#[trigger] members[i]).1),
        0 <= n <= members.len(),
    ensures
        written_as(json_fields(members, n), mapped(ordered_members(members).take(n))),
    decreases members, n,
{
    let ordered = ordered_members(members);
    if n > 0 {
        lemma_members_round_trip(members, n - 1);
        lemma_value_round_trip(members[n - 1].1);
        assert(ordered.take(n).drop_last() =~= ordered.take(n - 1));
        assert(ordered.take(n).last() == (members[n - 1].0, ordered_json(members[n - 1].1)));
        lemma_put_written(
            json_fields(members, n - 1),
            mapped(ordered.take(n - 1)),
            members[n - 1].0,
            json_val(members[n - 1].1),
            ordered_json(members[n - 1].1),
        );
    }
}

} // verus!
