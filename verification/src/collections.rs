//! What the functions on lists make of the results of the function they call.

use crate::builtins::Builtin;
use crate::content::{field_value, find_value, insert_field, put_field};
use crate::error::{Failure, MagError, verdict};
use crate::order::{
    lemma_before_asymmetric, lemma_before_irreflexive, lemma_before_total,
    lemma_before_transitive, precedes, text_before,
};
use crate::primitives::eval_error;
use crate::validity::{is_true, truthy};
use crate::value::{Val, Value, bare, copy_values, raw, val_entries, val_fields, val_text, vals};
use vstd::prelude::*;

verus! {

/// Values, each with a key where it has one.
pub type Kept = Seq<(Seq<char>, Val)>;

/// The groups of values with one more value under a key.
pub open spec fn grouped(groups: Kept, key: Seq<char>, value: Val) -> Kept {
    match field_value(groups, key, 0) {
        Some(Val::List(items)) => put_field(groups, key, Val::List(items.push(value))),
        _ => put_field(groups, key, Val::List(seq![value])),
    }
}

/// Values without keys.
pub open spec fn unkeyed(items: Seq<Val>) -> Kept {
    Seq::new(items.len(), |i: int| (Seq::empty(), items[i]))
}

/// What is kept after one more item, given what the called function made of it.
pub open spec fn kept(builtin: Builtin, before: Kept, item: Val, out: Val) -> Result<Kept, Failure> {
    match builtin {
        Builtin::GroupBy => match val_text(out) {
            Some(key) => Ok(grouped(before, key, item)),
            None => Err(Failure::Eval("group_by callback must return String"@)),
        },
        Builtin::SortBy => match val_text(out) {
            Some(key) => Ok(before.push((key, item))),
            None => Err(Failure::Eval("sort_by callback must return String"@)),
        },
        Builtin::Filter => if is_true(out) {
            Ok(before.push((Seq::empty(), item)))
        } else {
            Ok(before)
        },
        Builtin::FlatMap => match bare(out) {
            Val::List(items) => Ok(before + unkeyed(items)),
            _ => Err(Failure::Eval("flat_map expects a collection"@)),
        },
        _ => Ok(before.push((Seq::empty(), out))),
    }
}

/// Where an entry belongs among entries in ascending order of their keys: after
/// those whose keys are not greater.
pub open spec fn placed(list: Kept, entry: (Seq<char>, Val)) -> Kept
    decreases list.len(),
{
    if list.len() == 0 || !text_before(entry.0, list.last().0) {
        list.push(entry)
    } else {
        placed(list.drop_last(), entry).push(list.last())
    }
}

/// The first `n` entries in ascending order of their keys; entries with one key
/// keep their order.
pub open spec fn by_key(list: Kept, n: int) -> Kept
    decreases n,
{
    if n <= 0 {
        Seq::empty()
    } else {
        placed(by_key(list, n - 1), list[n - 1])
    }
}

pub open spec fn kept_vals(list: Kept) -> Seq<Val> {
    Seq::new(list.len(), |i: int| list[i].1)
}

pub open spec fn group_entries(groups: Kept) -> Seq<(Val, Val)> {
    Seq::new(groups.len(), |i: int| (Val::Str(groups[i].0), groups[i].1))
}

/// What a function on a list returns.
pub open spec fn finished(builtin: Builtin, list: Kept) -> Val {
    match builtin {
        Builtin::GroupBy => Val::MapOf(group_entries(list)),
        Builtin::SortBy => Val::List(kept_vals(by_key(list, list.len() as int))),
        _ => Val::List(kept_vals(list)),
    }
}

fn add_to_group(groups: &mut Vec<(String, Value)>, key: &str, value: Value)
    ensures
        val_fields(final(groups)@) == grouped(val_fields(old(groups)@), key@, value@),
{
    let ghost added = value@;
    let mut items: Vec<Value> = match find_value(groups, key) {
        Some(Value::List(items)) => copy_values(items),
        _ => Vec::new(),
    };
    let ghost before = vals(items@);
    items.push(value);
    assert(vals(items@) =~= before.push(added));
    proof {
        if before.len() == 0 {
            assert(before.push(added) =~= seq![added]);
        }
    }
    insert_field(groups, key.to_owned(), Value::List(items));
}

fn add_unkeyed(list: &mut Vec<(String, Value)>, items: &Vec<Value>)
    ensures
        val_fields(final(list)@) == val_fields(old(list)@) + unkeyed(vals(items@)),
{
    let ghost start = val_fields(list@);
    let ghost all = unkeyed(vals(items@));
    assert(start + all.take(0) =~= start);
    let mut i: usize = 0;
    while i < items.len()
        invariant
            i <= items@.len(),
            all == unkeyed(vals(items@)),
            all.len() == items@.len(),
            val_fields(list@) == start + all.take(i as int),
        decreases items@.len() - i,
    {
        assert(vals(items@)[i as int] == items@[i as int]@);
        let ghost before = val_fields(list@);
        push_unkeyed(list, items[i].copy());
        assert(before.push(all[i as int]) =~= start + all.take(i + 1));
        i = i + 1;
    }
    assert(all.take(all.len() as int) =~= all);
}

pub(crate) fn push_unkeyed(list: &mut Vec<(String, Value)>, value: Value)
    ensures
        val_fields(final(list)@) == val_fields(old(list)@).push((Seq::empty(), value@)),
{
    let ghost before = val_fields(list@);
    let ghost view = value@;
    proof {
        reveal_strlit("");
        assert(""@ =~= Seq::<char>::empty());
    }
    list.push(("".to_owned(), value));
    assert(val_fields(list@) =~= before.push((Seq::empty(), view)));
}

pub(crate) fn keep(builtin: Builtin, list: &mut Vec<(String, Value)>, item: &Value, out: Value) -> (result:
    Result<(), MagError>)
    ensures
        match kept(builtin, val_fields(old(list)@), item@, out@) {
            Ok(view) => result is Ok && val_fields(final(list)@) == view,
            Err(failure) => verdict(result) == Err::<(), Failure>(failure),
        },
{
    match builtin {
        Builtin::GroupBy => match out.as_str() {
            Some(key) => {
                add_to_group(list, key, item.copy());
                Ok(())
            },
            None => Err(eval_error("group_by callback must return String")),
        },
        Builtin::SortBy => match out.as_str() {
            Some(key) => {
                let ghost before = val_fields(list@);
                list.push((key.to_owned(), item.copy()));
                assert(val_fields(list@) =~= before.push((key@, item@)));
                Ok(())
            },
            None => Err(eval_error("sort_by callback must return String")),
        },
        Builtin::Filter => {
            if truthy(&out) {
                push_unkeyed(list, item.copy());
            }
            Ok(())
        },
        Builtin::FlatMap => match raw(&out) {
            Value::List(items) => {
                add_unkeyed(list, items);
                Ok(())
            },
            _ => Err(eval_error("flat_map expects a collection")),
        },
        _ => {
            push_unkeyed(list, out);
            Ok(())
        },
    }
}

fn place(list: &mut Vec<(String, Value)>, key: String, value: Value)
    ensures
        val_fields(final(list)@) == placed(val_fields(old(list)@), (key@, value@)),
{
    let ghost all = val_fields(list@);
    let ghost entry = (key@, value@);
    let mut at: usize = list.len();
    assert(all.take(all.len() as int) =~= all);
    assert(placed(all, entry) =~= placed(all.take(at as int), entry) + all.skip(at as int));
    while at > 0 && precedes(key.as_str(), list[at - 1].0.as_str())
        invariant
            at <= list@.len(),
            all == val_fields(list@),
            all.len() == list@.len(),
            entry == (key@, value@),
            placed(all, entry) == placed(all.take(at as int), entry) + all.skip(at as int),
        decreases at,
    {
        proof {
            let shorter = all.take(at as int);
            assert(shorter.last() == all[at - 1]);
            assert(all[at - 1].0 == list@[at - 1].0@);
            assert(shorter.drop_last() =~= all.take(at - 1));
            let inner = placed(all.take(at - 1), entry);
            assert(inner.push(all[at - 1]) + all.skip(at as int) =~= inner + all.skip(at - 1));
        }
        at = at - 1;
    }
    proof {
        let shorter = all.take(at as int);
        if at > 0 {
            assert(shorter.last() == all[at - 1]);
            assert(all[at - 1].0 == list@[at - 1].0@);
        }
        assert(placed(shorter, entry) == shorter.push(entry));
    }
    list.insert(at, (key, value));
    assert(val_fields(list@) =~= all.take(at as int).push(entry) + all.skip(at as int));
}

fn sort_by_key(list: &Vec<(String, Value)>) -> (result: Vec<(String, Value)>)
    ensures
        val_fields(result@) == by_key(val_fields(list@), list@.len() as int),
{
    let ghost all = val_fields(list@);
    let mut result: Vec<(String, Value)> = Vec::new();
    assert(val_fields(result@) =~= Seq::<(Seq<char>, Val)>::empty());
    let mut i: usize = 0;
    while i < list.len()
        invariant
            i <= list@.len(),
            all == val_fields(list@),
            val_fields(result@) == by_key(all, i as int),
        decreases list@.len() - i,
    {
        let entry = &list[i];
        assert(all[i as int] == (entry.0@, entry.1@));
        place(&mut result, entry.0.clone(), entry.1.copy());
        i = i + 1;
    }
    result
}

fn values_only(list: &Vec<(String, Value)>) -> (values: Vec<Value>)
    ensures
        vals(values@) == kept_vals(val_fields(list@)),
{
    let ghost all = val_fields(list@);
    let mut values: Vec<Value> = Vec::new();
    let mut i: usize = 0;
    while i < list.len()
        invariant
            i <= list@.len(),
            values@.len() == i,
            all == val_fields(list@),
            forall|j: int| 0 <= j < i ==> (#[trigger] values@[j])@ == all[j].1,
        decreases list@.len() - i,
    {
        let entry = &list[i];
        assert(all[i as int] == (entry.0@, entry.1@));
        values.push(entry.1.copy());
        i = i + 1;
    }
    assert(vals(values@) =~= kept_vals(all));
    values
}

pub(crate) fn entries_of(list: &Vec<(String, Value)>) -> (entries: Vec<(Value, Value)>)
    ensures
        val_entries(entries@) == group_entries(val_fields(list@)),
{
    let ghost all = val_fields(list@);
    let mut entries: Vec<(Value, Value)> = Vec::new();
    let mut i: usize = 0;
    while i < list.len()
        invariant
            i <= list@.len(),
            entries@.len() == i,
            all == val_fields(list@),
            forall|j: int|
                0 <= j < i ==> (#[trigger] entries@[j]).0@ == Val::Str(all[j].0) && entries@[j].1@
                    == all[j].1,
        decreases list@.len() - i,
    {
        let entry = &list[i];
        assert(all[i as int] == (entry.0@, entry.1@));
        let key = Value::Str(entry.0.clone());
        assert(key@ == Val::Str(entry.0@));
        entries.push((key, entry.1.copy()));
        i = i + 1;
    }
    assert(val_entries(entries@) =~= group_entries(all));
    entries
}

pub(crate) fn finish(builtin: Builtin, list: Vec<(String, Value)>) -> (value: Value)
    ensures
        value@ == finished(builtin, val_fields(list@)),
{
    assert(val_fields(list@).len() == list@.len());
    match builtin {
        Builtin::GroupBy => Value::MapOf(entries_of(&list)),
        Builtin::SortBy => {
            let ordered = sort_by_key(&list);
            Value::List(values_only(&ordered))
        },
        _ => Value::List(values_only(&list)),
    }
}

// ---------------------------------------------------------------------------
// Laws
// ---------------------------------------------------------------------------

/// No key stands behind a greater one.
pub open spec fn keys_ascend(list: Kept) -> bool {
    forall|i: int, j: int|
        0 <= i < j < list.len() ==> !text_before(#[trigger] list[j].0, #[trigger] list[i].0)
}

/// The entries of a list with one key.
pub open spec fn under_key(list: Kept, key: Seq<char>) -> Kept {
    list.filter(|entry: (Seq<char>, Val)| entry.0 == key)
}

proof fn lemma_under_key_push(list: Kept, entry: (Seq<char>, Val), key: Seq<char>)
    ensures
        under_key(list.push(entry), key) == if entry.0 == key {
            under_key(list, key).push(entry)
        } else {
            under_key(list, key)
        },
{
    reveal(Seq::filter);
    assert(list.push(entry).drop_last() =~= list);
}

proof fn lemma_placed(list: Kept, entry: (Seq<char>, Val), key: Seq<char>)
    requires
        keys_ascend(list),
    ensures
        keys_ascend(placed(list, entry)),
        placed(list, entry).to_multiset() == list.to_multiset().insert(entry),
        under_key(placed(list, entry), key) == if entry.0 == key {
            under_key(list, key).push(entry)
        } else {
            under_key(list, key)
        },
    decreases list.len(),
{
    broadcast use {vstd::multiset::group_multiset_axioms, vstd::seq_lib::group_to_multiset_ensures};

    let result = placed(list, entry);
    if list.len() == 0 || !text_before(entry.0, list.last().0) {
        lemma_under_key_push(list, entry, key);
        assert forall|i: int, j: int| 0 <= i < j < result.len() implies !text_before(
            #[trigger] result[j].0,
            #[trigger] result[i].0,
        ) by {
            if j == list.len() && i < list.len() - 1 {
                let last = list[list.len() - 1].0;
                assert(!text_before(last, list[i].0));
                if text_before(entry.0, list[i].0) {
                    lemma_before_total(list[i].0, last);
                    if list[i].0 != last {
                        lemma_before_transitive(entry.0, list[i].0, last);
                    }
                }
            }
        }
    } else {
        let rest = list.drop_last();
        let last = list.last();
        lemma_placed(rest, entry, key);
        let shorter = placed(rest, entry);
        assert(list =~= rest.push(last));
        lemma_under_key_push(rest, last, key);
        lemma_under_key_push(shorter, last, key);
        if last.0 == key {
            lemma_before_irreflexive(key);
        }
        assert forall|i: int, j: int| 0 <= i < j < result.len() implies !text_before(
            #[trigger] result[j].0,
            #[trigger] result[i].0,
        ) by {
            if j == shorter.len() {
                assert(shorter.contains(shorter[i]));
                assert(shorter.to_multiset().count(shorter[i]) > 0);
                if shorter[i] == entry {
                    lemma_before_asymmetric(entry.0, last.0);
                } else {
                    assert(rest.contains(shorter[i]));
                    let k = choose|k: int| 0 <= k < rest.len() && rest[k] == shorter[i];
                    assert(!text_before(list[list.len() - 1].0, list[k].0));
                }
            }
        }
    }
}

/// `sort_by` keeps all entries, puts their keys into ascending order, and leaves entries
/// with one key in the order in which they came.
pub proof fn lemma_sort_stable(list: Kept, n: int, key: Seq<char>)
    requires
        0 <= n <= list.len(),
    ensures
        keys_ascend(by_key(list, n)),
        by_key(list, n).to_multiset() == list.take(n).to_multiset(),
        under_key(by_key(list, n), key) == under_key(list.take(n), key),
    decreases n,
{
    broadcast use {vstd::multiset::group_multiset_axioms, vstd::seq_lib::group_to_multiset_ensures};

    if n == 0 {
        assert(list.take(0) =~= Seq::empty());
    } else {
        lemma_sort_stable(list, n - 1, key);
        lemma_placed(by_key(list, n - 1), list[n - 1], key);
        assert(list.take(n) =~= list.take(n - 1).push(list[n - 1]));
        lemma_under_key_push(list.take(n - 1), list[n - 1], key);
    }
}

} // verus!
