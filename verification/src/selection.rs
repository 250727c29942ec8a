//! What the functions on lists return, in terms of what the called function returns.

use crate::asking::Halt;
use crate::builtins::Builtin;
use crate::collections::{
    Kept, by_key, group_entries, grouped, kept, kept_vals, lemma_sort_stable, under_key, unkeyed,
};
use crate::content::{field_value, put_field};
use crate::machine::{
    At, Done, DoneFields, Run, applied_value, builtin_applied, callable, folded_from,
    indexed_from, kept_from,
};
use crate::order::{
    lemma_before_irreflexive, lemma_before_total, lemma_before_transitive, text_before,
};
use crate::validity::is_true;
use crate::value::{Val, bare, val_text};
use vstd::prelude::*;

verus! {

/// A function, called on each of several lists of arguments in turn, returns the given values
/// and leaves the given states.
pub open spec fn answers_in_turn(
    function: Val,
    args: Seq<Seq<Val>>,
    runs: Seq<Run>,
    outs: Seq<Val>,
    at: At,
) -> bool {
    &&& runs.len() == args.len() + 1
    &&& outs.len() == args.len()
    &&& forall|i: int|
        0 <= i < args.len() ==> applied_value(
            runs[i],
            function,
            #[trigger] args[i],
            None,
            Seq::empty(),
            at,
        ) == (Done { run: runs[i + 1], result: Ok(outs[i]) })
}

/// Each item as the only argument of a call.
pub open spec fn one_by_one(items: Seq<Val>) -> Seq<Seq<Val>> {
    Seq::new(items.len(), |i: int| seq![items[i]])
}

/// Each item behind its index as the arguments of a call.
pub open spec fn with_indices(items: Seq<Val>) -> Seq<Seq<Val>> {
    Seq::new(items.len(), |i: int| seq![Val::Int(i), items[i]])
}

/// Items, each with what belongs to it.
pub open spec fn paired<A>(marks: Seq<A>, items: Seq<Val>) -> Seq<(A, Val)> {
    Seq::new(items.len(), |i: int| (marks[i], items[i]))
}

/// The items whose marks satisfy a condition.
pub open spec fn marked_items<A>(
    marks: Seq<A>,
    items: Seq<Val>,
    condition: spec_fn(A) -> bool,
) -> Seq<Val> {
    paired(marks, items).filter(|pair: (A, Val)| condition(pair.0)).map_values(
        |pair: (A, Val)| pair.1,
    )
}

proof fn lemma_marked_step<A>(
    marks: Seq<A>,
    items: Seq<Val>,
    condition: spec_fn(A) -> bool,
    i: int,
)
    requires
        marks.len() == items.len(),
        0 <= i < items.len(),
    ensures
        marked_items(marks.take(i + 1), items.take(i + 1), condition) == if condition(marks[i]) {
            marked_items(marks.take(i), items.take(i), condition).push(items[i])
        } else {
            marked_items(marks.take(i), items.take(i), condition)
        },
{
    reveal(Seq::filter);
    let shorter = paired(marks.take(i), items.take(i));
    let longer = paired(marks.take(i + 1), items.take(i + 1));
    let holds = |pair: (A, Val)| condition(pair.0);
    let second = |pair: (A, Val)| pair.1;
    assert(longer =~= shorter.push((marks[i], items[i])));
    assert(longer.drop_last() =~= shorter);
    assert(longer.filter(holds) == if condition(marks[i]) {
        shorter.filter(holds).push((marks[i], items[i]))
    } else {
        shorter.filter(holds)
    });
    if condition(marks[i]) {
        assert(longer.filter(holds).map_values(second) =~= shorter.filter(holds).map_values(
            second,
        ).push(items[i]));
    }
}

proof fn lemma_marked_none<A>(marks: Seq<A>, items: Seq<Val>, condition: spec_fn(A) -> bool)
    ensures
        marked_items(marks.take(0), items.take(0), condition) == Seq::<Val>::empty(),
{
    reveal(Seq::filter);
    assert(paired(marks.take(0), items.take(0)) =~= Seq::<(A, Val)>::empty());
    assert(marked_items(marks.take(0), items.take(0), condition) =~= Seq::<Val>::empty());
}

proof fn lemma_kept_vals_unkeyed(items: Seq<Val>)
    ensures
        kept_vals(unkeyed(items)) == items,
{
    assert(kept_vals(unkeyed(items)) =~= items);
}

/// A value is a text exactly where it is one below its types.
proof fn lemma_text_below(value: Val)
    ensures
        val_text(value) == match bare(value) {
            Val::Str(text) => Some(text),
            _ => None,
        },
    decreases value,
{
    if let Val::Typed(inner, _) = value {
        lemma_text_below(*inner);
    }
}

// ---------------------------------------------------------------------------
// map
// ---------------------------------------------------------------------------

proof fn lemma_mapped_from(
    function: Val,
    items: Seq<Val>,
    runs: Seq<Run>,
    outs: Seq<Val>,
    i: int,
    at: At,
)
    requires
        answers_in_turn(function, one_by_one(items), runs, outs, at),
        0 <= i <= items.len(),
    ensures
        kept_from(runs[i], Builtin::MapList, function, items, i, unkeyed(outs.take(i)), at) == (
        DoneFields { run: runs.last(), result: Ok(unkeyed(outs)) }),
    decreases items.len() - i,
{
    if i < items.len() {
        assert(one_by_one(items)[i] == seq![items[i]]);
        assert(unkeyed(outs.take(i)).push((Seq::empty(), outs[i])) =~= unkeyed(outs.take(i + 1)));
        lemma_mapped_from(function, items, runs, outs, i + 1, at);
    } else {
        assert(outs.take(i) =~= outs);
    }
}

/// `map` returns what the function returns on each item, in the order of the items.
pub proof fn lemma_map(
    function: Val,
    list: Val,
    items: Seq<Val>,
    runs: Seq<Run>,
    outs: Seq<Val>,
    at: At,
)
    requires
        bare(list) == Val::List(items),
        answers_in_turn(function, one_by_one(items), runs, outs, at),
    ensures
        builtin_applied(runs[0], Builtin::MapList, seq![function, list], at) == (Done {
            run: runs.last(),
            result: Ok(Val::List(outs)),
        }),
{
    assert(unkeyed(outs.take(0)) =~= Seq::<(Seq<char>, Val)>::empty());
    lemma_mapped_from(function, items, runs, outs, 0, at);
    lemma_kept_vals_unkeyed(outs);
}

/// Where the function fails on an item, after it returned on all items before, `map` and
/// `filter` fail in the same way.
pub proof fn lemma_map_fails(
    builtin: Builtin,
    function: Val,
    list: Val,
    items: Seq<Val>,
    runs: Seq<Run>,
    outs: Seq<Val>,
    failed: Run,
    halt: Halt,
    at: At,
)
    requires
        bare(list) == Val::List(items),
        builtin is MapList || builtin is Filter,
        outs.len() < items.len(),
        answers_in_turn(function, one_by_one(items.take(outs.len() as int)), runs, outs, at),
        applied_value(
            runs.last(),
            function,
            seq![items[outs.len() as int]],
            None,
            Seq::empty(),
            at,
        ) == (Done { run: failed, result: Err(halt) }),
    ensures
        builtin_applied(runs[0], builtin, seq![function, list], at) == (Done {
            run: failed,
            result: Err(halt),
        }),
{
    lemma_kept_fails(builtin, function, items, runs, outs, 0, Seq::empty(), failed, halt, at);
}

proof fn lemma_kept_fails(
    builtin: Builtin,
    function: Val,
    items: Seq<Val>,
    runs: Seq<Run>,
    outs: Seq<Val>,
    i: int,
    before: Kept,
    failed: Run,
    halt: Halt,
    at: At,
)
    requires
        builtin is MapList || builtin is Filter,
        outs.len() < items.len(),
        0 <= i <= outs.len(),
        answers_in_turn(function, one_by_one(items.take(outs.len() as int)), runs, outs, at),
        applied_value(
            runs.last(),
            function,
            seq![items[outs.len() as int]],
            None,
            Seq::empty(),
            at,
        ) == (Done { run: failed, result: Err(halt) }),
    ensures
        kept_from(runs[i], builtin, function, items, i, before, at) == (DoneFields {
            run: failed,
            result: Err(halt),
        }),
    decreases outs.len() - i,
{
    if i < outs.len() {
        assert(one_by_one(items.take(outs.len() as int))[i] == seq![items[i]]);
        let after = kept(builtin, before, items[i], outs[i])->Ok_0;
        lemma_kept_fails(
            builtin,
            function,
            items,
            runs,
            outs,
            i + 1,
            after,
            failed,
            halt,
            at,
        );
    }
}

// ---------------------------------------------------------------------------
// filter
// ---------------------------------------------------------------------------

proof fn lemma_filtered_from(
    function: Val,
    items: Seq<Val>,
    runs: Seq<Run>,
    answers: Seq<bool>,
    outs: Seq<Val>,
    i: int,
    at: At,
)
    requires
        answers_in_turn(function, one_by_one(items), runs, outs, at),
        answers.len() == items.len(),
        forall|k: int|
            0 <= k < answers.len() ==> (#[trigger] answers[k] <==> !(bare(outs[k]) is Unit) && bare(
                outs[k],
            ) != Val::Bool(false)),
        0 <= i <= items.len(),
    ensures
        kept_from(
            runs[i],
            Builtin::Filter,
            function,
            items,
            i,
            unkeyed(marked_items(answers.take(i), items.take(i), |answer: bool| answer)),
            at,
        ) == (DoneFields {
            run: runs.last(),
            result: Ok(unkeyed(marked_items(answers, items, |answer: bool| answer))),
        }),
    decreases items.len() - i,
{
    let condition = |answer: bool| answer;
    if i < items.len() {
        assert(one_by_one(items)[i] == seq![items[i]]);
        let before = marked_items(answers.take(i), items.take(i), condition);
        lemma_marked_step(answers, items, condition, i);
        assert(answers[i] <==> is_true(outs[i]));
        assert(unkeyed(before).push((Seq::empty(), items[i])) =~= unkeyed(before.push(items[i])));
        lemma_filtered_from(function, items, runs, answers, outs, i + 1, at);
    } else {
        assert(answers.take(i) =~= answers);
        assert(items.take(i) =~= items);
    }
}

/// `filter` returns exactly the items on which the function returns true, in their order.
pub proof fn lemma_filter(
    function: Val,
    list: Val,
    items: Seq<Val>,
    runs: Seq<Run>,
    answers: Seq<bool>,
    outs: Seq<Val>,
    at: At,
)
    requires
        bare(list) == Val::List(items),
        answers_in_turn(function, one_by_one(items), runs, outs, at),
        answers.len() == items.len(),
        forall|k: int|
            0 <= k < answers.len() ==> (#[trigger] answers[k] <==> !(bare(outs[k]) is Unit) && bare(
                outs[k],
            ) != Val::Bool(false)),
    ensures
        builtin_applied(runs[0], Builtin::Filter, seq![function, list], at) == (Done {
            run: runs.last(),
            result: Ok(
                Val::List(
                    Seq::new(items.len(), |i: int| (answers[i], items[i])).filter(
                        |pair: (bool, Val)| pair.0,
                    ).map_values(|pair: (bool, Val)| pair.1),
                ),
            ),
        }),
{
    let condition = |answer: bool| answer;
    lemma_marked_none(answers, items, condition);
    assert(unkeyed(Seq::<Val>::empty()) =~= Seq::<(Seq<char>, Val)>::empty());
    lemma_filtered_from(function, items, runs, answers, outs, 0, at);
    let chosen = marked_items(answers, items, condition);
    lemma_kept_vals_unkeyed(chosen);
    let pairs = Seq::new(items.len(), |i: int| (answers[i], items[i]));
    assert(pairs =~= paired(answers, items));
    lemma_filter_same(
        pairs,
        |pair: (bool, Val)| pair.0,
        |pair: (bool, Val)| condition(pair.0),
    );
    assert(pairs.filter(|pair: (bool, Val)| pair.0).map_values(|pair: (bool, Val)| pair.1)
        =~= chosen);
}

proof fn lemma_filter_same<A>(list: Seq<A>, first: spec_fn(A) -> bool, second: spec_fn(A) -> bool)
    requires
        forall|item: A| #[trigger] first(item) == second(item),
    ensures
        list.filter(first) == list.filter(second),
    decreases list.len(),
{
    reveal(Seq::filter);
    if list.len() > 0 {
        lemma_filter_same(list.drop_last(), first, second);
        assert(first(list.last()) == second(list.last()));
    }
}

// ---------------------------------------------------------------------------
// flat_map
// ---------------------------------------------------------------------------

proof fn lemma_flattened_from(
    function: Val,
    items: Seq<Val>,
    runs: Seq<Run>,
    lists: Seq<Seq<Val>>,
    outs: Seq<Val>,
    i: int,
    before: Seq<Val>,
    at: At,
)
    requires
        answers_in_turn(function, one_by_one(items), runs, outs, at),
        lists.len() == items.len(),
        forall|k: int| 0 <= k < lists.len() ==> bare(outs[k]) == Val::List(#[trigger] lists[k]),
        0 <= i <= items.len(),
    ensures
        kept_from(runs[i], Builtin::FlatMap, function, items, i, unkeyed(before), at) == (
        DoneFields {
            run: runs.last(),
            result: Ok(unkeyed(before + lists.skip(i).flatten())),
        }),
    decreases items.len() - i,
{
    let rest = lists.skip(i);
    if i < items.len() {
        assert(one_by_one(items)[i] == seq![items[i]]);
        assert(bare(outs[i]) == Val::List(lists[i]));
        assert(rest.drop_first() =~= lists.skip(i + 1));
        assert(rest.first() == lists[i]);
        assert(unkeyed(before) + unkeyed(lists[i]) =~= unkeyed(before + lists[i]));
        lemma_flattened_from(
            function,
            items,
            runs,
            lists,
            outs,
            i + 1,
            before + lists[i],
            at,
        );
        assert(before + rest.flatten() =~= (before + lists[i]) + lists.skip(i + 1).flatten());
    } else {
        assert(before + rest.flatten() =~= before);
    }
}

/// `flat_map` returns the lists that the function returns on the items, one behind the other.
pub proof fn lemma_flat_map(
    function: Val,
    list: Val,
    items: Seq<Val>,
    runs: Seq<Run>,
    lists: Seq<Seq<Val>>,
    outs: Seq<Val>,
    at: At,
)
    requires
        bare(list) == Val::List(items),
        answers_in_turn(function, one_by_one(items), runs, outs, at),
        lists.len() == items.len(),
        forall|k: int| 0 <= k < lists.len() ==> bare(outs[k]) == Val::List(#[trigger] lists[k]),
    ensures
        builtin_applied(runs[0], Builtin::FlatMap, seq![function, list], at) == (Done {
            run: runs.last(),
            result: Ok(Val::List(lists.flatten())),
        }),
{
    assert(unkeyed(Seq::<Val>::empty()) =~= Seq::<(Seq<char>, Val)>::empty());
    lemma_flattened_from(function, items, runs, lists, outs, 0, Seq::empty(), at);
    assert(lists.skip(0) =~= lists);
    assert(Seq::<Val>::empty() + lists.flatten() =~= lists.flatten());
    lemma_kept_vals_unkeyed(lists.flatten());
}

// ---------------------------------------------------------------------------
// indexed_map
// ---------------------------------------------------------------------------

proof fn lemma_indexed_all(
    function: Val,
    items: Seq<Val>,
    runs: Seq<Run>,
    outs: Seq<Val>,
    i: int,
    at: At,
)
    requires
        answers_in_turn(function, with_indices(items), runs, outs, at),
        items.len() <= i64::MAX,
        0 <= i <= items.len(),
    ensures
        indexed_from(runs[i], function, items, i, unkeyed(outs.take(i)), at) == (DoneFields {
            run: runs.last(),
            result: Ok(unkeyed(outs)),
        }),
    decreases items.len() - i,
{
    if i < items.len() {
        assert(with_indices(items)[i] == seq![Val::Int(i), items[i]]);
        assert((i as i64) as int == i);
        assert(unkeyed(outs.take(i)).push((Seq::empty(), outs[i])) =~= unkeyed(outs.take(i + 1)));
        lemma_indexed_all(function, items, runs, outs, i + 1, at);
    } else {
        assert(outs.take(i) =~= outs);
    }
}

/// What answers a call can be called.
proof fn lemma_answers_callable(run: Run, function: Val, args: Seq<Val>, at: At)
    requires
        applied_value(run, function, args, None, Seq::empty(), at).result is Ok,
    ensures
        callable(function),
{
}

/// `indexed_map` returns what the function returns on each index and item, in order.
pub proof fn lemma_indexed_map(
    function: Val,
    list: Val,
    items: Seq<Val>,
    runs: Seq<Run>,
    outs: Seq<Val>,
    at: At,
)
    requires
        bare(list) == Val::List(items),
        answers_in_turn(function, with_indices(items), runs, outs, at),
        items.len() <= i64::MAX,
    ensures
        builtin_applied(runs[0], Builtin::IndexedMap, seq![function, list], at) == (
        Done { run: runs.last(), result: Ok(Val::List(outs)) }),
{
    assert(unkeyed(outs.take(0)) =~= Seq::<(Seq<char>, Val)>::empty());
    lemma_indexed_all(function, items, runs, outs, 0, at);
    lemma_kept_vals_unkeyed(outs);
    if items.len() > 0 {
        assert(with_indices(items)[0] == seq![Val::Int(0), items[0]]);
        lemma_answers_callable(runs[0], function, with_indices(items)[0], at);
    } else {
        assert(outs =~= Seq::<Val>::empty());
    }
}

// ---------------------------------------------------------------------------
// fold
// ---------------------------------------------------------------------------

/// What the function returned last before each item, and the item.
pub open spec fn with_results(start: Val, items: Seq<Val>, outs: Seq<Val>) -> Seq<Seq<Val>> {
    Seq::new(
        items.len(),
        |i: int|
            seq![
                if i == 0 {
                    start
                } else {
                    outs[i - 1]
                },
                items[i],
            ],
    )
}

proof fn lemma_folded_all(
    function: Val,
    start: Val,
    items: Seq<Val>,
    runs: Seq<Run>,
    outs: Seq<Val>,
    i: int,
    at: At,
)
    requires
        answers_in_turn(function, with_results(start, items, outs), runs, outs, at),
        0 <= i <= items.len(),
    ensures
        folded_from(
            runs[i],
            function,
            if i == 0 {
                start
            } else {
                outs[i - 1]
            },
            items,
            i,
            at,
        ) == (Done {
            run: runs.last(),
            result: Ok(
                if items.len() == 0 {
                    start
                } else {
                    outs.last()
                },
            ),
        }),
    decreases items.len() - i,
{
    if i < items.len() {
        let args = with_results(start, items, outs)[i];
        assert(args == seq![
            if i == 0 {
                start
            } else {
                outs[i - 1]
            },
            items[i],
        ]);
        lemma_folded_all(function, start, items, runs, outs, i + 1, at);
    }
}

/// `fold` calls the function on what it returned last, at first on the start value, and on
/// the next item. It returns what the function returned last of all.
pub proof fn lemma_fold(
    function: Val,
    start: Val,
    list: Val,
    items: Seq<Val>,
    runs: Seq<Run>,
    outs: Seq<Val>,
    at: At,
)
    requires
        bare(list) == Val::List(items),
        answers_in_turn(function, with_results(start, items, outs), runs, outs, at),
    ensures
        builtin_applied(runs[0], Builtin::Fold, seq![function, start, list], at) == (
        Done {
            run: runs.last(),
            result: Ok(
                if items.len() == 0 {
                    start
                } else {
                    outs.last()
                },
            ),
        }),
{
    lemma_folded_all(function, start, items, runs, outs, 0, at);
}

// ---------------------------------------------------------------------------
// sort_by
// ---------------------------------------------------------------------------

proof fn lemma_keyed_all(
    function: Val,
    items: Seq<Val>,
    runs: Seq<Run>,
    keys: Seq<Seq<char>>,
    outs: Seq<Val>,
    i: int,
    at: At,
)
    requires
        answers_in_turn(function, one_by_one(items), runs, outs, at),
        keys.len() == items.len(),
        forall|k: int| 0 <= k < keys.len() ==> bare(outs[k]) == Val::Str(#[trigger] keys[k]),
        0 <= i <= items.len(),
    ensures
        kept_from(
            runs[i],
            Builtin::SortBy,
            function,
            items,
            i,
            paired(keys, items).take(i),
            at,
        ) == (DoneFields { run: runs.last(), result: Ok(paired(keys, items)) }),
    decreases items.len() - i,
{
    let all = paired(keys, items);
    if i < items.len() {
        assert(one_by_one(items)[i] == seq![items[i]]);
        assert(bare(outs[i]) == Val::Str(keys[i]));
        lemma_text_below(outs[i]);
        assert(all.take(i).push((keys[i], items[i])) =~= all.take(i + 1));
        lemma_keyed_all(function, items, runs, keys, outs, i + 1, at);
    } else {
        assert(all.take(i) =~= all);
    }
}

/// A list is made of items and their keys: it has the same pairs, no key stands behind a
/// greater one, and pairs of one key have the order that they had.
pub open spec fn sorted_pairs(pairs: Kept, keys: Seq<Seq<char>>, items: Seq<Val>) -> bool {
    let given = Seq::new(items.len(), |i: int| (keys[i], items[i]));
    &&& pairs.to_multiset() == given.to_multiset()
    &&& forall|i: int, j: int|
        0 <= i < j < pairs.len() ==> !text_before(#[trigger] pairs[j].0, #[trigger] pairs[i].0)
    &&& forall|key: Seq<char>|
        #[trigger] under_key(pairs, key) == under_key(given, key)
}

/// `sort_by` returns the items in ascending order of the texts that the function returns on
/// them; items with one text keep their order.
pub proof fn lemma_sort_by(
    function: Val,
    list: Val,
    items: Seq<Val>,
    runs: Seq<Run>,
    keys: Seq<Seq<char>>,
    outs: Seq<Val>,
    at: At,
)
    requires
        bare(list) == Val::List(items),
        answers_in_turn(function, one_by_one(items), runs, outs, at),
        keys.len() == items.len(),
        forall|k: int| 0 <= k < keys.len() ==> bare(outs[k]) == Val::Str(#[trigger] keys[k]),
    ensures
        exists|pairs: Kept| #[trigger]
            sorted_pairs(pairs, keys, items) && builtin_applied(
                runs[0],
                Builtin::SortBy,
                seq![function, list],
                at,
            ) == (Done {
                run: runs.last(),
                result: Ok(Val::List(Seq::new(pairs.len(), |i: int| pairs[i].1))),
            }),
{
    let all = paired(keys, items);
    let n = all.len() as int;
    assert(all.take(0) =~= Seq::<(Seq<char>, Val)>::empty());
    lemma_keyed_all(function, items, runs, keys, outs, 0, at);
    let pairs = by_key(all, n);
    assert(all.take(n) =~= all);
    let given = Seq::new(items.len(), |i: int| (keys[i], items[i]));
    assert(given =~= all);
    lemma_sort_stable(all, n, Seq::empty());
    assert forall|key: Seq<char>| #[trigger] under_key(pairs, key) == under_key(given, key) by {
        lemma_sort_stable(all, n, key);
    }
    assert(kept_vals(pairs) =~= Seq::new(pairs.len(), |i: int| pairs[i].1));
    assert(sorted_pairs(pairs, keys, items));
}

// ---------------------------------------------------------------------------
// group_by
// ---------------------------------------------------------------------------

/// The names of fields rise.
pub open spec fn names_rise(fields: Kept) -> bool {
    forall|i: int, j: int|
        0 <= i < j < fields.len() ==> text_before(#[trigger] fields[i].0, #[trigger] fields[j].0)
}

proof fn lemma_value_of_last(fields: Kept, name: Seq<char>, i: int)
    requires
        0 <= i < fields.len(),
        names_rise(fields),
    ensures
        field_value(fields, name, i) == if name == fields.last().0 {
            Some(fields.last().1)
        } else {
            field_value(fields.drop_last(), name, i)
        },
    decreases fields.len() - i,
{
    let rest = fields.drop_last();
    if i == fields.len() - 1 {
        assert(field_value(fields, name, i + 1) is None);
        assert(field_value(rest, name, i) is None);
    } else {
        assert(rest[i] == fields[i]);
        lemma_value_of_last(fields, name, i + 1);
        if fields[i].0 == name && name == fields.last().0 {
            lemma_before_irreflexive(name);
            assert(text_before(fields[i].0, fields[fields.len() - 1].0));
        }
    }
}

/// Putting a value under a name keeps the names in order. The name then has that value, and
/// every other name has the value that it had.
pub proof fn lemma_put_field(fields: Kept, name: Seq<char>, value: Val, other: Seq<char>)
    requires
        names_rise(fields),
    ensures
        names_rise(put_field(fields, name, value)),
        field_value(put_field(fields, name, value), name, 0) == Some(value),
        other != name ==> field_value(put_field(fields, name, value), other, 0) == field_value(
            fields,
            other,
            0,
        ),
        forall|i: int|
            0 <= i < put_field(fields, name, value).len() ==> (#[trigger] put_field(
                fields,
                name,
                value,
            )[i]).0 == name || exists|k: int|
                0 <= k < fields.len() && (#[trigger] fields[k]).0 == put_field(
                    fields,
                    name,
                    value,
                )[i].0,
    decreases fields.len(),
{
    let result = put_field(fields, name, value);
    if fields.len() == 0 {
        assert(result.len() == 1);
        assert(field_value(result, other, 1) is None);
    } else {
        let rest = fields.drop_last();
        let last = fields.last();
        assert(names_rise(rest));
        if last.0 == name {
            assert(result.drop_last() =~= rest);
            assert(names_rise(result)) by {
                assert forall|i: int, j: int| 0 <= i < j < result.len() implies text_before(
                    #[trigger] result[i].0,
                    #[trigger] result[j].0,
                ) by {
                    assert(text_before(fields[i].0, fields[j].0));
                }
            }
        } else if text_before(last.0, name) {
            assert(result.drop_last() =~= fields);
            assert forall|i: int, j: int| 0 <= i < j < result.len() implies text_before(
                #[trigger] result[i].0,
                #[trigger] result[j].0,
            ) by {
                if j < fields.len() {
                    assert(text_before(fields[i].0, fields[j].0));
                } else if i < fields.len() - 1 {
                    assert(text_before(fields[i].0, fields[fields.len() - 1].0));
                    lemma_before_transitive(fields[i].0, last.0, name);
                }
            }
        } else {
            lemma_put_field(rest, name, value, other);
            let shorter = put_field(rest, name, value);
            assert(result.drop_last() =~= shorter);
            lemma_before_total(name, last.0);
            assert forall|i: int, j: int| 0 <= i < j < result.len() implies text_before(
                #[trigger] result[i].0,
                #[trigger] result[j].0,
            ) by {
                if j < shorter.len() {
                    assert(text_before(shorter[i].0, shorter[j].0));
                } else if shorter[i].0 != name {
                    let k = choose|k: int|
                        0 <= k < rest.len() && (#[trigger] rest[k]).0 == shorter[i].0;
                    assert(text_before(fields[k].0, fields[fields.len() - 1].0));
                }
            }
            assert forall|i: int| 0 <= i < result.len() implies (#[trigger] result[i]).0 == name
                || exists|k: int| 0 <= k < fields.len() && (#[trigger] fields[k]).0 == result[i].0 by {
                if i < shorter.len() {
                    assert(result[i] == shorter[i]);
                    if shorter[i].0 != name {
                        let k = choose|k: int|
                            0 <= k < rest.len() && (#[trigger] rest[k]).0 == shorter[i].0;
                        assert(fields[k].0 == result[i].0);
                    }
                } else {
                    assert(fields[fields.len() - 1].0 == result[i].0);
                }
            }
        }
        lemma_value_of_last(result, name, 0);
        lemma_value_of_last(result, other, 0);
        lemma_value_of_last(fields, other, 0);
        if text_before(last.0, name) && last.0 != name {
            if other != name {
                assert(field_value(result, other, 0) == field_value(fields, other, 0));
            }
        }
        assert forall|i: int| 0 <= i < result.len() implies (#[trigger] result[i]).0 == name
            || exists|k: int| 0 <= k < fields.len() && (#[trigger] fields[k]).0 == result[i].0 by {
            if last.0 == name || text_before(last.0, name) {
                if i < fields.len() && result[i].0 != name {
                    assert(result[i] == fields[i]);
                }
            }
        }
    }
}

/// The condition of being a key.
pub open spec fn is_key(key: Seq<char>) -> spec_fn(Seq<char>) -> bool {
    |mark: Seq<char>| mark == key
}

/// The items under a key, in their order.
pub open spec fn items_under(keys: Seq<Seq<char>>, items: Seq<Val>, key: Seq<char>) -> Seq<Val> {
    marked_items(keys, items, is_key(key))
}

proof fn lemma_items_under_step(
    keys: Seq<Seq<char>>,
    items: Seq<Val>,
    key: Seq<char>,
    i: int,
)
    requires
        keys.len() == items.len(),
        0 <= i < items.len(),
    ensures
        items_under(keys.take(i + 1), items.take(i + 1), key) == if keys[i] == key {
            items_under(keys.take(i), items.take(i), key).push(items[i])
        } else {
            items_under(keys.take(i), items.take(i), key)
        },
{
    lemma_marked_step(keys, items, is_key(key), i);
}

/// The first `i` items are grouped by their keys.
spec fn groups_hold(groups: Kept, keys: Seq<Seq<char>>, items: Seq<Val>, i: int) -> bool {
    &&& names_rise(groups)
    &&& forall|key: Seq<char>|
        #[trigger] field_value(groups, key, 0) == if keys.take(i).contains(key) {
            Some(Val::List(items_under(keys.take(i), items.take(i), key)))
        } else {
            None
        }
}

proof fn lemma_grouped_step(groups: Kept, keys: Seq<Seq<char>>, items: Seq<Val>, i: int)
    requires
        keys.len() == items.len(),
        0 <= i < items.len(),
        groups_hold(groups, keys, items, i),
    ensures
        groups_hold(grouped(groups, keys[i], items[i]), keys, items, i + 1),
{
    let before = items_under(keys.take(i), items.take(i), keys[i]);
    let value = Val::List(before.push(items[i]));
    assert(field_value(groups, keys[i], 0) == if keys.take(i).contains(keys[i]) {
        Some(Val::List(before))
    } else {
        None
    });
    assert(keys.take(i + 1) =~= keys.take(i).push(keys[i]));
    if !keys.take(i).contains(keys[i]) {
        lemma_none_under(keys.take(i), items.take(i), keys[i]);
        assert(before.push(items[i]) =~= seq![items[i]]);
    }
    let result = put_field(groups, keys[i], value);
    assert(grouped(groups, keys[i], items[i]) == result);
    assert forall|key: Seq<char>|
        #[trigger] field_value(result, key, 0) == if keys.take(i + 1).contains(key) {
            Some(Val::List(items_under(keys.take(i + 1), items.take(i + 1), key)))
        } else {
            None
        } by {
        lemma_put_field(groups, keys[i], value, key);
        lemma_items_under_step(keys, items, key, i);
        assert(keys.take(i + 1).contains(key) <==> keys.take(i).contains(key) || key == keys[i])
            by {
            let shorter = keys.take(i);
            if shorter.contains(key) {
                let k = choose|k: int| 0 <= k < shorter.len() && shorter[k] == key;
                assert(keys.take(i + 1)[k] == key);
            }
            assert(keys.take(i + 1)[i] == keys[i]);
        }
        assert(field_value(groups, key, 0) == field_value(groups, key, 0));
    }
    lemma_put_field(groups, keys[i], value, keys[i]);
}

proof fn lemma_none_under(keys: Seq<Seq<char>>, items: Seq<Val>, key: Seq<char>)
    requires
        keys.len() == items.len(),
        !keys.contains(key),
    ensures
        items_under(keys, items, key) == Seq::<Val>::empty(),
    decreases items.len(),
{
    let n = items.len() as int;
    if n > 0 {
        assert(keys.take(n) =~= keys);
        assert(items.take(n) =~= items);
        lemma_items_under_step(keys, items, key, n - 1);
        assert(!keys.take(n - 1).contains(key)) by {
            let shorter = keys.take(n - 1);
            if shorter.contains(key) {
                let k = choose|k: int| 0 <= k < shorter.len() && shorter[k] == key;
                assert(keys[k] == key);
            }
        }
        assert(keys[n - 1] != key);
        lemma_none_under(keys.take(n - 1), items.take(n - 1), key);
    } else {
        assert(keys.take(0) =~= keys && items.take(0) =~= items);
        lemma_marked_none(keys, items, is_key(key));
    }
}

proof fn lemma_grouped_all(
    function: Val,
    items: Seq<Val>,
    runs: Seq<Run>,
    keys: Seq<Seq<char>>,
    outs: Seq<Val>,
    i: int,
    groups: Kept,
    at: At,
) -> (result: Kept)
    requires
        answers_in_turn(function, one_by_one(items), runs, outs, at),
        keys.len() == items.len(),
        forall|k: int| 0 <= k < keys.len() ==> bare(outs[k]) == Val::Str(#[trigger] keys[k]),
        0 <= i <= items.len(),
        groups_hold(groups, keys, items, i),
    ensures
        kept_from(runs[i], Builtin::GroupBy, function, items, i, groups, at) == (DoneFields {
            run: runs.last(),
            result: Ok(result),
        }),
        groups_hold(result, keys, items, items.len() as int),
    decreases items.len() - i,
{
    if i < items.len() {
        assert(one_by_one(items)[i] == seq![items[i]]);
        assert(bare(outs[i]) == Val::Str(keys[i]));
        lemma_text_below(outs[i]);
        lemma_grouped_step(groups, keys, items, i);
        lemma_grouped_all(
            function,
            items,
            runs,
            keys,
            outs,
            i + 1,
            grouped(groups, keys[i], items[i]),
            at,
        )
    } else {
        groups
    }
}

/// A map groups items by their keys: it has each key once, in ascending order, and under it
/// the items of that key in their order.
pub open spec fn groups(entries: Seq<(Val, Val)>, keys: Seq<Seq<char>>, items: Seq<Val>) -> bool {
    exists|names: Seq<Seq<char>>|
        {
            &&& names.len() == entries.len()
            &&& forall|i: int, j: int|
                0 <= i < j < names.len() ==> text_before(#[trigger] names[i], #[trigger] names[j])
            &&& forall|key: Seq<char>| #[trigger] names.contains(key) <==> keys.contains(key)
            &&& forall|i: int|
                0 <= i < names.len() ==> #[trigger] entries[i] == (
                    Val::Str(names[i]),
                    Val::List(items_under(keys, items, names[i])),
                )
        }
}

pub(crate) proof fn lemma_value_present(fields: Kept, name: Seq<char>, i: int)
    requires
        0 <= i,
        names_rise(fields),
    ensures
        field_value(fields, name, i) is Some <==> exists|k: int|
            i <= k < fields.len() && (#[trigger] fields[k]).0 == name,
        forall|k: int|
            i <= k < fields.len() && (#[trigger] fields[k]).0 == name ==> field_value(
                fields,
                name,
                i,
            ) == Some(fields[k].1),
    decreases fields.len() - i,
{
    if i < fields.len() {
        lemma_value_present(fields, name, i + 1);
        if fields[i].0 == name {
            assert forall|k: int| i <= k < fields.len() && (#[trigger] fields[k]).0
                == name implies k == i by {
                if k > i {
                    assert(text_before(fields[i].0, fields[k].0));
                    lemma_before_irreflexive(name);
                }
            }
        }
    }
}

/// `group_by` returns a map that groups the items by the texts that the function returns on
/// them.
pub proof fn lemma_group_by(
    function: Val,
    list: Val,
    items: Seq<Val>,
    runs: Seq<Run>,
    keys: Seq<Seq<char>>,
    outs: Seq<Val>,
    at: At,
)
    requires
        bare(list) == Val::List(items),
        answers_in_turn(function, one_by_one(items), runs, outs, at),
        keys.len() == items.len(),
        forall|k: int| 0 <= k < keys.len() ==> bare(outs[k]) == Val::Str(#[trigger] keys[k]),
    ensures
        exists|entries: Seq<(Val, Val)>| #[trigger]
            groups(entries, keys, items) && builtin_applied(
                runs[0],
                Builtin::GroupBy,
                seq![function, list],
                at,
            ) == (Done { run: runs.last(), result: Ok(Val::MapOf(entries)) }),
{
    let n = items.len() as int;
    assert(keys.take(0) =~= Seq::<Seq<char>>::empty());
    assert(groups_hold(Seq::empty(), keys, items, 0));
    let result = lemma_grouped_all(function, items, runs, keys, outs, 0, Seq::empty(), at);
    let entries = group_entries(result);
    let names = Seq::new(result.len(), |i: int| result[i].0);
    assert(keys.take(n) =~= keys);
    assert(items.take(n) =~= items);
    assert forall|key: Seq<char>| #[trigger] names.contains(key) <==> keys.contains(key) by {
        lemma_value_present(result, key, 0);
        assert(field_value(result, key, 0) is Some <==> keys.contains(key));
        if names.contains(key) {
            let k = choose|k: int| 0 <= k < names.len() && names[k] == key;
            assert(result[k].0 == key);
        }
        if field_value(result, key, 0) is Some {
            let k = choose|k: int| 0 <= k < result.len() && (#[trigger] result[k]).0 == key;
            assert(names[k] == key);
        }
    }
    assert forall|i: int| 0 <= i < names.len() implies #[trigger] entries[i] == (
        Val::Str(names[i]),
        Val::List(items_under(keys, items, names[i])),
    ) by {
        lemma_value_present(result, result[i].0, 0);
        assert(names[i] == result[i].0);
        assert(names.contains(names[i]));
        assert(field_value(result, result[i].0, 0) == Some(result[i].1));
    }
    assert forall|i: int, j: int| 0 <= i < j < names.len() implies text_before(
        #[trigger] names[i],
        #[trigger] names[j],
    ) by {
        assert(text_before(result[i].0, result[j].0));
    }
    assert(groups(entries, keys, items));
}

} // verus!
