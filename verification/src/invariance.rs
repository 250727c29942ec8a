//! The hash of a modification does not depend on the order in which the modification
//! was written down.

use crate::content::{ordered_items, ordered_json, ordered_members};
use crate::ir::{
    Actor, Message, Route, Rule, actor_document, actor_entries, canonical, hash_of,
    message_document, message_entries, route_entries, rule_document, rule_entries, self_keyed,
    sorted_texts, text_entries,
};
use crate::json::{Data, item_texts, json_text, member_texts};
use crate::order::{
    Entry, at_most, documents, inserted, lemma_before_asymmetric, lemma_before_irreflexive,
    lemma_before_total, lemma_before_transitive, lemma_texts_ordered, mapped, put, sorted,
    text_before,
};
use vstd::prelude::*;
use vstd::relations::*;
use vstd::seq_lib::*;

verus! {

// ---------------------------------------------------------------------------
// Sorting
// ---------------------------------------------------------------------------

pub open spec fn entry_keys(entries: Seq<Entry>) -> Seq<Seq<char>> {
    Seq::new(entries.len(), |i: int| entries[i].0)
}

/// No two entries stand under one key.
pub open spec fn keys_differ(entries: Seq<Entry>) -> bool {
    forall|i: int, j: int|
        0 <= i < j < entries.len() ==> (#[trigger] entries[i]).0 != (#[trigger] entries[j]).0
}

proof fn lemma_inserted(entries: Seq<Entry>, entry: Entry)
    requires
        sorted_by(entry_keys(entries), at_most()),
    ensures
        sorted_by(entry_keys(inserted(entries, entry)), at_most()),
        inserted(entries, entry).to_multiset() == entries.to_multiset().insert(entry),
    decreases entries.len(),
{
    broadcast use {vstd::multiset::group_multiset_axioms, group_to_multiset_ensures};

    lemma_texts_ordered();
    let leq = at_most();
    let keys = entry_keys(entries);
    if entries.len() == 0 {
        assert(seq![entry] =~= entries.push(entry));
    } else if text_before(entry.0, entries.last().0) {
        let rest = entries.drop_last();
        let shorter = inserted(rest, entry);
        let longer = shorter.push(entries.last());
        assert forall|i: int, j: int| 0 <= i < j < entry_keys(rest).len() implies #[trigger] leq(
            entry_keys(rest)[i],
            entry_keys(rest)[j],
        ) by {
            assert(leq(keys[i], keys[j]));
        }
        lemma_inserted(rest, entry);
        assert(entries =~= rest.push(entries.last()));
        let all = entry_keys(longer);
        assert forall|i: int, j: int| 0 <= i < j < all.len() implies #[trigger] leq(
            all[i],
            all[j],
        ) by {
            if j < shorter.len() {
                assert(leq(entry_keys(shorter)[i], entry_keys(shorter)[j]));
            } else {
                assert(shorter.contains(shorter[i]));
                assert(shorter.to_multiset().count(shorter[i]) > 0);
                if shorter[i] == entry {
                    lemma_before_asymmetric(entry.0, entries.last().0);
                } else {
                    assert(rest.contains(shorter[i]));
                    let k = choose|k: int| 0 <= k < rest.len() && rest[k] == shorter[i];
                    assert(leq(keys[k], keys[entries.len() - 1]));
                }
            }
        }
    } else {
        let all = entry_keys(entries.push(entry));
        assert forall|i: int, j: int| 0 <= i < j < all.len() implies #[trigger] leq(
            all[i],
            all[j],
        ) by {
            if j < entries.len() {
                assert(leq(keys[i], keys[j]));
            } else if i < entries.len() - 1 {
                assert(leq(keys[i], keys[entries.len() - 1]));
                assert(leq(keys[entries.len() - 1], entry.0));
            }
        }
    }
}

/// Sorting puts the keys into order and keeps the entries.
pub proof fn lemma_sorted(entries: Seq<Entry>)
    ensures
        sorted_by(entry_keys(sorted(entries)), at_most()),
        sorted(entries).to_multiset() == entries.to_multiset(),
    decreases entries.len(),
{
    broadcast use {vstd::multiset::group_multiset_axioms, group_to_multiset_ensures};

    if entries.len() > 0 {
        lemma_sorted(entries.drop_last());
        lemma_inserted(sorted(entries.drop_last()), entries.last());
        assert(entries =~= entries.drop_last().push(entries.last()));
    } else {
        assert(sorted(entries) =~= entries);
    }
}

/// What a function gives for the items of a list, as a multiset, depends only on which
/// items there are.
proof fn lemma_images<A, B>(left: Seq<A>, right: Seq<A>, f: spec_fn(A) -> B)
    requires
        left.to_multiset() == right.to_multiset(),
    ensures
        left.map_values(f).to_multiset() == right.map_values(f).to_multiset(),
    decreases left.len(),
{
    broadcast use {vstd::multiset::group_multiset_axioms, group_to_multiset_ensures};

    assert(left.to_multiset().len() == left.len() && right.to_multiset().len() == right.len());
    if left.len() == 0 {
        assert(left.map_values(f) =~= right.map_values(f));
    } else {
        let last = left.last();
        let rest = left.drop_last();
        assert(left =~= rest.push(last));
        assert(left.contains(last));
        assert(right.to_multiset().count(last) > 0);
        assert(right.contains(last));
        let at = choose|at: int| 0 <= at < right.len() && right[at] == last;
        let others = right.remove(at);
        assert(left.remove(left.len() - 1) =~= rest);
        assert(rest.to_multiset() =~= others.to_multiset());
        lemma_images(rest, others, f);
        assert(left.map_values(f) =~= rest.map_values(f).push(f(last)));
        assert(others.map_values(f) =~= right.map_values(f).remove(at));
        let images = right.map_values(f);
        assert(images[at] == f(last));
        assert(images.contains(f(last)));
        assert(images.remove(at).to_multiset() == images.to_multiset().remove(f(last)));
        assert(images.to_multiset().count(f(last)) > 0);
        assert(images.to_multiset() =~= images.remove(at).to_multiset().insert(f(last)));
    }
}

proof fn lemma_keys_multiset(left: Seq<Entry>, right: Seq<Entry>)
    requires
        left.to_multiset() == right.to_multiset(),
    ensures
        entry_keys(left).to_multiset() == entry_keys(right).to_multiset(),
{
    let key = |entry: Entry| entry.0;
    lemma_images(left, right, key);
    assert(entry_keys(left) =~= left.map_values(key));
    assert(entry_keys(right) =~= right.map_values(key));
}

/// The keys of sorted entries depend only on which entries there are.
pub proof fn lemma_sorted_keys(left: Seq<Entry>, right: Seq<Entry>)
    requires
        left.to_multiset() == right.to_multiset(),
    ensures
        entry_keys(sorted(left)) == entry_keys(sorted(right)),
{
    lemma_texts_ordered();
    lemma_sorted(left);
    lemma_sorted(right);
    lemma_keys_multiset(sorted(left), sorted(right));
    lemma_sorted_unique(entry_keys(sorted(left)), entry_keys(sorted(right)), at_most());
}

/// Sorted entries under different keys depend only on which entries there are.
pub proof fn lemma_sorted_entries(left: Seq<Entry>, right: Seq<Entry>)
    requires
        left.to_multiset() == right.to_multiset(),
        keys_differ(left),
    ensures
        sorted(left) == sorted(right),
{
    broadcast use {vstd::multiset::group_multiset_axioms, group_to_multiset_ensures};

    lemma_sorted_keys(left, right);
    lemma_sorted(left);
    lemma_sorted(right);
    let a = sorted(left);
    let b = sorted(right);
    assert(entry_keys(a).len() == entry_keys(b).len());
    assert forall|i: int| 0 <= i < a.len() implies a[i] == b[i] by {
        assert(entry_keys(a)[i] == entry_keys(b)[i]);
        assert(a.contains(a[i]) && b.contains(b[i]));
        assert(left.to_multiset().count(a[i]) > 0 && left.to_multiset().count(b[i]) > 0);
        assert(left.contains(a[i]) && left.contains(b[i]));
        let p = choose|p: int| 0 <= p < left.len() && left[p] == a[i];
        let q = choose|q: int| 0 <= q < left.len() && left[q] == b[i];
        if p < q {
            assert(left[p].0 != left[q].0);
        } else if q < p {
            assert(left[q].0 != left[p].0);
        }
    }
    assert(a =~= b);
}

proof fn lemma_put_new(entries: Seq<Entry>, entry: Entry)
    requires
        forall|i: int| 0 <= i < entries.len() ==> (#[trigger] entries[i]).0 != entry.0,
    ensures
        put(entries, entry) == inserted(entries, entry),
    decreases entries.len(),
{
    if entries.len() > 0 {
        assert(entries.last().0 != entry.0);
        assert forall|i: int| 0 <= i < entries.drop_last().len() implies (
        #[trigger] entries.drop_last()[i]).0 != entry.0 by {
            assert(entries[i].0 != entry.0);
        }
        lemma_put_new(entries.drop_last(), entry);
    }
}

/// A map of entries under different keys holds these entries, sorted.
pub proof fn lemma_mapped_sorted(entries: Seq<Entry>)
    requires
        keys_differ(entries),
    ensures
        mapped(entries) == sorted(entries),
    decreases entries.len(),
{
    broadcast use {vstd::multiset::group_multiset_axioms, group_to_multiset_ensures};

    if entries.len() > 0 {
        let rest = entries.drop_last();
        assert forall|i: int, j: int| 0 <= i < j < rest.len() implies (#[trigger] rest[i]).0 != (
        #[trigger] rest[j]).0 by {
            assert(entries[i].0 != entries[j].0);
        }
        lemma_mapped_sorted(rest);
        lemma_sorted(rest);
        let s = sorted(rest);
        assert forall|i: int| 0 <= i < s.len() implies (#[trigger] s[i]).0 != entries.last().0 by {
            assert(s.contains(s[i]));
            assert(rest.to_multiset().count(s[i]) > 0);
            assert(rest.contains(s[i]));
            let k = choose|k: int| 0 <= k < rest.len() && rest[k] == s[i];
            assert(entries[k].0 != entries[entries.len() - 1].0);
        }
        lemma_put_new(s, entries.last());
    }
}

/// Two lists in which every entry has a key of its own and which hold the same
/// entries are reorderings of each other.
proof fn lemma_same_entries(left: Seq<Entry>, right: Seq<Entry>)
    requires
        keys_differ(left),
        keys_differ(right),
        forall|i: int| 0 <= i < left.len() ==> right.contains(#[trigger] left[i]),
        forall|i: int| 0 <= i < right.len() ==> left.contains(#[trigger] right[i]),
    ensures
        left.to_multiset() == right.to_multiset(),
{
    broadcast use {vstd::multiset::group_multiset_axioms, group_to_multiset_ensures};

    assert(left.no_duplicates()) by {
        assert forall|i: int, j: int| 0 <= i < left.len() && 0 <= j < left.len() && i != j implies left[i] != left[j] by {
            if i < j {
                assert(left[i].0 != left[j].0);
            } else {
                assert(left[j].0 != left[i].0);
            }
        }
    }
    assert(right.no_duplicates()) by {
        assert forall|i: int, j: int| 0 <= i < right.len() && 0 <= j < right.len() && i != j implies right[i] != right[j] by {
            if i < j {
                assert(right[i].0 != right[j].0);
            } else {
                assert(right[j].0 != right[i].0);
            }
        }
    }
    left.lemma_multiset_has_no_duplicates();
    right.lemma_multiset_has_no_duplicates();
    assert forall|e: Entry| left.to_multiset().count(e) == right.to_multiset().count(e) by {
        if left.to_multiset().count(e) > 0 {
            assert(left.contains(e));
            let i = choose|i: int| 0 <= i < left.len() && left[i] == e;
            assert(right.contains(left[i]));
            assert(left.to_multiset().contains(e) && right.to_multiset().contains(e));
        } else if right.to_multiset().count(e) > 0 {
            assert(right.contains(e));
            let i = choose|i: int| 0 <= i < right.len() && right[i] == e;
            assert(left.contains(right[i]));
        }
    }
    assert(left.to_multiset() =~= right.to_multiset());
}

// ---------------------------------------------------------------------------
// Modifications
// ---------------------------------------------------------------------------

proof fn lemma_sorted_texts(left: Seq<Seq<char>>, right: Seq<Seq<char>>)
    requires
        left.to_multiset() == right.to_multiset(),
    ensures
        sorted_texts(left) == sorted_texts(right),
{
    broadcast use {vstd::multiset::group_multiset_axioms, group_to_multiset_ensures};

    let entry = |text: Seq<char>| (text, Data::Str(text));
    lemma_images(left, right, entry);
    assert(text_entries(left) =~= left.map_values(entry));
    assert(text_entries(right) =~= right.map_values(entry));
    lemma_sorted_keys(text_entries(left), text_entries(right));
    lemma_sorted(text_entries(left));
    lemma_sorted(text_entries(right));
    let a = sorted(text_entries(left));
    let b = sorted(text_entries(right));
    assert(entry_keys(a).len() == entry_keys(b).len());
    assert forall|i: int| 0 <= i < a.len() implies a[i].1 == b[i].1 by {
        assert(entry_keys(a)[i] == entry_keys(b)[i]);
        assert(a.contains(a[i]) && b.contains(b[i]));
        assert(text_entries(left).to_multiset().count(a[i]) > 0);
        assert(text_entries(right).to_multiset().count(b[i]) > 0);
        assert(text_entries(left).contains(a[i]) && text_entries(right).contains(b[i]));
    }
    assert(documents(a) =~= documents(b));
}

/// Every route of one list has a counterpart in another one: the same key, and the
/// same destinations in some order.
pub open spec fn routes_within(left: Seq<Route>, right: Seq<Route>) -> bool {
    forall|i: int| 0 <= i < left.len() ==> has_counterpart(#[trigger] left[i], right)
}

/// Some route has the key of another one and its destinations in some order.
pub open spec fn has_counterpart(route: Route, routes: Seq<Route>) -> bool {
    exists|j: int|
        0 <= j < routes.len() && (#[trigger] routes[j]).0 == route.0 && routes[j].1.to_multiset()
            == route.1.to_multiset()
}

/// No two routes of an actor have one key.
pub open spec fn routes_differ(routes: Seq<Route>) -> bool {
    forall|i: int, j: int|
        0 <= i < j < routes.len() ==> (#[trigger] routes[i]).0 != (#[trigger] routes[j]).0
}

/// Two actors that differ only in the order of their routes and of the destinations.
pub open spec fn same_actor(left: Actor, right: Actor) -> bool {
    &&& left.id == right.id
    &&& left.factory == right.factory
    &&& left.params == right.params
    &&& routes_differ(left.routes)
    &&& routes_differ(right.routes)
    &&& routes_within(left.routes, right.routes)
    &&& routes_within(right.routes, left.routes)
}

pub open spec fn actors_within(left: Seq<Actor>, right: Seq<Actor>) -> bool {
    forall|i: int|
        0 <= i < left.len() ==> exists|j: int|
            0 <= j < right.len() && same_actor(#[trigger] left[i], #[trigger] right[j])
}

/// No two actors have one id.
pub open spec fn ids_differ(actors: Seq<Actor>) -> bool {
    forall|i: int, j: int|
        0 <= i < j < actors.len() ==> (#[trigger] actors[i]).id != (#[trigger] actors[j]).id
}

proof fn lemma_route_entries(left: Seq<Route>, right: Seq<Route>)
    requires
        routes_within(left, right),
    ensures
        forall|i: int|
            0 <= i < route_entries(left).len() ==> route_entries(right).contains(
                #[trigger] route_entries(left)[i],
            ),
{
    assert forall|i: int| 0 <= i < route_entries(left).len() implies route_entries(right).contains(
        #[trigger] route_entries(left)[i],
    ) by {
        assert(has_counterpart(left[i], right));
        let j = choose|j: int|
            0 <= j < right.len() && (#[trigger] right[j]).0 == left[i].0
                && right[j].1.to_multiset() == left[i].1.to_multiset();
        lemma_sorted_texts(left[i].1, right[j].1);
        assert(route_entries(right)[j] == route_entries(left)[i]);
    }
}

proof fn lemma_route_keys(routes: Seq<Route>)
    requires
        routes_differ(routes),
    ensures
        keys_differ(route_entries(routes)),
{
    let entries = route_entries(routes);
    assert forall|i: int, j: int| 0 <= i < j < entries.len() implies (#[trigger] entries[i]).0 != (
    #[trigger] entries[j]).0 by {
        assert(routes[i].0 != routes[j].0);
    }
}

/// The document of an actor does not depend on the order of its routes nor on that
/// of their destinations.
pub proof fn lemma_actor_document(left: Actor, right: Actor)
    requires
        same_actor(left, right),
    ensures
        actor_document(left) == actor_document(right),
{
    let a = route_entries(left.routes);
    let b = route_entries(right.routes);
    lemma_route_keys(left.routes);
    lemma_route_keys(right.routes);
    lemma_route_entries(left.routes, right.routes);
    lemma_route_entries(right.routes, left.routes);
    lemma_same_entries(a, b);
    lemma_mapped_sorted(a);
    lemma_mapped_sorted(b);
    lemma_sorted_entries(a, b);
}

proof fn lemma_actor_entries(left: Seq<Actor>, right: Seq<Actor>)
    requires
        actors_within(left, right),
    ensures
        forall|i: int|
            0 <= i < actor_entries(left).len() ==> actor_entries(right).contains(
                #[trigger] actor_entries(left)[i],
            ),
{
    assert forall|i: int| 0 <= i < actor_entries(left).len() implies actor_entries(right).contains(
        #[trigger] actor_entries(left)[i],
    ) by {
        assert(left[i].id == left[i].id);
        let j = choose|j: int|
            0 <= j < right.len() && same_actor(left[i], #[trigger] right[j]);
        lemma_actor_document(left[i], right[j]);
        assert(actor_entries(right)[j] == actor_entries(left)[i]);
    }
}

proof fn lemma_actor_keys(actors: Seq<Actor>)
    requires
        ids_differ(actors),
    ensures
        keys_differ(actor_entries(actors)),
{
    let entries = actor_entries(actors);
    assert forall|i: int, j: int| 0 <= i < j < entries.len() implies (#[trigger] entries[i]).0 != (
    #[trigger] entries[j]).0 by {
        assert(actors[i].id != actors[j].id);
    }
}

/// Entries that stand under their own notation.
pub open spec fn under_notation(entries: Seq<Entry>) -> bool {
    forall|i: int| 0 <= i < entries.len() ==> (#[trigger] entries[i]).0 == json_text(entries[i].1)
}

/// The notation of a sorted list of documents depends only on which documents there are.
proof fn lemma_sorted_notation(left: Seq<Entry>, right: Seq<Entry>)
    requires
        left.to_multiset() == right.to_multiset(),
        under_notation(left),
    ensures
        json_text(Data::Array(documents(sorted(left)))) == json_text(
            Data::Array(documents(sorted(right))),
        ),
{
    broadcast use {vstd::multiset::group_multiset_axioms, group_to_multiset_ensures};

    lemma_sorted_keys(left, right);
    lemma_sorted(left);
    lemma_sorted(right);
    let a = sorted(left);
    let b = sorted(right);
    assert(entry_keys(a).len() == entry_keys(b).len());
    assert forall|i: int| 0 <= i < a.len() implies json_text(#[trigger] documents(a)[i])
        == json_text(documents(b)[i]) by {
        assert(entry_keys(a)[i] == entry_keys(b)[i]);
        assert(a.contains(a[i]) && b.contains(b[i]));
        assert(left.to_multiset().count(a[i]) > 0 && left.to_multiset().count(b[i]) > 0);
        assert(left.contains(a[i]) && left.contains(b[i]));
    }
    assert(item_texts(documents(a)) =~= item_texts(documents(b)));
}

/// The hash of a modification depends neither on the order of its actors, messages,
/// kills and rules, nor on that of the routes of an actor or of the destinations of a
/// route.
pub proof fn lemma_hash_ignores_order(
    actors: Seq<Actor>,
    messages: Seq<Message>,
    kills: Seq<Seq<char>>,
    rules: Seq<Rule>,
    other_actors: Seq<Actor>,
    other_messages: Seq<Message>,
    other_kills: Seq<Seq<char>>,
    other_rules: Seq<Rule>,
)
    requires
        ids_differ(actors),
        ids_differ(other_actors),
        actors_within(actors, other_actors),
        actors_within(other_actors, actors),
        messages.to_multiset() == other_messages.to_multiset(),
        kills.to_multiset() == other_kills.to_multiset(),
        rules.to_multiset() == other_rules.to_multiset(),
    ensures
        hash_of(actors, messages, kills, rules) == hash_of(
            other_actors,
            other_messages,
            other_kills,
            other_rules,
        ),
{
    lemma_actor_keys(actors);
    lemma_actor_keys(other_actors);
    lemma_actor_entries(actors, other_actors);
    lemma_actor_entries(other_actors, actors);
    lemma_same_entries(actor_entries(actors), actor_entries(other_actors));
    lemma_sorted_entries(actor_entries(actors), actor_entries(other_actors));
    let message_entry = |message: Message| self_keyed(message_document(message));
    lemma_images(messages, other_messages, message_entry);
    assert(message_entries(messages) =~= messages.map_values(message_entry));
    assert(message_entries(other_messages) =~= other_messages.map_values(message_entry));
    lemma_sorted_notation(message_entries(messages), message_entries(other_messages));
    let rule_entry = |rule: Rule| self_keyed(rule_document(rule));
    lemma_images(rules, other_rules, rule_entry);
    assert(rule_entries(rules) =~= rules.map_values(rule_entry));
    assert(rule_entries(other_rules) =~= other_rules.map_values(rule_entry));
    lemma_sorted_notation(rule_entries(rules), rule_entries(other_rules));
    lemma_sorted_texts(kills, other_kills);
    let one = canonical(actors, messages, kills, rules);
    let other = canonical(other_actors, other_messages, other_kills, other_rules);
    assert(member_texts(one->Object_0) =~= member_texts(other->Object_0));
    assert(json_text(one) == json_text(other));
}

// ---------------------------------------------------------------------------
// Documents
// ---------------------------------------------------------------------------

/// Every key stands before those that follow it.
pub open spec fn keys_rise(entries: Seq<Entry>) -> bool {
    forall|i: int, j: int|
        0 <= i < j < entries.len() ==> text_before(
            (#[trigger] entries[i]).0,
            (#[trigger] entries[j]).0,
        )
}

proof fn lemma_put_rises(entries: Seq<Entry>, entry: Entry)
    requires
        keys_rise(entries),
    ensures
        keys_rise(put(entries, entry)),
        forall|i: int|
            0 <= i < put(entries, entry).len() ==> (#[trigger] put(entries, entry)[i]) == entry
                || entries.contains(put(entries, entry)[i]),
    decreases entries.len(),
{
    let result = put(entries, entry);
    if entries.len() > 0 {
        let last = entries.last();
        let rest = entries.drop_last();
        assert forall|i: int, j: int| 0 <= i < j < rest.len() implies text_before(
            (#[trigger] rest[i]).0,
            (#[trigger] rest[j]).0,
        ) by {
            assert(text_before(entries[i].0, entries[j].0));
        }
        if last.0 == entry.0 {
            assert forall|i: int, j: int| 0 <= i < j < result.len() implies text_before(
                (#[trigger] result[i]).0,
                (#[trigger] result[j]).0,
            ) by {
                assert(text_before(entries[i].0, entries[j].0));
            }
            assert forall|i: int| 0 <= i < result.len() implies (#[trigger] result[i]) == entry
                || entries.contains(result[i]) by {
                if i < rest.len() {
                    assert(result[i] == entries[i]);
                }
            }
        } else if text_before(entry.0, last.0) {
            lemma_put_rises(rest, entry);
            let shorter = put(rest, entry);
            assert forall|i: int, j: int| 0 <= i < j < result.len() implies text_before(
                (#[trigger] result[i]).0,
                (#[trigger] result[j]).0,
            ) by {
                assert(result[i] == shorter[i]);
                if j < shorter.len() {
                    assert(result[j] == shorter[j]);
                } else if shorter[i] != entry {
                    let k = choose|k: int| 0 <= k < rest.len() && rest[k] == shorter[i];
                    assert(text_before(entries[k].0, entries[entries.len() - 1].0));
                }
            }
            assert forall|i: int| 0 <= i < result.len() implies (#[trigger] result[i]) == entry
                || entries.contains(result[i]) by {
                if i < shorter.len() {
                    assert(result[i] == shorter[i]);
                    if shorter[i] != entry {
                        let k = choose|k: int| 0 <= k < rest.len() && rest[k] == shorter[i];
                        assert(entries[k] == result[i]);
                    }
                } else {
                    assert(entries[entries.len() - 1] == result[i]);
                }
            }
        } else {
            lemma_before_total(entry.0, last.0);
            assert forall|i: int, j: int| 0 <= i < j < result.len() implies text_before(
                (#[trigger] result[i]).0,
                (#[trigger] result[j]).0,
            ) by {
                if j < entries.len() {
                    assert(text_before(entries[i].0, entries[j].0));
                } else if i < entries.len() - 1 {
                    assert(text_before(entries[i].0, entries[entries.len() - 1].0));
                    lemma_before_transitive(entries[i].0, last.0, entry.0);
                }
            }
            assert forall|i: int| 0 <= i < result.len() implies (#[trigger] result[i]) == entry
                || entries.contains(result[i]) by {
                if i < entries.len() {
                    assert(result[i] == entries[i]);
                }
            }
        }
    }
}

/// The keys of a map rise, and its entries are among those it was made of.
pub proof fn lemma_mapped_rises(entries: Seq<Entry>)
    ensures
        keys_rise(mapped(entries)),
        forall|i: int|
            0 <= i < mapped(entries).len() ==> entries.contains(#[trigger] mapped(entries)[i]),
    decreases entries.len(),
{
    if entries.len() > 0 {
        let rest = entries.drop_last();
        lemma_mapped_rises(rest);
        lemma_put_rises(mapped(rest), entries.last());
        let result = mapped(entries);
        assert forall|i: int| 0 <= i < result.len() implies entries.contains(
            #[trigger] result[i],
        ) by {
            if result[i] == entries.last() {
                assert(entries[entries.len() - 1] == result[i]);
            } else {
                let k = choose|k: int| 0 <= k < mapped(rest).len() && mapped(rest)[k] == result[i];
                assert(rest.contains(mapped(rest)[k]));
                let n = choose|n: int| 0 <= n < rest.len() && rest[n] == result[i];
                assert(entries[n] == result[i]);
            }
        }
    }
}

/// A list whose keys rise is a map already.
pub proof fn lemma_mapped_risen(entries: Seq<Entry>)
    requires
        keys_rise(entries),
    ensures
        mapped(entries) == entries,
    decreases entries.len(),
{
    if entries.len() > 0 {
        let rest = entries.drop_last();
        assert forall|i: int, j: int| 0 <= i < j < rest.len() implies text_before(
            (#[trigger] rest[i]).0,
            (#[trigger] rest[j]).0,
        ) by {
            assert(text_before(entries[i].0, entries[j].0));
        }
        lemma_mapped_risen(rest);
        if rest.len() > 0 {
            let before = entries[entries.len() - 2].0;
            let last = entries[entries.len() - 1].0;
            assert(text_before(before, last));
            lemma_before_asymmetric(before, last);
            lemma_before_irreflexive(last);
            assert(rest.last().0 == before);
        }
        assert(entries =~= rest.push(entries.last()));
    }
}

/// Putting a document into canonical form a second time changes nothing.
pub proof fn lemma_ordered_json_idempotent(data: Data)
    ensures
        ordered_json(ordered_json(data)) == ordered_json(data),
    decreases data,
{
    match data {
        Data::Array(items) => {
            let once = ordered_items(items);
            assert forall|i: int| 0 <= i < items.len() implies ordered_json(#[trigger] once[i])
                == once[i] by {
                lemma_ordered_json_idempotent(items[i]);
            }
            assert(ordered_items(once) =~= once);
        },
        Data::Object(members) => {
            let once = ordered_members(members);
            let result = mapped(once);
            lemma_mapped_rises(once);
            assert forall|i: int| 0 <= i < result.len() implies ordered_json(
                (#[trigger] result[i]).1,
            ) == result[i].1 by {
                assert(once.contains(result[i]));
                let k = choose|k: int| 0 <= k < once.len() && once[k] == result[i];
                assert(once[k] == (members[k].0, ordered_json(members[k].1)));
                lemma_ordered_json_idempotent(members[k].1);
            }
            assert(ordered_members(result) =~= result);
            lemma_mapped_risen(result);
        },
        _ => {},
    }
}

} // verus!
