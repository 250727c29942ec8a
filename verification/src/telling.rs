//! What the document of a modification, which its hash is taken of, tells of it.

use crate::invariance::{keys_differ, lemma_mapped_sorted, lemma_sorted};
use crate::ir::{
    Actor, Message, Modification, Rule, actor_document, actor_entries, canonical,
    message_document, message_entries, route_entries, rule_document, rule_entries, sorted_texts,
    text_entries,
};
use crate::json::Data;
use crate::order::{Entry, differs_first_at, documents, mapped, sorted, text_before};
use vstd::prelude::*;

verus! {

/// Texts stand in the order of the first characters in which they differ, and a text stands
/// before whatever it is the beginning of.
pub proof fn lemma_order_of_texts(
    start: Seq<char>,
    a: char,
    b: char,
    left: Seq<char>,
    right: Seq<char>,
)
    ensures
        a < b ==> text_before(start.push(a) + left, start.push(b) + right),
        text_before(start, start.push(a) + left),
{
    let n = start.len() as int;
    let first = start.push(a) + left;
    let second = start.push(b) + right;
    assert(first.take(n) =~= start);
    assert(second.take(n) =~= start);
    assert(start.take(n) =~= start);
    if a < b {
        assert(first[n] == a && second[n] == b);
        assert(differs_first_at(first, second, n));
    }
    assert(differs_first_at(start, first, n));
}

/// Some entry holds a document.
spec fn holds_document(entries: Seq<Entry>, data: Data) -> bool {
    exists|i: int| 0 <= i < entries.len() && (#[trigger] entries[i]).1 == data
}

proof fn lemma_sorted_holds(entries: Seq<Entry>, data: Data)
    ensures
        documents(sorted(entries)).contains(data) <==> holds_document(entries, data),
        sorted(entries).len() == entries.len(),
{
    broadcast use {vstd::multiset::group_multiset_axioms, vstd::seq_lib::group_to_multiset_ensures};

    lemma_sorted(entries);
    let list = sorted(entries);
    let docs = documents(list);
    assert(list.to_multiset() == entries.to_multiset());
    assert(list.len() == list.to_multiset().len());
    assert(entries.len() == entries.to_multiset().len());
    if docs.contains(data) {
        let k = choose|k: int| 0 <= k < docs.len() && docs[k] == data;
        assert(list.contains(list[k]));
        assert(list.to_multiset().count(list[k]) > 0);
        assert(entries.contains(list[k]));
        let i = choose|i: int| 0 <= i < entries.len() && entries[i] == list[k];
        assert(entries[i].1 == data);
    }
    if holds_document(entries, data) {
        let i = choose|i: int| 0 <= i < entries.len() && (#[trigger] entries[i]).1 == data;
        assert(entries.contains(entries[i]));
        assert(entries.to_multiset().count(entries[i]) > 0);
        assert(list.contains(entries[i]));
        let k = choose|k: int| 0 <= k < list.len() && list[k] == entries[i];
        assert(docs[k] == data);
    }
}

/// An actor, a message and a rule can be told by their documents.
pub proof fn lemma_documents_tell(
    left: Actor,
    right: Actor,
    message: Message,
    other: Message,
    rule: Rule,
    another: Rule,
)
    ensures
        actor_document(left) == actor_document(right) ==> left.id == right.id && left.factory
            == right.factory && left.params == right.params && mapped(route_entries(left.routes))
            == mapped(route_entries(right.routes)),
        message_document(message) == message_document(other) ==> message == other,
        rule_document(rule) == rule_document(another) ==> rule == another,
{
    if actor_document(left) == actor_document(right) {
        let a = actor_document(left)->Object_0;
        let b = actor_document(right)->Object_0;
        assert(a[0] == b[0] && a[1] == b[1] && a[2] == b[2] && a[3] == b[3]);
    }
    if message_document(message) == message_document(other) {
        let a = message_document(message)->Object_0;
        let b = message_document(other)->Object_0;
        assert(a[0] == b[0] && a[1] == b[1]);
    }
    if rule_document(rule) == rule_document(another) {
        let a = rule_document(rule)->Object_0;
        let b = rule_document(another)->Object_0;
        assert(a[0] == b[0] && a[1] == b[1]);
    }
}

proof fn lemma_texts_told(left: Seq<Seq<char>>, right: Seq<Seq<char>>)
    requires
        sorted_texts(left) == sorted_texts(right),
    ensures
        left.len() == right.len(),
        forall|text: Seq<char>| #[trigger] left.contains(text) <==> right.contains(text),
{
    let a = text_entries(left);
    let b = text_entries(right);
    lemma_sorted_holds(a, Data::Null);
    lemma_sorted_holds(b, Data::Null);
    assert(documents(sorted(a)).len() == documents(sorted(b)).len());
    assert forall|text: Seq<char>| #[trigger] left.contains(text) <==> right.contains(text) by {
        lemma_sorted_holds(a, Data::Str(text));
        lemma_sorted_holds(b, Data::Str(text));
        lemma_text_held(left, text);
        lemma_text_held(right, text);
    }
}

proof fn lemma_text_held(parts: Seq<Seq<char>>, text: Seq<char>)
    ensures
        parts.contains(text) <==> holds_document(text_entries(parts), Data::Str(text)),
{
    let entries = text_entries(parts);
    if parts.contains(text) {
        let i = choose|i: int| 0 <= i < parts.len() && parts[i] == text;
        assert(entries[i].1 == Data::Str(text));
    }
    if holds_document(entries, Data::Str(text)) {
        let i = choose|i: int|
            0 <= i < entries.len() && (#[trigger] entries[i]).1 == Data::Str(text);
        assert(parts[i] == text);
    }
}

/// Routes under different keys can be told by the document of their actor: it has under each
/// key the destinations of that key.
pub proof fn lemma_routes_told(left: Actor, right: Actor, i: int)
    requires
        actor_document(left) == actor_document(right),
        keys_differ(route_entries(left.routes)),
        keys_differ(route_entries(right.routes)),
        0 <= i < left.routes.len(),
    ensures
        exists|j: int|
            {
                &&& 0 <= j < right.routes.len()
                &&& (#[trigger] right.routes[j]).0 == left.routes[i].0
                &&& right.routes[j].1.len() == left.routes[i].1.len()
                &&& forall|to: Seq<char>|
                    right.routes[j].1.contains(to) <==> #[trigger] left.routes[i].1.contains(to)
            },
{
    broadcast use {vstd::multiset::group_multiset_axioms, vstd::seq_lib::group_to_multiset_ensures};

    let a = route_entries(left.routes);
    let b = route_entries(right.routes);
    lemma_documents_tell(
        left,
        right,
        arbitrary(),
        arbitrary(),
        arbitrary(),
        arbitrary(),
    );
    lemma_mapped_sorted(a);
    lemma_mapped_sorted(b);
    lemma_sorted(a);
    lemma_sorted(b);
    assert(sorted(a).to_multiset() == a.to_multiset());
    assert(sorted(b).to_multiset() == b.to_multiset());
    assert(a.contains(a[i]));
    assert(a.to_multiset().count(a[i]) > 0);
    assert(b.to_multiset().count(a[i]) > 0);
    assert(b.contains(a[i]));
    let j = choose|j: int| 0 <= j < b.len() && b[j] == a[i];
    assert(right.routes[j].0 == left.routes[i].0);
    lemma_texts_told(left.routes[i].1, right.routes[j].1);
}

/// Modifications with one document have equal actors, messages, kills and rules, in whatever
/// order: what the hash is taken of leaves nothing out.
pub proof fn lemma_modification_told(left: Modification, right: Modification)
    requires
        canonical(left.actors, left.messages, left.kills, left.rules) == canonical(
            right.actors,
            right.messages,
            right.kills,
            right.rules,
        ),
    ensures
        left.actors.len() == right.actors.len(),
        left.messages.len() == right.messages.len(),
        left.kills.len() == right.kills.len(),
        left.rules.len() == right.rules.len(),
        forall|i: int|
            0 <= i < left.actors.len() ==> has_alike(right.actors, #[trigger] left.actors[i]),
        forall|message: Message| #[trigger]
            left.messages.contains(message) ==> right.messages.contains(message),
        forall|kill: Seq<char>| #[trigger]
            left.kills.contains(kill) <==> right.kills.contains(kill),
        forall|rule: Rule| #[trigger] left.rules.contains(rule) ==> right.rules.contains(rule),
{
    let a = canonical(left.actors, left.messages, left.kills, left.rules)->Object_0;
    let b = canonical(right.actors, right.messages, right.kills, right.rules)->Object_0;
    assert(a[0] == b[0] && a[1] == b[1] && a[2] == b[2] && a[3] == b[3]);
    lemma_texts_told(left.kills, right.kills);
    let actors = (actor_entries(left.actors), actor_entries(right.actors));
    let messages = (message_entries(left.messages), message_entries(right.messages));
    let rules = (rule_entries(left.rules), rule_entries(right.rules));
    assert(documents(sorted(actors.0)) == documents(sorted(actors.1)));
    assert(documents(sorted(messages.0)) == documents(sorted(messages.1)));
    assert(documents(sorted(rules.0)) == documents(sorted(rules.1)));
    lemma_sorted_holds(actors.0, Data::Null);
    lemma_sorted_holds(actors.1, Data::Null);
    lemma_sorted_holds(messages.0, Data::Null);
    lemma_sorted_holds(messages.1, Data::Null);
    lemma_sorted_holds(rules.0, Data::Null);
    lemma_sorted_holds(rules.1, Data::Null);
    assert(documents(sorted(actors.0)).len() == documents(sorted(actors.1)).len());
    assert(documents(sorted(messages.0)).len() == documents(sorted(messages.1)).len());
    assert(documents(sorted(rules.0)).len() == documents(sorted(rules.1)).len());
    assert forall|i: int| 0 <= i < left.actors.len() implies has_alike(
        right.actors,
        #[trigger] left.actors[i],
    ) by {
        let data = actor_document(left.actors[i]);
        assert(actors.0[i].1 == data);
        assert(holds_document(actors.0, data));
        lemma_sorted_holds(actors.0, data);
        lemma_sorted_holds(actors.1, data);
        let j = choose|j: int| 0 <= j < actors.1.len() && (#[trigger] actors.1[j]).1 == data;
        assert(actor_document(right.actors[j]) == data);
        lemma_documents_tell(
            left.actors[i],
            right.actors[j],
            arbitrary(),
            arbitrary(),
            arbitrary(),
            arbitrary(),
        );
        assert(alike(left.actors[i], right.actors[j]));
    }
    assert forall|message: Message| #[trigger]
        left.messages.contains(message) implies right.messages.contains(message) by {
        let i = choose|i: int| 0 <= i < left.messages.len() && left.messages[i] == message;
        let data = message_document(message);
        assert(messages.0[i].1 == data);
        assert(holds_document(messages.0, data));
        lemma_sorted_holds(messages.0, data);
        lemma_sorted_holds(messages.1, data);
        let j = choose|j: int| 0 <= j < messages.1.len() && (#[trigger] messages.1[j]).1 == data;
        assert(message_document(right.messages[j]) == data);
        lemma_documents_tell(
            arbitrary(),
            arbitrary(),
            message,
            right.messages[j],
            arbitrary(),
            arbitrary(),
        );
        assert(right.messages[j] == message);
    }
    assert forall|rule: Rule| #[trigger] left.rules.contains(rule) implies right.rules.contains(
        rule,
    ) by {
        let i = choose|i: int| 0 <= i < left.rules.len() && left.rules[i] == rule;
        let data = rule_document(rule);
        assert(rules.0[i].1 == data);
        assert(holds_document(rules.0, data));
        lemma_sorted_holds(rules.0, data);
        lemma_sorted_holds(rules.1, data);
        let j = choose|j: int| 0 <= j < rules.1.len() && (#[trigger] rules.1[j]).1 == data;
        assert(rule_document(right.rules[j]) == data);
        lemma_documents_tell(
            arbitrary(),
            arbitrary(),
            arbitrary(),
            arbitrary(),
            rule,
            right.rules[j],
        );
        assert(right.rules[j] == rule);
    }
}

/// Two actors that are alike up to the order of their routes.
pub open spec fn alike(left: Actor, right: Actor) -> bool {
    &&& left.id == right.id
    &&& left.factory == right.factory
    &&& left.params == right.params
    &&& mapped(route_entries(left.routes)) == mapped(route_entries(right.routes))
}

/// Some actor is like another one.
pub open spec fn has_alike(actors: Seq<Actor>, actor: Actor) -> bool {
    exists|j: int| 0 <= j < actors.len() && alike(actor, #[trigger] actors[j])
}

} // verus!
