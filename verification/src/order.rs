//! Texts in ascending order, and documents arranged by text keys.

use crate::json::{Data, Json, data_members};
use crate::text::{same_text, text_chars};
use vstd::prelude::*;
use vstd::relations::*;

verus! {

/// The order of texts: by the first character in which they differ, a prefix
/// before what it begins.
pub open spec fn text_before(left: Seq<char>, right: Seq<char>) -> bool {
    exists|n: int| #[trigger] differs_first_at(left, right, n)
}

/// `left` precedes `right` because of what stands at index `n`.
pub open spec fn differs_first_at(left: Seq<char>, right: Seq<char>, n: int) -> bool {
    &&& 0 <= n <= left.len()
    &&& n < right.len()
    &&& left.take(n) == right.take(n)
    &&& n == left.len() || left[n] < right[n]
}

pub proof fn lemma_before_irreflexive(text: Seq<char>)
    ensures
        !text_before(text, text),
{
    if text_before(text, text) {
        let n = choose|n: int| #[trigger] differs_first_at(text, text, n);
        assert(differs_first_at(text, text, n));
    }
}

proof fn lemma_take_shorter(left: Seq<char>, right: Seq<char>, n: int, m: int)
    requires
        0 <= m <= n <= left.len(),
        n <= right.len(),
        left.take(n) == right.take(n),
    ensures
        left.take(m) == right.take(m),
        forall|i: int| 0 <= i < n ==> left[i] == right[i],
{
    assert forall|i: int| 0 <= i < n implies left[i] == right[i] by {
        assert(left.take(n)[i] == left[i]);
        assert(right.take(n)[i] == right[i]);
    }
    assert(left.take(m) =~= right.take(m));
}

pub proof fn lemma_before_asymmetric(left: Seq<char>, right: Seq<char>)
    requires
        text_before(left, right),
    ensures
        !text_before(right, left),
{
    if text_before(right, left) {
        let n = choose|n: int| #[trigger] differs_first_at(left, right, n);
        let m = choose|m: int| #[trigger] differs_first_at(right, left, m);
        if n <= m {
            lemma_take_shorter(right, left, m, n);
        } else {
            lemma_take_shorter(left, right, n, m);
        }
    }
}

pub proof fn lemma_before_transitive(a: Seq<char>, b: Seq<char>, c: Seq<char>)
    requires
        text_before(a, b),
        text_before(b, c),
    ensures
        text_before(a, c),
{
    let n = choose|n: int| #[trigger] differs_first_at(a, b, n);
    let m = choose|m: int| #[trigger] differs_first_at(b, c, m);
    if n <= m {
        lemma_take_shorter(b, c, m, n);
        assert(differs_first_at(a, c, n));
    } else {
        lemma_take_shorter(a, b, n, m);
        assert(differs_first_at(a, c, m));
    }
}

/// Texts that do not precede each other are the same.
pub proof fn lemma_before_total(left: Seq<char>, right: Seq<char>)
    ensures
        left == right || text_before(left, right) || text_before(right, left),
    decreases left.len(),
{
    if left.len() == 0 {
        if right.len() == 0 {
            assert(left =~= right);
        } else {
            assert(left.take(0) =~= right.take(0));
            assert(differs_first_at(left, right, 0));
        }
    } else if right.len() == 0 {
        assert(left.take(0) =~= right.take(0));
        assert(differs_first_at(right, left, 0));
    } else if left[0] != right[0] {
        assert(left.take(0) =~= right.take(0));
        if left[0] < right[0] {
            assert(differs_first_at(left, right, 0));
        } else {
            assert(right[0] < left[0]);
            assert(differs_first_at(right, left, 0));
        }
    } else {
        let l = left.drop_first();
        let r = right.drop_first();
        lemma_before_total(l, r);
        if l == r {
            assert(left =~= seq![left[0]] + l);
            assert(right =~= seq![right[0]] + r);
        } else if text_before(l, r) {
            lemma_before_tail(left, right);
        } else {
            lemma_before_tail(right, left);
        }
    }
}

proof fn lemma_before_tail(left: Seq<char>, right: Seq<char>)
    requires
        left.len() > 0,
        right.len() > 0,
        left[0] == right[0],
        text_before(left.drop_first(), right.drop_first()),
    ensures
        text_before(left, right),
{
    let l = left.drop_first();
    let r = right.drop_first();
    let n = choose|n: int| #[trigger] differs_first_at(l, r, n);
    assert forall|i: int| 0 <= i < n + 1 implies left[i] == right[i] by {
        if i > 0 {
            assert(l.take(n)[i - 1] == r.take(n)[i - 1]);
        }
    }
    assert(left.take(n + 1) =~= right.take(n + 1));
    assert(n < l.len() ==> left[n + 1] == l[n]);
    assert(right[n + 1] == r[n]);
    assert(differs_first_at(left, right, n + 1));
}

/// The order of texts.
pub open spec fn at_most() -> spec_fn(Seq<char>, Seq<char>) -> bool {
    |left: Seq<char>, right: Seq<char>| !text_before(right, left)
}

/// The order of texts is a total one.
pub proof fn lemma_texts_ordered()
    ensures
        total_ordering(at_most()),
{
    let leq = at_most();
    assert forall|x: Seq<char>| #[trigger] leq(x, x) by {
        lemma_before_irreflexive(x);
    }
    assert forall|x: Seq<char>, y: Seq<char>| #[trigger] leq(x, y) && #[trigger] leq(y, x) implies x
        == y by {
        lemma_before_total(x, y);
    }
    assert forall|x: Seq<char>, y: Seq<char>, z: Seq<char>|
        #[trigger] leq(x, y) && #[trigger] leq(y, z) implies leq(x, z) by {
        lemma_before_total(x, y);
        lemma_before_total(y, z);
        if text_before(z, x) {
            if x != y {
                lemma_before_transitive(z, x, y);
            }
        }
    }
    assert forall|x: Seq<char>, y: Seq<char>| #[trigger] leq(x, y) || #[trigger] leq(y, x) by {
        if text_before(y, x) {
            lemma_before_asymmetric(y, x);
        }
    }
}

/// Whether one text stands before another.
pub fn precedes(left: &str, right: &str) -> (before: bool)
    ensures
        before == text_before(left@, right@),
{
    let l = text_chars(left);
    let r = text_chars(right);
    let mut i: usize = 0;
    while i < l.len() && i < r.len() && l[i] == r[i]
        invariant
            i <= l@.len(),
            i <= r@.len(),
            l@ == left@,
            r@ == right@,
            forall|k: int| 0 <= k < i ==> l@[k] == r@[k],
        decreases l@.len() - i,
    {
        i = i + 1;
    }
    assert(left@.take(i as int) =~= right@.take(i as int));
    if i == r.len() {
        proof {
            if text_before(left@, right@) {
                let n = choose|n: int| #[trigger] differs_first_at(left@, right@, n);
                assert(l@[n] == r@[n] || n == left@.len());
            }
        }
        false
    } else if i == l.len() {
        assert(differs_first_at(left@, right@, i as int));
        true
    } else {
        let below = l[i] < r[i];
        proof {
            if below {
                assert(differs_first_at(left@, right@, i as int));
            } else {
                assert(r@[i as int] < l@[i as int]);
                assert(differs_first_at(right@, left@, i as int));
                lemma_before_asymmetric(right@, left@);
            }
        }
        below
    }
}

/// A document under a key.
pub type Entry = (Seq<char>, Data);

/// A list with one entry behind those whose keys do not follow its own.
pub open spec fn inserted(entries: Seq<Entry>, entry: Entry) -> Seq<Entry>
    decreases entries.len(),
{
    if entries.len() == 0 {
        seq![entry]
    } else if text_before(entry.0, entries.last().0) {
        inserted(entries.drop_last(), entry).push(entries.last())
    } else {
        entries.push(entry)
    }
}

/// Entries in ascending order of their keys; entries with the same key keep
/// their order.
pub open spec fn sorted(entries: Seq<Entry>) -> Seq<Entry>
    decreases entries.len(),
{
    if entries.len() == 0 {
        Seq::empty()
    } else {
        inserted(sorted(entries.drop_last()), entries.last())
    }
}

/// The documents without their keys.
pub open spec fn documents(entries: Seq<Entry>) -> Seq<Data> {
    Seq::new(entries.len(), |i: int| entries[i].1)
}

/// Inserts an entry into a sorted list.
fn insert_entry(entries: &mut Vec<(String, Json)>, entry: (String, Json))
    ensures
        data_members(final(entries)@) == inserted(
            data_members(old(entries)@),
            (entry.0@, entry.1@),
        ),
{
    let ghost before = data_members(entries@);
    let ghost new = (entry.0@, entry.1@);
    let mut i: usize = entries.len();
    proof {
        assert(before.take(i as int) =~= before);
        assert(inserted(before, new) =~= inserted(before, new) + before.skip(i as int));
    }
    while i > 0 && precedes(entry.0.as_str(), entries[i - 1].0.as_str())
        invariant
            i <= entries@.len(),
            before == data_members(entries@),
            new == (entry.0@, entry.1@),
            inserted(before, new) == inserted(before.take(i as int), new) + before.skip(i as int),
        decreases i,
    {
        proof {
            let kept = before.take(i as int);
            assert(kept.drop_last() =~= before.take(i - 1));
            assert(kept.last() == before[i - 1]);
            assert(inserted(kept, new) == inserted(kept.drop_last(), new).push(kept.last()));
            assert(inserted(before.take(i - 1), new).push(before[i - 1]) + before.skip(i as int)
                =~= inserted(before.take(i - 1), new) + before.skip(i - 1));
        }
        i = i - 1;
    }
    proof {
        let kept = before.take(i as int);
        if i > 0 {
            assert(kept.last() == before[i - 1]);
        } else {
            assert(kept =~= Seq::empty());
        }
        assert(inserted(kept, new) =~= kept.push(new));
    }
    entries.insert(i, entry);
    assert(data_members(entries@) =~= before.take(i as int).push(new) + before.skip(i as int));
}

/// Sorts documents by their keys.
pub fn sort_entries(entries: Vec<(String, Json)>) -> (ordered: Vec<(String, Json)>)
    ensures
        data_members(ordered@) == sorted(data_members(entries@)),
{
    let mut ordered: Vec<(String, Json)> = Vec::new();
    let ghost all = data_members(entries@);
    assert(data_members(ordered@) =~= sorted(all.take(0)));
    let mut i: usize = 0;
    while i < entries.len()
        invariant
            i <= entries@.len(),
            all == data_members(entries@),
            data_members(ordered@) == sorted(all.take(i as int)),
        decreases entries@.len() - i,
    {
        assert(all.take(i + 1).drop_last() =~= all.take(i as int));
        assert(all.take(i + 1).last() == all[i as int]);
        let entry = &entries[i];
        insert_entry(&mut ordered, (entry.0.clone(), entry.1.copy()));
        i = i + 1;
    }
    assert(all.take(all.len() as int) =~= all);
    ordered
}

/// A map in ascending order of its keys, with one entry set.
pub open spec fn put(entries: Seq<Entry>, entry: Entry) -> Seq<Entry>
    decreases entries.len(),
{
    if entries.len() == 0 {
        seq![entry]
    } else if entries.last().0 == entry.0 {
        entries.drop_last().push(entry)
    } else if text_before(entry.0, entries.last().0) {
        put(entries.drop_last(), entry).push(entries.last())
    } else {
        entries.push(entry)
    }
}

/// The map that holds some entries, in ascending order of its keys; the last
/// entry under a key counts.
pub open spec fn mapped(entries: Seq<Entry>) -> Seq<Entry>
    decreases entries.len(),
{
    if entries.len() == 0 {
        Seq::empty()
    } else {
        put(mapped(entries.drop_last()), entries.last())
    }
}

fn put_entry(entries: &mut Vec<(String, Json)>, entry: (String, Json))
    ensures
        data_members(final(entries)@) == put(data_members(old(entries)@), (entry.0@, entry.1@)),
{
    let ghost before = data_members(entries@);
    let ghost new = (entry.0@, entry.1@);
    let mut i: usize = entries.len();
    proof {
        assert(before.take(i as int) =~= before);
        assert(put(before, new) =~= put(before, new) + before.skip(i as int));
    }
    while i > 0 && !same_text(entry.0.as_str(), entries[i - 1].0.as_str()) && precedes(
        entry.0.as_str(),
        entries[i - 1].0.as_str(),
    )
        invariant
            i <= entries@.len(),
            before == data_members(entries@),
            new == (entry.0@, entry.1@),
            put(before, new) == put(before.take(i as int), new) + before.skip(i as int),
        decreases i,
    {
        proof {
            let kept = before.take(i as int);
            assert(kept.drop_last() =~= before.take(i - 1));
            assert(kept.last() == before[i - 1]);
            assert(put(kept, new) == put(kept.drop_last(), new).push(kept.last()));
            assert(put(before.take(i - 1), new).push(before[i - 1]) + before.skip(i as int)
                =~= put(before.take(i - 1), new) + before.skip(i - 1));
        }
        i = i - 1;
    }
    let ghost kept = before.take(i as int);
    if i > 0 && same_text(entry.0.as_str(), entries[i - 1].0.as_str()) {
        proof {
            assert(kept.last() == before[i - 1]);
            assert(put(kept, new) =~= before.take(i - 1).push(new));
        }
        entries.set(i - 1, entry);
        assert(data_members(entries@) =~= before.take(i - 1).push(new) + before.skip(i as int));
    } else {
        proof {
            if i > 0 {
                assert(kept.last() == before[i - 1]);
            } else {
                assert(kept =~= Seq::empty());
            }
            assert(put(kept, new) =~= kept.push(new));
        }
        entries.insert(i, entry);
        assert(data_members(entries@) =~= before.take(i as int).push(new) + before.skip(i as int));
    }
}

/// Builds a map from entries.
pub fn map_entries(entries: &Vec<(String, Json)>) -> (ordered: Vec<(String, Json)>)
    ensures
        data_members(ordered@) == mapped(data_members(entries@)),
{
    let mut ordered: Vec<(String, Json)> = Vec::new();
    let ghost all = data_members(entries@);
    assert(data_members(ordered@) =~= mapped(all.take(0)));
    let mut i: usize = 0;
    while i < entries.len()
        invariant
            i <= entries@.len(),
            all == data_members(entries@),
            data_members(ordered@) == mapped(all.take(i as int)),
        decreases entries@.len() - i,
    {
        assert(all.take(i + 1).drop_last() =~= all.take(i as int));
        assert(all.take(i + 1).last() == all[i as int]);
        let entry = &entries[i];
        put_entry(&mut ordered, (entry.0.clone(), entry.1.copy()));
        i = i + 1;
    }
    assert(all.take(all.len() as int) =~= all);
    ordered
}

} // verus!
