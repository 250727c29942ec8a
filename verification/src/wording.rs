//! Laws of functions on texts.

use crate::driver::{rule_valid, rules_valid};
use crate::env::World;
use crate::json::Data;
use crate::strings::{
    content_start, line_end, replaced, replaced_from, stands_at, stripped, stripped_from, white,
};
use vstd::prelude::*;

verus! {

// ---------------------------------------------------------------------------
// Replacing
// ---------------------------------------------------------------------------

/// A pattern stands in a text at an index.
pub open spec fn occurs(text: Seq<char>, pattern: Seq<char>, i: int) -> bool {
    0 <= i && i + pattern.len() <= text.len() && text.subrange(i, i + pattern.len()) == pattern
}

proof fn lemma_replaced_with_itself(text: Seq<char>, pattern: Seq<char>, i: int)
    requires
        pattern.len() > 0,
        0 <= i <= text.len(),
    ensures
        replaced_from(text, pattern, pattern, i) == text.skip(i),
    decreases text.len() - i,
{
    if i < text.len() {
        if stands_at(text, pattern, i) {
            lemma_replaced_with_itself(text, pattern, i + pattern.len());
            assert(pattern + text.skip(i + pattern.len()) =~= text.skip(i));
        } else {
            lemma_replaced_with_itself(text, pattern, i + 1);
            assert(seq![text[i]] + text.skip(i + 1) =~= text.skip(i));
        }
    } else {
        assert(text.skip(i) =~= Seq::<char>::empty());
    }
}

proof fn lemma_replaced_until(
    text: Seq<char>,
    pattern: Seq<char>,
    with: Seq<char>,
    i: int,
    n: int,
)
    requires
        pattern.len() > 0,
        0 <= i <= n <= text.len(),
        forall|k: int| i <= k < n ==> !occurs(text, pattern, k),
    ensures
        replaced_from(text, pattern, with, i) == text.subrange(i, n) + replaced_from(
            text,
            pattern,
            with,
            n,
        ),
    decreases n - i,
{
    if i < n {
        assert(!occurs(text, pattern, i));
        lemma_replaced_until(text, pattern, with, i + 1, n);
        let rest = replaced_from(text, pattern, with, n);
        assert(seq![text[i]] + (text.subrange(i + 1, n) + rest) =~= text.subrange(i, n) + rest);
    } else {
        let rest = replaced_from(text, pattern, with, n);
        assert(text.subrange(i, n) + rest =~= rest);
    }
}

proof fn lemma_replaced_shifted(
    text: Seq<char>,
    pattern: Seq<char>,
    with: Seq<char>,
    start: int,
    i: int,
)
    requires
        pattern.len() > 0,
        0 <= start <= text.len(),
        0 <= i <= text.len() - start,
    ensures
        replaced_from(text, pattern, with, start + i) == replaced_from(
            text.skip(start),
            pattern,
            with,
            i,
        ),
    decreases text.len() - start - i,
{
    let rest = text.skip(start);
    if i < rest.len() {
        assert(rest[i] == text[start + i]);
        assert(stands_at(text, pattern, start + i) == stands_at(rest, pattern, i)) by {
            if start + i + pattern.len() <= text.len() {
                assert(text.subrange(start + i, start + i + pattern.len()) =~= rest.subrange(
                    i,
                    i + pattern.len(),
                ));
            }
        }
        if stands_at(rest, pattern, i) {
            lemma_replaced_shifted(text, pattern, with, start, i + pattern.len());
        } else {
            lemma_replaced_shifted(text, pattern, with, start, i + 1);
        }
    }
}

/// A text in which a pattern does not stand stays as it is. Otherwise the text up to the first
/// place of the pattern stays, the replacement stands in that place, and the rest follows with
/// the pattern replaced.
pub proof fn lemma_replace(text: Seq<char>, pattern: Seq<char>, with: Seq<char>, n: int)
    requires
        pattern.len() > 0,
    ensures
        (forall|k: int| 0 <= k < text.len() ==> !occurs(text, pattern, k)) ==> replaced(
            text,
            pattern,
            with,
        ) == text,
        0 <= n < text.len() && occurs(text, pattern, n) && (forall|k: int|
            0 <= k < n ==> !occurs(text, pattern, k)) ==> replaced(text, pattern, with)
            == text.take(n) + with + replaced(text.skip(n + pattern.len()), pattern, with),
        replaced(text, pattern, pattern) == text,
{
    let end = text.len() as int;
    if forall|k: int| 0 <= k < text.len() ==> !occurs(text, pattern, k) {
        lemma_replaced_until(text, pattern, with, 0, end);
        assert(text.subrange(0, end) + Seq::<char>::empty() =~= text);
    }
    if 0 <= n < text.len() && occurs(text, pattern, n) && (forall|k: int|
        0 <= k < n ==> !occurs(text, pattern, k)) {
        lemma_replaced_until(text, pattern, with, 0, n);
        lemma_replaced_shifted(text, pattern, with, n + pattern.len(), 0);
        let rest = replaced_from(text, pattern, with, n + pattern.len());
        assert(text.subrange(0, n) =~= text.take(n));
        assert(text.take(n) + (with + rest) =~= text.take(n) + with + rest);
    }
    lemma_replaced_with_itself(text, pattern, 0);
    assert(text.skip(0) =~= text);
}

// ---------------------------------------------------------------------------
// Margins
// ---------------------------------------------------------------------------

proof fn lemma_margin_found(line: Seq<char>, i: int, n: int)
    requires
        0 <= i <= n < line.len(),
        line[n] == '|',
        forall|k: int| i <= k < n ==> white(line[k]) && line[k] != '|',
    ensures
        content_start(line, i) == Some(n + 1),
    decreases n - i,
{
    if i < n {
        assert(white(line[i]) && line[i] != '|');
        lemma_margin_found(line, i + 1, n);
    }
}

proof fn lemma_no_newline(text: Seq<char>, i: int)
    requires
        0 <= i < text.len(),
        forall|k: int| i <= k < text.len() ==> text[k] != '\n',
    ensures
        line_end(text, i) == text.len(),
    decreases text.len() - i,
{
    if i + 1 < text.len() {
        lemma_no_newline(text, i + 1);
    } else {
        assert(line_end(text, i + 1) == text.len());
    }
}

/// A line loses what stands up to a bar with nothing but white space before it.
pub proof fn lemma_margin_stripped(line: Seq<char>, n: int)
    requires
        0 <= n < line.len(),
        line[n] == '|',
        forall|k: int| 0 <= k < n ==> white(line[k]) && line[k] != '|',
        forall|k: int| 0 <= k < line.len() ==> line[k] != '\n',
    ensures
        stripped(line) == line.skip(n + 1),
{
    lemma_margin_found(line, 0, n);
    lemma_no_newline(line, 0);
    let end = line.len() as int;
    assert(line.subrange(0, end) =~= line);
    assert(stripped_from(line, end) =~= Seq::<char>::empty());
    assert(stripped(line) =~= line.skip(n + 1));
}

// ---------------------------------------------------------------------------
// Rules of artifacts
// ---------------------------------------------------------------------------

/// The rules of an artifact hold exactly where each of them does.
pub proof fn lemma_every_rule_holds(world: World, rules: Seq<Data>, i: int)
    requires
        0 <= i,
    ensures
        rules_valid(world, rules, i) is Ok <==> forall|k: int|
            i <= k < rules.len() ==> rule_valid(world, #[trigger] rules[k]) is Ok,
    decreases rules.len() - i,
{
    if i < rules.len() {
        lemma_every_rule_holds(world, rules, i + 1);
    }
}

} // verus!
