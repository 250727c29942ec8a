//! Texts taken apart and put together again.

use crate::text::{cat2, cat3, char_text, chars_text, text_chars};
use vstd::prelude::*;

verus! {

/// Whether a character is white space in Unicode.
pub open spec fn white(ch: char) -> bool {
    let code = ch as u32;
    ||| 0x09 <= code <= 0x0d
    ||| code == 0x20
    ||| code == 0x85
    ||| code == 0xa0
    ||| code == 0x1680
    ||| 0x2000 <= code <= 0x200a
    ||| code == 0x2028
    ||| code == 0x2029
    ||| code == 0x202f
    ||| code == 0x205f
    ||| code == 0x3000
}

/// Trusted: `char::is_whitespace` holds of exactly the characters with the property
/// `White_Space` of Unicode, which `white` lists.
#[verifier::external_body]
pub(crate) fn is_white(ch: char) -> (yes: bool)
    ensures
        yes == white(ch),
{
    ch.is_whitespace()
}

// ---------------------------------------------------------------------------
// Replacing
// ---------------------------------------------------------------------------

/// Whether a pattern stands at a place of a text.
pub open spec fn stands_at(text: Seq<char>, pattern: Seq<char>, i: int) -> bool {
    0 <= i && i + pattern.len() <= text.len() && text.subrange(i, i + pattern.len()) == pattern
}

/// A text from index `i` on, with each occurrence of a pattern replaced, from
/// the left. An empty pattern stands before each character and at the end.
pub open spec fn replaced_from(text: Seq<char>, pattern: Seq<char>, with: Seq<char>, i: int) -> Seq<
    char,
>
    decreases text.len() - i,
{
    if i < 0 || i > text.len() {
        Seq::empty()
    } else if pattern.len() == 0 {
        if i == text.len() {
            with
        } else {
            with.push(text[i]) + replaced_from(text, pattern, with, i + 1)
        }
    } else if i == text.len() {
        Seq::empty()
    } else if stands_at(text, pattern, i) {
        with + replaced_from(text, pattern, with, i + pattern.len())
    } else {
        seq![text[i]] + replaced_from(text, pattern, with, i + 1)
    }
}

pub open spec fn replaced(text: Seq<char>, pattern: Seq<char>, with: Seq<char>) -> Seq<char> {
    replaced_from(text, pattern, with, 0)
}

fn matches_at(text: &Vec<char>, pattern: &Vec<char>, i: usize) -> (yes: bool)
    requires
        i <= text@.len(),
    ensures
        yes == stands_at(text@, pattern@, i as int),
{
    let length = text.len();
    if length - i < pattern.len() {
        return false;
    }
    let mut k: usize = 0;
    while k < pattern.len()
        invariant
            k <= pattern@.len(),
            i + pattern@.len() <= text@.len(),
            length == text@.len(),
            forall|j: int| 0 <= j < k ==> text@[i + j] == pattern@[j],
        decreases pattern@.len() - k,
    {
        if text[i + k] != pattern[k] {
            assert(text@.subrange(i as int, i + pattern@.len())[k as int] != pattern@[k as int]);
            return false;
        }
        k = k + 1;
    }
    assert(text@.subrange(i as int, i + pattern@.len()) =~= pattern@);
    true
}

/// Replaces each occurrence of a pattern.
pub fn replace_text(text: &str, pattern: &str, with: &str) -> (result: String)
    ensures
        result@ == replaced(text@, pattern@, with@),
{
    let chars = text_chars(text);
    let wanted = text_chars(pattern);
    let ghost all = text@;
    let mut result = "".to_owned();
    proof {
        reveal_strlit("");
        assert(result@ =~= Seq::<char>::empty());
        assert(replaced(all, pattern@, with@) =~= result@ + replaced_from(
            all,
            pattern@,
            with@,
            0,
        ));
    }
    let mut i: usize = 0;
    while i < chars.len()
        invariant
            i <= chars@.len(),
            chars@ == all,
            wanted@ == pattern@,
            replaced(all, pattern@, with@) == result@ + replaced_from(
                all,
                pattern@,
                with@,
                i as int,
            ),
        decreases chars@.len() - i,
    {
        let ghost before = result@;
        let ghost at = i as int;
        if wanted.len() == 0 {
            let next = char_text(chars[i]);
            result = cat3(result.as_str(), with, next.as_str());
            proof {
                let rest = replaced_from(all, pattern@, with@, at + 1);
                assert(before + (with@.push(all[at]) + rest) =~= result@ + rest);
            }
            i = i + 1;
        } else if matches_at(&chars, &wanted, i) {
            result = cat2(result.as_str(), with);
            proof {
                let rest = replaced_from(all, pattern@, with@, at + pattern@.len());
                assert(before + (with@ + rest) =~= result@ + rest);
            }
            i = i + wanted.len();
        } else {
            let next = char_text(chars[i]);
            result = cat2(result.as_str(), next.as_str());
            proof {
                let rest = replaced_from(all, pattern@, with@, at + 1);
                assert(before + (seq![all[at]] + rest) =~= result@ + rest);
            }
            i = i + 1;
        }
    }
    if wanted.len() == 0 {
        cat2(result.as_str(), with)
    } else {
        assert(result@ + Seq::<char>::empty() =~= result@);
        result
    }
}

// ---------------------------------------------------------------------------
// Margins
// ---------------------------------------------------------------------------

/// The end of the line that starts at or goes on at index `i`, behind its line
/// break.
pub open spec fn line_end(text: Seq<char>, i: int) -> int
    decreases text.len() - i,
{
    if i < 0 || i >= text.len() {
        text.len() as int
    } else if text[i] == '\n' {
        i + 1
    } else {
        line_end(text, i + 1)
    }
}

/// Where the content of a line begins: behind a bar that only white space
/// precedes, if there is one.
pub open spec fn content_start(line: Seq<char>, i: int) -> Option<int>
    decreases line.len() - i,
{
    if i < 0 || i >= line.len() {
        None
    } else if line[i] == '|' {
        Some(i + 1)
    } else if white(line[i]) {
        content_start(line, i + 1)
    } else {
        None
    }
}

pub open spec fn without_margin(line: Seq<char>) -> Seq<char> {
    match content_start(line, 0) {
        Some(start) => line.skip(start),
        None => line,
    }
}

/// A text from index `i` on whose lines lose their margins.
pub open spec fn stripped_from(text: Seq<char>, i: int) -> Seq<char>
    decreases text.len() - i,
{
    if i < 0 || i >= text.len() {
        Seq::empty()
    } else {
        let end = line_end(text, i);
        if i < end <= text.len() {
            without_margin(text.subrange(i, end)) + stripped_from(text, end)
        } else {
            Seq::empty()
        }
    }
}

pub open spec fn stripped(text: Seq<char>) -> Seq<char> {
    stripped_from(text, 0)
}

proof fn lemma_line_end(text: Seq<char>, i: int)
    requires
        0 <= i < text.len(),
    ensures
        i < line_end(text, i) <= text.len(),
    decreases text.len() - i,
{
    if text[i] != '\n' {
        if i + 1 < text.len() {
            lemma_line_end(text, i + 1);
        } else {
            assert(line_end(text, i + 1) == text.len());
        }
    }
}

proof fn lemma_content_start(line: Seq<char>, i: int)
    requires
        0 <= i <= line.len(),
    ensures
        content_start(line, i) matches Some(start) ==> i < start <= line.len(),
    decreases line.len() - i,
{
    if i < line.len() && line[i] != '|' && white(line[i]) {
        lemma_content_start(line, i + 1);
    }
}

fn find_line_end(chars: &Vec<char>, from: usize) -> (end: usize)
    requires
        from < chars@.len(),
    ensures
        end == line_end(chars@, from as int),
        from < end <= chars@.len(),
{
    proof {
        lemma_line_end(chars@, from as int);
    }
    let mut i: usize = from;
    while i < chars.len()
        invariant
            from <= i <= chars@.len(),
            line_end(chars@, from as int) == line_end(chars@, i as int),
            from < line_end(chars@, from as int) <= chars@.len(),
        decreases chars@.len() - i,
    {
        if chars[i] == '\n' {
            return i + 1;
        }
        i = i + 1;
    }
    i
}

fn find_content(chars: &Vec<char>, from: usize, end: usize) -> (start: usize)
    requires
        from <= end <= chars@.len(),
    ensures
        from <= start <= end,
        chars@.subrange(start as int, end as int) == without_margin(
            chars@.subrange(from as int, end as int),
        ),
{
    let ghost line = chars@.subrange(from as int, end as int);
    proof {
        lemma_content_start(line, 0);
    }
    let mut i: usize = from;
    while i < end
        invariant
            from <= i <= end <= chars@.len(),
            line == chars@.subrange(from as int, end as int),
            content_start(line, 0) == content_start(line, i - from),
            content_start(line, 0) matches Some(start) ==> 0 < start <= line.len(),
        decreases end - i,
    {
        assert(line[i - from] == chars@[i as int]);
        if chars[i] == '|' {
            assert(line.skip(i + 1 - from) =~= chars@.subrange(i + 1, end as int));
            return i + 1;
        }
        if !is_white(chars[i]) {
            return from;
        }
        i = i + 1;
    }
    from
}

/// Removes the margins of the lines of a text.
pub fn strip_margin(text: &str) -> (result: String)
    ensures
        result@ == stripped(text@),
{
    let chars = text_chars(text);
    let ghost all = text@;
    let mut result = "".to_owned();
    proof {
        reveal_strlit("");
        assert(result@ + stripped_from(all, 0) =~= stripped_from(all, 0));
    }
    let mut i: usize = 0;
    while i < chars.len()
        invariant
            i <= chars@.len(),
            chars@ == all,
            stripped(all) == result@ + stripped_from(all, i as int),
        decreases chars@.len() - i,
    {
        let end = find_line_end(&chars, i);
        let start = find_content(&chars, i, end);
        let line = chars_text(&chars, start, end);
        let ghost before = result@;
        result = cat2(result.as_str(), line.as_str());
        proof {
            let rest = stripped_from(all, end as int);
            assert(before + (line@ + rest) =~= result@ + rest);
        }
        i = end;
    }
    assert(result@ + Seq::<char>::empty() =~= result@);
    result
}

// ---------------------------------------------------------------------------
// Leading colons
// ---------------------------------------------------------------------------

/// How many of the characters from index `i` on are leading colons.
pub open spec fn colons_end(text: Seq<char>, i: int) -> int
    decreases text.len() - i,
{
    if i < 0 || i >= text.len() || text[i] != ':' {
        i
    } else {
        colons_end(text, i + 1)
    }
}

/// A text without its leading colons.
pub open spec fn without_colons(text: Seq<char>) -> Seq<char> {
    text.skip(colons_end(text, 0))
}

pub fn trim_colons(text: &str) -> (result: String)
    ensures
        result@ == without_colons(text@),
{
    let chars = text_chars(text);
    let mut i: usize = 0;
    while i < chars.len() && chars[i] == ':'
        invariant
            i <= chars@.len(),
            chars@ == text@,
            colons_end(text@, 0) == colons_end(text@, i as int),
        decreases chars@.len() - i,
    {
        i = i + 1;
    }
    assert(text@.skip(i as int) =~= chars@.subrange(i as int, chars@.len() as int));
    chars_text(&chars, i, chars.len())
}

} // verus!
