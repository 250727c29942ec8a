//! Text as sequences of characters, with the byte offsets of their encoding.

use vstd::prelude::*;
use vstd::string::*;

verus! {

/// The number of bytes that the encoding of a character takes.
pub open spec fn char_width(ch: char) -> nat {
    let code = ch as u32;
    if code < 0x80 {
        1
    } else if code < 0x800 {
        2
    } else if code < 0x10000 {
        3
    } else {
        4
    }
}

/// The byte offset at which the character with index `i` starts.
pub open spec fn byte_at(text: Seq<char>, i: int) -> nat
    decreases i,
{
    if i <= 0 {
        0
    } else {
        byte_at(text, i - 1) + char_width(text[i - 1])
    }
}

/// The length of a text in bytes.
pub open spec fn byte_len(text: Seq<char>) -> nat {
    byte_at(text, text.len() as int)
}

/// A byte offset that does not split a character.
pub open spec fn is_boundary(text: Seq<char>, byte: int) -> bool {
    exists|i: int| 0 <= i <= text.len() && #[trigger] byte_at(text, i) == byte
}

/// The index of the character that starts at a byte offset.
pub open spec fn index_of_byte(text: Seq<char>, byte: int) -> int {
    choose|i: int| 0 <= i <= text.len() && #[trigger] byte_at(text, i) == byte
}

pub proof fn lemma_byte_at_increases(text: Seq<char>, i: int, j: int)
    requires
        0 <= i < j <= text.len(),
    ensures
        byte_at(text, i) < byte_at(text, j),
    decreases j,
{
    if i < j - 1 {
        lemma_byte_at_increases(text, i, j - 1);
    }
}

/// Offsets determine indices.
pub proof fn lemma_index_of_byte(text: Seq<char>, i: int)
    requires
        0 <= i <= text.len(),
    ensures
        is_boundary(text, byte_at(text, i) as int),
        index_of_byte(text, byte_at(text, i) as int) == i,
{
    let byte = byte_at(text, i) as int;
    assert(is_boundary(text, byte));
    let k = index_of_byte(text, byte);
    if k < i {
        lemma_byte_at_increases(text, k, i);
    } else if i < k {
        lemma_byte_at_increases(text, i, k);
    }
}

pub proof fn lemma_byte_at_bounds(text: Seq<char>, i: int)
    requires
        0 <= i <= text.len(),
    ensures
        i <= byte_at(text, i) <= byte_len(text),
        i < text.len() ==> byte_at(text, i) < byte_len(text),
    decreases i,
{
    if i < text.len() {
        lemma_byte_at_increases(text, i, text.len() as int);
    }
    if i > 0 {
        lemma_byte_at_bounds(text, i - 1);
    }
}

proof fn lemma_byte_at_tail(text: Seq<char>, i: int)
    requires
        0 < i <= text.len(),
    ensures
        byte_at(text, i) == char_width(text[0]) + byte_at(text.drop_first(), i - 1),
    decreases i,
{
    if i > 1 {
        lemma_byte_at_tail(text, i - 1);
    } else {
        assert(byte_at(text, 0) == 0);
        assert(byte_at(text.drop_first(), 0) == 0);
    }
}

/// The byte length of a text agrees with the length of its encoding.
pub proof fn lemma_byte_len_encoding(text: Seq<char>)
    ensures
        byte_len(text) == vstd::utf8::encode_utf8(text).len(),
    decreases text.len(),
{
    if text.len() > 0 {
        lemma_byte_len_encoding(text.drop_first());
        lemma_byte_at_tail(text, text.len() as int);
        vstd::utf8::char_is_scalar(text[0]);
    }
}

pub fn char_bytes(ch: char) -> (width: usize)
    ensures
        width == char_width(ch),
{
    let code: u32 = ch as u32;
    if code < 0x80 {
        1
    } else if code < 0x800 {
        2
    } else if code < 0x10000 {
        3
    } else {
        4
    }
}

/// Appends one character to a string.
///
/// Trusted: `String::push` leaves the earlier characters as they were and adds
/// `ch` behind them.
#[verifier::external_body]
pub(crate) fn push_char(target: &mut String, ch: char)
    ensures
        final(target)@ == old(target)@.push(ch),
{
    target.push(ch);
}

/// The characters of a text, together with the fact that its byte length fits.
pub fn text_chars(source: &str) -> (chars: Vec<char>)
    ensures
        chars@ == source@,
        byte_len(source@) <= usize::MAX,
{
    let bytes = source.as_bytes();
    let length: usize = bytes.len();
    proof {
        lemma_byte_len_encoding(source@);
    }
    let mut chars: Vec<char> = Vec::new();
    for ch in iter: source.chars()
        invariant
            chars@ == source@.take(iter.index() as int),
            iter.seq() == source@,
    {
        chars.push(ch);
    }
    assert(source@.take(source@.len() as int) =~= source@);
    chars
}

/// The string that holds the characters from `from` up to `to`.
pub fn chars_text(chars: &Vec<char>, from: usize, to: usize) -> (text: String)
    requires
        from <= to <= chars@.len(),
    ensures
        text@ == chars@.subrange(from as int, to as int),
{
    let mut text = String::new();
    let mut i: usize = from;
    while i < to
        invariant
            from <= i <= to <= chars@.len(),
            text@ == chars@.subrange(from as int, i as int),
        decreases to - i,
    {
        push_char(&mut text, chars[i]);
        i += 1;
    }
    text
}

/// A string with the same characters.
pub fn owned(text: &str) -> (copy: String)
    ensures
        copy@ == text@,
{
    text.to_owned()
}

pub fn same_text(left: &str, right: &str) -> (same: bool)
    ensures
        same == (left@ == right@),
{
    let left = left.to_owned();
    let right = right.to_owned();
    left == right
}

pub fn cat2(a: &str, b: &str) -> (text: String)
    ensures
        text@ == a@ + b@,
{
    let mut text = a.to_owned();
    text.append(b);
    text
}

pub fn cat3(a: &str, b: &str, c: &str) -> (text: String)
    ensures
        text@ == a@ + b@ + c@,
{
    let mut text = cat2(a, b);
    text.append(c);
    text
}

pub fn cat4(a: &str, b: &str, c: &str, d: &str) -> (text: String)
    ensures
        text@ == a@ + b@ + c@ + d@,
{
    let mut text = cat3(a, b, c);
    text.append(d);
    text
}

pub fn cat5(a: &str, b: &str, c: &str, d: &str, e: &str) -> (text: String)
    ensures
        text@ == a@ + b@ + c@ + d@ + e@,
{
    let mut text = cat4(a, b, c, d);
    text.append(e);
    text
}

pub fn cat6(a: &str, b: &str, c: &str, d: &str, e: &str, f: &str) -> (text: String)
    ensures
        text@ == a@ + b@ + c@ + d@ + e@ + f@,
{
    let mut text = cat5(a, b, c, d, e);
    text.append(f);
    text
}

/// A text of one character.
pub fn char_text(ch: char) -> (text: String)
    ensures
        text@ == seq![ch],
{
    let mut text = String::new();
    push_char(&mut text, ch);
    assert(text@ =~= seq![ch]);
    text
}

pub open spec fn digit(n: nat) -> char {
    if n == 0 {
        '0'
    } else if n == 1 {
        '1'
    } else if n == 2 {
        '2'
    } else if n == 3 {
        '3'
    } else if n == 4 {
        '4'
    } else if n == 5 {
        '5'
    } else if n == 6 {
        '6'
    } else if n == 7 {
        '7'
    } else if n == 8 {
        '8'
    } else {
        '9'
    }
}

/// The decimal notation of a number.
pub open spec fn decimal(n: nat) -> Seq<char>
    decreases n,
{
    if n < 10 {
        seq![digit(n)]
    } else {
        decimal(n / 10).push(digit(n % 10))
    }
}

fn digit_char(n: u64) -> (ch: char)
    requires
        n < 10,
    ensures
        ch == digit(n as nat),
{
    if n == 0 {
        '0'
    } else if n == 1 {
        '1'
    } else if n == 2 {
        '2'
    } else if n == 3 {
        '3'
    } else if n == 4 {
        '4'
    } else if n == 5 {
        '5'
    } else if n == 6 {
        '6'
    } else if n == 7 {
        '7'
    } else if n == 8 {
        '8'
    } else {
        '9'
    }
}

pub fn decimal_text(n: u64) -> (text: String)
    ensures
        text@ == decimal(n as nat),
    decreases n,
{
    if n < 10 {
        char_text(digit_char(n))
    } else {
        let mut text = decimal_text(n / 10);
        push_char(&mut text, digit_char(n % 10));
        text
    }
}

pub fn count_text(n: usize) -> (text: String)
    ensures
        text@ == decimal(n as nat),
{
    decimal_text(n as u64)
}

fn wide_text(n: u128) -> (text: String)
    ensures
        text@ == decimal(n as nat),
    decreases n,
{
    if n < 10 {
        char_text(digit_char(n as u64))
    } else {
        let mut text = wide_text(n / 10);
        push_char(&mut text, digit_char((n % 10) as u64));
        text
    }
}

/// One more than a number, as a text.
pub fn next_count_text(n: usize) -> (text: String)
    ensures
        text@ == decimal((n + 1) as nat),
{
    wide_text(n as u128 + 1)
}

/// The decimal notation of a signed number.
pub open spec fn signed_decimal(n: int) -> Seq<char> {
    if n < 0 {
        seq!['-'] + decimal((-n) as nat)
    } else {
        decimal(n as nat)
    }
}

pub fn signed_text(n: i64) -> (text: String)
    ensures
        text@ == signed_decimal(n as int),
{
    if n < 0 {
        let magnitude: i128 = -(n as i128);
        let digits = decimal_text(magnitude as u64);
        let sign = char_text('-');
        cat2(sign.as_str(), digits.as_str())
    } else {
        decimal_text(n as u64)
    }
}

/// The texts in order, with a separator between neighbours.
pub open spec fn joined(parts: Seq<Seq<char>>, separator: Seq<char>) -> Seq<char>
    decreases parts.len(),
{
    if parts.len() == 0 {
        Seq::empty()
    } else if parts.len() == 1 {
        parts[0]
    } else {
        joined(parts.drop_last(), separator) + separator + parts.last()
    }
}

/// The views of the texts in a vector.
pub open spec fn texts(parts: Seq<String>) -> Seq<Seq<char>> {
    Seq::new(parts.len(), |i: int| parts[i]@)
}

pub fn join_texts(parts: &Vec<String>, separator: &str) -> (text: String)
    ensures
        text@ == joined(texts(parts@), separator@),
{
    let mut text = String::new();
    let mut i: usize = 0;
    let ghost all = texts(parts@);
    while i < parts.len()
        invariant
            i <= parts@.len(),
            all == texts(parts@),
            text@ == joined(all.take(i as int), separator@),
        decreases parts@.len() - i,
    {
        if i > 0 {
            text.append(separator);
        }
        text.append(parts[i].as_str());
        proof {
            assert(all.take(i + 1).drop_last() =~= all.take(i as int));
            if i == 0 {
                assert(text@ =~= all.take(1)[0]);
            }
        }
        i += 1;
    }
    assert(all.take(all.len() as int) =~= all);
    text
}

pub fn copy_texts(parts: &Vec<String>) -> (copy: Vec<String>)
    ensures
        texts(copy@) == texts(parts@),
{
    let mut copy: Vec<String> = Vec::new();
    let mut i: usize = 0;
    while i < parts.len()
        invariant
            i <= parts@.len(),
            copy@.len() == i,
            forall|j: int| 0 <= j < i ==> (#[trigger] copy@[j])@ == parts@[j]@,
        decreases parts@.len() - i,
    {
        copy.push(parts[i].clone());
        i += 1;
    }
    copy
}

/// Whether a text occurs in a list of texts.
pub fn contains_text(parts: &Vec<String>, text: &str) -> (found: bool)
    ensures
        found == texts(parts@).contains(text@),
{
    let mut i: usize = 0;
    while i < parts.len()
        invariant
            i <= parts@.len(),
            forall|j: int| 0 <= j < i ==> (#[trigger] parts@[j])@ != text@,
        decreases parts@.len() - i,
    {
        if same_text(parts[i].as_str(), text) {
            assert(texts(parts@)[i as int] == text@);
            return true;
        }
        i += 1;
    }
    assert forall|j: int| 0 <= j < texts(parts@).len() implies texts(parts@)[j] != text@ by {
        assert(parts@[j]@ != text@);
    }
    false
}

/// How std shows a text for debugging: in double quotes, with escapes.
pub uninterp spec fn debug_shown(text: Seq<char>) -> Seq<char>;

/// Formats a text with the `Debug` impl of `str`. Claimed: the result is a
/// function of the text. Which characters are escaped, and how, is not said.
#[verifier::external_body]
pub(crate) fn debug_text(text: &str) -> (shown: String)
    ensures
        shown@ == debug_shown(text@),
{
    format!("{:?}", text)
}

/// How std shows an optional text for debugging.
pub open spec fn option_shown(text: Option<Seq<char>>) -> Seq<char> {
    match text {
        Some(text) => "Some("@ + debug_shown(text) + ")"@,
        None => "None"@,
    }
}

pub fn debug_option(text: Option<&str>) -> (shown: String)
    ensures
        shown@ == option_shown(
            match text {
                Some(text) => Some(text@),
                None => None,
            },
        ),
{
    match text {
        Some(text) => {
            let shown = debug_text(text);
            cat3("Some(", shown.as_str(), ")")
        },
        None => "None".to_owned(),
    }
}

} // verus!
