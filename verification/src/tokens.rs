//! Tokens of the expression syntax.

use crate::diagnostic::{ByteSpan, Source, SyntaxDiagnostic, diagnosed, splits_no_char};
use crate::error::{Failure, MagError};
use crate::lexer::{
    Reader, Token, digit_char, digit_value, digits_value, is_digit, lemma_digits_grow,
    letter_char, line_end, span_of,
};
use crate::text::{cat2, char_text, chars_text, push_char};
use vstd::prelude::*;
use vstd::string::*;

verus! {

/// What a token is. A float keeps the notation of its literal.
#[derive(Debug)]
pub enum Sort {
    Ident(String),
    Operator(String),
    Str(String),
    Int(i64),
    Float(String),
    Newline,
    Punct(char),
    Arrow,
    FatArrow,
    Eof,
}

/// A token and the range of characters that it stands on.
#[derive(Debug)]
pub struct Piece {
    pub sort: Sort,
    pub from: usize,
    pub to: usize,
}

pub ghost enum Tag {
    Ident(Seq<char>),
    Operator(Seq<char>),
    Str(Seq<char>),
    Int(int),
    Float(Seq<char>),
    Newline,
    Punct(char),
    Arrow,
    FatArrow,
    Eof,
}

pub ghost struct Tok {
    pub tag: Tag,
    pub from: int,
    pub to: int,
}

impl Sort {
    pub open spec fn view(&self) -> Tag {
        match self {
            Sort::Ident(name) => Tag::Ident(name@),
            Sort::Operator(name) => Tag::Operator(name@),
            Sort::Str(value) => Tag::Str(value@),
            Sort::Int(value) => Tag::Int(*value as int),
            Sort::Float(notation) => Tag::Float(notation@),
            Sort::Newline => Tag::Newline,
            Sort::Punct(mark) => Tag::Punct(*mark),
            Sort::Arrow => Tag::Arrow,
            Sort::FatArrow => Tag::FatArrow,
            Sort::Eof => Tag::Eof,
        }
    }

    pub fn copy(&self) -> (copy: Self)
        ensures
            copy@ == self@,
    {
        match self {
            Sort::Ident(name) => Sort::Ident(name.clone()),
            Sort::Operator(name) => Sort::Operator(name.clone()),
            Sort::Str(value) => Sort::Str(value.clone()),
            Sort::Int(value) => Sort::Int(*value),
            Sort::Float(notation) => Sort::Float(notation.clone()),
            Sort::Newline => Sort::Newline,
            Sort::Punct(mark) => Sort::Punct(*mark),
            Sort::Arrow => Sort::Arrow,
            Sort::FatArrow => Sort::FatArrow,
            Sort::Eof => Sort::Eof,
        }
    }
}

impl Piece {
    pub open spec fn view(&self) -> Tok {
        Tok { tag: self.sort@, from: self.from as int, to: self.to as int }
    }
}

pub open spec fn toks(pieces: Seq<Piece>) -> Seq<Tok> {
    Seq::new(pieces.len(), |i: int| pieces[i].view())
}

/// A fault of a source text, on a range of characters, with a note on another
/// range where there is one.
#[derive(Debug)]
pub struct Fault {
    pub code: String,
    pub stage: String,
    pub message: String,
    pub from: usize,
    pub to: usize,
    pub note: Option<(String, usize, usize)>,
}

pub ghost struct Flaw {
    pub code: Seq<char>,
    pub stage: Seq<char>,
    pub message: Seq<char>,
    pub from: int,
    pub to: int,
    pub note: Option<(Seq<char>, int, int)>,
}

impl Fault {
    pub open spec fn view(&self) -> Flaw {
        Flaw {
            code: self.code@,
            stage: self.stage@,
            message: self.message@,
            from: self.from as int,
            to: self.to as int,
            note: match self.note {
                Some(note) => Some((note.0@, note.1 as int, note.2 as int)),
                None => None,
            },
        }
    }
}

/// The bytes of a range of characters, as far as the text reaches.
pub open spec fn range_span(text: Seq<char>, from: int, to: int) -> ByteSpan {
    let end = if to <= text.len() {
        to
    } else {
        text.len() as int
    };
    let start = if from <= end {
        from
    } else {
        end
    };
    span_of(text, start, end)
}

/// How a fault is reported.
pub open spec fn reported(source: Source, flaw: Flaw) -> Failure {
    Failure::Syntax(
        diagnosed(
            flaw.code,
            flaw.stage,
            flaw.message,
            source,
            range_span(source.text, flaw.from, flaw.to),
            match flaw.note {
                Some(note) => Some((note.0, range_span(source.text, note.1, note.2))),
                None => None,
            },
        ),
    )
}

fn find_span(reader: &Reader, from: usize, to: usize) -> (span: ByteSpan)
    requires
        reader.wf(),
    ensures
        span == range_span(reader.chars@, from as int, to as int),
        splits_no_char(reader.chars@, span),
{
    let end = if to <= reader.chars.len() {
        to
    } else {
        reader.chars.len()
    };
    let start = if from <= end {
        from
    } else {
        end
    };
    reader.span(start, end)
}

pub(crate) fn report(reader: &Reader, fault: Fault) -> (error: MagError)
    requires
        reader.wf(),
    ensures
        error@ == reported(reader.source@, fault@),
{
    let span = find_span(reader, fault.from, fault.to);
    let note = match fault.note {
        Some((message, from, to)) => Some((message, find_span(reader, from, to))),
        None => None,
    };
    MagError::Syntax(
        Box::new(
            SyntaxDiagnostic::new(
                fault.code.as_str(),
                fault.stage.as_str(),
                fault.message,
                reader.source,
                span,
                note,
            ),
        ),
    )
}

// ---------------------------------------------------------------------------
// What a text holds
// ---------------------------------------------------------------------------

pub open spec fn operator_char(c: char) -> bool {
    c == '!' || c == '#' || c == '$' || c == '%' || c == '&' || c == '*' || c == '+' || c == '-'
        || c == '/' || c == '<' || c == '=' || c == '>' || c == '?' || c == '@' || c == '\\' || c
        == '^' || c == '|' || c == '~'
}

pub open spec fn word_start(c: char) -> bool {
    letter_char(c) || c == '_'
}

pub open spec fn word_char(c: char) -> bool {
    letter_char(c) || digit_char(c) || c == '_' || c == '\''
}

pub open spec fn punct_char(c: char) -> bool {
    c == '(' || c == ')' || c == '[' || c == ']' || c == '{' || c == '}' || c == ',' || c == ':'
        || c == '.'
}

pub open spec fn separator_char(c: char) -> bool {
    c == ' ' || c == '\t' || c == '\r' || c == '\n'
}

/// Whether a character stands at an index.
pub open spec fn stands(text: Seq<char>, i: int, c: char) -> bool {
    0 <= i < text.len() && text[i] == c
}

pub open spec fn digit_stands(text: Seq<char>, i: int) -> bool {
    0 <= i < text.len() && digit_char(text[i])
}

/// The end of the word that goes on at `i`.
pub open spec fn word_end(text: Seq<char>, i: int) -> int
    decreases text.len() - i,
{
    if 0 <= i < text.len() && word_char(text[i]) {
        word_end(text, i + 1)
    } else {
        i
    }
}

/// The end of the digits that go on at `i`.
pub open spec fn digits_end(text: Seq<char>, i: int) -> int
    decreases text.len() - i,
{
    if digit_stands(text, i) {
        digits_end(text, i + 1)
    } else {
        i
    }
}

/// Whether a comment or an arrow starts at an index.
pub open spec fn breaks_operator(text: Seq<char>, i: int) -> bool {
    (stands(text, i, '/') && stands(text, i + 1, '/')) || (stands(text, i, '-') && stands(
        text,
        i + 1,
        '>',
    )) || (stands(text, i, '=') && stands(text, i + 1, '>'))
}

/// The end of the operator that goes on at `i`.
pub open spec fn operator_end(text: Seq<char>, i: int) -> int
    decreases text.len() - i,
{
    if 0 <= i < text.len() && operator_char(text[i]) && !breaks_operator(text, i) {
        operator_end(text, i + 1)
    } else {
        i
    }
}

/// The first of three quotes, from index `i` on; the length of the text if there
/// are none.
pub open spec fn quotes_at(text: Seq<char>, i: int) -> int
    decreases text.len() - i,
{
    if i < 0 || i >= text.len() {
        text.len() as int
    } else if stands(text, i, '"') && stands(text, i + 1, '"') && stands(text, i + 2, '"') {
        i
    } else {
        quotes_at(text, i + 1)
    }
}

/// The end of a quoted name, which goes on at `i`: the next backtick, line feed
/// or end of the text.
pub open spec fn backtick_at(text: Seq<char>, i: int) -> int
    decreases text.len() - i,
{
    if 0 <= i < text.len() && text[i] != '`' && text[i] != '\n' {
        backtick_at(text, i + 1)
    } else {
        i
    }
}

/// What stands at an index: layout, a token, or a fault.
pub ghost enum Found {
    Skip(int),
    Token(Tag, int),
    Wrong(Flaw),
}

pub open spec fn lexing_flaw(code: Seq<char>, message: Seq<char>, from: int, to: int) -> Found {
    Found::Wrong(Flaw { code, stage: "lexer"@, message, from, to, note: None })
}

pub open spec fn escape_of(c: char) -> Option<char> {
    if c == 'n' {
        Some('\n')
    } else if c == 't' {
        Some('\t')
    } else if c == '\\' {
        Some('\\')
    } else if c == '"' {
        Some('"')
    } else {
        None
    }
}

/// The rest of a string, of which `value` has been read.
pub open spec fn string_rest(text: Seq<char>, start: int, i: int, value: Seq<char>) -> Found
    decreases text.len() - i,
{
    if i < 0 || i >= text.len() {
        lexing_flaw("MAG1002"@, "unterminated string"@, start, text.len() as int)
    } else if text[i] == '"' {
        Found::Token(Tag::Str(value), i + 1)
    } else if text[i] == '\n' {
        lexing_flaw("MAG1003"@, "newline in quoted string"@, i, i + 1)
    } else if text[i] == '\\' {
        if i + 1 >= text.len() {
            lexing_flaw("MAG1002"@, "unterminated string"@, start, text.len() as int)
        } else {
            match escape_of(text[i + 1]) {
                Some(c) => string_rest(text, start, i + 2, value.push(c)),
                None => lexing_flaw(
                    "MAG1004"@,
                    "unsupported string escape \\"@ + seq![text[i + 1]],
                    i,
                    i + 2,
                ),
            }
        }
    } else {
        string_rest(text, start, i + 1, value.push(text[i]))
    }
}

pub open spec fn string_found(text: Seq<char>, i: int) -> Found {
    if stands(text, i + 1, '"') && stands(text, i + 2, '"') {
        let end = quotes_at(text, i + 3);
        if end < text.len() {
            Found::Token(Tag::Str(text.subrange(i + 3, end)), end + 3)
        } else {
            lexing_flaw("MAG1002"@, "unterminated raw string"@, i, text.len() as int)
        }
    } else {
        string_rest(text, i, i + 1, Seq::empty())
    }
}

pub open spec fn backtick_found(text: Seq<char>, i: int) -> Found {
    let end = backtick_at(text, i + 1);
    if end >= text.len() {
        lexing_flaw("MAG1005"@, "unterminated backtick identifier"@, i, end)
    } else if text[end] == '\n' {
        lexing_flaw("MAG1005"@, "newline in backtick identifier"@, i, end)
    } else if end == i + 1 {
        lexing_flaw("MAG1005"@, "backtick identifier cannot be empty"@, i, end + 1)
    } else {
        Found::Token(Tag::Ident(text.subrange(i + 1, end)), end + 1)
    }
}

/// A number that starts at `i` and has its first digit at `first`.
pub open spec fn number_found(text: Seq<char>, i: int, first: int) -> Found {
    let end = digits_end(text, first);
    if stands(text, end, '.') && digit_stands(text, end + 1) {
        let end = digits_end(text, end + 1);
        Found::Token(Tag::Float(text.subrange(i, end)), end)
    } else {
        let size = digits_value(text.subrange(first, end)) as int;
        let value = if first > i {
            -size
        } else {
            size
        };
        if i64::MIN <= value <= i64::MAX {
            Found::Token(Tag::Int(value), end)
        } else {
            lexing_flaw("MAG1006"@, "integer is outside the Int range"@, i, end)
        }
    }
}

/// What stands at an index, given whether an expression can end before it.
pub open spec fn found_at(text: Seq<char>, i: int, ends: bool) -> Found {
    let c = text[i];
    if c == ' ' || c == '\t' || c == '\r' {
        Found::Skip(i + 1)
    } else if c == '\n' {
        Found::Token(Tag::Newline, i + 1)
    } else if c == '/' && stands(text, i + 1, '/') {
        Found::Skip(line_end(text, i + 2))
    } else if c == '"' {
        string_found(text, i)
    } else if c == '`' {
        backtick_found(text, i)
    } else if digit_char(c) {
        number_found(text, i, i)
    } else if c == '-' && digit_stands(text, i + 1) && !ends {
        number_found(text, i, i + 1)
    } else if word_start(c) {
        let end = word_end(text, i + 1);
        Found::Token(Tag::Ident(text.subrange(i, end)), end)
    } else if c == '-' && stands(text, i + 1, '>') {
        Found::Token(Tag::Arrow, i + 2)
    } else if c == '=' && stands(text, i + 1, '>') {
        Found::Token(Tag::FatArrow, i + 2)
    } else if punct_char(c) {
        Found::Token(Tag::Punct(c), i + 1)
    } else if operator_char(c) {
        let end = operator_end(text, i);
        Found::Token(Tag::Operator(text.subrange(i, end)), end)
    } else {
        lexing_flaw("MAG1001"@, "unexpected character"@, i, i + 1)
    }
}

/// Whether an expression can end with a token.
pub open spec fn can_end(tag: Tag) -> bool {
    match tag {
        Tag::Ident(_) => true,
        Tag::Str(_) => true,
        Tag::Int(_) => true,
        Tag::Float(_) => true,
        Tag::Punct(c) => c == ')' || c == ']' || c == '}',
        _ => false,
    }
}

pub open spec fn ends_expression(before: Seq<Tok>) -> bool {
    before.len() > 0 && can_end(before.last().tag)
}

/// The tokens from index `i` on, after others.
pub open spec fn pieces_from(text: Seq<char>, i: int, before: Seq<Tok>) -> Result<Seq<Tok>, Flaw>
    decreases text.len() - i,
{
    if i < 0 || i >= text.len() {
        Ok(before.push(Tok { tag: Tag::Eof, from: text.len() as int, to: text.len() as int }))
    } else {
        match found_at(text, i, ends_expression(before)) {
            Found::Skip(next) => if i < next <= text.len() {
                pieces_from(text, next, before)
            } else {
                Ok(before)
            },
            Found::Token(tag, next) => if i < next <= text.len() {
                pieces_from(text, next, before.push(Tok { tag, from: i, to: next }))
            } else {
                Ok(before)
            },
            Found::Wrong(flaw) => Err(flaw),
        }
    }
}

// ---------------------------------------------------------------------------
// Reading
// ---------------------------------------------------------------------------

pub fn is_operator_char(c: char) -> (yes: bool)
    ensures
        yes == operator_char(c),
{
    c == '!' || c == '#' || c == '$' || c == '%' || c == '&' || c == '*' || c == '+' || c == '-'
        || c == '/' || c == '<' || c == '=' || c == '>' || c == '?' || c == '@' || c == '\\' || c
        == '^' || c == '|' || c == '~'
}

pub fn is_separator_char(c: char) -> (yes: bool)
    ensures
        yes == separator_char(c),
{
    c == ' ' || c == '\t' || c == '\r' || c == '\n'
}

fn is_letter(c: char) -> (yes: bool)
    ensures
        yes == letter_char(c),
{
    ('a' <= c && c <= 'z') || ('A' <= c && c <= 'Z')
}

fn is_at(chars: &Vec<char>, i: usize, c: char) -> (yes: bool)
    ensures
        yes == stands(chars@, i as int, c),
{
    i < chars.len() && chars[i] == c
}

fn is_digit_at(chars: &Vec<char>, i: usize) -> (yes: bool)
    ensures
        yes == digit_stands(chars@, i as int),
{
    i < chars.len() && is_digit(chars[i])
}

fn find_word_end(chars: &Vec<char>, start: usize) -> (end: usize)
    requires
        start <= chars@.len(),
    ensures
        end == word_end(chars@, start as int),
        start <= end <= chars@.len(),
{
    let mut i: usize = start;
    while i < chars.len() && (is_letter(chars[i]) || is_digit(chars[i]) || chars[i] == '_'
        || chars[i] == '\'')
        invariant
            start <= i <= chars@.len(),
            word_end(chars@, start as int) == word_end(chars@, i as int),
        decreases chars@.len() - i,
    {
        i = i + 1;
    }
    i
}

fn find_digits_end(chars: &Vec<char>, start: usize) -> (end: usize)
    requires
        start <= chars@.len(),
    ensures
        end == digits_end(chars@, start as int),
        start <= end <= chars@.len(),
        forall|k: int| start <= k < end ==> digit_char(#[trigger] chars@[k]),
        digit_stands(chars@, start as int) ==> start < end,
{
    let mut i: usize = start;
    while i < chars.len() && is_digit(chars[i])
        invariant
            start <= i <= chars@.len(),
            digits_end(chars@, start as int) == digits_end(chars@, i as int),
            forall|k: int| start <= k < i ==> digit_char(#[trigger] chars@[k]),
        decreases chars@.len() - i,
    {
        i = i + 1;
    }
    i
}

fn breaks_here(chars: &Vec<char>, i: usize) -> (yes: bool)
    requires
        i < chars@.len(),
    ensures
        yes == breaks_operator(chars@, i as int),
{
    let length = chars.len();
    if i + 1 >= length {
        return false;
    }
    (is_at(chars, i, '/') && is_at(chars, i + 1, '/')) || (is_at(chars, i, '-') && is_at(
        chars,
        i + 1,
        '>',
    )) || (is_at(chars, i, '=') && is_at(chars, i + 1, '>'))
}

fn find_operator_end(chars: &Vec<char>, start: usize) -> (end: usize)
    requires
        start <= chars@.len(),
    ensures
        end == operator_end(chars@, start as int),
        start <= end <= chars@.len(),
        start < chars@.len() && operator_char(chars@[start as int]) && !breaks_operator(
            chars@,
            start as int,
        ) ==> start < end,
{
    let mut i: usize = start;
    while i < chars.len() && is_operator_char(chars[i]) && !breaks_here(chars, i)
        invariant
            start <= i <= chars@.len(),
            operator_end(chars@, start as int) == operator_end(chars@, i as int),
        decreases chars@.len() - i,
    {
        i = i + 1;
    }
    i
}

fn find_quotes(chars: &Vec<char>, start: usize) -> (at: usize)
    requires
        start <= chars@.len(),
    ensures
        at == quotes_at(chars@, start as int),
        start <= at <= chars@.len(),
        at < chars@.len() ==> at + 3 <= chars@.len(),
{
    let mut i: usize = start;
    while i < chars.len()
        invariant
            start <= i <= chars@.len(),
            quotes_at(chars@, start as int) == quotes_at(chars@, i as int),
        decreases chars@.len() - i,
    {
        if chars.len() - i >= 3 && chars[i] == '"' && chars[i + 1] == '"' && chars[i + 2] == '"' {
            return i;
        }
        i = i + 1;
    }
    i
}

fn find_backtick(chars: &Vec<char>, start: usize) -> (at: usize)
    requires
        start <= chars@.len(),
    ensures
        at == backtick_at(chars@, start as int),
        start <= at <= chars@.len(),
{
    let mut i: usize = start;
    while i < chars.len() && chars[i] != '`' && chars[i] != '\n'
        invariant
            start <= i <= chars@.len(),
            backtick_at(chars@, start as int) == backtick_at(chars@, i as int),
        decreases chars@.len() - i,
    {
        i = i + 1;
    }
    i
}

fn find_line_end(chars: &Vec<char>, start: usize) -> (at: usize)
    requires
        start <= chars@.len(),
    ensures
        at == line_end(chars@, start as int),
        start <= at <= chars@.len(),
{
    let mut i: usize = start;
    while i < chars.len() && chars[i] != '\n'
        invariant
            start <= i <= chars@.len(),
            line_end(chars@, start as int) == line_end(chars@, i as int),
        decreases chars@.len() - i,
    {
        i = i + 1;
    }
    i
}

fn lexing_fault(code: &str, message: &str, from: usize, to: usize) -> (fault: Fault)
    ensures
        Found::Wrong(fault@) == lexing_flaw(code@, message@, from as int, to as int),
{
    Fault {
        code: code.to_owned(),
        stage: "lexer".to_owned(),
        message: message.to_owned(),
        from,
        to,
        note: None,
    }
}

/// The view of what was read: a token or layout, and where it ends.
pub open spec fn reading(result: Result<(Option<Sort>, usize), Fault>) -> Found {
    match result {
        Ok((Some(sort), end)) => Found::Token(sort@, end as int),
        Ok((None, end)) => Found::Skip(end as int),
        Err(fault) => Found::Wrong(fault@),
    }
}

fn read_string_rest(chars: &Vec<char>, start: usize) -> (result: Result<
    (Option<Sort>, usize),
    Fault,
>)
    requires
        start < chars@.len(),
    ensures
        reading(result) == string_rest(chars@, start as int, start + 1, Seq::empty()),
        result matches Ok(read) ==> start < read.1 <= chars@.len(),
{
    let ghost text = chars@;
    let length = chars.len();
    let mut value = String::new();
    assert(value@ =~= Seq::empty());
    let mut i: usize = start + 1;
    while i < chars.len()
        invariant
            start < i <= chars@.len(),
            text == chars@,
            length == chars@.len(),
            string_rest(text, start as int, start + 1, Seq::empty()) == string_rest(
                text,
                start as int,
                i as int,
                value@,
            ),
        decreases chars@.len() - i,
    {
        let c = chars[i];
        if c == '"' {
            return Ok((Some(Sort::Str(value)), i + 1));
        }
        if c == '\n' {
            return Err(lexing_fault("MAG1003", "newline in quoted string", i, i + 1));
        }
        if c == '\\' {
            if i + 1 >= length {
                return Err(lexing_fault("MAG1002", "unterminated string", start, length));
            }
            let escaped = chars[i + 1];
            if escaped == 'n' {
                push_char(&mut value, '\n');
            } else if escaped == 't' {
                push_char(&mut value, '\t');
            } else if escaped == '\\' {
                push_char(&mut value, '\\');
            } else if escaped == '"' {
                push_char(&mut value, '"');
            } else {
                let shown = char_text(escaped);
                let message = cat2("unsupported string escape \\", shown.as_str());
                return Err(lexing_fault("MAG1004", message.as_str(), i, i + 2));
            }
            i = i + 2;
        } else {
            push_char(&mut value, c);
            i = i + 1;
        }
    }
    Err(lexing_fault("MAG1002", "unterminated string", start, chars.len()))
}

fn read_size(chars: &Vec<char>, start: usize, end: usize) -> (size: Option<u64>)
    requires
        start <= end <= chars@.len(),
        forall|k: int| start <= k < end ==> digit_char(#[trigger] chars@[k]),
    ensures
        match size {
            Some(size) => size == digits_value(chars@.subrange(start as int, end as int)) && size
                <= 0x8000_0000_0000_0000,
            None => digits_value(chars@.subrange(start as int, end as int))
                > 0x8000_0000_0000_0000,
        },
{
    let ghost digits = chars@.subrange(start as int, end as int);
    let mut value: u128 = 0;
    let mut i: usize = start;
    while i < end
        invariant
            start <= i <= end <= chars@.len(),
            digits == chars@.subrange(start as int, end as int),
            forall|k: int| start <= k < end ==> digit_char(#[trigger] chars@[k]),
            value == digits_value(digits.take(i - start)),
            value <= 0x8000_0000_0000_0000,
        decreases end - i,
    {
        let c = chars[i];
        assert(digit_char(c));
        let digit: u32 = c as u32 - '0' as u32;
        proof {
            assert(digits.take(i + 1 - start).drop_last() =~= digits.take(i - start));
            assert(digits.take(i + 1 - start).last() == c);
            assert(digit == digit_value(c));
        }
        value = value * 10 + digit as u128;
        i = i + 1;
        if value > 0x8000_0000_0000_0000 {
            proof {
                lemma_digits_grow(digits, i - start);
            }
            return None;
        }
    }
    assert(digits.take(digits.len() as int) =~= digits);
    Some(value as u64)
}

fn read_surface_number(chars: &Vec<char>, start: usize, first: usize) -> (result: Result<
    (Option<Sort>, usize),
    Fault,
>)
    requires
        start <= first < chars@.len(),
        digit_stands(chars@, first as int),
    ensures
        reading(result) == number_found(chars@, start as int, first as int),
        result matches Ok(read) ==> start < read.1 <= chars@.len(),
{
    let length = chars.len();
    let end = find_digits_end(chars, first);
    if end < length && is_at(chars, end, '.') && is_digit_at(chars, end + 1) {
        let end = find_digits_end(chars, end + 1);
        return Ok((Some(Sort::Float(chars_text(chars, start, end))), end));
    }
    match read_size(chars, first, end) {
        Some(size) => {
            if first > start {
                Ok((Some(Sort::Int((-(size as i128)) as i64)), end))
            } else if size <= 0x7fff_ffff_ffff_ffff {
                Ok((Some(Sort::Int(size as i64)), end))
            } else {
                Err(lexing_fault("MAG1006", "integer is outside the Int range", start, end))
            }
        },
        None => Err(lexing_fault("MAG1006", "integer is outside the Int range", start, end)),
    }
}

fn read_backtick(chars: &Vec<char>, start: usize) -> (result: Result<(Option<Sort>, usize), Fault>)
    requires
        start < chars@.len(),
    ensures
        reading(result) == backtick_found(chars@, start as int),
        result matches Ok(read) ==> start < read.1 <= chars@.len(),
{
    let length = chars.len();
    let end = find_backtick(chars, start + 1);
    if end >= length {
        return Err(lexing_fault("MAG1005", "unterminated backtick identifier", start, end));
    }
    if chars[end] == '\n' {
        return Err(lexing_fault("MAG1005", "newline in backtick identifier", start, end));
    }
    if end == start + 1 {
        return Err(
            lexing_fault("MAG1005", "backtick identifier cannot be empty", start, end + 1),
        );
    }
    Ok((Some(Sort::Ident(chars_text(chars, start + 1, end))), end + 1))
}

fn read_surface_string(chars: &Vec<char>, start: usize) -> (result: Result<
    (Option<Sort>, usize),
    Fault,
>)
    requires
        start < chars@.len(),
    ensures
        reading(result) == string_found(chars@, start as int),
        result matches Ok(read) ==> start < read.1 <= chars@.len(),
{
    if chars.len() - start >= 3 && chars[start + 1] == '"' && chars[start + 2] == '"' {
        let end = find_quotes(chars, start + 3);
        if end < chars.len() {
            return Ok((Some(Sort::Str(chars_text(chars, start + 3, end))), end + 3));
        }
        return Err(lexing_fault("MAG1002", "unterminated raw string", start, chars.len()));
    }
    read_string_rest(chars, start)
}

#[verifier::rlimit(40)]
fn read_piece(chars: &Vec<char>, i: usize, ends: bool) -> (result: Result<
    (Option<Sort>, usize),
    Fault,
>)
    requires
        i < chars@.len(),
    ensures
        reading(result) == found_at(chars@, i as int, ends),
        result matches Ok(read) ==> i < read.1 <= chars@.len(),
{
    let length = chars.len();
    assert(i < length);
    let c = chars[i];
    if c == ' ' || c == '\t' || c == '\r' {
        return Ok((None, i + 1));
    }
    if c == '\n' {
        return Ok((Some(Sort::Newline), i + 1));
    }
    if c == '/' && is_at(chars, i + 1, '/') {
        return Ok((None, find_line_end(chars, i + 2)));
    }
    if c == '"' {
        return read_surface_string(chars, i);
    }
    if c == '`' {
        return read_backtick(chars, i);
    }
    if is_digit(c) {
        return read_surface_number(chars, i, i);
    }
    if c == '-' && is_digit_at(chars, i + 1) && !ends {
        return read_surface_number(chars, i, i + 1);
    }
    if is_letter(c) || c == '_' {
        let end = find_word_end(chars, i + 1);
        return Ok((Some(Sort::Ident(chars_text(chars, i, end))), end));
    }
    if c == '-' && is_at(chars, i + 1, '>') {
        return Ok((Some(Sort::Arrow), i + 2));
    }
    if c == '=' && is_at(chars, i + 1, '>') {
        return Ok((Some(Sort::FatArrow), i + 2));
    }
    if c == '(' || c == ')' || c == '[' || c == ']' || c == '{' || c == '}' || c == ',' || c == ':'
        || c == '.' {
        return Ok((Some(Sort::Punct(c)), i + 1));
    }
    if is_operator_char(c) {
        let end = find_operator_end(chars, i);
        return Ok((Some(Sort::Operator(chars_text(chars, i, end))), end));
    }
    Err(lexing_fault("MAG1001", "unexpected character", i, i + 1))
}

fn ends_here(sort: &Sort) -> (yes: bool)
    ensures
        yes == can_end(sort@),
{
    match sort {
        Sort::Ident(_) | Sort::Str(_) | Sort::Int(_) | Sort::Float(_) => true,
        Sort::Punct(c) => *c == ')' || *c == ']' || *c == '}',
        _ => false,
    }
}

pub open spec fn pieces_read(result: Result<Vec<Piece>, Fault>) -> Result<Seq<Tok>, Flaw> {
    match result {
        Ok(pieces) => Ok(toks(pieces@)),
        Err(fault) => Err(fault@),
    }
}

/// The tokens of a text.
pub fn read_pieces(chars: &Vec<char>) -> (result: Result<Vec<Piece>, Fault>)
    ensures
        pieces_read(result) == pieces_from(chars@, 0, Seq::empty()),
        result matches Ok(pieces) ==> pieces@.len() > 0 && pieces@.last().sort is Eof,
{
    let ghost text = chars@;
    let mut pieces: Vec<Piece> = Vec::new();
    assert(toks(pieces@) =~= Seq::<Tok>::empty());
    let mut i: usize = 0;
    while i < chars.len()
        invariant
            i <= chars@.len(),
            text == chars@,
            pieces_from(text, 0, Seq::empty()) == pieces_from(text, i as int, toks(pieces@)),
        decreases chars@.len() - i,
    {
        let ghost before = toks(pieces@);
        let count = pieces.len();
        let ends = if count == 0 {
            false
        } else {
            assert(before.last() == pieces@.last()@);
            ends_here(&pieces[count - 1].sort)
        };
        match read_piece(chars, i, ends) {
            Err(fault) => return Err(fault),
            Ok((None, next)) => {
                i = next;
            },
            Ok((Some(sort), next)) => {
                let piece = Piece { sort, from: i, to: next };
                let ghost view = piece@;
                pieces.push(piece);
                assert(toks(pieces@) =~= before.push(view));
                i = next;
            },
        }
    }
    let ghost before = toks(pieces@);
    let piece = Piece { sort: Sort::Eof, from: chars.len(), to: chars.len() };
    let ghost view = piece@;
    pieces.push(piece);
    assert(toks(pieces@) =~= before.push(view));
    Ok(pieces)
}

// ---------------------------------------------------------------------------
// Laws
// ---------------------------------------------------------------------------

/// What was found at an index goes on to a later one; a fault lies within the text.
pub open spec fn advances(text: Seq<char>, i: int, found: Found) -> bool {
    match found {
        Found::Skip(next) => i < next <= text.len(),
        Found::Token(_, next) => i < next <= text.len(),
        Found::Wrong(flaw) => 0 <= flaw.from <= flaw.to <= text.len(),
    }
}

proof fn lemma_word_end(text: Seq<char>, i: int)
    requires
        0 <= i <= text.len(),
    ensures
        i <= word_end(text, i) <= text.len(),
    decreases text.len() - i,
{
    if i < text.len() && word_char(text[i]) {
        lemma_word_end(text, i + 1);
    }
}

proof fn lemma_digits_end(text: Seq<char>, i: int)
    requires
        0 <= i <= text.len(),
    ensures
        i <= digits_end(text, i) <= text.len(),
    decreases text.len() - i,
{
    if digit_stands(text, i) {
        lemma_digits_end(text, i + 1);
    }
}

proof fn lemma_operator_end(text: Seq<char>, i: int)
    requires
        0 <= i <= text.len(),
    ensures
        i <= operator_end(text, i) <= text.len(),
    decreases text.len() - i,
{
    if i < text.len() && operator_char(text[i]) && !breaks_operator(text, i) {
        lemma_operator_end(text, i + 1);
    }
}

proof fn lemma_line_end(text: Seq<char>, i: int)
    requires
        0 <= i <= text.len(),
    ensures
        i <= line_end(text, i) <= text.len(),
    decreases text.len() - i,
{
    if i < text.len() && text[i] != '\n' {
        lemma_line_end(text, i + 1);
    }
}

proof fn lemma_quotes_at(text: Seq<char>, i: int)
    requires
        0 <= i <= text.len(),
    ensures
        i <= quotes_at(text, i) <= text.len(),
        quotes_at(text, i) < text.len() ==> quotes_at(text, i) + 3 <= text.len(),
    decreases text.len() - i,
{
    if i < text.len() && !(stands(text, i, '"') && stands(text, i + 1, '"') && stands(
        text,
        i + 2,
        '"',
    )) {
        lemma_quotes_at(text, i + 1);
    }
}

proof fn lemma_backtick_at(text: Seq<char>, i: int)
    requires
        0 <= i <= text.len(),
    ensures
        i <= backtick_at(text, i) <= text.len(),
    decreases text.len() - i,
{
    if i < text.len() && text[i] != '`' && text[i] != '\n' {
        lemma_backtick_at(text, i + 1);
    }
}

proof fn lemma_string_rest(text: Seq<char>, start: int, i: int, value: Seq<char>)
    requires
        0 <= start < i <= text.len(),
    ensures
        advances(text, start, string_rest(text, start, i, value)),
    decreases text.len() - i,
{
    if i < text.len() {
        if text[i] == '\\' {
            if i + 1 < text.len() {
                if let Some(c) = escape_of(text[i + 1]) {
                    lemma_string_rest(text, start, i + 2, value.push(c));
                }
            }
        } else if text[i] != '"' && text[i] != '\n' {
            lemma_string_rest(text, start, i + 1, value.push(text[i]));
        }
    }
}

proof fn lemma_number_found(text: Seq<char>, i: int, first: int)
    requires
        0 <= i <= first < text.len(),
        digit_stands(text, first),
    ensures
        advances(text, i, number_found(text, i, first)),
{
    lemma_digits_end(text, first + 1);
    let end = digits_end(text, first);
    if stands(text, end, '.') && digit_stands(text, end + 1) {
        lemma_digits_end(text, end + 1);
    }
}

proof fn lemma_found_advances(text: Seq<char>, i: int, ends: bool)
    requires
        0 <= i < text.len(),
    ensures
        advances(text, i, found_at(text, i, ends)),
{
    let c = text[i];
    if c == '/' && stands(text, i + 1, '/') {
        lemma_line_end(text, i + 2);
    } else if c == '"' {
        if stands(text, i + 1, '"') && stands(text, i + 2, '"') {
            lemma_quotes_at(text, i + 3);
        } else {
            lemma_string_rest(text, i, i + 1, Seq::empty());
        }
    } else if c == '`' {
        lemma_backtick_at(text, i + 1);
    } else if digit_char(c) {
        lemma_number_found(text, i, i);
    } else if c == '-' && digit_stands(text, i + 1) && !ends {
        lemma_number_found(text, i, i + 1);
    } else if word_start(c) {
        lemma_word_end(text, i + 1);
    } else if operator_char(c) && !breaks_operator(text, i) {
        lemma_operator_end(text, i + 1);
    }
}

/// Tokens that follow one another within a text: none is empty, and none starts before
/// the one in front of it ends.
pub open spec fn follow(list: Seq<Tok>, limit: int) -> bool {
    &&& forall|n: int|
        0 <= n < list.len() ==> 0 <= (#[trigger] list[n]).from < list[n].to <= limit
    &&& forall|m: int, n: int|
        0 <= m < n < list.len() ==> (#[trigger] list[m]).to <= (#[trigger] list[n]).from
}

/// The tokens of a text lie within it, in the order in which they stand there, and end
/// with an empty token at its end. A fault lies within the text.
pub proof fn lemma_tokens_follow(text: Seq<char>, i: int, before: Seq<Tok>)
    requires
        0 <= i <= text.len(),
        follow(before, i),
    ensures
        match pieces_from(text, i, before) {
            Ok(list) => {
                &&& list.len() > before.len()
                &&& list.last() == (Tok {
                    tag: Tag::Eof,
                    from: text.len() as int,
                    to: text.len() as int,
                })
                &&& follow(list.drop_last(), text.len() as int)
            },
            Err(flaw) => 0 <= flaw.from <= flaw.to <= text.len(),
        },
    decreases text.len() - i,
{
    if i == text.len() {
        let list = pieces_from(text, i, before)->Ok_0;
        assert(list.drop_last() =~= before);
    } else {
        lemma_found_advances(text, i, ends_expression(before));
        match found_at(text, i, ends_expression(before)) {
            Found::Skip(next) => {
                assert(follow(before, next));
                lemma_tokens_follow(text, next, before);
            },
            Found::Token(tag, next) => {
                let tok = Tok { tag, from: i, to: next };
                let more = before.push(tok);
                assert(follow(more, next)) by {
                    assert forall|n: int| 0 <= n < more.len() implies 0 <= (#[trigger] more[n]).from
                        < more[n].to <= next by {
                        if n < before.len() {
                            assert(before[n].to <= i);
                        }
                    }
                    assert forall|m: int, n: int| 0 <= m < n < more.len() implies (
                    #[trigger] more[m]).to <= (#[trigger] more[n]).from by {
                        assert(more[m] == before[m]);
                        assert(before[m].to <= i);
                        if n < before.len() {
                            assert(more[n] == before[n]);
                        }
                    }
                }
                lemma_tokens_follow(text, next, more);
            },
            Found::Wrong(_) => {},
        }
    }
}

} // verus!
