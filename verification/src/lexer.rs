//! Tokens of parenthesised source text.

use crate::diagnostic::{
    ByteSpan, Source, SourceSnapshot, SyntaxDiagnostic, clamped, diagnosed, measurable,
    option_note, splits_no_char,
};
use crate::error::{Failure, MagError};
use crate::text::{
    byte_at, cat2, cat3, char_bytes, char_text, chars_text, lemma_byte_at_bounds,
    lemma_byte_at_increases, lemma_index_of_byte, push_char, same_text, text_chars,
};
use vstd::prelude::*;
use vstd::string::*;

verus! {

/// A float keeps the notation of its literal.
#[derive(Debug, PartialEq)]
pub enum TokenKind {
    LParen,
    RParen,
    LBracket,
    RBracket,
    LBrace,
    RBrace,
    Symbol(String),
    Keyword(String),
    Str(String),
    Int(i64),
    Float(String),
    Bool(bool),
    Nil,
    Arrow,
    Pipe,
    Plus,
    Colon,
}

#[derive(Debug, PartialEq)]
pub struct Token {
    pub kind: TokenKind,
    pub span: ByteSpan,
}

pub ghost enum Kind {
    LParen,
    RParen,
    LBracket,
    RBracket,
    LBrace,
    RBrace,
    Symbol(Seq<char>),
    Keyword(Seq<char>),
    Str(Seq<char>),
    Int(int),
    Float(Seq<char>),
    Bool(bool),
    Nil,
    Arrow,
    Pipe,
    Plus,
    Colon,
}

pub ghost struct Lexeme {
    pub kind: Kind,
    pub span: ByteSpan,
}

impl TokenKind {
    pub open spec fn view(&self) -> Kind {
        match self {
            TokenKind::LParen => Kind::LParen,
            TokenKind::RParen => Kind::RParen,
            TokenKind::LBracket => Kind::LBracket,
            TokenKind::RBracket => Kind::RBracket,
            TokenKind::LBrace => Kind::LBrace,
            TokenKind::RBrace => Kind::RBrace,
            TokenKind::Symbol(name) => Kind::Symbol(name@),
            TokenKind::Keyword(name) => Kind::Keyword(name@),
            TokenKind::Str(value) => Kind::Str(value@),
            TokenKind::Int(value) => Kind::Int(*value as int),
            TokenKind::Float(notation) => Kind::Float(notation@),
            TokenKind::Bool(value) => Kind::Bool(*value),
            TokenKind::Nil => Kind::Nil,
            TokenKind::Arrow => Kind::Arrow,
            TokenKind::Pipe => Kind::Pipe,
            TokenKind::Plus => Kind::Plus,
            TokenKind::Colon => Kind::Colon,
        }
    }
}

impl Token {
    pub open spec fn view(&self) -> Lexeme {
        Lexeme { kind: self.kind@, span: self.span }
    }
}

pub open spec fn lexemes(tokens: Seq<Token>) -> Seq<Lexeme> {
    Seq::new(tokens.len(), |i: int| tokens[i].view())
}

// ---------------------------------------------------------------------------
// What a text holds
// ---------------------------------------------------------------------------

pub open spec fn digit_char(c: char) -> bool {
    '0' <= c && c <= '9'
}

pub open spec fn letter_char(c: char) -> bool {
    ('a' <= c && c <= 'z') || ('A' <= c && c <= 'Z')
}

pub open spec fn symbol_start(c: char) -> bool {
    letter_char(c) || c == '_' || c == '?' || c == '!' || c == '*' || c == '=' || c == '<' || c
        == '>'
}

pub open spec fn symbol_char(c: char) -> bool {
    letter_char(c) || digit_char(c) || c == '-' || c == '_' || c == '/' || c == '.' || c == '?' || c
        == '!' || c == '*' || c == '=' || c == '<' || c == '>'
}

/// The end of the run of symbol characters that starts at `i`.
pub open spec fn symbol_end(text: Seq<char>, i: int) -> int
    decreases text.len() - i,
{
    if 0 <= i < text.len() && symbol_char(text[i]) {
        symbol_end(text, i + 1)
    } else {
        i
    }
}

/// The end of the line that holds index `i`.
pub open spec fn line_end(text: Seq<char>, i: int) -> int
    decreases text.len() - i,
{
    if 0 <= i < text.len() && text[i] != '\n' {
        line_end(text, i + 1)
    } else {
        i
    }
}

/// The end of a number, and whether a point has been met in it.
pub open spec fn number_end(text: Seq<char>, i: int, float: bool) -> (int, bool)
    decreases text.len() - i,
{
    if 0 <= i < text.len() && digit_char(text[i]) {
        number_end(text, i + 1, float)
    } else if 0 <= i < text.len() && text[i] == '.' && !float {
        number_end(text, i + 1, true)
    } else {
        (i, float)
    }
}

pub open spec fn digit_value(c: char) -> nat {
    (c as int - '0' as int) as nat
}

/// The number that decimal digits stand for.
pub open spec fn digits_value(digits: Seq<char>) -> nat
    decreases digits.len(),
{
    if digits.len() == 0 {
        0
    } else {
        digits_value(digits.drop_last()) * 10 + digit_value(digits.last())
    }
}

/// A signed number; zero where the digits stand for more than 64 bits hold.
pub open spec fn integer(digits: Seq<char>, negative: bool) -> int {
    let value = if negative {
        -(digits_value(digits) as int)
    } else {
        digits_value(digits) as int
    };
    if i64::MIN <= value <= i64::MAX {
        value
    } else {
        0
    }
}

/// What stands at an index: layout, a token, or a fault.
pub ghost enum Scan {
    Skip(int),
    Token(Kind, int),
    Fault(Failure),
}

pub open spec fn span_of(text: Seq<char>, i: int, j: int) -> ByteSpan {
    ByteSpan { start: byte_at(text, i) as usize, end: byte_at(text, j) as usize }
}

pub open spec fn lex_failure(
    source: Source,
    message: Seq<char>,
    span: ByteSpan,
    related: Option<(Seq<char>, ByteSpan)>,
) -> Failure {
    Failure::Syntax(
        diagnosed("syntax_lex"@, "lex"@, "lexer: "@ + message, source, span, related),
    )
}

pub open spec fn opened_here(text: Seq<char>, opener: int) -> Option<(Seq<char>, ByteSpan)> {
    Some(("string opened here"@, span_of(text, opener, opener + 1)))
}

/// The value of an escape behind a backslash.
pub open spec fn escaped(c: char) -> Option<char> {
    if c == 'n' {
        Some('\n')
    } else if c == 't' {
        Some('\t')
    } else if c == '\\' {
        Some('\\')
    } else if c == '"' {
        Some('"')
    } else {
        None
    }
}

/// The rest of a string from index `i` on, behind what was read of it.
pub open spec fn string_scan(source: Source, opener: int, i: int, value: Seq<char>) -> Scan
    decreases source.text.len() - i,
{
    let text = source.text;
    let end = text.len() as int;
    if i < 0 || i >= text.len() {
        Scan::Fault(
            lex_failure(
                source,
                "unterminated string"@,
                span_of(text, end, end),
                opened_here(text, opener),
            ),
        )
    } else if text[i] == '"' {
        Scan::Token(Kind::Str(value), i + 1)
    } else if text[i] == '\\' {
        if i + 1 >= text.len() {
            Scan::Fault(
                lex_failure(
                    source,
                    "unterminated escape in string"@,
                    span_of(text, end, end),
                    opened_here(text, opener),
                ),
            )
        } else {
            match escaped(text[i + 1]) {
                Some(c) => string_scan(source, opener, i + 2, value.push(c)),
                None => Scan::Fault(
                    lex_failure(
                        source,
                        "unknown string escape \\"@ + seq![text[i + 1]]
                            + "; use \\\\ for a literal backslash"@,
                        span_of(text, i, i + 2),
                        opened_here(text, opener),
                    ),
                ),
            }
        }
    } else {
        string_scan(source, opener, i + 1, value.push(text[i]))
    }
}

pub open spec fn number_scan(text: Seq<char>, i: int, negative: bool) -> Scan {
    let (end, float) = number_end(text, i, false);
    let digits = text.subrange(i, end);
    if float {
        Scan::Token(
            Kind::Float(
                if negative {
                    "-"@ + digits
                } else {
                    digits
                },
            ),
            end,
        )
    } else {
        Scan::Token(Kind::Int(integer(digits, negative)), end)
    }
}

pub open spec fn word_kind(word: Seq<char>) -> Kind {
    if word == "true"@ {
        Kind::Bool(true)
    } else if word == "false"@ {
        Kind::Bool(false)
    } else if word == "nil"@ {
        Kind::Nil
    } else {
        Kind::Symbol(word)
    }
}

/// The token that one character makes.
pub open spec fn mark_kind(c: char) -> Option<Kind> {
    if c == '(' {
        Some(Kind::LParen)
    } else if c == ')' {
        Some(Kind::RParen)
    } else if c == '[' {
        Some(Kind::LBracket)
    } else if c == ']' {
        Some(Kind::RBracket)
    } else if c == '{' {
        Some(Kind::LBrace)
    } else if c == '}' {
        Some(Kind::RBrace)
    } else if c == '|' {
        Some(Kind::Pipe)
    } else if c == '+' {
        Some(Kind::Plus)
    } else {
        None
    }
}

/// What stands at index `i`.
pub open spec fn scan(source: Source, i: int) -> Scan {
    let text = source.text;
    let c = text[i];
    let more = i + 1 < text.len();
    if c == ' ' || c == '\t' || c == '\n' || c == '\r' || c == ',' {
        Scan::Skip(i + 1)
    } else if c == ';' {
        Scan::Skip(line_end(text, i + 1))
    } else if mark_kind(c) is Some {
        Scan::Token(mark_kind(c)->0, i + 1)
    } else if c == ':' {
        if more && symbol_start(text[i + 1]) {
            let end = symbol_end(text, i + 1);
            Scan::Token(Kind::Keyword(text.subrange(i + 1, end)), end)
        } else {
            Scan::Token(Kind::Colon, i + 1)
        }
    } else if c == '-' {
        if more && text[i + 1] == '>' {
            Scan::Token(Kind::Arrow, i + 2)
        } else if more && digit_char(text[i + 1]) {
            number_scan(text, i + 1, true)
        } else {
            let end = symbol_end(text, i + 1);
            Scan::Token(Kind::Symbol("-"@ + text.subrange(i + 1, end)), end)
        }
    } else if c == '"' {
        string_scan(source, i, i + 1, Seq::empty())
    } else if digit_char(c) {
        number_scan(text, i, false)
    } else if symbol_start(c) {
        let end = symbol_end(text, i);
        Scan::Token(word_kind(text.subrange(i, end)), end)
    } else {
        Scan::Fault(
            lex_failure(
                source,
                "unexpected character: '"@ + seq![c] + "'"@,
                span_of(text, i, i + 1),
                None,
            ),
        )
    }
}

/// The tokens from index `i` on, up to the first fault.
pub open spec fn lexed(source: Source, i: int) -> Result<Seq<Lexeme>, Failure>
    decreases source.text.len() - i,
{
    if i < 0 || i >= source.text.len() {
        Ok(Seq::empty())
    } else {
        match scan(source, i) {
            Scan::Skip(j) => if i < j <= source.text.len() {
                lexed(source, j)
            } else {
                Ok(Seq::empty())
            },
            Scan::Token(kind, j) => if i < j <= source.text.len() {
                match lexed(source, j) {
                    Ok(rest) => Ok(seq![Lexeme { kind, span: span_of(source.text, i, j) }] + rest),
                    Err(failure) => Err(failure),
                }
            } else {
                Ok(Seq::empty())
            },
            Scan::Fault(failure) => Err(failure),
        }
    }
}

// ---------------------------------------------------------------------------
// Reading
// ---------------------------------------------------------------------------

/// Tokens whose spans can be shown in a source.
pub open spec fn tokens_fit(tokens: Seq<Token>, text: Seq<char>) -> bool {
    forall|i: int|
        0 <= i < tokens.len() ==> splits_no_char(text, (#[trigger] tokens[i]).span)
}

/// A source text with the byte offsets of its characters.
pub(crate) struct Reader<'a> {
    pub(crate) source: &'a SourceSnapshot,
    pub(crate) chars: Vec<char>,
    pub(crate) offsets: Vec<usize>,
}

impl<'a> Reader<'a> {
    pub(crate) open spec fn wf(&self) -> bool {
        &&& self.chars@ == self.source@.text
        &&& measurable(self.chars@)
        &&& self.offsets@.len() == self.chars@.len() + 1
        &&& forall|i: int|
            0 <= i <= self.chars@.len() ==> #[trigger] self.offsets@[i] == byte_at(self.chars@, i)
    }

    pub(crate) fn new(source: &'a SourceSnapshot) -> (reader: Self)
        requires
            measurable(source.text@),
        ensures
            reader.wf(),
            reader.source == source,
    {
        let chars = text_chars(source.text.as_str());
        let mut offsets: Vec<usize> = Vec::new();
        offsets.push(0);
        let mut offset: usize = 0;
        let mut i: usize = 0;
        while i < chars.len()
            invariant
                i <= chars@.len(),
                measurable(chars@),
                offsets@.len() == i + 1,
                offset == byte_at(chars@, i as int),
                forall|j: int| 0 <= j <= i ==> #[trigger] offsets@[j] == byte_at(chars@, j),
            decreases chars@.len() - i,
        {
            proof {
                lemma_byte_at_bounds(chars@, i + 1);
            }
            offset = offset + char_bytes(chars[i]);
            offsets.push(offset);
            i = i + 1;
        }
        Reader { source, chars, offsets }
    }

    pub(crate) fn span(&self, i: usize, j: usize) -> (span: ByteSpan)
        requires
            self.wf(),
            i <= j <= self.chars@.len(),
        ensures
            span == span_of(self.chars@, i as int, j as int),
            splits_no_char(self.chars@, span),
    {
        proof {
            lemma_whole_span(self.chars@, i as int, j as int);
        }
        ByteSpan::new(self.offsets[i], self.offsets[j])
    }

    fn next_char(&self, i: usize) -> (found: Option<char>)
        requires
            self.wf(),
        ensures
            match found {
                Some(c) => i < self.chars@.len() && c == self.chars@[i as int],
                None => i >= self.chars@.len(),
            },
    {
        if i < self.chars.len() {
            Some(self.chars[i])
        } else {
            None
        }
    }
}

/// A span between characters stays as it is when it is forced into its text.
pub proof fn lemma_whole_span(text: Seq<char>, i: int, j: int)
    requires
        measurable(text),
        0 <= i <= j <= text.len(),
    ensures
        clamped(text, span_of(text, i, j)) == span_of(text, i, j),
        splits_no_char(text, span_of(text, i, j)),
        span_of(text, i, j).start == byte_at(text, i),
        span_of(text, i, j).end == byte_at(text, j),
{
    lemma_byte_at_bounds(text, i);
    lemma_byte_at_bounds(text, j);
    lemma_index_of_byte(text, i);
    lemma_index_of_byte(text, j);
    if i < j {
        lemma_byte_at_increases(text, i, j);
    }
}

pub fn is_symbol_start(c: char) -> (yes: bool)
    ensures
        yes == symbol_start(c),
{
    ('a' <= c && c <= 'z') || ('A' <= c && c <= 'Z') || c == '_' || c == '?' || c == '!' || c == '*'
        || c == '=' || c == '<' || c == '>'
}

pub fn is_symbol_char(c: char) -> (yes: bool)
    ensures
        yes == symbol_char(c),
{
    ('a' <= c && c <= 'z') || ('A' <= c && c <= 'Z') || is_digit(c) || c == '-' || c == '_' || c
        == '/' || c == '.' || c == '?' || c == '!' || c == '*' || c == '=' || c == '<' || c == '>'
}

pub fn is_digit(c: char) -> (yes: bool)
    ensures
        yes == digit_char(c),
{
    '0' <= c && c <= '9'
}

fn lex_error(
    source: &SourceSnapshot,
    message: String,
    span: ByteSpan,
    related: Option<(String, ByteSpan)>,
) -> (error: MagError)
    requires
        measurable(source.text@),
        splits_no_char(source.text@, span),
        related matches Some(note) ==> splits_no_char(source.text@, note.1),
    ensures
        error@ == lex_failure(source@, message@, span, option_note(related)),
{
    MagError::Syntax(
        Box::new(
            SyntaxDiagnostic::new(
                "syntax_lex",
                "lex",
                cat2("lexer: ", message.as_str()),
                source,
                span,
                related,
            ),
        ),
    )
}

/// Reads the symbol characters from `start` on; returns them and their end.
fn read_symbol(reader: &Reader, start: usize) -> (word: (String, usize))
    requires
        reader.wf(),
        start <= reader.chars@.len(),
    ensures
        word.1 == symbol_end(reader.chars@, start as int),
        start <= word.1 <= reader.chars@.len(),
        word.0@ == reader.chars@.subrange(start as int, word.1 as int),
{
    let mut i: usize = start;
    while i < reader.chars.len() && is_symbol_char(reader.chars[i])
        invariant
            start <= i <= reader.chars@.len(),
            symbol_end(reader.chars@, start as int) == symbol_end(reader.chars@, i as int),
        decreases reader.chars@.len() - i,
    {
        i = i + 1;
    }
    (chars_text(&reader.chars, start, i), i)
}

proof fn lemma_number_end(text: Seq<char>, i: int, float: bool)
    requires
        0 <= i <= text.len(),
    ensures
        i <= number_end(text, i, float).0 <= text.len(),
        float ==> number_end(text, i, float).1,
        0 <= i < text.len() && digit_char(text[i]) ==> i < number_end(text, i, float).0,
    decreases text.len() - i,
{
    if i < text.len() && digit_char(text[i]) {
        lemma_number_end(text, i + 1, float);
    } else if i < text.len() && text[i] == '.' && !float {
        lemma_number_end(text, i + 1, true);
    }
}

proof fn lemma_integer_digits(text: Seq<char>, i: int, float: bool)
    requires
        0 <= i <= text.len(),
        !number_end(text, i, float).1,
    ensures
        forall|k: int| i <= k < number_end(text, i, float).0 ==> digit_char(#[trigger] text[k]),
    decreases text.len() - i,
{
    if i < text.len() && digit_char(text[i]) {
        lemma_integer_digits(text, i + 1, float);
    } else if i < text.len() && text[i] == '.' && !float {
        lemma_number_end(text, i + 1, true);
    }
}

pub proof fn lemma_digits_grow(digits: Seq<char>, n: int)
    requires
        0 <= n <= digits.len(),
    ensures
        digits_value(digits.take(n)) <= digits_value(digits),
    decreases digits.len() - n,
{
    if n < digits.len() {
        lemma_digits_grow(digits, n + 1);
        assert(digits.take(n + 1).drop_last() =~= digits.take(n));
    } else {
        assert(digits.take(n) =~= digits);
    }
}

/// Reads the integer that digits stand for.
fn read_integer(chars: &Vec<char>, start: usize, end: usize, negative: bool) -> (value: i64)
    requires
        start <= end <= chars@.len(),
        forall|k: int| start <= k < end ==> digit_char(#[trigger] chars@[k]),
    ensures
        value == integer(chars@.subrange(start as int, end as int), negative),
{
    let ghost digits = chars@.subrange(start as int, end as int);
    let mut value: u128 = 0;
    let mut i: usize = start;
    while i < end
        invariant
            start <= i <= end <= chars@.len(),
            digits == chars@.subrange(start as int, end as int),
            forall|k: int| start <= k < end ==> digit_char(#[trigger] chars@[k]),
            value == digits_value(digits.take(i - start)),
            value <= 0x8000_0000_0000_0000,
        decreases end - i,
    {
        let c = chars[i];
        assert(digit_char(c));
        let digit: u32 = c as u32 - '0' as u32;
        proof {
            assert(digits.take(i + 1 - start).drop_last() =~= digits.take(i - start));
            assert(digits.take(i + 1 - start).last() == c);
            assert(digit == digit_value(c));
        }
        value = value * 10 + digit as u128;
        i = i + 1;
        if value > 0x8000_0000_0000_0000 {
            proof {
                lemma_digits_grow(digits, i - start);
            }
            return 0;
        }
    }
    assert(digits.take(digits.len() as int) =~= digits);
    if negative {
        (-(value as i128)) as i64
    } else if value <= 0x7fff_ffff_ffff_ffff {
        value as i64
    } else {
        0
    }
}

fn read_number(reader: &Reader, start: usize, negative: bool) -> (number: (TokenKind, usize))
    requires
        reader.wf(),
        start <= reader.chars@.len(),
    ensures
        number_scan(reader.chars@, start as int, negative) == Scan::Token(
            number.0@,
            number.1 as int,
        ),
        start <= number.1 <= reader.chars@.len(),
        start < reader.chars@.len() && digit_char(reader.chars@[start as int]) ==> start
            < number.1,
{
    let ghost text = reader.chars@;
    let mut float = false;
    let mut i: usize = start;
    proof {
        lemma_number_end(text, start as int, false);
    }
    while i < reader.chars.len() && (is_digit(reader.chars[i]) || (reader.chars[i] == '.'
        && !float))
        invariant
            start <= i <= text.len(),
            text == reader.chars@,
            number_end(text, start as int, false) == number_end(text, i as int, float),
        decreases text.len() - i,
    {
        if !is_digit(reader.chars[i]) {
            float = true;
        }
        i = i + 1;
    }
    if float {
        let digits = chars_text(&reader.chars, start, i);
        if negative {
            (TokenKind::Float(cat2("-", digits.as_str())), i)
        } else {
            (TokenKind::Float(digits), i)
        }
    } else {
        proof {
            lemma_integer_digits(text, start as int, false);
        }
        (TokenKind::Int(read_integer(&reader.chars, start, i, negative)), i)
    }
}

/// Reads the rest of a string; returns its value and its end.
fn read_string(reader: &Reader, opener: usize) -> (string: Result<(String, usize), MagError>)
    requires
        reader.wf(),
        opener < reader.chars@.len(),
    ensures
        match (
            string,
            string_scan(reader.source@, opener as int, opener + 1, Seq::empty()),
        ) {
            (Ok((value, end)), Scan::Token(kind, j)) => {
                &&& kind == Kind::Str(value@)
                &&& end == j
                &&& opener < end <= reader.chars@.len()
            },
            (Err(error), Scan::Fault(failure)) => error@ == failure,
            _ => false,
        },
{
    let ghost source = reader.source@;
    let mut value = String::new();
    let length = reader.chars.len();
    assert(opener < length);
    let mut i: usize = opener + 1;
    loop
        invariant
            reader.wf(),
            source == reader.source@,
            opener < i <= reader.chars@.len(),
            string_scan(source, opener as int, opener + 1, Seq::empty()) == string_scan(
                source,
                opener as int,
                i as int,
                value@,
            ),
        decreases reader.chars@.len() - i,
    {
        let end = reader.chars.len();
        let c = match reader.next_char(i) {
            Some(c) => c,
            None => {
                return Err(
                    lex_error(
                        reader.source,
                        "unterminated string".to_owned(),
                        reader.span(end, end),
                        Some(("string opened here".to_owned(), reader.span(opener, opener + 1))),
                    ),
                );
            },
        };
        if c == '"' {
            return Ok((value, i + 1));
        }
        if c == '\\' {
            let escape = match reader.next_char(i + 1) {
                Some(escape) => escape,
                None => {
                    return Err(
                        lex_error(
                            reader.source,
                            "unterminated escape in string".to_owned(),
                            reader.span(end, end),
                            Some(
                                ("string opened here".to_owned(), reader.span(opener, opener + 1)),
                            ),
                        ),
                    );
                },
            };
            if escape == 'n' {
                push_char(&mut value, '\n');
            } else if escape == 't' {
                push_char(&mut value, '\t');
            } else if escape == '\\' {
                push_char(&mut value, '\\');
            } else if escape == '"' {
                push_char(&mut value, '"');
            } else {
                let name = char_text(escape);
                return Err(
                    lex_error(
                        reader.source,
                        cat3(
                            "unknown string escape \\",
                            name.as_str(),
                            "; use \\\\ for a literal backslash",
                        ),
                        reader.span(i, i + 2),
                        Some(("string opened here".to_owned(), reader.span(opener, opener + 1))),
                    ),
                );
            }
            i = i + 2;
        } else {
            push_char(&mut value, c);
            i = i + 1;
        }
    }
}

fn skip_line(reader: &Reader, start: usize) -> (end: usize)
    requires
        reader.wf(),
        start <= reader.chars@.len(),
    ensures
        end == line_end(reader.chars@, start as int),
        start <= end <= reader.chars@.len(),
{
    let mut i: usize = start;
    while i < reader.chars.len() && reader.chars[i] != '\n'
        invariant
            start <= i <= reader.chars@.len(),
            line_end(reader.chars@, start as int) == line_end(reader.chars@, i as int),
        decreases reader.chars@.len() - i,
    {
        i = i + 1;
    }
    i
}

fn mark(c: char) -> (kind: Option<TokenKind>)
    ensures
        match (kind, mark_kind(c)) {
            (Some(kind), Some(view)) => kind@ == view,
            (None, None) => true,
            _ => false,
        },
{
    match c {
        '(' => Some(TokenKind::LParen),
        ')' => Some(TokenKind::RParen),
        '[' => Some(TokenKind::LBracket),
        ']' => Some(TokenKind::RBracket),
        '{' => Some(TokenKind::LBrace),
        '}' => Some(TokenKind::RBrace),
        '|' => Some(TokenKind::Pipe),
        '+' => Some(TokenKind::Plus),
        _ => None,
    }
}

fn word(symbol: String) -> (kind: TokenKind)
    ensures
        kind@ == word_kind(symbol@),
{
    if same_text(symbol.as_str(), "true") {
        TokenKind::Bool(true)
    } else if same_text(symbol.as_str(), "false") {
        TokenKind::Bool(false)
    } else if same_text(symbol.as_str(), "nil") {
        TokenKind::Nil
    } else {
        TokenKind::Symbol(symbol)
    }
}

/// Reads what stands at an index: nothing or a token, and where it ends.
fn read_next(reader: &Reader, i: usize) -> (next: Result<(Option<TokenKind>, usize), MagError>)
    requires
        reader.wf(),
        i < reader.chars@.len(),
    ensures
        match (next, scan(reader.source@, i as int)) {
            (Ok((None, end)), Scan::Skip(j)) => end == j && i < end <= reader.chars@.len(),
            (Ok((Some(kind), end)), Scan::Token(view, j)) => {
                &&& kind@ == view
                &&& end == j
                &&& i < end <= reader.chars@.len()
            },
            (Err(error), Scan::Fault(failure)) => error@ == failure,
            _ => false,
        },
{
    let length = reader.chars.len();
    assert(i < length);
    let c = reader.chars[i];
    if c == ' ' || c == '\t' || c == '\n' || c == '\r' || c == ',' {
        return Ok((None, i + 1));
    }
    if c == ';' {
        return Ok((None, skip_line(reader, i + 1)));
    }
    if let Some(kind) = mark(c) {
        return Ok((Some(kind), i + 1));
    }
    let next = reader.next_char(i + 1);
    if c == ':' {
        if let Some(n) = next {
            if is_symbol_start(n) {
                let (name, end) = read_symbol(reader, i + 1);
                return Ok((Some(TokenKind::Keyword(name)), end));
            }
        }
        return Ok((Some(TokenKind::Colon), i + 1));
    }
    if c == '-' {
        if let Some(n) = next {
            if n == '>' {
                return Ok((Some(TokenKind::Arrow), i + 2));
            }
            if is_digit(n) {
                let (kind, end) = read_number(reader, i + 1, true);
                return Ok((Some(kind), end));
            }
        }
        let (rest, end) = read_symbol(reader, i + 1);
        return Ok((Some(TokenKind::Symbol(cat2("-", rest.as_str()))), end));
    }
    if c == '"' {
        return match read_string(reader, i) {
            Ok((value, end)) => Ok((Some(TokenKind::Str(value)), end)),
            Err(error) => Err(error),
        };
    }
    if is_digit(c) {
        let (kind, end) = read_number(reader, i, false);
        return Ok((Some(kind), end));
    }
    if is_symbol_start(c) {
        proof {
            reveal_with_fuel(symbol_end, 2);
            lemma_symbol_end(reader.chars@, i + 1);
        }
        let (symbol, end) = read_symbol(reader, i);
        return Ok((Some(word(symbol)), end));
    }
    let name = char_text(c);
    Err(
        lex_error(
            reader.source,
            cat3("unexpected character: '", name.as_str(), "'"),
            reader.span(i, i + 1),
            None,
        ),
    )
}

proof fn lemma_symbol_end(text: Seq<char>, i: int)
    requires
        0 <= i <= text.len(),
    ensures
        i <= symbol_end(text, i) <= text.len(),
    decreases text.len() - i,
{
    if i < text.len() && symbol_char(text[i]) {
        lemma_symbol_end(text, i + 1);
    }
}

pub open spec fn lexing(result: Result<Vec<Token>, MagError>) -> Result<Seq<Lexeme>, Failure> {
    match result {
        Ok(tokens) => Ok(lexemes(tokens@)),
        Err(error) => Err(error@),
    }
}

/// The tokens of a source text.
pub fn tokenize_source(source: &SourceSnapshot) -> (tokens: Result<Vec<Token>, MagError>)
    requires
        measurable(source.text@),
    ensures
        lexing(tokens) == lexed(source@, 0),
        tokens matches Ok(list) ==> tokens_fit(list@, source.text@),
{
    let reader = Reader::new(source);
    let mut tokens: Vec<Token> = Vec::new();
    let mut i: usize = 0;
    assert(lexemes(tokens@) =~= Seq::empty());
    while i < reader.chars.len()
        invariant
            reader.wf(),
            reader.source == source,
            i <= reader.chars@.len(),
            tokens_fit(tokens@, source.text@),
            match lexed(source@, 0) {
                Ok(all) => match lexed(source@, i as int) {
                    Ok(rest) => all == lexemes(tokens@) + rest,
                    Err(_) => false,
                },
                Err(failure) => lexed(source@, i as int) == Err::<Seq<Lexeme>, Failure>(failure),
            },
        decreases reader.chars@.len() - i,
    {
        match read_next(&reader, i) {
            Err(error) => return Err(error),
            Ok((None, end)) => {
                i = end;
            },
            Ok((Some(kind), end)) => {
                let ghost before = lexemes(tokens@);
                let token = Token { kind, span: reader.span(i, end) };
                let ghost added = token@;
                tokens.push(token);
                proof {
                    assert(lexemes(tokens@) =~= before.push(added));
                    if let Ok(rest) = lexed(source@, end as int) {
                        assert(before + (seq![added] + rest) =~= before.push(added) + rest);
                    }
                }
                i = end;
            },
        }
    }
    assert(lexemes(tokens@) + Seq::<Lexeme>::empty() =~= lexemes(tokens@));
    Ok(tokens)
}

pub fn tokenize(input: &str) -> (tokens: Result<Vec<Token>, MagError>)
    requires
        measurable(input@),
    ensures
        lexing(tokens) == lexed(Source { name: "<input>"@, path: None, text: input@ }, 0),
        tokens matches Ok(list) ==> tokens_fit(list@, input@),
{
    let source = SourceSnapshot::named("<input>", input);
    tokenize_source(&source)
}

} // verus!
