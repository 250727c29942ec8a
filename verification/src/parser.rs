//! Parenthesised expressions out of tokens.

use crate::ast::{Expr, Form, form_pairs, forms};
use crate::diagnostic::{
    ByteSpan, Source, SourceSnapshot, SyntaxDiagnostic, clamped, diagnosed, measurable,
    option_note, splits_no_char,
};
use crate::error::{Failure, MagError};
use crate::lexer::{Kind, Lexeme, Token, TokenKind, lemma_whole_span, lexemes, tokens_fit};
use crate::text::{
    byte_at, byte_len, cat3, cat5, char_text, lemma_byte_len_encoding, lemma_index_of_byte,
};
use vstd::prelude::*;

verus! {

/// How deeply expressions may be nested.
pub const NESTING_LIMIT: u16 = 128;

#[derive(Clone, Copy, PartialEq, Eq, Structural)]
pub enum Delimiter {
    Paren,
    Bracket,
    Brace,
}

pub open spec fn opener_of(delimiter: Delimiter) -> char {
    match delimiter {
        Delimiter::Paren => '(',
        Delimiter::Bracket => '[',
        Delimiter::Brace => '{',
    }
}

pub open spec fn closer_of(delimiter: Delimiter) -> char {
    match delimiter {
        Delimiter::Paren => ')',
        Delimiter::Bracket => ']',
        Delimiter::Brace => '}',
    }
}

/// The character of a closing token.
pub open spec fn closing(kind: Kind) -> Option<char> {
    match kind {
        Kind::RParen => Some(')'),
        Kind::RBracket => Some(']'),
        Kind::RBrace => Some('}'),
        _ => None,
    }
}

impl Delimiter {
    pub fn open(self) -> (c: char)
        ensures
            c == opener_of(self),
    {
        match self {
            Delimiter::Paren => '(',
            Delimiter::Bracket => '[',
            Delimiter::Brace => '{',
        }
    }

    pub fn close(self) -> (c: char)
        ensures
            c == closer_of(self),
    {
        match self {
            Delimiter::Paren => ')',
            Delimiter::Bracket => ']',
            Delimiter::Brace => '}',
        }
    }

    fn matches(self, kind: &TokenKind) -> (yes: bool)
        ensures
            yes == (closing(kind@) == Some(closer_of(self))),
    {
        match (self, kind) {
            (Delimiter::Paren, TokenKind::RParen) => true,
            (Delimiter::Bracket, TokenKind::RBracket) => true,
            (Delimiter::Brace, TokenKind::RBrace) => true,
            _ => false,
        }
    }
}

fn closer(kind: &TokenKind) -> (c: Option<char>)
    ensures
        c == closing(kind@),
{
    match kind {
        TokenKind::RParen => Some(')'),
        TokenKind::RBracket => Some(']'),
        TokenKind::RBrace => Some('}'),
        _ => None,
    }
}

// ---------------------------------------------------------------------------
// What tokens stand for
// ---------------------------------------------------------------------------

pub open spec fn parse_failure(
    source: Source,
    message: Seq<char>,
    span: ByteSpan,
    related: Option<(Seq<char>, ByteSpan)>,
) -> Failure {
    Failure::Syntax(diagnosed("syntax_parse"@, "parse"@, message, source, span, related))
}

pub open spec fn unexpected_failure(source: Source, token: Lexeme) -> Failure {
    parse_failure(
        source,
        "parse: unexpected closing delimiter '"@ + seq![closing(token.kind)->0] + "'"@,
        token.span,
        None,
    )
}

pub open spec fn mismatch_failure(
    source: Source,
    token: Lexeme,
    opener: Lexeme,
    expected: Delimiter,
) -> Failure {
    parse_failure(
        source,
        "parse: mismatched closing delimiter: expected '"@ + seq![closer_of(expected)]
            + "', found '"@ + seq![closing(token.kind)->0] + "'"@,
        token.span,
        Some(("'"@ + seq![opener_of(expected)] + "' opened here"@, opener.span)),
    )
}

pub open spec fn end_span(text: Seq<char>) -> ByteSpan {
    ByteSpan { start: byte_len(text) as usize, end: byte_len(text) as usize }
}

pub open spec fn unclosed_failure(source: Source, opener: Lexeme, delimiter: Delimiter) -> Failure {
    parse_failure(
        source,
        "parse: unclosed '"@ + seq![opener_of(delimiter)] + "'"@,
        end_span(source.text),
        Some(("'"@ + seq![opener_of(delimiter)] + "' opened here"@, opener.span)),
    )
}

pub open spec fn missing_value_failure(source: Source, token: Lexeme, opener: Lexeme) -> Failure {
    parse_failure(
        source,
        "parse: map requires a value for its final key"@,
        token.span,
        Some(("map opened here"@, opener.span)),
    )
}

/// The expression that a single token makes.
pub open spec fn leaf(kind: Kind) -> Option<Form> {
    match kind {
        Kind::Arrow => Some(Form::Symbol("->"@)),
        Kind::Pipe => Some(Form::Symbol("|"@)),
        Kind::Plus => Some(Form::Symbol("+"@)),
        Kind::Colon => Some(Form::Symbol(":"@)),
        Kind::Symbol(name) => Some(Form::Symbol(name)),
        Kind::Keyword(name) => Some(Form::Keyword(name)),
        Kind::Str(value) => Some(Form::Str(value)),
        Kind::Int(value) => Some(Form::Int(value)),
        Kind::Float(notation) => Some(Form::Float(notation)),
        Kind::Bool(value) => Some(Form::Bool(value)),
        Kind::Nil => Some(Form::Nil),
        _ => None,
    }
}

/// The expression at a position, and the position behind it.
pub open spec fn form_at(tokens: Seq<Lexeme>, pos: int, depth: int, source: Source) -> Result<
    (Form, int),
    Failure,
>
    decreases NESTING_LIMIT - depth, 1int, 0int,
{
    if depth >= NESTING_LIMIT {
        Err(Failure::Parse("expression nesting limit reached"@))
    } else if pos < 0 || pos >= tokens.len() {
        Err(Failure::Parse("unexpected end of input"@))
    } else if tokens[pos].kind is LParen {
        match items_at(tokens, pos + 1, depth, source, pos, Delimiter::Paren, Seq::empty()) {
            Ok((items, next)) => Ok((Form::List(items), next)),
            Err(failure) => Err(failure),
        }
    } else if tokens[pos].kind is LBracket {
        match items_at(tokens, pos + 1, depth, source, pos, Delimiter::Bracket, Seq::empty()) {
            Ok((items, next)) => Ok((Form::Vector(items), next)),
            Err(failure) => Err(failure),
        }
    } else if tokens[pos].kind is LBrace {
        match pairs_at(tokens, pos + 1, depth, source, pos, Seq::empty()) {
            Ok((pairs, next)) => Ok((Form::MapOf(pairs), next)),
            Err(failure) => Err(failure),
        }
    } else if closing(tokens[pos].kind) is Some {
        Err(unexpected_failure(source, tokens[pos]))
    } else {
        Ok((leaf(tokens[pos].kind)->0, pos + 1))
    }
}

/// The items from a position up to the closing delimiter, behind earlier ones.
pub open spec fn items_at(
    tokens: Seq<Lexeme>,
    pos: int,
    depth: int,
    source: Source,
    opener: int,
    delimiter: Delimiter,
    items: Seq<Form>,
) -> Result<(Seq<Form>, int), Failure>
    decreases NESTING_LIMIT - depth, 0int, tokens.len() - pos,
{
    if depth >= NESTING_LIMIT || pos < 0 || pos >= tokens.len() {
        Err(unclosed_failure(source, tokens[opener], delimiter))
    } else if closing(tokens[pos].kind) == Some(closer_of(delimiter)) {
        Ok((items, pos + 1))
    } else if closing(tokens[pos].kind) is Some {
        Err(mismatch_failure(source, tokens[pos], tokens[opener], delimiter))
    } else {
        match form_at(tokens, pos, depth + 1, source) {
            Err(failure) => Err(failure),
            Ok((item, next)) => if pos < next <= tokens.len() {
                items_at(tokens, next, depth, source, opener, delimiter, items.push(item))
            } else {
                Ok((items, next))
            },
        }
    }
}

/// The key and value pairs from a position up to the closing brace.
pub open spec fn pairs_at(
    tokens: Seq<Lexeme>,
    pos: int,
    depth: int,
    source: Source,
    opener: int,
    pairs: Seq<(Form, Form)>,
) -> Result<(Seq<(Form, Form)>, int), Failure>
    decreases NESTING_LIMIT - depth, 0int, tokens.len() - pos,
{
    let brace = Delimiter::Brace;
    if depth >= NESTING_LIMIT || pos < 0 || pos >= tokens.len() {
        Err(unclosed_failure(source, tokens[opener], brace))
    } else if tokens[pos].kind is RBrace {
        Ok((pairs, pos + 1))
    } else if closing(tokens[pos].kind) is Some {
        Err(mismatch_failure(source, tokens[pos], tokens[opener], brace))
    } else {
        match form_at(tokens, pos, depth + 1, source) {
            Err(failure) => Err(failure),
            Ok((key, mid)) => if mid >= tokens.len() {
                Err(unclosed_failure(source, tokens[opener], brace))
            } else if tokens[mid].kind is RBrace {
                Err(missing_value_failure(source, tokens[mid], tokens[opener]))
            } else if closing(tokens[mid].kind) is Some {
                Err(mismatch_failure(source, tokens[mid], tokens[opener], brace))
            } else {
                match form_at(tokens, mid, depth + 1, source) {
                    Err(failure) => Err(failure),
                    Ok((value, next)) => if pos < next <= tokens.len() {
                        pairs_at(tokens, next, depth, source, opener, pairs.push((key, value)))
                    } else {
                        Ok((pairs, next))
                    },
                }
            },
        }
    }
}

/// The expressions from a position on, behind earlier ones.
pub open spec fn forms_at(tokens: Seq<Lexeme>, pos: int, source: Source, earlier: Seq<Form>) -> Result<
    Seq<Form>,
    Failure,
>
    decreases tokens.len() - pos,
{
    if pos < 0 || pos >= tokens.len() {
        Ok(earlier)
    } else {
        match form_at(tokens, pos, 0, source) {
            Err(failure) => Err(failure),
            Ok((form, next)) => if pos < next <= tokens.len() {
                forms_at(tokens, next, source, earlier.push(form))
            } else {
                Ok(earlier)
            },
        }
    }
}

/// What a diagnostic points at splits no character.
pub open spec fn points_well<T>(outcome: Result<T, Failure>, text: Seq<char>) -> bool {
    outcome matches Err(Failure::Syntax(diagnostic)) ==> {
        &&& splits_no_char(text, diagnostic.span)
        &&& diagnostic.related matches Some(note) ==> splits_no_char(text, note.span)
    }
}

/// The spans of tokens split no character.
pub open spec fn spans_fit(tokens: Seq<Lexeme>, text: Seq<char>) -> bool {
    forall|i: int| 0 <= i < tokens.len() ==> splits_no_char(text, (#[trigger] tokens[i]).span)
}

/// A span is forced into a text once and for all.
proof fn lemma_clamped_twice(text: Seq<char>, span: ByteSpan)
    requires
        measurable(text),
    ensures
        clamped(text, clamped(text, span)) == clamped(text, span),
        splits_no_char(text, clamped(text, span)) == splits_no_char(text, span),
{
}

proof fn lemma_end_fits(text: Seq<char>)
    requires
        measurable(text),
    ensures
        splits_no_char(text, end_span(text)),
{
    lemma_byte_len_encoding(text);
    lemma_whole_span(text, text.len() as int, text.len() as int);
}

proof fn lemma_forms_point_well(tokens: Seq<Lexeme>, pos: int, depth: int, source: Source)
    requires
        measurable(source.text),
        spans_fit(tokens, source.text),
    ensures
        points_well(form_at(tokens, pos, depth, source), source.text),
    decreases NESTING_LIMIT - depth, 1int, 0int,
{
    if depth < NESTING_LIMIT && 0 <= pos < tokens.len() {
        if tokens[pos].kind is LParen {
            lemma_items_point_well(
                tokens,
                pos + 1,
                depth,
                source,
                pos,
                Delimiter::Paren,
                Seq::empty(),
            );
        } else if tokens[pos].kind is LBracket {
            lemma_items_point_well(
                tokens,
                pos + 1,
                depth,
                source,
                pos,
                Delimiter::Bracket,
                Seq::empty(),
            );
        } else if tokens[pos].kind is LBrace {
            lemma_pairs_point_well(tokens, pos + 1, depth, source, pos, Seq::empty());
        } else {
            lemma_clamped_twice(source.text, tokens[pos].span);
        }
    }
}

proof fn lemma_items_point_well(
    tokens: Seq<Lexeme>,
    pos: int,
    depth: int,
    source: Source,
    opener: int,
    delimiter: Delimiter,
    items: Seq<Form>,
)
    requires
        measurable(source.text),
        spans_fit(tokens, source.text),
        0 <= opener < tokens.len(),
    ensures
        points_well(
            items_at(tokens, pos, depth, source, opener, delimiter, items),
            source.text,
        ),
    decreases NESTING_LIMIT - depth, 0int, tokens.len() - pos,
{
    lemma_clamped_twice(source.text, tokens[opener].span);
    lemma_clamped_twice(source.text, end_span(source.text));
    lemma_end_fits(source.text);
    if depth < NESTING_LIMIT && 0 <= pos < tokens.len() {
        lemma_clamped_twice(source.text, tokens[pos].span);
        if closing(tokens[pos].kind) is None {
            lemma_forms_point_well(tokens, pos, depth + 1, source);
            if let Ok((item, next)) = form_at(tokens, pos, depth + 1, source) {
                if pos < next <= tokens.len() {
                    lemma_items_point_well(
                        tokens,
                        next,
                        depth,
                        source,
                        opener,
                        delimiter,
                        items.push(item),
                    );
                }
            }
        }
    }
}

proof fn lemma_pairs_point_well(
    tokens: Seq<Lexeme>,
    pos: int,
    depth: int,
    source: Source,
    opener: int,
    pairs: Seq<(Form, Form)>,
)
    requires
        measurable(source.text),
        spans_fit(tokens, source.text),
        0 <= opener < tokens.len(),
    ensures
        points_well(pairs_at(tokens, pos, depth, source, opener, pairs), source.text),
    decreases NESTING_LIMIT - depth, 0int, tokens.len() - pos,
{
    lemma_clamped_twice(source.text, tokens[opener].span);
    lemma_clamped_twice(source.text, end_span(source.text));
    lemma_end_fits(source.text);
    if depth < NESTING_LIMIT && 0 <= pos < tokens.len() {
        lemma_clamped_twice(source.text, tokens[pos].span);
        if closing(tokens[pos].kind) is None {
            lemma_forms_point_well(tokens, pos, depth + 1, source);
            if let Ok((key, mid)) = form_at(tokens, pos, depth + 1, source) {
                if mid < tokens.len() {
                    lemma_position_grows(tokens, pos, depth + 1, source);
                    lemma_clamped_twice(source.text, tokens[mid].span);
                    if closing(tokens[mid].kind) is None {
                        lemma_forms_point_well(tokens, mid, depth + 1, source);
                        if let Ok((value, next)) = form_at(tokens, mid, depth + 1, source) {
                            if pos < next <= tokens.len() {
                                lemma_pairs_point_well(
                                    tokens,
                                    next,
                                    depth,
                                    source,
                                    opener,
                                    pairs.push((key, value)),
                                );
                            }
                        }
                    }
                }
            }
        }
    }
}

/// The position behind an expression is one that follows it.
proof fn lemma_position_grows(tokens: Seq<Lexeme>, pos: int, depth: int, source: Source)
    ensures
        form_at(tokens, pos, depth, source) matches Ok((_, next)) ==> 0 <= pos < next,
    decreases NESTING_LIMIT - depth, 1int, 0int,
{
    if depth < NESTING_LIMIT && 0 <= pos < tokens.len() {
        if tokens[pos].kind is LParen {
            lemma_items_grow(tokens, pos + 1, depth, source, pos, Delimiter::Paren, Seq::empty());
        } else if tokens[pos].kind is LBracket {
            lemma_items_grow(
                tokens,
                pos + 1,
                depth,
                source,
                pos,
                Delimiter::Bracket,
                Seq::empty(),
            );
        } else if tokens[pos].kind is LBrace {
            lemma_pairs_grow(tokens, pos + 1, depth, source, pos, Seq::empty());
        }
    }
}

proof fn lemma_items_grow(
    tokens: Seq<Lexeme>,
    pos: int,
    depth: int,
    source: Source,
    opener: int,
    delimiter: Delimiter,
    items: Seq<Form>,
)
    requires
        0 <= pos,
    ensures
        items_at(tokens, pos, depth, source, opener, delimiter, items) matches Ok((_, next)) ==> pos
            < next,
    decreases NESTING_LIMIT - depth, 0int, tokens.len() - pos,
{
    if depth < NESTING_LIMIT && pos < tokens.len() && closing(tokens[pos].kind) is None {
        lemma_position_grows(tokens, pos, depth + 1, source);
        if let Ok((item, next)) = form_at(tokens, pos, depth + 1, source) {
            if pos < next <= tokens.len() {
                lemma_items_grow(tokens, next, depth, source, opener, delimiter, items.push(item));
            }
        }
    }
}

proof fn lemma_pairs_grow(
    tokens: Seq<Lexeme>,
    pos: int,
    depth: int,
    source: Source,
    opener: int,
    pairs: Seq<(Form, Form)>,
)
    requires
        0 <= pos,
    ensures
        pairs_at(tokens, pos, depth, source, opener, pairs) matches Ok((_, next)) ==> pos < next,
    decreases NESTING_LIMIT - depth, 0int, tokens.len() - pos,
{
    if depth < NESTING_LIMIT && pos < tokens.len() && closing(tokens[pos].kind) is None {
        lemma_position_grows(tokens, pos, depth + 1, source);
        if let Ok((key, mid)) = form_at(tokens, pos, depth + 1, source) {
            if mid < tokens.len() && closing(tokens[mid].kind) is None {
                lemma_position_grows(tokens, mid, depth + 1, source);
                if let Ok((value, next)) = form_at(tokens, mid, depth + 1, source) {
                    if pos < next <= tokens.len() {
                        lemma_pairs_grow(
                            tokens,
                            next,
                            depth,
                            source,
                            opener,
                            pairs.push((key, value)),
                        );
                    }
                }
            }
        }
    }
}

/// Where the spans of all tokens fit, every diagnostic points well.
pub proof fn lemma_fitting_tokens_point_well(
    tokens: Seq<Lexeme>,
    pos: int,
    source: Source,
    earlier: Seq<Form>,
)
    requires
        measurable(source.text),
        spans_fit(tokens, source.text),
    ensures
        points_well(forms_at(tokens, pos, source, earlier), source.text),
    decreases tokens.len() - pos,
{
    if 0 <= pos < tokens.len() {
        lemma_forms_point_well(tokens, pos, 0, source);
        if let Ok((form, next)) = form_at(tokens, pos, 0, source) {
            if pos < next <= tokens.len() {
                lemma_fitting_tokens_point_well(tokens, next, source, earlier.push(form));
            }
        }
    }
}

// ---------------------------------------------------------------------------
// Parsing
// ---------------------------------------------------------------------------

fn syntax(
    source: &SourceSnapshot,
    message: String,
    span: ByteSpan,
    related: Option<(String, ByteSpan)>,
) -> (error: MagError)
    requires
        measurable(source.text@),
        splits_no_char(source.text@, span),
        related matches Some(note) ==> splits_no_char(source.text@, note.1),
    ensures
        error@ == parse_failure(source@, message@, span, option_note(related)),
{
    MagError::Syntax(
        Box::new(
            SyntaxDiagnostic::new("syntax_parse", "parse", message, source, span, related),
        ),
    )
}

fn unexpected_closer(source: &SourceSnapshot, token: &Token) -> (error: MagError)
    requires
        measurable(source.text@),
        splits_no_char(source.text@, token.span),
        closing(token.kind@) is Some,
    ensures
        error@ == unexpected_failure(source@, token@),
{
    let found = char_text(closer(&token.kind).unwrap());
    syntax(
        source,
        cat3("parse: unexpected closing delimiter '", found.as_str(), "'"),
        token.span,
        None,
    )
}

fn mismatched(
    source: &SourceSnapshot,
    token: &Token,
    opener: &Token,
    expected: Delimiter,
) -> (error: MagError)
    requires
        measurable(source.text@),
        splits_no_char(source.text@, token.span),
        splits_no_char(source.text@, opener.span),
        closing(token.kind@) is Some,
    ensures
        error@ == mismatch_failure(source@, token@, opener@, expected),
{
    let found = char_text(closer(&token.kind).unwrap());
    let wanted = char_text(expected.close());
    let opening = char_text(expected.open());
    syntax(
        source,
        cat5(
            "parse: mismatched closing delimiter: expected '",
            wanted.as_str(),
            "', found '",
            found.as_str(),
            "'",
        ),
        token.span,
        Some((cat3("'", opening.as_str(), "' opened here"), opener.span)),
    )
}

fn unclosed(source: &SourceSnapshot, opener: &Token, delimiter: Delimiter) -> (error: MagError)
    requires
        measurable(source.text@),
        splits_no_char(source.text@, opener.span),
    ensures
        error@ == unclosed_failure(source@, opener@, delimiter),
{
    let length: usize = source.text.as_str().as_bytes().len();
    proof {
        lemma_byte_len_encoding(source.text@);
        lemma_whole_span(source.text@, source.text@.len() as int, source.text@.len() as int);
    }
    let eof = ByteSpan::new(length, length);
    let opening = char_text(delimiter.open());
    syntax(
        source,
        cat3("parse: unclosed '", opening.as_str(), "'"),
        eof,
        Some((cat3("'", opening.as_str(), "' opened here"), opener.span)),
    )
}

fn single(kind: &TokenKind) -> (expr: Option<Expr>)
    ensures
        match (expr, leaf(kind@)) {
            (Some(expr), Some(form)) => expr@ == form,
            (None, None) => true,
            _ => false,
        },
{
    match kind {
        TokenKind::Arrow => Some(Expr::Symbol("->".to_owned())),
        TokenKind::Pipe => Some(Expr::Symbol("|".to_owned())),
        TokenKind::Plus => Some(Expr::Symbol("+".to_owned())),
        TokenKind::Colon => Some(Expr::Symbol(":".to_owned())),
        TokenKind::Symbol(name) => Some(Expr::Symbol(name.clone())),
        TokenKind::Keyword(name) => Some(Expr::Keyword(name.clone())),
        TokenKind::Str(value) => Some(Expr::Str(value.clone())),
        TokenKind::Int(value) => Some(Expr::Int(*value)),
        TokenKind::Float(notation) => Some(Expr::Float(notation.clone())),
        TokenKind::Bool(value) => Some(Expr::Bool(*value)),
        TokenKind::Nil => Some(Expr::Nil),
        _ => None,
    }
}

fn parse_expr(tokens: &[Token], pos: usize, depth: u16, source: &SourceSnapshot) -> (parsed: Result<
    (Expr, usize),
    MagError,
>)
    requires
        depth <= NESTING_LIMIT,
        measurable(source.text@),
        points_well(
            form_at(lexemes(tokens@), pos as int, depth as int, source@),
            source.text@,
        ),
    ensures
        match (parsed, form_at(lexemes(tokens@), pos as int, depth as int, source@)) {
            (Ok((expr, next)), Ok((form, end))) => {
                &&& expr@ == form
                &&& next == end
                &&& pos < next <= tokens@.len()
            },
            (Err(error), Err(failure)) => error@ == failure,
            _ => false,
        },
    decreases NESTING_LIMIT - depth, 1int,
{
    if depth >= NESTING_LIMIT {
        return Err(MagError::Parse("expression nesting limit reached".to_owned()));
    }
    if pos >= tokens.len() {
        return Err(MagError::Parse("unexpected end of input".to_owned()));
    }
    let token = &tokens[pos];
    assert(lexemes(tokens@)[pos as int] == token@);
    match &token.kind {
        TokenKind::LParen => match parse_collection(tokens, pos, depth, source, Delimiter::Paren) {
            Ok((items, next)) => Ok((Expr::List(items), next)),
            Err(error) => Err(error),
        },
        TokenKind::LBracket => match parse_collection(
            tokens,
            pos,
            depth,
            source,
            Delimiter::Bracket,
        ) {
            Ok((items, next)) => Ok((Expr::Vector(items), next)),
            Err(error) => Err(error),
        },
        TokenKind::LBrace => match parse_map(tokens, pos, depth, source) {
            Ok((pairs, next)) => Ok((Expr::MapOf(pairs), next)),
            Err(error) => Err(error),
        },
        kind => match single(kind) {
            Some(expr) => Ok((expr, pos + 1)),
            None => {
                proof {
                    lemma_clamped_twice(source.text@, token.span);
                }
                Err(unexpected_closer(source, token))
            },
        },
    }
}

fn parse_collection(
    tokens: &[Token],
    opener_pos: usize,
    depth: u16,
    source: &SourceSnapshot,
    delimiter: Delimiter,
) -> (parsed: Result<(Vec<Expr>, usize), MagError>)
    requires
        depth < NESTING_LIMIT,
        opener_pos < tokens@.len(),
        measurable(source.text@),
        points_well(
            items_at(
                lexemes(tokens@),
                opener_pos + 1,
                depth as int,
                source@,
                opener_pos as int,
                delimiter,
                Seq::empty(),
            ),
            source.text@,
        ),
    ensures
        match (
            parsed,
            items_at(
                lexemes(tokens@),
                opener_pos + 1,
                depth as int,
                source@,
                opener_pos as int,
                delimiter,
                Seq::empty(),
            ),
        ) {
            (Ok((items, next)), Ok((view, end))) => {
                &&& forms(items@) == view
                &&& next == end
                &&& opener_pos < next <= tokens@.len()
            },
            (Err(error), Err(failure)) => error@ == failure,
            _ => false,
        },
    decreases NESTING_LIMIT - depth, 0int,
{
    let opener = &tokens[opener_pos];
    let ghost all = lexemes(tokens@);
    assert(all[opener_pos as int] == opener@);
    let mut items: Vec<Expr> = Vec::new();
    assert(forms(items@) =~= Seq::empty());
    let mut pos: usize = opener_pos + 1;
    while pos < tokens.len()
        invariant
            depth < NESTING_LIMIT,
            opener_pos < pos <= tokens@.len(),
            measurable(source.text@),
            points_well(
                items_at(
                    all,
                    opener_pos + 1,
                    depth as int,
                    source@,
                    opener_pos as int,
                    delimiter,
                    Seq::empty(),
                ),
                source.text@,
            ),
            all == lexemes(tokens@),
            *opener == tokens@[opener_pos as int],
            items_at(
                all,
                opener_pos + 1,
                depth as int,
                source@,
                opener_pos as int,
                delimiter,
                Seq::empty(),
            ) == items_at(
                all,
                pos as int,
                depth as int,
                source@,
                opener_pos as int,
                delimiter,
                forms(items@),
            ),
        decreases tokens@.len() - pos,
    {
        let token = &tokens[pos];
        assert(all[pos as int] == token@);
        assert(all[opener_pos as int] == opener@);
        if delimiter.matches(&token.kind) {
            return Ok((items, pos + 1));
        }
        if closer(&token.kind).is_some() {
            proof {
                lemma_clamped_twice(source.text@, token.span);
                lemma_clamped_twice(source.text@, opener.span);
            }
            return Err(mismatched(source, token, opener, delimiter));
        }
        match parse_expr(tokens, pos, depth + 1, source) {
            Err(error) => return Err(error),
            Ok((expr, next)) => {
                let ghost before = forms(items@);
                let ghost added = expr@;
                items.push(expr);
                assert(forms(items@) =~= before.push(added));
                pos = next;
            },
        }
    }
    proof {
        lemma_clamped_twice(source.text@, opener.span);
    }
    Err(unclosed(source, opener, delimiter))
}

fn parse_map(tokens: &[Token], opener_pos: usize, depth: u16, source: &SourceSnapshot) -> (parsed:
    Result<(Vec<(Expr, Expr)>, usize), MagError>)
    requires
        depth < NESTING_LIMIT,
        opener_pos < tokens@.len(),
        measurable(source.text@),
        points_well(
            pairs_at(
                lexemes(tokens@),
                opener_pos + 1,
                depth as int,
                source@,
                opener_pos as int,
                Seq::empty(),
            ),
            source.text@,
        ),
    ensures
        match (
            parsed,
            pairs_at(
                lexemes(tokens@),
                opener_pos + 1,
                depth as int,
                source@,
                opener_pos as int,
                Seq::empty(),
            ),
        ) {
            (Ok((pairs, next)), Ok((view, end))) => {
                &&& form_pairs(pairs@) == view
                &&& next == end
                &&& opener_pos < next <= tokens@.len()
            },
            (Err(error), Err(failure)) => error@ == failure,
            _ => false,
        },
    decreases NESTING_LIMIT - depth, 0int,
{
    let opener = &tokens[opener_pos];
    let ghost all = lexemes(tokens@);
    let mut pairs: Vec<(Expr, Expr)> = Vec::new();
    assert(form_pairs(pairs@) =~= Seq::empty());
    let mut pos: usize = opener_pos + 1;
    while pos < tokens.len()
        invariant
            depth < NESTING_LIMIT,
            opener_pos < pos <= tokens@.len(),
            measurable(source.text@),
            points_well(
                pairs_at(
                    all,
                    opener_pos + 1,
                    depth as int,
                    source@,
                    opener_pos as int,
                    Seq::empty(),
                ),
                source.text@,
            ),
            all == lexemes(tokens@),
            *opener == tokens@[opener_pos as int],
            pairs_at(
                all,
                opener_pos + 1,
                depth as int,
                source@,
                opener_pos as int,
                Seq::empty(),
            ) == pairs_at(
                all,
                pos as int,
                depth as int,
                source@,
                opener_pos as int,
                form_pairs(pairs@),
            ),
        decreases tokens@.len() - pos,
    {
        let token = &tokens[pos];
        assert(all[pos as int] == token@);
        assert(all[opener_pos as int] == opener@);
        if Delimiter::Brace.matches(&token.kind) {
            return Ok((pairs, pos + 1));
        }
        if closer(&token.kind).is_some() {
            proof {
                lemma_clamped_twice(source.text@, token.span);
                lemma_clamped_twice(source.text@, opener.span);
            }
            return Err(mismatched(source, token, opener, Delimiter::Brace));
        }
        let (key, mid) = match parse_expr(tokens, pos, depth + 1, source) {
            Err(error) => return Err(error),
            Ok(parsed) => parsed,
        };
        proof {
            lemma_clamped_twice(source.text@, opener.span);
        }
        if mid >= tokens.len() {
            return Err(unclosed(source, opener, Delimiter::Brace));
        }
        let middle = &tokens[mid];
        assert(all[mid as int] == middle@);
        proof {
            lemma_clamped_twice(source.text@, middle.span);
        }
        if Delimiter::Brace.matches(&middle.kind) {
            return Err(
                syntax(
                    source,
                    "parse: map requires a value for its final key".to_owned(),
                    middle.span,
                    Some(("map opened here".to_owned(), opener.span)),
                ),
            );
        }
        if closer(&middle.kind).is_some() {
            return Err(mismatched(source, middle, opener, Delimiter::Brace));
        }
        match parse_expr(tokens, mid, depth + 1, source) {
            Err(error) => return Err(error),
            Ok((value, next)) => {
                let ghost before = form_pairs(pairs@);
                let ghost added = (key@, value@);
                pairs.push((key, value));
                assert(form_pairs(pairs@) =~= before.push(added));
                pos = next;
            },
        }
    }
    assert(all[opener_pos as int] == opener@);
    proof {
        lemma_clamped_twice(source.text@, opener.span);
    }
    Err(unclosed(source, opener, Delimiter::Brace))
}

pub open spec fn parsing(result: Result<Vec<Expr>, MagError>) -> Result<Seq<Form>, Failure> {
    match result {
        Ok(exprs) => Ok(forms(exprs@)),
        Err(error) => Err(error@),
    }
}

/// The expressions that tokens of a source stand for. The spans that a diagnostic points at
/// have to split no character.
pub fn parse_source(tokens: &[Token], source: &SourceSnapshot) -> (exprs: Result<Vec<Expr>, MagError>)
    requires
        measurable(source.text@),
        tokens_fit(tokens@, source.text@) || points_well(
            forms_at(lexemes(tokens@), 0, source@, Seq::empty()),
            source.text@,
        ),
    ensures
        parsing(exprs) == forms_at(lexemes(tokens@), 0, source@, Seq::empty()),
{
    let ghost all = lexemes(tokens@);
    proof {
        if tokens_fit(tokens@, source.text@) {
            assert forall|i: int| 0 <= i < all.len() implies splits_no_char(
                source.text@,
                (#[trigger] all[i]).span,
            ) by {
                assert(splits_no_char(source.text@, tokens@[i].span));
            }
            lemma_fitting_tokens_point_well(all, 0, source@, Seq::empty());
        }
    }
    let mut exprs: Vec<Expr> = Vec::new();
    assert(forms(exprs@) =~= Seq::empty());
    let mut pos: usize = 0;
    while pos < tokens.len()
        invariant
            pos <= tokens@.len(),
            measurable(source.text@),
            points_well(forms_at(all, 0, source@, Seq::empty()), source.text@),
            all == lexemes(tokens@),
            forms_at(all, 0, source@, Seq::empty()) == forms_at(
                all,
                pos as int,
                source@,
                forms(exprs@),
            ),
        decreases tokens@.len() - pos,
    {
        match parse_expr(tokens, pos, 0, source) {
            Err(error) => return Err(error),
            Ok((expr, next)) => {
                let ghost before = forms(exprs@);
                let ghost added = expr@;
                exprs.push(expr);
                assert(forms(exprs@) =~= before.push(added));
                pos = next;
            },
        }
    }
    Ok(exprs)
}

/// The expressions that tokens stand for; faults are reported without a source.
pub fn parse(tokens: &[Token]) -> (exprs: Result<Vec<Expr>, MagError>)
    ensures
        parsing(exprs) == forms_at(
            lexemes(tokens@),
            0,
            Source { name: "<input>"@, path: None, text: Seq::empty() },
            Seq::empty(),
        ),
{
    let source = SourceSnapshot::named("<input>", "");
    proof {
        reveal_strlit("");
        assert(source.text@ =~= Seq::empty());
        let text = source.text@;
        assert(byte_at(text, 0) == 0);
        assert forall|i: int| 0 <= i < tokens@.len() implies splits_no_char(
            text,
            (#[trigger] tokens@[i]).span,
        ) by {
            lemma_index_of_byte(text, 0);
        }
    }
    parse_source(tokens, &source)
}

} // verus!
