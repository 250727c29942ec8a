//! Source locations and the diagnostics that point at them.

use crate::text::{
    byte_at, byte_len, cat2, cat3, cat5, char_bytes, char_text, count_text, decimal,
    index_of_byte, is_boundary, lemma_byte_at_bounds, lemma_byte_at_increases,
    lemma_byte_len_encoding, push_char, text_chars,
};
use vstd::prelude::*;
use vstd::string::*;

verus! {

/// A half-open range of byte offsets.
#[derive(Debug, Clone, Copy, PartialEq, Eq, Structural)]
pub struct ByteSpan {
    pub start: usize,
    pub end: usize,
}

impl ByteSpan {
    pub fn new(start: usize, end: usize) -> (span: Self)
        ensures
            span.start == start,
            span.end == end,
    {
        ByteSpan { start, end }
    }
}

/// A named text that diagnostics quote from.
#[derive(Debug)]
pub struct SourceSnapshot {
    pub name: String,
    pub path: Option<String>,
    pub text: String,
}

/// The contents of a snapshot.
pub ghost struct Source {
    pub name: Seq<char>,
    pub path: Option<Seq<char>>,
    pub text: Seq<char>,
}

/// The view of an optional text.
pub open spec fn option_text(text: Option<String>) -> Option<Seq<char>> {
    match text {
        Some(text) => Some(text@),
        None => None,
    }
}

impl SourceSnapshot {
    pub open spec fn view(&self) -> Source {
        Source { name: self.name@, path: option_text(self.path), text: self.text@ }
    }

    pub fn named(name: &str, text: &str) -> (snapshot: Self)
        ensures
            snapshot@ == (Source { name: name@, path: None, text: text@ }),
    {
        SourceSnapshot { name: name.to_owned(), path: None, text: text.to_owned() }
    }

    /// A snapshot of a file, given its displayed path.
    pub fn file(path: &str, text: &str) -> (snapshot: Self)
        ensures
            snapshot@ == (Source { name: path@, path: Some(path@), text: text@ }),
    {
        SourceSnapshot {
            name: path.to_owned(),
            path: Some(path.to_owned()),
            text: text.to_owned(),
        }
    }
}

/// A place in a text: byte offset, and line and columns counted from one.
#[derive(Debug, PartialEq, Eq)]
pub struct Position {
    pub byte: usize,
    pub line: usize,
    pub column: usize,
    pub display_column: usize,
}

pub ghost struct Place {
    pub byte: nat,
    pub line: nat,
    pub column: nat,
    pub display_column: nat,
}

impl Position {
    pub open spec fn view(&self) -> Place {
        Place {
            byte: self.byte as nat,
            line: self.line as nat,
            column: self.column as nat,
            display_column: self.display_column as nat,
        }
    }
}

#[derive(Debug, PartialEq, Eq)]
pub struct LocatedSpan {
    pub start: Position,
    pub end: Position,
}

pub ghost struct PlacedSpan {
    pub start: Place,
    pub end: Place,
}

impl LocatedSpan {
    pub open spec fn view(&self) -> PlacedSpan {
        PlacedSpan { start: self.start@, end: self.end@ }
    }
}

#[derive(Debug)]
pub struct RelatedDiagnostic {
    pub message: String,
    pub span: ByteSpan,
    pub location: LocatedSpan,
}

pub ghost struct Related {
    pub message: Seq<char>,
    pub span: ByteSpan,
    pub location: PlacedSpan,
}

impl RelatedDiagnostic {
    pub open spec fn view(&self) -> Related {
        Related { message: self.message@, span: self.span, location: self.location@ }
    }
}

/// A located report of malformed source text.
#[derive(Debug)]
pub struct SyntaxDiagnostic {
    pub code: String,
    pub stage: String,
    pub message: String,
    pub source_name: String,
    pub path: Option<String>,
    pub source: String,
    pub span: ByteSpan,
    pub location: LocatedSpan,
    pub excerpt: String,
    pub caret: String,
    pub related: Option<RelatedDiagnostic>,
}

pub ghost struct Diagnostic {
    pub code: Seq<char>,
    pub stage: Seq<char>,
    pub message: Seq<char>,
    pub source: Source,
    pub span: ByteSpan,
    pub location: PlacedSpan,
    pub excerpt: Seq<char>,
    pub caret: Seq<char>,
    pub related: Option<Related>,
}

impl SyntaxDiagnostic {
    pub open spec fn view(&self) -> Diagnostic {
        Diagnostic {
            code: self.code@,
            stage: self.stage@,
            message: self.message@,
            source: Source {
                name: self.source_name@,
                path: option_text(self.path),
                text: self.source@,
            },
            span: self.span,
            location: self.location@,
            excerpt: self.excerpt@,
            caret: self.caret@,
            related: match self.related {
                Some(related) => Some(related@),
                None => None,
            },
        }
    }
}

/// Texts whose offsets and display columns fit in a machine word.
pub open spec fn measurable(text: Seq<char>) -> bool {
    4 * byte_len(text) + 4 <= usize::MAX
}

/// The number of line feeds in a text.
pub open spec fn line_feeds(text: Seq<char>) -> nat
    decreases text.len(),
{
    if text.len() == 0 {
        0
    } else {
        line_feeds(text.drop_last()) + if text.last() == '\n' {
            1nat
        } else {
            0nat
        }
    }
}

/// What follows the last line feed of a text.
pub open spec fn last_line(text: Seq<char>) -> Seq<char>
    decreases text.len(),
{
    if text.len() == 0 || text.last() == '\n' {
        Seq::empty()
    } else {
        last_line(text.drop_last()).push(text.last())
    }
}

/// What precedes the first line feed of a text.
pub open spec fn first_line(text: Seq<char>) -> Seq<char>
    decreases text.len(),
{
    if text.len() == 0 || text[0] == '\n' {
        Seq::empty()
    } else {
        seq![text[0]] + first_line(text.drop_first())
    }
}

/// The display column behind a character that stands at a column; tab stops are
/// four columns apart.
pub open spec fn next_column(column: nat, ch: char) -> nat {
    if ch == '\t' {
        ((column - 1) / 4 + 1) as nat * 4 + 1
    } else {
        column + 1
    }
}

/// The display column behind a line.
pub open spec fn end_column(line: Seq<char>) -> nat
    decreases line.len(),
{
    if line.len() == 0 {
        1
    } else {
        next_column(end_column(line.drop_last()), line.last())
    }
}

/// The place of a byte offset.
pub open spec fn place(text: Seq<char>, byte: int) -> Place {
    let before = text.take(index_of_byte(text, byte));
    Place {
        byte: byte as nat,
        line: line_feeds(before) + 1,
        column: last_line(before).len() + 1,
        display_column: end_column(last_line(before)),
    }
}

pub open spec fn located(text: Seq<char>, span: ByteSpan) -> PlacedSpan {
    PlacedSpan { start: place(text, span.start as int), end: place(text, span.end as int) }
}

/// A span forced into a text, with its end no earlier than its start.
pub open spec fn clamped(text: Seq<char>, span: ByteSpan) -> ByteSpan {
    let length = byte_len(text);
    let end = if span.end < span.start { span.start } else { span.end };
    ByteSpan {
        start: if span.start < length { span.start } else { length as usize },
        end: if end < length { end } else { length as usize },
    }
}

/// A span that splits no character once it is forced into the text.
pub open spec fn splits_no_char(text: Seq<char>, span: ByteSpan) -> bool {
    &&& is_boundary(text, clamped(text, span).start as int)
    &&& is_boundary(text, clamped(text, span).end as int)
}

/// A line without carriage returns at its end.
pub open spec fn without_returns(line: Seq<char>) -> Seq<char>
    decreases line.len(),
{
    if line.len() > 0 && line.last() == '\r' {
        without_returns(line.drop_last())
    } else {
        line
    }
}

/// A line with each tab written as four spaces.
pub open spec fn detabbed(line: Seq<char>) -> Seq<char>
    decreases line.len(),
{
    if line.len() == 0 {
        Seq::empty()
    } else {
        detabbed(line.drop_last()) + if line.last() == '\t' {
            seq![' ', ' ', ' ', ' ']
        } else {
            seq![line.last()]
        }
    }
}

/// The line that a byte offset stands on, as it is quoted.
pub open spec fn quoted_line(text: Seq<char>, byte: int) -> Seq<char> {
    let i = index_of_byte(text, byte);
    detabbed(without_returns(last_line(text.take(i)) + first_line(text.skip(i))))
}

pub open spec fn repeated(ch: char, n: nat) -> Seq<char> {
    Seq::new(n, |i: int| ch)
}

/// The marker under a quoted line: at least one caret, and one only where the
/// span is empty or runs over a line end.
pub open spec fn marker(span: ByteSpan, location: PlacedSpan) -> Seq<char> {
    let width: int = if span.end == span.start || location.end.line != location.start.line
        || location.end.display_column <= location.start.display_column {
        1
    } else {
        location.end.display_column - location.start.display_column
    };
    repeated(' ', (location.start.display_column - 1) as nat) + repeated('^', width as nat)
}

pub open spec fn related_to(text: Seq<char>, related: Option<(Seq<char>, ByteSpan)>) -> Option<
    Related,
> {
    match related {
        Some((message, span)) => Some(
            Related {
                message,
                span: clamped(text, span),
                location: located(text, clamped(text, span)),
            },
        ),
        None => None,
    }
}

/// The diagnostic that reports a message at a span of a source.
pub open spec fn diagnosed(
    code: Seq<char>,
    stage: Seq<char>,
    message: Seq<char>,
    source: Source,
    span: ByteSpan,
    related: Option<(Seq<char>, ByteSpan)>,
) -> Diagnostic {
    let span = clamped(source.text, span);
    Diagnostic {
        code,
        stage,
        message,
        source,
        span,
        location: located(source.text, span),
        excerpt: quoted_line(source.text, span.start as int),
        caret: marker(span, located(source.text, span)),
        related: related_to(source.text, related),
    }
}

/// The view of an optional related note.
pub open spec fn option_note(related: Option<(String, ByteSpan)>) -> Option<
    (Seq<char>, ByteSpan),
> {
    match related {
        Some((message, span)) => Some((message@, span)),
        None => None,
    }
}

/// A text laid out as characters, with its length in bytes.
struct Layout {
    chars: Vec<char>,
    bytes: usize,
}

impl Layout {
    spec fn wf(&self) -> bool {
        self.bytes == byte_len(self.chars@) && measurable(self.chars@)
    }

    fn new(text: &str) -> (layout: Self)
        requires
            measurable(text@),
        ensures
            layout.wf(),
            layout.chars@ == text@,
    {
        let chars = text_chars(text);
        let bytes: usize = text.as_bytes().len();
        proof {
            lemma_byte_len_encoding(text@);
        }
        Layout { chars, bytes }
    }
}

fn clamp_span(layout: &Layout, span: ByteSpan) -> (clamp: ByteSpan)
    requires
        layout.wf(),
    ensures
        clamp == clamped(layout.chars@, span),
{
    let end: usize = if span.end < span.start {
        span.start
    } else {
        span.end
    };
    ByteSpan::new(
        if span.start < layout.bytes {
            span.start
        } else {
            layout.bytes
        },
        if end < layout.bytes {
            end
        } else {
            layout.bytes
        },
    )
}

proof fn lemma_line_bounds(text: Seq<char>)
    ensures
        line_feeds(text) <= text.len(),
        last_line(text).len() <= text.len(),
    decreases text.len(),
{
    if text.len() > 0 {
        lemma_line_bounds(text.drop_last());
    }
}

proof fn lemma_column_bound(line: Seq<char>)
    ensures
        1 <= end_column(line) <= 4 * line.len() + 1,
    decreases line.len(),
{
    if line.len() > 0 {
        lemma_column_bound(line.drop_last());
    }
}

/// Finds the character that starts at a byte offset.
fn char_index(layout: &Layout, byte: usize) -> (index: usize)
    requires
        layout.wf(),
        is_boundary(layout.chars@, byte as int),
    ensures
        index == index_of_byte(layout.chars@, byte as int),
        index <= layout.chars@.len(),
{
    let ghost text = layout.chars@;
    let ghost goal = index_of_byte(text, byte as int);
    let mut index: usize = 0;
    let mut offset: usize = 0;
    while offset < byte
        invariant
            layout.wf(),
            text == layout.chars@,
            0 <= index <= goal <= text.len(),
            byte_at(text, goal) == byte,
            offset == byte_at(text, index as int),
        decreases goal - index,
    {
        proof {
            if index == goal {
                assert(false);
            }
            lemma_byte_at_bounds(text, index + 1);
        }
        offset = offset + char_bytes(layout.chars[index]);
        index = index + 1;
    }
    proof {
        if index < goal {
            lemma_byte_at_increases(text, index as int, goal);
        }
    }
    index
}

fn position(layout: &Layout, byte: usize) -> (found: Position)
    requires
        layout.wf(),
        is_boundary(layout.chars@, byte as int),
    ensures
        found@ == place(layout.chars@, byte as int),
{
    let ghost text = layout.chars@;
    let end = char_index(layout, byte);
    let mut line: usize = 1;
    let mut column: usize = 1;
    let mut display_column: usize = 1;
    let mut i: usize = 0;
    while i < end
        invariant
            layout.wf(),
            text == layout.chars@,
            i <= end <= text.len(),
            line == line_feeds(text.take(i as int)) + 1,
            column == last_line(text.take(i as int)).len() + 1,
            display_column == end_column(last_line(text.take(i as int))),
        decreases end - i,
    {
        let ch = layout.chars[i];
        proof {
            let before = text.take(i as int);
            let through = text.take(i + 1);
            assert(through.drop_last() =~= before);
            assert(through.last() == ch);
            lemma_line_bounds(before);
            lemma_column_bound(last_line(before));
            lemma_byte_at_bounds(text, text.len() as int);
            if ch != '\n' {
                assert(last_line(through).drop_last() =~= last_line(before));
            }
        }
        if ch == '\n' {
            line = line + 1;
            column = 1;
            display_column = 1;
        } else {
            column = column + 1;
            display_column = if ch == '\t' {
                ((display_column - 1) / 4 + 1) * 4 + 1
            } else {
                display_column + 1
            };
        }
        i = i + 1;
    }
    Position { byte, line, column, display_column }
}

fn locate(layout: &Layout, span: ByteSpan) -> (found: LocatedSpan)
    requires
        layout.wf(),
        is_boundary(layout.chars@, span.start as int),
        is_boundary(layout.chars@, span.end as int),
    ensures
        found@ == located(layout.chars@, span),
{
    LocatedSpan { start: position(layout, span.start), end: position(layout, span.end) }
}

fn repeat_char(ch: char, n: usize) -> (text: String)
    ensures
        text@ == repeated(ch, n as nat),
{
    let mut text = String::new();
    let mut i: usize = 0;
    while i < n
        invariant
            i <= n,
            text@ == repeated(ch, i as nat),
        decreases n - i,
    {
        push_char(&mut text, ch);
        i = i + 1;
        assert(text@ =~= repeated(ch, i as nat));
    }
    text
}

/// The first index of the line that holds the character at `at`.
proof fn lemma_last_line(text: Seq<char>, from: int, at: int)
    requires
        0 <= from <= at <= text.len(),
        from > 0 ==> text[from - 1] == '\n',
        forall|k: int| from <= k < at ==> text[k] != '\n',
    ensures
        last_line(text.take(at)) == text.subrange(from, at),
    decreases at - from,
{
    let before = text.take(at);
    if from == at {
        assert(last_line(before) =~= text.subrange(from, at));
    } else {
        lemma_last_line(text, from, at - 1);
        assert(before.drop_last() =~= text.take(at - 1));
        assert(text.subrange(from, at) =~= text.subrange(from, at - 1).push(text[at - 1]));
    }
}

proof fn lemma_first_line(text: Seq<char>, at: int, to: int)
    requires
        0 <= at <= to <= text.len(),
        to < text.len() ==> text[to] == '\n',
        forall|k: int| at <= k < to ==> text[k] != '\n',
    ensures
        first_line(text.skip(at)) == text.subrange(at, to),
    decreases to - at,
{
    let after = text.skip(at);
    if at == to {
        assert(first_line(after) =~= text.subrange(at, to));
    } else {
        lemma_first_line(text, at + 1, to);
        assert(after.drop_first() =~= text.skip(at + 1));
        assert(text.subrange(at, to) =~= seq![text[at]] + text.subrange(at + 1, to));
    }
}

/// Quotes the line at a byte offset.
fn excerpt(layout: &Layout, byte: usize) -> (line: String)
    requires
        layout.wf(),
        is_boundary(layout.chars@, byte as int),
    ensures
        line@ == quoted_line(layout.chars@, byte as int),
{
    let ghost text = layout.chars@;
    let at = char_index(layout, byte);
    let mut from: usize = at;
    while from > 0 && layout.chars[from - 1] != '\n'
        invariant
            text == layout.chars@,
            from <= at <= text.len(),
            forall|k: int| from <= k < at ==> text[k] != '\n',
        decreases from,
    {
        from = from - 1;
    }
    let mut to: usize = at;
    while to < layout.chars.len() && layout.chars[to] != '\n'
        invariant
            text == layout.chars@,
            at <= to <= text.len(),
            forall|k: int| at <= k < to ==> text[k] != '\n',
        decreases text.len() - to,
    {
        to = to + 1;
    }
    proof {
        lemma_last_line(text, from as int, at as int);
        lemma_first_line(text, at as int, to as int);
        assert(text.subrange(from as int, at as int) + text.subrange(at as int, to as int)
            =~= text.subrange(from as int, to as int));
    }
    while to > from && layout.chars[to - 1] == '\r'
        invariant
            text == layout.chars@,
            from <= to <= text.len(),
            quoted_line(text, byte as int) == detabbed(
                without_returns(text.subrange(from as int, to as int)),
            ),
        decreases to,
    {
        proof {
            let line = text.subrange(from as int, to as int);
            assert(line.drop_last() =~= text.subrange(from as int, to - 1));
        }
        to = to - 1;
    }
    let ghost line = text.subrange(from as int, to as int);
    assert(without_returns(line) == line);
    let mut quoted = String::new();
    let mut i: usize = from;
    while i < to
        invariant
            text == layout.chars@,
            from <= i <= to <= text.len(),
            line == text.subrange(from as int, to as int),
            quoted@ == detabbed(line.take(i - from)),
        decreases to - i,
    {
        let ch = layout.chars[i];
        proof {
            assert(line.take(i + 1 - from).drop_last() =~= line.take(i - from));
            reveal_strlit("    ");
            assert("    "@ =~= seq![' ', ' ', ' ', ' ']);
            assert(detabbed(line.take(i - from)).push(ch) =~= detabbed(line.take(i - from)) + seq![ch]);
        }
        if ch == '\t' {
            quoted.append("    ");
        } else {
            push_char(&mut quoted, ch);
        }
        i = i + 1;
    }
    assert(line.take(line.len() as int) =~= line);
    quoted
}

fn caret(span: ByteSpan, location: &LocatedSpan) -> (text: String)
    requires
        location.start.display_column >= 1,
    ensures
        text@ == marker(span, location@),
{
    let width: usize = if span.end == span.start || location.end.line != location.start.line
        || location.end.display_column <= location.start.display_column {
        1
    } else {
        location.end.display_column - location.start.display_column
    };
    let margin = repeat_char(' ', location.start.display_column - 1);
    let carets = repeat_char('^', width);
    cat2(margin.as_str(), carets.as_str())
}

fn render(layout: &Layout, span: ByteSpan, location: &LocatedSpan) -> (lines: (String, String))
    requires
        layout.wf(),
        is_boundary(layout.chars@, span.start as int),
        location.start.display_column >= 1,
    ensures
        lines.0@ == quoted_line(layout.chars@, span.start as int),
        lines.1@ == marker(span, location@),
{
    (excerpt(layout, span.start), caret(span, location))
}

fn copy_option_text(text: &Option<String>) -> (copy: Option<String>)
    ensures
        option_text(copy) == option_text(*text),
{
    match text {
        Some(text) => Some(text.clone()),
        None => None,
    }
}

impl SyntaxDiagnostic {
    pub fn new(
        code: &str,
        stage: &str,
        message: String,
        source: &SourceSnapshot,
        span: ByteSpan,
        related: Option<(String, ByteSpan)>,
    ) -> (diagnostic: Self)
        requires
            measurable(source.text@),
            splits_no_char(source.text@, span),
            related matches Some(note) ==> splits_no_char(source.text@, note.1),
        ensures
            diagnostic@ == diagnosed(
                code@,
                stage@,
                message@,
                source@,
                span,
                option_note(related),
            ),
    {
        let layout = Layout::new(source.text.as_str());
        let span = clamp_span(&layout, span);
        let location = locate(&layout, span);
        proof {
            let before = source.text@.take(index_of_byte(source.text@, span.start as int));
            lemma_column_bound(last_line(before));
        }
        let (excerpt, caret) = render(&layout, span, &location);
        let related = match related {
            Some((message, related_span)) => {
                let related_span = clamp_span(&layout, related_span);
                let location = locate(&layout, related_span);
                Some(RelatedDiagnostic { message, span: related_span, location })
            },
            None => None,
        };
        SyntaxDiagnostic {
            code: code.to_owned(),
            stage: stage.to_owned(),
            message,
            source_name: source.name.clone(),
            path: copy_option_text(&source.path),
            source: source.text.clone(),
            span,
            location,
            excerpt,
            caret,
            related,
        }
    }
}

/// A number right-aligned in two columns.
pub open spec fn gutter(n: nat) -> Seq<char> {
    if n < 10 {
        seq![' '] + decimal(n)
    } else {
        decimal(n)
    }
}

/// A place as it is written behind a source name.
pub open spec fn place_text(name: Seq<char>, at: Place) -> Seq<char> {
    name + ":"@ + decimal(at.line) + ":"@ + decimal(at.display_column)
}

/// The text of a diagnostic: its message, the place, the quoted line with its
/// marker, and the related note where there is one.
pub open spec fn diagnostic_text(diagnostic: Diagnostic) -> Seq<char> {
    let start = diagnostic.location.start;
    let head = diagnostic.message + "\n --> "@ + place_text(diagnostic.source.name, start);
    let body = head + "\n  |\n"@ + gutter(start.line) + " | "@ + diagnostic.excerpt;
    let report = body + "\n  | "@ + diagnostic.caret;
    match diagnostic.related {
        Some(related) => report + "\n  = "@ + related.message + " at "@ + place_text(
            diagnostic.source.name,
            related.location.start,
        ),
        None => report,
    }
}

fn position_text(name: &str, at: &Position) -> (text: String)
    ensures
        text@ == place_text(name@, at@),
{
    let line = count_text(at.line);
    let column = count_text(at.display_column);
    cat5(name, ":", line.as_str(), ":", column.as_str())
}

impl SyntaxDiagnostic {
    /// The report that is shown to an author.
    pub fn message_text(&self) -> (text: String)
        ensures
            text@ == diagnostic_text(self@),
    {
        let start = position_text(self.source_name.as_str(), &self.location.start);
        let head = cat3(self.message.as_str(), "\n --> ", start.as_str());
        let digits = count_text(self.location.start.line);
        let number = if self.location.start.line < 10 {
            let pad = char_text(' ');
            cat2(pad.as_str(), digits.as_str())
        } else {
            digits
        };
        let body = cat5(head.as_str(), "\n  |\n", number.as_str(), " | ", self.excerpt.as_str());
        let report = cat3(body.as_str(), "\n  | ", self.caret.as_str());
        match &self.related {
            Some(related) => {
                let at = position_text(self.source_name.as_str(), &related.location.start);
                cat5(report.as_str(), "\n  = ", related.message.as_str(), " at ", at.as_str())
            },
            None => report,
        }
    }
}

} // verus!
