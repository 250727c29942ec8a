use nefor_mag::diagnostic::{ByteSpan, SourceSnapshot, SyntaxDiagnostic};
use nefor_mag::error::MagError;
use nefor_mag::lexer::{tokenize, tokenize_source, Token, TokenKind};
use nefor_mag::parser::parse_source;

fn kinds(input: &str) -> Vec<TokenKind> {
    tokenize(input)
        .unwrap()
        .into_iter()
        .map(|t| t.kind)
        .collect()
}

fn error(source_text: &str) -> SyntaxDiagnostic {
    let source = SourceSnapshot::named("test.mag", source_text);
    let tokens = tokenize_source(&source).unwrap();
    let MagError::Syntax(d) = parse_source(&tokens, &source).unwrap_err() else {
        panic!("syntax")
    };
    *d
}

#[test]
fn preserves_language_tokens_and_byte_spans() {
    assert_eq!(
        kinds(";; c\n(1, -2.5 :key true nil -> | + fs/read)"),
        vec![
            TokenKind::LParen,
            TokenKind::Int(1),
            TokenKind::Float("-2.5".into()),
            TokenKind::Keyword("key".into()),
            TokenKind::Bool(true),
            TokenKind::Nil,
            TokenKind::Arrow,
            TokenKind::Pipe,
            TokenKind::Plus,
            TokenKind::Symbol("fs/read".into()),
            TokenKind::RParen
        ]
    );
    let tokens = tokenize("é (x)").unwrap_err();
    let MagError::Syntax(d) = tokens else {
        panic!("syntax")
    };
    assert_eq!(d.span, ByteSpan::new(0, 2));
    let tokens = tokenize(";; λ\n(x)").unwrap();
    assert_eq!(tokens[0].span, ByteSpan::new(6, 7));
}

#[test]
fn string_failures_preserve_opener_and_exact_escape() {
    let MagError::Syntax(d) = tokenize("\"x\\q\"").unwrap_err() else {
        panic!("syntax")
    };
    assert_eq!(d.span, ByteSpan::new(2, 4));
    assert_eq!(d.related.unwrap().span, ByteSpan::new(0, 1));
    let MagError::Syntax(d) = tokenize("\"λ").unwrap_err() else {
        panic!("syntax")
    };
    assert_eq!(d.span, ByteSpan::new(3, 3));
    assert_eq!(d.source, "\"λ");
}

#[test]
fn distinguishes_closer_failures() {
    let d = error(")");
    assert_eq!(d.span, ByteSpan::new(0, 1));
    assert!(d.message.contains("unexpected"));
    assert!(d.related.is_none());
    let d = error("(]\r\n");
    assert_eq!(d.location.start.line, 1);
    assert!(d.message.contains("expected ')'"));
    assert_eq!(d.related.unwrap().span, ByteSpan::new(0, 1));
}

#[test]
fn eof_is_zero_width_and_opener_is_related() {
    let d = error(";;λ\r\n\t[");
    assert_eq!(d.span, ByteSpan::new(8, 8));
    assert_eq!(d.location.start.line, 2);
    assert_eq!(d.location.start.display_column, 6);
    assert_eq!(d.related.unwrap().span, ByteSpan::new(7, 8));
}

#[test]
fn spans_that_no_diagnostic_points_at_may_split_characters() {
    let source = SourceSnapshot::named("test.mag", "\u{e9}");
    let tokens = vec![Token {
        kind: TokenKind::Symbol("e".into()),
        span: ByteSpan { start: 0, end: 1 },
    }];
    assert_eq!(parse_source(&tokens, &source).unwrap().len(), 1);
}
