use rsh::error::ParseError;
use rsh::event::{Size, Token};
use rsh::span::Span;
use rsh::token::TokenKind;
use rsh::word::{Parameter, Word, WordPart};
use rsh::{parse, tokenize};

fn literal(text: &str) -> Word {
    Word::new(
        vec![WordPart::Literal(text.into())],
        Span::new(0, text.len()),
        false,
    )
}

#[test]
fn a_plain_word_reports_its_text_and_needs_nothing() {
    let word = literal("echo");
    assert_eq!(word.as_literal(), Some("echo"));
    assert!(!word.needs_expansion());
}

#[test]
fn a_word_with_a_parameter_is_not_a_literal() {
    let word = Word::new(
        vec![
            WordPart::Literal("/home/".into()),
            WordPart::Parameter {
                param: Parameter::Named("USER".into()),
                quoted: false,
            },
        ],
        Span::new(0, 12),
        false,
    );
    assert_eq!(word.as_literal(), None);
    assert!(word.needs_expansion());
}

#[test]
fn an_empty_literal_is_still_a_literal() {
    assert_eq!(literal("").as_literal(), Some(""));
}

#[test]
fn spans_measure_and_slice() {
    let span = Span::new(5, 10);
    assert_eq!(span.len(), 5);
    assert!(!span.is_empty());
    assert_eq!(span.slice("echo hello there"), Some("hello"));
}

#[test]
fn empty_spans_point_between_characters() {
    let span = Span::empty(4);
    assert!(span.is_empty());
    assert_eq!(span.len(), 0);
}

#[test]
fn joining_covers_both_ends() {
    assert_eq!(Span::new(2, 4).to(Span::new(9, 11)), Span::new(2, 11));
    assert_eq!(Span::new(9, 11).to(Span::new(2, 4)), Span::new(2, 11));
}

#[test]
fn a_slice_off_a_character_boundary_is_refused() {
    // "é" is two bytes, so offset 1 is inside it.
    assert_eq!(Span::new(0, 1).slice("é"), None);
    assert_eq!(Span::new(0, 2).slice("é"), Some("é"));
    assert_eq!(Span::new(3, 9).slice("abc"), None);
}

#[test]
fn tokens_are_comparable_and_copyable() {
    let token = Token(7);
    let copy = token;
    assert_eq!(token, copy);
    assert_ne!(token, Token(8));
}

#[test]
fn an_unsized_terminal_reports_no_size() {
    assert_eq!(Size::from_report(0, 80), None);
    assert_eq!(Size::from_report(24, 0), None);
    assert_eq!(Size::from_report(24, 80), Some(Size { rows: 24, cols: 80 }));
}

#[test]
fn error_messages_read_as_sentences() {
    assert_eq!(parse("echo \"oops").unwrap_err().message(), "unterminated \" quote");
    assert_eq!(parse("echo 'oops").unwrap_err().message(), "unterminated ' quote");
    assert_eq!(parse("echo \\").unwrap_err().message(), "line ends with an unescaped `\\`");
    assert_eq!(parse("echo ${X").unwrap_err().message(), "unterminated `${`");
    assert_eq!(parse("echo hi |").unwrap_err().message(), "missing command around `|`");
    assert_eq!(parse("echo >").unwrap_err().message(), "`>` needs a target");
    let err = ParseError::Unsupported { token: "&&".into(), phase: Some(5), span: Span::new(2, 4) };
    assert_eq!(err.message(), "`&&` is not supported yet (roadmap phase 5)");
    let err = ParseError::Unsupported { token: "<<".into(), phase: None, span: Span::new(4, 6) };
    assert_eq!(err.message(), "`<<` is not supported");
    assert_eq!(err.at(), 4);
}

#[test]
fn operators_describe_themselves() {
    let tokens = tokenize("a | b 2>&1 >> c").unwrap();
    let described: Vec<&str> = tokens.iter().map(|t| t.kind.describe()).collect();
    assert_eq!(described, ["word", "|", "word", "file descriptor number", ">&", "word", ">>", "word"]);
    assert!(matches!(tokens[3].kind, TokenKind::IoNumber(2)));
}

#[test]
fn a_span_reads_as_a_range() {
    assert_eq!(Span::new(2, 5).text(), "2..5");
    assert_eq!(Span::empty(0).text(), "0..0");
}

#[test]
fn every_error_points_inside_its_line() {
    for input in ["echo \"é", "cat <", "echo ${x", "a | | b", "é \\", "x $(y)", "> f", "cat f 2>&", "ls && ls", "`"] {
        let err = parse(input).unwrap_err();
        let span = err.span();
        assert!(span.start <= input.len() && span.end <= input.len(), "{input:?} gave {span:?}");
    }
}
