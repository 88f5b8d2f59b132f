//! The expression span scanner.

use markup_scanner::element::Layer;
use markup_scanner::expression::{expression_token, scan_expression};
use markup_scanner::stream::tokenize;
use markup_scanner::token::{FieldName, ScanError, TokenKind};

/// Scans the source and returns the byte range and the text of the content
/// of the expression that it starts with.
fn get_expression_content_range(source: &str) -> Option<(usize, usize, String)> {
    let (tokens, _) = tokenize(Layer::Expression, source.as_bytes());
    let expr = tokens.first()?;
    if expr.kind != TokenKind::Expression {
        return None;
    }
    let content = expr.field(FieldName::Content)?;
    let text = source[content.start..content.end].to_string();
    Some((content.start, content.end, text))
}

fn close_of(source: &str) -> Option<usize> {
    assert!(source.starts_with('{'));
    scan_expression(source.as_bytes(), 1)
}

#[test]
fn test_expression_span_no_trailing_space() {
    // {value } should have expression content "value", not "value "
    let source = "{value }";
    let (start, end, text) = get_expression_content_range(source).unwrap();

    assert_eq!(start, 1, "Expression content should start at byte 1");
    assert_eq!(end, 6, "Expression content should end at byte 6");
    assert_eq!(text, "value", "Expression should not include trailing whitespace");
}

#[test]
fn test_expression_span_multiple_trailing_spaces() {
    let source = "{foo + bar   }";
    let (start, end, text) = get_expression_content_range(source).unwrap();

    assert_eq!(start, 1);
    assert_eq!(end, 10);
    assert_eq!(text, "foo + bar");
}

#[test]
fn trimming_leaves_the_consumed_range_alone() {
    let source = "{value \t\n}rest";
    let (tokens, _) = tokenize(Layer::Expression, source.as_bytes());
    assert_eq!(tokens[0].kind, TokenKind::Expression);
    assert_eq!((tokens[0].span.start, tokens[0].span.end), (0, 10));
    let content = tokens[0].field(FieldName::Content).unwrap();
    assert_eq!((content.start, content.end), (1, 6));
    assert_eq!(tokens[1].kind, TokenKind::Text);
    assert_eq!((tokens[1].span.start, tokens[1].span.end), (10, 14));
}

#[test]
fn whitespace_before_the_content_stays() {
    let (start, end, text) = get_expression_content_range("{ value }").unwrap();
    assert_eq!((start, end), (1, 7));
    assert_eq!(text, " value");
}

#[test]
fn empty_and_blank_expressions_have_empty_content() {
    assert_eq!(get_expression_content_range("{}"), Some((1, 1, String::new())));
    assert_eq!(get_expression_content_range("{   }"), Some((1, 1, String::new())));
}

#[test]
fn closes_at_the_matching_brace() {
    assert_eq!(close_of("{a}"), Some(2));
    assert_eq!(close_of("{}"), Some(1));
    assert_eq!(close_of("{{ key: 'value' }}"), Some(17));
    assert_eq!(close_of("{a}{b}"), Some(2));
    assert_eq!(close_of("{{}{}}x}"), Some(5));
}

#[test]
fn braces_in_strings_do_not_count() {
    assert_eq!(close_of("{'}'}"), Some(4));
    assert_eq!(close_of("{\"}\"}"), Some(4));
    assert_eq!(close_of("{'{'}"), Some(4));
    assert_eq!(close_of("{'{}'}"), Some(5));
    assert_eq!(close_of("{\"a\" + '}' + \"{\"}"), Some(16));
}

#[test]
fn escaped_quotes_do_not_end_a_string() {
    assert_eq!(close_of("{'\\'}'}"), Some(6));
    assert_eq!(close_of("{\"\\\"}\"}"), Some(6));
    assert_eq!(close_of("{'\\\\'}"), Some(5));
    assert_eq!(close_of("{`\\`}`}"), Some(6));
}

#[test]
fn braces_in_comments_do_not_count() {
    assert_eq!(close_of("{/* } */ a}"), Some(10));
    assert_eq!(close_of("{a // }\n}"), Some(8));
    assert_eq!(close_of("{a /* { */}"), Some(10));
    // A line comment runs to the end of the line, not to the brace.
    assert_eq!(close_of("{a // }"), None);
    // A slash alone opens nothing.
    assert_eq!(close_of("{a / b}"), Some(6));
    assert_eq!(close_of("{/}"), Some(2));
}

#[test]
fn template_literals_hide_plain_braces() {
    assert_eq!(close_of("{`}`}"), Some(4));
    assert_eq!(close_of("{`{`}"), Some(4));
    assert_eq!(close_of("{`a{b}c`}"), Some(8));
    assert_eq!(close_of("{`Hello ${name}`}"), Some(16));
    // A dollar sign alone opens nothing.
    assert_eq!(close_of("{`$`}"), Some(4));
    assert_eq!(close_of("{`$}`}"), Some(5));
}

#[test]
fn substitutions_nest() {
    assert_eq!(close_of("{`${`nested ${deep}`}`}"), Some(22));
    assert_eq!(close_of("{`${ { key: \"}\" } }`}"), Some(20));
    assert_eq!(close_of("{`${ fn(() => { return x }) }`}"), Some(30));
    assert_eq!(close_of("{`${'}'}`}"), Some(9));
    assert_eq!(close_of("{`${a}}`}"), Some(8));
}

#[test]
fn unterminated_expressions_are_reported() {
    assert_eq!(close_of("{"), None);
    assert_eq!(close_of("{a"), None);
    assert_eq!(close_of("{'}"), None);
    assert_eq!(close_of("{`${}"), None);
    assert_eq!(close_of("{{}"), None);
    assert_eq!(close_of("{/* }"), None);

    let source = "<p>{a + ";
    let (tokens, _) = tokenize(Layer::Expression, source.as_bytes());
    let last = tokens.last().unwrap();
    assert_eq!(last.kind, TokenKind::Expression);
    assert_eq!(last.error, Some(ScanError::UnterminatedConstruct));
    assert_eq!((last.span.start, last.span.end), (3, 8));
    let content = last.field(FieldName::Content).unwrap();
    assert_eq!(&source[content.start..content.end], "a +");
}

#[test]
fn scan_may_start_at_the_end_of_the_input() {
    assert_eq!(scan_expression(b"{", 1), None);
    assert_eq!(scan_expression(b"", 0), None);
    // The scan starts after the brace, wherever that is.
    assert_eq!(scan_expression(b"ab}", 0), Some(2));
}

#[test]
fn expression_token_reports_span_and_content() {
    let source = "x{ a.b  }y";
    let token = expression_token(source.as_bytes(), 1);
    assert_eq!(token.kind, TokenKind::Expression);
    assert_eq!((token.span.start, token.span.end), (1, 9));
    assert_eq!(token.fields.len(), 1);
    assert_eq!(token.fields[0].name, FieldName::Content);
    assert_eq!((token.fields[0].span.start, token.fields[0].span.end), (2, 6));
    assert_eq!(token.implicit_closes, 0);
    assert_eq!(token.error, None);
}

#[test]
fn braces_are_text_in_the_base_layer() {
    let source = "a {b} c";
    let (tokens, _) = tokenize(Layer::Base, source.as_bytes());
    assert_eq!(tokens.len(), 1);
    assert_eq!(tokens[0].kind, TokenKind::Text);
    assert_eq!((tokens[0].span.start, tokens[0].span.end), (0, 7));
}

#[test]
fn expressions_split_text() {
    let source = "Hello {name}!";
    let (tokens, _) = tokenize(Layer::Expression, source.as_bytes());
    let kinds: Vec<TokenKind> = tokens.iter().map(|token| token.kind).collect();
    assert_eq!(kinds, vec![TokenKind::Text, TokenKind::Expression, TokenKind::Text]);
    let spans: Vec<(usize, usize)> =
        tokens.iter().map(|token| (token.span.start, token.span.end)).collect();
    assert_eq!(spans, vec![(0, 6), (6, 12), (12, 13)]);
}

#[test]
fn a_sigil_opens_no_head_below_the_control_flow_layer() {
    let source = "{#if a}";
    let (tokens, _) = tokenize(Layer::Expression, source.as_bytes());
    assert_eq!(tokens.len(), 1);
    assert_eq!(tokens[0].kind, TokenKind::Expression);
    let content = tokens[0].field(FieldName::Content).unwrap();
    assert_eq!(&source[content.start..content.end], "#if a");
}
