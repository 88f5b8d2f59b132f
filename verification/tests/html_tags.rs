//! The expression of a tag head.

use markup_scanner::element::Layer;
use markup_scanner::stream::tokenize;
use markup_scanner::token::{FieldName, TagKind, TokenKind};

/// Scans the source and returns the byte range and the text of the
/// expression of the tag that it starts with.
fn get_expression_range(source: &str) -> (usize, usize, String) {
    let (tokens, _) = tokenize(Layer::ControlFlow, source.as_bytes());
    let tag = tokens.first().expect("No tag token");
    assert_eq!(tag.kind, TokenKind::Tag(TagKind::Html));
    let expr = tag.field(FieldName::ExpressionValue).expect("No expression field");
    let text = source[expr.start..expr.end].to_string();
    (expr.start, expr.end, text)
}

#[test]
fn test_html_expression_span_no_trailing_space() {
    // Input: {@html myfile + someOtherFile }
    // Expected: expression should be "myfile + someOtherFile" (positions 7-29)
    // NOT "myfile + someOtherFile " (positions 7-30)
    let source = "{@html myfile + someOtherFile }";
    let (start, end, text) = get_expression_range(source);

    assert_eq!(start, 7, "Expression should start at byte 7");
    assert_eq!(end, 29, "Expression should end at byte 29 (before trailing space)");
    assert_eq!(text, "myfile + someOtherFile", "Expression should not include trailing whitespace");
}

#[test]
fn test_html_expression_span_no_space() {
    // No trailing space - should work the same
    let source = "{@html myfile + someOtherFile}";
    let (start, end, text) = get_expression_range(source);

    assert_eq!(start, 7);
    assert_eq!(end, 29);
    assert_eq!(text, "myfile + someOtherFile");
}

#[test]
fn test_html_expression_span_multiple_trailing_spaces() {
    // Multiple trailing spaces
    let source = "{@html content   }";
    let (start, end, text) = get_expression_range(source);

    assert_eq!(start, 7);
    assert_eq!(end, 14, "Expression should end at 'content', not include trailing spaces");
    assert_eq!(text, "content");
}
