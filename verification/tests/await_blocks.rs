//! The head of an await block.

use markup_scanner::element::Layer;
use markup_scanner::stream::tokenize;
use markup_scanner::token::{BlockKind, BranchKind, FieldName, Token, TokenKind};

/// Scans the source and returns the byte range and the text of the
/// expression of the block start that it starts with.
fn get_block_expression_range(source: &str) -> Option<(usize, usize, String)> {
    let (tokens, _) = tokenize(Layer::ControlFlow, source.as_bytes());
    let block_start = tokens.first()?;
    if !matches!(block_start.kind, TokenKind::BlockStart(_)) {
        return None;
    }
    let expr = block_start.field(FieldName::Expression)?;
    let text = source[expr.start..expr.end].to_string();
    Some((expr.start, expr.end, text))
}

fn field<'a>(source: &'a str, token: &Token, name: FieldName) -> Option<&'a str> {
    token.field(name).map(|span| &source[span.start..span.end])
}

#[test]
fn test_await_then_shorthand_no_binding_span() {
    // Verify the expression span is correct: should be "somePromise" (8-19), not "somePromise then"
    let source = "{#await somePromise then}{/await}";
    let (start, end, text) = get_block_expression_range(source).unwrap();

    assert_eq!(start, 8, "Expression should start at byte 8");
    assert_eq!(end, 19, "Expression should end at byte 19");
    assert_eq!(text, "somePromise", "Expression should be 'somePromise' only, not include 'then'");
}

#[test]
fn short_form_without_binding_has_no_binding() {
    let source = "{#await somePromise then}{/await}";
    let (tokens, state) = tokenize(Layer::ControlFlow, source.as_bytes());
    assert_eq!(tokens.len(), 2);
    assert_eq!(tokens[0].kind, TokenKind::BlockStart(BlockKind::Await));
    assert_eq!(field(source, &tokens[0], FieldName::Kind), Some("await"));
    assert_eq!(field(source, &tokens[0], FieldName::Expression), Some("somePromise"));
    assert_eq!(field(source, &tokens[0], FieldName::ShortForm), Some("then"));
    assert_eq!(tokens[0].field(FieldName::Binding), None);
    assert_eq!(tokens[1].kind, TokenKind::BlockEnd(BlockKind::Await));
    assert_eq!(tokens[1].error, None);
    assert_eq!(state.blocks.depth(), 0);
}

#[test]
fn short_forms_bind_what_follows() {
    let source = "{#await promise then value}";
    let (tokens, _) = tokenize(Layer::ControlFlow, source.as_bytes());
    assert_eq!(field(source, &tokens[0], FieldName::Expression), Some("promise"));
    assert_eq!(field(source, &tokens[0], FieldName::ShortForm), Some("then"));
    assert_eq!(field(source, &tokens[0], FieldName::Binding), Some("value"));

    let source = "{#await promise catch error }";
    let (tokens, _) = tokenize(Layer::ControlFlow, source.as_bytes());
    assert_eq!(field(source, &tokens[0], FieldName::Expression), Some("promise"));
    assert_eq!(field(source, &tokens[0], FieldName::ShortForm), Some("catch"));
    assert_eq!(field(source, &tokens[0], FieldName::Binding), Some("error"));

    let source = "{#await promise then { data, error }}";
    let (tokens, _) = tokenize(Layer::ControlFlow, source.as_bytes());
    assert_eq!(field(source, &tokens[0], FieldName::Expression), Some("promise"));
    assert_eq!(field(source, &tokens[0], FieldName::Binding), Some("{ data, error }"));
}

#[test]
fn the_short_form_word_must_stand_alone_at_the_top_level() {
    // Part of a longer word.
    let source = "{#await thenable}";
    let (tokens, _) = tokenize(Layer::ControlFlow, source.as_bytes());
    assert_eq!(field(source, &tokens[0], FieldName::Expression), Some("thenable"));
    assert_eq!(tokens[0].field(FieldName::ShortForm), None);

    // Inside parentheses, inside a string, inside a template literal.
    for source in [
        "{#await load( then )}",
        "{#await load(' then ')}",
        "{#await ` then `}",
        "{#await [a, then ]}",
        "{#await { a: b then }}",
    ] {
        let (tokens, _) = tokenize(Layer::ControlFlow, source.as_bytes());
        assert_eq!(tokens[0].kind, TokenKind::BlockStart(BlockKind::Await), "{}", source);
        assert_eq!(tokens[0].field(FieldName::ShortForm), None, "{}", source);
        assert_eq!(
            field(source, &tokens[0], FieldName::Expression),
            Some(&source[8..source.len() - 1]),
            "{}",
            source
        );
    }

    // After the parentheses it counts again.
    let source = "{#await load(a) then b}";
    let (tokens, _) = tokenize(Layer::ControlFlow, source.as_bytes());
    assert_eq!(field(source, &tokens[0], FieldName::Expression), Some("load(a)"));
    assert_eq!(field(source, &tokens[0], FieldName::Binding), Some("b"));
}

#[test]
fn branches_of_await() {
    let source = "{#await promise}Loading{:then value}{value}{:catch error}{error}{/await}";
    let (tokens, state) = tokenize(Layer::ControlFlow, source.as_bytes());
    let kinds: Vec<TokenKind> = tokens.iter().map(|token| token.kind).collect();
    assert_eq!(
        kinds,
        vec![
            TokenKind::BlockStart(BlockKind::Await),
            TokenKind::Text,
            TokenKind::BlockBranch(BranchKind::Then),
            TokenKind::Expression,
            TokenKind::BlockBranch(BranchKind::Catch),
            TokenKind::Expression,
            TokenKind::BlockEnd(BlockKind::Await),
        ]
    );
    assert_eq!(field(source, &tokens[2], FieldName::Kind), Some("then"));
    assert_eq!(field(source, &tokens[2], FieldName::ExpressionValue), Some("value"));
    assert_eq!(field(source, &tokens[4], FieldName::Kind), Some("catch"));
    assert_eq!(field(source, &tokens[4], FieldName::ExpressionValue), Some("error"));
    assert!(tokens.iter().all(|token| token.error.is_none()));
    assert_eq!(state.blocks.depth(), 0);
}

#[test]
fn a_branch_may_bind_nothing() {
    let source = "{#await p}{:then}{:catch}{/await}";
    let (tokens, _) = tokenize(Layer::ControlFlow, source.as_bytes());
    assert_eq!(tokens[1].kind, TokenKind::BlockBranch(BranchKind::Then));
    assert_eq!(tokens[1].field(FieldName::ExpressionValue), None);
    assert_eq!(tokens[2].kind, TokenKind::BlockBranch(BranchKind::Catch));
    assert_eq!(tokens[2].field(FieldName::ExpressionValue), None);
    assert!(tokens.iter().all(|token| token.error.is_none()));
}
