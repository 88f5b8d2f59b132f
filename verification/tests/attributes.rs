//! The attribute classifier.

use markup_scanner::attribute::{attribute_of, scan_attribute, Attribute};
use markup_scanner::element::Layer;
use markup_scanner::stream::tokenize;
use markup_scanner::token::{
    AttributeShape, Field, FieldName, ScanError, Span, Token, TokenKind, ValueKind,
};

/// The attribute that starts at the first byte of the source.
fn attribute(source: &str, braces: bool) -> Token {
    scan_attribute(source.as_bytes(), 0, braces)
}

fn shape(token: &Token) -> AttributeShape {
    match token.kind {
        TokenKind::Attribute(shape) => shape,
        other => panic!("not an attribute: {:?}", other),
    }
}

fn fields<'a>(source: &'a str, token: &Token) -> Vec<(FieldName, &'a str)> {
    token
        .fields
        .iter()
        .map(|field| (field.name, &source[field.span.start..field.span.end]))
        .collect()
}

fn text<'a>(source: &'a str, token: &Token) -> &'a str {
    &source[token.span.start..token.span.end]
}

fn attributes_of(source: &str, layer: Layer) -> Vec<Token> {
    let (tokens, _) = tokenize(layer, source.as_bytes());
    tokens.into_iter().filter(|token| matches!(token.kind, TokenKind::Attribute(_))).collect()
}

#[test]
fn a_name_alone() {
    let source = "disabled>";
    let token = attribute(source, true);
    assert_eq!(shape(&token), AttributeShape::Plain(ValueKind::Missing));
    assert_eq!(text(source, &token), "disabled");
    assert_eq!(fields(source, &token), vec![(FieldName::Name, "disabled")]);
    assert_eq!(token.error, None);
    assert_eq!(token.implicit_closes, 0);
}

#[test]
fn a_name_ends_at_whitespace_equals_slash_and_greater_than() {
    for (source, name) in [
        ("a b", "a"),
        ("a\tb", "a"),
        ("a\nb", "a"),
        ("a/>", "a"),
        ("a>", "a"),
        ("a", "a"),
        ("data-x_1.y\"'<`>", "data-x_1.y\"'<`"),
    ] {
        let token = attribute(source, false);
        assert_eq!(text(source, &token), name, "{:?}", source);
        assert_eq!(fields(source, &token), vec![(FieldName::Name, name)], "{:?}", source);
    }
}

#[test]
fn quoted_values() {
    let source = "class=\"foo bar\" id";
    let token = attribute(source, true);
    assert_eq!(shape(&token), AttributeShape::Plain(ValueKind::Quoted));
    assert_eq!(text(source, &token), "class=\"foo bar\"");
    assert_eq!(
        fields(source, &token),
        vec![(FieldName::Name, "class"), (FieldName::ValueText, "foo bar")]
    );

    let source = "class='a \"b\" >'>";
    let token = attribute(source, true);
    assert_eq!(shape(&token), AttributeShape::Plain(ValueKind::Quoted));
    assert_eq!(text(source, &token), "class='a \"b\" >'");
    assert_eq!(
        fields(source, &token),
        vec![(FieldName::Name, "class"), (FieldName::ValueText, "a \"b\" >")]
    );
}

#[test]
fn an_empty_quoted_value_has_no_parts() {
    let source = "alt=\"\">";
    let token = attribute(source, true);
    assert_eq!(shape(&token), AttributeShape::Plain(ValueKind::Quoted));
    assert_eq!(text(source, &token), "alt=\"\"");
    assert_eq!(fields(source, &token), vec![(FieldName::Name, "alt")]);
}

#[test]
fn whitespace_around_the_equals_sign() {
    let source = "a = \"b\" c";
    let token = attribute(source, false);
    assert_eq!(shape(&token), AttributeShape::Plain(ValueKind::Quoted));
    assert_eq!(text(source, &token), "a = \"b\"");

    let source = "a \n=\t b>";
    let token = attribute(source, false);
    assert_eq!(shape(&token), AttributeShape::Plain(ValueKind::Unquoted));
    assert_eq!(text(source, &token), "a \n=\t b");
    assert_eq!(fields(source, &token), vec![(FieldName::Name, "a"), (FieldName::ValueText, "b")]);

    // Whitespace that no equals sign follows is not part of the attribute.
    let source = "a   b=c";
    let token = attribute(source, false);
    assert_eq!(text(source, &token), "a");
}

#[test]
fn a_missing_value() {
    for source in ["a=", "a=>", "a= >", "a=/>", "a = \n"] {
        let token = attribute(source, true);
        assert_eq!(shape(&token), AttributeShape::Plain(ValueKind::Missing), "{:?}", source);
        assert_eq!(
            &source[..token.span.end],
            &source[..source.find('=').unwrap() + 1],
            "{:?}",
            source
        );
        assert_eq!(fields(source, &token), vec![(FieldName::Name, "a")], "{:?}", source);
        assert_eq!(token.error, None);
    }
}

#[test]
fn unquoted_values() {
    let source = "data-value=123 disabled";
    let token = attribute(source, true);
    assert_eq!(shape(&token), AttributeShape::Plain(ValueKind::Unquoted));
    assert_eq!(text(source, &token), "data-value=123");
    assert_eq!(
        fields(source, &token),
        vec![(FieldName::Name, "data-value"), (FieldName::ValueText, "123")]
    );

    // A slash is part of the value unless it starts `/>`.
    let source = "href=a/b/>";
    let token = attribute(source, true);
    assert_eq!(text(source, &token), "href=a/b");
    let source = "href=a/b/ >";
    let token = attribute(source, true);
    assert_eq!(text(source, &token), "href=a/b/");
    let source = "href=a/";
    let token = attribute(source, true);
    assert_eq!(text(source, &token), "href=a/");

    // Quotes inside an unquoted value are bytes like others.
    let source = "a=b\"c'd>";
    let token = attribute(source, true);
    assert_eq!(fields(source, &token)[1], (FieldName::ValueText, "b\"c'd"));
}

#[test]
fn expression_values() {
    let source = "value={text} />";
    let token = attribute(source, true);
    assert_eq!(shape(&token), AttributeShape::Plain(ValueKind::ExpressionValued));
    assert_eq!(text(source, &token), "value={text}");
    assert_eq!(
        fields(source, &token),
        vec![(FieldName::Name, "value"), (FieldName::ValueExpression, "{text}")]
    );

    // The value ends with the expression's own brace.
    let source = "on={() => { go('}') }}>";
    let token = attribute(source, true);
    assert_eq!(shape(&token), AttributeShape::Plain(ValueKind::ExpressionValued));
    assert_eq!(text(source, &token), "on={() => { go('}') }}");
}

#[test]
fn braces_are_bytes_like_others_in_the_base_layer() {
    let source = "value={text} />";
    let token = attribute(source, false);
    assert_eq!(shape(&token), AttributeShape::Plain(ValueKind::Unquoted));
    assert_eq!(
        fields(source, &token),
        vec![(FieldName::Name, "value"), (FieldName::ValueText, "{text}")]
    );

    let source = "class=\"a {b}\">";
    let token = attribute(source, false);
    assert_eq!(
        fields(source, &token),
        vec![(FieldName::Name, "class"), (FieldName::ValueText, "a {b}")]
    );

    let source = "{hidden}>";
    let token = attribute(source, false);
    assert_eq!(shape(&token), AttributeShape::Plain(ValueKind::Missing));
    assert_eq!(fields(source, &token), vec![(FieldName::Name, "{hidden}")]);

    let source = "bind:value=x";
    let token = attribute(source, false);
    assert_eq!(shape(&token), AttributeShape::Plain(ValueKind::Unquoted));
    assert_eq!(
        fields(source, &token),
        vec![(FieldName::Name, "bind:value"), (FieldName::ValueText, "x")]
    );
}

#[test]
fn mixed_values() {
    let source = "style:attr=string{mixed}></div>";
    let token = attribute(source, true);
    assert_eq!(shape(&token), AttributeShape::Directive(ValueKind::MixedTextAndExpression));
    assert_eq!(text(source, &token), "style:attr=string{mixed}");
    assert_eq!(
        fields(source, &token),
        vec![
            (FieldName::Directive, "style"),
            (FieldName::Name, "attr"),
            (FieldName::ValueText, "string"),
            (FieldName::ValueExpression, "{mixed}"),
        ]
    );

    let source = "a={x}y{z}{w}v ";
    let token = attribute(source, true);
    assert_eq!(shape(&token), AttributeShape::Plain(ValueKind::MixedTextAndExpression));
    assert_eq!(
        fields(source, &token),
        vec![
            (FieldName::Name, "a"),
            (FieldName::ValueExpression, "{x}"),
            (FieldName::ValueText, "y"),
            (FieldName::ValueExpression, "{z}"),
            (FieldName::ValueExpression, "{w}"),
            (FieldName::ValueText, "v"),
        ]
    );

    // Two expressions and no text are mixed as well.
    let source = "a={x}{y}>";
    let token = attribute(source, true);
    assert_eq!(shape(&token), AttributeShape::Plain(ValueKind::MixedTextAndExpression));
}

#[test]
fn the_mixed_value_is_one_attribute_in_a_scan() {
    let source = "<div style:attr=string{mixed}></div>";
    let attributes = attributes_of(source, Layer::Expression);
    assert_eq!(attributes.len(), 1);
    assert_eq!(
        attributes[0].kind,
        TokenKind::Attribute(AttributeShape::Directive(ValueKind::MixedTextAndExpression))
    );
    assert_eq!(text(source, &attributes[0]), "style:attr=string{mixed}");
    let parts: Vec<(FieldName, &str)> = fields(source, &attributes[0])
        .into_iter()
        .filter(|(name, _)| {
            *name == FieldName::ValueText || *name == FieldName::ValueExpression
        })
        .collect();
    assert_eq!(
        parts,
        vec![(FieldName::ValueText, "string"), (FieldName::ValueExpression, "{mixed}")]
    );
    // No shorthand attribute is made of the expression.
    assert!(attributes_of(source, Layer::ControlFlow)
        .iter()
        .all(|token| shape(token) != AttributeShape::Shorthand));
}

#[test]
fn quoted_values_with_expressions() {
    let source = "class=\"a {b ? \"x\" : 'y'} c\">";
    let token = attribute(source, true);
    assert_eq!(shape(&token), AttributeShape::Plain(ValueKind::Quoted));
    assert_eq!(text(source, &token), "class=\"a {b ? \"x\" : 'y'} c\"");
    assert_eq!(
        fields(source, &token),
        vec![
            (FieldName::Name, "class"),
            (FieldName::ValueText, "a "),
            (FieldName::ValueExpression, "{b ? \"x\" : 'y'}"),
            (FieldName::ValueText, " c"),
        ]
    );
}

#[test]
fn shorthand_and_spread() {
    let source = "{hidden} {id}";
    let token = attribute(source, true);
    assert_eq!(shape(&token), AttributeShape::Shorthand);
    assert_eq!(text(source, &token), "{hidden}");
    assert_eq!(fields(source, &token), vec![(FieldName::Content, "hidden")]);

    let source = "{...props} />";
    let token = attribute(source, true);
    assert_eq!(shape(&token), AttributeShape::Spread);
    assert_eq!(text(source, &token), "{...props}");
    assert_eq!(fields(source, &token), vec![(FieldName::Content, "...props")]);

    let source = "{...{ a, b } }>";
    let token = attribute(source, true);
    assert_eq!(shape(&token), AttributeShape::Spread);
    assert_eq!(fields(source, &token), vec![(FieldName::Content, "...{ a, b }")]);

    // Two dots are no spread.
    let source = "{..props}";
    assert_eq!(shape(&attribute(source, true)), AttributeShape::Shorthand);
    let source = "{..}";
    assert_eq!(shape(&attribute(source, true)), AttributeShape::Shorthand);
    let source = "{...}";
    assert_eq!(shape(&attribute(source, true)), AttributeShape::Spread);
}

#[test]
fn directives() {
    let source = "bind:value={name} />";
    let token = attribute(source, true);
    assert_eq!(shape(&token), AttributeShape::Directive(ValueKind::ExpressionValued));
    assert_eq!(
        fields(source, &token),
        vec![
            (FieldName::Directive, "bind"),
            (FieldName::Name, "value"),
            (FieldName::ValueExpression, "{name}"),
        ]
    );

    let source = "use:tooltip>";
    let token = attribute(source, true);
    assert_eq!(shape(&token), AttributeShape::Directive(ValueKind::Missing));
    assert_eq!(
        fields(source, &token),
        vec![(FieldName::Directive, "use"), (FieldName::Name, "tooltip")]
    );

    let source = "style:--css-var=\"x\"";
    let token = attribute(source, true);
    assert_eq!(shape(&token), AttributeShape::Directive(ValueKind::Quoted));
    assert_eq!(
        fields(source, &token),
        vec![
            (FieldName::Directive, "style"),
            (FieldName::Name, "--css-var"),
            (FieldName::ValueText, "x"),
        ]
    );
}

#[test]
fn modifiers_are_kept_in_order_with_their_duplicates() {
    let source = "on:click|preventDefault|stopPropagation={handler}>";
    let token = attribute(source, true);
    assert_eq!(shape(&token), AttributeShape::Directive(ValueKind::ExpressionValued));
    assert_eq!(
        fields(source, &token),
        vec![
            (FieldName::Directive, "on"),
            (FieldName::Name, "click"),
            (FieldName::Modifier, "preventDefault"),
            (FieldName::Modifier, "stopPropagation"),
            (FieldName::ValueExpression, "{handler}"),
        ]
    );
    let modifiers = token.fields_named(FieldName::Modifier);
    assert_eq!(modifiers.len(), 2);
    assert_eq!((modifiers[0].start, modifiers[0].end), (9, 23));
    assert_eq!((modifiers[1].start, modifiers[1].end), (24, 39));

    let source = "on:click|once|once|capture|once";
    let token = attribute(source, true);
    let found: Vec<&str> = token
        .fields_named(FieldName::Modifier)
        .iter()
        .map(|span| &source[span.start..span.end])
        .collect();
    assert_eq!(found, vec!["once", "once", "capture", "once"]);

    // A pipe at the end leaves an empty modifier.
    let source = "on:click|";
    let token = attribute(source, true);
    let found: Vec<&str> = token
        .fields_named(FieldName::Modifier)
        .iter()
        .map(|span| &source[span.start..span.end])
        .collect();
    assert_eq!(found, vec![""]);
}

#[test]
fn a_colon_at_either_end_makes_no_directive() {
    for source in [":click", "on:", ":", "plain"] {
        let token = attribute(source, true);
        assert_eq!(shape(&token), AttributeShape::Plain(ValueKind::Missing), "{:?}", source);
        assert_eq!(fields(source, &token), vec![(FieldName::Name, source)], "{:?}", source);
    }
    // Only the first colon parts the name.
    let source = "a:b:c";
    let token = attribute(source, true);
    assert_eq!(
        fields(source, &token),
        vec![(FieldName::Directive, "a"), (FieldName::Name, "b:c")]
    );
}

#[test]
fn unterminated_values() {
    let source = "a=\"b c";
    let token = attribute(source, true);
    assert_eq!(shape(&token), AttributeShape::Plain(ValueKind::Quoted));
    assert_eq!(token.error, Some(ScanError::UnterminatedConstruct));
    assert_eq!(text(source, &token), source);
    assert_eq!(fields(source, &token), vec![(FieldName::Name, "a"), (FieldName::ValueText, "b c")]);

    let source = "a={b + ";
    let token = attribute(source, true);
    assert_eq!(shape(&token), AttributeShape::Plain(ValueKind::ExpressionValued));
    assert_eq!(token.error, Some(ScanError::UnterminatedConstruct));
    assert_eq!(text(source, &token), source);

    let source = "a=x{b";
    let token = attribute(source, true);
    assert_eq!(shape(&token), AttributeShape::Plain(ValueKind::MixedTextAndExpression));
    assert_eq!(token.error, Some(ScanError::UnterminatedConstruct));

    let source = "a=\"x{b\"";
    let token = attribute(source, true);
    assert_eq!(shape(&token), AttributeShape::Plain(ValueKind::Quoted));
    assert_eq!(token.error, Some(ScanError::UnterminatedConstruct));

    let source = "{...props";
    let token = attribute(source, true);
    assert_eq!(shape(&token), AttributeShape::Spread);
    assert_eq!(token.error, Some(ScanError::UnterminatedConstruct));
    assert_eq!(fields(source, &token), vec![(FieldName::Content, "...props")]);
}

#[test]
fn attributes_in_a_scan() {
    let source = "<div id=\"test\" class='cls' data-value=123 disabled></div>";
    let attributes = attributes_of(source, Layer::Base);
    let texts: Vec<&str> = attributes.iter().map(|token| text(source, token)).collect();
    assert_eq!(texts, vec!["id=\"test\"", "class='cls'", "data-value=123", "disabled"]);
    let shapes: Vec<AttributeShape> = attributes.iter().map(shape).collect();
    assert_eq!(
        shapes,
        vec![
            AttributeShape::Plain(ValueKind::Quoted),
            AttributeShape::Plain(ValueKind::Quoted),
            AttributeShape::Plain(ValueKind::Unquoted),
            AttributeShape::Plain(ValueKind::Missing),
        ]
    );
}

#[test]
fn the_attribute_may_start_anywhere() {
    let source = "<a href=x>";
    let token = scan_attribute(source.as_bytes(), 3, false);
    assert_eq!((token.span.start, token.span.end), (3, 9));
    assert_eq!(fields(source, &token), vec![(FieldName::Name, "href"), (FieldName::ValueText, "x")]);
}

#[test]
fn stray_bytes_in_a_tag() {
    let source = "<div / = a>";
    let (tokens, _) = tokenize(Layer::Base, source.as_bytes());
    let kinds: Vec<TokenKind> = tokens.iter().map(|token| token.kind).collect();
    assert_eq!(
        kinds,
        vec![
            TokenKind::StartTagOpen,
            TokenKind::TagSpace,
            TokenKind::Stray,
            TokenKind::TagSpace,
            TokenKind::Stray,
            TokenKind::TagSpace,
            TokenKind::Attribute(AttributeShape::Plain(ValueKind::Missing)),
            TokenKind::StartTagClose,
        ]
    );
}

#[test]
fn attributes_as_a_tagged_union() {
    let source = "id=\"main\"";
    match attribute_of(&attribute(source, true)).unwrap() {
        Attribute::Plain { name, value } => {
            assert_eq!(&source[name.start..name.end], "id");
            assert_eq!(value, ValueKind::Quoted);
        }
        other => panic!("{:?}", other),
    }

    let source = "{hidden }";
    match attribute_of(&attribute(source, true)).unwrap() {
        Attribute::Shorthand { expression } => {
            assert_eq!(&source[expression.start..expression.end], "hidden");
        }
        other => panic!("{:?}", other),
    }

    let source = "{...props }";
    match attribute_of(&attribute(source, true)).unwrap() {
        Attribute::Spread { expression } => {
            assert_eq!((expression.start, expression.end), (4, 9));
            assert_eq!(&source[expression.start..expression.end], "props");
        }
        other => panic!("{:?}", other),
    }
    let source = "{...}";
    match attribute_of(&attribute(source, true)).unwrap() {
        Attribute::Spread { expression } => {
            assert_eq!((expression.start, expression.end), (4, 4));
        }
        other => panic!("{:?}", other),
    }

    let source = "on:click|once|capture|once={go}";
    match attribute_of(&attribute(source, true)).unwrap() {
        Attribute::Directive { prefix, name, modifiers, value } => {
            assert_eq!(&source[prefix.start..prefix.end], "on");
            assert_eq!(&source[name.start..name.end], "click");
            let found: Vec<&str> =
                modifiers.iter().map(|span| &source[span.start..span.end]).collect();
            assert_eq!(found, vec!["once", "capture", "once"]);
            assert_eq!(value, ValueKind::ExpressionValued);
        }
        other => panic!("{:?}", other),
    }

    let source = "use:action";
    match attribute_of(&attribute(source, true)).unwrap() {
        Attribute::Directive { prefix, name, modifiers, value } => {
            assert_eq!((prefix.start, prefix.end), (0, 3));
            assert_eq!((name.start, name.end), (4, 10));
            assert!(modifiers.is_empty());
            assert_eq!(value, ValueKind::Missing);
        }
        other => panic!("{:?}", other),
    }
}

#[test]
fn every_attribute_of_a_scan_tells_an_attribute() {
    let source = "<a b c=d e='f' g={h} i=j{k} {l} {...m} n:o p:q|r|s=\"t{u}\" v= / = {w>";
    for layer in [Layer::Base, Layer::Expression, Layer::ControlFlow] {
        let attributes = attributes_of(source, layer);
        assert!(attributes.len() >= 10);
        for token in attributes.iter() {
            assert!(attribute_of(token).is_some(), "{:?}", text(source, token));
        }
    }
}

#[test]
fn what_is_no_attribute_tells_none() {
    assert!(attribute_of(&Token::plain(TokenKind::Text, 0, 1)).is_none());
    assert!(attribute_of(&Token::plain(TokenKind::StartTagOpen, 0, 1)).is_none());
    // A token that says it is an attribute and lacks its sub-spans.
    for shape in [
        AttributeShape::Plain(ValueKind::Missing),
        AttributeShape::Shorthand,
        AttributeShape::Spread,
        AttributeShape::Directive(ValueKind::Quoted),
    ] {
        assert!(attribute_of(&Token::plain(TokenKind::Attribute(shape), 0, 9)).is_none());
    }
    let mut token = Token::plain(TokenKind::Attribute(AttributeShape::Directive(ValueKind::Missing)), 0, 9);
    token.fields = vec![Field::new(FieldName::Name, 3, 9)];
    assert!(attribute_of(&token).is_none());
    token.fields = vec![Field::new(FieldName::Directive, 0, 2)];
    assert!(attribute_of(&token).is_none());
    // A spread whose content is too short to hold the dots.
    let mut token = Token::plain(TokenKind::Attribute(AttributeShape::Spread), 0, 4);
    token.fields = vec![Field { name: FieldName::Content, span: Span { start: 1, end: 3 } }];
    assert!(attribute_of(&token).is_none());
    token.fields = vec![Field { name: FieldName::Content, span: Span { start: 1, end: 4 } }];
    assert!(attribute_of(&token).is_some());
    token.fields = vec![Field { name: FieldName::Content, span: Span { start: 4, end: 1 } }];
    assert!(attribute_of(&token).is_none());
    token.fields = vec![Field { name: FieldName::Content, span: Span { start: 0, end: 2 } }];
    assert!(attribute_of(&token).is_none());
    token.fields =
        vec![Field { name: FieldName::Content, span: Span { start: usize::MAX - 1, end: usize::MAX } }];
    assert!(attribute_of(&token).is_none());
}
