//! The lexical modes: character data, tags, raw text and escapable raw text.

use markup_scanner::element::Layer;
use markup_scanner::scanner::{next_token, Mode, ScanState};
use markup_scanner::stream::{finish, tokenize, Scanner};
use markup_scanner::token::{
    AttributeShape, FieldName, ReferenceKind, ScanError, Token, TokenKind, ValueKind,
};

fn texts<'a>(source: &'a str, tokens: &[Token]) -> Vec<(TokenKind, &'a str)> {
    tokens.iter().map(|token| (token.kind, &source[token.span.start..token.span.end])).collect()
}

fn fields<'a>(source: &'a str, token: &Token) -> Vec<(FieldName, &'a str)> {
    token
        .fields
        .iter()
        .map(|field| (field.name, &source[field.span.start..field.span.end]))
        .collect()
}

fn names(state: &ScanState) -> Vec<String> {
    state
        .elements
        .entries
        .iter()
        .map(|entry| String::from_utf8(entry.name.clone()).unwrap())
        .collect()
}

#[test]
fn a_simple_element() {
    let source = "<div>Hello</div>";
    let (tokens, state) = tokenize(Layer::Base, source.as_bytes());
    assert_eq!(
        texts(source, &tokens),
        vec![
            (TokenKind::StartTagOpen, "<div"),
            (TokenKind::StartTagClose, ">"),
            (TokenKind::Text, "Hello"),
            (TokenKind::EndTag, "</div>"),
        ]
    );
    assert_eq!(fields(source, &tokens[0]), vec![(FieldName::Name, "div")]);
    assert_eq!(fields(source, &tokens[3]), vec![(FieldName::Name, "div")]);
    assert_eq!(state.mode, Mode::Data);
    assert_eq!(state.elements.depth(), 0);
    assert!(state.pending.is_empty());
}

#[test]
fn the_modes_follow_the_tokens() {
    let source = "a<p b>c<script>d</script>e<title>f</title>";
    let mut scanner = Scanner::new(Layer::Base, source.as_bytes());
    let mut seen = Vec::new();
    assert_eq!(scanner.state.mode, Mode::Data);
    while let Some(token) = scanner.next_token() {
        seen.push((&source[token.span.start..token.span.end], scanner.state.mode));
    }
    assert_eq!(
        seen,
        vec![
            ("a", Mode::Data),
            ("<p", Mode::TagOpen),
            (" ", Mode::TagOpen),
            ("b", Mode::TagOpen),
            (">", Mode::Data),
            ("c", Mode::Data),
            ("<script", Mode::TagOpen),
            (">", Mode::RawText),
            ("d", Mode::RawText),
            ("</script>", Mode::Data),
            ("e", Mode::Data),
            ("<title", Mode::TagOpen),
            (">", Mode::EscapableRawText),
            ("f", Mode::EscapableRawText),
            ("</title>", Mode::Data),
        ]
    );
    assert!(scanner.at_end());
    assert_eq!(scanner.next_token().map(|token| token.kind), None);
}

#[test]
fn the_pending_name_is_kept_inside_the_tag_only() {
    let source = "<DIV class=a>";
    let mut state = ScanState::new();
    let token = next_token(Layer::Base, &mut state, source.as_bytes(), 0);
    assert_eq!(token.kind, TokenKind::StartTagOpen);
    assert_eq!(state.mode, Mode::TagOpen);
    assert_eq!(state.pending, b"div".to_vec());
    assert_eq!(state.elements.depth(), 0);
    let token = next_token(Layer::Base, &mut state, source.as_bytes(), 4);
    assert_eq!(token.kind, TokenKind::TagSpace);
    let token = next_token(Layer::Base, &mut state, source.as_bytes(), 5);
    assert_eq!(token.kind, TokenKind::Attribute(AttributeShape::Plain(ValueKind::Unquoted)));
    assert_eq!(state.pending, b"div".to_vec());
    let token = next_token(Layer::Base, &mut state, source.as_bytes(), 12);
    assert_eq!(token.kind, TokenKind::StartTagClose);
    assert_eq!(state.mode, Mode::Data);
    assert!(state.pending.is_empty());
    assert_eq!(names(&state), vec!["div"]);
}

#[test]
fn tag_name_shapes() {
    let source = "<Component/>";
    let (tokens, _) = tokenize(Layer::Expression, source.as_bytes());
    assert_eq!(fields(source, &tokens[0]), vec![(FieldName::Name, "Component")]);

    let source = "<svelte:head>";
    let (tokens, state) = tokenize(Layer::ControlFlow, source.as_bytes());
    assert_eq!(
        fields(source, &tokens[0]),
        vec![(FieldName::Namespace, "svelte"), (FieldName::Name, "head")]
    );
    assert_eq!(names(&state), vec!["svelte:head"]);

    let source = "<UI.Button>";
    let (tokens, state) = tokenize(Layer::Expression, source.as_bytes());
    assert_eq!(
        fields(source, &tokens[0]),
        vec![(FieldName::Object, "UI"), (FieldName::Property, "Button")]
    );
    assert_eq!(names(&state), vec!["UI.Button"]);

    let source = "<A.B.C.D />";
    let (tokens, _) = tokenize(Layer::Expression, source.as_bytes());
    assert_eq!(
        fields(source, &tokens[0]),
        vec![
            (FieldName::Object, "A"),
            (FieldName::Property, "B"),
            (FieldName::Property, "C"),
            (FieldName::Property, "D"),
        ]
    );

    // The first of `.` and `:` decides; a name is never both.
    let source = "<a.b:c>";
    let (tokens, _) = tokenize(Layer::Expression, source.as_bytes());
    assert_eq!(
        fields(source, &tokens[0]),
        vec![(FieldName::Object, "a"), (FieldName::Property, "b:c")]
    );
    let source = "<a:b.c>";
    let (tokens, _) = tokenize(Layer::Expression, source.as_bytes());
    assert_eq!(
        fields(source, &tokens[0]),
        vec![(FieldName::Namespace, "a"), (FieldName::Name, "b.c")]
    );

    let source = "</svg:rect>";
    let (tokens, _) = tokenize(Layer::Base, source.as_bytes());
    assert_eq!(
        fields(source, &tokens[0]),
        vec![(FieldName::Namespace, "svg"), (FieldName::Name, "rect")]
    );
}

#[test]
fn dotted_components_open_and_close() {
    let source = "<UI.Card><UI.Card.Title>x</UI.Card.Title></UI.Card>";
    let (tokens, state) = tokenize(Layer::ControlFlow, source.as_bytes());
    assert!(tokens.iter().all(|token| token.error.is_none()));
    assert_eq!(state.elements.depth(), 0);
}

#[test]
fn what_opens_nothing_is_text() {
    for source in ["<", "a < b", "<>", "< div>", "<1>", "</>", "</ div>", "</", "&", "a & b", "&;", "}"] {
        let (tokens, state) = tokenize(Layer::ControlFlow, source.as_bytes());
        assert!(tokens.iter().all(|token| token.kind == TokenKind::Text), "{:?}", source);
        assert!(tokens.iter().all(|token| token.error.is_none()), "{:?}", source);
        assert_eq!(state.mode, Mode::Data);
    }
    // Text runs up to the next byte that may open something, and that byte
    // starts a token of its own.
    let source = "a < b";
    let (tokens, _) = tokenize(Layer::Base, source.as_bytes());
    assert_eq!(texts(source, &tokens), vec![(TokenKind::Text, "a "), (TokenKind::Text, "< b")]);
}

#[test]
fn comments() {
    for source in [
        "<!-- comment -->",
        "<!---->",
        "<!--\n  multi\n  line\n-->",
        "<!-- comment -- with dashes -->",
        "<!-- <p>commented out</p> -->",
        "<!-- {#if condition}hidden{/if} -->",
        "<!-- &amp; -->",
        "<!-- -- > -->",
    ] {
        let (tokens, state) = tokenize(Layer::ControlFlow, source.as_bytes());
        assert_eq!(texts(source, &tokens), vec![(TokenKind::Comment, source)], "{:?}", source);
        assert_eq!(tokens[0].error, None);
        assert_eq!(state.mode, Mode::Data);
    }
    let source = "<!-- first --><!-- second -->x";
    let (tokens, _) = tokenize(Layer::Base, source.as_bytes());
    assert_eq!(
        texts(source, &tokens),
        vec![
            (TokenKind::Comment, "<!-- first -->"),
            (TokenKind::Comment, "<!-- second -->"),
            (TokenKind::Text, "x"),
        ]
    );
    // The dashes that open a comment do not close it.
    let source = "<!-->x-->y";
    let (tokens, _) = tokenize(Layer::Base, source.as_bytes());
    assert_eq!(
        texts(source, &tokens),
        vec![(TokenKind::Comment, "<!-->x-->"), (TokenKind::Text, "y")]
    );
}

#[test]
fn document_types_and_other_declarations() {
    for source in ["<!DOCTYPE html>", "<!doctype html>", "<!DocType html PUBLIC \"x\">"] {
        let (tokens, _) = tokenize(Layer::Base, source.as_bytes());
        assert_eq!(texts(source, &tokens), vec![(TokenKind::Doctype, source)], "{:?}", source);
        assert_eq!(tokens[0].error, None);
    }
    for source in ["<!>", "<!ELEMENT a>", "<!-x>", "<!doctyp>", "<![CDATA[x]]>"] {
        let (tokens, _) = tokenize(Layer::Base, source.as_bytes());
        assert_eq!(texts(source, &tokens), vec![(TokenKind::Comment, source)], "{:?}", source);
        assert_eq!(tokens[0].error, None);
    }
    let source = "<!DOCTYPE html><html></html>";
    let (tokens, _) = tokenize(Layer::Base, source.as_bytes());
    assert_eq!(tokens[0].kind, TokenKind::Doctype);
    assert_eq!((tokens[0].span.start, tokens[0].span.end), (0, 15));
}

#[test]
fn unterminated_declarations() {
    for (source, kind) in [
        ("<!-- never closed", TokenKind::Comment),
        ("<!-- never closed --", TokenKind::Comment),
        ("<!--", TokenKind::Comment),
        ("<!---", TokenKind::Comment),
        ("<!", TokenKind::Comment),
        ("<!DOCTYPE html", TokenKind::Doctype),
    ] {
        let (tokens, state) = tokenize(Layer::Base, source.as_bytes());
        assert_eq!(texts(source, &tokens), vec![(kind, source)], "{:?}", source);
        assert_eq!(tokens[0].error, Some(ScanError::UnterminatedConstruct), "{:?}", source);
        assert_eq!(state.mode, Mode::Data);
    }
}

#[test]
fn end_tags() {
    let source = "<div></div  >x";
    let (tokens, _) = tokenize(Layer::Base, source.as_bytes());
    assert_eq!(tokens[2].kind, TokenKind::EndTag);
    assert_eq!((tokens[2].span.start, tokens[2].span.end), (5, 13));
    assert_eq!(fields(source, &tokens[2]), vec![(FieldName::Name, "div")]);
    assert_eq!(tokens[2].error, None);

    // What stands between the name and `>` is part of the end tag.
    let source = "<div></div class='a'>x";
    let (tokens, _) = tokenize(Layer::Base, source.as_bytes());
    assert_eq!((tokens[2].span.start, tokens[2].span.end), (5, 21));

    let source = "<div></div";
    let (tokens, state) = tokenize(Layer::Base, source.as_bytes());
    assert_eq!(tokens[2].kind, TokenKind::EndTag);
    assert_eq!(tokens[2].error, Some(ScanError::UnterminatedConstruct));
    assert_eq!((tokens[2].span.start, tokens[2].span.end), (5, 10));
    // It still closes its element.
    assert_eq!(state.elements.depth(), 0);
}

#[test]
fn script_and_style_are_verbatim() {
    let source = "<script>const x = \"<div></div>\"; a && b; &amp; {#if}</script>after";
    for layer in [Layer::Base, Layer::Expression, Layer::ControlFlow] {
        let (tokens, state) = tokenize(layer, source.as_bytes());
        assert_eq!(
            texts(source, &tokens),
            vec![
                (TokenKind::StartTagOpen, "<script"),
                (TokenKind::StartTagClose, ">"),
                (TokenKind::RawText, "const x = \"<div></div>\"; a && b; &amp; {#if}"),
                (TokenKind::EndTag, "</script>"),
                (TokenKind::Text, "after"),
            ]
        );
        assert!(tokens[2].fields.is_empty());
        assert!(tokens.iter().all(|token| token.error.is_none()));
        assert_eq!(state.elements.depth(), 0);
    }
    let source = "<style>div > p { color: red; } /* </styl */</style>";
    let (tokens, _) = tokenize(Layer::ControlFlow, source.as_bytes());
    assert_eq!(tokens[2].kind, TokenKind::RawText);
    assert_eq!(
        &source[tokens[2].span.start..tokens[2].span.end],
        "div > p { color: red; } /* </styl */"
    );
}

#[test]
fn the_end_tag_of_raw_text_matches_in_any_case() {
    for close in ["</script>", "</SCRIPT>", "</Script>", "</sCrIpT >", "</script\n>", "</script/>"] {
        for layer in [Layer::Base, Layer::ControlFlow] {
            let source = format!("<script>a{}b", close);
            let (tokens, state) = tokenize(layer, source.as_bytes());
            assert_eq!(tokens[2].kind, TokenKind::RawText, "{:?}", source);
            assert_eq!((tokens[2].span.start, tokens[2].span.end), (8, 9), "{:?}", source);
            assert_eq!(tokens[3].kind, TokenKind::EndTag, "{:?}", source);
            assert_eq!(tokens[3].implicit_closes, 0);
            assert_eq!(tokens[3].error, None);
            assert_eq!(
                (tokens[3].span.start, tokens[3].span.end),
                (9, 9 + close.len()),
                "{:?}",
                source
            );
            assert_eq!(tokens[3].fields.len(), 1);
            assert_eq!(tokens[3].fields[0].name, FieldName::Name);
            assert_eq!(
                (tokens[3].fields[0].span.start, tokens[3].fields[0].span.end),
                (11, 17)
            );
            assert_eq!(tokens[4].kind, TokenKind::Text);
            assert_eq!(state.elements.depth(), 0);
        }
    }
}

#[test]
fn other_end_tags_do_not_end_raw_text() {
    for inside in ["</scrip>", "</scripts>", "</script-x>", "</style>", "</ script>", "<script>", "</div>", "</script"] {
        let source = format!("<script>{}x</script>", inside);
        let (tokens, state) = tokenize(Layer::Base, source.as_bytes());
        if inside == "</script" {
            // Followed by `x`, the name goes on and is another name.
            assert_eq!(tokens[2].kind, TokenKind::RawText);
        }
        assert_eq!(tokens.len(), 4, "{:?}", source);
        assert_eq!(tokens[2].kind, TokenKind::RawText, "{:?}", source);
        assert_eq!(
            &source[tokens[2].span.start..tokens[2].span.end],
            format!("{}x", inside),
            "{:?}",
            source
        );
        assert_eq!(state.elements.depth(), 0);
    }
}

#[test]
fn an_empty_raw_text_element_has_no_raw_text() {
    let source = "<script></script>";
    let (tokens, state) = tokenize(Layer::Base, source.as_bytes());
    assert_eq!(
        texts(source, &tokens),
        vec![
            (TokenKind::StartTagOpen, "<script"),
            (TokenKind::StartTagClose, ">"),
            (TokenKind::EndTag, "</script>"),
        ]
    );
    assert_eq!(state.mode, Mode::Data);
}

#[test]
fn a_self_closing_raw_text_tag_enters_no_mode() {
    let source = "<script src=x /><p>";
    let (tokens, state) = tokenize(Layer::Expression, source.as_bytes());
    assert_eq!(tokens.last().unwrap().kind, TokenKind::StartTagClose);
    assert_eq!(names(&state), vec!["p"]);
    assert_eq!(state.mode, Mode::Data);
}

#[test]
fn a_capitalised_script_is_a_component_above_the_base_layer() {
    let source = "<Script><b></b></Script>";
    let (tokens, state) = tokenize(Layer::Expression, source.as_bytes());
    assert!(tokens.iter().all(|token| token.kind != TokenKind::RawText));
    assert_eq!(state.elements.depth(), 0);
    let (tokens, _) = tokenize(Layer::Base, source.as_bytes());
    assert_eq!(tokens[2].kind, TokenKind::RawText);
    assert_eq!(&source[tokens[2].span.start..tokens[2].span.end], "<b></b>");
}

#[test]
fn raw_text_that_the_input_ends_in() {
    let source = "<div><script>let a = 1;";
    let (tokens, state) = tokenize(Layer::Base, source.as_bytes());
    let last = tokens.last().unwrap();
    assert_eq!(last.kind, TokenKind::RawText);
    assert_eq!(&source[last.span.start..last.span.end], "let a = 1;");
    assert_eq!(last.error, None);
    assert_eq!(state.mode, Mode::RawText);
    let end = finish(state);
    assert_eq!(end.error, Some(ScanError::UnterminatedConstruct));
    assert_eq!(end.elements, vec![b"script".to_vec(), b"div".to_vec()]);

    let (_, state) = tokenize(Layer::Base, b"<textarea>abc");
    assert_eq!(state.mode, Mode::EscapableRawText);
    let end = finish(state);
    assert_eq!(end.error, Some(ScanError::UnterminatedConstruct));
    assert_eq!(end.elements, vec![b"textarea".to_vec()]);
}

#[test]
fn a_tag_that_the_input_ends_in() {
    let source = "<div class=\"a\"";
    let (tokens, state) = tokenize(Layer::Base, source.as_bytes());
    assert!(tokens.iter().all(|token| token.error.is_none()));
    assert_eq!(state.mode, Mode::TagOpen);
    let end = finish(state);
    assert_eq!(end.error, Some(ScanError::UnterminatedConstruct));
    // The element never opened.
    assert!(end.elements.is_empty());
}

#[test]
fn escapable_raw_text_holds_references_and_no_tags() {
    let source = "<textarea>Some <b>text</b> &amp; {more} &#60;</textarea>";
    for layer in [Layer::Base, Layer::ControlFlow] {
        let (tokens, state) = tokenize(layer, source.as_bytes());
        assert_eq!(
            texts(source, &tokens),
            vec![
                (TokenKind::StartTagOpen, "<textarea"),
                (TokenKind::StartTagClose, ">"),
                (TokenKind::Text, "Some <b>text</b> "),
                (TokenKind::CharacterReference(ReferenceKind::Named), "&amp;"),
                (TokenKind::Text, " {more} "),
                (TokenKind::CharacterReference(ReferenceKind::Decimal), "&#60;"),
                (TokenKind::EndTag, "</textarea>"),
            ]
        );
        assert!(tokens.iter().all(|token| token.error.is_none()));
        assert_eq!(state.elements.depth(), 0);
    }
    let source = "<title>Page <Title> Test & more</TITLE>";
    let (tokens, state) = tokenize(Layer::Base, source.as_bytes());
    assert_eq!(
        texts(source, &tokens),
        vec![
            (TokenKind::StartTagOpen, "<title"),
            (TokenKind::StartTagClose, ">"),
            (TokenKind::Text, "Page <Title> Test "),
            (TokenKind::Text, "& more"),
            (TokenKind::EndTag, "</TITLE>"),
        ]
    );
    assert_eq!(state.elements.depth(), 0);
}

#[test]
fn references_in_character_data() {
    let source = "<p>&amp; &lt; &gt; &#60; &#x3C;</p>";
    let (tokens, _) = tokenize(Layer::Base, source.as_bytes());
    let references: Vec<(TokenKind, &str)> = texts(source, &tokens)
        .into_iter()
        .filter(|(kind, _)| matches!(kind, TokenKind::CharacterReference(_)))
        .collect();
    assert_eq!(
        references,
        vec![
            (TokenKind::CharacterReference(ReferenceKind::Named), "&amp;"),
            (TokenKind::CharacterReference(ReferenceKind::Named), "&lt;"),
            (TokenKind::CharacterReference(ReferenceKind::Named), "&gt;"),
            (TokenKind::CharacterReference(ReferenceKind::Decimal), "&#60;"),
            (TokenKind::CharacterReference(ReferenceKind::Hexadecimal), "&#x3C;"),
        ]
    );
}

#[test]
fn whitespace_in_tags() {
    let source = "<img \t\n src=a\r\n/>";
    let (tokens, _) = tokenize(Layer::Base, source.as_bytes());
    assert_eq!(
        texts(source, &tokens),
        vec![
            (TokenKind::StartTagOpen, "<img"),
            (TokenKind::TagSpace, " \t\n "),
            (TokenKind::Attribute(AttributeShape::Plain(ValueKind::Unquoted)), "src=a"),
            (TokenKind::TagSpace, "\r\n"),
            (TokenKind::SelfClosingTagClose, "/>"),
        ]
    );
}

#[test]
fn every_token_is_plain_about_what_it_closes() {
    let source = "<p>a<p>b<div>c</div>";
    let (tokens, _) = tokenize(Layer::Base, source.as_bytes());
    let closes: Vec<(TokenKind, usize)> = tokens
        .iter()
        .filter(|token| token.implicit_closes > 0)
        .map(|token| (token.kind, token.implicit_closes))
        .collect();
    assert_eq!(closes, vec![(TokenKind::StartTagOpen, 1), (TokenKind::StartTagOpen, 1)]);
}
