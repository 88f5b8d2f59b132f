//! The attribute classifier: one attribute of an open tag, with the form of
//! its name and the form of its value.

use vstd::prelude::*;
use crate::ascii::{
    ByteClass, COLON, DOUBLE_QUOTE, EQUALS, GREATER_THAN, OPEN_BRACE, PIPE, SINGLE_QUOTE, SLASH,
};
use crate::ascii::{spec_in_class, spec_is_space, spec_run_end, spec_trim_end, spec_word_at};
use crate::ascii::{is_space, run_end, trim_end, word_at};
use crate::expression::{scan_expression, spec_expression_close};
use crate::token::{AttributeShape, Field, FieldName, ScanError, Span, Token, TokenKind, TokenView, ValueKind};

verus! {

/// The parts of an attribute value, where they end, and whether the value
/// was closed before the input ended.
pub struct Parts {
    pub fields: Seq<Field>,
    pub end: int,
    pub closed: bool,
}

/// `rest` with the parts `acc` before its own.
pub open spec fn spec_after(acc: Seq<Field>, rest: Parts) -> Parts {
    Parts { fields: acc + rest.fields, end: rest.end, closed: rest.closed }
}

/// The parts of a quoted value from `i` on: literal text and, where
/// `braces` is set, expressions, up to the closing quote, which stands at
/// `end`. A quote inside an expression does not close the value.
pub open spec fn spec_quoted_parts(buf: Seq<u8>, i: int, quote: u8, braces: bool) -> Parts
    decreases buf.len() - i,
{
    if i < 0 || i >= buf.len() {
        Parts { fields: Seq::empty(), end: buf.len() as int, closed: false }
    } else if buf[i] == quote {
        Parts { fields: Seq::empty(), end: i, closed: true }
    } else if braces && buf[i] == OPEN_BRACE {
        match spec_expression_close(buf, i + 1) {
            Some(c) => if i < c < buf.len() {
                spec_after(
                    seq![Field::spec_new(FieldName::ValueExpression, i, c + 1)],
                    spec_quoted_parts(buf, c + 1, quote, braces),
                )
            } else {
                Parts { fields: Seq::empty(), end: buf.len() as int, closed: false }
            },
            None => Parts {
                fields: seq![Field::spec_new(FieldName::ValueExpression, i, buf.len() as int)],
                end: buf.len() as int,
                closed: false,
            },
        }
    } else {
        let e = spec_run_end(buf, i, buf.len() as int, ByteClass::QuotedText { quote, braces });
        if i < e <= buf.len() {
            spec_after(
                seq![Field::spec_new(FieldName::ValueText, i, e)],
                spec_quoted_parts(buf, e, quote, braces),
            )
        } else {
            Parts { fields: Seq::empty(), end: buf.len() as int, closed: false }
        }
    }
}

/// Whether an unquoted value ends at `i`: at the end of the input, at
/// whitespace, at `>` and at `/>`.
pub open spec fn spec_value_stop(buf: Seq<u8>, i: int) -> bool {
    i >= buf.len() || spec_is_space(buf[i]) || buf[i] == GREATER_THAN || (buf[i] == SLASH && i + 1
        < buf.len() && buf[i + 1] == GREATER_THAN)
}

/// The end of the literal text that starts at `i` in an unquoted value: the
/// first position at which the value ends or, where `braces` is set, an
/// expression starts.
pub open spec fn spec_bare_text_end(buf: Seq<u8>, i: int, braces: bool) -> int
    decreases buf.len() - i,
{
    if i < 0 || spec_value_stop(buf, i) || (braces && buf[i] == OPEN_BRACE) {
        i
    } else {
        spec_bare_text_end(buf, i + 1, braces)
    }
}

/// The parts of an unquoted value from `i` on: literal text and, where
/// `braces` is set, expressions, with nothing between them.
pub open spec fn spec_bare_parts(buf: Seq<u8>, i: int, braces: bool) -> Parts
    decreases buf.len() - i,
{
    if i < 0 || spec_value_stop(buf, i) {
        Parts { fields: Seq::empty(), end: i, closed: true }
    } else if braces && buf[i] == OPEN_BRACE {
        match spec_expression_close(buf, i + 1) {
            Some(c) => if i < c < buf.len() {
                spec_after(
                    seq![Field::spec_new(FieldName::ValueExpression, i, c + 1)],
                    spec_bare_parts(buf, c + 1, braces),
                )
            } else {
                Parts { fields: Seq::empty(), end: buf.len() as int, closed: false }
            },
            None => Parts {
                fields: seq![Field::spec_new(FieldName::ValueExpression, i, buf.len() as int)],
                end: buf.len() as int,
                closed: false,
            },
        }
    } else {
        let e = spec_bare_text_end(buf, i + 1, braces);
        if i < e <= buf.len() {
            spec_after(
                seq![Field::spec_new(FieldName::ValueText, i, e)],
                spec_bare_parts(buf, e, braces),
            )
        } else {
            Parts { fields: Seq::empty(), end: buf.len() as int, closed: false }
        }
    }
}

/// Whether one of the parts is an expression.
pub open spec fn spec_has_expression(parts: Seq<Field>) -> bool {
    exists|k: int| 0 <= k < parts.len() && (#[trigger] parts[k]).name == FieldName::ValueExpression
}

/// The kind of an unquoted value with these parts.
pub open spec fn spec_bare_kind(parts: Seq<Field>) -> ValueKind {
    if !spec_has_expression(parts) {
        ValueKind::Unquoted
    } else if parts.len() == 1 {
        ValueKind::ExpressionValued
    } else {
        ValueKind::MixedTextAndExpression
    }
}

/// The segments of a name after its first: `m` is the position of a
/// separator, or the end of the name, `n`. Each segment runs from after a
/// separator to the next separator or to `n`, and may be empty.
pub open spec fn spec_segments(buf: Seq<u8>, m: int, n: int, separator: u8, name: FieldName) -> Seq<
    Field,
>
    decreases n - m,
{
    if m < 0 || m >= n || n > buf.len() {
        Seq::empty()
    } else {
        let e = spec_run_end(buf, m + 1, n, ByteClass::Except(separator));
        if m < e <= n {
            seq![Field::spec_new(name, m + 1, e)] + spec_segments(buf, e, n, separator, name)
        } else {
            Seq::empty()
        }
    }
}

/// Whether the name in `[pos, n)` is a directive's: the layer has
/// expressions, and the name has a colon with something on both sides.
pub open spec fn spec_is_directive(buf: Seq<u8>, pos: int, n: int, braces: bool) -> bool {
    let c = spec_run_end(buf, pos, n, ByteClass::Except(COLON));
    braces && pos < c && c + 1 < n
}

/// The sub-spans of the name in `[pos, n)`.
pub open spec fn spec_name_fields(buf: Seq<u8>, pos: int, n: int, braces: bool) -> Seq<Field> {
    let c = spec_run_end(buf, pos, n, ByteClass::Except(COLON));
    let m = spec_run_end(buf, c + 1, n, ByteClass::Except(PIPE));
    if spec_is_directive(buf, pos, n, braces) {
        seq![
            Field::spec_new(FieldName::Directive, pos, c),
            Field::spec_new(FieldName::Name, c + 1, m),
        ] + spec_segments(buf, m, n, PIPE, FieldName::Modifier)
    } else {
        seq![Field::spec_new(FieldName::Name, pos, n)]
    }
}

/// The shape of an attribute with a name, by its name and its value.
pub open spec fn spec_named_shape(directive: bool, value: ValueKind) -> AttributeShape {
    if directive {
        AttributeShape::Directive(value)
    } else {
        AttributeShape::Plain(value)
    }
}

/// `{expression}` or `{...expression}` in the place of an attribute.
pub open spec fn spec_brace_attribute(buf: Seq<u8>, pos: int) -> TokenView {
    let close = spec_expression_close(buf, pos + 1);
    let stop = match close {
        Some(c) => c,
        None => buf.len() as int,
    };
    let shape = if spec_word_at(buf, pos + 1, stop, "...") {
        AttributeShape::Spread
    } else {
        AttributeShape::Shorthand
    };
    TokenView {
        kind: TokenKind::Attribute(shape),
        span: Span::spec_new(
            pos,
            if close is Some {
                stop + 1
            } else {
                stop
            },
        ),
        fields: seq![
            Field::spec_new(FieldName::Content, pos + 1, spec_trim_end(buf, pos + 1, stop)),
        ],
        implicit_closes: 0,
        error: if close is Some {
            None
        } else {
            Some(ScanError::UnterminatedConstruct)
        },
    }
}

/// An attribute with a name. The name runs from `pos` to whitespace, `=`,
/// `>` or `/`. A value follows where `=` comes next, whitespace apart.
pub open spec fn spec_named_attribute(buf: Seq<u8>, pos: int, braces: bool) -> TokenView {
    let len = buf.len() as int;
    let n = spec_run_end(buf, pos, len, ByteClass::AttributeName);
    let p = spec_run_end(buf, n, len, ByteClass::Space);
    let v = spec_run_end(buf, p + 1, len, ByteClass::Space);
    let names = spec_name_fields(buf, pos, n, braces);
    let directive = spec_is_directive(buf, pos, n, braces);
    if !(p < len && buf[p] == EQUALS) {
        TokenView {
            kind: TokenKind::Attribute(spec_named_shape(directive, ValueKind::Missing)),
            span: Span::spec_new(pos, n),
            fields: names,
            implicit_closes: 0,
            error: None,
        }
    } else if spec_value_stop(buf, v) {
        TokenView {
            kind: TokenKind::Attribute(spec_named_shape(directive, ValueKind::Missing)),
            span: Span::spec_new(pos, p + 1),
            fields: names,
            implicit_closes: 0,
            error: None,
        }
    } else if buf[v] == DOUBLE_QUOTE || buf[v] == SINGLE_QUOTE {
        let parts = spec_quoted_parts(buf, v + 1, buf[v], braces);
        TokenView {
            kind: TokenKind::Attribute(spec_named_shape(directive, ValueKind::Quoted)),
            span: Span::spec_new(
                pos,
                if parts.closed {
                    parts.end + 1
                } else {
                    parts.end
                },
            ),
            fields: names + parts.fields,
            implicit_closes: 0,
            error: if parts.closed {
                None
            } else {
                Some(ScanError::UnterminatedConstruct)
            },
        }
    } else {
        let parts = spec_bare_parts(buf, v, braces);
        TokenView {
            kind: TokenKind::Attribute(
                spec_named_shape(directive, spec_bare_kind(parts.fields)),
            ),
            span: Span::spec_new(pos, parts.end),
            fields: names + parts.fields,
            implicit_closes: 0,
            error: if parts.closed {
                None
            } else {
                Some(ScanError::UnterminatedConstruct)
            },
        }
    }
}

/// The attribute that starts at `pos`.
pub open spec fn spec_attribute(buf: Seq<u8>, pos: int, braces: bool) -> TokenView {
    if braces && buf[pos] == OPEN_BRACE {
        spec_brace_attribute(buf, pos)
    } else {
        spec_named_attribute(buf, pos, braces)
    }
}

/// The parts of a quoted value end inside the input, and on the quote where
/// the value is closed.
pub proof fn lemma_quoted_parts_end(buf: Seq<u8>, i: int, quote: u8, braces: bool)
    requires
        0 <= i <= buf.len(),
    ensures
        i <= spec_quoted_parts(buf, i, quote, braces).end <= buf.len(),
        spec_quoted_parts(buf, i, quote, braces).closed ==> spec_quoted_parts(
            buf,
            i,
            quote,
            braces,
        ).end < buf.len(),
    decreases buf.len() - i,
{
    if i < buf.len() && buf[i] != quote {
        if braces && buf[i] == OPEN_BRACE {
            match spec_expression_close(buf, i + 1) {
                Some(c) => {
                    if i < c < buf.len() {
                        lemma_quoted_parts_end(buf, c + 1, quote, braces);
                    }
                },
                None => {},
            }
        } else {
            let e = spec_run_end(buf, i, buf.len() as int, ByteClass::QuotedText { quote, braces });
            crate::ascii::lemma_run_end(
                buf,
                i,
                buf.len() as int,
                ByteClass::QuotedText { quote, braces },
            );
            if i < e {
                lemma_quoted_parts_end(buf, e, quote, braces);
            }
        }
    }
}

/// The literal text of an unquoted value ends inside the input.
pub proof fn lemma_bare_text_end(buf: Seq<u8>, i: int, braces: bool)
    requires
        0 <= i <= buf.len(),
    ensures
        i <= spec_bare_text_end(buf, i, braces) <= buf.len(),
    decreases buf.len() - i,
{
    if !(spec_value_stop(buf, i) || (braces && buf[i] == OPEN_BRACE)) {
        lemma_bare_text_end(buf, i + 1, braces);
    }
}

/// The parts of an unquoted value that does not end at once end after
/// their start, inside the input.
pub proof fn lemma_bare_parts_end(buf: Seq<u8>, i: int, braces: bool)
    requires
        0 <= i <= buf.len(),
    ensures
        i <= spec_bare_parts(buf, i, braces).end <= buf.len(),
        !spec_value_stop(buf, i) ==> i < spec_bare_parts(buf, i, braces).end,
    decreases buf.len() - i,
{
    if !spec_value_stop(buf, i) {
        if braces && buf[i] == OPEN_BRACE {
            match spec_expression_close(buf, i + 1) {
                Some(c) => {
                    if i < c < buf.len() {
                        lemma_bare_parts_end(buf, c + 1, braces);
                    }
                },
                None => {},
            }
        } else {
            lemma_bare_text_end(buf, i + 1, braces);
            let e = spec_bare_text_end(buf, i + 1, braces);
            lemma_bare_parts_end(buf, e, braces);
        }
    }
}

/// A part that is pushed after the parts `acc` stands before the parts
/// `rest` that follow it.
proof fn lemma_part_pushed(base: Seq<Field>, acc: Seq<Field>, field: Field, rest: Seq<Field>)
    ensures
        acc + (seq![field] + rest) == acc.push(field) + rest,
        acc + seq![field] == acc.push(field),
        base + acc.push(field) == (base + acc).push(field),
{
    assert(acc + (seq![field] + rest) =~= acc.push(field) + rest);
    assert(acc + seq![field] =~= acc.push(field));
    assert(base + acc.push(field) =~= (base + acc).push(field));
}

fn value_stop(buf: &[u8], i: usize) -> (r: bool)
    requires
        i <= buf@.len(),
    ensures
        r == spec_value_stop(buf@, i as int),
{
    i >= buf.len() || is_space(buf[i]) || buf[i] == GREATER_THAN || (buf[i] == SLASH && i + 1
        < buf.len() && buf[i + 1] == GREATER_THAN)
}

fn bare_text_end(buf: &[u8], from: usize, braces: bool) -> (e: usize)
    requires
        from <= buf@.len(),
    ensures
        e == spec_bare_text_end(buf@, from as int, braces),
        from <= e <= buf@.len(),
{
    let len = buf.len();
    let mut i: usize = from;
    while !value_stop(buf, i) && !(braces && buf[i] == OPEN_BRACE)
        invariant
            from <= i <= buf@.len(),
            len == buf@.len(),
            spec_bare_text_end(buf@, from as int, braces) == spec_bare_text_end(
                buf@,
                i as int,
                braces,
            ),
        decreases buf@.len() - i,
    {
        i += 1;
    }
    i
}

/// Appends the parts of a quoted value from `start` on to `fields`, and
/// returns where they end and whether the value is closed there.
fn quoted_parts(buf: &[u8], start: usize, quote: u8, braces: bool, fields: &mut Vec<Field>) -> (r:
    (usize, bool))
    requires
        start <= buf@.len(),
    ensures
        final(fields)@ == old(fields)@ + spec_quoted_parts(
            buf@,
            start as int,
            quote,
            braces,
        ).fields,
        r.0 == spec_quoted_parts(buf@, start as int, quote, braces).end,
        r.1 == spec_quoted_parts(buf@, start as int, quote, braces).closed,
        start <= r.0 <= buf@.len(),
        r.1 ==> r.0 < buf@.len(),
{
    let ghost whole = spec_quoted_parts(buf@, start as int, quote, braces);
    let ghost mut acc: Seq<Field> = Seq::empty();
    let len = buf.len();
    let mut i: usize = start;
    let mut end: usize = start;
    let mut closed: bool = false;
    proof {
        lemma_quoted_parts_end(buf@, start as int, quote, braces);
        assert(fields@ =~= old(fields)@ + acc);
        assert(spec_after(acc, spec_quoted_parts(buf@, i as int, quote, braces)).fields
            =~= whole.fields);
    }
    loop
        invariant_except_break
            whole == spec_after(acc, spec_quoted_parts(buf@, i as int, quote, braces)),
            fields@ == old(fields)@ + acc,
        invariant
            start <= i <= buf@.len(),
            len == buf@.len(),
            whole == spec_quoted_parts(buf@, start as int, quote, braces),
        ensures
            fields@ == old(fields)@ + whole.fields,
            end == whole.end,
            closed == whole.closed,
        decreases buf@.len() - i,
    {
        let ghost here = spec_quoted_parts(buf@, i as int, quote, braces);
        if i >= len {
            assert(acc + here.fields =~= acc);
            end = len;
            closed = false;
            break ;
        }
        if buf[i] == quote {
            assert(acc + here.fields =~= acc);
            end = i;
            closed = true;
            break ;
        }
        if braces && buf[i] == OPEN_BRACE {
            match scan_expression(buf, i + 1) {
                Some(c) => {
                    let field = Field::new(FieldName::ValueExpression, i, c + 1);
                    fields.push(field);
                    proof {
                        let rest = spec_quoted_parts(buf@, c + 1, quote, braces);
                        lemma_part_pushed(old(fields)@, acc, field, rest.fields);
                        acc = acc.push(field);
                    }
                    i = c + 1;
                },
                None => {
                    let field = Field::new(FieldName::ValueExpression, i, buf.len());
                    fields.push(field);
                    proof {
                        lemma_part_pushed(old(fields)@, acc, field, Seq::empty());
                    }
                    end = len;
                    closed = false;
                    break ;
                },
            }
        } else {
            let e = run_end(buf, i, buf.len(), ByteClass::QuotedText { quote, braces });
            assert(spec_in_class(ByteClass::QuotedText { quote, braces }, buf@[i as int]));
            assert(i < e);
            let field = Field::new(FieldName::ValueText, i, e);
            fields.push(field);
            proof {
                let rest = spec_quoted_parts(buf@, e as int, quote, braces);
                lemma_part_pushed(old(fields)@, acc, field, rest.fields);
                acc = acc.push(field);
            }
            i = e;
        }
    }
    (end, closed)
}

/// Appends the parts of an unquoted value from `start` on to `fields`, and
/// returns where they end, whether the input did not end inside one of
/// them, and the kind of the value.
fn bare_parts(buf: &[u8], start: usize, braces: bool, fields: &mut Vec<Field>) -> (r: (
    usize,
    bool,
    ValueKind,
))
    requires
        start <= buf@.len(),
    ensures
        final(fields)@ == old(fields)@ + spec_bare_parts(buf@, start as int, braces).fields,
        r.0 == spec_bare_parts(buf@, start as int, braces).end,
        r.1 == spec_bare_parts(buf@, start as int, braces).closed,
        r.2 == spec_bare_kind(spec_bare_parts(buf@, start as int, braces).fields),
        start <= r.0 <= buf@.len(),
        !spec_value_stop(buf@, start as int) ==> start < r.0,
{
    let ghost whole = spec_bare_parts(buf@, start as int, braces);
    let ghost mut acc: Seq<Field> = Seq::empty();
    let len = buf.len();
    let mut i: usize = start;
    let mut expressions: bool = false;
    let mut count: usize = 0;
    let mut end: usize = start;
    let mut closed: bool = true;
    proof {
        lemma_bare_parts_end(buf@, start as int, braces);
        assert(fields@ =~= old(fields)@ + acc);
        assert(spec_after(acc, spec_bare_parts(buf@, i as int, braces)).fields =~= whole.fields);
    }
    loop
        invariant_except_break
            whole == spec_after(acc, spec_bare_parts(buf@, i as int, braces)),
            fields@ == old(fields)@ + acc,
            expressions == spec_has_expression(acc),
            count == acc.len(),
            count <= i - start,
        invariant
            start <= i <= buf@.len(),
            len == buf@.len(),
            whole == spec_bare_parts(buf@, start as int, braces),
        ensures
            fields@ == old(fields)@ + whole.fields,
            end == whole.end,
            closed == whole.closed,
            expressions == spec_has_expression(whole.fields),
            count == whole.fields.len(),
        decreases buf@.len() - i,
    {
        let ghost here = spec_bare_parts(buf@, i as int, braces);
        if value_stop(buf, i) {
            assert(acc + here.fields =~= acc);
            end = i;
            closed = true;
            break ;
        }
        if braces && buf[i] == OPEN_BRACE {
            match scan_expression(buf, i + 1) {
                Some(c) => {
                    let field = Field::new(FieldName::ValueExpression, i, c + 1);
                    fields.push(field);
                    proof {
                        let rest = spec_bare_parts(buf@, c + 1, braces);
                        lemma_part_pushed(old(fields)@, acc, field, rest.fields);
                        assert(acc.push(field)[acc.len() as int] == field);
                        acc = acc.push(field);
                    }
                    expressions = true;
                    count += 1;
                    i = c + 1;
                },
                None => {
                    let field = Field::new(FieldName::ValueExpression, i, buf.len());
                    fields.push(field);
                    proof {
                        lemma_part_pushed(old(fields)@, acc, field, Seq::empty());
                        assert(acc.push(field)[acc.len() as int] == field);
                    }
                    expressions = true;
                    count += 1;
                    end = buf.len();
                    closed = false;
                    break ;
                },
            }
        } else {
            let e = bare_text_end(buf, i + 1, braces);
            let field = Field::new(FieldName::ValueText, i, e);
            fields.push(field);
            proof {
                let rest = spec_bare_parts(buf@, e as int, braces);
                lemma_part_pushed(old(fields)@, acc, field, rest.fields);
                let longer = acc.push(field);
                assert forall|k: int| 0 <= k < longer.len() && (#[trigger] longer[k]).name
                    == FieldName::ValueExpression implies spec_has_expression(acc) by {
                    assert(k < acc.len());
                    assert(acc[k] == longer[k]);
                }
                if spec_has_expression(acc) {
                    let k = choose|k: int|
                        0 <= k < acc.len() && (#[trigger] acc[k]).name
                            == FieldName::ValueExpression;
                    assert(longer[k] == acc[k]);
                }
                acc = longer;
            }
            count += 1;
            i = e;
        }
    }
    let kind = if !expressions {
        ValueKind::Unquoted
    } else if count == 1 {
        ValueKind::ExpressionValued
    } else {
        ValueKind::MixedTextAndExpression
    };
    (end, closed, kind)
}

/// Appends the segments of a name after its first to `fields`: `start` is
/// the position of a separator, or the end of the name, `n`.
pub fn segments(
    buf: &[u8],
    start: usize,
    n: usize,
    separator: u8,
    name: FieldName,
    fields: &mut Vec<Field>,
)
    requires
        start <= n <= buf@.len(),
    ensures
        final(fields)@ == old(fields)@ + spec_segments(
            buf@,
            start as int,
            n as int,
            separator,
            name,
        ),
{
    let ghost whole = spec_segments(buf@, start as int, n as int, separator, name);
    let ghost mut acc: Seq<Field> = Seq::empty();
    let mut m: usize = start;
    proof {
        assert(fields@ =~= old(fields)@ + acc);
        assert(acc + whole =~= whole);
    }
    while m < n
        invariant
            start <= m <= n <= buf@.len(),
            whole == acc + spec_segments(buf@, m as int, n as int, separator, name),
            fields@ == old(fields)@ + acc,
        decreases n - m,
    {
        let e = run_end(buf, m + 1, n, ByteClass::Except(separator));
        let field = Field::new(name, m + 1, e);
        fields.push(field);
        proof {
            let rest = spec_segments(buf@, e as int, n as int, separator, name);
            lemma_part_pushed(old(fields)@, acc, field, rest);
            acc = acc.push(field);
        }
        m = e;
    }
    proof {
        assert(acc + spec_segments(buf@, m as int, n as int, separator, name) =~= acc);
    }
}

/// The sub-spans of the name in `[pos, n)`, and whether it is a directive's.
fn name_fields(buf: &[u8], pos: usize, n: usize, braces: bool) -> (r: (Vec<Field>, bool))
    requires
        pos <= n <= buf@.len(),
    ensures
        r.0@ == spec_name_fields(buf@, pos as int, n as int, braces),
        r.1 == spec_is_directive(buf@, pos as int, n as int, braces),
{
    let mut fields: Vec<Field> = Vec::new();
    let c = run_end(buf, pos, n, ByteClass::Except(COLON));
    if braces && pos < c && c < n && c + 1 < n {
        let m = run_end(buf, c + 1, n, ByteClass::Except(PIPE));
        fields.push(Field::new(FieldName::Directive, pos, c));
        fields.push(Field::new(FieldName::Name, c + 1, m));
        assert(fields@ =~= seq![
            Field::spec_new(FieldName::Directive, pos as int, c as int),
            Field::spec_new(FieldName::Name, c + 1, m as int),
        ]);
        segments(buf, m, n, PIPE, FieldName::Modifier, &mut fields);
        (fields, true)
    } else {
        fields.push(Field::new(FieldName::Name, pos, n));
        assert(fields@ =~= seq![Field::spec_new(FieldName::Name, pos as int, n as int)]);
        (fields, false)
    }
}

fn named_shape(directive: bool, value: ValueKind) -> (shape: AttributeShape)
    ensures
        shape == spec_named_shape(directive, value),
{
    if directive {
        AttributeShape::Directive(value)
    } else {
        AttributeShape::Plain(value)
    }
}

fn brace_attribute(buf: &[u8], pos: usize) -> (token: Token)
    requires
        pos < buf@.len(),
    ensures
        token@ == spec_brace_attribute(buf@, pos as int),
        token.span.start == pos,
        pos < token.span.end <= buf@.len(),
{
    let len = buf.len();
    let close = scan_expression(buf, pos + 1);
    let stop: usize = match close {
        Some(c) => c,
        None => len,
    };
    let shape = if word_at(buf, pos + 1, stop, "...") {
        AttributeShape::Spread
    } else {
        AttributeShape::Shorthand
    };
    let mut fields: Vec<Field> = Vec::new();
    fields.push(Field::new(FieldName::Content, pos + 1, trim_end(buf, pos + 1, stop)));
    assert(fields@ =~= seq![
        Field::spec_new(
            FieldName::Content,
            pos + 1,
            spec_trim_end(buf@, pos + 1, stop as int),
        ),
    ]);
    let closed = close.is_some();
    Token {
        kind: TokenKind::Attribute(shape),
        span: Span::new(
            pos,
            if closed {
                stop + 1
            } else {
                stop
            },
        ),
        fields,
        implicit_closes: 0,
        error: if closed {
            None
        } else {
            Some(ScanError::UnterminatedConstruct)
        },
    }
}

fn named_attribute(buf: &[u8], pos: usize, braces: bool) -> (token: Token)
    requires
        pos < buf@.len(),
        spec_in_class(ByteClass::AttributeName, buf@[pos as int]),
    ensures
        token@ == spec_named_attribute(buf@, pos as int, braces),
        token.span.start == pos,
        pos < token.span.end <= buf@.len(),
{
    let len = buf.len();
    let n = run_end(buf, pos, len, ByteClass::AttributeName);
    let p = run_end(buf, n, len, ByteClass::Space);
    let (mut fields, directive) = name_fields(buf, pos, n, braces);
    if !(p < len && buf[p] == EQUALS) {
        return Token {
            kind: TokenKind::Attribute(named_shape(directive, ValueKind::Missing)),
            span: Span::new(pos, n),
            fields,
            implicit_closes: 0,
            error: None,
        };
    }
    let v = run_end(buf, p + 1, len, ByteClass::Space);
    if value_stop(buf, v) {
        return Token {
            kind: TokenKind::Attribute(named_shape(directive, ValueKind::Missing)),
            span: Span::new(pos, p + 1),
            fields,
            implicit_closes: 0,
            error: None,
        };
    }
    if buf[v] == DOUBLE_QUOTE || buf[v] == SINGLE_QUOTE {
        let (end, closed) = quoted_parts(buf, v + 1, buf[v], braces, &mut fields);
        Token {
            kind: TokenKind::Attribute(named_shape(directive, ValueKind::Quoted)),
            span: Span::new(
                pos,
                if closed {
                    end + 1
                } else {
                    end
                },
            ),
            fields,
            implicit_closes: 0,
            error: if closed {
                None
            } else {
                Some(ScanError::UnterminatedConstruct)
            },
        }
    } else {
        let (end, closed, kind) = bare_parts(buf, v, braces, &mut fields);
        Token {
            kind: TokenKind::Attribute(named_shape(directive, kind)),
            span: Span::new(pos, end),
            fields,
            implicit_closes: 0,
            error: if closed {
                None
            } else {
                Some(ScanError::UnterminatedConstruct)
            },
        }
    }
}

/// Scans the attribute that starts at `pos`, inside an open tag. The byte
/// at `pos` is the first of its name, or, where `braces` is set, the `{` of
/// a shorthand or spread attribute.
pub fn scan_attribute(buf: &[u8], pos: usize, braces: bool) -> (token: Token)
    requires
        pos < buf@.len(),
        spec_in_class(ByteClass::AttributeName, buf@[pos as int]),
    ensures
        token@ == spec_attribute(buf@, pos as int, braces),
        token.span.start == pos,
        pos < token.span.end <= buf@.len(),
{
    if braces && buf[pos] == OPEN_BRACE {
        brace_attribute(buf, pos)
    } else {
        named_attribute(buf, pos, braces)
    }
}

/// One attribute, as its token tells it: its form, and the spans of its
/// parts.
#[derive(Debug)]
pub enum Attribute {
    /// `name` or `name=value`.
    Plain { name: Span, value: ValueKind },
    /// `{expression}`.
    Shorthand { expression: Span },
    /// `{...expression}`; the span is that of the expression after the dots.
    Spread { expression: Span },
    /// `prefix:name`, with its modifiers in order.
    Directive { prefix: Span, name: Span, modifiers: Vec<Span>, value: ValueKind },
}

/// An attribute as contracts speak of it.
pub enum AttributeView {
    Plain { name: Span, value: ValueKind },
    Shorthand { expression: Span },
    Spread { expression: Span },
    Directive { prefix: Span, name: Span, modifiers: Seq<Span>, value: ValueKind },
}

impl View for Attribute {
    type V = AttributeView;

    open spec fn view(&self) -> AttributeView {
        match *self {
            Attribute::Plain { name, value } => AttributeView::Plain { name, value },
            Attribute::Shorthand { expression } => AttributeView::Shorthand { expression },
            Attribute::Spread { expression } => AttributeView::Spread { expression },
            Attribute::Directive { prefix, name, modifiers, value } => AttributeView::Directive {
                prefix,
                name,
                modifiers: modifiers@,
                value,
            },
        }
    }
}

/// The attribute that a token tells of: the first sub-span of each name
/// that its form has, and every modifier. `None` for a token that is no
/// attribute, or that lacks a sub-span of its form.
pub open spec fn spec_attribute_of(token: TokenView) -> Option<AttributeView> {
    let name = crate::token::spec_first_field(token.fields, FieldName::Name);
    let prefix = crate::token::spec_first_field(token.fields, FieldName::Directive);
    let content = crate::token::spec_first_field(token.fields, FieldName::Content);
    let modifiers = crate::token::spec_fields_named(token.fields, FieldName::Modifier);
    match token.kind {
        TokenKind::Attribute(AttributeShape::Plain(value)) => match name {
            Some(name) => Some(AttributeView::Plain { name, value }),
            None => None,
        },
        TokenKind::Attribute(AttributeShape::Shorthand) => match content {
            Some(expression) => Some(AttributeView::Shorthand { expression }),
            None => None,
        },
        TokenKind::Attribute(AttributeShape::Spread) => match content {
            Some(content) => if content.start + 3 <= content.end {
                Some(
                    AttributeView::Spread {
                        expression: Span::spec_new(content.start + 3, content.end as int),
                    },
                )
            } else {
                None
            },
            None => None,
        },
        TokenKind::Attribute(AttributeShape::Directive(value)) => match (prefix, name) {
            (Some(prefix), Some(name)) => Some(
                AttributeView::Directive { prefix, name, modifiers, value },
            ),
            _ => None,
        },
        _ => None,
    }
}

/// Reads the attribute that a token tells of.
pub fn attribute_of(token: &Token) -> (attribute: Option<Attribute>)
    ensures
        match attribute {
            Some(a) => spec_attribute_of(token@) == Some(a@),
            None => spec_attribute_of(token@) is None,
        },
{
    match token.kind {
        TokenKind::Attribute(AttributeShape::Plain(value)) => match token.field(FieldName::Name) {
            Some(name) => Some(Attribute::Plain { name, value }),
            None => None,
        },
        TokenKind::Attribute(AttributeShape::Shorthand) => match token.field(FieldName::Content) {
            Some(expression) => Some(Attribute::Shorthand { expression }),
            None => None,
        },
        TokenKind::Attribute(AttributeShape::Spread) => match token.field(FieldName::Content) {
            Some(content) => {
                if content.end >= 3 && content.start <= content.end - 3 {
                    Some(Attribute::Spread { expression: Span::new(content.start + 3, content.end) })
                } else {
                    None
                }
            },
            None => None,
        },
        TokenKind::Attribute(AttributeShape::Directive(value)) => {
            let prefix = token.field(FieldName::Directive);
            let name = token.field(FieldName::Name);
            match (prefix, name) {
                (Some(prefix), Some(name)) => Some(
                    Attribute::Directive {
                        prefix,
                        name,
                        modifiers: token.fields_named(FieldName::Modifier),
                        value,
                    },
                ),
                _ => None,
            }
        },
        _ => None,
    }
}

} // verus!
