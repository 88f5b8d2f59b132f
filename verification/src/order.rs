//! The sub-spans of a token lie inside it, in source order.

use vstd::prelude::*;
use vstd::string::StringSliceAdditionalSpecFns;
use crate::ascii::{ByteClass, EQUALS, OPEN_BRACE};
use crate::ascii::{lemma_run_end, lemma_trim_end, spec_in_class, spec_run_end, spec_trim_end};
use crate::attribute::{
    lemma_bare_parts_end, lemma_quoted_parts_end, spec_attribute, spec_segments, spec_value_stop,
};
use crate::element::Layer;
use crate::expression::{SubState, lemma_close_is_brace};
use crate::head::{
    Probe, lemma_find_from, spec_await_fields, spec_block_branch, spec_block_end,
    spec_block_start, spec_each_fields, spec_find_top, spec_head, spec_head_token,
    spec_index_fields, spec_key_fields, spec_keyword_at, spec_short_form_len, spec_tag,
};
use crate::laws::{lemma_attribute_span, lemma_next_span};
use crate::scanner::{Mode, ScanStateView};
use crate::scanner::{spec_in_data, spec_in_raw_text, spec_in_tag, spec_next, spec_raw_end_at};
use crate::token::spec_in_order;
use crate::token::{Field, FieldName};

verus! {

proof fn lemma_in_order_one(field: Field, lo: int, hi: int)
    requires
        lo <= field.span.start <= field.span.end <= hi,
    ensures
        spec_in_order(seq![field], lo, hi),
{
    assert(seq![field].skip(1) =~= Seq::<Field>::empty());
    assert(spec_in_order(seq![field].skip(1), field.span.end as int, hi));
}

proof fn lemma_in_order_widen(fields: Seq<Field>, lo: int, hi: int, lower: int, higher: int)
    requires
        spec_in_order(fields, lo, hi),
        lower <= lo,
        hi <= higher,
    ensures
        spec_in_order(fields, lower, higher),
        lo <= hi,
    decreases fields.len(),
{
    if fields.len() > 0 {
        lemma_in_order_widen(
            fields.skip(1),
            fields[0].span.end as int,
            hi,
            fields[0].span.end as int,
            higher,
        );
    }
}

proof fn lemma_in_order_concat(a: Seq<Field>, b: Seq<Field>, lo: int, mid: int, hi: int)
    requires
        spec_in_order(a, lo, mid),
        spec_in_order(b, mid, hi),
    ensures
        spec_in_order(a + b, lo, hi),
    decreases a.len(),
{
    if a.len() == 0 {
        assert(a + b =~= b);
        lemma_in_order_widen(b, mid, hi, lo, hi);
    } else {
        assert((a + b)[0] == a[0]);
        assert((a + b).skip(1) =~= a.skip(1) + b);
        lemma_in_order_concat(a.skip(1), b, a[0].span.end as int, mid, hi);
    }
}

/// `one` before `rest`, where `one` ends at or before `mid`.
proof fn lemma_in_order_prepend(one: Field, rest: Seq<Field>, lo: int, mid: int, hi: int)
    requires
        lo <= one.span.start <= one.span.end <= mid,
        spec_in_order(rest, mid, hi),
    ensures
        spec_in_order(seq![one] + rest, lo, hi),
{
    lemma_in_order_one(one, lo, mid);
    lemma_in_order_concat(seq![one], rest, lo, mid, hi);
}

proof fn lemma_segments_in_order(buf: Seq<u8>, m: int, n: int, separator: u8, name: FieldName)
    requires
        0 <= m <= n <= buf.len() <= usize::MAX,
    ensures
        spec_in_order(spec_segments(buf, m, n, separator, name), m, n),
    decreases n - m,
{
    if m < n {
        let e = spec_run_end(buf, m + 1, n, ByteClass::Except(separator));
        lemma_run_end(buf, m + 1, n, ByteClass::Except(separator));
        lemma_segments_in_order(buf, e, n, separator, name);
        lemma_in_order_prepend(
            Field::spec_new(name, m + 1, e),
            spec_segments(buf, e, n, separator, name),
            m,
            e,
            n,
        );
    }
}

proof fn lemma_tag_name_fields_in_order(buf: Seq<u8>, s: int, e: int)
    requires
        0 <= s <= e <= buf.len() <= usize::MAX,
    ensures
        spec_in_order(crate::scanner::spec_tag_name_fields(buf, s, e), s, e),
{
    let c = spec_run_end(buf, s, e, ByteClass::NamePart);
    lemma_run_end(buf, s, e, ByteClass::NamePart);
    if c >= e {
        lemma_in_order_one(Field::spec_new(FieldName::Name, s, e), s, e);
    } else if buf[c] == crate::ascii::COLON {
        lemma_in_order_one(Field::spec_new(FieldName::Name, c + 1, e), c, e);
        lemma_in_order_prepend(
            Field::spec_new(FieldName::Namespace, s, c),
            seq![Field::spec_new(FieldName::Name, c + 1, e)],
            s,
            c,
            e,
        );
        assert(seq![Field::spec_new(FieldName::Namespace, s, c)] + seq![
            Field::spec_new(FieldName::Name, c + 1, e),
        ] =~= seq![
            Field::spec_new(FieldName::Namespace, s, c),
            Field::spec_new(FieldName::Name, c + 1, e),
        ]);
    } else {
        lemma_segments_in_order(buf, c, e, crate::ascii::DOT, FieldName::Property);
        lemma_in_order_prepend(
            Field::spec_new(FieldName::Object, s, c),
            spec_segments(buf, c, e, crate::ascii::DOT, FieldName::Property),
            s,
            c,
            e,
        );
    }
}

proof fn lemma_name_fields_in_order(buf: Seq<u8>, pos: int, n: int, braces: bool)
    requires
        0 <= pos <= n <= buf.len() <= usize::MAX,
    ensures
        spec_in_order(crate::attribute::spec_name_fields(buf, pos, n, braces), pos, n),
{
    let c = spec_run_end(buf, pos, n, ByteClass::Except(crate::ascii::COLON));
    lemma_run_end(buf, pos, n, ByteClass::Except(crate::ascii::COLON));
    if crate::attribute::spec_is_directive(buf, pos, n, braces) {
        let m = spec_run_end(buf, c + 1, n, ByteClass::Except(crate::ascii::PIPE));
        lemma_run_end(buf, c + 1, n, ByteClass::Except(crate::ascii::PIPE));
        let rest = spec_segments(buf, m, n, crate::ascii::PIPE, FieldName::Modifier);
        lemma_segments_in_order(buf, m, n, crate::ascii::PIPE, FieldName::Modifier);
        lemma_in_order_prepend(Field::spec_new(FieldName::Name, c + 1, m), rest, c, m, n);
        lemma_in_order_prepend(
            Field::spec_new(FieldName::Directive, pos, c),
            seq![Field::spec_new(FieldName::Name, c + 1, m)] + rest,
            pos,
            c,
            n,
        );
        assert(seq![Field::spec_new(FieldName::Directive, pos, c)] + (seq![
            Field::spec_new(FieldName::Name, c + 1, m),
        ] + rest) =~= seq![
            Field::spec_new(FieldName::Directive, pos, c),
            Field::spec_new(FieldName::Name, c + 1, m),
        ] + rest);
    } else {
        lemma_in_order_one(Field::spec_new(FieldName::Name, pos, n), pos, n);
    }
}

proof fn lemma_quoted_parts_in_order(buf: Seq<u8>, i: int, quote: u8, braces: bool)
    requires
        0 <= i <= buf.len() <= usize::MAX,
    ensures
        spec_in_order(
            crate::attribute::spec_quoted_parts(buf, i, quote, braces).fields,
            i,
            crate::attribute::spec_quoted_parts(buf, i, quote, braces).end,
        ),
    decreases buf.len() - i,
{
    let len = buf.len() as int;
    lemma_quoted_parts_end(buf, i, quote, braces);
    if i < len && buf[i] != quote {
        if braces && buf[i] == OPEN_BRACE {
            lemma_close_is_brace(buf, i + 1, seq![SubState::Brace]);
            match crate::expression::spec_expression_close(buf, i + 1) {
                Some(c) => {
                    let rest = crate::attribute::spec_quoted_parts(buf, c + 1, quote, braces);
                    lemma_quoted_parts_in_order(buf, c + 1, quote, braces);
                    lemma_in_order_prepend(
                        Field::spec_new(FieldName::ValueExpression, i, c + 1),
                        rest.fields,
                        i,
                        c + 1,
                        rest.end,
                    );
                },
                None => {
                    lemma_in_order_one(
                        Field::spec_new(FieldName::ValueExpression, i, len),
                        i,
                        len,
                    );
                },
            }
        } else {
            let class = ByteClass::QuotedText { quote, braces };
            let e = spec_run_end(buf, i, len, class);
            lemma_run_end(buf, i, len, class);
            if i < e {
                let rest = crate::attribute::spec_quoted_parts(buf, e, quote, braces);
                lemma_quoted_parts_in_order(buf, e, quote, braces);
                lemma_in_order_prepend(
                    Field::spec_new(FieldName::ValueText, i, e),
                    rest.fields,
                    i,
                    e,
                    rest.end,
                );
            }
        }
    }
}

proof fn lemma_bare_parts_in_order(buf: Seq<u8>, i: int, braces: bool)
    requires
        0 <= i <= buf.len() <= usize::MAX,
    ensures
        spec_in_order(
            crate::attribute::spec_bare_parts(buf, i, braces).fields,
            i,
            crate::attribute::spec_bare_parts(buf, i, braces).end,
        ),
    decreases buf.len() - i,
{
    let len = buf.len() as int;
    lemma_bare_parts_end(buf, i, braces);
    if !spec_value_stop(buf, i) {
        if braces && buf[i] == OPEN_BRACE {
            lemma_close_is_brace(buf, i + 1, seq![SubState::Brace]);
            match crate::expression::spec_expression_close(buf, i + 1) {
                Some(c) => {
                    let rest = crate::attribute::spec_bare_parts(buf, c + 1, braces);
                    lemma_bare_parts_in_order(buf, c + 1, braces);
                    lemma_in_order_prepend(
                        Field::spec_new(FieldName::ValueExpression, i, c + 1),
                        rest.fields,
                        i,
                        c + 1,
                        rest.end,
                    );
                },
                None => {
                    lemma_in_order_one(
                        Field::spec_new(FieldName::ValueExpression, i, len),
                        i,
                        len,
                    );
                },
            }
        } else {
            let e = crate::attribute::spec_bare_text_end(buf, i + 1, braces);
            crate::attribute::lemma_bare_text_end(buf, i + 1, braces);
            let rest = crate::attribute::spec_bare_parts(buf, e, braces);
            lemma_bare_parts_in_order(buf, e, braces);
            lemma_in_order_prepend(
                Field::spec_new(FieldName::ValueText, i, e),
                rest.fields,
                i,
                e,
                rest.end,
            );
        }
    }
}

proof fn lemma_attribute_in_order(buf: Seq<u8>, pos: int, braces: bool)
    requires
        0 <= pos < buf.len() <= usize::MAX,
        spec_in_class(ByteClass::AttributeName, buf[pos]),
    ensures
        spec_in_order(
            spec_attribute(buf, pos, braces).fields,
            pos,
            spec_attribute(buf, pos, braces).span.end as int,
        ),
{
    let len = buf.len() as int;
    lemma_attribute_span(buf, pos, braces);
    let token = spec_attribute(buf, pos, braces);
    if braces && buf[pos] == OPEN_BRACE {
        lemma_close_is_brace(buf, pos + 1, seq![SubState::Brace]);
        let stop = crate::expression::spec_expression_stop(buf, pos + 1);
        crate::ascii::lemma_trim_end(buf, pos + 1, stop);
        lemma_in_order_one(token.fields[0], pos, token.span.end as int);
        assert(token.fields =~= seq![token.fields[0]]);
    } else {
        let n = spec_run_end(buf, pos, len, ByteClass::AttributeName);
        lemma_run_end(buf, pos, len, ByteClass::AttributeName);
        let p = spec_run_end(buf, n, len, ByteClass::Space);
        lemma_run_end(buf, n, len, ByteClass::Space);
        let names = crate::attribute::spec_name_fields(buf, pos, n, braces);
        lemma_name_fields_in_order(buf, pos, n, braces);
        if !(p < len && buf[p] == EQUALS) {
        } else {
            let v = spec_run_end(buf, p + 1, len, ByteClass::Space);
            lemma_run_end(buf, p + 1, len, ByteClass::Space);
            if spec_value_stop(buf, v) {
                lemma_in_order_widen(names, pos, n, pos, p + 1);
            } else if buf[v] == crate::ascii::DOUBLE_QUOTE || buf[v]
                == crate::ascii::SINGLE_QUOTE {
                let parts = crate::attribute::spec_quoted_parts(buf, v + 1, buf[v], braces);
                lemma_quoted_parts_in_order(buf, v + 1, buf[v], braces);
                lemma_quoted_parts_end(buf, v + 1, buf[v], braces);
                lemma_in_order_widen(parts.fields, v + 1, parts.end, n, token.span.end as int);
                lemma_in_order_concat(names, parts.fields, pos, n, token.span.end as int);
            } else {
                let parts = crate::attribute::spec_bare_parts(buf, v, braces);
                lemma_bare_parts_in_order(buf, v, braces);
                lemma_bare_parts_end(buf, v, braces);
                lemma_in_order_widen(parts.fields, v, parts.end, n, parts.end);
                lemma_in_order_concat(names, parts.fields, pos, n, parts.end);
            }
        }
    }
}

/// What `spec_find_top` finds, as far as the order of sub-spans needs it.
proof fn lemma_find_top(buf: Seq<u8>, lo: int, limit: int, probe: Probe)
    requires
        lo <= limit,
    ensures
        lo <= spec_find_top(buf, lo, limit, probe) <= limit,
        spec_find_top(buf, lo, limit, probe) < limit ==> crate::head::spec_probe(
            buf,
            lo,
            spec_find_top(buf, lo, limit, probe),
            limit,
            probe,
        ),
{
    lemma_find_from(buf, lo, lo, limit, seq![SubState::Brace], 0, probe);
}

proof fn lemma_key_fields_in_order(buf: Seq<u8>, open: int, h: int)
    requires
        0 <= open < h <= buf.len() <= usize::MAX,
    ensures
        spec_key_fields(buf, open, h) matches Some(fields) ==> spec_in_order(fields, open + 1, h),
{
    if open + 1 < h {
        let first = spec_run_end(buf, open + 1, h - 1, ByteClass::Space);
        lemma_run_end(buf, open + 1, h - 1, ByteClass::Space);
        let last = spec_trim_end(buf, first, h - 1);
        lemma_trim_end(buf, first, h - 1);
        if first < last {
            lemma_in_order_one(Field::spec_new(FieldName::Key, first, last), open + 1, h);
        }
    }
}

proof fn lemma_index_fields_in_order(buf: Seq<u8>, comma: int, h: int)
    requires
        0 <= comma < h <= buf.len() <= usize::MAX,
    ensures
        spec_index_fields(buf, comma, h) matches Some(fields) ==> spec_in_order(
            fields,
            comma + 1,
            h,
        ),
{
    let first = spec_run_end(buf, comma + 1, h, ByteClass::Space);
    lemma_run_end(buf, comma + 1, h, ByteClass::Space);
    let paren = spec_find_top(buf, first, h, Probe::OpenParen);
    lemma_find_top(buf, first, h, Probe::OpenParen);
    let last = spec_trim_end(buf, first, paren);
    lemma_trim_end(buf, first, paren);
    let index = Field::spec_new(FieldName::Index, first, last);
    if first < last {
        if paren >= h {
            lemma_in_order_one(index, comma + 1, h);
        } else {
            lemma_key_fields_in_order(buf, paren, h);
            match spec_key_fields(buf, paren, h) {
                Some(key) => {
                    lemma_in_order_prepend(index, key, comma + 1, paren + 1, h);
                },
                None => {},
            }
        }
    }
}

proof fn lemma_each_fields_in_order(buf: Seq<u8>, e: int, h: int)
    requires
        0 <= e <= h <= buf.len() <= usize::MAX,
    ensures
        spec_each_fields(buf, e, h) matches Some(fields) ==> spec_in_order(fields, e, h),
{
    let a = spec_find_top(buf, e, h, Probe::As);
    lemma_find_top(buf, e, h, Probe::As);
    if e < h {
        if a >= h {
            lemma_in_order_one(Field::spec_new(FieldName::Expression, e, h), e, h);
        } else {
            let after = a + "as".spec_bytes().len();
            assert(spec_keyword_at(buf, e, a, h, "as"));
            lemma_trim_end(buf, e, a);
            let expression = Field::spec_new(FieldName::Expression, e, spec_trim_end(buf, e, a));
            let b = spec_run_end(buf, after, h, ByteClass::Space);
            lemma_run_end(buf, after, h, ByteClass::Space);
            let d = spec_find_top(buf, b, h, Probe::CommaOrParen);
            lemma_find_top(buf, b, h, Probe::CommaOrParen);
            lemma_trim_end(buf, b, d);
            let binding = Field::spec_new(FieldName::Binding, b, spec_trim_end(buf, b, d));
            if b < spec_trim_end(buf, b, d) {
                if d >= h {
                    lemma_in_order_one(binding, a, h);
                    lemma_in_order_prepend(expression, seq![binding], e, a, h);
                    assert(seq![expression] + seq![binding] =~= seq![expression, binding]);
                } else {
                    lemma_index_fields_in_order(buf, d, h);
                    lemma_key_fields_in_order(buf, d, h);
                    let rest = if buf[d] == crate::ascii::COMMA {
                        spec_index_fields(buf, d, h)
                    } else {
                        spec_key_fields(buf, d, h)
                    };
                    match rest {
                        Some(fields) => {
                            lemma_in_order_prepend(binding, fields, a, d + 1, h);
                            lemma_in_order_prepend(expression, seq![binding] + fields, e, a, h);
                            assert(seq![expression] + (seq![binding] + fields) =~= seq![
                                expression,
                                binding,
                            ] + fields);
                        },
                        None => {},
                    }
                }
            }
        }
    }
}

proof fn lemma_await_fields_in_order(buf: Seq<u8>, e: int, h: int)
    requires
        0 <= e <= h <= buf.len() <= usize::MAX,
    ensures
        spec_await_fields(buf, e, h) matches Some(fields) ==> spec_in_order(fields, e, h),
{
    let t = spec_find_top(buf, e, h, Probe::ThenOrCatch);
    lemma_find_top(buf, e, h, Probe::ThenOrCatch);
    if e < h {
        if t >= h {
            lemma_in_order_one(Field::spec_new(FieldName::Expression, e, h), e, h);
        } else {
            let word_end = t + spec_short_form_len(buf, e, t, h);
            assert(t < word_end <= h) by {
                reveal_strlit("then");
                reveal_strlit("catch");
                broadcast use vstd::string::is_ascii_spec_bytes;

                assert("then".is_ascii() && "catch".is_ascii());
                assert(spec_keyword_at(buf, e, t, h, "then") || spec_keyword_at(
                    buf,
                    e,
                    t,
                    h,
                    "catch",
                ));
            }
            lemma_trim_end(buf, e, t);
            let expression = Field::spec_new(FieldName::Expression, e, spec_trim_end(buf, e, t));
            let word = Field::spec_new(FieldName::ShortForm, t, word_end);
            let b = spec_run_end(buf, word_end, h, ByteClass::Space);
            lemma_run_end(buf, word_end, h, ByteClass::Space);
            lemma_in_order_one(word, t, h);
            lemma_in_order_prepend(expression, seq![word], e, t, h);
            assert(seq![expression] + seq![word] =~= seq![expression, word]);
            if b < h {
                let binding = Field::spec_new(FieldName::Binding, b, h);
                lemma_in_order_one(binding, word_end, h);
                lemma_in_order_prepend(word, seq![binding], t, word_end, h);
                lemma_in_order_prepend(expression, seq![word] + seq![binding], e, t, h);
                assert(seq![expression] + (seq![word] + seq![binding]) =~= seq![
                    expression,
                    word,
                ].push(binding));
            }
        }
    }
}

proof fn lemma_block_start_in_order(buf: Seq<u8>, s: int, h: int)
    requires
        0 <= s <= h <= buf.len() <= usize::MAX,
    ensures
        spec_block_start(buf, s, h) matches Some(head) ==> spec_in_order(head.1, s, h),
{
    let k = spec_run_end(buf, s, h, ByteClass::Alpha);
    lemma_run_end(buf, s, h, ByteClass::Alpha);
    let e = spec_run_end(buf, k, h, ByteClass::Space);
    lemma_run_end(buf, k, h, ByteClass::Space);
    let kind = Field::spec_new(FieldName::Kind, s, k);
    lemma_each_fields_in_order(buf, e, h);
    lemma_await_fields_in_order(buf, e, h);
    match spec_block_start(buf, s, h) {
        Some(head) => {
            let rest = head.1.skip(1);
            assert(head.1 =~= seq![kind] + rest);
            if e < h {
                lemma_in_order_one(Field::spec_new(FieldName::Expression, e, h), e, h);
            }
            assert(spec_in_order(rest, e, h)) by {
                match crate::head::spec_block_kind(buf, s, k) {
                    Some(crate::token::BlockKind::Each) => {
                        assert(rest =~= spec_each_fields(buf, e, h).unwrap());
                    },
                    Some(crate::token::BlockKind::Await) => {
                        assert(rest =~= spec_await_fields(buf, e, h).unwrap());
                    },
                    _ => {
                        assert(rest =~= seq![Field::spec_new(FieldName::Expression, e, h)]);
                    },
                }
            }
            lemma_in_order_prepend(kind, rest, s, e, h);
        },
        None => {},
    }
}

proof fn lemma_block_branch_in_order(buf: Seq<u8>, s: int, h: int)
    requires
        0 <= s <= h <= buf.len() <= usize::MAX,
    ensures
        spec_block_branch(buf, s, h) matches Some(head) ==> spec_in_order(head.1, s, h),
{
    let k = spec_run_end(buf, s, h, ByteClass::Alpha);
    lemma_run_end(buf, s, h, ByteClass::Alpha);
    let e = spec_run_end(buf, k, h, ByteClass::Space);
    lemma_run_end(buf, k, h, ByteClass::Space);
    let k2 = spec_run_end(buf, e, h, ByteClass::Alpha);
    lemma_run_end(buf, e, h, ByteClass::Alpha);
    let e2 = spec_run_end(buf, k2, h, ByteClass::Space);
    lemma_run_end(buf, k2, h, ByteClass::Space);
    match spec_block_branch(buf, s, h) {
        Some(head) => {
            if head.1.len() == 1 {
                assert(head.1 =~= seq![head.1[0]]);
                lemma_in_order_one(head.1[0], s, h);
            } else {
                assert(head.1 =~= seq![head.1[0]] + seq![head.1[1]]);
                lemma_in_order_one(head.1[1], head.1[0].span.end as int, h);
                lemma_in_order_prepend(
                    head.1[0],
                    seq![head.1[1]],
                    s,
                    head.1[0].span.end as int,
                    h,
                );
            }
        },
        None => {},
    }
}

proof fn lemma_block_end_in_order(buf: Seq<u8>, s: int, h: int)
    requires
        0 <= s <= h <= buf.len() <= usize::MAX,
    ensures
        spec_block_end(buf, s, h) matches Some(head) ==> spec_in_order(head.1, s, h),
{
    let k = spec_run_end(buf, s, h, ByteClass::Alpha);
    lemma_run_end(buf, s, h, ByteClass::Alpha);
    lemma_in_order_one(Field::spec_new(FieldName::Kind, s, k), s, h);
}

proof fn lemma_tag_in_order(buf: Seq<u8>, s: int, h: int)
    requires
        0 <= s <= h <= buf.len() <= usize::MAX,
    ensures
        spec_tag(buf, s, h) matches Some(head) ==> spec_in_order(head.1, s, h),
{
    let k = spec_run_end(buf, s, h, ByteClass::Alpha);
    lemma_run_end(buf, s, h, ByteClass::Alpha);
    let e = spec_run_end(buf, k, h, ByteClass::Space);
    lemma_run_end(buf, k, h, ByteClass::Space);
    let kind = Field::spec_new(FieldName::Kind, s, k);
    lemma_in_order_one(kind, s, h);
    if e < h {
        let value = Field::spec_new(FieldName::ExpressionValue, e, h);
        lemma_in_order_one(value, k, h);
        lemma_in_order_prepend(kind, seq![value], s, k, h);
        assert(seq![kind] + seq![value] =~= seq![kind, value]);
    }
}

proof fn lemma_head_token_in_order(buf: Seq<u8>, pos: int)
    requires
        0 <= pos,
        pos + 1 < buf.len() <= usize::MAX,
    ensures
        spec_in_order(
            spec_head_token(buf, pos).fields,
            pos,
            spec_head_token(buf, pos).span.end as int,
        ),
{
    lemma_close_is_brace(buf, pos + 2, seq![SubState::Brace]);
    match crate::expression::spec_expression_close(buf, pos + 2) {
        Some(close) => {
            let h = spec_trim_end(buf, pos + 2, close);
            lemma_trim_end(buf, pos + 2, close);
            lemma_block_start_in_order(buf, pos + 2, h);
            lemma_block_branch_in_order(buf, pos + 2, h);
            lemma_block_end_in_order(buf, pos + 2, h);
            lemma_tag_in_order(buf, pos + 2, h);
            match spec_head(buf, buf[pos + 1], pos + 2, h) {
                Some(head) => {
                    lemma_in_order_widen(head.1, pos + 2, h, pos, close + 1);
                },
                None => {},
            }
        },
        None => {},
    }
}

proof fn lemma_in_data_in_order(layer: Layer, st: ScanStateView, buf: Seq<u8>, pos: int)
    requires
        0 <= pos < buf.len() <= usize::MAX,
    ensures
        spec_in_order(
            spec_in_data(layer, st, buf, pos).0.fields,
            pos,
            spec_in_data(layer, st, buf, pos).0.span.end as int,
        ),
{
    let len = buf.len() as int;
    let token = spec_in_data(layer, st, buf, pos).0;
    crate::laws::lemma_in_data_span(layer, st, buf, pos);
    if buf[pos] == crate::ascii::LESS_THAN {
        if pos + 1 < len && buf[pos + 1] == crate::ascii::BANG {
        } else if pos + 2 < len && buf[pos + 1] == crate::ascii::SLASH
            && crate::ascii::spec_is_alpha(buf[pos + 2]) {
            let e = spec_run_end(buf, pos + 2, len, ByteClass::TagName);
            lemma_run_end(buf, pos + 2, len, ByteClass::TagName);
            lemma_run_end(buf, e, len, ByteClass::Except(crate::ascii::GREATER_THAN));
            lemma_tag_name_fields_in_order(buf, pos + 2, e);
            lemma_in_order_widen(token.fields, pos + 2, e, pos, token.span.end as int);
        } else if pos + 1 < len && crate::ascii::spec_is_alpha(buf[pos + 1]) {
            let e = spec_run_end(buf, pos + 1, len, ByteClass::TagName);
            lemma_run_end(buf, pos + 1, len, ByteClass::TagName);
            lemma_tag_name_fields_in_order(buf, pos + 1, e);
            lemma_in_order_widen(token.fields, pos + 1, e, pos, e);
        }
    } else if buf[pos] == OPEN_BRACE && layer.spec_has_expressions() {
        if layer.spec_has_blocks() && pos + 1 < len && crate::head::spec_is_sigil(buf[pos + 1]) {
            lemma_head_token_in_order(buf, pos);
            let head = spec_head_token(buf, pos);
            assert(crate::scanner::spec_apply_head(st, head).0.fields == head.fields);
            assert(crate::scanner::spec_apply_head(st, head).0.span == head.span);
        } else {
            lemma_close_is_brace(buf, pos + 1, seq![SubState::Brace]);
            let stop = crate::expression::spec_expression_stop(buf, pos + 1);
            lemma_trim_end(buf, pos + 1, stop);
            assert(token.fields =~= seq![token.fields[0]]);
            lemma_in_order_one(token.fields[0], pos, token.span.end as int);
        }
    }
}

proof fn lemma_in_tag_in_order(layer: Layer, st: ScanStateView, buf: Seq<u8>, pos: int)
    requires
        0 <= pos < buf.len() <= usize::MAX,
    ensures
        spec_in_order(
            spec_in_tag(layer, st, buf, pos).0.fields,
            pos,
            spec_in_tag(layer, st, buf, pos).0.span.end as int,
        ),
{
    crate::laws::lemma_in_tag_span(layer, st, buf, pos);
    let b = buf[pos];
    if !crate::ascii::spec_is_space(b) && b != crate::ascii::GREATER_THAN && b
        != crate::ascii::SLASH && b != EQUALS {
        lemma_attribute_in_order(buf, pos, layer.spec_has_expressions());
    }
}

proof fn lemma_in_raw_text_in_order(st: ScanStateView, buf: Seq<u8>, pos: int, references: bool)
    requires
        0 <= pos < buf.len() <= usize::MAX,
    ensures
        spec_in_order(
            spec_in_raw_text(st, buf, pos, references).0.fields,
            pos,
            spec_in_raw_text(st, buf, pos, references).0.span.end as int,
        ),
{
    let len = buf.len() as int;
    let name = st.elements.last().name;
    let token = spec_in_raw_text(st, buf, pos, references).0;
    crate::laws::lemma_in_raw_text_span(st, buf, pos, references);
    if spec_raw_end_at(buf, pos, name) {
        lemma_run_end(buf, pos + 2 + name.len(), len, ByteClass::Except(crate::ascii::GREATER_THAN));
        assert(token.fields =~= seq![token.fields[0]]);
        lemma_in_order_one(token.fields[0], pos, token.span.end as int);
    }
}

/// The sub-spans of a token lie inside the token and stand in source
/// order: each starts at or after the end of the one before it, and none
/// reaches beyond the bytes that the token covers.
pub proof fn law_fields_lie_in_their_token(layer: Layer, st: ScanStateView, buf: Seq<u8>, pos: int)
    requires
        0 <= pos < buf.len() <= usize::MAX,
    ensures
        spec_in_order(
            spec_next(layer, st, buf, pos).0.fields,
            spec_next(layer, st, buf, pos).0.span.start as int,
            spec_next(layer, st, buf, pos).0.span.end as int,
        ),
{
    lemma_next_span(layer, st, buf, pos);
    match st.mode {
        Mode::Data => lemma_in_data_in_order(layer, st, buf, pos),
        Mode::TagOpen => lemma_in_tag_in_order(layer, st, buf, pos),
        Mode::RawText => lemma_in_raw_text_in_order(st, buf, pos, false),
        Mode::EscapableRawText => lemma_in_raw_text_in_order(st, buf, pos, true),
    }
}

} // verus!
