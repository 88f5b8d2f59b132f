//! The heads of blocks, branches, block ends and tags: what stands between
//! `{#`, `{:`, `{/` or `{@` and the closing brace, and the sub-spans it is
//! split into.

use vstd::prelude::*;
use vstd::string::StringSliceAdditionalSpecFns;
use crate::ascii::{
    ByteClass, AT, CLOSE_BRACKET, CLOSE_PAREN, COLON, COMMA, HASH, OPEN_BRACKET, OPEN_PAREN,
    SLASH,
};
use crate::ascii::{spec_is_space, spec_is_word, spec_run_end, spec_trim_end, spec_word_at};
use crate::ascii::{is_space, is_word, run_end, trim_end, word_at};
use crate::expression::{SubState, scan_expression, spec_expression_close, spec_is_code, spec_step, step};
use crate::token::{
    BlockKind, BranchKind, Field, FieldName, ScanError, Span, TagKind, Token, TokenKind, TokenView,
};

verus! {

/// What is looked for at the top level of a head: outside strings, template
/// literals, comments, braces, parentheses and brackets.
#[derive(Clone, Copy, PartialEq, Eq, Debug, Structural)]
pub enum Probe {
    /// The word `as` between whitespace.
    As,
    /// The word `then` or the word `catch` between whitespace.
    ThenOrCatch,
    /// `,` or `(`.
    CommaOrParen,
    /// `(`.
    OpenParen,
    /// `)`.
    CloseParen,
}

/// Whether `word` stands at `at` as a word of its own: after whitespace,
/// and before whitespace or the limit.
pub open spec fn spec_keyword_at(buf: Seq<u8>, lo: int, at: int, limit: int, word: &str) -> bool {
    &&& lo < at
    &&& spec_is_space(buf[at - 1])
    &&& spec_word_at(buf, at, limit, word)
    &&& (at + word.spec_bytes().len() == limit || spec_is_space(
        buf[at + word.spec_bytes().len()],
    ))
}

/// Whether what the probe looks for stands at `at`.
pub open spec fn spec_probe(buf: Seq<u8>, lo: int, at: int, limit: int, probe: Probe) -> bool {
    match probe {
        Probe::As => spec_keyword_at(buf, lo, at, limit, "as"),
        Probe::ThenOrCatch => spec_keyword_at(buf, lo, at, limit, "then") || spec_keyword_at(
            buf,
            lo,
            at,
            limit,
            "catch",
        ),
        Probe::CommaOrParen => buf[at] == COMMA || buf[at] == OPEN_PAREN,
        Probe::OpenParen => buf[at] == OPEN_PAREN,
        Probe::CloseParen => buf[at] == CLOSE_PAREN,
    }
}

/// The number of open parentheses and brackets after the byte `b`, read in
/// the state `top`, where it was `nest` before.
pub open spec fn spec_nest(b: u8, top: SubState, nest: nat) -> nat {
    if !spec_is_code(top) {
        nest
    } else if b == OPEN_PAREN || b == OPEN_BRACKET {
        nest + 1
    } else if (b == CLOSE_PAREN || b == CLOSE_BRACKET) && nest > 0 {
        (nest - 1) as nat
    } else {
        nest
    }
}

/// The first position from `pos` on, below `limit`, at which the probe
/// matches at the top level, for a scan that stands at `pos` with `stack`
/// and `nest` open parentheses and brackets; `limit` where there is none.
pub open spec fn spec_find_from(
    buf: Seq<u8>,
    lo: int,
    pos: int,
    limit: int,
    stack: Seq<SubState>,
    nest: nat,
    probe: Probe,
) -> int
    decreases limit - pos,
{
    if pos < 0 || pos < lo || pos >= limit || limit > buf.len() || stack.len() == 0 {
        limit
    } else if stack.len() == 1 && nest == 0 && spec_probe(buf, lo, pos, limit, probe) {
        pos
    } else {
        let (next, after) = spec_step(buf, pos, stack);
        if next <= pos || next > limit {
            limit
        } else {
            spec_find_from(
                buf,
                lo,
                next,
                limit,
                after,
                spec_nest(buf[pos], stack.last(), nest),
                probe,
            )
        }
    }
}

/// The first position in `[lo, limit)` at which the probe matches at the
/// top level of a head that starts at `lo`; `limit` where there is none.
pub open spec fn spec_find_top(buf: Seq<u8>, lo: int, limit: int, probe: Probe) -> int {
    spec_find_from(buf, lo, lo, limit, seq![SubState::Brace], 0, probe)
}

/// What `spec_find_from` finds lies between where it starts and the
/// limit, and below the limit the probe matches there.
pub proof fn lemma_find_from(
    buf: Seq<u8>,
    lo: int,
    pos: int,
    limit: int,
    stack: Seq<SubState>,
    nest: nat,
    probe: Probe,
)
    requires
        lo <= pos <= limit,
    ensures
        pos <= spec_find_from(buf, lo, pos, limit, stack, nest, probe) <= limit,
        spec_find_from(buf, lo, pos, limit, stack, nest, probe) < limit ==> spec_probe(
            buf,
            lo,
            spec_find_from(buf, lo, pos, limit, stack, nest, probe),
            limit,
            probe,
        ),
    decreases limit - pos,
{
    if !(pos < 0 || pos >= limit || limit > buf.len() || stack.len() == 0) && !(stack.len() == 1
        && nest == 0 && spec_probe(buf, lo, pos, limit, probe)) {
        let (next, after) = spec_step(buf, pos, stack);
        if next > pos && next <= limit {
            lemma_find_from(
                buf,
                lo,
                next,
                limit,
                after,
                spec_nest(buf[pos], stack.last(), nest),
                probe,
            );
        }
    }
}

/// The kind of block that the word in `[start, end)` names.
pub open spec fn spec_block_kind(buf: Seq<u8>, start: int, end: int) -> Option<BlockKind> {
    if spec_is_word(buf, start, end, "if") {
        Some(BlockKind::If)
    } else if spec_is_word(buf, start, end, "each") {
        Some(BlockKind::Each)
    } else if spec_is_word(buf, start, end, "await") {
        Some(BlockKind::Await)
    } else if spec_is_word(buf, start, end, "key") {
        Some(BlockKind::Key)
    } else if spec_is_word(buf, start, end, "snippet") {
        Some(BlockKind::Snippet)
    } else {
        None
    }
}

/// The kind of tag that the word in `[start, end)` names.
pub open spec fn spec_tag_kind(buf: Seq<u8>, start: int, end: int) -> Option<TagKind> {
    if spec_is_word(buf, start, end, "html") {
        Some(TagKind::Html)
    } else if spec_is_word(buf, start, end, "const") {
        Some(TagKind::Const)
    } else if spec_is_word(buf, start, end, "debug") {
        Some(TagKind::Debug)
    } else if spec_is_word(buf, start, end, "render") {
        Some(TagKind::Render)
    } else if spec_is_word(buf, start, end, "attach") {
        Some(TagKind::Attach)
    } else {
        None
    }
}

/// The sub-spans of a key in parentheses: the `(` stands at `open`, and the
/// head must end with the `)` that closes it. The key is what stands
/// between them, without the whitespace around it, and is not empty.
pub open spec fn spec_key_fields(buf: Seq<u8>, open: int, h: int) -> Option<Seq<Field>> {
    let close = spec_find_top(buf, open + 1, h, Probe::CloseParen);
    let first = spec_run_end(buf, open + 1, h - 1, ByteClass::Space);
    let last = spec_trim_end(buf, first, h - 1);
    if open + 1 < h && close == h - 1 && first < last {
        Some(seq![Field::spec_new(FieldName::Key, first, last)])
    } else {
        None
    }
}

/// The sub-spans of what follows the comma of an each block: the index, and
/// the key if there is one.
pub open spec fn spec_index_fields(buf: Seq<u8>, comma: int, h: int) -> Option<Seq<Field>> {
    let first = spec_run_end(buf, comma + 1, h, ByteClass::Space);
    let paren = spec_find_top(buf, first, h, Probe::OpenParen);
    let last = spec_trim_end(buf, first, paren);
    if first >= last {
        None
    } else if paren >= h {
        Some(seq![Field::spec_new(FieldName::Index, first, last)])
    } else {
        match spec_key_fields(buf, paren, h) {
            Some(key) => Some(seq![Field::spec_new(FieldName::Index, first, last)] + key),
            None => None,
        }
    }
}

/// The sub-spans of the head of an each block, from its expression on:
/// `expression`, or `expression as binding`, with `, index` and `(key)`
/// after the binding where they are written.
pub open spec fn spec_each_fields(buf: Seq<u8>, e: int, h: int) -> Option<Seq<Field>> {
    let a = spec_find_top(buf, e, h, Probe::As);
    if e >= h {
        None
    } else if a >= h {
        Some(seq![Field::spec_new(FieldName::Expression, e, h)])
    } else {
        let expression = Field::spec_new(FieldName::Expression, e, spec_trim_end(buf, e, a));
        let b = spec_run_end(buf, a + "as".spec_bytes().len(), h, ByteClass::Space);
        let d = spec_find_top(buf, b, h, Probe::CommaOrParen);
        let binding = Field::spec_new(FieldName::Binding, b, spec_trim_end(buf, b, d));
        if b >= spec_trim_end(buf, b, d) {
            None
        } else if d >= h {
            Some(seq![expression, binding])
        } else {
            let rest = if buf[d] == COMMA {
                spec_index_fields(buf, d, h)
            } else {
                spec_key_fields(buf, d, h)
            };
            match rest {
                Some(fields) => Some(seq![expression, binding] + fields),
                None => None,
            }
        }
    }
}

/// The length of the word that `Probe::ThenOrCatch` found at `at`.
pub open spec fn spec_short_form_len(buf: Seq<u8>, lo: int, at: int, h: int) -> int {
    if spec_keyword_at(buf, lo, at, h, "then") {
        "then".spec_bytes().len() as int
    } else {
        "catch".spec_bytes().len() as int
    }
}

/// The sub-spans of the head of an await block, from its expression on:
/// `expression`, or `expression then binding`, or `expression catch
/// binding`, where the binding may be left out.
pub open spec fn spec_await_fields(buf: Seq<u8>, e: int, h: int) -> Option<Seq<Field>> {
    let t = spec_find_top(buf, e, h, Probe::ThenOrCatch);
    if e >= h {
        None
    } else if t >= h {
        Some(seq![Field::spec_new(FieldName::Expression, e, h)])
    } else {
        let word_end = t + spec_short_form_len(buf, e, t, h);
        let b = spec_run_end(buf, word_end, h, ByteClass::Space);
        let head = seq![
            Field::spec_new(FieldName::Expression, e, spec_trim_end(buf, e, t)),
            Field::spec_new(FieldName::ShortForm, t, word_end),
        ];
        if b < h {
            Some(head.push(Field::spec_new(FieldName::Binding, b, h)))
        } else {
            Some(head)
        }
    }
}

/// The head of a block start, which stands in `[s, h)`.
pub open spec fn spec_block_start(buf: Seq<u8>, s: int, h: int) -> Option<(TokenKind, Seq<Field>)> {
    let k = spec_run_end(buf, s, h, ByteClass::Alpha);
    let e = spec_run_end(buf, k, h, ByteClass::Space);
    let kind_field = Field::spec_new(FieldName::Kind, s, k);
    match spec_block_kind(buf, s, k) {
        None => None,
        Some(BlockKind::Each) => match spec_each_fields(buf, e, h) {
            Some(fields) => Some((TokenKind::BlockStart(BlockKind::Each), seq![kind_field] + fields)),
            None => None,
        },
        Some(BlockKind::Await) => match spec_await_fields(buf, e, h) {
            Some(fields) => Some(
                (TokenKind::BlockStart(BlockKind::Await), seq![kind_field] + fields),
            ),
            None => None,
        },
        Some(kind) => if e < h {
            Some(
                (
                    TokenKind::BlockStart(kind),
                    seq![kind_field, Field::spec_new(FieldName::Expression, e, h)],
                ),
            )
        } else {
            None
        },
    }
}

/// The head of a branch, which stands in `[s, h)`.
pub open spec fn spec_block_branch(buf: Seq<u8>, s: int, h: int) -> Option<(TokenKind, Seq<Field>)> {
    let k = spec_run_end(buf, s, h, ByteClass::Alpha);
    let e = spec_run_end(buf, k, h, ByteClass::Space);
    let kind_field = Field::spec_new(FieldName::Kind, s, k);
    if spec_is_word(buf, s, k, "else") {
        let k2 = spec_run_end(buf, e, h, ByteClass::Alpha);
        let e2 = spec_run_end(buf, k2, h, ByteClass::Space);
        if e >= h {
            Some((TokenKind::BlockBranch(BranchKind::Else), seq![kind_field]))
        } else if k < e && spec_is_word(buf, e, k2, "if") && e2 < h {
            Some(
                (
                    TokenKind::BlockBranch(BranchKind::ElseIf),
                    seq![
                        Field::spec_new(FieldName::Kind, s, k2),
                        Field::spec_new(FieldName::ExpressionValue, e2, h),
                    ],
                ),
            )
        } else {
            None
        }
    } else if spec_is_word(buf, s, k, "then") || spec_is_word(buf, s, k, "catch") {
        let kind = if spec_is_word(buf, s, k, "then") {
            BranchKind::Then
        } else {
            BranchKind::Catch
        };
        if e < h {
            Some(
                (
                    TokenKind::BlockBranch(kind),
                    seq![kind_field, Field::spec_new(FieldName::ExpressionValue, e, h)],
                ),
            )
        } else {
            Some((TokenKind::BlockBranch(kind), seq![kind_field]))
        }
    } else {
        None
    }
}

/// The head of a block end, which stands in `[s, h)`.
pub open spec fn spec_block_end(buf: Seq<u8>, s: int, h: int) -> Option<(TokenKind, Seq<Field>)> {
    let k = spec_run_end(buf, s, h, ByteClass::Alpha);
    match spec_block_kind(buf, s, k) {
        Some(kind) => if k >= h {
            Some((TokenKind::BlockEnd(kind), seq![Field::spec_new(FieldName::Kind, s, k)]))
        } else {
            None
        },
        None => None,
    }
}

/// The head of a tag, which stands in `[s, h)`. Only a debug tag may have
/// nothing after its kind, and it has no expression sub-span in that case.
pub open spec fn spec_tag(buf: Seq<u8>, s: int, h: int) -> Option<(TokenKind, Seq<Field>)> {
    let k = spec_run_end(buf, s, h, ByteClass::Alpha);
    let e = spec_run_end(buf, k, h, ByteClass::Space);
    let kind_field = Field::spec_new(FieldName::Kind, s, k);
    match spec_tag_kind(buf, s, k) {
        Some(kind) => if e < h {
            Some(
                (
                    TokenKind::Tag(kind),
                    seq![kind_field, Field::spec_new(FieldName::ExpressionValue, e, h)],
                ),
            )
        } else if kind == TagKind::Debug {
            Some((TokenKind::Tag(kind), seq![kind_field]))
        } else {
            None
        },
        None => None,
    }
}

/// Whether a byte after `{` opens a head.
pub open spec fn spec_is_sigil(b: u8) -> bool {
    b == HASH || b == COLON || b == SLASH || b == AT
}

/// The kind and the sub-spans of the head that stands in `[s, h)` after the
/// sigil; `None` where it has no known form.
pub open spec fn spec_head(buf: Seq<u8>, sigil: u8, s: int, h: int) -> Option<
    (TokenKind, Seq<Field>),
> {
    if sigil == HASH {
        spec_block_start(buf, s, h)
    } else if sigil == COLON {
        spec_block_branch(buf, s, h)
    } else if sigil == SLASH {
        spec_block_end(buf, s, h)
    } else {
        spec_tag(buf, s, h)
    }
}

fn keyword_at(buf: &[u8], lo: usize, at: usize, limit: usize, word: &str) -> (r: bool)
    requires
        lo <= at < limit <= buf@.len(),
    ensures
        r == spec_keyword_at(buf@, lo as int, at as int, limit as int, word),
{
    if at <= lo || !is_space(buf[at - 1]) {
        return false;
    }
    if !word_at(buf, at, limit, word) {
        return false;
    }
    let after: usize = at + word.len();
    after == limit || is_space(buf[after])
}

fn probe_at(buf: &[u8], lo: usize, at: usize, limit: usize, probe: Probe) -> (r: bool)
    requires
        lo <= at < limit <= buf@.len(),
    ensures
        r == spec_probe(buf@, lo as int, at as int, limit as int, probe),
{
    match probe {
        Probe::As => keyword_at(buf, lo, at, limit, "as"),
        Probe::ThenOrCatch => keyword_at(buf, lo, at, limit, "then") || keyword_at(
            buf,
            lo,
            at,
            limit,
            "catch",
        ),
        Probe::CommaOrParen => buf[at] == COMMA || buf[at] == OPEN_PAREN,
        Probe::OpenParen => buf[at] == OPEN_PAREN,
        Probe::CloseParen => buf[at] == CLOSE_PAREN,
    }
}

/// The first position in `[lo, limit)` at which the probe matches outside
/// strings, template literals, comments, braces, parentheses and brackets;
/// `limit` where there is none.
pub fn find_top(buf: &[u8], lo: usize, limit: usize, probe: Probe) -> (at: usize)
    requires
        lo <= limit <= buf@.len(),
    ensures
        at == spec_find_top(buf@, lo as int, limit as int, probe),
        lo <= at <= limit,
        at < limit ==> spec_probe(buf@, lo as int, at as int, limit as int, probe),
{
    let mut stack: Vec<SubState> = Vec::new();
    stack.push(SubState::Brace);
    assert(stack@ =~= seq![SubState::Brace]);
    let mut nest: usize = 0;
    let mut pos: usize = lo;
    while pos < limit
        invariant
            lo <= pos,
            lo <= limit <= buf@.len(),
            nest <= pos - lo,
            spec_find_from(
                buf@,
                lo as int,
                pos as int,
                limit as int,
                stack@,
                nest as nat,
                probe,
            ) == spec_find_top(buf@, lo as int, limit as int, probe),
        decreases buf@.len() + 2 - pos,
    {
        if stack.len() == 0 {
            return limit;
        }
        if stack.len() == 1 && nest == 0 && probe_at(buf, lo, pos, limit, probe) {
            return pos;
        }
        let b = buf[pos];
        let top = stack[stack.len() - 1];
        let code = match top {
            SubState::Brace | SubState::TemplateSubstitution => true,
            _ => false,
        };
        let next = step(buf, pos, &mut stack);
        if next > limit {
            return limit;
        }
        if code {
            if b == OPEN_PAREN || b == OPEN_BRACKET {
                nest += 1;
            } else if (b == CLOSE_PAREN || b == CLOSE_BRACKET) && nest > 0 {
                nest -= 1;
            }
        }
        pos = next;
    }
    limit
}

fn block_kind(buf: &[u8], start: usize, end: usize) -> (kind: Option<BlockKind>)
    requires
        start <= end <= buf@.len(),
    ensures
        kind == spec_block_kind(buf@, start as int, end as int),
{
    if is_word(buf, start, end, "if") {
        Some(BlockKind::If)
    } else if is_word(buf, start, end, "each") {
        Some(BlockKind::Each)
    } else if is_word(buf, start, end, "await") {
        Some(BlockKind::Await)
    } else if is_word(buf, start, end, "key") {
        Some(BlockKind::Key)
    } else if is_word(buf, start, end, "snippet") {
        Some(BlockKind::Snippet)
    } else {
        None
    }
}

fn tag_kind(buf: &[u8], start: usize, end: usize) -> (kind: Option<TagKind>)
    requires
        start <= end <= buf@.len(),
    ensures
        kind == spec_tag_kind(buf@, start as int, end as int),
{
    if is_word(buf, start, end, "html") {
        Some(TagKind::Html)
    } else if is_word(buf, start, end, "const") {
        Some(TagKind::Const)
    } else if is_word(buf, start, end, "debug") {
        Some(TagKind::Debug)
    } else if is_word(buf, start, end, "render") {
        Some(TagKind::Render)
    } else if is_word(buf, start, end, "attach") {
        Some(TagKind::Attach)
    } else {
        None
    }
}

fn key_fields(buf: &[u8], open: usize, h: usize, fields: &mut Vec<Field>) -> (ok: bool)
    requires
        open < h <= buf@.len(),
    ensures
        ok == spec_key_fields(buf@, open as int, h as int) is Some,
        ok ==> final(fields)@ == old(fields)@ + spec_key_fields(
            buf@,
            open as int,
            h as int,
        ).unwrap(),
{
    if open + 1 >= h {
        return false;
    }
    let close = find_top(buf, open + 1, h, Probe::CloseParen);
    let first = run_end(buf, open + 1, h - 1, ByteClass::Space);
    let last = trim_end(buf, first, h - 1);
    if close == h - 1 && first < last {
        fields.push(Field::new(FieldName::Key, first, last));
        assert(fields@ =~= old(fields)@ + seq![
            Field::spec_new(FieldName::Key, first as int, last as int),
        ]);
        true
    } else {
        false
    }
}

fn index_fields(buf: &[u8], comma: usize, h: usize, fields: &mut Vec<Field>) -> (ok: bool)
    requires
        comma < h <= buf@.len(),
    ensures
        ok == spec_index_fields(buf@, comma as int, h as int) is Some,
        ok ==> final(fields)@ == old(fields)@ + spec_index_fields(
            buf@,
            comma as int,
            h as int,
        ).unwrap(),
{
    let first = run_end(buf, comma + 1, h, ByteClass::Space);
    let paren = find_top(buf, first, h, Probe::OpenParen);
    let last = trim_end(buf, first, paren);
    if first >= last {
        return false;
    }
    fields.push(Field::new(FieldName::Index, first, last));
    let ghost index = seq![Field::spec_new(FieldName::Index, first as int, last as int)];
    assert(fields@ =~= old(fields)@ + index);
    if paren >= h {
        true
    } else {
        let ok = key_fields(buf, paren, h, fields);
        if ok {
            assert(fields@ =~= old(fields)@ + (index + spec_key_fields(
                buf@,
                paren as int,
                h as int,
            ).unwrap()));
        }
        ok
    }
}

fn each_fields(buf: &[u8], e: usize, h: usize, fields: &mut Vec<Field>) -> (ok: bool)
    requires
        e <= h <= buf@.len(),
    ensures
        ok == spec_each_fields(buf@, e as int, h as int) is Some,
        ok ==> final(fields)@ == old(fields)@ + spec_each_fields(
            buf@,
            e as int,
            h as int,
        ).unwrap(),
{
    if e >= h {
        return false;
    }
    let a = find_top(buf, e, h, Probe::As);
    if a >= h {
        fields.push(Field::new(FieldName::Expression, e, h));
        assert(fields@ =~= old(fields)@ + seq![
            Field::spec_new(FieldName::Expression, e as int, h as int),
        ]);
        return true;
    }
    let expression_end = trim_end(buf, e, a);
    let b = run_end(buf, a + "as".len(), h, ByteClass::Space);
    let d = find_top(buf, b, h, Probe::CommaOrParen);
    let binding_end = trim_end(buf, b, d);
    if b >= binding_end {
        return false;
    }
    fields.push(Field::new(FieldName::Expression, e, expression_end));
    fields.push(Field::new(FieldName::Binding, b, binding_end));
    let ghost pair = seq![
        Field::spec_new(FieldName::Expression, e as int, expression_end as int),
        Field::spec_new(FieldName::Binding, b as int, binding_end as int),
    ];
    assert(fields@ =~= old(fields)@ + pair);
    if d >= h {
        return true;
    }
    let ghost rest = if buf@[d as int] == COMMA {
        spec_index_fields(buf@, d as int, h as int)
    } else {
        spec_key_fields(buf@, d as int, h as int)
    };
    let ok = if buf[d] == COMMA {
        index_fields(buf, d, h, fields)
    } else {
        key_fields(buf, d, h, fields)
    };
    if ok {
        assert(fields@ =~= old(fields)@ + (pair + rest.unwrap()));
    }
    ok
}

fn await_fields(buf: &[u8], e: usize, h: usize, fields: &mut Vec<Field>) -> (ok: bool)
    requires
        e <= h <= buf@.len(),
    ensures
        ok == spec_await_fields(buf@, e as int, h as int) is Some,
        ok ==> final(fields)@ == old(fields)@ + spec_await_fields(
            buf@,
            e as int,
            h as int,
        ).unwrap(),
{
    if e >= h {
        return false;
    }
    let t = find_top(buf, e, h, Probe::ThenOrCatch);
    if t >= h {
        fields.push(Field::new(FieldName::Expression, e, h));
        assert(fields@ =~= old(fields)@ + seq![
            Field::spec_new(FieldName::Expression, e as int, h as int),
        ]);
        return true;
    }
    let word_len: usize = if keyword_at(buf, e, t, h, "then") {
        "then".len()
    } else {
        "catch".len()
    };
    let word_end: usize = t + word_len;
    let b = run_end(buf, word_end, h, ByteClass::Space);
    let expression_end = trim_end(buf, e, t);
    fields.push(Field::new(FieldName::Expression, e, expression_end));
    fields.push(Field::new(FieldName::ShortForm, t, word_end));
    let ghost head = seq![
        Field::spec_new(FieldName::Expression, e as int, expression_end as int),
        Field::spec_new(FieldName::ShortForm, t as int, word_end as int),
    ];
    assert(fields@ =~= old(fields)@ + head);
    if b < h {
        fields.push(Field::new(FieldName::Binding, b, h));
        assert(fields@ =~= old(fields)@ + head.push(
            Field::spec_new(FieldName::Binding, b as int, h as int),
        ));
    }
    true
}

/// Whether the result of an executable head function is what the
/// specification gives.
pub open spec fn spec_same_head(
    got: Option<(TokenKind, Vec<Field>)>,
    want: Option<(TokenKind, Seq<Field>)>,
) -> bool {
    match got {
        Some((kind, fields)) => want == Some((kind, fields@)),
        None => want is None,
    }
}

fn block_start(buf: &[u8], s: usize, h: usize) -> (head: Option<(TokenKind, Vec<Field>)>)
    requires
        s <= h <= buf@.len(),
    ensures
        spec_same_head(head, spec_block_start(buf@, s as int, h as int)),
{
    let k = run_end(buf, s, h, ByteClass::Alpha);
    let e = run_end(buf, k, h, ByteClass::Space);
    let mut fields: Vec<Field> = Vec::new();
    fields.push(Field::new(FieldName::Kind, s, k));
    let ghost kind_field = Field::spec_new(FieldName::Kind, s as int, k as int);
    assert(fields@ =~= seq![kind_field]);
    match block_kind(buf, s, k) {
        None => None,
        Some(BlockKind::Each) => {
            if each_fields(buf, e, h, &mut fields) {
                Some((TokenKind::BlockStart(BlockKind::Each), fields))
            } else {
                None
            }
        },
        Some(BlockKind::Await) => {
            if await_fields(buf, e, h, &mut fields) {
                Some((TokenKind::BlockStart(BlockKind::Await), fields))
            } else {
                None
            }
        },
        Some(kind) => {
            if e < h {
                fields.push(Field::new(FieldName::Expression, e, h));
                assert(fields@ =~= seq![
                    kind_field,
                    Field::spec_new(FieldName::Expression, e as int, h as int),
                ]);
                Some((TokenKind::BlockStart(kind), fields))
            } else {
                None
            }
        },
    }
}

fn block_branch(buf: &[u8], s: usize, h: usize) -> (head: Option<(TokenKind, Vec<Field>)>)
    requires
        s <= h <= buf@.len(),
    ensures
        spec_same_head(head, spec_block_branch(buf@, s as int, h as int)),
{
    let k = run_end(buf, s, h, ByteClass::Alpha);
    let e = run_end(buf, k, h, ByteClass::Space);
    let mut fields: Vec<Field> = Vec::new();
    if is_word(buf, s, k, "else") {
        let k2 = run_end(buf, e, h, ByteClass::Alpha);
        let e2 = run_end(buf, k2, h, ByteClass::Space);
        if e >= h {
            fields.push(Field::new(FieldName::Kind, s, k));
            assert(fields@ =~= seq![Field::spec_new(FieldName::Kind, s as int, k as int)]);
            Some((TokenKind::BlockBranch(BranchKind::Else), fields))
        } else if k < e && is_word(buf, e, k2, "if") && e2 < h {
            fields.push(Field::new(FieldName::Kind, s, k2));
            fields.push(Field::new(FieldName::ExpressionValue, e2, h));
            assert(fields@ =~= seq![
                Field::spec_new(FieldName::Kind, s as int, k2 as int),
                Field::spec_new(FieldName::ExpressionValue, e2 as int, h as int),
            ]);
            Some((TokenKind::BlockBranch(BranchKind::ElseIf), fields))
        } else {
            None
        }
    } else {
        let is_then = is_word(buf, s, k, "then");
        if is_then || is_word(buf, s, k, "catch") {
            let kind = if is_then {
                BranchKind::Then
            } else {
                BranchKind::Catch
            };
            fields.push(Field::new(FieldName::Kind, s, k));
            if e < h {
                fields.push(Field::new(FieldName::ExpressionValue, e, h));
                assert(fields@ =~= seq![
                    Field::spec_new(FieldName::Kind, s as int, k as int),
                    Field::spec_new(FieldName::ExpressionValue, e as int, h as int),
                ]);
            } else {
                assert(fields@ =~= seq![Field::spec_new(FieldName::Kind, s as int, k as int)]);
            }
            Some((TokenKind::BlockBranch(kind), fields))
        } else {
            None
        }
    }
}

fn block_end(buf: &[u8], s: usize, h: usize) -> (head: Option<(TokenKind, Vec<Field>)>)
    requires
        s <= h <= buf@.len(),
    ensures
        spec_same_head(head, spec_block_end(buf@, s as int, h as int)),
{
    let k = run_end(buf, s, h, ByteClass::Alpha);
    match block_kind(buf, s, k) {
        Some(kind) => {
            if k >= h {
                let mut fields: Vec<Field> = Vec::new();
                fields.push(Field::new(FieldName::Kind, s, k));
                assert(fields@ =~= seq![Field::spec_new(FieldName::Kind, s as int, k as int)]);
                Some((TokenKind::BlockEnd(kind), fields))
            } else {
                None
            }
        },
        None => None,
    }
}

fn tag(buf: &[u8], s: usize, h: usize) -> (head: Option<(TokenKind, Vec<Field>)>)
    requires
        s <= h <= buf@.len(),
    ensures
        spec_same_head(head, spec_tag(buf@, s as int, h as int)),
{
    let k = run_end(buf, s, h, ByteClass::Alpha);
    let e = run_end(buf, k, h, ByteClass::Space);
    match tag_kind(buf, s, k) {
        Some(kind) => {
            let mut fields: Vec<Field> = Vec::new();
            fields.push(Field::new(FieldName::Kind, s, k));
            if e < h {
                fields.push(Field::new(FieldName::ExpressionValue, e, h));
                assert(fields@ =~= seq![
                    Field::spec_new(FieldName::Kind, s as int, k as int),
                    Field::spec_new(FieldName::ExpressionValue, e as int, h as int),
                ]);
                Some((TokenKind::Tag(kind), fields))
            } else {
                assert(fields@ =~= seq![Field::spec_new(FieldName::Kind, s as int, k as int)]);
                match kind {
                    TagKind::Debug => Some((TokenKind::Tag(kind), fields)),
                    _ => None,
                }
            }
        },
        None => None,
    }
}

/// Splits the head that stands in `[s, h)` after `sigil` into its kind and
/// its sub-spans; `None` where the head has no known form.
pub fn scan_head(buf: &[u8], sigil: u8, s: usize, h: usize) -> (head: Option<
    (TokenKind, Vec<Field>),
>)
    requires
        s <= h <= buf@.len(),
    ensures
        spec_same_head(head, spec_head(buf@, sigil, s as int, h as int)),
{
    if sigil == HASH {
        block_start(buf, s, h)
    } else if sigil == COLON {
        block_branch(buf, s, h)
    } else if sigil == SLASH {
        block_end(buf, s, h)
    } else {
        tag(buf, s, h)
    }
}

/// The token of the head whose `{` stands at `pos`, with a sigil after it.
/// The head is what stands between the sigil and the closing brace, without
/// the whitespace before the brace. A head of no known form gives a
/// malformed token up to its closing brace; one that the input ends in
/// gives a malformed token up to the end of the input.
pub open spec fn spec_head_token(buf: Seq<u8>, pos: int) -> TokenView {
    match spec_expression_close(buf, pos + 2) {
        None => TokenView::plain(TokenKind::Malformed, pos, buf.len() as int).with_error(
            Some(ScanError::UnterminatedConstruct),
        ),
        Some(close) => match spec_head(
            buf,
            buf[pos + 1],
            pos + 2,
            spec_trim_end(buf, pos + 2, close),
        ) {
            None => TokenView::plain(TokenKind::Malformed, pos, close + 1).with_error(
                Some(ScanError::InvalidHeadShape),
            ),
            Some((kind, fields)) => TokenView::plain(kind, pos, close + 1).with_fields(fields),
        },
    }
}

/// Scans the head whose `{` stands at `pos`, with a sigil after it.
pub fn head_token(buf: &[u8], pos: usize) -> (token: Token)
    requires
        pos + 1 < buf@.len(),
        buf@[pos as int] == crate::ascii::OPEN_BRACE,
        spec_is_sigil(buf@[pos + 1]),
    ensures
        token@ == spec_head_token(buf@, pos as int),
        token.span.start == pos,
        pos < token.span.end <= buf@.len(),
{
    let len = buf.len();
    match scan_expression(buf, pos + 2) {
        None => Token {
            kind: TokenKind::Malformed,
            span: Span::new(pos, len),
            fields: Vec::new(),
            implicit_closes: 0,
            error: Some(ScanError::UnterminatedConstruct),
        },
        Some(close) => {
            let h = trim_end(buf, pos + 2, close);
            match scan_head(buf, buf[pos + 1], pos + 2, h) {
                None => Token {
                    kind: TokenKind::Malformed,
                    span: Span::new(pos, close + 1),
                    fields: Vec::new(),
                    implicit_closes: 0,
                    error: Some(ScanError::InvalidHeadShape),
                },
                Some((kind, fields)) => Token {
                    kind,
                    span: Span::new(pos, close + 1),
                    fields,
                    implicit_closes: 0,
                    error: None,
                },
            }
        },
    }
}

/// A head token is of one of the four kinds of head, or malformed, and is
/// marked where it is malformed and nowhere else.
pub proof fn lemma_head_kind(buf: Seq<u8>, pos: int)
    ensures
        match spec_head_token(buf, pos).kind {
            TokenKind::BlockStart(_) => spec_head_token(buf, pos).error is None,
            TokenKind::BlockBranch(_) => spec_head_token(buf, pos).error is None,
            TokenKind::BlockEnd(_) => spec_head_token(buf, pos).error is None,
            TokenKind::Tag(_) => spec_head_token(buf, pos).error is None,
            TokenKind::Malformed => spec_head_token(buf, pos).error == Some(
                ScanError::InvalidHeadShape,
            ) || spec_head_token(buf, pos).error == Some(ScanError::UnterminatedConstruct),
            _ => false,
        },
{
}

/// A head that is malformed for its form, not for its end, ends after its
/// closing brace.
pub proof fn lemma_malformed_head_span(buf: Seq<u8>, pos: int)
    requires
        0 <= pos < buf.len() <= usize::MAX,
    ensures
        spec_head_token(buf, pos).error == Some(ScanError::InvalidHeadShape) ==> {
            &&& pos + 2 < spec_head_token(buf, pos).span.end <= buf.len()
            &&& buf[spec_head_token(buf, pos).span.end - 1] == crate::ascii::CLOSE_BRACE
        },
{
    crate::expression::lemma_close_is_brace(buf, pos + 2, seq![SubState::Brace]);
}

} // verus!
