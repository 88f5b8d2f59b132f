//! What holds of every scan: the laws of the scanner, stated over its
//! specification and proved from it.

use vstd::prelude::*;
use vstd::string::StringSliceAdditionalSpecFns;
use crate::ascii::{ByteClass, AMPERSAND, EQUALS, GREATER_THAN, OPEN_BRACE, SLASH};
use crate::ascii::{lemma_find_word, lemma_run_end, spec_in_class, spec_is_space, spec_run_end};
use crate::attribute::{
    lemma_bare_parts_end, lemma_quoted_parts_end, spec_attribute, spec_value_stop,
};
use crate::element::{ElementClass, Layer};
use crate::element::{spec_classify, spec_is_void_name, spec_normalize};
use crate::expression::{SubState, lemma_close_is_brace};
use crate::head::spec_head_token;
use crate::scanner::{Mode, ScanStateView};
use crate::scanner::{
    spec_apply_head, spec_end_tag, spec_in_data, spec_in_raw_text, spec_in_tag,
    lemma_raw_run_end, spec_initial, spec_next, spec_raw_end_at, spec_raw_end_tag,
    spec_start_tag_open, spec_state_wf, spec_tag_accepted, spec_tag_name,
};
use crate::reference::spec_reference;
use crate::stream::{
    lemma_tiles_concat, spec_after_tokens, spec_concat, spec_end_state, spec_scan,
    spec_tiles,
};
use crate::tag_stack::OpenElementView;
use crate::tag_stack::{
    lemma_find_open, lemma_implied_closes, spec_about_to_open, spec_accepted, spec_end_tag_seen,
    spec_find_open, spec_implied_closes, spec_stack_wf,
};
use crate::token::{TokenKind, TokenView};

verus! {

/// Whether a token that starts at `pos` is a token of a scan of `buf`: it
/// is not empty and ends inside the input.
pub open spec fn spec_token_at(token: TokenView, buf: Seq<u8>, pos: int) -> bool {
    token.span.start == pos && pos < token.span.end <= buf.len()
}

/// An attribute starts where it is scanned, is not empty, and ends inside
/// the input.
pub proof fn lemma_attribute_span(buf: Seq<u8>, pos: int, braces: bool)
    requires
        0 <= pos < buf.len() <= usize::MAX,
        spec_in_class(ByteClass::AttributeName, buf[pos]),
    ensures
        spec_token_at(spec_attribute(buf, pos, braces), buf, pos),
{
    let len = buf.len() as int;
    if braces && buf[pos] == OPEN_BRACE {
        lemma_close_is_brace(buf, pos + 1, seq![SubState::Brace]);
    } else {
        let n = spec_run_end(buf, pos, len, ByteClass::AttributeName);
        lemma_run_end(buf, pos, len, ByteClass::AttributeName);
        assert(n > pos);
        let p = spec_run_end(buf, n, len, ByteClass::Space);
        lemma_run_end(buf, n, len, ByteClass::Space);
        if p < len && buf[p] == EQUALS {
            let v = spec_run_end(buf, p + 1, len, ByteClass::Space);
            lemma_run_end(buf, p + 1, len, ByteClass::Space);
            if !spec_value_stop(buf, v) {
                lemma_quoted_parts_end(buf, v + 1, buf[v], braces);
                lemma_bare_parts_end(buf, v, braces);
            }
        }
    }
}

proof fn lemma_reference_span(buf: Seq<u8>, pos: int)
    requires
        0 <= pos < buf.len(),
    ensures
        spec_reference(buf, pos) matches Some((kind, end)) ==> pos < end <= buf.len(),
{
}

/// A token of character data starts where the scan stands, is not empty,
/// and ends inside the input.
pub proof fn lemma_in_data_span(layer: Layer, st: ScanStateView, buf: Seq<u8>, pos: int)
    requires
        0 <= pos < buf.len() <= usize::MAX,
    ensures
        spec_token_at(spec_in_data(layer, st, buf, pos).0, buf, pos),
{
    let len = buf.len() as int;
    let class = ByteClass::Text { braces: layer.spec_has_expressions() };
    lemma_run_end(buf, pos + 1, len, class);
    lemma_reference_span(buf, pos);
    if buf[pos] == crate::ascii::LESS_THAN {
        if pos + 1 < len && buf[pos + 1] == crate::ascii::BANG {
            if crate::ascii::spec_word_at(buf, pos + 2, len, "--") {
                lemma_find_word(buf, pos + 2 + "--".spec_bytes().len(), "-->");
            } else {
                lemma_run_end(buf, pos + 2, len, ByteClass::Except(GREATER_THAN));
            }
        } else if pos + 2 < len && buf[pos + 1] == SLASH && crate::ascii::spec_is_alpha(
            buf[pos + 2],
        ) {
            let e = spec_run_end(buf, pos + 2, len, ByteClass::TagName);
            lemma_run_end(buf, pos + 2, len, ByteClass::TagName);
            lemma_run_end(buf, e, len, ByteClass::Except(GREATER_THAN));
        } else if pos + 1 < len && crate::ascii::spec_is_alpha(buf[pos + 1]) {
            lemma_run_end(buf, pos + 1, len, ByteClass::TagName);
        }
    } else if buf[pos] == OPEN_BRACE && layer.spec_has_expressions() {
        lemma_close_is_brace(buf, pos + 1, seq![SubState::Brace]);
        lemma_close_is_brace(buf, pos + 2, seq![SubState::Brace]);
    }
}

/// A token inside a tag starts where the scan stands, is not empty, and
/// ends inside the input.
pub proof fn lemma_in_tag_span(layer: Layer, st: ScanStateView, buf: Seq<u8>, pos: int)
    requires
        0 <= pos < buf.len() <= usize::MAX,
    ensures
        spec_token_at(spec_in_tag(layer, st, buf, pos).0, buf, pos),
{
    let len = buf.len() as int;
    let b = buf[pos];
    if spec_is_space(b) {
        lemma_run_end(buf, pos, len, ByteClass::Space);
    } else if b == GREATER_THAN {
    } else if b == SLASH || b == EQUALS {
    } else {
        lemma_attribute_span(buf, pos, layer.spec_has_expressions());
    }
}

/// A token of raw text starts where the scan stands, is not empty, and
/// ends inside the input.
pub proof fn lemma_in_raw_text_span(st: ScanStateView, buf: Seq<u8>, pos: int, references: bool)
    requires
        0 <= pos < buf.len() <= usize::MAX,
    ensures
        spec_token_at(spec_in_raw_text(st, buf, pos, references).0, buf, pos),
{
    let len = buf.len() as int;
    let name = st.elements.last().name;
    lemma_raw_run_end(buf, pos + 1, name, references);
    lemma_reference_span(buf, pos);
    if spec_raw_end_at(buf, pos, name) {
        lemma_run_end(buf, pos + 2 + name.len(), len, ByteClass::Except(GREATER_THAN));
    }
}

/// Every token starts where the scan stands, is not empty, and ends inside
/// the input.
pub proof fn lemma_next_span(layer: Layer, st: ScanStateView, buf: Seq<u8>, pos: int)
    requires
        0 <= pos < buf.len() <= usize::MAX,
    ensures
        spec_token_at(spec_next(layer, st, buf, pos).0, buf, pos),
{
    match st.mode {
        Mode::Data => lemma_in_data_span(layer, st, buf, pos),
        Mode::TagOpen => lemma_in_tag_span(layer, st, buf, pos),
        Mode::RawText => lemma_in_raw_text_span(st, buf, pos, false),
        Mode::EscapableRawText => lemma_in_raw_text_span(st, buf, pos, true),
    }
}

proof fn lemma_take_keeps_wf(stack: Seq<OpenElementView>, n: int)
    requires
        spec_stack_wf(stack),
        0 <= n <= stack.len(),
    ensures
        spec_stack_wf(stack.take(n)),
{
    assert forall|i: int| 0 <= i < stack.take(n).len() implies (#[trigger] stack.take(n)[i]).class
        == spec_classify(stack.take(n)[i].name) && !stack.take(n)[i].is_void() by {
        assert(stack.take(n)[i] == stack[i]);
    }
}

proof fn lemma_about_to_open_keeps_wf(stack: Seq<OpenElementView>, name: Seq<u8>)
    requires
        spec_stack_wf(stack),
    ensures
        spec_stack_wf(spec_about_to_open(stack, name)),
{
    lemma_implied_closes(stack, name);
    lemma_take_keeps_wf(stack, stack.len() - spec_implied_closes(stack, name));
}

proof fn lemma_end_tag_seen_keeps_wf(stack: Seq<OpenElementView>, name: Seq<u8>)
    requires
        spec_stack_wf(stack),
    ensures
        spec_stack_wf(spec_end_tag_seen(stack, name)),
{
    lemma_find_open(stack, name);
    if spec_find_open(stack, name) >= 0 {
        lemma_take_keeps_wf(stack, spec_find_open(stack, name));
    }
}

proof fn lemma_accepted_keeps_wf(stack: Seq<OpenElementView>, name: Seq<u8>, self_closing: bool)
    requires
        spec_stack_wf(stack),
    ensures
        spec_stack_wf(spec_accepted(stack, name, self_closing)),
{
    let pushed = stack.push(OpenElementView::of(name));
    if !(self_closing || spec_classify(name) == ElementClass::Void) {
        assert forall|i: int| 0 <= i < pushed.len() implies (#[trigger] pushed[i]).class
            == spec_classify(pushed[i].name) && !pushed[i].is_void() by {
            if i < stack.len() {
                assert(pushed[i] == stack[i]);
            }
        }
    }
}

proof fn lemma_apply_head_keeps_wf(st: ScanStateView, token: TokenView)
    requires
        spec_state_wf(st),
    ensures
        spec_state_wf(spec_apply_head(st, token).1),
{
}

proof fn lemma_in_data_keeps_wf(layer: Layer, st: ScanStateView, buf: Seq<u8>, pos: int)
    requires
        0 <= pos < buf.len(),
        spec_state_wf(st),
        st.mode == Mode::Data,
    ensures
        spec_state_wf(spec_in_data(layer, st, buf, pos).1),
{
    let after = spec_in_data(layer, st, buf, pos).1;
    lemma_about_to_open_keeps_wf(st.elements, spec_tag_name(layer, buf, pos + 1));
    lemma_end_tag_seen_keeps_wf(st.elements, spec_tag_name(layer, buf, pos + 2));
    lemma_apply_head_keeps_wf(st, spec_head_token(buf, pos));
    assert(after == st || after == spec_end_tag(layer, st, buf, pos).1 || after
        == spec_start_tag_open(layer, st, buf, pos).1 || after == spec_apply_head(
        st,
        spec_head_token(buf, pos),
    ).1);
}

proof fn lemma_in_tag_keeps_wf(layer: Layer, st: ScanStateView, buf: Seq<u8>, pos: int)
    requires
        0 <= pos < buf.len(),
        spec_state_wf(st),
        st.mode == Mode::TagOpen,
    ensures
        spec_state_wf(spec_in_tag(layer, st, buf, pos).1),
{
    let after = spec_in_tag(layer, st, buf, pos).1;
    lemma_accepted_keeps_wf(st.elements, st.pending, false);
    lemma_accepted_keeps_wf(st.elements, st.pending, true);
    assert(after == st || after == spec_tag_accepted(st, false) || after == spec_tag_accepted(
        st,
        true,
    ));
}

proof fn lemma_in_raw_text_keeps_wf(st: ScanStateView, buf: Seq<u8>, pos: int, references: bool)
    requires
        0 <= pos < buf.len(),
        spec_state_wf(st),
        st.mode == Mode::RawText || st.mode == Mode::EscapableRawText,
    ensures
        spec_state_wf(spec_in_raw_text(st, buf, pos, references).1),
{
    let after = spec_in_raw_text(st, buf, pos, references).1;
    lemma_take_keeps_wf(st.elements, st.elements.len() - 1);
    assert(st.elements.drop_last() =~= st.elements.take(st.elements.len() - 1));
    assert(after == st || after == spec_raw_end_tag(st, buf, pos).1);
}

/// No step of a scan leaves the states that a scan can be in. In
/// particular no step puts a void element on the stack of open elements.
pub proof fn lemma_next_keeps_wf(layer: Layer, st: ScanStateView, buf: Seq<u8>, pos: int)
    requires
        0 <= pos < buf.len(),
        spec_state_wf(st),
    ensures
        spec_state_wf(spec_next(layer, st, buf, pos).1),
{
    match st.mode {
        Mode::Data => lemma_in_data_keeps_wf(layer, st, buf, pos),
        Mode::TagOpen => lemma_in_tag_keeps_wf(layer, st, buf, pos),
        Mode::RawText => lemma_in_raw_text_keeps_wf(st, buf, pos, false),
        Mode::EscapableRawText => lemma_in_raw_text_keeps_wf(st, buf, pos, true),
    }
}

/// The tokens of a scan tile what is left of the input: no byte is skipped
/// and none is covered twice, and the bytes that the tokens cover, taken
/// one token after the other, are the bytes of the input from where the
/// scan started.
pub proof fn law_scan_reconstructs_input(layer: Layer, st: ScanStateView, buf: Seq<u8>, pos: int)
    requires
        0 <= pos <= buf.len() <= usize::MAX,
    ensures
        spec_tiles(spec_scan(layer, st, buf, pos), pos, buf.len() as int),
        spec_concat(buf, spec_scan(layer, st, buf, pos)) == buf.subrange(pos, buf.len() as int),
    decreases buf.len() - pos,
{
    let len = buf.len() as int;
    let all = spec_scan(layer, st, buf, pos);
    if pos < len {
        let (token, after) = spec_next(layer, st, buf, pos);
        lemma_next_span(layer, st, buf, pos);
        let end = token.span.end as int;
        let rest = spec_scan(layer, after, buf, end);
        law_scan_reconstructs_input(layer, after, buf, end);
        assert(all == seq![token] + rest);
        assert(all[0] == token);
        assert forall|i: int| 0 <= i < all.len() implies (#[trigger] all[i]).span.start
            < all[i].span.end by {
            if i > 0 {
                assert(all[i] == rest[i - 1]);
            }
        }
        assert forall|i: int, j: int| 0 <= i && j == i + 1 && j < all.len() implies (
        #[trigger] all[j]).span.start == (#[trigger] all[i]).span.end by {
            assert(all[j] == rest[j - 1]);
            if i > 0 {
                assert(all[i] == rest[i - 1]);
            }
        }
        if rest.len() > 0 {
            assert(all.last() == rest.last());
        }
    }
    lemma_tiles_concat(buf, all, pos, len);
}

/// The round trip: the bytes that the tokens of a scan of the whole input
/// cover, taken one token after the other, are the input.
pub proof fn law_round_trip(layer: Layer, buf: Seq<u8>)
    requires
        buf.len() <= usize::MAX,
    ensures
        spec_concat(buf, spec_scan(layer, spec_initial(), buf, 0)) == buf,
{
    law_scan_reconstructs_input(layer, spec_initial(), buf, 0);
    assert(buf.subrange(0, buf.len() as int) =~= buf);
}

/// Resuming is rescanning. Take a scan of `buf` that starts at `pos` in the
/// state `st`, and the state and position that it has reached after `k`
/// of its tokens. A scan that starts there yields the tokens that the first
/// scan yields after its first `k`, and ends in the state in which the first
/// scan ends.
pub proof fn law_resume_matches_rescan(
    layer: Layer,
    st: ScanStateView,
    buf: Seq<u8>,
    pos: int,
    k: nat,
)
    requires
        0 <= pos <= buf.len() <= usize::MAX,
        k <= spec_scan(layer, st, buf, pos).len(),
    ensures
        spec_scan(layer, st, buf, pos) == spec_scan(layer, st, buf, pos).take(k as int)
            + spec_scan(
            layer,
            spec_after_tokens(layer, st, buf, pos, k).0,
            buf,
            spec_after_tokens(layer, st, buf, pos, k).1,
        ),
        spec_end_state(layer, st, buf, pos) == spec_end_state(
            layer,
            spec_after_tokens(layer, st, buf, pos, k).0,
            buf,
            spec_after_tokens(layer, st, buf, pos, k).1,
        ),
        pos <= spec_after_tokens(layer, st, buf, pos, k).1 <= buf.len(),
        k > 0 ==> spec_after_tokens(layer, st, buf, pos, k).1 == spec_scan(layer, st, buf, pos)[k
            - 1].span.end,
    decreases k,
{
    let all = spec_scan(layer, st, buf, pos);
    if k == 0 {
        assert(all.take(0) + all =~= all);
    } else {
        let (token, after) = spec_next(layer, st, buf, pos);
        lemma_next_span(layer, st, buf, pos);
        let end = token.span.end as int;
        let rest = spec_scan(layer, after, buf, end);
        assert(all == seq![token] + rest);
        law_resume_matches_rescan(layer, after, buf, end, (k - 1) as nat);
        let there = spec_after_tokens(layer, st, buf, pos, k);
        assert(there == spec_after_tokens(layer, after, buf, end, (k - 1) as nat));
        let tail = spec_scan(layer, there.0, buf, there.1);
        assert(all.take(k as int) =~= seq![token] + rest.take(k - 1));
        assert(seq![token] + (rest.take(k - 1) + tail) =~= (seq![token] + rest.take(k - 1))
            + tail);
        if k > 1 {
            assert(all[k - 1] == rest[k - 2]);
        } else {
            assert(all[0] == token);
        }
    }
}

/// Scanning is idempotent: scanning an input from its start yields the
/// tokens that it yields up to any of its token boundaries, and then the
/// tokens that a scan yields which is resumed at that boundary from the
/// state kept there.
pub proof fn law_rescan_is_idempotent(layer: Layer, buf: Seq<u8>, k: nat)
    requires
        buf.len() <= usize::MAX,
        k <= spec_scan(layer, spec_initial(), buf, 0).len(),
    ensures
        spec_scan(layer, spec_initial(), buf, 0) == spec_scan(layer, spec_initial(), buf, 0).take(
            k as int,
        ) + spec_scan(
            layer,
            spec_after_tokens(layer, spec_initial(), buf, 0, k).0,
            buf,
            spec_after_tokens(layer, spec_initial(), buf, 0, k).1,
        ),
{
    law_resume_matches_rescan(layer, spec_initial(), buf, 0, k);
}

/// Every state that a scan reaches from its start is one that a scan can
/// be in. In particular no void element is ever on the stack of open
/// elements.
pub proof fn law_reached_states_are_wf(layer: Layer, st: ScanStateView, buf: Seq<u8>, pos: int, k: nat)
    requires
        0 <= pos <= buf.len() <= usize::MAX,
        spec_state_wf(st),
    ensures
        spec_state_wf(spec_after_tokens(layer, st, buf, pos, k).0),
        forall|i: int|
            0 <= i < spec_after_tokens(layer, st, buf, pos, k).0.elements.len()
                ==> !spec_is_void_name(
                (#[trigger] spec_after_tokens(layer, st, buf, pos, k).0.elements[i]).name,
            ),
    decreases k,
{
    if k > 0 && pos < buf.len() {
        let (token, after) = spec_next(layer, st, buf, pos);
        lemma_next_span(layer, st, buf, pos);
        lemma_next_keeps_wf(layer, st, buf, pos);
        law_reached_states_are_wf(layer, after, buf, token.span.end as int, (k - 1) as nat);
    }
}

/// A start tag of a void element opens nothing, however the tag ends: from
/// its name to its end, no token changes the stack of open elements.
pub proof fn law_void_elements_never_open(layer: Layer, st: ScanStateView, buf: Seq<u8>, pos: int)
    requires
        0 <= pos < buf.len(),
        st.mode == Mode::TagOpen,
        spec_is_void_name(st.pending),
    ensures
        spec_next(layer, st, buf, pos).1.elements == st.elements,
{
}

/// The name of a start tag is kept, for the end of the tag, as the layer
/// looks it up: in the base layer in lower case, so that a void element is
/// void however its name is written.
pub proof fn law_start_tag_keeps_its_name(layer: Layer, st: ScanStateView, buf: Seq<u8>, pos: int)
    requires
        0 <= pos,
        pos + 1 < buf.len(),
        st.mode == Mode::Data,
        buf[pos] == crate::ascii::LESS_THAN,
        crate::ascii::spec_is_alpha(buf[pos + 1]),
    ensures
        spec_next(layer, st, buf, pos).0.kind == TokenKind::StartTagOpen,
        spec_next(layer, st, buf, pos).1.mode == Mode::TagOpen,
        spec_next(layer, st, buf, pos).1.pending == spec_normalize(
            layer,
            buf.subrange(
                pos + 1,
                spec_run_end(buf, pos + 1, buf.len() as int, ByteClass::TagName),
            ),
        ),
{
}

/// Raw text is scanned verbatim. In the content of a raw text element, at
/// a position where its end tag does not start, the next token is raw text
/// without sub-spans: it runs to the first position at which the end tag of
/// the element starts, in any case of its letters, or to the end of the
/// input, and whatever bytes stand before that are part of it. The state
/// does not change.
pub proof fn law_raw_text_is_verbatim(layer: Layer, st: ScanStateView, buf: Seq<u8>, pos: int)
    requires
        0 <= pos < buf.len() <= usize::MAX,
        st.mode == Mode::RawText,
        !spec_raw_end_at(buf, pos, st.elements.last().name),
    ensures
        spec_next(layer, st, buf, pos).1 == st,
        spec_next(layer, st, buf, pos).0.kind == TokenKind::RawText,
        spec_next(layer, st, buf, pos).0.fields.len() == 0,
        spec_next(layer, st, buf, pos).0.error is None,
        spec_token_at(spec_next(layer, st, buf, pos).0, buf, pos),
        forall|j: int|
            pos <= j < spec_next(layer, st, buf, pos).0.span.end ==> !spec_raw_end_at(
                buf,
                j,
                st.elements.last().name,
            ),
        spec_next(layer, st, buf, pos).0.span.end < buf.len() ==> spec_raw_end_at(
            buf,
            spec_next(layer, st, buf, pos).0.span.end as int,
            st.elements.last().name,
        ),
{
    lemma_raw_run_end(buf, pos + 1, st.elements.last().name, false);
}

/// Nothing but its end tag ends a raw text or escapable raw text element.
/// In the content of such an element, at a position where its end tag
/// starts, the next token is that end tag; it closes the element and the
/// scan goes on in character data.
pub proof fn law_raw_text_ends_at_end_tag(layer: Layer, st: ScanStateView, buf: Seq<u8>, pos: int)
    requires
        0 <= pos < buf.len() <= usize::MAX,
        st.mode == Mode::RawText || st.mode == Mode::EscapableRawText,
        spec_raw_end_at(buf, pos, st.elements.last().name),
    ensures
        spec_next(layer, st, buf, pos).0.kind == TokenKind::EndTag,
        spec_next(layer, st, buf, pos).0.implicit_closes == 0,
        spec_next(layer, st, buf, pos).1.mode == Mode::Data,
        spec_next(layer, st, buf, pos).1.elements == st.elements.drop_last(),
{
}

/// Escapable raw text holds character references and no tags. In the
/// content of an escapable raw text element, at a position where its end
/// tag does not start, the next token is a character reference or text, and
/// the state does not change. Text runs to the next `&`, to the start of
/// the end tag, or to the end of the input.
pub proof fn law_escapable_raw_text_holds_no_tags(
    layer: Layer,
    st: ScanStateView,
    buf: Seq<u8>,
    pos: int,
)
    requires
        0 <= pos < buf.len() <= usize::MAX,
        st.mode == Mode::EscapableRawText,
        !spec_raw_end_at(buf, pos, st.elements.last().name),
    ensures
        spec_next(layer, st, buf, pos).1 == st,
        spec_next(layer, st, buf, pos).0.fields.len() == 0,
        spec_next(layer, st, buf, pos).0.error is None,
        spec_token_at(spec_next(layer, st, buf, pos).0, buf, pos),
        match spec_next(layer, st, buf, pos).0.kind {
            TokenKind::CharacterReference(kind) => buf[pos] == AMPERSAND && spec_reference(
                buf,
                pos,
            ) == Some((kind, spec_next(layer, st, buf, pos).0.span.end as int)),
            TokenKind::Text => {
                &&& forall|j: int|
                    pos < j < spec_next(layer, st, buf, pos).0.span.end ==> buf[j] != AMPERSAND
                        && !spec_raw_end_at(buf, j, st.elements.last().name)
                &&& spec_next(layer, st, buf, pos).0.span.end < buf.len() ==> buf[spec_next(
                    layer,
                    st,
                    buf,
                    pos,
                ).0.span.end as int] == AMPERSAND || spec_raw_end_at(
                    buf,
                    spec_next(layer, st, buf, pos).0.span.end as int,
                    st.elements.last().name,
                )
            },
            _ => false,
        },
{
    lemma_raw_run_end(buf, pos + 1, st.elements.last().name, true);
    lemma_reference_span(buf, pos);
}

/// `script` and `style` hold raw text, `textarea` and `title` hold
/// escapable raw text, and none of the four is void.
pub proof fn law_raw_text_elements()
    ensures
        spec_classify("script".spec_bytes()) == ElementClass::RawText,
        spec_classify("style".spec_bytes()) == ElementClass::RawText,
        spec_classify("textarea".spec_bytes()) == ElementClass::EscapableRawText,
        spec_classify("title".spec_bytes()) == ElementClass::EscapableRawText,
{
    broadcast use vstd::string::is_ascii_spec_bytes;

    reveal_strlit("area");
    reveal_strlit("base");
    reveal_strlit("br");
    reveal_strlit("col");
    reveal_strlit("embed");
    reveal_strlit("hr");
    reveal_strlit("img");
    reveal_strlit("input");
    reveal_strlit("link");
    reveal_strlit("meta");
    reveal_strlit("source");
    reveal_strlit("track");
    reveal_strlit("wbr");
    reveal_strlit("script");
    reveal_strlit("style");
    reveal_strlit("textarea");
    reveal_strlit("title");
    assert("area".is_ascii() && "base".is_ascii() && "br".is_ascii() && "col".is_ascii());
    assert("embed".is_ascii() && "hr".is_ascii() && "img".is_ascii() && "input".is_ascii());
    assert("link".is_ascii() && "meta".is_ascii() && "source".is_ascii() && "track".is_ascii());
    assert("wbr".is_ascii() && "script".is_ascii() && "style".is_ascii());
    assert("textarea".is_ascii() && "title".is_ascii());
    let script = "script".spec_bytes();
    let style = "style".spec_bytes();
    let textarea = "textarea".spec_bytes();
    let title = "title".spec_bytes();
    assert(script.len() == 6 && style.len() == 5 && textarea.len() == 8 && title.len() == 5);
    assert(script[1] != "source".spec_bytes()[1]);
    assert(style[0] != "embed".spec_bytes()[0]);
    assert(style[0] != "input".spec_bytes()[0]);
    assert(style[0] != "track".spec_bytes()[0]);
    assert(title[0] != "embed".spec_bytes()[0]);
    assert(title[0] != "input".spec_bytes()[0]);
    assert(title[1] != "track".spec_bytes()[1]);
    assert(title[0] != style[0]);
    assert(!spec_is_void_name(script));
    assert(!spec_is_void_name(style));
    assert(!spec_is_void_name(textarea));
    assert(!spec_is_void_name(title));
}

/// The `>` that ends the start tag of a raw text or escapable raw text
/// element opens the element and puts the scan into the mode of its
/// content.
pub proof fn law_raw_text_mode_is_entered(layer: Layer, st: ScanStateView, buf: Seq<u8>, pos: int)
    requires
        0 <= pos < buf.len(),
        st.mode == Mode::TagOpen,
        buf[pos] == GREATER_THAN,
        spec_classify(st.pending) == ElementClass::RawText || spec_classify(st.pending)
            == ElementClass::EscapableRawText,
    ensures
        spec_next(layer, st, buf, pos).0.kind == TokenKind::StartTagClose,
        spec_next(layer, st, buf, pos).1.elements == st.elements.push(
            OpenElementView::of(st.pending),
        ),
        spec_next(layer, st, buf, pos).1.mode == if spec_classify(st.pending)
            == ElementClass::RawText {
            Mode::RawText
        } else {
            Mode::EscapableRawText
        },
{
}

/// A raw text mode is entered by nothing but the `>` that ends the start
/// tag of an element of that class: a step that ends in a raw text mode
/// either started in it, or started inside the start tag of such an element
/// and found its `>`.
pub proof fn law_raw_text_mode_is_entered_by_its_start_tag_only(
    layer: Layer,
    st: ScanStateView,
    buf: Seq<u8>,
    pos: int,
)
    requires
        0 <= pos < buf.len(),
        spec_next(layer, st, buf, pos).1.mode == Mode::RawText || spec_next(
            layer,
            st,
            buf,
            pos,
        ).1.mode == Mode::EscapableRawText,
    ensures
        spec_next(layer, st, buf, pos).1.mode == st.mode || {
            &&& st.mode == Mode::TagOpen
            &&& spec_next(layer, st, buf, pos).0.kind == TokenKind::StartTagClose
            &&& spec_classify(st.pending) == if spec_next(layer, st, buf, pos).1.mode
                == Mode::RawText {
                ElementClass::RawText
            } else {
                ElementClass::EscapableRawText
            }
        },
{
    if st.mode == Mode::Data {
        let after = spec_in_data(layer, st, buf, pos).1;
        assert(after == st || after == spec_end_tag(layer, st, buf, pos).1 || after
            == spec_start_tag_open(layer, st, buf, pos).1 || after == spec_apply_head(
            st,
            spec_head_token(buf, pos),
        ).1);
        assert(spec_apply_head(st, spec_head_token(buf, pos)).1.mode == st.mode);
    }
}

/// Elements that close each other are siblings. Once a start tag has
/// closed what it closes, the innermost open element is one that it does not
/// close: an element never opens directly inside an element that its own
/// start tag closes, so that one list item, say, is never the child of
/// another.
pub proof fn law_siblings_never_nest(layer: Layer, st: ScanStateView, buf: Seq<u8>, pos: int)
    requires
        0 <= pos,
        pos + 1 < buf.len(),
        st.mode == Mode::Data,
        st.elements.len() <= usize::MAX,
        buf[pos] == crate::ascii::LESS_THAN,
        crate::ascii::spec_is_alpha(buf[pos + 1]),
    ensures
        spec_next(layer, st, buf, pos).1.elements == st.elements.take(
            st.elements.len() - spec_next(layer, st, buf, pos).0.implicit_closes,
        ),
        forall|i: int|
            st.elements.len() - spec_next(layer, st, buf, pos).0.implicit_closes <= i
                < st.elements.len() ==> crate::element::spec_closed_by(
                (#[trigger] st.elements[i]).class,
                spec_next(layer, st, buf, pos).1.pending,
            ),
        spec_next(layer, st, buf, pos).1.elements.len() > 0 ==> !crate::element::spec_closed_by(
            spec_next(layer, st, buf, pos).1.elements.last().class,
            spec_next(layer, st, buf, pos).1.pending,
        ),
{
    lemma_implied_closes(st.elements, spec_tag_name(layer, buf, pos + 1));
}

/// A mismatch changes nothing. A token that is marked as a mismatched
/// close, be it an end tag, a branch or a block end, leaves the open
/// elements and the open blocks as they were.
pub proof fn law_mismatch_changes_nothing(layer: Layer, st: ScanStateView, buf: Seq<u8>, pos: int)
    requires
        0 <= pos < buf.len(),
        spec_next(layer, st, buf, pos).0.error == Some(
            crate::token::ScanError::MismatchedClose,
        ),
    ensures
        spec_next(layer, st, buf, pos).1.elements == st.elements,
        spec_next(layer, st, buf, pos).1.blocks == st.blocks,
{
    match st.mode {
        Mode::Data => {
            lemma_find_open(st.elements, spec_tag_name(layer, buf, pos + 2));
            lemma_head_token_error(buf, pos);
            lemma_data_token_errors(layer, st, buf, pos);
        },
        Mode::TagOpen => {
            lemma_attribute_error(buf, pos, layer.spec_has_expressions());
        },
        _ => {},
    }
}

proof fn lemma_head_token_error(buf: Seq<u8>, pos: int)
    ensures
        spec_head_token(buf, pos).error != Some(crate::token::ScanError::MismatchedClose),
        spec_head_token(buf, pos).error is Some ==> spec_head_token(buf, pos).kind
            == TokenKind::Malformed,
        spec_head_token(buf, pos).kind == TokenKind::Malformed ==> spec_head_token(
            buf,
            pos,
        ).error is Some,
{
    crate::head::lemma_head_kind(buf, pos);
}

proof fn lemma_attribute_error(buf: Seq<u8>, pos: int, braces: bool)
    ensures
        spec_attribute(buf, pos, braces).error != Some(crate::token::ScanError::MismatchedClose),
{
}

proof fn lemma_data_token_errors(layer: Layer, st: ScanStateView, buf: Seq<u8>, pos: int)
    ensures
        crate::scanner::spec_declaration(buf, pos).error != Some(
            crate::token::ScanError::MismatchedClose,
        ),
        crate::expression::spec_expression_token(buf, pos).error != Some(
            crate::token::ScanError::MismatchedClose,
        ),
{
}

/// Whether a token of kind `kind` can start in the mode `mode`.
pub open spec fn spec_kind_in_mode(kind: TokenKind, mode: Mode) -> bool {
    match mode {
        Mode::Data => match kind {
            TokenKind::Text => true,
            TokenKind::CharacterReference(_) => true,
            TokenKind::Comment => true,
            TokenKind::Doctype => true,
            TokenKind::StartTagOpen => true,
            TokenKind::EndTag => true,
            TokenKind::Expression => true,
            TokenKind::BlockStart(_) => true,
            TokenKind::BlockBranch(_) => true,
            TokenKind::BlockEnd(_) => true,
            TokenKind::Tag(_) => true,
            TokenKind::Malformed => true,
            _ => false,
        },
        Mode::TagOpen => match kind {
            TokenKind::TagSpace => true,
            TokenKind::Stray => true,
            TokenKind::Attribute(_) => true,
            TokenKind::StartTagClose => true,
            TokenKind::SelfClosingTagClose => true,
            _ => false,
        },
        Mode::RawText => kind == TokenKind::RawText || kind == TokenKind::EndTag,
        Mode::EscapableRawText => match kind {
            TokenKind::Text => true,
            TokenKind::CharacterReference(_) => true,
            TokenKind::EndTag => true,
            _ => false,
        },
    }
}

proof fn lemma_in_data_kind(layer: Layer, st: ScanStateView, buf: Seq<u8>, pos: int)
    requires
        0 <= pos < buf.len(),
    ensures
        spec_kind_in_mode(spec_in_data(layer, st, buf, pos).0.kind, Mode::Data),
        spec_in_data(layer, st, buf, pos).0.kind == TokenKind::Malformed ==> spec_in_data(
            layer,
            st,
            buf,
            pos,
        ) == (spec_head_token(buf, pos), st),
{
    crate::head::lemma_head_kind(buf, pos);
    let head = spec_head_token(buf, pos);
    assert(spec_apply_head(st, head).0.kind == head.kind);
    assert(head.kind == TokenKind::Malformed ==> spec_apply_head(st, head) == (head, st));
    assert(crate::scanner::spec_declaration(buf, pos).kind == TokenKind::Comment
        || crate::scanner::spec_declaration(buf, pos).kind == TokenKind::Doctype);
    assert(crate::expression::spec_expression_token(buf, pos).kind == TokenKind::Expression);
    assert(spec_end_tag(layer, st, buf, pos).0.kind == TokenKind::EndTag);
    assert(spec_start_tag_open(layer, st, buf, pos).0.kind == TokenKind::StartTagOpen);
}

proof fn lemma_in_tag_kind(layer: Layer, st: ScanStateView, buf: Seq<u8>, pos: int)
    requires
        0 <= pos < buf.len(),
    ensures
        spec_kind_in_mode(spec_in_tag(layer, st, buf, pos).0.kind, Mode::TagOpen),
{
    let attribute = spec_attribute(buf, pos, layer.spec_has_expressions());
    assert(attribute.kind is Attribute);
}

proof fn lemma_in_raw_text_kind(st: ScanStateView, buf: Seq<u8>, pos: int, references: bool)
    requires
        0 <= pos < buf.len(),
    ensures
        spec_kind_in_mode(
            spec_in_raw_text(st, buf, pos, references).0.kind,
            if references {
                Mode::EscapableRawText
            } else {
                Mode::RawText
            },
        ),
{
}

/// Each mode has its tokens: character data its text, references,
/// comments, tags' starts, end tags, expressions and heads; the inside of a
/// tag its whitespace, attributes and ends; raw text nothing but raw text
/// and the end tag; escapable raw text nothing but text, references and the
/// end tag.
pub proof fn law_token_kinds_by_mode(layer: Layer, st: ScanStateView, buf: Seq<u8>, pos: int)
    requires
        0 <= pos < buf.len(),
    ensures
        spec_kind_in_mode(spec_next(layer, st, buf, pos).0.kind, st.mode),
{
    match st.mode {
        Mode::Data => lemma_in_data_kind(layer, st, buf, pos),
        Mode::TagOpen => lemma_in_tag_kind(layer, st, buf, pos),
        Mode::RawText => lemma_in_raw_text_kind(st, buf, pos, false),
        Mode::EscapableRawText => lemma_in_raw_text_kind(st, buf, pos, true),
    }
}

/// A head of no known form is a token of its own, after which the scan
/// goes on in character data with nothing opened and nothing closed.
pub proof fn law_malformed_heads_change_nothing(
    layer: Layer,
    st: ScanStateView,
    buf: Seq<u8>,
    pos: int,
)
    requires
        0 <= pos < buf.len() <= usize::MAX,
        spec_next(layer, st, buf, pos).0.kind == TokenKind::Malformed,
    ensures
        st.mode == Mode::Data,
        spec_next(layer, st, buf, pos).1 == st,
        spec_next(layer, st, buf, pos).0.error == Some(
            crate::token::ScanError::InvalidHeadShape,
        ) || spec_next(layer, st, buf, pos).0.error == Some(
            crate::token::ScanError::UnterminatedConstruct,
        ),
        spec_next(layer, st, buf, pos).0.error == Some(crate::token::ScanError::InvalidHeadShape)
            ==> buf[spec_next(layer, st, buf, pos).0.span.end - 1] == crate::ascii::CLOSE_BRACE,
{
    law_token_kinds_by_mode(layer, st, buf, pos);
    lemma_in_data_kind(layer, st, buf, pos);
    crate::head::lemma_head_kind(buf, pos);
    crate::head::lemma_malformed_head_span(buf, pos);
}

/// The control-flow layer differs from the expression layer in nothing but
/// heads: where no `{` with a sigil after it stands, both take the same
/// step.
pub proof fn law_control_flow_extends_expressions(st: ScanStateView, buf: Seq<u8>, pos: int)
    requires
        0 <= pos < buf.len(),
        !(st.mode == Mode::Data && buf[pos] == OPEN_BRACE && pos + 1 < buf.len()
            && crate::head::spec_is_sigil(buf[pos + 1])),
    ensures
        spec_next(Layer::ControlFlow, st, buf, pos) == spec_next(Layer::Expression, st, buf, pos),
{
}

/// The expression layer differs from the base layer in nothing but braces
/// and the case of names: in character data, where neither a `{` nor a tag
/// stands, both take the same step.
pub proof fn law_expressions_extend_markup(st: ScanStateView, buf: Seq<u8>, pos: int)
    requires
        0 <= pos < buf.len(),
        st.mode == Mode::Data,
        forall|j: int| pos <= j < buf.len() ==> buf[j] != OPEN_BRACE,
        !(buf[pos] == crate::ascii::LESS_THAN && pos + 1 < buf.len() && (crate::ascii::spec_is_alpha(
            buf[pos + 1],
        ) || buf[pos + 1] == SLASH)),
    ensures
        spec_next(Layer::Expression, st, buf, pos) == spec_next(Layer::Base, st, buf, pos),
{
    let len = buf.len() as int;
    let with = ByteClass::Text { braces: true };
    let without = ByteClass::Text { braces: false };
    lemma_run_end(buf, pos + 1, len, with);
    let e = spec_run_end(buf, pos + 1, len, with);
    assert forall|j: int| pos + 1 <= j < e implies spec_in_class(without, #[trigger] buf[j]) by {
        assert(spec_in_class(with, buf[j]));
    }
    crate::ascii::lemma_run_end_unique(buf, pos + 1, len, without, e);
}

/// The content of an expression is what its braces hold, without the
/// whitespace before the closing brace and with nothing else taken away;
/// the token itself runs from the opening brace to the closing one,
/// whitespace or not.
pub proof fn law_expression_content_is_trimmed(buf: Seq<u8>, pos: int)
    requires
        0 <= pos < buf.len() <= usize::MAX,
        crate::expression::spec_expression_close(buf, pos + 1) is Some,
    ensures
        ({
            let token = crate::expression::spec_expression_token(buf, pos);
            let close = crate::expression::spec_expression_close(buf, pos + 1).unwrap();
            let content = token.fields[0].span;
            &&& token.fields.len() == 1
            &&& token.fields[0].name == crate::token::FieldName::Content
            &&& token.error is None
            &&& token.span.start == pos
            &&& token.span.end == close + 1
            &&& buf[close] == crate::ascii::CLOSE_BRACE
            &&& content.start == pos + 1
            &&& pos + 1 <= content.end <= close
            &&& forall|j: int| content.end <= j < close ==> spec_is_space(#[trigger] buf[j])
            &&& content.end > content.start ==> !spec_is_space(buf[content.end - 1])
        }),
{
    lemma_close_is_brace(buf, pos + 1, seq![SubState::Brace]);
    let close = crate::expression::spec_expression_close(buf, pos + 1).unwrap();
    crate::ascii::lemma_trim_end(buf, pos + 1, close);
}

/// The content of a raw text element is one token up to its end tag. A
/// scan that stands in the content of a raw text element, at a position
/// where its end tag does not start, yields the raw text up to the first
/// position at which that end tag starts; the end tag follows as the next
/// token, closes the element and puts the scan back into character data.
/// Where no end tag follows, the raw text runs to the end of the input and
/// is the last token.
pub proof fn law_raw_text_runs_to_its_end_tag(
    layer: Layer,
    st: ScanStateView,
    buf: Seq<u8>,
    pos: int,
)
    requires
        0 <= pos < buf.len() <= usize::MAX,
        st.mode == Mode::RawText,
        !spec_raw_end_at(buf, pos, st.elements.last().name),
    ensures
        ({
            let tokens = spec_scan(layer, st, buf, pos);
            let end = tokens[0].span.end as int;
            &&& tokens.len() >= 1
            &&& tokens[0] == TokenView::plain(TokenKind::RawText, pos, end)
            &&& pos < end <= buf.len()
            &&& forall|j: int| pos <= j < end ==> !spec_raw_end_at(buf, j, st.elements.last().name)
            &&& end == buf.len() ==> tokens.len() == 1 && spec_end_state(layer, st, buf, pos) == st
            &&& end < buf.len() ==> {
                &&& spec_raw_end_at(buf, end, st.elements.last().name)
                &&& tokens.len() >= 2
                &&& tokens[1].kind == TokenKind::EndTag
                &&& tokens[1].span.start == end
                &&& spec_after_tokens(layer, st, buf, pos, 2).0 == ScanStateView {
                    mode: Mode::Data,
                    elements: st.elements.drop_last(),
                    blocks: st.blocks,
                    pending: st.pending,
                }
            }
        }),
{
    let name = st.elements.last().name;
    let tokens = spec_scan(layer, st, buf, pos);
    let (first, after) = spec_next(layer, st, buf, pos);
    law_raw_text_is_verbatim(layer, st, buf, pos);
    lemma_next_span(layer, st, buf, pos);
    let end = first.span.end as int;
    let rest = spec_scan(layer, st, buf, end);
    assert(tokens == seq![first] + rest);
    assert(tokens[0] == first);
    if end < buf.len() {
        let (second, _last) = spec_next(layer, st, buf, end);
        law_raw_text_ends_at_end_tag(layer, st, buf, end);
        lemma_next_span(layer, st, buf, end);
        assert(rest[0] == second);
        assert(tokens[1] == rest[0]);
        assert(spec_after_tokens(layer, st, buf, pos, 2) == spec_after_tokens(
            layer,
            st,
            buf,
            end,
            1,
        ));
        assert(spec_after_tokens(
            layer,
            spec_next(layer, st, buf, end).1,
            buf,
            second.span.end as int,
            0,
        ).0 == spec_next(layer, st, buf, end).1);
    } else {
        assert(rest.len() == 0);
        assert(spec_end_state(layer, st, buf, end) == st);
    }
}

/// Every attribute token tells an attribute: the token that is scanned where
/// an attribute starts has every sub-span that its form asks for, so that
/// `attribute::attribute_of` reads an attribute from it. That attribute is
/// plain or a directive where the token starts with a name, and a shorthand
/// or a spread where it starts with a brace.
pub proof fn law_attribute_tokens_tell_attributes(buf: Seq<u8>, pos: int, braces: bool)
    requires
        0 <= pos < buf.len() <= usize::MAX,
        spec_in_class(ByteClass::AttributeName, buf[pos]),
    ensures
        crate::attribute::spec_attribute_of(spec_attribute(buf, pos, braces)) is Some,
        match crate::attribute::spec_attribute_of(spec_attribute(buf, pos, braces)).unwrap() {
            crate::attribute::AttributeView::Plain { name, value } => name.start == pos,
            crate::attribute::AttributeView::Directive { prefix, name, modifiers, value } => {
                &&& braces
                &&& prefix.start == pos
                &&& prefix.end + 1 == name.start
                &&& buf[prefix.end as int] == crate::ascii::COLON
            },
            crate::attribute::AttributeView::Shorthand { expression } => {
                &&& braces
                &&& buf[pos] == OPEN_BRACE
                &&& expression.start == pos + 1
            },
            crate::attribute::AttributeView::Spread { expression } => {
                &&& braces
                &&& buf[pos] == OPEN_BRACE
                &&& expression.start == pos + 4
                &&& buf[pos + 1] == crate::ascii::DOT
                &&& buf[pos + 2] == crate::ascii::DOT
                &&& buf[pos + 3] == crate::ascii::DOT
            },
        },
{
    let len = buf.len() as int;
    let token = spec_attribute(buf, pos, braces);
    if braces && buf[pos] == OPEN_BRACE {
        lemma_close_is_brace(buf, pos + 1, seq![SubState::Brace]);
        let stop = crate::expression::spec_expression_stop(buf, pos + 1);
        crate::ascii::lemma_trim_end(buf, pos + 1, stop);
        assert(token.fields[0].name == crate::token::FieldName::Content);
        if crate::ascii::spec_word_at(buf, pos + 1, stop, "...") {
            reveal_strlit("...");
            broadcast use vstd::string::is_ascii_spec_bytes;

            assert("...".is_ascii());
            let dots = "...".spec_bytes();
            assert(dots.len() == 3);
            assert(dots[0] == crate::ascii::DOT && dots[1] == crate::ascii::DOT && dots[2]
                == crate::ascii::DOT);
            let here = buf.subrange(pos + 1, pos + 4);
            assert(here[0] == buf[pos + 1] && here[1] == buf[pos + 2] && here[2] == buf[pos + 3]);
            assert(!spec_is_space(buf[pos + 3]));
        }
    } else {
        let n = spec_run_end(buf, pos, len, ByteClass::AttributeName);
        lemma_run_end(buf, pos, len, ByteClass::AttributeName);
        let p = spec_run_end(buf, n, len, ByteClass::Space);
        lemma_run_end(buf, n, len, ByteClass::Space);
        let v = spec_run_end(buf, p + 1, len, ByteClass::Space);
        let names = crate::attribute::spec_name_fields(buf, pos, n, braces);
        let c = spec_run_end(buf, pos, n, ByteClass::Except(crate::ascii::COLON));
        lemma_run_end(buf, pos, n, ByteClass::Except(crate::ascii::COLON));
        if p < len {
            lemma_run_end(buf, p + 1, len, ByteClass::Space);
        }
        let parts = if !(p < len && buf[p] == EQUALS) || spec_value_stop(buf, v) {
            Seq::<crate::token::Field>::empty()
        } else if buf[v] == crate::ascii::DOUBLE_QUOTE || buf[v] == crate::ascii::SINGLE_QUOTE {
            crate::attribute::spec_quoted_parts(buf, v + 1, buf[v], braces).fields
        } else {
            crate::attribute::spec_bare_parts(buf, v, braces).fields
        };
        assert(token.fields =~= names + parts);
        assert(names.len() >= 1);
        assert(token.fields[0] == names[0]);
        if crate::attribute::spec_is_directive(buf, pos, n, braces) {
            lemma_run_end(buf, c + 1, n, ByteClass::Except(crate::ascii::PIPE));
            assert(names.len() >= 2);
            assert(names[0].name == crate::token::FieldName::Directive);
            assert(names[1].name == crate::token::FieldName::Name);
            assert(token.fields[1] == names[1]);
            assert(token.fields.skip(1)[0] == token.fields[1]);
            reveal_with_fuel(crate::token::spec_first_field, 3);
            assert(crate::token::spec_first_field(token.fields, crate::token::FieldName::Name)
                == Some(names[1].span));
            assert(crate::token::spec_first_field(
                token.fields,
                crate::token::FieldName::Directive,
            ) == Some(names[0].span));
        } else {
            assert(names[0].name == crate::token::FieldName::Name);
            assert(crate::token::spec_first_field(token.fields, crate::token::FieldName::Name)
                == Some(names[0].span));
        }
    }
}

} // verus!
