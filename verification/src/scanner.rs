//! The lexical mode engine: the state that a scan carries from token to
//! token, and the step that produces the next token from it.

use vstd::prelude::*;
use vstd::string::StringSliceAdditionalSpecFns;
use crate::ascii::{
    ByteClass, AMPERSAND, BANG, COLON, DOT, EQUALS, GREATER_THAN, HASH, LESS_THAN, OPEN_BRACE,
    SLASH,
};
use crate::ascii::{
    spec_find_word, spec_in_class, spec_is_alpha, spec_is_space, spec_run_end, spec_word_at,
    spec_word_at_ignoring_case,
};
use crate::ascii::{find_word, in_class, is_alpha, is_space, run_end, word_at, word_at_ignoring_case};
use crate::attribute::{scan_attribute, segments, spec_attribute, spec_segments};
use crate::block::{BlockStack, spec_after_end, spec_branch_fits, spec_end_fits};
use crate::element::{ElementClass, Layer};
use crate::element::{classify, normalize, spec_classify, spec_normalize};
use crate::expression::{expression_token, spec_expression_token};
use crate::head::{head_token, spec_head_token, spec_is_sigil};
use crate::reference::{reference, spec_reference};
use crate::tag_stack::{OpenElementView, TagStack};
use crate::tag_stack::{
    spec_about_to_open, spec_accepted, spec_end_tag_seen, spec_find_open, spec_implied_closes,
    spec_stack_wf,
};
use crate::token::{
    BlockKind, Field, FieldName, ScanError, Span, Token, TokenKind, TokenView,
};

verus! {

/// The lexical mode: what kind of input the scanner stands in between two
/// tokens.
///
/// Inside the braces of an expression the scanner is in a mode of its own,
/// with the stack of [`crate::expression::SubState`] for its state. It
/// enters and leaves that mode within one token, since every expression is a
/// token or a part of one: no state between tokens is in it, and none has to
/// keep that stack.
#[derive(Clone, Copy, PartialEq, Eq, Debug, Structural)]
pub enum Mode {
    /// Character data, between tags.
    Data,
    /// Inside a start tag, after its name.
    TagOpen,
    /// The content of a raw text element, which is the innermost open element.
    RawText,
    /// The content of an escapable raw text element, which is the innermost
    /// open element.
    EscapableRawText,
}

/// All that a scan carries from one token to the next.
#[derive(Debug)]
pub struct ScanState {
    pub mode: Mode,
    /// The open elements.
    pub elements: TagStack,
    /// The open blocks.
    pub blocks: BlockStack,
    /// In `Mode::TagOpen`, the name of the start tag that is being scanned,
    /// as the layer keeps it; empty in the other modes.
    pub pending: Vec<u8>,
}

/// A scan state as contracts speak of it.
pub struct ScanStateView {
    pub mode: Mode,
    pub elements: Seq<OpenElementView>,
    pub blocks: Seq<BlockKind>,
    pub pending: Seq<u8>,
}

impl View for ScanState {
    type V = ScanStateView;

    open spec fn view(&self) -> ScanStateView {
        ScanStateView {
            mode: self.mode,
            elements: self.elements@,
            blocks: self.blocks@,
            pending: self.pending@,
        }
    }
}

/// The state in which a scan starts: character data, nothing open.
pub open spec fn spec_initial() -> ScanStateView {
    ScanStateView {
        mode: Mode::Data,
        elements: Seq::empty(),
        blocks: Seq::empty(),
        pending: Seq::empty(),
    }
}

/// The states that a scan can be in: every open element has the class of
/// its name, none is void, in a raw text mode the innermost open element is
/// of that class, and outside a tag no name is pending.
pub open spec fn spec_state_wf(st: ScanStateView) -> bool {
    &&& spec_stack_wf(st.elements)
    &&& st.mode != Mode::TagOpen ==> st.pending.len() == 0
    &&& st.mode == Mode::RawText ==> st.elements.len() > 0 && st.elements.last().class
        == ElementClass::RawText
    &&& st.mode == Mode::EscapableRawText ==> st.elements.len() > 0 && st.elements.last().class
        == ElementClass::EscapableRawText
}

/// A position in the input, or the end of the input where the position
/// lies beyond it.
pub open spec fn spec_clip(buf: Seq<u8>, end: int) -> int {
    if end < buf.len() {
        end
    } else {
        buf.len() as int
    }
}

/// The token that starts with the `<!` at `pos`: a comment from `<!--` to
/// the first `-->` after it; else everything up to the first `>`, which is a
/// document type where `doctype` follows the `<!`, in any case, and a
/// comment where it does not.
pub open spec fn spec_declaration(buf: Seq<u8>, pos: int) -> TokenView {
    let len = buf.len() as int;
    if spec_word_at(buf, pos + 2, len, "--") {
        let close = spec_find_word(buf, pos + 2 + "--".spec_bytes().len(), "-->");
        if close < len {
            TokenView::plain(TokenKind::Comment, pos, close + "-->".spec_bytes().len())
        } else {
            TokenView::plain(TokenKind::Comment, pos, len).with_error(
                Some(ScanError::UnterminatedConstruct),
            )
        }
    } else {
        let gt = spec_run_end(buf, pos + 2, len, ByteClass::Except(GREATER_THAN));
        let kind = if spec_word_at_ignoring_case(buf, pos + 2, len, "doctype".spec_bytes()) {
            TokenKind::Doctype
        } else {
            TokenKind::Comment
        };
        if gt < len {
            TokenView::plain(kind, pos, gt + 1)
        } else {
            TokenView::plain(kind, pos, len).with_error(Some(ScanError::UnterminatedConstruct))
        }
    }
}

/// The sub-spans of the tag name in `[s, e)`. A name without `.` and `:` is
/// one `Name`. Where its first `.` or `:` is a `:`, it is a `Namespace` and
/// a `Name`; where it is a `.`, it is an `Object` and one `Property` for
/// each part after a `.`. No name is both.
pub open spec fn spec_tag_name_fields(buf: Seq<u8>, s: int, e: int) -> Seq<Field> {
    let c = spec_run_end(buf, s, e, ByteClass::NamePart);
    if c >= e {
        seq![Field::spec_new(FieldName::Name, s, e)]
    } else if buf[c] == COLON {
        seq![Field::spec_new(FieldName::Namespace, s, c), Field::spec_new(FieldName::Name, c + 1, e)]
    } else {
        seq![Field::spec_new(FieldName::Object, s, c)] + spec_segments(
            buf,
            c,
            e,
            DOT,
            FieldName::Property,
        )
    }
}

/// The name of the tag whose name starts at `s`, as `layer` keeps it.
pub open spec fn spec_tag_name(layer: Layer, buf: Seq<u8>, s: int) -> Seq<u8> {
    spec_normalize(
        layer,
        buf.subrange(s, spec_run_end(buf, s, buf.len() as int, ByteClass::TagName)),
    )
}

/// `<` and a name, at `pos`. The open elements that this start tag closes
/// are closed, the token says how many they are, and the scan goes on
/// inside the tag.
pub open spec fn spec_start_tag_open(layer: Layer, st: ScanStateView, buf: Seq<u8>, pos: int) -> (
    TokenView,
    ScanStateView,
) {
    let e = spec_run_end(buf, pos + 1, buf.len() as int, ByteClass::TagName);
    let name = spec_tag_name(layer, buf, pos + 1);
    (
        TokenView {
            kind: TokenKind::StartTagOpen,
            span: Span::spec_new(pos, e),
            fields: spec_tag_name_fields(buf, pos + 1, e),
            implicit_closes: spec_implied_closes(st.elements, name) as usize,
            error: None,
        },
        ScanStateView {
            mode: Mode::TagOpen,
            elements: spec_about_to_open(st.elements, name),
            blocks: st.blocks,
            pending: name,
        },
    )
}

/// The state after the start tag that is being scanned has ended, with `>`
/// or with `/>`: its element is open unless it is void or the tag closed
/// itself, and the scan goes on in the content mode of that element.
pub open spec fn spec_tag_accepted(st: ScanStateView, self_closing: bool) -> ScanStateView {
    ScanStateView {
        mode: if self_closing {
            Mode::Data
        } else {
            match spec_classify(st.pending) {
                ElementClass::RawText => Mode::RawText,
                ElementClass::EscapableRawText => Mode::EscapableRawText,
                _ => Mode::Data,
            }
        },
        elements: spec_accepted(st.elements, st.pending, self_closing),
        blocks: st.blocks,
        pending: Seq::empty(),
    }
}

/// An end tag in character data, at `pos`: `</`, a name, and everything up
/// to the first `>`. The innermost open element of that name is closed, and
/// with it every element above it; the token says how many those are. Where
/// no open element has the name, nothing is closed and the token is marked.
pub open spec fn spec_end_tag(layer: Layer, st: ScanStateView, buf: Seq<u8>, pos: int) -> (
    TokenView,
    ScanStateView,
) {
    let len = buf.len() as int;
    let e = spec_run_end(buf, pos + 2, len, ByteClass::TagName);
    let gt = spec_run_end(buf, e, len, ByteClass::Except(GREATER_THAN));
    let name = spec_tag_name(layer, buf, pos + 2);
    let found = spec_find_open(st.elements, name);
    (
        TokenView {
            kind: TokenKind::EndTag,
            span: Span::spec_new(pos, spec_clip(buf, gt + 1)),
            fields: spec_tag_name_fields(buf, pos + 2, e),
            implicit_closes: if found >= 0 {
                (st.elements.len() - 1 - found) as usize
            } else {
                0
            },
            error: if gt >= len {
                Some(ScanError::UnterminatedConstruct)
            } else if found < 0 {
                Some(ScanError::MismatchedClose)
            } else {
                None
            },
        },
        ScanStateView {
            mode: Mode::Data,
            elements: spec_end_tag_seen(st.elements, name),
            blocks: st.blocks,
            pending: st.pending,
        },
    )
}

/// What a head token does to the open blocks, and what they do to it: a
/// block start opens a block; a block end closes the innermost block where
/// it is of its kind; a branch changes nothing; and a branch or block end
/// that is out of place is marked and changes nothing.
pub open spec fn spec_apply_head(st: ScanStateView, token: TokenView) -> (TokenView, ScanStateView) {
    match token.kind {
        TokenKind::BlockStart(kind) => (
            token,
            ScanStateView { blocks: st.blocks.push(kind), ..st },
        ),
        TokenKind::BlockBranch(branch) => if spec_branch_fits(st.blocks, branch) {
            (token, st)
        } else {
            (token.with_error(Some(ScanError::MismatchedClose)), st)
        },
        TokenKind::BlockEnd(kind) => if spec_end_fits(st.blocks, kind) {
            (token, ScanStateView { blocks: spec_after_end(st.blocks, kind), ..st })
        } else {
            (token.with_error(Some(ScanError::MismatchedClose)), st)
        },
        _ => (token, st),
    }
}

/// Character data from `pos` on: the byte at `pos`, whatever it is, and
/// every byte after it that cannot open anything.
pub open spec fn spec_text(buf: Seq<u8>, pos: int, class: ByteClass) -> TokenView {
    TokenView::plain(
        TokenKind::Text,
        pos,
        spec_run_end(buf, pos + 1, buf.len() as int, class),
    )
}

/// The next token in character data.
pub open spec fn spec_in_data(layer: Layer, st: ScanStateView, buf: Seq<u8>, pos: int) -> (
    TokenView,
    ScanStateView,
) {
    let len = buf.len() as int;
    let b = buf[pos];
    let text = (spec_text(buf, pos, ByteClass::Text { braces: layer.spec_has_expressions() }), st);
    if b == LESS_THAN {
        if pos + 1 < len && buf[pos + 1] == BANG {
            (spec_declaration(buf, pos), st)
        } else if pos + 2 < len && buf[pos + 1] == SLASH && spec_is_alpha(buf[pos + 2]) {
            spec_end_tag(layer, st, buf, pos)
        } else if pos + 1 < len && spec_is_alpha(buf[pos + 1]) {
            spec_start_tag_open(layer, st, buf, pos)
        } else {
            text
        }
    } else if b == OPEN_BRACE && layer.spec_has_expressions() {
        if layer.spec_has_blocks() && pos + 1 < len && spec_is_sigil(buf[pos + 1]) {
            spec_apply_head(st, spec_head_token(buf, pos))
        } else {
            (spec_expression_token(buf, pos), st)
        }
    } else if b == AMPERSAND {
        match spec_reference(buf, pos) {
            Some((kind, end)) => (
                TokenView::plain(TokenKind::CharacterReference(kind), pos, end),
                st,
            ),
            None => text,
        }
    } else {
        text
    }
}

/// The next token inside a start tag.
pub open spec fn spec_in_tag(layer: Layer, st: ScanStateView, buf: Seq<u8>, pos: int) -> (
    TokenView,
    ScanStateView,
) {
    let len = buf.len() as int;
    let b = buf[pos];
    if spec_is_space(b) {
        (
            TokenView::plain(TokenKind::TagSpace, pos, spec_run_end(buf, pos, len, ByteClass::Space)),
            st,
        )
    } else if b == GREATER_THAN {
        (TokenView::plain(TokenKind::StartTagClose, pos, pos + 1), spec_tag_accepted(st, false))
    } else if b == SLASH && pos + 1 < len && buf[pos + 1] == GREATER_THAN {
        (
            TokenView::plain(TokenKind::SelfClosingTagClose, pos, pos + 2),
            spec_tag_accepted(st, true),
        )
    } else if b == SLASH || b == EQUALS {
        (TokenView::plain(TokenKind::Stray, pos, pos + 1), st)
    } else {
        (spec_attribute(buf, pos, layer.spec_has_expressions()), st)
    }
}

/// Whether the end tag of `name` starts at `pos`: `</`, the name in any
/// case, and no further byte of a tag name.
pub open spec fn spec_raw_end_at(buf: Seq<u8>, pos: int, name: Seq<u8>) -> bool {
    &&& 0 <= pos
    &&& pos + 2 <= buf.len()
    &&& buf[pos] == LESS_THAN
    &&& buf[pos + 1] == SLASH
    &&& spec_word_at_ignoring_case(buf, pos + 2, buf.len() as int, name)
    &&& (pos + 2 + name.len() == buf.len() || !spec_in_class(
        ByteClass::TagName,
        buf[pos + 2 + name.len()],
    ))
}

/// The end of the run of raw text from `pos` on: the first position at
/// which the end tag of `name` starts or, where `references` is set, an `&`
/// stands; the end of the input where there is none.
pub open spec fn spec_raw_run_end(buf: Seq<u8>, pos: int, name: Seq<u8>, references: bool) -> int
    decreases buf.len() - pos,
{
    if pos < 0 || pos >= buf.len() {
        buf.len() as int
    } else if spec_raw_end_at(buf, pos, name) || (references && buf[pos] == AMPERSAND) {
        pos
    } else {
        spec_raw_run_end(buf, pos + 1, name, references)
    }
}

/// `spec_raw_run_end` is the first position at which the run must end: no
/// end tag of the name starts before it and, where `references` is set, no
/// `&` stands before it, and one of the two stands at it unless it is the
/// end of the input.
pub proof fn lemma_raw_run_end(buf: Seq<u8>, pos: int, name: Seq<u8>, references: bool)
    requires
        0 <= pos <= buf.len(),
    ensures
        pos <= spec_raw_run_end(buf, pos, name, references) <= buf.len(),
        forall|j: int|
            pos <= j < spec_raw_run_end(buf, pos, name, references) ==> !spec_raw_end_at(
                buf,
                j,
                name,
            ),
        references ==> forall|j: int|
            pos <= j < spec_raw_run_end(buf, pos, name, references) ==> buf[j] != AMPERSAND,
        spec_raw_run_end(buf, pos, name, references) < buf.len() ==> spec_raw_end_at(
            buf,
            spec_raw_run_end(buf, pos, name, references),
            name,
        ) || (references && buf[spec_raw_run_end(buf, pos, name, references)] == AMPERSAND),
    decreases buf.len() - pos,
{
    if pos < buf.len() && !(spec_raw_end_at(buf, pos, name) || (references && buf[pos]
        == AMPERSAND)) {
        lemma_raw_run_end(buf, pos + 1, name, references);
    }
}

/// The end tag that closes a raw text element, at `pos`: the innermost open
/// element is closed, and the scan goes on in character data.
pub open spec fn spec_raw_end_tag(st: ScanStateView, buf: Seq<u8>, pos: int) -> (
    TokenView,
    ScanStateView,
) {
    let len = buf.len() as int;
    let e = pos + 2 + st.elements.last().name.len();
    let gt = spec_run_end(buf, e, len, ByteClass::Except(GREATER_THAN));
    (
        TokenView {
            kind: TokenKind::EndTag,
            span: Span::spec_new(pos, spec_clip(buf, gt + 1)),
            fields: seq![Field::spec_new(FieldName::Name, pos + 2, e)],
            implicit_closes: 0,
            error: if gt >= len {
                Some(ScanError::UnterminatedConstruct)
            } else {
                None
            },
        },
        ScanStateView {
            mode: Mode::Data,
            elements: st.elements.drop_last(),
            blocks: st.blocks,
            pending: st.pending,
        },
    )
}

/// The next token in the content of a raw text element, or, where
/// `references` is set, of an escapable raw text element. Nothing but the
/// end tag of the element ends the content, and nothing but that end tag
/// and, where `references` is set, character references is told from text.
pub open spec fn spec_in_raw_text(st: ScanStateView, buf: Seq<u8>, pos: int, references: bool) -> (
    TokenView,
    ScanStateView,
) {
    let name = st.elements.last().name;
    let run = spec_raw_run_end(buf, pos + 1, name, references);
    if spec_raw_end_at(buf, pos, name) {
        spec_raw_end_tag(st, buf, pos)
    } else if !references {
        (TokenView::plain(TokenKind::RawText, pos, run), st)
    } else if buf[pos] == AMPERSAND && spec_reference(buf, pos) is Some {
        (
            TokenView::plain(
                TokenKind::CharacterReference(spec_reference(buf, pos).unwrap().0),
                pos,
                spec_reference(buf, pos).unwrap().1,
            ),
            st,
        )
    } else {
        (TokenView::plain(TokenKind::Text, pos, run), st)
    }
}

/// The next token of a scan of `buf` that stands at `pos` in the state
/// `st`, and the state after it.
pub open spec fn spec_next(layer: Layer, st: ScanStateView, buf: Seq<u8>, pos: int) -> (
    TokenView,
    ScanStateView,
) {
    match st.mode {
        Mode::Data => spec_in_data(layer, st, buf, pos),
        Mode::TagOpen => spec_in_tag(layer, st, buf, pos),
        Mode::RawText => spec_in_raw_text(st, buf, pos, false),
        Mode::EscapableRawText => spec_in_raw_text(st, buf, pos, true),
    }
}

impl ScanState {
    /// Whether the state is one that a scan can be in.
    pub open spec fn wf(&self) -> bool {
        spec_state_wf(self@)
    }

    /// The state in which a scan starts.
    pub fn new() -> (state: ScanState)
        ensures
            state@ == spec_initial(),
            state.wf(),
    {
        ScanState {
            mode: Mode::Data,
            elements: TagStack::new(),
            blocks: BlockStack::new(),
            pending: Vec::new(),
        }
    }

    /// In a raw text mode, the name of the element whose content is
    /// scanned: that of the innermost open element.
    pub fn raw_text_name(&self) -> (name: Option<&[u8]>)
        requires
            self.wf(),
        ensures
            match name {
                Some(n) => (self.mode == Mode::RawText || self.mode == Mode::EscapableRawText)
                    && n@ == self@.elements.last().name,
                None => self.mode == Mode::Data || self.mode == Mode::TagOpen,
            },
    {
        match self.mode {
            Mode::RawText | Mode::EscapableRawText => {
                let depth = self.elements.entries.len();
                assert(self.elements@.last() == self.elements.entries@[depth - 1]@);
                Some(self.elements.entries[depth - 1].name.as_slice())
            },
            _ => None,
        }
    }

    /// A copy of the state, to keep while the scan goes on.
    pub fn snapshot(&self) -> (copy: ScanState)
        ensures
            copy@ == self@,
    {
        ScanState {
            mode: self.mode,
            elements: self.elements.snapshot(),
            blocks: self.blocks.snapshot(),
            pending: vstd::slice::slice_to_vec(self.pending.as_slice()),
        }
    }
}

fn unterminated(kind: TokenKind, start: usize, end: usize) -> (token: Token)
    ensures
        token@ == TokenView::plain(kind, start as int, end as int).with_error(
            Some(ScanError::UnterminatedConstruct),
        ),
{
    Token {
        kind,
        span: Span::new(start, end),
        fields: Vec::new(),
        implicit_closes: 0,
        error: Some(ScanError::UnterminatedConstruct),
    }
}

fn declaration(buf: &[u8], pos: usize) -> (token: Token)
    requires
        pos + 1 < buf@.len(),
    ensures
        token@ == spec_declaration(buf@, pos as int),
        token.span.start == pos,
        pos < token.span.end <= buf@.len(),
{
    let len = buf.len();
    if word_at(buf, pos + 2, len, "--") {
        let close = find_word(buf, pos + 2 + "--".len(), "-->");
        if close < len {
            Token::plain(TokenKind::Comment, pos, close + "-->".len())
        } else {
            unterminated(TokenKind::Comment, pos, len)
        }
    } else {
        let gt = run_end(buf, pos + 2, len, ByteClass::Except(GREATER_THAN));
        let kind = if word_at_ignoring_case(buf, pos + 2, len, "doctype".as_bytes()) {
            TokenKind::Doctype
        } else {
            TokenKind::Comment
        };
        if gt < len {
            Token::plain(kind, pos, gt + 1)
        } else {
            unterminated(kind, pos, len)
        }
    }
}

fn tag_name_fields(buf: &[u8], s: usize, e: usize) -> (fields: Vec<Field>)
    requires
        s <= e <= buf@.len(),
    ensures
        fields@ == spec_tag_name_fields(buf@, s as int, e as int),
{
    let mut fields: Vec<Field> = Vec::new();
    let c = run_end(buf, s, e, ByteClass::NamePart);
    if c >= e {
        fields.push(Field::new(FieldName::Name, s, e));
        assert(fields@ =~= seq![Field::spec_new(FieldName::Name, s as int, e as int)]);
    } else if buf[c] == COLON {
        fields.push(Field::new(FieldName::Namespace, s, c));
        fields.push(Field::new(FieldName::Name, c + 1, e));
        assert(fields@ =~= seq![
            Field::spec_new(FieldName::Namespace, s as int, c as int),
            Field::spec_new(FieldName::Name, c + 1, e as int),
        ]);
    } else {
        fields.push(Field::new(FieldName::Object, s, c));
        assert(fields@ =~= seq![Field::spec_new(FieldName::Object, s as int, c as int)]);
        segments(buf, c, e, DOT, FieldName::Property, &mut fields);
    }
    fields
}

/// The name of the tag whose name starts at `s`, as `layer` keeps it, and
/// the position at which the name ends.
fn tag_name(layer: Layer, buf: &[u8], s: usize) -> (r: (Vec<u8>, usize))
    requires
        s <= buf@.len(),
    ensures
        r.0@ == spec_tag_name(layer, buf@, s as int),
        r.1 == spec_run_end(buf@, s as int, buf@.len() as int, ByteClass::TagName),
        s <= r.1 <= buf@.len(),
{
    let e = run_end(buf, s, buf.len(), ByteClass::TagName);
    let name = normalize(layer, vstd::slice::slice_subrange(buf, s, e));
    (name, e)
}

fn start_tag_open(layer: Layer, state: &mut ScanState, buf: &[u8], pos: usize) -> (token: Token)
    requires
        pos + 1 < buf@.len(),
        spec_is_alpha(buf@[pos + 1]),
        old(state).wf(),
    ensures
        (token@, final(state)@) == spec_start_tag_open(layer, old(state)@, buf@, pos as int),
        final(state).wf(),
        token.span.start == pos,
        pos < token.span.end <= buf@.len(),
{
    let len = buf.len();
    let (name, e) = tag_name(layer, buf, pos + 1);
    let closed = state.elements.on_start_tag_about_to_open(name.as_slice());
    state.mode = Mode::TagOpen;
    state.pending = name;
    Token {
        kind: TokenKind::StartTagOpen,
        span: Span::new(pos, e),
        fields: tag_name_fields(buf, pos + 1, e),
        implicit_closes: closed,
        error: None,
    }
}

fn tag_accepted(state: &mut ScanState, self_closing: bool)
    requires
        old(state).wf(),
    ensures
        final(state)@ == spec_tag_accepted(old(state)@, self_closing),
        final(state).wf(),
{
    let class = classify(state.pending.as_slice());
    let pushed = state.elements.on_start_tag_accepted(state.pending.as_slice(), self_closing);
    state.mode = if self_closing {
        Mode::Data
    } else {
        match class {
            ElementClass::RawText => Mode::RawText,
            ElementClass::EscapableRawText => Mode::EscapableRawText,
            _ => Mode::Data,
        }
    };
    state.pending = Vec::new();
}

fn end_tag(layer: Layer, state: &mut ScanState, buf: &[u8], pos: usize) -> (token: Token)
    requires
        pos + 2 < buf@.len(),
        old(state).wf(),
        old(state)@.mode == Mode::Data,
    ensures
        (token@, final(state)@) == spec_end_tag(layer, old(state)@, buf@, pos as int),
        final(state).wf(),
        token.span.start == pos,
        pos < token.span.end <= buf@.len(),
{
    let len = buf.len();
    let (name, e) = tag_name(layer, buf, pos + 2);
    let gt = run_end(buf, e, len, ByteClass::Except(GREATER_THAN));
    let depth = state.elements.depth();
    let found = state.elements.on_end_tag_seen(name.as_slice());
    state.mode = Mode::Data;
    let closed: usize = match found {
        Some(n) => n,
        None => 0,
    };
    let error = if gt >= len {
        Some(ScanError::UnterminatedConstruct)
    } else if found.is_none() {
        Some(ScanError::MismatchedClose)
    } else {
        None
    };
    Token {
        kind: TokenKind::EndTag,
        span: Span::new(
            pos,
            if gt < len {
                gt + 1
            } else {
                len
            },
        ),
        fields: tag_name_fields(buf, pos + 2, e),
        implicit_closes: closed,
        error,
    }
}

fn apply_head(state: &mut ScanState, token: Token) -> (out: Token)
    requires
        old(state).wf(),
    ensures
        (out@, final(state)@) == spec_apply_head(old(state)@, token@),
        final(state).wf(),
        final(state)@.mode == old(state)@.mode,
        out.span == token.span,
{
    let mut token = token;
    match token.kind {
        TokenKind::BlockStart(kind) => {
            state.blocks.on_block_start(kind);
        },
        TokenKind::BlockBranch(branch) => {
            if !state.blocks.on_branch(branch) {
                token.error = Some(ScanError::MismatchedClose);
            }
        },
        TokenKind::BlockEnd(kind) => {
            if !state.blocks.on_block_end(kind) {
                token.error = Some(ScanError::MismatchedClose);
            }
        },
        _ => {},
    }
    token
}

fn text(buf: &[u8], pos: usize, class: ByteClass) -> (token: Token)
    requires
        pos < buf@.len(),
    ensures
        token@ == spec_text(buf@, pos as int, class),
        token.span.start == pos,
        pos < token.span.end <= buf@.len(),
{
    let len = buf.len();
    Token::plain(TokenKind::Text, pos, run_end(buf, pos + 1, len, class))
}

fn in_data(layer: Layer, state: &mut ScanState, buf: &[u8], pos: usize) -> (token: Token)
    requires
        pos < buf@.len(),
        old(state).wf(),
        old(state)@.mode == Mode::Data,
    ensures
        (token@, final(state)@) == spec_in_data(layer, old(state)@, buf@, pos as int),
        final(state).wf(),
        token.span.start == pos,
        pos < token.span.end <= buf@.len(),
{
    let len = buf.len();
    let b = buf[pos];
    let class = ByteClass::Text { braces: layer.has_expressions() };
    if b == LESS_THAN {
        if pos + 1 < len && buf[pos + 1] == BANG {
            declaration(buf, pos)
        } else if pos + 1 < len && pos + 2 < len && buf[pos + 1] == SLASH && is_alpha(
            buf[pos + 2],
        ) {
            end_tag(layer, state, buf, pos)
        } else if pos + 1 < len && is_alpha(buf[pos + 1]) {
            start_tag_open(layer, state, buf, pos)
        } else {
            text(buf, pos, class)
        }
    } else if b == OPEN_BRACE && layer.has_expressions() {
        if layer.has_blocks() && pos + 1 < len && is_sigil(buf[pos + 1]) {
            let token = head_token(buf, pos);
            apply_head(state, token)
        } else {
            expression_token(buf, pos)
        }
    } else if b == AMPERSAND {
        match reference(buf, pos) {
            Some((kind, end)) => Token::plain(TokenKind::CharacterReference(kind), pos, end),
            None => text(buf, pos, class),
        }
    } else {
        text(buf, pos, class)
    }
}

fn is_sigil(b: u8) -> (r: bool)
    ensures
        r == spec_is_sigil(b),
{
    b == HASH || b == COLON || b == SLASH || b == crate::ascii::AT
}

fn in_tag(layer: Layer, state: &mut ScanState, buf: &[u8], pos: usize) -> (token: Token)
    requires
        pos < buf@.len(),
        old(state).wf(),
        old(state)@.mode == Mode::TagOpen,
    ensures
        (token@, final(state)@) == spec_in_tag(layer, old(state)@, buf@, pos as int),
        final(state).wf(),
        token.span.start == pos,
        pos < token.span.end <= buf@.len(),
{
    let len = buf.len();
    let b = buf[pos];
    if is_space(b) {
        Token::plain(TokenKind::TagSpace, pos, run_end(buf, pos, len, ByteClass::Space))
    } else if b == GREATER_THAN {
        tag_accepted(state, false);
        Token::plain(TokenKind::StartTagClose, pos, pos + 1)
    } else if b == SLASH && pos + 1 < len && buf[pos + 1] == GREATER_THAN {
        tag_accepted(state, true);
        Token::plain(TokenKind::SelfClosingTagClose, pos, pos + 2)
    } else if b == SLASH || b == EQUALS {
        Token::plain(TokenKind::Stray, pos, pos + 1)
    } else {
        scan_attribute(buf, pos, layer.has_expressions())
    }
}

fn raw_end_at(buf: &[u8], pos: usize, name: &[u8]) -> (r: bool)
    requires
        pos <= buf@.len(),
    ensures
        r == spec_raw_end_at(buf@, pos as int, name@),
{
    let len = buf.len();
    if len - pos < 2 {
        return false;
    }
    if buf[pos] != LESS_THAN || buf[pos + 1] != SLASH {
        return false;
    }
    if !word_at_ignoring_case(buf, pos + 2, len, name) {
        return false;
    }
    let after: usize = pos + 2 + name.len();
    after == len || !in_class(ByteClass::TagName, buf[after])
}

fn raw_run_end(buf: &[u8], from: usize, name: &[u8], references: bool) -> (e: usize)
    requires
        from <= buf@.len(),
    ensures
        e == spec_raw_run_end(buf@, from as int, name@, references),
        from <= e <= buf@.len(),
{
    let len = buf.len();
    let mut i: usize = from;
    while i < len && !(raw_end_at(buf, i, name) || (references && buf[i] == AMPERSAND))
        invariant
            from <= i <= len,
            len == buf@.len(),
            spec_raw_run_end(buf@, from as int, name@, references) == spec_raw_run_end(
                buf@,
                i as int,
                name@,
                references,
            ),
        decreases len - i,
    {
        i += 1;
    }
    i
}

fn in_raw_text(state: &mut ScanState, buf: &[u8], pos: usize, references: bool) -> (token: Token)
    requires
        pos < buf@.len(),
        old(state).wf(),
        old(state)@.mode == if references {
            Mode::EscapableRawText
        } else {
            Mode::RawText
        },
    ensures
        (token@, final(state)@) == spec_in_raw_text(old(state)@, buf@, pos as int, references),
        final(state).wf(),
        token.span.start == pos,
        pos < token.span.end <= buf@.len(),
{
    let len = buf.len();
    let depth = state.elements.entries.len();
    assert(state.elements@.last() == state.elements.entries@[depth - 1]@);
    let name = state.elements.entries[depth - 1].name.as_slice();
    if raw_end_at(buf, pos, name) {
        let e: usize = pos + 2 + name.len();
        let gt = run_end(buf, e, len, ByteClass::Except(GREATER_THAN));
        state.elements.pop();
        state.mode = Mode::Data;
        let mut fields: Vec<Field> = Vec::new();
        fields.push(Field::new(FieldName::Name, pos + 2, e));
        assert(fields@ =~= seq![Field::spec_new(FieldName::Name, pos + 2, e as int)]);
        return Token {
            kind: TokenKind::EndTag,
            span: Span::new(
                pos,
                if gt < len {
                    gt + 1
                } else {
                    len
                },
            ),
            fields,
            implicit_closes: 0,
            error: if gt >= len {
                Some(ScanError::UnterminatedConstruct)
            } else {
                None
            },
        };
    }
    let run = raw_run_end(buf, pos + 1, name, references);
    if !references {
        return Token::plain(TokenKind::RawText, pos, run);
    }
    if buf[pos] == AMPERSAND {
        match reference(buf, pos) {
            Some((kind, end)) => {
                return Token::plain(TokenKind::CharacterReference(kind), pos, end);
            },
            None => {},
        }
    }
    Token::plain(TokenKind::Text, pos, run)
}

/// Produces the next token of a scan of `buf` that stands at `pos` in the
/// state `state`, and moves the state on. The token starts at `pos` and is
/// not empty; the scan goes on where it ends.
pub fn next_token(layer: Layer, state: &mut ScanState, buf: &[u8], pos: usize) -> (token: Token)
    requires
        pos < buf@.len(),
        old(state).wf(),
    ensures
        (token@, final(state)@) == spec_next(layer, old(state)@, buf@, pos as int),
        final(state).wf(),
        token.span.start == pos,
        pos < token.span.end <= buf@.len(),
{
    match state.mode {
        Mode::Data => in_data(layer, state, buf, pos),
        Mode::TagOpen => in_tag(layer, state, buf, pos),
        Mode::RawText => in_raw_text(state, buf, pos, false),
        Mode::EscapableRawText => in_raw_text(state, buf, pos, true),
    }
}

} // verus!
