//! Whole scans: every token from a position to the end of the input, and
//! what is left open there.

use vstd::prelude::*;
use crate::element::Layer;
use crate::scanner::{Mode, ScanState, ScanStateView};
use crate::scanner::{next_token, spec_initial, spec_next};
use crate::tag_stack::spec_names_innermost_first;
use crate::token::{BlockKind, ScanError, Token, TokenView};

verus! {

/// Where a scan goes on after a token that started at `pos` and ends at
/// `end`: at `end`. (A token that did not end after its start and inside
/// the input would end the scan; by `laws::lemma_next_span` there is no
/// such token.)
pub open spec fn spec_advance(buf: Seq<u8>, pos: int, end: int) -> int {
    if pos < end <= buf.len() {
        end
    } else {
        buf.len() as int
    }
}

/// The tokens of a scan of `buf` from `pos` to the end, which starts in the
/// state `st`.
pub open spec fn spec_scan(layer: Layer, st: ScanStateView, buf: Seq<u8>, pos: int) -> Seq<
    TokenView,
>
    decreases buf.len() - pos,
{
    if pos < 0 || pos >= buf.len() {
        Seq::empty()
    } else {
        let (token, after) = spec_next(layer, st, buf, pos);
        seq![token] + spec_scan(layer, after, buf, spec_advance(buf, pos, token.span.end as int))
    }
}

/// The state at the end of a scan of `buf` from `pos`, which starts in the
/// state `st`.
pub open spec fn spec_end_state(layer: Layer, st: ScanStateView, buf: Seq<u8>, pos: int) -> ScanStateView
    decreases buf.len() - pos,
{
    if pos < 0 || pos >= buf.len() {
        st
    } else {
        let (token, after) = spec_next(layer, st, buf, pos);
        spec_end_state(layer, after, buf, spec_advance(buf, pos, token.span.end as int))
    }
}

/// The state and the position of a scan of `buf` after `k` tokens, which
/// starts at `pos` in the state `st`.
pub open spec fn spec_after_tokens(
    layer: Layer,
    st: ScanStateView,
    buf: Seq<u8>,
    pos: int,
    k: nat,
) -> (ScanStateView, int)
    decreases k,
{
    if k == 0 || pos < 0 || pos >= buf.len() {
        (st, pos)
    } else {
        let (token, after) = spec_next(layer, st, buf, pos);
        spec_after_tokens(
            layer,
            after,
            buf,
            spec_advance(buf, pos, token.span.end as int),
            (k - 1) as nat,
        )
    }
}

/// The tokens as contracts speak of them.
pub open spec fn spec_views(tokens: Seq<Token>) -> Seq<TokenView> {
    Seq::new(tokens.len(), |i: int| tokens[i]@)
}

/// Whether the tokens tile `[from, to)`: the first starts at `from`, each
/// other starts where the one before it ends, the last ends at `to`, and
/// none is empty.
pub open spec fn spec_tiles(tokens: Seq<TokenView>, from: int, to: int) -> bool {
    &&& tokens.len() == 0 ==> from == to
    &&& tokens.len() > 0 ==> tokens[0].span.start == from && tokens.last().span.end == to
    &&& forall|i: int|
        0 <= i < tokens.len() ==> (#[trigger] tokens[i]).span.start < tokens[i].span.end
    &&& forall|i: int, j: int|
        0 <= i && j == i + 1 && j < tokens.len() ==> (#[trigger] tokens[j]).span.start == (
        #[trigger] tokens[i]).span.end
}

/// The bytes that the tokens cover, one token after the other.
pub open spec fn spec_concat(buf: Seq<u8>, tokens: Seq<TokenView>) -> Seq<u8>
    decreases tokens.len(),
{
    if tokens.len() == 0 {
        Seq::empty()
    } else {
        spec_concat(buf, tokens.drop_last()) + tokens.last().span.spec_bytes_of(buf)
    }
}

/// Tokens that tile a range of the input cover exactly the bytes of that
/// range, each once and in order.
pub proof fn lemma_tiles_concat(buf: Seq<u8>, tokens: Seq<TokenView>, from: int, to: int)
    requires
        0 <= from,
        to <= buf.len(),
        spec_tiles(tokens, from, to),
    ensures
        from <= to,
        spec_concat(buf, tokens) == buf.subrange(from, to),
    decreases tokens.len(),
{
    if tokens.len() == 0 {
        assert(spec_concat(buf, tokens) =~= buf.subrange(from, to));
    } else {
        let head = tokens.drop_last();
        let last = tokens.last();
        let mid = last.span.start as int;
        assert forall|i: int| 0 <= i < head.len() implies (#[trigger] head[i]).span.start
            < head[i].span.end by {
            assert(head[i] == tokens[i]);
        }
        assert forall|i: int, j: int| 0 <= i && j == i + 1 && j < head.len() implies (
        #[trigger] head[j]).span.start == (#[trigger] head[i]).span.end by {
            assert(head[i] == tokens[i]);
            assert(head[j] == tokens[j]);
        }
        if head.len() > 0 {
            assert(head[0] == tokens[0]);
            assert(head.last() == tokens[tokens.len() - 2]);
            assert(tokens[tokens.len() - 1].span.start == tokens[tokens.len() - 2].span.end);
        } else {
            assert(tokens[0] == last);
        }
        assert(spec_tiles(head, from, mid));
        assert(tokens[tokens.len() - 1].span.start < last.span.end);
        lemma_tiles_concat(buf, head, from, mid);
        assert(last.span.spec_bytes_of(buf) == buf.subrange(mid, to));
        assert(buf.subrange(from, mid) + buf.subrange(mid, to) =~= buf.subrange(from, to));
    }
}

/// What a scan leaves at the end of the input.
#[derive(Debug)]
pub struct EndOfInput {
    /// Set where the input ended inside a start tag or inside the content
    /// of a raw text or escapable raw text element.
    pub error: Option<ScanError>,
    /// The names of the elements that were still open, innermost first.
    /// All of them are closed without an end tag.
    pub elements: Vec<Vec<u8>>,
    /// The kinds of the blocks that were still open, innermost first.
    pub blocks: Vec<BlockKind>,
}

/// Scans `buf` from `pos` to its end, starting in the state `state`, which
/// is the state that a scan of the same bytes before `pos` reached there.
/// Returns the tokens and the state at the end.
pub fn resume(layer: Layer, state: ScanState, buf: &[u8], pos: usize) -> (r: (Vec<Token>, ScanState))
    requires
        state.wf(),
        pos <= buf@.len(),
    ensures
        spec_views(r.0@) == spec_scan(layer, state@, buf@, pos as int),
        r.1@ == spec_end_state(layer, state@, buf@, pos as int),
        r.1.wf(),
        spec_tiles(spec_views(r.0@), pos as int, buf@.len() as int),
        spec_concat(buf@, spec_views(r.0@)) == buf@.subrange(pos as int, buf@.len() as int),
{
    let ghost start = state@;
    let len = buf.len();
    let mut state = state;
    let mut tokens: Vec<Token> = Vec::new();
    let mut at: usize = pos;
    assert(spec_views(tokens@) + spec_scan(layer, state@, buf@, at as int) =~= spec_scan(
        layer,
        start,
        buf@,
        pos as int,
    ));
    while at < len
        invariant
            pos <= at <= len,
            len == buf@.len(),
            state.wf(),
            spec_views(tokens@) + spec_scan(layer, state@, buf@, at as int) == spec_scan(
                layer,
                start,
                buf@,
                pos as int,
            ),
            spec_end_state(layer, state@, buf@, at as int) == spec_end_state(
                layer,
                start,
                buf@,
                pos as int,
            ),
            spec_tiles(spec_views(tokens@), pos as int, at as int),
        decreases len - at,
    {
        let ghost before = state@;
        let ghost done = spec_views(tokens@);
        let token = next_token(layer, &mut state, buf, at);
        let ghost view = token@;
        let next = token.span.end;
        tokens.push(token);
        proof {
            assert(spec_views(tokens@) =~= done.push(view));
            let rest = spec_scan(layer, state@, buf@, next as int);
            assert(done + (seq![view] + rest) =~= done.push(view) + rest);
            let all = spec_views(tokens@);
            assert forall|i: int| 0 <= i < all.len() implies (#[trigger] all[i]).span.start
                < all[i].span.end by {
                if i < done.len() {
                    assert(all[i] == done[i]);
                }
            }
            assert forall|i: int, j: int| 0 <= i && j == i + 1 && j < all.len() implies (
            #[trigger] all[j]).span.start == (#[trigger] all[i]).span.end by {
                assert(all[i] == done[i]);
                if j < done.len() {
                    assert(all[j] == done[j]);
                }
            }
            if done.len() > 0 {
                assert(all[0] == done[0]);
            }
        }
        at = next;
    }
    proof {
        assert(spec_views(tokens@) + Seq::<TokenView>::empty() =~= spec_views(tokens@));
        lemma_tiles_concat(buf@, spec_views(tokens@), pos as int, len as int);
    }
    (tokens, state)
}

/// Scans the whole of `buf`. Returns the tokens, which cover every byte of
/// `buf` once and in order, and the state at the end.
pub fn tokenize(layer: Layer, buf: &[u8]) -> (r: (Vec<Token>, ScanState))
    ensures
        spec_views(r.0@) == spec_scan(layer, spec_initial(), buf@, 0),
        r.1@ == spec_end_state(layer, spec_initial(), buf@, 0),
        r.1.wf(),
        spec_tiles(spec_views(r.0@), 0, buf@.len() as int),
        spec_concat(buf@, spec_views(r.0@)) == buf@,
{
    let r = resume(layer, ScanState::new(), buf, 0);
    assert(buf@.subrange(0, buf@.len() as int) =~= buf@);
    r
}

/// Ends a scan at the end of the input: closes everything that is still
/// open, innermost first, and says whether the input ended inside a
/// construct.
pub fn finish(state: ScanState) -> (end: EndOfInput)
    ensures
        end.error == if state@.mode == Mode::Data {
            None
        } else {
            Some(ScanError::UnterminatedConstruct)
        },
        end.elements@.len() == state@.elements.len(),
        forall|i: int|
            0 <= i < end.elements@.len() ==> (#[trigger] end.elements@[i])@
                == spec_names_innermost_first(state@.elements)[i],
        end.blocks@ == state@.blocks.reverse(),
{
    let mut state = state;
    let error = match state.mode {
        Mode::Data => None,
        _ => Some(ScanError::UnterminatedConstruct),
    };
    let elements = state.elements.close_all();
    let blocks = state.blocks.close_all();
    EndOfInput { error, elements, blocks }
}

/// A scan in progress: the tokens are handed out one at a time, as they
/// are asked for.
#[derive(Debug)]
pub struct Scanner<'a> {
    pub layer: Layer,
    /// The input.
    pub buf: &'a [u8],
    /// Where the next token starts.
    pub pos: usize,
    /// The state in which the next token is scanned.
    pub state: ScanState,
}

impl<'a> Scanner<'a> {
    /// The state is one that a scan can be in, and the position lies in
    /// the input.
    pub open spec fn wf(&self) -> bool {
        self.state.wf() && self.pos <= self.buf@.len()
    }

    /// A scan of `buf` from its start.
    pub fn new(layer: Layer, buf: &'a [u8]) -> (scanner: Scanner<'a>)
        ensures
            scanner.wf(),
            scanner.layer == layer,
            scanner.buf@ == buf@,
            scanner.pos == 0,
            scanner.state@ == spec_initial(),
    {
        Scanner { layer, buf, pos: 0, state: ScanState::new() }
    }

    /// A scan of `buf` that goes on at `pos` in the state `state`: the
    /// state that an earlier scan of the same bytes before `pos` reached at
    /// that token boundary.
    pub fn resume_at(layer: Layer, buf: &'a [u8], state: ScanState, pos: usize) -> (scanner:
        Scanner<'a>)
        requires
            state.wf(),
            pos <= buf@.len(),
        ensures
            scanner.wf(),
            scanner.layer == layer,
            scanner.buf@ == buf@,
            scanner.pos == pos,
            scanner.state@ == state@,
    {
        Scanner { layer, buf, pos, state }
    }

    /// Whether the scan has reached the end of the input.
    pub fn at_end(&self) -> (r: bool)
        requires
            self.wf(),
        ensures
            r == (self.pos == self.buf@.len()),
    {
        self.pos >= self.buf.len()
    }

    /// The next token, or `None` at the end of the input. The scan moves on
    /// to the end of the token.
    pub fn next_token(&mut self) -> (token: Option<Token>)
        requires
            old(self).wf(),
        ensures
            final(self).wf(),
            final(self).layer == old(self).layer,
            final(self).buf@ == old(self).buf@,
            match token {
                Some(t) => {
                    &&& old(self).pos < old(self).buf@.len()
                    &&& (t@, final(self).state@) == spec_next(
                        old(self).layer,
                        old(self).state@,
                        old(self).buf@,
                        old(self).pos as int,
                    )
                    &&& t.span.start == old(self).pos
                    &&& final(self).pos == t.span.end
                    &&& old(self).pos < final(self).pos
                },
                None => {
                    &&& old(self).pos == old(self).buf@.len()
                    &&& final(self).pos == old(self).pos
                    &&& final(self).state@ == old(self).state@
                },
            },
    {
        if self.pos >= self.buf.len() {
            return None;
        }
        let token = next_token(self.layer, &mut self.state, self.buf, self.pos);
        self.pos = token.span.end;
        Some(token)
    }

    /// A copy of the state at this token boundary, from which the scan can
    /// be resumed at the position where it stands now.
    pub fn snapshot(&self) -> (state: ScanState)
        ensures
            state@ == self.state@,
    {
        self.state.snapshot()
    }
}

} // verus!
