//! The expression span scanner: from an accepted `{` to the `}` that closes
//! it, past braces in strings, template literals and comments.
//!
//! The scanner keeps a stack of what it is inside of. The stack starts with
//! the brace that opened the expression and is empty again at the brace that
//! closes it, so that it lives within one token and is never part of the
//! state that a scan keeps between tokens.

use vstd::prelude::*;
use crate::ascii::{
    BACKSLASH, BACKTICK, CLOSE_BRACE, DOLLAR, DOUBLE_QUOTE, LINE_FEED, OPEN_BRACE, SINGLE_QUOTE,
    SLASH, STAR,
};
use crate::ascii::{spec_trim_end, trim_end};
use crate::token::{Field, FieldName, ScanError, Span, Token, TokenKind, TokenView};

verus! {

/// What the scanner is inside of. The scanner keeps a stack of these; the
/// innermost is last.
#[derive(Clone, Copy, PartialEq, Eq, Debug, Structural)]
pub enum SubState {
    /// An open `{` in code.
    Brace,
    /// A string between single quotes.
    SingleQuote,
    /// A string between double quotes.
    DoubleQuote,
    /// A template literal between backticks.
    TemplateLiteral,
    /// An open `${` in a template literal.
    TemplateSubstitution,
    /// A comment from `//` to the end of the line.
    LineComment,
    /// A comment from `/*` to `*/`.
    BlockComment,
}

/// Whether bytes in this state are code, where braces count.
pub open spec fn spec_is_code(state: SubState) -> bool {
    state == SubState::Brace || state == SubState::TemplateSubstitution
}

/// The brace depth: the number of open braces that count.
pub open spec fn spec_depth(stack: Seq<SubState>) -> nat
    decreases stack.len(),
{
    if stack.len() == 0 {
        0
    } else {
        spec_depth(stack.drop_last()) + if spec_is_code(stack.last()) {
            1nat
        } else {
            0nat
        }
    }
}

/// The stacks of a scan: the outermost entry is the brace that opened the
/// expression.
pub open spec fn spec_stack_ok(stack: Seq<SubState>) -> bool {
    stack.len() > 0 ==> stack[0] == SubState::Brace
}

/// One step of the scanner at `pos`, with `stack` not empty: the position
/// after the step and the stack after it.
pub open spec fn spec_step(buf: Seq<u8>, pos: int, stack: Seq<SubState>) -> (int, Seq<SubState>) {
    let b = buf[pos];
    let pair = pos + 1 < buf.len();
    let skip = if pair {
        pos + 2
    } else {
        pos + 1
    };
    match stack.last() {
        SubState::Brace | SubState::TemplateSubstitution => {
            if b == OPEN_BRACE {
                (pos + 1, stack.push(SubState::Brace))
            } else if b == CLOSE_BRACE {
                (pos + 1, stack.drop_last())
            } else if b == SINGLE_QUOTE {
                (pos + 1, stack.push(SubState::SingleQuote))
            } else if b == DOUBLE_QUOTE {
                (pos + 1, stack.push(SubState::DoubleQuote))
            } else if b == BACKTICK {
                (pos + 1, stack.push(SubState::TemplateLiteral))
            } else if b == SLASH && pair && buf[pos + 1] == SLASH {
                (pos + 2, stack.push(SubState::LineComment))
            } else if b == SLASH && pair && buf[pos + 1] == STAR {
                (pos + 2, stack.push(SubState::BlockComment))
            } else {
                (pos + 1, stack)
            }
        },
        SubState::SingleQuote => {
            if b == BACKSLASH {
                (skip, stack)
            } else if b == SINGLE_QUOTE {
                (pos + 1, stack.drop_last())
            } else {
                (pos + 1, stack)
            }
        },
        SubState::DoubleQuote => {
            if b == BACKSLASH {
                (skip, stack)
            } else if b == DOUBLE_QUOTE {
                (pos + 1, stack.drop_last())
            } else {
                (pos + 1, stack)
            }
        },
        SubState::TemplateLiteral => {
            if b == BACKSLASH {
                (skip, stack)
            } else if b == BACKTICK {
                (pos + 1, stack.drop_last())
            } else if b == DOLLAR && pair && buf[pos + 1] == OPEN_BRACE {
                (pos + 2, stack.push(SubState::TemplateSubstitution))
            } else {
                (pos + 1, stack)
            }
        },
        SubState::LineComment => {
            if b == LINE_FEED {
                (pos + 1, stack.drop_last())
            } else {
                (pos + 1, stack)
            }
        },
        SubState::BlockComment => {
            if b == STAR && pair && buf[pos + 1] == SLASH {
                (pos + 2, stack.drop_last())
            } else {
                (pos + 1, stack)
            }
        },
    }
}

/// The position of the `}` that empties the stack, for a scan that stands
/// at `pos` with `stack`; `None` where the input ends first.
pub open spec fn spec_close(buf: Seq<u8>, pos: int, stack: Seq<SubState>) -> Option<int>
    decreases buf.len() - pos,
{
    if pos < 0 || pos >= buf.len() || stack.len() == 0 {
        None
    } else {
        let (next, after) = spec_step(buf, pos, stack);
        if after.len() == 0 {
            Some(pos)
        } else if next <= pos {
            None
        } else {
            spec_close(buf, next, after)
        }
    }
}

/// The position of the `}` that closes an expression whose `{` stands just
/// before `start`.
pub open spec fn spec_expression_close(buf: Seq<u8>, start: int) -> Option<int> {
    spec_close(buf, start, seq![SubState::Brace])
}

/// Where the expression that starts at `start` stops being scanned: at its
/// closing brace, or at the end of the input.
pub open spec fn spec_expression_stop(buf: Seq<u8>, start: int) -> int {
    match spec_expression_close(buf, start) {
        Some(close) => close,
        None => buf.len() as int,
    }
}

/// A step leaves the outermost entry of the stack where it is, unless it
/// is the step that closes the expression.
pub proof fn lemma_step_keeps_stack_ok(buf: Seq<u8>, pos: int, stack: Seq<SubState>)
    requires
        0 <= pos < buf.len(),
        stack.len() > 0,
        spec_stack_ok(stack),
    ensures
        spec_stack_ok(spec_step(buf, pos, stack).1),
{
    let after = spec_step(buf, pos, stack).1;
    if after.len() > 0 {
        assert(after[0] == stack[0]);
    }
}

/// The brace depth of the stack of a scan is zero exactly when the stack is
/// empty: the brace that opened the expression counts until it is closed,
/// and no string, template literal or comment counts as a brace.
pub proof fn lemma_depth_zero_iff_empty(stack: Seq<SubState>)
    requires
        spec_stack_ok(stack),
    ensures
        spec_depth(stack) == 0 <==> stack.len() == 0,
    decreases stack.len(),
{
    if stack.len() > 1 {
        assert(stack.drop_last()[0] == stack[0]);
        lemma_depth_zero_iff_empty(stack.drop_last());
    } else if stack.len() == 1 {
        assert(stack.last() == stack[0]);
        assert(spec_depth(stack.drop_last()) == 0);
    }
}

/// Where a scan closes, it closes on a `}` that stands in code, with no
/// other brace open: the depth returns to zero at that byte, and at no byte
/// before it.
pub proof fn lemma_close_is_brace(buf: Seq<u8>, pos: int, stack: Seq<SubState>)
    requires
        spec_stack_ok(stack),
    ensures
        spec_close(buf, pos, stack) matches Some(close) ==> pos <= close < buf.len() && buf[close]
            == CLOSE_BRACE,
    decreases buf.len() - pos,
{
    if 0 <= pos < buf.len() && stack.len() > 0 {
        let (next, after) = spec_step(buf, pos, stack);
        if after.len() == 0 {
            assert(stack.last() == stack[0]);
        } else if next > pos {
            lemma_step_keeps_stack_ok(buf, pos, stack);
            lemma_close_is_brace(buf, next, after);
        }
    }
}

/// One step of the scanner.
pub fn step(buf: &[u8], pos: usize, stack: &mut Vec<SubState>) -> (next: usize)
    requires
        pos < buf@.len(),
        old(stack)@.len() > 0,
    ensures
        (next as int, final(stack)@) == spec_step(buf@, pos as int, old(stack)@),
        pos < next <= buf@.len(),
{
    let b = buf[pos];
    let pair = pos + 1 < buf.len();
    let skip: usize = if pair {
        pos + 2
    } else {
        pos + 1
    };
    let top = stack[stack.len() - 1];
    match top {
        SubState::Brace | SubState::TemplateSubstitution => {
            if b == OPEN_BRACE {
                stack.push(SubState::Brace);
                pos + 1
            } else if b == CLOSE_BRACE {
                let _ = stack.pop();
                pos + 1
            } else if b == SINGLE_QUOTE {
                stack.push(SubState::SingleQuote);
                pos + 1
            } else if b == DOUBLE_QUOTE {
                stack.push(SubState::DoubleQuote);
                pos + 1
            } else if b == BACKTICK {
                stack.push(SubState::TemplateLiteral);
                pos + 1
            } else if b == SLASH && pair && buf[pos + 1] == SLASH {
                stack.push(SubState::LineComment);
                pos + 2
            } else if b == SLASH && pair && buf[pos + 1] == STAR {
                stack.push(SubState::BlockComment);
                pos + 2
            } else {
                pos + 1
            }
        },
        SubState::SingleQuote => {
            if b == BACKSLASH {
                skip
            } else if b == SINGLE_QUOTE {
                let _ = stack.pop();
                pos + 1
            } else {
                pos + 1
            }
        },
        SubState::DoubleQuote => {
            if b == BACKSLASH {
                skip
            } else if b == DOUBLE_QUOTE {
                let _ = stack.pop();
                pos + 1
            } else {
                pos + 1
            }
        },
        SubState::TemplateLiteral => {
            if b == BACKSLASH {
                skip
            } else if b == BACKTICK {
                let _ = stack.pop();
                pos + 1
            } else if b == DOLLAR && pair && buf[pos + 1] == OPEN_BRACE {
                stack.push(SubState::TemplateSubstitution);
                pos + 2
            } else {
                pos + 1
            }
        },
        SubState::LineComment => {
            if b == LINE_FEED {
                let _ = stack.pop();
                pos + 1
            } else {
                pos + 1
            }
        },
        SubState::BlockComment => {
            if b == STAR && pair && buf[pos + 1] == SLASH {
                let _ = stack.pop();
                pos + 2
            } else {
                pos + 1
            }
        },
    }
}

/// The token of an expression whose `{` stands at `pos`. It ends after the
/// closing brace. Its content is what the braces hold, without the
/// whitespace before the closing brace. Where the input ends before the
/// closing brace, the token runs to the end of the input.
pub open spec fn spec_expression_token(buf: Seq<u8>, pos: int) -> TokenView {
    let close = spec_expression_close(buf, pos + 1);
    let stop = spec_expression_stop(buf, pos + 1);
    TokenView {
        kind: TokenKind::Expression,
        span: Span::spec_new(
            pos,
            if close is Some {
                stop + 1
            } else {
                stop
            },
        ),
        fields: seq![
            Field::spec_new(FieldName::Content, pos + 1, spec_trim_end(buf, pos + 1, stop)),
        ],
        implicit_closes: 0,
        error: if close is Some {
            None
        } else {
            Some(ScanError::UnterminatedConstruct)
        },
    }
}

/// Scans an expression whose `{` stands just before `start`, and returns
/// the position of the `}` that closes it, or `None` where the input ends
/// before that.
pub fn scan_expression(buf: &[u8], start: usize) -> (close: Option<usize>)
    requires
        start <= buf@.len(),
    ensures
        close is Some <==> spec_expression_close(buf@, start as int) is Some,
        close matches Some(c) ==> spec_expression_close(buf@, start as int) == Some(c as int)
            && start <= c < buf@.len() && buf@[c as int] == CLOSE_BRACE,
{
    let mut stack: Vec<SubState> = Vec::new();
    stack.push(SubState::Brace);
    assert(stack@ =~= seq![SubState::Brace]);
    let mut pos: usize = start;
    while pos < buf.len()
        invariant
            start <= pos <= buf@.len(),
            stack@.len() > 0,
            spec_close(buf@, pos as int, stack@) == spec_expression_close(buf@, start as int),
        decreases buf@.len() - pos,
    {
        let next = step(buf, pos, &mut stack);
        if stack.len() == 0 {
            proof {
                lemma_close_is_brace(buf@, start as int, seq![SubState::Brace]);
            }
            return Some(pos);
        }
        pos = next;
    }
    None
}

/// Scans the expression whose `{` stands at `pos`.
pub fn expression_token(buf: &[u8], pos: usize) -> (token: Token)
    requires
        pos < buf@.len(),
        buf@[pos as int] == OPEN_BRACE,
    ensures
        token@ == spec_expression_token(buf@, pos as int),
        token.span.start == pos,
        pos < token.span.end <= buf@.len(),
{
    let len = buf.len();
    let close = scan_expression(buf, pos + 1);
    let stop: usize = match close {
        Some(c) => c,
        None => len,
    };
    let mut fields: Vec<Field> = Vec::new();
    fields.push(Field::new(FieldName::Content, pos + 1, trim_end(buf, pos + 1, stop)));
    assert(fields@ =~= seq![
        Field::spec_new(
            FieldName::Content,
            pos + 1,
            spec_trim_end(buf@, pos + 1, stop as int),
        ),
    ]);
    let closed = close.is_some();
    Token {
        kind: TokenKind::Expression,
        span: Span::new(
            pos,
            if closed {
                stop + 1
            } else {
                stop
            },
        ),
        fields,
        implicit_closes: 0,
        error: if closed {
            None
        } else {
            Some(ScanError::UnterminatedConstruct)
        },
    }
}

} // verus!
