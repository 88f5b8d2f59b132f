//! A context-sensitive tokenizer for markup with embedded expressions.
//!
//! Three languages share one scanner, each a layer on the one before it:
//! plain markup, markup with brace-delimited expressions, and markup with
//! expressions and control-flow blocks (see [`element::Layer`]).
//!
//! The scanner decides, at each position of the input, what kind of token
//! comes next. What it needs to know for that is kept in a
//! [`scanner::ScanState`]: the lexical mode, the stack of open elements and
//! the stack of open blocks. [`scanner::next_token`] takes a state, the
//! input and a position, and returns the token that starts there while it
//! moves the state on. [`stream::Scanner`] hands the tokens out one by one,
//! [`stream::tokenize`] scans an input whole, and [`stream::resume`] goes on
//! from a state that was kept at a token boundary.
//!
//! The tokens of a scan cover its input byte for byte. No input makes a scan
//! fail: what is wrong is marked on the token where it is found, and
//! [`stream::finish`] says what was left open at the end. Every expression
//! is found by [`expression::scan_expression`], but none is read: what the
//! braces hold is for an expression grammar to parse, as the tokens are for
//! a grammar engine to build a tree from.
//!
//! Each function states what it returns over a specification function of
//! the same name with `spec_` before it; [`laws`] holds what is proved of
//! those specifications for every input.

pub mod ascii;
pub mod attribute;
pub mod block;
pub mod element;
pub mod expression;
pub mod head;
pub mod laws;
pub mod order;
pub mod reference;
pub mod scanner;
pub mod stream;
pub mod tag_stack;
pub mod token;
