//! Line-oriented syntax highlighting.
//!
//! The library turns a source text into a sequence of styled lines: one
//! [`StyledLine`](style::StyledLine) per input line, each a row of colored
//! spans whose concatenation reproduces the line byte for byte, terminator
//! included. A [`SyntaxDefinition`](syntax::SyntaxDefinition) names the
//! lexical rules of one language, a [`Theme`](style::Theme) maps each lexical
//! category to a color, and a [`HighlightState`](syntax::HighlightState)
//! carries the open multi-line construct from one line to the next.
//!
//! The executable pipeline is pinned to a mathematical model
//! ([`highlight_model`](highlight::highlight_model)), of which the library
//! proves: the output concatenates back to the input byte for byte
//! ([`lemma_round_trip`](highlight::lemma_round_trip)); it has one styled
//! line per input line ([`lemma_line_count`](highlight::lemma_line_count));
//! it is a function of text, syntax and theme alone
//! ([`lemma_deterministic`](highlight::lemma_deterministic)); a line entered
//! inside an open block comment is one comment-colored span
//! ([`lemma_carried_comment_line`](highlight::lemma_carried_comment_line));
//! and every styled line is in merged shape
//! ([`lemma_line_spans_merged`](highlight::lemma_line_spans_merged)).

pub mod highlight;
pub mod lex;
pub mod registry;
pub mod scan;
pub mod style;
pub mod syntax;
