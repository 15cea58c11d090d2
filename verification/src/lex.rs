//! Stateful, line-oriented tokenization.
//!
//! A line is consumed left to right; every byte belongs to exactly one token,
//! so tokenization is total over arbitrary byte input. The
//! [`HighlightState`] carried in decides whether the line starts inside an
//! open block comment; the state handed out says what the line leaves open.

use vstd::prelude::*;

use crate::scan::{
    find_byte, find_byte_exec, find_pat, find_pat_exec, is_word_byte, is_word_byte_exec,
    lemma_find_byte_spec, lemma_find_pat_spec, lemma_word_run_spec, match_at, match_at_exec,
    word_run, word_run_exec,
};
use crate::style::Category;
use crate::syntax::{is_keyword, HighlightState, SyntaxDefinition, SyntaxModel};

verus! {

/// The token that starts at index `i` of `line`: its category, its length, and
/// the state after it. Rules are tried in a fixed order: an open block comment
/// first, then a line comment, a block comment, a string literal, a word
/// (keyword or plain), an operator byte, and finally a single plain byte.
pub open spec fn next_token(syn: SyntaxModel, st: HighlightState, line: Seq<u8>, i: int) -> (
    Category,
    int,
    HighlightState,
) {
    if st is InBlockComment {
        if syn.block_end.len() > 0 {
            match find_pat(line, syn.block_end, i) {
                Some(j) => (Category::Comment, j + syn.block_end.len() - i, HighlightState::Top),
                None => (Category::Comment, line.len() - i, HighlightState::InBlockComment),
            }
        } else {
            (Category::Comment, line.len() - i, HighlightState::InBlockComment)
        }
    } else if syn.line_comment.len() > 0 && match_at(line, i, syn.line_comment) {
        (Category::Comment, line.len() - i, HighlightState::Top)
    } else if syn.block_start.len() > 0 && syn.block_end.len() > 0 && match_at(
        line,
        i,
        syn.block_start,
    ) {
        match find_pat(line, syn.block_end, i + syn.block_start.len()) {
            Some(j) => (Category::Comment, j + syn.block_end.len() - i, HighlightState::Top),
            None => (Category::Comment, line.len() - i, HighlightState::InBlockComment),
        }
    } else if syn.string_delims.contains(line[i]) {
        match find_byte(line, line[i], i + 1) {
            Some(j) => (Category::StringLit, j + 1 - i, HighlightState::Top),
            None => (Category::StringLit, line.len() - i, HighlightState::Top),
        }
    } else if is_word_byte(line[i]) {
        let n = word_run(line, i);
        if is_keyword(syn, line.subrange(i, i + n)) {
            (Category::Keyword, n, HighlightState::Top)
        } else {
            (Category::Plain, n, HighlightState::Top)
        }
    } else if syn.operators.contains(line[i]) {
        (Category::Operator, 1, HighlightState::Top)
    } else {
        (Category::Plain, 1, HighlightState::Top)
    }
}

/// Every token is at least one byte long and stays within the line.
pub proof fn lemma_next_token_bounds(syn: SyntaxModel, st: HighlightState, line: Seq<u8>, i: int)
    requires
        0 <= i < line.len(),
    ensures
        1 <= next_token(syn, st, line, i).1,
        i + next_token(syn, st, line, i).1 <= line.len(),
{
    if st is InBlockComment {
        if syn.block_end.len() > 0 {
            lemma_find_pat_spec(line, syn.block_end, i);
        }
    } else if syn.line_comment.len() > 0 && match_at(line, i, syn.line_comment) {
    } else if syn.block_start.len() > 0 && syn.block_end.len() > 0 && match_at(
        line,
        i,
        syn.block_start,
    ) {
        lemma_find_pat_spec(line, syn.block_end, i + syn.block_start.len());
    } else if syn.string_delims.contains(line[i]) {
        lemma_find_byte_spec(line, line[i], i + 1);
    } else if is_word_byte(line[i]) {
        lemma_word_run_spec(line, i);
        assert(word_run(line, i) >= 1);
    }
}

/// The tokens of `line` from index `i` on, and the state after the line.
/// Token lengths are clamped into `1 ..= line.len() - i` so that the
/// definition is total; by [`lemma_next_token_bounds`] the clamp never alters
/// a token.
pub open spec fn lex_from(syn: SyntaxModel, st: HighlightState, line: Seq<u8>, i: int) -> (
    Seq<(Category, Seq<u8>)>,
    HighlightState,
)
    decreases line.len() - i,
{
    if i < 0 || i >= line.len() {
        (Seq::empty(), st)
    } else {
        let (c, n0, s2) = next_token(syn, st, line, i);
        let n = if n0 < 1 {
            1
        } else if n0 > line.len() - i {
            line.len() - i
        } else {
            n0
        };
        let rest = lex_from(syn, s2, line, i + n);
        (seq![(c, line.subrange(i, i + n))] + rest.0, rest.1)
    }
}

/// The text of a token sequence, concatenated in order.
pub open spec fn concat_tokens(toks: Seq<(Category, Seq<u8>)>) -> Seq<u8>
    decreases toks.len(),
{
    if toks.len() == 0 {
        Seq::empty()
    } else {
        toks[0].1 + concat_tokens(toks.skip(1))
    }
}

/// Tokenization loses no byte: the tokens of `line` from `i` on concatenate
/// back to exactly the suffix of `line` from `i`.
pub proof fn lemma_lex_concat(syn: SyntaxModel, st: HighlightState, line: Seq<u8>, i: int)
    requires
        0 <= i <= line.len(),
    ensures
        concat_tokens(lex_from(syn, st, line, i).0) == line.skip(i),
    decreases line.len() - i,
{
    if i >= line.len() {
        assert(line.skip(i) =~= Seq::<u8>::empty());
    } else {
        let (c, n0, s2) = next_token(syn, st, line, i);
        lemma_next_token_bounds(syn, st, line, i);
        let n = n0;
        let rest = lex_from(syn, s2, line, i + n);
        lemma_lex_concat(syn, s2, line, i + n);
        let toks = lex_from(syn, st, line, i).0;
        assert(toks == seq![(c, line.subrange(i, i + n))] + rest.0);
        assert(toks.skip(1) =~= rest.0);
        assert(concat_tokens(toks) == line.subrange(i, i + n) + line.skip(i + n));
        assert(line.subrange(i, i + n) + line.skip(i + n) =~= line.skip(i));
    }
}

/// Executable form of [`next_token`]: the token starting at `i`, as its
/// category, its length and the state after it.
pub fn next_token_exec(syn: &SyntaxDefinition, st: HighlightState, line: &[u8], i: usize) -> (r: (
    Category,
    usize,
    HighlightState,
))
    requires
        i < line@.len(),
    ensures
        (r.0, r.1 as int, r.2) == next_token(syn@, st, line@, i as int),
        1 <= r.1,
        i + r.1 <= line@.len(),
{
    proof {
        lemma_next_token_bounds(syn@, st, line@, i as int);
    }
    let n_line = line.len();
    match st {
        HighlightState::InBlockComment => {
            if syn.block_end.len() > 0 {
                match find_pat_exec(line, syn.block_end.as_slice(), i) {
                    Some(j) => {
                        proof {
                            lemma_find_pat_spec(line@, syn@.block_end, i as int);
                        }
                        (Category::Comment, j + syn.block_end.len() - i, HighlightState::Top)
                    },
                    None => (Category::Comment, n_line - i, HighlightState::InBlockComment),
                }
            } else {
                (Category::Comment, n_line - i, HighlightState::InBlockComment)
            }
        },
        HighlightState::Top => {
            if syn.line_comment.len() > 0 && match_at_exec(line, i, syn.line_comment.as_slice()) {
                (Category::Comment, n_line - i, HighlightState::Top)
            } else if syn.block_start.len() > 0 && syn.block_end.len() > 0 && match_at_exec(
                line,
                i,
                syn.block_start.as_slice(),
            ) {
                match find_pat_exec(line, syn.block_end.as_slice(), i + syn.block_start.len()) {
                    Some(j) => {
                        proof {
                            lemma_find_pat_spec(
                                line@,
                                syn@.block_end,
                                i + syn@.block_start.len(),
                            );
                        }
                        (Category::Comment, j + syn.block_end.len() - i, HighlightState::Top)
                    },
                    None => (Category::Comment, n_line - i, HighlightState::InBlockComment),
                }
            } else if crate::scan::contains_byte(&syn.string_delims, line[i]) {
                match find_byte_exec(line, line[i], i + 1) {
                    Some(j) => {
                        proof {
                            lemma_find_byte_spec(line@, line@[i as int], i + 1);
                        }
                        (Category::StringLit, j + 1 - i, HighlightState::Top)
                    },
                    None => (Category::StringLit, n_line - i, HighlightState::Top),
                }
            } else if is_word_byte_exec(line[i]) {
                let n = word_run_exec(line, i);
                let w = vstd::slice::slice_subrange(line, i, i + n);
                if syn.contains_keyword(w) {
                    (Category::Keyword, n, HighlightState::Top)
                } else {
                    (Category::Plain, n, HighlightState::Top)
                }
            } else if crate::scan::contains_byte(&syn.operators, line[i]) {
                (Category::Operator, 1, HighlightState::Top)
            } else {
                (Category::Plain, 1, HighlightState::Top)
            }
        },
    }
}

} // verus!
