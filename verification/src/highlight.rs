//! The highlighting pipeline: lines in, styled lines out.

use vstd::prelude::*;

use crate::lex::{concat_tokens, lemma_lex_concat, lex_from, next_token, next_token_exec};
use crate::style::{
    all_spans_nonempty, color_of, concat_spans, lemma_merge_spans_concat, lemma_merge_spans_shape,
    lines_view, merge_exec, merge_push, merge_spans, no_adjacent_same_color, spans_view, Category,
    SpanModel, StyledLine, StyledSpan, Theme, ThemeModel,
};
use crate::syntax::{HighlightState, SyntaxDefinition, SyntaxModel};

verus! {

/// The line-feed byte that ends a line.
pub const LINE_FEED: u8 = 10;

/// The spans of a token sequence: each token keeps its text and takes the
/// color its category resolves to under the theme.
pub open spec fn spans_of_tokens(th: ThemeModel, toks: Seq<(Category, Seq<u8>)>) -> Seq<
    SpanModel,
> {
    toks.map_values(|t: (Category, Seq<u8>)| SpanModel { color: color_of(th, t.0), text: t.1 })
}

/// Coloring tokens keeps their text: the spans of a token sequence
/// concatenate to the same bytes as the tokens themselves.
pub proof fn lemma_spans_of_tokens_concat(th: ThemeModel, toks: Seq<(Category, Seq<u8>)>)
    ensures
        concat_spans(spans_of_tokens(th, toks)) == concat_tokens(toks),
    decreases toks.len(),
{
    if toks.len() == 0 {
    } else {
        lemma_spans_of_tokens_concat(th, toks.skip(1));
        assert(spans_of_tokens(th, toks).skip(1) =~= spans_of_tokens(th, toks.skip(1)));
        assert(spans_of_tokens(th, toks)[0].text == toks[0].1);
    }
}

/// Every token of a line carries at least one byte, so every span handed to
/// the merge does too.
proof fn lemma_spans_of_tokens_nonempty(
    syn: SyntaxModel,
    th: ThemeModel,
    st: HighlightState,
    line: Seq<u8>,
    i: int,
)
    requires
        0 <= i,
    ensures
        all_spans_nonempty(spans_of_tokens(th, lex_from(syn, st, line, i).0)),
    decreases line.len() - i,
{
    let spans = spans_of_tokens(th, lex_from(syn, st, line, i).0);
    if i >= line.len() {
        assert(spans.len() == 0);
    } else {
        let (c, n0, s2) = next_token(syn, st, line, i);
        let n = if n0 < 1 {
            1
        } else if n0 > line.len() - i {
            line.len() - i
        } else {
            n0
        };
        lemma_spans_of_tokens_nonempty(syn, th, s2, line, i + n);
        let toks = lex_from(syn, st, line, i).0;
        let rest = lex_from(syn, s2, line, i + n).0;
        assert forall|k: int| 0 <= k < spans.len() implies spans[k].text.len() > 0 by {
            assert(spans[k].text == toks[k].1);
            if k == 0 {
                assert(toks[0].1 == line.subrange(i, i + n));
            } else {
                assert(toks[k] == rest[k - 1]);
                assert(spans_of_tokens(th, rest)[k - 1].text == rest[k - 1].1);
            }
        }
    }
}

/// The styled spans of one line entered with carry-state `st`: its tokens,
/// colored by the theme, with adjacent same-colored spans merged.
pub open spec fn line_spans(
    syn: SyntaxModel,
    th: ThemeModel,
    st: HighlightState,
    line: Seq<u8>,
) -> Seq<SpanModel> {
    merge_spans(spans_of_tokens(th, lex_from(syn, st, line, 0).0))
}

/// The carry-state a line hands to its successor.
pub open spec fn line_state(syn: SyntaxModel, st: HighlightState, line: Seq<u8>) -> HighlightState {
    lex_from(syn, st, line, 0).1
}

/// A styled line reproduces its input line exactly.
pub proof fn lemma_line_spans_concat(
    syn: SyntaxModel,
    th: ThemeModel,
    st: HighlightState,
    line: Seq<u8>,
)
    ensures
        concat_spans(line_spans(syn, th, st, line)) == line,
{
    lemma_lex_concat(syn, st, line, 0);
    lemma_spans_of_tokens_concat(th, lex_from(syn, st, line, 0).0);
    lemma_merge_spans_concat(spans_of_tokens(th, lex_from(syn, st, line, 0).0));
    assert(line.skip(0) =~= line);
}

/// A styled line is in merged shape, as the reference merge policy asks:
/// every span holds at least one byte, and no two adjacent spans share a
/// color.
pub proof fn lemma_line_spans_merged(
    syn: SyntaxModel,
    th: ThemeModel,
    st: HighlightState,
    line: Seq<u8>,
)
    ensures
        no_adjacent_same_color(line_spans(syn, th, st, line)),
        all_spans_nonempty(line_spans(syn, th, st, line)),
{
    lemma_spans_of_tokens_nonempty(syn, th, st, line, 0);
    lemma_merge_spans_shape(spans_of_tokens(th, lex_from(syn, st, line, 0).0));
}

/// Styles one line, entered with carry-state `st`; returns the styled line
/// and the state the line hands to its successor.
#[verifier::loop_isolation(false)]
pub fn highlight_line(syn: &SyntaxDefinition, th: &Theme, st: HighlightState, line: &[u8]) -> (r: (
    StyledLine,
    HighlightState,
))
    ensures
        r.0@ == line_spans(syn@, th@, st, line@),
        r.1 == line_state(syn@, st, line@),
{
    let mut raw: Vec<StyledSpan> = Vec::new();
    let mut i: usize = 0;
    let mut cur = st;
    proof {
        assert(spans_view(raw@) =~= Seq::<SpanModel>::empty());
        assert(spans_of_tokens(th@, lex_from(syn@, st, line@, 0).0) =~= Seq::<
            SpanModel,
        >::empty() + spans_of_tokens(th@, lex_from(syn@, cur, line@, 0).0));
    }
    while i < line.len()
        invariant
            i <= line@.len(),
            spans_of_tokens(th@, lex_from(syn@, st, line@, 0).0) == spans_view(raw@)
                + spans_of_tokens(th@, lex_from(syn@, cur, line@, i as int).0),
            lex_from(syn@, st, line@, 0).1 == lex_from(syn@, cur, line@, i as int).1,
        decreases line@.len() - i,
    {
        let (c, n, s2) = next_token_exec(syn, cur, line, i);
        let text = vstd::slice::slice_to_vec(vstd::slice::slice_subrange(line, i, i + n));
        let color = th.color(c);
        let ghost pre = raw@;
        raw.push(StyledSpan { color, text });
        proof {
            let tail = lex_from(syn@, cur, line@, i as int);
            let rest = lex_from(syn@, s2, line@, i + n);
            assert(tail.0 == seq![(c, line@.subrange(i as int, i + n))] + rest.0);
            assert(spans_view(raw@) =~= spans_view(pre).push(
                SpanModel { color, text: line@.subrange(i as int, i + n) },
            ));
            assert(spans_of_tokens(th@, tail.0) =~= seq![
                SpanModel { color, text: line@.subrange(i as int, i + n) },
            ] + spans_of_tokens(th@, rest.0));
            assert(spans_view(pre) + spans_of_tokens(th@, tail.0) =~= spans_view(raw@)
                + spans_of_tokens(th@, rest.0));
        }
        cur = s2;
        i = i + n;
    }
    proof {
        assert(spans_of_tokens(th@, lex_from(syn@, cur, line@, i as int).0) =~= Seq::<
            SpanModel,
        >::empty());
        assert(spans_of_tokens(th@, lex_from(syn@, st, line@, 0).0) =~= spans_view(raw@));
    }
    let merged = merge_exec(raw);
    (StyledLine { spans: merged }, cur)
}

/// Where the line that starts at `from` ends: one past its terminating line
/// feed, or the end of the text when no line feed follows. The result is
/// clamped into `from + 1 ..= t.len()` so that line splitting is total; by
/// [`crate::scan::lemma_find_byte_spec`] the clamp never fires.
pub open spec fn line_end(t: Seq<u8>, from: int) -> int {
    match crate::scan::find_byte(t, LINE_FEED, from) {
        Some(j) => if j + 1 > t.len() {
            t.len() as int
        } else if j + 1 <= from {
            from + 1
        } else {
            j + 1
        },
        None => t.len() as int,
    }
}

/// The lines of `t` from index `from` on, each including its terminator.
pub open spec fn split_lines(t: Seq<u8>, from: int) -> Seq<Seq<u8>>
    decreases t.len() - from,
{
    if from < 0 || from >= t.len() {
        Seq::empty()
    } else {
        seq![t.subrange(from, line_end(t, from))] + split_lines(t, line_end(t, from))
    }
}

/// The lines of a text, split after each line feed, terminators kept. Text
/// after the last line feed forms a final, unterminated line; empty text has
/// no lines.
pub open spec fn lines_of(t: Seq<u8>) -> Seq<Seq<u8>> {
    split_lines(t, 0)
}

/// The styled lines of the text from index `from` on, entered with
/// carry-state `st`: each line's spans, with the state each line leaves open
/// carried into the next.
pub open spec fn highlight_from(
    syn: SyntaxModel,
    th: ThemeModel,
    st: HighlightState,
    t: Seq<u8>,
    from: int,
) -> Seq<Seq<SpanModel>>
    decreases t.len() - from,
{
    if from < 0 || from >= t.len() {
        Seq::empty()
    } else {
        let e = line_end(t, from);
        let line = t.subrange(from, e);
        seq![line_spans(syn, th, st, line)] + highlight_from(
            syn,
            th,
            line_state(syn, st, line),
            t,
            e,
        )
    }
}

/// The styled lines of a whole text: what highlighting means. One entry per
/// line of [`lines_of`], starting at top level, the carry-state threaded
/// through the lines in order.
pub open spec fn highlight_model(syn: SyntaxModel, th: ThemeModel, t: Seq<u8>) -> Seq<
    Seq<SpanModel>,
> {
    highlight_from(syn, th, HighlightState::Top, t, 0)
}

/// The bytes of a highlighted text: every span's text, across every line, in
/// order.
pub open spec fn concat_lines(out: Seq<Seq<SpanModel>>) -> Seq<u8>
    decreases out.len(),
{
    if out.len() == 0 {
        Seq::empty()
    } else {
        concat_spans(out[0]) + concat_lines(out.skip(1))
    }
}

/// The styled lines from `from` on concatenate to exactly the text from
/// `from` on.
proof fn lemma_highlight_from_concat(
    syn: SyntaxModel,
    th: ThemeModel,
    st: HighlightState,
    t: Seq<u8>,
    from: int,
)
    requires
        0 <= from <= t.len(),
    ensures
        concat_lines(highlight_from(syn, th, st, t, from)) == t.skip(from),
    decreases t.len() - from,
{
    if from >= t.len() {
        assert(t.skip(from) =~= Seq::<u8>::empty());
    } else {
        crate::scan::lemma_find_byte_spec(t, LINE_FEED, from);
        let e = line_end(t, from);
        let line = t.subrange(from, e);
        let out = highlight_from(syn, th, st, t, from);
        lemma_line_spans_concat(syn, th, st, line);
        lemma_highlight_from_concat(syn, th, line_state(syn, st, line), t, e);
        assert(out.skip(1) =~= highlight_from(syn, th, line_state(syn, st, line), t, e));
        assert(concat_lines(out) == line + t.skip(e));
        assert(line + t.skip(e) =~= t.skip(from));
    }
}

/// Round-trip: concatenating every span's text across every line of the
/// highlighted output reproduces the input text exactly, byte for byte,
/// terminators included.
pub proof fn lemma_round_trip(syn: SyntaxModel, th: ThemeModel, t: Seq<u8>)
    ensures
        concat_lines(highlight_model(syn, th, t)) == t,
{
    lemma_highlight_from_concat(syn, th, HighlightState::Top, t, 0);
    assert(t.skip(0) =~= t);
}

/// From any position, highlighting yields as many styled lines as the split
/// yields lines.
proof fn lemma_highlight_from_len(
    syn: SyntaxModel,
    th: ThemeModel,
    st: HighlightState,
    t: Seq<u8>,
    from: int,
)
    ensures
        highlight_from(syn, th, st, t, from).len() == split_lines(t, from).len(),
    decreases t.len() - from,
{
    if 0 <= from < t.len() {
        let e = line_end(t, from);
        let line = t.subrange(from, e);
        lemma_highlight_from_len(syn, th, line_state(syn, st, line), t, e);
    }
}

/// Line count: the output has exactly one styled line per input line, and an
/// empty text yields no lines.
pub proof fn lemma_line_count(syn: SyntaxModel, th: ThemeModel, t: Seq<u8>)
    ensures
        highlight_model(syn, th, t).len() == lines_of(t).len(),
        t.len() == 0 ==> highlight_model(syn, th, t).len() == 0,
{
    lemma_highlight_from_len(syn, th, HighlightState::Top, t, 0);
}

/// Determinism: highlighting is a function of the text, the syntax and the
/// theme alone, so two results of the same inputs are equal.
pub proof fn lemma_deterministic(
    syn: SyntaxModel,
    th: ThemeModel,
    t: Seq<u8>,
    first: Seq<Seq<SpanModel>>,
    second: Seq<Seq<SpanModel>>,
)
    requires
        first == highlight_model(syn, th, t),
        second == highlight_model(syn, th, t),
    ensures
        first == second,
{
}

/// Statefulness: a nonempty line entered inside an open block comment whose
/// closing delimiter does not occur on the line is one single span, colored as
/// a comment, covering the whole line — though no comment delimiter appears on
/// the line itself — and the comment stays open after it.
pub proof fn lemma_carried_comment_line(syn: SyntaxModel, th: ThemeModel, line: Seq<u8>)
    requires
        line.len() > 0,
        syn.block_end.len() > 0,
        crate::scan::find_pat(line, syn.block_end, 0) is None,
    ensures
        line_spans(syn, th, HighlightState::InBlockComment, line) == seq![
            SpanModel { color: th.comment, text: line },
        ],
        line_state(syn, HighlightState::InBlockComment, line) == HighlightState::InBlockComment,
{
    let st = HighlightState::InBlockComment;
    let tok = lex_from(syn, st, line, 0);
    assert(next_token(syn, st, line, 0) == (Category::Comment, line.len() as int, st));
    assert(lex_from(syn, st, line, line.len() as int) == (
        Seq::<(Category, Seq<u8>)>::empty(),
        st,
    ));
    assert(tok.0 =~= seq![(Category::Comment, line.subrange(0, line.len() as int))]);
    assert(line.subrange(0, line.len() as int) =~= line);
    assert(tok.1 == st);
    let sp = SpanModel { color: th.comment, text: line };
    assert(spans_of_tokens(th, tok.0) =~= seq![sp]);
    assert(seq![sp].drop_last() =~= Seq::<SpanModel>::empty());
    assert(merge_spans(seq![sp]) == merge_push(merge_spans(Seq::<SpanModel>::empty()), sp));
    assert(merge_spans(Seq::<SpanModel>::empty()) == Seq::<SpanModel>::empty());
    assert(line_spans(syn, th, st, line) =~= seq![sp]);
}

/// Highlights a text: one styled line per input line, in source order.
#[verifier::loop_isolation(false)]
pub fn highlight(syn: &SyntaxDefinition, th: &Theme, text: &[u8]) -> (out: Vec<StyledLine>)
    ensures
        lines_view(out@) == highlight_model(syn@, th@, text@),
        out@.len() == lines_of(text@).len(),
{
    proof {
        lemma_line_count(syn@, th@, text@);
    }
    let mut out: Vec<StyledLine> = Vec::new();
    let mut pos: usize = 0;
    let mut st = HighlightState::Top;
    proof {
        assert(lines_view(out@) =~= Seq::<Seq<SpanModel>>::empty());
        assert(highlight_model(syn@, th@, text@) =~= Seq::<Seq<SpanModel>>::empty()
            + highlight_from(syn@, th@, st, text@, 0));
    }
    while pos < text.len()
        invariant
            pos <= text@.len(),
            highlight_model(syn@, th@, text@) == lines_view(out@) + highlight_from(
                syn@,
                th@,
                st,
                text@,
                pos as int,
            ),
        decreases text@.len() - pos,
    {
        let e = match crate::scan::find_byte_exec(text, LINE_FEED, pos) {
            Some(j) => {
                proof {
                    crate::scan::lemma_find_byte_spec(text@, LINE_FEED, pos as int);
                }
                j + 1
            },
            None => text.len(),
        };
        proof {
            crate::scan::lemma_find_byte_spec(text@, LINE_FEED, pos as int);
            assert(e as int == line_end(text@, pos as int));
        }
        let line = vstd::slice::slice_subrange(text, pos, e);
        let (sl, s2) = highlight_line(syn, th, st, line);
        let ghost pre = out@;
        out.push(sl);
        proof {
            assert(lines_view(out@) =~= lines_view(pre).push(sl@));
            assert(highlight_from(syn@, th@, st, text@, pos as int) =~= seq![sl@]
                + highlight_from(syn@, th@, s2, text@, e as int));
            assert(lines_view(pre) + highlight_from(syn@, th@, st, text@, pos as int)
                =~= lines_view(out@) + highlight_from(syn@, th@, s2, text@, e as int));
        }
        st = s2;
        pos = e;
    }
    proof {
        assert(highlight_from(syn@, th@, st, text@, pos as int) =~= Seq::<Seq<SpanModel>>::empty());
        assert(highlight_model(syn@, th@, text@) =~= lines_view(out@));
    }
    out
}

} // verus!
