//! Colors, lexical categories, themes and styled spans.

use vstd::prelude::*;

verus! {

/// A color with red, green, blue and alpha channels.
#[derive(Clone, Copy, PartialEq, Eq, Structural, Debug)]
pub struct Rgba {
    pub red: u8,
    pub green: u8,
    pub blue: u8,
    pub alpha: u8,
}

/// The lexical role of a token, used to pick its color.
#[derive(Clone, Copy, PartialEq, Eq, Structural, Debug)]
pub enum Category {
    Keyword,
    Comment,
    StringLit,
    Operator,
    Plain,
}

/// A named palette: one foreground color per lexical category.
#[derive(Debug)]
pub struct Theme {
    pub name: Vec<u8>,
    pub keyword: Rgba,
    pub comment: Rgba,
    pub string_lit: Rgba,
    pub operator: Rgba,
    pub plain: Rgba,
}

/// The mathematical value of a [`Theme`].
pub ghost struct ThemeModel {
    pub name: Seq<u8>,
    pub keyword: Rgba,
    pub comment: Rgba,
    pub string_lit: Rgba,
    pub operator: Rgba,
    pub plain: Rgba,
}

impl View for Theme {
    type V = ThemeModel;

    open spec fn view(&self) -> ThemeModel {
        ThemeModel {
            name: self.name@,
            keyword: self.keyword,
            comment: self.comment,
            string_lit: self.string_lit,
            operator: self.operator,
            plain: self.plain,
        }
    }
}

/// The foreground color a theme assigns to a lexical category.
pub open spec fn color_of(th: ThemeModel, c: Category) -> Rgba {
    match c {
        Category::Keyword => th.keyword,
        Category::Comment => th.comment,
        Category::StringLit => th.string_lit,
        Category::Operator => th.operator,
        Category::Plain => th.plain,
    }
}

impl Theme {
    /// The foreground color this theme assigns to a lexical category.
    pub fn color(&self, c: Category) -> (r: Rgba)
        ensures
            r == color_of(self@, c),
    {
        match c {
            Category::Keyword => self.keyword,
            Category::Comment => self.comment,
            Category::StringLit => self.string_lit,
            Category::Operator => self.operator,
            Category::Plain => self.plain,
        }
    }
}

/// One run of text drawn in one color. Spans own their text; within a line
/// they are contiguous and in source order, so a span's byte range within the
/// line follows from the lengths of the spans before it.
#[derive(Debug)]
pub struct StyledSpan {
    pub color: Rgba,
    pub text: Vec<u8>,
}

/// The mathematical value of a [`StyledSpan`].
pub ghost struct SpanModel {
    pub color: Rgba,
    pub text: Seq<u8>,
}

impl View for StyledSpan {
    type V = SpanModel;

    open spec fn view(&self) -> SpanModel {
        SpanModel { color: self.color, text: self.text@ }
    }
}

/// One input line as an ordered row of colored spans.
#[derive(Debug)]
pub struct StyledLine {
    pub spans: Vec<StyledSpan>,
}

impl View for StyledLine {
    type V = Seq<SpanModel>;

    open spec fn view(&self) -> Seq<SpanModel> {
        spans_view(self.spans@)
    }
}

/// The models of a row of spans.
pub open spec fn spans_view(v: Seq<StyledSpan>) -> Seq<SpanModel> {
    v.map_values(|s: StyledSpan| s@)
}

/// The models of a sequence of styled lines.
pub open spec fn lines_view(v: Seq<StyledLine>) -> Seq<Seq<SpanModel>> {
    v.map_values(|l: StyledLine| l@)
}

/// The text of a row of spans, concatenated in order.
pub open spec fn concat_spans(s: Seq<SpanModel>) -> Seq<u8>
    decreases s.len(),
{
    if s.len() == 0 {
        Seq::empty()
    } else {
        s[0].text + concat_spans(s.skip(1))
    }
}

/// `sp` appended to an already-merged row: joined onto the last span when the
/// colors agree, pushed as a new span otherwise.
pub open spec fn merge_push(acc: Seq<SpanModel>, sp: SpanModel) -> Seq<SpanModel> {
    if acc.len() > 0 && acc.last().color == sp.color {
        acc.update(acc.len() - 1, SpanModel { color: sp.color, text: acc.last().text + sp.text })
    } else {
        acc.push(sp)
    }
}

/// The row with every run of adjacent same-colored spans joined into one span.
pub open spec fn merge_spans(s: Seq<SpanModel>) -> Seq<SpanModel>
    decreases s.len(),
{
    if s.len() == 0 {
        Seq::empty()
    } else {
        merge_push(merge_spans(s.drop_last()), s.last())
    }
}

/// A single span's row concatenates to that span's text.
pub proof fn lemma_concat_spans_singleton(sp: SpanModel)
    ensures
        concat_spans(seq![sp]) == sp.text,
{
    assert(seq![sp].skip(1) =~= Seq::<SpanModel>::empty());
    assert(concat_spans(Seq::<SpanModel>::empty()) == Seq::<u8>::empty());
    assert(concat_spans(seq![sp]) =~= sp.text);
}

/// Appending a span appends its text.
pub proof fn lemma_concat_spans_push(s: Seq<SpanModel>, sp: SpanModel)
    ensures
        concat_spans(s.push(sp)) == concat_spans(s) + sp.text,
    decreases s.len(),
{
    if s.len() == 0 {
        assert(s.push(sp) =~= seq![sp]);
        lemma_concat_spans_singleton(sp);
        assert(concat_spans(s) == Seq::<u8>::empty());
        assert(concat_spans(s) + sp.text =~= sp.text);
    } else {
        assert(s.push(sp).skip(1) =~= s.skip(1).push(sp));
        lemma_concat_spans_push(s.skip(1), sp);
        assert(s.push(sp)[0] == s[0]);
        assert(concat_spans(s.push(sp)) =~= concat_spans(s) + sp.text);
    }
}

/// [`merge_push`] appends exactly the new span's text.
pub proof fn lemma_merge_push_concat(acc: Seq<SpanModel>, sp: SpanModel)
    ensures
        concat_spans(merge_push(acc, sp)) == concat_spans(acc) + sp.text,
    decreases acc.len(),
{
    if acc.len() > 0 && acc.last().color == sp.color {
        let comb = SpanModel { color: sp.color, text: acc.last().text + sp.text };
        let r = acc.update(acc.len() - 1, comb);
        if acc.len() == 1 {
            assert(r =~= seq![comb]);
            lemma_concat_spans_singleton(comb);
            assert(acc =~= seq![acc[0]]);
            lemma_concat_spans_singleton(acc[0]);
            assert(concat_spans(r) =~= concat_spans(acc) + sp.text);
        } else {
            assert(acc.skip(1).last() == acc.last());
            assert(r.skip(1) =~= merge_push(acc.skip(1), sp));
            lemma_merge_push_concat(acc.skip(1), sp);
            assert(r[0] == acc[0]);
            assert(concat_spans(r) =~= concat_spans(acc) + sp.text);
        }
    } else {
        lemma_concat_spans_push(acc, sp);
    }
}

/// Merging adjacent same-colored spans keeps the row's text unchanged.
pub proof fn lemma_merge_spans_concat(s: Seq<SpanModel>)
    ensures
        concat_spans(merge_spans(s)) == concat_spans(s),
    decreases s.len(),
{
    if s.len() == 0 {
    } else {
        lemma_merge_spans_concat(s.drop_last());
        lemma_merge_push_concat(merge_spans(s.drop_last()), s.last());
        assert(s =~= s.drop_last().push(s.last()));
        lemma_concat_spans_push(s.drop_last(), s.last());
    }
}

/// Whether no two adjacent spans of a row share a color.
pub open spec fn no_adjacent_same_color(s: Seq<SpanModel>) -> bool {
    forall|i: int| #![trigger s[i]] 0 < i < s.len() ==> s[i - 1].color != s[i].color
}

/// Whether every span of a row holds at least one byte.
pub open spec fn all_spans_nonempty(s: Seq<SpanModel>) -> bool {
    forall|i: int| 0 <= i < s.len() ==> s[i].text.len() > 0
}

/// [`merge_push`] keeps a row in merged shape: spans stay nonempty and
/// adjacent spans keep distinct colors.
pub proof fn lemma_merge_push_shape(acc: Seq<SpanModel>, sp: SpanModel)
    requires
        no_adjacent_same_color(acc),
        all_spans_nonempty(acc),
        sp.text.len() > 0,
    ensures
        no_adjacent_same_color(merge_push(acc, sp)),
        all_spans_nonempty(merge_push(acc, sp)),
{
    let r = merge_push(acc, sp);
    if acc.len() > 0 && acc.last().color == sp.color {
        assert forall|i: int| #![trigger r[i]] 0 < i < r.len() implies r[i - 1].color != r[i].color by {
            assert(r[i - 1].color == acc[i - 1].color);
            assert(r[i].color == acc[i].color);
        }
        assert forall|i: int| 0 <= i < r.len() implies r[i].text.len() > 0 by {
            if i < acc.len() - 1 {
                assert(r[i] == acc[i]);
            }
        }
    } else {
        assert forall|i: int| #![trigger r[i]] 0 < i < r.len() implies r[i - 1].color != r[i].color by {
            if i < acc.len() {
                assert(r[i - 1] == acc[i - 1]);
                assert(r[i] == acc[i]);
            } else {
                assert(r[i - 1] == acc.last());
                assert(r[i] == sp);
            }
        }
    }
}

/// [`merge_spans`] leaves a row of nonempty spans in merged shape.
pub proof fn lemma_merge_spans_shape(s: Seq<SpanModel>)
    requires
        all_spans_nonempty(s),
    ensures
        no_adjacent_same_color(merge_spans(s)),
        all_spans_nonempty(merge_spans(s)),
    decreases s.len(),
{
    if s.len() > 0 {
        assert(all_spans_nonempty(s.drop_last())) by {
            assert forall|i: int| 0 <= i < s.drop_last().len() implies s.drop_last()[i].text.len()
                > 0 by {
                assert(s.drop_last()[i] == s[i]);
            }
        }
        lemma_merge_spans_shape(s.drop_last());
        lemma_merge_push_shape(merge_spans(s.drop_last()), s.last());
    }
}

/// Joins every run of adjacent same-colored spans of `raw` into one span.
pub fn merge_exec(raw: Vec<StyledSpan>) -> (out: Vec<StyledSpan>)
    ensures
        spans_view(out@) == merge_spans(spans_view(raw@)),
{
    let mut out: Vec<StyledSpan> = Vec::new();
    let mut k: usize = 0;
    proof {
        assert(spans_view(raw@).take(0) =~= Seq::<SpanModel>::empty());
    }
    while k < raw.len()
        invariant
            k <= raw@.len(),
            spans_view(out@) == merge_spans(spans_view(raw@).take(k as int)),
        decreases raw@.len() - k,
    {
        let ghost prefix = spans_view(raw@).take(k as int);
        let ghost sp = raw@[k as int]@;
        proof {
            assert(spans_view(raw@).take(k + 1).drop_last() =~= prefix);
            assert(spans_view(raw@).take(k + 1).last() == sp);
            assert(merge_spans(spans_view(raw@).take(k + 1)) == merge_push(
                merge_spans(prefix),
                sp,
            ));
        }
        let color = raw[k].color;
        let join = if out.len() > 0 {
            let l = out.len() - 1;
            out[l].color == color
        } else {
            false
        };
        if join {
            let ghost pre = out@;
            let mut last = out.pop().unwrap();
            proof {
                assert(pre =~= out@.push(last));
                assert(last.text@ =~= pre.last().text@ + raw@[k as int].text@.take(0));
            }
            let mut j: usize = 0;
            while j < raw[k].text.len()
                invariant
                    k < raw@.len(),
                    j <= raw@[k as int].text@.len(),
                    last.text@ == pre.last().text@ + raw@[k as int].text@.take(j as int),
                    last.color == pre.last().color,
                decreases raw@[k as int].text@.len() - j,
            {
                let b = raw[k].text[j];
                last.text.push(b);
                proof {
                    assert(pre.last().text@ + raw@[k as int].text@.take(j + 1)
                        =~= (pre.last().text@ + raw@[k as int].text@.take(j as int)).push(b));
                }
                j = j + 1;
            }
            proof {
                assert(raw@[k as int].text@.take(raw@[k as int].text@.len() as int)
                    =~= raw@[k as int].text@);
            }
            out.push(last);
            proof {
                assert(spans_view(out@) =~= merge_push(merge_spans(prefix), sp));
            }
        } else {
            let text = vstd::slice::slice_to_vec(raw[k].text.as_slice());
            out.push(StyledSpan { color, text });
            proof {
                assert(spans_view(out@) =~= merge_push(merge_spans(prefix), sp));
            }
        }
        k = k + 1;
    }
    proof {
        assert(spans_view(raw@).take(raw@.len() as int) =~= spans_view(raw@));
    }
    out
}

} // verus!
