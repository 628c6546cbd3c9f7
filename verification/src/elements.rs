//! The element tree and its three recursive algorithms: `width`, `height`
//! and rendering to a grid of padded lines.

use crate::layout::{Alignment, RowSettings};
use crate::model::{
    ElemView, child_cell, concat_renders, lemma_concat_renders_take_step, lemma_dims_of,
    lemma_first_newline_at, lemma_nat_max_take_step, lemma_nat_max_le, lemma_nat_sum_le,
    lemma_nat_sum_take_le, lemma_nat_sum_take_step, lemma_render_len, lemma_row_line_take_step,
    line_lens, nat_max, nat_sum, pad_line, row_line, spaces, spec_height, spec_render,
    spec_spacing, spec_width, split_lines, strip_cr, heights_of, widths_of,
};
use std::io::Write;
use vstd::prelude::*;
use vstd::string::{StrSliceExecFns, StringExecFns};

verus! {

/// A node of the layout tree.
///
/// - `Row`: children placed side by side, with a uniform gap before, between
///   and after them (`settings`; `None` means a gap of zero).
/// - `Column`: children stacked vertically.
/// - `Single`: one rectangular block of pre-split text lines with an
///   alignment.
/// - `EmptyBlock`: a zero-width spacer that still occupies one line.
#[derive(Debug)]
pub enum CliElement {
    Row { inner: Vec<CliElement>, settings: Option<RowSettings> },
    Column { inner: Vec<CliElement> },
    Single { inner: Vec<String>, layout: Alignment },
    EmptyBlock,
}

/// The ghost view of an element tree.
pub open spec fn model_of(e: CliElement) -> ElemView
    decreases e,
{
    match e {
        CliElement::Row { inner, settings } => ElemView::Row {
            inner: models_of(inner@),
            spacing: spec_spacing(settings),
        },
        CliElement::Column { inner } => ElemView::Column { inner: models_of(inner@) },
        CliElement::Single { inner, layout } => ElemView::Single {
            lines: inner.deep_view(),
            layout,
        },
        CliElement::EmptyBlock => ElemView::EmptyBlock,
    }
}

/// The ghost views of a sequence of elements, in order.
pub open spec fn models_of(s: Seq<CliElement>) -> Seq<ElemView>
    decreases s,
{
    if s.len() == 0 {
        Seq::empty()
    } else {
        models_of(s.drop_last()).push(model_of(s.last()))
    }
}

impl View for CliElement {
    type V = ElemView;

    open spec fn view(&self) -> ElemView {
        model_of(*self)
    }
}

/// `models_of` maps a sequence of elements to their views pointwise.
pub proof fn lemma_models_of(s: Seq<CliElement>)
    ensures
        models_of(s).len() == s.len(),
        forall|i: int| 0 <= i < s.len() ==> models_of(s)[i] == model_of(s[i]),
    decreases s,
{
    if s.len() > 0 {
        lemma_models_of(s.drop_last());
    }
}

/// Relies on `strfmt::strfmt` with a `{content: <N}` or `{content: >N}`
/// template: it pads `content` with spaces (the default fill) up to `N`
/// characters, counted in chars, on the right for `<` and on the left for
/// `>`, and hands longer content back unchanged — the template carries no
/// precision, so nothing is truncated.  Both templates parse, and the map
/// supplies the one key they name, so `strfmt` returns `Ok`.
#[verifier::external_body]
fn pad_to_width(content: &String, width: usize, align: Alignment) -> (r: String)
    ensures
        r@ == pad_line(content@, width as nat, align),
{
    let formatalign = match align {
        Alignment::Left => format!("{{content: <{}}}", width),
        Alignment::Right => format!("{{content: >{}}}", width),
    };
    let vars = std::collections::HashMap::from([("content".to_string(), content.clone())]);
    strfmt::strfmt(&formatalign, &vars).unwrap()
}

/// Relies on `std::io::Stdout`: writes one line, followed by a newline, to
/// standard output.  The write is best-effort; a failure is not reported.
#[verifier::external_body]
fn write_line(line: &String) {
    let _ = writeln!(std::io::stdout(), "{}", line);
}

/// A column of `height` empty lines, ready to be extended left to right.
fn init_matrix(height: usize) -> (r: Vec<String>)
    ensures
        r@.len() == height,
        forall|j: int| 0 <= j < height ==> r@[j]@ == Seq::<char>::empty(),
{
    let mut output: Vec<String> = Vec::new();
    let mut i: usize = 0;
    while i < height
        invariant
            i <= height,
            output@.len() == i,
            forall|j: int| 0 <= j < i ==> output@[j]@ == Seq::<char>::empty(),
        decreases height - i,
    {
        output.push(String::new());
        i = i + 1;
    }
    output
}

/// A string of `width` spaces.
#[verifier::loop_isolation(false)]
fn init_string_with_width(width: usize) -> (r: String)
    ensures
        r@ == spaces(width as nat),
{
    let mut output = String::new();
    let mut i: usize = 0;
    while i < width
        invariant
            i <= width,
            output@ == spaces(i as nat),
        decreases width - i,
    {
        output.append(" ");
        proof {
            reveal_strlit(" ");
            assert(output@ =~= spaces((i + 1) as nat));
        }
        i = i + 1;
    }
    proof {
        assert(spaces(0) =~= Seq::<char>::empty());
    }
    output
}

impl Clone for CliElement {
    /// Cloning duplicates a tree by value: the copy has the same view, hence
    /// the same dimensions and the same rendering.
    #[verifier::loop_isolation(false)]
    fn clone(&self) -> (res: Self)
        ensures
            res@ == self@,
        decreases *self,
    {
        match self {
            CliElement::Row { inner, settings } => {
                let mut v: Vec<CliElement> = Vec::new();
                let mut i: usize = 0;
                while i < inner.len()
                    invariant
                        i <= inner@.len(),
                        v@.len() == i,
                        forall|k: int| 0 <= k < i ==> v@[k]@ == inner@[k]@,
                    decreases inner@.len() - i,
                {
                    v.push(inner[i].clone());
                    i = i + 1;
                }
                let res = CliElement::Row { inner: v, settings: *settings };
                proof {
                    lemma_models_of(v@);
                    lemma_models_of(inner@);
                    assert(models_of(v@) =~= models_of(inner@));
                }
                res
            },
            CliElement::Column { inner } => {
                let mut v: Vec<CliElement> = Vec::new();
                let mut i: usize = 0;
                while i < inner.len()
                    invariant
                        i <= inner@.len(),
                        v@.len() == i,
                        forall|k: int| 0 <= k < i ==> v@[k]@ == inner@[k]@,
                    decreases inner@.len() - i,
                {
                    v.push(inner[i].clone());
                    i = i + 1;
                }
                let res = CliElement::Column { inner: v };
                proof {
                    lemma_models_of(v@);
                    lemma_models_of(inner@);
                    assert(models_of(v@) =~= models_of(inner@));
                }
                res
            },
            CliElement::Single { inner, layout } => {
                let mut v: Vec<String> = Vec::new();
                let mut i: usize = 0;
                while i < inner.len()
                    invariant
                        i <= inner@.len(),
                        v@.len() == i,
                        forall|k: int| 0 <= k < i ==> v@[k] == inner@[k],
                    decreases inner@.len() - i,
                {
                    v.push(inner[i].clone());
                    i = i + 1;
                }
                let res = CliElement::Single { inner: v, layout: *layout };
                proof {
                    assert(v.deep_view() =~= inner.deep_view());
                }
                res
            },
            CliElement::EmptyBlock => CliElement::EmptyBlock,
        }
    }
}

/// Split a text into its lines: a line ends at each newline, a carriage
/// return immediately before a newline goes with the ending, and the last
/// line needs no newline.
#[verifier::loop_isolation(false)]
fn split_str_lines(s: &str) -> (r: Vec<String>)
    ensures
        r.deep_view() == split_lines(s@),
{
    let n = s.unicode_len();
    let mut r: Vec<String> = Vec::new();
    let mut pos: usize = 0;
    proof {
        assert(s@.skip(0) =~= s@);
        assert(r.deep_view() + split_lines(s@) =~~= split_lines(s@));
    }
    while pos < n
        invariant
            pos <= n,
            split_lines(s@) == r.deep_view() + split_lines(s@.skip(pos as int)),
        decreases n - pos,
    {
        let ghost suffix: Seq<char> = s@.skip(pos as int);
        let ghost prefix: Seq<Seq<char>> = r.deep_view();
        let mut i: usize = pos;
        while i < n && s.get_char(i) != '\n'
            invariant
                pos <= i <= n,
                forall|k: int| pos <= k < i ==> s@[k] != '\n',
            decreases n - i,
        {
            i = i + 1;
        }
        if i >= n {
            let line = s.substring_char(pos, n);
            r.push(line.to_owned());
            proof {
                assert forall|t: int| 0 <= t < suffix.len() implies suffix[t] != '\n' by {
                    assert(s@[pos + t] != '\n');
                }
                assert(!suffix.contains('\n'));
                assert(line@ =~= suffix);
                assert(split_lines(suffix) == seq![suffix]);
                assert(r.deep_view() =~~= prefix.push(suffix));
                assert(s@.skip(n as int).len() == 0);
                assert(split_lines(s@.skip(n as int)) == Seq::<Seq<char>>::empty());
                assert(prefix.push(suffix) + Seq::<Seq<char>>::empty() =~~= prefix + seq![suffix]);
            }
            pos = n;
        } else {
            let has_cr = i > pos && s.get_char(i - 1) == '\r';
            let line = if has_cr {
                s.substring_char(pos, i - 1)
            } else {
                s.substring_char(pos, i)
            };
            r.push(line.to_owned());
            proof {
                assert(suffix[i - pos as int] == '\n');
                assert(suffix.contains('\n'));
                assert forall|k: int| 0 <= k < i - pos as int implies suffix[k] != '\n' by {
                    assert(s@[pos + k] != '\n');
                }
                lemma_first_newline_at(suffix, i - pos as int);
                assert(suffix.take(i - pos as int) =~= s@.subrange(pos as int, i as int));
                if has_cr {
                    assert(s@.subrange(pos as int, i as int).last() == '\r');
                    assert(line@ =~= strip_cr(s@.subrange(pos as int, i as int)));
                } else {
                    if i > pos {
                        assert(s@.subrange(pos as int, i as int).last() == s@[i - 1]);
                        assert(s@[i - 1] != '\r');
                    }
                    assert(line@ =~= strip_cr(s@.subrange(pos as int, i as int)));
                }
                assert(suffix.skip(i - pos as int + 1) =~= s@.skip(i as int + 1));
                assert(split_lines(suffix) == seq![line@] + split_lines(s@.skip(i as int + 1)));
                assert(r.deep_view() =~~= prefix.push(line@));
                assert(prefix.push(line@) + split_lines(s@.skip(i as int + 1)) =~~= prefix + (seq![
                    line@,
                ] + split_lines(s@.skip(i as int + 1))));
            }
            pos = i + 1;
        }
    }
    proof {
        assert(s@.skip(pos as int).len() == 0);
        assert(split_lines(s@.skip(pos as int)) == Seq::<Seq<char>>::empty());
        assert(r.deep_view() + Seq::<Seq<char>>::empty() =~~= r.deep_view());
    }
    r
}

impl CliElement {
    /// The natural width of this element: the length of a `Single`'s longest
    /// line, the widest child of a `Column`, a `Row`'s children's widths plus
    /// its gaps, and 0 for an `EmptyBlock`.
    #[verifier::loop_isolation(false)]
    pub fn width(&self) -> (r: usize)
        requires
            spec_width(self@) <= usize::MAX,
        ensures
            r == spec_width(self@),
        decreases *self,
    {
        match self {
            CliElement::Row { inner, settings } => {
                let spacewidth: usize = match settings {
                    Some(s) => s.spacing,
                    None => 0,
                };
                let ghost ms: Seq<ElemView> = models_of(inner@);
                proof {
                    lemma_models_of(inner@);
                    lemma_dims_of(ms);
                    assert(widths_of(ms).take(0) =~= Seq::<nat>::empty());
                }
                let mut len: usize = spacewidth;
                let mut i: usize = 0;
                while i < inner.len()
                    invariant
                        i <= inner@.len(),
                        len == nat_sum(widths_of(ms).take(i as int)) + (i + 1) * spacewidth,
                    decreases inner@.len() - i,
                {
                    proof {
                        lemma_nat_sum_le(widths_of(ms), i as int);
                    }
                    let w = inner[i].width();
                    proof {
                        lemma_models_of(inner@);
                        lemma_dims_of(ms);
                        assert(w == widths_of(ms)[i as int]);
                        lemma_nat_sum_take_step(widths_of(ms), i as int);
                        lemma_nat_sum_take_le(widths_of(ms), i as int + 1);
                        assert((i + 2) * spacewidth <= (ms.len() + 1) * spacewidth)
                            by (nonlinear_arith)
                            requires
                                i + 2 <= ms.len() + 1,
                                spacewidth >= 0,
                        ;
                        assert((i + 1) * spacewidth + spacewidth == (i + 2) * spacewidth)
                            by (nonlinear_arith);
                        assert(len + w + spacewidth == nat_sum(widths_of(ms).take(i + 1)) + (i + 2)
                            * spacewidth);
                    }
                    len = len + w + spacewidth;
                    i = i + 1;
                }
                proof {
                    assert(widths_of(ms).take(ms.len() as int) =~= widths_of(ms));
                }
                len
            },
            CliElement::Column { inner } => {
                let ghost ms: Seq<ElemView> = models_of(inner@);
                proof {
                    lemma_models_of(inner@);
                    lemma_dims_of(ms);
                    assert(widths_of(ms).take(0) =~= Seq::<nat>::empty());
                }
                let mut len: usize = 0;
                let mut i: usize = 0;
                while i < inner.len()
                    invariant
                        i <= inner@.len(),
                        len == nat_max(widths_of(ms).take(i as int)),
                    decreases inner@.len() - i,
                {
                    proof {
                        lemma_nat_max_le(widths_of(ms), i as int);
                        lemma_nat_max_take_step(widths_of(ms), i as int);
                    }
                    let w = inner[i].width();
                    if w > len {
                        len = w;
                    }
                    i = i + 1;
                }
                proof {
                    assert(widths_of(ms).take(ms.len() as int) =~= widths_of(ms));
                }
                len
            },
            CliElement::Single { inner, .. } => {
                let ghost lines: Seq<Seq<char>> = inner.deep_view();
                proof {
                    assert(line_lens(lines).take(0) =~= Seq::<nat>::empty());
                }
                let mut len: usize = 0;
                let mut i: usize = 0;
                while i < inner.len()
                    invariant
                        i <= inner@.len(),
                        len == nat_max(line_lens(lines).take(i as int)),
                    decreases inner@.len() - i,
                {
                    proof {
                        lemma_nat_max_take_step(line_lens(lines), i as int);
                    }
                    let l = inner[i].as_str().unicode_len();
                    if l > len {
                        len = l;
                    }
                    i = i + 1;
                }
                proof {
                    assert(line_lens(lines).take(lines.len() as int) =~= line_lens(lines));
                }
                len
            },
            CliElement::EmptyBlock => 0,
        }
    }

    /// The natural height of this element: a `Single`'s line count, the sum
    /// of a `Column`'s children's heights, the tallest child of a `Row`, and
    /// 1 for an `EmptyBlock`.
    #[verifier::loop_isolation(false)]
    pub fn height(&self) -> (r: usize)
        requires
            spec_height(self@) <= usize::MAX,
        ensures
            r == spec_height(self@),
        decreases *self,
    {
        match self {
            CliElement::Row { inner, .. } => {
                let ghost ms: Seq<ElemView> = models_of(inner@);
                proof {
                    lemma_models_of(inner@);
                    lemma_dims_of(ms);
                    assert(heights_of(ms).take(0) =~= Seq::<nat>::empty());
                }
                let mut len: usize = 0;
                let mut i: usize = 0;
                while i < inner.len()
                    invariant
                        i <= inner@.len(),
                        len == nat_max(heights_of(ms).take(i as int)),
                    decreases inner@.len() - i,
                {
                    proof {
                        lemma_nat_max_le(heights_of(ms), i as int);
                        lemma_nat_max_take_step(heights_of(ms), i as int);
                    }
                    let h = inner[i].height();
                    if h > len {
                        len = h;
                    }
                    i = i + 1;
                }
                proof {
                    assert(heights_of(ms).take(ms.len() as int) =~= heights_of(ms));
                }
                len
            },
            CliElement::Column { inner } => {
                let ghost ms: Seq<ElemView> = models_of(inner@);
                proof {
                    lemma_models_of(inner@);
                    lemma_dims_of(ms);
                    assert(heights_of(ms).take(0) =~= Seq::<nat>::empty());
                }
                let mut len: usize = 0;
                let mut i: usize = 0;
                while i < inner.len()
                    invariant
                        i <= inner@.len(),
                        len == nat_sum(heights_of(ms).take(i as int)),
                    decreases inner@.len() - i,
                {
                    proof {
                        lemma_nat_sum_le(heights_of(ms), i as int);
                        lemma_nat_sum_take_step(heights_of(ms), i as int);
                        lemma_nat_sum_take_le(heights_of(ms), i as int + 1);
                    }
                    let h = inner[i].height();
                    len = len + h;
                    i = i + 1;
                }
                proof {
                    assert(heights_of(ms).take(ms.len() as int) =~= heights_of(ms));
                }
                len
            },
            CliElement::Single { inner, .. } => inner.len(),
            CliElement::EmptyBlock => 1,
        }
    }

    /// Render this element into `draw_width` columns: one string per output
    /// line, exactly as many lines as the element's natural height.  Leaves
    /// pad their text to `draw_width`; a column hands the same width down to
    /// every child; a row ignores it and renders each child at that child's
    /// own natural width, top-aligned, with the gap before, between and after
    /// the children.
    #[verifier::loop_isolation(false)]
    pub fn get_draw_map(&self, draw_width: usize) -> (r: Vec<String>)
        requires
            spec_width(self@) <= usize::MAX,
            spec_height(self@) <= usize::MAX,
        ensures
            r.deep_view() == spec_render(self@, draw_width as nat),
        decreases *self,
    {
        match self {
            CliElement::EmptyBlock => {
                let line = pad_to_width(&String::new(), draw_width, Alignment::Left);
                let mut output: Vec<String> = Vec::new();
                output.push(line);
                proof {
                    assert(pad_line(Seq::<char>::empty(), draw_width as nat, Alignment::Left)
                        =~= spaces(draw_width as nat));
                    assert(output.deep_view() =~~= spec_render(self@, draw_width as nat));
                }
                output
            },
            CliElement::Single { inner, layout } => {
                let ghost lines: Seq<Seq<char>> = inner.deep_view();
                let mut output: Vec<String> = Vec::new();
                let mut i: usize = 0;
                while i < inner.len()
                    invariant
                        i <= inner@.len(),
                        output@.len() == i,
                        forall|k: int|
                            0 <= k < i ==> output@[k]@ == pad_line(
                                lines[k],
                                draw_width as nat,
                                *layout,
                            ),
                    decreases inner@.len() - i,
                {
                    output.push(pad_to_width(&inner[i], draw_width, *layout));
                    i = i + 1;
                }
                proof {
                    assert(output.deep_view() =~~= spec_render(self@, draw_width as nat));
                }
                output
            },
            CliElement::Column { inner } => {
                let ghost ms: Seq<ElemView> = models_of(inner@);
                let ghost dw: nat = draw_width as nat;
                proof {
                    lemma_models_of(inner@);
                    lemma_dims_of(ms);
                    assert(ms.take(0) =~= Seq::<ElemView>::empty());
                }
                let mut output: Vec<String> = Vec::new();
                let mut i: usize = 0;
                while i < inner.len()
                    invariant
                        i <= inner@.len(),
                        output.deep_view() == concat_renders(ms.take(i as int), dw),
                    decreases inner@.len() - i,
                {
                    proof {
                        lemma_nat_max_le(widths_of(ms), i as int);
                        lemma_nat_sum_le(heights_of(ms), i as int);
                    }
                    let mut part = inner[i].get_draw_map(draw_width);
                    let ghost prev: Seq<Seq<char>> = output.deep_view();
                    let ghost pv: Seq<Seq<char>> = part.deep_view();
                    output.append(&mut part);
                    proof {
                        assert(output.deep_view() =~~= prev + pv);
                        lemma_concat_renders_take_step(ms, dw, i as int);
                    }
                    i = i + 1;
                }
                proof {
                    assert(ms.take(ms.len() as int) =~= ms);
                }
                output
            },
            CliElement::Row { inner, settings } => {
                let spacewidth: usize = match settings {
                    Some(s) => s.spacing,
                    None => 0,
                };
                let ghost ms: Seq<ElemView> = models_of(inner@);
                let ghost sp: nat = spacewidth as nat;
                proof {
                    lemma_models_of(inner@);
                    lemma_dims_of(ms);
                    assert(ms.take(0) =~= Seq::<ElemView>::empty());
                }
                let spacestring = init_string_with_width(spacewidth);
                let height = self.height();
                let mut adjust = init_matrix(height);
                let mut j: usize = 0;
                while j < height
                    invariant
                        j <= height,
                        adjust@.len() == height,
                        forall|t: int| 0 <= t < j ==> adjust@[t]@ == row_line(ms.take(0), sp, t),
                        forall|t: int| j <= t < height ==> adjust@[t]@ == Seq::<char>::empty(),
                    decreases height - j,
                {
                    adjust[j].append(spacestring.as_str());
                    proof {
                        assert(adjust@[j as int]@ =~= spaces(sp));
                    }
                    j = j + 1;
                }
                let mut k: usize = 0;
                while k < inner.len()
                    invariant
                        k <= inner@.len(),
                        adjust@.len() == height,
                        forall|t: int|
                            0 <= t < height ==> adjust@[t]@ == row_line(ms.take(k as int), sp, t),
                    decreases inner@.len() - k,
                {
                    proof {
                        lemma_models_of(inner@);
                        lemma_dims_of(ms);
                        lemma_nat_sum_le(widths_of(ms), k as int);
                        lemma_nat_max_le(heights_of(ms), k as int);
                    }
                    let inn = &inner[k];
                    let wk = inn.width();
                    let hk = inn.height();
                    let mut inn2 = inn.get_draw_map(wk);
                    proof {
                        lemma_render_len(ms[k as int], wk as nat);
                        assert(wk == spec_width(ms[k as int]));
                        assert(hk == spec_height(ms[k as int]));
                    }
                    while inn2.len() < height
                        invariant
                            wk == spec_width(ms[k as int]),
                            spec_height(ms[k as int]) <= inn2@.len() <= height,
                            forall|t: int|
                                0 <= t < inn2@.len() ==> inn2.deep_view()[t] == child_cell(
                                    ms[k as int],
                                    t,
                                ),
                        decreases height - inn2@.len(),
                    {
                        let ghost old_len: int = inn2@.len() as int;
                        let ghost prevdv: Seq<Seq<char>> = inn2.deep_view();
                        inn2.push(init_string_with_width(wk));
                        proof {
                            assert forall|t: int| 0 <= t < inn2@.len() implies inn2.deep_view()[t]
                                == child_cell(ms[k as int], t) by {
                                if t < old_len {
                                    assert(inn2.deep_view()[t] == prevdv[t]);
                                } else {
                                    assert(inn2.deep_view()[t] == spaces(wk as nat));
                                    assert(child_cell(ms[k as int], t) == spaces(
                                        spec_width(ms[k as int]),
                                    ));
                                }
                            }
                        }
                    }
                    let mut j2: usize = 0;
                    while j2 < height
                        invariant
                            j2 <= height,
                            adjust@.len() == height,
                            forall|t: int|
                                0 <= t < j2 ==> adjust@[t]@ == row_line(
                                    ms.take(k as int + 1),
                                    sp,
                                    t,
                                ),
                            forall|t: int|
                                j2 <= t < height ==> adjust@[t]@ == row_line(
                                    ms.take(k as int),
                                    sp,
                                    t,
                                ),
                        decreases height - j2,
                    {
                        proof {
                            assert(inn2.deep_view()[j2 as int] == child_cell(
                                ms[k as int],
                                j2 as int,
                            ));
                        }
                        let ghost prev: Seq<String> = adjust@;
                        adjust[j2].append(inn2[j2].as_str());
                        adjust[j2].append(spacestring.as_str());
                        proof {
                            lemma_row_line_take_step(ms, sp, j2 as int, k as int);
                            assert(adjust@[j2 as int]@ == prev[j2 as int]@ + inn2@[j2 as int]@
                                + spaces(sp));
                            assert(adjust@[j2 as int]@ == row_line(ms.take(k as int + 1), sp,
                            j2 as int));
                            assert(forall|t: int|
                                0 <= t < height && t != j2 ==> adjust@[t] == prev[t]);
                        }
                        j2 = j2 + 1;
                    }
                    k = k + 1;
                }
                proof {
                    lemma_models_of(inner@);
                    assert(sp == spec_spacing(*settings));
                    assert(ms.take(ms.len() as int) =~= ms);
                    assert(adjust@.len() == spec_height(self@));
                    assert forall|t: int| 0 <= t < adjust@.len() implies adjust.deep_view()[t]
                        == row_line(ms, sp, t) by {
                        assert(adjust@[t]@ == row_line(ms.take(ms.len() as int), sp, t));
                    }
                    assert(adjust.deep_view() =~~= spec_render(self@, draw_width as nat));
                }
                adjust
            },
        }
    }

    /// Render this element at its own natural width and print the lines to
    /// standard output, one per terminal line, in order.
    pub fn draw(&self)
        requires
            spec_width(self@) <= usize::MAX,
            spec_height(self@) <= usize::MAX,
    {
        let map = self.get_draw_map(self.width());
        let mut i: usize = 0;
        while i < map.len()
            invariant
                i <= map@.len(),
            decreases map@.len() - i,
        {
            write_line(&map[i]);
            i = i + 1;
        }
    }

    /// A leaf block holding the given text lines, one string per line.
    pub fn print_single(matrix: &[&str], layout: Alignment) -> (r: Self)
        ensures
            r@ == (ElemView::Single { lines: matrix.deep_view(), layout }),
    {
        let mut inner: Vec<String> = Vec::new();
        let mut i: usize = 0;
        while i < matrix.len()
            invariant
                i <= matrix@.len(),
                inner@.len() == i,
                forall|k: int| 0 <= k < i ==> inner@[k]@ == matrix@[k]@,
            decreases matrix@.len() - i,
        {
            let mat: &&str = vstd::slice::slice_index_get(matrix, i);
            inner.push((*mat).to_owned());
            i = i + 1;
        }
        let r = CliElement::Single { inner, layout };
        proof {
            assert(r@ matches ElemView::Single { lines, layout: l } && lines
                =~~= matrix.deep_view() && l == layout);
        }
        r
    }

    /// A leaf block holding the lines of the given text, split as
    /// [`crate::model::split_lines`] describes.
    pub fn print_single_from_str(matrix: &str, layout: Alignment) -> (r: Self)
        ensures
            r@ == (ElemView::Single { lines: split_lines(matrix@), layout }),
    {
        let inner = split_str_lines(matrix);
        let r = CliElement::Single { inner, layout };
        proof {
            assert(r@ matches ElemView::Single { lines, layout: l } && lines == split_lines(
                matrix@,
            ) && l == layout);
        }
        r
    }

    /// The one-line-tall, zero-wide spacer.
    pub fn print_emptyblock() -> (r: Self)
        ensures
            r@ == ElemView::EmptyBlock,
    {
        CliElement::EmptyBlock
    }

    /// A column stacking the given elements top to bottom.
    pub fn print_column(elements: Vec<CliElement>) -> (r: Self)
        ensures
            r@ == (ElemView::Column { inner: models_of(elements@) }),
    {
        CliElement::Column { inner: elements }
    }

    /// A row placing the given elements side by side, with the gap the
    /// settings ask for (no settings: no gap).
    pub fn print_row(elements: Vec<CliElement>, settings: Option<RowSettings>) -> (r: Self)
        ensures
            r@ == (ElemView::Row {
                inner: models_of(elements@),
                spacing: spec_spacing(settings),
            }),
    {
        CliElement::Row { inner: elements, settings }
    }
}

} // verus!

