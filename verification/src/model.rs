//! The mathematical model of a layout tree.
//!
//! [`ElemView`] is the ghost abstraction of an element: text is a sequence of
//! character sequences, children are sequences of views, and a row's optional
//! settings collapse to its effective gap width.  The three recursive
//! algorithms — natural width, natural height and rendering — are defined
//! here as spec functions, and the executable code in [`crate::elements`] is
//! proved to agree with them.

use crate::layout::{Alignment, RowSettings};
use vstd::prelude::*;

verus! {

/// The gap width that a row's optional settings ask for: absent settings
/// mean a gap of zero.
pub open spec fn spec_spacing(settings: Option<RowSettings>) -> nat {
    match settings {
        Some(s) => s.spacing as nat,
        None => 0,
    }
}

/// Ghost view of one node of a layout tree.
#[verifier::ext_equal]
pub enum ElemView {
    Row { inner: Seq<ElemView>, spacing: nat },
    Column { inner: Seq<ElemView> },
    Single { lines: Seq<Seq<char>>, layout: Alignment },
    EmptyBlock,
}

/// A run of `n` space characters.
pub open spec fn spaces(n: nat) -> Seq<char> {
    Seq::new(n, |i: int| ' ')
}

/// One text line padded with spaces to `width` characters: padding goes to
/// the right of the text for `Left` alignment and to its left for `Right`.
/// A line that already has `width` characters or more is returned unchanged —
/// padding never truncates.
pub open spec fn pad_line(line: Seq<char>, width: nat, align: Alignment) -> Seq<char> {
    if line.len() >= width {
        line
    } else {
        match align {
            Alignment::Left => line + spaces((width - line.len()) as nat),
            Alignment::Right => spaces((width - line.len()) as nat) + line,
        }
    }
}

/// Sum of a sequence of sizes.
pub open spec fn nat_sum(s: Seq<nat>) -> nat
    decreases s.len(),
{
    if s.len() == 0 {
        0
    } else {
        nat_sum(s.drop_last()) + s.last()
    }
}

/// Largest of a sequence of sizes (0 if there are none).
pub open spec fn nat_max(s: Seq<nat>) -> nat
    decreases s.len(),
{
    if s.len() == 0 {
        0
    } else if s.last() > nat_max(s.drop_last()) {
        s.last()
    } else {
        nat_max(s.drop_last())
    }
}

/// The lengths of a text block's lines, in order.
pub open spec fn line_lens(lines: Seq<Seq<char>>) -> Seq<nat> {
    Seq::new(lines.len(), |i: int| lines[i].len())
}

/// Length of the longest line of a text block (0 if there are none).
pub open spec fn max_line_len(lines: Seq<Seq<char>>) -> nat {
    nat_max(line_lens(lines))
}

/// The natural width of an element: the number of character columns it
/// occupies when rendered at its own width.
///
/// - `Single`: the length of its longest line;
/// - `Column`: the width of its widest child;
/// - `Row`: the sum of the children's widths plus one gap more than there are
///   children, since the gap is also drawn at both outer edges;
/// - `EmptyBlock`: 0.
pub open spec fn spec_width(v: ElemView) -> nat
    decreases v,
{
    match v {
        ElemView::Row { inner, spacing } => nat_sum(widths_of(inner)) + (inner.len() + 1)
            * spacing,
        ElemView::Column { inner } => nat_max(widths_of(inner)),
        ElemView::Single { lines, .. } => max_line_len(lines),
        ElemView::EmptyBlock => 0,
    }
}

/// The natural widths of a sequence of elements, in order.
pub open spec fn widths_of(s: Seq<ElemView>) -> Seq<nat>
    decreases s,
{
    if s.len() == 0 {
        Seq::empty()
    } else {
        widths_of(s.drop_last()).push(spec_width(s.last()))
    }
}

/// The natural height of an element: the number of lines it renders to.
///
/// - `Single`: its number of lines;
/// - `Column`: the sum of the children's heights;
/// - `Row`: the height of its tallest child;
/// - `EmptyBlock`: 1 — an empty block is zero wide but still occupies a line.
pub open spec fn spec_height(v: ElemView) -> nat
    decreases v,
{
    match v {
        ElemView::Row { inner, .. } => nat_max(heights_of(inner)),
        ElemView::Column { inner } => nat_sum(heights_of(inner)),
        ElemView::Single { lines, .. } => lines.len(),
        ElemView::EmptyBlock => 1,
    }
}

/// The natural heights of a sequence of elements, in order.
pub open spec fn heights_of(s: Seq<ElemView>) -> Seq<nat>
    decreases s,
{
    if s.len() == 0 {
        Seq::empty()
    } else {
        heights_of(s.drop_last()).push(spec_height(s.last()))
    }
}

/// `widths_of` and `heights_of` list the children's dimensions pointwise.
pub proof fn lemma_dims_of(s: Seq<ElemView>)
    ensures
        widths_of(s).len() == s.len(),
        heights_of(s).len() == s.len(),
        forall|i: int| 0 <= i < s.len() ==> widths_of(s)[i] == spec_width(s[i]),
        forall|i: int| 0 <= i < s.len() ==> heights_of(s)[i] == spec_height(s[i]),
    decreases s,
{
    if s.len() > 0 {
        lemma_dims_of(s.drop_last());
    }
}

/// The lines an element renders to when asked to draw into `width` columns.
///
/// - `EmptyBlock`: one line of `width` spaces;
/// - `Single`: each text line padded to `width` per the block's alignment;
/// - `Column`: the children's renderings at the same `width`, concatenated
///   top to bottom;
/// - `Row`: ignores `width`; every child is rendered at its own natural
///   width, topped up with blank lines to the row's height, and the row's
///   lines are the children's lines joined with the gap before, between and
///   after every child.
pub open spec fn spec_render(v: ElemView, width: nat) -> Seq<Seq<char>>
    decreases v, 2int,
{
    match v {
        ElemView::Row { inner, spacing } => Seq::new(
            spec_height(v),
            |j: int| row_line(inner, spacing, j),
        ),
        ElemView::Column { inner } => concat_renders(inner, width),
        ElemView::Single { lines, layout } => Seq::new(
            lines.len(),
            |i: int| pad_line(lines[i], width, layout),
        ),
        ElemView::EmptyBlock => seq![spaces(width)],
    }
}

/// The renderings of a column's children at a common width, concatenated.
pub open spec fn concat_renders(s: Seq<ElemView>, width: nat) -> Seq<Seq<char>>
    decreases s, 1int,
{
    if s.len() == 0 {
        Seq::empty()
    } else {
        concat_renders(s.drop_last(), width) + spec_render(s.last(), width)
    }
}

/// Line `j` of a row with children `s` and gap `spacing`: the gap, then each
/// child's line `j` followed by the gap again, in child order.
pub open spec fn row_line(s: Seq<ElemView>, spacing: nat, j: int) -> Seq<char>
    decreases s, 1int,
{
    if s.len() == 0 {
        spaces(spacing)
    } else {
        row_line(s.drop_last(), spacing, j) + child_cell(s.last(), j) + spaces(spacing)
    }
}

/// Line `j` of a row child rendered at its own natural width: a line of its
/// rendering while there is one, a blank line of its width below its height.
/// Shorter children are top-aligned within their row.
pub open spec fn child_cell(v: ElemView, j: int) -> Seq<char>
    decreases v, 3int,
{
    if 0 <= j < spec_height(v) {
        spec_render(v, spec_width(v))[j]
    } else {
        spaces(spec_width(v))
    }
}

/// Index of the first newline of a text (meaningful when the text contains
/// one).
pub open spec fn first_newline(s: Seq<char>) -> int
    decreases s.len(),
{
    if s.len() == 0 {
        0
    } else if s[0] == '\n' {
        0
    } else {
        1 + first_newline(s.skip(1))
    }
}

/// A line with one trailing carriage return stripped: the return belongs to
/// the line ending it precedes.
pub open spec fn strip_cr(l: Seq<char>) -> Seq<char> {
    if l.len() > 0 && l.last() == '\r' {
        l.drop_last()
    } else {
        l
    }
}

/// The lines of a text: a line ends at each newline, and a carriage return
/// immediately before a newline goes with the ending.  The last line needs
/// no newline, so a trailing newline adds no empty line, and an empty text
/// has no lines at all.
pub open spec fn split_lines(s: Seq<char>) -> Seq<Seq<char>>
    decreases s.len(),
    via split_lines_decreases
{
    if s.len() == 0 {
        Seq::empty()
    } else if !s.contains('\n') {
        seq![s]
    } else {
        seq![strip_cr(s.take(first_newline(s)))] + split_lines(s.skip(first_newline(s) + 1))
    }
}

#[via_fn]
proof fn split_lines_decreases(s: Seq<char>) {
    if s.len() != 0 && s.contains('\n') {
        lemma_first_newline(s);
    }
}

/// A text that contains a newline has a first one: it is a newline, and
/// nothing before it is.
pub proof fn lemma_first_newline(s: Seq<char>)
    requires
        s.contains('\n'),
    ensures
        0 <= first_newline(s) < s.len(),
        s[first_newline(s)] == '\n',
        forall|k: int| 0 <= k < first_newline(s) ==> s[k] != '\n',
    decreases s.len(),
{
    if s[0] != '\n' {
        let j = choose|j: int| 0 <= j < s.len() && s[j] == '\n';
        assert(s.skip(1)[j - 1] == '\n');
        assert(s.skip(1).contains('\n'));
        lemma_first_newline(s.skip(1));
        assert forall|k: int| 0 <= k < first_newline(s) implies s[k] != '\n' by {
            if k >= 1 {
                assert(s.skip(1)[k - 1] != '\n');
            }
        }
    }
}

/// A position that holds a newline with none before it is the first newline.
pub proof fn lemma_first_newline_at(s: Seq<char>, j: int)
    requires
        0 <= j < s.len(),
        s[j] == '\n',
        forall|k: int| 0 <= k < j ==> s[k] != '\n',
    ensures
        first_newline(s) == j,
    decreases j,
{
    if j > 0 {
        assert(s.skip(1)[j - 1] == '\n');
        assert forall|k: int| 0 <= k < j - 1 implies s.skip(1)[k] != '\n' by {
            assert(s[k + 1] != '\n');
        }
        lemma_first_newline_at(s.skip(1), j - 1);
    }
}

/// Rendering an element produces exactly its natural height in lines,
/// whatever draw width is asked for.
pub proof fn lemma_render_len(v: ElemView, width: nat)
    ensures
        spec_render(v, width).len() == spec_height(v),
    decreases v, 1int,
{
    match v {
        ElemView::Column { inner } => {
            lemma_concat_renders_len(inner, width);
        },
        _ => {
        },
    }
}

/// A column's rendering stacks up exactly its children's heights.
pub proof fn lemma_concat_renders_len(s: Seq<ElemView>, width: nat)
    ensures
        concat_renders(s, width).len() == nat_sum(heights_of(s)),
    decreases s, 0int,
{
    if s.len() > 0 {
        lemma_concat_renders_len(s.drop_last(), width);
        lemma_render_len(s.last(), width);
        assert(heights_of(s).drop_last() =~= heights_of(s.drop_last()));
    }
}

/// Concatenating one more child's rendering extends a column's lines by
/// exactly that child's rendering.
pub proof fn lemma_concat_renders_take_step(s: Seq<ElemView>, width: nat, i: int)
    requires
        0 <= i < s.len(),
    ensures
        concat_renders(s.take(i + 1), width) == concat_renders(s.take(i), width) + spec_render(
            s[i],
            width,
        ),
{
    assert(s.take(i + 1).drop_last() =~= s.take(i));
}

/// Joining one more child onto a row line appends that child's cell and one
/// more gap.
pub proof fn lemma_row_line_take_step(s: Seq<ElemView>, spacing: nat, j: int, i: int)
    requires
        0 <= i < s.len(),
    ensures
        row_line(s.take(i + 1), spacing, j) == row_line(s.take(i), spacing, j) + child_cell(
            s[i],
            j,
        ) + spaces(spacing),
{
    assert(s.take(i + 1).drop_last() =~= s.take(i));
}

/// Every entry of a sequence of sizes is bounded by its sum.
pub proof fn lemma_nat_sum_le(s: Seq<nat>, i: int)
    requires
        0 <= i < s.len(),
    ensures
        s[i] <= nat_sum(s),
    decreases s.len(),
{
    if i < s.len() - 1 {
        lemma_nat_sum_le(s.drop_last(), i);
    }
}

/// Summing one entry more extends the sum of a prefix by that entry.
pub proof fn lemma_nat_sum_take_step(s: Seq<nat>, i: int)
    requires
        0 <= i < s.len(),
    ensures
        nat_sum(s.take(i + 1)) == nat_sum(s.take(i)) + s[i],
{
    assert(s.take(i + 1).drop_last() =~= s.take(i));
}

/// The sum of a prefix is bounded by the sum of the whole sequence.
pub proof fn lemma_nat_sum_take_le(s: Seq<nat>, i: int)
    requires
        0 <= i <= s.len(),
    ensures
        nat_sum(s.take(i)) <= nat_sum(s),
    decreases s.len() - i,
{
    if i == s.len() {
        assert(s.take(i) =~= s);
    } else {
        lemma_nat_sum_take_step(s, i);
        lemma_nat_sum_take_le(s, i + 1);
    }
}

/// Every entry of a sequence of sizes is bounded by its maximum.
pub proof fn lemma_nat_max_le(s: Seq<nat>, i: int)
    requires
        0 <= i < s.len(),
    ensures
        s[i] <= nat_max(s),
    decreases s.len(),
{
    if i < s.len() - 1 {
        lemma_nat_max_le(s.drop_last(), i);
    }
}

/// Taking one entry more keeps the running maximum, or raises it to the new
/// entry.
pub proof fn lemma_nat_max_take_step(s: Seq<nat>, i: int)
    requires
        0 <= i < s.len(),
    ensures
        nat_max(s.take(i + 1)) == (if s[i] > nat_max(s.take(i)) {
            s[i]
        } else {
            nat_max(s.take(i))
        }),
{
    assert(s.take(i + 1).drop_last() =~= s.take(i));
}

/// A nonempty sequence of sizes attains its maximum.
pub proof fn lemma_nat_max_achieved(s: Seq<nat>)
    requires
        s.len() > 0,
    ensures
        exists|i: int| 0 <= i < s.len() && nat_max(s) == s[i],
    decreases s.len(),
{
    if s.len() == 1 {
        assert(nat_max(s) == s[0]);
    } else if s.last() > nat_max(s.drop_last()) {
        assert(nat_max(s) == s[s.len() - 1]);
    } else {
        lemma_nat_max_achieved(s.drop_last());
        let i = choose|i: int| 0 <= i < s.drop_last().len() && nat_max(s.drop_last())
            == s.drop_last()[i];
        assert(nat_max(s) == s[i]);
    }
}

/// A text block is as tall as its number of lines and as wide as its longest
/// line: every line fits in its width, a nonempty block attains it on some
/// line, and an empty block has width 0.
pub proof fn law_single_dims(lines: Seq<Seq<char>>, layout: Alignment)
    ensures
        spec_height(ElemView::Single { lines, layout }) == lines.len(),
        spec_width(ElemView::Single { lines, layout }) == max_line_len(lines),
        forall|i: int| 0 <= i < lines.len() ==> #[trigger] lines[i].len() <= max_line_len(lines),
        lines.len() == 0 ==> max_line_len(lines) == 0,
        lines.len() > 0 ==> exists|i: int|
            0 <= i < lines.len() && max_line_len(lines) == #[trigger] lines[i].len(),
{
    assert forall|i: int| 0 <= i < lines.len() implies #[trigger] lines[i].len() <= max_line_len(
        lines,
    ) by {
        lemma_nat_max_le(line_lens(lines), i);
    }
    if lines.len() > 0 {
        lemma_nat_max_achieved(line_lens(lines));
        let i = choose|i: int|
            0 <= i < line_lens(lines).len() && nat_max(line_lens(lines)) == line_lens(lines)[i];
        assert(max_line_len(lines) == lines[i].len());
    }
}

/// A column is as tall as its children together and as wide as its widest
/// child: every child fits in its width, heights sum up, and a column
/// without children is 0 by 0.
pub proof fn law_column_dims(children: Seq<ElemView>)
    ensures
        spec_height(ElemView::Column { inner: children }) == nat_sum(heights_of(children)),
        spec_width(ElemView::Column { inner: children }) == nat_max(widths_of(children)),
        forall|i: int|
            0 <= i < children.len() ==> #[trigger] spec_width(children[i]) <= spec_width(
                ElemView::Column { inner: children },
            ),
        forall|i: int|
            0 <= i < children.len() ==> #[trigger] spec_height(children[i]) <= spec_height(
                ElemView::Column { inner: children },
            ),
        children.len() == 0 ==> spec_width(ElemView::Column { inner: children }) == 0
            && spec_height(ElemView::Column { inner: children }) == 0,
{
    lemma_dims_of(children);
    assert forall|i: int| 0 <= i < children.len() implies #[trigger] spec_width(children[i])
        <= spec_width(ElemView::Column { inner: children }) by {
        lemma_nat_max_le(widths_of(children), i);
    }
    assert forall|i: int| 0 <= i < children.len() implies #[trigger] spec_height(children[i])
        <= spec_height(ElemView::Column { inner: children }) by {
        lemma_nat_sum_le(heights_of(children), i);
    }
}

/// A row is as tall as its tallest child and as wide as its children
/// together plus one gap more than it has children: every child fits in its
/// height, widths sum up gap by gap, and a row without children is one gap
/// wide and 0 tall.
pub proof fn law_row_dims(children: Seq<ElemView>, spacing: nat)
    ensures
        spec_height(ElemView::Row { inner: children, spacing }) == nat_max(heights_of(children)),
        spec_width(ElemView::Row { inner: children, spacing }) == nat_sum(widths_of(children)) + (
        children.len() + 1) * spacing,
        forall|i: int|
            0 <= i < children.len() ==> #[trigger] spec_height(children[i]) <= spec_height(
                ElemView::Row { inner: children, spacing },
            ),
        forall|i: int|
            0 <= i < children.len() ==> #[trigger] spec_width(children[i]) <= spec_width(
                ElemView::Row { inner: children, spacing },
            ),
        children.len() == 0 ==> spec_height(ElemView::Row { inner: children, spacing }) == 0,
{
    lemma_dims_of(children);
    assert forall|i: int| 0 <= i < children.len() implies #[trigger] spec_height(children[i])
        <= spec_height(ElemView::Row { inner: children, spacing }) by {
        lemma_nat_max_le(heights_of(children), i);
    }
    assert forall|i: int| 0 <= i < children.len() implies #[trigger] spec_width(children[i])
        <= spec_width(ElemView::Row { inner: children, spacing }) by {
        lemma_nat_sum_le(widths_of(children), i);
    }
}

/// An empty block is always 0 wide and exactly one line tall.
pub proof fn law_empty_dims()
    ensures
        spec_width(ElemView::EmptyBlock) == 0,
        spec_height(ElemView::EmptyBlock) == 1,
{
}

/// Rendering is deterministic: any two renderings of the same tree at the
/// same draw width are identical, line for line.
pub proof fn law_render_deterministic(
    v: ElemView,
    width: nat,
    r1: Seq<Seq<char>>,
    r2: Seq<Seq<char>>,
)
    requires
        r1 == spec_render(v, width),
        r2 == spec_render(v, width),
    ensures
        r1 == r2,
{
}

} // verus!
