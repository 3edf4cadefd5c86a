//! The plan by which the lines of a paragraph are laid out: which of them are drawn, from
//! which character, with which objects.

use vstd::prelude::*;

use crate::composed::run_units;
use crate::composed::runs_text;
use crate::composed::runs_unit_count;
use crate::composed::runs_units;
use crate::composed::ComposedLine;
use crate::composed::ComposedParagraph;
use crate::composed::ComposedTextRun;
use crate::frame::assigned_objects;
use crate::frame::assignment_view;
use crate::frame::belongs_to_other_column;
use crate::frame::char_offset_before;
use crate::frame::is_line_of_other_column;
use crate::frame::lemma_lines_chars_monotone;
use crate::frame::line_char_count;
use crate::frame::line_chars;
use crate::frame::line_objects;
use crate::frame::line_width_objects;
use crate::frame::lines_chars;
use crate::frame::objects_in_width;
use crate::frame::objects_on_line;
use crate::frame::stored_line_objects;
use crate::frame::WIDTH_TOLERANCE_HU;
use crate::line_geometry::ends_paragraph;
use crate::line_geometry::is_last_line_of_para;
use crate::line_geometry::rows_behind_are_stored;
use crate::line_plan::PlannedLine;
use crate::model::Paragraph;
use crate::seqs::indices;
use crate::seqs::lemma_filter_start;
use crate::seqs::lemma_filter_step;

verus! {

/// Which lines of a paragraph are laid out.
#[derive(Clone, Copy, Debug, PartialEq, Eq)]
pub struct FrameRange {
    pub start_line: usize,
    /// The line behind the last one; lines that are not there do not count.
    pub end_line: usize,
    /// The width of the column, where only lines of that width belong to it.
    pub column_width: Option<i32>,
    /// The rows of the frame are the stored rows themselves.
    pub physical_frame_rows: bool,
}

/// A line to lay out.
pub struct FrameLine<W> {
    pub at: PlannedLine,
    /// The objects that its runs may draw.
    pub candidates: Vec<(usize, W, usize)>,
    /// The objects that are drawn on it.
    pub objects: Vec<(usize, W, usize)>,
    /// The objects that count toward its width.
    pub width_objects: Vec<(usize, W, usize)>,
}

/// The lines to lay out.
pub struct FramePlan<W> {
    pub lines: Vec<FrameLine<W>>,
    /// The document's character behind the range.
    pub char_end: usize,
}

impl FrameRange {
    /// The line behind the last one that is there.
    pub open spec fn end(self, comp: ComposedParagraph) -> int {
        if self.end_line <= comp.lines@.len() {
            self.end_line as int
        } else {
            comp.lines@.len() as int
        }
    }

    /// The line is in the range.
    pub open spec fn covers(self, comp: ComposedParagraph, i: int) -> bool {
        self.start_line <= i < self.end(comp)
    }

    /// The line is in the range and belongs to the column.
    pub open spec fn draws(self, comp: ComposedParagraph, i: int) -> bool {
        self.covers(comp, i) && !belongs_to_other_column(
            comp.lines@[i].segment_width,
            self.column_width,
        )
    }
}

/// Whether a line is drawn.
pub open spec fn is_drawn(comp: ComposedParagraph, range: FrameRange) -> spec_fn(usize) -> bool {
    |i: usize| range.draws(comp, i as int)
}

/// The lines that are drawn, in order.
pub open spec fn drawn_lines(comp: ComposedParagraph, range: FrameRange) -> Seq<usize> {
    indices(comp.lines@.len()).filter(is_drawn(comp, range))
}

/// The document's characters that a line counts: where it is drawn, the places that its
/// runs take up; else the characters of its text. A forced break counts as one.
pub open spec fn counted_chars(comp: ComposedParagraph, range: FrameRange, i: int) -> int {
    if range.draws(comp, i) {
        runs_units(comp.lines@[i].runs@) + if comp.lines@[i].has_line_break {
            1int
        } else {
            0int
        }
    } else {
        line_chars(comp.lines@[i])
    }
}

/// The document's character that line `i` starts with.
pub open spec fn char_offset_at(comp: ComposedParagraph, range: FrameRange, i: int) -> int
    decreases i,
{
    if i <= 0 {
        0
    } else {
        char_offset_at(comp, range, i - 1) + counted_chars(comp, range, i - 1)
    }
}

/// The objects that the runs of line `i` may draw: those of the stored assignment, where
/// there is one.
pub open spec fn candidates_of<W>(
    offsets: Seq<(usize, W, usize)>,
    assignment: Option<Seq<(usize, usize)>>,
    i: usize,
) -> Seq<(usize, W, usize)> {
    match assignment {
        Some(a) => assigned_objects(offsets, a, i),
        None => offsets,
    }
}

impl<W> FrameLine<W> {
    /// This is how line `i` is laid out.
    pub open spec fn lays_out(
        self,
        comp: ComposedParagraph,
        para: Option<&Paragraph>,
        offsets: Seq<(usize, W, usize)>,
        assignment: Option<Seq<(usize, usize)>>,
        range: FrameRange,
        i: usize,
    ) -> bool {
        &&& self.at == PlannedLine {
            line_idx: i,
            start_line: range.start_line,
            is_last_line_of_para: ends_paragraph(
                comp,
                para,
                range.physical_frame_rows,
                i as int,
                range.end(comp),
            ),
            has_stored_assignment: assignment is Some,
            char_offset: char_offset_at(comp, range, i as int) as usize,
        }
        &&& self.candidates@ == candidates_of(offsets, assignment, i)
        &&& self.objects@ == objects_on_line(comp, offsets, assignment, i)
        &&& self.width_objects@ == objects_in_width(comp, offsets, assignment, i)
    }
}

/// The characters before the range count as the text that they are.
proof fn lemma_offset_before_range(comp: ComposedParagraph, range: FrameRange, i: int)
    requires
        0 <= i <= comp.lines@.len(),
        i <= range.start_line,
    ensures
        char_offset_at(comp, range, i) == lines_chars(comp.lines@.take(i)),
    decreases i,
{
    if i > 0 {
        lemma_offset_before_range(comp, range, i - 1);
        assert(comp.lines@.take(i).drop_last() == comp.lines@.take(i - 1));
    } else {
        assert(comp.lines@.take(0).len() == 0);
    }
}

/// A later line does not start with an earlier character.
proof fn lemma_offsets_ascend(comp: ComposedParagraph, range: FrameRange, i: int, j: int)
    requires
        0 <= i <= j <= comp.lines@.len(),
    ensures
        0 <= char_offset_at(comp, range, i) <= char_offset_at(comp, range, j),
    decreases j,
{
    if i < j {
        lemma_offsets_ascend(comp, range, i, j - 1);
    } else if j > 0 {
        lemma_offsets_ascend(comp, range, i - 1, j - 1);
    }
}

/// Plans which lines of a paragraph are drawn.
pub fn frame_plan<W: Copy>(
    comp: &ComposedParagraph,
    para: Option<&Paragraph>,
    offsets: &[(usize, W, usize)],
    assignment: Option<&[(usize, usize)]>,
    range: FrameRange,
) -> (plan: FramePlan<W>)
    requires
        comp.fits(),
        lines_chars(comp.lines@) <= usize::MAX,
        char_offset_at(*comp, range, comp.lines@.len() as int) <= usize::MAX,
        forall|i: int|
            range.covers(*comp, i) ==> #[trigger] rows_behind_are_stored(
                *comp,
                para,
                range.physical_frame_rows,
                i,
                range.end(*comp),
            ),
    ensures
        plan.lines@.len() == drawn_lines(*comp, range).len(),
        forall|k: int|
            0 <= k < plan.lines@.len() ==> (#[trigger] plan.lines@[k]).lays_out(
                *comp,
                para,
                offsets@,
                assignment_view(assignment),
                range,
                drawn_lines(*comp, range)[k],
            ),
        plan.char_end == char_offset_at(
            *comp,
            range,
            if range.start_line <= range.end(*comp) {
                range.end(*comp)
            } else if range.start_line <= comp.lines@.len() {
                range.start_line as int
            } else {
                comp.lines@.len() as int
            },
        ),
{
    let count: usize = comp.lines.len();
    let mut end: usize = range.end_line;
    if count < end {
        end = count;
    }
    let mut first: usize = range.start_line;
    if count < first {
        first = count;
    }
    let ghost all = indices(comp.lines@.len());
    let ghost p = is_drawn(*comp, range);
    let mut lines: Vec<FrameLine<W>> = Vec::new();
    let mut char_offset: usize = char_offset_before(comp, range.start_line);
    proof {
        lemma_offset_before_range(*comp, range, first as int);
        lemma_filter_start(all, p);
        lemma_nothing_drawn_before(*comp, range, first as int);
    }
    let mut i: usize = first;
    while i < end
        invariant
            comp.fits(),
            lines_chars(comp.lines@) <= usize::MAX,
            char_offset_at(*comp, range, comp.lines@.len() as int) <= usize::MAX,
            forall|i: int|
                range.covers(*comp, i) ==> #[trigger] rows_behind_are_stored(
                    *comp,
                    para,
                    range.physical_frame_rows,
                    i,
                    range.end(*comp),
                ),
            count == comp.lines@.len(),
            end == range.end(*comp),
            first <= i <= count,
            first <= end ==> i <= end,
            first > end ==> i == first,
            first < end ==> first == range.start_line,
            all == indices(comp.lines@.len()),
            p == is_drawn(*comp, range),
            char_offset == char_offset_at(*comp, range, i as int),
            lines@.len() == all.take(i as int).filter(p).len(),
            forall|k: int|
                0 <= k < lines@.len() ==> (#[trigger] lines@[k]).lays_out(
                    *comp,
                    para,
                    offsets@,
                    assignment_view(assignment),
                    range,
                    all.take(i as int).filter(p)[k],
                ),
        decreases end - i,
    {
        let line = &comp.lines[i];
        let ghost before = all.take(i as int).filter(p);
        proof {
            lemma_filter_step(all, p, i as int);
            lemma_offsets_ascend(*comp, range, i + 1, comp.lines@.len() as int);
            assert(range.covers(*comp, i as int));
            assert(rows_behind_are_stored(
                *comp,
                para,
                range.physical_frame_rows,
                i as int,
                range.end(*comp),
            ));
        }
        if is_line_of_other_column(line.segment_width, range.column_width) {
            proof {
                lemma_lines_chars_monotone(comp.lines@, i + 1);
                lemma_lines_chars_monotone(comp.lines@, i as int);
                assert(comp.lines@.take(i + 1).drop_last() == comp.lines@.take(i as int));
            }
            char_offset += line_char_count(line);
        } else {
            let candidates = match assignment {
                Some(a) => stored_line_objects(offsets, a, i),
                None => copied(offsets),
            };
            let entry = FrameLine {
                at: PlannedLine {
                    line_idx: i,
                    start_line: range.start_line,
                    is_last_line_of_para: is_last_line_of_para(
                        comp,
                        para,
                        range.physical_frame_rows,
                        i,
                        end,
                    ),
                    has_stored_assignment: assignment.is_some(),
                    char_offset,
                },
                candidates,
                objects: line_objects(comp, offsets, assignment, i),
                width_objects: line_width_objects(comp, offsets, assignment, i),
            };
            lines.push(entry);
            let units: usize = runs_unit_count(line.runs.as_slice());
            char_offset += units;
            if line.has_line_break {
                char_offset += 1;
            }
            assert(all.take(i + 1).filter(p) == before.push(i));
        }
        i += 1;
    }
    proof {
        lemma_nothing_drawn_behind(*comp, range, i as int);
    }
    FramePlan { lines, char_end: char_offset }
}

/// A copy of the objects.
fn copied<W: Copy>(offsets: &[(usize, W, usize)]) -> (r: Vec<(usize, W, usize)>)
    ensures
        r@ == offsets@,
{
    let mut r: Vec<(usize, W, usize)> = Vec::new();
    for i in 0..offsets.len()
        invariant
            r@ == offsets@.take(i as int),
    {
        r.push(offsets[i]);
    }
    r
}

proof fn lemma_nothing_drawn_before(comp: ComposedParagraph, range: FrameRange, i: int)
    requires
        0 <= i <= comp.lines@.len(),
        i <= range.start_line,
    ensures
        indices(comp.lines@.len()).take(i).filter(is_drawn(comp, range)) == Seq::<usize>::empty(),
    decreases i,
{
    let all = indices(comp.lines@.len());
    lemma_filter_start(all, is_drawn(comp, range));
    if i > 0 {
        lemma_nothing_drawn_before(comp, range, i - 1);
        lemma_filter_step(all, is_drawn(comp, range), i - 1);
    }
}

proof fn lemma_nothing_drawn_behind(comp: ComposedParagraph, range: FrameRange, i: int)
    requires
        0 <= i <= comp.lines@.len() <= usize::MAX,
        i >= range.end(comp),
    ensures
        indices(comp.lines@.len()).take(i).filter(is_drawn(comp, range)) == drawn_lines(
            comp,
            range,
        ),
    decreases comp.lines@.len() - i,
{
    let all = indices(comp.lines@.len());
    if i == comp.lines@.len() {
        assert(all.take(i) == all);
    } else {
        lemma_nothing_drawn_behind(comp, range, i + 1);
        lemma_filter_step(all, is_drawn(comp, range), i);
    }
}

/// Every run of the line takes up one place for each of its characters.
pub open spec fn takes_one_place_each(line: ComposedLine) -> bool {
    forall|k: int|
        0 <= k < line.runs@.len() ==> run_units(#[trigger] line.runs@[k])
            == line.runs@[k].text@.len()
}

proof fn lemma_units_are_chars(runs: Seq<ComposedTextRun>)
    requires
        forall|k: int| 0 <= k < runs.len() ==> run_units(#[trigger] runs[k]) == runs[k].text@.len(),
    ensures
        runs_units(runs) == runs_text(runs).len(),
    decreases runs.len(),
{
    if runs.len() > 0 {
        assert forall|k: int| 0 <= k < runs.drop_last().len() implies run_units(
            #[trigger] runs.drop_last()[k],
        ) == runs.drop_last()[k].text@.len() by {
            assert(run_units(runs[k]) == runs[k].text@.len());
        }
        lemma_units_are_chars(runs.drop_last());
        assert(run_units(runs[runs.len() - 1]) == runs[runs.len() - 1].text@.len());
    }
}

/// A line starts with the document's character behind all characters before it, drawn or
/// not, where no characters are set on top of each other.
pub proof fn lemma_lines_start_behind_their_text(
    comp: ComposedParagraph,
    range: FrameRange,
    i: int,
)
    requires
        0 <= i <= comp.lines@.len(),
        forall|k: int|
            0 <= k < comp.lines@.len() ==> takes_one_place_each(#[trigger] comp.lines@[k]),
    ensures
        char_offset_at(comp, range, i) == lines_chars(comp.lines@.take(i)),
    decreases i,
{
    if i > 0 {
        lemma_lines_start_behind_their_text(comp, range, i - 1);
        assert(takes_one_place_each(comp.lines@[i - 1]));
        lemma_units_are_chars(comp.lines@[i - 1].runs@);
        assert(comp.lines@.take(i).drop_last() == comp.lines@.take(i - 1));
    } else {
        assert(comp.lines@.take(0).len() == 0);
    }
}

/// Two columns that show one paragraph draw each line that both cover at most once,
/// where their widths differ by more than twice the tolerance.
pub proof fn lemma_columns_share_no_line(
    comp: ComposedParagraph,
    first: FrameRange,
    second: FrameRange,
    i: int,
)
    requires
        first.column_width is Some,
        second.column_width is Some,
        first.column_width->0 + 2 * WIDTH_TOLERANCE_HU < second.column_width->0,
        0 <= i < comp.lines@.len(),
        comp.lines@[i].segment_width > 0,
    ensures
        !(first.draws(comp, i) && second.draws(comp, i)),
{
}

} // verus!
