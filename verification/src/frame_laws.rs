//! What the layout of a paragraph in its frame promises: which lines are drawn, from where,
//! and with which objects.

use vstd::prelude::*;

use crate::composed::runs_text;
use crate::composed::runs_units;
use crate::composed::ComposedLine;
use crate::composed::ComposedParagraph;
use crate::frame::adjusted_end_line;
use crate::frame::all_runs_empty;
use crate::frame::assigned_objects;
use crate::frame::belongs_to_other_column;
use crate::frame::char_offset_before;
use crate::frame::column_top_stored_position;
use crate::frame::endnote_base;
use crate::frame::endnote_late_base;
use crate::frame::ladder_ascends;
use crate::frame::leading_endnote_markers;
use crate::frame::lines_chars;
use crate::frame::objects_in_width;
use crate::frame::objects_on_line;
use crate::frame::sort_by_position;
use crate::frame::spacing_before_at;
use crate::frame::topbottom_ladder_places_lines;
use crate::frame::SpacingBefore;
use crate::frame_plan::candidates_of;
use crate::frame_plan::char_offset_at;
use crate::frame_plan::drawn_lines;
use crate::frame_plan::is_drawn;
use crate::frame_plan::FrameLine;
use crate::frame_plan::FrameRange;
use crate::inline_table_laws::lemma_filtered_indices_ascend;
use crate::model::LineSeg;
use crate::model::Paragraph;
use crate::seqs::indices;
use crate::tac::line_emits_trailing_object;
use crate::tac::line_owns;
use crate::tac::position_in_range;
use crate::tac::prior_empty_line_owns;
use crate::tac::width_objects;

verus! {

/// The lines of the range are drawn, those of the column's width where it has one, all of
/// them and in order; a line whose width is more than 200 units off is another column's.
pub proof fn lemma_lines_that_are_drawn(
    comp: ComposedParagraph,
    range: FrameRange,
    i: int,
    j: int,
)
    requires
        comp.lines@.len() <= usize::MAX,
    ensures
        0 <= i < comp.lines@.len() ==> (drawn_lines(comp, range).contains(i as usize)
            <==> range.start_line <= i < range.end_line && (range.column_width is None
            || comp.lines@[i].segment_width <= 0 || (range.column_width->0 - 200
            <= comp.lines@[i].segment_width <= range.column_width->0 + 200))),
        0 <= i < j < drawn_lines(comp, range).len() ==> drawn_lines(comp, range)[i] < drawn_lines(
            comp,
            range,
        )[j],
{
    let all = indices(comp.lines@.len());
    let p = is_drawn(comp, range);
    lemma_filtered_indices_ascend(comp.lines@.len(), p, comp.lines@.len() as int);
    assert(all.take(comp.lines@.len() as int) == all);
    if 0 <= i < comp.lines@.len() {
        assert(all[i] == i as usize);
        if p(i as usize) {
            all.lemma_filter_contains(p, i);
        }
        if drawn_lines(comp, range).contains(i as usize) {
            all.lemma_filter_contains_rev(p, i as usize);
        }
    }
}

/// A line is another column's where its stored width is more than 200 units off on either
/// side; a line without a width, or a column without one, is no reason to leave it out.
pub proof fn lemma_line_of_another_column(width: i32, column: i32)
    ensures
        !belongs_to_other_column(width, None),
        width <= 0 ==> !belongs_to_other_column(width, Some(column)),
        width > 0 && (width > column + 200 || width < column - 200) ==> belongs_to_other_column(
            width,
            Some(column),
        ),
        column - 200 <= width <= column + 200 ==> !belongs_to_other_column(width, Some(column)),
{
}

/// A line starts with the document's character behind the line before it: that line's
/// characters and its forced break lie between.
pub proof fn lemma_line_starts_behind_the_one_before(
    comp: ComposedParagraph,
    range: FrameRange,
    i: int,
)
    requires
        0 <= i < comp.lines@.len(),
    ensures
        char_offset_at(comp, range, 0) == 0,
        range.draws(comp, i) ==> char_offset_at(comp, range, i + 1) - char_offset_at(comp, range, i)
            == runs_units(comp.lines@[i].runs@) + if comp.lines@[i].has_line_break {
            1int
        } else {
            0int
        },
        !range.draws(comp, i) ==> char_offset_at(comp, range, i + 1) - char_offset_at(
            comp,
            range,
            i,
        ) == runs_text(comp.lines@[i].runs@).len() + if comp.lines@[i].has_line_break {
            1int
        } else {
            0int
        },
{
}

/// The characters of lines add up; a line has those of its text, and one for its break.
pub proof fn lemma_characters_of_lines(a: Seq<ComposedLine>, b: Seq<ComposedLine>)
    ensures
        lines_chars(a + b) == lines_chars(a) + lines_chars(b),
        a.len() == 0 ==> lines_chars(a) == 0,
        a.len() == 1 ==> lines_chars(a) == runs_text(a[0].runs@).len() + if a[0].has_line_break {
            1int
        } else {
            0int
        },
    decreases b.len(),
{
    reveal_with_fuel(lines_chars, 2);
    if a.len() == 1 {
        assert(a.drop_last().len() == 0);
    }
    if b.len() == 0 {
        assert(a + b == a);
    } else {
        lemma_characters_of_lines(a, b.drop_last());
        assert((a + b).drop_last() == a + b.drop_last());
        assert((a + b).last() == b.last());
    }
}

/// The characters before a line are those of all lines before it; behind the paragraph they
/// are those of the whole.
pub proof fn lemma_characters_before_a_line(
    comp: &ComposedParagraph,
    line: usize,
    first: usize,
    own: usize,
    all: usize,
)
    requires
        call_ensures(char_offset_before, (comp, 0), first),
        call_ensures(char_offset_before, (comp, line), own),
        call_ensures(char_offset_before, (comp, usize::MAX), all),
        comp.lines@.len() <= usize::MAX,
        line <= comp.lines@.len(),
    ensures
        first == 0,
        own + lines_chars(comp.lines@.skip(line as int)) == all,
{
    lemma_characters_of_lines(comp.lines@.take(line as int), comp.lines@.skip(line as int));
    assert(comp.lines@.take(line as int) + comp.lines@.skip(line as int) == comp.lines@);
    assert(comp.lines@.take(comp.lines@.len() as int) == comp.lines@);
    assert(comp.lines@.take(0).len() == 0);
}

/// What a line is laid out with: the file's assignment of objects, where there is one, for
/// drawing and for its width; else what the line owns, and all objects to choose from.
pub proof fn lemma_line_of_a_frame<W>(
    line: FrameLine<W>,
    comp: ComposedParagraph,
    para: Option<&Paragraph>,
    offsets: Seq<(usize, W, usize)>,
    assignment: Option<Seq<(usize, usize)>>,
    range: FrameRange,
    i: usize,
)
    requires
        line.lays_out(comp, para, offsets, assignment, range, i),
        i < comp.lines@.len(),
    ensures
        line.at.line_idx == i,
        line.at.start_line == range.start_line,
        line.at.has_stored_assignment <==> assignment is Some,
        assignment is Some ==> line.objects@ == line.candidates@ && line.width_objects@
            == line.objects@,
        assignment is None ==> line.candidates@ == offsets,
        range.end_line < comp.lines@.len() ==> !line.at.is_last_line_of_para,
        range.end_line >= comp.lines@.len() && i + 1 == comp.lines@.len()
            ==> line.at.is_last_line_of_para,
        !range.physical_frame_rows && i + 1 < comp.lines@.len() ==> !line.at.is_last_line_of_para,
{
}

/// An object is on the line that the file gives it to, and on no other.
pub proof fn lemma_object_stands_on_its_line<W>(
    offsets: Seq<(usize, W, usize)>,
    assignment: Seq<(usize, usize)>,
    line: usize,
    i: int,
    k: int,
)
    requires
        0 <= i < offsets.len(),
        0 <= k < assignment.len(),
        assignment[k].0 == offsets[i].2,
        forall|j: int|
            0 <= j < assignment.len() && (#[trigger] assignment[j]).0 == offsets[i].2 ==> j == k,
    ensures
        assignment[k].1 == line <==> assigned_objects(offsets, assignment, line).contains(
            offsets[i],
        ),
{
    let p = |t: (usize, W, usize)| crate::frame::assigned_to_line(assignment, t.2, line);
    if p(offsets[i]) {
        offsets.lemma_filter_contains(p, i);
    }
    if offsets.filter(p).contains(offsets[i]) {
        offsets.lemma_filter_contains_rev(p, offsets[i]);
    }
    if assignment[k].1 == line {
        assert(crate::frame::assigned_to_line(assignment, offsets[i].2, line));
    }
}

/// An object that no entry of the file's assignment names is on no line.
pub proof fn lemma_object_without_a_line<W>(
    offsets: Seq<(usize, W, usize)>,
    assignment: Seq<(usize, usize)>,
    line: usize,
    object: (usize, W, usize),
)
    requires
        forall|j: int| 0 <= j < assignment.len() ==> (#[trigger] assignment[j]).0 != object.2,
    ensures
        !assigned_objects(offsets, assignment, line).contains(object),
{
    let p = |t: (usize, W, usize)| crate::frame::assigned_to_line(assignment, t.2, line);
    if offsets.filter(p).contains(object) {
        offsets.lemma_filter_contains_rev(p, object);
    }
}

/// The file's assignment goes before all else, in what is drawn and in what is measured.
pub proof fn lemma_assignment_goes_first<W>(
    comp: ComposedParagraph,
    offsets: Seq<(usize, W, usize)>,
    assignment: Seq<(usize, usize)>,
    line: usize,
)
    ensures
        objects_on_line(comp, offsets, Some(assignment), line) == assigned_objects(
            offsets,
            assignment,
            line,
        ),
        objects_in_width(comp, offsets, Some(assignment), line) == objects_on_line(
            comp,
            offsets,
            Some(assignment),
            line,
        ),
        candidates_of(offsets, Some(assignment), line) == objects_on_line(
            comp,
            offsets,
            Some(assignment),
            line,
        ),
{
}

/// Without an assignment a line of text draws the objects in its own places.
pub proof fn lemma_text_line_draws_its_objects<W>(
    comp: ComposedParagraph,
    offsets: Seq<(usize, W, usize)>,
    line: usize,
    i: int,
)
    requires
        line + 1 < comp.lines@.len(),
        comp.lines@[line as int].runs@.len() > 0,
        0 <= i < offsets.len(),
        line == 0 || offsets[i].0 > comp.lines@[line as int].char_start,
        comp.lines@[line as int].char_start < comp.lines@[line + 1].char_start,
    ensures
        objects_on_line(comp, offsets, None, line).contains(offsets[i]) <==> comp.lines@[line as int].char_start
            <= offsets[i].0 < comp.lines@[line + 1].char_start,
{
    let p = |t: (usize, W, usize)| line_owns(comp, line as int, t.0 as int);
    if p(offsets[i]) {
        offsets.lemma_filter_contains(p, i);
    }
    if offsets.filter(p).contains(offsets[i]) {
        offsets.lemma_filter_contains_rev(p, offsets[i]);
    }
}

/// A range holds the places from its start up to its end; one without any holds its start.
pub proof fn lemma_places_of_a_range(pos: int, start: int, end: int)
    ensures
        start < end ==> (position_in_range(pos, start, end) <==> start <= pos && pos < end),
        start >= end ==> (position_in_range(pos, start, end) <==> pos == start),
{
}

/// A line owns the places from its start up to that of the next, but for its first place
/// where an empty line in front stands there; the only line without text owns all.
pub proof fn lemma_places_of_a_line(comp: ComposedParagraph, line: int, pos: int)
    requires
        0 <= line < comp.lines@.len(),
    ensures
        line + 1 < comp.lines@.len() && comp.lines@[line].char_start < pos < comp.lines@[line
            + 1].char_start ==> line_owns(comp, line, pos),
        line_owns(comp, line, pos) && comp.lines@.len() > 1 ==> comp.lines@[line].char_start <= pos,
        line_owns(comp, line, pos) && line + 1 < comp.lines@.len() && comp.lines@[line].char_start
            < comp.lines@[line + 1].char_start ==> pos < comp.lines@[line + 1].char_start,
        comp.lines@.len() == 1 && runs_text(comp.lines@[0].runs@).len() == 0
            && !comp.lines@[0].has_line_break ==> line_owns(comp, line, pos),
        line > 0 && comp.lines@[line].runs@.len() > 0 && comp.lines@[line - 1].runs@.len() == 0
            && comp.lines@[line - 1].char_start == comp.lines@[line].char_start ==> !line_owns(
            comp,
            line,
            comp.lines@[line].char_start as int,
        ),
{
}

/// An empty line in front owns only the place that it shares with the text behind it.
pub proof fn lemma_empty_line_in_front(comp: ComposedParagraph, line: int, pos: int)
    ensures
        line <= 0 || line >= comp.lines@.len() ==> !prior_empty_line_owns(comp, line, pos),
        0 < line < comp.lines@.len() && (comp.lines@[line - 1].runs@.len() > 0
            || comp.lines@[line].runs@.len() == 0 || comp.lines@[line].char_start != pos
            || comp.lines@[line - 1].char_start != pos) ==> !prior_empty_line_owns(comp, line, pos),
        0 < line < comp.lines@.len() && comp.lines@[line - 1].runs@.len() == 0
            && comp.lines@[line].runs@.len() > 0 && comp.lines@[line].char_start == pos
            && comp.lines@[line - 1].char_start == pos ==> prior_empty_line_owns(comp, line, pos),
{
}

/// An object right behind the text of the last line widens it.
pub proof fn lemma_object_behind_the_text_widens_the_line<W>(
    comp: ComposedParagraph,
    offsets: Seq<(usize, W, usize)>,
    line: int,
    i: int,
)
    requires
        line == comp.lines@.len() - 1,
        0 <= line,
        comp.lines@[line].runs@.len() > 0,
        0 <= i < offsets.len(),
        offsets[i].0 == comp.lines@[line].char_start + runs_text(comp.lines@[line].runs@).len(),
    ensures
        exists|k: int|
            0 <= k < width_objects(comp, offsets, line).len() && (#[trigger] width_objects(
                comp,
                offsets,
                line,
            )[k]).2 == offsets[i].2,
{
    let owned = offsets.filter(|t: (usize, W, usize)| line_owns(comp, line, t.0 as int));
    let end = comp.lines@[line].text_end();
    assert(line_emits_trailing_object(comp, line));
    lemma_extension_mentions(owned, offsets, end, i);
    let all = width_objects(comp, offsets, line);
    let k = choose|k: int| 0 <= k < all.len() && #[trigger] all[k].2 == offsets[i].2;
    assert(all[k].2 == offsets[i].2);
}

proof fn lemma_extension_mentions<W>(
    base: Seq<(usize, W, usize)>,
    offsets: Seq<(usize, W, usize)>,
    pos: int,
    i: int,
)
    requires
        0 <= i < offsets.len(),
        offsets[i].0 == pos,
    ensures
        crate::tac::mentions_control(
            crate::tac::extended_by_position(base, offsets, pos),
            offsets[i].2,
        ),
    decreases offsets.len(),
{
    let acc = crate::tac::extended_by_position(base, offsets.drop_last(), pos);
    let all = crate::tac::extended_by_position(base, offsets, pos);
    if i < offsets.len() - 1 {
        lemma_extension_mentions(base, offsets.drop_last(), pos, i);
        let j = choose|j: int| 0 <= j < acc.len() && #[trigger] acc[j].2 == offsets[i].2;
        assert(all[j].2 == offsets[i].2);
    } else if crate::tac::mentions_control(acc, offsets[i].2) {
        let j = choose|j: int| 0 <= j < acc.len() && #[trigger] acc[j].2 == offsets[i].2;
        assert(all[j].2 == offsets[i].2);
    } else {
        assert(all[acc.len() as int].2 == offsets[i].2);
    }
}

/// Sorted objects stand in the order of their places, and none is lost, added or changed.
pub proof fn lemma_sorted_objects(
    offsets: &[(usize, u32, usize)],
    r: Vec<(usize, u32, usize)>,
    i: int,
    j: int,
    object: (usize, u32, usize),
)
    requires
        call_ensures(sort_by_position::<u32>, (offsets,), r),
    ensures
        r@.len() == offsets@.len(),
        0 <= i < j < r@.len() ==> r@[i].0 <= r@[j].0,
        r@.contains(object) <==> offsets@.contains(object),
{
    let p = crate::frame::stands_at::<u32>(object.0);
    assert(crate::frame::entries_at(r@, object.0) == crate::frame::entries_at(offsets@, object.0));
    if r@.contains(object) {
        let k = choose|k: int| 0 <= k < r@.len() && r@[k] == object;
        r@.lemma_filter_contains(p, k);
        offsets@.lemma_filter_contains_rev(p, object);
    }
    if offsets@.contains(object) {
        let k = choose|k: int| 0 <= k < offsets@.len() && offsets@[k] == object;
        offsets@.lemma_filter_contains(p, k);
        r@.lemma_filter_contains_rev(p, object);
    }
}

/// A range with one run in it is not empty.
pub proof fn lemma_range_without_runs(
    comp: &ComposedParagraph,
    start: usize,
    end: usize,
    i: int,
    r: bool,
)
    requires
        call_ensures(all_runs_empty, (comp, start, end), r),
        end <= comp.lines@.len(),
    ensures
        start <= i < end && comp.lines@[i].runs@.len() > 0 ==> !r,
        start >= end ==> r,
        (forall|k: int|
            #![trigger comp.lines@[k]]
            start <= k < end ==> comp.lines@[k].runs@.len() == 0) ==> r,
{
}

/// Spacing in front of a paragraph counts once, at its first line: whole inside a column,
/// and as far as the file's position allows at its top.
pub proof fn lemma_spacing_in_front(
    start_line: usize,
    has_spacing: bool,
    top: bool,
    keep: bool,
    para_index: usize,
    suppress: bool,
    para: Option<&Paragraph>,
)
    ensures
        ({
            let rule = spacing_before_at(
                start_line,
                has_spacing,
                top,
                keep,
                para_index,
                suppress,
                para,
            );
            &&& start_line > 0 || !has_spacing ==> rule == SpacingBefore::Nothing
            &&& start_line == 0 && has_spacing && (!top || keep) ==> rule == SpacingBefore::Full
            &&& top && !keep && (suppress || para is None || para->0.line_segs@.len() == 0) ==> rule
                == SpacingBefore::Nothing
            &&& rule matches SpacingBefore::AtMostStored(pos) ==> para_index == 0 && pos > 0
                && para->0.line_segs@[0].vertical_pos == pos
            &&& rule matches SpacingBefore::StoredIfWithin(pos) ==> para_index > 0 && pos > 0
                && !para->0.line_segs@[0].implementation_property && (
            para->0.source_first_vertical_pos == Some(pos) || (
            para->0.source_first_vertical_pos is None && para->0.line_segs@[0].vertical_pos == pos))
            &&& start_line == 0 && has_spacing && top && !keep && !suppress && para_index == 0
                && para is Some && para->0.line_segs@.len() > 0
                && para->0.line_segs@[0].vertical_pos > 0 ==> rule == SpacingBefore::AtMostStored(
                para->0.line_segs@[0].vertical_pos,
            )
            &&& start_line == 0 && has_spacing && top && !keep && !suppress && para_index > 0
                && para is Some && para->0.line_segs@.len() > 0
                && !para->0.line_segs@[0].implementation_property
                && para->0.source_first_vertical_pos is None && para->0.line_segs@[0].vertical_pos
                > 0 ==> rule == SpacingBefore::StoredIfWithin(para->0.line_segs@[0].vertical_pos)
        }),
{
}

/// A stored position moves only the first line of a section, at the top of its column, where
/// no spacing and no object between the lines accounts for it.
pub proof fn lemma_position_at_the_top(
    start_line: usize,
    has_spacing: bool,
    top: bool,
    para_index: usize,
    float: bool,
    suppress: bool,
    para: &Paragraph,
    r: Option<i32>,
)
    requires
        call_ensures(
            column_top_stored_position,
            (start_line, has_spacing, top, para_index, float, suppress, Some(para)),
            r,
        ),
    ensures
        start_line > 0 || has_spacing || !top || para_index > 0 || float || suppress ==> r is None,
        r matches Some(pos) ==> pos > 0 && para.line_segs@.len() > 0
            && para.line_segs@[0].vertical_pos == pos,
        start_line == 0 && !has_spacing && top && para_index == 0 && !float && !suppress
            && para.line_segs@.len() > 0 && para.line_segs@[0].vertical_pos > 0 ==> r is Some,
{
}

/// Positions that never go back from one line to the next never go back at all, and one
/// that goes back is enough.
pub proof fn lemma_ladder_of_neighbours(segs: Seq<LineSeg>, start: int, end: int)
    requires
        0 <= start,
        end <= segs.len(),
    ensures
        ladder_ascends(segs, start, end) <==> forall|i: int, j: int|
            start <= i && j == i + 1 && j < end ==> (#[trigger] segs[i]).vertical_pos <= (
            #[trigger] segs[j]).vertical_pos,
{
    if (forall|i: int, j: int|
        start <= i && j == i + 1 && j < end ==> (#[trigger] segs[i]).vertical_pos <= (
        #[trigger] segs[j]).vertical_pos) {
        assert forall|i: int, j: int| start <= i < j < end implies (
        #[trigger] segs[i]).vertical_pos <= (#[trigger] segs[j]).vertical_pos by {
            lemma_ladder_climbs(segs, start, end, i, j);
        }
    }
}

proof fn lemma_ladder_climbs(segs: Seq<LineSeg>, start: int, end: int, i: int, j: int)
    requires
        0 <= start <= i <= j < end <= segs.len(),
        forall|a: int, b: int|
            start <= a && b == a + 1 && b < end ==> (#[trigger] segs[a]).vertical_pos <= (
            #[trigger] segs[b]).vertical_pos,
    ensures
        segs[i].vertical_pos <= segs[j].vertical_pos,
    decreases j - i,
{
    if i < j {
        lemma_ladder_climbs(segs, start, end, i, j - 1);
        assert(segs[j - 1].vertical_pos <= segs[j].vertical_pos);
    }
}

/// The lines of an endnote are measured from the first of them, or from the one behind a
/// guide; only several lines of the file whose positions never go back are.
pub proof fn lemma_base_of_an_endnote<W>(
    para: &Paragraph,
    comp: ComposedParagraph,
    offsets: Seq<(usize, W, usize)>,
    flow: bool,
    start: int,
    end: int,
    i: int,
)
    requires
        0 <= start,
    ensures
        !flow || end <= start + 1 || end > para.line_segs@.len() ==> endnote_base(
            Some(para),
            comp,
            offsets,
            flow,
            start,
            end,
        ) is None,
        endnote_base(Some(para), comp, offsets, flow, start, end) matches Some(pos) ==> pos
            == para.line_segs@[start].vertical_pos || pos == para.line_segs@[start + 1].vertical_pos,
        start < i < end - 1 && para.line_segs@[i].vertical_pos > para.line_segs@[i + 1].vertical_pos
            ==> endnote_base(Some(para), comp, offsets, flow, start, end) is None,
        flow && start + 1 < end <= para.line_segs@.len() && start < comp.lines@.len()
            && comp.lines@[start].runs@.len() > 0 && ladder_ascends(para.line_segs@, start, end)
            ==> endnote_base(Some(para), comp, offsets, flow, start, end) == Some(
            para.line_segs@[start].vertical_pos,
        ),
{
    if start < i < end - 1 && para.line_segs@[i].vertical_pos > para.line_segs@[i
        + 1].vertical_pos {
        let base = crate::frame::endnote_base_line(Some(para), comp, offsets, start);
        assert(base <= i);
        if ladder_ascends(para.line_segs@, base, end) {
            assert(para.line_segs@[i].vertical_pos <= para.line_segs@[i + 1].vertical_pos);
        }
    }
}

/// A continued endnote follows its stored positions from its second line on, where they go
/// back once, behind the first.
pub proof fn lemma_late_base_of_an_endnote(
    para: &Paragraph,
    has_base: bool,
    flow: bool,
    start: int,
    end: int,
)
    ensures
        has_base || !flow || start <= 0 || end <= start + 2 || end > para.line_segs@.len()
            ==> endnote_late_base(Some(para), has_base, flow, start, end) is None,
        endnote_late_base(Some(para), has_base, flow, start, end) matches Some(line) ==> line
            == start + 1 && para.line_segs@[start].vertical_pos
            > para.line_segs@[line].vertical_pos,
        !has_base && flow && 0 < start && start + 2 < end <= para.line_segs@.len()
            && para.line_segs@[start].vertical_pos > para.line_segs@[start + 1].vertical_pos
            && ladder_ascends(para.line_segs@, start + 1, end) ==> endnote_late_base(
            Some(para),
            has_base,
            flow,
            start,
            end,
        ) == Some(start + 1),
{
}

/// Stored positions place the lines around an object between them where they fit the text,
/// never go back and move a line.
pub proof fn lemma_ladder_around_an_object(
    para: &Paragraph,
    in_cell: bool,
    float: bool,
    start: usize,
    end: usize,
    i: int,
    r: bool,
)
    requires
        call_ensures(topbottom_ladder_places_lines, (Some(para), in_cell, float, start, end), r),
    ensures
        in_cell || !float || para.stored_text_partition_dirty || end > para.line_segs@.len()
            ==> !r,
        start >= end ==> !r,
        r && start <= i < end - 1 ==> para.line_segs@[i].vertical_pos <= para.line_segs@[i
            + 1].vertical_pos,
        !in_cell && float && !para.stored_text_partition_dirty && start <= i < end
            <= para.line_segs@.len() && para.line_segs@[i].vertical_pos > 0 && ladder_ascends(
            para.line_segs@,
            start as int,
            end as int,
        ) ==> r,
{
}

/// A request for a whole paragraph covers all its new lines; any other keeps to its range,
/// as far as there are lines.
pub proof fn lemma_range_of_new_lines(
    start: usize,
    end: usize,
    old: usize,
    new: usize,
    r: usize,
)
    requires
        call_ensures(adjusted_end_line, (start, end, old, new), r),
        start <= end,
    ensures
        start == 0 && end >= old ==> r == new,
        start > 0 || end < old ==> start <= r <= end && (end <= new ==> r == end) && (start <= new
            < end ==> r == new),
{
}

/// The endnotes in front of a paragraph are the endnote references at the start of its first
/// line, all of them and in order; a part that starts later has none.
pub proof fn lemma_endnotes_in_front(
    para: &Paragraph,
    start_line: usize,
    place: usize,
    i: int,
    j: int,
    r: Vec<usize>,
)
    requires
        call_ensures(leading_endnote_markers, (para, start_line, place), r),
        para.controls@.len() <= usize::MAX,
    ensures
        start_line > 0 ==> r@.len() == 0,
        start_line == 0 && 0 <= i < para.controls@.len() && i < para.control_positions@.len() ==> (
        r@.contains(i as usize) <==> para.controls@[i] is Endnote && para.control_positions@[i]
            == place),
        0 <= i < j < r@.len() ==> r@[i] < r@[j],
{
    let p = |i: usize| crate::frame::is_leading_endnote(*para, i as int, place);
    let all = indices(para.controls@.len());
    lemma_filtered_indices_ascend(para.controls@.len(), p, para.controls@.len() as int);
    assert(all.take(para.controls@.len() as int) == all);
    if start_line == 0 {
        assert(r@ == all.filter(p));
        if 0 <= i < para.controls@.len() {
            assert(all[i] == i as usize);
            if p(i as usize) {
                all.lemma_filter_contains(p, i);
            }
            if r@.contains(i as usize) {
                all.lemma_filter_contains_rev(p, i as usize);
            }
        }
    }
}

/// Objects at one place keep their order when they are sorted.
pub proof fn lemma_sorting_is_stable(
    offsets: &[(usize, u32, usize)],
    r: Vec<(usize, u32, usize)>,
    pos: usize,
)
    requires
        call_ensures(sort_by_position::<u32>, (offsets,), r),
    ensures
        r@.filter(|t: (usize, u32, usize)| t.0 == pos) == offsets@.filter(
            |t: (usize, u32, usize)| t.0 == pos,
        ),
{
    let p = crate::frame::stands_at::<u32>(pos);
    let q = |t: (usize, u32, usize)| t.0 == pos;
    assert(crate::frame::entries_at(r@, pos) == crate::frame::entries_at(offsets@, pos));
    crate::seqs::lemma_filter_same(r@, p, q);
    crate::seqs::lemma_filter_same(offsets@, p, q);
}

} // verus!
