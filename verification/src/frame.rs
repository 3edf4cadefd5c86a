//! Decisions for a whole paragraph before its lines are laid out.

use vstd::prelude::*;

use crate::composed::runs_char_count;
use crate::composed::ComposedLine;
use crate::composed::ComposedParagraph;
use crate::line_kinds::is_leading_equation_guide;
use crate::line_kinds::line_is_leading_empty_equation_tac_guide;
use crate::model::Control;
use crate::model::LineSeg;
use crate::model::Paragraph;
use crate::seqs::indices;
use crate::seqs::lemma_filter_last;
use crate::seqs::lemma_filter_start;
use crate::seqs::lemma_filter_step;
use crate::tac::line_owns;
use crate::tac::repeated_empty_line_objects;
use crate::tac::repeated_empty_tac_line_offset;
use crate::tac::tac_offsets_for_line;
use crate::tac::tac_offsets_for_line_width;
use crate::tac::width_objects;

verus! {

/// The largest difference, in HWPUNIT, of a stored width that still counts as equal.
pub const WIDTH_TOLERANCE_HU: i32 = 200;

/// Whether an entry stands at `pos`.
pub open spec fn stands_at<W>(pos: usize) -> spec_fn((usize, W, usize)) -> bool {
    |t: (usize, W, usize)| t.0 == pos
}

/// The entries that stand at `pos`.
pub open spec fn entries_at<W>(offsets: Seq<(usize, W, usize)>, pos: usize) -> Seq<
    (usize, W, usize),
> {
    offsets.filter(stands_at(pos))
}

/// The entries stand in the order of their positions.
pub open spec fn ordered_by_position<W>(offsets: Seq<(usize, W, usize)>) -> bool {
    forall|i: int, j: int|
        0 <= i < j < offsets.len() ==> (#[trigger] offsets[i]).0 <= (#[trigger] offsets[j]).0
}

proof fn lemma_entries_at_insert<W>(
    offsets: Seq<(usize, W, usize)>,
    at: int,
    entry: (usize, W, usize),
    pos: usize,
)
    requires
        0 <= at <= offsets.len(),
        forall|j: int| at <= j < offsets.len() ==> (#[trigger] offsets[j]).0 != entry.0,
    ensures
        entries_at(offsets.insert(at, entry), pos) == entries_at(offsets.push(entry), pos),
    decreases offsets.len() - at,
{
    let p = stands_at::<W>(pos);
    if at == offsets.len() {
        assert(offsets.insert(at, entry) == offsets.push(entry));
    } else {
        let front = offsets.drop_last();
        lemma_entries_at_insert(front, at, entry, pos);
        assert(offsets.insert(at, entry).drop_last() == front.insert(at, entry));
        assert(offsets.insert(at, entry).last() == offsets.last());
        assert(offsets.push(entry).drop_last() == offsets);
        assert(front.push(entry).drop_last() == front);
        assert(offsets[offsets.len() - 1].0 != entry.0);
        lemma_filter_last(offsets, p);
        lemma_filter_last(offsets.insert(at, entry), p);
        lemma_filter_last(offsets.push(entry), p);
        lemma_filter_last(front.push(entry), p);
    }
}

/// The objects in the order of their positions; objects at one position keep their
/// order.
pub fn sort_by_position<W: Copy>(offsets: &[(usize, W, usize)]) -> (r: Vec<(usize, W, usize)>)
    ensures
        ordered_by_position(r@),
        r@.len() == offsets@.len(),
        forall|pos: usize| #[trigger] entries_at(r@, pos) == entries_at(offsets@, pos),
{
    let mut r: Vec<(usize, W, usize)> = Vec::new();
    assert(offsets@.take(0) == r@);
    for i in 0..offsets.len()
        invariant
            ordered_by_position(r@),
            r@.len() == i,
            forall|pos: usize|
                #[trigger] entries_at(r@, pos) == entries_at(offsets@.take(i as int), pos),
    {
        let entry: (usize, W, usize) = offsets[i];
        let mut at: usize = r.len();
        while at > 0 && r[at - 1].0 > entry.0
            invariant
                at <= r@.len(),
                ordered_by_position(r@),
                forall|j: int| at <= j < r@.len() ==> (#[trigger] r@[j]).0 > entry.0,
            decreases at,
        {
            at -= 1;
        }
        let ghost before = r@;
        r.insert(at, entry);
        proof {
            assert forall|pos: usize| #[trigger] entries_at(r@, pos) == entries_at(
                offsets@.take(i + 1),
                pos,
            ) by {
                let p = stands_at::<W>(pos);
                lemma_entries_at_insert(before, at as int, entry, pos);
                assert(entries_at(before, pos) == entries_at(offsets@.take(i as int), pos));
                lemma_filter_step(offsets@, p, i as int);
                lemma_filter_step(before.push(entry), p, before.len() as int);
                assert(before.push(entry).take(before.len() as int) == before);
                assert(before.push(entry).take((before.len() + 1) as int) == before.push(entry));
            }
            assert forall|a: int, b: int| 0 <= a < b < r@.len() implies (#[trigger] r@[a]).0 <= (
            #[trigger] r@[b]).0 by {
                if b == at {
                    if at > 0 {
                        assert(before[a].0 <= before[at - 1].0);
                    }
                } else if a == at {
                    assert(before[b - 1].0 > entry.0);
                } else {
                    let a0 = if a < at {
                        a
                    } else {
                        a - 1
                    };
                    let b0 = if b < at {
                        b
                    } else {
                        b - 1
                    };
                    assert(before[a0].0 <= before[b0].0);
                }
            }
        }
    }
    assert(offsets@.take(offsets@.len() as int) == offsets@);
    r
}

/// No line from `start` up to `end` has a run. A range that the paragraph does not
/// have holds none either.
pub fn all_runs_empty(comp: &ComposedParagraph, start: usize, end: usize) -> (r: bool)
    ensures
        r == (end <= comp.lines@.len() ==> forall|i: int|
            start <= i < end ==> (#[trigger] comp.lines@[i]).runs@.len() == 0),
{
    if end > comp.lines.len() {
        return true;
    }
    let mut i: usize = start;
    while i < end
        invariant
            end <= comp.lines@.len(),
            start <= i,
            start <= end ==> i <= end,
            forall|k: int| start <= k < i && k < end ==> (#[trigger] comp.lines@[k]).runs@.len() == 0,
        decreases end - i,
    {
        if comp.lines[i].runs.len() > 0 {
            assert(comp.lines@[i as int].runs@.len() > 0);
            return false;
        }
        i += 1;
    }
    true
}

/// The number of document characters of a line: its text and its forced break.
pub open spec fn line_chars(line: ComposedLine) -> int {
    line.text().len() + if line.has_line_break {
        1int
    } else {
        0int
    }
}

/// The number of document characters of the lines.
pub open spec fn lines_chars(lines: Seq<ComposedLine>) -> int
    decreases lines.len(),
{
    if lines.len() == 0 {
        0
    } else {
        lines_chars(lines.drop_last()) + line_chars(lines.last())
    }
}

/// More lines do not have fewer characters.
pub proof fn lemma_lines_chars_monotone(lines: Seq<ComposedLine>, k: int)
    requires
        0 <= k <= lines.len(),
    ensures
        0 <= lines_chars(lines.take(k)) <= lines_chars(lines),
    decreases lines.len(),
{
    if k == lines.len() {
        assert(lines.take(k) == lines);
        if k > 0 {
            lemma_lines_chars_monotone(lines.drop_last(), k - 1);
        }
    } else {
        lemma_lines_chars_monotone(lines.drop_last(), k);
        assert(lines.drop_last().take(k) == lines.take(k));
    }
}

/// The document characters of a line.
pub fn line_char_count(line: &ComposedLine) -> (count: usize)
    requires
        line_chars(*line) <= usize::MAX,
    ensures
        count == line_chars(*line),
{
    let count: usize = runs_char_count(line.runs.as_slice());
    if line.has_line_break {
        count + 1
    } else {
        count
    }
}

/// The document characters before a line.
pub fn char_offset_before(comp: &ComposedParagraph, start_line: usize) -> (offset: usize)
    requires
        lines_chars(comp.lines@) <= usize::MAX,
    ensures
        offset == lines_chars(
            comp.lines@.take(
                if start_line <= comp.lines@.len() {
                    start_line as int
                } else {
                    comp.lines@.len() as int
                },
            ),
        ),
{
    let mut n: usize = comp.lines.len();
    if start_line < n {
        n = start_line;
    }
    let mut offset: usize = 0;
    for i in 0..n
        invariant
            n <= comp.lines@.len(),
            lines_chars(comp.lines@) <= usize::MAX,
            offset == lines_chars(comp.lines@.take(i as int)),
    {
        proof {
            lemma_lines_chars_monotone(comp.lines@, i + 1);
            lemma_lines_chars_monotone(comp.lines@, i as int);
            assert(comp.lines@.take(i + 1).drop_last() == comp.lines@.take(i as int));
        }
        offset += line_char_count(&comp.lines[i]);
    }
    offset
}

/// What to add in front of the first line of a paragraph.
#[derive(Clone, Copy, Debug, PartialEq, Eq, Structural)]
pub enum SpacingBefore {
    Nothing,
    /// The whole spacing of the paragraph style.
    Full,
    /// The spacing, but at most the stored position.
    AtMostStored(i32),
    /// The stored position, where it lies within the spacing.
    StoredIfWithin(i32),
}

/// The stored position of the first line.
pub open spec fn first_vertical_pos(para: Option<&Paragraph>) -> Option<i32> {
    match para {
        Some(p) => if p.line_segs@.len() > 0 {
            Some(p.line_segs@[0].vertical_pos)
        } else {
            None
        },
        None => None,
    }
}

fn stored_first_pos(para: Option<&Paragraph>) -> (r: Option<i32>)
    ensures
        r == first_vertical_pos(para),
{
    match para {
        Some(p) => if p.line_segs.len() > 0 {
            Some(p.line_segs[0].vertical_pos)
        } else {
            None
        },
        None => None,
    }
}

/// The first line's position as the file had it, where the file stored the line.
pub open spec fn source_vertical_pos(para: Option<&Paragraph>) -> Option<i32> {
    match para {
        Some(p) => if p.line_segs@.len() > 0 && !p.line_segs@[0].implementation_property {
            match p.source_first_vertical_pos {
                Some(pos) => Some(pos),
                None => Some(p.line_segs@[0].vertical_pos),
            }
        } else {
            None
        },
        None => None,
    }
}

/// What to add in front of the first line of a paragraph that has a spacing.
///
/// Inside a column the whole spacing applies, as it does where the caller asks to
/// keep it. At the top of a column a stored position limits the spacing of the
/// section's first paragraph and stands for it in later ones; without a stored
/// position nothing is added.
pub open spec fn spacing_before_at(
    start_line: usize,
    has_spacing: bool,
    is_column_top: bool,
    keep_spacing: bool,
    para_index: usize,
    suppress_stored_position: bool,
    para: Option<&Paragraph>,
) -> SpacingBefore {
    if start_line > 0 || !has_spacing {
        SpacingBefore::Nothing
    } else if !is_column_top || keep_spacing {
        SpacingBefore::Full
    } else if suppress_stored_position {
        SpacingBefore::Nothing
    } else if para_index == 0 {
        match first_vertical_pos(para) {
            Some(pos) if pos > 0 => SpacingBefore::AtMostStored(pos),
            _ => SpacingBefore::Nothing,
        }
    } else {
        match source_vertical_pos(para) {
            Some(pos) if pos > 0 => SpacingBefore::StoredIfWithin(pos),
            _ => SpacingBefore::Nothing,
        }
    }
}

/// Decides what to add in front of the first line of a paragraph.
pub fn spacing_before_rule(
    start_line: usize,
    has_spacing: bool,
    is_column_top: bool,
    keep_spacing: bool,
    para_index: usize,
    suppress_stored_position: bool,
    para: Option<&Paragraph>,
) -> (rule: SpacingBefore)
    ensures
        rule == spacing_before_at(
            start_line,
            has_spacing,
            is_column_top,
            keep_spacing,
            para_index,
            suppress_stored_position,
            para,
        ),
{
    if start_line > 0 || !has_spacing {
        return SpacingBefore::Nothing;
    }
    if !is_column_top || keep_spacing {
        return SpacingBefore::Full;
    }
    if suppress_stored_position {
        return SpacingBefore::Nothing;
    }
    if para_index == 0 {
        return match stored_first_pos(para) {
            Some(pos) if pos > 0 => SpacingBefore::AtMostStored(pos),
            _ => SpacingBefore::Nothing,
        };
    }
    match para {
        Some(p) => {
            if p.line_segs.len() > 0 && !p.line_segs[0].implementation_property {
                let pos: i32 = match p.source_first_vertical_pos {
                    Some(pos) => pos,
                    None => p.line_segs[0].vertical_pos,
                };
                if pos > 0 {
                    SpacingBefore::StoredIfWithin(pos)
                } else {
                    SpacingBefore::Nothing
                }
            } else {
                SpacingBefore::Nothing
            }
        },
        None => SpacingBefore::Nothing,
    }
}

/// The stored position that moves the first line of a section where the paragraph
/// style has no spacing and no object between the lines accounts for the position.
pub fn column_top_stored_position(
    start_line: usize,
    has_spacing: bool,
    is_column_top: bool,
    para_index: usize,
    has_topbottom_float: bool,
    suppress_stored_position: bool,
    para: Option<&Paragraph>,
) -> (r: Option<i32>)
    ensures
        r == (if start_line == 0 && !has_spacing && is_column_top && para_index == 0
            && !has_topbottom_float && !suppress_stored_position && first_vertical_pos(para) is Some
            && first_vertical_pos(para)->0 > 0 {
            first_vertical_pos(para)
        } else {
            None
        }),
{
    if start_line == 0 && !has_spacing && is_column_top && para_index == 0 && !has_topbottom_float
        && !suppress_stored_position {
        match stored_first_pos(para) {
            Some(pos) if pos > 0 => Some(pos),
            _ => None,
        }
    } else {
        None
    }
}

/// The stored positions do not go back between two lines of the range.
pub open spec fn ladder_ascends(segs: Seq<LineSeg>, start: int, end: int) -> bool {
    forall|i: int, j: int|
        start <= i < j < end ==> (#[trigger] segs[i]).vertical_pos <= (
        #[trigger] segs[j]).vertical_pos
}

/// Whether the stored positions do not go back inside the range.
pub fn stored_ladder_ascends(segs: &[LineSeg], start: usize, end: usize) -> (r: bool)
    requires
        end <= segs@.len(),
    ensures
        r == ladder_ascends(segs@, start as int, end as int),
{
    let mut i: usize = start;
    while i < end && i + 1 < end
        invariant
            end <= segs@.len(),
            start <= i,
            start < end ==> i < end,
            start < end ==> ladder_ascends(segs@, start as int, i + 1),
        decreases end - i,
    {
        if segs[i + 1].vertical_pos < segs[i].vertical_pos {
            assert(segs@[i + 1].vertical_pos < segs@[i as int].vertical_pos);
            return false;
        }
        assert forall|a: int, b: int| start <= a < b < i + 2 implies (
        #[trigger] segs@[a]).vertical_pos <= (#[trigger] segs@[b]).vertical_pos by {
            if b == i + 1 {
                assert(segs@[a].vertical_pos <= segs@[i as int].vertical_pos);
            }
        }
        i += 1;
    }
    true
}

/// The line whose stored position the lines of an endnote paragraph are measured
/// from: the first one that is not an empty guide.
pub open spec fn endnote_base_line<W>(
    para: Option<&Paragraph>,
    comp: ComposedParagraph,
    tac_offsets: Seq<(usize, W, usize)>,
    start_line: int,
) -> int {
    if is_leading_equation_guide(para, comp, tac_offsets, start_line) {
        start_line + 1
    } else {
        start_line
    }
}

/// The stored position that the lines of an endnote paragraph are measured from:
/// present where the paragraph shows several lines whose positions never go back.
pub open spec fn endnote_base<W>(
    para: Option<&Paragraph>,
    comp: ComposedParagraph,
    tac_offsets: Seq<(usize, W, usize)>,
    in_endnote_flow: bool,
    start_line: int,
    end: int,
) -> Option<i32> {
    let base = endnote_base_line(para, comp, tac_offsets, start_line);
    if in_endnote_flow && end > start_line + 1 && para is Some && end <= para->0.line_segs@.len()
        && ladder_ascends(para->0.line_segs@, base, end) {
        Some(para->0.line_segs@[base].vertical_pos)
    } else {
        None
    }
}

/// Finds the stored position that the lines of an endnote paragraph are measured
/// from.
pub fn endnote_line_vpos_base<W: Copy>(
    para: Option<&Paragraph>,
    comp: &ComposedParagraph,
    tac_offsets: &[(usize, W, usize)],
    in_endnote_flow: bool,
    start_line: usize,
    end: usize,
) -> (r: Option<i32>)
    requires
        comp.fits(),
    ensures
        r == endnote_base(
            para,
            *comp,
            tac_offsets@,
            in_endnote_flow,
            start_line as int,
            end as int,
        ),
{
    if !in_endnote_flow || end <= start_line || end - start_line <= 1 {
        return None;
    }
    match para {
        Some(p) => {
            let mut base: usize = start_line;
            if line_is_leading_empty_equation_tac_guide(para, comp, tac_offsets, start_line) {
                base = start_line + 1;
            }
            if end > p.line_segs.len() {
                return None;
            }
            if stored_ladder_ascends(p.line_segs.as_slice(), base, end) {
                Some(p.line_segs[base].vertical_pos)
            } else {
                None
            }
        },
        None => None,
    }
}

/// The line from which an endnote paragraph that continues on a new page follows its
/// stored positions: the second, where the positions go back once, right behind the
/// first line.
pub open spec fn endnote_late_base(
    para: Option<&Paragraph>,
    has_base: bool,
    in_endnote_flow: bool,
    start_line: int,
    end: int,
) -> Option<int> {
    if !has_base && in_endnote_flow && start_line > 0 && end > start_line + 2 && para is Some && end
        <= para->0.line_segs@.len() && para->0.line_segs@[start_line].vertical_pos
        > para->0.line_segs@[start_line + 1].vertical_pos && ladder_ascends(
        para->0.line_segs@,
        start_line + 1,
        end,
    ) {
        Some(start_line + 1)
    } else {
        None
    }
}

/// Finds the line from which a continued endnote paragraph follows its stored
/// positions.
pub fn endnote_lazy_vpos_base_from(
    para: Option<&Paragraph>,
    has_base: bool,
    in_endnote_flow: bool,
    start_line: usize,
    end: usize,
) -> (r: Option<usize>)
    ensures
        match endnote_late_base(para, has_base, in_endnote_flow, start_line as int, end as int) {
            Some(line) => r == Some(line as usize) && line <= usize::MAX,
            None => r is None,
        },
{
    if has_base || !in_endnote_flow || start_line == 0 || end <= start_line || end - start_line <= 2 {
        return None;
    }
    match para {
        Some(p) => {
            if end > p.line_segs.len() {
                return None;
            }
            if p.line_segs[start_line].vertical_pos > p.line_segs[start_line + 1].vertical_pos
                && stored_ladder_ascends(p.line_segs.as_slice(), start_line + 1, end) {
                Some(start_line + 1)
            } else {
                None
            }
        },
        None => None,
    }
}

/// Whether the stored positions can place the lines around an object between them:
/// they describe the present text, never go back, and some line is moved.
pub fn topbottom_ladder_places_lines(
    para: Option<&Paragraph>,
    in_cell: bool,
    has_topbottom_float: bool,
    start_line: usize,
    end: usize,
) -> (r: bool)
    ensures
        r == (!in_cell && has_topbottom_float && (para matches Some(p)
            && !p.stored_text_partition_dirty && start_line <= end <= p.line_segs@.len() && (exists|
            i: int,
        |
            start_line <= i < end && (#[trigger] p.line_segs@[i]).vertical_pos > 0)
            && ladder_ascends(p.line_segs@, start_line as int, end as int))),
{
    if in_cell || !has_topbottom_float {
        return false;
    }
    match para {
        Some(p) => {
            if p.stored_text_partition_dirty || start_line > end || end > p.line_segs.len() {
                return false;
            }
            let mut moved: bool = false;
            for i in start_line..end
                invariant
                    end <= p.line_segs@.len(),
                    moved == exists|k: int|
                        start_line <= k < i && (#[trigger] p.line_segs@[k]).vertical_pos > 0,
            {
                if p.line_segs[i].vertical_pos > 0 {
                    assert(p.line_segs@[i as int].vertical_pos > 0);
                    moved = true;
                }
            }
            moved && stored_ladder_ascends(p.line_segs.as_slice(), start_line, end)
        },
        None => false,
    }
}

/// The line belongs to another column: its stored width is not that of the column.
pub open spec fn belongs_to_other_column(segment_width: i32, column_width: Option<i32>) -> bool {
    column_width matches Some(width) && segment_width > 0 && !(-WIDTH_TOLERANCE_HU <= segment_width
        - width <= WIDTH_TOLERANCE_HU)
}

/// Whether the line belongs to another column.
pub fn is_line_of_other_column(segment_width: i32, column_width: Option<i32>) -> (r: bool)
    ensures
        r == belongs_to_other_column(segment_width, column_width),
{
    match column_width {
        Some(width) => {
            let difference: i64 = segment_width as i64 - width as i64;
            segment_width > 0 && (difference > WIDTH_TOLERANCE_HU as i64 || difference
                < -(WIDTH_TOLERANCE_HU as i64))
        },
        None => false,
    }
}

/// The end of the range of lines to lay out after the lines were composed anew: a
/// request for the whole paragraph covers all new lines, any other keeps its range.
pub fn adjusted_end_line(
    start_line: usize,
    end_line: usize,
    composed_lines: usize,
    recomposed_lines: usize,
) -> (end: usize)
    ensures
        start_line == 0 && end_line >= composed_lines ==> end == recomposed_lines,
        !(start_line == 0 && end_line >= composed_lines) ==> end == if end_line
            <= recomposed_lines && start_line <= end_line {
            end_line
        } else if start_line <= recomposed_lines && recomposed_lines < end_line {
            recomposed_lines
        } else {
            start_line
        },
{
    if start_line == 0 && end_line >= composed_lines {
        recomposed_lines
    } else {
        let mut end: usize = end_line;
        if recomposed_lines < end {
            end = recomposed_lines;
        }
        if end < start_line {
            end = start_line;
        }
        end
    }
}

/// The control is given to the line by the stored assignment.
pub open spec fn assigned_to_line(assignment: Seq<(usize, usize)>, control: usize, line: usize) -> bool {
    exists|k: int|
        0 <= k < assignment.len() && (#[trigger] assignment[k]).0 == control && assignment[k].1
            == line
}

/// The objects that a stored assignment gives to a line.
pub open spec fn assigned_objects<W>(
    tac_offsets: Seq<(usize, W, usize)>,
    assignment: Seq<(usize, usize)>,
    line_idx: usize,
) -> Seq<(usize, W, usize)> {
    tac_offsets.filter(|t: (usize, W, usize)| assigned_to_line(assignment, t.2, line_idx))
}

fn is_assigned(assignment: &[(usize, usize)], control: usize, line: usize) -> (r: bool)
    ensures
        r == assigned_to_line(assignment@, control, line),
{
    for k in 0..assignment.len()
        invariant
            forall|i: int|
                0 <= i < k ==> !((#[trigger] assignment@[i]).0 == control && assignment@[i].1
                    == line),
    {
        if assignment[k].0 == control && assignment[k].1 == line {
            assert(assignment@[k as int].0 == control);
            return true;
        }
    }
    false
}

/// The objects that a stored assignment gives to a line, in order.
pub fn stored_line_objects<W: Copy>(
    tac_offsets: &[(usize, W, usize)],
    assignment: &[(usize, usize)],
    line_idx: usize,
) -> (r: Vec<(usize, W, usize)>)
    ensures
        r@ == assigned_objects(tac_offsets@, assignment@, line_idx),
{
    let ghost p = |t: (usize, W, usize)| assigned_to_line(assignment@, t.2, line_idx);
    let mut r: Vec<(usize, W, usize)> = Vec::new();
    proof {
        lemma_filter_start(tac_offsets@, p);
    }
    for i in 0..tac_offsets.len()
        invariant
            p == (|t: (usize, W, usize)| assigned_to_line(assignment@, t.2, line_idx)),
            r@ == tac_offsets@.take(i as int).filter(p),
    {
        proof {
            lemma_filter_step(tac_offsets@, p, i as int);
        }
        let offset: (usize, W, usize) = tac_offsets[i];
        if is_assigned(assignment, offset.2, line_idx) {
            r.push(offset);
        }
    }
    assert(tac_offsets@.take(tac_offsets@.len() as int) == tac_offsets@);
    r
}

/// The objects drawn on a line: those of the stored assignment where there is one,
/// else the line's share of several empty lines, else those that it owns.
pub open spec fn objects_on_line<W>(
    comp: ComposedParagraph,
    tac_offsets: Seq<(usize, W, usize)>,
    assignment: Option<Seq<(usize, usize)>>,
    line_idx: usize,
) -> Seq<(usize, W, usize)> {
    match assignment {
        Some(a) => assigned_objects(tac_offsets, a, line_idx),
        None => match repeated_empty_line_objects(comp, tac_offsets, line_idx as int) {
            Some(share) => share,
            None => tac_offsets.filter(
                |t: (usize, W, usize)| line_owns(comp, line_idx as int, t.0 as int),
            ),
        },
    }
}

/// The objects that count toward a line's width: those of the stored assignment
/// where there is one, else those that the line draws.
pub open spec fn objects_in_width<W>(
    comp: ComposedParagraph,
    tac_offsets: Seq<(usize, W, usize)>,
    assignment: Option<Seq<(usize, usize)>>,
    line_idx: usize,
) -> Seq<(usize, W, usize)> {
    match assignment {
        Some(a) => assigned_objects(tac_offsets, a, line_idx),
        None => width_objects(comp, tac_offsets, line_idx as int),
    }
}

/// A borrowed assignment as a sequence.
pub open spec fn assignment_view(assignment: Option<&[(usize, usize)]>) -> Option<
    Seq<(usize, usize)>,
> {
    match assignment {
        Some(a) => Some(a@),
        None => None,
    }
}

/// The objects drawn on a line.
pub fn line_objects<W: Copy>(
    comp: &ComposedParagraph,
    tac_offsets: &[(usize, W, usize)],
    assignment: Option<&[(usize, usize)]>,
    line_idx: usize,
) -> (r: Vec<(usize, W, usize)>)
    requires
        comp.fits(),
    ensures
        r@ == objects_on_line(*comp, tac_offsets@, assignment_view(assignment), line_idx),
{
    if let Some(a) = assignment {
        return stored_line_objects(tac_offsets, a, line_idx);
    }
    if let Some(share) = repeated_empty_tac_line_offset(comp, tac_offsets, line_idx) {
        return share;
    }
    tac_offsets_for_line(comp, tac_offsets, line_idx)
}

/// The objects that count toward a line's width.
pub fn line_width_objects<W: Copy>(
    comp: &ComposedParagraph,
    tac_offsets: &[(usize, W, usize)],
    assignment: Option<&[(usize, usize)]>,
    line_idx: usize,
) -> (r: Vec<(usize, W, usize)>)
    requires
        comp.fits(),
    ensures
        r@ == objects_in_width(*comp, tac_offsets@, assignment_view(assignment), line_idx),
{
    if let Some(a) = assignment {
        return stored_line_objects(tac_offsets, a, line_idx);
    }
    tac_offsets_for_line_width(comp, tac_offsets, line_idx)
}

/// The endnote reference with this index stands at the front of the first line.
pub open spec fn is_leading_endnote(
    para: Paragraph,
    index: int,
    first_line_char_start: usize,
) -> bool {
    &&& 0 <= index < para.controls@.len()
    &&& para.controls@[index] is Endnote
    &&& index < para.control_positions@.len()
    &&& para.control_positions@[index] == first_line_char_start
}

/// Whether a note reference is drawn as text in front of the paragraph.
pub fn is_leading_endnote_marker_rendered_as_prefix(
    para: Option<&Paragraph>,
    control_index: usize,
    line_idx: usize,
    start_line: usize,
    marker_pos: usize,
    line_char_start: usize,
) -> (r: bool)
    ensures
        r == (line_idx == 0 && start_line == 0 && marker_pos == line_char_start && (
        para matches Some(p) && control_index < p.controls@.len()
            && p.controls@[control_index as int] is Endnote)),
{
    let is_endnote: bool = match para {
        Some(p) => control_index < p.controls.len() && matches!(
            p.controls[control_index],
            Control::Endnote(_)
        ),
        None => false,
    };
    line_idx == start_line && start_line == 0 && marker_pos == line_char_start && is_endnote
}

/// The endnote references that are drawn as text in front of the first line, in
/// order.
pub fn leading_endnote_markers(
    para: &Paragraph,
    start_line: usize,
    first_line_char_start: usize,
) -> (r: Vec<usize>)
    ensures
        r@ == if start_line == 0 {
            indices(para.controls@.len()).filter(
                |i: usize| is_leading_endnote(*para, i as int, first_line_char_start),
            )
        } else {
            Seq::empty()
        },
{
    let ghost p = |i: usize| is_leading_endnote(*para, i as int, first_line_char_start);
    let ghost all = indices(para.controls@.len());
    let mut r: Vec<usize> = Vec::new();
    if start_line > 0 {
        return r;
    }
    proof {
        lemma_filter_start(all, p);
    }
    for i in 0..para.controls.len()
        invariant
            start_line == 0,
            p == (|i: usize| is_leading_endnote(*para, i as int, first_line_char_start)),
            all == indices(para.controls@.len()),
            r@ == all.take(i as int).filter(p),
    {
        proof {
            lemma_filter_step(all, p, i as int);
        }
        if i < para.control_positions.len() && is_leading_endnote_marker_rendered_as_prefix(
            Some(para),
            i,
            0,
            start_line,
            para.control_positions[i],
            first_line_char_start,
        ) {
            r.push(i);
        }
    }
    r
}

} // verus!
