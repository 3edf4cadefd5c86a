//! What the box of a line, its alignment and the way on behind it promise.

use vstd::prelude::*;

use crate::composed::runs_text;
use crate::composed::ComposedLine;
use crate::composed::ComposedParagraph;
use crate::line_advance::border_is_cut;
use crate::line_advance::completes_visible_stored_row;
use crate::line_advance::height_is_left_out;
use crate::line_advance::line_advance;
use crate::line_advance::stored_line_has_own_vpos;
use crate::line_advance::EmptyLineFacts;
use crate::line_advance::LineAdvance;
use crate::line_align::align_shift_of;
use crate::line_align::align_width;
use crate::line_align::center_excludes_trailing_ws;
use crate::line_align::excludes_terminal_tracking;
use crate::line_align::is_answer_sheet_number_label;
use crate::line_align::non_cell_tac_only_line;
use crate::line_align::object_row_shift;
use crate::line_align::packs_label_as_right;
use crate::line_align::renders_synthetic_wrap_trailing_space;
use crate::line_align::right_align_excludes_trailing_ws;
use crate::line_align::AlignShift;
use crate::line_align::AlignWidth;
use crate::line_box::border_edge;
use crate::line_box::box_shape;
use crate::line_box::cell_overflow;
use crate::line_box::collects_border;
use crate::line_box::content_bottom;
use crate::line_box::draws_head;
use crate::line_box::empty_paragraph_height;
use crate::line_box::is_equation_tail;
use crate::line_box::is_moved_by_head;
use crate::line_box::is_squeezed_line;
use crate::line_box::line_top;
use crate::line_box::metrics_source;
use crate::line_box::overflow_report;
use crate::line_box::reserved_height;
use crate::line_box::text_sinks_to_shape_foot;
use crate::line_box::uses_stored_text_height;
use crate::line_box::BorderEdge;
use crate::line_box::BoxShape;
use crate::line_box::CellOverflow;
use crate::line_box::ContentBottom;
use crate::line_box::EmptyHeight;
use crate::line_box::LineTop;
use crate::line_box::MetricsSource;
use crate::line_box::OverflowReport;
use crate::line_box::ReservedHeight;
use crate::model::Alignment;
use crate::model::Control;
use crate::model::Paragraph;
use crate::text::all_white;
use crate::text::trim;

verus! {

/// A line that the file stored starts at its own stored position, if at any: the rows of a
/// frame always, those of an endnote unless a wrapped line reaches below, those of a column
/// with an object between the lines where it has no endnote. All others follow the line
/// before.
pub proof fn lemma_line_starts_where_it_is_stored(
    para: &Paragraph,
    line_idx: usize,
    frame_rows: bool,
    endnote: bool,
    wrapped_below: bool,
    column: bool,
    top: LineTop,
)
    requires
        call_ensures(
            line_top,
            (Some(para), line_idx, frame_rows, endnote, wrapped_below, column),
            top,
        ),
    ensures
        line_idx >= para.line_segs@.len() ==> top == LineTop::Flow,
        line_idx < para.line_segs@.len() ==> {
            let pos = para.line_segs@[line_idx as int].vertical_pos;
            &&& frame_rows ==> top == LineTop::FrameRow(pos)
            &&& !frame_rows && endnote && !wrapped_below ==> top == LineTop::EndnoteLadder(pos)
            &&& !frame_rows && endnote && wrapped_below ==> top == LineTop::WrappedEnd
            &&& !frame_rows && !endnote && column ==> top == LineTop::ColumnLadder(pos)
            &&& !frame_rows && !endnote && !column ==> top == LineTop::Flow
        },
{
}

/// The stored height stands unless the paragraph is empty and this is its first line, or the
/// stored lines are mere fillers and a font says more.
pub proof fn lemma_height_comes_from_the_file(
    line_idx: usize,
    empty: bool,
    fillers: bool,
    font: bool,
    leads_in: bool,
    source: MetricsSource,
)
    requires
        call_ensures(metrics_source, (line_idx, empty, fillers, font, leads_in), source),
    ensures
        !empty && !fillers ==> source == MetricsSource::Stored,
        !empty && (!font || leads_in) ==> source == MetricsSource::Stored,
        line_idx > 0 ==> source != MetricsSource::EmptyParagraph,
        line_idx == 0 && empty ==> source == MetricsSource::EmptyParagraph,
        (line_idx > 0 || !empty) && fillers && font && !leads_in ==> source == MetricsSource::Font,
{
}

/// The stored height of text is that of plain text: a control is enough to doubt it, and a
/// cell is unless the file's layout is followed.
pub proof fn lemma_stored_text_height(para: &Paragraph, follows: bool, in_cell: bool, r: bool)
    requires
        call_ensures(uses_stored_text_height, (Some(para), follows, in_cell), r),
    ensures
        para.controls@.len() > 0 ==> !r,
        in_cell && !follows ==> !r,
        para.controls@.len() == 0 && !in_cell ==> r,
        para.controls@.len() == 0 && follows ==> r,
{
}

/// A line that leads into a picture is as high as its font. So is a body line that a shape
/// makes high, and there the text sinks to the foot of the shape; in a cell the height
/// stays.
pub proof fn lemma_box_of_a_line(
    leads_in: bool,
    shape: bool,
    explicit: bool,
    in_cell: bool,
    tall: bool,
    r: BoxShape,
    sinks: bool,
)
    requires
        call_ensures(box_shape, (leads_in, shape, explicit, in_cell, tall), r),
        call_ensures(text_sinks_to_shape_foot, (shape, explicit, tall), sinks),
    ensures
        r == BoxShape::LeadIn <==> leads_in,
        r == BoxShape::BesideShape ==> sinks && !in_cell && !leads_in,
        sinks && !in_cell && !leads_in ==> r == BoxShape::BesideShape,
        sinks ==> shape && tall && !explicit,
        shape && tall && !explicit ==> sinks,
        in_cell && !leads_in ==> r == BoxShape::Computed,
{
}

/// Text that is far too wide is either clipped or compressed, never both; it is clipped only
/// in a cell where nothing stored says that it fits, and text that is not far too wide is
/// neither.
pub proof fn lemma_text_far_too_wide(
    in_cell: bool,
    far: bool,
    line_fits: bool,
    ladder_fits: bool,
    r: CellOverflow,
)
    requires
        call_ensures(cell_overflow, (in_cell, far, line_fits, ladder_fits), r),
    ensures
        !far ==> !r.suppressed && !r.converges,
        far && line_fits ==> r.converges && !r.suppressed,
        far && in_cell && !line_fits && !ladder_fits ==> r.suppressed && !r.converges,
        far && ladder_fits ==> !r.suppressed,
        !in_cell ==> !r.suppressed,
        r.converges ==> line_fits,
{
}

/// A line is squeezed only in a cell that asks for it, where it is too wide, has two
/// characters and no tab; and there it is.
pub proof fn lemma_squeezed_line(
    squeezed: bool,
    in_cell: bool,
    count: usize,
    tabs: bool,
    too_wide: bool,
    r: bool,
)
    requires
        call_ensures(is_squeezed_line, (squeezed, in_cell, count, tabs, too_wide), r),
    ensures
        !squeezed || !in_cell || !too_wide || tabs || count < 2 ==> !r,
        squeezed && in_cell && too_wide && !tabs && count >= 2 ==> r,
{
}

/// The head is drawn once, in front of the paragraph's first line; the other lines of a
/// paragraph with a head are moved by it, and no line is both.
pub proof fn lemma_head_is_drawn_once(
    has_head: bool,
    line_idx: usize,
    start_line: usize,
    drawn: bool,
    moved: bool,
)
    requires
        call_ensures(draws_head, (line_idx, start_line), drawn),
        call_ensures(is_moved_by_head, (has_head, line_idx, start_line), moved),
        start_line <= line_idx,
    ensures
        drawn <==> line_idx == 0,
        has_head ==> drawn != moved,
        !has_head ==> !moved,
{
}

/// The tail of an endnote is its last line, outside of cells.
pub proof fn lemma_equation_tail(
    body: bool,
    in_cell: bool,
    endnote: bool,
    line_idx: usize,
    end: usize,
    equations: bool,
    r: bool,
)
    requires
        call_ensures(is_equation_tail, (body, in_cell, endnote, line_idx, end, equations), r),
        line_idx < end,
    ensures
        !body || in_cell || !endnote || !equations ==> !r,
        line_idx < end - 1 ==> !r,
        body && !in_cell && endnote && equations && line_idx == end - 1 ==> r,
{
}

/// A blank line is never reported. A body line is where it ends below its column and that
/// is not tolerated, a line of a cell where it starts below the page.
pub proof fn lemma_reported_overflow(
    body: bool,
    in_cell: bool,
    blank: bool,
    below_column: bool,
    tolerated: bool,
    below_page: bool,
    r: OverflowReport,
)
    requires
        call_ensures(
            overflow_report,
            (body, in_cell, blank, below_column, tolerated, below_page),
            r,
        ),
    ensures
        blank ==> r == OverflowReport::Silent,
        !blank && in_cell ==> (r == OverflowReport::Page <==> below_page),
        !blank && in_cell ==> r != OverflowReport::Column,
        !blank && !in_cell ==> (r == OverflowReport::Column <==> body && below_column
            && !tolerated),
        !in_cell ==> r != OverflowReport::Page,
{
}

/// A line keeps free what was drawn in it; else only a line with text that does not lead
/// into a picture does: for its owner, or its stored height if it is high and the paragraph
/// has a picture or shape in the text.
pub proof fn lemma_height_kept_free(
    para: &Paragraph,
    drew: bool,
    white: bool,
    leads_in: bool,
    owner: bool,
    high: bool,
    i: int,
    r: ReservedHeight,
)
    requires
        call_ensures(reserved_height, (Some(para), drew, white, leads_in, owner, high), r),
    ensures
        drew <==> r == ReservedHeight::Drawn,
        !drew && (white || leads_in) ==> r == ReservedHeight::Nothing,
        !drew && !white && !leads_in && owner ==> r == ReservedHeight::Owner,
        !drew && !owner && !high ==> r == ReservedHeight::Nothing,
        !drew && !white && !leads_in && !owner && high && 0 <= i < para.controls@.len() && (
        para.controls@[i] matches Control::Picture(picture) && picture.common.treat_as_char) ==> r
            == ReservedHeight::StoredLine,
        !drew && !owner && para.controls@.len() == 0 ==> r == ReservedHeight::Nothing,
{
}

/// Outside of cells a line with a height moves the lowest point of its paragraph: to its
/// bottom, or, where it is blank, to its top.
pub proof fn lemma_lowest_point(in_cell: bool, skips: bool, blank: bool, r: ContentBottom)
    requires
        call_ensures(content_bottom, (in_cell, skips, blank), r),
    ensures
        in_cell || skips <==> r == ContentBottom::Unchanged,
        !in_cell && !skips && blank ==> r == ContentBottom::LineTop,
        !in_cell && !skips && !blank ==> r == ContentBottom::LineBottom,
{
}

/// A line that the flow passed over or that stays on its ladder adds nothing to the border;
/// the spacing counts only at the end of a cell.
pub proof fn lemma_edge_of_a_border(advance: LineAdvance, edge: BorderEdge)
    requires
        call_ensures(border_edge, (advance,), edge),
    ensures
        edge.with_spacing ==> edge.line_box && advance == LineAdvance::CellEnd,
        advance == LineAdvance::Stay || advance is Ladder ==> !edge.line_box,
        advance == LineAdvance::Full || advance == LineAdvance::RowPiece ==> edge.line_box
            && !edge.with_spacing,
        advance == LineAdvance::CellEnd ==> edge.with_spacing,
{
}

/// A border is drawn where there is one and something to surround, in cells only where these
/// collect borders.
pub proof fn lemma_border_is_collected(
    id: u16,
    in_cell: bool,
    collects: bool,
    has_height: bool,
    r: bool,
)
    requires
        call_ensures(collects_border, (id, in_cell, collects, has_height), r),
    ensures
        id == 0 || !has_height ==> !r,
        in_cell && !collects ==> !r,
        id > 0 && has_height && !in_cell ==> r,
        id > 0 && has_height && collects ==> r,
{
}

/// A paragraph without lines is as high as its character shape says; at the end of a cell
/// without spacing, but for the oldest layout. Without a shape its objects count, and
/// without these the smallest line.
pub proof fn lemma_height_of_an_empty_paragraph(
    metrics: bool,
    objects: bool,
    in_cell: bool,
    last: bool,
    oldest: bool,
    r: EmptyHeight,
)
    requires
        call_ensures(empty_paragraph_height, (metrics, objects, in_cell, last, oldest), r),
    ensures
        metrics <==> r == EmptyHeight::Metrics || r == EmptyHeight::FontSize,
        r == EmptyHeight::FontSize ==> in_cell && last && !oldest,
        metrics && in_cell && last && !oldest ==> r == EmptyHeight::FontSize,
        !metrics && objects ==> r == EmptyHeight::Objects,
        !metrics && !objects ==> r == EmptyHeight::Smallest,
{
}

/// Behind a line the flow moves on by its height and spacing, unless something speaks
/// against it: then it stays, keeps to its row, ends with the cell, or follows the ladder of
/// an endnote.
pub proof fn lemma_flow_moves_on(
    endnote: bool,
    skips: bool,
    last_para: bool,
    in_cell: bool,
    line_idx: usize,
    end: usize,
    continues: bool,
    extra_rows: bool,
    wrapped: bool,
    next_in_row: bool,
    r: LineAdvance,
)
    requires
        call_ensures(
            line_advance,
            (
                endnote,
                skips,
                last_para,
                in_cell,
                line_idx,
                end,
                continues,
                extra_rows,
                wrapped,
                next_in_row,
            ),
            r,
        ),
        line_idx < end,
    ensures
        !endnote && !skips && !next_in_row && (!in_cell || !last_para || line_idx + 1 < end) ==> r
            == LineAdvance::Full,
        !endnote && in_cell && last_para && line_idx + 1 == end ==> r == LineAdvance::CellEnd,
        !endnote && skips && (!in_cell || !last_para || line_idx + 1 < end) ==> r
            == LineAdvance::Stay,
        !endnote && !skips && next_in_row && (!in_cell || !last_para || line_idx + 1 < end) ==> r
            == LineAdvance::RowPiece,
        endnote <==> r is Ladder,
        r matches LineAdvance::Ladder { height, trailing, keeps_end } ==> {
            &&& height != skips
            &&& trailing ==> height
            &&& height && line_idx + 1 < end ==> trailing
            &&& height && line_idx + 1 == end ==> trailing == continues
            &&& keeps_end <==> extra_rows || wrapped
        },
{
}

/// A border is cut at a start that is not the paragraph's, and at an end that is not.
pub proof fn lemma_border_of_a_part(start: usize, end: usize, lines: usize, r: (bool, bool))
    requires
        call_ensures(border_is_cut, (start, end, lines), r),
    ensures
        start == 0 <==> !r.0,
        end >= lines <==> !r.1,
{
}

/// A stored line has a position of its own in an endnote, behind the first line, where it
/// does not stand at that of the line before.
pub proof fn lemma_own_position(para: &Paragraph, endnote: bool, line_idx: usize, r: bool)
    requires
        call_ensures(stored_line_has_own_vpos, (Some(para), endnote, line_idx), r),
    ensures
        !endnote || line_idx == 0 || line_idx >= para.line_segs@.len() ==> !r,
        endnote && 0 < line_idx < para.line_segs@.len() ==> (r <==> para.line_segs@[line_idx
            - 1].vertical_pos != para.line_segs@[line_idx as int].vertical_pos),
{
}

/// A line with text keeps its height, unless it leads in an equation outside of a cell; so
/// does one in a paragraph without any object or note of such a kind.
pub proof fn lemma_line_with_text_keeps_its_height<W>(
    facts: EmptyLineFacts,
    para: Option<&Paragraph>,
    comp: ComposedParagraph,
    tac_offsets: Seq<(usize, W, usize)>,
    line_idx: int,
)
    requires
        facts.in_cell,
    ensures
        !facts.runs_all_whitespace ==> !height_is_left_out(
            facts,
            para,
            comp,
            tac_offsets,
            line_idx,
        ),
        !facts.has_square_wrap && !facts.repeats_reserved_picture ==> !height_is_left_out(
            facts,
            para,
            comp,
            tac_offsets,
            line_idx,
        ),
        facts.completes_row && !facts.repeats_reserved_picture ==> !height_is_left_out(
            facts,
            para,
            comp,
            tac_offsets,
            line_idx,
        ),
{
}

/// A blank line that repeats the picture of the line before is left out, unless it reserves
/// one itself or has a place of its own.
pub proof fn lemma_repeated_picture_is_left_out<W>(
    facts: EmptyLineFacts,
    para: Option<&Paragraph>,
    comp: ComposedParagraph,
    tac_offsets: Seq<(usize, W, usize)>,
    line_idx: int,
)
    requires
        facts.runs_all_whitespace,
        facts.repeats_reserved_picture,
        !facts.reserves_picture,
        !facts.has_own_position,
    ensures
        height_is_left_out(facts, para, comp, tac_offsets, line_idx),
{
}

/// A blank line in front of all objects that text flows around is a guide and is left out,
/// where it holds no object and owes no row its height.
pub proof fn lemma_guide_line_is_left_out<W>(
    facts: EmptyLineFacts,
    para: Option<&Paragraph>,
    comp: ComposedParagraph,
    tac_offsets: Seq<(usize, W, usize)>,
    line_idx: int,
)
    requires
        facts.runs_all_whitespace,
        facts.has_square_wrap,
        !facts.has_ole_square_wrap,
        !facts.completes_row,
        comp.tac_controls@.len() == 0,
    ensures
        height_is_left_out(facts, para, comp, tac_offsets, line_idx),
{
}

/// A stored row owes its height where a piece of it in front shows text; a line that starts
/// a row of its own owes none.
pub proof fn lemma_row_owes_its_height(
    para: &Paragraph,
    comp: &ComposedParagraph,
    in_cell: bool,
    fragment: bool,
    line_idx: usize,
    r: bool,
)
    requires
        call_ensures(
            completes_visible_stored_row,
            (Some(para), comp, in_cell, fragment, line_idx),
            r,
        ),
    ensures
        !in_cell || !fragment || line_idx == 0 || line_idx >= para.line_segs@.len() ==> !r,
        0 < line_idx < para.line_segs@.len() && para.line_segs@[line_idx - 1].vertical_pos
            != para.line_segs@[line_idx as int].vertical_pos ==> !r,
        in_cell && fragment && 0 < line_idx < para.line_segs@.len() && line_idx - 1
            < comp.lines@.len() && para.line_segs@[line_idx - 1].vertical_pos
            == para.line_segs@[line_idx as int].vertical_pos && !crate::line_kinds::runs_are_white(
            comp.lines@[line_idx - 1].runs@,
        ) ==> r,
{
    if 0 < line_idx < para.line_segs@.len() {
        let last = line_idx - 1;
        assert forall|i: int| 0 <= i < line_idx && crate::line_advance::same_row(
            *para,
            i,
            line_idx as int,
        ) implies para.line_segs@[last].vertical_pos
            == para.line_segs@[line_idx as int].vertical_pos by {}
        if para.line_segs@[last].vertical_pos == para.line_segs@[line_idx as int].vertical_pos {
            assert(crate::line_advance::same_row(*para, last, line_idx as int));
        }
    }
}

/// A centred line is moved by half of what is free, a line on the right by all of it; any
/// other starts at its margin. A line of objects keeps its stored place when it would be
/// centred, and a distributed line of one character is centred.
pub proof fn lemma_alignment_moves_the_line(packed: bool, objects: bool, count: usize)
    ensures
        align_shift_of(Alignment::Left, packed, objects, count) == AlignShift::Margin,
        align_shift_of(Alignment::Justify, packed, objects, count) == AlignShift::Margin,
        align_shift_of(Alignment::Split, packed, objects, count) == AlignShift::Margin,
        align_shift_of(Alignment::Right, packed, objects, count) == AlignShift::FullVisible,
        packed ==> align_shift_of(Alignment::Center, packed, objects, count) == AlignShift::Full,
        !packed && objects ==> align_shift_of(Alignment::Center, packed, objects, count)
            == AlignShift::Margin,
        !packed && !objects ==> align_shift_of(Alignment::Center, packed, objects, count)
            == AlignShift::HalfVisible,
        count > 1 || objects ==> align_shift_of(Alignment::Distribute, packed, objects, count)
            == AlignShift::Margin,
        count <= 1 && !objects ==> align_shift_of(Alignment::Distribute, packed, objects, count)
            == AlignShift::Half,
{
}

/// A row of objects follows its alignment: half of what is free for the centre, all of it
/// for the right; one that does not follow stays at its margin.
pub proof fn lemma_alignment_moves_objects(
    alignment: Alignment,
    follows: bool,
    shift: AlignShift,
)
    requires
        call_ensures(object_row_shift, (alignment, follows), shift),
    ensures
        !follows ==> shift == AlignShift::Margin,
        follows && (alignment == Alignment::Center || alignment == Alignment::Distribute) ==> shift
            == AlignShift::Half,
        follows && alignment == Alignment::Right ==> shift == AlignShift::Full,
        alignment == Alignment::Left || alignment == Alignment::Justify || alignment
            == Alignment::Split ==> shift == AlignShift::Margin,
{
}

/// Only a line in a cell that its alignment does not fill is aligned by anything but its
/// natural width, and a squeezed line, which fills its room.
pub proof fn lemma_width_to_align_by(
    squeeze: bool,
    label: bool,
    extra: bool,
    widens: bool,
    in_cell: bool,
    justify: bool,
    distribute: bool,
    count: usize,
    tabs: bool,
    r: AlignWidth,
)
    requires
        call_ensures(
            align_width,
            (squeeze, label, extra, widens, in_cell, justify, distribute, count, tabs),
            r,
        ),
    ensures
        squeeze <==> r == AlignWidth::Available,
        !squeeze && (!in_cell || justify || distribute || count <= 1) ==> r == AlignWidth::Natural,
        r == AlignWidth::Remeasured ==> label && extra && !tabs,
        r == AlignWidth::Widened ==> widens,
        !squeeze && in_cell && !justify && !distribute && count > 1 ==> {
            &&& label && extra && !tabs ==> r == AlignWidth::Remeasured
            &&& widens && !label ==> r == AlignWidth::Widened
            &&& !widens && !label ==> r == AlignWidth::Natural
        },
{
}

/// The space of a soft wrap is drawn where the layout broke the line itself and text
/// follows: not in the last line, not in a line of the file, and only if there is a space.
pub proof fn lemma_space_of_a_soft_wrap(
    para: &Paragraph,
    line: &ComposedLine,
    line_idx: usize,
    last: bool,
    r: bool,
)
    requires
        call_ensures(
            renders_synthetic_wrap_trailing_space,
            (Some(para), line, line_idx, last),
            r,
        ),
    ensures
        last ==> !r,
        line_idx >= para.line_segs@.len() ==> !r,
        line_idx < para.line_segs@.len()
            && !para.line_segs@[line_idx as int].implementation_property ==> !r,
        runs_text(line.runs@).len() == 0 ==> !r,
        runs_text(line.runs@).len() > 0 && runs_text(line.runs@).last() != ' ' ==> !r,
        !last && line_idx < para.line_segs@.len()
            && para.line_segs@[line_idx as int].implementation_property && runs_text(
            line.runs@,
        ).len() > 0 && runs_text(line.runs@).last() == ' ' ==> r,
{
}

/// The label of an answer sheet is four letters in a cell, white space around them left
/// aside; it is set to the right only where its narrow cell would center it and it nearly
/// fills the cell.
pub proof fn lemma_label_of_an_answer_sheet(
    in_cell: bool,
    line: &ComposedLine,
    alignment: Alignment,
    tabs: bool,
    narrow: bool,
    fills: bool,
    label: bool,
    packed: bool,
)
    requires
        call_ensures(is_answer_sheet_number_label, (in_cell, line), label),
        call_ensures(packs_label_as_right, (label, alignment, tabs, narrow, fills), packed),
    ensures
        label ==> in_cell && trim(runs_text(line.runs@)).len() == 4 && trim(
            runs_text(line.runs@),
        )[0] == '수' && trim(runs_text(line.runs@))[1] == '험' && trim(runs_text(line.runs@))[2]
            == '번' && trim(runs_text(line.runs@))[3] == '호',
        packed ==> label && alignment == Alignment::Center && !tabs && narrow && fills,
        label && alignment == Alignment::Center && !tabs && narrow && fills ==> packed,
        in_cell && trim(runs_text(line.runs@)) == seq!['수', '험', '번', '호'] ==> label,
{
}

/// A line of objects is one without visible text, outside of cells, that holds an equation.
pub proof fn lemma_line_of_objects(
    in_cell: bool,
    para: &Paragraph,
    line: &ComposedLine,
    objects: &[(usize, u32, usize)],
    r: bool,
)
    requires
        call_ensures(non_cell_tac_only_line::<u32>, (in_cell, Some(para), line, objects), r),
    ensures
        in_cell || !all_white(runs_text(line.runs@)) || objects@.len() == 0 ==> !r,
        r ==> exists|k: int|
            #![trigger objects@[k]]
            0 <= k < objects@.len() && objects@[k].2 < para.controls@.len()
                && para.controls@[objects@[k].2 as int] is Equation,
{
}

/// Spaces at the end of a centred line are left out in the last line of a paragraph, if it
/// shows something and holds no object; in no other.
pub proof fn lemma_centred_line_leaves_out_spaces(
    alignment: Alignment,
    last: bool,
    objects: bool,
    line: &ComposedLine,
    i: int,
    r: bool,
)
    requires
        call_ensures(center_excludes_trailing_ws, (alignment, last, objects, line), r),
    ensures
        alignment != Alignment::Center || !last || objects ==> !r,
        (forall|k: int|
            #![trigger runs_text(line.runs@)[k]]
            0 <= k < runs_text(line.runs@).len() ==> runs_text(line.runs@)[k] == ' ') ==> !r,
        alignment == Alignment::Center && last && !objects && 0 <= i < runs_text(line.runs@).len()
            && runs_text(line.runs@)[i] != ' ' ==> r,
{
    if alignment == Alignment::Center && last && !objects && 0 <= i < runs_text(line.runs@).len()
        && runs_text(line.runs@)[i] != ' ' {
        assert(line.text()[i] != ' ');
    }
}

/// A line on the right leaves out the spaces at its end, but in a cell with an object in the
/// line that is no text box.
pub proof fn lemma_right_line_leaves_out_spaces(
    alignment: Alignment,
    in_cell: bool,
    textbox: bool,
    objects: bool,
    r: bool,
)
    requires
        call_ensures(right_align_excludes_trailing_ws, (alignment, in_cell, textbox, objects), r),
    ensures
        alignment != Alignment::Right ==> !r,
        in_cell && !textbox && objects ==> !r,
        alignment == Alignment::Right && !in_cell ==> r,
        alignment == Alignment::Right && textbox ==> r,
        alignment == Alignment::Right && !objects ==> r,
{
}

/// The tracking behind the last character counts, but for a centred or right line of a cell
/// that is set without tabs or extra spacing.
pub proof fn lemma_tracking_at_the_end(
    in_cell: bool,
    alignment: Alignment,
    packed: bool,
    tabs: bool,
    extra: bool,
    r: bool,
)
    requires
        call_ensures(excludes_terminal_tracking, (in_cell, alignment, packed, tabs, extra), r),
    ensures
        !in_cell || packed || tabs || extra ==> !r,
        alignment == Alignment::Left || alignment == Alignment::Justify || alignment
            == Alignment::Split || alignment == Alignment::Distribute ==> !r,
        in_cell && !packed && !tabs && !extra && (alignment == Alignment::Center || alignment
            == Alignment::Right) ==> r,
{
}

/// Outside of cells a guide in front of an equation is left out; a blank line beside an
/// object that text flows around is not where it holds an object itself.
pub proof fn lemma_guides_and_objects<W>(
    facts: EmptyLineFacts,
    para: Option<&Paragraph>,
    comp: ComposedParagraph,
    tac_offsets: Seq<(usize, W, usize)>,
    line_idx: int,
)
    ensures
        !facts.in_cell && crate::line_kinds::is_leading_equation_guide(
            para,
            comp,
            tac_offsets,
            line_idx,
        ) ==> height_is_left_out(facts, para, comp, tac_offsets, line_idx),
        facts.in_cell && !facts.repeats_reserved_picture
            && crate::line_kinds::has_object_before_next_line(comp, line_idx)
            ==> !height_is_left_out(facts, para, comp, tac_offsets, line_idx),
        facts.in_cell && facts.has_ole_square_wrap && !facts.repeats_reserved_picture
            ==> !height_is_left_out(facts, para, comp, tac_offsets, line_idx),
{
}

} // verus!
