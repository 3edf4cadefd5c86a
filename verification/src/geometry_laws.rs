//! What the place of a line promises: which neighbour makes a line narrow, and what a line
//! beside an object keeps free.

use vstd::prelude::*;

use crate::composed::ComposedParagraph;
use crate::line_geometry::authoritative_stored_line_start;
use crate::line_geometry::ends_paragraph;
use crate::line_geometry::hwp5_stored_line_start_eligible;
use crate::line_geometry::inline_segment_is_paragraph_width;
use crate::line_geometry::stored_box_replaces_margins;
use crate::line_geometry::stored_ladder_width;
use crate::line_geometry::stored_seg_denies_indent;
use crate::line_geometry::stored_single_line_width;
use crate::line_geometry::tac_stored_band_is_outer_box;
use crate::line_geometry::widths_are_mixed;
use crate::line_geometry::wrap_zone;
use crate::line_geometry::LineGeometryFacts;
use crate::line_geometry::WrapZone;
use crate::model::Alignment;
use crate::model::LineSeg;
use crate::model::Paragraph;
use crate::model::Table;

verus! {

/// The paragraph's own picture or shape that text flows around is reason enough: every
/// narrow stored line keeps its stored place.
pub proof fn lemma_own_object_narrows_a_line(facts: LineGeometryFacts)
    requires
        facts.stored_geometry_source,
        facts.segment_width > 0,
        facts.segment_width + facts.column_start < facts.column_width - 200 || (facts.column_start
            > 0 && facts.segment_width < facts.column_width),
        facts.has_square_wrap,
    ensures
        facts.follows_stored_line(),
{
}

/// A table in the line is reason enough, unless the stored width is the paragraph's own.
pub proof fn lemma_table_in_the_line_narrows_it(facts: LineGeometryFacts)
    requires
        facts.stored_geometry_source,
        facts.segment_width > 0,
        facts.segment_width + facts.column_start < facts.column_width - 200 || (facts.column_start
            > 0 && facts.segment_width < facts.column_width),
        facts.has_inline_table,
        !facts.inline_table_fills_paragraph,
    ensures
        facts.follows_stored_line(),
{
}

/// A body line of a paragraph with narrow and wide lines that ends short of the column, in
/// the zone beside an object, keeps its stored place: the object belongs to another
/// paragraph.
pub proof fn lemma_foreign_object_narrows_a_line(facts: LineGeometryFacts)
    requires
        facts.stored_geometry_source,
        !facts.in_cell,
        facts.mixed_widths,
        facts.in_wrap_zone,
        facts.segment_width > 0,
        facts.segment_width + facts.column_start < facts.column_width - 200,
    ensures
        facts.follows_stored_line(),
{
}

/// An empty body paragraph whose line starts inside the column, and not at the paragraph's
/// own margin, keeps its stored place.
pub proof fn lemma_empty_line_beside_an_object_is_narrow(facts: LineGeometryFacts)
    requires
        facts.stored_geometry_source,
        !facts.in_cell,
        facts.empty_paragraph,
        0 < facts.segment_width < facts.column_width,
        facts.column_start > 0,
        facts.column_start - facts.own_margin > 200 || facts.own_margin - facts.column_start > 200,
    ensures
        facts.follows_stored_line(),
{
}

/// A body paragraph whose lines are all of one width, start at the column's edge and lack
/// more than 1200 units of the column keeps its stored width wherever an object of the page
/// accounts for the gap.
pub proof fn lemma_page_object_narrows_a_line(facts: LineGeometryFacts)
    requires
        facts.stored_geometry_source,
        !facts.in_cell,
        !facts.mixed_widths,
        facts.column_start == 0,
        facts.segment_width > 0,
        facts.column_width - facts.segment_width > 1200,
        facts.float_accounts_for_gap,
    ensures
        facts.follows_stored_line(),
{
}

/// A line of a cell with an object that text flows around keeps its stored place where it
/// starts inside the cell.
pub proof fn lemma_cell_object_narrows_a_line(facts: LineGeometryFacts)
    requires
        facts.stored_geometry_source,
        facts.in_cell,
        facts.cell_has_square_float,
        facts.column_start > 0,
        0 < facts.segment_width < facts.column_width,
    ensures
        facts.follows_stored_line(),
{
}

/// Rows that are the stored rows themselves always keep their stored place.
pub proof fn lemma_physical_rows_keep_their_place(facts: LineGeometryFacts)
    requires
        facts.physical_frame_rows,
    ensures
        facts.follows_stored_line(),
{
}

/// A line that nothing stands beside keeps to the paragraph's margins, however narrow it is
/// stored.
pub proof fn lemma_line_without_a_neighbour_keeps_margins(facts: LineGeometryFacts)
    requires
        !facts.physical_frame_rows,
        !facts.has_square_wrap,
        !facts.has_inline_table || facts.inline_table_fills_paragraph,
        facts.in_cell ==> !facts.cell_has_square_float,
        !facts.in_cell ==> !facts.empty_paragraph && (!facts.mixed_widths || !facts.in_wrap_zone)
            && (facts.mixed_widths || !facts.float_accounts_for_gap),
    ensures
        !facts.follows_stored_line(),
{
}

/// A line that has no stored width, or is as wide as the column from its edge on, keeps to
/// the paragraph's margins, whatever stands beside it.
pub proof fn lemma_wide_line_keeps_margins(facts: LineGeometryFacts)
    requires
        !facts.physical_frame_rows,
        facts.segment_width <= 0 || facts.segment_width >= facts.column_width || (
        facts.column_start <= 0 && facts.segment_width + facts.column_start >= facts.column_width
            - 200),
        facts.column_start >= 0,
    ensures
        !facts.follows_stored_line(),
{
}

/// A gap of at most 1200 units needs no object of the page: such a line keeps to the
/// margins where only an object of the page is named.
pub proof fn lemma_small_gap_is_no_object(facts: LineGeometryFacts)
    requires
        !facts.physical_frame_rows,
        !facts.in_cell,
        !facts.has_square_wrap,
        !facts.has_inline_table,
        !facts.mixed_widths,
        !facts.empty_paragraph,
        facts.column_width - facts.segment_width - facts.column_start <= 1200,
    ensures
        !facts.follows_stored_line(),
{
}

/// A line that keeps its stored place keeps it when it is stored narrower still.
pub proof fn lemma_narrower_line_keeps_its_place(facts: LineGeometryFacts, width: i32)
    requires
        facts.follows_stored_line(),
        0 < width <= facts.segment_width,
    ensures
        (LineGeometryFacts { segment_width: width, ..facts }).follows_stored_line(),
{
}

/// A line that keeps its stored place keeps it when a further object of the paragraph
/// stands beside it.
pub proof fn lemma_further_object_keeps_the_place(facts: LineGeometryFacts)
    requires
        facts.follows_stored_line(),
    ensures
        (LineGeometryFacts { has_square_wrap: true, ..facts }).follows_stored_line(),
        (LineGeometryFacts { float_accounts_for_gap: true, ..facts }).follows_stored_line(),
        (LineGeometryFacts { cell_has_square_float: true, ..facts }).follows_stored_line(),
        (LineGeometryFacts { in_wrap_zone: true, ..facts }).follows_stored_line(),
{
}

/// What a line lacks and the line together fill the column.
pub proof fn lemma_missing_width_fills_the_column(facts: LineGeometryFacts, missing: i32)
    requires
        call_ensures(LineGeometryFacts::missing_width, (&facts,), missing),
        i32::MIN <= facts.segment_width + facts.column_start <= i32::MAX,
        i32::MIN <= facts.column_width - facts.segment_width - facts.column_start <= i32::MAX,
    ensures
        facts.column_start + facts.segment_width + missing == facts.column_width,
{
}

/// Widths of one paragraph are mixed just where two of them are more than 1000 units apart:
/// lines of one width are not, and a wide line beside a narrow one makes them so.
pub proof fn lemma_mixed_widths(segs: Seq<LineSeg>, narrow: int, wide: int)
    requires
        0 <= narrow < segs.len(),
        0 <= wide < segs.len(),
        0 < segs[narrow].segment_width,
    ensures
        segs[wide].segment_width - segs[narrow].segment_width > 1000 ==> widths_are_mixed(segs),
        (forall|i: int| #![trigger segs[i]]
            0 <= i < segs.len() ==> segs[narrow].segment_width <= segs[i].segment_width
                <= segs[narrow].segment_width + 1000) ==> !widths_are_mixed(segs),
{
}

/// A line beside an anchored object starts where the object's distance ends, and ends where
/// its stored line ends: what the distance takes in front is taken from the width.
pub proof fn lemma_wrap_zone_keeps_the_right_edge(
    seg: LineSeg,
    in_band: bool,
    anchor_cs: i32,
    anchor_sw: i32,
    distance: i32,
    zone: WrapZone,
)
    requires
        call_ensures(wrap_zone, (Some(&seg), in_band, anchor_cs, anchor_sw, distance), zone),
        seg.segment_width > 0,
        distance <= seg.segment_width,
    ensures
        zone.start - seg.column_start == distance,
        zone.width matches Some(width) && zone.start + width == seg.column_start
            + seg.segment_width,
        !zone.synthetic,
{
}

/// Without a stored line, one in the band of the object takes the object's zone, and one
/// above or below it has the column's own width.
pub proof fn lemma_wrap_zone_of_the_anchor(
    anchor_cs: i32,
    anchor_sw: i32,
    distance: i32,
    inside: WrapZone,
    outside: WrapZone,
)
    requires
        call_ensures(wrap_zone, (None, true, anchor_cs, anchor_sw, distance), inside),
        call_ensures(wrap_zone, (None, false, anchor_cs, anchor_sw, distance), outside),
        0 <= distance <= anchor_sw,
        anchor_sw > 0,
    ensures
        inside.start == anchor_cs + distance,
        inside.width matches Some(width) && inside.start + width == anchor_cs + anchor_sw,
        inside.synthetic,
        outside.start == distance,
        outside.width is None,
        !outside.synthetic,
{
}

/// A zone is never wider than the line that it comes from, and never of negative width.
pub proof fn lemma_wrap_zone_is_no_wider(
    seg: LineSeg,
    in_band: bool,
    anchor_cs: i32,
    anchor_sw: i32,
    distance: i32,
    zone: WrapZone,
)
    requires
        call_ensures(wrap_zone, (Some(&seg), in_band, anchor_cs, anchor_sw, distance), zone),
        distance >= 0,
    ensures
        zone.width matches Some(width) ==> 0 <= width <= seg.segment_width,
        zone.width is None <==> seg.segment_width <= 0,
{
}

/// A stored line that starts inside the column and ends at its edge moves an eligible line
/// to its start; the file may be 200 units off.
pub proof fn lemma_full_line_sets_the_start(
    seg: LineSeg,
    column_width: i32,
    eligible: bool,
    r: Option<i32>,
)
    requires
        call_ensures(authoritative_stored_line_start, (Some(&seg), column_width, eligible), r),
    ensures
        eligible && !seg.implementation_property && seg.column_start > 0 && seg.segment_width > 0
            && column_width - 200 <= seg.column_start + seg.segment_width <= column_width + 200
            ==> r == Some(seg.column_start),
        r matches Some(start) ==> {
            &&& eligible
            &&& !seg.implementation_property
            &&& 0 < start
            &&& start == seg.column_start
            &&& seg.segment_width > 0
            &&& column_width - 200 <= start + seg.segment_width || start + seg.segment_width
                > i32::MAX
            &&& start + seg.segment_width <= column_width + 200 || start + seg.segment_width
                > i32::MAX
        },
{
}

/// Nothing but a plain body paragraph, set left or justified and clear of objects and
/// numbers, takes its start from a stored line; such a paragraph does.
pub proof fn lemma_stored_start_needs_plain_text(
    in_cell: bool,
    is_body_column: bool,
    alignment: Alignment,
    has_wrap_anchor: bool,
    uses_stored_geometry: bool,
    has_numbering: bool,
    para: Option<&Paragraph>,
    stores_line_starts: bool,
    r: bool,
)
    requires
        call_ensures(
            hwp5_stored_line_start_eligible,
            (
                in_cell,
                is_body_column,
                alignment,
                has_wrap_anchor,
                uses_stored_geometry,
                has_numbering,
                para,
                stores_line_starts,
            ),
            r,
        ),
    ensures
        in_cell || !is_body_column || !stores_line_starts ==> !r,
        has_wrap_anchor || uses_stored_geometry || has_numbering ==> !r,
        para is None || para->0.controls@.len() > 0 ==> !r,
        alignment == Alignment::Center || alignment == Alignment::Right || alignment
            == Alignment::Distribute || alignment == Alignment::Split ==> !r,
        !r ==> in_cell || !is_body_column || !stores_line_starts || has_wrap_anchor
            || uses_stored_geometry || has_numbering || para is None || para->0.controls@.len() > 0
            || !(alignment == Alignment::Left || alignment == Alignment::Justify),
{
}

/// A stored width that is more than one unit off the paragraph's is not the paragraph's, and
/// neither is one outside of a cell, behind a start or beside a left margin.
pub proof fn lemma_paragraph_width_of_a_cell(
    in_cell: bool,
    column_start: i32,
    segment_width: i32,
    has_left_margin: bool,
    has_right_margin: bool,
    paragraph_width: i32,
    r: bool,
)
    requires
        call_ensures(
            inline_segment_is_paragraph_width,
            (
                in_cell,
                column_start,
                segment_width,
                has_left_margin,
                has_right_margin,
                paragraph_width,
            ),
            r,
        ),
    ensures
        r ==> segment_width == paragraph_width || segment_width == paragraph_width + 1
            || segment_width == paragraph_width - 1,
        !in_cell || column_start != 0 || has_left_margin || !has_right_margin ==> !r,
        in_cell && column_start == 0 && !has_left_margin && has_right_margin && segment_width
            == paragraph_width ==> r,
{
}

/// The margins stand wherever the line does not take its stored place; where it does, a box
/// that the margins would fill, or a body box that holds them already, stands without them.
pub proof fn lemma_margins_yield_to_a_stored_box(
    physical_frame_rows: bool,
    uses_stored_geometry: bool,
    in_cell: bool,
    cs_is_own_margin: bool,
    has_stored_assignment: bool,
    password_layout: bool,
    margins_fill_box: bool,
    r: bool,
)
    requires
        call_ensures(
            stored_box_replaces_margins,
            (
                physical_frame_rows,
                uses_stored_geometry,
                in_cell,
                cs_is_own_margin,
                has_stored_assignment,
                password_layout,
                margins_fill_box,
            ),
            r,
        ),
    ensures
        physical_frame_rows ==> r,
        !physical_frame_rows && !uses_stored_geometry ==> !r,
        uses_stored_geometry && margins_fill_box ==> r,
        uses_stored_geometry && password_layout ==> r,
        uses_stored_geometry && !in_cell && cs_is_own_margin && has_stored_assignment ==> r,
        !physical_frame_rows && !password_layout && !margins_fill_box && (in_cell
            || !cs_is_own_margin || !has_stored_assignment) ==> !r,
{
}

/// A stored line of the file that carries no indentation denies it, and only such a line.
pub proof fn lemma_indent_is_denied_by_the_file(
    para: &Paragraph,
    comp: &ComposedParagraph,
    in_cell: bool,
    line_idx: usize,
    r: bool,
)
    requires
        call_ensures(stored_seg_denies_indent, (Some(para), comp, in_cell, line_idx), r),
    ensures
        in_cell ==> !r,
        line_idx >= comp.lines@.len() ==> !r,
        para.line_segs@.len() != comp.lines@.len() ==> !r,
        para.line_segs@.len() == comp.lines@.len() && line_idx < comp.lines@.len() ==> {
            let seg = para.line_segs@[line_idx as int];
            &&& seg.indentation ==> !r
            &&& seg.implementation_property ==> !r
            &&& !in_cell && !seg.indentation && !seg.implementation_property ==> r
        },
{
}

/// A paragraph that is laid out to its end has a last line: the last of all is one. Of
/// lines that are not physical rows no other is, and a part of a paragraph has none.
pub proof fn lemma_last_line_of_a_paragraph(
    comp: ComposedParagraph,
    para: Option<&Paragraph>,
    physical_frame_rows: bool,
    line_idx: int,
    end: int,
)
    requires
        0 <= line_idx < end <= comp.lines@.len(),
    ensures
        end == comp.lines@.len() ==> ends_paragraph(
            comp,
            para,
            physical_frame_rows,
            end - 1,
            end,
        ),
        end < comp.lines@.len() ==> !ends_paragraph(
            comp,
            para,
            physical_frame_rows,
            line_idx,
            end,
        ),
        !physical_frame_rows && line_idx < end - 1 ==> !ends_paragraph(
            comp,
            para,
            physical_frame_rows,
            line_idx,
            end,
        ),
{
}

/// In a frame of physical rows a row with text behind it does not end the paragraph, and a
/// row with only empty ones behind it does.
pub proof fn lemma_empty_rows_behind_the_last_line(
    comp: ComposedParagraph,
    para: Paragraph,
    line_idx: int,
    later: int,
)
    requires
        0 <= line_idx < later < comp.lines@.len(),
        comp.lines@.len() <= para.line_segs@.len(),
    ensures
        !para.line_segs@[later].empty_segment ==> !ends_paragraph(
            comp,
            Some(&para),
            true,
            line_idx,
            comp.lines@.len() as int,
        ),
        (forall|i: int|
            #![trigger para.line_segs@[i]]
            line_idx < i < comp.lines@.len() ==> para.line_segs@[i].empty_segment)
            ==> ends_paragraph(comp, Some(&para), true, line_idx, comp.lines@.len() as int),
{
}

/// The file speaks for the width of a cell's only line where it stored that line itself.
pub proof fn lemma_single_stored_line(
    in_cell: bool,
    comp: &ComposedParagraph,
    para: &Paragraph,
    r: Option<i32>,
)
    requires
        call_ensures(stored_single_line_width, (in_cell, comp, Some(para)), r),
    ensures
        r matches Some(width) ==> in_cell && comp.lines@.len() == 1 && para.line_segs@.len() == 1
            && width == para.line_segs@[0].segment_width,
        in_cell && comp.lines@.len() == 1 && para.line_segs@.len() == 1
            && !para.line_segs@[0].implementation_property ==> r == Some(
            para.line_segs@[0].segment_width,
        ),
        para.line_segs@.len() > 0 && para.line_segs@[0].implementation_property ==> r is None,
{
}

/// The frame of a cell's stored lines holds each of them, and no line that was not stored
/// by the file counts.
pub proof fn lemma_stored_ladder(
    in_cell: bool,
    comp: &ComposedParagraph,
    para: &Paragraph,
    i: int,
    r: Option<i32>,
)
    requires
        call_ensures(stored_ladder_width, (in_cell, comp, Some(para)), r),
        0 <= i < para.line_segs@.len(),
    ensures
        r matches Some(width) ==> in_cell && para.line_segs@[i].segment_width <= width
            && !para.line_segs@[i].implementation_property,
        para.line_segs@[i].implementation_property || para.line_segs@.len() != comp.lines@.len()
            ==> r is None,
        in_cell && para.line_segs@.len() == comp.lines@.len() && (forall|k: int|
            #![trigger para.line_segs@[k]]
            0 <= k < para.line_segs@.len() ==> !para.line_segs@[k].implementation_property
                && para.line_segs@[k].segment_width <= para.line_segs@[i].segment_width)
            ==> r == Some(para.line_segs@[i].segment_width),
{
}

/// The stored line is the table's outer box just where nothing of its height is left when
/// the table and both its margins are taken off.
pub proof fn lemma_stored_band(para: &Paragraph, table: &Table, r: bool)
    requires
        call_ensures(tac_stored_band_is_outer_box, (para, table), r),
        table.common.height <= i32::MAX,
    ensures
        r ==> para.line_segs@.len() == 1 && !para.line_segs@[0].implementation_property
            && para.line_segs@[0].line_height - table.outer_margin_top - table.outer_margin_bottom
            == table.common.height,
        table.outer_margin_top <= 0 || table.outer_margin_bottom <= 0 || table.common.height == 0
            ==> !r,
        para.line_segs@.len() == 1 && !para.line_segs@[0].implementation_property
            && table.outer_margin_top > 0 && table.outer_margin_bottom > 0 && table.common.height
            > 0 && para.line_segs@[0].line_height - table.outer_margin_top
            - table.outer_margin_bottom == table.common.height ==> r,
{
}

/// A stored line starts at the paragraph's margin where the two are at most 200 units apart.
pub proof fn lemma_start_at_the_margin(facts: LineGeometryFacts, r: bool)
    requires
        call_ensures(LineGeometryFacts::cs_is_own_margin, (&facts,), r),
    ensures
        r <==> facts.own_margin - 200 <= facts.column_start && facts.column_start
            <= facts.own_margin + 200,
        r == facts.start_is_own_margin(),
{
}

} // verus!
