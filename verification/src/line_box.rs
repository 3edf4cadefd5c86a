//! Decisions about the box of a line: where its top and its height come from, what it
//! reserves, and what of it counts once it is drawn.

use vstd::prelude::*;

use crate::line_advance::LineAdvance;
use crate::line_kinds::has_treat_as_char_picture_or_shape;
use crate::line_kinds::is_inline_picture_or_shape;
use crate::model::Paragraph;

verus! {

/// Where the top of a line comes from.
#[derive(Clone, Copy, Debug, PartialEq, Eq, Structural)]
pub enum LineTop {
    /// The stored position of the row, from the top of the frame.
    FrameRow(i32),
    /// Behind the line before, whose objects took more rows than the file counted.
    WrappedEnd,
    /// The stored position, from that of the endnote's first line.
    EndnoteLadder(i32),
    /// The stored position, from the top of the column.
    ColumnLadder(i32),
    /// Behind the line before.
    Flow,
}

/// The stored position of a line.
pub open spec fn stored_position(para: Option<&Paragraph>, line_idx: int) -> Option<i32> {
    match para {
        Some(p) => if 0 <= line_idx < p.line_segs@.len() {
            Some(p.line_segs@[line_idx].vertical_pos)
        } else {
            None
        },
        None => None,
    }
}

/// Decides where a line starts. A line that the file did not store follows the line
/// before it. Of the others the rows of a frame stand where the file put them; then the
/// ladder of an endnote counts, unless a wrapped line reaches below it; then the ladder
/// of a paragraph with an object between its lines.
pub fn line_top(
    para: Option<&Paragraph>,
    line_idx: usize,
    physical_frame_rows: bool,
    has_endnote_base: bool,
    wrapped_end_is_below: bool,
    has_column_ladder: bool,
) -> (top: LineTop)
    ensures
        top == (match stored_position(para, line_idx as int) {
            None => LineTop::Flow,
            Some(pos) => if physical_frame_rows {
                LineTop::FrameRow(pos)
            } else if has_endnote_base {
                if wrapped_end_is_below {
                    LineTop::WrappedEnd
                } else {
                    LineTop::EndnoteLadder(pos)
                }
            } else if has_column_ladder {
                LineTop::ColumnLadder(pos)
            } else {
                LineTop::Flow
            },
        }),
{
    let pos: i32 = match para {
        Some(p) => if line_idx < p.line_segs.len() {
            p.line_segs[line_idx].vertical_pos
        } else {
            return LineTop::Flow;
        },
        None => return LineTop::Flow,
    };
    if physical_frame_rows {
        LineTop::FrameRow(pos)
    } else if has_endnote_base {
        if wrapped_end_is_below {
            LineTop::WrappedEnd
        } else {
            LineTop::EndnoteLadder(pos)
        }
    } else if has_column_ladder {
        LineTop::ColumnLadder(pos)
    } else {
        LineTop::Flow
    }
}

/// What the height and the spacing of a line are computed from.
#[derive(Clone, Copy, Debug, PartialEq, Eq, Structural)]
pub enum MetricsSource {
    /// The character shape of an empty paragraph.
    EmptyParagraph,
    /// The font of the line alone.
    Font,
    /// The stored line.
    Stored,
}

/// Decides what the height of a line is computed from. Where all stored lines of the
/// document are fillers, only the font counts, unless the line leads into a picture.
pub fn metrics_source(
    line_idx: usize,
    has_empty_metrics: bool,
    lines_are_fillers: bool,
    has_font_size: bool,
    leads_into_picture: bool,
) -> (source: MetricsSource)
    ensures
        source == (if line_idx == 0 && has_empty_metrics {
            MetricsSource::EmptyParagraph
        } else if lines_are_fillers && has_font_size && !leads_into_picture {
            MetricsSource::Font
        } else {
            MetricsSource::Stored
        }),
{
    if line_idx == 0 && has_empty_metrics {
        MetricsSource::EmptyParagraph
    } else if lines_are_fillers && has_font_size && !leads_into_picture {
        MetricsSource::Font
    } else {
        MetricsSource::Stored
    }
}

/// The stored height of the text stands: the paragraph has no controls, and it is not in
/// a cell unless the file's layout is followed.
pub fn uses_stored_text_height(
    para: Option<&Paragraph>,
    follows_stored_layout: bool,
    in_cell: bool,
) -> (r: bool)
    ensures
        r == ((para matches Some(p) && p.controls@.len() == 0) && (follows_stored_layout
            || !in_cell)),
{
    match para {
        Some(p) => p.controls.len() == 0 && (follows_stored_layout || !in_cell),
        None => false,
    }
}

/// What the box of a line is shaped by.
#[derive(Clone, Copy, Debug, PartialEq, Eq, Structural)]
pub enum BoxShape {
    /// The font: the picture that makes the stored line high stands on the next one.
    LeadIn,
    /// The font: the shape that makes the stored line high is drawn on its own.
    BesideShape,
    /// The computed height.
    Computed,
}

/// Decides what the box of a line is shaped by. In a cell nothing would give back the
/// height of a shape, so there the computed height stays.
pub fn box_shape(
    leads_into_picture: bool,
    has_tac_shape: bool,
    shape_height_is_explicit: bool,
    in_cell: bool,
    is_tall: bool,
) -> (shape: BoxShape)
    ensures
        shape == (if leads_into_picture {
            BoxShape::LeadIn
        } else if has_tac_shape && !shape_height_is_explicit && !in_cell && is_tall {
            BoxShape::BesideShape
        } else {
            BoxShape::Computed
        }),
{
    if leads_into_picture {
        BoxShape::LeadIn
    } else if has_tac_shape && !shape_height_is_explicit && !in_cell && is_tall {
        BoxShape::BesideShape
    } else {
        BoxShape::Computed
    }
}

/// The text of the line sinks to the foot of a shape.
pub fn text_sinks_to_shape_foot(
    has_tac_shape: bool,
    shape_height_is_explicit: bool,
    is_tall: bool,
) -> (r: bool)
    ensures
        r == (has_tac_shape && !shape_height_is_explicit && is_tall),
{
    has_tac_shape && !shape_height_is_explicit && is_tall
}

/// How a cell whose text is too wide is treated.
#[derive(Clone, Copy, Debug, PartialEq, Eq, Structural)]
pub struct CellOverflow {
    /// The text keeps its width and is clipped.
    pub suppressed: bool,
    /// The text is compressed until it fits.
    pub converges: bool,
}

/// Decides how a cell treats text that is wider than the cell by more than a seventh: a
/// stored line, or a stored ladder, that fits the cell shows that the text belongs in it.
pub fn cell_overflow(
    in_cell: bool,
    far_too_wide: bool,
    stored_line_fits: bool,
    stored_ladder_fits: bool,
) -> (r: CellOverflow)
    ensures
        r.suppressed == (in_cell && far_too_wide && !stored_line_fits && !stored_ladder_fits),
        r.converges == (far_too_wide && stored_line_fits),
        !(r.suppressed && r.converges),
{
    CellOverflow {
        suppressed: in_cell && far_too_wide && !stored_line_fits && !stored_ladder_fits,
        converges: far_too_wide && stored_line_fits,
    }
}

/// The characters of a line move together until the line fits: the cell is entered as
/// one line, there are at least two characters and no tab, and the text is too wide.
pub fn is_squeezed_line(
    cell_is_squeezed: bool,
    in_cell: bool,
    total_char_count: usize,
    has_tabs: bool,
    too_wide: bool,
) -> (r: bool)
    ensures
        r == (cell_is_squeezed && in_cell && total_char_count > 1 && !has_tabs && too_wide),
{
    cell_is_squeezed && in_cell && total_char_count > 1 && !has_tabs && too_wide
}

/// A line is moved by the width of the paragraph's head: not the first line of the
/// paragraph, where the head itself is drawn.
pub fn is_moved_by_head(has_head: bool, line_idx: usize, start_line: usize) -> (r: bool)
    ensures
        r == (has_head && !(line_idx == 0 && start_line == 0)),
{
    has_head && !(line_idx == start_line && start_line == 0)
}

/// The head of a paragraph is drawn in front of its first line.
pub fn draws_head(line_idx: usize, start_line: usize) -> (r: bool)
    ensures
        r == (line_idx == 0 && start_line == 0),
{
    line_idx == start_line && start_line == 0
}

/// The last line of an endnote holds equations only.
pub fn is_equation_tail(
    is_body_column: bool,
    in_cell: bool,
    is_endnote: bool,
    line_idx: usize,
    end: usize,
    is_equation_only: bool,
) -> (r: bool)
    requires
        line_idx < end,
    ensures
        r == (is_body_column && !in_cell && is_endnote && line_idx + 1 == end && is_equation_only),
{
    is_body_column && !in_cell && is_endnote && line_idx + 1 >= end && is_equation_only
}

/// Which overflow of a line is reported.
#[derive(Clone, Copy, Debug, PartialEq, Eq, Structural)]
pub enum OverflowReport {
    Silent,
    /// The line ends below its column.
    Column,
    /// The line, in a cell, starts below the page.
    Page,
}

/// Decides which overflow of a line is reported. A blank line is never reported.
pub fn overflow_report(
    is_body_column: bool,
    in_cell: bool,
    blank_spacer_line: bool,
    ends_below_column: bool,
    bleed_is_tolerated: bool,
    starts_below_page: bool,
) -> (report: OverflowReport)
    ensures
        report == (if blank_spacer_line {
            OverflowReport::Silent
        } else if in_cell {
            if starts_below_page {
                OverflowReport::Page
            } else {
                OverflowReport::Silent
            }
        } else if is_body_column && ends_below_column && !bleed_is_tolerated {
            OverflowReport::Column
        } else {
            OverflowReport::Silent
        }),
{
    if is_body_column && !in_cell && ends_below_column && !blank_spacer_line
        && !bleed_is_tolerated {
        OverflowReport::Column
    } else if in_cell && !blank_spacer_line && starts_below_page {
        OverflowReport::Page
    } else {
        OverflowReport::Silent
    }
}

/// The height that a line keeps free for an object of its own.
#[derive(Clone, Copy, Debug, PartialEq, Eq, Structural)]
pub enum ReservedHeight {
    /// That of the picture that was drawn.
    Drawn,
    /// That of the object that owns the line.
    Owner,
    /// The stored height of the line.
    StoredLine,
    Nothing,
}

/// Decides what height a line keeps free. A line that shows text, and does not lead into
/// a picture, keeps free what its owner takes, or else its whole stored height, if the
/// paragraph has an object laid out like a character and the line is high.
pub fn reserved_height(
    para: Option<&Paragraph>,
    drew_picture: bool,
    runs_all_whitespace: bool,
    leads_into_picture: bool,
    has_owner: bool,
    is_high: bool,
) -> (r: ReservedHeight)
    ensures
        r == (if drew_picture {
            ReservedHeight::Drawn
        } else if runs_all_whitespace || leads_into_picture {
            ReservedHeight::Nothing
        } else if para is Some && has_owner {
            ReservedHeight::Owner
        } else if is_high && (para matches Some(p) && exists|i: int|
            0 <= i < p.controls@.len() && is_inline_picture_or_shape(#[trigger] p.controls@[i])) {
            ReservedHeight::StoredLine
        } else {
            ReservedHeight::Nothing
        }),
{
    if drew_picture {
        return ReservedHeight::Drawn;
    }
    if runs_all_whitespace || leads_into_picture {
        return ReservedHeight::Nothing;
    }
    if para.is_some() && has_owner {
        return ReservedHeight::Owner;
    }
    if is_high && has_treat_as_char_picture_or_shape(para) {
        ReservedHeight::StoredLine
    } else {
        ReservedHeight::Nothing
    }
}

/// Room for a label above a picture: the line shows text, keeps a picture's height free,
/// is as high as the picture and more than twice as high as its font.
pub open spec fn label_needs_room(
    runs_all_whitespace: bool,
    reserves_picture: bool,
    has_font_size: bool,
    is_picture_high: bool,
    is_high: bool,
) -> bool {
    reserves_picture && !runs_all_whitespace && has_font_size && is_picture_high && is_high
}

/// Whether a label above a picture needs room.
pub fn tac_picture_label_extra(
    runs_all_whitespace: bool,
    reserves_picture: bool,
    has_font_size: bool,
    is_picture_high: bool,
    is_high: bool,
) -> (r: bool)
    ensures
        r == label_needs_room(
            runs_all_whitespace,
            reserves_picture,
            has_font_size,
            is_picture_high,
            is_high,
        ),
{
    reserves_picture && !runs_all_whitespace && has_font_size && is_picture_high && is_high
}

/// A line makes room for a label above a picture. Text beside a picture stands at the
/// picture's height, so only a line without text could.
pub open spec fn line_makes_room_for_label(
    runs_all_whitespace: bool,
    reserves_picture: bool,
    has_font_size: bool,
    is_picture_high: bool,
    is_high: bool,
) -> bool {
    runs_all_whitespace && label_needs_room(
        runs_all_whitespace,
        reserves_picture,
        has_font_size,
        is_picture_high,
        is_high,
    )
}

/// Whether a line makes room for a label above a picture.
pub fn tac_picture_label_extra_for_line(
    runs_all_whitespace: bool,
    reserves_picture: bool,
    has_font_size: bool,
    is_picture_high: bool,
    is_high: bool,
) -> (r: bool)
    ensures
        r == line_makes_room_for_label(
            runs_all_whitespace,
            reserves_picture,
            has_font_size,
            is_picture_high,
            is_high,
        ),
        !r,
{
    if !runs_all_whitespace {
        return false;
    }
    tac_picture_label_extra(
        runs_all_whitespace,
        reserves_picture,
        has_font_size,
        is_picture_high,
        is_high,
    )
}

/// No line makes room for a label: a line with text stands at the picture's height, and
/// one without text has no label.
pub proof fn lemma_no_line_makes_room_for_a_label(
    runs_all_whitespace: bool,
    reserves_picture: bool,
    has_font_size: bool,
    is_picture_high: bool,
    is_high: bool,
)
    ensures
        !line_makes_room_for_label(
            runs_all_whitespace,
            reserves_picture,
            has_font_size,
            is_picture_high,
            is_high,
        ),
{
}

/// What the lowest point of a paragraph becomes when a line is done.
#[derive(Clone, Copy, Debug, PartialEq, Eq, Structural)]
pub enum ContentBottom {
    Unchanged,
    LineTop,
    LineBottom,
}

/// Decides what the lowest point of a paragraph outside of cells becomes: a blank line
/// counts with its top, a line without height not at all.
pub fn content_bottom(in_cell: bool, skips_height: bool, blank_spacer_line: bool) -> (r:
    ContentBottom)
    ensures
        r == (if in_cell || skips_height {
            ContentBottom::Unchanged
        } else if blank_spacer_line {
            ContentBottom::LineTop
        } else {
            ContentBottom::LineBottom
        }),
{
    if in_cell || skips_height {
        ContentBottom::Unchanged
    } else if blank_spacer_line {
        ContentBottom::LineTop
    } else {
        ContentBottom::LineBottom
    }
}

/// What a line adds to the lower edge of the paragraph's border.
#[derive(Clone, Copy, Debug, PartialEq, Eq, Structural)]
pub struct BorderEdge {
    /// The box of the line counts.
    pub line_box: bool,
    /// The box with the spacing below it counts, and stands before all others.
    pub with_spacing: bool,
}

/// What a line adds to the lower edge of the border, from the way that the flow went on.
pub fn border_edge(advance: LineAdvance) -> (edge: BorderEdge)
    ensures
        edge.with_spacing == (advance == LineAdvance::CellEnd),
        edge.line_box == (advance == LineAdvance::CellEnd || advance == LineAdvance::RowPiece
            || advance == LineAdvance::Full),
{
    match advance {
        LineAdvance::CellEnd => BorderEdge { line_box: true, with_spacing: true },
        LineAdvance::RowPiece | LineAdvance::Full => BorderEdge {
            line_box: true,
            with_spacing: false,
        },
        _ => BorderEdge { line_box: false, with_spacing: false },
    }
}

/// The border of a paragraph is drawn: it has one, its lines have a height, and it is
/// not in a cell unless the cell collects borders.
pub fn collects_border(
    border_fill_id: u16,
    in_cell: bool,
    cell_collects_borders: bool,
    has_height: bool,
) -> (r: bool)
    ensures
        r == (border_fill_id > 0 && (!in_cell || cell_collects_borders) && has_height),
{
    border_fill_id > 0 && (!in_cell || cell_collects_borders) && has_height
}

/// How high a paragraph without lines is.
#[derive(Clone, Copy, Debug, PartialEq, Eq, Structural)]
pub enum EmptyHeight {
    /// The size of its font, without spacing.
    FontSize,
    /// The height and spacing of its character shape.
    Metrics,
    /// The objects that it holds, one below the other.
    Objects,
    /// A line of the smallest height.
    Smallest,
}

/// Decides how high a paragraph without lines is. At the end of a cell no spacing counts,
/// but for documents with the oldest layout.
pub fn empty_paragraph_height(
    has_metrics: bool,
    has_object_stack: bool,
    in_cell: bool,
    is_last_cell_para: bool,
    oldest_layout: bool,
) -> (r: EmptyHeight)
    ensures
        r == (if has_metrics {
            if in_cell && is_last_cell_para && !oldest_layout {
                EmptyHeight::FontSize
            } else {
                EmptyHeight::Metrics
            }
        } else if has_object_stack {
            EmptyHeight::Objects
        } else {
            EmptyHeight::Smallest
        }),
{
    if has_metrics {
        if in_cell && is_last_cell_para && !oldest_layout {
            EmptyHeight::FontSize
        } else {
            EmptyHeight::Metrics
        }
    } else if has_object_stack {
        EmptyHeight::Objects
    } else {
        EmptyHeight::Smallest
    }
}

} // verus!
