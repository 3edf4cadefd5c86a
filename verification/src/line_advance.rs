//! How far the flow moves on behind a line.

use vstd::prelude::*;

use crate::composed::ComposedParagraph;
use crate::line_kinds::has_object_before_next_line;
use crate::line_kinds::is_leading_equation_guide;
use crate::line_kinds::line_has_tac_control;
use crate::line_kinds::line_is_leading_empty_equation_tac_guide;
use crate::line_kinds::runs_all_whitespace;
use crate::line_kinds::runs_are_white;
use crate::model::Paragraph;

verus! {

/// All stored lines from `start` up to `line_idx` have the position of that line.
pub open spec fn same_row(para: Paragraph, start: int, line_idx: int) -> bool {
    forall|i: int|
        start <= i < line_idx ==> (#[trigger] para.line_segs@[i]).vertical_pos
            == para.line_segs@[line_idx].vertical_pos
}

/// An earlier piece of the row of this line shows text.
pub open spec fn row_shows_text(para: Paragraph, comp: ComposedParagraph, line_idx: int) -> bool {
    exists|i: int|
        0 <= i < line_idx && i < comp.lines@.len() && same_row(para, i, line_idx)
            && !runs_are_white((#[trigger] comp.lines@[i]).runs@)
}

/// Whether an empty piece of a stored row ends a row that shows text: the row's
/// height is then still owed. `is_row_fragment` says that the stored line is a piece
/// of the row before it.
pub fn completes_visible_stored_row(
    para: Option<&Paragraph>,
    comp: &ComposedParagraph,
    in_cell: bool,
    is_row_fragment: bool,
    line_idx: usize,
) -> (r: bool)
    ensures
        r == (in_cell && is_row_fragment && (para matches Some(p) && line_idx < p.line_segs@.len()
            && row_shows_text(*p, *comp, line_idx as int))),
{
    if !in_cell || !is_row_fragment {
        return false;
    }
    match para {
        Some(p) => {
            if line_idx >= p.line_segs.len() {
                return false;
            }
            let pos: i32 = p.line_segs[line_idx].vertical_pos;
            let mut i: usize = line_idx;
            while i > 0
                invariant
                    para == Some(p),
                    in_cell,
                    is_row_fragment,
                    i <= line_idx < p.line_segs@.len(),
                    pos == p.line_segs@[line_idx as int].vertical_pos,
                    same_row(*p, i as int, line_idx as int),
                    forall|k: int|
                        i <= k < line_idx && k < comp.lines@.len() ==> runs_are_white(
                            (#[trigger] comp.lines@[k]).runs@,
                        ),
                decreases i,
            {
                if p.line_segs[i - 1].vertical_pos != pos {
                    proof {
                        assert forall|k: int|
                            0 <= k < line_idx && k < comp.lines@.len() && same_row(
                                *p,
                                k,
                                line_idx as int,
                            ) implies runs_are_white((#[trigger] comp.lines@[k]).runs@) by {
                            if k < i {
                                assert(p.line_segs@[i - 1].vertical_pos != pos);
                            }
                        }
                    }
                    return false;
                }
                i -= 1;
                if i < comp.lines.len() && !runs_all_whitespace(comp.lines[i].runs.as_slice()) {
                    assert(!runs_are_white(comp.lines@[i as int].runs@));
                    return true;
                }
            }
            false
        },
        None => false,
    }
}

/// Whether the stored line has a position of its own, different from the line before.
pub fn stored_line_has_own_vpos(para: Option<&Paragraph>, has_endnote_base: bool, line_idx: usize) -> (r:
    bool)
    ensures
        r == (has_endnote_base && (para matches Some(p) && 0 < line_idx < p.line_segs@.len()
            && p.line_segs@[line_idx as int].vertical_pos
            != p.line_segs@[line_idx - 1].vertical_pos)),
{
    match para {
        Some(p) => has_endnote_base && line_idx > 0 && line_idx < p.line_segs.len()
            && p.line_segs[line_idx].vertical_pos != p.line_segs[line_idx - 1].vertical_pos,
        None => false,
    }
}

/// What an empty line is known by when its height may be left out.
#[derive(Clone, Copy, Debug, PartialEq, Eq, Structural)]
pub struct EmptyLineFacts {
    pub in_cell: bool,
    /// The paragraph has a picture or shape that text flows around.
    pub has_square_wrap: bool,
    /// That object is an embedded one.
    pub has_ole_square_wrap: bool,
    pub runs_all_whitespace: bool,
    /// The line ends a stored row that shows text.
    pub completes_row: bool,
    /// The line reserves the height of a picture.
    pub reserves_picture: bool,
    /// The file gave the line a position of its own.
    pub has_own_position: bool,
    /// The line is as high as the picture that the line before reserved.
    pub repeats_reserved_picture: bool,
}

/// The height of the line is left out: it only guides text around an object, repeats
/// a picture that the line before has reserved, or leads in an equation.
pub open spec fn height_is_left_out<W>(
    facts: EmptyLineFacts,
    para: Option<&Paragraph>,
    comp: ComposedParagraph,
    tac_offsets: Seq<(usize, W, usize)>,
    line_idx: int,
) -> bool {
    ||| facts.runs_all_whitespace && facts.has_square_wrap && !facts.has_ole_square_wrap
        && !facts.completes_row && !has_object_before_next_line(comp, line_idx)
    ||| facts.runs_all_whitespace && !facts.reserves_picture && !facts.has_own_position
        && facts.repeats_reserved_picture
    ||| !facts.in_cell && is_leading_equation_guide(para, comp, tac_offsets, line_idx)
}

/// Whether the height of a line is left out of the flow.
pub fn skip_advance_empty_line<W: Copy>(
    facts: EmptyLineFacts,
    para: Option<&Paragraph>,
    comp: &ComposedParagraph,
    tac_offsets: &[(usize, W, usize)],
    line_idx: usize,
) -> (r: bool)
    requires
        comp.fits(),
    ensures
        r == height_is_left_out(facts, para, *comp, tac_offsets@, line_idx as int),
{
    let guides_wrap: bool = facts.has_square_wrap && !facts.has_ole_square_wrap
        && facts.runs_all_whitespace && !facts.completes_row && !line_has_tac_control(
        comp,
        line_idx,
    );
    let leads_equation: bool = !facts.in_cell && tac_offsets.len() > 0
        && line_is_leading_empty_equation_tac_guide(para, comp, tac_offsets, line_idx);
    let repeats_picture: bool = facts.runs_all_whitespace && !facts.reserves_picture
        && !facts.has_own_position && facts.repeats_reserved_picture;
    guides_wrap || repeats_picture || leads_equation
}

/// How the flow moves on behind a line.
#[derive(Clone, Copy, Debug, PartialEq, Eq, Structural)]
pub enum LineAdvance {
    /// Along the stored positions of an endnote, never back. The line's height counts
    /// unless it is left out; the line spacing counts where `trailing` says so. Where
    /// `keeps_end` holds, the next line starts behind this one.
    Ladder { height: bool, trailing: bool, keeps_end: bool },
    /// By the height of the line, without line spacing: the cell ends here.
    CellEnd,
    /// Not at all.
    Stay,
    /// Not at all, but the line's box counts: the next line is a piece of its row.
    RowPiece,
    /// By the height of the line and the line spacing.
    Full,
}

/// Decides how the flow moves on behind a line.
pub fn line_advance(
    has_endnote_base: bool,
    skips_height: bool,
    is_last_cell_para: bool,
    in_cell: bool,
    line_idx: usize,
    end: usize,
    note_continues: bool,
    has_extra_rows: bool,
    used_wrapped_end: bool,
    next_is_row_fragment: bool,
) -> (advance: LineAdvance)
    requires
        line_idx < end,
    ensures
        advance == (if has_endnote_base {
            LineAdvance::Ladder {
                height: !skips_height,
                trailing: !skips_height && (line_idx + 1 < end || note_continues),
                keeps_end: has_extra_rows || used_wrapped_end,
            }
        } else if is_last_cell_para && in_cell && line_idx + 1 == end {
            LineAdvance::CellEnd
        } else if skips_height {
            LineAdvance::Stay
        } else if next_is_row_fragment {
            LineAdvance::RowPiece
        } else {
            LineAdvance::Full
        }),
{
    let is_last: bool = line_idx >= end - 1;
    if has_endnote_base {
        LineAdvance::Ladder {
            height: !skips_height,
            trailing: !skips_height && (!is_last || note_continues),
            keeps_end: has_extra_rows || used_wrapped_end,
        }
    } else if is_last_cell_para && is_last && in_cell {
        LineAdvance::CellEnd
    } else if skips_height {
        LineAdvance::Stay
    } else if next_is_row_fragment {
        LineAdvance::RowPiece
    } else {
        LineAdvance::Full
    }
}

/// Whether the box of a paragraph is cut at its start and at its end, because its
/// lines continue from or on another page.
pub fn border_is_cut(start_line: usize, end: usize, composed_lines: usize) -> (r: (bool, bool))
    ensures
        r.0 == (start_line > 0),
        r.1 == (end < composed_lines),
{
    (start_line > 0, end < composed_lines)
}

} // verus!
