//! Where the text of a line starts: what its alignment counts and what it leaves out.

use vstd::prelude::*;

use crate::composed::ComposedLine;
use crate::line_kinds::equation_at;
use crate::line_kinds::is_treat_as_char_equation_control;
use crate::model::Alignment;
use crate::model::Paragraph;
use crate::spacing::line_chars;
use crate::text::all_white;
use crate::text::is_blank_slice;
use crate::text::trim;
use crate::text::trimmed;

verus! {

/// Whether the space that a soft wrap left at the end of the line is drawn: the line
/// was broken by the layout itself, is not the last one, and ends in a space.
pub fn renders_synthetic_wrap_trailing_space(
    para: Option<&Paragraph>,
    line: &ComposedLine,
    line_idx: usize,
    is_last_line_of_para: bool,
) -> (r: bool)
    ensures
        r == (!is_last_line_of_para && (para matches Some(p) && line_idx < p.line_segs@.len()
            && p.line_segs@[line_idx as int].implementation_property) && line.text().len() > 0
            && line.text().last() == ' '),
{
    let synthetic: bool = match para {
        Some(p) => line_idx < p.line_segs.len() && p.line_segs[line_idx].implementation_property,
        None => false,
    };
    if is_last_line_of_para || !synthetic {
        return false;
    }
    let chars = line_chars(line.runs.as_slice());
    chars.len() > 0 && chars[chars.len() - 1] == ' '
}

/// The label of the examinee number on answer sheets.
pub open spec fn answer_sheet_label() -> Seq<char> {
    seq!['\u{C218}', '\u{D5D8}', '\u{BC88}', '\u{D638}']
}

/// Whether the line is the label of the examinee number in a cell.
pub fn is_answer_sheet_number_label(in_cell: bool, line: &ComposedLine) -> (r: bool)
    ensures
        r == (in_cell && trim(line.text()) == answer_sheet_label()),
{
    if !in_cell {
        return false;
    }
    let chars = line_chars(line.runs.as_slice());
    let label = trimmed(chars.as_slice());
    let r: bool = label.len() == 4 && label[0] == '\u{C218}' && label[1] == '\u{D5D8}' && label[2]
        == '\u{BC88}' && label[3] == '\u{D638}';
    proof {
        if r {
            assert(label@ == answer_sheet_label());
        } else if label@ == answer_sheet_label() {
            assert(label@[0] == answer_sheet_label()[0]);
        }
    }
    r
}

/// Whether the label of the examinee number is set to the right of its cell: the cell is
/// narrow, and the label nearly fills it.
pub fn packs_label_as_right(
    is_answer_label: bool,
    alignment: Alignment,
    has_tabs: bool,
    cell_is_narrow: bool,
    nearly_fills_cell: bool,
) -> (r: bool)
    ensures
        r == (is_answer_label && alignment == Alignment::Center && !has_tabs && cell_is_narrow
            && nearly_fills_cell),
{
    is_answer_label && alignment == Alignment::Center && !has_tabs && cell_is_narrow
        && nearly_fills_cell
}

/// Whether the line shows only objects, an equation among them, and stands outside
/// of cells: it then keeps the stored position and is not aligned anew.
pub fn non_cell_tac_only_line<W: Copy>(
    in_cell: bool,
    para: Option<&Paragraph>,
    line: &ComposedLine,
    width_objects: &[(usize, W, usize)],
) -> (r: bool)
    ensures
        r == (!in_cell && all_white(line.text()) && (para matches Some(p) && exists|k: int|
            0 <= k < width_objects@.len() && equation_at(
                *p,
                (#[trigger] width_objects@[k]).2 as int,
            ))),
{
    if in_cell {
        return false;
    }
    let chars = line_chars(line.runs.as_slice());
    if !is_blank_slice(chars.as_slice()) {
        return false;
    }
    match para {
        Some(p) => {
            for k in 0..width_objects.len()
                invariant
                    para == Some(p),
                    !in_cell,
                    all_white(line.text()),
                    forall|i: int|
                        0 <= i < k ==> !equation_at(*p, (#[trigger] width_objects@[i]).2 as int),
            {
                let offset: (usize, W, usize) = width_objects[k];
                if offset.2 < p.controls.len() && is_treat_as_char_equation_control(
                    Some(&p.controls[offset.2]),
                ) {
                    assert(equation_at(*p, width_objects@[k as int].2 as int));
                    return true;
                }
            }
            false
        },
        None => false,
    }
}

/// Some character of the text is not a space.
pub open spec fn has_non_space(text: Seq<char>) -> bool {
    exists|i: int| 0 <= i < text.len() && #[trigger] text[i] != ' '
}

/// Whether a centred line leaves out the spaces at its end: the last line of a
/// paragraph does where it has no object and is not made of spaces alone.
pub fn center_excludes_trailing_ws(
    alignment: Alignment,
    is_last_line_of_para: bool,
    has_objects: bool,
    line: &ComposedLine,
) -> (r: bool)
    ensures
        r == (alignment == Alignment::Center && is_last_line_of_para && !has_objects
            && has_non_space(line.text())),
{
    if alignment != Alignment::Center || !is_last_line_of_para || has_objects {
        return false;
    }
    let chars = line_chars(line.runs.as_slice());
    for i in 0..chars.len()
        invariant
            alignment == Alignment::Center,
            is_last_line_of_para,
            !has_objects,
            chars@ == line.text(),
            forall|k: int| 0 <= k < i ==> #[trigger] chars@[k] == ' ',
    {
        if chars[i] != ' ' {
            assert(line.text()[i as int] != ' ');
            return true;
        }
    }
    false
}

/// Whether a line on the right leaves out the spaces at its end: outside of cells,
/// in text boxes, and wherever no object stands in the line.
pub fn right_align_excludes_trailing_ws(
    alignment: Alignment,
    in_cell: bool,
    in_textbox: bool,
    has_objects: bool,
) -> (r: bool)
    ensures
        r == (alignment == Alignment::Right && (!in_cell || in_textbox || !has_objects)),
{
    alignment == Alignment::Right && (!in_cell || in_textbox || !has_objects)
}

/// Whether the tracking behind the last character is left out of the width: a line
/// in a cell that is aligned by its width and set without tabs or extra spacing.
pub fn excludes_terminal_tracking(
    in_cell: bool,
    alignment: Alignment,
    packed_as_right: bool,
    has_tabs: bool,
    has_extra_char_spacing: bool,
) -> (r: bool)
    ensures
        r == (in_cell && (alignment == Alignment::Center || alignment == Alignment::Right)
            && !packed_as_right && !has_tabs && !has_extra_char_spacing),
{
    in_cell && (alignment == Alignment::Center || alignment == Alignment::Right)
        && !packed_as_right && !has_tabs && !has_extra_char_spacing
}

/// How the free width of a line moves its start.
#[derive(Clone, Copy, Debug, PartialEq, Eq, Structural)]
pub enum AlignShift {
    /// The line starts at its margin.
    Margin,
    /// By half of the free width; spaces and tracking at the end are left out.
    HalfVisible,
    /// By half of the free width.
    Half,
    /// By the free width; spaces and tracking at the end are left out.
    FullVisible,
    /// By the free width.
    Full,
}

/// How the alignment moves the start of a line.
pub open spec fn align_shift_of(
    alignment: Alignment,
    packed_as_right: bool,
    object_only: bool,
    total_char_count: usize,
) -> AlignShift {
    match alignment {
        Alignment::Center => if packed_as_right {
            AlignShift::Full
        } else if object_only {
            AlignShift::Margin
        } else {
            AlignShift::HalfVisible
        },
        Alignment::Distribute => if total_char_count > 1 || object_only {
            AlignShift::Margin
        } else {
            AlignShift::Half
        },
        Alignment::Right => AlignShift::FullVisible,
        _ => AlignShift::Margin,
    }
}

/// Decides how the alignment moves the start of a line.
pub fn align_shift(
    alignment: Alignment,
    packed_as_right: bool,
    object_only: bool,
    total_char_count: usize,
) -> (shift: AlignShift)
    ensures
        shift == align_shift_of(alignment, packed_as_right, object_only, total_char_count),
{
    match alignment {
        Alignment::Center => if packed_as_right {
            AlignShift::Full
        } else if object_only {
            AlignShift::Margin
        } else {
            AlignShift::HalfVisible
        },
        Alignment::Distribute => if total_char_count > 1 || object_only {
            AlignShift::Margin
        } else {
            AlignShift::Half
        },
        Alignment::Right => AlignShift::FullVisible,
        _ => AlignShift::Margin,
    }
}

/// How a row of objects without text is moved by the alignment.
pub fn object_row_shift(alignment: Alignment, follows_alignment: bool) -> (shift: AlignShift)
    ensures
        shift == (if !follows_alignment {
            AlignShift::Margin
        } else {
            match alignment {
                Alignment::Center => AlignShift::Half,
                Alignment::Distribute => AlignShift::Half,
                Alignment::Right => AlignShift::Full,
                _ => AlignShift::Margin,
            }
        }),
{
    if !follows_alignment {
        return AlignShift::Margin;
    }
    match alignment {
        Alignment::Center => AlignShift::Half,
        Alignment::Distribute => AlignShift::Half,
        Alignment::Right => AlignShift::Full,
        _ => AlignShift::Margin,
    }
}

/// Which width a line is aligned by.
#[derive(Clone, Copy, Debug, PartialEq, Eq, Structural)]
pub enum AlignWidth {
    /// The width that the line has room for.
    Available,
    /// The text measured again with its extra spacing.
    Remeasured,
    /// The text with the extra spacing of each character.
    Widened,
    /// The natural width of the text.
    Natural,
}

/// Chooses the width that a line is aligned by.
pub fn align_width(
    squeeze_line: bool,
    is_answer_label: bool,
    has_extra_char_spacing: bool,
    widens_characters: bool,
    in_cell: bool,
    needs_justify: bool,
    needs_distribute: bool,
    total_char_count: usize,
    has_tabs: bool,
) -> (width: AlignWidth)
    ensures
        width == (if squeeze_line {
            AlignWidth::Available
        } else if in_cell && !needs_justify && !needs_distribute && total_char_count > 1 {
            if is_answer_label && has_extra_char_spacing && !has_tabs {
                AlignWidth::Remeasured
            } else if widens_characters {
                AlignWidth::Widened
            } else {
                AlignWidth::Natural
            }
        } else {
            AlignWidth::Natural
        }),
{
    if squeeze_line {
        return AlignWidth::Available;
    }
    if !in_cell || needs_justify || needs_distribute || total_char_count <= 1 {
        return AlignWidth::Natural;
    }
    if is_answer_label && has_extra_char_spacing && !has_tabs {
        AlignWidth::Remeasured
    } else if widens_characters {
        AlignWidth::Widened
    } else {
        AlignWidth::Natural
    }
}

} // verus!
