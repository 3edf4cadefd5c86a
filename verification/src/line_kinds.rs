//! What kind of line a composed line is, by its text and its objects.

use vstd::prelude::*;

use crate::composed::composed_line_char_end;
use crate::composed::ComposedParagraph;
use crate::composed::ComposedTextRun;
use crate::model::Control;
use crate::model::Paragraph;
use crate::tac::char_pos_in_line;
use crate::tac::position_in_range;
use crate::text::all_white;
use crate::text::contains_char;
use crate::text::is_blank;

verus! {

/// The control is an equation laid out like a character.
pub open spec fn is_inline_equation(control: Control) -> bool {
    control matches Control::Equation(eq) && eq.common.treat_as_char
}

/// The control is a picture or a shape laid out like a character.
pub open spec fn is_inline_picture_or_shape(control: Control) -> bool {
    match control {
        Control::Picture(picture) => picture.common.treat_as_char,
        Control::Shape(shape) => shape.common.treat_as_char,
        _ => false,
    }
}

/// The control with the given index is an equation laid out like a character.
pub open spec fn equation_at(para: Paragraph, index: int) -> bool {
    0 <= index < para.controls@.len() && is_inline_equation(para.controls@[index])
}

/// Whether a control is an equation laid out like a character.
pub fn is_treat_as_char_equation_control(control: Option<&Control>) -> (r: bool)
    ensures
        r == (control matches Some(c) && is_inline_equation(*c)),
{
    match control {
        Some(Control::Equation(eq)) => eq.common.treat_as_char,
        _ => false,
    }
}

fn control_is_equation(para: &Paragraph, index: usize) -> (r: bool)
    ensures
        r == equation_at(*para, index as int),
{
    if index < para.controls.len() {
        is_treat_as_char_equation_control(Some(&para.controls[index]))
    } else {
        false
    }
}

/// Whether the paragraph has a picture or shape laid out like a character.
#[verifier::loop_isolation(false)]
pub fn has_treat_as_char_picture_or_shape(para: Option<&Paragraph>) -> (r: bool)
    ensures
        r == (para matches Some(p) && exists|i: int|
            0 <= i < p.controls@.len() && is_inline_picture_or_shape(#[trigger] p.controls@[i])),
{
    match para {
        Some(p) => {
            for i in 0..p.controls.len()
                invariant
                    forall|k: int|
                        0 <= k < i ==> !is_inline_picture_or_shape(#[trigger] p.controls@[k]),
            {
                let inline: bool = match &p.controls[i] {
                    Control::Picture(picture) => picture.common.treat_as_char,
                    Control::Shape(shape) => shape.common.treat_as_char,
                    _ => false,
                };
                if inline {
                    assert(is_inline_picture_or_shape(p.controls@[i as int]));
                    return true;
                }
            }
            false
        },
        None => false,
    }
}

/// The line has an object in the range up to the next line; the last line's range
/// has no end.
pub open spec fn has_object_before_next_line(comp: ComposedParagraph, line_idx: int) -> bool {
    let start = comp.lines@[line_idx].char_start as int;
    let end = if line_idx + 1 < comp.lines@.len() {
        comp.lines@[line_idx + 1].char_start as int
    } else {
        usize::MAX as int
    };
    &&& 0 <= line_idx < comp.lines@.len()
    &&& exists|k: int|
        0 <= k < comp.tac_controls@.len() && position_in_range(
            #[trigger] comp.tac_controls@[k].0 as int,
            start,
            end,
        )
}

/// Whether the line has an object in the range up to the next line.
#[verifier::loop_isolation(false)]
pub fn line_has_tac_control(comp: &ComposedParagraph, line_idx: usize) -> (r: bool)
    ensures
        r == has_object_before_next_line(*comp, line_idx as int),
{
    if line_idx >= comp.lines.len() {
        return false;
    }
    let start: usize = comp.lines[line_idx].char_start;
    let mut end: usize = usize::MAX;
    if line_idx + 1 < comp.lines.len() {
        end = comp.lines[line_idx + 1].char_start;
    }
    for k in 0..comp.tac_controls.len()
        invariant
            forall|i: int|
                0 <= i < k ==> !position_in_range(
                    #[trigger] comp.tac_controls@[i].0 as int,
                    start as int,
                    end as int,
                ),
    {
        if char_pos_in_line(comp.tac_controls[k].0, start, end) {
            assert(position_in_range(
                comp.tac_controls@[k as int].0 as int,
                start as int,
                end as int,
            ));
            return true;
        }
    }
    false
}

/// The position lies in the characters of the line.
pub open spec fn strictly_on_line(comp: ComposedParagraph, line_idx: int, pos: int) -> bool {
    &&& 0 <= line_idx < comp.lines@.len()
    &&& comp.lines@[line_idx].char_start <= pos < comp.char_end(line_idx)
}

/// Whether one of the objects lies in the characters of the line.
pub fn line_has_strict_tac_control<W: Copy>(
    comp: &ComposedParagraph,
    tac_offsets: &[(usize, W, usize)],
    line_idx: usize,
) -> (r: bool)
    requires
        comp.fits(),
    ensures
        r == exists|k: int|
            0 <= k < tac_offsets@.len() && strictly_on_line(
                *comp,
                line_idx as int,
                (#[trigger] tac_offsets@[k]).0 as int,
            ),
{
    if line_idx >= comp.lines.len() {
        return false;
    }
    let start: usize = comp.lines[line_idx].char_start;
    let end: usize = composed_line_char_end(comp, line_idx);
    for k in 0..tac_offsets.len()
        invariant
            line_idx < comp.lines@.len(),
            start == comp.lines@[line_idx as int].char_start,
            end == comp.char_end(line_idx as int),
            forall|i: int|
                0 <= i < k ==> !strictly_on_line(
                    *comp,
                    line_idx as int,
                    (#[trigger] tac_offsets@[i]).0 as int,
                ),
    {
        let offset: (usize, W, usize) = tac_offsets[k];
        if offset.0 >= start && offset.0 < end {
            assert(strictly_on_line(*comp, line_idx as int, tac_offsets@[k as int].0 as int));
            return true;
        }
    }
    false
}

/// An equation among the objects lies in the characters of the line.
pub open spec fn has_strict_equation<W>(
    para: Option<&Paragraph>,
    comp: ComposedParagraph,
    tac_offsets: Seq<(usize, W, usize)>,
    line_idx: int,
) -> bool {
    para matches Some(p) && exists|k: int|
        0 <= k < tac_offsets.len() && strictly_on_line(
            comp,
            line_idx,
            (#[trigger] tac_offsets[k]).0 as int,
        ) && equation_at(*p, tac_offsets[k].2 as int)
}

/// Whether an equation among the objects lies in the characters of the line.
#[verifier::loop_isolation(false)]
pub fn line_has_strict_equation_tac_control<W: Copy>(
    para: Option<&Paragraph>,
    comp: &ComposedParagraph,
    tac_offsets: &[(usize, W, usize)],
    line_idx: usize,
) -> (r: bool)
    requires
        comp.fits(),
    ensures
        r == has_strict_equation(para, *comp, tac_offsets@, line_idx as int),
{
    match para {
        Some(p) => {
            if line_idx >= comp.lines.len() {
                return false;
            }
            let start: usize = comp.lines[line_idx].char_start;
            let end: usize = composed_line_char_end(comp, line_idx);
            for k in 0..tac_offsets.len()
                invariant
                    line_idx < comp.lines@.len(),
                    start == comp.lines@[line_idx as int].char_start,
                    end == comp.char_end(line_idx as int),
                    forall|i: int|
                        0 <= i < k ==> !(strictly_on_line(
                            *comp,
                            line_idx as int,
                            (#[trigger] tac_offsets@[i]).0 as int,
                        ) && equation_at(*p, tac_offsets@[i].2 as int)),
            {
                let offset: (usize, W, usize) = tac_offsets[k];
                if offset.0 >= start && offset.0 < end && control_is_equation(p, offset.2) {
                    assert(strictly_on_line(
                        *comp,
                        line_idx as int,
                        tac_offsets@[k as int].0 as int,
                    ));
                    return true;
                }
            }
            false
        },
        None => false,
    }
}

/// An empty line in front of an equation line at the same position: it stands for no
/// content of its own.
pub open spec fn is_leading_equation_guide<W>(
    para: Option<&Paragraph>,
    comp: ComposedParagraph,
    tac_offsets: Seq<(usize, W, usize)>,
    line_idx: int,
) -> bool {
    &&& 0 <= line_idx
    &&& line_idx + 1 < comp.lines@.len()
    &&& comp.lines@[line_idx].runs@.len() == 0
    &&& comp.lines@[line_idx].char_start == comp.lines@[line_idx + 1].char_start
    &&& has_strict_equation(para, comp, tac_offsets, line_idx + 1)
}

/// Whether the line is an empty guide line in front of an equation line.
pub fn line_is_leading_empty_equation_tac_guide<W: Copy>(
    para: Option<&Paragraph>,
    comp: &ComposedParagraph,
    tac_offsets: &[(usize, W, usize)],
    line_idx: usize,
) -> (r: bool)
    requires
        comp.fits(),
    ensures
        r == is_leading_equation_guide(para, *comp, tac_offsets@, line_idx as int),
{
    if line_idx >= comp.lines.len() || line_idx + 1 >= comp.lines.len() {
        return false;
    }
    comp.lines[line_idx].runs.len() == 0 && comp.lines[line_idx].char_start == comp.lines[line_idx
        + 1].char_start && !line_has_strict_tac_control(comp, tac_offsets, line_idx)
        && line_has_strict_equation_tac_control(para, comp, tac_offsets, line_idx + 1)
}

/// No run of the line shows anything but white space.
pub open spec fn runs_are_white(runs: Seq<ComposedTextRun>) -> bool {
    forall|i: int| 0 <= i < runs.len() ==> all_white((#[trigger] runs[i]).text@)
}

/// Whether no run shows anything but white space.
pub fn runs_all_whitespace(runs: &[ComposedTextRun]) -> (r: bool)
    ensures
        r == runs_are_white(runs@),
{
    for i in 0..runs.len()
        invariant
            forall|k: int| 0 <= k < i ==> all_white((#[trigger] runs@[k]).text@),
    {
        if !is_blank(runs[i].text.as_str()) {
            assert(!all_white(runs@[i as int].text@));
            return false;
        }
    }
    true
}

/// Some run of the line holds a tab.
pub open spec fn runs_have_tab(runs: Seq<ComposedTextRun>) -> bool {
    exists|i: int| 0 <= i < runs.len() && (#[trigger] runs[i]).text@.contains('\t')
}

/// Whether some run holds a tab.
pub fn has_tabs(runs: &[ComposedTextRun]) -> (r: bool)
    ensures
        r == runs_have_tab(runs@),
{
    for i in 0..runs.len()
        invariant
            forall|k: int| 0 <= k < i ==> !(#[trigger] runs@[k]).text@.contains('\t'),
    {
        if contains_char(runs[i].text.as_str(), '\t') {
            assert(runs@[i as int].text@.contains('\t'));
            return true;
        }
    }
    false
}

/// Whether a blank line only keeps a distance: no object stands on it, and the
/// paragraph has no control or belongs to an endnote.
pub fn is_blank_spacer_line<W: Copy>(
    para: Option<&Paragraph>,
    is_endnote_virtual_para: bool,
    runs_all_whitespace: bool,
    line_tac_offsets: &[(usize, W, usize)],
) -> (r: bool)
    ensures
        r == (runs_all_whitespace && line_tac_offsets@.len() == 0 && (is_endnote_virtual_para || (
        para matches Some(p) && p.controls@.len() == 0))),
{
    if !runs_all_whitespace || line_tac_offsets.len() > 0 {
        return false;
    }
    let no_controls: bool = match para {
        Some(p) => p.controls.len() == 0,
        None => false,
    };
    is_endnote_virtual_para || no_controls
}

/// Whether a blank line holds equations and no other object.
#[verifier::loop_isolation(false)]
pub fn is_equation_only_tac_line<W: Copy>(
    para: Option<&Paragraph>,
    runs_all_whitespace: bool,
    line_tac_offsets: &[(usize, W, usize)],
) -> (r: bool)
    ensures
        r == (runs_all_whitespace && line_tac_offsets@.len() > 0 && (para matches Some(p)
            && forall|k: int|
            0 <= k < line_tac_offsets@.len() ==> equation_at(
                *p,
                (#[trigger] line_tac_offsets@[k]).2 as int,
            ))),
{
    match para {
        Some(p) => {
            if !runs_all_whitespace || line_tac_offsets.len() == 0 {
                return false;
            }
            for k in 0..line_tac_offsets.len()
                invariant
                    forall|i: int|
                        0 <= i < k ==> equation_at(
                            *p,
                            (#[trigger] line_tac_offsets@[i]).2 as int,
                        ),
            {
                let offset: (usize, W, usize) = line_tac_offsets[k];
                if !control_is_equation(p, offset.2) {
                    assert(!equation_at(*p, line_tac_offsets@[k as int].2 as int));
                    return false;
                }
            }
            true
        },
        None => false,
    }
}

} // verus!
