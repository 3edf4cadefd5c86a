//! When a paragraph or a run may be drawn with shaped glyphs or exact positions.

use vstd::prelude::*;

use crate::composed::ComposedLine;
use crate::composed::ComposedParagraph;
use crate::composed::ComposedTextRun;
use crate::model::Alignment;
use crate::model::Paragraph;
use crate::text::chars_of;
use crate::text::is_control;
use crate::text::is_control_code;
use crate::text::same_text;

verus! {

/// The font instance that a shaped run asked for: the style and the language that it
/// is for, and the generation of the request.
#[derive(Clone, Copy, Debug, PartialEq, Eq, Structural)]
pub struct InstanceRequest {
    pub char_style_id: u32,
    pub lang_index: usize,
    pub request_generation: u64,
}

/// The vertical part of a shaped glyph's placement.
#[derive(Clone, Copy, Debug, Default, PartialEq, Eq, Structural)]
pub struct GlyphRise {
    pub y_offset: i32,
    pub y_advance: i32,
}

/// A run of shaped text.
#[derive(Clone, Debug, Default)]
pub struct ShapedRun {
    pub scalar_start: usize,
    pub scalar_end: usize,
    pub code_point_count: usize,
    pub registry_generation: u64,
    pub instance_request: Option<InstanceRequest>,
    pub glyphs: Vec<GlyphRise>,
}

/// A line of shaped text.
#[derive(Clone, Debug, Default)]
pub struct ShapedLine {
    pub scalar_start: usize,
    pub scalar_end: usize,
    pub runs: Vec<ShapedRun>,
}

/// The generations of the fonts and of the instance requests that are current.
#[derive(Clone, Copy, Debug, Default, PartialEq, Eq, Structural)]
pub struct ShapingGenerations {
    pub registry: u64,
    pub instance_request: u64,
}

/// What the style of a run asks for. The flags on sizes are results of comparisons.
#[derive(Clone, Copy, Debug, Default, PartialEq, Eq, Structural)]
pub struct RunStyleFacts {
    pub bold: bool,
    pub italic: bool,
    /// The font size is a positive number, 4096 at most.
    pub size_in_range: bool,
    /// The width ratio is a positive number.
    pub ratio_is_positive: bool,
    /// The width ratio is 16 at most.
    pub ratio_at_most_limit: bool,
    /// The width ratio is less than 0.999.
    pub ratio_condenses: bool,
    pub has_letter_spacing: bool,
    pub underlined: bool,
    pub strikethrough: bool,
    pub outline_type: u8,
    pub shadow_type: u8,
    pub emboss: bool,
    pub engrave: bool,
    pub superscript: bool,
    pub subscript: bool,
    pub emphasis_dot: u8,
    pub shaded: bool,
}

/// What the style of a paragraph asks for.
#[derive(Clone, Copy, Debug, Default, PartialEq, Eq, Structural)]
pub struct ParaStyleFacts {
    pub alignment: Alignment,
    pub border_fill_id: u16,
    pub condense_min_space: u8,
    pub auto_tab_right: bool,
}

/// The style draws plain letters. With a font instance of its own a run may be wider.
pub open spec fn style_is_plain(style: RunStyleFacts, has_instance: bool) -> bool {
    &&& !style.bold && !style.italic
    &&& style.size_in_range
    &&& style.ratio_is_positive
    &&& if has_instance {
        style.ratio_at_most_limit
    } else {
        style.ratio_condenses
    }
    &&& !style.has_letter_spacing
    &&& !style.underlined && !style.strikethrough
    &&& style.outline_type == 0 && style.shadow_type == 0
    &&& !style.emboss && !style.engrave
    &&& !style.superscript && !style.subscript
    &&& style.emphasis_dot == 0
    &&& !style.shaded
}

/// Whether the style draws plain letters.
pub fn is_plain_style(style: &RunStyleFacts, has_instance: bool) -> (r: bool)
    ensures
        r == style_is_plain(*style, has_instance),
{
    let ratio_supported: bool = if has_instance {
        style.ratio_at_most_limit
    } else {
        style.ratio_condenses
    };
    !style.bold && !style.italic && style.size_in_range && style.ratio_is_positive
        && ratio_supported && !style.has_letter_spacing && !style.underlined
        && !style.strikethrough && style.outline_type == 0 && style.shadow_type == 0
        && !style.emboss && !style.engrave && !style.superscript && !style.subscript
        && style.emphasis_dot == 0 && !style.shaded
}

/// The paragraph's style moves nothing.
pub open spec fn para_style_is_plain(style: Option<ParaStyleFacts>) -> bool {
    style matches Some(s) && s.alignment == Alignment::Left && s.border_fill_id == 0
        && s.condense_min_space == 0 && !s.auto_tab_right
}

/// The character only shows a glyph: it is no control character and no place of an
/// object.
pub open spec fn is_plain_char(c: char) -> bool {
    !is_control_code(c as u32) && c != '\u{fffc}'
}

/// Every character only shows a glyph.
pub open spec fn all_plain(text: Seq<char>) -> bool {
    forall|i: int| 0 <= i < text.len() ==> is_plain_char(#[trigger] text[i])
}

/// Whether every character only shows a glyph.
pub fn is_plain_text(text: &str) -> (r: bool)
    ensures
        r == all_plain(text@),
{
    let chars = chars_of(text);
    for i in 0..chars.len()
        invariant
            chars@ == text@,
            forall|k: int| 0 <= k < i ==> is_plain_char(#[trigger] chars@[k]),
    {
        if is_control(chars[i]) || chars[i] == '\u{fffc}' {
            assert(!is_plain_char(text@[i as int]));
            return false;
        }
    }
    true
}

/// The paragraph has nothing but text.
pub open spec fn para_is_only_text(para: Paragraph) -> bool {
    &&& para.controls@.len() == 0
    &&& para.range_tags@.len() == 0
    &&& para.field_ranges@.len() == 0
    &&& para.orphan_field_ends@.len() == 0
    &&& all_plain(para.text@)
}

/// The paragraph is composed into one line of one run that shows its whole text.
pub open spec fn composed_is_only_text(composed: ComposedParagraph, text: Seq<char>) -> bool {
    let line = composed.lines@[0];
    let run = line.runs@[0];
    &&& composed.lines@.len() == 1
    &&& line.runs@.len() == 1
    &&& !line.has_line_break
    &&& line.char_start == 0
    &&& composed.numbering_text is None
    &&& composed.inline_controls@.len() == 0
    &&& composed.tac_controls@.len() == 0
    &&& composed.footnote_positions@.len() == 0
    &&& composed.tab_extended@.len() == 0
    &&& run.text@ == text
    &&& run.text@.len() > 0
    &&& run.display_text is None
    &&& run.char_overlap is None
    &&& run.footnote_marker is None
}

/// No glyph leaves the base line.
pub open spec fn glyphs_are_level(glyphs: Seq<GlyphRise>) -> bool {
    forall|i: int|
        0 <= i < glyphs.len() ==> (#[trigger] glyphs[i]).y_offset == 0 && glyphs[i].y_advance == 0
}

/// The shaped lines are one run of the whole text, shaped with current fonts for the
/// style of the run.
pub open spec fn shaped_is_current(
    lines: Seq<ShapedLine>,
    run: ComposedTextRun,
    generations: ShapingGenerations,
) -> bool {
    let line = lines[0];
    let target = line.runs@[0];
    &&& lines.len() == 1
    &&& line.runs@.len() == 1
    &&& line.scalar_start == 0 && line.scalar_end == run.text@.len()
    &&& target.scalar_start == 0 && target.scalar_end == run.text@.len()
    &&& target.code_point_count == run.text@.len()
    &&& target.registry_generation == generations.registry
    &&& target.instance_request matches Some(request) ==> request.char_style_id
        == run.char_style_id && request.lang_index == run.lang_index && request.request_generation
        == generations.instance_request
    &&& glyphs_are_level(target.glyphs@)
}

fn level_glyphs(glyphs: &[GlyphRise]) -> (r: bool)
    ensures
        r == glyphs_are_level(glyphs@),
{
    for i in 0..glyphs.len()
        invariant
            forall|k: int|
                0 <= k < i ==> (#[trigger] glyphs@[k]).y_offset == 0 && glyphs@[k].y_advance == 0,
    {
        if glyphs[i].y_offset != 0 || glyphs[i].y_advance != 0 {
            return false;
        }
    }
    true
}

fn only_text_composed(composed: &ComposedParagraph, text: &str) -> (r: bool)
    ensures
        r == composed_is_only_text(*composed, text@),
{
    if composed.lines.len() != 1 || composed.lines[0].runs.len() != 1 {
        return false;
    }
    let line: &ComposedLine = &composed.lines[0];
    let run: &ComposedTextRun = &line.runs[0];
    !line.has_line_break && line.char_start == 0 && composed.numbering_text.is_none()
        && composed.inline_controls.len() == 0 && composed.tac_controls.len() == 0
        && composed.footnote_positions.len() == 0 && composed.tab_extended.len() == 0
        && same_text(run.text.as_str(), text) && run.text.as_str().unicode_len() > 0
        && run.display_text.is_none() && run.char_overlap.is_none()
        && run.footnote_marker.is_none()
}

fn current_shaped(lines: &[ShapedLine], run: &ComposedTextRun, generations: ShapingGenerations) -> (r:
    bool)
    ensures
        r == shaped_is_current(lines@, *run, generations),
{
    if lines.len() != 1 || lines[0].runs.len() != 1 {
        return false;
    }
    let count: usize = run.text.as_str().unicode_len();
    let line = &lines[0];
    let target = &line.runs[0];
    let request_is_current: bool = match target.instance_request {
        Some(request) => request.char_style_id == run.char_style_id && request.lang_index
            == run.lang_index && request.request_generation == generations.instance_request,
        None => true,
    };
    line.scalar_start == 0 && line.scalar_end == count && target.scalar_start == 0
        && target.scalar_end == count && target.code_point_count == count
        && target.registry_generation == generations.registry && request_is_current
        && level_glyphs(target.glyphs.as_slice())
}

/// The run of the first shaped line asked for a font instance.
pub open spec fn asks_for_instance(lines: Seq<ShapedLine>) -> bool {
    lines[0].runs@[0].instance_request is Some
}

/// Whether a whole paragraph may be drawn with shaped glyphs: it is one left-aligned
/// line of plain text in one plain style, and the shaped text is that line.
pub fn horizontal_shaping_initial_lane_preflight(
    composed: &ComposedParagraph,
    para: Option<&Paragraph>,
    shaped: Option<&[ShapedLine]>,
    generations: Option<ShapingGenerations>,
    run_style: &RunStyleFacts,
    para_style: Option<ParaStyleFacts>,
    start_line: usize,
    end_line: usize,
    alignment: Alignment,
    para_border_fill_id: u16,
) -> (r: bool)
    ensures
        r == (para is Some && shaped is Some && generations is Some && start_line == 0 && end_line
            >= composed.lines@.len() && para_is_only_text(*para->0) && composed_is_only_text(
            *composed,
            para->0.text@,
        ) && alignment == Alignment::Left && para_border_fill_id == 0 && shaped_is_current(
            shaped->0@,
            composed.lines@[0].runs@[0],
            generations->0,
        ) && style_is_plain(*run_style, asks_for_instance(shaped->0@)) && para_style_is_plain(
            para_style,
        )),
{
    match (para, shaped, generations) {
        (Some(para), Some(shaped), Some(generations)) => {
            if start_line != 0 || end_line < composed.lines.len() || para.controls.len() != 0
                || para.range_tags.len() != 0 || para.field_ranges.len() != 0
                || para.orphan_field_ends.len() != 0 || !is_plain_text(para.text.as_str())
                || !only_text_composed(composed, para.text.as_str()) || alignment
                != Alignment::Left || para_border_fill_id != 0 {
                return false;
            }
            if !current_shaped(shaped, &composed.lines[0].runs[0], generations) {
                return false;
            }
            let style_ok: bool = match para_style {
                Some(s) => s.alignment == Alignment::Left && s.border_fill_id == 0
                    && s.condense_min_space == 0 && !s.auto_tab_right,
                None => false,
            };
            let has_instance: bool = shaped[0].runs[0].instance_request.is_some();
            style_ok && is_plain_style(run_style, has_instance)
        },
        _ => false,
    }
}

/// What stands around a run that might be drawn with shaped glyphs.
#[derive(Clone, Copy, Debug, Default, PartialEq, Eq, Structural)]
pub struct ShapingPlace {
    /// The paragraph may be drawn with shaped glyphs.
    pub paragraph_may: bool,
    pub run_index: usize,
    pub run_char_pos: usize,
    pub char_offset: usize,
    pub has_tabs: bool,
    pub object_count: usize,
    pub note_count: usize,
    pub marker_count: usize,
    pub border_fill_id: u16,
    /// Spaces, characters or dashes of the line are moved apart.
    pub has_extra_spacing: bool,
    pub renders_trailing_space: bool,
}

/// Whether a run may be drawn with shaped glyphs: it is the first of such a paragraph,
/// and nothing moves or decorates it.
pub fn is_shaping_candidate(place: &ShapingPlace) -> (r: bool)
    ensures
        r == (place.paragraph_may && place.run_index == 0 && place.run_char_pos == 0
            && place.char_offset == 0 && !place.has_tabs && place.object_count == 0
            && place.note_count == 0 && place.marker_count == 0 && place.border_fill_id == 0
            && !place.has_extra_spacing && !place.renders_trailing_space),
{
    place.paragraph_may && place.run_index == 0 && place.run_char_pos == 0 && place.char_offset == 0
        && !place.has_tabs && place.object_count == 0 && place.note_count == 0
        && place.marker_count == 0 && place.border_fill_id == 0 && !place.has_extra_spacing
        && !place.renders_trailing_space
}

/// What is known of a line that has no stored segment.
#[derive(Clone, Copy, Debug, PartialEq, Eq, Structural)]
pub struct NoLineSegSurface {
    pub frame_interval_count: usize,
    pub edit_reflow: bool,
    pub stored_prefix: bool,
    pub split_cell: bool,
    pub has_inline_control: bool,
}

/// The surface of a shaped run in a paragraph without stored lines; `None` where the
/// paragraph has some.
pub fn no_line_seg_surface(para: &Paragraph, scalar_start: usize, split_cell: bool) -> (r: Option<
    NoLineSegSurface,
>)
    ensures
        r == (if para.no_stored_line_segs {
            Some(
                NoLineSegSurface {
                    frame_interval_count: if para.line_segs@.len() == 0
                        || para.line_segs@[0].single_segment_line {
                        1
                    } else {
                        0
                    },
                    edit_reflow: para.stored_text_partition_dirty,
                    stored_prefix: scalar_start != 0,
                    split_cell,
                    has_inline_control: para.controls@.len() != 0,
                },
            )
        } else {
            None
        }),
{
    if !para.no_stored_line_segs {
        return None;
    }
    let mut frame_interval_count: usize = 0;
    if para.line_segs.len() == 0 || para.line_segs[0].single_segment_line {
        frame_interval_count = 1;
    }
    Some(
        NoLineSegSurface {
            frame_interval_count,
            edit_reflow: para.stored_text_partition_dirty,
            stored_prefix: scalar_start != 0,
            split_cell,
            has_inline_control: para.controls.len() != 0,
        },
    )
}

/// Whether the pairs of a drawn run are kerned: nothing forbids it, the style asks for
/// it, there is text, and the font is at hand.
pub fn kerns_pairs(eligible: bool, style_kerns: bool, text: &str, has_font_source: bool) -> (r: bool)
    ensures
        r == (eligible && style_kerns && text@.len() > 0 && has_font_source),
{
    eligible && style_kerns && text.unicode_len() > 0 && has_font_source
}

/// How many widened spaces stand before position `index` of a run's end, of which
/// `trailing` are spaces: so many times the added width is taken back there.
pub open spec fn spaces_before(index: int, count: int, trailing: int) -> int {
    let start = count - if trailing <= count {
        trailing
    } else {
        count
    };
    if index > start {
        index - start
    } else {
        0
    }
}

/// How many times the added width of a space is taken back from a position of a run.
pub fn trailing_spaces_before(index: usize, count: usize, trailing: usize) -> (r: usize)
    ensures
        r == spaces_before(index as int, count as int, trailing as int),
{
    let mut start: usize = 0;
    if trailing <= count {
        start = count - trailing;
    }
    if index > start {
        index - start
    } else {
        0
    }
}

/// Positions in front of the trailing spaces stay, and each of these moves the next
/// ones by one more.
pub proof fn lemma_trailing_spaces_shift(index: int, count: int, trailing: int)
    requires
        0 <= index < count,
        0 <= trailing,
    ensures
        index + trailing <= count ==> spaces_before(index, count, trailing) == 0,
        index + trailing >= count ==> spaces_before(index + 1, count, trailing) == spaces_before(
            index,
            count,
            trailing,
        ) + 1,
{
}

} // verus!
