//! What stands in the way of shaped glyphs, and what does not.

use vstd::prelude::*;

use crate::cluster::cluster_drops_tracking;
use crate::cluster::terminal_run;
use crate::composed::ComposedLine;
use crate::composed::ComposedParagraph;
use crate::model::Alignment;
use crate::model::Control;
use crate::model::Paragraph;
use crate::shaping::all_plain;
use crate::shaping::composed_is_only_text;
use crate::shaping::horizontal_shaping_initial_lane_preflight;
use crate::shaping::is_shaping_candidate;
use crate::shaping::kerns_pairs;
use crate::shaping::no_line_seg_surface;
use crate::shaping::para_is_only_text;
use crate::shaping::para_style_is_plain;
use crate::shaping::shaped_is_current;
use crate::shaping::spaces_before;
use crate::shaping::style_is_plain;
use crate::shaping::NoLineSegSurface;
use crate::shaping::ParaStyleFacts;
use crate::shaping::RunStyleFacts;
use crate::shaping::ShapedLine;
use crate::shaping::ShapingGenerations;
use crate::shaping::ShapingPlace;
use crate::text::has_white;
use crate::vertical::bounded_vertical_eligible;
use crate::vertical::VerticalStyleFacts;
use crate::vertical::VerticalText;

verus! {

/// Any decoration makes a style one that is not plain, as do a size or a ratio out of range;
/// a style without any is plain. Only with a font of its own may a run be wide.
pub proof fn lemma_plain_style(s: RunStyleFacts, instance: bool)
    ensures
        s.bold || s.italic || s.underlined || s.strikethrough || s.emboss || s.engrave
            || s.superscript || s.subscript || s.shaded || s.has_letter_spacing ==> !style_is_plain(
            s,
            instance,
        ),
        s.outline_type > 0 || s.shadow_type > 0 || s.emphasis_dot > 0 ==> !style_is_plain(
            s,
            instance,
        ),
        !s.size_in_range || !s.ratio_is_positive ==> !style_is_plain(s, instance),
        !s.ratio_at_most_limit ==> !style_is_plain(s, true),
        !s.ratio_condenses ==> !style_is_plain(s, false),
        style_is_plain(
            RunStyleFacts {
                bold: false,
                italic: false,
                size_in_range: true,
                ratio_is_positive: true,
                ratio_at_most_limit: true,
                ratio_condenses: s.ratio_condenses,
                has_letter_spacing: false,
                underlined: false,
                strikethrough: false,
                outline_type: 0,
                shadow_type: 0,
                emboss: false,
                engrave: false,
                superscript: false,
                subscript: false,
                emphasis_dot: 0,
                shaded: false,
            },
            true,
        ),
{
}

/// A paragraph that is aligned, bordered, condensed or has its tabs on the right moves its
/// text; without a style nothing is known of it.
pub proof fn lemma_plain_paragraph_style(s: ParaStyleFacts)
    ensures
        !para_style_is_plain(None),
        para_style_is_plain(Some(s)) <==> s.alignment == Alignment::Left && s.border_fill_id == 0
            && s.condense_min_space == 0 && !s.auto_tab_right,
{
}

/// One control character or place of an object is enough for a text not to be plain.
pub proof fn lemma_plain_text(text: Seq<char>, i: int)
    ensures
        0 <= i < text.len() && ((text[i] as u32) < 0x20 || 0x7f <= text[i] as u32 <= 0x9f || text[i]
            == '\u{fffc}') ==> !all_plain(text),
        (forall|k: int|
            0 <= k < text.len() ==> 0x20 <= #[trigger] text[k] as u32 <= 0x7e) ==> all_plain(text),
        text.len() == 0 ==> all_plain(text),
{
}

/// Anything but text stands in the way: a control, a range, a field, a head, an object, a
/// note, a stored tab, a second line or run.
pub proof fn lemma_only_text(para: Paragraph, comp: ComposedParagraph, text: Seq<char>)
    ensures
        para.controls@.len() > 0 || para.range_tags@.len() > 0 || para.field_ranges@.len() > 0
            || para.orphan_field_ends@.len() > 0 || !all_plain(para.text@) ==> !para_is_only_text(
            para,
        ),
        para.controls@.len() == 0 && para.range_tags@.len() == 0 && para.field_ranges@.len() == 0
            && para.orphan_field_ends@.len() == 0 && all_plain(para.text@) ==> para_is_only_text(
            para,
        ),
        composed_is_only_text(comp, text) ==> {
            &&& comp.lines@.len() == 1
            &&& comp.lines@[0].runs@.len() == 1
            &&& comp.lines@[0].runs@[0].text@ == text
            &&& text.len() > 0
            &&& comp.numbering_text is None
            &&& comp.tac_controls@.len() == 0
            &&& comp.footnote_positions@.len() == 0
            &&& comp.inline_controls@.len() == 0
            &&& comp.tab_extended@.len() == 0
            &&& comp.lines@[0].runs@[0].display_text is None
            &&& comp.lines@[0].runs@[0].char_overlap is None
            &&& comp.lines@[0].runs@[0].footnote_marker is None
            &&& !comp.lines@[0].has_line_break
            &&& comp.lines@[0].char_start == 0
        },
{
}

/// Shaped text is current where it is the whole run, from the present fonts, on the base
/// line; a glyph off the base line or an old font is enough against it.
pub proof fn lemma_current_shaping(
    lines: Seq<ShapedLine>,
    run: crate::composed::ComposedTextRun,
    generations: ShapingGenerations,
    i: int,
)
    requires
        lines.len() == 1,
        lines[0].runs@.len() == 1,
    ensures
        lines[0].runs@[0].registry_generation != generations.registry ==> !shaped_is_current(
            lines,
            run,
            generations,
        ),
        lines[0].scalar_start != 0 || lines[0].scalar_end != run.text@.len() ==> !shaped_is_current(
            lines,
            run,
            generations,
        ),
        lines[0].runs@[0].code_point_count != run.text@.len() ==> !shaped_is_current(
            lines,
            run,
            generations,
        ),
        lines[0].runs@[0].instance_request matches Some(request) && (request.char_style_id
            != run.char_style_id || request.lang_index != run.lang_index
            || request.request_generation != generations.instance_request) ==> !shaped_is_current(
            lines,
            run,
            generations,
        ),
        0 <= i < lines[0].runs@[0].glyphs@.len() && (lines[0].runs@[0].glyphs@[i].y_offset != 0
            || lines[0].runs@[0].glyphs@[i].y_advance != 0) ==> !shaped_is_current(
            lines,
            run,
            generations,
        ),
{
}

/// A paragraph is drawn with shaped glyphs only as a whole, on the left, without a border,
/// and where all of it is plain text.
pub proof fn lemma_paragraph_with_shaped_glyphs(
    comp: &ComposedParagraph,
    para: &Paragraph,
    shaped: &[ShapedLine],
    generations: ShapingGenerations,
    style: &RunStyleFacts,
    para_style: Option<ParaStyleFacts>,
    start: usize,
    end: usize,
    alignment: Alignment,
    border: u16,
    r: bool,
)
    requires
        call_ensures(
            horizontal_shaping_initial_lane_preflight,
            (
                comp,
                Some(para),
                Some(shaped),
                Some(generations),
                style,
                para_style,
                start,
                end,
                alignment,
                border,
            ),
            r,
        ),
    ensures
        start > 0 || end < comp.lines@.len() || alignment != Alignment::Left || border > 0 ==> !r,
        r ==> para.controls@.len() == 0 && comp.lines@.len() == 1 && comp.lines@[0].runs@.len()
            == 1 && comp.lines@[0].runs@[0].text@ == para.text@ && shaped@.len() == 1
            && shaped@[0].scalar_end == para.text@.len() && !style.bold && !style.italic
            && para_style is Some,
{
}

/// A run is a candidate just where nothing stands in front of it, in it or around it.
pub proof fn lemma_candidate_for_shaping(place: &ShapingPlace, r: bool)
    requires
        call_ensures(is_shaping_candidate, (place,), r),
    ensures
        !place.paragraph_may || place.run_index > 0 || place.run_char_pos > 0 || place.char_offset
            > 0 ==> !r,
        place.has_tabs || place.object_count > 0 || place.note_count > 0 || place.marker_count > 0
            || place.border_fill_id > 0 || place.has_extra_spacing || place.renders_trailing_space
            ==> !r,
        !r ==> !place.paragraph_may || place.run_index > 0 || place.run_char_pos > 0
            || place.char_offset > 0 || place.has_tabs || place.object_count > 0 || place.note_count
            > 0 || place.marker_count > 0 || place.border_fill_id > 0 || place.has_extra_spacing
            || place.renders_trailing_space,
{
}

/// What is known of a paragraph without stored lines; one with stored lines has no such
/// surface.
pub proof fn lemma_surface_without_lines(
    para: &Paragraph,
    start: usize,
    split: bool,
    r: Option<NoLineSegSurface>,
)
    requires
        call_ensures(no_line_seg_surface, (para, start, split), r),
    ensures
        r is Some <==> para.no_stored_line_segs,
        r matches Some(s) ==> {
            &&& s.split_cell == split
            &&& s.stored_prefix <==> start > 0
            &&& s.has_inline_control <==> para.controls@.len() > 0
            &&& s.edit_reflow == para.stored_text_partition_dirty
            &&& para.line_segs@.len() == 0 ==> s.frame_interval_count == 1
            &&& para.line_segs@.len() > 0 ==> (s.frame_interval_count == 1
                <==> para.line_segs@[0].single_segment_line)
            &&& s.frame_interval_count <= 1
        },
{
}

/// Pairs are kerned where there is text, the style asks for it and the font is at hand.
pub proof fn lemma_kerned_pairs(eligible: bool, style: bool, text: &str, font: bool, r: bool)
    requires
        call_ensures(kerns_pairs, (eligible, style, text, font), r),
    ensures
        !eligible || !style || !font || text@.len() == 0 <==> !r,
{
}

/// Behind all of a run the added width is taken back once for each space at its end, and
/// never more often.
pub proof fn lemma_width_taken_back(index: int, count: int, trailing: int)
    requires
        0 <= index <= count,
        0 <= trailing,
    ensures
        trailing <= count ==> spaces_before(count, count, trailing) == trailing,
        0 <= spaces_before(index, count, trailing) <= index,
        spaces_before(index, count, 0) == 0,
        index <= count - trailing ==> spaces_before(index, count, trailing) == 0,
{
}

/// The tracking that may be left out is that of the last run with text, in a line with a
/// picture where nothing stands behind the text.
pub proof fn lemma_run_of_the_last_tracking(
    line: &ComposedLine,
    para: &Paragraph,
    offsets: &[(usize, usize)],
    i: int,
    r: Option<usize>,
)
    requires
        call_ensures(terminal_run, (line, Some(para), offsets), r),
    ensures
        r matches Some(k) ==> k < line.runs@.len() && line.runs@[k as int].text@.len() > 0 && (k < i
            < line.runs@.len() ==> line.runs@[i].text@.len() == 0),
        r is Some && 0 <= i < offsets@.len() ==> offsets@[i].0 < line.char_start
            + crate::composed::runs_text(line.runs@).len(),
        offsets@.len() == 0 ==> r is None,
        r is Some && 0 <= i < line.runs@.len() ==> line.runs@[i].char_overlap is None
            && line.runs@[i].display_text is None,
        r is Some ==> exists|k: int|
            #![trigger offsets@[k]]
            0 <= k < offsets@.len() && offsets@[k].1 < para.controls@.len() && (
            para.controls@[offsets@[k].1 as int] matches Control::Picture(picture)
                && picture.common.treat_as_char),
{
}

/// Tracking is left out behind a cluster that shows something, in a run that has some.
pub proof fn lemma_tracking_left_out(
    cluster: &str,
    is_tracked: bool,
    r: bool,
    none: bool,
)
    requires
        call_ensures(cluster_drops_tracking, (Some(cluster), is_tracked), r),
        call_ensures(cluster_drops_tracking, (None, is_tracked), none),
    ensures
        !none,
        !is_tracked || has_white(cluster@) <==> !r,
{
}

/// Vertical text is shaped only as one run of upright letters in one column, in a table of
/// one cell and a plain style.
pub proof fn lemma_vertical_text_with_shaped_glyphs(
    native: bool,
    direction: u8,
    cells: usize,
    paras: &[Paragraph],
    comps: &[ComposedParagraph],
    text: &VerticalText,
    style: Option<VerticalStyleFacts>,
    i: int,
    r: bool,
)
    requires
        call_ensures(
            bounded_vertical_eligible,
            (native, direction, cells, paras, comps, text, style),
            r,
        ),
    ensures
        !native || direction != 2 || cells != 1 || paras@.len() != 1 || comps@.len() != 1 || style
            is None ==> !r,
        text.columns@.len() != 1 || text.chars@.len() == 0 ==> !r,
        r ==> {
            let s = style->0;
            &&& !s.bold && !s.italic && !s.underlined && !s.strikethrough
            &&& !s.emboss && !s.engrave && !s.superscript && !s.subscript
            &&& !s.has_letter_spacing && !s.has_ratio
            &&& s.border_fill_id == 0 && s.outline_type == 0 && s.shadow_type == 0
            &&& s.emphasis_dot == 0
        },
        r ==> comps@[0].lines@.len() == 1 && comps@[0].lines@[0].runs@.len() == 1
            && comps@[0].lines@[0].runs@[0].text@.len() == text.chars@.len()
            && paras@[0].controls@.len() == 0,
        r && 0 <= i < text.chars@.len() ==> text.chars@[i].char_style_id
            == comps@[0].lines@[0].runs@[0].char_style_id,
        r ==> text.columns@[0].start == 0 && text.columns@[0].end == text.chars@.len(),
{
}

} // verus!
