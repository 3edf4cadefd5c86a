//! What smaller questions about lines, runs and characters are answered with.

use vstd::prelude::*;

use crate::cells::extended_path;
use crate::cells::object_free_space;
use crate::cells::CellPathEntry;
use crate::cells::FreeSpace;
use crate::cluster::last_grapheme;
use crate::cluster::terminal_tracking_after_inline_picture;
use crate::composed::runs_char_count;
use crate::composed::runs_text;
use crate::composed::runs_unit_count;
use crate::composed::ComposedLine;
use crate::composed::ComposedParagraph;
use crate::composed::ComposedTextRun;
use crate::fields::split_guide_text_to_width;
use crate::frame::endnote_lazy_vpos_base_from;
use crate::frame::is_leading_endnote_marker_rendered_as_prefix;
use crate::frame::line_char_count;
use crate::frame::line_width_objects;
use crate::frame::stored_ladder_ascends;
use crate::frame::stored_line_objects;
use crate::inline_table::inline_table_stored_line_break_char_indices;
use crate::line_advance::skip_advance_empty_line;
use crate::line_advance::EmptyLineFacts;
use crate::line_box::tac_picture_label_extra;
use crate::line_box::tac_picture_label_extra_for_line;
use crate::line_geometry::is_last_line_of_para;
use crate::line_kinds::has_treat_as_char_picture_or_shape;
use crate::line_kinds::is_treat_as_char_equation_control;
use crate::line_kinds::line_has_strict_equation_tac_control;
use crate::line_kinds::line_has_strict_tac_control;
use crate::line_kinds::line_has_tac_control;
use crate::line_kinds::line_is_leading_empty_equation_tac_guide;
use crate::line_kinds::runs_all_whitespace;
use crate::model::Alignment;
use crate::model::Control;
use crate::model::LineSeg;
use crate::model::Paragraph;
use crate::model::Picture;
use crate::model::TextWrap;
use crate::numbering::is_flow_neutral;
use crate::objects::empty_line_logical_end;
use crate::objects::line_object_rows;
use crate::objects::raw_paragraph_lines;
use crate::objects::EmptyLineStep;
use crate::objects::ObjectRows;
use crate::objects::RawLine;
use crate::runs::contains_layout_control;
use crate::runs::line_shows_no_character;
use crate::runs::note_is_prefix;
use crate::runs::run_width_notes;
use crate::runs::run_width_objects;
use crate::seqs::indices;
use crate::shaping::is_plain_style;
use crate::shaping::is_plain_text;
use crate::shaping::trailing_spaces_before;
use crate::shaping::RunStyleFacts;
use crate::spacing::count_dash_leaders;
use crate::spacing::last_line_leader_dashes;
use crate::spacing::LineCounts;
use crate::tabs::awaits_leader_digits;
use crate::tabs::last_right_leader;
use crate::tabs::last_tab;
use crate::tabs::leader_digits_step;
use crate::tabs::tab_stops_decide;
use crate::tabs::LeaderDigits;
use crate::tabs::TabStop;
use crate::tac::char_pos_in_line;
use crate::tac::repeated_empty_tac_line_offset;
use crate::tac::tac_offsets_for_line_width;
use crate::tac::tac_owned_by_prior_empty_line;
use crate::text::chars_of;
use crate::text::contains_char;
use crate::text::contains_white;
use crate::text::count_char;
use crate::text::count_trailing;
use crate::text::is_blank;
use crate::text::is_control;
use crate::text::is_white_space;
use crate::text::same_text;
use crate::text::string_of;
use crate::text::trimmed;
use crate::width_plan::line_width_plan;
use crate::width_plan::RunWidth;

verus! {

/// A text is its characters in order, and characters in order are a text.
pub proof fn lemma_text_and_characters(
    text: &str,
    chars: Vec<char>,
    slice: &[char],
    back: String,
)
    requires
        call_ensures(chars_of, (text,), chars),
        slice@ == chars@,
        call_ensures(string_of, (slice,), back),
    ensures
        back@ == text@,
        chars@.len() == text@.len(),
{
}

/// Two texts are the same where they agree at every character.
pub proof fn lemma_same_texts(a: &str, b: &str, i: int, r: bool)
    requires
        call_ensures(same_text, (a, b), r),
    ensures
        a@.len() != b@.len() ==> !r,
        0 <= i < a@.len() && 0 <= i < b@.len() && a@[i] != b@[i] ==> !r,
        a@ =~= b@ ==> r,
{
}

/// A text is blank where no character of it shows; one that shows is enough against it.
pub proof fn lemma_blank_text(text: &str, chars: &[char], i: int, blank: bool, white: bool)
    requires
        call_ensures(is_blank, (text,), blank),
        call_ensures(contains_white, (chars,), white),
    ensures
        text@.len() == 0 ==> blank,
        0 <= i < text@.len() && '!' as u32 <= text@[i] as u32 <= '~' as u32 ==> !blank,
        (forall|k: int| 0 <= k < text@.len() ==> #[trigger] text@[k] == ' ') ==> blank,
        chars@.len() == 0 ==> !white,
        0 <= i < chars@.len() && chars@[i] == ' ' ==> white,
{
}

/// Which characters are white space and which are control characters.
pub proof fn lemma_kinds_of_characters(c: char, white: bool, control: bool)
    requires
        call_ensures(is_white_space, (c,), white),
        call_ensures(is_control, (c,), control),
    ensures
        c == ' ' || c == '\t' || c == '\n' || c == '\u{3000}' || c == '\u{a0}' ==> white,
        '!' as u32 <= c as u32 <= '~' as u32 ==> !white && !control,
        (c as u32) < ' ' as u32 ==> control,
        c as u32 > 0x3000 ==> !white && !control,
{
}

/// A trimmed text has no white space at its ends and nothing else taken from it.
pub proof fn lemma_trimmed_text(chars: &[char], r: Vec<char>)
    requires
        call_ensures(trimmed, (chars,), r),
    ensures
        r@.len() <= chars@.len(),
        r@.len() > 0 ==> r@[0] != ' ' && r@.last() != ' ',
        chars@.len() > 0 && '!' as u32 <= chars@[0] as u32 <= '~' as u32 && '!' as u32
            <= chars@.last() as u32 <= '~' as u32 ==> r@ == chars@,
{
    let cut = crate::text_laws::lemma_trim_cuts_white_space(chars@);
    if chars@.len() > 0 && '!' as u32 <= chars@[0] as u32 <= '~' as u32 && '!' as u32
        <= chars@.last() as u32 <= '~' as u32 {
        assert(cut.0 == 0);
        assert(cut.1 == chars@.len());
        assert(chars@.subrange(0, chars@.len() as int) == chars@);
    }
}

/// A character is found where it stands, and counted as often.
pub proof fn lemma_counted_character(
    text: &str,
    chars: &[char],
    c: char,
    i: int,
    found: bool,
    count: usize,
    trailing: usize,
)
    requires
        call_ensures(contains_char, (text, c), found),
        chars@ == text@,
        text@.len() <= usize::MAX,
        call_ensures(count_char, (chars, text@.len() as usize, c), count),
        call_ensures(count_trailing, (chars, c), trailing),
    ensures
        0 <= i < text@.len() && text@[i] == c ==> found,
        count == text@.filter(|x: char| x == c).len(),
        trailing <= text@.len(),
        text@.len() - trailing <= i < text@.len() ==> text@[i] == c,
        trailing < text@.len() ==> text@[text@.len() - trailing - 1] != c,
{
    assert(chars@.take(text@.len() as int) == text@);
    crate::text_laws::lemma_occurrences_are_what_a_filter_keeps(text@, c);
    crate::text::lemma_trailing_count(text@, c);
}

/// Characters and places of runs are counted in all runs.
pub proof fn lemma_counted_runs(
    runs: &[ComposedTextRun],
    chars: usize,
    units: usize,
    line: &ComposedLine,
    whole: usize,
)
    requires
        call_ensures(runs_char_count, (runs,), chars),
        call_ensures(runs_unit_count, (runs,), units),
        call_ensures(line_char_count, (line,), whole),
        line.runs@ == runs@,
    ensures
        chars == runs_text(runs@).len(),
        runs@.len() == 0 ==> chars == 0 && units == 0,
        (forall|i: int| 0 <= i < runs@.len() ==> (#[trigger] runs@[i]).char_overlap is None)
            ==> units == chars,
        line.has_line_break ==> whole == chars + 1,
        !line.has_line_break ==> whole == chars,
{
    if (forall|i: int| 0 <= i < runs@.len() ==> (#[trigger] runs@[i]).char_overlap is None) {
        crate::composed_laws::lemma_places_are_characters(runs@);
    }
}

/// One step more on a way leaves the steps in front of it.
pub proof fn lemma_longer_way(path: &[CellPathEntry], entry: CellPathEntry, r: Vec<CellPathEntry>)
    requires
        call_ensures(extended_path, (path, entry), r),
    ensures
        r@.len() == path@.len() + 1,
        r@.last() == entry,
        r@.drop_last() == path@,
{
    assert(r@.drop_last() == path@);
}

/// Where free space beside an object goes.
pub proof fn lemma_free_space(alignment: Alignment, r: FreeSpace)
    requires
        call_ensures(object_free_space, (alignment,), r),
    ensures
        alignment == Alignment::Right <==> r == FreeSpace::Before,
        alignment == Alignment::Center || alignment == Alignment::Distribute <==> r
            == FreeSpace::Around,
{
}

/// The tracking left out is that of the last cluster of the last run with text.
pub proof fn lemma_last_cluster_of_a_line(
    line: &ComposedLine,
    para: &Paragraph,
    offsets: &[(usize, usize)],
    is_tracked: &[bool],
    i: int,
    r: Option<(usize, String)>,
)
    requires
        call_ensures(
            terminal_tracking_after_inline_picture,
            (line, Some(para), offsets, is_tracked),
            r,
        ),
    ensures
        r matches Some((k, cluster)) ==> k < line.runs@.len() && is_tracked@[k as int]
            && last_grapheme(line.runs@[k as int].text@) == Some(cluster@) && (k < i
            < line.runs@.len() ==> line.runs@[i].text@.len() == 0),
        r is Some && 0 <= i < offsets@.len() ==> offsets@[i].0 < line.char_start + runs_text(
            line.runs@,
        ).len(),
{
}

/// The pieces of a prompt are cut one behind the other and reach its end; without a limit it
/// stays whole.
pub proof fn lemma_pieces_of_a_prompt<F: Fn(usize, usize) -> bool>(
    len: usize,
    has_limit: bool,
    too_wide: F,
    ends: Vec<usize>,
    i: int,
    j: int,
)
    requires
        call_ensures(split_guide_text_to_width::<F>, (len, has_limit, too_wide), ends),
        len > 0,
    ensures
        ends@.len() > 0,
        ends@.last() == len,
        ends@.len() <= 66,
        0 <= i < j < ends@.len() ==> ends@[i] <= ends@[j],
        !has_limit ==> ends@.len() == 1,
        ends@.len() > 1 ==> call_ensures(too_wide, (0usize, len), true),
        has_limit && ends@.len() == 1 && len > 1 ==> call_ensures(too_wide, (0usize, len), false),
{
    if has_limit && ends@.len() == 1 {
        assert(ends@ =~= seq![len]);
    }
}

/// Positions go back where one line stands above the line before.
pub proof fn lemma_positions_go_back(
    segs: &[LineSeg],
    start: usize,
    end: usize,
    i: int,
    j: int,
    r: bool,
)
    requires
        call_ensures(stored_ladder_ascends, (segs, start, end), r),
    ensures
        start <= i < j < end && segs@[i].vertical_pos > segs@[j].vertical_pos ==> !r,
        end <= start + 1 ==> r,
{
}

/// A continued endnote follows its positions from its second line.
pub proof fn lemma_continued_endnote(
    para: &Paragraph,
    has_base: bool,
    flow: bool,
    start: usize,
    end: usize,
    r: Option<usize>,
)
    requires
        call_ensures(endnote_lazy_vpos_base_from, (Some(para), has_base, flow, start, end), r),
    ensures
        has_base || !flow || start == 0 ==> r is None,
        r matches Some(line) ==> line == start + 1 && start + 2 < end <= para.line_segs@.len()
            && para.line_segs@[start as int].vertical_pos
            > para.line_segs@[line as int].vertical_pos,
{
}

/// The file gives a line just the objects that it assigns to it.
pub proof fn lemma_assigned_objects(
    offsets: &[(usize, u32, usize)],
    assignment: &[(usize, usize)],
    line: usize,
    i: int,
    r: Vec<(usize, u32, usize)>,
    comp: &ComposedParagraph,
    width: Vec<(usize, u32, usize)>,
)
    requires
        call_ensures(stored_line_objects::<u32>, (offsets, assignment, line), r),
        call_ensures(line_width_objects::<u32>, (comp, offsets, Some(assignment), line), width),
    ensures
        width@ == r@,
        assignment@.len() == 0 && 0 <= i < offsets@.len() ==> !r@.contains(offsets@[i]),
{
    if assignment@.len() == 0 && 0 <= i < offsets@.len() {
        crate::frame_laws::lemma_object_without_a_line(offsets@, assignment@, line, offsets@[i]);
    }
}

/// A note is drawn in front of its paragraph where it is an endnote at the start of the
/// first line.
pub proof fn lemma_note_drawn_in_front(
    para: &Paragraph,
    control: usize,
    line: usize,
    start: usize,
    pos: usize,
    line_start: usize,
    r: bool,
)
    requires
        call_ensures(
            is_leading_endnote_marker_rendered_as_prefix,
            (Some(para), control, line, start, pos, line_start),
            r,
        ),
    ensures
        r ==> line == 0 && start == 0 && pos == line_start && control < para.controls@.len()
            && para.controls@[control as int] is Endnote,
        line == 0 && start == 0 && pos == line_start && control < para.controls@.len()
            && para.controls@[control as int] is Endnote ==> r,
{
}

/// The characters that lines break at ascend.
pub proof fn lemma_characters_of_breaks(
    para: &Paragraph,
    inline: bool,
    r: Vec<usize>,
    i: int,
    j: int,
)
    requires
        call_ensures(inline_table_stored_line_break_char_indices, (para, inline), r),
    ensures
        0 <= i < j < r@.len() ==> r@[i] < r@[j],
        0 <= i < r@.len() ==> r@[i] <= para.text@.len(),
{
    let breaks = crate::inline_table::breaks_of(*para, inline);
    let as_int = |i: usize| i as int;
    let place = |b: (int, int)| b.0;
    assert(r@.map_values(as_int) == breaks.map_values(place));
    assert(r@.len() == r@.map_values(as_int).len());
    assert(breaks.len() == breaks.map_values(place).len());
    crate::inline_table::lemma_breaks_advance(*para, inline);
    assert forall|k: int| 0 <= k < r@.len() implies #[trigger] r@[k] == breaks[k].0 by {
        assert(r@.map_values(as_int)[k] == r@[k]);
        assert(breaks.map_values(place)[k] == breaks[k].0);
    }
}

/// The place behind the objects of a line without runs lies as many places behind its end as
/// objects take one.
pub proof fn lemma_place_behind_objects(
    end: usize,
    steps: &[EmptyLineStep],
    r: usize,
)
    requires
        call_ensures(empty_line_logical_end, (end, steps), r),
    ensures
        steps@.len() == 0 ==> r == end,
        steps@.len() == 1 && steps@[0] == EmptyLineStep::Ignore ==> r == end,
        steps@.len() == 1 && steps@[0] != EmptyLineStep::Ignore ==> r == end + 1,
{
    if steps@.len() == 1 {
        crate::object_laws::lemma_places_of_objects(Seq::empty(), steps@[0]);
        assert(Seq::<EmptyLineStep>::empty().push(steps@[0]) =~= steps@);
    }
}

/// The objects of a line of equations come in order, in rows that there are.
pub proof fn lemma_rows_of_objects(
    rows: &ObjectRows,
    objects: &[(usize, u32, usize)],
    start: usize,
    next: Option<usize>,
    r: Vec<(usize, usize)>,
    i: int,
    j: int,
)
    requires
        call_ensures(line_object_rows::<u32>, (rows, objects, start, next), r),
        objects@.len() <= usize::MAX,
    ensures
        0 <= i < r@.len() ==> r@[i].0 < objects@.len() && r@[i].1 <= rows.extra_rows,
        0 <= i < j < r@.len() ==> r@[i].0 < r@[j].0,
{
    crate::object_laws::lemma_objects_keep_their_order(
        *rows,
        objects@,
        start,
        next,
        objects@.len() as int,
    );
}

/// A paragraph that was not composed shows its text once, in the first line drawn.
pub proof fn lemma_lines_of_a_raw_paragraph(
    para: &Paragraph,
    start: usize,
    end: usize,
    r: Vec<RawLine>,
    i: int,
)
    requires
        call_ensures(raw_paragraph_lines, (para, start, end), r),
        start <= end <= para.line_segs@.len() <= usize::MAX,
        0 <= i < r@.len(),
        para.line_segs@.len() > 0,
    ensures
        r@.len() == end - start,
        r@[i].stored is Some && r@[i].stored->0 == start + i,
        r@[i].shows_text <==> i == 0 && para.text@.len() > 0,
{
    crate::object_laws::lemma_lines_that_were_not_composed(
        para.text@.len() > 0,
        para.line_segs@.len() as int,
        start as int,
        end as int,
        i,
    );
}

/// A line with text in a cell keeps its height in the flow.
pub proof fn lemma_height_that_counts(
    facts: EmptyLineFacts,
    para: Option<&Paragraph>,
    comp: &ComposedParagraph,
    offsets: &[(usize, u32, usize)],
    line: usize,
    r: bool,
)
    requires
        call_ensures(skip_advance_empty_line::<u32>, (facts, para, comp, offsets, line), r),
    ensures
        facts.in_cell && !facts.runs_all_whitespace ==> !r,
        facts.runs_all_whitespace && facts.repeats_reserved_picture && !facts.reserves_picture
            && !facts.has_own_position ==> r,
        facts.runs_all_whitespace && facts.has_square_wrap && !facts.has_ole_square_wrap
            && !facts.completes_row && comp.tac_controls@.len() == 0 ==> r,
{
}

/// A label needs room only above a picture, in a line with text that is as high as the
/// picture; no line makes it.
pub proof fn lemma_room_for_a_label(
    white: bool,
    picture: bool,
    font: bool,
    as_high: bool,
    high: bool,
    needs: bool,
    makes: bool,
)
    requires
        call_ensures(tac_picture_label_extra, (white, picture, font, as_high, high), needs),
        call_ensures(tac_picture_label_extra_for_line, (white, picture, font, as_high, high), makes),
    ensures
        !makes,
        white || !picture || !font || !as_high || !high <==> !needs,
{
}

/// The last line of a paragraph is its last composed one.
pub proof fn lemma_found_last_line(
    comp: &ComposedParagraph,
    para: Option<&Paragraph>,
    line: usize,
    end: usize,
    r: bool,
)
    requires
        call_ensures(is_last_line_of_para, (comp, para, false, line, end), r),
        line < end <= comp.lines@.len(),
    ensures
        r <==> line + 1 == comp.lines@.len(),
{
}

/// An equation in the text is one that is laid out like a character.
pub proof fn lemma_equation_in_the_text(control: &Control, r: bool, none: bool)
    requires
        call_ensures(is_treat_as_char_equation_control, (Some(control),), r),
        call_ensures(is_treat_as_char_equation_control, (None,), none),
    ensures
        !none,
        *control matches Control::Equation(equation) ==> r == equation.common.treat_as_char,
        !(control is Equation) ==> !r,
{
}

/// One picture or shape in the text is enough.
pub proof fn lemma_picture_or_shape_in_the_text(para: &Paragraph, i: int, r: bool)
    requires
        call_ensures(has_treat_as_char_picture_or_shape, (Some(para),), r),
    ensures
        0 <= i < para.controls@.len() && (para.controls@[i] matches Control::Picture(picture)
            && picture.common.treat_as_char) ==> r,
        0 <= i < para.controls@.len() && (para.controls@[i] matches Control::Shape(shape)
            && shape.common.treat_as_char) ==> r,
        (forall|k: int|
            #![trigger para.controls@[k]]
            0 <= k < para.controls@.len() ==> !(para.controls@[k] is Picture)
                && !(para.controls@[k] is Shape)) ==> !r,
{
}

/// An object in the places of a line is found there.
pub proof fn lemma_object_found_on_a_line(
    comp: &ComposedParagraph,
    offsets: &[(usize, u32, usize)],
    line: usize,
    k: int,
    any: bool,
    strict: bool,
)
    requires
        call_ensures(line_has_tac_control, (comp, line), any),
        call_ensures(line_has_strict_tac_control::<u32>, (comp, offsets, line), strict),
        line + 1 < comp.lines@.len(),
    ensures
        comp.tac_controls@.len() == 0 ==> !any,
        offsets@.len() == 0 ==> !strict,
        0 <= k < comp.tac_controls@.len() && comp.lines@[line as int].char_start
            <= comp.tac_controls@[k].0 < comp.lines@[line + 1].char_start ==> any,
{
    if 0 <= k < comp.tac_controls@.len() {
        crate::object_laws::lemma_objects_before_the_next_line(*comp, line as int, k);
    }
}

/// A line of an equation holds one, and a guide in front of it nothing.
pub proof fn lemma_equation_line_and_its_guide(
    para: &Paragraph,
    comp: &ComposedParagraph,
    offsets: &[(usize, u32, usize)],
    line: usize,
    equation: bool,
    guide: bool,
)
    requires
        call_ensures(
            line_has_strict_equation_tac_control::<u32>,
            (Some(para), comp, offsets, line),
            equation,
        ),
        call_ensures(
            line_is_leading_empty_equation_tac_guide::<u32>,
            (Some(para), comp, offsets, line),
            guide,
        ),
    ensures
        offsets@.len() == 0 || para.controls@.len() == 0 ==> !equation && !guide,
        guide ==> line + 1 < comp.lines@.len() && comp.lines@[line as int].runs@.len() == 0
            && comp.lines@[line as int].char_start == comp.lines@[line + 1].char_start,
{
}

/// A line is blank where every run of it is.
pub proof fn lemma_blank_line(runs: &[ComposedTextRun], i: int, j: int, r: bool)
    requires
        call_ensures(runs_all_whitespace, (runs,), r),
    ensures
        runs@.len() == 0 ==> r,
        0 <= i < runs@.len() && 0 <= j < runs@[i].text@.len() && '!' as u32
            <= runs@[i].text@[j] as u32 <= '~' as u32 ==> !r,
{
}

/// An object in a run counts toward its width, at its place behind the run's start.
pub proof fn lemma_object_widens_its_run(
    objects: &[(usize, u32, usize)],
    start: usize,
    end: usize,
    text_end: usize,
    i: int,
    r: Vec<(usize, u32, usize)>,
)
    requires
        call_ensures(run_width_objects::<u32>, (objects, start, end, text_end), r),
        0 <= i < objects@.len(),
        start <= objects@[i].0 < end,
    ensures
        r@.contains(((objects@[i].0 - start) as usize, objects@[i].1, objects@[i].2)),
{
    crate::draw_laws::lemma_objects_count_at_their_place(objects@, start, end, text_end, i);
}

/// A note in a run widens it, unless it stands in front of the paragraph; the last run takes
/// those right behind it.
pub proof fn lemma_note_widens_its_run(
    para: Option<&Paragraph>,
    notes: &[(usize, u16, usize)],
    line: usize,
    start_line: usize,
    line_start: usize,
    start: usize,
    end: usize,
    text_end: usize,
    i: int,
    r: Vec<usize>,
)
    requires
        call_ensures(
            run_width_notes,
            (para, notes, line, start_line, line_start, start, end, text_end),
            r,
        ),
        0 <= i < notes@.len() <= usize::MAX,
    ensures
        r@.contains(i as usize) <==> !note_is_prefix(
            para,
            notes@[i],
            line,
            start_line,
            line_start,
        ) && start <= notes@[i].0 && (notes@[i].0 < end || (notes@[i].0 == end && end >= text_end)),
{
    let all = indices(notes@.len());
    let p = |i: usize|
        !note_is_prefix(para, notes@[i as int], line, start_line, line_start)
            && crate::runs::in_run(
            notes@[i as int].0 as int,
            start as int,
            end as int,
            end >= text_end,
        );
    assert(all[i] == i as usize);
    if p(i as usize) {
        all.lemma_filter_contains(p, i);
    }
    if all.filter(p).contains(i as usize) {
        all.lemma_filter_contains_rev(p, i as usize);
    }
}

/// A tab or a line end moves what follows, and no other character does.
pub proof fn lemma_characters_that_move(text: &str, i: int, r: bool)
    requires
        call_ensures(contains_layout_control, (text,), r),
    ensures
        0 <= i < text@.len() && (text@[i] == '\t' || text@[i] == '\n' || text@[i] == '\r') ==> r,
        (forall|k: int|
            0 <= k < text@.len() ==> #[trigger] text@[k] != '\t' && text@[k] != '\n' && text@[k]
                != '\r') ==> !r,
{
    if 0 <= i < text@.len() {
        assert(text@.contains(text@[i]));
    }
}

/// A line shows nothing where it holds control characters and places of objects alone.
pub proof fn lemma_line_without_characters(runs: &[ComposedTextRun], i: int, j: int, r: bool)
    requires
        call_ensures(line_shows_no_character, (runs,), r),
    ensures
        runs@.len() == 0 ==> r,
        0 <= i < runs@.len() && 0 <= j < runs@[i].text@.len() && runs@[i].text@[j] as u32 >= 0x20
            && runs@[i].text@[j] != '\u{FFFC}' ==> !r,
{
}

/// Letters without decoration are plain, in text without control characters.
pub proof fn lemma_plain_letters(
    style: &RunStyleFacts,
    instance: bool,
    plain: bool,
    text: &str,
    i: int,
    only: bool,
)
    requires
        call_ensures(is_plain_style, (style, instance), plain),
        call_ensures(is_plain_text, (text,), only),
    ensures
        style.bold || style.italic || style.underlined || style.strikethrough || style.superscript
            || style.subscript || style.shaded ==> !plain,
        text@.len() == 0 ==> only,
        0 <= i < text@.len() && ((text@[i] as u32) < 0x20 || text@[i] == '\u{fffc}') ==> !only,
{
}

/// The added width is taken back once for each trailing space in front of a position.
pub proof fn lemma_taken_back(count: usize, trailing: usize, end: usize, front: usize)
    requires
        trailing <= count,
        call_ensures(trailing_spaces_before, (count, count, trailing), end),
        call_ensures(trailing_spaces_before, ((count - trailing) as usize, count, trailing), front),
    ensures
        end == trailing,
        front == 0,
{
}

/// Dashes of leaders are counted among the first characters; text without dashes has none.
pub proof fn lemma_counted_dashes(chars: &[char], n: usize, r: usize)
    requires
        call_ensures(count_dash_leaders, (chars, n), r),
        n <= chars@.len(),
    ensures
        r <= n,
        (forall|i: int| 0 <= i < n ==> #[trigger] chars@[i] == '-') ==> r == if n >= 3 {
            n
        } else {
            0
        },
{
    let text = chars@.take(n as int);
    if (forall|i: int| 0 <= i < n ==> #[trigger] chars@[i] == '-') {
        assert forall|i: int| 0 <= i < n implies #[trigger] text[i] == '-' by {
            assert(chars@[i] == '-');
        }
        crate::spacing_laws::lemma_row_of_dashes(text, 0, n as int);
    }
}

/// Leaders get their width back in a paragraph whose alignment fills lines, where this line
/// is not filled.
pub proof fn lemma_dashes_to_restore(
    justify: bool,
    alignment: Alignment,
    plain: LineCounts,
    r: Option<usize>,
)
    requires
        call_ensures(last_line_leader_dashes, (justify, alignment, plain), r),
    ensures
        justify || plain.leader_dashes == 0 ==> r is None,
        alignment != Alignment::Justify && alignment != Alignment::Split ==> r is None,
        !justify && plain.leader_dashes > 0 && (alignment == Alignment::Justify || alignment
            == Alignment::Split) ==> r == Some(plain.leader_dashes),
{
}

/// The last tab is a tab with none behind it.
pub proof fn lemma_found_last_tab(chars: &[char], i: int, r: Option<usize>)
    requires
        call_ensures(last_tab, (chars,), r),
    ensures
        r matches Some(at) ==> at < chars@.len() && chars@[at as int] == '\t' && (at < i
            < chars@.len() ==> chars@[i] != '\t'),
        0 <= i < chars@.len() && chars@[i] == '\t' ==> r is Some,
{
    if 0 <= i < chars@.len() {
        assert(chars@.contains(chars@[i]));
    }
}

/// Stored data of a right or centre tab leaves it to the paragraph's stops.
pub proof fn lemma_stops_decide_about_a_tab(
    data: &[[u16; 7]],
    placeholders: &[bool],
    index: usize,
    r: bool,
)
    requires
        call_ensures(tab_stops_decide, (data, placeholders, index), r),
        placeholders@.len() == data@.len(),
    ensures
        index >= data@.len() ==> r,
        index < data@.len() && placeholders@[index as int] ==> r,
        index < data@.len() && !placeholders@[index as int] ==> (r <==> 0x200
            <= data@[index as int]@[2] < 0x400),
{
}

/// What a run does where a number is awaited.
pub proof fn lemma_step_of_an_awaited_number(
    text: &str,
    idle: LeaderDigits,
    r: LeaderDigits,
)
    requires
        call_ensures(leader_digits_step, (false, text), idle),
        call_ensures(leader_digits_step, (true, text), r),
    ensures
        idle == LeaderDigits::Idle,
        r != LeaderDigits::Idle,
        text@.len() == 0 ==> r == LeaderDigits::Wait,
{
}

/// A number is awaited behind a tab with nothing behind it, before a leader on the right.
pub proof fn lemma_number_is_awaited(
    text: &str,
    stops: &[TabStop<u32>],
    i: int,
    last: Option<usize>,
    r: bool,
)
    requires
        call_ensures(last_right_leader::<u32>, (stops,), last),
        call_ensures(awaits_leader_digits::<u32>, (text, stops), r),
    ensures
        stops@.len() == 0 ==> !r && last is None,
        !text@.contains('\t') ==> !r,
        last matches Some(k) ==> k < stops@.len() && stops@[k as int].tab_type == 1
            && stops@[k as int].fill_type != 0,
{
    if !text@.contains('\t') {
        crate::tabs::lemma_no_last_tab(text@);
    }
}

/// A place is in a line from its start up to its end; a line without places holds its start.
pub proof fn lemma_place_in_a_line(pos: usize, start: usize, end: usize, r: bool)
    requires
        call_ensures(char_pos_in_line, (pos, start, end), r),
    ensures
        start < end ==> (r <==> start <= pos && pos < end),
        start >= end ==> (r <==> pos == start),
{
}

/// An empty line in front of text at the same place owns what stands there.
pub proof fn lemma_owned_by_the_line_in_front(
    comp: &ComposedParagraph,
    line: usize,
    pos: usize,
    r: bool,
)
    requires
        call_ensures(tac_owned_by_prior_empty_line, (comp, line, pos), r),
    ensures
        line == 0 || line >= comp.lines@.len() ==> !r,
        0 < line < comp.lines@.len() ==> (r <==> comp.lines@[line as int].char_start == pos
            && comp.lines@[line - 1].char_start == pos && comp.lines@[line as int].runs@.len() > 0
            && comp.lines@[line - 1].runs@.len() == 0),
{
}

/// An object behind the text of the last line widens it.
pub proof fn lemma_object_widens_the_last_line(
    comp: &ComposedParagraph,
    offsets: &[(usize, u32, usize)],
    line: usize,
    i: int,
    r: Vec<(usize, u32, usize)>,
)
    requires
        call_ensures(tac_offsets_for_line_width::<u32>, (comp, offsets, line), r),
        line + 1 == comp.lines@.len(),
        comp.lines@[line as int].runs@.len() > 0,
        0 <= i < offsets@.len(),
        offsets@[i].0 == comp.lines@[line as int].char_start + runs_text(
            comp.lines@[line as int].runs@,
        ).len(),
    ensures
        exists|k: int| 0 <= k < r@.len() && (#[trigger] r@[k]).2 == offsets@[i].2,
{
    crate::frame_laws::lemma_object_behind_the_text_widens_the_line(
        *comp,
        offsets@,
        line as int,
        i,
    );
    let all = crate::tac::width_objects(*comp, offsets@, line as int);
    let k = choose|k: int| 0 <= k < all.len() && (#[trigger] all[k]).2 == offsets@[i].2;
    assert(r@[k].2 == offsets@[i].2);
}

/// Of several empty lines at one place each has one object at most; a line with runs shares
/// none.
pub proof fn lemma_share_of_an_empty_line(
    comp: &ComposedParagraph,
    offsets: &[(usize, u32, usize)],
    line: usize,
    r: Option<Vec<(usize, u32, usize)>>,
)
    requires
        call_ensures(repeated_empty_tac_line_offset::<u32>, (comp, offsets, line), r),
    ensures
        line >= comp.lines@.len() || comp.lines@[line as int].runs@.len() > 0 ==> r is None,
        r matches Some(share) ==> share@.len() <= 1,
        r matches Some(share) ==> (share@.len() == 1 ==> share@[0].0
            >= comp.lines@[line as int].char_start),
{
    if let Some(share) = r {
        if share@.len() == 1 {
            let start = comp.lines@[line as int].char_start;
            let count = crate::tac::empty_lines_at(comp.lines@, start).len();
            let p = |t: (usize, u32, usize)| start <= t.0 && t.0 < start + count;
            let ordinal = crate::tac::empty_lines_at(comp.lines@.take(line as int), start).len();
            let objects = crate::tac::shared_objects(offsets@, start, count);
            assert(share@[0] == objects[ordinal as int]);
            offsets@.lemma_filter_pred(p, ordinal as int);
        }
    }
}

/// The width of a line is planned run by run.
pub proof fn lemma_width_is_planned(
    comp: &ComposedParagraph,
    para: Option<&Paragraph>,
    objects: &[(usize, u32, usize)],
    line: usize,
    start: usize,
    k: int,
    r: Vec<RunWidth<u32>>,
)
    requires
        call_ensures(line_width_plan::<u32>, (comp, para, objects, line, start), r),
        line < comp.lines@.len(),
        0 <= k < comp.lines@[line as int].runs@.len(),
        comp.lines@[line as int].runs@[k].text@.len() <= usize::MAX,
    ensures
        r@.len() == comp.lines@[line as int].runs@.len(),
        r@[k].is_overlap <==> comp.lines@[line as int].runs@[k].char_overlap is Some,
        !r@[k].is_overlap && r@[k].objects@.len() == 0 ==> crate::runs::text_of_pieces(
            r@[k].pieces@,
            comp.lines@[line as int].runs@[k].text@,
        ) == comp.lines@[line as int].runs@[k].text@,
{
    assert(r@[k].estimates(*comp, para, objects@, line, start, k));
    crate::draw_laws::lemma_width_of_a_run(r@[k], *comp, para, objects@, line, start, k);
}

/// A picture that text passes in front of, behind or beside takes no room in the flow; one
/// in the text or between the lines does.
pub proof fn lemma_picture_outside_of_the_flow(picture: Box<Picture>)
    ensures
        picture.common.treat_as_char ==> !is_flow_neutral(Control::Picture(picture)),
        picture.common.text_wrap == TextWrap::TopAndBottom ==> !is_flow_neutral(
            Control::Picture(picture),
        ),
        !picture.common.treat_as_char && picture.common.text_wrap == TextWrap::InFrontOfText
            ==> is_flow_neutral(Control::Picture(picture)),
        !picture.common.treat_as_char && picture.common.text_wrap == TextWrap::BehindText
            ==> is_flow_neutral(Control::Picture(picture)),
        !picture.common.treat_as_char && picture.common.text_wrap == TextWrap::Square
            ==> is_flow_neutral(Control::Picture(picture)),
{
}

} // verus!
