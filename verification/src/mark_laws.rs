//! What numbers, bullets and marks of notes promise.

use vstd::prelude::*;

use crate::composed::ComposedLine;
use crate::composed::ComposedParagraph;
use crate::model::AutoNumber;
use crate::model::CharShapeRef;
use crate::model::Control;
use crate::model::Note;
use crate::model::Paragraph;
use crate::notes::auto_number_text;
use crate::notes::find_double_space;
use crate::notes::first_auto_number;
use crate::notes::format_note_marker_text;
use crate::notes::insert_number;
use crate::notes::leading_endnote_text;
use crate::notes::note_decoration_char;
use crate::notes::note_format_of_control;
use crate::notes::note_marker_text_from_control;
use crate::notes::note_number_format;
use crate::notes::number_inserted;
use crate::notes::NumberFormat;
use crate::numbering::active_char_shape;
use crate::numbering::bullet_head;
use crate::numbering::char_shape_at;
use crate::numbering::head_source_of;
use crate::numbering::is_empty_without_stored_line;
use crate::numbering::is_numbered;
use crate::numbering::is_shape_at;
use crate::numbering::number_head;
use crate::numbering::numbering_level;
use crate::numbering::HeadSource;
use crate::numbering::HeadType;
use crate::pua::pua_bullet_char;
use crate::text::all_white;

verus! {

/// A counted number stands directly behind its prefix and directly before its suffix: a
/// prefix that is given is the first character, a suffix that is given the last, and
/// without them the number is left.
pub proof fn lemma_number_stands_between_its_decorations(number: AutoNumber)
    ensures
        number.prefix_char == '\0' && number.suffix_char == '\0' ==> auto_number_text(number)
            == number.number_text@,
        number.prefix_char != '\0' && number.suffix_char == '\0' ==> auto_number_text(number)[0]
            == number.prefix_char && auto_number_text(number).skip(1) == number.number_text@,
        number.prefix_char == '\0' && number.suffix_char != '\0' ==> auto_number_text(number).last()
            == number.suffix_char && auto_number_text(number).drop_last() == number.number_text@,
        number.prefix_char != '\0' && number.suffix_char != '\0' ==> auto_number_text(number)[0]
            == number.prefix_char && auto_number_text(number).last() == number.suffix_char
            && auto_number_text(number).drop_last().skip(1) == number.number_text@,
        auto_number_text(number).len() == number.number_text@.len() + (if number.prefix_char
            != '\0' {
            1int
        } else {
            0
        }) + if number.suffix_char != '\0' {
            1int
        } else {
            0
        },
{
    let text = auto_number_text(number);
    if number.prefix_char == '\0' && number.suffix_char == '\0' {
        assert(text == number.number_text@);
    } else if number.suffix_char == '\0' {
        assert(text.skip(1) == number.number_text@);
    } else if number.prefix_char == '\0' {
        assert(text.drop_last() == number.number_text@);
    } else {
        assert(text.drop_last().skip(1) == number.number_text@);
    }
}

/// A number goes between the first two spaces of a text: up to the first of them the text
/// is as before, then comes the number, and behind it the text goes on with the second.
pub proof fn lemma_number_goes_between_two_spaces(text: &str, number: &str, r: Option<String>)
    requires
        call_ensures(insert_number, (text, number), r),
    ensures
        r matches Some(s) ==> exists|at: int| {
            &&& 0 <= at
            &&& at + 1 < text@.len()
            &&& text@[at] == ' '
            &&& text@[at + 1] == ' '
            &&& s@.len() == text@.len() + number@.len()
            &&& #[trigger] s@.take(at + 1) == text@.take(at + 1)
            &&& s@.subrange(at + 1, at + 1 + number@.len()) == number@
            &&& s@.skip(at + 1 + number@.len()) == text@.skip(at + 1)
            &&& forall|j: int| 0 <= j < at ==> !(#[trigger] text@[j] == ' ' && text@[j + 1] == ' ')
        },
        r is None ==> forall|j: int|
            0 <= j < text@.len() - 1 ==> !(#[trigger] text@[j] == ' ' && text@[j + 1] == ' '),
{
    if let Some(s) = r {
        let at = choose|at: int| #[trigger]
            crate::notes::first_double_space(text@, at) && s@ == crate::notes::with_number(
                text@,
                number@,
                at,
            );
        assert(s@.take(at + 1) == text@.take(at + 1));
        assert(s@.subrange(at + 1, at + 1 + number@.len()) == number@);
        assert(s@.skip(at + 1 + number@.len()) == text@.skip(at + 1));
        assert forall|j: int| 0 <= j < at implies !(#[trigger] text@[j] == ' ' && text@[j + 1]
            == ' ') by {
            assert(!crate::notes::double_space_at(text@, j));
        }
    } else {
        assert forall|j: int| 0 <= j < text@.len() - 1 implies !(#[trigger] text@[j] == ' '
            && text@[j + 1] == ' ') by {
            assert(!crate::notes::double_space_at(text@, j));
        }
    }
}

/// The place found is that of the first two spaces in a row.
pub proof fn lemma_first_two_spaces(chars: &[char], j: int, r: Option<usize>)
    requires
        call_ensures(find_double_space, (chars,), r),
        0 <= j,
        j + 1 < chars@.len(),
        chars@[j] == ' ',
        chars@[j + 1] == ' ',
    ensures
        r matches Some(at) && at <= j && chars@[at as int] == ' ' && chars@[at + 1] == ' ',
{
    assert(crate::notes::double_space_at(chars@, j));
}

/// The number goes into one run, the first of the lines with two spaces in a row; every
/// other run and every line stays as it is.
pub proof fn lemma_number_goes_into_one_run(
    before: Seq<ComposedLine>,
    after: Seq<ComposedLine>,
    l: int,
    r: int,
    at: int,
    number: Seq<char>,
    a: int,
    b: int,
)
    requires
        number_inserted(before, after, l, r, at, number),
        0 <= a < before.len(),
        0 <= b < before[a].runs@.len(),
    ensures
        after.len() == before.len(),
        after[a].runs@.len() == before[a].runs@.len(),
        after[a].char_start == before[a].char_start,
        a != l || b != r ==> after[a].runs@[b] == before[a].runs@[b],
        before[l].runs@[r].text@[at] == ' ',
        before[l].runs@[r].text@[at + 1] == ' ',
        after[l].runs@[r].text@.len() == before[l].runs@[r].text@.len() + number.len(),
        after[l].runs@[r].text@.subrange(at + 1, at + 1 + number.len()) == number,
        after[l].runs@[r].text@.take(at + 1) == before[l].runs@[r].text@.take(at + 1),
        after[l].runs@[r].text@.skip(at + 1 + number.len()) == before[l].runs@[r].text@.skip(at + 1),
        after[l].runs@[r].char_style_id == before[l].runs@[r].char_style_id,
        after[l].runs@[r].lang_index == before[l].runs@[r].lang_index,
        after[l].runs@[r].display_text == before[l].runs@[r].display_text,
        after[l].runs@[r].char_overlap == before[l].runs@[r].char_overlap,
        after[l].runs@[r].footnote_marker == before[l].runs@[r].footnote_marker,
        after[a].line_height == before[a].line_height,
        after[a].baseline_distance == before[a].baseline_distance,
        after[a].segment_width == before[a].segment_width,
        after[a].column_start == before[a].column_start,
        after[a].line_spacing == before[a].line_spacing,
        after[a].has_line_break == before[a].has_line_break,
        a < l || (a == l && b < r) ==> forall|j: int|
            0 <= j < before[a].runs@[b].text@.len() - 1 ==> !(
            #[trigger] before[a].runs@[b].text@[j] == ' ' && before[a].runs@[b].text@[j + 1]
                == ' '),
{
    let old_text = before[l].runs@[r].text@;
    let new_text = after[l].runs@[r].text@;
    assert(new_text.subrange(at + 1, at + 1 + number.len()) == number);
    assert(new_text.take(at + 1) == old_text.take(at + 1));
    assert(new_text.skip(at + 1 + number.len()) == old_text.skip(at + 1));
    if a != l {
        assert(after[a] == before[a]);
    }
    if a < l || (a == l && b < r) {
        assert(crate::notes::no_double_space(before[a].runs@[b].text@));
        assert forall|j: int| 0 <= j < before[a].runs@[b].text@.len() - 1 implies !(
        #[trigger] before[a].runs@[b].text@[j] == ' ' && before[a].runs@[b].text@[j + 1] == ' ') by {
            assert(!crate::notes::double_space_at(before[a].runs@[b].text@, j));
        }
    }
}

/// Only the first counted number of a paragraph is put into the text.
pub proof fn lemma_first_counted_number(para: Paragraph, k: int, j: int)
    requires
        first_auto_number(para, k),
        0 <= j < para.controls@.len(),
        para.controls@[j] is AutoNumber,
    ensures
        0 <= k <= j,
        para.controls@[k] is AutoNumber,
{
}

/// How the codes of a document write the number of a note.
pub proof fn lemma_codes_of_number_formats(code: int)
    ensures
        note_number_format(0) == NumberFormat::Digit,
        note_number_format(1) == NumberFormat::CircledDigit,
        note_number_format(2) == NumberFormat::RomanUpper,
        note_number_format(3) == NumberFormat::RomanLower,
        note_number_format(4) == NumberFormat::LatinUpper,
        note_number_format(5) == NumberFormat::LatinLower,
        note_number_format(8) == NumberFormat::HangulGaNaDa,
        note_number_format(12) == NumberFormat::HangulNumber,
        note_number_format(13) == NumberFormat::HanjaNumber,
        code == 6 || code == 7 || 9 <= code <= 11 || code > 13 ==> note_number_format(code)
            == NumberFormat::Digit,
{
}

/// A code unit decorates a number as the character that it is; zero and halves of pairs
/// decorate nothing.
pub proof fn lemma_decoration_characters(value: u16, r: Option<char>)
    requires
        call_ensures(note_decoration_char, (value,), r),
    ensures
        value == 0 || 0xD800 <= value <= 0xDFFF ==> r is None,
        0 < value < 0xD800 || value > 0xDFFF ==> (r matches Some(c) && c as u32 == value),
{
}

/// The mark of a note is its number between its decorations, one character each. Without a
/// decoration in front nothing stands there; without one behind a bracket does.
pub proof fn lemma_mark_of_a_note(number: &str, before: u16, after: u16, text: String)
    requires
        call_ensures(format_note_marker_text, (number, before, after), text),
    ensures
        before == 0 || 0xD800 <= before <= 0xDFFF ==> text@.drop_last() == number@,
        0 < before < 0xD800 || before > 0xDFFF ==> text@[0] as u32 == before
            && text@.drop_last().skip(1) == number@,
        after == 0 || 0xD800 <= after <= 0xDFFF ==> text@.last() == ')',
        0 < after < 0xD800 || after > 0xDFFF ==> text@.last() as u32 == after,
        text@.len() == number@.len() + 1 + if before == 0 || 0xD800 <= before <= 0xDFFF {
            0int
        } else {
            1
        },
{
    if before == 0 || 0xD800 <= before <= 0xDFFF {
        assert(text@.subrange(0, number@.len() as int) == number@);
        assert(text@.drop_last() == number@);
    }
    if 0 < before < 0xD800 || before > 0xDFFF {
        assert(text@.subrange(1, (1 + number@.len()) as int) == number@);
        assert(text@.drop_last().skip(1) == number@);
    }
}

/// Footnotes and endnotes are marked alike, by the decorations of the note; any other
/// control by its number and a bracket.
pub proof fn lemma_mark_of_a_control(
    note: Note,
    number: &str,
    foot: String,
    end: String,
    other: String,
    lead: String,
)
    requires
        call_ensures(
            note_marker_text_from_control,
            (Some(&Control::Footnote(note)), number),
            foot,
        ),
        call_ensures(
            note_marker_text_from_control,
            (Some(&Control::Endnote(note)), number),
            end,
        ),
        call_ensures(note_marker_text_from_control, (None, number), other),
        call_ensures(leading_endnote_text, (Some(&Control::Endnote(note)), number), lead),
        note.before_decoration_letter == 0,
        0 < note.after_decoration_letter < 0xD800,
    ensures
        foot@.drop_last() == number@,
        foot@.last() as u32 == note.after_decoration_letter,
        end@.drop_last() == number@,
        end@.last() as u32 == note.after_decoration_letter,
        other@ == number@.push(')'),
        lead@.last() == ' ',
        lead@.drop_last().drop_last() == number@,
        lead@.drop_last().last() as u32 == note.after_decoration_letter,
{
    assert(foot@.subrange(0, number@.len() as int) == foot@.drop_last());
    assert(end@.subrange(0, number@.len() as int) == end@.drop_last());
    let mark = lead@.drop_last();
    assert(mark.subrange(0, number@.len() as int) == mark.drop_last());
}

/// The low byte of a note's shape says how its number is written; a control that is no note
/// has plain digits.
pub proof fn lemma_format_of_a_control(
    note: Note,
    foot: NumberFormat,
    end: NumberFormat,
    other: NumberFormat,
)
    requires
        call_ensures(note_format_of_control, (Some(&Control::Footnote(note)),), foot),
        call_ensures(note_format_of_control, (Some(&Control::Endnote(note)),), end),
        call_ensures(note_format_of_control, (None,), other),
    ensures
        foot == end,
        foot == note_number_format((note.number_shape % 256) as int),
        other == NumberFormat::Digit,
{
}

/// A head is the number with at most one space behind it: just where the text keeps a
/// distance. It is never empty, and there is none without a format or a number.
pub proof fn lemma_head_of_a_number(format: Seq<char>, expanded: Seq<char>, has_distance: bool)
    ensures
        number_head(format, expanded, has_distance) is None <==> format.len() == 0
            || expanded.len() == 0,
        number_head(format, expanded, has_distance) matches Some(head) ==> {
            &&& head.len() > 0
            &&& head.take(expanded.len() as int) == expanded
            &&& has_distance ==> head.len() == expanded.len() + 1 && head.last() == ' '
            &&& !has_distance ==> head.len() == expanded.len()
        },
{
    if let Some(head) = number_head(format, expanded, has_distance) {
        assert(head.take(expanded.len() as int) == expanded);
    }
}

/// A bullet is one character, with a space behind it just where the text keeps a distance;
/// an image has none. A character of the text's own fonts stands for itself.
pub proof fn lemma_head_of_a_bullet(c: char, has_distance: bool)
    ensures
        bullet_head(c, has_distance) is None <==> c == '\u{FFFF}',
        bullet_head(c, has_distance) matches Some(head) ==> {
            &&& head[0] == pua_bullet_char(c)
            &&& has_distance ==> head.len() == 2 && head[1] == ' '
            &&& !has_distance ==> head.len() == 1
            &&& (c as u32) < 0xE000 ==> head[0] == c
        },
{
    if (c as u32) < 0xE000 {
        crate::pua::lemma_pua_mapping_keeps_standard_characters(c);
    }
}

/// Identifiers count from one: identifier `id` names the definition in front of which there
/// are `id - 1` others. Without one an outline has the default numbering, and a number or a
/// bullet is not drawn.
pub proof fn lemma_definition_of_a_head(
    numbering_id: u16,
    numberings: nat,
    bullet_id: u16,
    bullets: nat,
)
    ensures
        head_source_of(HeadType::Plain, numbering_id, numberings, bullet_id, bullets)
            == HeadSource::Nothing,
        head_source_of(HeadType::Number, numbering_id, numberings, bullet_id, bullets) == (
        if 0 < numbering_id <= numberings {
            HeadSource::Numbering((numbering_id - 1) as usize)
        } else {
            HeadSource::Nothing
        }),
        head_source_of(HeadType::Outline, numbering_id, numberings, bullet_id, bullets) == (
        if 0 < numbering_id <= numberings {
            HeadSource::Numbering((numbering_id - 1) as usize)
        } else {
            HeadSource::DefaultOutline
        }),
        head_source_of(HeadType::Bullet, numbering_id, numberings, bullet_id, bullets) == (
        if 0 < bullet_id <= bullets {
            HeadSource::Bullet((bullet_id - 1) as usize)
        } else {
            HeadSource::Nothing
        }),
{
}

/// A head changes nothing else of a paragraph, and there is a numbered paragraph just where
/// there are a paragraph and a head.
pub proof fn lemma_head_changes_nothing_else(
    numbered: Option<ComposedParagraph>,
    composed: Option<ComposedParagraph>,
    head: Option<Seq<char>>,
)
    requires
        is_numbered(numbered, composed, head),
    ensures
        numbered is Some <==> composed is Some && head is Some,
        numbered is Some ==> {
            &&& numbered->0.lines == composed->0.lines
            &&& numbered->0.para_style_id == composed->0.para_style_id
            &&& numbered->0.tac_controls == composed->0.tac_controls
            &&& numbered->0.footnote_positions == composed->0.footnote_positions
            &&& numbered->0.tab_extended == composed->0.tab_extended
            &&& numbered->0.inline_controls == composed->0.inline_controls
            &&& numbered->0.numbering_text is Some
            &&& numbered->0.numbering_text->0@ == head->0
        },
{
}

/// A level of a numbering is the paragraph's own up to the seventh, and the seventh from
/// there on.
pub proof fn lemma_level_of_a_numbering(level: u8, r: usize)
    requires
        call_ensures(numbering_level, (level,), r),
    ensures
        r <= 6,
        r <= level,
        level <= 6 ==> r == level,
        level >= 6 ==> r == 6,
{
}

/// Text has the shape that starts last at its place or before: where shapes ascend, a shape
/// holds from its start up to the next.
pub proof fn lemma_shape_holds_up_to_the_next(
    shapes: &[CharShapeRef],
    pos: u32,
    k: int,
    id: u32,
)
    requires
        call_ensures(char_shape_at, (shapes, pos), id),
        0 <= k < shapes@.len(),
        shapes@[k].start_pos <= pos,
        forall|j: int| k < j < shapes@.len() ==> (#[trigger] shapes@[j]).start_pos > pos,
    ensures
        id == shapes@[k].char_shape_id,
{
    assert(is_shape_at(shapes@, pos, k));
}

/// In front of all shapes text has the first, and without any the shape zero.
pub proof fn lemma_shape_in_front(shapes: &[CharShapeRef], pos: u32, id: u32)
    requires
        call_ensures(char_shape_at, (shapes, pos), id),
        forall|j: int| 0 <= j < shapes@.len() ==> (#[trigger] shapes@[j]).start_pos > pos,
    ensures
        shapes@.len() > 0 ==> id == shapes@[0].char_shape_id,
        shapes@.len() == 0 ==> id == 0,
{
}

/// Typed text takes the shape at its place, else the first of the paragraph.
pub proof fn lemma_shape_of_typed_text(
    at_place: Option<u32>,
    para: &Paragraph,
    r: Option<u32>,
    none: Option<u32>,
)
    requires
        call_ensures(active_char_shape, (at_place, Some(para)), r),
        call_ensures(active_char_shape, (at_place, None), none),
    ensures
        none is None,
        at_place is Some ==> r == at_place,
        at_place is None && para.char_shapes@.len() > 0 ==> r == Some(
            para.char_shapes@[0].char_shape_id,
        ),
        at_place is None && para.char_shapes@.len() == 0 ==> r is None,
{
}

/// A paragraph that shows a character, has a stored line or holds something that takes room
/// is not empty; one without text, lines and controls whose end is counted is.
pub proof fn lemma_paragraph_that_shows_nothing(para: &Paragraph, i: int, r: bool)
    requires
        call_ensures(is_empty_without_stored_line, (para,), r),
    ensures
        !all_white(para.text@) ==> !r,
        para.line_segs@.len() > 0 ==> !r,
        para.char_count == 0 && para.controls@.len() == 0 ==> !r,
        0 <= i < para.controls@.len() && (para.controls@[i] is Table || para.controls@[i] is Field)
            ==> !r,
        0 <= i < para.controls@.len() && (para.controls@[i] matches Control::Picture(picture)
            && picture.common.treat_as_char) ==> !r,
        para.text@.len() == 0 && para.line_segs@.len() == 0 && para.controls@.len() == 0
            && para.char_count > 0 ==> r,
{
}

} // verus!
