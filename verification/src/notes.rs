//! Marks in the text: note references, counted numbers and labels of controls.

use vstd::prelude::*;

use crate::composed::ComposedLine;
use crate::composed::ComposedParagraph;
use crate::composed::ComposedTextRun;
use crate::model::AutoNumber;
use crate::model::Control;
use crate::model::Note;
use crate::model::Paragraph;
use crate::text::chars_of;
use crate::text::string_of;

verus! {

/// `char::from_u32` gives the character of a Unicode scalar value, and nothing for a
/// surrogate or a number above the last code point.
pub assume_specification[ char::from_u32 ](i: u32) -> (result: Option<char>)
    ensures
        match result {
            Some(c) => c as u32 == i && i <= 0x10FFFF && !(0xD800 <= i <= 0xDFFF),
            None => i > 0x10FFFF || 0xD800 <= i <= 0xDFFF,
        },
;

/// How a number is written.
#[derive(Clone, Copy, Debug, PartialEq, Eq, Structural)]
pub enum NumberFormat {
    Digit,
    CircledDigit,
    RomanUpper,
    RomanLower,
    LatinUpper,
    LatinLower,
    HangulGaNaDa,
    HangulNumber,
    HanjaNumber,
}

/// How the number of a note is written; a code without a meaning stands for digits.
pub open spec fn note_number_format(code: int) -> NumberFormat {
    if code == 1 {
        NumberFormat::CircledDigit
    } else if code == 2 {
        NumberFormat::RomanUpper
    } else if code == 3 {
        NumberFormat::RomanLower
    } else if code == 4 {
        NumberFormat::LatinUpper
    } else if code == 5 {
        NumberFormat::LatinLower
    } else if code == 8 {
        NumberFormat::HangulGaNaDa
    } else if code == 12 {
        NumberFormat::HangulNumber
    } else if code == 13 {
        NumberFormat::HanjaNumber
    } else {
        NumberFormat::Digit
    }
}

/// How the number of a note is written, by the code in the document.
pub fn note_number_format_from_hwp_code(code: u8) -> (format: NumberFormat)
    ensures
        format == note_number_format(code as int),
{
    match code {
        0 => NumberFormat::Digit,
        1 => NumberFormat::CircledDigit,
        2 => NumberFormat::RomanUpper,
        3 => NumberFormat::RomanLower,
        4 => NumberFormat::LatinUpper,
        5 => NumberFormat::LatinLower,
        8 => NumberFormat::HangulGaNaDa,
        12 => NumberFormat::HangulNumber,
        13 => NumberFormat::HanjaNumber,
        _ => NumberFormat::Digit,
    }
}

/// The code unit stands for a character: it is neither zero nor half of a pair.
pub open spec fn is_decoration(value: u16) -> bool {
    value != 0 && !(0xD800 <= value <= 0xDFFF)
}

/// The character that decorates the number of a note: that of the code unit, unless
/// it is zero or half of a pair.
pub fn note_decoration_char(value: u16) -> (r: Option<char>)
    ensures
        r is Some <==> is_decoration(value),
        r matches Some(c) ==> c as u32 == value,
{
    if value == 0 {
        None
    } else {
        char::from_u32(value as u32)
    }
}

/// The text is a number between the decorations of a note. Nothing stands in front
/// where no decoration is given; behind, a bracket then does.
pub open spec fn is_note_mark(text: Seq<char>, before: u16, number: Seq<char>, after: u16) -> bool {
    let front: int = if is_decoration(before) {
        1
    } else {
        0
    };
    &&& text.len() == front + number.len() + 1
    &&& is_decoration(before) ==> text[0] as u32 == before
    &&& text.subrange(front, front + number.len()) == number
    &&& is_decoration(after) ==> text.last() as u32 == after
    &&& !is_decoration(after) ==> text.last() == ')'
}

/// The mark of a note: its number, written as the note asks, between its decorations.
pub fn format_note_marker_text(
    number_text: &str,
    before_decoration_letter: u16,
    after_decoration_letter: u16,
) -> (text: String)
    ensures
        is_note_mark(
            text@,
            before_decoration_letter,
            number_text@,
            after_decoration_letter,
        ),
{
    let mut text = String::new();
    if let Some(c) = note_decoration_char(before_decoration_letter) {
        text.push(c);
    }
    let ghost front = text@.len() as int;
    text.append(number_text);
    let suffix: char = match note_decoration_char(after_decoration_letter) {
        Some(c) => c,
        None => ')',
    };
    text.push(suffix);
    assert(text@.subrange(front, front + number_text@.len()) == number_text@);
    text
}

/// The note that a control refers to.
pub open spec fn note_of(control: Option<&Control>) -> Option<Note> {
    match control {
        Some(Control::Footnote(note)) => Some(*note),
        Some(Control::Endnote(note)) => Some(*note),
        _ => None,
    }
}

/// How the number of a note reference is written; plain digits where the control is
/// no note.
pub fn note_format_of_control(control: Option<&Control>) -> (format: NumberFormat)
    ensures
        format == (match note_of(control) {
            Some(note) => note_number_format((note.number_shape % 256) as int),
            None => NumberFormat::Digit,
        }),
{
    match control {
        Some(Control::Footnote(note)) => note_number_format_from_hwp_code(
            (note.number_shape % 256) as u8,
        ),
        Some(Control::Endnote(note)) => note_number_format_from_hwp_code(
            (note.number_shape % 256) as u8,
        ),
        _ => NumberFormat::Digit,
    }
}

/// The text is the mark of a note reference; any other control has its number and a
/// bracket.
pub open spec fn is_mark_of_control(
    text: Seq<char>,
    control: Option<&Control>,
    number: Seq<char>,
) -> bool {
    match note_of(control) {
        Some(note) => is_note_mark(
            text,
            note.before_decoration_letter,
            number,
            note.after_decoration_letter,
        ),
        None => text == number.push(')'),
    }
}

/// The mark of a note reference; `number_text` is its number, written in the format
/// of the control.
pub fn note_marker_text_from_control(control: Option<&Control>, number_text: &str) -> (text: String)
    ensures
        is_mark_of_control(text@, control, number_text@),
{
    match control {
        Some(Control::Footnote(note)) => format_note_marker_text(
            number_text,
            note.before_decoration_letter,
            note.after_decoration_letter,
        ),
        Some(Control::Endnote(note)) => format_note_marker_text(
            number_text,
            note.before_decoration_letter,
            note.after_decoration_letter,
        ),
        _ => {
            let mut text = String::new();
            text.append(number_text);
            text.push(')');
            assert(text@ == number_text@.push(')'));
            text
        },
    }
}

/// The mark of an endnote that is drawn in front of its paragraph.
pub fn leading_endnote_text(control: Option<&Control>, number_text: &str) -> (text: String)
    ensures
        text@.len() > 0,
        text@.last() == ' ',
        is_mark_of_control(text@.drop_last(), control, number_text@),
{
    let mut text = note_marker_text_from_control(control, number_text);
    let ghost mark = text@;
    text.push(' ');
    assert(text@.drop_last() == mark);
    text
}

/// A counted number with its decorations.
pub open spec fn auto_number_text(number: AutoNumber) -> Seq<char> {
    let prefix = if number.prefix_char != '\0' {
        seq![number.prefix_char]
    } else {
        Seq::empty()
    };
    let suffix = if number.suffix_char != '\0' {
        seq![number.suffix_char]
    } else {
        Seq::empty()
    };
    prefix + number.number_text@ + suffix
}

/// Writes a counted number with its decorations.
pub fn decorated_auto_number(number: &AutoNumber) -> (text: String)
    ensures
        text@ == auto_number_text(*number),
{
    let mut text = String::new();
    if number.prefix_char != '\0' {
        text.push(number.prefix_char);
    }
    text.append(number.number_text.as_str());
    if number.suffix_char != '\0' {
        text.push(number.suffix_char);
    }
    assert(text@ == auto_number_text(*number));
    text
}

/// Two spaces stand at `i`.
pub open spec fn double_space_at(text: Seq<char>, i: int) -> bool {
    0 <= i && i + 1 < text.len() && text[i] == ' ' && text[i + 1] == ' '
}

/// The first two spaces of the text stand at `i`.
pub open spec fn first_double_space(text: Seq<char>, i: int) -> bool {
    double_space_at(text, i) && forall|j: int| 0 <= j < i ==> !#[trigger] double_space_at(text, j)
}

/// The text has no two spaces in a row.
pub open spec fn no_double_space(text: Seq<char>) -> bool {
    forall|j: int| !#[trigger] double_space_at(text, j)
}

/// The place of the first two spaces.
pub fn find_double_space(chars: &[char]) -> (r: Option<usize>)
    ensures
        r matches Some(i) ==> first_double_space(chars@, i as int),
        r is None ==> no_double_space(chars@),
{
    let n: usize = chars.len();
    let mut i: usize = 0;
    while i < n && i + 1 < n
        invariant
            n == chars@.len(),
            i <= n,
            forall|j: int| 0 <= j < i ==> !#[trigger] double_space_at(chars@, j),
        decreases n - i,
    {
        if chars[i] == ' ' && chars[i + 1] == ' ' {
            return Some(i);
        }
        i += 1;
    }
    None
}

/// The text with a number between its first two spaces.
pub open spec fn with_number(text: Seq<char>, number: Seq<char>, at: int) -> Seq<char> {
    text.take(at + 1) + number + text.skip(at + 1)
}

/// Puts a number between the first two spaces of a text; `None` where it has none.
pub fn insert_number(text: &str, number: &str) -> (r: Option<String>)
    ensures
        r is None ==> no_double_space(text@),
        r matches Some(s) ==> exists|at: int| #[trigger]
            first_double_space(text@, at) && s@ == with_number(text@, number@, at),
{
    let chars = chars_of(text);
    match find_double_space(chars.as_slice()) {
        Some(at) => {
            let n: usize = chars.len();
            assert(at + 1 < n);
            let (head, tail) = chars.as_slice().split_at(at + 1);
            let mut s = string_of(head);
            s.append(number);
            let rest = string_of(tail);
            s.append(rest.as_str());
            assert(s@ == with_number(text@, number@, at as int));
            Some(s)
        },
        None => None,
    }
}

/// No run of the lines has two spaces in a row.
pub open spec fn lines_have_no_gap(lines: Seq<ComposedLine>) -> bool {
    forall|l: int, r: int|
        0 <= l < lines.len() && 0 <= r < lines[l].runs@.len() ==> no_double_space(
            (#[trigger] lines[l].runs@[r]).text@,
        )
}

/// Run `(l, r)` is the first one of the lines with two spaces in a row.
pub open spec fn first_gap(lines: Seq<ComposedLine>, l: int, r: int) -> bool {
    &&& 0 <= l < lines.len()
    &&& 0 <= r < lines[l].runs@.len()
    &&& !no_double_space(lines[l].runs@[r].text@)
    &&& forall|a: int, b: int|
        0 <= a <= l && 0 <= b < lines[a].runs@.len() && (a < l || b < r) ==> no_double_space(
            (#[trigger] lines[a].runs@[b]).text@,
        )
}

/// The run is the same but for its text.
pub open spec fn same_but_text(before: ComposedTextRun, after: ComposedTextRun) -> bool {
    &&& after.display_text == before.display_text
    &&& after.char_overlap == before.char_overlap
    &&& after.char_style_id == before.char_style_id
    &&& after.lang_index == before.lang_index
    &&& after.footnote_marker == before.footnote_marker
}

/// The line is the same but for the text of run `r`.
pub open spec fn same_but_run(before: ComposedLine, after: ComposedLine, r: int) -> bool {
    &&& after.line_height == before.line_height
    &&& after.baseline_distance == before.baseline_distance
    &&& after.segment_width == before.segment_width
    &&& after.column_start == before.column_start
    &&& after.line_spacing == before.line_spacing
    &&& after.has_line_break == before.has_line_break
    &&& after.char_start == before.char_start
    &&& after.runs@.len() == before.runs@.len()
    &&& forall|i: int|
        0 <= i < before.runs@.len() && i != r ==> #[trigger] after.runs@[i] == before.runs@[i]
    &&& same_but_text(before.runs@[r], after.runs@[r])
}

/// The lines are the same but for the text of run `(l, r)`.
pub open spec fn same_but_one_run(
    before: Seq<ComposedLine>,
    after: Seq<ComposedLine>,
    l: int,
    r: int,
) -> bool {
    &&& after.len() == before.len()
    &&& forall|i: int| 0 <= i < before.len() && i != l ==> #[trigger] after[i] == before[i]
    &&& same_but_run(before[l], after[l], r)
}

/// Control `k` is the first counted number of the paragraph.
pub open spec fn first_auto_number(para: Paragraph, k: int) -> bool {
    &&& 0 <= k < para.controls@.len()
    &&& para.controls@[k] is AutoNumber
    &&& forall|i: int| 0 <= i < k ==> !(#[trigger] para.controls@[i] is AutoNumber)
}

/// The number was put between the first two spaces of the text of run `(l, r)`.
pub open spec fn number_inserted(
    before: Seq<ComposedLine>,
    after: Seq<ComposedLine>,
    l: int,
    r: int,
    at: int,
    number: Seq<char>,
) -> bool {
    &&& first_gap(before, l, r)
    &&& same_but_one_run(before, after, l, r)
    &&& first_double_space(before[l].runs@[r].text@, at)
    &&& after[l].runs@[r].text@ == with_number(before[l].runs@[r].text@, number, at)
}

/// Puts a number into the first run with two spaces in a row.
fn insert_into_lines(lines: &mut Vec<ComposedLine>, number: &str) -> (done: bool)
    ensures
        !done ==> final(lines)@ == old(lines)@ && lines_have_no_gap(old(lines)@),
        done ==> exists|l: int, r: int, at: int| #[trigger]
            number_inserted(old(lines)@, final(lines)@, l, r, at, number@),
{
    let ghost before = lines@;
    let line_count: usize = lines.len();
    for l in 0..line_count
        invariant
            before == old(lines)@,
            lines@ == before,
            line_count == lines@.len(),
            forall|a: int, b: int|
                0 <= a < l && 0 <= b < before[a].runs@.len() ==> no_double_space(
                    (#[trigger] before[a].runs@[b]).text@,
                ),
    {
        let run_count: usize = lines[l].runs.len();
        for r in 0..run_count
            invariant
                before == old(lines)@,
                lines@ == before,
                l < lines@.len(),
                run_count == before[l as int].runs@.len(),
                forall|a: int, b: int|
                    0 <= a < l && 0 <= b < before[a].runs@.len() ==> no_double_space(
                        (#[trigger] before[a].runs@[b]).text@,
                    ),
                forall|b: int|
                    0 <= b < r ==> no_double_space(
                        (#[trigger] before[l as int].runs@[b]).text@,
                    ),
        {
            let inserted = insert_number(lines[l].runs[r].text.as_str(), number);
            if let Some(text) = inserted {
                let ghost at = choose|at: int| #[trigger]
                    first_double_space(before[l as int].runs@[r as int].text@, at) && text@
                        == with_number(before[l as int].runs@[r as int].text@, number@, at);
                assert(double_space_at(before[l as int].runs@[r as int].text@, at));
                lines[l].runs[r].text = text;
                assert(number_inserted(before, lines@, l as int, r as int, at, number@));
                return true;
            }
        }
    }
    false
}

/// Puts the first counted number of the paragraph into its text: between the first
/// two spaces in a row that a run has. Without a counted number, or without such
/// spaces, the text stays as it is.
pub fn apply_auto_numbers_to_composed(composed: &mut ComposedParagraph, para: &Paragraph)
    ensures
        (forall|k: int| !#[trigger] first_auto_number(*para, k)) ==> *final(composed) == *old(
            composed,
        ),
        lines_have_no_gap(old(composed).lines@) ==> final(composed).lines@ == old(composed).lines@,
        forall|k: int| #[trigger]
            first_auto_number(*para, k) && !lines_have_no_gap(old(composed).lines@) ==> exists|
                l: int,
                r: int,
                at: int,
            | #[trigger]
                number_inserted(
                    old(composed).lines@,
                    final(composed).lines@,
                    l,
                    r,
                    at,
                    auto_number_text(para.controls@[k]->AutoNumber_0),
                ),
        final(composed).para_style_id == old(composed).para_style_id,
        final(composed).tac_controls == old(composed).tac_controls,
        final(composed).footnote_positions == old(composed).footnote_positions,
        final(composed).tab_extended == old(composed).tab_extended,
        final(composed).numbering_text == old(composed).numbering_text,
        final(composed).inline_controls == old(composed).inline_controls,
{
    for i in 0..para.controls.len()
        invariant
            *composed == *old(composed),
            forall|k: int| 0 <= k < i ==> !(#[trigger] para.controls@[k] is AutoNumber),
    {
        if let Control::AutoNumber(number) = &para.controls[i] {
            let text = decorated_auto_number(number);
            assert(first_auto_number(*para, i as int));
            assert forall|k: int| first_auto_number(*para, k) implies k == i by {
                if k < i {
                    assert(!(para.controls@[k] is AutoNumber));
                } else if k > i {
                    assert(para.controls@[i as int] is AutoNumber);
                }
            }
            let ghost before = composed.lines@;
            let done: bool = insert_into_lines(&mut composed.lines, text.as_str());
            proof {
                if done {
                    let (l, r, at) = choose|l: int, r: int, at: int| #[trigger]
                        number_inserted(before, composed.lines@, l, r, at, text@);
                    assert(first_gap(before, l, r));
                    assert(!no_double_space(before[l].runs@[r].text@));
                    assert(!lines_have_no_gap(before));
                }
            }
            return ;
        }
    }
    assert forall|k: int| !#[trigger] first_auto_number(*para, k) by {
        if 0 <= k < para.controls@.len() {
            assert(!(para.controls@[k] is AutoNumber));
        }
    }
}

} // verus!
