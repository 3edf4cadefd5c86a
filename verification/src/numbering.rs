//! Paragraph heads (numbers and bullets) and the character shape at a place.

use vstd::prelude::*;

use crate::composed::ComposedParagraph;
use crate::controls::picture_or_shape;
use crate::controls::picture_or_shape_attr;
use crate::model::CharShapeRef;
use crate::model::Control;
use crate::model::Paragraph;
use crate::model::TextWrap;
use crate::pua::map_pua_bullet_char;
use crate::pua::pua_bullet_char;
use crate::text::all_white;
use crate::text::is_blank;

verus! {

/// What stands in front of a paragraph.
#[derive(Clone, Copy, Debug, Default, PartialEq, Eq, Structural)]
pub enum HeadType {
    #[default]
    Plain,
    Outline,
    Number,
    Bullet,
}

/// Where the head of a paragraph is defined.
#[derive(Clone, Copy, Debug, PartialEq, Eq, Structural)]
pub enum HeadSource {
    /// The paragraph has no head.
    Nothing,
    /// The numbering with this index.
    Numbering(usize),
    /// The outline that stands in where none is defined.
    DefaultOutline,
    /// The bullet with this index.
    Bullet(usize),
}

/// The deepest level that a numbering defines.
pub const DEEPEST_LEVEL: usize = 6;

/// Where the head of a paragraph is defined. Identifiers count from one. An outline
/// without a definition has the default one; a number or a bullet without one has
/// no head.
pub open spec fn head_source_of(
    head_type: HeadType,
    numbering_id: u16,
    numberings: nat,
    bullet_id: u16,
    bullets: nat,
) -> HeadSource {
    match head_type {
        HeadType::Plain => HeadSource::Nothing,
        HeadType::Outline => if 1 <= numbering_id <= numberings {
            HeadSource::Numbering((numbering_id - 1) as usize)
        } else {
            HeadSource::DefaultOutline
        },
        HeadType::Number => if 1 <= numbering_id <= numberings {
            HeadSource::Numbering((numbering_id - 1) as usize)
        } else {
            HeadSource::Nothing
        },
        HeadType::Bullet => if 1 <= bullet_id <= bullets {
            HeadSource::Bullet((bullet_id - 1) as usize)
        } else {
            HeadSource::Nothing
        },
    }
}

/// Finds where the head of a paragraph is defined.
pub fn head_source(
    head_type: HeadType,
    numbering_id: u16,
    numberings: usize,
    bullet_id: u16,
    bullets: usize,
) -> (source: HeadSource)
    ensures
        source == head_source_of(
            head_type,
            numbering_id,
            numberings as nat,
            bullet_id,
            bullets as nat,
        ),
{
    match head_type {
        HeadType::Plain => HeadSource::Nothing,
        HeadType::Outline | HeadType::Number => {
            if numbering_id >= 1 && numbering_id as usize <= numberings {
                HeadSource::Numbering((numbering_id - 1) as usize)
            } else if head_type == HeadType::Outline {
                HeadSource::DefaultOutline
            } else {
                HeadSource::Nothing
            }
        },
        HeadType::Bullet => {
            if bullet_id >= 1 && bullet_id as usize <= bullets {
                HeadSource::Bullet((bullet_id - 1) as usize)
            } else {
                HeadSource::Nothing
            }
        },
    }
}

/// The level of a numbering that a paragraph's level uses.
pub fn numbering_level(para_level: u8) -> (level: usize)
    ensures
        level == if para_level <= DEEPEST_LEVEL {
            para_level as int
        } else {
            DEEPEST_LEVEL as int
        },
{
    if para_level as usize <= DEEPEST_LEVEL {
        para_level as usize
    } else {
        DEEPEST_LEVEL
    }
}

/// The number of a paragraph, as its numbering counts it.
#[derive(Clone, Debug, Default)]
pub struct NumberParts {
    /// How the level is written.
    pub format: String,
    /// The format with the numbers in it.
    pub expanded: String,
    /// The distance of the text, in HWPUNIT.
    pub text_distance: i16,
}

/// A bullet.
#[derive(Clone, Copy, Debug, PartialEq, Eq, Structural)]
pub struct Bullet {
    pub bullet_char: char,
    /// The distance of the text, in HWPUNIT.
    pub text_distance: i16,
}

/// The character that stands for a bullet image.
pub const IMAGE_BULLET: char = '\u{FFFF}';

/// A head with a space behind it where the text keeps a distance.
pub open spec fn spaced(head: Seq<char>, has_distance: bool) -> Seq<char> {
    if has_distance {
        head.push(' ')
    } else {
        head
    }
}

/// The number in front of a paragraph; `None` where the format or the number is empty.
pub open spec fn number_head(format: Seq<char>, expanded: Seq<char>, has_distance: bool) -> Option<
    Seq<char>,
> {
    if format.len() == 0 || expanded.len() == 0 {
        None
    } else {
        Some(spaced(expanded, has_distance))
    }
}

/// The bullet in front of a paragraph; `None` where the bullet is an image.
pub open spec fn bullet_head(bullet_char: char, has_distance: bool) -> Option<Seq<char>> {
    if bullet_char == IMAGE_BULLET {
        None
    } else {
        Some(spaced(seq![pua_bullet_char(bullet_char)], has_distance))
    }
}

/// The text holds these characters, or there is neither.
pub open spec fn holds(text: Option<String>, chars: Option<Seq<char>>) -> bool {
    match (text, chars) {
        (Some(t), Some(c)) => t@ == c,
        (None, None) => true,
        _ => false,
    }
}

/// The number in front of a paragraph, with a space behind it where the text keeps a
/// distance; `None` where the format or the number is empty.
pub fn number_head_text(format: &str, expanded: &str, has_distance: bool) -> (r: Option<String>)
    ensures
        holds(r, number_head(format@, expanded@, has_distance)),
{
    if format.is_empty() || expanded.is_empty() {
        return None;
    }
    let mut text = expanded.to_owned();
    if has_distance {
        text.push(' ');
    }
    Some(text)
}

/// The bullet in front of a paragraph, with a space behind it where the text keeps a
/// distance; `None` where the bullet is an image.
pub fn bullet_head_text(bullet_char: char, has_distance: bool) -> (r: Option<String>)
    ensures
        holds(r, bullet_head(bullet_char, has_distance)),
{
    if bullet_char == IMAGE_BULLET {
        return None;
    }
    let mut text = String::new();
    text.push(map_pua_bullet_char(bullet_char));
    assert(text@ == seq![pua_bullet_char(bullet_char)]);
    if has_distance {
        text.push(' ');
    }
    Some(text)
}

/// The paragraph with a head in front of it. The head is kept apart from the runs, so it
/// takes no place in the text.
pub fn with_head(composed: ComposedParagraph, text: String) -> (r: ComposedParagraph)
    ensures
        r.numbering_text == Some(text),
        r.lines == composed.lines,
        r.para_style_id == composed.para_style_id,
        r.tac_controls == composed.tac_controls,
        r.footnote_positions == composed.footnote_positions,
        r.tab_extended == composed.tab_extended,
        r.inline_controls == composed.inline_controls,
{
    let mut numbered = composed;
    numbered.numbering_text = Some(text);
    numbered
}

/// The numbered paragraph is the composed one with this head, and nothing else of it is
/// changed; without a paragraph or without a head there is none.
pub open spec fn is_numbered(
    numbered: Option<ComposedParagraph>,
    composed: Option<ComposedParagraph>,
    head: Option<Seq<char>>,
) -> bool {
    match (composed, head) {
        (Some(c), Some(h)) => {
            &&& numbered matches Some(n)
            &&& n.numbering_text matches Some(text) && text@ == h
            &&& n == (ComposedParagraph { numbering_text: n.numbering_text, ..c })
        },
        _ => numbered is None,
    }
}

/// Puts the number or the bullet of its head in front of a paragraph. `number` counts on
/// in the numbering with an index, or in the default outline, and is asked where the head
/// is a number, also where no paragraph was composed.
pub fn apply_paragraph_numbering<N: FnOnce(Option<usize>) -> NumberParts>(
    composed: Option<ComposedParagraph>,
    head_type: HeadType,
    numbering_id: u16,
    numberings: usize,
    bullet_id: u16,
    bullets: &[Bullet],
    number: N,
) -> (r: Option<ComposedParagraph>)
    requires
        forall|index: Option<usize>|
            (index matches Some(i) ==> i < numberings) ==> #[trigger] call_requires(
                number,
                (index,),
            ),
    ensures
        match head_source_of(
            head_type,
            numbering_id,
            numberings as nat,
            bullet_id,
            bullets@.len(),
        ) {
            HeadSource::Nothing => r is None,
            HeadSource::Numbering(i) => exists|parts: NumberParts| #[trigger]
                call_ensures(number, (Some(i),), parts) && is_numbered(
                    r,
                    composed,
                    number_head(parts.format@, parts.expanded@, parts.text_distance > 0),
                ),
            HeadSource::DefaultOutline => exists|parts: NumberParts| #[trigger]
                call_ensures(number, (None::<usize>,), parts) && is_numbered(
                    r,
                    composed,
                    number_head(parts.format@, parts.expanded@, parts.text_distance > 0),
                ),
            HeadSource::Bullet(i) => is_numbered(
                r,
                composed,
                bullet_head(bullets@[i as int].bullet_char, bullets@[i as int].text_distance > 0),
            ),
        },
        r matches Some(numbered) ==> numbered.numbering_text matches Some(text) && text@.len() > 0,
{
    let text: Option<String> = match head_source(
        head_type,
        numbering_id,
        numberings,
        bullet_id,
        bullets.len(),
    ) {
        HeadSource::Nothing => None,
        HeadSource::Numbering(index) => {
            let parts = number(Some(index));
            number_head_text(
                parts.format.as_str(),
                parts.expanded.as_str(),
                parts.text_distance > 0,
            )
        },
        HeadSource::DefaultOutline => {
            let parts = number(None);
            number_head_text(
                parts.format.as_str(),
                parts.expanded.as_str(),
                parts.text_distance > 0,
            )
        },
        HeadSource::Bullet(index) => bullet_head_text(
            bullets[index].bullet_char,
            bullets[index].text_distance > 0,
        ),
    };
    match (composed, text) {
        (Some(paragraph), Some(head)) => Some(with_head(paragraph, head)),
        _ => None,
    }
}

/// The character shape that text typed into the paragraph has: the one at the place,
/// or the paragraph's first.
pub fn active_char_shape(at_place: Option<u32>, para: Option<&Paragraph>) -> (r: Option<u32>)
    ensures
        r == (match para {
            Some(p) => match at_place {
                Some(id) => Some(id),
                None => if p.char_shapes@.len() > 0 {
                    Some(p.char_shapes@[0].char_shape_id)
                } else {
                    None
                },
            },
            None => None,
        }),
{
    match para {
        Some(p) => match at_place {
            Some(id) => Some(id),
            None => if p.char_shapes.len() > 0 {
                Some(p.char_shapes[0].char_shape_id)
            } else {
                None
            },
        },
        None => None,
    }
}

/// Shape `k` is the one at the stored offset `pos`: the last that starts there or
/// before.
pub open spec fn is_shape_at(shapes: Seq<CharShapeRef>, pos: u32, k: int) -> bool {
    &&& 0 <= k < shapes.len()
    &&& shapes[k].start_pos <= pos
    &&& forall|j: int| k < j < shapes.len() ==> (#[trigger] shapes[j]).start_pos > pos
}

/// The character shape at a stored offset: the last one that starts there or before;
/// else the paragraph's first, and zero where it has none.
pub fn char_shape_at(shapes: &[CharShapeRef], pos: u32) -> (id: u32)
    ensures
        forall|k: int| #[trigger] is_shape_at(shapes@, pos, k) ==> id == shapes@[k].char_shape_id,
        (forall|k: int| !#[trigger] is_shape_at(shapes@, pos, k)) ==> id == if shapes@.len() > 0 {
            shapes@[0].char_shape_id
        } else {
            0
        },
{
    let mut k: usize = shapes.len();
    while k > 0
        invariant
            k <= shapes@.len(),
            forall|j: int| k <= j < shapes@.len() ==> (#[trigger] shapes@[j]).start_pos > pos,
        decreases k,
    {
        if shapes[k - 1].start_pos <= pos {
            assert(is_shape_at(shapes@, pos, k - 1));
            assert forall|i: int| is_shape_at(shapes@, pos, i) implies i == k - 1 by {
                if i < k - 1 {
                    assert(shapes@[k - 1].start_pos > pos);
                } else if i >= k {
                    assert(shapes@[i].start_pos > pos);
                }
            }
            return shapes[k - 1].char_shape_id;
        }
        k -= 1;
    }
    if shapes.len() > 0 {
        shapes[0].char_shape_id
    } else {
        0
    }
}

/// The control takes no room in the flow: a picture or shape that text passes in
/// front of, behind or beside.
pub open spec fn is_flow_neutral(control: Control) -> bool {
    picture_or_shape(control) matches Some(common) && !common.treat_as_char && (common.text_wrap
        == TextWrap::InFrontOfText || common.text_wrap == TextWrap::BehindText || common.text_wrap
        == TextWrap::Square)
}

/// Whether the paragraph shows nothing of its own and has no stored line: its line is
/// then as high as its character shape asks for.
pub fn is_empty_without_stored_line(para: &Paragraph) -> (r: bool)
    ensures
        r == (all_white(para.text@) && (forall|i: int|
            0 <= i < para.controls@.len() ==> is_flow_neutral(#[trigger] para.controls@[i]))
            && para.line_segs@.len() == 0 && !(para.char_count == 0 && para.controls@.len() == 0)),
{
    if para.line_segs.len() > 0 || (para.char_count == 0 && para.controls.len() == 0) {
        return false;
    }
    if !is_blank(para.text.as_str()) {
        return false;
    }
    for i in 0..para.controls.len()
        invariant
            forall|k: int| 0 <= k < i ==> is_flow_neutral(#[trigger] para.controls@[k]),
    {
        let neutral: bool = match picture_or_shape_attr(&para.controls[i]) {
            Some(common) => !common.treat_as_char && (common.text_wrap == TextWrap::InFrontOfText
                || common.text_wrap == TextWrap::BehindText || common.text_wrap
                == TextWrap::Square),
            None => false,
        };
        if !neutral {
            assert(!is_flow_neutral(para.controls@[i as int]));
            return false;
        }
    }
    true
}

/// Whether the paragraph is plain text without stored lines.
pub fn is_plain_text_without_stored_lines(para: &Paragraph) -> (r: bool)
    ensures
        r == (para.line_segs@.len() == 0 && para.controls@.len() == 0 && !all_white(para.text@)),
{
    para.line_segs.len() == 0 && para.controls.len() == 0 && !is_blank(para.text.as_str())
}

} // verus!
