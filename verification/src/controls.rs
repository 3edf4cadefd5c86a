//! Questions about the controls of a paragraph.

use vstd::prelude::*;

use crate::model::CommonObjAttr;
use crate::model::Control;
use crate::model::Paragraph;
use crate::model::TextWrap;
use crate::model::VertRelTo;
use crate::seqs::indices;
use crate::seqs::lemma_filter_start;
use crate::seqs::lemma_filter_step;

verus! {

/// The shared attributes of a picture or a shape.
pub open spec fn picture_or_shape(control: Control) -> Option<CommonObjAttr> {
    match control {
        Control::Picture(picture) => Some(picture.common),
        Control::Shape(shape) => Some(shape.common),
        _ => None,
    }
}

/// The shared attributes of a picture or a shape.
pub fn picture_or_shape_attr(control: &Control) -> (common: Option<CommonObjAttr>)
    ensures
        common == picture_or_shape(*control),
{
    match control {
        Control::Picture(picture) => Some(picture.common),
        Control::Shape(shape) => Some(shape.common),
        _ => None,
    }
}

/// A picture or shape that text flows around at its sides.
pub open spec fn is_square_float(control: Control) -> bool {
    picture_or_shape(control) matches Some(common) && !common.treat_as_char && common.text_wrap
        == TextWrap::Square
}

/// An embedded object that text flows around at its sides.
pub open spec fn is_ole_square_float(control: Control) -> bool {
    control matches Control::Shape(shape) && shape.is_ole && !shape.common.treat_as_char
        && shape.common.text_wrap == TextWrap::Square
}

/// A picture or shape that stands between lines and is placed by its paragraph.
pub open spec fn is_topbottom_para_float(control: Control) -> bool {
    picture_or_shape(control) matches Some(common) && !common.treat_as_char && common.text_wrap
        == TextWrap::TopAndBottom && common.vert_rel_to == VertRelTo::Para
}

/// Whether the paragraph has a picture or shape that text flows around.
pub fn has_picture_shape_square_wrap(para: Option<&Paragraph>) -> (r: bool)
    ensures
        r == (para matches Some(p) && exists|i: int|
            0 <= i < p.controls@.len() && is_square_float(#[trigger] p.controls@[i])),
{
    match para {
        Some(p) => {
            for i in 0..p.controls.len()
                invariant
                    para == Some(p),
                    forall|k: int| 0 <= k < i ==> !is_square_float(#[trigger] p.controls@[k]),
            {
                if let Some(common) = picture_or_shape_attr(&p.controls[i]) {
                    if !common.treat_as_char && common.text_wrap == TextWrap::Square {
                        assert(is_square_float(p.controls@[i as int]));
                        return true;
                    }
                }
            }
            false
        },
        None => false,
    }
}

/// Whether the paragraph has an embedded object that text flows around.
pub fn has_ole_shape_square_wrap(para: Option<&Paragraph>) -> (r: bool)
    ensures
        r == (para matches Some(p) && exists|i: int|
            0 <= i < p.controls@.len() && is_ole_square_float(#[trigger] p.controls@[i])),
{
    match para {
        Some(p) => {
            for i in 0..p.controls.len()
                invariant
                    para == Some(p),
                    forall|k: int| 0 <= k < i ==> !is_ole_square_float(#[trigger] p.controls@[k]),
            {
                if let Control::Shape(shape) = &p.controls[i] {
                    if shape.is_ole && !shape.common.treat_as_char && shape.common.text_wrap
                        == TextWrap::Square {
                        assert(is_ole_square_float(p.controls@[i as int]));
                        return true;
                    }
                }
            }
            false
        },
        None => false,
    }
}

/// The indices of the pictures and shapes that stand between the lines of their
/// paragraph. Such an object moves the lines where it reaches into the column.
pub fn topbottom_para_floats(controls: &[Control]) -> (r: Vec<usize>)
    ensures
        r@ == indices(controls@.len()).filter(
            |i: usize| is_topbottom_para_float(controls@[i as int]),
        ),
{
    let ghost p = |i: usize| is_topbottom_para_float(controls@[i as int]);
    let ghost all = indices(controls@.len());
    let mut r: Vec<usize> = Vec::new();
    proof {
        lemma_filter_start(all, p);
    }
    for i in 0..controls.len()
        invariant
            p == (|i: usize| is_topbottom_para_float(controls@[i as int])),
            all == indices(controls@.len()),
            r@ == all.take(i as int).filter(p),
    {
        proof {
            lemma_filter_step(all, p, i as int);
        }
        if let Some(common) = picture_or_shape_attr(&controls[i]) {
            if !common.treat_as_char && common.text_wrap == TextWrap::TopAndBottom
                && common.vert_rel_to == VertRelTo::Para {
                r.push(i);
            }
        }
    }
    r
}

/// Whether a picture or shape between the lines reaches into the column; `reaches`
/// says of each control whether its horizontal extent meets the column.
pub fn has_para_topbottom_float_affecting_column(para: Option<&Paragraph>, reaches: &[bool]) -> (r:
    bool)
    requires
        para matches Some(p) ==> reaches@.len() == p.controls@.len(),
    ensures
        r == (para matches Some(p) && exists|i: int|
            0 <= i < p.controls@.len() && is_topbottom_para_float(#[trigger] p.controls@[i])
                && reaches@[i]),
{
    match para {
        Some(p) => {
            for i in 0..p.controls.len()
                invariant
                    para == Some(p),
                    reaches@.len() == p.controls@.len(),
                    forall|k: int|
                        0 <= k < i ==> !(is_topbottom_para_float(#[trigger] p.controls@[k])
                            && reaches@[k]),
            {
                if let Some(common) = picture_or_shape_attr(&p.controls[i]) {
                    if !common.treat_as_char && common.text_wrap == TextWrap::TopAndBottom
                        && common.vert_rel_to == VertRelTo::Para && reaches[i] {
                        assert(is_topbottom_para_float(p.controls@[i as int]));
                        return true;
                    }
                }
            }
            false
        },
        None => false,
    }
}

/// A picture laid out like a character.
pub open spec fn is_inline_picture(control: Control) -> bool {
    control matches Control::Picture(picture) && picture.common.treat_as_char
}

/// The width of a picture, as a signed length.
pub open spec fn picture_width(control: Control) -> i32 {
    match control {
        Control::Picture(picture) => picture.common.width as i32,
        _ => 0,
    }
}

/// The pictures laid out like characters: index and width in HWPUNIT, in order.
pub fn collect_sibling_tac_picture_widths(controls: &[Control]) -> (r: Vec<(usize, i32)>)
    ensures
        r@ == indices(controls@.len()).filter(
            |i: usize| is_inline_picture(controls@[i as int]),
        ).map_values(|i: usize| (i, picture_width(controls@[i as int]))),
{
    let ghost p = |i: usize| is_inline_picture(controls@[i as int]);
    let ghost entry = |i: usize| (i, picture_width(controls@[i as int]));
    let ghost all = indices(controls@.len());
    let mut r: Vec<(usize, i32)> = Vec::new();
    proof {
        lemma_filter_start(all, p);
        assert(r@ == all.take(0).filter(p).map_values(entry));
    }
    for i in 0..controls.len()
        invariant
            p == (|i: usize| is_inline_picture(controls@[i as int])),
            entry == (|i: usize| (i, picture_width(controls@[i as int]))),
            all == indices(controls@.len()),
            r@ == all.take(i as int).filter(p).map_values(entry),
    {
        proof {
            lemma_filter_step(all, p, i as int);
        }
        if let Control::Picture(picture) = &controls[i] {
            if picture.common.treat_as_char {
                let width: i32 = picture.common.width as i32;
                r.push((i, width));
                assert(r@ == all.take(i + 1).filter(p).map_values(entry));
            }
        }
    }
    r
}

/// A table, picture or shape that takes the place between two lines.
pub open spec fn stands_between_lines(control: Control) -> bool {
    let common = match control {
        Control::Table(table) => Some(table.common),
        Control::Picture(picture) => Some(picture.common),
        Control::Shape(shape) => Some(shape.common),
        _ => None,
    };
    common matches Some(c) && c.text_wrap == TextWrap::TopAndBottom && !c.treat_as_char
}

/// The height that an object between the lines reserves: its own and its margins.
pub open spec fn reserved_height(control: Control) -> int {
    match control {
        Control::Table(table) => if table.common.text_wrap == TextWrap::TopAndBottom
            && !table.common.treat_as_char {
            table.common.height as i32 + table.outer_margin_top + table.outer_margin_bottom
        } else {
            0
        },
        Control::Picture(picture) => if picture.common.text_wrap == TextWrap::TopAndBottom
            && !picture.common.treat_as_char {
            picture.common.height as i32 + picture.common.margin.top
                + picture.common.margin.bottom
        } else {
            0
        },
        Control::Shape(shape) => if shape.common.text_wrap == TextWrap::TopAndBottom
            && !shape.common.treat_as_char {
            shape.common.height as i32 + shape.common.margin.top + shape.common.margin.bottom
        } else {
            0
        },
        _ => 0,
    }
}

/// The height that all objects between the lines reserve.
pub open spec fn total_reserved_height(controls: Seq<Control>) -> int
    decreases controls.len(),
{
    if controls.len() == 0 {
        0
    } else {
        total_reserved_height(controls.drop_last()) + reserved_height(controls.last())
    }
}

/// The height that the objects between the lines reserve, in HWPUNIT.
pub fn calc_sibling_topandbottom_reserved_hu(controls: &[Control]) -> (r: i32)
    requires
        i32::MIN <= total_reserved_height(controls@) <= i32::MAX,
    ensures
        r == total_reserved_height(controls@),
{
    let mut total: i128 = 0;
    for i in 0..controls.len()
        invariant
            total == total_reserved_height(controls@.take(i as int)),
            -0x1_0000_0000 * i <= total <= 0x1_0000_0000 * i,
            controls@.len() <= u64::MAX,
    {
        assert(controls@.take(i + 1).drop_last() == controls@.take(i as int));
        let own: i64 = match &controls[i] {
            Control::Table(table) => if table.common.text_wrap == TextWrap::TopAndBottom
                && !table.common.treat_as_char {
                (table.common.height as i32) as i64 + table.outer_margin_top as i64
                    + table.outer_margin_bottom as i64
            } else {
                0
            },
            Control::Picture(picture) => if picture.common.text_wrap == TextWrap::TopAndBottom
                && !picture.common.treat_as_char {
                (picture.common.height as i32) as i64 + picture.common.margin.top as i64
                    + picture.common.margin.bottom as i64
            } else {
                0
            },
            Control::Shape(shape) => if shape.common.text_wrap == TextWrap::TopAndBottom
                && !shape.common.treat_as_char {
                (shape.common.height as i32) as i64 + shape.common.margin.top as i64
                    + shape.common.margin.bottom as i64
            } else {
                0
            },
            _ => 0,
        };
        assert(own == reserved_height(controls@[i as int]));
        total = total + own as i128;
    }
    assert(controls@.take(controls@.len() as int) == controls@);
    total as i32
}

/// What two groups of controls reserve adds up.
pub proof fn lemma_reserved_height_adds_up(first: Seq<Control>, second: Seq<Control>)
    ensures
        total_reserved_height(first + second) == total_reserved_height(first)
            + total_reserved_height(second),
    decreases second.len(),
{
    if second.len() == 0 {
        assert(first + second == first);
    } else {
        lemma_reserved_height_adds_up(first, second.drop_last());
        assert((first + second).drop_last() == first + second.drop_last());
    }
}

/// Controls that are laid out like characters, or that do not stand between lines,
/// reserve nothing.
pub proof fn lemma_nothing_reserved(controls: Seq<Control>)
    requires
        forall|i: int| 0 <= i < controls.len() ==> !stands_between_lines(#[trigger] controls[i]),
    ensures
        total_reserved_height(controls) == 0,
    decreases controls.len(),
{
    if controls.len() > 0 {
        lemma_nothing_reserved(controls.drop_last());
        assert(!stands_between_lines(controls.last()));
    }
}

} // verus!
