//! Short texts drawn for controls: labels of layout marks, colours of form objects.

use vstd::prelude::*;

use crate::model::Control;
use crate::model::HeaderFooterApply;
use crate::seqs::indices;
use crate::seqs::lemma_filter_start;
use crate::seqs::lemma_filter_step;

verus! {

/// The pages that a header or footer is for, in words.
pub open spec fn apply_words(apply: HeaderFooterApply) -> Seq<char> {
    match apply {
        HeaderFooterApply::Both => "양 쪽"@,
        HeaderFooterApply::Even => "짝수 쪽"@,
        HeaderFooterApply::Odd => "홀수 쪽"@,
    }
}

/// The label that is drawn for a control when layout marks are shown.
pub open spec fn label_of(control: Control) -> Option<Seq<char>> {
    match control {
        Control::Shape(shape) => Some("["@ + shape.name@ + "]"@),
        Control::Picture(_) => Some("[그림]"@),
        Control::Table(table) => if table.common.treat_as_char {
            Some("[표]"@)
        } else {
            None
        },
        Control::PageHide => Some("[감추기]"@),
        Control::PageNumberPos => Some("[쪽 번호 위치]"@),
        Control::Header(apply) => Some("[머리말("@ + apply_words(apply) + ")]"@),
        Control::Footer(apply) => Some("[꼬리말("@ + apply_words(apply) + ")]"@),
        Control::Footnote(_) => Some("[각주]"@),
        Control::Endnote(_) => Some("[미주]"@),
        Control::NewNumber => Some("[새 번호]"@),
        Control::Bookmark(bookmark) => Some("[책갈피:"@ + bookmark.name@ + "]"@),
        _ => None,
    }
}

fn apply_text(apply: HeaderFooterApply) -> (text: &'static str)
    ensures
        text@ == apply_words(apply),
{
    match apply {
        HeaderFooterApply::Both => "양 쪽",
        HeaderFooterApply::Even => "짝수 쪽",
        HeaderFooterApply::Odd => "홀수 쪽",
    }
}

fn joined(a: &str, b: &str, c: &str) -> (text: String)
    ensures
        text@ == a@ + b@ + c@,
{
    let mut text = a.to_owned();
    text.append(b);
    text.append(c);
    text
}

/// The label that is drawn for a control when layout marks are shown.
pub fn control_label(control: &Control) -> (label: Option<String>)
    ensures
        match label_of(*control) {
            Some(text) => label is Some && label->0@ == text,
            None => label is None,
        },
{
    match control {
        Control::Shape(shape) => Some(joined("[", shape.name.as_str(), "]")),
        Control::Picture(_) => Some("[그림]".to_owned()),
        Control::Table(table) => if table.common.treat_as_char {
            Some("[표]".to_owned())
        } else {
            None
        },
        Control::PageHide => Some("[감추기]".to_owned()),
        Control::PageNumberPos => Some("[쪽 번호 위치]".to_owned()),
        Control::Header(apply) => Some(joined("[머리말(", apply_text(*apply), ")]")),
        Control::Footer(apply) => Some(joined("[꼬리말(", apply_text(*apply), ")]")),
        Control::Footnote(_) => Some("[각주]".to_owned()),
        Control::Endnote(_) => Some("[미주]".to_owned()),
        Control::NewNumber => Some("[새 번호]".to_owned()),
        Control::Bookmark(bookmark) => Some(joined("[책갈피:", bookmark.name.as_str(), "]")),
        _ => None,
    }
}

/// The place of a control; one without a known place counts as the first.
pub open spec fn place_of_control(positions: Seq<usize>, index: int) -> usize {
    if index < positions.len() {
        positions[index]
    } else {
        0
    }
}

/// Place and label of the controls that have a label, in order.
pub open spec fn labels_of(controls: Seq<Control>, positions: Seq<usize>) -> Seq<
    (usize, Seq<char>),
> {
    indices(controls.len()).filter(|i: usize| label_of(controls[i as int]) is Some).map_values(
        |i: usize| (place_of_control(positions, i as int), label_of(controls[i as int])->0),
    )
}

/// Collects the labels of a paragraph's controls with their places; there are none
/// where layout marks are not shown.
pub fn collect_shape_marker_labels(show: bool, controls: &[Control], positions: &[usize]) -> (r: Vec<
    (usize, String),
>)
    ensures
        r@.map_values(|e: (usize, String)| (e.0, e.1@)) == if show {
            labels_of(controls@, positions@)
        } else {
            Seq::empty()
        },
{
    let ghost entry = |e: (usize, String)| (e.0, e.1@);
    let ghost p = |i: usize| label_of(controls@[i as int]) is Some;
    let ghost value = |i: usize|
        (place_of_control(positions@, i as int), label_of(controls@[i as int])->0);
    let ghost all = indices(controls@.len());
    let mut r: Vec<(usize, String)> = Vec::new();
    if !show {
        assert(r@.map_values(entry) == Seq::<(usize, Seq<char>)>::empty());
        return r;
    }
    proof {
        lemma_filter_start(all, p);
        assert(r@.map_values(entry) == all.take(0).filter(p).map_values(value));
    }
    for i in 0..controls.len()
        invariant
            show,
            entry == (|e: (usize, String)| (e.0, e.1@)),
            p == (|i: usize| label_of(controls@[i as int]) is Some),
            value == (|i: usize|
                (place_of_control(positions@, i as int), label_of(controls@[i as int])->0)),
            all == indices(controls@.len()),
            r@.map_values(entry) == all.take(i as int).filter(p).map_values(value),
    {
        proof {
            lemma_filter_step(all, p, i as int);
        }
        let mut place: usize = 0;
        if i < positions.len() {
            place = positions[i];
        }
        let ghost before = r@;
        if let Some(label) = control_label(&controls[i]) {
            r.push((place, label));
            assert(r@.map_values(entry) == before.map_values(entry).push(
                (place_of_control(positions@, i as int), label_of(controls@[i as int])->0),
            ));
            assert(r@.map_values(entry) == all.take(i + 1).filter(p).map_values(value));
        }
    }
    r
}

/// The hexadecimal digit of a number below sixteen.
pub open spec fn hex_digit(n: int) -> char {
    if n == 0 {
        '0'
    } else if n == 1 {
        '1'
    } else if n == 2 {
        '2'
    } else if n == 3 {
        '3'
    } else if n == 4 {
        '4'
    } else if n == 5 {
        '5'
    } else if n == 6 {
        '6'
    } else if n == 7 {
        '7'
    } else if n == 8 {
        '8'
    } else if n == 9 {
        '9'
    } else if n == 10 {
        'a'
    } else if n == 11 {
        'b'
    } else if n == 12 {
        'c'
    } else if n == 13 {
        'd'
    } else if n == 14 {
        'e'
    } else {
        'f'
    }
}

fn hex_char(n: u32) -> (c: char)
    requires
        n < 16,
    ensures
        c == hex_digit(n as int),
{
    match n {
        0 => '0',
        1 => '1',
        2 => '2',
        3 => '3',
        4 => '4',
        5 => '5',
        6 => '6',
        7 => '7',
        8 => '8',
        9 => '9',
        10 => 'a',
        11 => 'b',
        12 => 'c',
        13 => 'd',
        14 => 'e',
        _ => 'f',
    }
}

/// Red, green and blue of a colour that is stored with red in its lowest byte.
pub open spec fn css_color(color: u32) -> Seq<char> {
    let red = color as int % 256;
    let green = color as int / 256 % 256;
    let blue = color as int / 65536 % 256;
    seq![
        '#',
        hex_digit(red / 16),
        hex_digit(red % 16),
        hex_digit(green / 16),
        hex_digit(green % 16),
        hex_digit(blue / 16),
        hex_digit(blue % 16),
    ]
}

/// Writes a stored colour as a style sheet does.
pub fn form_color_to_css(color: u32) -> (text: String)
    ensures
        text@ == css_color(color),
{
    let red: u32 = color % 256;
    let green: u32 = color / 256 % 256;
    let blue: u32 = color / 65536 % 256;
    let mut text = String::new();
    text.push('#');
    text.push(hex_char(red / 16));
    text.push(hex_char(red % 16));
    text.push(hex_char(green / 16));
    text.push(hex_char(green % 16));
    text.push(hex_char(blue / 16));
    text.push(hex_char(blue % 16));
    assert(text@ == css_color(color));
    text
}

proof fn lemma_hex_digit_injective(a: int, b: int)
    requires
        0 <= a < 16,
        0 <= b < 16,
        hex_digit(a) == hex_digit(b),
    ensures
        a == b,
{
}

/// The bytes of a colour make it up.
proof fn lemma_color_bytes(x: int)
    requires
        0 <= x,
    ensures
        x % 0x100_0000 == x % 256 + 256 * (x / 256 % 256) + 65536 * (x / 65536 % 256),
        0 <= x % 256 < 256,
        0 <= x / 256 % 256 < 256,
        0 <= x / 65536 % 256 < 256,
{
    let red = x % 256;
    let q = x / 256;
    let green = q % 256;
    let t = q / 256;
    let blue = t % 256;
    let rest = t / 256;
    assert(x == 256 * q + red && q == 256 * t + green && t == 256 * rest + blue);
    vstd::arithmetic::div_mod::lemma_fundamental_div_mod_converse(x, 65536, t, 256 * green + red);
    vstd::arithmetic::div_mod::lemma_fundamental_div_mod_converse(
        x,
        0x100_0000,
        rest,
        65536 * blue + 256 * green + red,
    );
}

/// Two colours are written alike only where they are the same in their colour bytes;
/// the highest byte is not part of the colour.
pub proof fn lemma_css_color_tells_colors_apart(a: u32, b: u32)
    ensures
        css_color(a) == css_color(b) <==> a % 0x100_0000 == b % 0x100_0000,
        css_color(a).len() == 7,
{
    let x = a as int;
    let y = b as int;
    lemma_color_bytes(x);
    lemma_color_bytes(y);
    if css_color(a) == css_color(b) {
        assert(css_color(a)[1] == css_color(b)[1]);
        assert(css_color(a)[2] == css_color(b)[2]);
        assert(css_color(a)[3] == css_color(b)[3]);
        assert(css_color(a)[4] == css_color(b)[4]);
        assert(css_color(a)[5] == css_color(b)[5]);
        assert(css_color(a)[6] == css_color(b)[6]);
        lemma_hex_digit_injective(x % 256 / 16, y % 256 / 16);
        lemma_hex_digit_injective(x % 256 % 16, y % 256 % 16);
        lemma_hex_digit_injective(x / 256 % 256 / 16, y / 256 % 256 / 16);
        lemma_hex_digit_injective(x / 256 % 256 % 16, y / 256 % 256 % 16);
        lemma_hex_digit_injective(x / 65536 % 256 / 16, y / 65536 % 256 / 16);
        lemma_hex_digit_injective(x / 65536 % 256 % 16, y / 65536 % 256 % 16);
    }
}

} // verus!
