//! What the labels, colours and reserved heights of controls promise.

use vstd::prelude::*;

use crate::controls::collect_sibling_tac_picture_widths;
use crate::controls::has_ole_shape_square_wrap;
use crate::controls::has_para_topbottom_float_affecting_column;
use crate::controls::has_picture_shape_square_wrap;
use crate::controls::is_topbottom_para_float;
use crate::controls::topbottom_para_floats;
use crate::controls::total_reserved_height;
use crate::inline_table_laws::lemma_filtered_indices_ascend;
use crate::labels::css_color;
use crate::labels::label_of;
use crate::labels::labels_of;
use crate::model::Control;
use crate::model::HeaderFooterApply;
use crate::model::Paragraph;
use crate::model::Picture;
use crate::model::ShapeObject;
use crate::model::Table;
use crate::model::TextWrap;
use crate::model::VertRelTo;
use crate::pua::pua_bullet_char;
use crate::seqs::indices;
use crate::seqs::lemma_filter_same;
use crate::seqs::lemma_filter_step;

verus! {

/// The number that a hexadecimal digit stands for.
pub open spec fn digit_value(c: char) -> int {
    if '0' as u32 <= c as u32 <= '9' as u32 {
        c as u32 - '0' as u32
    } else {
        c as u32 - 'a' as u32 + 10
    }
}

/// Read back, a colour in a style sheet has the bytes of the stored one in this order: red
/// from the lowest, then green, then blue.
pub proof fn lemma_css_color_reads_back(color: u32)
    ensures
        css_color(color).len() == 7,
        css_color(color)[0] == '#',
        digit_value(css_color(color)[1]) * 16 + digit_value(css_color(color)[2]) == color % 256,
        digit_value(css_color(color)[3]) * 16 + digit_value(css_color(color)[4]) == color / 256
            % 256,
        digit_value(css_color(color)[5]) * 16 + digit_value(css_color(color)[6]) == color / 65536
            % 256,
        forall|i: int|
            1 <= i < 7 ==> 0 <= digit_value(#[trigger] css_color(color)[i]) < 16,
{
    let red = color as int % 256;
    let green = color as int / 256 % 256;
    let blue = color as int / 65536 % 256;
    lemma_digit_value(red / 16);
    lemma_digit_value(red % 16);
    lemma_digit_value(green / 16);
    lemma_digit_value(green % 16);
    lemma_digit_value(blue / 16);
    lemma_digit_value(blue % 16);
    assert forall|i: int| 1 <= i < 7 implies 0 <= digit_value(#[trigger] css_color(color)[i])
        < 16 by {
        assert(i == 1 || i == 2 || i == 3 || i == 4 || i == 5 || i == 6);
    }
}

proof fn lemma_digit_value(n: int)
    requires
        0 <= n < 16,
    ensures
        digit_value(crate::labels::hex_digit(n)) == n,
{
}

/// A label stands in square brackets; that of a shape is its name, that of a bookmark ends
/// in its name.
pub proof fn lemma_labels_stand_in_brackets(control: Control)
    ensures
        label_of(control) matches Some(label) ==> label.len() > 2 || control is Shape,
        label_of(control) matches Some(label) ==> label[0] == '[' && label.last() == ']',
        control matches Control::Shape(shape) ==> label_of(control) is Some && label_of(
            control,
        )->0.subrange(1, label_of(control)->0.len() - 1) == shape.name@,
        control matches Control::Bookmark(bookmark) ==> label_of(control) is Some && label_of(
            control,
        )->0.subrange(
            label_of(control)->0.len() - 1 - bookmark.name@.len(),
            label_of(control)->0.len() - 1,
        ) == bookmark.name@,
{
    reveal_strlit("[");
    reveal_strlit("]");
    reveal_strlit(")]");
    reveal_strlit("[그림]");
    reveal_strlit("[표]");
    reveal_strlit("[감추기]");
    reveal_strlit("[쪽 번호 위치]");
    reveal_strlit("[머리말(");
    reveal_strlit("[꼬리말(");
    reveal_strlit("[각주]");
    reveal_strlit("[미주]");
    reveal_strlit("[새 번호]");
    reveal_strlit("[책갈피:");
    if let Some(label) = label_of(control) {
        if let Control::Shape(shape) = control {
            assert(label.subrange(1, label.len() - 1) == shape.name@);
        }
        if let Control::Bookmark(bookmark) = control {
            assert(label.subrange(
                label.len() - 1 - bookmark.name@.len(),
                label.len() - 1,
            ) == bookmark.name@);
        }
    }
}

/// Pictures, shapes, notes and bookmarks always have a label; a table has one just where it
/// is laid out like a character; fields and counted numbers have none.
pub proof fn lemma_controls_with_a_label(control: Control)
    ensures
        control is Picture || control is Shape || control is Footnote || control is Endnote
            || control is Bookmark || control is Header || control is Footer || control is PageHide
            || control is PageNumberPos || control is NewNumber ==> label_of(control) is Some,
        control matches Control::Table(table) ==> (label_of(control) is Some
            <==> table.common.treat_as_char),
        control is Field || control is AutoNumber || control is Equation || control is Form
            || control is Other ==> label_of(control) is None,
{
}

/// The labels of headers and footers, of footnotes and endnotes and of pictures and tables
/// can be told apart, as can the pages that a header is for.
pub proof fn lemma_labels_differ(
    picture: Box<Picture>,
    table: Box<Table>,
    foot: crate::model::Note,
    a: HeaderFooterApply,
    b: HeaderFooterApply,
)
    requires
        table.common.treat_as_char,
    ensures
        label_of(Control::Picture(picture)) != label_of(Control::Table(table)),
        label_of(Control::Footnote(foot)) != label_of(Control::Endnote(foot)),
        label_of(Control::Header(a)) != label_of(Control::Footer(a)),
        label_of(Control::Header(a)) == label_of(Control::Header(b)) ==> a == b,
        label_of(Control::Footer(a)) == label_of(Control::Footer(b)) ==> a == b,
{
    reveal_strlit(")]");
    reveal_strlit("[그림]");
    reveal_strlit("[표]");
    reveal_strlit("[머리말(");
    reveal_strlit("[꼬리말(");
    reveal_strlit("[각주]");
    reveal_strlit("[미주]");
    reveal_strlit("양 쪽");
    reveal_strlit("짝수 쪽");
    reveal_strlit("홀수 쪽");
    let p = label_of(Control::Picture(picture))->0;
    let t = label_of(Control::Table(table))->0;
    assert(p.len() == 4 && t.len() == 3);
    let f = label_of(Control::Footnote(foot))->0;
    let e = label_of(Control::Endnote(foot))->0;
    assert(f[1] != e[1]);
    let ha = label_of(Control::Header(a))->0;
    let hb = label_of(Control::Header(b))->0;
    let fa = label_of(Control::Footer(a))->0;
    let fb = label_of(Control::Footer(b))->0;
    assert(ha[1] != fa[1]);
    assert(ha[5] == crate::labels::apply_words(a)[0]);
    assert(hb[5] == crate::labels::apply_words(b)[0]);
    assert(fa[5] == crate::labels::apply_words(a)[0]);
    assert(fb[5] == crate::labels::apply_words(b)[0]);
}

/// The labels come in the order of the controls, each at its control's place: one control
/// more adds its label at the end, if it has one, and changes no other.
pub proof fn lemma_labels_follow_the_controls(
    controls: Seq<Control>,
    positions: Seq<usize>,
    control: Control,
)
    requires
        controls.len() < usize::MAX,
    ensures
        labels_of(Seq::empty(), positions).len() == 0,
        label_of(control) is None ==> labels_of(controls.push(control), positions) == labels_of(
            controls,
            positions,
        ),
        label_of(control) is Some ==> labels_of(controls.push(control), positions) == labels_of(
            controls,
            positions,
        ).push(
            (
                if controls.len() < positions.len() {
                    positions[controls.len() as int]
                } else {
                    0
                },
                label_of(control)->0,
            ),
        ),
{
    let n = controls.len();
    let more = controls.push(control);
    let p = |i: usize| label_of(controls[i as int]) is Some;
    let q = |i: usize| label_of(more[i as int]) is Some;
    let f = |i: usize|
        (crate::labels::place_of_control(positions, i as int), label_of(controls[i as int])->0);
    let g = |i: usize|
        (crate::labels::place_of_control(positions, i as int), label_of(more[i as int])->0);
    let few = indices(n);
    let all = indices(n + 1);
    assert(all.take(n as int) == few);
    assert(all.take((n + 1) as int) == all);
    lemma_filter_step(all, q, n as int);
    lemma_filter_same(few, p, q);
    let kept = few.filter(p);
    lemma_filtered_indices_ascend(n, p, n as int);
    assert(few.take(n as int) == few);
    assert(kept.map_values(f) =~= kept.map_values(g)) by {
        assert forall|i: int| 0 <= i < kept.len() implies f(#[trigger] kept[i]) == g(kept[i]) by {
            assert(kept[i] < n);
        }
    }
    if label_of(control) is Some {
        assert(all.filter(q).map_values(g) == kept.map_values(g).push(g(n as usize)));
    }
    let none = Seq::<Control>::empty();
    reveal(Seq::filter);
    assert(labels_of(none, positions).len() == 0);
}

/// What an object between the lines reserves is its height and the margins above and below
/// it; a row of one object reserves just that, and an object in the text nothing.
pub proof fn lemma_reserved_by_one_object(
    picture: Box<Picture>,
    shape: Box<ShapeObject>,
    table: Box<Table>,
)
    requires
        picture.common.height <= i32::MAX,
        shape.common.height <= i32::MAX,
        table.common.height <= i32::MAX,
    ensures
        total_reserved_height(seq![Control::Picture(picture)]) == if !picture.common.treat_as_char
            && picture.common.text_wrap == TextWrap::TopAndBottom {
            picture.common.margin.top + picture.common.height + picture.common.margin.bottom
        } else {
            0
        },
        total_reserved_height(seq![Control::Shape(shape)]) == if !shape.common.treat_as_char
            && shape.common.text_wrap == TextWrap::TopAndBottom {
            shape.common.margin.top + shape.common.height + shape.common.margin.bottom
        } else {
            0
        },
        total_reserved_height(seq![Control::Table(table)]) == if !table.common.treat_as_char
            && table.common.text_wrap == TextWrap::TopAndBottom {
            table.outer_margin_top + table.common.height + table.outer_margin_bottom
        } else {
            0
        },
        total_reserved_height(Seq::empty()) == 0,
{
    reveal_with_fuel(total_reserved_height, 2);
    assert(seq![Control::Picture(picture)].drop_last().len() == 0);
    assert(seq![Control::Shape(shape)].drop_last().len() == 0);
    assert(seq![Control::Table(table)].drop_last().len() == 0);
}

/// A picture or shape that text flows around makes the paragraph one with such an object;
/// one in the text, above it or behind it does not.
pub proof fn lemma_text_flows_around(para: &Paragraph, i: int, r: bool)
    requires
        call_ensures(has_picture_shape_square_wrap, (Some(para),), r),
    ensures
        0 <= i < para.controls@.len() && (para.controls@[i] matches Control::Picture(picture)
            && !picture.common.treat_as_char && picture.common.text_wrap == TextWrap::Square) ==> r,
        0 <= i < para.controls@.len() && (para.controls@[i] matches Control::Shape(shape)
            && !shape.common.treat_as_char && shape.common.text_wrap == TextWrap::Square) ==> r,
        (forall|k: int|
            #![trigger para.controls@[k]]
            0 <= k < para.controls@.len() ==> match para.controls@[k] {
                Control::Picture(picture) => picture.common.treat_as_char
                    || picture.common.text_wrap != TextWrap::Square,
                Control::Shape(shape) => shape.common.treat_as_char || shape.common.text_wrap
                    != TextWrap::Square,
                _ => true,
            }) ==> !r,
{
}

/// Only a shape can be an embedded object that text flows around, and one that is makes the
/// paragraph one with a picture or shape that text flows around.
pub proof fn lemma_embedded_object_is_flowed_around(para: &Paragraph, ole: bool, any: bool)
    requires
        call_ensures(has_ole_shape_square_wrap, (Some(para),), ole),
        call_ensures(has_picture_shape_square_wrap, (Some(para),), any),
    ensures
        ole ==> any,
        (forall|k: int|
            #![trigger para.controls@[k]]
            0 <= k < para.controls@.len() ==> !(para.controls@[k] matches Control::Shape(shape)
                && shape.is_ole)) ==> !ole,
        ole <== exists|k: int|
            #![trigger para.controls@[k]]
            0 <= k < para.controls@.len() && (para.controls@[k] matches Control::Shape(shape)
                && shape.is_ole && !shape.common.treat_as_char && shape.common.text_wrap
                == TextWrap::Square),
{
    if ole {
        let k = choose|k: int|
            0 <= k < para.controls@.len() && crate::controls::is_ole_square_float(
                #[trigger] para.controls@[k],
            );
        assert(crate::controls::is_square_float(para.controls@[k]));
    }
}

/// The objects between the lines are found by their index, all of them and in order; a
/// paragraph's lines move just where one of them reaches into the column.
pub proof fn lemma_objects_between_the_lines(
    para: &Paragraph,
    controls: &[Control],
    reaches: &[bool],
    floats: Vec<usize>,
    moved: bool,
    i: int,
)
    requires
        para.controls@.len() <= usize::MAX,
        reaches@.len() == para.controls@.len(),
        call_ensures(topbottom_para_floats, (controls,), floats),
        controls@ == para.controls@,
        call_ensures(has_para_topbottom_float_affecting_column, (Some(para), reaches), moved),
        0 <= i < para.controls@.len(),
    ensures
        floats@.contains(i as usize) <==> match para.controls@[i] {
            Control::Picture(picture) => !picture.common.treat_as_char && picture.common.text_wrap
                == TextWrap::TopAndBottom && picture.common.vert_rel_to == VertRelTo::Para,
            Control::Shape(shape) => !shape.common.treat_as_char && shape.common.text_wrap
                == TextWrap::TopAndBottom && shape.common.vert_rel_to == VertRelTo::Para,
            _ => false,
        },
        floats@.contains(i as usize) && reaches@[i] ==> moved,
        moved ==> exists|k: int|
            0 <= k < para.controls@.len() && floats@.contains(k as usize) && #[trigger] reaches@[k],
{
    let p = |i: usize| is_topbottom_para_float(para.controls@[i as int]);
    let all = indices(para.controls@.len());
    lemma_filter_same(all, p, |i: usize| is_topbottom_para_float(controls@[i as int]));
    assert forall|k: int| 0 <= k < para.controls@.len() implies (#[trigger] floats@.contains(k as usize)
        <==> p(k as usize)) by {
        assert(all[k] == k as usize);
        if p(k as usize) {
            all.lemma_filter_contains(p, k);
        }
        if floats@.contains(k as usize) {
            all.lemma_filter_contains_rev(p, k as usize);
        }
    }
    assert(floats@.contains(i as usize) <==> p(i as usize));
    if moved {
        let k = choose|k: int|
            0 <= k < para.controls@.len() && is_topbottom_para_float(#[trigger] para.controls@[k])
                && reaches@[k];
        assert(floats@.contains(k as usize) <==> p(k as usize));
        assert(reaches@[k]);
    }
}

/// The pictures of the text with their widths: each entry is such a picture, and each such
/// picture has one.
pub proof fn lemma_widths_of_pictures(controls: &[Control], r: Vec<(usize, i32)>, i: int)
    requires
        controls@.len() <= usize::MAX,
        call_ensures(collect_sibling_tac_picture_widths, (controls,), r),
        0 <= i < controls@.len(),
    ensures
        (controls@[i] matches Control::Picture(picture) && picture.common.treat_as_char)
            ==> r@.contains(
            (i as usize, controls@[i]->Picture_0.common.width as i32),
        ),
        forall|k: int|
            0 <= k < r@.len() ==> (#[trigger] r@[k]).0 < controls@.len() && (
            controls@[r@[k].0 as int] matches Control::Picture(picture)
                && picture.common.treat_as_char && r@[k].1 == picture.common.width as i32),
        forall|j: int, k: int|
            0 <= j < k < r@.len() ==> (#[trigger] r@[j]).0 < (#[trigger] r@[k]).0,
{
    let p = |i: usize| crate::controls::is_inline_picture(controls@[i as int]);
    let f = |i: usize| (i, crate::controls::picture_width(controls@[i as int]));
    let all = indices(controls@.len());
    let kept = all.filter(p);
    lemma_filtered_indices_ascend(controls@.len(), p, controls@.len() as int);
    assert(all.take(controls@.len() as int) == all);
    assert(r@ == kept.map_values(f));
    assert(all[i] == i as usize);
    if p(i as usize) {
        all.lemma_filter_contains(p, i);
        let k = choose|k: int| 0 <= k < kept.len() && kept[k] == i as usize;
        assert(r@[k] == f(i as usize));
    }
    assert forall|k: int| 0 <= k < r@.len() implies (#[trigger] r@[k]).0 < controls@.len() && (
    controls@[r@[k].0 as int] matches Control::Picture(picture) && picture.common.treat_as_char
        && r@[k].1 == picture.common.width as i32) by {
        assert(kept.contains(kept[k]));
        all.lemma_filter_contains_rev(p, kept[k]);
    }
    assert forall|j: int, k: int| 0 <= j < k < r@.len() implies (#[trigger] r@[j]).0 < (
    #[trigger] r@[k]).0 by {
        assert(kept[j] < kept[k]);
    }
}

/// Book brackets, line corners and arrows are shown as signs of their kind; circles and
/// squares keep their shape.
pub proof fn lemma_private_signs_keep_their_kind(c: char)
    ensures
        0xF0854 <= c as u32 <= 0xF0855 ==> pua_bullet_char(c) as u32 - 0x300A == c as u32 - 0xF0854,
        0xF06C <= c as u32 <= 0xF06D ==> pua_bullet_char(c) == '●',
        c as u32 == 0xF06E ==> pua_bullet_char(c) == '■',
        0xF06F <= c as u32 <= 0xF072 ==> pua_bullet_char(c) == '□',
        0xF0A2 <= c as u32 <= 0xF0A3 ==> pua_bullet_char(c) == '○',
        0xF0EF <= c as u32 <= 0xF0F2 ==> 0x21E6 <= pua_bullet_char(c) as u32 <= 0x21E9,
        0xF045 <= c as u32 <= 0xF048 ==> 0x261C <= pua_bullet_char(c) as u32 <= 0x261F,
        0xF0FB <= c as u32 <= 0xF0FC ==> 0x2714 <= pua_bullet_char(c) as u32 <= 0x2717,
        0xF0FD <= c as u32 <= 0xF0FE ==> 0x2611 <= pua_bullet_char(c) as u32 <= 0x2612,
        0xF0AC <= c as u32 <= 0xF0AE ==> 0x2734 <= pua_bullet_char(c) as u32 <= 0x2739,
        0xF0000 <= c as u32 <= 0xF00CF && c as u32 != 0xF003B ==> pua_bullet_char(c) == c,
        0xF02B0 <= c as u32 <= 0xF02FF && c as u32 != 0xF02EF ==> pua_bullet_char(c) == c,
        0xF0856 <= c as u32 ==> pua_bullet_char(c) == c,
{
}

/// What stands in the labels: a picture, a table, a footnote, an endnote and the marks of a
/// page are named in words.
pub proof fn lemma_words_of_labels(
    picture: Box<Picture>,
    table: Box<Table>,
    note: crate::model::Note,
)
    requires
        table.common.treat_as_char,
    ensures
        label_of(Control::Picture(picture)) == Some(seq!['[', '그', '림', ']']),
        label_of(Control::Table(table)) == Some(seq!['[', '표', ']']),
        label_of(Control::Footnote(note)) == Some(seq!['[', '각', '주', ']']),
        label_of(Control::Endnote(note)) == Some(seq!['[', '미', '주', ']']),
        label_of(Control::PageHide) == Some(seq!['[', '감', '추', '기', ']']),
        label_of(Control::NewNumber) == Some(seq!['[', '새', ' ', '번', '호', ']']),
        label_of(Control::PageNumberPos) == Some(
            seq!['[', '쪽', ' ', '번', '호', ' ', '위', '치', ']'],
        ),
{
    reveal_strlit("[그림]");
    reveal_strlit("[표]");
    reveal_strlit("[감추기]");
    reveal_strlit("[쪽 번호 위치]");
    reveal_strlit("[각주]");
    reveal_strlit("[미주]");
    reveal_strlit("[새 번호]");
    assert("[그림]"@ =~= seq!['[', '그', '림', ']']);
    assert("[표]"@ =~= seq!['[', '표', ']']);
    assert("[각주]"@ =~= seq!['[', '각', '주', ']']);
    assert("[미주]"@ =~= seq!['[', '미', '주', ']']);
    assert("[감추기]"@ =~= seq!['[', '감', '추', '기', ']']);
    assert("[새 번호]"@ =~= seq!['[', '새', ' ', '번', '호', ']']);
    assert("[쪽 번호 위치]"@ =~= seq!['[', '쪽', ' ', '번', '호', ' ', '위', '치', ']']);
}

/// The label of a header or a footer names which of the two it is, and the pages that it is
/// for: both, the even or the odd ones.
pub proof fn lemma_words_of_headers(apply: HeaderFooterApply)
    ensures
        label_of(Control::Header(apply)) is Some,
        label_of(Control::Header(apply))->0[1] == '머',
        label_of(Control::Footer(apply)) is Some,
        label_of(Control::Footer(apply))->0[1] == '꼬',
        apply == HeaderFooterApply::Both <==> label_of(Control::Header(apply))->0[5] == '양',
        apply == HeaderFooterApply::Even <==> label_of(Control::Header(apply))->0[5] == '짝',
        apply == HeaderFooterApply::Odd <==> label_of(Control::Header(apply))->0[5] == '홀',
        label_of(Control::Header(apply))->0.skip(5) == label_of(Control::Footer(apply))->0.skip(5),
{
    reveal_strlit(")]");
    reveal_strlit("[머리말(");
    reveal_strlit("[꼬리말(");
    reveal_strlit("양 쪽");
    reveal_strlit("짝수 쪽");
    reveal_strlit("홀수 쪽");
    let h = label_of(Control::Header(apply))->0;
    let f = label_of(Control::Footer(apply))->0;
    assert(h[5] == crate::labels::apply_words(apply)[0]);
    assert(h.skip(5) == crate::labels::apply_words(apply) + ")]"@);
    assert(f.skip(5) == crate::labels::apply_words(apply) + ")]"@);
}

/// The signs of the symbol font that documents use as bullets: hands and pointers, crosses
/// and flakes, lozenges, dots and rings, stars, and the lines that frames are drawn with.
pub proof fn lemma_signs_of_the_symbol_font(c: char)
    ensures
        0xF045 <= c as u32 <= 0xF046 ==> pua_bullet_char(c) as u32 == 0x261C + 2 * (c as u32
            - 0xF045),
        0xF058 <= c as u32 <= 0xF059 ==> pua_bullet_char(c) as u32 - 0x2720 == c as u32 - 0xF058,
        c as u32 == 0xF04A ==> pua_bullet_char(c) == '☺',
        c as u32 == 0xF052 ==> pua_bullet_char(c) == '☼',
        c as u32 == 0xF054 ==> pua_bullet_char(c) == '❄',
        c as u32 == 0xF075 ==> pua_bullet_char(c) == '◆',
        c as u32 == 0xF076 ==> pua_bullet_char(c) == '❖',
        c as u32 == 0xF09F ==> pua_bullet_char(c) == '•',
        c as u32 == 0xF09E || c as u32 == 0xF0A0 || c as u32 == 0xF02EF ==> pua_bullet_char(c)
            == '·',
        c as u32 == 0xF0A4 ==> pua_bullet_char(c) == '◉',
        c as u32 == 0xF0A5 ==> pua_bullet_char(c) == '◎',
        c as u32 == 0xF0A7 ==> pua_bullet_char(c) == '▪',
        c as u32 == 0xF0AB ==> pua_bullet_char(c) == '★',
        c as u32 == 0xF0E8 ==> pua_bullet_char(c) == '➔',
        c as u32 == 0xF0FB ==> pua_bullet_char(c) == '✗',
        c as u32 == 0xF0FC ==> pua_bullet_char(c) == '✔',
        c as u32 == 0xF0FD ==> pua_bullet_char(c) == '☒',
        c as u32 == 0xF0FE ==> pua_bullet_char(c) == '☑',
        c as u32 == 0xF003B ==> pua_bullet_char(c) == '↓',
        c as u32 == 0xF00DA ==> pua_bullet_char(c) == '▸',
        c as u32 == 0xF080F ==> pua_bullet_char(c) == '━',
        c as u32 == 0xF0811 ==> pua_bullet_char(c) == '┌',
        c as u32 == 0xF0817 ==> pua_bullet_char(c) == '└',
        c as u32 == 0xF081A ==> pua_bullet_char(c) == '─',
        c as u32 == 0xF0827 ==> pua_bullet_char(c) == '═',
        c as u32 == 0xF0854 ==> pua_bullet_char(c) == '《',
        c as u32 == 0xF0855 ==> pua_bullet_char(c) == '》',
{
}

} // verus!
