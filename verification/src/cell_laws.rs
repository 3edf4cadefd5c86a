//! What the places of cells and of the objects in them promise.

use vstd::prelude::*;

use crate::cells::aligns_first_lead;
use crate::cells::body_para_index;
use crate::cells::border_style_index;
use crate::cells::cell_para_address;
use crate::cells::cell_para_context;
use crate::cells::cell_para_flags;
use crate::cells::cell_picture_top;
use crate::cells::cell_shape_seat;
use crate::cells::cell_shape_top;
use crate::cells::cell_span;
use crate::cells::cell_stored_end;
use crate::cells::cells_to_lay_out;
use crate::cells::has_nested_table;
use crate::cells::image_wrap;
use crate::cells::is_caption_cell_context;
use crate::cells::lifts_above_text;
use crate::cells::line_object_widths;
use crate::cells::nested_table_context;
use crate::cells::object_space;
use crate::cells::outer_cell_location;
use crate::cells::picture_crop;
use crate::cells::table_own_context;
use crate::cells::vertical_text_context;
use crate::cells::CellContext;
use crate::cells::CellParaFlags;
use crate::cells::CellShapeSeat;
use crate::cells::CellSpan;
use crate::cells::FreeSpace;
use crate::cells::ObjectTop;
use crate::cells::TablePlace;
use crate::inline_table_laws::lemma_filtered_indices_ascend;
use crate::model::Alignment;
use crate::model::Cell;
use crate::model::CommonObjAttr;
use crate::model::CropRect;
use crate::model::HorzAlign;
use crate::model::Paragraph;
use crate::model::Table;
use crate::model::TextWrap;
use crate::model::VertAlign;
use crate::model::VertRelTo;
use crate::model::VerticalAlign;
use crate::seqs::indices;

verus! {

/// A cell inside its table covers as many columns and rows as it spans; one that reaches
/// beyond the edge is cut there, and one that starts beyond it has no place.
pub proof fn lemma_span_of_a_cell(cell: &Cell, cols: u16, rows: u16, r: Option<CellSpan>)
    requires
        call_ensures(cell_span, (cell, cols, rows), r),
    ensures
        cell.col >= cols || cell.row >= rows ==> r is None,
        cell.col < cols && cell.row < rows ==> r is Some && r->0.col == cell.col && r->0.row
            == cell.row,
        r is Some && cell.col + cell.col_span <= cols ==> r->0.end_col - r->0.col == cell.col_span,
        r is Some && cell.col + cell.col_span > cols ==> r->0.end_col == cols,
        r is Some && cell.row + cell.row_span <= rows ==> r->0.end_row - r->0.row == cell.row_span,
        r is Some && cell.row + cell.row_span > rows ==> r->0.end_row == rows,
{
}

/// A cell ends in the column and the row in which its neighbour starts.
pub proof fn lemma_cells_meet(
    left: &Cell,
    right: &Cell,
    cols: u16,
    rows: u16,
    a: Option<CellSpan>,
    b: Option<CellSpan>,
)
    requires
        call_ensures(cell_span, (left, cols, rows), a),
        call_ensures(cell_span, (right, cols, rows), b),
        a is Some,
        b is Some,
    ensures
        right.col == left.col + left.col_span ==> a->0.end_col == b->0.col,
        right.row == left.row + left.row_span ==> a->0.end_row == b->0.row,
{
}

/// Every cell that starts inside its table is laid out, once and in order, and no other.
pub proof fn lemma_cells_that_are_laid_out(table: &Table, r: Vec<usize>, i: int, j: int)
    requires
        call_ensures(cells_to_lay_out, (table,), r),
        table.cells@.len() <= usize::MAX,
    ensures
        0 <= i < table.cells@.len() ==> (r@.contains(i as usize) <==> table.cells@[i].col
            < table.col_count && table.cells@[i].row < table.row_count),
        0 <= i < j < r@.len() ==> r@[i] < r@[j] < table.cells@.len(),
{
    let p = |i: usize|
        table.cells@[i as int].col < table.col_count && table.cells@[i as int].row
            < table.row_count;
    let all = indices(table.cells@.len());
    lemma_filtered_indices_ascend(table.cells@.len(), p, table.cells@.len() as int);
    assert(all.take(table.cells@.len() as int) == all);
    assert(r@ == all.filter(p));
    if 0 <= i < table.cells@.len() {
        assert(all[i] == i as usize);
        if p(i as usize) {
            all.lemma_filter_contains(p, i);
        }
        if r@.contains(i as usize) {
            all.lemma_filter_contains_rev(p, i as usize);
        }
    }
}

/// A table inside a cell lies in the same outermost cell and belongs to the same paragraph
/// of the body; its way is one step longer, and that step names the table.
pub proof fn lemma_nested_table_stays_in_its_cell(
    context: &CellContext,
    control: usize,
    inner: Option<CellContext>,
    outer: Option<(usize, usize, usize, usize)>,
    nested: Option<(usize, usize, usize, usize)>,
)
    requires
        call_ensures(nested_table_context, (Some(context), control), inner),
        context.path@.len() > 0,
        inner matches Some(c) ==> call_ensures(outer_cell_location, (Some(&c),), nested),
        call_ensures(outer_cell_location, (Some(context),), outer),
    ensures
        inner is Some,
        nested == outer,
        inner->0.parent_para_index == context.parent_para_index,
        inner->0.in_textbox == context.in_textbox,
        inner->0.path@.len() == context.path@.len() + 1,
        inner->0.path@.drop_last() == context.path@,
        inner->0.path@.last().control_index == control,
{
    assert(inner->0.path@.drop_last() == context.path@);
}

/// The outermost cell is named by the first step of the way; the body has none.
pub proof fn lemma_outermost_cell(
    context: &CellContext,
    body: Option<(usize, usize, usize, usize)>,
    r: Option<(usize, usize, usize, usize)>,
)
    requires
        call_ensures(outer_cell_location, (None,), body),
        call_ensures(outer_cell_location, (Some(context),), r),
    ensures
        body is None,
        context.path@.len() == 0 ==> r is None,
        context.path@.len() > 0 ==> r is Some,
        r matches Some((parent, control, cell, para)) ==> parent == context.parent_para_index
            && control == context.path@[0].control_index && cell == context.path@[0].cell_index
            && para == context.path@[0].cell_para_index,
{
}

/// A paragraph in a cell belongs to the body's paragraph that holds the table; one of the
/// body to itself. The way to it ends in its own cell and paragraph.
pub proof fn lemma_way_to_a_paragraph(
    place: &TablePlace,
    cell: usize,
    para: usize,
    direction: u8,
    context: Option<CellContext>,
    own: Option<CellContext>,
    inside: usize,
    outside: usize,
)
    requires
        call_ensures(cell_para_context, (Some(place), cell, para, direction), context),
        call_ensures(table_own_context, (Some(place),), own),
        context matches Some(c) ==> call_ensures(body_para_index, (Some(&c), para), inside),
        call_ensures(body_para_index, (None, para), outside),
    ensures
        context is Some,
        inside == place.para_index,
        outside == para,
        context->0.path@.last().control_index == place.control_index,
        context->0.path@.last().cell_index == cell,
        context->0.path@.last().cell_para_index == para,
        context->0.path@.last().text_direction == direction,
        place.parent_path@.len() == 0 ==> own is None && context->0.path@.len() == 1,
        place.parent_path@.len() > 0 ==> own is Some && own->0.path@
            == context->0.path@.drop_last() && own->0.parent_para_index
            == context->0.parent_para_index,
{
    assert(context->0.path@.drop_last() == place.parent_path@);
}

/// A paragraph of a cell is laid out under its own number, in the section of its table.
pub proof fn lemma_address_of_a_paragraph(
    place: &TablePlace,
    para: usize,
    r: (usize, usize),
    none: (usize, usize),
)
    requires
        call_ensures(cell_para_address, (Some(place), para), r),
        call_ensures(cell_para_address, (None, para), none),
    ensures
        r.0 == place.section_index,
        r.1 == para,
        none.0 == 0,
        none.1 == 0,
{
}

/// A character of vertical text is found where it stands: the last step of the way names its
/// cell and paragraph, and the steps in front of it stay.
pub proof fn lemma_way_to_a_vertical_character(
    enclosing: &CellContext,
    table: Option<(usize, usize)>,
    cell: usize,
    para: usize,
    direction: u8,
    own: u8,
    r: Option<CellContext>,
)
    requires
        call_ensures(
            vertical_text_context,
            (Some(enclosing), table, cell, para, direction, own),
            r,
        ),
        enclosing.path@.len() > 0,
    ensures
        r is Some,
        r->0.path@.len() == enclosing.path@.len(),
        r->0.path@.drop_last() == enclosing.path@.drop_last(),
        r->0.path@.last().control_index == enclosing.path@.last().control_index,
        r->0.path@.last().cell_index == cell,
        r->0.path@.last().cell_para_index == para,
        r->0.path@.last().text_direction == direction,
        r->0.parent_para_index == enclosing.parent_para_index,
{
    assert(r->0.path@.drop_last() == enclosing.path@.drop_last());
}

/// In a table of the body the way to a vertical character is one step.
pub proof fn lemma_way_in_a_table_of_the_body(
    para_index: usize,
    control: usize,
    cell: usize,
    para: usize,
    direction: u8,
    own: u8,
    r: Option<CellContext>,
    none: Option<CellContext>,
)
    requires
        call_ensures(
            vertical_text_context,
            (None, Some((para_index, control)), cell, para, direction, own),
            r,
        ),
        call_ensures(vertical_text_context, (None, None, cell, para, direction, own), none),
    ensures
        none is None,
        r is Some,
        r->0.parent_para_index == para_index,
        r->0.path@.len() == 1,
        r->0.path@[0].control_index == control,
        r->0.path@[0].cell_index == cell,
        r->0.path@[0].cell_para_index == para,
        r->0.path@[0].text_direction == own,
{
}

/// Only the last step of a way decides whether it leads into a caption.
pub proof fn lemma_way_into_a_caption(context: &CellContext, r: bool, body: bool)
    requires
        call_ensures(is_caption_cell_context, (Some(context),), r),
        call_ensures(is_caption_cell_context, (None,), body),
    ensures
        !body,
        context.path@.len() == 0 ==> !r,
        context.path@.len() > 0 ==> (r <==> context.path@[context.path@.len() - 1].cell_index
            == 65534),
{
}

/// A crop selects a part that has a width and a height; it is given by its own edges.
pub proof fn lemma_crop_of_a_picture(crop: &CropRect, r: Option<(i32, i32, i32, i32)>)
    requires
        call_ensures(picture_crop, (crop,), r),
    ensures
        r matches Some(part) ==> part.0 < part.2 && part.1 < part.3 && part.0 == crop.left && part.1
            == crop.top && part.2 == crop.right && part.3 == crop.bottom,
        crop.left < crop.right && crop.top < crop.bottom ==> r is Some,
{
}

/// Text flows around an image only where the image is not in the text, in the way that the
/// image says.
pub proof fn lemma_wrap_of_an_image(common: &CommonObjAttr, r: Option<TextWrap>)
    requires
        call_ensures(image_wrap, (common,), r),
    ensures
        common.treat_as_char <==> r is None,
        r matches Some(wrap) ==> wrap == common.text_wrap,
{
}

/// Numbers of borders count from one: two of them name the same style only where they are
/// the same, and zero names none.
pub proof fn lemma_number_of_a_border(a: u16, b: u16, x: Option<usize>, y: Option<usize>)
    requires
        call_ensures(border_style_index, (a,), x),
        call_ensures(border_style_index, (b,), y),
    ensures
        a == 0 <==> x is None,
        a > 0 ==> x->0 + 1 == a,
        x == y ==> a == b,
{
}

/// One table in one paragraph makes a cell one with a nested table; then, and in a cell
/// aligned to its top, the first paragraph keeps no space in the alignment.
pub proof fn lemma_nested_tables(cell: &Cell, p: int, c: int, nested: bool, lead: bool)
    requires
        call_ensures(has_nested_table, (cell,), nested),
        call_ensures(aligns_first_lead, (cell,), lead),
    ensures
        0 <= p < cell.paragraphs@.len() && 0 <= c < cell.paragraphs@[p].controls@.len()
            && cell.paragraphs@[p].controls@[c] is Table ==> nested,
        (forall|q: int, d: int|
            #![trigger cell.paragraphs@[q].controls@[d]]
            0 <= q < cell.paragraphs@.len() && 0 <= d < cell.paragraphs@[q].controls@.len() ==> !(
            cell.paragraphs@[q].controls@[d] is Table)) ==> !nested,
        nested || cell.vertical_align == VerticalAlign::Top ==> !lead,
        !nested && cell.vertical_align != VerticalAlign::Top ==> lead,
{
}

/// The stored lines of a cell end where the last line of its lowest paragraph does.
pub proof fn lemma_stored_end_of_a_cell(cell: &Cell, i: int, r: i64)
    requires
        call_ensures(cell_stored_end, (cell,), r),
    ensures
        0 <= i < cell.paragraphs@.len() && cell.paragraphs@[i].line_segs@.len() > 0
            ==> cell.paragraphs@[i].line_segs@.last().vertical_pos
            + cell.paragraphs@[i].line_segs@.last().line_height <= r,
        0 <= i < cell.paragraphs@.len() && cell.paragraphs@[i].line_segs@.len() > 0 && (forall|
            k: int,
        |
            #![trigger cell.paragraphs@[k]]
            0 <= k < cell.paragraphs@.len() && cell.paragraphs@[k].line_segs@.len() > 0
                ==> cell.paragraphs@[k].line_segs@.last().vertical_pos
                + cell.paragraphs@[k].line_segs@.last().line_height
                <= cell.paragraphs@[i].line_segs@.last().vertical_pos
                + cell.paragraphs@[i].line_segs@.last().line_height) ==> r
            == cell.paragraphs@[i].line_segs@.last().vertical_pos
            + cell.paragraphs@[i].line_segs@.last().line_height,
        (forall|k: int|
            #![trigger cell.paragraphs@[k]]
            0 <= k < cell.paragraphs@.len() ==> cell.paragraphs@[k].line_segs@.len() == 0) ==> r
            == 0,
{
    let end = choose|end: Option<int>| #[trigger]
        crate::cells::is_lowest_stored_end(cell.paragraphs@, end) && r == (match end {
            Some(e) => e,
            None => 0,
        });
    if 0 <= i < cell.paragraphs@.len() && cell.paragraphs@[i].line_segs@.len() > 0 {
        assert(crate::cells::stored_end(cell.paragraphs@[i]) is Some);
    }
    if let Some(e) = end {
        let w = choose|w: int|
            0 <= w < cell.paragraphs@.len() && crate::cells::stored_end(
                #[trigger] cell.paragraphs@[w],
            ) == end;
        assert(crate::cells::stored_end(cell.paragraphs@[w]) == end);
    }
}

/// Only the last paragraph of a cell is the last; the space above the first counts where the
/// cell keeps it, and in a cell aligned to its top.
pub proof fn lemma_paragraphs_of_a_cell(
    align: VerticalAlign,
    index: usize,
    count: usize,
    lead: bool,
    r: CellParaFlags,
)
    requires
        call_ensures(cell_para_flags, (align, index, count, lead), r),
        index < count,
    ensures
        r.is_last <==> index == count - 1,
        align == VerticalAlign::Top ==> !r.suppress_column_top,
        index == 0 && lead ==> !r.suppress_column_top,
        align != VerticalAlign::Top && (index > 0 || !lead) ==> r.suppress_column_top,
{
}

/// Free space goes before an object on the right, to both sides of a centred one, and behind
/// any other.
pub proof fn lemma_space_beside_an_object()
    ensures
        object_space(Alignment::Left) == FreeSpace::Behind,
        object_space(Alignment::Justify) == FreeSpace::Behind,
        object_space(Alignment::Split) == FreeSpace::Behind,
        object_space(Alignment::Center) == FreeSpace::Around,
        object_space(Alignment::Distribute) == FreeSpace::Around,
        object_space(Alignment::Right) == FreeSpace::Before,
{
}

/// A shape in the text follows the paragraph's alignment; any other its own, with its own
/// offsets. In a header a shape that would rise above its paragraph's top stays at it.
pub proof fn lemma_seat_of_a_shape(
    common: &CommonObjAttr,
    alignment: Alignment,
    header: bool,
    seat: CellShapeSeat,
)
    requires
        call_ensures(cell_shape_seat, (common, alignment, header), seat),
    ensures
        common.treat_as_char ==> seat == CellShapeSeat::InText(object_space(alignment)),
        !common.treat_as_char ==> (seat matches CellShapeSeat::Free {
            horizontal,
            horizontal_offset,
            vertical,
            vertical_offset,
            in_paragraph,
        } && {
            &&& horizontal_offset == common.horizontal_offset as i32
            &&& in_paragraph <==> common.vert_rel_to == VertRelTo::Para
            &&& common.horz_align == HorzAlign::Left || common.horz_align == HorzAlign::Inside
                ==> horizontal == FreeSpace::Behind
            &&& common.horz_align == HorzAlign::Center ==> horizontal == FreeSpace::Around
            &&& common.horz_align == HorzAlign::Right || common.horz_align == HorzAlign::Outside
                ==> horizontal == FreeSpace::Before
            &&& common.vert_align == VertAlign::Top || common.vert_align == VertAlign::Inside
                ==> vertical == FreeSpace::Behind
            &&& common.vert_align == VertAlign::Center ==> vertical == FreeSpace::Around
            &&& common.vert_align == VertAlign::Bottom || common.vert_align == VertAlign::Outside
                ==> vertical == FreeSpace::Before
            &&& !header || !in_paragraph || vertical != FreeSpace::Behind || (
            common.vertical_offset as i32) >= 0 ==> vertical_offset == common.vertical_offset as i32
            &&& header && in_paragraph && vertical == FreeSpace::Behind ==> vertical_offset >= 0
        }),
{
}

/// An object is drawn above the text unless it is in it or behind it.
pub proof fn lemma_objects_above_the_text(common: &CommonObjAttr, r: bool)
    requires
        call_ensures(lifts_above_text, (common,), r),
    ensures
        common.treat_as_char || common.text_wrap == TextWrap::BehindText ==> !r,
        !common.treat_as_char && common.text_wrap != TextWrap::BehindText ==> r,
{
}

/// Objects in the text of a cell hang from its stored first line; a shape without one from
/// the paragraph's top, a picture from its bottom.
pub proof fn lemma_top_of_an_object(
    common: &CommonObjAttr,
    para: &Paragraph,
    shape: ObjectTop,
    picture: ObjectTop,
)
    requires
        call_ensures(cell_shape_top, (common, para), shape),
        call_ensures(cell_picture_top, (para,), picture),
    ensures
        para.line_segs@.len() > 0 ==> picture == ObjectTop::Stored(
            para.line_segs@[0].vertical_pos,
        ),
        para.line_segs@.len() == 0 ==> picture == ObjectTop::ParaBottom,
        common.treat_as_char && para.line_segs@.len() > 0 ==> shape == picture,
        common.treat_as_char && para.line_segs@.len() == 0 ==> shape == ObjectTop::ParaTop,
        !common.treat_as_char ==> (shape == ObjectTop::ParaTop <==> common.vert_rel_to
            == VertRelTo::Para),
        !common.treat_as_char && common.vert_rel_to != VertRelTo::Para ==> shape
            == ObjectTop::ParaBottom,
{
}

/// The widths of a line are those of its objects, in order: one object more adds its width
/// at the end just where it stands on the line, and before the control if one is given.
pub proof fn lemma_widths_of_a_line(
    objects: &[(usize, i32, usize)],
    more: &[(usize, i32, usize)],
    lines: &[usize],
    more_lines: &[usize],
    line: usize,
    before: Option<usize>,
    r: Vec<i32>,
    s: Vec<i32>,
)
    requires
        objects@.len() == lines@.len(),
        more@.len() == more_lines@.len() == objects@.len() + 1,
        more@.len() <= usize::MAX,
        more@.drop_last() == objects@,
        more_lines@.drop_last() == lines@,
        call_ensures(line_object_widths, (objects, lines, line, before), r),
        call_ensures(line_object_widths, (more, more_lines, line, before), s),
    ensures
        more_lines@.last() == line && (before matches Some(control) ==> more@.last().2 < control)
            ==> s@ == r@.push(more@.last().1),
        !(more_lines@.last() == line && (before matches Some(control) ==> more@.last().2
            < control)) ==> s@ == r@,
{
    let n = objects@.len();
    let p = crate::cells::stands_on_line(objects@, lines@, line, before);
    let q = crate::cells::stands_on_line(more@, more_lines@, line, before);
    let f = |i: usize| objects@[i as int].1;
    let g = |i: usize| more@[i as int].1;
    let few = indices(n);
    let all = indices(n + 1);
    assert(all.take(n as int) == few);
    assert(all.take((n + 1) as int) == all);
    crate::seqs::lemma_filter_step(all, q, n as int);
    assert forall|i: int| 0 <= i < few.len() implies p(#[trigger] few[i]) == q(few[i]) by {
        assert(more@.drop_last()[i] == more@[i]);
        assert(more_lines@.drop_last()[i] == more_lines@[i]);
    }
    crate::seqs::lemma_filter_same(few, p, q);
    let kept = few.filter(p);
    lemma_filtered_indices_ascend(n, p, n as int);
    assert(few.take(n as int) == few);
    assert(kept.map_values(f) =~= kept.map_values(g)) by {
        assert forall|i: int| 0 <= i < kept.len() implies f(#[trigger] kept[i]) == g(kept[i]) by {
            assert(kept[i] < n);
            assert(more@.drop_last()[kept[i] as int] == more@[kept[i] as int]);
        }
    }
    assert(r@ == kept.map_values(f));
    if q(all[n as int]) {
        assert(all.filter(q) == kept.push(n as usize));
        assert(all.filter(q).map_values(g) == kept.map_values(g).push(g(n as usize)));
    }
}

} // verus!
