//! Cells: where their content stands in the document and how it is placed.

use vstd::prelude::*;

use crate::model::Alignment;
use crate::model::Cell;
use crate::model::CommonObjAttr;
use crate::model::Control;
use crate::model::CropRect;
use crate::model::HorzAlign;
use crate::model::Paragraph;
use crate::model::Table;
use crate::model::TextWrap;
use crate::model::VertAlign;
use crate::model::VertRelTo;
use crate::model::VerticalAlign;
use crate::seqs::indices;
use crate::seqs::lemma_filter_start;
use crate::seqs::lemma_filter_step;

verus! {

/// The cell index that stands for the caption of a table.
pub const CAPTION_CELL_SENTINEL: usize = 65534;

/// One step from a paragraph into a cell: the table's control, the cell, and the
/// paragraph in it.
#[derive(Clone, Copy, Debug, Default, PartialEq, Eq, Structural)]
pub struct CellPathEntry {
    pub control_index: usize,
    pub cell_index: usize,
    pub cell_para_index: usize,
    pub text_direction: u8,
}

/// The way from a paragraph of the body to a paragraph in a cell.
#[derive(Clone, Debug, Default)]
pub struct CellContext {
    pub parent_para_index: usize,
    pub path: Vec<CellPathEntry>,
    pub in_textbox: bool,
}

/// The context leads into the caption of a table.
pub open spec fn leads_into_caption(context: Option<&CellContext>) -> bool {
    context matches Some(c) && c.path@.len() > 0 && c.path@.last().cell_index
        == CAPTION_CELL_SENTINEL
}

/// Whether the context leads into the caption of a table.
pub fn is_caption_cell_context(context: Option<&CellContext>) -> (r: bool)
    ensures
        r == leads_into_caption(context),
{
    match context {
        Some(c) => c.path.len() > 0 && c.path[c.path.len() - 1].cell_index
            == CAPTION_CELL_SENTINEL,
        None => false,
    }
}

/// The path with one more step.
pub fn extended_path(path: &[CellPathEntry], entry: CellPathEntry) -> (r: Vec<CellPathEntry>)
    ensures
        r@ == path@.push(entry),
{
    let mut r: Vec<CellPathEntry> = Vec::new();
    for i in 0..path.len()
        invariant
            r@ == path@.take(i as int),
    {
        r.push(path[i]);
        assert(path@.take(i + 1) == path@.take(i as int).push(path@[i as int]));
    }
    assert(path@.take(path@.len() as int) == path@);
    r.push(entry);
    r
}

/// The context of a table that stands in the text of a cell. The cell and the
/// paragraph are filled in where the table's cells are laid out.
pub fn nested_table_context(context: Option<&CellContext>, control_index: usize) -> (r: Option<
    CellContext,
>)
    ensures
        r is Some == context is Some,
        r matches Some(c) ==> c.parent_para_index == context->0.parent_para_index && c.in_textbox
            == context->0.in_textbox && c.path@ == context->0.path@.push(
            CellPathEntry { control_index, cell_index: 0, cell_para_index: 0, text_direction: 0 },
        ),
{
    match context {
        Some(c) => Some(
            CellContext {
                parent_para_index: c.parent_para_index,
                path: extended_path(
                    c.path.as_slice(),
                    CellPathEntry {
                        control_index,
                        cell_index: 0,
                        cell_para_index: 0,
                        text_direction: 0,
                    },
                ),
                in_textbox: c.in_textbox,
            },
        ),
        None => None,
    }
}

/// The outermost cell that a context leads into: the paragraph, the table's control,
/// the cell and the paragraph in it.
pub fn outer_cell_location(context: Option<&CellContext>) -> (r: Option<
    (usize, usize, usize, usize),
>)
    ensures
        r == (match context {
            Some(c) => if c.path@.len() > 0 {
                Some(
                    (
                        c.parent_para_index,
                        c.path@[0].control_index,
                        c.path@[0].cell_index,
                        c.path@[0].cell_para_index,
                    ),
                )
            } else {
                None
            },
            None => None,
        }),
{
    match context {
        Some(c) => if c.path.len() > 0 {
            let e: CellPathEntry = c.path[0];
            Some((c.parent_para_index, e.control_index, e.cell_index, e.cell_para_index))
        } else {
            None
        },
        None => None,
    }
}

/// The paragraph of the body that an object in a cell belongs to.
pub fn body_para_index(context: Option<&CellContext>, para_index: usize) -> (r: usize)
    ensures
        r == (match context {
            Some(c) => c.parent_para_index,
            None => para_index,
        }),
{
    match context {
        Some(c) => c.parent_para_index,
        None => para_index,
    }
}

/// The context of a character in vertical text. Within another cell the last step is
/// the character's; else the table is one of the body, and the step is marked with
/// `own_direction`.
pub fn vertical_text_context(
    enclosing: Option<&CellContext>,
    table: Option<(usize, usize)>,
    cell_index: usize,
    cell_para_index: usize,
    text_direction: u8,
    own_direction: u8,
) -> (r: Option<CellContext>)
    ensures
        match enclosing {
            Some(c) => r is Some && r->0.parent_para_index == c.parent_para_index && r->0.in_textbox
                == c.in_textbox && r->0.path@ == (if c.path@.len() > 0 {
                c.path@.update(
                    c.path@.len() - 1,
                    CellPathEntry {
                        control_index: c.path@.last().control_index,
                        cell_index,
                        cell_para_index,
                        text_direction,
                    },
                )
            } else {
                c.path@
            }),
            None => match table {
                Some((para, control_index)) => r is Some && r->0.parent_para_index == para
                    && !r->0.in_textbox && r->0.path@ == seq![
                    CellPathEntry {
                        control_index,
                        cell_index,
                        cell_para_index,
                        text_direction: own_direction,
                    },
                ],
                None => r is None,
            },
        },
{
    match enclosing {
        Some(c) => {
            let mut path: Vec<CellPathEntry> = Vec::new();
            let n: usize = c.path.len();
            for i in 0..n
                invariant
                    n == c.path@.len(),
                    path@ == c.path@.take(i as int),
            {
                path.push(c.path[i]);
                assert(c.path@.take(i + 1) == c.path@.take(i as int).push(c.path@[i as int]));
            }
            assert(c.path@.take(n as int) == c.path@);
            if n > 0 {
                let control_index: usize = c.path[n - 1].control_index;
                path.set(
                    n - 1,
                    CellPathEntry { control_index, cell_index, cell_para_index, text_direction },
                );
            }
            Some(
                CellContext {
                    parent_para_index: c.parent_para_index,
                    path,
                    in_textbox: c.in_textbox,
                },
            )
        },
        None => match table {
            Some((para, control_index)) => {
                let mut path: Vec<CellPathEntry> = Vec::new();
                path.push(
                    CellPathEntry {
                        control_index,
                        cell_index,
                        cell_para_index,
                        text_direction: own_direction,
                    },
                );
                assert(path@ == seq![
                    CellPathEntry {
                        control_index,
                        cell_index,
                        cell_para_index,
                        text_direction: own_direction,
                    },
                ]);
                Some(CellContext { parent_para_index: para, path, in_textbox: false })
            },
            None => None,
        },
    }
}

/// The crop rectangle selects a part of the image.
pub open spec fn crop_applies(crop: CropRect) -> bool {
    crop.right > crop.left && crop.bottom > crop.top && (crop.left != 0 || crop.top != 0
        || crop.right != 0 || crop.bottom != 0)
}

/// The part of an image that a picture shows: left, top, right, bottom.
pub fn picture_crop(crop: &CropRect) -> (r: Option<(i32, i32, i32, i32)>)
    ensures
        r == (if crop_applies(*crop) {
            Some((crop.left, crop.top, crop.right, crop.bottom))
        } else {
            None
        }),
{
    if crop.right > crop.left && crop.bottom > crop.top && (crop.left != 0 || crop.top != 0
        || crop.right != 0 || crop.bottom != 0) {
        Some((crop.left, crop.top, crop.right, crop.bottom))
    } else {
        None
    }
}

/// How the text flows around an image: one in the text has no wrap mode.
pub fn image_wrap(common: &CommonObjAttr) -> (r: Option<TextWrap>)
    ensures
        r == (if common.treat_as_char {
            None
        } else {
            Some(common.text_wrap)
        }),
{
    if common.treat_as_char {
        None
    } else {
        Some(common.text_wrap)
    }
}

/// The columns and rows that a cell covers, each up to the second number.
#[derive(Clone, Copy, Debug, PartialEq, Eq, Structural)]
pub struct CellSpan {
    pub col: usize,
    pub end_col: usize,
    pub row: usize,
    pub end_row: usize,
}

/// The end of a span that starts at `start`, inside a table of `count`.
pub open spec fn span_end(start: int, span: int, count: int) -> int {
    if start + span <= count {
        start + span
    } else {
        count
    }
}

/// The columns and rows of a cell, cut to its table; `None` for a cell that starts
/// outside of it.
pub fn cell_span(cell: &Cell, col_count: u16, row_count: u16) -> (r: Option<CellSpan>)
    ensures
        r is Some == (cell.col < col_count && cell.row < row_count),
        r matches Some(s) ==> {
            &&& s.col == cell.col && s.row == cell.row
            &&& s.end_col == span_end(cell.col as int, cell.col_span as int, col_count as int)
            &&& s.end_row == span_end(cell.row as int, cell.row_span as int, row_count as int)
            &&& s.col <= s.end_col <= col_count
            &&& s.row <= s.end_row <= row_count
        },
{
    if cell.col >= col_count || cell.row >= row_count {
        return None;
    }
    let mut end_col: u32 = cell.col as u32 + cell.col_span as u32;
    if end_col > col_count as u32 {
        end_col = col_count as u32;
    }
    let mut end_row: u32 = cell.row as u32 + cell.row_span as u32;
    if end_row > row_count as u32 {
        end_row = row_count as u32;
    }
    Some(
        CellSpan {
            col: cell.col as usize,
            end_col: end_col as usize,
            row: cell.row as usize,
            end_row: end_row as usize,
        },
    )
}

/// The cells of a table that are laid out, in order: those that start inside of it.
pub fn cells_to_lay_out(table: &Table) -> (r: Vec<usize>)
    ensures
        r@ == indices(table.cells@.len()).filter(
            |i: usize|
                table.cells@[i as int].col < table.col_count && table.cells@[i as int].row
                    < table.row_count,
        ),
{
    let ghost p = |i: usize|
        table.cells@[i as int].col < table.col_count && table.cells@[i as int].row
            < table.row_count;
    let ghost all = indices(table.cells@.len());
    let mut r: Vec<usize> = Vec::new();
    proof {
        lemma_filter_start(all, p);
    }
    for i in 0..table.cells.len()
        invariant
            p == (|i: usize|
                table.cells@[i as int].col < table.col_count && table.cells@[i as int].row
                    < table.row_count),
            all == indices(table.cells@.len()),
            r@ == all.take(i as int).filter(p),
    {
        proof {
            lemma_filter_step(all, p, i as int);
        }
        if table.cells[i].col < table.col_count && table.cells[i].row < table.row_count {
            r.push(i);
        }
    }
    r
}

/// The style that a border fill number stands for: numbers start at one, and zero is
/// no style.
pub fn border_style_index(border_fill_id: u16) -> (r: Option<usize>)
    ensures
        r == (if border_fill_id > 0 {
            Some((border_fill_id - 1) as usize)
        } else {
            None
        }),
{
    if border_fill_id > 0 {
        Some((border_fill_id - 1) as usize)
    } else {
        None
    }
}

/// A paragraph of the cell has a table.
pub open spec fn holds_table(cell: Cell) -> bool {
    exists|p: int, c: int|
        0 <= p < cell.paragraphs@.len() && 0 <= c < cell.paragraphs@[p].controls@.len()
            && #[trigger] cell.paragraphs@[p].controls@[c] is Table
}

/// Whether a paragraph of the cell has a table.
pub fn has_nested_table(cell: &Cell) -> (r: bool)
    ensures
        r == holds_table(*cell),
{
    for p in 0..cell.paragraphs.len()
        invariant
            forall|q: int, c: int|
                0 <= q < p && 0 <= c < cell.paragraphs@[q].controls@.len() ==> !(
                #[trigger] cell.paragraphs@[q].controls@[c] is Table),
    {
        let para: &Paragraph = &cell.paragraphs[p];
        for c in 0..para.controls.len()
            invariant
                p < cell.paragraphs@.len(),
                para == cell.paragraphs@[p as int],
                forall|d: int| 0 <= d < c ==> !(#[trigger] para.controls@[d] is Table),
        {
            if let Control::Table(_) = &para.controls[c] {
                assert(cell.paragraphs@[p as int].controls@[c as int] is Table);
                return true;
            }
        }
    }
    false
}

/// Where the last stored line of a paragraph ends.
pub open spec fn stored_end(para: Paragraph) -> Option<int> {
    if para.line_segs@.len() > 0 {
        Some(para.line_segs@.last().vertical_pos + para.line_segs@.last().line_height)
    } else {
        None
    }
}

/// The lowest of the ends of the paragraphs' stored lines.
pub open spec fn is_lowest_stored_end(paras: Seq<Paragraph>, end: Option<int>) -> bool {
    match end {
        Some(e) => (exists|i: int| 0 <= i < paras.len() && stored_end(#[trigger] paras[i]) == end)
            && forall|i: int|
            0 <= i < paras.len() && stored_end(#[trigger] paras[i]) is Some ==> stored_end(
                paras[i],
            )->0 <= e,
        None => forall|i: int| 0 <= i < paras.len() ==> stored_end(#[trigger] paras[i]) is None,
    }
}

/// Where the stored lines of a cell end; zero where it has none.
pub fn cell_stored_end(cell: &Cell) -> (r: i64)
    ensures
        exists|end: Option<int>| #[trigger]
            is_lowest_stored_end(cell.paragraphs@, end) && r == (match end {
                Some(e) => e,
                None => 0,
            }),
{
    let mut lowest: Option<i64> = None;
    let ghost mut end: Option<int> = None;
    for i in 0..cell.paragraphs.len()
        invariant
            is_lowest_stored_end(cell.paragraphs@.take(i as int), end),
            lowest is Some == end is Some,
            lowest matches Some(l) ==> l == end->0,
    {
        let ghost before = cell.paragraphs@.take(i as int);
        let ghost after = cell.paragraphs@.take(i + 1);
        let ghost old_end = end;
        let para: &Paragraph = &cell.paragraphs[i];
        let n: usize = para.line_segs.len();
        if n > 0 {
            let own: i64 = para.line_segs[n - 1].vertical_pos as i64 + para.line_segs[n
                - 1].line_height as i64;
            assert(stored_end(after[i as int]) == Some(own as int));
            match lowest {
                Some(l) => {
                    if own > l {
                        lowest = Some(own);
                        proof {
                            end = Some(own as int);
                        }
                    } else {
                        proof {
                            let w = choose|w: int|
                                0 <= w < before.len() && stored_end(#[trigger] before[w])
                                    == old_end;
                            assert(after[w] == before[w]);
                        }
                    }
                },
                None => {
                    lowest = Some(own);
                    proof {
                        end = Some(own as int);
                    }
                },
            }
        } else {
            proof {
                if old_end is Some {
                    let w = choose|w: int|
                        0 <= w < before.len() && stored_end(#[trigger] before[w]) == old_end;
                    assert(after[w] == before[w]);
                }
            }
        }
        proof {
            assert forall|k: int| 0 <= k < after.len() && k != i implies #[trigger] after[k]
                == before[k] by {}
            assert(after[i as int] == para);
        }
    }
    assert(cell.paragraphs@.take(cell.paragraphs@.len() as int) == cell.paragraphs@);
    assert(is_lowest_stored_end(cell.paragraphs@, end));
    match lowest {
        Some(l) => l,
        None => 0,
    }
}

/// A cell's first paragraph keeps the space above it in the alignment: the cell is not
/// aligned to its top, and no nested table's lines hold that space already.
pub fn aligns_first_lead(cell: &Cell) -> (r: bool)
    ensures
        r == (!holds_table(*cell) && cell.vertical_align != VerticalAlign::Top),
{
    !has_nested_table(cell) && cell.vertical_align != VerticalAlign::Top
}

/// How a paragraph of a cell is laid out.
#[derive(Clone, Copy, Debug, PartialEq, Eq, Structural)]
pub struct CellParaFlags {
    /// Its space above does not count as that at the top of a column.
    pub suppress_column_top: bool,
    pub is_last: bool,
}

/// Decides how a paragraph of a cell is laid out; `has_lead` says that the first
/// paragraph keeps space above it in the alignment.
pub fn cell_para_flags(
    vertical_align: VerticalAlign,
    index: usize,
    count: usize,
    has_lead: bool,
) -> (flags: CellParaFlags)
    requires
        index < count,
    ensures
        flags.suppress_column_top == (vertical_align != VerticalAlign::Top && !(index == 0
            && has_lead)),
        flags.is_last == (index + 1 == count),
{
    CellParaFlags {
        suppress_column_top: vertical_align != VerticalAlign::Top && !(index == 0 && has_lead),
        is_last: index + 1 == count,
    }
}

/// Where a table in a text box or a cell belongs in the document.
#[derive(Clone, Debug, Default)]
pub struct TablePlace {
    pub section_index: usize,
    pub para_index: usize,
    pub control_index: usize,
    pub parent_path: Vec<CellPathEntry>,
}

/// The context of the table itself: none where it stands in the body.
pub fn table_own_context(place: Option<&TablePlace>) -> (r: Option<CellContext>)
    ensures
        r is Some == (place matches Some(p) && p.parent_path@.len() > 0),
        r matches Some(c) ==> c.parent_para_index == place->0.para_index && !c.in_textbox
            && c.path@ == place->0.parent_path@,
{
    match place {
        Some(p) => {
            if p.parent_path.len() == 0 {
                return None;
            }
            let mut path: Vec<CellPathEntry> = Vec::new();
            for i in 0..p.parent_path.len()
                invariant
                    path@ == p.parent_path@.take(i as int),
            {
                path.push(p.parent_path[i]);
                assert(p.parent_path@.take(i + 1) == p.parent_path@.take(i as int).push(
                    p.parent_path@[i as int],
                ));
            }
            assert(p.parent_path@.take(p.parent_path@.len() as int) == p.parent_path@);
            Some(CellContext { parent_para_index: p.para_index, path, in_textbox: false })
        },
        None => None,
    }
}

/// The context of a paragraph in a cell of the table.
pub fn cell_para_context(
    place: Option<&TablePlace>,
    cell_index: usize,
    cell_para_index: usize,
    text_direction: u8,
) -> (r: Option<CellContext>)
    ensures
        r is Some == place is Some,
        r matches Some(c) ==> c.parent_para_index == place->0.para_index && !c.in_textbox
            && c.path@ == place->0.parent_path@.push(
            CellPathEntry {
                control_index: place->0.control_index,
                cell_index,
                cell_para_index,
                text_direction,
            },
        ),
{
    match place {
        Some(p) => Some(
            CellContext {
                parent_para_index: p.para_index,
                path: extended_path(
                    p.parent_path.as_slice(),
                    CellPathEntry {
                        control_index: p.control_index,
                        cell_index,
                        cell_para_index,
                        text_direction,
                    },
                ),
                in_textbox: false,
            },
        ),
        None => None,
    }
}

/// The section and the paragraph that a cell's paragraph is laid out as: without a
/// place in the document both are zero.
pub fn cell_para_address(place: Option<&TablePlace>, cell_para_index: usize) -> (r: (usize, usize))
    ensures
        r == (match place {
            Some(p) => (p.section_index, cell_para_index),
            None => (0usize, 0usize),
        }),
{
    match place {
        Some(p) => (p.section_index, cell_para_index),
        None => (0, 0),
    }
}

/// Where free space beside an object goes.
#[derive(Clone, Copy, Debug, PartialEq, Eq, Structural)]
pub enum FreeSpace {
    Behind,
    Around,
    Before,
}

/// Where free space goes in a line of the given alignment that holds one object.
pub open spec fn object_space(alignment: Alignment) -> FreeSpace {
    match alignment {
        Alignment::Center | Alignment::Distribute => FreeSpace::Around,
        Alignment::Right => FreeSpace::Before,
        _ => FreeSpace::Behind,
    }
}

/// Where free space goes in a line of the given alignment that holds one object.
pub fn object_free_space(alignment: Alignment) -> (r: FreeSpace)
    ensures
        r == object_space(alignment),
{
    match alignment {
        Alignment::Center | Alignment::Distribute => FreeSpace::Around,
        Alignment::Right => FreeSpace::Before,
        _ => FreeSpace::Behind,
    }
}

/// How a shape of a cell is placed.
#[derive(Clone, Copy, Debug, PartialEq, Eq, Structural)]
pub enum CellShapeSeat {
    /// In the text: at the paragraph's top, by its alignment.
    InText(FreeSpace),
    /// By its own alignment and offsets, in HWPUNIT; vertically in the paragraph or in
    /// the cell.
    Free {
        horizontal: FreeSpace,
        horizontal_offset: i32,
        vertical: FreeSpace,
        vertical_offset: i32,
        in_paragraph: bool,
    },
}

/// The vertical offset of a shape in a cell. In a header one above the paragraph's top
/// is drawn at it.
pub open spec fn shape_vertical_offset(common: CommonObjAttr, clamp_in_header: bool) -> i32 {
    let offset = common.vertical_offset as i32;
    if clamp_in_header && common.vert_rel_to == VertRelTo::Para && (common.vert_align
        == VertAlign::Top || common.vert_align == VertAlign::Inside) && offset < 0 {
        0
    } else {
        offset
    }
}

/// Where free space goes above and below an object.
pub open spec fn vertical_space(align: VertAlign) -> FreeSpace {
    match align {
        VertAlign::Bottom | VertAlign::Outside => FreeSpace::Before,
        VertAlign::Center => FreeSpace::Around,
        _ => FreeSpace::Behind,
    }
}

/// Where free space goes beside an object.
pub open spec fn horizontal_space(align: HorzAlign) -> FreeSpace {
    match align {
        HorzAlign::Right | HorzAlign::Outside => FreeSpace::Before,
        HorzAlign::Center => FreeSpace::Around,
        _ => FreeSpace::Behind,
    }
}

/// Where free space goes beside an object.
pub(crate) fn space_beside(align: HorzAlign) -> (space: FreeSpace)
    ensures
        space == horizontal_space(align),
{
    match align {
        HorzAlign::Right | HorzAlign::Outside => FreeSpace::Before,
        HorzAlign::Center => FreeSpace::Around,
        _ => FreeSpace::Behind,
    }
}

/// Decides how a shape of a cell is placed.
pub fn cell_shape_seat(common: &CommonObjAttr, alignment: Alignment, clamp_in_header: bool) -> (r:
    CellShapeSeat)
    ensures
        r == (if common.treat_as_char {
            CellShapeSeat::InText(object_space(alignment))
        } else {
            CellShapeSeat::Free {
                horizontal: horizontal_space(common.horz_align),
                horizontal_offset: common.horizontal_offset as i32,
                vertical: vertical_space(common.vert_align),
                vertical_offset: shape_vertical_offset(*common, clamp_in_header),
                in_paragraph: common.vert_rel_to == VertRelTo::Para,
            }
        }),
{
    if common.treat_as_char {
        return CellShapeSeat::InText(object_free_space(alignment));
    }
    let mut vertical_offset: i32 = common.vertical_offset as i32;
    if clamp_in_header && common.vert_rel_to == VertRelTo::Para && (common.vert_align
        == VertAlign::Top || common.vert_align == VertAlign::Inside) && vertical_offset < 0 {
        vertical_offset = 0;
    }
    let horizontal = space_beside(common.horz_align);
    let vertical = match common.vert_align {
        VertAlign::Bottom | VertAlign::Outside => FreeSpace::Before,
        VertAlign::Center => FreeSpace::Around,
        _ => FreeSpace::Behind,
    };
    CellShapeSeat::Free {
        horizontal,
        horizontal_offset: common.horizontal_offset as i32,
        vertical,
        vertical_offset,
        in_paragraph: common.vert_rel_to == VertRelTo::Para,
    }
}

/// Whether an object of a cell is drawn above the cell's text: one that is not in the
/// text and not behind it.
pub fn lifts_above_text(common: &CommonObjAttr) -> (r: bool)
    ensures
        r == (!common.treat_as_char && common.text_wrap != TextWrap::BehindText),
{
    !common.treat_as_char && common.text_wrap != TextWrap::BehindText
}

/// What the upper edge of a cell's object is reckoned from.
#[derive(Clone, Copy, Debug, PartialEq, Eq, Structural)]
pub enum ObjectTop {
    /// The stored position of the first line, in HWPUNIT, inside the cell.
    Stored(i32),
    /// The top of the paragraph.
    ParaTop,
    /// The bottom of the paragraph.
    ParaBottom,
}

/// What the upper edge of a shape of a cell is reckoned from.
pub fn cell_shape_top(common: &CommonObjAttr, para: &Paragraph) -> (r: ObjectTop)
    ensures
        r == (if common.treat_as_char {
            if para.line_segs@.len() > 0 {
                ObjectTop::Stored(para.line_segs@[0].vertical_pos)
            } else {
                ObjectTop::ParaTop
            }
        } else if common.vert_rel_to == VertRelTo::Para {
            ObjectTop::ParaTop
        } else {
            ObjectTop::ParaBottom
        }),
{
    if common.treat_as_char {
        if para.line_segs.len() > 0 {
            ObjectTop::Stored(para.line_segs[0].vertical_pos)
        } else {
            ObjectTop::ParaTop
        }
    } else if common.vert_rel_to == VertRelTo::Para {
        ObjectTop::ParaTop
    } else {
        ObjectTop::ParaBottom
    }
}

/// What the upper edge of a picture of a cell is reckoned from: the stored first line,
/// else its lower edge is at the paragraph's.
pub fn cell_picture_top(para: &Paragraph) -> (r: ObjectTop)
    ensures
        r == (if para.line_segs@.len() > 0 {
            ObjectTop::Stored(para.line_segs@[0].vertical_pos)
        } else {
            ObjectTop::ParaBottom
        }),
{
    if para.line_segs.len() > 0 {
        ObjectTop::Stored(para.line_segs[0].vertical_pos)
    } else {
        ObjectTop::ParaBottom
    }
}

/// Object `i` stands on stored line `line`, before control `before` where one is given.
pub open spec fn stands_on_line(
    objects: Seq<(usize, i32, usize)>,
    lines: Seq<usize>,
    line: usize,
    before: Option<usize>,
) -> spec_fn(usize) -> bool {
    |i: usize|
        lines[i as int] == line && (before matches Some(control) ==> objects[i as int].2 < control)
}

/// The widths of the objects that share a stored line, in order, in HWPUNIT: of all of
/// them, or of those before a control. `objects` holds the position, the width and the
/// control of each object of the paragraph, `lines` its line.
pub fn line_object_widths(
    objects: &[(usize, i32, usize)],
    lines: &[usize],
    line: usize,
    before: Option<usize>,
) -> (r: Vec<i32>)
    requires
        lines@.len() == objects@.len(),
    ensures
        r@ == indices(objects@.len()).filter(
            stands_on_line(objects@, lines@, line, before),
        ).map_values(|i: usize| objects@[i as int].1),
{
    let ghost p = stands_on_line(objects@, lines@, line, before);
    let ghost width = |i: usize| objects@[i as int].1;
    let ghost all = indices(objects@.len());
    let mut r: Vec<i32> = Vec::new();
    proof {
        lemma_filter_start(all, p);
        assert(r@ == all.take(0).filter(p).map_values(width));
    }
    for i in 0..objects.len()
        invariant
            lines@.len() == objects@.len(),
            p == stands_on_line(objects@, lines@, line, before),
            width == (|i: usize| objects@[i as int].1),
            all == indices(objects@.len()),
            r@ == all.take(i as int).filter(p).map_values(width),
    {
        let ghost done = all.take(i as int).filter(p);
        proof {
            lemma_filter_step(all, p, i as int);
        }
        let stands_before: bool = match before {
            Some(control) => objects[i].2 < control,
            None => true,
        };
        if lines[i] == line && stands_before {
            assert(p(i));
            r.push(objects[i].1);
            assert(done.push(i).map_values(width) == done.map_values(width).push(
                objects@[i as int].1,
            ));
        }
    }
    assert(all.take(all.len() as int) == all);
    assert(r@ == all.filter(p).map_values(|i: usize| objects@[i as int].1));
    r
}

} // verus!
