use paragraph_layout::cells::{
    aligns_first_lead, body_para_index, border_style_index, cell_para_address, cell_para_context,
    cell_para_flags, cell_picture_top, cell_shape_seat, cell_shape_top, cell_span,
    cell_stored_end, cells_to_lay_out, extended_path, has_nested_table, image_wrap,
    is_caption_cell_context, lifts_above_text, line_object_widths, nested_table_context,
    object_free_space, outer_cell_location, picture_crop, table_own_context,
    vertical_text_context, CellContext, CellParaFlags, CellPathEntry, CellShapeSeat, FreeSpace,
    ObjectTop, TablePlace, CAPTION_CELL_SENTINEL,
};
use paragraph_layout::model::{
    Alignment, Cell, CommonObjAttr, Control, CropRect, HorzAlign, LineSeg, Paragraph, Table,
    TextWrap, VertAlign, VertRelTo, VerticalAlign,
};

fn entry(control: usize, cell: usize, para: usize, direction: u8) -> CellPathEntry {
    CellPathEntry {
        control_index: control,
        cell_index: cell,
        cell_para_index: para,
        text_direction: direction,
    }
}

fn context(path: Vec<CellPathEntry>) -> CellContext {
    CellContext {
        parent_para_index: 9,
        path,
        in_textbox: true,
    }
}

#[test]
fn a_caption_is_a_cell_of_its_own() {
    let caption = context(vec![entry(0, 3, 0, 0), entry(1, CAPTION_CELL_SENTINEL, 0, 0)]);
    assert!(is_caption_cell_context(Some(&caption)));
    let inside = context(vec![entry(1, CAPTION_CELL_SENTINEL, 0, 0), entry(0, 3, 0, 0)]);
    assert!(!is_caption_cell_context(Some(&inside)));
    assert!(!is_caption_cell_context(Some(&context(vec![]))));
    assert!(!is_caption_cell_context(None));
}

#[test]
fn a_nested_table_adds_a_step() {
    let outer = context(vec![entry(1, 2, 3, 0)]);
    let nested = nested_table_context(Some(&outer), 7).unwrap();
    assert_eq!(nested.path, vec![entry(1, 2, 3, 0), entry(7, 0, 0, 0)]);
    assert_eq!(nested.parent_para_index, 9);
    assert!(nested.in_textbox);
    assert!(nested_table_context(None, 7).is_none());
    assert_eq!(extended_path(&[], entry(4, 5, 6, 1)), vec![entry(4, 5, 6, 1)]);
}

#[test]
fn objects_are_found_by_the_outermost_cell() {
    let outer = context(vec![entry(1, 2, 3, 0), entry(4, 5, 6, 0)]);
    assert_eq!(outer_cell_location(Some(&outer)), Some((9, 1, 2, 3)));
    assert_eq!(outer_cell_location(Some(&context(vec![]))), None);
    assert_eq!(outer_cell_location(None), None);
    assert_eq!(body_para_index(Some(&outer), 4), 9);
    assert_eq!(body_para_index(None, 4), 4);
}

#[test]
fn vertical_text_belongs_to_the_innermost_cell() {
    let outer = context(vec![entry(1, 2, 3, 0), entry(4, 5, 6, 0)]);
    let own = vertical_text_context(Some(&outer), Some((1, 1)), 8, 2, 1, 0).unwrap();
    assert_eq!(own.path, vec![entry(1, 2, 3, 0), entry(4, 8, 2, 1)]);
    let body = vertical_text_context(None, Some((3, 5)), 8, 2, 1, 0).unwrap();
    assert_eq!(body.path, vec![entry(5, 8, 2, 0)]);
    assert_eq!(body.parent_para_index, 3);
    assert!(!body.in_textbox);
    assert!(vertical_text_context(None, None, 8, 2, 1, 0).is_none());
    let empty = vertical_text_context(Some(&context(vec![])), None, 8, 2, 1, 0).unwrap();
    assert!(empty.path.is_empty());
}

#[test]
fn a_crop_needs_an_area() {
    let crop = |left, top, right, bottom| CropRect { left, top, right, bottom };
    assert_eq!(picture_crop(&crop(0, 0, 10, 20)), Some((0, 0, 10, 20)));
    assert_eq!(picture_crop(&crop(0, 0, 0, 0)), None);
    assert_eq!(picture_crop(&crop(5, 0, 5, 20)), None);
    assert_eq!(picture_crop(&crop(0, 30, 10, 20)), None);
}

#[test]
fn an_image_in_the_text_has_no_wrap() {
    let mut common = CommonObjAttr {
        text_wrap: TextWrap::BehindText,
        ..Default::default()
    };
    assert_eq!(image_wrap(&common), Some(TextWrap::BehindText));
    assert!(!lifts_above_text(&common));
    common.text_wrap = TextWrap::Square;
    assert!(lifts_above_text(&common));
    common.treat_as_char = true;
    assert_eq!(image_wrap(&common), None);
    assert!(!lifts_above_text(&common));
}

fn cell(col: u16, row: u16, col_span: u16, row_span: u16) -> Cell {
    Cell {
        col,
        row,
        col_span,
        row_span,
        ..Default::default()
    }
}

#[test]
fn cells_are_cut_to_their_table() {
    let span = cell_span(&cell(1, 0, 5, 1), 3, 2).unwrap();
    assert_eq!((span.col, span.end_col, span.row, span.end_row), (1, 3, 0, 1));
    assert!(cell_span(&cell(3, 0, 1, 1), 3, 2).is_none());
    assert!(cell_span(&cell(0, 2, 1, 1), 3, 2).is_none());
    let span = cell_span(&cell(u16::MAX - 1, 0, u16::MAX, 1), u16::MAX, 1).unwrap();
    assert_eq!(span.end_col, u16::MAX as usize);
    let table = Table {
        col_count: 2,
        row_count: 1,
        cells: vec![cell(0, 0, 1, 1), cell(2, 0, 1, 1), cell(1, 0, 1, 1), cell(0, 1, 1, 1)],
        ..Default::default()
    };
    assert_eq!(cells_to_lay_out(&table), vec![0, 2]);
}

#[test]
fn border_styles_count_from_one() {
    assert_eq!(border_style_index(0), None);
    assert_eq!(border_style_index(1), Some(0));
    assert_eq!(border_style_index(u16::MAX), Some(65534));
}

fn para(segs: &[(i32, i32)]) -> Paragraph {
    Paragraph {
        line_segs: segs
            .iter()
            .map(|&(vertical_pos, line_height)| LineSeg {
                vertical_pos,
                line_height,
                ..Default::default()
            })
            .collect(),
        ..Default::default()
    }
}

#[test]
fn the_stored_lines_of_a_cell_end_at_the_lowest() {
    let mut c = cell(0, 0, 1, 1);
    assert_eq!(cell_stored_end(&c), 0);
    c.paragraphs = vec![para(&[]), para(&[(900, 9), (100, 50)]), para(&[(120, 20)])];
    assert_eq!(cell_stored_end(&c), 150);
    c.paragraphs = vec![para(&[(-100, 50)])];
    assert_eq!(cell_stored_end(&c), -50);
}

#[test]
fn a_nested_table_holds_the_space_above() {
    let mut c = cell(0, 0, 1, 1);
    c.vertical_align = VerticalAlign::Center;
    assert!(aligns_first_lead(&c));
    c.paragraphs = vec![Paragraph {
        controls: vec![Control::Other, Control::Table(Box::default())],
        ..Default::default()
    }];
    assert!(has_nested_table(&c));
    assert!(!aligns_first_lead(&c));
    c.paragraphs.clear();
    c.vertical_align = VerticalAlign::Top;
    assert!(!has_nested_table(&c));
    assert!(!aligns_first_lead(&c));
}

#[test]
fn paragraphs_of_a_cell_know_their_place() {
    assert_eq!(
        cell_para_flags(VerticalAlign::Center, 0, 2, false),
        CellParaFlags { suppress_column_top: true, is_last: false }
    );
    assert_eq!(
        cell_para_flags(VerticalAlign::Center, 0, 1, true),
        CellParaFlags { suppress_column_top: false, is_last: true }
    );
    assert_eq!(
        cell_para_flags(VerticalAlign::Center, 1, 2, true),
        CellParaFlags { suppress_column_top: true, is_last: true }
    );
    assert!(!cell_para_flags(VerticalAlign::Top, 0, 1, false).suppress_column_top);
}

#[test]
fn tables_in_text_boxes_keep_their_path() {
    let place = TablePlace {
        section_index: 1,
        para_index: 2,
        control_index: 3,
        parent_path: vec![entry(4, 5, 6, 0)],
    };
    let own = table_own_context(Some(&place)).unwrap();
    assert_eq!((own.parent_para_index, own.path), (2, vec![entry(4, 5, 6, 0)]));
    let inner = cell_para_context(Some(&place), 7, 8, 2).unwrap();
    assert_eq!(inner.path, vec![entry(4, 5, 6, 0), entry(3, 7, 8, 2)]);
    assert_eq!(cell_para_address(Some(&place), 8), (1, 8));
    assert_eq!(cell_para_address(None, 8), (0, 0));
    assert!(table_own_context(None).is_none());
    assert!(table_own_context(Some(&TablePlace::default())).is_none());
    assert!(cell_para_context(None, 7, 8, 2).is_none());
}

#[test]
fn shapes_of_a_cell_are_placed_by_text_or_by_themselves() {
    assert_eq!(object_free_space(Alignment::Distribute), FreeSpace::Around);
    assert_eq!(object_free_space(Alignment::Right), FreeSpace::Before);
    assert_eq!(object_free_space(Alignment::Justify), FreeSpace::Behind);
    let mut common = CommonObjAttr {
        horz_align: HorzAlign::Outside,
        vert_align: VertAlign::Inside,
        vert_rel_to: VertRelTo::Para,
        horizontal_offset: 40,
        vertical_offset: (-70i32) as u32,
        ..Default::default()
    };
    assert_eq!(
        cell_shape_seat(&common, Alignment::Left, false),
        CellShapeSeat::Free {
            horizontal: FreeSpace::Before,
            horizontal_offset: 40,
            vertical: FreeSpace::Behind,
            vertical_offset: -70,
            in_paragraph: true,
        }
    );
    let clamped = cell_shape_seat(&common, Alignment::Left, true);
    assert!(matches!(clamped, CellShapeSeat::Free { vertical_offset: 0, .. }));
    common.vert_align = VertAlign::Bottom;
    let below = cell_shape_seat(&common, Alignment::Left, true);
    assert!(matches!(
        below,
        CellShapeSeat::Free { vertical: FreeSpace::Before, vertical_offset: -70, .. }
    ));
    common.treat_as_char = true;
    assert_eq!(
        cell_shape_seat(&common, Alignment::Center, true),
        CellShapeSeat::InText(FreeSpace::Around)
    );
}

#[test]
fn objects_of_a_cell_start_at_the_stored_line() {
    let stored = para(&[(300, 10)]);
    let bare = para(&[]);
    let mut common = CommonObjAttr::default();
    assert_eq!(cell_shape_top(&common, &stored), ObjectTop::ParaBottom);
    common.vert_rel_to = VertRelTo::Para;
    assert_eq!(cell_shape_top(&common, &stored), ObjectTop::ParaTop);
    common.treat_as_char = true;
    assert_eq!(cell_shape_top(&common, &stored), ObjectTop::Stored(300));
    assert_eq!(cell_shape_top(&common, &bare), ObjectTop::ParaTop);
    assert_eq!(cell_picture_top(&stored), ObjectTop::Stored(300));
    assert_eq!(cell_picture_top(&bare), ObjectTop::ParaBottom);
}

#[test]
fn widths_are_those_of_the_objects_on_the_line() {
    let objects = [(0, 10, 4), (0, 20, 2), (1, 30, 3), (2, 40, 1)];
    let lines = [0, 0, 1, 0];
    assert_eq!(line_object_widths(&objects, &lines, 0, None), vec![10, 20, 40]);
    assert_eq!(line_object_widths(&objects, &lines, 0, Some(2)), vec![40]);
    assert_eq!(line_object_widths(&objects, &lines, 5, None), vec![]);
}
