use paragraph_layout::cells::{CellContext, CellPathEntry, FreeSpace, CAPTION_CELL_SENTINEL};
use paragraph_layout::composed::{ComposedLine, ComposedParagraph, ComposedTextRun};
use paragraph_layout::model::{
    Caption, CaptionDirection, CommonObjAttr, Control, Equation, FormObject, HorzAlign, HorzRelTo,
    LineSeg, Paragraph, Picture, ShapeObject, Table,
};
use paragraph_layout::objects::{
    adds_sibling_reserve, caption_height_spacing, empty_line_draws_objects, empty_line_forms,
    empty_line_logical_end, empty_line_mark, empty_line_step, endnote_result_moves_up,
    equation_control_index, equations_follow_alignment, float_column_space, line_object_rows,
    line_table_owner, marker_row, plan_text, raw_paragraph_lines, run_table_seat, run_table_step,
    table_flow_limit, text_line_is_picture_lead_in, unmatched_line_pictures, EmptyLineStep,
    EndnoteTailFacts, ObjectRows, RawLine, RunTableSeat, TableStep,
};

fn line(text: &str, char_start: usize) -> ComposedLine {
    ComposedLine {
        runs: if text.is_empty() {
            vec![]
        } else {
            vec![ComposedTextRun {
                text: text.to_string(),
                ..Default::default()
            }]
        },
        char_start,
        ..Default::default()
    }
}

fn comp(lines: Vec<ComposedLine>) -> ComposedParagraph {
    ComposedParagraph {
        lines,
        ..Default::default()
    }
}

fn inline_table(top: i16, bottom: i16) -> Table {
    let mut table = Table {
        outer_margin_top: top,
        outer_margin_bottom: bottom,
        ..Default::default()
    };
    table.common.treat_as_char = true;
    table
}

fn para(controls: Vec<Control>) -> Paragraph {
    Paragraph {
        controls,
        ..Default::default()
    }
}

#[test]
fn floats_in_a_column_are_placed_in_it() {
    let mut common = CommonObjAttr {
        horz_rel_to: HorzRelTo::Column,
        horz_align: HorzAlign::Inside,
        ..Default::default()
    };
    assert_eq!(float_column_space(&common), Some(FreeSpace::Behind));
    common.horz_rel_to = HorzRelTo::Para;
    common.horz_align = HorzAlign::Center;
    assert_eq!(float_column_space(&common), Some(FreeSpace::Around));
    common.horz_align = HorzAlign::Outside;
    assert_eq!(float_column_space(&common), Some(FreeSpace::Before));
    common.horz_rel_to = HorzRelTo::Page;
    assert_eq!(float_column_space(&common), None);
}

#[test]
fn captions_above_or_below_make_an_object_higher() {
    let caption = |direction, paragraphs| Caption {
        direction,
        spacing: 850,
        paragraphs,
    };
    assert_eq!(caption_height_spacing(Some(&caption(CaptionDirection::Top, 1))), Some(850));
    assert_eq!(caption_height_spacing(Some(&caption(CaptionDirection::Bottom, 2))), Some(850));
    assert_eq!(caption_height_spacing(Some(&caption(CaptionDirection::Left, 1))), None);
    assert_eq!(caption_height_spacing(Some(&caption(CaptionDirection::Top, 0))), None);
    assert_eq!(caption_height_spacing(None), None);
}

#[test]
fn a_tall_line_of_text_leads_in_the_picture_below() {
    let c = comp(vec![line("Figure", 0), line(" ", 6), line("text", 7)]);
    assert!(text_line_is_picture_lead_in(&c, 0, true, false, true));
    assert!(!text_line_is_picture_lead_in(&c, 0, false, false, true));
    assert!(!text_line_is_picture_lead_in(&c, 0, true, true, true));
    assert!(!text_line_is_picture_lead_in(&c, 0, true, false, false));
    assert!(!text_line_is_picture_lead_in(&c, 1, true, false, true));
    assert!(!text_line_is_picture_lead_in(&c, 2, true, false, true));
    assert!(!text_line_is_picture_lead_in(&c, 9, true, false, true));
}

#[test]
fn the_height_of_floats_is_added_once() {
    assert!(adds_sibling_reserve(false, false, false));
    assert!(!adds_sibling_reserve(true, false, false));
    assert!(!adds_sibling_reserve(false, true, false));
    assert!(!adds_sibling_reserve(false, false, true));
}

#[test]
fn a_table_in_a_run_is_drawn_once() {
    let table = inline_table(0, 0);
    let step = |takes_margins, is_drawn| TableStep { takes_margins, is_drawn };
    assert_eq!(run_table_step(&table, false, true, false), step(true, true));
    assert_eq!(run_table_step(&table, true, false, true), step(true, false));
    assert_eq!(run_table_step(&table, false, false, false), step(false, false));
    assert_eq!(run_table_step(&Table::default(), true, true, false), step(false, false));
}

#[test]
fn a_table_flows_by_the_stored_width() {
    let mut p = para(vec![]);
    assert_eq!(table_flow_limit(&p, 500), 500);
    p.line_segs = vec![LineSeg::default()];
    assert_eq!(table_flow_limit(&p, 500), 500);
    p.line_segs[0].segment_width = 321;
    assert_eq!(table_flow_limit(&p, 500), 321);
}

#[test]
fn the_first_table_that_fills_the_line_is_its_owner() {
    let p = para(vec![
        Control::Other,
        Control::Table(Box::new(inline_table(0, 0))),
        Control::Table(Box::new(inline_table(5, 0))),
        Control::Table(Box::new(inline_table(0, 7))),
    ]);
    let objects = [(0, 0u8, 0), (0, 0u8, 1), (1, 0u8, 2), (2, 0u8, 3)];
    assert_eq!(line_table_owner(Some(&p), &objects, &[true; 4]), Some(2));
    assert_eq!(line_table_owner(Some(&p), &objects, &[true, true, false, true]), Some(3));
    assert_eq!(line_table_owner(Some(&p), &objects, &[false; 4]), None);
    assert_eq!(line_table_owner(None, &objects, &[true; 4]), None);
    assert_eq!(run_table_seat(&inline_table(5, 0), true, true), RunTableSeat::TopMargin);
    assert_eq!(run_table_seat(&inline_table(0, 0), true, true), RunTableSeat::OwnerBaseLine);
    assert_eq!(run_table_seat(&inline_table(5, 0), false, false), RunTableSeat::BaseLine);
}

#[test]
fn an_equation_in_a_cell_is_found_by_its_table() {
    let context = |path| CellContext {
        path,
        ..Default::default()
    };
    let inside = context(vec![CellPathEntry {
        control_index: 4,
        ..Default::default()
    }]);
    assert_eq!(equation_control_index(Some(&inside), 9), 4);
    assert_eq!(equation_control_index(Some(&context(vec![])), 9), 9);
    assert_eq!(equation_control_index(None, 9), 9);
}

#[test]
fn pictures_that_no_run_drew_are_found() {
    let p = para(vec![
        Control::Picture(Box::new(Picture::default())),
        Control::Other,
        Control::Picture(Box::new(Picture::default())),
    ]);
    let objects = [(5, 0u8, 0), (6, 0u8, 1), (7, 0u8, 2), (8, 0u8, 0), (7, 0u8, 9)];
    assert_eq!(unmatched_line_pictures(&line("abc", 4), Some(&p), &objects, 5), vec![2]);
    assert_eq!(unmatched_line_pictures(&line("abc", 4), Some(&p), &objects, 4), vec![0, 2]);
    assert!(unmatched_line_pictures(&line("", 4), Some(&p), &objects, 0).is_empty());
    assert!(unmatched_line_pictures(&line("abc", 4), None, &objects, 0).is_empty());
}

#[test]
fn forms_stand_on_lines_without_runs() {
    let p = para(vec![Control::Form(Box::new(FormObject::default())), Control::Other]);
    let objects = [(0, 0u8, 1), (0, 0u8, 0)];
    assert_eq!(empty_line_forms(&line("", 0), Some(&p), &objects), vec![1]);
    assert!(empty_line_forms(&line("a", 0), Some(&p), &objects).is_empty());
    assert!(empty_line_forms(&line("", 0), None, &objects).is_empty());
}

#[test]
fn cells_draw_the_objects_of_empty_lines_themselves() {
    let owning = comp(vec![line("", 3), line("text", 3)]);
    let plain = comp(vec![line("", 3), line("text", 4)]);
    let cell = CellContext {
        path: vec![CellPathEntry::default()],
        ..Default::default()
    };
    let caption = CellContext {
        path: vec![CellPathEntry {
            cell_index: CAPTION_CELL_SENTINEL,
            ..Default::default()
        }],
        ..Default::default()
    };
    assert!(empty_line_draws_objects(&plain, 0, None));
    assert!(empty_line_draws_objects(&plain, 0, Some(&caption)));
    assert!(!empty_line_draws_objects(&plain, 0, Some(&cell)));
    assert!(empty_line_draws_objects(&owning, 0, Some(&cell)));
    assert!(!empty_line_draws_objects(&owning, 1, Some(&cell)));
}

#[test]
fn objects_of_an_empty_line_take_their_places() {
    let p = para(vec![
        Control::Shape(Box::new(ShapeObject::default())),
        Control::Table(Box::new(inline_table(0, 0))),
        Control::Table(Box::default()),
        Control::Picture(Box::new(Picture::default())),
        Control::Other,
    ]);
    assert_eq!(empty_line_step(&p, 0, false, true), EmptyLineStep::PlaceShape);
    assert_eq!(empty_line_step(&p, 1, false, false), EmptyLineStep::DrawTable);
    assert_eq!(empty_line_step(&p, 1, false, true), EmptyLineStep::Ignore);
    assert_eq!(empty_line_step(&p, 2, false, false), EmptyLineStep::Ignore);
    assert_eq!(empty_line_step(&p, 3, false, true), EmptyLineStep::DrawPicture);
    assert_eq!(empty_line_step(&p, 3, true, true), EmptyLineStep::PassPicture);
    assert_eq!(empty_line_step(&p, 3, true, false), EmptyLineStep::DrawPicture);
    assert_eq!(empty_line_step(&p, 4, false, false), EmptyLineStep::Ignore);
    assert_eq!(empty_line_step(&p, 5, false, false), EmptyLineStep::Ignore);
    let steps = [
        EmptyLineStep::PlaceShape,
        EmptyLineStep::Ignore,
        EmptyLineStep::PassPicture,
        EmptyLineStep::DrawTable,
    ];
    assert_eq!(empty_line_logical_end(4, &steps), 7);
    assert_eq!(empty_line_logical_end(4, &[]), 4);
    assert_eq!(empty_line_mark(true, true, false), (true, true));
    assert_eq!(empty_line_mark(true, true, true), (false, false));
    assert_eq!(empty_line_mark(false, true, false), (false, true));
}

#[test]
fn equations_are_broken_into_rows() {
    let objects = [(0, 0u8, 0), (1, 0u8, 1), (4, 0u8, 2)];
    let one_row = ObjectRows {
        row_of: None,
        extra_rows: 0,
    };
    assert_eq!(line_object_rows(&one_row, &objects, 1, Some(4)), vec![(1, 0)]);
    assert_eq!(line_object_rows(&one_row, &objects, 1, None), vec![(1, 0), (2, 0)]);
    let rows = ObjectRows {
        row_of: Some(vec![Some(0), Some(7), None]),
        extra_rows: 2,
    };
    assert_eq!(line_object_rows(&rows, &objects, 9, Some(9)), vec![(0, 0), (1, 2)]);
    assert!(equations_follow_alignment(true, 5));
    assert!(equations_follow_alignment(false, 0));
    assert!(!equations_follow_alignment(false, 5));
    assert_eq!(marker_row(&[true, false, true, false]), 2);
    assert_eq!(marker_row(&[false, false]), 0);
    assert_eq!(marker_row(&[]), 0);
}

#[test]
fn a_small_result_moves_away_from_the_next_endnote() {
    let facts = EndnoteTailFacts {
        in_cell: false,
        zero_spacing: true,
        is_endnote: true,
        has_successor: false,
        is_last_line: true,
        near_bottom: true,
    };
    let equation = |height| {
        let mut e = Equation::default();
        e.common.treat_as_char = true;
        e.common.height = height;
        para(vec![Control::Equation(Box::new(e))])
    };
    let moves = |facts, p: &Paragraph, rows| {
        endnote_result_moves_up(facts, &line("", 0), Some(p), &[(0, 0u8, 0)], rows)
    };
    assert!(moves(facts, &equation(1200), 0));
    assert!(!moves(facts, &equation(1201), 0));
    assert!(!moves(facts, &equation(1200), 1));
    let followed = EndnoteTailFacts {
        has_successor: true,
        ..facts
    };
    assert!(!moves(followed, &equation(1200), 0));
    assert!(!endnote_result_moves_up(facts, &line("a", 0), Some(&equation(9)), &[(0, 0u8, 0)], 0));
}

#[test]
fn an_uncomposed_paragraph_shows_its_text_on_one_line() {
    let raw = |stored, shows_text, is_para_end| RawLine { stored, shows_text, is_para_end };
    let mut p = Paragraph {
        text: "abc".to_string(),
        line_segs: vec![LineSeg::default(); 3],
        ..Default::default()
    };
    assert_eq!(
        raw_paragraph_lines(&p, 1, 9),
        vec![raw(Some(1), true, false), raw(Some(2), false, false)]
    );
    assert_eq!(raw_paragraph_lines(&p, 2, 3), vec![raw(Some(2), true, true)]);
    assert!(raw_paragraph_lines(&p, 3, 3).is_empty());
    p.line_segs.clear();
    assert_eq!(raw_paragraph_lines(&p, 1, 9), vec![raw(None, true, true)]);
    p.text.clear();
    assert_eq!(raw_paragraph_lines(&p, 0, 0), vec![raw(None, false, false)]);
}

#[test]
fn a_planned_box_holds_its_part_of_the_text() {
    let chars: Vec<char> = "가나다".chars().collect();
    assert_eq!(plan_text(&chars, 1, 3), ("나다".to_string(), true));
    assert_eq!(plan_text(&chars, 0, 1), ("가".to_string(), false));
    assert_eq!(plan_text(&chars, 2, 2), (String::new(), false));
}
