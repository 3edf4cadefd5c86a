use paragraph_layout::inline_table::{
    advance_char, flow_order, flush_before_note, inline_table_line_shift,
    inline_table_stored_line_break_char_indices, inline_table_stored_line_breaks,
    inline_table_stored_line_top_offset, inline_table_wraps, inline_tables, leading_inline_tables,
    note_at_char, preserves_stored_first_visible_break_after_bottom_caption_table,
    stored_line_of_char, table_column_widths, table_line_index, table_seat, text_line_index,
    text_segments, wrap_target, FlowItem, TableSeat, TextCursor, WrapTarget,
};
use paragraph_layout::model::{
    Caption, CaptionDirection, Cell, Control, LineSeg, Paragraph, Picture, Table, TextWrap,
    VertRelTo,
};

fn seg(start: u32, vertical_pos: i32, line_height: i32, line_spacing: i32) -> LineSeg {
    LineSeg {
        text_start: start,
        lifted_start: start,
        vertical_pos,
        line_height,
        text_height: line_height,
        line_spacing,
        segment_width: 10_000,
        ..Default::default()
    }
}

fn inline_table() -> Table {
    let mut table = Table::default();
    table.common.treat_as_char = true;
    table
}

fn captioned_table() -> Table {
    let mut table = inline_table();
    table.caption = Some(Caption {
        direction: CaptionDirection::Bottom,
        spacing: 0,
        paragraphs: 1,
    });
    table
}

/// A table with a caption before the text, which starts on the second stored line.
fn captioned_para() -> Paragraph {
    Paragraph {
        text: "abc".to_string(),
        char_offsets: vec![8, 9, 10],
        line_segs: vec![seg(0, 0, 5000, 0), seg(8, 5000, 1000, 0)],
        controls: vec![Control::Table(Box::new(captioned_table()))],
        control_positions: vec![0],
        ..Default::default()
    }
}

#[test]
fn a_break_before_the_text_needs_a_captioned_table() {
    let para = captioned_para();
    assert!(preserves_stored_first_visible_break_after_bottom_caption_table(&para, true));
    assert!(!preserves_stored_first_visible_break_after_bottom_caption_table(&para, false));
    assert_eq!(inline_table_stored_line_breaks(&para, true), vec![(0, 1)]);
    assert_eq!(inline_table_stored_line_breaks(&para, false), vec![]);

    let mut plain = captioned_para();
    plain.controls = vec![Control::Table(Box::new(inline_table()))];
    assert!(!preserves_stored_first_visible_break_after_bottom_caption_table(&plain, true));

    let mut second = captioned_para();
    second.controls.push(Control::Other);
    second.control_positions.push(0);
    assert!(!preserves_stored_first_visible_break_after_bottom_caption_table(&second, true));
}

#[test]
fn stored_lines_break_at_ever_later_characters() {
    let para = Paragraph {
        text: "abcdef".to_string(),
        char_offsets: vec![0, 1, 2, 10, 11, 12],
        line_segs: vec![
            seg(0, 0, 1000, 0),
            seg(2, 1000, 1000, 0),
            seg(2, 2000, 1000, 0),
            seg(9, 3000, 1000, 0),
            seg(90, 4000, 1000, 0),
        ],
        ..Default::default()
    };
    assert_eq!(inline_table_stored_line_breaks(&para, false), vec![(2, 1), (3, 3), (6, 4)]);
    assert_eq!(inline_table_stored_line_break_char_indices(&para, false), vec![2, 3, 6]);
}

#[test]
fn one_stored_line_breaks_nothing() {
    let para = Paragraph {
        text: "ab".to_string(),
        char_offsets: vec![0, 1],
        line_segs: vec![seg(0, 0, 1000, 0)],
        ..Default::default()
    };
    assert!(inline_table_stored_line_breaks(&para, true).is_empty());
}

#[test]
fn the_stored_distance_of_a_line_is_its_own_advance() {
    let mut para = Paragraph {
        line_segs: vec![seg(0, 24112, 1778, 976), seg(5, 26866, 1500, 976)],
        ..Default::default()
    };
    assert_eq!(inline_table_stored_line_top_offset(&para, 1), Some(2754));
    assert_eq!(inline_table_stored_line_top_offset(&para, 0), None);
    assert_eq!(inline_table_stored_line_top_offset(&para, 2), None);
    para.line_segs[1].vertical_pos = 24112 + 54302;
    assert_eq!(inline_table_stored_line_top_offset(&para, 1), None);
    para.line_segs[1].vertical_pos = 24112 + 2754 + 688;
    assert_eq!(inline_table_stored_line_top_offset(&para, 1), Some(3442));
    para.line_segs[1].vertical_pos = 24112 + 2754 + 689;
    assert_eq!(inline_table_stored_line_top_offset(&para, 1), None);
    para.line_segs[1].vertical_pos = 24112;
    assert_eq!(inline_table_stored_line_top_offset(&para, 1), None);
    para.line_segs[1].vertical_pos = 26866;
    para.line_segs[0].implementation_property = true;
    assert_eq!(inline_table_stored_line_top_offset(&para, 1), None);
}

#[test]
fn tables_before_the_text_come_before_its_segments() {
    let para = Paragraph {
        text: "   ".to_string(),
        char_offsets: vec![24, 25, 26],
        controls: vec![
            Control::Other,
            Control::Other,
            Control::Table(Box::new(inline_table())),
            Control::Table(Box::new(inline_table())),
            Control::Table(Box::default()),
        ],
        control_positions: vec![0, 0, 0, 3, 0],
        ..Default::default()
    };
    let tables = inline_tables(&para);
    assert_eq!(tables, vec![2, 3]);
    let leading = leading_inline_tables(&para, &tables);
    assert_eq!(leading, 1);
    let chars: Vec<char> = para.text.chars().collect();
    let segments = text_segments(&chars, &para.char_offsets, leading);
    assert_eq!(segments, vec![(0, 0), (0, 3)]);
    assert_eq!(
        flow_order(segments.len(), tables.len()),
        vec![
            FlowItem::Segment(0),
            FlowItem::Table { index: 0, trailing: false },
            FlowItem::Segment(1),
            FlowItem::Table { index: 1, trailing: false },
        ]
    );
}

#[test]
fn tables_without_a_segment_of_their_own_follow_all_text() {
    assert_eq!(
        flow_order(1, 3),
        vec![
            FlowItem::Segment(0),
            FlowItem::Table { index: 0, trailing: false },
            FlowItem::Table { index: 1, trailing: true },
            FlowItem::Table { index: 2, trailing: true },
        ]
    );
    assert_eq!(flow_order(2, 0), vec![FlowItem::Segment(0), FlowItem::Segment(1)]);
}

#[test]
fn the_text_is_cut_where_a_control_stands() {
    let chars: Vec<char> = "a\u{10000}bc".chars().collect();
    assert_eq!(text_segments(&chars, &[0, 1, 3, 12], 0), vec![(0, 3), (3, 4)]);
    assert_eq!(text_segments(&chars, &[0, 9, 11, 12], 0), vec![(0, 1), (1, 4)]);
    assert_eq!(text_segments(&chars, &[0, 1, 8, 9], 0), vec![(0, 2), (2, 4)]);
    assert_eq!(text_segments(&chars, &[0, 1, 7, 8], 0), vec![(0, 4)]);
    assert_eq!(text_segments(&[], &[], 2), vec![(0, 0), (0, 0), (0, 0)]);
    let held: String = text_segments(&chars, &[0, 9, 11, 20], 1)
        .iter()
        .flat_map(|&(s, e)| chars[s..e].iter())
        .collect();
    assert_eq!(held, "a\u{10000}bc");
}

#[test]
fn a_column_is_as_wide_as_its_widest_cell_of_one_column() {
    let cell = |col: u16, col_span: u16, width: u32| Cell {
        col,
        col_span,
        width,
        ..Default::default()
    };
    let table = Table {
        col_count: 3,
        cells: vec![cell(0, 1, 100), cell(0, 0, 250), cell(1, 2, 900), cell(7, 1, 50)],
        ..Default::default()
    };
    assert_eq!(table_column_widths(&table), vec![250, 0, 0]);
}

#[test]
fn the_line_of_the_tables_is_the_one_that_holds_them() {
    let para = Paragraph {
        line_segs: vec![seg(0, 0, 1300, 0), seg(5, 1300, 67616, 0)],
        ..Default::default()
    };
    assert_eq!(table_line_index(&para, Some(60000)), 1);
    assert_eq!(table_line_index(&para, Some(70000)), 0);
    assert_eq!(table_line_index(&para, None), 0);
    assert_eq!(text_line_index(2, 1), Some(0));
    assert_eq!(text_line_index(2, 0), Some(1));
    assert_eq!(text_line_index(1, 0), None);
    assert_eq!(text_line_index(0, 0), None);
}

#[test]
fn a_character_stands_on_the_last_line_that_starts_before_it() {
    let para = Paragraph {
        text: "abc".to_string(),
        char_offsets: vec![0, 9, 11],
        line_segs: vec![seg(0, 0, 1, 0), seg(9, 1, 1, 0), seg(11, 2, 1, 0)],
        ..Default::default()
    };
    assert_eq!(stored_line_of_char(&para, 0), Some(0));
    assert_eq!(stored_line_of_char(&para, 1), Some(1));
    assert_eq!(stored_line_of_char(&para, 2), Some(2));
    assert_eq!(stored_line_of_char(&para, 3), None);
}

#[test]
fn tables_with_objects_apart_from_the_text_move_their_line() {
    let mut picture = Picture::default();
    picture.common.text_wrap = TextWrap::TopAndBottom;
    picture.common.vert_rel_to = VertRelTo::Para;
    let with = |picture: Picture| {
        let mut table = inline_table();
        table.cells = vec![Cell {
            paragraphs: vec![
                Paragraph::default(),
                Paragraph {
                    controls: vec![Control::Picture(Box::new(picture))],
                    ..Default::default()
                },
            ],
            ..Default::default()
        }];
        Paragraph {
            line_segs: vec![seg(0, 700, 1000, 0)],
            controls: vec![Control::Table(Box::new(table))],
            ..Default::default()
        }
    };
    assert_eq!(inline_table_line_shift(&with(picture.clone())), 700);
    let mut moving = picture.clone();
    moving.common.flow_with_text = true;
    assert_eq!(inline_table_line_shift(&with(moving)), 0);
    let mut above = with(picture);
    above.line_segs[0].vertical_pos = -5;
    assert_eq!(inline_table_line_shift(&above), 0);
}

/// The runs that a segment is drawn in.
fn draw(
    start: usize,
    end: usize,
    breaks: &[(usize, usize)],
    overflow_at: &[usize],
    change_at: &[usize],
    notes: &[(usize, u16, usize)],
) -> (Vec<(usize, usize)>, Vec<(usize, Option<usize>)>) {
    let mut cursor = TextCursor { run_start: start, next_break: 0 };
    let mut runs = Vec::new();
    let mut wraps = Vec::new();
    for ch in start..end {
        if note_at_char(notes, ch).is_some() {
            runs.extend(flush_before_note(&mut cursor, ch));
        }
        let step = advance_char(
            &mut cursor,
            breaks,
            ch,
            overflow_at.contains(&ch),
            change_at.contains(&ch),
        );
        runs.extend(step.flush);
        if step.wraps {
            wraps.push((ch, step.stored_line));
        }
    }
    if cursor.run_start < end {
        runs.push((cursor.run_start, end));
    }
    (runs, wraps)
}

#[test]
fn stored_breaks_come_before_measured_ones() {
    let (runs, wraps) = draw(0, 10, &[(5, 1)], &[3, 8], &[], &[]);
    assert_eq!(runs, vec![(0, 5), (5, 8), (8, 10)]);
    assert_eq!(wraps, vec![(5, Some(1)), (8, None)]);
}

#[test]
fn a_segment_is_drawn_whole_wherever_it_breaks() {
    for overflow in 0..8 {
        for change in 0..8 {
            for note in 0..8 {
                let notes = [(note, 1, 0)];
                let (runs, _) =
                    draw(2, 8, &[(4, 1), (6, 2)], &[overflow], &[change], &notes);
                let mut at = 2;
                for (start, end) in runs {
                    assert_eq!(start, at);
                    assert!(start < end);
                    at = end;
                }
                assert_eq!(at, 8);
            }
        }
    }
}

#[test]
fn the_text_before_a_note_is_a_run_of_its_own() {
    let (runs, wraps) = draw(0, 9, &[(6, 1)], &[], &[], &[(4, 1, 0), (6, 2, 1)]);
    assert_eq!(runs, vec![(0, 4), (4, 6), (6, 9)]);
    assert_eq!(wraps, vec![(6, Some(1))]);
}

#[test]
fn a_note_ends_the_run_before_it() {
    let notes = [(1, 1, 0), (4, 2, 3), (4, 3, 5)];
    assert_eq!(note_at_char(&notes, 4), Some(1));
    assert_eq!(note_at_char(&notes, 2), None);
    let mut cursor = TextCursor { run_start: 2, next_break: 1 };
    assert_eq!(flush_before_note(&mut cursor, 4), Some((2, 4)));
    assert_eq!(cursor, TextCursor { run_start: 4, next_break: 1 });
    assert_eq!(flush_before_note(&mut cursor, 4), None);
}

#[test]
fn a_new_line_starts_where_the_file_put_it() {
    let para = Paragraph {
        line_segs: vec![seg(0, 0, 1000, 500), seg(5, 1500, 1000, 500)],
        ..Default::default()
    };
    assert_eq!(wrap_target(&para, Some(1), false, true), WrapTarget::Stored(1500));
    assert_eq!(wrap_target(&para, Some(2), false, true), WrapTarget::BelowTables);
    assert_eq!(wrap_target(&para, None, false, true), WrapTarget::BelowTables);
    assert_eq!(wrap_target(&para, None, true, true), WrapTarget::NextLine);
    assert_eq!(wrap_target(&para, None, false, false), WrapTarget::NextLine);
}

#[test]
fn a_table_that_is_its_line_stays_on_it() {
    let mut table = inline_table();
    table.common.height = 6330;
    table.outer_margin_top = 283;
    table.outer_margin_bottom = 283;
    let mut para = Paragraph {
        line_segs: vec![seg(0, 0, 6896, 0)],
        ..Default::default()
    };
    assert!(!inline_table_wraps(&para, &table, Some(5), 9, true, true));
    assert_eq!(table_seat(&para, &table, false, false), TableSeat::TopMargin);
    para.line_segs[0].line_height = 7000;
    assert!(inline_table_wraps(&para, &table, Some(5), 9, true, true));
    assert_eq!(table_seat(&para, &table, false, false), TableSeat::BaseLine);
    assert_eq!(table_seat(&para, &table, true, false), TableSeat::TopMargin);
    assert_eq!(table_seat(&para, &table, true, true), TableSeat::LineTop);
}
