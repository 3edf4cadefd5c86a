use paragraph_layout::composed::{ComposedLine, ComposedParagraph, ComposedTextRun};
use paragraph_layout::model::{Control, LineSeg, Paragraph};
use paragraph_layout::vertical::{
    bounded_vertical_eligible, clusters_are_chars, commit_bounded_vertical_hwp5_table_cell,
    is_upright_text, shaped_node_count, shaped_node_id, vertical_glyph, vertical_text,
    vertical_turn, VerticalStyleFacts, VerticalTurn,
};

fn comp(lines: &[&[&str]]) -> ComposedParagraph {
    ComposedParagraph {
        para_style_id: 3,
        lines: lines
            .iter()
            .map(|runs| ComposedLine {
                runs: runs
                    .iter()
                    .map(|text| ComposedTextRun {
                        text: text.to_string(),
                        char_style_id: 5,
                        ..Default::default()
                    })
                    .collect(),
                ..Default::default()
            })
            .collect(),
        ..Default::default()
    }
}

fn para(segs: &[(i32, i32)]) -> Paragraph {
    Paragraph {
        line_segs: segs
            .iter()
            .map(|&(line_height, line_spacing)| LineSeg {
                line_height,
                line_spacing,
                ..Default::default()
            })
            .collect(),
        ..Default::default()
    }
}

#[test]
fn every_line_is_a_column() {
    let comps = [comp(&[&["가", "나\n"], &["다"]]), comp(&[]), comp(&[&["\r\n"]])];
    let paras = [para(&[(1000, 200)]), para(&[(700, 70)])];
    let text = vertical_text(&comps, &paras);
    let drawn: String = text.chars.iter().map(|c| c.ch).collect();
    assert_eq!(drawn, "가나다");
    let places: Vec<(usize, usize, bool)> = text
        .chars
        .iter()
        .map(|c| (c.cell_para_index, c.char_offset, c.is_para_end))
        .collect();
    assert_eq!(places, vec![(0, 0, false), (0, 1, false), (0, 3, true)]);
    let columns: Vec<(usize, usize, Option<(i32, i32)>)> =
        text.columns.iter().map(|c| (c.start, c.end, c.stored)).collect();
    assert_eq!(
        columns,
        vec![
            (0, 2, Some((1000, 200))),
            (2, 3, None),
            (3, 3, Some((700, 70))),
            (3, 3, None),
        ]
    );
    assert!(text.columns.iter().all(|c| c.para_style_id == 3));
}

#[test]
fn columns_hold_every_character_in_order() {
    let comps = [comp(&[&["ab\n", "c"], &[], &["d\r"]]), comp(&[&["e"]])];
    let text = vertical_text(&comps, &[]);
    let mut at = 0;
    for column in &text.columns {
        assert_eq!(column.start, at);
        at = column.end;
    }
    assert_eq!(at, text.chars.len());
    let ends: Vec<bool> = text.chars.iter().map(|c| c.is_para_end).collect();
    assert_eq!(ends, vec![false, false, false, true, true]);
}

#[test]
fn letters_lie_where_the_direction_says_so() {
    let turn = |needs_rotation, half_advance| VerticalTurn { needs_rotation, half_advance };
    assert_eq!(vertical_turn('가', false, true, 1), turn(false, false));
    assert_eq!(vertical_turn('A', false, false, 1), turn(true, true));
    assert_eq!(vertical_turn('A', false, false, 2), turn(false, false));
    assert_eq!(vertical_turn('9', false, false, 2), turn(false, false));
    assert_eq!(vertical_turn(',', false, false, 2), turn(false, true));
    assert_eq!(vertical_turn('(', true, true, 2), turn(true, true));
    assert_eq!(vertical_glyph('(', true, Some('︵')), ('︵', false));
    assert_eq!(vertical_glyph('(', true, None), ('(', true));
    assert_eq!(vertical_glyph('a', false, Some('b')), ('a', false));
}

#[test]
fn hangul_and_chinese_characters_are_upright() {
    assert!(is_upright_text("한글漢字"));
    assert!(is_upright_text(""));
    assert!(!is_upright_text("한글 "));
    assert!(!is_upright_text("漢a"));
    for (low, high) in [
        (0x1100, 0x11ff),
        (0x3130, 0x318f),
        (0x3400, 0x4dbf),
        (0x4e00, 0x9fff),
        (0xac00, 0xd7af),
        (0xf900, 0xfaff),
    ] {
        for (code, expected) in [(low - 1, false), (low, true), (high, true), (high + 1, false)] {
            let text = char::from_u32(code).unwrap().to_string();
            assert_eq!(is_upright_text(&text), expected, "U+{:04X}", code);
        }
    }
}

#[test]
fn one_run_of_upright_letters_may_be_shaped() {
    let comps = [comp(&[&["한글"]])];
    let mut paras = [para(&[(1000, 0)])];
    let text = vertical_text(&comps, &paras);
    let plain = Some(VerticalStyleFacts::default());
    assert!(bounded_vertical_eligible(true, 2, 1, &paras, &comps, &text, plain));
    assert!(!bounded_vertical_eligible(false, 2, 1, &paras, &comps, &text, plain));
    assert!(!bounded_vertical_eligible(true, 1, 1, &paras, &comps, &text, plain));
    assert!(!bounded_vertical_eligible(true, 2, 2, &paras, &comps, &text, plain));
    assert!(!bounded_vertical_eligible(true, 2, 1, &paras, &comps, &text, None));
    let bold = VerticalStyleFacts {
        bold: true,
        ..Default::default()
    };
    assert!(!bounded_vertical_eligible(true, 2, 1, &paras, &comps, &text, Some(bold)));
    let stretched = VerticalStyleFacts {
        has_ratio: true,
        ..Default::default()
    };
    assert!(!bounded_vertical_eligible(true, 2, 1, &paras, &comps, &text, Some(stretched)));
    let latin = [comp(&[&["한a"]])];
    let latin_text = vertical_text(&latin, &paras);
    assert!(!bounded_vertical_eligible(true, 2, 1, &paras, &latin, &latin_text, plain));
    let broken = [comp(&[&["한\n"]])];
    let broken_text = vertical_text(&broken, &paras);
    assert!(!bounded_vertical_eligible(true, 2, 1, &paras, &broken, &broken_text, plain));
    paras[0].controls = vec![Control::Other];
    assert!(!bounded_vertical_eligible(true, 2, 1, &paras, &comps, &text, plain));
}

#[test]
fn clusters_cover_the_bytes_of_their_characters() {
    let text = "aé한\u{10000}";
    let ranges: Vec<(usize, usize)> =
        text.char_indices().map(|(i, c)| (i, i + c.len_utf8())).collect();
    assert_eq!(ranges, vec![(0, 1), (1, 3), (3, 6), (6, 10)]);
    assert!(clusters_are_chars(&ranges, text));
    assert!(!clusters_are_chars(&ranges[..3], text));
    assert!(!clusters_are_chars(&[(0, 1), (1, 3), (3, 6), (6, 9)], text));
    assert!(!clusters_are_chars(&[(0, 3), (0, 3), (3, 6), (6, 10)], text));
    assert!(clusters_are_chars(&[], ""));
}

#[test]
fn nodes_are_numbered_behind_their_line() {
    assert_eq!(shaped_node_count(3), Some(4));
    assert_eq!(shaped_node_count(u32::MAX as usize), None);
    assert_eq!(shaped_node_count(u32::MAX as usize - 1), Some(u32::MAX));
    assert_eq!(shaped_node_id(10, 0), Some(11));
    assert_eq!(shaped_node_id(u32::MAX, 0), None);
    assert_eq!(shaped_node_id(0, u32::MAX as usize), None);
}

#[test]
fn a_refused_line_leaves_the_cell_as_it_was() {
    let mut children = vec!["a"];
    assert_eq!(
        commit_bounded_vertical_hwp5_table_cell(&mut children, "b", Err("full")),
        Err("full")
    );
    assert_eq!(children, vec!["a"]);
    let accepted: Result<(), &str> = Ok(());
    assert_eq!(commit_bounded_vertical_hwp5_table_cell(&mut children, "b", accepted), Ok(()));
    assert_eq!(children, vec!["a", "b"]);
}
