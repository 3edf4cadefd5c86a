use paragraph_layout::composed::{ComposedLine, ComposedParagraph, ComposedTextRun};
use paragraph_layout::labels::{collect_shape_marker_labels, control_label, form_color_to_css};
use paragraph_layout::model::{
    AutoNumber, Bookmark, CharShapeRef, Control, HeaderFooterApply, LineSeg, Note, Paragraph,
    Picture, ShapeObject, Table, TextWrap,
};
use paragraph_layout::notes::{
    apply_auto_numbers_to_composed, decorated_auto_number, find_double_space,
    format_note_marker_text, insert_number, leading_endnote_text, note_decoration_char,
    note_format_of_control, note_marker_text_from_control, note_number_format_from_hwp_code,
    NumberFormat,
};
use paragraph_layout::numbering::{
    active_char_shape, apply_paragraph_numbering, bullet_head_text, char_shape_at, head_source,
    is_empty_without_stored_line, is_plain_text_without_stored_lines, number_head_text,
    numbering_level, with_head, Bullet, HeadSource, HeadType, NumberParts,
};

#[test]
fn numbers_of_notes_have_a_format() {
    assert_eq!(note_number_format_from_hwp_code(0), NumberFormat::Digit);
    assert_eq!(note_number_format_from_hwp_code(1), NumberFormat::CircledDigit);
    assert_eq!(note_number_format_from_hwp_code(2), NumberFormat::RomanUpper);
    assert_eq!(note_number_format_from_hwp_code(3), NumberFormat::RomanLower);
    assert_eq!(note_number_format_from_hwp_code(4), NumberFormat::LatinUpper);
    assert_eq!(note_number_format_from_hwp_code(5), NumberFormat::LatinLower);
    assert_eq!(note_number_format_from_hwp_code(8), NumberFormat::HangulGaNaDa);
    assert_eq!(note_number_format_from_hwp_code(12), NumberFormat::HangulNumber);
    assert_eq!(note_number_format_from_hwp_code(13), NumberFormat::HanjaNumber);
    assert_eq!(note_number_format_from_hwp_code(99), NumberFormat::Digit);
}

#[test]
fn marks_of_notes_are_decorated() {
    assert_eq!(note_decoration_char(0), None);
    assert_eq!(note_decoration_char(')' as u16), Some(')'));
    assert_eq!(note_decoration_char(0xD800), None);
    assert_eq!(format_note_marker_text("7", '(' as u16, ')' as u16), "(7)");
    assert_eq!(format_note_marker_text("7", 0, ')' as u16), "7)");
    let note = Control::Endnote(Note {
        number: 7,
        number_shape: 0x102,
        before_decoration_letter: '문' as u16,
        after_decoration_letter: ')' as u16,
    });
    assert_eq!(note_format_of_control(Some(&note)), NumberFormat::RomanUpper);
    assert_eq!(note_marker_text_from_control(Some(&note), "VII"), "문VII)");
    assert_eq!(leading_endnote_text(Some(&note), "VII"), "문VII) ");
    assert_eq!(note_format_of_control(None), NumberFormat::Digit);
    assert_eq!(
        note_marker_text_from_control(None, "3"),
        note_marker_text_from_control(Some(&Control::Other), "3")
    );
}

#[test]
fn a_counted_number_takes_the_place_of_two_spaces() {
    let number = AutoNumber {
        number_text: "12".to_string(),
        prefix_char: '[',
        suffix_char: '\0',
    };
    assert_eq!(decorated_auto_number(&number), "[12");
    let chars: Vec<char> = "a b  c  ".chars().collect();
    assert_eq!(find_double_space(&chars), Some(3));
    assert_eq!(find_double_space(&chars[..4]), None);
    assert_eq!(insert_number("표  제목", "12"), Some("표 12 제목".to_string()));
    assert_eq!(insert_number("표 제목", "12"), None);
    let run = |text: &str| ComposedTextRun {
        text: text.to_string(),
        ..Default::default()
    };
    let mut composed = ComposedParagraph {
        lines: vec![
            ComposedLine {
                runs: vec![run("a b"), run("c  d")],
                ..Default::default()
            },
            ComposedLine {
                runs: vec![run("e  f")],
                ..Default::default()
            },
        ],
        ..Default::default()
    };
    let none = Paragraph::default();
    apply_auto_numbers_to_composed(&mut composed, &none);
    assert_eq!(composed.lines[0].runs[1].text, "c  d");
    let para = Paragraph {
        controls: vec![
            Control::Other,
            Control::AutoNumber(number),
            Control::AutoNumber(AutoNumber::default()),
        ],
        ..Default::default()
    };
    apply_auto_numbers_to_composed(&mut composed, &para);
    assert_eq!(composed.lines[0].runs[0].text, "a b");
    assert_eq!(composed.lines[0].runs[1].text, "c [12 d");
    assert_eq!(composed.lines[1].runs[0].text, "e  f");
}

#[test]
fn controls_have_labels() {
    let label = |control| control_label(&control);
    let shape = ShapeObject {
        name: "사각형".to_string(),
        ..Default::default()
    };
    assert_eq!(label(Control::Shape(Box::new(shape))), Some("[사각형]".to_string()));
    assert_eq!(label(Control::Picture(Box::default())), Some("[그림]".to_string()));
    assert_eq!(label(Control::Table(Box::default())), None);
    let mut table = Table::default();
    table.common.treat_as_char = true;
    assert_eq!(label(Control::Table(Box::new(table))), Some("[표]".to_string()));
    assert_eq!(label(Control::PageHide), Some("[감추기]".to_string()));
    assert_eq!(label(Control::PageNumberPos), Some("[쪽 번호 위치]".to_string()));
    assert_eq!(
        label(Control::Header(HeaderFooterApply::Both)),
        Some("[머리말(양 쪽)]".to_string())
    );
    assert_eq!(
        label(Control::Footer(HeaderFooterApply::Odd)),
        Some("[꼬리말(홀수 쪽)]".to_string())
    );
    assert_eq!(
        label(Control::Footer(HeaderFooterApply::Even)),
        Some("[꼬리말(짝수 쪽)]".to_string())
    );
    assert_eq!(label(Control::Footnote(Note::default())), Some("[각주]".to_string()));
    assert_eq!(label(Control::Endnote(Note::default())), Some("[미주]".to_string()));
    assert_eq!(label(Control::NewNumber), Some("[새 번호]".to_string()));
    let bookmark = Bookmark {
        name: "서론".to_string(),
    };
    assert_eq!(label(Control::Bookmark(bookmark)), Some("[책갈피:서론]".to_string()));
    assert_eq!(label(Control::Other), None);
    let controls = [Control::Other, Control::NewNumber, Control::PageHide];
    assert_eq!(
        collect_shape_marker_labels(true, &controls, &[5, 6]),
        vec![(6, "[새 번호]".to_string()), (0, "[감추기]".to_string())]
    );
    assert!(collect_shape_marker_labels(false, &controls, &[5, 6]).is_empty());
}

#[test]
fn form_colours_are_written_red_first() {
    assert_eq!(form_color_to_css(0x00C0_FF01), "#01ffc0");
    assert_eq!(form_color_to_css(0xFF00_0000), "#000000");
    assert_eq!(form_color_to_css(0), "#000000");
    for color in [0x123456u32, 0xABCDEF, 0x00FF00] {
        let expected = format!(
            "#{:02x}{:02x}{:02x}",
            color & 0xFF,
            (color >> 8) & 0xFF,
            (color >> 16) & 0xFF
        );
        assert_eq!(form_color_to_css(color), expected);
    }
}

#[test]
fn heads_of_paragraphs_are_found() {
    assert_eq!(head_source(HeadType::Plain, 1, 5, 1, 5), HeadSource::Nothing);
    assert_eq!(head_source(HeadType::Outline, 0, 5, 1, 5), HeadSource::DefaultOutline);
    assert_eq!(head_source(HeadType::Outline, 5, 5, 1, 5), HeadSource::Numbering(4));
    assert_eq!(head_source(HeadType::Number, 6, 5, 1, 5), HeadSource::Nothing);
    assert_eq!(head_source(HeadType::Number, 2, 5, 1, 5), HeadSource::Numbering(1));
    assert_eq!(head_source(HeadType::Bullet, 2, 5, 3, 5), HeadSource::Bullet(2));
    assert_eq!(head_source(HeadType::Bullet, 2, 5, 0, 5), HeadSource::Nothing);
    assert_eq!(numbering_level(3), 3);
    assert_eq!(numbering_level(9), 6);
    assert_eq!(number_head_text("^1.", "1.", true), Some("1. ".to_string()));
    assert_eq!(number_head_text("^1.", "1.", false), Some("1.".to_string()));
    assert_eq!(number_head_text("", "1.", true), None);
    assert_eq!(number_head_text("^1.", "", true), None);
    assert_eq!(bullet_head_text('\u{F0E8}', true), Some("\u{2794} ".to_string()));
    assert_eq!(bullet_head_text('●', false), Some("●".to_string()));
    assert_eq!(bullet_head_text('\u{FFFF}', false), None);
}

/// A paragraph of one run.
fn one_run(text: &str) -> ComposedParagraph {
    ComposedParagraph {
        lines: vec![ComposedLine {
            runs: vec![ComposedTextRun {
                text: text.to_string(),
                ..Default::default()
            }],
            char_start: 3,
            ..Default::default()
        }],
        para_style_id: 7,
        tac_controls: vec![(1, 500, 2)],
        footnote_positions: vec![(0, 4, 1)],
        tab_extended: vec![[1; 7]],
        ..Default::default()
    }
}

#[test]
fn a_head_changes_nothing_else_of_the_paragraph() {
    let numbered = with_head(one_run("본문"), "1. ".to_string());
    assert_eq!(numbered.numbering_text.as_deref(), Some("1. "));
    let expected = ComposedParagraph {
        numbering_text: Some("1. ".to_string()),
        ..one_run("본문")
    };
    assert_eq!(format!("{:?}", numbered), format!("{:?}", expected));
}

#[test]
fn paragraphs_get_the_number_or_the_bullet_of_their_head() {
    let bullets = [
        Bullet { bullet_char: '\u{F0E8}', text_distance: 50 },
        Bullet { bullet_char: '●', text_distance: 0 },
        Bullet { bullet_char: '\u{FFFF}', text_distance: 50 },
    ];
    let head = |head_type: HeadType, numbering_id: u16, bullet_id: u16, format: &str| {
        apply_paragraph_numbering(
            Some(one_run("본문")),
            head_type,
            numbering_id,
            2,
            bullet_id,
            &bullets,
            |index| NumberParts {
                format: format.to_string(),
                expanded: match index {
                    Some(i) => format!("제{}장", i),
                    None => "1.".to_string(),
                },
                text_distance: 50,
            },
        )
        .map(|numbered| {
            assert_eq!(numbered.lines[0].runs[0].text, "본문");
            numbered.numbering_text
        })
    };
    let some = |text: &str| Some(Some(text.to_string()));
    assert_eq!(head(HeadType::Plain, 1, 1, "^1"), None);
    assert_eq!(head(HeadType::Number, 2, 1, "^1"), some("제1장 "));
    assert_eq!(head(HeadType::Number, 3, 1, "^1"), None);
    assert_eq!(head(HeadType::Number, 2, 1, ""), None);
    assert_eq!(head(HeadType::Outline, 1, 1, "^1"), some("제0장 "));
    assert_eq!(head(HeadType::Outline, 0, 1, "^1"), some("1. "));
    assert_eq!(head(HeadType::Bullet, 1, 1, "^1"), some("\u{2794} "));
    assert_eq!(head(HeadType::Bullet, 1, 2, "^1"), some("●"));
    assert_eq!(head(HeadType::Bullet, 1, 3, "^1"), None);
    assert_eq!(head(HeadType::Bullet, 1, 0, "^1"), None);
    assert_eq!(head(HeadType::Bullet, 1, 4, "^1"), None);
}

#[test]
fn a_number_is_counted_where_no_paragraph_is_composed() {
    let mut counted = 0;
    let numbered =
        apply_paragraph_numbering(None, HeadType::Outline, 1, 1, 0, &[], |_| {
            counted += 1;
            NumberParts::default()
        });
    assert!(numbered.is_none());
    assert_eq!(counted, 1);
}

#[test]
fn the_character_shape_is_that_of_the_place() {
    let shapes = [
        CharShapeRef { start_pos: 2, char_shape_id: 10 },
        CharShapeRef { start_pos: 5, char_shape_id: 20 },
    ];
    assert_eq!(char_shape_at(&shapes, 1), 10);
    assert_eq!(char_shape_at(&shapes, 4), 10);
    assert_eq!(char_shape_at(&shapes, 5), 20);
    assert_eq!(char_shape_at(&[], 5), 0);
    let para = Paragraph {
        char_shapes: shapes.to_vec(),
        ..Default::default()
    };
    assert_eq!(active_char_shape(Some(7), Some(&para)), Some(7));
    assert_eq!(active_char_shape(None, Some(&para)), Some(10));
    assert_eq!(active_char_shape(Some(7), None), None);
}

#[test]
fn paragraphs_without_stored_lines_are_told_apart() {
    let mut para = Paragraph {
        text: " ".to_string(),
        char_count: 1,
        ..Default::default()
    };
    assert!(is_empty_without_stored_line(&para));
    let mut picture = Picture::default();
    picture.common.text_wrap = TextWrap::BehindText;
    para.controls = vec![Control::Picture(Box::new(picture))];
    assert!(is_empty_without_stored_line(&para));
    para.controls = vec![Control::Other];
    assert!(!is_empty_without_stored_line(&para));
    para.controls.clear();
    para.char_count = 0;
    assert!(!is_empty_without_stored_line(&para));
    para.text = "a".to_string();
    assert!(is_plain_text_without_stored_lines(&para));
    assert!(!is_empty_without_stored_line(&para));
    para.line_segs = vec![LineSeg::default()];
    assert!(!is_plain_text_without_stored_lines(&para));
}
