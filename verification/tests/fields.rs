use paragraph_layout::cells::{CellContext, CellPathEntry};
use paragraph_layout::composed::ComposedTextRun;
use paragraph_layout::fields::{
    guide_limit, guide_owns_line, is_active_field, line_marks, place_interval,
    split_guide_text_to_width, ActiveField, FieldMarker, GuideLimit, MarkedLine,
};
use paragraph_layout::model::{Alignment, Bookmark, Control, Field, FieldRange, Paragraph};

fn range(start: usize, end: usize, control: usize) -> FieldRange {
    FieldRange {
        start_char_idx: start,
        end_char_idx: end,
        control_idx: control,
    }
}

fn click_here(guide: Option<&str>) -> Control {
    Control::Field(Field {
        is_click_here: true,
        field_id: 1,
        guide_text: guide.map(|g| g.to_string()),
    })
}

fn line(start: usize, end: usize, next_starts_at_end: bool, shows_codes: bool) -> MarkedLine {
    MarkedLine {
        char_start: start,
        char_end: end,
        next_starts_at_end,
        shows_codes,
    }
}

#[test]
fn an_empty_field_shows_its_prompt() {
    let para = Paragraph {
        controls: vec![click_here(Some("name")), Control::Field(Field::default())],
        field_ranges: vec![range(2, 2, 0), range(2, 2, 1), range(2, 2, 9)],
        ..Default::default()
    };
    let quiet = line(0, 5, false, false);
    assert_eq!(
        line_marks(&para, &[false, false, false], &[], quiet),
        vec![FieldMarker::Anchor(0), FieldMarker::Guide(0)]
    );
    assert_eq!(
        line_marks(&para, &[true, false, false], &[], quiet),
        vec![FieldMarker::Anchor(0)]
    );
    assert_eq!(
        line_marks(&para, &[false, false, false], &[], line(0, 5, false, true)),
        vec![
            FieldMarker::Begin(0),
            FieldMarker::Anchor(0),
            FieldMarker::Guide(0),
            FieldMarker::End(0),
        ]
    );
}

#[test]
fn a_filled_field_shows_its_ends_on_their_lines() {
    let para = Paragraph {
        controls: vec![click_here(None)],
        field_ranges: vec![range(2, 7, 0)],
        ..Default::default()
    };
    assert_eq!(
        line_marks(&para, &[false], &[], line(0, 5, true, true)),
        vec![FieldMarker::Begin(0)]
    );
    assert_eq!(
        line_marks(&para, &[false], &[], line(5, 9, false, true)),
        vec![FieldMarker::End(0)]
    );
    assert!(line_marks(&para, &[false], &[], line(0, 9, false, false)).is_empty());
}

#[test]
fn a_field_at_the_end_of_a_line_belongs_to_the_next() {
    let para = Paragraph {
        controls: vec![click_here(Some("x"))],
        field_ranges: vec![range(5, 5, 0)],
        ..Default::default()
    };
    assert!(line_marks(&para, &[false], &[], line(0, 5, true, false)).is_empty());
    assert_eq!(line_marks(&para, &[false], &[], line(5, 9, false, false)).len(), 2);
    assert_eq!(line_marks(&para, &[false], &[], line(0, 5, false, false)).len(), 2);
}

#[test]
fn bookmarks_follow_the_fields() {
    let para = Paragraph {
        controls: vec![
            Control::Bookmark(Bookmark::default()),
            click_here(None),
            Control::Bookmark(Bookmark::default()),
        ],
        field_ranges: vec![range(3, 3, 1)],
        ..Default::default()
    };
    assert_eq!(
        line_marks(&para, &[false], &[4, 3], line(3, 4, false, true)),
        vec![
            FieldMarker::Begin(0),
            FieldMarker::Anchor(0),
            FieldMarker::End(0),
            FieldMarker::Bookmark(0),
        ]
    );
    assert_eq!(
        line_marks(&para, &[false], &[4, 3], line(0, 2, false, true)),
        vec![FieldMarker::Bookmark(2)]
    );
}

#[test]
fn the_active_field_is_found_by_its_cells() {
    let active = |cell_path| ActiveField {
        section_index: 1,
        para_index: 2,
        control_index: 3,
        cell_path,
    };
    let context = CellContext {
        path: vec![CellPathEntry {
            control_index: 4,
            cell_index: 5,
            cell_para_index: 6,
            text_direction: 0,
        }],
        ..Default::default()
    };
    let body = active(None);
    assert!(is_active_field(Some(&body), 1, 2, 3, None));
    assert!(!is_active_field(Some(&body), 1, 2, 4, None));
    assert!(!is_active_field(Some(&body), 1, 2, 3, Some(&context)));
    assert!(!is_active_field(None, 1, 2, 3, None));
    let cell = active(Some(vec![(4, 5, 99)]));
    assert!(is_active_field(Some(&cell), 1, 2, 3, Some(&context)));
    assert!(!is_active_field(Some(&cell), 1, 2, 3, None));
    let other = active(Some(vec![(4, 6, 6)]));
    assert!(!is_active_field(Some(&other), 1, 2, 3, Some(&context)));
    let deeper = active(Some(vec![(4, 5, 6), (0, 0, 0)]));
    assert!(!is_active_field(Some(&deeper), 1, 2, 3, Some(&context)));
}

#[test]
fn a_place_lies_between_its_neighbours() {
    let places = [(0, 1.0), (3, 2.0), (3, 4.0), (8, 5.0)];
    assert_eq!(place_interval(&places, 0), Some(0));
    assert_eq!(place_interval(&places, 3), Some(0));
    assert_eq!(place_interval(&places, 5), Some(2));
    assert_eq!(place_interval(&places, 9), None);
    assert_eq!(place_interval(&places[..1], 0), None);
    assert_eq!(place_interval::<f64>(&[], 0), None);
}

#[test]
fn a_prompt_alone_on_its_line_follows_the_alignment() {
    let run = |text: &str| ComposedTextRun {
        text: text.to_string(),
        ..Default::default()
    };
    assert!(guide_owns_line(&[run(" ")], true, Some(Alignment::Center)));
    assert!(guide_owns_line(&[], true, Some(Alignment::Right)));
    assert!(!guide_owns_line(&[], true, Some(Alignment::Left)));
    assert!(!guide_owns_line(&[], true, None));
    assert!(!guide_owns_line(&[], false, Some(Alignment::Right)));
    assert!(!guide_owns_line(&[run("a")], true, Some(Alignment::Right)));
    assert_eq!(guide_limit(true, true, true, true), GuideLimit::Line);
    assert_eq!(guide_limit(false, false, true, true), GuideLimit::Body);
    assert_eq!(guide_limit(false, true, true, true), GuideLimit::LineRest);
    assert_eq!(guide_limit(false, true, true, false), GuideLimit::Open);
}

#[test]
fn a_prompt_is_cut_where_it_gets_too_wide() {
    let wider_than = |limit: usize| move |a: usize, b: usize| b - a > limit;
    assert_eq!(split_guide_text_to_width(10, false, wider_than(3)), vec![10]);
    assert_eq!(split_guide_text_to_width(10, true, wider_than(10)), vec![10]);
    assert_eq!(split_guide_text_to_width(10, true, wider_than(3)), vec![3, 6, 9, 10]);
    assert_eq!(split_guide_text_to_width(8, true, wider_than(3)), vec![3, 6, 8]);
    assert_eq!(split_guide_text_to_width(4, true, wider_than(2)), vec![2, 4]);
    assert_eq!(split_guide_text_to_width(3, true, wider_than(0)), vec![1, 2, 3]);
    assert_eq!(split_guide_text_to_width(1, true, wider_than(0)), vec![1]);
    assert_eq!(split_guide_text_to_width(0, true, wider_than(3)), vec![0]);
}

#[test]
fn a_very_long_prompt_ends_in_one_long_piece() {
    let ends = split_guide_text_to_width(200, true, |a: usize, b: usize| b - a > 1);
    assert_eq!(ends.len(), 66);
    assert_eq!(ends[64], 65);
    assert_eq!(ends[65], 200);
    let ends = split_guide_text_to_width(65, true, |a: usize, b: usize| b - a > 1);
    assert_eq!(ends.len(), 66);
    assert_eq!((ends[64], ends[65]), (65, 65));
    let ends = split_guide_text_to_width(64, true, |a: usize, b: usize| b - a > 1);
    assert_eq!(ends.len(), 64);
}
