use paragraph_layout::composed::{
    ComposedLine, ComposedParagraph, ComposedTextRun, InlineControl, InlineControlType,
};
use paragraph_layout::line_geometry::{
    authoritative_stored_line_start, empty_tac_guide_has_explicit_shape_height,
    has_mixed_segment_widths, has_tac_shape, hwp5_stored_line_start_eligible, is_last_line_of_para,
    line_has_as_char_object, line_has_inline_tac_table, stored_box_replaces_margins,
    stored_ladder_width, stored_seg_denies_indent, stored_single_line_width,
    tac_stored_band_is_outer_box, wrap_zone, LineGeometryFacts,
};
use paragraph_layout::model::{Alignment, Control, LineSeg, Paragraph, ShapeObject, Table};

fn widths(widths: &[i32]) -> Paragraph {
    Paragraph {
        line_segs: widths
            .iter()
            .map(|&segment_width| LineSeg {
                segment_width,
                ..Default::default()
            })
            .collect(),
        ..Default::default()
    }
}

fn comp(count: usize) -> ComposedParagraph {
    ComposedParagraph {
        lines: vec![ComposedLine::default(); count],
        ..Default::default()
    }
}

#[test]
fn a_line_of_full_width_keeps_the_margins() {
    let mut facts = LineGeometryFacts {
        stored_geometry_source: true,
        has_square_wrap: true,
        segment_width: 10_000,
        column_width: 10_000,
        ..Default::default()
    };
    assert!(!facts.uses_stored_segment_geometry());
    assert_eq!(facts.missing_width(), 0);
    facts.segment_width = 6_000;
    assert!(facts.uses_stored_segment_geometry());
    assert_eq!(facts.missing_width(), 4_000);
    facts.has_square_wrap = false;
    assert!(!facts.uses_stored_segment_geometry());
    facts.has_inline_table = true;
    assert!(facts.uses_stored_segment_geometry());
    facts.inline_table_fills_paragraph = true;
    assert!(!facts.uses_stored_segment_geometry());
    facts.physical_frame_rows = true;
    assert!(facts.uses_stored_segment_geometry());
}

#[test]
fn a_narrow_line_needs_a_reason() {
    let facts = LineGeometryFacts {
        stored_geometry_source: true,
        column_start: 3_000,
        segment_width: 6_000,
        column_width: 10_000,
        ..Default::default()
    };
    assert!(!facts.uses_stored_segment_geometry());
    let empty = LineGeometryFacts {
        empty_paragraph: true,
        ..facts
    };
    assert!(empty.uses_stored_segment_geometry());
    let indented = LineGeometryFacts {
        own_margin: 2_900,
        ..empty
    };
    assert!(indented.cs_is_own_margin());
    assert!(!indented.uses_stored_segment_geometry());
    let cell = LineGeometryFacts {
        in_cell: true,
        cell_has_square_float: true,
        ..facts
    };
    assert!(cell.uses_stored_segment_geometry());
    let no_source = LineGeometryFacts {
        stored_geometry_source: false,
        ..cell
    };
    assert!(!no_source.uses_stored_segment_geometry());
    let foreign = LineGeometryFacts {
        mixed_widths: true,
        in_wrap_zone: true,
        ..facts
    };
    assert!(foreign.uses_stored_segment_geometry());
}

#[test]
fn edges_do_not_overflow() {
    let facts = LineGeometryFacts {
        segment_width: i32::MAX,
        column_start: i32::MAX,
        column_width: i32::MIN,
        ..Default::default()
    };
    assert_eq!(facts.missing_width(), i32::MIN);
}

#[test]
fn widths_are_mixed_when_they_differ_by_far() {
    assert!(has_mixed_segment_widths(Some(&widths(&[5_000, 6_001]))));
    assert!(!has_mixed_segment_widths(Some(&widths(&[5_000, 6_000]))));
    assert!(!has_mixed_segment_widths(Some(&widths(&[0, 6_000]))));
    assert!(!has_mixed_segment_widths(Some(&widths(&[]))));
    assert!(!has_mixed_segment_widths(None));
}

#[test]
fn a_stored_line_start_counts_on_full_lines() {
    let seg = LineSeg {
        column_start: 400,
        segment_width: 9_600,
        ..Default::default()
    };
    assert_eq!(authoritative_stored_line_start(Some(&seg), 10_000, true), Some(400));
    assert_eq!(authoritative_stored_line_start(Some(&seg), 10_000, false), None);
    assert_eq!(authoritative_stored_line_start(Some(&seg), 20_000, true), None);
    assert_eq!(authoritative_stored_line_start(None, 10_000, true), None);
    let synthetic = LineSeg {
        implementation_property: true,
        ..seg
    };
    assert_eq!(authoritative_stored_line_start(Some(&synthetic), 10_000, true), None);
}

#[test]
fn stored_starts_are_for_plain_body_lines() {
    let p = Paragraph::default();
    let eligible = |alignment, in_cell, para| {
        hwp5_stored_line_start_eligible(in_cell, true, alignment, false, false, false, para, true)
    };
    assert!(eligible(Alignment::Justify, false, Some(&p)));
    assert!(eligible(Alignment::Left, false, Some(&p)));
    assert!(!eligible(Alignment::Center, false, Some(&p)));
    assert!(!eligible(Alignment::Left, true, Some(&p)));
    assert!(!eligible(Alignment::Left, false, None));
    let with_control = Paragraph {
        controls: vec![Control::Other],
        ..Default::default()
    };
    assert!(!eligible(Alignment::Left, false, Some(&with_control)));
}

#[test]
fn stored_lines_may_deny_an_indent() {
    let mut p = widths(&[1, 2]);
    assert!(stored_seg_denies_indent(Some(&p), &comp(2), false, 1));
    assert!(!stored_seg_denies_indent(Some(&p), &comp(3), false, 1));
    assert!(!stored_seg_denies_indent(Some(&p), &comp(2), true, 1));
    p.line_segs[1].indentation = true;
    assert!(!stored_seg_denies_indent(Some(&p), &comp(2), false, 1));
    assert!(stored_seg_denies_indent(Some(&p), &comp(2), false, 0));
}

#[test]
fn the_stored_box_replaces_margins_that_it_cannot_hold() {
    assert!(stored_box_replaces_margins(true, false, false, false, false, false, false));
    assert!(stored_box_replaces_margins(false, true, false, false, false, false, true));
    assert!(stored_box_replaces_margins(false, true, false, false, false, true, false));
    assert!(stored_box_replaces_margins(false, true, false, true, true, false, false));
    assert!(!stored_box_replaces_margins(false, true, true, true, true, false, false));
    assert!(!stored_box_replaces_margins(false, false, false, true, true, true, true));
}

#[test]
fn a_line_beside_an_anchor_has_its_zone() {
    let seg = LineSeg {
        column_start: 100,
        segment_width: 500,
        ..Default::default()
    };
    let zone = wrap_zone(Some(&seg), true, 9, 9, 20);
    assert_eq!((zone.start, zone.width, zone.synthetic), (120, Some(480), false));
    let zone = wrap_zone(None, true, 30, 10, 20);
    assert_eq!((zone.start, zone.width, zone.synthetic), (50, Some(0), true));
    let zone = wrap_zone(None, false, 30, 10, 20);
    assert_eq!((zone.start, zone.width, zone.synthetic), (20, None, false));
}

#[test]
fn objects_of_a_line_are_told_apart() {
    let mut table = Table::default();
    table.common.treat_as_char = true;
    let mut tall = ShapeObject::default();
    tall.common.treat_as_char = true;
    tall.flow_height = 900;
    tall.common.height = 900;
    let p = Paragraph {
        controls: vec![Control::Table(Box::new(table)), Control::Shape(Box::new(tall))],
        ..Default::default()
    };
    assert!(line_has_inline_tac_table(Some(&p), &[(0, 0u8, 0)]));
    assert!(!line_has_inline_tac_table(Some(&p), &[(0, 0u8, 1)]));
    assert!(has_tac_shape(Some(&p), &[(0, 0u8, 1)]));
    assert!(!has_tac_shape(Some(&p), &[(0, 0u8, 0)]));
    let empty = ComposedLine::default();
    assert!(!empty_tac_guide_has_explicit_shape_height(Some(&p), &empty, &[(0, 0u8, 0)]));
    let mut c = comp(1);
    c.inline_controls = vec![
        InlineControl { line_index: 0, control_type: InlineControlType::Other },
        InlineControl { line_index: 1, control_type: InlineControlType::Table },
    ];
    assert!(!line_has_as_char_object(&c, 0));
    assert!(line_has_as_char_object(&c, 1));
}

#[test]
fn the_last_line_may_be_followed_by_empty_rows() {
    let c = comp(3);
    let mut p = widths(&[1, 1, 1]);
    assert!(is_last_line_of_para(&c, Some(&p), false, 2, 3));
    assert!(!is_last_line_of_para(&c, Some(&p), false, 1, 3));
    assert!(!is_last_line_of_para(&c, Some(&p), false, 1, 2));
    p.line_segs[2].empty_segment = true;
    assert!(is_last_line_of_para(&c, Some(&p), true, 1, 3));
    assert!(!is_last_line_of_para(&c, Some(&p), true, 0, 3));
}

#[test]
fn stored_widths_of_a_cell_are_testimony() {
    let mut p = widths(&[700]);
    assert_eq!(stored_single_line_width(true, &comp(1), Some(&p)), Some(700));
    assert_eq!(stored_single_line_width(false, &comp(1), Some(&p)), None);
    assert_eq!(stored_single_line_width(true, &comp(2), Some(&p)), None);
    p = widths(&[700, 900, 800]);
    assert_eq!(stored_ladder_width(true, &comp(3), Some(&p)), Some(900));
    assert_eq!(stored_ladder_width(true, &comp(2), Some(&p)), None);
    p.line_segs[2].implementation_property = true;
    assert_eq!(stored_ladder_width(true, &comp(3), Some(&p)), None);
}

#[test]
fn a_band_holds_a_table_with_its_margins() {
    let mut table = Table {
        outer_margin_top: 283,
        outer_margin_bottom: 283,
        ..Default::default()
    };
    table.common.height = 6330;
    let mut p = widths(&[1]);
    for (height, expected) in [(6896, true), (6897, false), (6904, false), (6895, false), (6888, false)] {
        p.line_segs[0].line_height = height;
        assert_eq!(tac_stored_band_is_outer_box(&p, &table), expected);
    }
    p.line_segs[0].line_height = 6896;
    table.outer_margin_top = 0;
    assert!(!tac_stored_band_is_outer_box(&p, &table));
}

#[test]
fn runs_hold_composed_text() {
    let run = ComposedTextRun {
        text: "abc".to_string(),
        display_text: Some("x".to_string()),
        char_overlap: Some(1),
        ..Default::default()
    };
    assert_eq!(run.effective_text(), "x");
    assert_eq!(run.units(), 1);
}
