use paragraph_layout::composed::{ComposedLine, ComposedParagraph, ComposedTextRun};
use paragraph_layout::model::{Alignment, Control, LineSeg, Paragraph};
use paragraph_layout::shaping::{
    horizontal_shaping_initial_lane_preflight, is_plain_style, is_plain_text,
    is_shaping_candidate, kerns_pairs, no_line_seg_surface, trailing_spaces_before, GlyphRise,
    InstanceRequest, NoLineSegSurface, ParaStyleFacts, RunStyleFacts, ShapedLine, ShapedRun,
    ShapingGenerations, ShapingPlace,
};

fn plain_style() -> RunStyleFacts {
    RunStyleFacts {
        size_in_range: true,
        ratio_is_positive: true,
        ratio_condenses: true,
        ..Default::default()
    }
}

fn left_style() -> ParaStyleFacts {
    ParaStyleFacts {
        alignment: Alignment::Left,
        ..Default::default()
    }
}

fn composed(text: &str) -> ComposedParagraph {
    ComposedParagraph {
        lines: vec![ComposedLine {
            runs: vec![ComposedTextRun {
                text: text.to_string(),
                char_style_id: 2,
                lang_index: 1,
                ..Default::default()
            }],
            ..Default::default()
        }],
        ..Default::default()
    }
}

fn para(text: &str) -> Paragraph {
    Paragraph {
        text: text.to_string(),
        ..Default::default()
    }
}

fn shaped(count: usize) -> Vec<ShapedLine> {
    vec![ShapedLine {
        scalar_start: 0,
        scalar_end: count,
        runs: vec![ShapedRun {
            scalar_start: 0,
            scalar_end: count,
            code_point_count: count,
            registry_generation: 7,
            instance_request: None,
            glyphs: vec![GlyphRise::default(); count],
        }],
    }]
}

const GENERATIONS: ShapingGenerations = ShapingGenerations {
    registry: 7,
    instance_request: 9,
};

fn preflight(comp: &ComposedParagraph, para: &Paragraph, lines: &[ShapedLine]) -> bool {
    horizontal_shaping_initial_lane_preflight(
        comp,
        Some(para),
        Some(lines),
        Some(GENERATIONS),
        &plain_style(),
        Some(left_style()),
        0,
        1,
        Alignment::Left,
        0,
    )
}

#[test]
fn a_plain_line_may_be_shaped() {
    assert!(preflight(&composed("가나"), &para("가나"), &shaped(2)));
    assert!(!preflight(&composed("가나"), &para("가다"), &shaped(2)));
    assert!(!preflight(&composed("가나"), &para("가나"), &shaped(3)));
    assert!(!preflight(&composed(""), &para(""), &shaped(0)));
    assert!(!preflight(&composed("가\t"), &para("가\t"), &shaped(2)));
    assert!(!preflight(&composed("가\u{fffc}"), &para("가\u{fffc}"), &shaped(2)));
    assert!(!preflight(&composed("가나"), &para("가나"), &[]));
}

#[test]
fn anything_beside_the_text_forbids_shaping() {
    let mut with_control = para("가나");
    with_control.controls = vec![Control::Other];
    assert!(!preflight(&composed("가나"), &with_control, &shaped(2)));
    let mut with_end = para("가나");
    with_end.orphan_field_ends = vec![0];
    assert!(!preflight(&composed("가나"), &with_end, &shaped(2)));
    let mut numbered = composed("가나");
    numbered.numbering_text = Some("1.".to_string());
    assert!(!preflight(&numbered, &para("가나"), &shaped(2)));
    let mut broken = composed("가나");
    broken.lines[0].has_line_break = true;
    assert!(!preflight(&broken, &para("가나"), &shaped(2)));
    let mut two_lines = composed("가나");
    two_lines.lines.push(ComposedLine::default());
    assert!(!preflight(&two_lines, &para("가나"), &shaped(2)));
}

#[test]
fn shaped_text_must_be_current() {
    let comp = composed("가나");
    let p = para("가나");
    let mut stale = shaped(2);
    stale[0].runs[0].registry_generation = 6;
    assert!(!preflight(&comp, &p, &stale));
    let mut raised = shaped(2);
    raised[0].runs[0].glyphs[1].y_offset = 1;
    assert!(!preflight(&comp, &p, &raised));
    let mut requested = shaped(2);
    requested[0].runs[0].instance_request = Some(InstanceRequest {
        char_style_id: 2,
        lang_index: 1,
        request_generation: 9,
    });
    assert!(!preflight(&comp, &p, &requested));
    let wide = RunStyleFacts {
        ratio_at_most_limit: true,
        ratio_condenses: false,
        ..plain_style()
    };
    let with_wide = |lines: &[ShapedLine]| {
        horizontal_shaping_initial_lane_preflight(
            &comp,
            Some(&p),
            Some(lines),
            Some(GENERATIONS),
            &wide,
            Some(left_style()),
            0,
            1,
            Alignment::Left,
            0,
        )
    };
    assert!(with_wide(&requested));
    requested[0].runs[0].instance_request = Some(InstanceRequest {
        char_style_id: 3,
        lang_index: 1,
        request_generation: 9,
    });
    assert!(!with_wide(&requested));
}

#[test]
fn only_plain_styles_are_shaped() {
    assert!(is_plain_style(&plain_style(), false));
    assert!(!is_plain_style(&plain_style(), true));
    for style in [
        RunStyleFacts { bold: true, ..plain_style() },
        RunStyleFacts { underlined: true, ..plain_style() },
        RunStyleFacts { outline_type: 1, ..plain_style() },
        RunStyleFacts { emphasis_dot: 2, ..plain_style() },
        RunStyleFacts { has_letter_spacing: true, ..plain_style() },
        RunStyleFacts { shaded: true, ..plain_style() },
        RunStyleFacts { size_in_range: false, ..plain_style() },
    ] {
        assert!(!is_plain_style(&style, false));
    }
    assert!(is_plain_text("가 a"));
    assert!(!is_plain_text("a\u{85}"));
}

#[test]
fn the_first_run_of_a_shaped_paragraph_is_the_candidate() {
    let place = ShapingPlace {
        paragraph_may: true,
        ..Default::default()
    };
    assert!(is_shaping_candidate(&place));
    assert!(!is_shaping_candidate(&ShapingPlace { paragraph_may: false, ..place }));
    assert!(!is_shaping_candidate(&ShapingPlace { run_index: 1, ..place }));
    assert!(!is_shaping_candidate(&ShapingPlace { has_extra_spacing: true, ..place }));
    assert!(!is_shaping_candidate(&ShapingPlace { marker_count: 1, ..place }));
}

#[test]
fn paragraphs_without_stored_lines_have_a_surface() {
    let mut p = para("가");
    assert_eq!(no_line_seg_surface(&p, 0, false), None);
    p.no_stored_line_segs = true;
    let surface = NoLineSegSurface {
        frame_interval_count: 1,
        edit_reflow: false,
        stored_prefix: false,
        split_cell: true,
        has_inline_control: false,
    };
    assert_eq!(no_line_seg_surface(&p, 0, true), Some(surface));
    p.line_segs = vec![LineSeg::default()];
    p.stored_text_partition_dirty = true;
    assert_eq!(
        no_line_seg_surface(&p, 3, true),
        Some(NoLineSegSurface {
            frame_interval_count: 0,
            edit_reflow: true,
            stored_prefix: true,
            ..surface
        })
    );
    p.line_segs[0].single_segment_line = true;
    assert_eq!(no_line_seg_surface(&p, 3, true).unwrap().frame_interval_count, 1);
}

#[test]
fn pairs_are_kerned_where_the_font_is_at_hand() {
    assert!(kerns_pairs(true, true, "AV", true));
    assert!(!kerns_pairs(false, true, "AV", true));
    assert!(!kerns_pairs(true, false, "AV", true));
    assert!(!kerns_pairs(true, true, "", true));
    assert!(!kerns_pairs(true, true, "AV", false));
}

#[test]
fn trailing_spaces_take_their_extra_width_back_one_by_one() {
    let taken: Vec<usize> = (0..=5).map(|i| trailing_spaces_before(i, 5, 2)).collect();
    assert_eq!(taken, vec![0, 0, 0, 0, 1, 2]);
    let taken: Vec<usize> = (0..=2).map(|i| trailing_spaces_before(i, 2, 9)).collect();
    assert_eq!(taken, vec![0, 1, 2]);
}
