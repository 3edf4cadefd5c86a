use paragraph_layout::composed::{
    composed_line_char_end, runs_unit_count, ComposedLine, ComposedParagraph, ComposedTextRun,
};
use paragraph_layout::tac::{
    char_pos_in_line, repeated_empty_tac_line_offset, tac_offsets_for_line,
    tac_offsets_for_line_width, tac_owned_by_prior_empty_line,
};

fn line(text: &str, char_start: usize, has_line_break: bool) -> ComposedLine {
    ComposedLine {
        runs: vec![ComposedTextRun {
            text: text.to_string(),
            ..Default::default()
        }],
        line_height: 1_000,
        baseline_distance: 800,
        segment_width: 10_000,
        column_start: 0,
        line_spacing: 0,
        has_line_break,
        char_start,
    }
}

fn empty_line(char_start: usize) -> ComposedLine {
    ComposedLine {
        char_start,
        ..Default::default()
    }
}

fn composed(lines: Vec<ComposedLine>) -> ComposedParagraph {
    ComposedParagraph {
        lines,
        para_style_id: 0,
        inline_controls: Vec::new(),
        numbering_text: None,
        tac_controls: Vec::new(),
        footnote_positions: Vec::new(),
        tab_extended: Vec::new(),
    }
}

#[test]
fn final_run_trailing_tac_is_included_in_alignment_width() {
    let comp = composed(vec![line("      ", 0, false)]);
    let offsets = tac_offsets_for_line_width(&comp, &[(6, 574.08, 0)], 0);

    assert_eq!(offsets, vec![(6, 574.08, 0)]);
}

#[test]
fn next_line_leading_tac_is_not_back_attributed_to_previous_width() {
    let comp = composed(vec![line("A", 0, false), line("B", 1, false)]);
    let offsets = [(1, 55.0, 0)];

    assert!(tac_offsets_for_line_width(&comp, &offsets, 0).is_empty());
    assert_eq!(tac_offsets_for_line_width(&comp, &offsets, 1), offsets);
}

#[test]
fn forced_break_trailing_tac_stays_with_emitting_line() {
    let comp = composed(vec![line("A", 0, true), line("B", 2, false)]);
    let offsets = [(1, 55.0, 0)];

    assert_eq!(tac_offsets_for_line_width(&comp, &offsets, 0), offsets);
    assert!(tac_offsets_for_line_width(&comp, &offsets, 1).is_empty());
}

#[test]
fn a_line_ends_where_the_next_starts() {
    let comp = composed(vec![line("AB", 0, true), line("CD", 3, true)]);
    assert_eq!(composed_line_char_end(&comp, 0), 3);
    assert_eq!(composed_line_char_end(&comp, 1), 6);
    assert_eq!(composed_line_char_end(&comp, 2), 0);
    assert_eq!(runs_unit_count(&comp.lines[0].runs), 2);
}

#[test]
fn an_empty_range_holds_its_start() {
    assert!(char_pos_in_line(3, 3, 3));
    assert!(!char_pos_in_line(4, 3, 3));
    assert!(char_pos_in_line(3, 3, 5));
    assert!(!char_pos_in_line(5, 3, 5));
}

#[test]
fn an_empty_line_keeps_its_object_from_the_text_behind_it() {
    let comp = composed(vec![empty_line(0), line("text", 0, false)]);
    assert!(tac_owned_by_prior_empty_line(&comp, 1, 0));
    assert!(!tac_owned_by_prior_empty_line(&comp, 1, 1));
    assert!(!tac_owned_by_prior_empty_line(&comp, 0, 0));
    let offsets = [(0, 1u8, 4), (2, 2u8, 5)];
    assert_eq!(tac_offsets_for_line(&comp, &offsets, 0), vec![(0, 1u8, 4)]);
    assert_eq!(tac_offsets_for_line(&comp, &offsets, 1), vec![(2, 2u8, 5)]);
}

#[test]
fn every_object_belongs_to_one_line() {
    let comp = composed(vec![line("AB", 0, false), line("CDE", 2, false), line("F", 5, false)]);
    let offsets: Vec<(usize, u8, usize)> = (0..6).map(|pos| (pos, 0u8, pos)).collect();
    let mut seen = vec![0; 6];
    for index in 0..3 {
        for (_, _, control) in tac_offsets_for_line(&comp, &offsets, index) {
            seen[control] += 1;
        }
    }
    assert_eq!(seen, vec![1; 6]);
}

#[test]
fn repeated_empty_lines_share_the_objects_at_their_place() {
    let comp = composed(vec![empty_line(0), empty_line(0)]);
    let offsets = [(0, 1u8, 7), (0, 2u8, 8)];
    assert_eq!(repeated_empty_tac_line_offset(&comp, &offsets, 0), Some(vec![(0, 1u8, 7)]));
    assert_eq!(repeated_empty_tac_line_offset(&comp, &offsets, 1), Some(vec![(0, 2u8, 8)]));
    let single = composed(vec![empty_line(0), line("text", 0, false)]);
    assert_eq!(repeated_empty_tac_line_offset(&single, &offsets, 0), None);
}
