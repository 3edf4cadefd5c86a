use paragraph_layout::composed::{ComposedLine, ComposedParagraph, ComposedTextRun};
use paragraph_layout::model::{Control, Note, Paragraph};
use paragraph_layout::runs::{
    contains_layout_control, exact_replay_eligible, highlight_in_run, is_field_marker_run,
    line_shows_no_character, line_trailing_space_by_run, run_objects, run_width_notes,
    run_width_objects, spaces_before_content, split_run, take_markers_up_to, take_run_notes,
    Highlight, RunPiece, RunPlace,
};

fn run(text: &str) -> ComposedTextRun {
    ComposedTextRun {
        text: text.to_string(),
        ..Default::default()
    }
}

fn comp(texts: &[(&str, usize)]) -> ComposedParagraph {
    ComposedParagraph {
        lines: texts
            .iter()
            .map(|&(text, char_start)| ComposedLine {
                runs: vec![run(text)],
                char_start,
                ..Default::default()
            })
            .collect(),
        ..Default::default()
    }
}

fn place(start: usize, end: usize, is_last: bool) -> RunPlace {
    RunPlace {
        line_idx: 0,
        is_last_line_of_para: true,
        is_last_of_line: is_last,
        start,
        end,
    }
}

#[test]
fn spaces_at_the_end_are_shared_out_from_the_back() {
    let runs = [run("a  "), run("  "), run(" ")];
    assert_eq!(line_trailing_space_by_run(&runs, usize::MAX, true), vec![2, 2, 1]);
    assert_eq!(line_trailing_space_by_run(&runs, 4, true), vec![1, 2, 1]);
    assert_eq!(line_trailing_space_by_run(&runs, 2, true), vec![0, 1, 1]);
    assert_eq!(line_trailing_space_by_run(&runs, usize::MAX, false), vec![0, 0, 0]);
    let shares = line_trailing_space_by_run(&[run("  "), run("b ")], usize::MAX, true);
    assert_eq!(shares, vec![0, 1]);
}

#[test]
fn a_run_draws_the_objects_at_its_characters() {
    let c = comp(&[("abcd", 0)]);
    let offsets = [(0, 'a', 0), (2, 'b', 1), (4, 'c', 2)];
    assert_eq!(run_objects(&c, &offsets, place(0, 2, false), false), vec![(0, 'a', 0)]);
    assert_eq!(
        run_objects(&c, &offsets, place(2, 4, true), false),
        vec![(0, 'b', 1), (2, 'c', 2)]
    );
    let wrapped = comp(&[("abcd", 0), ("e", 4)]);
    let mut not_last = place(2, 4, true);
    not_last.is_last_line_of_para = false;
    assert_eq!(run_objects(&wrapped, &offsets, not_last, false), vec![(0, 'b', 1)]);
    assert_eq!(
        run_objects(&wrapped, &offsets, not_last, true),
        vec![(0, 'b', 1), (2, 'c', 2)]
    );
    assert_eq!(run_width_objects(&offsets, 2, 4, 4), vec![(0, 'b', 1), (2, 'c', 2)]);
    assert_eq!(run_width_objects(&offsets, 2, 4, 5), vec![(0, 'b', 1)]);
}

#[test]
fn a_run_is_cut_at_its_objects() {
    assert_eq!(
        split_run(5, &[2, 2], 10, true, false),
        vec![
            RunPiece::Text { start: 0, end: 2, char_start: 10 },
            RunPiece::Break { index: 0 },
            RunPiece::Break { index: 1 },
            RunPiece::Text { start: 2, end: 5, char_start: 14 },
        ]
    );
    assert_eq!(
        split_run(2, &[2], 0, true, true),
        vec![
            RunPiece::Text { start: 0, end: 2, char_start: 0 },
            RunPiece::Break { index: 0 },
            RunPiece::End { char_start: 3 },
        ]
    );
    assert_eq!(
        split_run(3, &[1], 5, false, false),
        vec![
            RunPiece::Text { start: 0, end: 1, char_start: 5 },
            RunPiece::Break { index: 0 },
            RunPiece::Text { start: 1, end: 3, char_start: 6 },
        ]
    );
}

#[test]
fn the_pieces_of_a_run_hold_its_text() {
    let text: Vec<char> = "abcdef".chars().collect();
    for cuts in [vec![], vec![0], vec![6], vec![1, 1, 4], vec![0, 3, 6]] {
        let mut held = String::new();
        let mut breaks = 0;
        for piece in split_run(6, &cuts, 0, true, true) {
            match piece {
                RunPiece::Text { start, end, .. } => held.extend(&text[start..end]),
                RunPiece::Break { index } => {
                    assert_eq!(index, breaks);
                    breaks += 1;
                }
                RunPiece::End { .. } => {}
            }
        }
        assert_eq!(held, "abcdef");
        assert_eq!(breaks, cuts.len());
    }
}

#[test]
fn a_note_is_drawn_once() {
    let p = Paragraph {
        controls: vec![Control::Footnote(Note::default()), Control::Endnote(Note::default())],
        ..Default::default()
    };
    let notes = [(2, 1, 0), (0, 2, 1), (4, 3, 0)];
    let mut drawn = vec![false; 3];
    let first = take_run_notes(Some(&p), &notes, &mut drawn, place(0, 4, false), 0, 0);
    assert_eq!(first, vec![0]);
    assert_eq!(drawn[1], true);
    let second = take_run_notes(Some(&p), &notes, &mut drawn, place(2, 4, true), 0, 0);
    assert!(!second.contains(&1));
    let counted = run_width_notes(Some(&p), &notes, 0, 0, 0, 0, 4, 4);
    assert_eq!(counted, vec![0, 2]);
    assert_eq!(run_width_notes(Some(&p), &notes, 0, 0, 0, 0, 4, 9), vec![0]);
}

#[test]
fn markers_are_drawn_as_their_place_is_reached() {
    let mut drawn = vec![false, true, false, false];
    assert_eq!(take_markers_up_to(&[3, 0, 1, 9], &mut drawn, 3), vec![0, 2]);
    assert_eq!(drawn, vec![true, true, true, false]);
    assert!(take_markers_up_to(&[3, 0, 1, 9], &mut drawn, 3).is_empty());
}

#[test]
fn nothing_cuts_a_run_with_exact_positions() {
    let objects = [(5, 'x', 0)];
    assert!(exact_replay_eligible(&run("abc"), 0, 3, &objects, &[]));
    assert!(!exact_replay_eligible(&run("abc"), 2, 5, &objects, &[]));
    assert!(!exact_replay_eligible(&run("a\tc"), 0, 3, &objects, &[]));
    assert!(!exact_replay_eligible(&run("abc"), 0, 3, &objects, &[(3, 1, 0)]));
    let overlapped = ComposedTextRun {
        char_overlap: Some(1),
        ..run("abc")
    };
    assert!(!exact_replay_eligible(&overlapped, 0, 3, &objects, &[]));
    assert!(contains_layout_control("a\r"));
    assert!(!contains_layout_control("a b"));
}

#[test]
fn field_marks_have_a_text_of_their_own() {
    let shown = |text: &str| ComposedTextRun {
        display_text: Some("7".to_string()),
        ..run(text)
    };
    assert!(is_field_marker_run(&shown("\u{15}")));
    assert!(is_field_marker_run(&shown("\u{2007}")));
    assert!(!is_field_marker_run(&shown("a")));
    assert!(!is_field_marker_run(&shown("\u{15}\u{15}")));
    assert!(!is_field_marker_run(&run("\u{15}")));
}

#[test]
fn borders_start_behind_leading_spaces() {
    let chars = |text: &str| text.chars().collect::<Vec<char>>();
    assert_eq!(spaces_before_content(&chars("  ab ")), Some(2));
    assert_eq!(spaces_before_content(&chars("ab")), None);
    assert_eq!(spaces_before_content(&chars("   ")), None);
    assert_eq!(spaces_before_content(&[]), None);
}

#[test]
fn a_highlight_is_cut_to_its_run() {
    let tag = 0x0200_ffff;
    assert_eq!(
        highlight_in_run(tag, 2, 8, 4, 10),
        Some(Highlight { start: 0, end: 4, color: 0xffff })
    );
    assert_eq!(
        highlight_in_run(tag, 5, 20, 4, 10),
        Some(Highlight { start: 1, end: 6, color: 0xffff })
    );
    assert_eq!(highlight_in_run(0x0100_ffff, 5, 20, 4, 10), None);
    assert_eq!(highlight_in_run(tag, 10, 20, 4, 10), None);
    assert_eq!(highlight_in_run(tag, 6, 6, 4, 10), None);
}

#[test]
fn places_of_objects_are_no_characters() {
    assert!(line_shows_no_character(&[run("\u{fffc}\u{1f}")]));
    assert!(!line_shows_no_character(&[run(" ")]));
    assert!(line_shows_no_character(&[]));
}
