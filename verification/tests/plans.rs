use paragraph_layout::composed::{ComposedLine, ComposedParagraph, ComposedTextRun};
use paragraph_layout::frame_plan::{frame_plan, FrameRange};
use paragraph_layout::line_plan::{line_plan, PlannedLine};
use paragraph_layout::model::{Control, LineSeg, Note, Paragraph};
use paragraph_layout::runs::RunPiece;
use paragraph_layout::width_plan::line_width_plan;

fn run(text: &str) -> ComposedTextRun {
    ComposedTextRun {
        text: text.to_string(),
        ..Default::default()
    }
}

fn line(texts: &[&str], char_start: usize) -> ComposedLine {
    ComposedLine {
        runs: texts.iter().map(|text| run(text)).collect(),
        char_start,
        ..Default::default()
    }
}

fn at(line_idx: usize, char_offset: usize, is_last: bool) -> PlannedLine {
    PlannedLine {
        line_idx,
        start_line: 0,
        is_last_line_of_para: is_last,
        has_stored_assignment: false,
        char_offset,
    }
}

fn text(start: usize, end: usize, char_start: usize) -> RunPiece {
    RunPiece::Text {
        start,
        end,
        char_start,
    }
}

#[test]
fn a_line_is_drawn_run_by_run() {
    let comp = ComposedParagraph {
        lines: vec![line(&["a\tb", "cde", ""], 0)],
        footnote_positions: vec![(4, 1, 0)],
        ..Default::default()
    };
    let offsets = [(1, 'p', 5), (6, 'q', 6)];
    let plan = line_plan(&comp, None, &offsets, &[0, 2, 9], at(0, 10, true));
    assert_eq!(plan.runs.len(), 3);
    assert_eq!(plan.char_end, 16);
    let first = &plan.runs[0];
    assert_eq!((first.place.start, first.place.end, first.char_start), (0, 3, 10));
    assert_eq!(first.markers, vec![0]);
    assert_eq!(first.objects, vec![(1, 'p', 5)]);
    assert_eq!(
        first.pieces,
        vec![text(0, 1, 10), RunPiece::Break { index: 0 }, text(1, 3, 12)]
    );
    assert!(!first.is_para_end);
    let second = &plan.runs[1];
    assert_eq!((second.first_tab, second.char_start), (1, 13));
    assert_eq!(second.markers, vec![1]);
    assert_eq!(second.notes, vec![0]);
    assert!(second.objects.is_empty());
    assert_eq!(
        second.pieces,
        vec![text(0, 1, 13), RunPiece::Break { index: 0 }, text(1, 3, 14)]
    );
    let third = &plan.runs[2];
    assert_eq!(third.objects, vec![(0, 'q', 6)]);
    assert_eq!(
        third.pieces,
        vec![RunPiece::Break { index: 0 }, RunPiece::End { char_start: 17 }]
    );
    assert!(third.is_para_end && !third.is_line_break_end);
    assert_eq!(plan.tail_markers, vec![2]);
}

#[test]
fn a_run_without_cuts_is_one_piece() {
    let mut broken = line(&["", "x"], 4);
    broken.has_line_break = true;
    let comp = ComposedParagraph {
        lines: vec![broken],
        ..Default::default()
    };
    let plan = line_plan::<u8>(&comp, None, &[], &[], at(0, 0, false));
    assert_eq!(plan.runs[0].pieces, vec![text(0, 0, 0)]);
    assert!(!plan.runs[0].is_line_break_end);
    assert!(plan.runs[1].is_line_break_end && !plan.runs[1].is_para_end);
}

#[test]
fn a_run_that_objects_cut_draws_no_notes() {
    let comp = ComposedParagraph {
        lines: vec![line(&["ab", "cd"], 0)],
        footnote_positions: vec![(1, 7, 0), (2, 8, 1)],
        ..Default::default()
    };
    let plan = line_plan(&comp, None, &[(1, (), 0)], &[], at(0, 0, true));
    assert!(plan.runs[0].notes.is_empty());
    assert_eq!(plan.runs[1].notes, vec![1]);
}

#[test]
fn an_endnote_in_front_of_the_paragraph_cuts_nothing() {
    let para = Paragraph {
        controls: vec![Control::Endnote(Note::default())],
        ..Default::default()
    };
    let comp = ComposedParagraph {
        lines: vec![line(&["ab"], 0)],
        footnote_positions: vec![(0, 1, 0)],
        ..Default::default()
    };
    let plan = line_plan::<u8>(&comp, Some(&para), &[], &[], at(0, 0, true));
    assert!(plan.runs[0].notes.is_empty());
    let plan = line_plan::<u8>(&comp, None, &[], &[], at(0, 0, true));
    assert_eq!(plan.runs[0].notes, vec![0]);
    assert_eq!(plan.runs[0].pieces[0], RunPiece::Break { index: 0 });
}

#[test]
fn the_pieces_of_a_line_hold_its_text() {
    let comp = ComposedParagraph {
        lines: vec![line(&["one ", "two ", "three"], 0)],
        footnote_positions: vec![(2, 1, 0), (6, 2, 1), (13, 3, 2)],
        ..Default::default()
    };
    let plan = line_plan(&comp, None, &[(9, 0u8, 0), (9, 1, 1), (11, 2, 2)], &[], at(0, 0, true));
    let mut drawn = String::new();
    for (k, planned) in plan.runs.iter().enumerate() {
        let chars: Vec<char> = comp.lines[0].runs[k].text.chars().collect();
        for piece in &planned.pieces {
            if let RunPiece::Text { start, end, .. } = piece {
                drawn.extend(&chars[*start..*end]);
            }
        }
    }
    assert_eq!(drawn, "one two three");
}

#[test]
fn every_mark_is_drawn_once() {
    let comp = ComposedParagraph {
        lines: vec![line(&["ab", "cd"], 5)],
        ..Default::default()
    };
    let positions = [0, 5, 6, 7, 8, 100];
    let plan = line_plan::<u8>(&comp, None, &[], &positions, at(0, 0, false));
    assert_eq!(plan.runs[0].markers, vec![0, 1]);
    assert_eq!(plan.runs[1].markers, vec![2, 3]);
    assert_eq!(plan.tail_markers, vec![4, 5]);
}

#[test]
fn characters_on_top_of_each_other_take_their_places() {
    let mut comp = ComposedParagraph {
        lines: vec![line(&["123", "x"], 0)],
        ..Default::default()
    };
    comp.lines[0].runs[0].char_overlap = Some(1);
    let plan = line_plan(&comp, None, &[(1, 'o', 0)], &[], at(0, 0, true));
    assert_eq!(plan.runs[0].pieces, vec![text(0, 3, 0)]);
    assert_eq!(plan.runs[1].objects, vec![(0, 'o', 0)]);
    assert_eq!(plan.char_end, 2);
    let widths = line_width_plan(&comp, None, &[(0, 'o', 0), (1, 'p', 1)], 0, 0);
    assert!(widths[0].is_overlap && widths[0].objects.is_empty() && widths[0].pieces.is_empty());
    assert_eq!(widths[1].objects, vec![(0, 'p', 1)]);
}

#[test]
fn the_width_of_a_line_counts_its_objects_and_notes() {
    let mut comp = ComposedParagraph {
        lines: vec![line(&["a\tb", "cd"], 3)],
        footnote_positions: vec![(4, 1, 0), (8, 2, 1)],
        ..Default::default()
    };
    comp.lines[0].runs[1].display_text = Some("12".to_string());
    let widths = line_width_plan(&comp, None, &[(4, 'p', 0), (8, 'q', 1)], 0, 0);
    assert_eq!(widths[0].objects, vec![(1, 'p', 0)]);
    assert_eq!(
        widths[0].pieces,
        vec![text(0, 1, 0), RunPiece::Break { index: 0 }, text(1, 3, 1)]
    );
    assert_eq!(widths[0].notes, vec![0]);
    assert!(!widths[0].measures_display);
    assert_eq!(widths[1].first_tab, 1);
    assert_eq!(widths[1].objects, vec![(2, 'q', 1)]);
    assert_eq!(widths[1].notes, vec![1]);
    assert!(!widths[1].measures_display);
    let widths = line_width_plan::<u8>(&comp, None, &[], 0, 0);
    assert!(widths[1].measures_display);
}

fn range(start_line: usize, end_line: usize) -> FrameRange {
    FrameRange {
        start_line,
        end_line,
        column_width: None,
        physical_frame_rows: false,
    }
}

#[test]
fn the_lines_of_a_range_are_laid_out() {
    let mut second = line(&["def"], 4);
    second.has_line_break = true;
    let comp = ComposedParagraph {
        lines: vec![line(&["abc", " "], 0), second, line(&["g"], 8)],
        ..Default::default()
    };
    let offsets = [(1, 'p', 0), (8, 'q', 1)];
    let plan = frame_plan(&comp, None, &offsets, None, range(1, 9));
    assert_eq!(plan.lines.len(), 2);
    assert_eq!(plan.lines[0].at.line_idx, 1);
    assert_eq!(plan.lines[0].at.char_offset, 4);
    assert_eq!(plan.lines[0].at.start_line, 1);
    assert!(!plan.lines[0].at.is_last_line_of_para);
    assert!(plan.lines[0].objects.is_empty());
    assert_eq!(plan.lines[0].candidates.len(), 2);
    assert_eq!(plan.lines[1].at.char_offset, 8);
    assert!(plan.lines[1].at.is_last_line_of_para);
    assert_eq!(plan.lines[1].objects, vec![(8, 'q', 1)]);
    assert_eq!(plan.lines[1].width_objects, vec![(8, 'q', 1)]);
    assert_eq!(plan.char_end, 9);
}

#[test]
fn a_stored_assignment_gives_the_objects() {
    let comp = ComposedParagraph {
        lines: vec![line(&["abc"], 0), line(&["d"], 3)],
        ..Default::default()
    };
    let offsets = [(1, 'p', 0), (3, 'q', 1)];
    let plan = frame_plan(&comp, None, &offsets, Some(&[(0, 1), (1, 0)]), range(0, 2));
    assert!(plan.lines[0].at.has_stored_assignment);
    assert_eq!(plan.lines[0].candidates, vec![(3, 'q', 1)]);
    assert_eq!(plan.lines[0].objects, vec![(3, 'q', 1)]);
    assert_eq!(plan.lines[1].width_objects, vec![(1, 'p', 0)]);
}

#[test]
fn lines_of_another_column_are_passed_over() {
    let mut lines = vec![line(&["abc"], 0), line(&["de"], 3), line(&["f"], 5)];
    lines[0].segment_width = 1000;
    lines[1].segment_width = 5000;
    let comp = ComposedParagraph {
        lines,
        ..Default::default()
    };
    let mut left = range(0, 3);
    left.column_width = Some(1200);
    let plan = frame_plan::<u8>(&comp, None, &[], None, left);
    let drawn: Vec<(usize, usize)> = plan
        .lines
        .iter()
        .map(|l| (l.at.line_idx, l.at.char_offset))
        .collect();
    assert_eq!(drawn, vec![(0, 0), (2, 5)]);
    assert_eq!(plan.char_end, 6);
}

#[test]
fn a_range_that_is_not_there_draws_nothing() {
    let comp = ComposedParagraph {
        lines: vec![line(&["abc"], 0), line(&["d"], 3)],
        ..Default::default()
    };
    let plan = frame_plan::<u8>(&comp, None, &[], None, range(5, 9));
    assert!(plan.lines.is_empty());
    assert_eq!(plan.char_end, 4);
    let plan = frame_plan::<u8>(&comp, None, &[], None, range(1, 1));
    assert!(plan.lines.is_empty());
    assert_eq!(plan.char_end, 3);
}

#[test]
fn empty_rows_behind_a_line_end_the_paragraph() {
    let comp = ComposedParagraph {
        lines: vec![line(&["abc"], 0), line(&[], 3)],
        ..Default::default()
    };
    let mut para = Paragraph {
        line_segs: vec![LineSeg::default(), LineSeg::default()],
        ..Default::default()
    };
    let mut rows = range(0, 2);
    rows.physical_frame_rows = true;
    let plan = frame_plan::<u8>(&comp, Some(&para), &[], None, rows);
    assert!(!plan.lines[0].at.is_last_line_of_para);
    para.line_segs[1].empty_segment = true;
    let plan = frame_plan::<u8>(&comp, Some(&para), &[], None, rows);
    assert!(plan.lines[0].at.is_last_line_of_para);
}

#[test]
fn an_object_between_two_lines_is_drawn_once() {
    let mut broken = line(&["ab"], 0);
    broken.has_line_break = true;
    let comp = ComposedParagraph {
        lines: vec![line(&["ab"], 0), line(&["cd"], 2)],
        ..Default::default()
    };
    let offsets = [(2, 'p', 0)];
    let drawn = |comp: &ComposedParagraph, line_idx: usize| {
        line_plan(comp, None, &offsets, &[], at(line_idx, 0, line_idx == 1)).runs[0]
            .objects
            .len()
    };
    assert_eq!((drawn(&comp, 0), drawn(&comp, 1)), (0, 1));
    // Behind a forced break the next line starts one place further on.
    let comp = ComposedParagraph {
        lines: vec![broken, line(&["cd"], 3)],
        ..Default::default()
    };
    assert_eq!((drawn(&comp, 0), drawn(&comp, 1)), (1, 0));
}

#[test]
fn a_note_belongs_to_one_line_unless_it_stands_between_two() {
    let drawn = |position: usize, line_idx: usize| {
        let comp = ComposedParagraph {
            lines: vec![line(&["ab"], 0), line(&["cd"], 2)],
            footnote_positions: vec![(position, 1, 0)],
            ..Default::default()
        };
        line_plan::<u8>(&comp, None, &[], &[], at(line_idx, 0, line_idx == 1)).runs[0]
            .notes
            .len()
    };
    assert_eq!((drawn(1, 0), drawn(1, 1)), (1, 0));
    assert_eq!((drawn(3, 0), drawn(3, 1)), (0, 1));
    assert_eq!((drawn(2, 0), drawn(2, 1)), (1, 1));
}
