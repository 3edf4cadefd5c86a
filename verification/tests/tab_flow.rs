use paragraph_layout::composed::{ComposedLine, ComposedTextRun};
use paragraph_layout::inline_table::step_line_index;
use paragraph_layout::line_align::packs_label_as_right;
use paragraph_layout::line_geometry::inline_segment_is_paragraph_width;
use paragraph_layout::model::Alignment;
use paragraph_layout::objects::defers_line_mark;
use paragraph_layout::runs::{equation_may_rise, piece_replay_eligible};
use paragraph_layout::spacing::is_excluded_justify_last_line;
use paragraph_layout::tab_flow::{
    enter_run, leave_run, number_end, NumberEnd, RunStart, TabWait,
};
use paragraph_layout::tabs::TabStop;
use paragraph_layout::vertical::VerticalColumn;

fn stop(position: i32, tab_type: u8, fill_type: u8) -> TabStop<i32> {
    TabStop {
        position,
        tab_type,
        fill_type,
    }
}

fn run(text: &str) -> ComposedTextRun {
    ComposedTextRun {
        text: text.to_string(),
        ..Default::default()
    }
}

#[test]
fn a_stop_aligns_the_first_visible_run_behind_its_tab() {
    let stops = [stop(300, 1, 0)];
    let mut wait = TabWait {
        stop: None,
        awaits_number: false,
    };
    assert!(matches!(enter_run(&mut wait, "Chapter\t", &stops), RunStart::Flow));
    leave_run(&mut wait, "Chapter\t", &stops, Some(stops[0]));
    assert!(wait.stop.is_some());
    assert!(!wait.awaits_number);
    // A blank run is passed over, and the stop still waits.
    assert!(matches!(enter_run(&mut wait, " ", &stops), RunStart::Flow));
    leave_run(&mut wait, " ", &stops, None);
    assert!(wait.stop.is_some());
    assert!(matches!(enter_run(&mut wait, "12", &stops), RunStart::EndsAt(300)));
    assert!(wait.stop.is_none());
    leave_run(&mut wait, "12", &stops, None);
    // The block is aligned once: what follows flows on.
    assert!(matches!(enter_run(&mut wait, "x", &stops), RunStart::Flow));
}

#[test]
fn leaders_reach_the_end_of_the_line() {
    let stops = [stop(300, 1, 3), stop(400, 2, 0)];
    let mut wait = TabWait {
        stop: Some(stops[0]),
        awaits_number: true,
    };
    // The stop goes before the wait for a number.
    assert!(matches!(enter_run(&mut wait, "7", &stops), RunStart::EndsWithLine));
    assert!(wait.stop.is_none() && !wait.awaits_number);
    wait.stop = Some(stops[1]);
    assert!(matches!(
        enter_run(&mut wait, "middle", &stops),
        RunStart::CenteredAt(400)
    ));
}

#[test]
fn a_number_is_set_behind_a_leader() {
    let stops = [stop(300, 1, 3), stop(400, 0, 0)];
    let mut wait: TabWait<i32> = TabWait {
        stop: None,
        awaits_number: false,
    };
    leave_run(&mut wait, "Title\t ", &stops, None);
    assert!(wait.awaits_number);
    assert!(matches!(enter_run(&mut wait, "  ", &stops), RunStart::Flow));
    assert!(wait.awaits_number);
    assert!(matches!(enter_run(&mut wait, " 21 ", &stops), RunStart::Number(0)));
    assert!(!wait.awaits_number);
    leave_run(&mut wait, "Title\t", &stops, None);
    assert!(matches!(enter_run(&mut wait, "21a", &stops), RunStart::Flow));
    assert!(!wait.awaits_number);
    // Without such a stop no number is awaited.
    leave_run(&mut wait, "Title\t", &stops[1..], None);
    assert!(!wait.awaits_number);
}

#[test]
fn a_number_ends_at_its_line_or_its_stop() {
    assert_eq!(number_end(0, true), NumberEnd::Line);
    assert_eq!(number_end(0, false), NumberEnd::Stop);
    assert_eq!(number_end(2, true), NumberEnd::BeforeStop);
}

#[test]
fn the_last_line_of_a_justified_paragraph_keeps_its_width() {
    assert!(is_excluded_justify_last_line(Alignment::Justify, true, false));
    assert!(!is_excluded_justify_last_line(Alignment::Justify, false, false));
    assert!(!is_excluded_justify_last_line(Alignment::Split, true, false));
    assert!(!is_excluded_justify_last_line(Alignment::Justify, true, true));
}

#[test]
fn a_label_that_fills_its_cell_goes_to_the_right() {
    assert!(packs_label_as_right(true, Alignment::Center, false, true, true));
    assert!(!packs_label_as_right(true, Alignment::Left, false, true, true));
    assert!(!packs_label_as_right(true, Alignment::Center, true, true, true));
    assert!(!packs_label_as_right(true, Alignment::Center, false, true, false));
}

#[test]
fn pieces_with_tabs_are_not_replayed() {
    assert!(piece_replay_eligible(&run("a\tb"), "b"));
    assert!(!piece_replay_eligible(&run("a\tb"), "a\t"));
    let overlapped = ComposedTextRun {
        char_overlap: Some(1),
        ..run("ab")
    };
    assert!(!piece_replay_eligible(&overlapped, "ab"));
}

#[test]
fn equations_rise_where_no_character_is_shown() {
    assert!(equation_may_rise(false, &[run("\u{FFFC}\u{1}")]));
    assert!(!equation_may_rise(true, &[run("\u{FFFC}")]));
    assert!(!equation_may_rise(false, &[run("a")]));
}

#[test]
fn the_mark_of_a_line_waits_for_its_rows() {
    let empty = ComposedLine::default();
    assert!(defers_line_mark(&empty, &[(0usize, 10, 0usize)], true));
    assert!(!defers_line_mark(&empty, &[(0usize, 10, 0usize)], false));
    assert!(!defers_line_mark::<i32>(&empty, &[], true));
    let line = ComposedLine {
        runs: vec![run("a")],
        ..Default::default()
    };
    assert!(!defers_line_mark(&line, &[(0usize, 10, 0usize)], true));
}

#[test]
fn a_table_line_may_be_as_wide_as_its_paragraph() {
    assert!(inline_segment_is_paragraph_width(true, 0, 1000, false, true, 1001));
    assert!(!inline_segment_is_paragraph_width(true, 0, 1000, false, true, 1002));
    assert!(!inline_segment_is_paragraph_width(false, 0, 1000, false, true, 1000));
    assert!(!inline_segment_is_paragraph_width(true, 5, 1000, false, true, 1000));
    assert!(!inline_segment_is_paragraph_width(true, 0, 1000, true, true, 1000));
    assert!(!inline_segment_is_paragraph_width(
        true,
        0,
        i32::MIN,
        false,
        true,
        i32::MAX
    ));
}

#[test]
fn text_steps_by_its_own_line() {
    assert_eq!(step_line_index(0, 0), None);
    assert_eq!(step_line_index(1, 0), Some(0));
    assert_eq!(step_line_index(3, 0), Some(1));
    assert_eq!(step_line_index(3, 2), Some(0));
}

#[test]
fn the_last_column_has_no_spacing() {
    let column = VerticalColumn {
        start: 0,
        end: 2,
        para_style_id: 0,
        stored: Some((1000, 600)),
    };
    assert_eq!(column.stored_width(false), Some(1600));
    assert_eq!(column.stored_width(true), Some(1000));
    let free = VerticalColumn {
        stored: None,
        ..column
    };
    assert_eq!(free.stored_width(true), None);
}
