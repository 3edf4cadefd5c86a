use paragraph_layout::composed::ComposedTextRun;
use paragraph_layout::tabs::{
    awaits_leader_digits, intra_run_tab, last_right_leader, last_tab, last_tab_to_resolve,
    leader_digits_step, objects_behind_tab, pending_tab_step, run_blank_after_last_tab,
    run_ends_in_tab, stop_aligns, tab_block_end, tab_block_over_runs, tab_stops_decide,
    LeaderDigits, PendingTab, TabStop,
};

fn chars(text: &str) -> Vec<char> {
    text.chars().collect()
}

fn run(text: &str) -> ComposedTextRun {
    ComposedTextRun {
        text: text.to_string(),
        ..Default::default()
    }
}

fn ext(kind: u16) -> [u16; 7] {
    [0, 0, kind << 8, 0, 0, 0, 0]
}

#[test]
fn the_last_tab_of_a_text_is_found() {
    assert_eq!(last_tab(&chars("a\tb\tc")), Some(3));
    assert_eq!(last_tab(&chars("abc")), None);
    assert!(run_ends_in_tab(&chars("a\t \u{2007}")));
    assert!(!run_ends_in_tab(&chars("a\tb")));
    assert!(!run_ends_in_tab(&chars("a\t\u{3000}")));
    assert!(run_blank_after_last_tab(&chars("a\t\u{3000} ")));
    assert!(!run_blank_after_last_tab(&chars("a\tb")));
    assert!(!run_blank_after_last_tab(&chars("a")));
}

#[test]
fn stored_tabs_decide_before_tab_stops() {
    let stored = [ext(1), ext(2), ext(3), ext(4), ext(1)];
    let place_holders = [false, false, false, false, true];
    let decide: Vec<bool> =
        (0..6).map(|i| tab_stops_decide(&stored, &place_holders, i)).collect();
    assert_eq!(decide, vec![false, true, true, false, true, true]);
    assert_eq!(last_tab_to_resolve(&chars("a\tb\t"), 1, &stored, &place_holders), Some(3));
    assert_eq!(last_tab_to_resolve(&chars("a\tb\t"), 0, &stored, &place_holders), None);
    assert_eq!(last_tab_to_resolve(&chars("ab"), 1, &stored, &place_holders), None);
    assert!(!stop_aligns(0));
    assert!(stop_aligns(1));
    assert!(stop_aligns(2));
    assert!(!stop_aligns(3));
}

#[test]
fn a_tab_inside_a_run_aligns_what_follows_it_there() {
    let stored = [ext(1), ext(2)];
    let none = [false, false];
    assert_eq!(intra_run_tab(&chars("a\tb\tc"), 0, &stored, &none), Some(3));
    assert_eq!(intra_run_tab(&chars("a\tb"), 0, &stored, &none), None);
    assert_eq!(intra_run_tab(&chars("a\tb"), 1, &stored, &none), Some(1));
    assert_eq!(intra_run_tab(&chars("a\t  "), 1, &stored, &none), None);
    assert_eq!(intra_run_tab(&chars("ab"), 1, &stored, &none), None);
}

#[test]
fn a_pending_tab_waits_for_text() {
    assert_eq!(pending_tab_step(1, "  "), PendingTab::Carry);
    assert_eq!(pending_tab_step(2, ""), PendingTab::Carry);
    assert_eq!(pending_tab_step(1, "12"), PendingTab::Align);
    assert_eq!(pending_tab_step(0, "  "), PendingTab::Align);
}

#[test]
fn a_page_number_is_awaited_behind_a_leader() {
    assert_eq!(leader_digits_step(false, "12"), LeaderDigits::Idle);
    assert_eq!(leader_digits_step(true, " "), LeaderDigits::Wait);
    assert_eq!(leader_digits_step(true, " 12 "), LeaderDigits::Place);
    assert_eq!(leader_digits_step(true, "a12"), LeaderDigits::Drop);
    let stop = |tab_type, fill_type| TabStop {
        position: 1.0,
        tab_type,
        fill_type,
    };
    let stops = [stop(1, 3), stop(1, 0), stop(1, 2), stop(0, 3)];
    assert_eq!(last_right_leader(&stops), Some(2));
    assert_eq!(last_right_leader(&[stop(1, 0), stop(0, 3)]), None);
    assert!(awaits_leader_digits("toc\t ", &stops));
    assert!(!awaits_leader_digits("toc\tx", &stops));
    assert!(!awaits_leader_digits("toc\t", &stops[1..2]));
}

#[test]
fn a_block_behind_a_tab_ends_at_the_next() {
    let runs = [run("a\t"), run("b"), run("c"), run("\td")];
    assert_eq!(tab_block_end(&runs, 1), 3);
    assert_eq!(tab_block_end(&runs, 0), 0);
    assert_eq!(tab_block_end(&runs, 4), 4);
    assert_eq!(tab_block_over_runs(&chars("a\t"), &runs[..3], 0), Some(1));
    assert_eq!(tab_block_over_runs(&chars("a\t"), &runs, 0), None);
    assert_eq!(tab_block_over_runs(&chars("a"), &runs[..3], 0), None);
    assert_eq!(tab_block_over_runs(&chars("c\t"), &runs[..3], 2), None);
}

#[test]
fn objects_behind_a_tab_belong_to_its_block() {
    let objects = [(0, 'a', 0), (2, 'b', 1), (4, 'c', 2)];
    assert_eq!(
        objects_behind_tab(&chars("x\tabc"), 1, &objects),
        Some(vec![(2, 'b', 1), (4, 'c', 2)])
    );
    assert_eq!(objects_behind_tab(&chars("x\ta\tc"), 1, &objects), None);
}
