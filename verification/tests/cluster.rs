use paragraph_layout::cluster::{
    cluster_drops_tracking, terminal_run, terminal_tracking_after_inline_picture,
};
use paragraph_layout::composed::{ComposedLine, ComposedTextRun};
use paragraph_layout::model::{CommonObjAttr, Control, Paragraph, Picture};

fn run(text: &str) -> ComposedTextRun {
    ComposedTextRun {
        text: text.to_string(),
        ..Default::default()
    }
}

fn line(texts: &[&str]) -> ComposedLine {
    ComposedLine {
        runs: texts.iter().map(|t| run(t)).collect(),
        ..Default::default()
    }
}

fn para(treat_as_char: bool) -> Paragraph {
    Paragraph {
        controls: vec![
            Control::Picture(Box::new(Picture {
                common: CommonObjAttr {
                    treat_as_char,
                    ..Default::default()
                },
                ..Default::default()
            })),
            Control::Other,
        ],
        ..Default::default()
    }
}

#[test]
fn the_last_cluster_is_an_extended_grapheme() {
    let p = para(true);
    let l = line(&["그림 e\u{301}", ""]);
    let found = terminal_tracking_after_inline_picture(&l, Some(&p), &[(0, 0)], &[true, true]);
    assert_eq!(found, Some((0, "e\u{301}".to_string())));
    let l = line(&["x👨\u{200d}👩\u{200d}👧"]);
    let found = terminal_tracking_after_inline_picture(&l, Some(&p), &[(0, 0)], &[true]);
    assert_eq!(found, Some((0, "👨\u{200d}👩\u{200d}👧".to_string())));
    let l = line(&["각\u{1112}\u{1161}\u{11ab}"]);
    let found = terminal_tracking_after_inline_picture(&l, Some(&p), &[(0, 0)], &[true]);
    assert_eq!(found, Some((0, "\u{1112}\u{1161}\u{11ab}".to_string())));
}

#[test]
fn tracking_stays_without_a_picture_or_behind_an_object() {
    let p = para(true);
    let l = line(&["abc"]);
    let drops = |offsets: &[(usize, usize)]| {
        terminal_tracking_after_inline_picture(&l, Some(&p), offsets, &[true]).is_some()
    };
    assert!(drops(&[(0, 0)]));
    assert!(drops(&[(0, 0), (1, 1)]));
    assert!(!drops(&[]));
    assert!(!drops(&[(0, 1)]));
    assert!(!drops(&[(0, 7)]));
    assert!(!drops(&[(0, 0), (3, 1)]));
    assert!(terminal_run(&l, Some(&para(false)), &[(0, 0)]).is_none());
    assert!(terminal_run(&l, None, &[(0, 0)]).is_none());
    assert_eq!(terminal_run(&line(&["a", "b", ""]), Some(&p), &[(0, 0)]), Some(1));
}

#[test]
fn only_runs_that_show_their_own_text_count() {
    let p = para(true);
    let mut l = line(&["abc"]);
    l.runs[0].display_text = Some("xyz".to_string());
    assert!(terminal_run(&l, Some(&p), &[(0, 0)]).is_none());
    let mut l = line(&["abc"]);
    l.runs[0].char_overlap = Some(1);
    assert!(terminal_run(&l, Some(&p), &[(0, 0)]).is_none());
}

#[test]
fn white_space_and_untracked_runs_keep_their_spacing() {
    let p = para(true);
    assert!(terminal_tracking_after_inline_picture(&line(&["ab "]), Some(&p), &[(0, 0)], &[true])
        .is_none());
    assert!(terminal_tracking_after_inline_picture(&line(&["ab"]), Some(&p), &[(0, 0)], &[false])
        .is_none());
    assert!(cluster_drops_tracking(Some("a"), true));
    assert!(!cluster_drops_tracking(Some("a"), false));
    assert!(!cluster_drops_tracking(Some("\r\n"), true));
    assert!(!cluster_drops_tracking(None, true));
}
