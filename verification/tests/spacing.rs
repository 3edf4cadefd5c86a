use paragraph_layout::composed::{ComposedLine, ComposedTextRun};
use paragraph_layout::model::Alignment;
use paragraph_layout::spacing::{
    count_dash_leaders, count_line, displayed_chars, first_leader_run,
    is_hancom_company_pua_logo_line, last_line_glyph, last_line_leader_dashes,
    last_object_position, line_chars, line_spacing_plan, needs_word_distribution, spacing_mode,
    total_char_count, trailing_space_limit_after_last_inline_object, trailing_space_pieces,
    LineCounts, Sign, SpacingFacts, SpacingMode, SpacingPlan,
};

/// A font whose letters are all as wide as its size, spaces half as wide.
#[derive(Clone, Copy)]
struct Font {
    size: f64,
    letter_spacing: f64,
    word_spacing: f64,
}

impl Font {
    fn width(&self, text: &str) -> f64 {
        text.chars()
            .map(|c| {
                if c == ' ' {
                    self.size / 2.0 + self.letter_spacing + self.word_spacing
                } else {
                    self.size + self.letter_spacing
                }
            })
            .sum()
    }
}

const FONT: Font = Font {
    size: 12.0,
    letter_spacing: 0.0,
    word_spacing: 0.0,
};

fn sign(x: f64) -> Sign {
    if x > 0.0 {
        Sign::Positive
    } else if x < 0.0 {
        Sign::Negative
    } else {
        Sign::Zero
    }
}

struct Case {
    alignment: Alignment,
    in_cell: bool,
    needs_justify: bool,
    justify_spaces_only: bool,
    needs_distribute: bool,
    renders_trailing_space: bool,
    char_count: usize,
    text_width: f64,
    available_width: f64,
}

/// Extra width of a space, a character and a dash of a line in one run.
fn extra_spacing(line: &ComposedLine, font: Font, case: Case) -> (f64, f64, f64) {
    let shown = count_line(&displayed_chars(&line.runs), usize::MAX);
    let plain = count_line(&line_chars(&line.runs), usize::MAX);
    let trailing_width = font.width(&" ".repeat(shown.trailing_spaces));
    let overhang = match (case.alignment, last_line_glyph(&line.runs)) {
        (Alignment::Split, Some((_, glyph))) if font.letter_spacing < 0.0 => {
            let ink = Font {
                letter_spacing: 0.0,
                ..font
            };
            let glyph = glyph.to_string();
            (ink.width(&glyph) - font.width(&glyph)).max(0.0)
        }
        _ => 0.0,
    };
    let used = if case.renders_trailing_space {
        case.text_width + overhang
    } else {
        case.text_width - trailing_width + overhang
    };
    let word_slack = case.available_width - used;
    let char_slack = case.available_width - case.text_width;
    let gap_slack = case.available_width - (case.text_width - trailing_width);
    let plan = line_spacing_plan(SpacingFacts {
        alignment: case.alignment,
        in_cell: case.in_cell,
        needs_justify: case.needs_justify,
        is_excluded_justify_last_line: false,
        justify_spaces_only: case.justify_spaces_only,
        needs_distribute: case.needs_distribute,
        has_tabs: false,
        renders_trailing_space: case.renders_trailing_space,
        suppress_cell_overflow_spacing: false,
        converge_auto_shrink_cell: false,
        total_char_count: case.char_count,
        shown,
        plain,
        word_slack: sign(word_slack),
        char_slack: sign(char_slack),
        leader_can_grow: false,
        distribute_slack: sign(gap_slack),
        has_width: case.text_width > 0.0,
        has_tight_run: false,
        natural_width_overflows: false,
    });
    match plan {
        SpacingPlan::Natural => (0.0, 0.0, 0.0),
        SpacingPlan::Leaders { dashes, .. } => (0.0, 0.0, word_slack / dashes as f64),
        SpacingPlan::Words { slots, .. } => {
            ((word_slack / slots as f64).max(-font.width(" ") / 2.0), 0.0, 0.0)
        }
        SpacingPlan::Characters { count } => {
            let narrowest = -case.text_width / count as f64 * 0.5;
            (0.0, (char_slack / count as f64).max(narrowest), 0.0)
        }
        SpacingPlan::Gaps { gaps, visible } => {
            let narrowest = -(case.text_width - trailing_width) / visible as f64 * 0.5;
            (0.0, (gap_slack / gaps as f64).max(narrowest), 0.0)
        }
        _ => unreachable!(),
    }
}

fn line(text: &str) -> ComposedLine {
    ComposedLine {
        runs: vec![ComposedTextRun {
            text: text.to_string(),
            ..Default::default()
        }],
        line_height: 1120,
        baseline_distance: 952,
        segment_width: 6972,
        column_start: 0,
        line_spacing: 560,
        has_line_break: false,
        char_start: 0,
    }
}

#[test]
fn split_distributes_single_last_line_but_justify_does_not() {
    assert!(needs_word_distribution(Alignment::Split, true, false));
    assert!(!needs_word_distribution(Alignment::Justify, true, false));
    assert!(needs_word_distribution(Alignment::Justify, false, false));
    assert!(!needs_word_distribution(Alignment::Justify, false, true));
    assert!(!needs_word_distribution(Alignment::Split, true, true));
}

#[test]
fn split_label_assigns_positive_slack_to_interior_spaces() {
    let (extra_word, extra_char, extra_dash) = extra_spacing(
        &line("다 같 이"),
        FONT,
        Case {
            alignment: Alignment::Split,
            in_cell: true,
            needs_justify: true,
            justify_spaces_only: false,
            needs_distribute: false,
            renders_trailing_space: false,
            char_count: 5,
            text_width: 30.0,
            available_width: 90.0,
        },
    );
    assert!((extra_word - 30.0).abs() < 0.001);
    assert_eq!(extra_char, 0.0);
    assert_eq!(extra_dash, 0.0);

    let natural_width = FONT.width("다 같 이 ");
    let available_width = natural_width + 60.0;
    let (extra_word, extra_char, extra_dash) = extra_spacing(
        &line("다 같 이 "),
        FONT,
        Case {
            alignment: Alignment::Justify,
            in_cell: false,
            needs_justify: true,
            justify_spaces_only: false,
            needs_distribute: false,
            renders_trailing_space: true,
            char_count: 6,
            text_width: natural_width,
            available_width,
        },
    );
    let distributed = Font {
        word_spacing: extra_word,
        ..FONT
    };
    assert!((distributed.width("다 같 이 ") - available_width).abs() < 0.001);
    assert_eq!(extra_char, 0.0);
    assert_eq!(extra_dash, 0.0);
}

#[test]
fn split_reserves_last_glyph_ink_when_letter_spacing_is_negative() {
    let tight = Font {
        letter_spacing: -6.0,
        ..FONT
    };
    let (extra_word, extra_char, extra_dash) = extra_spacing(
        &line("다 같 이"),
        tight,
        Case {
            alignment: Alignment::Split,
            in_cell: true,
            needs_justify: true,
            justify_spaces_only: false,
            needs_distribute: false,
            renders_trailing_space: false,
            char_count: 5,
            text_width: tight.width("다 같 이"),
            available_width: 90.0,
        },
    );
    let distributed = Font {
        word_spacing: extra_word,
        ..tight
    };
    let advance = distributed.width("다 같 이");
    let overhang = FONT.width("이") - distributed.width("이");
    assert!((advance + overhang - 90.0).abs() < 0.001);
    assert_eq!(extra_char, 0.0);
    assert_eq!(extra_dash, 0.0);
}

#[test]
fn footer_last_line_justify_without_spaces_keeps_natural_width() {
    let case = |justify_spaces_only: bool| Case {
        alignment: Alignment::Justify,
        in_cell: false,
        needs_justify: true,
        justify_spaces_only,
        needs_distribute: false,
        renders_trailing_space: false,
        char_count: 12,
        text_width: 62.5,
        available_width: 481.8,
    };
    let (extra_word, extra_char, extra_dash) = extra_spacing(&line("RVT-QI-02-03"), FONT, case(true));
    assert_eq!(extra_word, 0.0);
    assert_eq!(extra_char, 0.0);
    assert_eq!(extra_dash, 0.0);

    let (_, extra_char_mid, _) = extra_spacing(&line("RVT-QI-02-03"), FONT, case(false));
    assert!(extra_char_mid > 0.0);
}

fn distribute_extra(text: &str, char_count: usize, text_width: f64, avail: f64) -> f64 {
    let (extra_word, extra_char, extra_dash) = extra_spacing(
        &line(text),
        FONT,
        Case {
            alignment: Alignment::Distribute,
            in_cell: false,
            needs_justify: false,
            justify_spaces_only: false,
            needs_distribute: true,
            renders_trailing_space: false,
            char_count,
            text_width,
            available_width: avail,
        },
    );
    assert_eq!(extra_word, 0.0);
    assert_eq!(extra_dash, 0.0);
    extra_char
}

#[test]
fn distribute_fills_full_width_regardless_of_line_length() {
    let avail = 368.0;
    for (text, n, w) in [("문서관리번호 :", 8usize, 92.9), ("기관명 :", 5, 52.5)] {
        let extra = distribute_extra(text, n, w, avail);
        let last_ink_right = w + (n - 1) as f64 * extra;
        assert!((last_ink_right - avail).abs() < 0.001, "{text}: {last_ink_right} != {avail}");
    }
}

#[test]
fn distribute_excludes_trailing_spaces() {
    let space_w = FONT.width(" ");
    let avail = 368.0;
    let visible_w = 52.5;
    let extra = distribute_extra("기관명 : ", 6, visible_w + space_w, avail);
    let last_visible_ink_right = visible_w + 4.0 * extra;
    assert!((last_visible_ink_right - avail).abs() < 0.001);
}

#[test]
fn distribute_single_visible_char_keeps_natural_width() {
    let extra = distribute_extra("가  ", 3, 30.0, 368.0);
    assert_eq!(extra, 0.0);
}

fn company_line(text: &str) -> ComposedLine {
    ComposedLine {
        runs: vec![ComposedTextRun {
            text: text.to_string(),
            ..Default::default()
        }],
        line_height: 1_000,
        baseline_distance: 850,
        segment_width: 42_520,
        column_start: 0,
        line_spacing: 500,
        has_line_break: false,
        char_start: 0,
    }
}

#[test]
fn company_pua_logo_line_uses_its_space_not_internal_character_distribution() {
    let line = company_line("\u{F03EF}\u{F03F0}\u{F03F1}\u{F03F2}\u{F03F3}\u{F03F4} ");
    assert!(is_hancom_company_pua_logo_line(&line, Alignment::Split));
    assert!(!is_hancom_company_pua_logo_line(&line, Alignment::Left));
    assert!(!is_hancom_company_pua_logo_line(
        &company_line("\u{F03EF}\u{F03F0}\u{F03F1}\u{F03F2}\u{F03F3}\u{F03F4} 본문"),
        Alignment::Split,
    ));
}

fn chars(text: &str) -> Vec<char> {
    text.chars().collect()
}

#[test]
fn leaders_are_rows_of_three_dashes_or_more() {
    assert_eq!(count_dash_leaders(&chars("a--b"), 4), 0);
    assert_eq!(count_dash_leaders(&chars("a---b"), 5), 3);
    assert_eq!(count_dash_leaders(&chars("a---b"), 3), 0);
    assert_eq!(count_dash_leaders(&chars("----x---"), 8), 7);
    assert_eq!(count_dash_leaders(&chars(""), 0), 0);
}

#[test]
fn a_line_is_counted_without_the_spaces_at_its_end() {
    let counts = count_line(&chars("a b ---  "), usize::MAX);
    assert_eq!(
        counts,
        LineCounts {
            trailing_spaces: 2,
            visible: 7,
            interior_spaces: 2,
            leader_dashes: 3,
        }
    );
    assert_eq!(count_line(&chars("a  "), 1).trailing_spaces, 1);
    assert_eq!(count_line(&chars("a  "), 1).interior_spaces, 1);
}

fn run(text: &str) -> ComposedTextRun {
    ComposedTextRun {
        text: text.to_string(),
        ..Default::default()
    }
}

#[test]
fn drawn_text_counts_and_tabs_do_not() {
    let shown = ComposedTextRun {
        display_text: Some("12".to_string()),
        ..run("x")
    };
    let runs = [run("a\t"), shown];
    assert_eq!(line_chars(&runs), chars("a\tx"));
    assert_eq!(displayed_chars(&runs), chars("a\t12"));
    assert_eq!(total_char_count(&runs), 3);
}

#[test]
fn the_first_run_with_a_leader_is_found() {
    assert_eq!(first_leader_run(&[run("--"), run("-"), run("a---")]), Some(2));
    assert_eq!(first_leader_run(&[run("--"), run("-")]), None);
}

#[test]
fn the_last_glyph_is_no_space_tab_or_object() {
    assert_eq!(last_line_glyph(&[run("ab"), run("c  "), run("  ")]), Some((1, 'c')));
    assert_eq!(last_line_glyph(&[run("ab\t ")]), None);
    assert_eq!(last_line_glyph(&[run("ab\u{fffc}")]), None);
    assert_eq!(last_line_glyph(&[run("   ")]), None);
}

fn counts(interior_spaces: usize, leader_dashes: usize) -> LineCounts {
    LineCounts {
        trailing_spaces: 1,
        visible: 10,
        interior_spaces,
        leader_dashes,
    }
}

fn facts() -> SpacingFacts {
    SpacingFacts {
        alignment: Alignment::Justify,
        in_cell: false,
        needs_justify: true,
        is_excluded_justify_last_line: false,
        justify_spaces_only: false,
        needs_distribute: false,
        has_tabs: false,
        renders_trailing_space: false,
        suppress_cell_overflow_spacing: false,
        converge_auto_shrink_cell: false,
        total_char_count: 11,
        shown: counts(2, 0),
        plain: counts(2, 0),
        word_slack: Sign::Positive,
        char_slack: Sign::Positive,
        leader_can_grow: false,
        distribute_slack: Sign::Positive,
        has_width: true,
        has_tight_run: false,
        natural_width_overflows: false,
    }
}

#[test]
fn free_width_goes_to_leaders_before_spaces() {
    let f = SpacingFacts {
        shown: counts(2, 4),
        ..facts()
    };
    assert_eq!(line_spacing_plan(f), SpacingPlan::Leaders { dashes: 4, of_words: true });
    let lacking = SpacingFacts {
        word_slack: Sign::Negative,
        in_cell: true,
        ..f
    };
    assert_eq!(
        line_spacing_plan(lacking),
        SpacingPlan::Words { slots: 2, rest_to_characters: true }
    );
}

#[test]
fn a_drawn_trailing_space_takes_its_share() {
    let f = SpacingFacts {
        renders_trailing_space: true,
        ..facts()
    };
    assert_eq!(
        line_spacing_plan(f),
        SpacingPlan::Words { slots: 3, rest_to_characters: false }
    );
}

#[test]
fn text_without_spaces_is_spaced_by_characters() {
    let f = SpacingFacts {
        shown: counts(0, 0),
        ..facts()
    };
    assert_eq!(line_spacing_plan(f), SpacingPlan::Characters { count: 11 });
    let single = SpacingFacts {
        total_char_count: 1,
        ..f
    };
    assert_eq!(line_spacing_plan(single), SpacingPlan::Natural);
    let shrinking = SpacingFacts {
        char_slack: Sign::Negative,
        converge_auto_shrink_cell: true,
        ..f
    };
    assert_eq!(line_spacing_plan(shrinking), SpacingPlan::Converge { count: 11 });
}

#[test]
fn a_last_line_gives_its_leaders_their_width_back() {
    let f = SpacingFacts {
        needs_justify: false,
        plain: counts(0, 5),
        leader_can_grow: true,
        ..facts()
    };
    assert_eq!(line_spacing_plan(f), SpacingPlan::RestoreLeaders { dashes: 5 });
    assert_eq!(last_line_leader_dashes(false, Alignment::Justify, f.plain), Some(5));
    assert_eq!(last_line_leader_dashes(false, Alignment::Left, f.plain), None);
    assert_eq!(last_line_leader_dashes(true, Alignment::Justify, f.plain), None);
}

#[test]
fn text_that_was_set_tight_fills_its_cell() {
    let f = SpacingFacts {
        needs_justify: false,
        alignment: Alignment::Center,
        in_cell: true,
        has_tight_run: true,
        natural_width_overflows: true,
        ..facts()
    };
    assert_eq!(line_spacing_plan(f), SpacingPlan::FillCell { count: 11 });
    let left_out = SpacingFacts {
        is_excluded_justify_last_line: true,
        ..f
    };
    assert_eq!(line_spacing_plan(left_out), SpacingPlan::Natural);
}

#[test]
fn a_cell_that_is_not_compressed_keeps_its_text() {
    for needs_justify in [true, false] {
        for needs_distribute in [true, false] {
            let f = SpacingFacts {
                needs_justify,
                needs_distribute,
                suppress_cell_overflow_spacing: true,
                word_slack: Sign::Negative,
                char_slack: Sign::Negative,
                distribute_slack: Sign::Negative,
                ..facts()
            };
            assert_eq!(line_spacing_plan(f), SpacingPlan::Natural);
        }
    }
}

#[test]
fn the_spacing_rule_is_chosen_by_the_kind_of_line() {
    assert_eq!(
        spacing_mode(true, true, true, false, false, false, false, false),
        SpacingMode::CompanyLogo
    );
    assert_eq!(
        spacing_mode(false, true, true, false, false, false, false, false),
        SpacingMode::Squeeze
    );
    assert_eq!(
        spacing_mode(false, false, true, false, false, false, false, false),
        SpacingMode::KeepBlank
    );
    assert_eq!(
        spacing_mode(false, false, true, true, false, false, false, false),
        SpacingMode::Plan
    );
}

#[test]
fn spaces_before_an_object_are_not_trailing() {
    let mut l = line("ab   ");
    assert_eq!(last_object_position(&[(3, 0u8, 0), (1, 0u8, 1)]), Some(3));
    assert_eq!(last_object_position::<u8>(&[]), None);
    assert_eq!(trailing_space_limit_after_last_inline_object(&l, Some(3)), 2);
    assert_eq!(trailing_space_limit_after_last_inline_object(&l, Some(9)), 0);
    assert_eq!(trailing_space_limit_after_last_inline_object(&l, None), usize::MAX);
    assert_eq!(trailing_space_pieces(&l, Some(3), &[false]), vec![(0, 2)]);
    assert_eq!(trailing_space_pieces(&l, None, &[false]), vec![(0, 3)]);
    assert_eq!(trailing_space_pieces(&l, None, &[true]), vec![]);
    l.runs = vec![run("a "), run("  ")];
    assert_eq!(trailing_space_pieces(&l, None, &[false, false]), vec![(1, 2), (0, 1)]);
}
