use paragraph_layout::composed::{ComposedLine, ComposedParagraph, ComposedTextRun};
use paragraph_layout::line_advance::{
    border_is_cut, completes_visible_stored_row, line_advance, skip_advance_empty_line,
    stored_line_has_own_vpos, EmptyLineFacts, LineAdvance,
};
use paragraph_layout::line_align::{
    align_shift, align_width, center_excludes_trailing_ws, excludes_terminal_tracking,
    is_answer_sheet_number_label, non_cell_tac_only_line, object_row_shift,
    renders_synthetic_wrap_trailing_space, right_align_excludes_trailing_ws, AlignShift, AlignWidth,
};
use paragraph_layout::line_kinds::{
    has_tabs, has_treat_as_char_picture_or_shape, is_blank_spacer_line, is_equation_only_tac_line,
    is_treat_as_char_equation_control, line_has_strict_equation_tac_control,
    line_has_strict_tac_control, line_has_tac_control, line_is_leading_empty_equation_tac_guide,
    runs_all_whitespace,
};
use paragraph_layout::model::{Alignment, Control, Equation, LineSeg, Paragraph, Picture};

fn run(text: &str) -> ComposedTextRun {
    ComposedTextRun {
        text: text.to_string(),
        ..Default::default()
    }
}

fn line(text: &str, char_start: usize) -> ComposedLine {
    ComposedLine {
        runs: if text.is_empty() { vec![] } else { vec![run(text)] },
        char_start,
        ..Default::default()
    }
}

fn comp(lines: Vec<ComposedLine>) -> ComposedParagraph {
    ComposedParagraph {
        lines,
        ..Default::default()
    }
}

fn equation() -> Control {
    let mut e = Equation::default();
    e.common.treat_as_char = true;
    Control::Equation(Box::new(e))
}

fn para(controls: Vec<Control>, positions: &[i32]) -> Paragraph {
    Paragraph {
        controls,
        line_segs: positions
            .iter()
            .map(|&vertical_pos| LineSeg {
                vertical_pos,
                ..Default::default()
            })
            .collect(),
        ..Default::default()
    }
}

#[test]
fn equations_and_pictures_in_the_text_are_recognised() {
    assert!(is_treat_as_char_equation_control(Some(&equation())));
    assert!(!is_treat_as_char_equation_control(Some(&Control::Equation(Box::default()))));
    assert!(!is_treat_as_char_equation_control(None));
    let mut picture = Picture::default();
    picture.common.treat_as_char = true;
    assert!(has_treat_as_char_picture_or_shape(Some(&para(
        vec![Control::Other, Control::Picture(Box::new(picture))],
        &[]
    ))));
    assert!(!has_treat_as_char_picture_or_shape(Some(&para(vec![equation()], &[]))));
    assert!(!has_treat_as_char_picture_or_shape(None));
}

#[test]
fn lines_hold_the_objects_before_the_next() {
    let mut c = comp(vec![line("ab", 0), line("cd", 2)]);
    c.tac_controls = vec![(1, 0, 0)];
    assert!(line_has_tac_control(&c, 0));
    assert!(!line_has_tac_control(&c, 1));
    let offsets = [(2, 0u8, 0)];
    assert!(!line_has_strict_tac_control(&c, &offsets, 0));
    assert!(line_has_strict_tac_control(&c, &offsets, 1));
    let p = para(vec![equation()], &[]);
    assert!(line_has_strict_equation_tac_control(Some(&p), &c, &offsets, 1));
    assert!(!line_has_strict_equation_tac_control(Some(&para(vec![], &[])), &c, &offsets, 1));
}

#[test]
fn an_empty_line_before_an_equation_is_a_guide() {
    let c = comp(vec![line("", 0), line(" ", 0)]);
    let p = para(vec![equation()], &[]);
    let guide = line_is_leading_empty_equation_tac_guide(Some(&p), &c, &[(0, 0u8, 0)], 0);
    let none = line_is_leading_empty_equation_tac_guide(Some(&p), &c, &[(5, 0u8, 0)], 0);
    assert!(!none);
    assert!(!line_is_leading_empty_equation_tac_guide(Some(&p), &c, &[(0, 0u8, 0)], 1));
    assert_eq!(guide, !line_has_strict_tac_control(&c, &[(0, 0u8, 0)], 0)
        && line_has_strict_equation_tac_control(Some(&p), &c, &[(0, 0u8, 0)], 1));
}

#[test]
fn blank_lines_are_told_by_what_they_show() {
    assert!(runs_all_whitespace(&[run(" "), run("\u{3000}")]));
    assert!(runs_all_whitespace(&[]));
    assert!(!runs_all_whitespace(&[run(" "), run("a")]));
    assert!(has_tabs(&[run("a"), run("b\t")]));
    assert!(!has_tabs(&[run("a")]));
    let p = para(vec![], &[]);
    let with = para(vec![equation()], &[]);
    let none: [(usize, u8, usize); 0] = [];
    assert!(is_blank_spacer_line(Some(&p), false, true, &none));
    assert!(!is_blank_spacer_line(Some(&with), false, true, &none));
    assert!(is_blank_spacer_line(Some(&with), true, true, &none));
    assert!(!is_blank_spacer_line(Some(&p), false, false, &none));
    assert!(is_equation_only_tac_line(Some(&with), true, &[(0, 0u8, 0)]));
    assert!(!is_equation_only_tac_line(Some(&with), true, &none));
    assert!(!is_equation_only_tac_line(Some(&p), true, &[(0, 0u8, 0)]));
}

#[test]
fn the_space_of_a_soft_wrap_is_drawn() {
    let mut p = para(vec![], &[0]);
    assert!(!renders_synthetic_wrap_trailing_space(Some(&p), &line("ab ", 0), 0, false));
    p.line_segs[0].implementation_property = true;
    assert!(renders_synthetic_wrap_trailing_space(Some(&p), &line("ab ", 0), 0, false));
    assert!(!renders_synthetic_wrap_trailing_space(Some(&p), &line("ab", 0), 0, false));
    assert!(!renders_synthetic_wrap_trailing_space(Some(&p), &line("ab ", 0), 0, true));
    assert!(!renders_synthetic_wrap_trailing_space(Some(&p), &line("ab ", 0), 1, false));
}

#[test]
fn the_label_of_the_examinee_number_is_known() {
    assert!(is_answer_sheet_number_label(true, &line(" 수험번호 ", 0)));
    assert!(!is_answer_sheet_number_label(false, &line("수험번호", 0)));
    assert!(!is_answer_sheet_number_label(true, &line("수험번호:", 0)));
}

#[test]
fn spaces_at_the_end_are_left_out_of_centred_and_right_lines() {
    let p = para(vec![equation()], &[]);
    assert!(non_cell_tac_only_line(false, Some(&p), &line(" ", 0), &[(0, 0u8, 0)]));
    assert!(!non_cell_tac_only_line(true, Some(&p), &line(" ", 0), &[(0, 0u8, 0)]));
    assert!(!non_cell_tac_only_line(false, Some(&p), &line("a", 0), &[(0, 0u8, 0)]));
    assert!(center_excludes_trailing_ws(Alignment::Center, true, false, &line("a ", 0)));
    assert!(!center_excludes_trailing_ws(Alignment::Center, false, false, &line("a ", 0)));
    assert!(!center_excludes_trailing_ws(Alignment::Center, true, false, &line("  ", 0)));
    assert!(right_align_excludes_trailing_ws(Alignment::Right, false, false, true));
    assert!(right_align_excludes_trailing_ws(Alignment::Right, true, true, true));
    assert!(!right_align_excludes_trailing_ws(Alignment::Right, true, false, true));
    assert!(excludes_terminal_tracking(true, Alignment::Center, false, false, false));
    assert!(!excludes_terminal_tracking(true, Alignment::Left, false, false, false));
    assert!(!excludes_terminal_tracking(true, Alignment::Right, true, false, false));
}

#[test]
fn alignment_moves_the_start_of_a_line() {
    assert_eq!(align_shift(Alignment::Center, false, false, 5), AlignShift::HalfVisible);
    assert_eq!(align_shift(Alignment::Center, true, false, 5), AlignShift::Full);
    assert_eq!(align_shift(Alignment::Center, false, true, 5), AlignShift::Margin);
    assert_eq!(align_shift(Alignment::Distribute, false, false, 1), AlignShift::Half);
    assert_eq!(align_shift(Alignment::Distribute, false, false, 2), AlignShift::Margin);
    assert_eq!(align_shift(Alignment::Right, false, false, 5), AlignShift::FullVisible);
    assert_eq!(align_shift(Alignment::Justify, false, false, 5), AlignShift::Margin);
    assert_eq!(object_row_shift(Alignment::Center, true), AlignShift::Half);
    assert_eq!(object_row_shift(Alignment::Right, true), AlignShift::Full);
    assert_eq!(object_row_shift(Alignment::Right, false), AlignShift::Margin);
    let width = |squeeze, label, spaced, widens, in_cell, count| {
        align_width(squeeze, label, spaced, widens, in_cell, false, false, count, false)
    };
    assert_eq!(width(true, false, false, false, false, 5), AlignWidth::Available);
    assert_eq!(width(false, true, true, false, true, 5), AlignWidth::Remeasured);
    assert_eq!(width(false, false, true, true, true, 5), AlignWidth::Widened);
    assert_eq!(width(false, false, true, true, true, 1), AlignWidth::Natural);
    assert_eq!(width(false, false, true, true, false, 5), AlignWidth::Natural);
}

#[test]
fn the_last_piece_of_a_row_owes_its_height() {
    let c = comp(vec![line("a", 0), line(" ", 1), line(" ", 2)]);
    let p = para(vec![], &[10, 10, 10]);
    assert!(completes_visible_stored_row(Some(&p), &c, true, true, 2));
    assert!(!completes_visible_stored_row(Some(&p), &c, false, true, 2));
    assert!(!completes_visible_stored_row(Some(&p), &c, true, false, 2));
    let other = para(vec![], &[0, 10, 10]);
    assert!(!completes_visible_stored_row(Some(&other), &c, true, true, 2));
    assert!(stored_line_has_own_vpos(Some(&other), true, 1));
    assert!(!stored_line_has_own_vpos(Some(&other), true, 2));
    assert!(!stored_line_has_own_vpos(Some(&other), false, 1));
}

#[test]
fn lines_that_only_guide_text_take_no_height() {
    let facts = EmptyLineFacts {
        in_cell: false,
        has_square_wrap: true,
        has_ole_square_wrap: false,
        runs_all_whitespace: true,
        completes_row: false,
        reserves_picture: false,
        has_own_position: false,
        repeats_reserved_picture: false,
    };
    let c = comp(vec![line(" ", 0)]);
    let none: [(usize, u8, usize); 0] = [];
    let skips = |facts| skip_advance_empty_line(facts, None, &c, &none, 0);
    assert!(skips(facts));
    assert!(!skips(EmptyLineFacts { has_ole_square_wrap: true, ..facts }));
    assert!(!skips(EmptyLineFacts { completes_row: true, ..facts }));
    assert!(!skips(EmptyLineFacts { runs_all_whitespace: false, ..facts }));
    let repeated = EmptyLineFacts {
        has_square_wrap: false,
        repeats_reserved_picture: true,
        ..facts
    };
    assert!(skips(repeated));
    assert!(!skips(EmptyLineFacts { has_own_position: true, ..repeated }));
}

#[test]
fn the_flow_moves_on_behind_a_line() {
    let advance = |base, skips, last, in_cell, line, piece| {
        line_advance(base, skips, last, in_cell, line, 3, false, false, false, piece)
    };
    assert_eq!(
        advance(true, false, false, false, 0, false),
        LineAdvance::Ladder { height: true, trailing: true, keeps_end: false }
    );
    assert_eq!(
        advance(true, false, false, false, 2, false),
        LineAdvance::Ladder { height: true, trailing: false, keeps_end: false }
    );
    assert_eq!(advance(false, false, true, true, 2, false), LineAdvance::CellEnd);
    assert_eq!(advance(false, false, true, true, 1, false), LineAdvance::Full);
    assert_eq!(advance(false, true, false, false, 1, false), LineAdvance::Stay);
    assert_eq!(advance(false, false, false, false, 1, true), LineAdvance::RowPiece);
    assert_eq!(border_is_cut(0, 3, 3), (false, false));
    assert_eq!(border_is_cut(1, 2, 3), (true, true));
}
