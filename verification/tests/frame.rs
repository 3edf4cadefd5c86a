use paragraph_layout::composed::{ComposedLine, ComposedParagraph, ComposedTextRun};
use paragraph_layout::frame::{
    adjusted_end_line, all_runs_empty, char_offset_before, column_top_stored_position,
    endnote_lazy_vpos_base_from, endnote_line_vpos_base, is_leading_endnote_marker_rendered_as_prefix,
    is_line_of_other_column, leading_endnote_markers, line_char_count, line_objects,
    line_width_objects, sort_by_position, spacing_before_rule, stored_ladder_ascends,
    stored_line_objects, topbottom_ladder_places_lines, SpacingBefore,
};
use paragraph_layout::model::{Control, LineSeg, Note, Paragraph};

fn line(text: &str, char_start: usize) -> ComposedLine {
    ComposedLine {
        runs: if text.is_empty() {
            vec![]
        } else {
            vec![ComposedTextRun {
                text: text.to_string(),
                ..Default::default()
            }]
        },
        char_start,
        ..Default::default()
    }
}

fn comp(lines: Vec<ComposedLine>) -> ComposedParagraph {
    ComposedParagraph {
        lines,
        ..Default::default()
    }
}

fn para(positions: &[i32]) -> Paragraph {
    Paragraph {
        line_segs: positions
            .iter()
            .map(|&vertical_pos| LineSeg {
                vertical_pos,
                ..Default::default()
            })
            .collect(),
        ..Default::default()
    }
}

#[test]
fn objects_are_sorted_by_place_and_keep_their_order() {
    let offsets = [(3, 'a', 0), (1, 'b', 1), (3, 'c', 2), (0, 'd', 3), (1, 'e', 4)];
    assert_eq!(
        sort_by_position(&offsets),
        vec![(0, 'd', 3), (1, 'b', 1), (1, 'e', 4), (3, 'a', 0), (3, 'c', 2)]
    );
    assert!(sort_by_position::<u8>(&[]).is_empty());
}

#[test]
fn lines_without_runs_are_empty() {
    let c = comp(vec![line("", 0), line("a", 0), line("", 1)]);
    assert!(all_runs_empty(&c, 0, 1));
    assert!(!all_runs_empty(&c, 0, 2));
    assert!(all_runs_empty(&c, 2, 3));
    assert!(all_runs_empty(&c, 1, 1));
}

#[test]
fn characters_before_a_line_are_those_of_the_lines_before() {
    let mut first = line("abc", 0);
    first.has_line_break = true;
    let c = comp(vec![first, line("de", 4)]);
    assert_eq!(line_char_count(&c.lines[1]), 2);
    assert_eq!(char_offset_before(&c, 0), 0);
    assert_eq!(char_offset_before(&c, 1), line_char_count(&c.lines[0]));
    assert_eq!(char_offset_before(&c, 9), char_offset_before(&c, 2));
}

#[test]
fn space_before_a_paragraph_depends_on_the_column() {
    let p = para(&[700]);
    let rule = |start, has, top, keep, index, suppress| {
        spacing_before_rule(start, has, top, keep, index, suppress, Some(&p))
    };
    assert_eq!(rule(0, true, false, false, 3, false), SpacingBefore::Full);
    assert_eq!(rule(0, true, true, true, 3, false), SpacingBefore::Full);
    assert_eq!(rule(1, true, false, false, 3, false), SpacingBefore::Nothing);
    assert_eq!(rule(0, false, false, false, 3, false), SpacingBefore::Nothing);
    assert_eq!(rule(0, true, true, false, 0, false), SpacingBefore::AtMostStored(700));
    assert_eq!(rule(0, true, true, false, 2, false), SpacingBefore::StoredIfWithin(700));
    assert_eq!(rule(0, true, true, false, 0, true), SpacingBefore::Nothing);
    assert_eq!(
        spacing_before_rule(0, true, true, false, 0, false, None),
        SpacingBefore::Nothing
    );
}

#[test]
fn the_first_paragraph_of_a_column_starts_where_it_is_stored() {
    let p = para(&[700]);
    assert_eq!(column_top_stored_position(0, false, true, 0, false, false, Some(&p)), Some(700));
    assert_eq!(column_top_stored_position(0, true, true, 0, false, false, Some(&p)), None);
    assert_eq!(column_top_stored_position(0, false, true, 1, false, false, Some(&p)), None);
    assert_eq!(column_top_stored_position(0, false, true, 0, true, false, Some(&p)), None);
    assert_eq!(
        column_top_stored_position(0, false, true, 0, false, false, Some(&para(&[0]))),
        None
    );
}

#[test]
fn a_ladder_never_goes_back() {
    let p = para(&[0, 100, 100, 300]);
    assert!(stored_ladder_ascends(&p.line_segs, 0, 4));
    let back = para(&[0, 100, 50, 300]);
    assert!(!stored_ladder_ascends(&back.line_segs, 0, 4));
    assert!(stored_ladder_ascends(&back.line_segs, 2, 4));
}

#[test]
fn endnotes_follow_their_stored_lines() {
    let c = comp(vec![line("a", 0), line("b", 1), line("c", 2), line("d", 3)]);
    let p = para(&[50, 100, 150, 200]);
    let none: [(usize, u8, usize); 0] = [];
    assert_eq!(endnote_line_vpos_base(Some(&p), &c, &none, true, 0, 4), Some(50));
    assert_eq!(endnote_line_vpos_base(Some(&p), &c, &none, true, 1, 4), Some(100));
    assert_eq!(endnote_line_vpos_base(Some(&p), &c, &none, false, 0, 4), None);
    assert_eq!(endnote_line_vpos_base(Some(&p), &c, &none, true, 0, 1), None);
    assert_eq!(endnote_line_vpos_base(None, &c, &none, true, 0, 4), None);
    let back = para(&[0, 900, 10, 20]);
    assert_eq!(endnote_line_vpos_base(Some(&back), &c, &none, true, 1, 4), None);
    assert_eq!(endnote_lazy_vpos_base_from(Some(&back), false, true, 1, 4), Some(2));
    assert_eq!(endnote_lazy_vpos_base_from(Some(&back), true, true, 1, 4), None);
    assert_eq!(endnote_lazy_vpos_base_from(Some(&back), false, true, 0, 4), None);
    assert_eq!(endnote_lazy_vpos_base_from(Some(&p), false, true, 1, 4), None);
}

#[test]
fn lines_between_floats_follow_the_ladder() {
    let p = para(&[0, 500]);
    assert!(topbottom_ladder_places_lines(Some(&p), false, true, 0, 2));
    assert!(!topbottom_ladder_places_lines(Some(&p), true, true, 0, 2));
    assert!(!topbottom_ladder_places_lines(Some(&p), false, false, 0, 2));
    assert!(!topbottom_ladder_places_lines(Some(&p), false, true, 0, 1));
    assert!(!topbottom_ladder_places_lines(Some(&p), false, true, 0, 3));
    let mut dirty = para(&[0, 500]);
    dirty.stored_text_partition_dirty = true;
    assert!(!topbottom_ladder_places_lines(Some(&dirty), false, true, 0, 2));
}

#[test]
fn a_line_of_another_width_belongs_to_another_column() {
    assert!(!is_line_of_other_column(1000, None));
    assert!(!is_line_of_other_column(0, Some(1000)));
    assert!(!is_line_of_other_column(1200, Some(1000)));
    assert!(is_line_of_other_column(1201, Some(1000)));
    assert!(is_line_of_other_column(799, Some(1000)));
}

#[test]
fn a_whole_paragraph_keeps_all_lines_when_composed_anew() {
    assert_eq!(adjusted_end_line(0, 3, 3, 4), 4);
    assert_eq!(adjusted_end_line(0, 2, 3, 4), 2);
    assert_eq!(adjusted_end_line(1, 9, 3, 4), 4);
    assert_eq!(adjusted_end_line(5, 9, 3, 4), 5);
}

#[test]
fn stored_lines_say_which_objects_they_hold() {
    let c = comp(vec![line("ab", 0), line("cd", 2)]);
    let offsets = [(0, 'x', 4), (2, 'y', 5), (2, 'z', 6)];
    let assignment = [(4, 1), (5, 0)];
    assert_eq!(stored_line_objects(&offsets, &assignment, 1), vec![(0, 'x', 4)]);
    assert_eq!(line_objects(&c, &offsets, Some(&assignment[..]), 0), vec![(2, 'y', 5)]);
    assert_eq!(line_objects(&c, &offsets, None, 1), vec![(2, 'y', 5), (2, 'z', 6)]);
    assert_eq!(line_width_objects(&c, &offsets, Some(&assignment[..]), 1), vec![(0, 'x', 4)]);
    assert_eq!(line_width_objects(&c, &offsets, None, 0), vec![(0, 'x', 4)]);
}

#[test]
fn an_endnote_before_its_text_is_a_prefix() {
    let p = Paragraph {
        controls: vec![Control::Endnote(Note::default()), Control::Footnote(Note::default())],
        control_positions: vec![0, 0],
        ..Default::default()
    };
    assert!(is_leading_endnote_marker_rendered_as_prefix(Some(&p), 0, 0, 0, 0, 0));
    assert!(!is_leading_endnote_marker_rendered_as_prefix(Some(&p), 1, 0, 0, 0, 0));
    assert!(!is_leading_endnote_marker_rendered_as_prefix(Some(&p), 0, 1, 0, 0, 0));
    assert!(!is_leading_endnote_marker_rendered_as_prefix(Some(&p), 0, 0, 0, 1, 0));
    assert!(!is_leading_endnote_marker_rendered_as_prefix(None, 0, 0, 0, 0, 0));
    assert_eq!(leading_endnote_markers(&p, 0, 0), vec![0]);
    assert!(leading_endnote_markers(&p, 1, 0).is_empty());
    assert!(leading_endnote_markers(&p, 0, 3).is_empty());
}
