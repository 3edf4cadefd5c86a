use paragraph_layout::line_advance::LineAdvance;
use paragraph_layout::line_box::{
    border_edge, box_shape, cell_overflow, collects_border, content_bottom, draws_head,
    empty_paragraph_height, is_equation_tail, is_moved_by_head, is_squeezed_line, line_top,
    metrics_source, overflow_report, reserved_height, tac_picture_label_extra,
    tac_picture_label_extra_for_line,
    text_sinks_to_shape_foot, uses_stored_text_height, BoxShape, ContentBottom, EmptyHeight, LineTop,
    MetricsSource, OverflowReport, ReservedHeight,
};
use paragraph_layout::model::{Control, LineSeg, Paragraph, Picture};

fn para(positions: &[i32]) -> Paragraph {
    Paragraph {
        line_segs: positions
            .iter()
            .map(|&vertical_pos| LineSeg {
                vertical_pos,
                ..Default::default()
            })
            .collect(),
        ..Default::default()
    }
}

#[test]
fn the_top_of_a_line_follows_its_ladder() {
    let p = para(&[100, 900]);
    let top = |rows, note, wrapped, column| line_top(Some(&p), 1, rows, note, wrapped, column);
    assert_eq!(top(false, false, false, false), LineTop::Flow);
    assert_eq!(top(false, false, false, true), LineTop::ColumnLadder(900));
    assert_eq!(top(false, true, false, true), LineTop::EndnoteLadder(900));
    assert_eq!(top(false, true, true, true), LineTop::WrappedEnd);
    assert_eq!(top(true, true, true, true), LineTop::FrameRow(900));
    assert_eq!(line_top(Some(&p), 2, true, true, true, true), LineTop::Flow);
    assert_eq!(line_top(None, 0, true, true, true, true), LineTop::Flow);
}

#[test]
fn the_height_of_a_line_has_one_source() {
    assert_eq!(metrics_source(0, true, true, true, false), MetricsSource::EmptyParagraph);
    assert_eq!(metrics_source(1, true, true, true, false), MetricsSource::Font);
    assert_eq!(metrics_source(1, true, true, true, true), MetricsSource::Stored);
    assert_eq!(metrics_source(1, true, true, false, false), MetricsSource::Stored);
    assert_eq!(metrics_source(0, false, false, true, false), MetricsSource::Stored);
    assert!(uses_stored_text_height(Some(&para(&[])), false, false));
    assert!(!uses_stored_text_height(Some(&para(&[])), false, true));
    assert!(uses_stored_text_height(Some(&para(&[])), true, true));
    assert!(!uses_stored_text_height(None, true, false));
}

#[test]
fn a_shape_shrinks_the_box_outside_of_cells() {
    assert_eq!(box_shape(true, true, false, false, true), BoxShape::LeadIn);
    assert_eq!(box_shape(false, true, false, false, true), BoxShape::BesideShape);
    assert_eq!(box_shape(false, true, false, true, true), BoxShape::Computed);
    assert_eq!(box_shape(false, true, true, false, true), BoxShape::Computed);
    assert!(text_sinks_to_shape_foot(true, false, true));
    assert!(!text_sinks_to_shape_foot(true, true, true));
}

#[test]
fn a_stored_line_that_fits_keeps_its_text_in_the_cell() {
    let o = cell_overflow(true, true, false, false);
    assert!(o.suppressed && !o.converges);
    let o = cell_overflow(true, true, true, false);
    assert!(!o.suppressed && o.converges);
    let o = cell_overflow(true, true, false, true);
    assert!(!o.suppressed && !o.converges);
    let o = cell_overflow(true, false, true, true);
    assert!(!o.suppressed && !o.converges);
    assert!(is_squeezed_line(true, true, 2, false, true));
    assert!(!is_squeezed_line(true, true, 1, false, true));
    assert!(!is_squeezed_line(true, true, 2, true, true));
    assert!(!is_squeezed_line(true, true, 2, false, false));
}

#[test]
fn the_head_is_drawn_on_the_first_line() {
    assert!(draws_head(0, 0));
    assert!(!draws_head(1, 0));
    assert!(!draws_head(2, 2));
    assert!(!is_moved_by_head(true, 0, 0));
    assert!(is_moved_by_head(true, 1, 0));
    assert!(is_moved_by_head(true, 2, 2));
    assert!(!is_moved_by_head(false, 1, 0));
}

#[test]
fn overflow_is_reported_where_it_shows() {
    assert_eq!(overflow_report(true, false, false, true, false, false), OverflowReport::Column);
    assert_eq!(overflow_report(true, false, false, true, true, false), OverflowReport::Silent);
    assert_eq!(overflow_report(true, false, true, true, false, false), OverflowReport::Silent);
    assert_eq!(overflow_report(false, true, false, true, false, true), OverflowReport::Page);
    assert_eq!(overflow_report(false, true, true, true, false, true), OverflowReport::Silent);
    assert!(is_equation_tail(true, false, true, 3, 4, true));
    assert!(!is_equation_tail(true, false, true, 2, 4, true));
}

#[test]
fn a_line_keeps_the_height_of_its_object_free() {
    let mut picture = Picture::default();
    picture.common.treat_as_char = true;
    let p = Paragraph {
        controls: vec![Control::Picture(Box::new(picture))],
        ..Default::default()
    };
    assert_eq!(reserved_height(Some(&p), true, true, true, false, false), ReservedHeight::Drawn);
    assert_eq!(reserved_height(Some(&p), false, true, false, true, true), ReservedHeight::Nothing);
    assert_eq!(reserved_height(Some(&p), false, false, true, true, true), ReservedHeight::Nothing);
    assert_eq!(reserved_height(Some(&p), false, false, false, true, true), ReservedHeight::Owner);
    assert_eq!(
        reserved_height(Some(&p), false, false, false, false, true),
        ReservedHeight::StoredLine
    );
    assert_eq!(reserved_height(None, false, false, false, true, true), ReservedHeight::Nothing);
    assert_eq!(
        reserved_height(Some(&para(&[])), false, false, false, false, true),
        ReservedHeight::Nothing
    );
}

#[test]
fn a_label_above_a_picture_needs_text() {
    assert!(tac_picture_label_extra(false, true, true, true, true));
    assert!(!tac_picture_label_extra(true, true, true, true, true));
    assert!(!tac_picture_label_extra(false, false, true, true, true));
    assert!(!tac_picture_label_extra(false, true, false, true, true));
    assert!(!tac_picture_label_extra(false, true, true, false, true));
}

#[test]
fn no_line_makes_room_for_a_label() {
    for bits in 0..32 {
        let fact = |k: u32| bits >> k & 1 == 1;
        assert!(!tac_picture_label_extra_for_line(
            fact(0),
            fact(1),
            fact(2),
            fact(3),
            fact(4)
        ));
    }
}

#[test]
fn the_border_follows_the_way_the_flow_went_on() {
    let edge = border_edge(LineAdvance::CellEnd);
    assert!(edge.line_box && edge.with_spacing);
    let edge = border_edge(LineAdvance::Full);
    assert!(edge.line_box && !edge.with_spacing);
    let edge = border_edge(LineAdvance::RowPiece);
    assert!(edge.line_box && !edge.with_spacing);
    let edge = border_edge(LineAdvance::Stay);
    assert!(!edge.line_box && !edge.with_spacing);
    assert!(collects_border(1, false, false, true));
    assert!(!collects_border(1, true, false, true));
    assert!(collects_border(1, true, true, true));
    assert!(!collects_border(0, false, false, true));
    assert!(!collects_border(1, false, false, false));
    assert_eq!(content_bottom(true, false, false), ContentBottom::Unchanged);
    assert_eq!(content_bottom(false, true, false), ContentBottom::Unchanged);
    assert_eq!(content_bottom(false, false, true), ContentBottom::LineTop);
    assert_eq!(content_bottom(false, false, false), ContentBottom::LineBottom);
}

#[test]
fn a_paragraph_without_lines_has_a_height() {
    assert_eq!(empty_paragraph_height(true, true, true, true, false), EmptyHeight::FontSize);
    assert_eq!(empty_paragraph_height(true, true, true, true, true), EmptyHeight::Metrics);
    assert_eq!(empty_paragraph_height(true, true, true, false, false), EmptyHeight::Metrics);
    assert_eq!(empty_paragraph_height(false, true, true, true, false), EmptyHeight::Objects);
    assert_eq!(empty_paragraph_height(false, false, false, false, false), EmptyHeight::Smallest);
}
