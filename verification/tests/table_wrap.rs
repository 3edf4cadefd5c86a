use paragraph_layout::inline_table::should_wrap_middle_anchored_table;

/// The comparisons of widths in pixels.
fn wraps(
    control_position: Option<usize>,
    text_len: usize,
    occupied_width: f64,
    table_footprint: f64,
    line_width: f64,
) -> bool {
    should_wrap_middle_anchored_table(
        control_position,
        text_len,
        occupied_width > 1.0,
        occupied_width + table_footprint > line_width + 0.5,
    )
}

#[test]
fn end_anchored_table_wraps_when_exceeding_line_width() {
    assert!(wraps(Some(25), 25, 300.0, 480.0, 567.0));
}

#[test]
fn end_anchored_table_stays_inline_when_it_fits() {
    assert!(!wraps(Some(25), 25, 300.0, 200.0, 567.0));
}

#[test]
fn leading_anchor_never_wraps() {
    assert!(!wraps(Some(0), 25, 0.0, 480.0, 567.0));
}

#[test]
fn middle_anchor_wrap_preserved() {
    assert!(wraps(Some(10), 20, 120.0, 480.0, 567.0));
}

#[test]
fn a_table_without_a_place_in_the_text_never_wraps() {
    assert!(!wraps(None, 20, 120.0, 480.0, 567.0));
    assert!(!wraps(Some(21), 20, 120.0, 480.0, 567.0));
    assert!(!wraps(Some(10), 20, 1.0, 580.0, 567.0));
}
