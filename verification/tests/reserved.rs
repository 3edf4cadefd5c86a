use paragraph_layout::controls::{
    calc_sibling_topandbottom_reserved_hu, collect_sibling_tac_picture_widths,
    has_ole_shape_square_wrap, has_para_topbottom_float_affecting_column,
    has_picture_shape_square_wrap, picture_or_shape_attr, topbottom_para_floats,
};
use paragraph_layout::model::{
    CommonObjAttr, Control, Paragraph, Picture, ShapeObject, Table, TextWrap, VertRelTo,
};

fn make_table(width: u32, height: u32, wrap: TextWrap, tac: bool) -> Table {
    Table {
        common: CommonObjAttr {
            width,
            height,
            text_wrap: wrap,
            treat_as_char: tac,
            ..Default::default()
        },
        outer_margin_left: 283,
        outer_margin_right: 283,
        outer_margin_top: 283,
        outer_margin_bottom: 283,
        ..Default::default()
    }
}

fn make_pic(width: u32, height: u32, tac: bool) -> Picture {
    Picture {
        common: CommonObjAttr {
            width,
            height,
            treat_as_char: tac,
            ..Default::default()
        },
        ..Default::default()
    }
}

/// The widths in pixels at the given resolution.
fn widths_px(controls: &[Control], dpi: f64) -> Vec<(usize, f64)> {
    collect_sibling_tac_picture_widths(controls)
        .into_iter()
        .map(|(index, width)| (index, width as f64 * dpi / 7200.0))
        .collect()
}

#[test]
fn topandbottom_table_reserved_single() {
    let table = make_table(13630, 12498, TextWrap::TopAndBottom, false);
    let controls = vec![Control::Table(Box::new(table))];
    assert_eq!(calc_sibling_topandbottom_reserved_hu(&controls), 13064);
}

#[test]
fn topandbottom_table_reserved_none_when_no_table() {
    let controls: Vec<Control> = vec![];
    assert_eq!(calc_sibling_topandbottom_reserved_hu(&controls), 0);
}

#[test]
fn topandbottom_table_reserved_excludes_tac_table() {
    let table = make_table(13630, 12498, TextWrap::TopAndBottom, true);
    let controls = vec![Control::Table(Box::new(table))];
    assert_eq!(calc_sibling_topandbottom_reserved_hu(&controls), 0);
}

#[test]
fn topandbottom_table_reserved_excludes_square_wrap() {
    let table = make_table(13630, 12498, TextWrap::Square, false);
    let controls = vec![Control::Table(Box::new(table))];
    assert_eq!(calc_sibling_topandbottom_reserved_hu(&controls), 0);
}

#[test]
fn topandbottom_reserved_includes_non_tac_picture_control() {
    let mut pic = Picture::default();
    pic.common.text_wrap = TextWrap::TopAndBottom;
    pic.common.treat_as_char = false;
    pic.common.height = 7733;
    pic.common.margin.top = 100;
    pic.common.margin.bottom = 200;
    let controls = vec![Control::Picture(Box::new(pic))];
    assert_eq!(calc_sibling_topandbottom_reserved_hu(&controls), 8033);
}

#[test]
fn topandbottom_reserved_excludes_tac_picture_control() {
    let mut pic = Picture::default();
    pic.common.text_wrap = TextWrap::TopAndBottom;
    pic.common.treat_as_char = true;
    pic.common.height = 7733;
    let controls = vec![Control::Picture(Box::new(pic))];
    assert_eq!(calc_sibling_topandbottom_reserved_hu(&controls), 0);
}

#[test]
fn topandbottom_table_reserved_sums_multiple_tables() {
    let t1 = make_table(13630, 10000, TextWrap::TopAndBottom, false);
    let t2 = make_table(13630, 5000, TextWrap::TopAndBottom, false);
    let controls = vec![Control::Table(Box::new(t1)), Control::Table(Box::new(t2))];
    assert_eq!(calc_sibling_topandbottom_reserved_hu(&controls), 16132);
}

#[test]
fn reserved_height_is_the_sum_of_its_parts() {
    let first = vec![Control::Table(Box::new(make_table(1, 10000, TextWrap::TopAndBottom, false)))];
    let second = vec![Control::Table(Box::new(make_table(1, 5000, TextWrap::TopAndBottom, false)))];
    let both = vec![
        Control::Table(Box::new(make_table(1, 10000, TextWrap::TopAndBottom, false))),
        Control::Table(Box::new(make_table(1, 5000, TextWrap::TopAndBottom, false))),
    ];
    assert_eq!(
        calc_sibling_topandbottom_reserved_hu(&both),
        calc_sibling_topandbottom_reserved_hu(&first)
            + calc_sibling_topandbottom_reserved_hu(&second)
    );
}

#[test]
fn shapes_reserve_their_height_and_margins() {
    let mut shape = ShapeObject::default();
    shape.common.text_wrap = TextWrap::TopAndBottom;
    shape.common.height = 900;
    shape.common.margin.top = -20;
    shape.common.margin.bottom = 5;
    let controls = vec![Control::Shape(Box::new(shape)), Control::Other];
    assert_eq!(calc_sibling_topandbottom_reserved_hu(&controls), 885);
}

#[test]
fn empty_controls_returns_empty() {
    assert!(widths_px(&[], 96.0).is_empty());
}

#[test]
fn collects_single_tac_picture() {
    let controls = vec![Control::Picture(Box::new(make_pic(5670, 5670, true)))];
    let result = widths_px(&controls, 96.0);
    assert_eq!(result.len(), 1);
    assert_eq!(result[0].0, 0);
    assert!((result[0].1 - 75.6).abs() < 0.01);
}

#[test]
fn collects_multiple_tac_pictures_in_order() {
    let controls = vec![
        Control::Picture(Box::new(make_pic(3000, 3000, true))),
        Control::Picture(Box::new(make_pic(4500, 4500, true))),
    ];
    let result = widths_px(&controls, 96.0);
    assert_eq!(result.len(), 2);
    assert_eq!(result[0].0, 0);
    assert_eq!(result[1].0, 1);
}

#[test]
fn skips_non_tac_picture() {
    let controls = vec![
        Control::Picture(Box::new(make_pic(3000, 3000, false))),
        Control::Picture(Box::new(make_pic(4500, 4500, true))),
    ];
    let result = widths_px(&controls, 96.0);
    assert_eq!(result.len(), 1);
    assert_eq!(result[0].0, 1);
}

#[test]
fn skips_table_and_other_controls() {
    let controls = vec![
        Control::Table(Box::default()),
        Control::Picture(Box::new(make_pic(5670, 5670, true))),
        Control::Picture(Box::new(make_pic(5670, 5670, true))),
    ];
    let result = widths_px(&controls, 96.0);
    assert_eq!(result.len(), 2);
    assert_eq!(result[0].0, 1);
    assert_eq!(result[1].0, 2);
}

#[test]
fn realistic_v1_scenario_1x1_table_two_tac_pictures() {
    let controls = vec![
        Control::Table(Box::default()),
        Control::Picture(Box::new(make_pic(5670, 5670, true))),
        Control::Picture(Box::new(make_pic(5670, 5670, true))),
    ];
    let result = widths_px(&controls, 96.0);
    assert_eq!(result.len(), 2);
    let total_width: f64 = result.iter().map(|(_, w)| w).sum();
    assert!((total_width - 151.2).abs() < 0.01);
}

fn float(wrap: TextWrap, rel: VertRelTo, tac: bool) -> Control {
    let mut pic = make_pic(100, 100, tac);
    pic.common.text_wrap = wrap;
    pic.common.vert_rel_to = rel;
    Control::Picture(Box::new(pic))
}

#[test]
fn floats_between_the_lines_count_where_they_reach_the_column() {
    let para = Paragraph {
        controls: vec![
            float(TextWrap::TopAndBottom, VertRelTo::Page, false),
            float(TextWrap::TopAndBottom, VertRelTo::Para, true),
            float(TextWrap::TopAndBottom, VertRelTo::Para, false),
        ],
        ..Default::default()
    };
    assert_eq!(topbottom_para_floats(&para.controls), vec![2]);
    assert!(has_para_topbottom_float_affecting_column(Some(&para), &[false, false, true]));
    assert!(!has_para_topbottom_float_affecting_column(Some(&para), &[true, true, false]));
    assert!(!has_para_topbottom_float_affecting_column(None, &[]));
}

#[test]
fn square_floats_are_pictures_or_shapes_beside_the_text() {
    let mut para = Paragraph {
        controls: vec![float(TextWrap::Square, VertRelTo::Para, false)],
        ..Default::default()
    };
    assert!(has_picture_shape_square_wrap(Some(&para)));
    assert!(!has_ole_shape_square_wrap(Some(&para)));
    let mut shape = ShapeObject {
        is_ole: true,
        ..Default::default()
    };
    shape.common.text_wrap = TextWrap::Square;
    para.controls = vec![Control::Shape(Box::new(shape))];
    assert!(has_ole_shape_square_wrap(Some(&para)));
    para.controls = vec![float(TextWrap::Square, VertRelTo::Para, true)];
    assert!(!has_picture_shape_square_wrap(Some(&para)));
    assert!(!has_picture_shape_square_wrap(None));
}

#[test]
fn only_pictures_and_shapes_have_these_attributes() {
    assert!(picture_or_shape_attr(&Control::Table(Box::default())).is_none());
    let attr = picture_or_shape_attr(&Control::Picture(Box::new(make_pic(7, 8, true)))).unwrap();
    assert_eq!((attr.width, attr.height), (7, 8));
}
