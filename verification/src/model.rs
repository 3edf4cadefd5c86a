//! The document values that paragraph layout reads.
//!
//! Lengths are in HWPUNIT (1/7200 inch). A position inside a paragraph is a
//! character index into its text; a stored offset counts UTF-16 units, with
//! eight units for an extended control.

use vstd::prelude::*;

verus! {

/// Paragraph alignment.
#[derive(Clone, Copy, Debug, Default, PartialEq, Eq, Structural)]
pub enum Alignment {
    #[default]
    Justify,
    Left,
    Right,
    Center,
    /// Free width goes between all characters.
    Distribute,
    /// Free width goes into the spaces.
    Split,
}

/// How text flows around an object.
#[derive(Clone, Copy, Debug, Default, PartialEq, Eq, Structural)]
pub enum TextWrap {
    #[default]
    Square,
    Tight,
    Through,
    TopAndBottom,
    BehindText,
    InFrontOfText,
}

/// What a vertical object offset is relative to.
#[derive(Clone, Copy, Debug, Default, PartialEq, Eq, Structural)]
pub enum VertRelTo {
    #[default]
    Paper,
    Page,
    Para,
}

/// What a horizontal object offset is relative to.
#[derive(Clone, Copy, Debug, Default, PartialEq, Eq, Structural)]
pub enum HorzRelTo {
    #[default]
    Paper,
    Page,
    Column,
    Para,
}

/// Horizontal alignment of an object in its reference area.
#[derive(Clone, Copy, Debug, Default, PartialEq, Eq, Structural)]
pub enum HorzAlign {
    #[default]
    Left,
    Center,
    Right,
    Inside,
    Outside,
}

/// Vertical alignment of an object in its reference area.
#[derive(Clone, Copy, Debug, Default, PartialEq, Eq, Structural)]
pub enum VertAlign {
    #[default]
    Top,
    Center,
    Bottom,
    Inside,
    Outside,
}

/// Vertical alignment of the content of a cell.
#[derive(Clone, Copy, Debug, Default, PartialEq, Eq, Structural)]
pub enum VerticalAlign {
    #[default]
    Top,
    Center,
    Bottom,
}

/// Side of an object that its caption stands on.
#[derive(Clone, Copy, Debug, Default, PartialEq, Eq, Structural)]
pub enum CaptionDirection {
    Left,
    Right,
    Top,
    #[default]
    Bottom,
}

/// Pages that a header or footer applies to.
#[derive(Clone, Copy, Debug, Default, PartialEq, Eq, Structural)]
pub enum HeaderFooterApply {
    #[default]
    Both,
    Even,
    Odd,
}

/// Outer margins of an object.
#[derive(Clone, Copy, Debug, Default, PartialEq, Eq, Structural)]
pub struct Margin {
    pub left: i16,
    pub right: i16,
    pub top: i16,
    pub bottom: i16,
}

/// The attributes that all drawing objects share.
#[derive(Clone, Copy, Debug, Default, PartialEq, Eq, Structural)]
pub struct CommonObjAttr {
    pub treat_as_char: bool,
    pub text_wrap: TextWrap,
    pub vert_rel_to: VertRelTo,
    pub horz_rel_to: HorzRelTo,
    pub horz_align: HorzAlign,
    pub vert_align: VertAlign,
    pub horizontal_offset: u32,
    pub vertical_offset: u32,
    pub flow_with_text: bool,
    pub width: u32,
    pub height: u32,
    pub margin: Margin,
}

/// A caption; `paragraphs` is how many paragraphs it holds.
#[derive(Clone, Copy, Debug, Default, PartialEq, Eq, Structural)]
pub struct Caption {
    pub direction: CaptionDirection,
    pub spacing: i16,
    pub paragraphs: usize,
}

/// A cell of a table.
#[derive(Debug, Default)]
pub struct Cell {
    pub col: u16,
    pub row: u16,
    pub col_span: u16,
    pub row_span: u16,
    pub width: u32,
    pub height: u32,
    pub border_fill_id: u16,
    /// 0: horizontal; 1: vertical, Latin letters lying; 2: vertical, letters upright.
    pub text_direction: u8,
    pub vertical_align: VerticalAlign,
    pub paragraphs: Vec<Paragraph>,
}

/// A table.
#[derive(Debug, Default)]
pub struct Table {
    pub common: CommonObjAttr,
    pub caption: Option<Caption>,
    pub outer_margin_left: i16,
    pub outer_margin_right: i16,
    pub outer_margin_top: i16,
    pub outer_margin_bottom: i16,
    pub row_count: u16,
    pub col_count: u16,
    pub cell_spacing: i16,
    /// The width that the table takes in the flow.
    pub flow_width: i32,
    pub border_fill_id: u16,
    pub cells: Vec<Cell>,
}

/// A rectangle cut out of an image.
#[derive(Clone, Copy, Debug, Default, PartialEq, Eq, Structural)]
pub struct CropRect {
    pub left: i32,
    pub top: i32,
    pub right: i32,
    pub bottom: i32,
}

/// A picture.
#[derive(Clone, Debug, Default)]
pub struct Picture {
    pub common: CommonObjAttr,
    pub caption: Option<Caption>,
    pub crop: CropRect,
    pub bin_data_id: u16,
}

/// A drawing shape; `name` is the word shown for its kind.
#[derive(Clone, Debug, Default)]
pub struct ShapeObject {
    pub common: CommonObjAttr,
    pub name: String,
    pub is_ole: bool,
    /// The height that the shape takes in the flow.
    pub flow_height: i32,
}

/// An equation.
#[derive(Clone, Debug, Default)]
pub struct Equation {
    pub common: CommonObjAttr,
}

/// A footnote or an endnote reference.
#[derive(Clone, Copy, Debug, Default, PartialEq, Eq, Structural)]
pub struct Note {
    pub number: u16,
    pub number_shape: u32,
    pub before_decoration_letter: u16,
    pub after_decoration_letter: u16,
}

/// A number that is counted by the document; `number_text` is its formatted value.
#[derive(Clone, Debug, Default)]
pub struct AutoNumber {
    pub number_text: String,
    pub prefix_char: char,
    pub suffix_char: char,
}

/// A form object.
#[derive(Clone, Debug, Default)]
pub struct FormObject {
    pub width: u32,
    pub height: u32,
    pub fore_color: u32,
    pub back_color: u32,
}

/// A field; `guide_text` is the prompt of a click-here field.
#[derive(Clone, Debug, Default)]
pub struct Field {
    pub is_click_here: bool,
    pub field_id: u32,
    pub guide_text: Option<String>,
}

/// A bookmark.
#[derive(Clone, Debug, Default)]
pub struct Bookmark {
    pub name: String,
}

/// A control of a paragraph.
#[derive(Debug)]
pub enum Control {
    Table(Box<Table>),
    Picture(Box<Picture>),
    Shape(Box<ShapeObject>),
    Equation(Box<Equation>),
    Form(Box<FormObject>),
    Field(Field),
    AutoNumber(AutoNumber),
    Footnote(Note),
    Endnote(Note),
    NewNumber,
    PageHide,
    PageNumberPos,
    Header(HeaderFooterApply),
    Footer(HeaderFooterApply),
    Bookmark(Bookmark),
    Other,
}

/// A stored line segment.
///
/// `text_start` is the value in the file; `lifted_start` is the same boundary on
/// the axis of `Paragraph::char_offsets`. The flags are the tag bits that layout
/// reads.
#[derive(Clone, Copy, Debug, Default, PartialEq, Eq, Structural)]
pub struct LineSeg {
    pub text_start: u32,
    pub lifted_start: u32,
    pub vertical_pos: i32,
    pub line_height: i32,
    pub text_height: i32,
    pub baseline_distance: i32,
    pub line_spacing: i32,
    pub column_start: i32,
    pub segment_width: i32,
    /// The segment was synthesised and is not from the file.
    pub implementation_property: bool,
    pub empty_segment: bool,
    pub single_segment_line: bool,
    pub indentation: bool,
}

/// The character shape that applies from a stored offset on.
#[derive(Clone, Copy, Debug, Default, PartialEq, Eq, Structural)]
pub struct CharShapeRef {
    pub start_pos: u32,
    pub char_shape_id: u32,
}

/// A tagged stretch of a paragraph, in stored offsets. The high byte of the tag is
/// its kind.
#[derive(Clone, Copy, Debug, Default, PartialEq, Eq, Structural)]
pub struct RangeTag {
    pub start: u32,
    pub end: u32,
    pub tag: u32,
}

/// The characters that a field covers, and the control that it belongs to.
#[derive(Clone, Copy, Debug, Default, PartialEq, Eq, Structural)]
pub struct FieldRange {
    pub start_char_idx: usize,
    pub end_char_idx: usize,
    pub control_idx: usize,
}

/// A paragraph.
///
/// `char_offsets[i]` is the stored offset of character `i`; `control_positions[i]`
/// is the character index at which control `i` stands, and
/// `logical_control_positions[i]` the logical position that its mark has.
#[derive(Debug, Default)]
pub struct Paragraph {
    pub text: String,
    pub char_count: u32,
    pub char_offsets: Vec<u32>,
    pub line_segs: Vec<LineSeg>,
    pub char_shapes: Vec<CharShapeRef>,
    pub controls: Vec<Control>,
    pub control_positions: Vec<usize>,
    pub logical_control_positions: Vec<usize>,
    pub range_tags: Vec<RangeTag>,
    pub field_ranges: Vec<FieldRange>,
    /// Positions of field ends whose start is in another paragraph.
    pub orphan_field_ends: Vec<usize>,
    /// Stored first-line position from before the lines were laddered anew.
    pub source_first_vertical_pos: Option<i32>,
    /// The stored lines no longer describe the edited text.
    pub stored_text_partition_dirty: bool,
    /// The paragraph has no line segments from the file.
    pub no_stored_line_segs: bool,
}

} // verus!
