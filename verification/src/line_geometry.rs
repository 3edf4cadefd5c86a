//! Where a line lies in its column: stored line geometry against the paragraph's own
//! margins. All lengths are in HWPUNIT.

use vstd::prelude::*;

use crate::composed::ComposedLine;
use crate::composed::ComposedParagraph;
use crate::composed::InlineControlType;
use crate::frame::WIDTH_TOLERANCE_HU;
use crate::model::Alignment;
use crate::model::Control;
use crate::model::LineSeg;
use crate::model::Paragraph;
use crate::model::Table;

verus! {

/// How far a stored line start may lie from the paragraph's margin and still be it.
pub const EMPTY_LINE_OWN_MARGIN_TOLERANCE_HU: i32 = 200;

/// Stored widths of one paragraph that differ by more than this are of several kinds.
pub const MIXED_WIDTH_HU: i32 = 1000;

/// A line that is narrower than its column by more than this has a neighbour.
pub const FLOAT_GAP_HU: i32 = 1200;

/// The control with the given index is a shape.
pub open spec fn shape_at(para: Paragraph, index: int) -> bool {
    0 <= index < para.controls@.len() && para.controls@[index] is Shape
}

/// The control with the given index is a table laid out like a character.
pub open spec fn inline_table_at(para: Paragraph, index: int) -> bool {
    0 <= index < para.controls@.len() && (para.controls@[index] matches Control::Table(table)
        && table.common.treat_as_char)
}

/// The control with the given index is a shape laid out like a character that takes
/// more height in the flow than it declares.
pub open spec fn tall_shape_at(para: Paragraph, index: int) -> bool {
    0 <= index < para.controls@.len() && (para.controls@[index] matches Control::Shape(shape)
        && shape.common.treat_as_char && shape.flow_height > shape.common.height as i32)
}

/// One of the objects is a shape.
pub open spec fn holds_shape<W>(para: Paragraph, objects: Seq<(usize, W, usize)>) -> bool {
    exists|k: int| 0 <= k < objects.len() && shape_at(para, (#[trigger] objects[k]).2 as int)
}

/// One of the objects is a table laid out like a character.
pub open spec fn holds_inline_table<W>(para: Paragraph, objects: Seq<(usize, W, usize)>) -> bool {
    exists|k: int|
        0 <= k < objects.len() && inline_table_at(para, (#[trigger] objects[k]).2 as int)
}

/// One of the objects is a shape that takes more height than it declares.
pub open spec fn holds_tall_shape<W>(para: Paragraph, objects: Seq<(usize, W, usize)>) -> bool {
    exists|k: int| 0 <= k < objects.len() && tall_shape_at(para, (#[trigger] objects[k]).2 as int)
}

/// Whether one of the objects is a shape.
pub fn has_tac_shape<W: Copy>(para: Option<&Paragraph>, tac_offsets: &[(usize, W, usize)]) -> (r:
    bool)
    ensures
        r == (para matches Some(p) && holds_shape(*p, tac_offsets@)),
{
    match para {
        Some(p) => {
            for k in 0..tac_offsets.len()
                invariant
                    para == Some(p),
                    forall|i: int|
                        0 <= i < k ==> !shape_at(*p, (#[trigger] tac_offsets@[i]).2 as int),
            {
                let offset: (usize, W, usize) = tac_offsets[k];
                if offset.2 < p.controls.len() && matches!(p.controls[offset.2], Control::Shape(_)) {
                    assert(shape_at(*p, tac_offsets@[k as int].2 as int));
                    return true;
                }
            }
            false
        },
        None => false,
    }
}

/// Whether one of the objects is a table laid out like a character.
pub fn line_has_inline_tac_table<W: Copy>(
    para: Option<&Paragraph>,
    line_objects: &[(usize, W, usize)],
) -> (r: bool)
    ensures
        r == (para matches Some(p) && holds_inline_table(*p, line_objects@)),
{
    match para {
        Some(p) => {
            for k in 0..line_objects.len()
                invariant
                    para == Some(p),
                    forall|i: int|
                        0 <= i < k ==> !inline_table_at(
                            *p,
                            (#[trigger] line_objects@[i]).2 as int,
                        ),
            {
                let offset: (usize, W, usize) = line_objects[k];
                if offset.2 < p.controls.len() {
                    if let Control::Table(table) = &p.controls[offset.2] {
                        if table.common.treat_as_char {
                            assert(inline_table_at(*p, line_objects@[k as int].2 as int));
                            return true;
                        }
                    }
                }
            }
            false
        },
        None => false,
    }
}

/// Whether an empty line holds a shape that takes more height than it declares.
pub fn empty_tac_guide_has_explicit_shape_height<W: Copy>(
    para: Option<&Paragraph>,
    line: &ComposedLine,
    line_objects: &[(usize, W, usize)],
) -> (r: bool)
    ensures
        r == (line.runs@.len() == 0 && (para matches Some(p) && holds_tall_shape(
            *p,
            line_objects@,
        ))),
{
    if line.runs.len() > 0 {
        return false;
    }
    match para {
        Some(p) => {
            for k in 0..line_objects.len()
                invariant
                    line.runs@.len() == 0,
                    para == Some(p),
                    forall|i: int|
                        0 <= i < k ==> !tall_shape_at(
                            *p,
                            (#[trigger] line_objects@[i]).2 as int,
                        ),
            {
                let offset: (usize, W, usize) = line_objects[k];
                if offset.2 < p.controls.len() {
                    if let Control::Shape(shape) = &p.controls[offset.2] {
                        if shape.common.treat_as_char && shape.flow_height > shape.common.height as i32 {
                            assert(tall_shape_at(*p, line_objects@[k as int].2 as int));
                            return true;
                        }
                    }
                }
            }
            false
        },
        None => false,
    }
}

/// Whether the stored width of a line with a table is the paragraph's own, with its right
/// margin taken off: in a cell, for a paragraph without a left margin.
pub fn inline_segment_is_paragraph_width(
    in_cell: bool,
    column_start: i32,
    segment_width: i32,
    has_left_margin: bool,
    has_right_margin: bool,
    paragraph_width: i32,
) -> (r: bool)
    ensures
        r == (in_cell && column_start == 0 && !has_left_margin && has_right_margin && -1
            <= segment_width - paragraph_width <= 1),
{
    if !in_cell || column_start != 0 || has_left_margin || !has_right_margin {
        return false;
    }
    let gap: i64 = segment_width as i64 - paragraph_width as i64;
    -1 <= gap && gap <= 1
}

/// Whether the stored line says that no indentation applies to it.
///
/// Outside of cells, where every composed line has its stored one, the mark of a
/// line from the file is the answer.
pub fn stored_seg_denies_indent(
    para: Option<&Paragraph>,
    comp: &ComposedParagraph,
    in_cell: bool,
    line_idx: usize,
) -> (r: bool)
    ensures
        r == (!in_cell && (para matches Some(p) && p.line_segs@.len() == comp.lines@.len()
            && line_idx < p.line_segs@.len()
            && !p.line_segs@[line_idx as int].implementation_property
            && !p.line_segs@[line_idx as int].indentation)),
{
    match para {
        Some(p) => !in_cell && p.line_segs.len() == comp.lines.len() && line_idx
            < p.line_segs.len() && !p.line_segs[line_idx].implementation_property
            && !p.line_segs[line_idx].indentation,
        None => false,
    }
}

/// Two stored lines of the paragraph have widths of different kinds.
pub open spec fn widths_are_mixed(segs: Seq<LineSeg>) -> bool {
    exists|i: int, j: int|
        0 <= i < segs.len() && 0 <= j < segs.len() && 0 < (#[trigger] segs[i]).segment_width && (
        #[trigger] segs[j]).segment_width - segs[i].segment_width > MIXED_WIDTH_HU
}

/// Whether narrow and wide stored lines are mixed in the paragraph.
pub fn has_mixed_segment_widths(para: Option<&Paragraph>) -> (r: bool)
    ensures
        r == (para matches Some(p) && widths_are_mixed(p.line_segs@)),
{
    match para {
        Some(p) => {
            let mut min_sw: i32 = i32::MAX;
            let mut max_sw: i32 = 0;
            let ghost segs = p.line_segs@;
            for k in 0..p.line_segs.len()
                invariant
                    segs == p.line_segs@,
                    0 < min_sw,
                    0 <= max_sw,
                    forall|i: int|
                        0 <= i < k && 0 < (#[trigger] segs[i]).segment_width ==> min_sw
                            <= segs[i].segment_width <= max_sw,
                    (min_sw == i32::MAX && max_sw == 0) || exists|i: int|
                        0 <= i < k && (#[trigger] segs[i]).segment_width == min_sw,
                    max_sw == 0 || exists|i: int|
                        0 <= i < k && (#[trigger] segs[i]).segment_width == max_sw,
            {
                let width: i32 = p.line_segs[k].segment_width;
                let ghost low = min_sw;
                if width > 0 {
                    if width < min_sw {
                        min_sw = width;
                    }
                    if width > max_sw {
                        max_sw = width;
                    }
                }
                proof {
                    assert(segs[k as int].segment_width == width);
                    if width > 0 && width >= low && low == i32::MAX {
                        assert(min_sw == width);
                    }
                }
            }
            let mixed: bool = max_sw > min_sw && max_sw - min_sw > MIXED_WIDTH_HU;
            proof {
                if mixed {
                    let i = choose|i: int|
                        0 <= i < segs.len() && (#[trigger] segs[i]).segment_width == min_sw;
                    let j = choose|j: int|
                        0 <= j < segs.len() && (#[trigger] segs[j]).segment_width == max_sw;
                    assert(segs[j].segment_width - segs[i].segment_width > MIXED_WIDTH_HU);
                } else if widths_are_mixed(segs) {
                    let (i, j) = choose|i: int, j: int|
                        0 <= i < segs.len() && 0 <= j < segs.len() && 0 < (
                        #[trigger] segs[i]).segment_width && (#[trigger] segs[j]).segment_width
                            - segs[i].segment_width > MIXED_WIDTH_HU;
                    assert(min_sw <= segs[i].segment_width);
                    assert(segs[j].segment_width <= max_sw);
                }
            }
            mixed
        },
        None => false,
    }
}

/// The sum of two lengths, held within the range of a length.
pub open spec fn saturated_sum(a: int, b: int) -> int {
    if a + b > i32::MAX {
        i32::MAX as int
    } else if a + b < i32::MIN {
        i32::MIN as int
    } else {
        a + b
    }
}

/// What decides whether a line takes its place from the stored line.
#[derive(Clone, Copy, Debug, Default, PartialEq, Eq, Structural)]
pub struct LineGeometryFacts {
    pub in_cell: bool,
    /// The rows of the frame are the stored rows themselves.
    pub physical_frame_rows: bool,
    /// The paragraph has line segments from the file.
    pub stored_geometry_source: bool,
    /// The paragraph has a picture or shape that text flows around.
    pub has_square_wrap: bool,
    /// The line has a table laid out like a character.
    pub has_inline_table: bool,
    /// The stored width is the paragraph's own, with its right margin taken off.
    pub inline_table_fills_paragraph: bool,
    /// Stored lines of different kinds are mixed in the paragraph.
    pub mixed_widths: bool,
    /// The stored line lies beside an object.
    pub in_wrap_zone: bool,
    /// The paragraph has neither text nor controls.
    pub empty_paragraph: bool,
    /// The cell has an object that text flows around.
    pub cell_has_square_float: bool,
    /// An object of the page accounts for the width that the stored lines lack.
    pub float_accounts_for_gap: bool,
    pub segment_width: i32,
    pub column_start: i32,
    pub column_width: i32,
    /// The left margin of the paragraph.
    pub own_margin: i32,
}

impl LineGeometryFacts {
    /// The right edge of the stored line.
    pub open spec fn right_edge(self) -> int {
        saturated_sum(self.segment_width as int, self.column_start as int)
    }

    /// The stored line ends short of the column.
    pub open spec fn ends_short(self) -> bool {
        self.right_edge() < self.column_width - WIDTH_TOLERANCE_HU
    }

    /// The stored line starts inside the column and is narrower than it.
    pub open spec fn starts_inside(self) -> bool {
        self.column_start > 0 && self.segment_width > 0 && self.segment_width < self.column_width
    }

    /// The stored line starts where the paragraph's own margin ends.
    pub open spec fn start_is_own_margin(self) -> bool {
        -EMPTY_LINE_OWN_MARGIN_TOLERANCE_HU <= self.column_start - self.own_margin
            <= EMPTY_LINE_OWN_MARGIN_TOLERANCE_HU
    }

    /// The line lies beside an object that the paragraph does not hold: the widths of
    /// the paragraph are mixed and this one is narrow.
    pub open spec fn beside_foreign_object(self) -> bool {
        !self.in_cell && self.mixed_widths && self.segment_width > 0 && self.ends_short()
            && self.in_wrap_zone
    }

    /// An empty paragraph's line lies beside an object.
    pub open spec fn empty_beside_object(self) -> bool {
        !self.in_cell && self.empty_paragraph && self.starts_inside()
            && !self.start_is_own_margin()
    }

    /// A line of a cell lies beside an object of the cell.
    pub open spec fn beside_cell_object(self) -> bool {
        self.in_cell && self.cell_has_square_float && self.starts_inside()
    }

    /// All lines of the paragraph are narrow, and an object accounts for it.
    pub open spec fn beside_page_object(self) -> bool {
        !self.in_cell && !self.mixed_widths && self.column_start == 0 && self.segment_width > 0
            && self.column_width - self.right_edge() > FLOAT_GAP_HU && self.float_accounts_for_gap
    }

    /// Something outside of the paragraph's margins makes the line narrow.
    pub open spec fn has_reason_to_be_narrow(self) -> bool {
        ||| self.has_square_wrap
        ||| self.has_inline_table && !self.inline_table_fills_paragraph
        ||| self.beside_foreign_object()
        ||| self.empty_beside_object()
        ||| self.beside_page_object()
        ||| self.beside_cell_object()
    }

    /// The line takes its place from the stored line.
    pub open spec fn follows_stored_line(self) -> bool {
        self.physical_frame_rows || (self.stored_geometry_source && self.segment_width > 0 && (
        self.ends_short() || self.starts_inside()) && self.has_reason_to_be_narrow())
    }

    /// The width that a stored line lacks to fill the column.
    pub fn missing_width(&self) -> (r: i32)
        ensures
            r == saturated_sum(self.column_width as int, -self.right_edge()),
    {
        let right: i64 = self.stored_right_edge();
        let missing: i64 = self.column_width as i64 - right;
        if missing > i32::MAX as i64 {
            i32::MAX
        } else if missing < i32::MIN as i64 {
            i32::MIN
        } else {
            missing as i32
        }
    }

    fn stored_right_edge(&self) -> (r: i64)
        ensures
            r == self.right_edge(),
    {
        let sum: i64 = self.segment_width as i64 + self.column_start as i64;
        if sum > i32::MAX as i64 {
            i32::MAX as i64
        } else if sum < i32::MIN as i64 {
            i32::MIN as i64
        } else {
            sum
        }
    }

    /// Whether the stored line starts where the paragraph's own margin ends.
    pub fn cs_is_own_margin(&self) -> (r: bool)
        ensures
            r == self.start_is_own_margin(),
    {
        let difference: i64 = self.column_start as i64 - self.own_margin as i64;
        -(EMPTY_LINE_OWN_MARGIN_TOLERANCE_HU as i64) <= difference && difference
            <= EMPTY_LINE_OWN_MARGIN_TOLERANCE_HU as i64
    }

    /// Whether the line takes its place from the stored line.
    pub fn uses_stored_segment_geometry(&self) -> (r: bool)
        ensures
            r == self.follows_stored_line(),
    {
        if self.physical_frame_rows {
            return true;
        }
        let right: i64 = self.stored_right_edge();
        let column: i64 = self.column_width as i64;
        let ends_short: bool = right < column - WIDTH_TOLERANCE_HU as i64;
        let starts_inside: bool = self.column_start > 0 && self.segment_width > 0
            && self.segment_width < self.column_width;
        if !self.stored_geometry_source || self.segment_width <= 0 || !(ends_short
            || starts_inside) {
            return false;
        }
        let beside_foreign_object: bool = !self.in_cell && self.mixed_widths && ends_short
            && self.in_wrap_zone;
        let empty_beside_object: bool = !self.in_cell && self.empty_paragraph && starts_inside
            && !self.cs_is_own_margin();
        let beside_cell_object: bool = self.in_cell && self.cell_has_square_float
            && starts_inside;
        let beside_page_object: bool = !self.in_cell && !self.mixed_widths && self.column_start
            == 0 && column - right > FLOAT_GAP_HU as i64 && self.float_accounts_for_gap;
        self.has_square_wrap || (self.has_inline_table && !self.inline_table_fills_paragraph)
            || beside_foreign_object || empty_beside_object || beside_page_object
            || beside_cell_object
    }
}

/// A line that fills its column and starts where the paragraph's margin ends keeps
/// to the paragraph's margins, unless an object of the paragraph itself is beside it.
pub proof fn lemma_full_width_line_keeps_margins(facts: LineGeometryFacts)
    requires
        !facts.physical_frame_rows,
        !facts.in_cell,
        !facts.has_square_wrap,
        !facts.has_inline_table,
        facts.start_is_own_margin(),
        -WIDTH_TOLERANCE_HU <= facts.right_edge() - facts.column_width <= WIDTH_TOLERANCE_HU,
    ensures
        !facts.follows_stored_line(),
{
}

/// A paragraph without line segments from the file never takes stored geometry.
pub proof fn lemma_no_stored_lines_no_stored_geometry(facts: LineGeometryFacts)
    requires
        !facts.physical_frame_rows,
        !facts.stored_geometry_source,
    ensures
        !facts.follows_stored_line(),
{
}

/// Whether the start of a stored line may replace the paragraph's margin: in body
/// text of a document that stores line starts, for a plain paragraph whose line does
/// not lie beside an object.
pub fn hwp5_stored_line_start_eligible(
    in_cell: bool,
    is_body_column: bool,
    alignment: Alignment,
    has_wrap_anchor: bool,
    uses_stored_geometry: bool,
    has_numbering: bool,
    para: Option<&Paragraph>,
    profile_stores_line_starts: bool,
) -> (r: bool)
    ensures
        r == (!in_cell && is_body_column && (alignment == Alignment::Justify || alignment
            == Alignment::Left) && !has_wrap_anchor && !uses_stored_geometry && !has_numbering && (
        para matches Some(p) && p.controls@.len() == 0) && profile_stores_line_starts),
{
    let no_controls: bool = match para {
        Some(p) => p.controls.len() == 0,
        None => false,
    };
    !in_cell && is_body_column && (alignment == Alignment::Justify || alignment == Alignment::Left)
        && !has_wrap_anchor && !uses_stored_geometry && !has_numbering && no_controls
        && profile_stores_line_starts
}

/// The stored line starts inside the column and ends where the column ends.
pub open spec fn is_full_width_line(seg: LineSeg, column_width: int) -> bool {
    &&& seg.column_start > 0
    &&& seg.segment_width > 0
    &&& -WIDTH_TOLERANCE_HU <= saturated_sum(seg.column_start as int, seg.segment_width as int)
        - column_width <= WIDTH_TOLERANCE_HU
}

/// The stored line start that a line is moved to at least, in HWPUNIT; `None` where
/// the paragraph's margin stands.
pub fn authoritative_stored_line_start(
    line_seg: Option<&LineSeg>,
    column_width_hu: i32,
    eligible: bool,
) -> (r: Option<i32>)
    ensures
        r == (match line_seg {
            Some(seg) => if eligible && !seg.implementation_property && is_full_width_line(
                *seg,
                column_width_hu as int,
            ) {
                Some(seg.column_start)
            } else {
                None
            },
            None => None,
        }),
{
    match line_seg {
        Some(seg) => {
            if !eligible || seg.implementation_property || seg.column_start <= 0
                || seg.segment_width <= 0 {
                return None;
            }
            let mut right: i64 = seg.column_start as i64 + seg.segment_width as i64;
            if right > i32::MAX as i64 {
                right = i32::MAX as i64;
            }
            let difference: i64 = right - column_width_hu as i64;
            if -(WIDTH_TOLERANCE_HU as i64) <= difference && difference
                <= WIDTH_TOLERANCE_HU as i64 {
                Some(seg.column_start)
            } else {
                None
            }
        },
        None => None,
    }
}

/// Whether a line box from the file stands without the paragraph's margins: the rows
/// are the frame's own, the box already holds them, or it cannot hold them.
pub fn stored_box_replaces_margins(
    physical_frame_rows: bool,
    uses_stored_geometry: bool,
    in_cell: bool,
    cs_is_own_margin: bool,
    has_stored_assignment: bool,
    password_layout: bool,
    margins_fill_box: bool,
) -> (r: bool)
    ensures
        r == (physical_frame_rows || (uses_stored_geometry && (password_layout || margins_fill_box
            || (!in_cell && cs_is_own_margin && has_stored_assignment)))),
{
    let stored_inline_own_margin: bool = uses_stored_geometry && !in_cell && cs_is_own_margin
        && has_stored_assignment;
    let password_box: bool = uses_stored_geometry && password_layout;
    let cannot_hold_margins: bool = uses_stored_geometry && !password_box && margins_fill_box;
    physical_frame_rows || stored_inline_own_margin || password_box || cannot_hold_margins
}

/// The part of the column that a line beside an anchored object has.
#[derive(Clone, Copy, Debug, PartialEq, Eq, Structural)]
pub struct WrapZone {
    /// Distance of the line from the column's edge.
    pub start: i32,
    /// Width of the line; `None` where the column's own width stands.
    pub width: Option<i32>,
    /// The zone comes from the anchor, not from a stored line.
    pub synthetic: bool,
}

/// Start and width of the zone before the distance of the object is taken into
/// account: of the stored line, of the anchor for a line in its band, or none.
pub open spec fn wrap_zone_source(
    seg: Option<LineSeg>,
    in_band: bool,
    anchor_cs: i32,
    anchor_sw: i32,
) -> (int, int) {
    match seg {
        Some(s) => (s.column_start as int, s.segment_width as int),
        None => if in_band {
            (anchor_cs as int, anchor_sw as int)
        } else {
            (0, 0)
        },
    }
}

/// The zone of a line beside an anchored object. The distance that the object keeps
/// moves the start and narrows the width.
pub fn wrap_zone(
    seg: Option<&LineSeg>,
    in_band: bool,
    anchor_cs: i32,
    anchor_sw: i32,
    anchor_margin_right: i32,
) -> (zone: WrapZone)
    requires
        ({
            let s = match seg {
                Some(x) => Some(*x),
                None => None,
            };
            let source = wrap_zone_source(s, in_band, anchor_cs, anchor_sw);
            &&& i32::MIN <= source.0 + anchor_margin_right <= i32::MAX
            &&& source.1 > 0 ==> source.1 - anchor_margin_right <= i32::MAX
        }),
    ensures
        ({
            let s = match seg {
                Some(x) => Some(*x),
                None => None,
            };
            let source = wrap_zone_source(s, in_band, anchor_cs, anchor_sw);
            &&& zone.start == source.0 + anchor_margin_right
            &&& zone.width is Some <==> source.1 > 0
            &&& zone.width matches Some(w) ==> w == if source.1 >= anchor_margin_right {
                source.1 - anchor_margin_right
            } else {
                0
            }
            &&& zone.synthetic == (seg is None && in_band)
        }),
{
    let mut cs: i32 = 0;
    let mut sw: i32 = 0;
    let mut synthetic: bool = false;
    match seg {
        Some(s) => {
            cs = s.column_start;
            sw = s.segment_width;
        },
        None => {
            if in_band {
                cs = anchor_cs;
                sw = anchor_sw;
                synthetic = true;
            }
        },
    }
    let mut width: Option<i32> = None;
    if sw > 0 {
        let net: i32 = sw - anchor_margin_right;
        width = Some(
            if net > 0 {
                net
            } else {
                0
            },
        );
    }
    WrapZone { start: cs + anchor_margin_right, width, synthetic }
}

/// Whether a table or shape laid out like a character stands in the line.
pub fn line_has_as_char_object(comp: &ComposedParagraph, line_idx: usize) -> (r: bool)
    ensures
        r == exists|k: int|
            0 <= k < comp.inline_controls@.len() && (#[trigger] comp.inline_controls@[k]).line_index
                == line_idx && (comp.inline_controls@[k].control_type == InlineControlType::Table
                || comp.inline_controls@[k].control_type == InlineControlType::Shape),
{
    for k in 0..comp.inline_controls.len()
        invariant
            forall|i: int|
                0 <= i < k ==> !((#[trigger] comp.inline_controls@[i]).line_index == line_idx && (
                comp.inline_controls@[i].control_type == InlineControlType::Table
                    || comp.inline_controls@[i].control_type == InlineControlType::Shape)),
    {
        let control = &comp.inline_controls[k];
        if control.line_index == line_idx && (control.control_type == InlineControlType::Table
            || control.control_type == InlineControlType::Shape) {
            assert(comp.inline_controls@[k as int].line_index == line_idx);
            return true;
        }
    }
    false
}

/// The line is the last of its paragraph: the last composed one, or, in a frame of
/// physical rows, one with only empty rows behind it.
pub open spec fn ends_paragraph(
    comp: ComposedParagraph,
    para: Option<&Paragraph>,
    physical_frame_rows: bool,
    line_idx: int,
    end: int,
) -> bool {
    end == comp.lines@.len() && (line_idx + 1 == end || (physical_frame_rows && (
    para matches Some(p) && forall|i: int|
        line_idx < i < end ==> (#[trigger] p.line_segs@[i]).empty_segment)))
}

/// The rows behind the line, where they are asked for, are stored.
pub open spec fn rows_behind_are_stored(
    comp: ComposedParagraph,
    para: Option<&Paragraph>,
    physical_frame_rows: bool,
    line_idx: int,
    end: int,
) -> bool {
    physical_frame_rows && end == comp.lines@.len() && line_idx + 1 < end ==> (
    para matches Some(p) ==> end <= p.line_segs@.len())
}

/// Whether the line is the last of its paragraph.
pub fn is_last_line_of_para(
    comp: &ComposedParagraph,
    para: Option<&Paragraph>,
    physical_frame_rows: bool,
    line_idx: usize,
    end: usize,
) -> (r: bool)
    requires
        line_idx < end,
        rows_behind_are_stored(*comp, para, physical_frame_rows, line_idx as int, end as int),
    ensures
        r == ends_paragraph(*comp, para, physical_frame_rows, line_idx as int, end as int),
{
    if end != comp.lines.len() {
        return false;
    }
    if line_idx == end - 1 {
        return true;
    }
    if !physical_frame_rows {
        return false;
    }
    match para {
        Some(p) => {
            for i in line_idx + 1..end
                invariant
                    end == comp.lines@.len(),
                    line_idx + 1 < end,
                    para == Some(p),
                    end <= p.line_segs@.len(),
                    forall|k: int| line_idx < k < i ==> (#[trigger] p.line_segs@[k]).empty_segment,
            {
                if !p.line_segs[i].empty_segment {
                    assert(!p.line_segs@[i as int].empty_segment);
                    return false;
                }
            }
            true
        },
        None => false,
    }
}

/// The stored width of the only line of a cell paragraph: the file says that the
/// text fits into this width.
pub fn stored_single_line_width(
    in_cell: bool,
    comp: &ComposedParagraph,
    para: Option<&Paragraph>,
) -> (r: Option<i32>)
    ensures
        r == (if in_cell && comp.lines@.len() == 1 && para is Some && para->0.line_segs@.len() == 1
            && !para->0.line_segs@[0].implementation_property {
            Some(para->0.line_segs@[0].segment_width)
        } else {
            None
        }),
{
    match para {
        Some(p) => if in_cell && comp.lines.len() == 1 && p.line_segs.len() == 1
            && !p.line_segs[0].implementation_property {
            Some(p.line_segs[0].segment_width)
        } else {
            None
        },
        None => None,
    }
}

/// Every composed line of a cell paragraph has its stored line from the file.
pub open spec fn ladder_is_testimony(
    in_cell: bool,
    comp: ComposedParagraph,
    para: Option<&Paragraph>,
) -> bool {
    in_cell && (para matches Some(p) && p.line_segs@.len() > 0 && p.line_segs@.len()
        == comp.lines@.len() && forall|i: int|
        0 <= i < p.line_segs@.len() ==> !(#[trigger] p.line_segs@[i]).implementation_property)
}

/// The widest stored line of a cell paragraph whose lines are all from the file: the
/// file says that the text fits into a frame of this width.
pub fn stored_ladder_width(
    in_cell: bool,
    comp: &ComposedParagraph,
    para: Option<&Paragraph>,
) -> (r: Option<i32>)
    ensures
        r is Some <==> ladder_is_testimony(in_cell, *comp, para),
        r matches Some(width) ==> (forall|i: int|
            0 <= i < para->0.line_segs@.len() ==> (
            #[trigger] para->0.line_segs@[i]).segment_width <= width) && (exists|i: int|
            0 <= i < para->0.line_segs@.len() && (
            #[trigger] para->0.line_segs@[i]).segment_width == width),
{
    match para {
        Some(p) => {
            if !in_cell || p.line_segs.len() == 0 || p.line_segs.len() != comp.lines.len() {
                return None;
            }
            let mut width: i32 = p.line_segs[0].segment_width;
            for i in 0..p.line_segs.len()
                invariant
                    para == Some(p),
                    in_cell,
                    p.line_segs@.len() > 0,
                    p.line_segs@.len() == comp.lines@.len(),
                    i == 0 ==> width == p.line_segs@[0].segment_width,
                    forall|k: int|
                        0 <= k < i ==> !(#[trigger] p.line_segs@[k]).implementation_property
                            && p.line_segs@[k].segment_width <= width,
                    i > 0 ==> exists|k: int|
                        0 <= k < i && (#[trigger] p.line_segs@[k]).segment_width == width,
            {
                if p.line_segs[i].implementation_property {
                    assert(p.line_segs@[i as int].implementation_property);
                    return None;
                }
                if i == 0 || p.line_segs[i].segment_width > width {
                    width = p.line_segs[i].segment_width;
                    assert(p.line_segs@[i as int].segment_width == width);
                }
            }
            Some(width)
        },
        None => None,
    }
}

/// The stored line box is exactly the table with its outer margins.
pub open spec fn band_holds_table(line_height: int, top: int, declared: int, bottom: int) -> bool {
    &&& top > 0
    &&& bottom > 0
    &&& declared > 0
    &&& line_height == top + declared + bottom
}

/// The height that a control declares, as a signed length.
pub open spec fn declared_height(height: u32) -> int {
    if height <= i32::MAX {
        height as int
    } else {
        i32::MAX as int
    }
}

/// Whether the only stored line of the paragraph is exactly the table's outer box:
/// the table then stands its outer margin below the top of the line.
pub fn tac_stored_band_is_outer_box(para: &Paragraph, table: &Table) -> (r: bool)
    ensures
        r == (para.line_segs@.len() == 1 && !para.line_segs@[0].implementation_property
            && band_holds_table(
            para.line_segs@[0].line_height as int,
            table.outer_margin_top as int,
            declared_height(table.common.height),
            table.outer_margin_bottom as int,
        )),
{
    let top: i64 = table.outer_margin_top as i64;
    let bottom: i64 = table.outer_margin_bottom as i64;
    let height: u32 = table.common.height;
    if top <= 0 || bottom <= 0 {
        return false;
    }
    let mut declared: i64 = i32::MAX as i64;
    if height <= i32::MAX as u32 {
        declared = height as i64;
    }
    if declared <= 0 || para.line_segs.len() != 1 || para.line_segs[0].implementation_property {
        return false;
    }
    para.line_segs[0].line_height as i64 == top + declared + bottom
}

} // verus!
