//! Objects in a line: which of them are drawn there, in which row, and from where.

use vstd::prelude::*;

use crate::cells::horizontal_space;
use crate::cells::is_caption_cell_context;
use crate::cells::leads_into_caption;
use crate::cells::space_beside;
use crate::cells::CellContext;
use crate::cells::FreeSpace;
use crate::composed::runs_char_count;
use crate::composed::ComposedLine;
use crate::composed::ComposedParagraph;
use crate::line_kinds::runs_are_white;
use crate::line_kinds::runs_all_whitespace;
use crate::model::Caption;
use crate::model::CaptionDirection;
use crate::model::CommonObjAttr;
use crate::model::Control;
use crate::model::HorzRelTo;
use crate::model::Paragraph;
use crate::model::Table;
use crate::seqs::indices;
use crate::seqs::lemma_filter_start;
use crate::seqs::lemma_filter_step;

verus! {

/// The control with this index.
pub open spec fn control_at(para: Option<&Paragraph>, index: int) -> Option<Control> {
    match para {
        Some(p) => if index < p.controls@.len() {
            Some(p.controls@[index])
        } else {
            None
        },
        None => None,
    }
}

/// Where free space goes beside a float that is placed in its column; `None` for one
/// that is placed on the page, which every column has to reckon with.
pub fn float_column_space(common: &CommonObjAttr) -> (r: Option<FreeSpace>)
    ensures
        r == (if common.horz_rel_to == HorzRelTo::Column || common.horz_rel_to == HorzRelTo::Para {
            Some(horizontal_space(common.horz_align))
        } else {
            None
        }),
{
    match common.horz_rel_to {
        HorzRelTo::Column | HorzRelTo::Para => Some(space_beside(common.horz_align)),
        _ => None,
    }
}

/// The space between an object and its caption, in HWPUNIT, where the caption makes
/// the object's box higher: one above or below it that has text.
pub fn caption_height_spacing(caption: Option<&Caption>) -> (r: Option<i16>)
    ensures
        r == (match caption {
            Some(c) => if (c.direction == CaptionDirection::Top || c.direction
                == CaptionDirection::Bottom) && c.paragraphs > 0 {
                Some(c.spacing)
            } else {
                None
            },
            None => None,
        }),
{
    match caption {
        Some(c) => if (c.direction == CaptionDirection::Top || c.direction
            == CaptionDirection::Bottom) && c.paragraphs > 0 {
            Some(c.spacing)
        } else {
            None
        },
        None => None,
    }
}

/// Whether a line of text introduces the picture on the next line, whose height the
/// file gives to both: the line is tall for its text, has text and no object, and the
/// next has nothing but an object of that height.
pub fn text_line_is_picture_lead_in(
    comp: &ComposedParagraph,
    line_idx: usize,
    is_tall: bool,
    has_object: bool,
    next_object_matches: bool,
) -> (r: bool)
    ensures
        r == (is_tall && line_idx + 1 < comp.lines@.len() && !runs_are_white(
            comp.lines@[line_idx as int].runs@,
        ) && !has_object && runs_are_white(comp.lines@[line_idx + 1].runs@)
            && next_object_matches),
{
    let n: usize = comp.lines.len();
    if !is_tall || line_idx >= n || line_idx + 1 >= n {
        return false;
    }
    !runs_all_whitespace(comp.lines[line_idx].runs.as_slice()) && !has_object
        && runs_all_whitespace(comp.lines[line_idx + 1].runs.as_slice()) && next_object_matches
}

/// Whether the height reserved for floats between the lines moves a picture down: not
/// where the stored lines count it, nor in an edited document, nor where the line is
/// already below the floats.
pub fn adds_sibling_reserve(
    lines_count_floats: bool,
    session_edited: bool,
    already_below: bool,
) -> (r: bool)
    ensures
        r == (!lines_count_floats && !session_edited && !already_below),
{
    !lines_count_floats && !session_edited && !already_below
}

/// What happens to a table in the text of a run.
#[derive(Clone, Copy, Debug, PartialEq, Eq, Structural)]
pub struct TableStep {
    /// Its outer margins count toward the width that it takes.
    pub takes_margins: bool,
    pub is_drawn: bool,
}

/// Decides what happens to a table in the text of a run. `flows_inline` says that the
/// paragraph's text flows around it.
pub fn run_table_step(table: &Table, in_cell: bool, flows_inline: bool, already_drawn: bool) -> (r:
    TableStep)
    ensures
        r.takes_margins == (table.common.treat_as_char && (in_cell || flows_inline)),
        r.is_drawn == (r.takes_margins && !already_drawn),
{
    let takes_margins: bool = table.common.treat_as_char && (in_cell || flows_inline);
    TableStep { takes_margins, is_drawn: takes_margins && !already_drawn }
}

/// The width that decides whether a table flows with the text: that of the stored
/// first line, else of the column.
pub fn table_flow_limit(para: &Paragraph, column_width: i32) -> (r: i32)
    ensures
        r == (if para.line_segs@.len() > 0 && para.line_segs@[0].segment_width > 0 {
            para.line_segs@[0].segment_width
        } else {
            column_width
        }),
{
    if para.line_segs.len() > 0 && para.line_segs[0].segment_width > 0 {
        para.line_segs[0].segment_width
    } else {
        column_width
    }
}

/// The table has an outer margin above or below.
pub open spec fn has_vertical_margin(table: Table) -> bool {
    table.outer_margin_top > 0 || table.outer_margin_bottom > 0
}

/// Object `i` of the line is a table in the text that fills the line with its margins.
pub open spec fn is_line_filling_table<W>(
    para: Option<&Paragraph>,
    objects: Seq<(usize, W, usize)>,
    fills: Seq<bool>,
    i: int,
) -> bool {
    control_at(para, objects[i].2 as int) matches Some(control) && control is Table
        && control->Table_0.common.treat_as_char && has_vertical_margin(*control->Table_0)
        && fills[i]
}

/// No object of the line is such a table.
pub open spec fn no_table_fills_line<W>(
    para: Option<&Paragraph>,
    objects: Seq<(usize, W, usize)>,
    fills: Seq<bool>,
) -> bool {
    forall|j: int|
        0 <= j < objects.len() ==> !#[trigger] is_line_filling_table(para, objects, fills, j)
}

/// The table that the tables of a line are aligned with: the first that fills the line
/// with its margins. `fills` says of each object whether its height and margins are
/// those of the line.
pub fn line_table_owner<W: Copy>(
    para: Option<&Paragraph>,
    objects: &[(usize, W, usize)],
    fills: &[bool],
) -> (r: Option<usize>)
    requires
        fills@.len() == objects@.len(),
    ensures
        r matches Some(i) ==> i < objects@.len() && is_line_filling_table(
            para,
            objects@,
            fills@,
            i as int,
        ) && forall|j: int|
            0 <= j < i ==> !#[trigger] is_line_filling_table(para, objects@, fills@, j),
        r is None ==> no_table_fills_line(para, objects@, fills@),
{
    for i in 0..objects.len()
        invariant
            fills@.len() == objects@.len(),
            forall|j: int|
                0 <= j < i ==> !#[trigger] is_line_filling_table(para, objects@, fills@, j),
    {
        let index: usize = objects[i].2;
        let mut found: bool = false;
        if let Some(p) = para {
            if index < p.controls.len() {
                if let Control::Table(table) = &p.controls[index] {
                    found = table.common.treat_as_char && (table.outer_margin_top > 0
                        || table.outer_margin_bottom > 0) && fills[i];
                }
            }
        }
        assert(found == is_line_filling_table(para, objects@, fills@, i as int));
        if found {
            return Some(i);
        }
    }
    None
}

/// Where a table in a run has its upper edge.
#[derive(Clone, Copy, Debug, PartialEq, Eq, Structural)]
pub enum RunTableSeat {
    /// Its upper margin below the top of the line.
    TopMargin,
    /// On the base line of the table that fills the line.
    OwnerBaseLine,
    /// On the base line of the text.
    BaseLine,
}

/// Decides where a table in a run has its upper edge; `fills_line` says that its height
/// and margins are those of the line.
pub fn run_table_seat(table: &Table, fills_line: bool, has_owner: bool) -> (r: RunTableSeat)
    ensures
        r == (if has_vertical_margin(*table) && fills_line {
            RunTableSeat::TopMargin
        } else if has_owner {
            RunTableSeat::OwnerBaseLine
        } else {
            RunTableSeat::BaseLine
        }),
{
    if (table.outer_margin_top > 0 || table.outer_margin_bottom > 0) && fills_line {
        RunTableSeat::TopMargin
    } else if has_owner {
        RunTableSeat::OwnerBaseLine
    } else {
        RunTableSeat::BaseLine
    }
}

/// The control that an equation is found by: in a cell that of the outermost table.
pub fn equation_control_index(context: Option<&CellContext>, control_index: usize) -> (r: usize)
    ensures
        r == (match context {
            Some(c) => if c.path@.len() > 0 {
                c.path@[0].control_index
            } else {
                control_index
            },
            None => control_index,
        }),
{
    match context {
        Some(c) => if c.path.len() > 0 {
            c.path[0].control_index
        } else {
            control_index
        },
        None => control_index,
    }
}

/// Object `i` stands behind the run loop's place and not behind the line's text, and is
/// a picture.
pub open spec fn is_unmatched_picture<W>(
    para: Option<&Paragraph>,
    objects: Seq<(usize, W, usize)>,
    run_char_pos: usize,
    text_end: int,
) -> spec_fn(usize) -> bool {
    |i: usize|
        run_char_pos < objects[i as int].0 && objects[i as int].0 <= text_end && (control_at(
            para,
            objects[i as int].2 as int,
        ) matches Some(control) && control is Picture)
}

/// The pictures of a line that none of its runs has drawn, by their number.
pub fn unmatched_line_pictures<W: Copy>(
    line: &ComposedLine,
    para: Option<&Paragraph>,
    objects: &[(usize, W, usize)],
    run_char_pos: usize,
) -> (r: Vec<usize>)
    requires
        line.fits(),
    ensures
        r@ == (if line.runs@.len() == 0 {
            Seq::empty()
        } else {
            indices(objects@.len()).filter(
                is_unmatched_picture(para, objects@, run_char_pos, line.text_end()),
            )
        }),
{
    let mut r: Vec<usize> = Vec::new();
    if line.runs.len() == 0 {
        return r;
    }
    let end: usize = line.char_start + runs_char_count(line.runs.as_slice());
    let ghost p = is_unmatched_picture(para, objects@, run_char_pos, line.text_end());
    let ghost all = indices(objects@.len());
    proof {
        lemma_filter_start(all, p);
    }
    for i in 0..objects.len()
        invariant
            end == line.text_end(),
            p == is_unmatched_picture(para, objects@, run_char_pos, line.text_end()),
            all == indices(objects@.len()),
            r@ == all.take(i as int).filter(p),
    {
        proof {
            lemma_filter_step(all, p, i as int);
        }
        let index: usize = objects[i].2;
        let mut is_picture: bool = false;
        if let Some(para) = para {
            if index < para.controls.len() {
                if let Control::Picture(_) = &para.controls[index] {
                    is_picture = true;
                }
            }
        }
        let found: bool = objects[i].0 > run_char_pos && objects[i].0 <= end && is_picture;
        assert(found == p(i));
        if found {
            r.push(i);
        }
    }
    assert(all.take(all.len() as int) == all);
    r
}

/// Object `i` is a form.
pub open spec fn is_form<W>(para: Option<&Paragraph>, objects: Seq<(usize, W, usize)>) -> spec_fn(
    usize,
) -> bool {
    |i: usize|
        control_at(para, objects[i as int].2 as int) matches Some(control) && control is Form
}

/// The forms on a line without runs, by their number.
pub fn empty_line_forms<W: Copy>(
    line: &ComposedLine,
    para: Option<&Paragraph>,
    objects: &[(usize, W, usize)],
) -> (r: Vec<usize>)
    ensures
        r@ == (if line.runs@.len() == 0 {
            indices(objects@.len()).filter(is_form(para, objects@))
        } else {
            Seq::empty()
        }),
{
    let mut r: Vec<usize> = Vec::new();
    if line.runs.len() != 0 {
        return r;
    }
    let ghost p = is_form(para, objects@);
    let ghost all = indices(objects@.len());
    proof {
        lemma_filter_start(all, p);
    }
    for i in 0..objects.len()
        invariant
            p == is_form(para, objects@),
            all == indices(objects@.len()),
            r@ == all.take(i as int).filter(p),
    {
        proof {
            lemma_filter_step(all, p, i as int);
        }
        let index: usize = objects[i].2;
        let mut found: bool = false;
        if let Some(para) = para {
            if index < para.controls.len() {
                if let Control::Form(_) = &para.controls[index] {
                    found = true;
                }
            }
        }
        assert(found == p(i));
        if found {
            r.push(i);
        }
    }
    assert(all.take(all.len() as int) == all);
    r
}

/// The next line has text and starts at the same character: a line without runs then
/// owns the objects there.
pub open spec fn owns_boundary_objects(comp: ComposedParagraph, line_idx: int) -> bool {
    line_idx + 1 < comp.lines@.len() && comp.lines@[line_idx + 1].char_start
        == comp.lines@[line_idx].char_start && comp.lines@[line_idx + 1].runs@.len() > 0
}

/// Whether the objects of a line without runs are drawn with it: outside of cells, in
/// captions, and where the line owns them before a line of text.
pub fn empty_line_draws_objects(
    comp: &ComposedParagraph,
    line_idx: usize,
    context: Option<&CellContext>,
) -> (r: bool)
    requires
        line_idx < comp.lines@.len(),
    ensures
        r == (context is None || leads_into_caption(context) || owns_boundary_objects(
            *comp,
            line_idx as int,
        )),
{
    if context.is_none() || is_caption_cell_context(context) {
        return true;
    }
    let n: usize = comp.lines.len();
    line_idx + 1 < n && comp.lines[line_idx + 1].char_start == comp.lines[line_idx].char_start
        && comp.lines[line_idx + 1].runs.len() > 0
}

/// What happens to an object of a line without runs.
#[derive(Clone, Copy, Debug, PartialEq, Eq, Structural)]
pub enum EmptyLineStep {
    /// Its place is noted, and it takes its width.
    PlaceShape,
    /// It is drawn, and takes its width.
    DrawTable,
    DrawPicture,
    /// It was drawn before, and takes its width.
    PassPicture,
    /// It takes no part in the line.
    Ignore,
}

impl EmptyLineStep {
    /// The object takes its width, and one place of the text.
    pub open spec fn advances(self) -> bool {
        !(self is Ignore)
    }
}

/// Decides what happens to an object of a line without runs. `already_drawn` says that
/// its place is known.
pub fn empty_line_step(
    para: &Paragraph,
    control_index: usize,
    in_cell: bool,
    already_drawn: bool,
) -> (r: EmptyLineStep)
    ensures
        r == (match control_at(Some(para), control_index as int) {
            Some(Control::Shape(_)) => EmptyLineStep::PlaceShape,
            Some(Control::Table(table)) => if table.common.treat_as_char && !already_drawn {
                EmptyLineStep::DrawTable
            } else {
                EmptyLineStep::Ignore
            },
            Some(Control::Picture(_)) => if in_cell && already_drawn {
                EmptyLineStep::PassPicture
            } else {
                EmptyLineStep::DrawPicture
            },
            _ => EmptyLineStep::Ignore,
        }),
{
    if control_index >= para.controls.len() {
        return EmptyLineStep::Ignore;
    }
    match &para.controls[control_index] {
        Control::Shape(_) => EmptyLineStep::PlaceShape,
        Control::Table(table) => if table.common.treat_as_char && !already_drawn {
            EmptyLineStep::DrawTable
        } else {
            EmptyLineStep::Ignore
        },
        Control::Picture(_) => if in_cell && already_drawn {
            EmptyLineStep::PassPicture
        } else {
            EmptyLineStep::DrawPicture
        },
        _ => EmptyLineStep::Ignore,
    }
}

/// How many of the steps advance.
pub open spec fn advance_count(steps: Seq<EmptyLineStep>) -> nat
    decreases steps.len(),
{
    if steps.len() == 0 {
        0
    } else {
        advance_count(steps.drop_last()) + if steps.last().advances() {
            1nat
        } else {
            0nat
        }
    }
}

/// The place behind the objects of a line without runs.
pub fn empty_line_logical_end(char_end: usize, steps: &[EmptyLineStep]) -> (r: usize)
    requires
        char_end + steps@.len() <= usize::MAX,
    ensures
        r == char_end + advance_count(steps@),
{
    let mut r: usize = char_end;
    assert(steps@.take(0) == Seq::<EmptyLineStep>::empty());
    for i in 0..steps.len()
        invariant
            char_end + steps@.len() <= usize::MAX,
            r == char_end + advance_count(steps@.take(i as int)),
            r <= char_end + i,
    {
        assert(steps@.take(i + 1).drop_last() == steps@.take(i as int));
        match steps[i] {
            EmptyLineStep::Ignore => {},
            _ => {
                r += 1;
            },
        }
    }
    assert(steps@.take(steps@.len() as int) == steps@);
    r
}

/// What the mark of a line without runs says: the end of the paragraph, and of a line
/// with a forced break.
pub fn empty_line_mark(is_last_line: bool, has_line_break: bool, is_deferred: bool) -> (r: (
    bool,
    bool,
))
    ensures
        r == (is_last_line && !is_deferred, has_line_break && !is_deferred),
{
    (is_last_line && !is_deferred, has_line_break && !is_deferred)
}

/// Whether the mark of a line's end waits until its objects are drawn: the line has no
/// runs, and its objects stand in rows.
pub fn defers_line_mark<W: Copy>(
    line: &ComposedLine,
    candidates: &[(usize, W, usize)],
    objects_in_rows: bool,
) -> (r: bool)
    ensures
        r == (line.runs@.len() == 0 && candidates@.len() > 0 && objects_in_rows),
{
    line.runs.len() == 0 && candidates.len() > 0 && objects_in_rows
}

/// The rows that the objects of a line of equations are broken into, by their number.
/// Without any the line is one row.
pub struct ObjectRows {
    pub row_of: Option<Vec<Option<usize>>>,
    /// The number of rows beside the first.
    pub extra_rows: usize,
}

impl ObjectRows {
    /// Object `k` has a row of its own.
    pub open spec fn has_row(self, k: int) -> bool {
        self.row_of is Some && k < self.row_of->0@.len() && self.row_of->0@[k] is Some
    }

    /// The row of object `k`; one that no row is known of is in the first, and none is
    /// below the last.
    pub open spec fn row(self, k: int) -> usize {
        if self.has_row(k) {
            if self.row_of->0@[k]->0 <= self.extra_rows {
                self.row_of->0@[k]->0
            } else {
                self.extra_rows
            }
        } else {
            0
        }
    }

    /// Object `k` is on the line: it has a row there, or, where there are no rows, its
    /// place is one of the line's.
    pub open spec fn on_line(self, k: int, place: usize, start: usize, next_start: Option<usize>) -> bool {
        if self.row_of is Some {
            self.has_row(k)
        } else {
            start <= place && place < (match next_start {
                Some(next) => next,
                None => usize::MAX,
            })
        }
    }
}

/// The objects of the first `n` that are on the line, each with its row.
pub open spec fn objects_in_rows<W>(
    rows: ObjectRows,
    objects: Seq<(usize, W, usize)>,
    start: usize,
    next_start: Option<usize>,
    n: int,
) -> Seq<(usize, usize)>
    decreases n,
{
    if n <= 0 {
        Seq::empty()
    } else {
        let before = objects_in_rows(rows, objects, start, next_start, n - 1);
        if rows.on_line(n - 1, objects[n - 1].0, start, next_start) {
            before.push(((n - 1) as usize, rows.row(n - 1)))
        } else {
            before
        }
    }
}

/// The objects of a line of equations, each with its row.
pub fn line_object_rows<W: Copy>(
    rows: &ObjectRows,
    objects: &[(usize, W, usize)],
    start: usize,
    next_start: Option<usize>,
) -> (r: Vec<(usize, usize)>)
    ensures
        r@ == objects_in_rows(*rows, objects@, start, next_start, objects@.len() as int),
        forall|i: int| 0 <= i < r@.len() ==> (#[trigger] r@[i]).1 <= rows.extra_rows,
{
    let mut r: Vec<(usize, usize)> = Vec::new();
    for k in 0..objects.len()
        invariant
            r@ == objects_in_rows(*rows, objects@, start, next_start, k as int),
            forall|i: int| 0 <= i < r@.len() ==> (#[trigger] r@[i]).1 <= rows.extra_rows,
    {
        let place: usize = objects[k].0;
        let mut row: usize = 0;
        let on_line: bool = match &rows.row_of {
            Some(row_of) => {
                if k < row_of.len() {
                    match row_of[k] {
                        Some(own) => {
                            row = own;
                            if own > rows.extra_rows {
                                row = rows.extra_rows;
                            }
                            true
                        },
                        None => false,
                    }
                } else {
                    false
                }
            },
            None => {
                let mut end: usize = usize::MAX;
                if let Some(next) = next_start {
                    end = next;
                }
                start <= place && place < end
            },
        };
        assert(on_line == rows.on_line(k as int, place, start, next_start));
        if on_line {
            assert(row == rows.row(k as int));
            r.push((k, row));
        }
    }
    r
}

/// Whether a line of equations is placed by the paragraph's alignment: in a cell, and
/// where the file gives the line no start of its own.
pub fn equations_follow_alignment(in_cell: bool, column_start: i32) -> (r: bool)
    ensures
        r == (in_cell || column_start == 0),
{
    in_cell || column_start == 0
}

/// The row is the last one in use, or the first where none is.
pub open spec fn is_marker_row(used: Seq<bool>, row: int) -> bool {
    &&& forall|i: int| row < i < used.len() ==> !#[trigger] used[i]
    &&& row == 0 || (0 < row < used.len() && used[row])
}

/// The last row with an object, or the first: the place of the line's mark. `used` says
/// of each row whether its objects have a width.
pub fn marker_row(used: &[bool]) -> (r: usize)
    ensures
        is_marker_row(used@, r as int),
{
    let mut i: usize = used.len();
    while i > 0
        invariant
            i <= used@.len(),
            forall|k: int| i <= k < used@.len() ==> !#[trigger] used@[k],
        decreases i,
    {
        if used[i - 1] {
            return i - 1;
        }
        i -= 1;
    }
    0
}

/// The height, in HWPUNIT, up to which an equation counts as a small result.
pub const SMALL_RESULT_HEIGHT: u32 = 1200;

/// Object `i` is an equation in the text, small enough to be a result.
pub open spec fn is_small_result<W>(
    para: Option<&Paragraph>,
    objects: Seq<(usize, W, usize)>,
    i: int,
) -> bool {
    control_at(para, objects[i].2 as int) matches Some(control) && control is Equation
        && control->Equation_0.common.treat_as_char && control->Equation_0.common.height
        <= SMALL_RESULT_HEIGHT
}

/// What is known of the last line of equations of an endnote.
#[derive(Clone, Copy, Debug, PartialEq, Eq, Structural)]
pub struct EndnoteTailFacts {
    pub in_cell: bool,
    /// The document has no space between endnotes.
    pub zero_spacing: bool,
    pub is_endnote: bool,
    /// The next paragraph belongs to the same endnote.
    pub has_successor: bool,
    pub is_last_line: bool,
    /// The line ends near the bottom of the column.
    pub near_bottom: bool,
}

/// Whether the last small equation of an endnote moves up, away from the next
/// endnote's title.
pub fn endnote_result_moves_up<W: Copy>(
    facts: EndnoteTailFacts,
    line: &ComposedLine,
    para: Option<&Paragraph>,
    line_objects: &[(usize, W, usize)],
    extra_rows: usize,
) -> (r: bool)
    ensures
        r == (!facts.in_cell && facts.zero_spacing && facts.is_endnote && !facts.has_successor
            && facts.is_last_line && extra_rows == 0 && line_objects@.len() == 1
            && line.runs@.len() == 0 && facts.near_bottom && is_small_result(
            para,
            line_objects@,
            0,
        )),
{
    if facts.in_cell || !facts.zero_spacing || !facts.is_endnote || facts.has_successor
        || !facts.is_last_line || extra_rows != 0 || line_objects.len() != 1 || line.runs.len()
        != 0 || !facts.near_bottom {
        return false;
    }
    let index: usize = line_objects[0].2;
    match para {
        Some(p) => if index < p.controls.len() {
            match &p.controls[index] {
                Control::Equation(equation) => equation.common.treat_as_char
                    && equation.common.height <= SMALL_RESULT_HEIGHT,
                _ => false,
            }
        } else {
            false
        },
        None => false,
    }
}

/// A line of a paragraph that was not composed.
#[derive(Clone, Copy, Debug, PartialEq, Eq, Structural)]
pub struct RawLine {
    /// The stored line; `None` for the one line of a paragraph without any.
    pub stored: Option<usize>,
    pub shows_text: bool,
    pub is_para_end: bool,
}

/// Line `i` of those that are drawn of a paragraph with stored lines.
pub open spec fn raw_line(has_text: bool, start: int, end: int, i: int) -> RawLine {
    RawLine {
        stored: Some((start + i) as usize),
        shows_text: has_text && i == 0,
        is_para_end: has_text && i == 0 && start + i == end - 1,
    }
}

/// The lines of a paragraph that was not composed: its stored lines, of which the
/// first shows the whole text, or one line.
pub open spec fn raw_lines_of(has_text: bool, stored: int, start: int, end_line: int) -> Seq<
    RawLine,
> {
    let end = if end_line <= stored {
        end_line
    } else {
        stored
    };
    if stored == 0 {
        seq![RawLine { stored: None, shows_text: has_text, is_para_end: has_text }]
    } else {
        Seq::new(
            (if end > start {
                end - start
            } else {
                0
            }) as nat,
            |i: int| raw_line(has_text, start, end, i),
        )
    }
}

/// The lines of a paragraph that was not composed.
pub fn raw_paragraph_lines(para: &Paragraph, start_line: usize, end_line: usize) -> (r: Vec<RawLine>)
    ensures
        r@ == raw_lines_of(
            para.text@.len() > 0,
            para.line_segs@.len() as int,
            start_line as int,
            end_line as int,
        ),
{
    let has_text: bool = !para.text.as_str().is_empty();
    let mut r: Vec<RawLine> = Vec::new();
    let stored: usize = para.line_segs.len();
    if stored == 0 {
        r.push(RawLine { stored: None, shows_text: has_text, is_para_end: has_text });
        assert(r@ == seq![RawLine { stored: None, shows_text: has_text, is_para_end: has_text }]);
        return r;
    }
    let mut end: usize = end_line;
    if end > stored {
        end = stored;
    }
    let mut line: usize = start_line;
    while line < end
        invariant
            start_line <= line,
            line <= end || line == start_line,
            r@ == Seq::new(
                (line - start_line) as nat,
                |i: int| raw_line(has_text, start_line as int, end as int, i),
            ),
        decreases end - line,
    {
        let shows_text: bool = has_text && line == start_line;
        r.push(
            RawLine { stored: Some(line), shows_text, is_para_end: shows_text && line == end - 1 },
        );
        assert(r@ == Seq::new(
            (line + 1 - start_line) as nat,
            |i: int| raw_line(has_text, start_line as int, end as int, i),
        ));
        line += 1;
    }
    r
}

/// The text of a box of a line plan, and whether it ends the paragraph.
pub fn plan_text(chars: &[char], start: usize, end: usize) -> (r: (String, bool))
    requires
        start <= end <= chars@.len(),
    ensures
        r.0@ == chars@.subrange(start as int, end as int),
        r.1 == (end == chars@.len()),
{
    let mut text = String::new();
    let mut i: usize = start;
    assert(chars@.subrange(start as int, start as int) == Seq::<char>::empty());
    while i < end
        invariant
            start <= i <= end <= chars@.len(),
            text@ == chars@.subrange(start as int, i as int),
        decreases end - i,
    {
        text.push(chars[i]);
        assert(chars@.subrange(start as int, i + 1) == chars@.subrange(
            start as int,
            i as int,
        ).push(chars@[i as int]));
        i += 1;
    }
    (text, end == chars.len())
}

} // verus!
