//! What the objects of a line promise: which are drawn, in which row, and what kind of line
//! they make.

use vstd::prelude::*;

use crate::cells::CellContext;
use crate::cells::FreeSpace;
use crate::composed::runs_text;
use crate::composed::ComposedLine;
use crate::composed::ComposedParagraph;
use crate::composed::ComposedTextRun;
use crate::line_kinds::has_object_before_next_line;
use crate::line_kinds::has_tabs;
use crate::line_kinds::is_blank_spacer_line;
use crate::line_kinds::is_equation_only_tac_line;
use crate::line_kinds::is_leading_equation_guide;
use crate::line_kinds::runs_are_white;
use crate::line_kinds::strictly_on_line;
use crate::model::Caption;
use crate::model::CaptionDirection;
use crate::model::CommonObjAttr;
use crate::model::Control;
use crate::model::HorzAlign;
use crate::model::HorzRelTo;
use crate::model::Paragraph;
use crate::model::Table;
use crate::objects::adds_sibling_reserve;
use crate::objects::advance_count;
use crate::objects::caption_height_spacing;
use crate::objects::defers_line_mark;
use crate::objects::empty_line_draws_objects;
use crate::objects::empty_line_forms;
use crate::objects::empty_line_mark;
use crate::objects::empty_line_step;
use crate::objects::endnote_result_moves_up;
use crate::objects::equation_control_index;
use crate::objects::equations_follow_alignment;
use crate::objects::float_column_space;
use crate::objects::marker_row;
use crate::objects::objects_in_rows;
use crate::objects::plan_text;
use crate::objects::raw_lines_of;
use crate::objects::run_table_seat;
use crate::objects::run_table_step;
use crate::objects::table_flow_limit;
use crate::objects::text_line_is_picture_lead_in;
use crate::objects::unmatched_line_pictures;
use crate::objects::EmptyLineStep;
use crate::objects::EndnoteTailFacts;
use crate::objects::ObjectRows;
use crate::objects::RunTableSeat;
use crate::objects::TableStep;
use crate::seqs::indices;
use crate::text::all_white;

verus! {

/// An object of the column is placed in it by its own alignment; one of the page concerns
/// every column.
pub proof fn lemma_float_in_its_column(common: &CommonObjAttr, r: Option<FreeSpace>)
    requires
        call_ensures(float_column_space, (common,), r),
    ensures
        common.horz_rel_to != HorzRelTo::Column && common.horz_rel_to != HorzRelTo::Para
            <==> r is None,
        r is Some && common.horz_align == HorzAlign::Left ==> r == Some(FreeSpace::Behind),
        r is Some && common.horz_align == HorzAlign::Center ==> r == Some(FreeSpace::Around),
        r is Some && common.horz_align == HorzAlign::Right ==> r == Some(FreeSpace::Before),
{
}

/// A caption makes the box of its object higher where it has text and stands above or below.
pub proof fn lemma_height_of_a_caption(caption: &Caption, r: Option<i16>, none: Option<i16>)
    requires
        call_ensures(caption_height_spacing, (Some(caption),), r),
        call_ensures(caption_height_spacing, (None,), none),
    ensures
        none is None,
        caption.paragraphs == 0 ==> r is None,
        caption.paragraphs > 0 && (caption.direction == CaptionDirection::Top || caption.direction
            == CaptionDirection::Bottom) ==> r == Some(caption.spacing),
        caption.direction != CaptionDirection::Top && caption.direction != CaptionDirection::Bottom
            ==> r is None,
{
}

/// A line that leads into a picture has visible text and is followed by a line without any.
pub proof fn lemma_line_that_leads_in(
    comp: &ComposedParagraph,
    line_idx: usize,
    tall: bool,
    object: bool,
    matches: bool,
    r: bool,
)
    requires
        call_ensures(text_line_is_picture_lead_in, (comp, line_idx, tall, object, matches), r),
    ensures
        !tall || object || !matches || line_idx + 1 >= comp.lines@.len() ==> !r,
        r ==> !runs_are_white(comp.lines@[line_idx as int].runs@) && runs_are_white(
            comp.lines@[line_idx + 1].runs@,
        ),
        tall && !object && matches && line_idx + 1 < comp.lines@.len() && !runs_are_white(
            comp.lines@[line_idx as int].runs@,
        ) && runs_are_white(comp.lines@[line_idx + 1].runs@) ==> r,
{
}

/// The height of objects between the lines moves a picture unless it is accounted for
/// already.
pub proof fn lemma_reserve_is_added(counted: bool, edited: bool, below: bool, r: bool)
    requires
        call_ensures(adds_sibling_reserve, (counted, edited, below), r),
    ensures
        counted || edited || below <==> !r,
{
}

/// A table in the text takes its margins with it in cells and where text flows around it,
/// and is drawn once; one that is not in the text is neither.
pub proof fn lemma_table_of_a_run(
    table: &Table,
    in_cell: bool,
    flows: bool,
    drawn: bool,
    r: TableStep,
)
    requires
        call_ensures(run_table_step, (table, in_cell, flows, drawn), r),
    ensures
        !table.common.treat_as_char || (!in_cell && !flows) ==> !r.takes_margins && !r.is_drawn,
        table.common.treat_as_char && (in_cell || flows) ==> r.takes_margins,
        drawn ==> !r.is_drawn,
        r.takes_margins && !drawn ==> r.is_drawn,
{
}

/// The width that a table flows in is that of the stored first line, or of the column.
pub proof fn lemma_width_to_flow_in(para: &Paragraph, column: i32, r: i32)
    requires
        call_ensures(table_flow_limit, (para, column), r),
    ensures
        para.line_segs@.len() == 0 || para.line_segs@[0].segment_width <= 0 ==> r == column,
        para.line_segs@.len() > 0 && para.line_segs@[0].segment_width > 0 ==> r
            == para.line_segs@[0].segment_width,
{
}

/// A table with a margin that fills its line hangs below that margin; any other sits on the
/// base line, of the table that fills the line where there is one.
pub proof fn lemma_seat_of_a_table(table: &Table, fills: bool, owner: bool, r: RunTableSeat)
    requires
        call_ensures(run_table_seat, (table, fills, owner), r),
    ensures
        fills && (table.outer_margin_top > 0 || table.outer_margin_bottom > 0) <==> r
            == RunTableSeat::TopMargin,
        !fills && owner ==> r == RunTableSeat::OwnerBaseLine,
        !fills && !owner ==> r == RunTableSeat::BaseLine,
{
}

/// An equation is found by the control of the outermost table that it lies in, or by its
/// own.
pub proof fn lemma_control_of_an_equation(
    context: &CellContext,
    control: usize,
    r: usize,
    body: usize,
)
    requires
        call_ensures(equation_control_index, (Some(context), control), r),
        call_ensures(equation_control_index, (None, control), body),
    ensures
        body == control,
        context.path@.len() > 0 ==> r == context.path@[0].control_index,
        context.path@.len() == 0 ==> r == control,
{
}

/// The pictures that are left for the end of a line stand behind its runs and not behind its
/// text, and all such pictures are left; a line without runs leaves none.
pub proof fn lemma_pictures_left_over(
    line: &ComposedLine,
    para: &Paragraph,
    objects: &[(usize, u32, usize)],
    place: usize,
    i: int,
    r: Vec<usize>,
)
    requires
        call_ensures(unmatched_line_pictures::<u32>, (line, Some(para), objects, place), r),
        objects@.len() <= usize::MAX,
        0 <= i < objects@.len(),
    ensures
        line.runs@.len() == 0 ==> r@.len() == 0,
        line.runs@.len() > 0 ==> (r@.contains(i as usize) <==> place < objects@[i].0
            <= line.char_start + runs_text(line.runs@).len() && objects@[i].2
            < para.controls@.len() && para.controls@[objects@[i].2 as int] is Picture),
{
    let p = crate::objects::is_unmatched_picture(Some(para), objects@, place, line.text_end());
    let all = indices(objects@.len());
    assert(all[i] == i as usize);
    if p(i as usize) {
        all.lemma_filter_contains(p, i);
    }
    if all.filter(p).contains(i as usize) {
        all.lemma_filter_contains_rev(p, i as usize);
    }
}

/// A line without runs draws all its forms, and a line with runs none of them here.
pub proof fn lemma_forms_of_an_empty_line(
    line: &ComposedLine,
    para: &Paragraph,
    objects: &[(usize, u32, usize)],
    i: int,
    r: Vec<usize>,
)
    requires
        call_ensures(empty_line_forms::<u32>, (line, Some(para), objects), r),
        objects@.len() <= usize::MAX,
        0 <= i < objects@.len(),
    ensures
        line.runs@.len() > 0 ==> r@.len() == 0,
        line.runs@.len() == 0 ==> (r@.contains(i as usize) <==> objects@[i].2
            < para.controls@.len() && para.controls@[objects@[i].2 as int] is Form),
{
    let p = crate::objects::is_form(Some(para), objects@);
    let all = indices(objects@.len());
    assert(all[i] == i as usize);
    if p(i as usize) {
        all.lemma_filter_contains(p, i);
    }
    if all.filter(p).contains(i as usize) {
        all.lemma_filter_contains_rev(p, i as usize);
    }
}

/// Outside of cells a line without runs always draws its objects; in a cell it does in front
/// of text that starts at the same place, and not where it is the last line.
pub proof fn lemma_empty_line_draws(
    comp: &ComposedParagraph,
    line_idx: usize,
    context: &CellContext,
    body: bool,
    cell: bool,
)
    requires
        call_ensures(empty_line_draws_objects, (comp, line_idx, None), body),
        call_ensures(empty_line_draws_objects, (comp, line_idx, Some(context)), cell),
        line_idx < comp.lines@.len(),
    ensures
        body,
        line_idx + 1 < comp.lines@.len() && comp.lines@[line_idx + 1].char_start
            == comp.lines@[line_idx as int].char_start && comp.lines@[line_idx + 1].runs@.len() > 0
            ==> cell,
        line_idx + 1 == comp.lines@.len() && context.path@.len() > 0
            && context.path@.last().cell_index != 65534 ==> !cell,
        context.path@.len() > 0 && context.path@.last().cell_index == 65534 ==> cell,
{
}

/// What a line without runs does with its objects: shapes are placed, tables in the text
/// drawn once, pictures drawn, and in a cell passed over when they were; the rest is not
/// there.
pub proof fn lemma_step_of_an_empty_line(
    para: &Paragraph,
    index: usize,
    in_cell: bool,
    drawn: bool,
    r: EmptyLineStep,
)
    requires
        call_ensures(empty_line_step, (para, index, in_cell, drawn), r),
    ensures
        index >= para.controls@.len() ==> r == EmptyLineStep::Ignore,
        index < para.controls@.len() ==> match para.controls@[index as int] {
            Control::Shape(_) => r == EmptyLineStep::PlaceShape,
            Control::Picture(_) => r == EmptyLineStep::PassPicture || r
                == EmptyLineStep::DrawPicture,
            Control::Table(table) => (r == EmptyLineStep::DrawTable <==> table.common.treat_as_char
                && !drawn) && (r == EmptyLineStep::DrawTable || r == EmptyLineStep::Ignore),
            _ => r == EmptyLineStep::Ignore,
        },
        r == EmptyLineStep::PassPicture ==> in_cell && drawn,
        r == EmptyLineStep::DrawPicture ==> !in_cell || !drawn,
{
}

/// Every object that takes its width takes one place; an ignored one takes none.
pub proof fn lemma_places_of_objects(steps: Seq<EmptyLineStep>, step: EmptyLineStep)
    ensures
        advance_count(Seq::empty()) == 0,
        advance_count(steps.push(step)) - advance_count(steps) == if step == EmptyLineStep::Ignore {
            0int
        } else {
            1int
        },
{
    assert(steps.push(step).drop_last() == steps);
}

/// A mark says nothing while it waits for the objects of its line; then it says whether the
/// line is the last and whether it ends in a break.
pub proof fn lemma_mark_of_an_empty_line(
    last: bool,
    forced: bool,
    deferred: bool,
    r: (bool, bool),
)
    requires
        call_ensures(empty_line_mark, (last, forced, deferred), r),
    ensures
        deferred ==> !r.0 && !r.1,
        !deferred ==> r.0 == last && r.1 == forced,
{
}

/// A mark waits for objects that stand in rows of a line without runs.
pub proof fn lemma_mark_that_waits(
    line: &ComposedLine,
    objects: &[(usize, u32, usize)],
    rows: bool,
    r: bool,
)
    requires
        call_ensures(defers_line_mark::<u32>, (line, objects, rows), r),
    ensures
        line.runs@.len() > 0 || objects@.len() == 0 || !rows <==> !r,
{
}

/// The objects of a line keep their order, and each is there at most once, in a row that
/// there is.
pub proof fn lemma_objects_keep_their_order<W>(
    rows: ObjectRows,
    objects: Seq<(usize, W, usize)>,
    start: usize,
    next: Option<usize>,
    n: int,
)
    requires
        0 <= n <= objects.len() <= usize::MAX,
    ensures
        ({
            let placed = objects_in_rows(rows, objects, start, next, n);
            &&& forall|i: int| 0 <= i < placed.len() ==> (#[trigger] placed[i]).0 < n
            &&& forall|i: int, j: int|
                0 <= i < j < placed.len() ==> (#[trigger] placed[i]).0 < (#[trigger] placed[j]).0
            &&& forall|i: int|
                0 <= i < placed.len() ==> (#[trigger] placed[i]).1 <= rows.extra_rows
        }),
    decreases n,
{
    if n > 0 {
        lemma_objects_keep_their_order(rows, objects, start, next, n - 1);
        let before = objects_in_rows(rows, objects, start, next, n - 1);
        let all = objects_in_rows(rows, objects, start, next, n);
        assert forall|i: int| 0 <= i < all.len() implies (#[trigger] all[i]).0 < n && all[i].1
            <= rows.extra_rows by {
            if i < before.len() {
                assert(all[i] == before[i]);
            }
        }
        assert forall|i: int, j: int| 0 <= i < j < all.len() implies (#[trigger] all[i]).0 < (
        #[trigger] all[j]).0 by {
            assert(all[i] == before[i]);
            if j < before.len() {
                assert(all[j] == before[j]);
            }
        }
    }
}

/// Where rows are known, an object is on the line just where it has a row, and stands in
/// that row, or in the last where there are fewer.
pub proof fn lemma_objects_stand_in_their_rows<W>(
    rows: ObjectRows,
    objects: Seq<(usize, W, usize)>,
    start: usize,
    next: Option<usize>,
    n: int,
    k: int,
)
    requires
        rows.row_of is Some,
        rows.row_of->0@.len() >= objects.len(),
        0 <= k < n <= objects.len() <= usize::MAX,
    ensures
        rows.row_of->0@[k] is None ==> forall|i: int|
            0 <= i < objects_in_rows(rows, objects, start, next, n).len() ==> (
            #[trigger] objects_in_rows(rows, objects, start, next, n)[i]).0 != k,
        rows.row_of->0@[k] matches Some(row) ==> objects_in_rows(
            rows,
            objects,
            start,
            next,
            n,
        ).contains(
            (
                k as usize,
                if row <= rows.extra_rows {
                    row
                } else {
                    rows.extra_rows
                },
            ),
        ),
    decreases n,
{
    let before = objects_in_rows(rows, objects, start, next, n - 1);
    let all = objects_in_rows(rows, objects, start, next, n);
    lemma_objects_keep_their_order(rows, objects, start, next, n - 1);
    if k < n - 1 {
        lemma_objects_stand_in_their_rows(rows, objects, start, next, n - 1, k);
        if let Some(row) = rows.row_of->0@[k] {
            let own = (
                k as usize,
                if row <= rows.extra_rows {
                    row
                } else {
                    rows.extra_rows
                },
            );
            let i = choose|i: int| 0 <= i < before.len() && before[i] == own;
            assert(all[i] == own);
        }
    } else if rows.row_of->0@[k] is Some {
        assert(all[before.len() as int].0 == k);
    }
}

/// Without known rows the objects of a line are those from its start up to that of the
/// next, all in the first row.
pub proof fn lemma_objects_of_one_row<W>(
    rows: ObjectRows,
    objects: Seq<(usize, W, usize)>,
    start: usize,
    next: Option<usize>,
    n: int,
    k: int,
)
    requires
        rows.row_of is None,
        0 <= k < n <= objects.len() <= usize::MAX,
        next is Some,
    ensures
        objects_in_rows(rows, objects, start, next, n).contains((k as usize, 0usize)) <==> start
            <= objects[k].0 < next->0,
    decreases n,
{
    let before = objects_in_rows(rows, objects, start, next, n - 1);
    let all = objects_in_rows(rows, objects, start, next, n);
    let own = (k as usize, 0usize);
    lemma_objects_keep_their_order(rows, objects, start, next, n - 1);
    if all.contains(own) {
        let i = choose|i: int| 0 <= i < all.len() && all[i] == own;
        if i < before.len() {
            assert(before[i] == own);
            assert(before.contains(own));
        }
    }
    if before.contains(own) {
        let i = choose|i: int| 0 <= i < before.len() && before[i] == own;
        assert(before[i].0 < n - 1);
        assert(all[i] == own);
    }
    if k < n - 1 {
        lemma_objects_of_one_row(rows, objects, start, next, n - 1, k);
    } else if start <= objects[k].0 < next->0 {
        assert(all[before.len() as int] == own);
    }
}

/// Equations follow the alignment in cells, and where the file gave their line no start.
pub proof fn lemma_equations_are_aligned(in_cell: bool, start: i32, r: bool)
    requires
        call_ensures(equations_follow_alignment, (in_cell, start), r),
    ensures
        r <==> in_cell || start == 0,
        !in_cell && start != 0 ==> !r,
{
}

/// The mark stands in the last row in use: none behind it is, and it is itself if any is.
pub proof fn lemma_row_of_the_mark(used: &[bool], i: int, r: usize)
    requires
        call_ensures(marker_row, (used,), r),
        0 <= i < used@.len(),
        used@[i],
    ensures
        i <= r < used@.len(),
        used@[r as int],
{
}

/// A result moves up only at the end of an endnote, near the bottom of the column, where it
/// is the only object of a line without text.
pub proof fn lemma_result_that_moves_up(
    facts: EndnoteTailFacts,
    line: &ComposedLine,
    para: &Paragraph,
    objects: &[(usize, u32, usize)],
    extra: usize,
    r: bool,
)
    requires
        call_ensures(endnote_result_moves_up::<u32>, (facts, line, Some(para), objects, extra), r),
    ensures
        facts.in_cell || !facts.zero_spacing || !facts.is_endnote || facts.has_successor
            || !facts.is_last_line || !facts.near_bottom ==> !r,
        objects@.len() != 1 || line.runs@.len() > 0 || extra > 0 ==> !r,
        r ==> objects@[0].2 < para.controls@.len() && (
        para.controls@[objects@[0].2 as int] matches Control::Equation(equation)
            && equation.common.height <= 1200 && equation.common.treat_as_char),
        !facts.in_cell && facts.zero_spacing && facts.is_endnote && !facts.has_successor
            && facts.is_last_line && facts.near_bottom && objects@.len() == 1 && line.runs@.len()
            == 0 && extra == 0 && objects@[0].2 < para.controls@.len() && (
        para.controls@[objects@[0].2 as int] matches Control::Equation(equation)
            && equation.common.height <= 1200 && equation.common.treat_as_char) ==> r,
{
}

/// The text of a paragraph that was not composed is shown once, by the first line that is
/// drawn; that line ends the paragraph only where it is the last too. Each line is the next
/// stored one.
pub proof fn lemma_lines_that_were_not_composed(
    has_text: bool,
    stored: int,
    start: int,
    end_line: int,
    i: int,
)
    requires
        0 <= start <= end_line <= stored <= usize::MAX,
        0 <= i < raw_lines_of(has_text, stored, start, end_line).len(),
        stored > 0,
    ensures
        raw_lines_of(has_text, stored, start, end_line).len() == end_line - start,
        ({
            let line = raw_lines_of(has_text, stored, start, end_line)[i];
            &&& line.stored is Some && line.stored->0 == start + i
            &&& line.shows_text <==> has_text && i == 0
            &&& line.is_para_end <==> line.shows_text && start + 1 == end_line
        }),
{
}

/// Without stored lines there is one, with all the text.
pub proof fn lemma_only_line(has_text: bool, start: int, end_line: int)
    ensures
        raw_lines_of(has_text, 0, start, end_line).len() == 1,
        raw_lines_of(has_text, 0, start, end_line)[0].stored is None,
        raw_lines_of(has_text, 0, start, end_line)[0].shows_text == has_text,
        raw_lines_of(has_text, 0, start, end_line)[0].is_para_end == has_text,
{
}

/// Boxes that follow each other show text that follows each other, and only the one that
/// reaches the end of the text ends the paragraph.
pub proof fn lemma_boxes_show_the_text(
    chars: &[char],
    a: usize,
    b: usize,
    c: usize,
    first: (String, bool),
    second: (String, bool),
)
    requires
        a <= b <= c <= chars@.len(),
        call_ensures(plan_text, (chars, a, b), first),
        call_ensures(plan_text, (chars, b, c), second),
    ensures
        first.0@ + second.0@ == chars@.subrange(a as int, c as int),
        second.1 <==> c == chars@.len(),
        b < c ==> !first.1,
{
    assert(first.0@ + second.0@ == chars@.subrange(a as int, c as int));
}

/// A line is white where its text is; a line without runs is.
pub proof fn lemma_white_lines(runs: Seq<ComposedTextRun>)
    ensures
        runs_are_white(runs) <==> all_white(runs_text(runs)),
        runs.len() == 0 ==> runs_are_white(runs),
    decreases runs.len(),
{
    if runs.len() > 0 {
        let before = runs.drop_last();
        let own = runs.last().text@;
        let text = runs_text(runs);
        let front = runs_text(before);
        lemma_white_lines(before);
        if runs_are_white(runs) {
            assert forall|i: int| 0 <= i < before.len() implies all_white(
                (#[trigger] before[i]).text@,
            ) by {
                assert(runs[i] == before[i]);
            }
            assert(all_white(runs[runs.len() - 1].text@));
            assert forall|i: int| 0 <= i < text.len() implies crate::text::is_white_space_code(
                #[trigger] text[i] as u32,
            ) by {
                if i < front.len() {
                    assert(text[i] == front[i]);
                } else {
                    assert(text[i] == own[i - front.len()]);
                }
            }
        }
        if all_white(text) {
            assert forall|i: int| 0 <= i < front.len() implies crate::text::is_white_space_code(
                #[trigger] front[i] as u32,
            ) by {
                assert(text[i] == front[i]);
            }
            assert forall|i: int| 0 <= i < own.len() implies crate::text::is_white_space_code(
                #[trigger] own[i] as u32,
            ) by {
                assert(text[front.len() + i] == own[i]);
            }
            assert forall|i: int| 0 <= i < runs.len() implies all_white(
                (#[trigger] runs[i]).text@,
            ) by {
                if i < before.len() {
                    assert(before[i] == runs[i]);
                }
            }
        }
    }
}

/// A line has tabs where one of its runs has.
pub proof fn lemma_lines_with_tabs(runs: &[ComposedTextRun], i: int, j: int, r: bool)
    requires
        call_ensures(has_tabs, (runs,), r),
    ensures
        0 <= i < runs@.len() && 0 <= j < runs@[i].text@.len() && runs@[i].text@[j] == '\t' ==> r,
        (forall|k: int|
            #![trigger runs@[k]]
            0 <= k < runs@.len() ==> !runs@[k].text@.contains('\t')) ==> !r,
{
}

/// An object stands on a line from its start up to that of the next; the last line has all
/// behind its start.
pub proof fn lemma_objects_before_the_next_line(comp: ComposedParagraph, line: int, k: int)
    requires
        0 <= line < comp.lines@.len(),
        0 <= k < comp.tac_controls@.len(),
    ensures
        line + 1 < comp.lines@.len() && comp.lines@[line].char_start <= comp.tac_controls@[k].0
            < comp.lines@[line + 1].char_start ==> has_object_before_next_line(comp, line),
        line + 1 == comp.lines@.len() && comp.lines@[line].char_start <= comp.tac_controls@[k].0
            < usize::MAX ==> has_object_before_next_line(comp, line),
        comp.tac_controls@.len() == 1 && comp.tac_controls@[k].0 < comp.lines@[line].char_start
            ==> !has_object_before_next_line(comp, line),
{
}

/// No object stands in the characters of two lines that follow each other.
pub proof fn lemma_object_in_the_characters_of_one_line(
    comp: ComposedParagraph,
    line: int,
    pos: int,
)
    requires
        0 <= line,
        line + 1 < comp.lines@.len(),
    ensures
        strictly_on_line(comp, line, pos) ==> !strictly_on_line(comp, line + 1, pos),
        strictly_on_line(comp, line, pos) <==> comp.lines@[line].char_start <= pos
            < comp.lines@[line + 1].char_start,
{
}

/// A guide in front of an equation is a line without runs that starts where the next one
/// does, and the next one holds the equation.
pub proof fn lemma_guide_in_front_of_an_equation(
    para: &Paragraph,
    comp: ComposedParagraph,
    objects: Seq<(usize, u32, usize)>,
    line: int,
)
    requires
        is_leading_equation_guide(Some(para), comp, objects, line),
    ensures
        0 <= line,
        line + 1 < comp.lines@.len(),
        comp.lines@[line].runs@.len() == 0,
        comp.lines@[line].char_start == comp.lines@[line + 1].char_start,
        exists|k: int|
            #![trigger objects[k]]
            0 <= k < objects.len() && comp.lines@[line + 1].char_start <= objects[k].0
                && objects[k].2 < para.controls@.len() && (
            para.controls@[objects[k].2 as int] matches Control::Equation(equation)
                && equation.common.treat_as_char),
{
}

/// A blank line keeps a distance where nothing stands on it and its paragraph holds nothing,
/// or belongs to an endnote.
pub proof fn lemma_line_that_keeps_a_distance(
    para: &Paragraph,
    endnote: bool,
    white: bool,
    objects: &[(usize, u32, usize)],
    r: bool,
)
    requires
        call_ensures(is_blank_spacer_line::<u32>, (Some(para), endnote, white, objects), r),
    ensures
        !white || objects@.len() > 0 ==> !r,
        !endnote && para.controls@.len() > 0 ==> !r,
        white && objects@.len() == 0 && (endnote || para.controls@.len() == 0) ==> r,
{
}

/// A line of equations is blank and holds equations in the text and nothing else.
pub proof fn lemma_line_of_equations(
    para: &Paragraph,
    white: bool,
    objects: &[(usize, u32, usize)],
    i: int,
    r: bool,
)
    requires
        call_ensures(is_equation_only_tac_line::<u32>, (Some(para), white, objects), r),
    ensures
        !white || objects@.len() == 0 ==> !r,
        r && 0 <= i < objects@.len() ==> objects@[i].2 < para.controls@.len() && (
        para.controls@[objects@[i].2 as int] matches Control::Equation(equation)
            && equation.common.treat_as_char),
        white && objects@.len() > 0 && (forall|k: int|
            #![trigger objects@[k]]
            0 <= k < objects@.len() ==> objects@[k].2 < para.controls@.len() && (
            para.controls@[objects@[k].2 as int] matches Control::Equation(equation)
                && equation.common.treat_as_char)) ==> r,
{
}

} // verus!
