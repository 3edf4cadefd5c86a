//! What the results of the main operations promise to their callers.

use vstd::prelude::*;

use crate::composed::composed_line_char_end;
use crate::composed::runs_display;
use crate::composed::runs_text;
use crate::composed::runs_units;
use crate::composed::ComposedLine;
use crate::composed::ComposedParagraph;
use crate::composed::ComposedTextRun;
use crate::controls::calc_sibling_topandbottom_reserved_hu;
use crate::fields::is_active_field;
use crate::fields::ActiveField;
use crate::frame::endnote_line_vpos_base;
use crate::frame::is_line_of_other_column;
use crate::frame::line_objects;
use crate::frame::ordered_by_position;
use crate::frame::spacing_before_rule;
use crate::frame::SpacingBefore;
use crate::frame_plan::frame_plan;
use crate::frame_plan::FramePlan;
use crate::frame_plan::FrameRange;
use crate::inline_table::flow_order;
use crate::inline_table::inline_table_line_shift;
use crate::inline_table::inline_table_stored_line_breaks;
use crate::inline_table::inline_table_stored_line_top_offset;
use crate::inline_table::leading_inline_tables;
use crate::inline_table::offsets_fit;
use crate::inline_table::preserves_stored_first_visible_break_after_bottom_caption_table;
use crate::inline_table::should_wrap_middle_anchored_table;
use crate::inline_table::text_segments;
use crate::inline_table::FlowItem;
use crate::labels::collect_shape_marker_labels;
use crate::labels::control_label;
use crate::labels::form_color_to_css;
use crate::line_align::align_shift;
use crate::line_align::AlignShift;
use crate::line_geometry::empty_tac_guide_has_explicit_shape_height;
use crate::line_geometry::has_mixed_segment_widths;
use crate::line_geometry::has_tac_shape;
use crate::line_geometry::line_has_as_char_object;
use crate::line_geometry::line_has_inline_tac_table;
use crate::line_geometry::LineGeometryFacts;
use crate::line_plan::line_fits;
use crate::line_plan::line_plan;
use crate::line_plan::notes_in_order;
use crate::line_plan::LinePlan;
use crate::line_plan::PlannedLine;
use crate::model::Alignment;
use crate::model::AutoNumber;
use crate::model::CaptionDirection;
use crate::model::Control;
use crate::model::Paragraph;
use crate::model::Table;
use crate::model::TextWrap;
use crate::model::VertRelTo;
use crate::notes::decorated_auto_number;
use crate::notes::note_number_format_from_hwp_code;
use crate::notes::NumberFormat;
use crate::numbering::apply_paragraph_numbering;
use crate::numbering::bullet_head_text;
use crate::numbering::head_source;
use crate::numbering::is_plain_text_without_stored_lines;
use crate::numbering::number_head_text;
use crate::numbering::with_head;
use crate::numbering::Bullet;
use crate::numbering::HeadSource;
use crate::numbering::HeadType;
use crate::numbering::NumberParts;
use crate::objects::line_table_owner;
use crate::pua::map_pua_bullet_char;
use crate::runs::cuts_are_valid;
use crate::runs::cuts_of_pieces;
use crate::runs::line_trailing_space_by_run;
use crate::runs::run_objects;
use crate::runs::split_run;
use crate::runs::text_of_pieces;
use crate::runs::RunPiece;
use crate::runs::RunPlace;
use crate::spacing::count_line;
use crate::spacing::displayed_chars;
use crate::spacing::line_chars;
use crate::spacing::line_spacing_plan;
use crate::spacing::needs_word_distribution;
use crate::spacing::trailing_space_pieces;
use crate::spacing::LineCounts;
use crate::spacing::Sign;
use crate::spacing::SpacingFacts;
use crate::spacing::SpacingPlan;
use crate::tabs::pending_tab_step;
use crate::tabs::run_blank_after_last_tab;
use crate::tabs::run_ends_in_tab;
use crate::tabs::PendingTab;
use crate::tac::tac_offsets_for_line;
use crate::text::all_white;
use crate::vertical::vertical_text;
use crate::vertical::VerticalText;
use crate::vertical_laws::text_of_lines;

verus! {

/// A line takes its stored place wherever one neighbour accounts for its being narrow; each
/// of them is enough.
pub proof fn lemma_one_neighbour_is_enough(facts: LineGeometryFacts, r: bool)
    requires
        call_ensures(LineGeometryFacts::uses_stored_segment_geometry, (&facts,), r),
        facts.stored_geometry_source,
        facts.segment_width > 0,
    ensures
        facts.has_square_wrap && facts.column_start >= 0 && facts.segment_width + facts.column_start
            < facts.column_width - 200 ==> r,
        facts.has_inline_table && !facts.inline_table_fills_paragraph && facts.segment_width
            + facts.column_start < facts.column_width - 200 ==> r,
        !facts.in_cell && facts.mixed_widths && facts.in_wrap_zone && facts.segment_width
            + facts.column_start < facts.column_width - 200 ==> r,
        !facts.in_cell && facts.empty_paragraph && facts.column_start > facts.own_margin + 200
            && facts.column_start > 0 && facts.segment_width < facts.column_width ==> r,
        !facts.in_cell && !facts.mixed_widths && facts.column_start == 0 && facts.segment_width
            + 1200 < facts.column_width && facts.float_accounts_for_gap ==> r,
        facts.in_cell && facts.cell_has_square_float && facts.column_start > 0
            && facts.segment_width < facts.column_width ==> r,
{
}

/// A line that nothing makes narrow does not take a stored place.
pub proof fn lemma_no_neighbour_no_stored_place(facts: LineGeometryFacts, r: bool)
    requires
        call_ensures(LineGeometryFacts::uses_stored_segment_geometry, (&facts,), r),
        !facts.physical_frame_rows,
    ensures
        !facts.stored_geometry_source || facts.segment_width <= 0 ==> !r,
        !facts.has_square_wrap && !facts.has_inline_table && !facts.mixed_widths
            && !facts.empty_paragraph && !facts.cell_has_square_float
            && !facts.float_accounts_for_gap ==> !r,
        facts.column_start == 0 && facts.segment_width >= facts.column_width - 200 ==> !r,
{
}

/// All stretches of text are laid out, each once and in order, and so are all tables.
pub proof fn lemma_flow_leaves_nothing_out(segments: usize, tables: usize, r: Vec<FlowItem>)
    requires
        call_ensures(flow_order, (segments, tables), r),
    ensures
        r@.len() == segments + tables,
        forall|k: usize| k < segments ==> #[trigger] r@.contains(FlowItem::Segment(k)),
        forall|i: int, j: int|
            0 <= i < j < r@.len() && (#[trigger] r@[i]) is Segment && (#[trigger] r@[j]) is Segment
                ==> r@[i]->Segment_0 < r@[j]->Segment_0,
        forall|i: int, j: int|
            0 <= i < j < r@.len() && (#[trigger] r@[i]) is Table && (#[trigger] r@[j]) is Table
                ==> r@[i]->index < r@[j]->index,
        forall|k: usize| k < tables && k < segments ==> #[trigger] r@.contains(
            FlowItem::Table { index: k, trailing: false },
        ),
        forall|k: usize| segments <= k < tables ==> #[trigger] r@.contains(
            FlowItem::Table { index: k, trailing: true },
        ),
{
    crate::inline_table_laws::lemma_every_stretch_laid_out_once(segments as int, tables as int);
    crate::inline_table_laws::lemma_text_and_tables_come_in_turn(segments as int, tables as int, 0);
    assert forall|i: int, j: int|
        0 <= i < j < r@.len() && (#[trigger] r@[i]) is Table && (
        #[trigger] r@[j]) is Table implies r@[i]->index < r@[j]->index by {
        crate::inline_table_laws::lemma_tables_come_in_order(
            segments as int,
            tables as int,
            i,
            j,
        );
    }
    assert forall|k: usize| k < tables && k < segments implies #[trigger] r@.contains(
        FlowItem::Table { index: k, trailing: false },
    ) by {
        crate::inline_table_laws::lemma_text_and_tables_come_in_turn(
            segments as int,
            tables as int,
            k as int,
        );
        assert(r@[2 * (k as int) + 1] == (FlowItem::Table { index: k, trailing: false }));
    }
    assert forall|k: usize| segments <= k < tables implies #[trigger] r@.contains(
        FlowItem::Table { index: k, trailing: true },
    ) by {
        crate::inline_table_laws::lemma_text_and_tables_come_in_turn(
            segments as int,
            tables as int,
            k as int,
        );
        assert(r@[segments + k] == (FlowItem::Table { index: k, trailing: true }));
    }
}

/// A line that is too wide is compressed unless there is a cause not to.
pub proof fn lemma_wide_line_gets_a_plan(f: SpacingFacts, plan: SpacingPlan)
    requires
        call_ensures(line_spacing_plan, (f,), plan),
        f.shown.interior_spaces + f.shown.trailing_spaces <= usize::MAX,
        f.char_slack == Sign::Negative,
        f.total_char_count > 1,
        !f.suppress_cell_overflow_spacing,
    ensures
        !f.needs_justify && !f.needs_distribute && !f.has_tabs && !f.leader_can_grow
            && f.converge_auto_shrink_cell ==> plan == (SpacingPlan::Converge {
            count: f.total_char_count,
        }),
        !f.needs_justify && !f.needs_distribute && !f.has_tabs && !f.leader_can_grow
            && !f.converge_auto_shrink_cell ==> plan == (SpacingPlan::Characters {
            count: f.total_char_count,
        }),
        f.needs_justify && f.shown.interior_spaces == 0 ==> plan is Converge || plan is Characters,
        f.needs_justify && f.shown.interior_spaces > 0 ==> plan is Words || plan is Leaders,
        f.needs_distribute && !f.needs_justify && !f.leader_can_grow && f.total_char_count
            > f.plain.trailing_spaces + 1 ==> plan is Gaps,
        !f.has_tabs && !f.needs_distribute ==> plan != SpacingPlan::Natural,
{
}

/// A line that leaves room is widened where its alignment fills lines, and else left.
pub proof fn lemma_narrow_line_gets_a_plan(f: SpacingFacts, plan: SpacingPlan)
    requires
        call_ensures(line_spacing_plan, (f,), plan),
        f.shown.interior_spaces + f.shown.trailing_spaces <= usize::MAX,
        f.char_slack == Sign::Positive,
        f.word_slack == Sign::Positive,
    ensures
        f.needs_justify && f.shown.interior_spaces > 0 && f.shown.leader_dashes == 0 ==> (
        plan matches SpacingPlan::Words { slots, .. } && slots >= f.shown.interior_spaces),
        f.needs_justify && f.shown.interior_spaces > 0 && f.shown.leader_dashes > 0 ==> (
        plan matches SpacingPlan::Leaders { dashes, of_words } && dashes == f.shown.leader_dashes
            && of_words),
        !f.needs_justify && !f.needs_distribute && !f.leader_can_grow && !f.in_cell ==> plan
            == SpacingPlan::Natural,
        f.needs_distribute && !f.needs_justify && !f.leader_can_grow && f.total_char_count
            >= f.plain.trailing_spaces + 2 && f.distribute_slack == Sign::Positive ==> (
        plan matches SpacingPlan::Gaps { gaps, visible } && gaps + 1 == visible && visible + f.plain.trailing_spaces == f.total_char_count),
{
}

/// A column reads its text from top to bottom: the characters of a cell come paragraph by
/// paragraph and place by place, each is the one of the text at its place, and none that
/// shows is left out.
pub proof fn lemma_cell_reads_from_top_to_bottom(
    comps: &[ComposedParagraph],
    paras: &[Paragraph],
    text: VerticalText,
    i: int,
    j: int,
    para: int,
    at: int,
)
    requires
        call_ensures(vertical_text, (comps, paras), text),
        comps@.len() <= usize::MAX,
        forall|k: int|
            0 <= k < comps@.len() ==> text_of_lines((#[trigger] comps@[k]).lines@).len()
                <= usize::MAX,
        0 <= para < comps@.len(),
        0 <= at < text_of_lines(comps@[para].lines@).len(),
        text_of_lines(comps@[para].lines@)[at] != '\n',
        text_of_lines(comps@[para].lines@)[at] != '\r',
    ensures
        0 <= i < j < text.chars@.len() ==> text.chars@[i].cell_para_index
            < text.chars@[j].cell_para_index || (text.chars@[i].cell_para_index
            == text.chars@[j].cell_para_index && text.chars@[i].char_offset
            < text.chars@[j].char_offset),
        0 <= i < text.chars@.len() ==> text.chars@[i].cell_para_index < comps@.len() && text_of_lines(
            comps@[text.chars@[i].cell_para_index as int].lines@,
        )[text.chars@[i].char_offset as int] == text.chars@[i].ch,
        exists|k: int|
            0 <= k < text.chars@.len() && (#[trigger] text.chars@[k]).cell_para_index == para
                && text.chars@[k].char_offset == at,
{
    let n = comps@.len() as int;
    if 0 <= i < j < text.chars@.len() {
        crate::vertical_laws::lemma_cell_is_read_in_order(comps@, n, i, j);
    }
    if 0 <= i < text.chars@.len() {
        crate::vertical_laws::lemma_cell_char_is_of_its_paragraph(comps@, n, i);
    }
    crate::vertical_laws::lemma_cell_leaves_nothing_out(comps@, n, para, at);
    let chars = crate::vertical::cell_chars(comps@, n);
    let k = choose|k: int|
        0 <= k < chars.len() && (#[trigger] chars[k]).cell_para_index == para
            && chars[k].char_offset == at;
    assert(text.chars@[k].cell_para_index == para);
}

/// A counted number is written behind its prefix and in front of its suffix.
pub proof fn lemma_written_number(number: &AutoNumber, text: String)
    requires
        call_ensures(decorated_auto_number, (number,), text),
    ensures
        number.prefix_char == '\0' && number.suffix_char == '\0' ==> text@ == number.number_text@,
        number.prefix_char != '\0' ==> text@.len() > 0 && text@[0] == number.prefix_char,
        number.suffix_char != '\0' ==> text@.len() > 0 && text@.last() == number.suffix_char,
        number.prefix_char != '\0' && number.suffix_char == '\0' ==> text@.skip(1)
            == number.number_text@,
        number.prefix_char == '\0' && number.suffix_char != '\0' ==> text@.drop_last()
            == number.number_text@,
        number.prefix_char != '\0' && number.suffix_char != '\0' ==> text@.drop_last().skip(1)
            == number.number_text@,
{
    crate::mark_laws::lemma_number_stands_between_its_decorations(*number);
}

/// The stretches of a paragraph hold its text, one behind the other, and all of it.
pub proof fn lemma_stretches_hold_the_text(
    chars: &[char],
    offsets: &[u32],
    leading: usize,
    r: Vec<(usize, usize)>,
    k: int,
)
    requires
        call_ensures(text_segments, (chars, offsets, leading), r),
        offsets_fit(chars@, offsets@),
        chars@.len() <= usize::MAX,
        offsets@.len() <= usize::MAX,
        0 <= k < r@.len(),
    ensures
        r@.len() > leading,
        r@[0].0 == 0,
        r@.last().1 == chars@.len(),
        k < leading ==> r@[k].0 == 0 && r@[k].1 == 0,
        k > leading ==> r@[k].0 == r@[k - 1].1,
        k == leading ==> r@[k].0 == 0,
{
    let numbers = crate::inline_table::text_segments_of(chars@, offsets@, leading as nat);
    let as_numbers = |b: (usize, usize)| crate::inline_table::break_view(b);
    assert(r@.map_values(as_numbers) == numbers);
    assert(numbers.len() == r@.len());
    let cuts = crate::inline_table::gap_cuts(chars@, offsets@);
    let len = chars@.len() as int;
    assert forall|i: int| 0 <= i < r@.len() implies numbers[i] == (r@[i].0 as int, r@[i].1 as int) by {
        assert(r@.map_values(as_numbers)[i] == as_numbers(r@[i]));
    }
    assert(numbers[leading as int] == crate::inline_table::segment(cuts, 0, len));
    assert(numbers.last() == crate::inline_table::segment(cuts, cuts.len() as int, len));
    if k > leading {
        assert(numbers[k] == crate::inline_table::segment(cuts, k - leading, len));
        assert(numbers[k - 1] == crate::inline_table::segment(cuts, k - leading - 1, len));
    }
    let front = Seq::new(leading as nat, |i: int| (0int, 0int));
    assert forall|i: int| 0 <= i < leading implies numbers[i] == (0int, 0int) by {
        assert(numbers[i] == front[i]);
    }
    if leading > 0 {
        assert(numbers[0] == (0int, 0int));
    }
    if k < leading {
        assert(numbers[k] == (0int, 0int));
    }
}

/// A run that is cut keeps its text and every cut, in order.
pub proof fn lemma_cut_run_keeps_its_text(
    text: Seq<char>,
    cuts: &[usize],
    char_offset: usize,
    counts: bool,
    marks_end: bool,
    pieces: Vec<RunPiece>,
)
    requires
        text.len() <= usize::MAX,
        call_ensures(
            split_run,
            (text.len() as usize, cuts, char_offset, counts, marks_end),
            pieces,
        ),
        cuts_are_valid(text.len() as int, cuts@),
        cuts@.len() <= usize::MAX,
    ensures
        text_of_pieces(pieces@, text) == text,
        cuts_of_pieces(pieces@) == Seq::new(cuts@.len(), |i: int| i),
{
    crate::runs::lemma_pieces_hold_the_text(text, cuts@, char_offset as int, counts, marks_end);
    crate::runs::lemma_pieces_hold_every_cut(
        text.len() as int,
        cuts@,
        char_offset as int,
        counts,
        marks_end,
    );
}

/// A planned line draws each of its runs whole, from where the one before ends.
pub proof fn lemma_planned_line_draws_its_runs(
    comp: &ComposedParagraph,
    para: Option<&Paragraph>,
    offsets: &[(usize, u32, usize)],
    positions: &[usize],
    at: PlannedLine,
    plan: LinePlan<u32>,
    k: int,
)
    requires
        call_ensures(line_plan::<u32>, (comp, para, offsets, positions, at), plan),
        line_fits(*comp, para, offsets@, at),
        ordered_by_position(offsets@),
        notes_in_order(comp.footnote_positions@),
        0 <= k < comp.lines@[at.line_idx as int].runs@.len(),
    ensures
        plan.runs@.len() == comp.lines@[at.line_idx as int].runs@.len(),
        text_of_pieces(plan.runs@[k].pieces@, comp.lines@[at.line_idx as int].runs@[k].text@)
            == comp.lines@[at.line_idx as int].runs@[k].text@,
        plan.runs@[0].place.start == comp.lines@[at.line_idx as int].char_start,
        k > 0 ==> plan.runs@[k].place.start == plan.runs@[k - 1].place.end,
        plan.runs@[0].char_start == at.char_offset,
        k > 0 ==> plan.runs@[k].char_start - plan.runs@[k - 1].char_start
            == plan.runs@[k - 1].place.end - plan.runs@[k - 1].place.start,
        plan.runs@[k].is_para_end <==> at.is_last_line_of_para && k + 1 == plan.runs@.len(),
        plan.runs@[k].is_line_break_end <==> comp.lines@[at.line_idx as int].has_line_break && k + 1
            == plan.runs@.len(),
        plan.char_end == at.char_offset + runs_units(comp.lines@[at.line_idx as int].runs@),
{
    let line = comp.lines@[at.line_idx as int];
    assert(plan.runs@[k].draws(*comp, para, offsets@, positions@, at, k));
    assert(plan.runs@[0].draws(*comp, para, offsets@, positions@, at, 0));
    crate::draw_laws::lemma_run_is_drawn_in_its_place(
        plan.runs@[k],
        *comp,
        para,
        offsets@,
        positions@,
        at,
        k,
    );
    crate::draw_laws::lemma_runs_stand_behind_each_other(*comp, at, k);
    assert(line.runs@.take(0).len() == 0);
    if k > 0 {
        assert(plan.runs@[k - 1].draws(*comp, para, offsets@, positions@, at, k - 1));
        crate::line_plan::lemma_run_starts_ascend(line, k - 1, k);
        crate::line_plan::lemma_run_starts_ascend(line, k, k);
    }
}

/// The lines of a frame are those of its range and its column, in order.
pub proof fn lemma_planned_frame_draws_its_lines(
    comp: &ComposedParagraph,
    para: Option<&Paragraph>,
    offsets: &[(usize, u32, usize)],
    range: FrameRange,
    plan: FramePlan<u32>,
    i: int,
    k: int,
)
    requires
        call_ensures(frame_plan::<u32>, (comp, para, offsets, None, range), plan),
        comp.lines@.len() <= usize::MAX,
    ensures
        0 <= k < plan.lines@.len() ==> range.start_line <= plan.lines@[k].at.line_idx
            < range.end_line && plan.lines@[k].at.line_idx < comp.lines@.len(),
        0 <= i < k < plan.lines@.len() ==> plan.lines@[i].at.line_idx < plan.lines@[k].at.line_idx,
        range.column_width is None && range.start_line <= i < range.end_line && i
            < comp.lines@.len() ==> exists|j: int|
            0 <= j < plan.lines@.len() && (#[trigger] plan.lines@[j]).at.line_idx == i,
{
    let drawn = crate::frame_plan::drawn_lines(*comp, range);
    if 0 <= k < plan.lines@.len() {
        assert(plan.lines@[k].at.line_idx == drawn[k]);
        assert(drawn.contains(drawn[k]));
        let all = crate::seqs::indices(comp.lines@.len());
        all.lemma_filter_contains_rev(crate::frame_plan::is_drawn(*comp, range), drawn[k]);
    }
    if 0 <= i < k < plan.lines@.len() {
        assert(plan.lines@[i].at.line_idx == drawn[i]);
        crate::frame_laws::lemma_lines_that_are_drawn(*comp, range, i, k);
    }
    if range.column_width is None && range.start_line <= i < range.end_line && i
        < comp.lines@.len() {
        crate::frame_laws::lemma_lines_that_are_drawn(*comp, range, i, i);
        let j = choose|j: int| 0 <= j < drawn.len() && drawn[j] == i as usize;
        assert(plan.lines@[j].at.line_idx == drawn[j]);
    }
}

/// A line has the objects from its start up to that of the next.
pub proof fn lemma_objects_of_a_line(
    comp: &ComposedParagraph,
    offsets: &[(usize, u32, usize)],
    line: usize,
    i: int,
    r: Vec<(usize, u32, usize)>,
)
    requires
        call_ensures(tac_offsets_for_line::<u32>, (comp, offsets, line), r),
        line + 1 < comp.lines@.len(),
        comp.lines@[line as int].char_start < comp.lines@[line + 1].char_start,
        0 <= i < offsets@.len(),
        offsets@[i].0 != comp.lines@[line as int].char_start,
    ensures
        r@.contains(offsets@[i]) <==> comp.lines@[line as int].char_start <= offsets@[i].0
            < comp.lines@[line + 1].char_start,
{
    let p = |t: (usize, u32, usize)| crate::tac::line_owns(*comp, line as int, t.0 as int);
    if p(offsets@[i]) {
        offsets@.lemma_filter_contains(p, i);
    }
    if r@.contains(offsets@[i]) {
        offsets@.lemma_filter_contains_rev(p, offsets@[i]);
    }
}

/// With a stored assignment a line has what the file gives it.
pub proof fn lemma_objects_the_file_gives(
    comp: &ComposedParagraph,
    offsets: &[(usize, u32, usize)],
    assignment: &[(usize, usize)],
    line: usize,
    i: int,
    k: int,
    r: Vec<(usize, u32, usize)>,
)
    requires
        call_ensures(line_objects::<u32>, (comp, offsets, Some(assignment), line), r),
        0 <= i < offsets@.len(),
        0 <= k < assignment@.len(),
        assignment@[k].0 == offsets@[i].2,
        assignment@[k].1 == line,
    ensures
        r@.contains(offsets@[i]),
{
    let p = |t: (usize, u32, usize)| crate::frame::assigned_to_line(assignment@, t.2, line);
    assert(crate::frame::assigned_to_line(assignment@, offsets@[i].2, line));
    offsets@.lemma_filter_contains(p, i);
}

/// A run holds its objects at their places behind its start.
pub proof fn lemma_objects_of_a_run(
    comp: &ComposedParagraph,
    offsets: &[(usize, u32, usize)],
    place: RunPlace,
    i: int,
    r: Vec<(usize, u32, usize)>,
)
    requires
        call_ensures(run_objects::<u32>, (comp, offsets, place, true), r),
        0 <= i < offsets@.len(),
        place.start <= offsets@[i].0 < place.end,
    ensures
        r@.contains(((offsets@[i].0 - place.start) as usize, offsets@[i].1, offsets@[i].2)),
{
    let p = |t: (usize, u32, usize)|
        crate::runs::drawn_in_run(*comp, place, true, t.0 as int);
    let shift = |t: (usize, u32, usize)| ((t.0 - place.start) as usize, t.1, t.2);
    let kept = offsets@.filter(p);
    offsets@.lemma_filter_contains(p, i);
    let n = choose|n: int| 0 <= n < kept.len() && kept[n] == offsets@[i];
    assert(r@ == kept.map_values(shift));
    assert(r@[n] == shift(offsets@[i]));
}

/// Where a head comes from: identifiers count from one.
pub proof fn lemma_found_head(
    head_type: HeadType,
    numbering: u16,
    numberings: usize,
    bullet: u16,
    bullets: usize,
    r: HeadSource,
)
    requires
        call_ensures(head_source, (head_type, numbering, numberings, bullet, bullets), r),
    ensures
        r matches HeadSource::Numbering(i) ==> i + 1 == numbering && i < numberings && (head_type
            == HeadType::Number || head_type == HeadType::Outline),
        r matches HeadSource::Bullet(i) ==> i + 1 == bullet && i < bullets && head_type
            == HeadType::Bullet,
        r == HeadSource::DefaultOutline ==> head_type == HeadType::Outline,
        head_type == HeadType::Outline ==> r != HeadSource::Nothing,
        head_type == HeadType::Number && 1 <= numbering <= numberings ==> r is Numbering,
        head_type == HeadType::Bullet && 1 <= bullet <= bullets ==> r is Bullet,
        head_type == HeadType::Plain ==> r == HeadSource::Nothing,
{
}

/// A head's text is its number or its bullet, with one space behind it where text keeps a
/// distance.
pub proof fn lemma_text_of_a_head(
    format: &str,
    expanded: &str,
    distance: bool,
    number: Option<String>,
    c: char,
    bullet: Option<String>,
)
    requires
        call_ensures(number_head_text, (format, expanded, distance), number),
        call_ensures(bullet_head_text, (c, distance), bullet),
    ensures
        format@.len() > 0 && expanded@.len() > 0 && !distance ==> number is Some && number->0@
            == expanded@,
        format@.len() > 0 && expanded@.len() > 0 && distance ==> number is Some && number->0@
            == expanded@.push(' '),
        format@.len() == 0 || expanded@.len() == 0 ==> number is None,
        c == '\u{FFFF}' <==> bullet is None,
        bullet matches Some(text) ==> text@.len() == if distance {
            2nat
        } else {
            1nat
        },
        bullet matches Some(text) && (c as u32) < 0xE000 ==> bullet->0@[0] == c,
        bullet is Some && distance ==> bullet->0@[1] == ' ',
{
    if (c as u32) < 0xE000 {
        crate::pua::lemma_pua_mapping_keeps_standard_characters(c);
    }
}

/// A head is put in front of a paragraph and changes nothing else of it.
pub proof fn lemma_paragraph_with_a_head(
    composed: ComposedParagraph,
    text: String,
    r: ComposedParagraph,
)
    requires
        call_ensures(with_head, (composed, text), r),
    ensures
        r.numbering_text == Some(text),
        r.lines@ == composed.lines@,
        r.footnote_positions@ == composed.footnote_positions@,
        r.tac_controls@ == composed.tac_controls@,
        r.tab_extended@ == composed.tab_extended@,
        r.inline_controls@ == composed.inline_controls@,
        r.para_style_id == composed.para_style_id,
{
}

/// A paragraph gets its bullet: none for an image, an unknown bullet or no paragraph, and
/// its lines stay.
pub proof fn lemma_paragraph_with_a_bullet<N: FnOnce(Option<usize>) -> NumberParts>(
    composed: ComposedParagraph,
    numbering_id: u16,
    numberings: usize,
    bullet_id: u16,
    bullets: &[Bullet],
    number: N,
    r: Option<ComposedParagraph>,
)
    requires
        call_ensures(
            apply_paragraph_numbering::<N>,
            (
                Some(composed),
                HeadType::Bullet,
                numbering_id,
                numberings,
                bullet_id,
                bullets,
                number,
            ),
            r,
        ),
        bullets@.len() <= usize::MAX,
    ensures
        bullet_id == 0 || bullet_id > bullets@.len() ==> r is None,
        1 <= bullet_id <= bullets@.len() ==> {
            let own = bullets@[bullet_id - 1];
            &&& own.bullet_char == '\u{FFFF}' <==> r is None
            &&& r matches Some(numbered) ==> {
                &&& numbered.lines@ == composed.lines@
                &&& numbered.numbering_text is Some
                &&& numbered.numbering_text->0@.len() == if own.text_distance > 0 {
                    2nat
                } else {
                    1nat
                }
                &&& own.text_distance > 0 ==> numbered.numbering_text->0@[1] == ' '
            }
        },
{
}

/// What the alignment of a line does with its free width.
pub proof fn lemma_shift_of_a_line(
    alignment: Alignment,
    packed: bool,
    objects: bool,
    count: usize,
    shift: AlignShift,
)
    requires
        call_ensures(align_shift, (alignment, packed, objects, count), shift),
    ensures
        alignment == Alignment::Right ==> shift == AlignShift::FullVisible,
        alignment == Alignment::Left || alignment == Alignment::Justify || alignment
            == Alignment::Split ==> shift == AlignShift::Margin,
        alignment == Alignment::Center && !packed && !objects ==> shift == AlignShift::HalfVisible,
        alignment == Alignment::Center && packed ==> shift == AlignShift::Full,
        alignment == Alignment::Distribute && count > 1 ==> shift == AlignShift::Margin,
        alignment == Alignment::Distribute && count <= 1 && !objects ==> shift == AlignShift::Half,
{
}

/// Which lines an alignment fills by their spaces.
pub proof fn lemma_filled_line(alignment: Alignment, last: bool, forced: bool, r: bool)
    requires
        call_ensures(needs_word_distribution, (alignment, last, forced), r),
    ensures
        forced ==> !r,
        alignment == Alignment::Justify && !forced ==> r == !last,
        alignment == Alignment::Split && !forced ==> r,
        alignment == Alignment::Left || alignment == Alignment::Right || alignment
            == Alignment::Center || alignment == Alignment::Distribute ==> !r,
{
}

/// The counts of a line split it into what shows and the spaces behind that.
pub proof fn lemma_counted_line(chars: &[char], limit: usize, i: int, r: LineCounts)
    requires
        call_ensures(count_line, (chars, limit), r),
        chars@.len() <= usize::MAX,
    ensures
        r.visible + r.trailing_spaces == chars@.len(),
        r.trailing_spaces <= limit,
        r.visible <= i < chars@.len() ==> chars@[i] == ' ',
        r.trailing_spaces < limit && r.visible > 0 ==> chars@[r.visible - 1] != ' ',
        r.interior_spaces == chars@.take(r.visible as int).filter(|c: char| c == ' ').len(),
{
    crate::spacing_laws::lemma_counts_of_a_line(chars@, limit, i);
    crate::text_laws::lemma_occurrences_are_what_a_filter_keeps(
        chars@.take(r.visible as int),
        ' ',
    );
}

/// The characters of a line are those of its runs, in order; what is drawn may differ.
pub proof fn lemma_characters_of_a_line(
    runs: &[ComposedTextRun],
    plain: Vec<char>,
    shown: Vec<char>,
    k: int,
    i: int,
)
    requires
        call_ensures(line_chars, (runs,), plain),
        call_ensures(displayed_chars, (runs,), shown),
        0 <= k < runs@.len(),
        0 <= i < runs@[k].text@.len(),
    ensures
        plain@[runs_text(runs@.take(k)).len() + i] == runs@[k].text@[i],
        runs@[k].display_text is None ==> shown@[runs_display(runs@.take(k)).len() + i]
            == runs@[k].text@[i],
{
    let a = runs@.take(k);
    let own = seq![runs@[k]];
    let rest = runs@.skip(k + 1);
    assert(a + own + rest == runs@);
    crate::composed_laws::lemma_runs_text_adds_up(a + own, rest);
    crate::composed_laws::lemma_runs_text_adds_up(a, own);
    crate::composed_laws::lemma_runs_text_adds_up(own, rest);
    crate::composed_laws::lemma_runs_display_adds_up(a + own, rest);
    crate::composed_laws::lemma_runs_display_adds_up(a, own);
    crate::composed_laws::lemma_runs_display_adds_up(own, rest);
}

/// The runs of a line hold its trailing spaces between them, from the back.
pub proof fn lemma_trailing_spaces_of_runs(
    runs: &[ComposedTextRun],
    limit: usize,
    none: Vec<usize>,
    counts: Vec<usize>,
    i: int,
)
    requires
        call_ensures(line_trailing_space_by_run, (runs, limit, false), none),
        call_ensures(line_trailing_space_by_run, (runs, limit, true), counts),
        0 <= i < runs@.len(),
    ensures
        none@[i] == 0,
        counts@.len() == runs@.len(),
        counts@[i] <= limit,
        counts@[i] > 0 && i + 1 < runs@.len() && runs_display(runs@).len() > 0
            ==> runs_display(runs@).last() == ' ',
{
    crate::composed::lemma_runs_display_prefix(runs@, i);
    crate::text::lemma_trailing_count(runs_display(runs@), ' ');
}

/// The spaces that an alignment leaves out are counted from the last run on, one run behind
/// the other.
pub proof fn lemma_pieces_of_left_out_spaces(
    line: &ComposedLine,
    object: Option<usize>,
    stops: &[bool],
    r: Vec<(usize, usize)>,
    i: int,
)
    requires
        call_ensures(trailing_space_pieces, (line, object, stops), r),
        0 <= i < r@.len(),
        line.runs@.len() <= usize::MAX,
    ensures
        r@[i].0 + i + 1 == line.runs@.len(),
        !stops@[r@[i].0 as int],
        r@[i].1 <= line.runs@[r@[i].0 as int].text@.len(),
        line.runs@[r@[i].0 as int].text@.last() == ' ',
{
    let end = line.char_start + runs_units(line.runs@);
    let ints = |e: (usize, usize)| (e.0 as int, e.1 as int);
    let pieces = crate::spacing::trailing_pieces(line.runs@, end, object, stops@);
    assert(r@.map_values(ints) == pieces);
    assert(r@.map_values(ints)[i] == ints(r@[i]));
    crate::spacing_laws::lemma_left_out_spaces_end_the_line(line.runs@, end, object, stops@, i);
    lemma_left_out_piece_is_not_empty(line.runs@, end, object, stops@, i);
    crate::text::lemma_trailing_count(line.runs@[r@[i].0 as int].text@, ' ');
}

proof fn lemma_left_out_piece_is_not_empty(
    runs: Seq<ComposedTextRun>,
    end: int,
    object: Option<usize>,
    stops: Seq<bool>,
    i: int,
)
    requires
        0 <= i < crate::spacing::trailing_pieces(runs, end, object, stops).len(),
    ensures
        crate::spacing::trailing_pieces(runs, end, object, stops)[i].1 != 0,
        crate::spacing::trailing_pieces(runs, end, object, stops)[i].1 >= 0,
    decreases runs.len(),
{
    if i > 0 {
        let before = end - crate::composed::run_units(runs.last());
        lemma_left_out_piece_is_not_empty(runs.drop_last(), before, object, stops, i - 1);
        let rest = crate::spacing::trailing_pieces(runs.drop_last(), before, object, stops);
        assert(crate::spacing::trailing_pieces(runs, end, object, stops)[i] == rest[i - 1]);
    }
}

/// A line breaks at ever later characters, for ever later stored lines.
pub proof fn lemma_breaks_of_a_paragraph(
    para: &Paragraph,
    inline: bool,
    r: Vec<(usize, usize)>,
    i: int,
    j: int,
)
    requires
        call_ensures(inline_table_stored_line_breaks, (para, inline), r),
    ensures
        0 <= i < r@.len() ==> r@[i].0 <= para.text@.len() && 1 <= r@[i].1 < para.line_segs@.len(),
        0 <= i < j < r@.len() ==> r@[i].0 < r@[j].0 && r@[i].1 < r@[j].1,
        0 <= i < r@.len() && r@[i].0 < para.char_offsets@.len() ==> para.char_offsets@[r@[i].0 as int]
            >= para.line_segs@[r@[i].1 as int].lifted_start || r@[i].0 == para.text@.len(),
{
    let as_numbers = |b: (usize, usize)| crate::inline_table::break_view(b);
    let breaks = crate::inline_table::breaks_of(*para, inline);
    assert(r@.map_values(as_numbers) == breaks);
    crate::inline_table::lemma_breaks_advance(*para, inline);
    if 0 <= i < r@.len() {
        assert(r@.map_values(as_numbers)[i] == as_numbers(r@[i]));
        assert(breaks[i] == (r@[i].0 as int, r@[i].1 as int));
        crate::inline_table_laws::lemma_breaks_are_line_starts(*para, inline, i);
    }
    if 0 <= i < j < r@.len() {
        assert(r@.map_values(as_numbers)[j] == as_numbers(r@[j]));
        assert(breaks[j] == (r@[j].0 as int, r@[j].1 as int));
    }
}

/// A stored line lies as far below the first as the file says.
pub proof fn lemma_stored_distance(para: &Paragraph, line: usize, r: Option<i64>)
    requires
        call_ensures(inline_table_stored_line_top_offset, (para, line), r),
    ensures
        r matches Some(d) ==> 0 < line < para.line_segs@.len() && d > 0
            && para.line_segs@[0].vertical_pos + d == para.line_segs@[line as int].vertical_pos,
        line == 0 || line >= para.line_segs@.len() ==> r is None,
{
}

/// The break in front of the text is kept only behind a lone table in the text that leads it,
/// with a caption below, where the text starts on the second stored line.
pub proof fn lemma_break_in_front_of_the_text(para: &Paragraph, inline: bool, i: int, r: bool)
    requires
        call_ensures(
            preserves_stored_first_visible_break_after_bottom_caption_table,
            (para, inline),
            r,
        ),
    ensures
        !inline || para.text@.len() == 0 || para.line_segs@.len() < 2 || para.char_offsets@.len()
            == 0 ==> !r,
        r ==> para.char_offsets@[0] == 8 && para.line_segs@[0].text_start == 0
            && para.line_segs@[1].lifted_start == 8 && para.line_segs@[0].segment_width > 0,
        r ==> exists|k: int|
            #![trigger para.controls@[k]]
            0 <= k < para.controls@.len() && (para.controls@[k] matches Control::Table(table)
                && table.common.treat_as_char && (table.caption matches Some(caption)
                && caption.direction == CaptionDirection::Bottom && caption.paragraphs > 0)),
        inline && para.char_offsets@.len() > 0 && para.char_offsets@[0] == 8 && para.text@.len() > 0
            && para.line_segs@.len() >= 2 && para.line_segs@[0].text_start == 0
            && para.line_segs@[1].lifted_start == 8 && para.line_segs@[0].segment_width > 0
            && para.controls@.len() == 1 && para.control_positions@.len() == 1
            && para.control_positions@[0] == 0 && (para.controls@[0] matches Control::Table(table)
            && table.common.treat_as_char && (table.caption matches Some(caption)
            && caption.direction == CaptionDirection::Bottom && caption.paragraphs > 0)) ==> r,
        0 <= i < para.controls@.len() && i < para.control_positions@.len()
            && para.control_positions@[i] == 0 && !(para.controls@[i] is Table) ==> !r,
{
    if para.controls@.len() == 1 && para.control_positions@.len() == 1
        && para.control_positions@[0] == 0 {
        assert(crate::inline_table::leads_text_alone(*para, 0));
    }
    if r && 0 <= i < para.controls@.len() && i < para.control_positions@.len()
        && para.control_positions@[i] == 0 {
        let k = choose|k: int| #[trigger]
            crate::inline_table::leads_text_alone(*para, k)
                && crate::line_geometry::inline_table_at(*para, k)
                && crate::inline_table::has_bottom_caption(*para.controls@[k]->Table_0);
        assert(crate::inline_table::leads_text(*para, i));
        assert(i == k);
    }
    if r {
        let k = choose|k: int| #[trigger]
            crate::inline_table::leads_text_alone(*para, k)
                && crate::line_geometry::inline_table_at(*para, k)
                && crate::inline_table::has_bottom_caption(*para.controls@[k]->Table_0);
        assert(para.controls@[k] is Table);
    }
}

/// The line of the tables is moved by its stored position only where a table in the text
/// holds an object between lines that does not move with the text.
pub proof fn lemma_line_of_the_tables_is_moved(
    para: &Paragraph,
    i: int,
    c: int,
    p: int,
    k: int,
    r: i32,
)
    requires
        call_ensures(inline_table_line_shift, (para,), r),
    ensures
        r >= 0,
        r > 0 ==> para.line_segs@.len() > 0 && r == para.line_segs@[0].vertical_pos,
        para.line_segs@.len() > 0 && para.line_segs@[0].vertical_pos > 0 && 0 <= i
            < para.controls@.len() && (para.controls@[i] matches Control::Table(table)
            && table.common.treat_as_char && 0 <= c < table.cells@.len() && 0 <= p
            < table.cells@[c].paragraphs@.len() && 0 <= k
            < table.cells@[c].paragraphs@[p].controls@.len() && (
        table.cells@[c].paragraphs@[p].controls@[k] matches Control::Picture(picture)
            && !picture.common.treat_as_char && !picture.common.flow_with_text
            && picture.common.text_wrap == TextWrap::TopAndBottom && picture.common.vert_rel_to
            == VertRelTo::Para)) ==> r == para.line_segs@[0].vertical_pos,
        (forall|j: int|
            #![trigger para.controls@[j]]
            0 <= j < para.controls@.len() ==> !(para.controls@[j] matches Control::Table(table)
                && table.common.treat_as_char)) ==> r == 0,
{
    if para.line_segs@.len() > 0 && para.line_segs@[0].vertical_pos > 0 && 0 <= i
        < para.controls@.len() {
        if let Control::Table(table) = para.controls@[i] {
            if table.common.treat_as_char && 0 <= c < table.cells@.len() && 0 <= p
                < table.cells@[c].paragraphs@.len() && 0 <= k
                < table.cells@[c].paragraphs@[p].controls@.len() {
                let own = table.cells@[c].paragraphs@[p];
                if crate::inline_table::is_detached_float(own.controls@[k]) {
                    assert(crate::inline_table::para_has_detached(own));
                    assert(crate::inline_table::cell_has_detached(table.cells@[c]));
                    assert(crate::inline_table::table_has_detached(*table));
                    assert(crate::line_geometry::inline_table_at(*para, i));
                }
            }
        }
    }
}

/// Tables in front of the text are never more than there are tables, and all where all stand
/// at the first character.
pub proof fn lemma_leading_tables_are_counted(para: &Paragraph, tables: &[usize], r: usize)
    requires
        call_ensures(leading_inline_tables, (para, tables), r),
        forall|k: int|
            0 <= k < tables@.len() ==> (#[trigger] tables@[k]) < para.controls@.len()
                && tables@[k] < para.control_positions@.len(),
    ensures
        r <= tables@.len(),
        (forall|k: int|
            0 <= k < tables@.len() ==> para.control_positions@[(#[trigger] tables@[k]) as int] == 0)
            ==> r == tables@.len(),
        (forall|k: int|
            0 <= k < tables@.len() ==> para.control_positions@[(#[trigger] tables@[k]) as int] > 0)
            ==> r == 0,
{
    lemma_all_or_none_lead(*para, tables@);
}

proof fn lemma_all_or_none_lead(para: Paragraph, tables: Seq<usize>)
    requires
        forall|k: int|
            0 <= k < tables.len() ==> (#[trigger] tables[k]) < para.controls@.len() && tables[k]
                < para.control_positions@.len(),
    ensures
        (forall|k: int|
            0 <= k < tables.len() ==> para.control_positions@[(#[trigger] tables[k]) as int] == 0)
            ==> crate::inline_table::leading_tables(para, tables) == tables.len(),
        (forall|k: int|
            0 <= k < tables.len() ==> para.control_positions@[(#[trigger] tables[k]) as int] > 0)
            ==> crate::inline_table::leading_tables(para, tables) == 0,
    decreases tables.len(),
{
    if tables.len() > 0 {
        let before = tables.drop_last();
        assert forall|k: int| 0 <= k < before.len() implies (#[trigger] before[k])
            < para.controls@.len() && before[k] < para.control_positions@.len() by {
            assert(tables[k] == before[k]);
        }
        lemma_all_or_none_lead(para, before);
        assert(tables[tables.len() - 1] < para.controls@.len());
        assert forall|k: int| 0 <= k < before.len() implies #[trigger] before[k] == tables[k] by {}
    }
}

/// A table in the text moves to the next line only from behind what stands on its line.
pub proof fn lemma_table_in_the_text_wraps(
    position: Option<usize>,
    len: usize,
    occupied: bool,
    exceeds: bool,
    r: bool,
)
    requires
        call_ensures(should_wrap_middle_anchored_table, (position, len, occupied, exceeds), r),
    ensures
        r ==> occupied && exceeds && position is Some && 1 <= position->0 <= len,
        occupied && exceeds && position is Some && 1 <= position->0 <= len ==> r,
{
}

/// The label of a control stands in brackets; where marks are not shown there is none.
pub proof fn lemma_label_of_a_control(
    control: &Control,
    label: Option<String>,
    controls: &[Control],
    positions: &[usize],
    hidden: Vec<(usize, String)>,
)
    requires
        call_ensures(control_label, (control,), label),
        call_ensures(collect_shape_marker_labels, (false, controls, positions), hidden),
    ensures
        hidden@.len() == 0,
        label matches Some(text) ==> text@.len() >= 2 && text@[0] == '[' && text@.last() == ']',
        control is Picture || control is Shape || control is Footnote || control is Endnote
            || control is Bookmark ==> label is Some,
        control is Field || control is Other || control is AutoNumber ==> label is None,
        *control matches Control::Shape(shape) ==> label->0@.subrange(1, label->0@.len() - 1)
            == shape.name@,
{
    crate::control_laws::lemma_labels_stand_in_brackets(*control);
    crate::control_laws::lemma_controls_with_a_label(*control);
    let entry = |e: (usize, String)| (e.0, e.1@);
    assert(hidden@.map_values(entry).len() == hidden@.len());
    reveal_strlit("[");
    reveal_strlit("]");
}

/// A colour reads back byte by byte: red, green, blue.
pub proof fn lemma_written_color(color: u32, text: String)
    requires
        call_ensures(form_color_to_css, (color,), text),
    ensures
        text@.len() == 7,
        text@[0] == '#',
        crate::control_laws::digit_value(text@[1]) * 16 + crate::control_laws::digit_value(text@[2])
            == color % 256,
        crate::control_laws::digit_value(text@[3]) * 16 + crate::control_laws::digit_value(text@[4])
            == color / 256 % 256,
        crate::control_laws::digit_value(text@[5]) * 16 + crate::control_laws::digit_value(text@[6])
            == color / 65536 % 256,
{
    crate::control_laws::lemma_css_color_reads_back(color);
}

/// A character outside of the private use is shown as it is, and what is shown is no longer
/// mapped.
pub proof fn lemma_shown_character(c: char, r: char, again: char)
    requires
        call_ensures(map_pua_bullet_char, (c,), r),
        call_ensures(map_pua_bullet_char, (r,), again),
    ensures
        (c as u32) < 0xE000 ==> r == c,
        again == r,
        r != c ==> (r as u32) < 0xE000 || 0xF8FF < r as u32,
{
    crate::pua::lemma_pua_mapping_idempotent(c);
    if (c as u32) < 0xE000 {
        crate::pua::lemma_pua_mapping_keeps_standard_characters(c);
    }
    if r != c {
        crate::pua::lemma_pua_mapping_leaves_private_use(c);
    }
}

/// How the codes of notes are read.
pub proof fn lemma_read_code(code: u8, r: NumberFormat)
    requires
        call_ensures(note_number_format_from_hwp_code, (code,), r),
    ensures
        r == NumberFormat::CircledDigit <==> code == 1,
        r == NumberFormat::RomanUpper <==> code == 2,
        r == NumberFormat::RomanLower <==> code == 3,
        r == NumberFormat::LatinUpper <==> code == 4,
        r == NumberFormat::LatinLower <==> code == 5,
        r == NumberFormat::HangulGaNaDa <==> code == 8,
        r == NumberFormat::HangulNumber <==> code == 12,
        r == NumberFormat::HanjaNumber <==> code == 13,
{
}

/// A field of the body is the active one where section, paragraph and control agree.
pub proof fn lemma_field_that_is_edited(
    field: &ActiveField,
    section: usize,
    para: usize,
    control: usize,
    r: bool,
    none: bool,
)
    requires
        call_ensures(is_active_field, (Some(field), section, para, control, None), r),
        call_ensures(is_active_field, (None, section, para, control, None), none),
    ensures
        !none,
        r <==> field.section_index == section && field.para_index == para && field.control_index
            == control && field.cell_path is None,
{
}

/// Spacing in front of a paragraph inside its column is whole, and counts at its first line
/// alone.
pub proof fn lemma_spacing_rule(
    start: usize,
    has_spacing: bool,
    top: bool,
    keep: bool,
    index: usize,
    suppress: bool,
    para: Option<&Paragraph>,
    r: SpacingBefore,
)
    requires
        call_ensures(
            spacing_before_rule,
            (start, has_spacing, top, keep, index, suppress, para),
            r,
        ),
    ensures
        start > 0 || !has_spacing ==> r == SpacingBefore::Nothing,
        start == 0 && has_spacing && (!top || keep) ==> r == SpacingBefore::Full,
        r == SpacingBefore::Full ==> !top || keep,
        top && !keep && suppress ==> r == SpacingBefore::Nothing,
        r is AtMostStored ==> index == 0,
        r is StoredIfWithin ==> index > 0,
{
}

/// A line of another column is one whose width is more than 200 units off.
pub proof fn lemma_line_left_to_another_column(width: i32, column: i32, r: bool, none: bool)
    requires
        call_ensures(is_line_of_other_column, (width, Some(column)), r),
        call_ensures(is_line_of_other_column, (width, None), none),
    ensures
        !none,
        r <==> width > 0 && (width - column > 200 || column - width > 200),
{
}

/// The lines of an endnote are measured from a stored line of the range.
pub proof fn lemma_measured_from(
    para: &Paragraph,
    comp: &ComposedParagraph,
    offsets: &[(usize, u32, usize)],
    flow: bool,
    start: usize,
    end: usize,
    r: Option<i32>,
)
    requires
        call_ensures(endnote_line_vpos_base::<u32>, (Some(para), comp, offsets, flow, start, end), r),
    ensures
        r matches Some(pos) ==> flow && start + 1 < end <= para.line_segs@.len() && (pos
            == para.line_segs@[start as int].vertical_pos || pos == para.line_segs@[start
            + 1].vertical_pos),
        !flow ==> r is None,
{
}

/// A line ends where the next starts; the last behind its text and its break.
pub proof fn lemma_end_of_a_line(comp: &ComposedParagraph, i: usize, r: usize)
    requires
        call_ensures(composed_line_char_end, (comp, i), r),
        i < comp.lines@.len(),
    ensures
        i + 1 < comp.lines@.len() ==> r == comp.lines@[i + 1].char_start,
        i + 1 == comp.lines@.len() && !comp.lines@[i as int].has_line_break ==> r
            == comp.lines@[i as int].char_start + runs_text(comp.lines@[i as int].runs@).len(),
        i + 1 == comp.lines@.len() && comp.lines@[i as int].has_line_break ==> r
            == comp.lines@[i as int].char_start + runs_text(comp.lines@[i as int].runs@).len() + 1,
{
}

/// What objects between the lines reserve adds up.
pub proof fn lemma_reserved_adds_up(
    a: &[Control],
    b: &[Control],
    both: &[Control],
    x: i32,
    y: i32,
    z: i32,
)
    requires
        both@ == a@ + b@,
        call_ensures(calc_sibling_topandbottom_reserved_hu, (a,), x),
        call_ensures(calc_sibling_topandbottom_reserved_hu, (b,), y),
        call_ensures(calc_sibling_topandbottom_reserved_hu, (both,), z),
    ensures
        z == x + y,
        a@.len() == 0 ==> x == 0,
{
    crate::controls::lemma_reserved_height_adds_up(a@, b@);
}

/// A text ends in a tab where only spaces stand behind its last one, and is blank behind it
/// where only white space does.
pub proof fn lemma_tab_at_the_end(chars: &[char], at: int, ends: bool, blank: bool)
    requires
        call_ensures(run_ends_in_tab, (chars,), ends),
        call_ensures(run_blank_after_last_tab, (chars,), blank),
    ensures
        chars@.len() > 0 && chars@.last() == '\t' ==> ends && blank,
        !chars@.contains('\t') ==> !ends && !blank,
        chars@.len() > 0 && '!' as u32 <= chars@.last() as u32 <= '~' as u32 ==> !ends && !blank,
{
    if chars@.len() > 0 {
        let text = chars@.drop_last();
        assert(text.push(chars@.last()) == chars@);
        crate::tab_laws::lemma_what_ends_in_a_tab(text, chars@.last());
        crate::tab_laws::lemma_what_is_blank_behind_a_tab(text, chars@.last());
    }
    if !chars@.contains('\t') {
        crate::tabs::lemma_no_last_tab(chars@);
    }
}

/// A blank run leaves an aligning tab to the next; any other run is aligned.
pub proof fn lemma_tab_left_open(tab_type: u8, text: &str, r: PendingTab)
    requires
        call_ensures(pending_tab_step, (tab_type, text), r),
    ensures
        !all_white(text@) ==> r == PendingTab::Align,
        all_white(text@) && 1 <= tab_type <= 2 ==> r == PendingTab::Carry,
        tab_type == 0 || tab_type > 2 ==> r == PendingTab::Align,
{
}

/// The table that others are aligned with is the first in the text that fills its line and
/// has a margin.
pub proof fn lemma_owner_of_a_line(
    para: &Paragraph,
    objects: &[(usize, u32, usize)],
    fills: &[bool],
    i: int,
    r: Option<usize>,
)
    requires
        call_ensures(line_table_owner::<u32>, (Some(para), objects, fills), r),
        0 <= i < objects@.len(),
        fills@[i],
        objects@[i].2 < para.controls@.len(),
        para.controls@[objects@[i].2 as int] matches Control::Table(table)
            && table.common.treat_as_char && (table.outer_margin_top > 0
            || table.outer_margin_bottom > 0),
    ensures
        r matches Some(k) && k <= i && fills@[k as int] && para.controls@[objects@[k as int].2 as int]
            is Table,
{
    assert(crate::objects::is_line_filling_table(Some(para), objects@, fills@, i));
}

/// Plain text without stored lines is text that shows and nothing else.
pub proof fn lemma_plain_text_without_lines(para: &Paragraph, r: bool)
    requires
        call_ensures(is_plain_text_without_stored_lines, (para,), r),
    ensures
        r <==> para.line_segs@.len() == 0 && para.controls@.len() == 0 && !all_white(para.text@),
        para.controls@.len() > 0 || para.line_segs@.len() > 0 ==> !r,
{
}

/// A line has a shape, a table in the text or a tall shape where one of its objects is one.
pub proof fn lemma_kinds_of_objects(
    para: &Paragraph,
    line: &ComposedLine,
    objects: &[(usize, u32, usize)],
    k: int,
    shape: bool,
    table: bool,
    tall: bool,
)
    requires
        call_ensures(has_tac_shape::<u32>, (Some(para), objects), shape),
        call_ensures(line_has_inline_tac_table::<u32>, (Some(para), objects), table),
        call_ensures(
            empty_tac_guide_has_explicit_shape_height::<u32>,
            (Some(para), line, objects),
            tall,
        ),
    ensures
        objects@.len() == 0 ==> !shape && !table && !tall,
        line.runs@.len() > 0 ==> !tall,
        tall ==> shape,
        0 <= k < objects@.len() && objects@[k].2 < para.controls@.len()
            && para.controls@[objects@[k].2 as int] is Shape ==> shape,
        0 <= k < objects@.len() && objects@[k].2 < para.controls@.len() && (
        para.controls@[objects@[k].2 as int] matches Control::Table(t) && t.common.treat_as_char)
            ==> table,
{
    if tall {
        assert(crate::line_geometry::holds_tall_shape(*para, objects@));
        let i = choose|i: int|
            0 <= i < objects@.len() && crate::line_geometry::tall_shape_at(
                *para,
                (#[trigger] objects@[i]).2 as int,
            );
        assert(crate::line_geometry::shape_at(*para, objects@[i].2 as int));
    }
    if 0 <= k < objects@.len() && objects@[k].2 < para.controls@.len() {
        if para.controls@[objects@[k].2 as int] is Shape {
            assert(crate::line_geometry::shape_at(*para, objects@[k].2 as int));
        }
        if let Control::Table(t) = para.controls@[objects@[k].2 as int] {
            if t.common.treat_as_char {
                assert(crate::line_geometry::inline_table_at(*para, objects@[k].2 as int));
            }
        }
    }
}

/// The widths of a paragraph are mixed where a line is more than 1000 units wider than
/// another that has a width.
pub proof fn lemma_mixed_widths_of_a_paragraph(para: &Paragraph, i: int, j: int, r: bool)
    requires
        call_ensures(has_mixed_segment_widths, (Some(para),), r),
        0 <= i < para.line_segs@.len(),
        0 <= j < para.line_segs@.len(),
        0 < para.line_segs@[i].segment_width,
    ensures
        para.line_segs@[j].segment_width > para.line_segs@[i].segment_width + 1000 ==> r,
        para.line_segs@.len() == 1 ==> !r,
{
}

/// An object stands in a line where a table or shape names that line.
pub proof fn lemma_object_in_a_line(comp: &ComposedParagraph, line: usize, k: int, r: bool)
    requires
        call_ensures(line_has_as_char_object, (comp, line), r),
    ensures
        comp.inline_controls@.len() == 0 ==> !r,
        0 <= k < comp.inline_controls@.len() && comp.inline_controls@[k].line_index == line
            && comp.inline_controls@[k].control_type
            == crate::composed::InlineControlType::Table ==> r,
        0 <= k < comp.inline_controls@.len() && comp.inline_controls@[k].line_index == line
            && comp.inline_controls@[k].control_type
            == crate::composed::InlineControlType::Shape ==> r,
        (forall|i: int|
            #![trigger comp.inline_controls@[i]]
            0 <= i < comp.inline_controls@.len() ==> comp.inline_controls@[i].line_index != line)
            ==> !r,
{
}

/// A paragraph gets the number that its numbering counts: the definition is the one that its
/// identifier names, counting from one, and the head is that number, with a space behind it
/// where text keeps a distance. Without a definition there is none, and its lines stay.
pub proof fn lemma_paragraph_with_a_number<N: FnOnce(Option<usize>) -> NumberParts>(
    composed: ComposedParagraph,
    numbering_id: u16,
    numberings: usize,
    bullet_id: u16,
    bullets: &[Bullet],
    number: N,
    r: Option<ComposedParagraph>,
)
    requires
        call_ensures(
            apply_paragraph_numbering::<N>,
            (
                Some(composed),
                HeadType::Number,
                numbering_id,
                numberings,
                bullet_id,
                bullets,
                number,
            ),
            r,
        ),
    ensures
        numbering_id == 0 || numbering_id > numberings ==> r is None,
        1 <= numbering_id <= numberings ==> exists|parts: NumberParts| {
            &&& #[trigger] call_ensures(number, (Some((numbering_id - 1) as usize),), parts)
            &&& parts.format@.len() == 0 || parts.expanded@.len() == 0 <==> r is None
            &&& r is Some && parts.text_distance <= 0 ==> r->0.numbering_text->0@
                == parts.expanded@
            &&& r is Some && parts.text_distance > 0 ==> r->0.numbering_text->0@
                == parts.expanded@.push(' ')
        },
        r matches Some(numbered) ==> numbered.lines@ == composed.lines@
            && numbered.numbering_text is Some,
{
    if 1 <= numbering_id <= numberings {
        let i = (numbering_id - 1) as usize;
        let parts = choose|parts: NumberParts| #[trigger]
            call_ensures(number, (Some(i),), parts) && crate::numbering::is_numbered(
                r,
                Some(composed),
                crate::numbering::number_head(
                    parts.format@,
                    parts.expanded@,
                    parts.text_distance > 0,
                ),
            );
        assert(call_ensures(number, (Some(i),), parts));
    }
}

/// The lines of a frame start with the document's character behind all lines in front of
/// them, where no characters are set on top of each other.
pub proof fn lemma_planned_lines_know_their_character(
    comp: &ComposedParagraph,
    para: Option<&Paragraph>,
    offsets: &[(usize, u32, usize)],
    range: FrameRange,
    plan: FramePlan<u32>,
    k: int,
)
    requires
        call_ensures(frame_plan::<u32>, (comp, para, offsets, None, range), plan),
        0 <= k < plan.lines@.len(),
        crate::frame::lines_chars(comp.lines@) <= usize::MAX,
        comp.lines@.len() <= usize::MAX,
        forall|i: int|
            0 <= i < comp.lines@.len() ==> crate::frame_plan::takes_one_place_each(
                #[trigger] comp.lines@[i],
            ),
    ensures
        plan.lines@[k].at.char_offset == crate::frame::lines_chars(
            comp.lines@.take(plan.lines@[k].at.line_idx as int),
        ),
        plan.lines@[k].at.start_line == range.start_line,
        plan.lines@[k].candidates@ == offsets@,
{
    let drawn = crate::frame_plan::drawn_lines(*comp, range);
    let all = crate::seqs::indices(comp.lines@.len());
    assert(drawn.contains(drawn[k]));
    all.lemma_filter_contains_rev(crate::frame_plan::is_drawn(*comp, range), drawn[k]);
    assert(plan.lines@[k].lays_out(
        *comp,
        para,
        offsets@,
        crate::frame::assignment_view(None),
        range,
        drawn[k],
    ));
    crate::frame_plan::lemma_lines_start_behind_their_text(*comp, range, drawn[k] as int);
    crate::frame::lemma_lines_chars_monotone(comp.lines@, drawn[k] as int);
}

/// The runs of a planned line have the marks, objects and notes of their places: a mark
/// stands in front of the first run that starts at its place or behind it, and an object in
/// the run that holds its place.
pub proof fn lemma_planned_runs_have_their_objects(
    comp: &ComposedParagraph,
    para: Option<&Paragraph>,
    offsets: &[(usize, u32, usize)],
    positions: &[usize],
    at: PlannedLine,
    plan: LinePlan<u32>,
    k: int,
    i: int,
    j: int,
)
    requires
        call_ensures(line_plan::<u32>, (comp, para, offsets, positions, at), plan),
        line_fits(*comp, para, offsets@, at),
        0 <= k < comp.lines@[at.line_idx as int].runs@.len(),
        0 <= i < positions@.len() <= usize::MAX,
        0 <= j < offsets@.len(),
    ensures
        plan.runs@[k].markers@.contains(i as usize) <==> (k > 0
            ==> comp.lines@[at.line_idx as int].char_start + runs_units(
            comp.lines@[at.line_idx as int].runs@.take(k - 1),
        ) < positions@[i]) && positions@[i] <= comp.lines@[at.line_idx as int].char_start
            + runs_units(comp.lines@[at.line_idx as int].runs@.take(k)),
        at.has_stored_assignment && plan.runs@[k].place.start <= offsets@[j].0
            < plan.runs@[k].place.end ==> plan.runs@[k].objects@.contains(
            (
                (offsets@[j].0 - plan.runs@[k].place.start) as usize,
                offsets@[j].1,
                offsets@[j].2,
            ),
        ),
{
    let line = comp.lines@[at.line_idx as int];
    assert(plan.runs@[k].draws(*comp, para, offsets@, positions@, at, k));
    crate::draw_laws::lemma_mark_stands_in_front_of_its_run(line, positions@, k, i);
    let place = plan.runs@[k].place;
    let p = |t: (usize, u32, usize)|
        crate::runs::drawn_in_run(*comp, place, at.has_stored_assignment, t.0 as int);
    let shift = |t: (usize, u32, usize)| ((t.0 - place.start) as usize, t.1, t.2);
    let kept = offsets@.filter(p);
    assert(plan.runs@[k].objects@ == kept.map_values(shift));
    if p(offsets@[j]) {
        offsets@.lemma_filter_contains(p, j);
        let n = choose|n: int| 0 <= n < kept.len() && kept[n] == offsets@[j];
        assert(plan.runs@[k].objects@[n] == shift(offsets@[j]));
    }
}

} // verus!
