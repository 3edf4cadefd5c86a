//! What the sharing out of a line's width promises.

use vstd::prelude::*;

use crate::composed::run_units;
use crate::composed::runs_display;
use crate::composed::runs_units;
use crate::composed::ComposedLine;
use crate::composed::ComposedTextRun;
use crate::model::Alignment;
use crate::spacing::company_logo_text;
use crate::spacing::counts_of;
use crate::spacing::distributes_words;
use crate::spacing::first_leader_run;
use crate::spacing::is_excluded_justify_last_line;
use crate::spacing::is_hancom_company_pua_logo_line;
use crate::spacing::is_last_glyph;
use crate::spacing::last_line_glyph;
use crate::spacing::last_object_position;
use crate::spacing::leader_dashes;
use crate::spacing::leader_dashes_before;
use crate::spacing::plan_of;
use crate::spacing::spacing_mode;
use crate::spacing::total_char_count;
use crate::spacing::trailing_pieces;
use crate::spacing::trailing_space_limit_after_last_inline_object;
use crate::spacing::Sign;
use crate::spacing::SpacingFacts;
use crate::spacing::SpacingMode;
use crate::spacing::SpacingPlan;
use crate::text::lemma_trailing_count;
use crate::text::occurrences;
use crate::text::trailing_count;

verus! {

/// A line that is too wide is compressed: where its alignment fills no width and nothing
/// speaks against it, all its characters move together, step by step in a cell that is to
/// converge.
pub proof fn lemma_wide_line_is_compressed(f: SpacingFacts)
    requires
        f.char_slack == Sign::Negative,
        !f.needs_justify,
        !f.needs_distribute,
        !f.has_tabs,
        !f.leader_can_grow,
        f.total_char_count > 1,
        !f.suppress_cell_overflow_spacing,
    ensures
        f.converge_auto_shrink_cell ==> plan_of(f) == (SpacingPlan::Converge {
            count: f.total_char_count,
        }),
        !f.converge_auto_shrink_cell ==> plan_of(f) == (SpacingPlan::Characters {
            count: f.total_char_count,
        }),
{
}

/// A line that is too wide in every way of measuring it is never left as it is without a
/// cause: it has tabs, one visible character at most, or its cell is not to be compressed.
pub proof fn lemma_wide_line_is_left_only_for_a_cause(f: SpacingFacts)
    requires
        f.shown.interior_spaces + f.shown.trailing_spaces <= usize::MAX,
        f.char_slack == Sign::Negative,
        f.word_slack == Sign::Negative,
        f.distribute_slack == Sign::Negative,
        plan_of(f) == SpacingPlan::Natural,
    ensures
        f.suppress_cell_overflow_spacing || f.total_char_count <= 1 || (f.has_tabs
            && !f.needs_justify && !f.needs_distribute) || (f.needs_distribute
            && f.total_char_count <= f.plain.trailing_spaces + 1),
{
}

/// What is too wide is never drawn wider: no plan that only widens is made for it, but for
/// leaders that can grow.
pub proof fn lemma_wide_line_is_not_widened(f: SpacingFacts)
    requires
        f.char_slack != Sign::Positive,
        f.word_slack != Sign::Positive,
        !f.leader_can_grow,
    ensures
        !(plan_of(f) is Leaders),
        !(plan_of(f) is FillCell),
        !(plan_of(f) is RestoreLeaders),
{
}

/// What leaves room is never compressed step by step.
pub proof fn lemma_narrow_line_does_not_converge(f: SpacingFacts)
    requires
        f.char_slack != Sign::Negative,
    ensures
        !(plan_of(f) is Converge),
{
}

/// A line whose spaces are widened gives its free width to each space between its words,
/// all alike; the spaces at its end count where they are drawn.
pub proof fn lemma_justified_line_widens_its_spaces(f: SpacingFacts)
    requires
        f.needs_justify,
        f.shown.interior_spaces > 0,
        f.shown.interior_spaces + f.shown.trailing_spaces <= usize::MAX,
        f.shown.leader_dashes == 0 || f.word_slack != Sign::Positive,
        f.word_slack != Sign::Negative || !f.suppress_cell_overflow_spacing,
    ensures
        plan_of(f) matches SpacingPlan::Words { slots, rest_to_characters } && {
            &&& !f.renders_trailing_space ==> slots == f.shown.interior_spaces
            &&& f.renders_trailing_space ==> slots - f.shown.interior_spaces
                == f.shown.trailing_spaces
            &&& rest_to_characters <==> f.in_cell && !f.has_tabs && f.total_char_count > 1
        },
{
}

/// Free width of a justified line with leaders goes to the dashes, not to the spaces.
pub proof fn lemma_leaders_take_the_free_width(f: SpacingFacts)
    requires
        f.needs_justify,
        f.shown.leader_dashes > 0,
    ensures
        f.shown.interior_spaces > 0 && f.word_slack == Sign::Positive ==> plan_of(f) == (
        SpacingPlan::Leaders { dashes: f.shown.leader_dashes, of_words: true }),
        f.shown.interior_spaces == 0 && f.total_char_count > 1 && f.char_slack == Sign::Positive
            && !f.justify_spaces_only ==> plan_of(f) == (SpacingPlan::Leaders {
            dashes: f.shown.leader_dashes,
            of_words: false,
        }),
{
}

/// A justified line of one word spreads its characters, or draws them together where it is
/// too wide; where only spaces may be widened it is not spread.
pub proof fn lemma_justified_word(f: SpacingFacts)
    requires
        f.needs_justify,
        f.shown.interior_spaces == 0,
        f.total_char_count > 1,
        f.shown.leader_dashes == 0,
    ensures
        f.char_slack == Sign::Positive && f.justify_spaces_only ==> plan_of(f)
            == SpacingPlan::Natural,
        f.char_slack == Sign::Positive && !f.justify_spaces_only ==> plan_of(f) == (
        SpacingPlan::Characters { count: f.total_char_count }),
        f.char_slack == Sign::Negative && f.suppress_cell_overflow_spacing ==> plan_of(f)
            == SpacingPlan::Natural,
        f.char_slack == Sign::Negative && !f.suppress_cell_overflow_spacing ==> plan_of(f) == (
        if f.converge_auto_shrink_cell {
            SpacingPlan::Converge { count: f.total_char_count }
        } else {
            SpacingPlan::Characters { count: f.total_char_count }
        }),
{
}

/// A distributed line widens the gaps between its visible characters: one fewer than these,
/// and the spaces at its end take no part.
pub proof fn lemma_distributed_line_widens_its_gaps(f: SpacingFacts)
    requires
        f.needs_distribute,
        !f.needs_justify,
        !f.leader_can_grow,
        f.total_char_count >= f.plain.trailing_spaces + 2,
        f.distribute_slack != Sign::Negative || !f.suppress_cell_overflow_spacing,
    ensures
        plan_of(f) matches SpacingPlan::Gaps { gaps, visible } && gaps + 1 == visible && visible
            + f.plain.trailing_spaces == f.total_char_count,
{
}

/// A leader that a line does not widen gets its natural width back where it can grow, in a
/// paragraph whose alignment fills lines; in no other.
pub proof fn lemma_leaders_are_restored(f: SpacingFacts)
    requires
        !f.needs_justify,
        f.leader_can_grow,
        f.plain.leader_dashes > 0,
    ensures
        f.alignment == Alignment::Justify || f.alignment == Alignment::Split ==> plan_of(f) == (
        SpacingPlan::RestoreLeaders { dashes: f.plain.leader_dashes }),
        f.alignment != Alignment::Justify && f.alignment != Alignment::Split ==> !(plan_of(
            f,
        ) is RestoreLeaders),
{
}

/// Text that was set tight for its cell is spread to fill it; each of the conditions is
/// needed.
pub proof fn lemma_tight_text_fills_its_cell(f: SpacingFacts)
    requires
        !f.needs_justify,
        !f.needs_distribute,
        !f.leader_can_grow,
    ensures
        f.in_cell && f.alignment != Alignment::Left && f.char_slack == Sign::Positive && f.has_width
            && f.has_tight_run && f.natural_width_overflows && f.total_char_count > 1 && !f.has_tabs
            && !f.is_excluded_justify_last_line ==> plan_of(f) == (SpacingPlan::FillCell {
            count: f.total_char_count,
        }),
        !f.in_cell || f.alignment == Alignment::Left || f.char_slack != Sign::Positive
            || !f.has_tight_run || !f.natural_width_overflows || !f.has_width || f.has_tabs
            || f.total_char_count <= 1 || f.is_excluded_justify_last_line ==> !(plan_of(
            f,
        ) is FillCell),
{
}

/// Text that fits is left as it is outside of cells, where its alignment fills no width.
pub proof fn lemma_fitting_body_line_is_natural(f: SpacingFacts)
    requires
        !f.needs_justify,
        !f.needs_distribute,
        !f.leader_can_grow,
        !f.in_cell,
        f.char_slack != Sign::Negative,
    ensures
        plan_of(f) == SpacingPlan::Natural,
{
}

/// The lines of a justified paragraph are filled but for the last; those of a split one all
/// are; a line that ends in a forced break never is, and no other alignment fills lines by
/// their spaces.
pub proof fn lemma_lines_that_are_filled(is_last_line: bool, has_forced_break: bool)
    ensures
        distributes_words(Alignment::Justify, is_last_line, has_forced_break) <==> !is_last_line
            && !has_forced_break,
        distributes_words(Alignment::Split, is_last_line, has_forced_break) <==> !has_forced_break,
        !distributes_words(Alignment::Left, is_last_line, has_forced_break),
        !distributes_words(Alignment::Right, is_last_line, has_forced_break),
        !distributes_words(Alignment::Center, is_last_line, has_forced_break),
        !distributes_words(Alignment::Distribute, is_last_line, has_forced_break),
{
}

/// The last line that keeps its width is that of a justified paragraph, if it is not filled
/// after all.
pub proof fn lemma_line_that_keeps_its_width(
    alignment: Alignment,
    is_last: bool,
    needs_justify: bool,
    r: bool,
)
    requires
        call_ensures(is_excluded_justify_last_line, (alignment, is_last, needs_justify), r),
    ensures
        r ==> is_last && !needs_justify && alignment == Alignment::Justify,
        alignment == Alignment::Justify && is_last && !needs_justify ==> r,
{
}

/// The counts of a line: behind its visible characters there are spaces only, as many as
/// may count as trailing; the character in front of them is no space if more could count.
/// What is counted in front lies in the visible text.
pub proof fn lemma_counts_of_a_line(text: Seq<char>, limit: usize, i: int)
    requires
        text.len() <= usize::MAX,
    ensures
        ({
            let counts = counts_of(text, limit);
            &&& counts.visible + counts.trailing_spaces == text.len()
            &&& counts.trailing_spaces <= limit
            &&& counts.visible <= i < text.len() ==> text[i] == ' '
            &&& counts.trailing_spaces < limit && counts.visible > 0 ==> text[counts.visible - 1]
                != ' '
            &&& counts.interior_spaces == occurrences(text.take(counts.visible as int), ' ')
            &&& counts.leader_dashes == leader_dashes(text.take(counts.visible as int))
        }),
{
    lemma_trailing_count(text, ' ');
    let counts = counts_of(text, limit);
    let visible = text.take(counts.visible as int);
    lemma_occurrences_bounded(visible, ' ');
    lemma_leader_dashes_bounded(visible, visible.len() as int);
}

proof fn lemma_occurrences_bounded(text: Seq<char>, ch: char)
    ensures
        occurrences(text, ch) <= text.len(),
    decreases text.len(),
{
    if text.len() > 0 {
        lemma_occurrences_bounded(text.drop_last(), ch);
    }
}

proof fn lemma_leader_dashes_bounded(text: Seq<char>, n: int)
    requires
        0 <= n,
    ensures
        leader_dashes_before(text, n) <= n,
    decreases n,
{
    if n > 0 {
        lemma_leader_dashes_bounded(text, n - 1);
    }
}

/// A row of dashes is a leader if there are three of them or more: then each dash counts,
/// and in a shorter row none does.
pub proof fn lemma_row_of_dashes(text: Seq<char>, a: int, b: int)
    requires
        0 <= a <= b <= text.len(),
        forall|i: int| a <= i < b ==> #[trigger] text[i] == '-',
        a > 0 ==> text[a - 1] != '-',
        b < text.len() ==> text[b] != '-',
    ensures
        b - a >= 3 ==> leader_dashes_before(text, b) - leader_dashes_before(text, a) == b - a,
        b - a < 3 ==> leader_dashes_before(text, b) == leader_dashes_before(text, a),
{
    crate::spacing::lemma_leader_run(text, a, b, b);
}

/// Nothing but a dash counts toward a leader, and a whole text counts up to its end.
pub proof fn lemma_only_dashes_count(text: Seq<char>, i: int)
    requires
        0 <= i < text.len(),
        text[i] != '-',
    ensures
        leader_dashes_before(text, i + 1) == leader_dashes_before(text, i),
        leader_dashes_before(text, 0) == 0,
        leader_dashes(text) == leader_dashes_before(text, text.len() as int),
{
}

/// The style of a leader is that of the first run with three dashes in a row.
pub proof fn lemma_leader_style(runs: &[ComposedTextRun], k: int, at: int, r: Option<usize>)
    requires
        call_ensures(first_leader_run, (runs,), r),
        0 <= k < runs@.len(),
        0 <= at,
        at + 2 < runs@[k].text@.len(),
        runs@[k].text@[at] == '-',
        runs@[k].text@[at + 1] == '-',
        runs@[k].text@[at + 2] == '-',
    ensures
        r matches Some(first) && first <= k,
{
    assert(crate::spacing::three_dashes_at(runs@[k].text@, at));
}

/// The spaces that an alignment leaves out lie at the end of the line without a gap: piece
/// `i` counts the last spaces of run `i` from the back, of a run whose spaces are no
/// content, and every run behind it is left out whole.
pub proof fn lemma_left_out_spaces_end_the_line(
    runs: Seq<ComposedTextRun>,
    end: int,
    object: Option<usize>,
    stops: Seq<bool>,
    i: int,
)
    requires
        0 <= i < trailing_pieces(runs, end, object, stops).len(),
    ensures
        ({
            let (run, spaces) = trailing_pieces(runs, end, object, stops)[i];
            &&& run == runs.len() - 1 - i
            &&& 0 <= run < runs.len()
            &&& !stops[run]
            &&& object is None ==> spaces > 0
            &&& spaces <= trailing_count(runs[run].text@, ' ')
            &&& object is None ==> spaces == trailing_count(runs[run].text@, ' ')
            &&& i + 1 < trailing_pieces(runs, end, object, stops).len() ==> spaces == run_units(
                runs[run],
            )
        }),
    decreases runs.len(),
{
    lemma_trailing_count(runs.last().text@, ' ');
    if i > 0 {
        lemma_left_out_spaces_end_the_line(
            runs.drop_last(),
            end - run_units(runs.last()),
            object,
            stops,
            i - 1,
        );
        let rest = trailing_pieces(
            runs.drop_last(),
            end - run_units(runs.last()),
            object,
            stops,
        );
        assert(trailing_pieces(runs, end, object, stops)[i] == rest[i - 1]);
    }
}

/// Without an object, spaces are left out until a run shows something: the row of pieces
/// ends only at a run that is not all spaces, or in front of one that ends in no space or
/// whose spaces are content.
pub proof fn lemma_left_out_spaces_are_all(
    runs: Seq<ComposedTextRun>,
    end: int,
    stops: Seq<bool>,
)
    requires
        trailing_pieces(runs, end, None, stops).len() < runs.len(),
    ensures
        ({
            let pieces = trailing_pieces(runs, end, None, stops);
            let next = runs.len() - 1 - pieces.len();
            ||| stops[next]
            ||| runs[next].text@.len() == 0
            ||| runs[next].text@.last() != ' '
            ||| pieces.len() > 0 && pieces.last().1 != run_units(runs[next + 1])
        }),
    decreases runs.len(),
{
    lemma_trailing_count(runs.last().text@, ' ');
    let pieces = trailing_pieces(runs, end, None, stops);
    let last = runs.len() - 1;
    let spaces = trailing_count(runs[last].text@, ' ') as int;
    if spaces != 0 && !stops[last] && spaces == run_units(runs[last]) {
        let rest = trailing_pieces(runs.drop_last(), end - run_units(runs[last]), None, stops);
        lemma_left_out_spaces_are_all(runs.drop_last(), end - run_units(runs[last]), stops);
        assert(pieces == seq![(last, spaces)] + rest);
        if rest.len() > 0 {
            assert(pieces.last() == rest.last());
        }
    }
}

/// Spaces in front of the last object are content: the spaces that are left out of a run
/// lie behind it.
pub proof fn lemma_left_out_spaces_stand_behind_the_object(
    runs: Seq<ComposedTextRun>,
    end: int,
    pos: usize,
    stops: Seq<bool>,
    i: int,
)
    requires
        0 <= i < trailing_pieces(runs, end, Some(pos), stops).len(),
    ensures
        ({
            let (run, spaces) = trailing_pieces(runs, end, Some(pos), stops)[i];
            end - (runs_units(runs) - runs_units(runs.take(run + 1))) - spaces >= pos
        }),
    decreases runs.len(),
{
    assert(runs.take(runs.len() as int) == runs);
    if i > 0 {
        let shorter = runs.drop_last();
        let before = end - run_units(runs.last());
        lemma_left_out_spaces_stand_behind_the_object(shorter, before, pos, stops, i - 1);
        lemma_left_out_spaces_end_the_line(shorter, before, Some(pos), stops, i - 1);
        let rest = trailing_pieces(shorter, before, Some(pos), stops);
        assert(trailing_pieces(runs, end, Some(pos), stops)[i] == rest[i - 1]);
        let run = rest[i - 1].0;
        assert(shorter.take(run + 1) == runs.take(run + 1));
    }
}

/// The limit for the spaces at the end of a line leaves those in front of the last object
/// alone: limit and object together reach the end of the line, or the object is behind it.
pub proof fn lemma_limit_reaches_from_the_object_to_the_end(
    line: &ComposedLine,
    object: Option<usize>,
    limit: usize,
)
    requires
        call_ensures(trailing_space_limit_after_last_inline_object, (line, object), limit),
        line.char_start + runs_units(line.runs@) <= usize::MAX,
    ensures
        object is None ==> limit == usize::MAX,
        object matches Some(pos) ==> (if pos <= line.char_start + runs_units(line.runs@) {
            pos + limit == line.char_start + runs_units(line.runs@)
        } else {
            limit == 0
        }),
{
}

/// No object stands behind the last position, and one stands there.
pub proof fn lemma_last_position(
    offsets: &[(usize, u32, usize)],
    i: int,
    r: Option<usize>,
)
    requires
        call_ensures(last_object_position::<u32>, (offsets,), r),
        0 <= i < offsets@.len(),
    ensures
        r matches Some(pos) && offsets@[i].0 <= pos,
        (forall|k: int| #![trigger offsets@[k]] 0 <= k < offsets@.len() ==> offsets@[k].0
            <= offsets@[i].0) ==> r == Some(offsets@[i].0),
{
}

/// Tabs take no part in a change of spacing: a tab more changes nothing of the count, any
/// other drawn character is one more.
pub proof fn lemma_drawn_characters_count(
    runs: &[ComposedTextRun],
    more: &[ComposedTextRun],
    count: usize,
    more_count: usize,
    c: char,
)
    requires
        call_ensures(total_char_count, (runs,), count),
        call_ensures(total_char_count, (more,), more_count),
        runs_display(more@) == runs_display(runs@).push(c),
    ensures
        more_count == count + if c == '\t' {
            0int
        } else {
            1int
        },
{
    assert(runs_display(more@).drop_last() == runs_display(runs@));
}

/// The logo has its own rule, then a line that is squeezed; the spaces of a wrapped blank
/// line keep their width only where nothing else would fill the line.
pub proof fn lemma_rule_of_a_line(
    logo: bool,
    squeeze: bool,
    blank: bool,
    last: bool,
    forced_break: bool,
    objects: bool,
    justify: bool,
    distribute: bool,
    mode: SpacingMode,
)
    requires
        call_ensures(
            spacing_mode,
            (logo, squeeze, blank, last, forced_break, objects, justify, distribute),
            mode,
        ),
    ensures
        logo <==> mode == SpacingMode::CompanyLogo,
        mode == SpacingMode::Squeeze <==> squeeze && !logo,
        mode == SpacingMode::KeepBlank ==> blank && !last && !forced_break && !objects && !justify
            && !distribute,
        !logo && !squeeze && (!blank || last || forced_break || objects || justify || distribute)
            ==> mode == SpacingMode::Plan,
        !logo && !squeeze && blank && !last && !forced_break && !objects && !justify && !distribute
            ==> mode == SpacingMode::KeepBlank,
{
}

/// The glyph that a line ends in: nothing but spaces stands behind it, in its run and in
/// those after.
pub proof fn lemma_line_ends_in_a_glyph(
    runs: &[ComposedTextRun],
    k: int,
    i: int,
    r: Option<(usize, char)>,
)
    requires
        call_ensures(last_line_glyph, (runs,), r),
        0 <= k < runs@.len(),
        0 <= i < runs@[k].text@.len(),
        runs@[k].text@[i] != ' ',
        forall|j: int| i < j < runs@[k].text@.len() ==> #[trigger] runs@[k].text@[j] == ' ',
        forall|l: int, j: int|
            k < l < runs@.len() && 0 <= j < runs@[l].text@.len() ==> #[trigger] runs@[l].text@[j]
                == ' ',
    ensures
        runs@[k].text@[i] == '\t' || runs@[k].text@[i] == '\u{fffc}' ==> r is None,
        runs@[k].text@[i] != '\t' && runs@[k].text@[i] != '\u{fffc}' ==> r == Some(
            (k as usize, runs@[k].text@[i]),
        ),
{
    assert(is_last_glyph(runs@, k, i));
    if let Some((l, glyph)) = r {
        let j = choose|j: int|
            is_last_glyph(runs@, l as int, j) && #[trigger] runs@[l as int].text@[j] == glyph;
        assert(is_last_glyph(runs@, l as int, j));
        if l < k {
            assert(runs@[k].text@[i] == ' ');
        } else if l > k {
            assert(runs@[l as int].text@[j] == ' ');
        } else if j < i {
            assert(runs@[k].text@[i] == ' ');
        } else if j > i {
            assert(runs@[k].text@[j] == ' ');
        }
    }
}

/// The company's line is the six characters of its name and one space, and nothing else; it
/// is one only where free width goes into spaces.
pub proof fn lemma_company_line(line: &ComposedLine, alignment: Alignment, r: bool)
    requires
        call_ensures(is_hancom_company_pua_logo_line, (line, alignment), r),
    ensures
        alignment != Alignment::Split ==> !r,
        alignment == Alignment::Split ==> (r <==> {
            &&& line.text().len() == 7
            &&& line.text()[0] == '\u{F03EF}' && line.text()[1] == '\u{F03F0}'
            &&& line.text()[2] == '\u{F03F1}' && line.text()[3] == '\u{F03F2}'
            &&& line.text()[4] == '\u{F03F3}' && line.text()[5] == '\u{F03F4}'
            &&& line.text()[6] == ' '
        }),
{
    let t = line.text();
    if t.len() == 7 && t[0] == '\u{F03EF}' && t[1] == '\u{F03F0}' && t[2] == '\u{F03F1}' && t[3]
        == '\u{F03F2}' && t[4] == '\u{F03F3}' && t[5] == '\u{F03F4}' && t[6] == ' ' {
        assert(t == company_logo_text());
    }
}

} // verus!
