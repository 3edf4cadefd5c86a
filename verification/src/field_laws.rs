//! What the marks of fields and bookmarks promise, and the prompts of empty fields.

use vstd::prelude::*;

use crate::cells::CellContext;
use crate::composed::ComposedTextRun;
use crate::fields::bookmark_marks;
use crate::fields::field_is_active;
use crate::fields::guide_limit;
use crate::fields::guide_owns_line;
use crate::fields::is_guide_chunk;
use crate::fields::line_marks;
use crate::fields::place_interval;
use crate::fields::range_marks;
use crate::fields::ranges_marks;
use crate::fields::ActiveField;
use crate::fields::FieldMarker;
use crate::fields::GuideLimit;
use crate::fields::MarkedLine;
use crate::model::Alignment;
use crate::model::Control;
use crate::model::Paragraph;
use crate::text::all_white;

verus! {

/// The order of a line's marks: those of fields by their range, of one range its start, the
/// cursor, the prompt and its end, then those of bookmarks.
pub open spec fn mark_rank(mark: FieldMarker) -> (int, int) {
    match mark {
        FieldMarker::Begin(k) => (0, 4 * k),
        FieldMarker::Anchor(k) => (0, 4 * k + 1),
        FieldMarker::Guide(k) => (0, 4 * k + 2),
        FieldMarker::End(k) => (0, 4 * k + 3),
        FieldMarker::Bookmark(i) => (1, i as int),
    }
}

/// One mark stands in front of another.
pub open spec fn rank_before(a: FieldMarker, b: FieldMarker) -> bool {
    mark_rank(a).0 < mark_rank(b).0 || (mark_rank(a).0 == mark_rank(b).0 && mark_rank(a).1
        < mark_rank(b).1)
}

/// The place is on the line: behind its start and in front of its end, or at its end where
/// no other line starts there.
pub open spec fn stands_on(line: MarkedLine, place: usize) -> bool {
    line.char_start <= place < line.char_end || (place == line.char_end && line.char_start <= place
        && !line.next_starts_at_end)
}

/// Range `k` is that of a click-here field.
pub open spec fn clicks(para: Paragraph, k: int) -> bool {
    let control = para.field_ranges@[k].control_idx as int;
    control < para.controls@.len() && (para.controls@[control] matches Control::Field(field)
        && field.is_click_here)
}

/// The field of range `k` has a prompt.
pub open spec fn prompts(para: Paragraph, k: int) -> bool {
    para.controls@[para.field_ranges@[k].control_idx as int] matches Control::Field(field)
        && field.guide_text is Some
}

proof fn lemma_marks_of_a_range(
    para: Paragraph,
    k: int,
    line: MarkedLine,
    active: bool,
)
    requires
        0 <= k <= usize::MAX,
    ensures
        ({
            let marks = range_marks(para, k, line, active);
            let range = para.field_ranges@[k];
            let empty = range.start_char_idx == range.end_char_idx;
            let starts = stands_on(line, range.start_char_idx);
            let ends = stands_on(line, range.end_char_idx);
            let i = k as usize;
            &&& marks.contains(FieldMarker::Begin(i)) <==> clicks(para, k) && line.shows_codes
                && starts
            &&& marks.contains(FieldMarker::Anchor(i)) <==> clicks(para, k) && empty && starts
            &&& marks.contains(FieldMarker::Guide(i)) <==> clicks(para, k) && empty && starts
                && !active && prompts(para, k)
            &&& marks.contains(FieldMarker::End(i)) <==> clicks(para, k) && line.shows_codes && ends
            &&& forall|a: int|
                0 <= a < marks.len() ==> mark_rank(#[trigger] marks[a]).0 == 0 && 4 * k
                    <= mark_rank(marks[a]).1 < 4 * (k + 1)
            &&& forall|a: int, b: int|
                0 <= a < b < marks.len() ==> rank_before(#[trigger] marks[a], #[trigger] marks[b])
        }),
{
    let marks = range_marks(para, k, line, active);
    let range = para.field_ranges@[k];
    let empty = range.start_char_idx == range.end_char_idx;
    let starts = stands_on(line, range.start_char_idx);
    let ends = stands_on(line, range.end_char_idx);
    let i = k as usize;
    if clicks(para, k) {
        let b = line.shows_codes && starts;
        let a = empty && starts;
        let g = empty && starts && !active && prompts(para, k);
        let e = line.shows_codes && ends;
        let n0 = 0int;
        let n1 = n0 + if b {
            1int
        } else {
            0
        };
        let n2 = n1 + if a {
            1int
        } else {
            0
        };
        let n3 = n2 + if g {
            1int
        } else {
            0
        };
        let n4 = n3 + if e {
            1int
        } else {
            0
        };
        assert(marks.len() == n4);
        assert(b ==> marks[n0] == FieldMarker::Begin(i));
        assert(a ==> marks[n1] == FieldMarker::Anchor(i));
        assert(g ==> marks[n2] == FieldMarker::Guide(i));
        assert(e ==> marks[n3] == FieldMarker::End(i));
        assert forall|x: int| 0 <= x < marks.len() implies (b && x == n0) || (a && x == n1) || (g
            && x == n2) || (e && #[trigger] marks[x] == FieldMarker::End(i) && x == n3) by {}
    }
}

proof fn lemma_marks_of_ranges(
    para: Paragraph,
    n: int,
    line: MarkedLine,
    active: Seq<bool>,
)
    requires
        0 <= n <= usize::MAX,
    ensures
        ({
            let marks = ranges_marks(para, n, line, active);
            &&& forall|a: int|
                0 <= a < marks.len() ==> mark_rank(#[trigger] marks[a]).0 == 0 && 0 <= mark_rank(
                    marks[a],
                ).1 < 4 * n
            &&& forall|a: int, b: int|
                0 <= a < b < marks.len() ==> rank_before(#[trigger] marks[a], #[trigger] marks[b])
        }),
    decreases n,
{
    if n > 0 {
        lemma_marks_of_ranges(para, n - 1, line, active);
        lemma_marks_of_a_range(para, n - 1, line, active[n - 1]);
        let before = ranges_marks(para, n - 1, line, active);
        let own = range_marks(para, n - 1, line, active[n - 1]);
        let all = ranges_marks(para, n, line, active);
        assert forall|a: int| 0 <= a < all.len() implies mark_rank(#[trigger] all[a]).0 == 0 && 0
            <= mark_rank(all[a]).1 < 4 * n by {
            if a < before.len() {
                assert(all[a] == before[a]);
            } else {
                assert(all[a] == own[a - before.len()]);
            }
        }
        assert forall|a: int, b: int| 0 <= a < b < all.len() implies rank_before(
            #[trigger] all[a],
            #[trigger] all[b],
        ) by {
            if b < before.len() {
                assert(all[a] == before[a] && all[b] == before[b]);
            } else {
                assert(all[b] == own[b - before.len()]);
                if a < before.len() {
                    assert(all[a] == before[a]);
                } else {
                    assert(all[a] == own[a - before.len()]);
                }
            }
        }
    }
}

proof fn lemma_ranges_hold_their_marks(
    para: Paragraph,
    n: int,
    line: MarkedLine,
    active: Seq<bool>,
    k: int,
    mark: FieldMarker,
)
    requires
        0 <= k < n <= usize::MAX,
        mark == FieldMarker::Begin(k as usize) || mark == FieldMarker::Anchor(k as usize) || mark
            == FieldMarker::Guide(k as usize) || mark == FieldMarker::End(k as usize),
    ensures
        ranges_marks(para, n, line, active).contains(mark) <==> range_marks(
            para,
            k,
            line,
            active[k],
        ).contains(mark),
    decreases n,
{
    let before = ranges_marks(para, n - 1, line, active);
    let own = range_marks(para, n - 1, line, active[n - 1]);
    let all = ranges_marks(para, n, line, active);
    assert(all == before + own);
    lemma_contains_in_either(before, own, mark);
    if k < n - 1 {
        lemma_ranges_hold_their_marks(para, n - 1, line, active, k, mark);
        lemma_mark_of_no_other_range(para, n - 1, line, active[n - 1], k, mark);
    } else {
        lemma_mark_of_no_earlier_range(para, n - 1, line, active, k, mark);
    }
}

proof fn lemma_mark_of_no_other_range(
    para: Paragraph,
    k: int,
    line: MarkedLine,
    active: bool,
    other: int,
    mark: FieldMarker,
)
    requires
        0 <= other < k <= usize::MAX,
        mark_rank(mark).1 < 4 * (other + 1),
    ensures
        !range_marks(para, k, line, active).contains(mark),
{
    lemma_marks_of_a_range(para, k, line, active);
    let own = range_marks(para, k, line, active);
    if own.contains(mark) {
        let a = choose|a: int| 0 <= a < own.len() && own[a] == mark;
        assert(mark_rank(own[a]).1 >= 4 * k);
    }
}

proof fn lemma_mark_of_no_earlier_range(
    para: Paragraph,
    n: int,
    line: MarkedLine,
    active: Seq<bool>,
    k: int,
    mark: FieldMarker,
)
    requires
        0 <= n <= k <= usize::MAX,
        mark_rank(mark).1 >= 4 * k,
    ensures
        !ranges_marks(para, n, line, active).contains(mark),
{
    lemma_marks_of_ranges(para, n, line, active);
    let before = ranges_marks(para, n, line, active);
    if before.contains(mark) {
        let a = choose|a: int| 0 <= a < before.len() && before[a] == mark;
        assert(mark_rank(before[a]).1 < 4 * n);
    }
}

proof fn lemma_contains_in_either(
    a: Seq<FieldMarker>,
    b: Seq<FieldMarker>,
    mark: FieldMarker,
)
    ensures
        (a + b).contains(mark) <==> a.contains(mark) || b.contains(mark),
{
    let all = a + b;
    if all.contains(mark) {
        let i = choose|i: int| 0 <= i < all.len() && all[i] == mark;
        if i < a.len() {
            assert(a[i] == mark);
        } else {
            assert(b[i - a.len()] == mark);
        }
    }
    if a.contains(mark) {
        let i = choose|i: int| 0 <= i < a.len() && a[i] == mark;
        assert(all[i] == mark);
    }
    if b.contains(mark) {
        let i = choose|i: int| 0 <= i < b.len() && b[i] == mark;
        assert(all[a.len() + i] == mark);
    }
}

proof fn lemma_marks_of_bookmarks(
    para: Paragraph,
    positions: Seq<usize>,
    n: int,
    line: MarkedLine,
)
    requires
        0 <= n <= usize::MAX,
    ensures
        ({
            let marks = bookmark_marks(para, positions, n, line);
            &&& forall|a: int|
                0 <= a < marks.len() ==> mark_rank(#[trigger] marks[a]).0 == 1 && 0 <= mark_rank(
                    marks[a],
                ).1 < n
            &&& forall|a: int, b: int|
                0 <= a < b < marks.len() ==> rank_before(#[trigger] marks[a], #[trigger] marks[b])
            &&& forall|i: usize|
                i < n ==> (#[trigger] marks.contains(FieldMarker::Bookmark(i)) <==> {
                    let place = if i < positions.len() {
                        positions[i as int]
                    } else {
                        0
                    };
                    para.controls@[i as int] is Bookmark && line.char_start <= place
                        <= line.char_end
                })
        }),
    decreases n,
{
    if n > 0 {
        lemma_marks_of_bookmarks(para, positions, n - 1, line);
        let before = bookmark_marks(para, positions, n - 1, line);
        let all = bookmark_marks(para, positions, n, line);
        let own = FieldMarker::Bookmark((n - 1) as usize);
        let shown = crate::fields::is_bookmark_on_line(para, positions, n - 1, line);
        assert(all == if shown {
            before.push(own)
        } else {
            before
        });
        assert forall|i: usize| i < n implies (#[trigger] all.contains(FieldMarker::Bookmark(i))
            <==> {
            let place = if i < positions.len() {
                positions[i as int]
            } else {
                0
            };
            para.controls@[i as int] is Bookmark && line.char_start <= place <= line.char_end
        }) by {
            let mark = FieldMarker::Bookmark(i);
            if all.contains(mark) {
                let a = choose|a: int| 0 <= a < all.len() && all[a] == mark;
                if a < before.len() {
                    assert(before[a] == mark);
                    assert(before.contains(mark));
                }
            }
            if i < n - 1 {
                if before.contains(mark) {
                    let a = choose|a: int| 0 <= a < before.len() && before[a] == mark;
                    assert(all[a] == mark);
                }
            } else {
                if shown {
                    assert(all[before.len() as int] == mark);
                }
                if before.contains(mark) {
                    let a = choose|a: int| 0 <= a < before.len() && before[a] == mark;
                    assert(mark_rank(before[a]).1 < n - 1);
                }
            }
        }
    }
}

/// The marks of a field stand on the line that its start or its end stands on: where codes
/// are shown, its start and its end; for an empty field the cursor; and its prompt, but not
/// while the field is edited. A range that is no click-here field has none.
pub proof fn lemma_marks_of_a_field(
    para: &Paragraph,
    active: &[bool],
    positions: &[usize],
    line: MarkedLine,
    marks: Vec<FieldMarker>,
    k: usize,
)
    requires
        call_ensures(line_marks, (para, active, positions, line), marks),
        active@.len() == para.field_ranges@.len() <= usize::MAX,
        para.controls@.len() <= usize::MAX,
        k < para.field_ranges@.len(),
    ensures
        ({
            let range = para.field_ranges@[k as int];
            let empty = range.start_char_idx == range.end_char_idx;
            let click = clicks(*para, k as int);
            let starts = stands_on(line, range.start_char_idx);
            let ends = stands_on(line, range.end_char_idx);
            &&& marks@.contains(FieldMarker::Begin(k)) <==> click && line.shows_codes && starts
            &&& marks@.contains(FieldMarker::Anchor(k)) <==> click && empty && starts
            &&& marks@.contains(FieldMarker::Guide(k)) <==> click && empty && starts
                && !active@[k as int] && prompts(*para, k as int)
            &&& marks@.contains(FieldMarker::End(k)) <==> click && line.shows_codes && ends
        }),
{
    let n = para.field_ranges@.len() as int;
    let fields = ranges_marks(*para, n, line, active@);
    let rest = if line.shows_codes {
        bookmark_marks(*para, positions@, para.controls@.len() as int, line)
    } else {
        Seq::empty()
    };
    assert(marks@ == fields + rest);
    lemma_marks_of_bookmarks(*para, positions@, para.controls@.len() as int, line);
    lemma_marks_of_a_range(*para, k as int, line, active@[k as int]);
    lemma_ranges_hold_their_marks(*para, n, line, active@, k as int, FieldMarker::Begin(k));
    lemma_ranges_hold_their_marks(*para, n, line, active@, k as int, FieldMarker::Anchor(k));
    lemma_ranges_hold_their_marks(*para, n, line, active@, k as int, FieldMarker::Guide(k));
    lemma_ranges_hold_their_marks(*para, n, line, active@, k as int, FieldMarker::End(k));
    lemma_contains_in_front(fields, rest, FieldMarker::Begin(k));
    lemma_contains_in_front(fields, rest, FieldMarker::Anchor(k));
    lemma_contains_in_front(fields, rest, FieldMarker::Guide(k));
    lemma_contains_in_front(fields, rest, FieldMarker::End(k));
}

proof fn lemma_contains_in_front(
    fields: Seq<FieldMarker>,
    rest: Seq<FieldMarker>,
    mark: FieldMarker,
)
    requires
        !(mark is Bookmark),
        forall|a: int| 0 <= a < rest.len() ==> mark_rank(#[trigger] rest[a]).0 == 1,
    ensures
        (fields + rest).contains(mark) <==> fields.contains(mark),
{
    lemma_contains_in_either(fields, rest, mark);
    if rest.contains(mark) {
        let a = choose|a: int| 0 <= a < rest.len() && rest[a] == mark;
        assert(mark_rank(rest[a]).0 == 1);
    }
}

/// A bookmark is marked on a line that its place touches, where codes are shown.
pub proof fn lemma_marks_of_a_bookmark(
    para: &Paragraph,
    active: &[bool],
    positions: &[usize],
    line: MarkedLine,
    marks: Vec<FieldMarker>,
    i: usize,
)
    requires
        call_ensures(line_marks, (para, active, positions, line), marks),
        active@.len() == para.field_ranges@.len() <= usize::MAX,
        para.controls@.len() <= usize::MAX,
        i < para.controls@.len(),
        i < positions@.len(),
    ensures
        marks@.contains(FieldMarker::Bookmark(i)) <==> line.shows_codes
            && para.controls@[i as int] is Bookmark && line.char_start <= positions@[i as int]
            <= line.char_end,
{
    let mark = FieldMarker::Bookmark(i);
    let fields = ranges_marks(*para, para.field_ranges@.len() as int, line, active@);
    let books = bookmark_marks(*para, positions@, para.controls@.len() as int, line);
    lemma_marks_of_ranges(*para, para.field_ranges@.len() as int, line, active@);
    lemma_marks_of_bookmarks(*para, positions@, para.controls@.len() as int, line);
    if marks@.contains(mark) {
        let a = choose|a: int| 0 <= a < marks@.len() && marks@[a] == mark;
        if a < fields.len() {
            assert(mark_rank(fields[a]).0 == 0);
        } else if line.shows_codes {
            assert(books[a - fields.len()] == mark);
            assert(books.contains(mark));
        }
    }
    if line.shows_codes && books.contains(mark) {
        let a = choose|a: int| 0 <= a < books.len() && books[a] == mark;
        assert(marks@[fields.len() + a] == mark);
    }
}

/// No mark comes twice, and the marks come in order: fields by their range, of one field its
/// start, cursor, prompt and end, then bookmarks by their control.
pub proof fn lemma_marks_come_in_order(
    para: &Paragraph,
    active: &[bool],
    positions: &[usize],
    line: MarkedLine,
    marks: Vec<FieldMarker>,
    a: int,
    b: int,
)
    requires
        call_ensures(line_marks, (para, active, positions, line), marks),
        active@.len() == para.field_ranges@.len() <= usize::MAX,
        para.controls@.len() <= usize::MAX,
        0 <= a < b < marks@.len(),
    ensures
        rank_before(marks@[a], marks@[b]),
{
    let fields = ranges_marks(*para, para.field_ranges@.len() as int, line, active@);
    let books = bookmark_marks(*para, positions@, para.controls@.len() as int, line);
    lemma_marks_of_ranges(*para, para.field_ranges@.len() as int, line, active@);
    lemma_marks_of_bookmarks(*para, positions@, para.controls@.len() as int, line);
    if b < fields.len() {
        assert(marks@[a] == fields[a] && marks@[b] == fields[b]);
    } else {
        assert(marks@[b] == books[b - fields.len()]);
        if a < fields.len() {
            assert(marks@[a] == fields[a]);
        } else {
            assert(marks@[a] == books[a - fields.len()]);
        }
    }
}

/// A field is the active one only in the same section and paragraph, by the same control and
/// in the same cells; a field of the body is so already then.
pub proof fn lemma_active_field(
    field: &ActiveField,
    section: usize,
    para: usize,
    control: usize,
    context: Option<&CellContext>,
    i: int,
)
    ensures
        !field_is_active(None, section, para, control, context),
        field_is_active(Some(field), section, para, control, context) ==> field.section_index
            == section && field.para_index == para && field.control_index == control,
        field_is_active(Some(field), section, para, control, context) ==> (context is None
            <==> field.cell_path is None),
        field.section_index == section && field.para_index == para && field.control_index == control
            && field.cell_path is None ==> field_is_active(
            Some(field),
            section,
            para,
            control,
            None,
        ),
        field_is_active(Some(field), section, para, control, context) && context is Some && 0 <= i
            < context->0.path@.len() ==> field.cell_path->0@.len() == context->0.path@.len()
            && field.cell_path->0@[i].0 == context->0.path@[i].control_index
            && field.cell_path->0@[i].1 == context->0.path@[i].cell_index,
        field.section_index == section && field.para_index == para && field.control_index == control
            && field.cell_path is Some && context is Some && field.cell_path->0@.len()
            == context->0.path@.len() && (forall|k: int|
            #![trigger context->0.path@[k]]
            0 <= k < context->0.path@.len() ==> field.cell_path->0@[k].0
                == context->0.path@[k].control_index && field.cell_path->0@[k].1
                == context->0.path@[k].cell_index) ==> field_is_active(
            Some(field),
            section,
            para,
            control,
            context,
        ),
{
    if context is Some && field.cell_path is Some && 0 <= i < context->0.path@.len() {
        let _ = field.cell_path->0@[i];
    }
}

/// The interval found holds the place, and every place between two neighbours that ascend
/// is found.
pub proof fn lemma_place_between_neighbours<W: Copy>(
    places: &[(usize, W)],
    target: usize,
    j: int,
    r: Option<usize>,
)
    requires
        call_ensures(place_interval::<W>, (places, target), r),
        0 <= j,
        j + 1 < places@.len(),
        places@[j].0 <= target <= places@[j + 1].0,
    ensures
        r matches Some(i) && i <= j && places@[i as int].0 <= target <= places@[i + 1].0,
{
    assert(crate::fields::interval_holds(places@, j, target));
}

/// A prompt owns its line where nothing else is seen there and the line is centred or set
/// right; in any other line it stands where its field does.
pub proof fn lemma_prompt_owns_its_line(
    runs: &[ComposedTextRun],
    has_width: bool,
    alignment: Option<Alignment>,
    i: int,
    r: bool,
)
    requires
        call_ensures(guide_owns_line, (runs, has_width, alignment), r),
    ensures
        !has_width ==> !r,
        alignment is None || (alignment != Some(Alignment::Center) && alignment != Some(
            Alignment::Right,
        )) ==> !r,
        0 <= i < runs@.len() && !all_white(runs@[i].text@) ==> !r,
        has_width && (alignment == Some(Alignment::Center) || alignment == Some(Alignment::Right))
            && runs@.len() == 0 ==> r,
{
}

/// A prompt that owns its line may fill it; in the body any other reaches to the body's
/// edge, in a cell to the line's; only one behind the end of its line has no limit.
pub proof fn lemma_reach_of_a_prompt(
    owns: bool,
    in_cell: bool,
    body: bool,
    before_end: bool,
    r: GuideLimit,
)
    requires
        call_ensures(guide_limit, (owns, in_cell, body, before_end), r),
    ensures
        owns <==> r == GuideLimit::Line,
        !owns && !in_cell && body ==> r == GuideLimit::Body,
        !owns && in_cell && before_end ==> r == GuideLimit::LineRest,
        r == GuideLimit::Open ==> !before_end,
        in_cell ==> r != GuideLimit::Body,
{
}

/// A piece of a prompt holds as much as fits: all its beginnings fit, and with one character
/// more it would not, unless the prompt ends; a piece of one character may be too wide.
pub proof fn lemma_piece_of_a_prompt<F: Fn(usize, usize) -> bool>(
    too_wide: F,
    a: usize,
    b: usize,
    len: usize,
    e: usize,
)
    requires
        is_guide_chunk(too_wide, a, b, len),
    ensures
        a < b <= len,
        b - a >= 2 && a < e <= b ==> call_ensures(too_wide, (a, e), false),
        b - a >= 2 && b < len ==> call_ensures(too_wide, (a, (b + 1) as usize), true),
        b - a == 1 && b < len ==> call_ensures(too_wide, (a, b), true) || call_ensures(
            too_wide,
            (a, (b + 1) as usize),
            true,
        ),
{
}

} // verus!
