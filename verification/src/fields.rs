//! Marks of click-here fields and bookmarks in a line, and the prompts of empty fields.

use vstd::prelude::*;

use crate::cells::CellContext;
use crate::cells::CellPathEntry;
use crate::composed::ComposedTextRun;
use crate::model::Alignment;
use crate::model::Control;
use crate::model::Paragraph;
use crate::text::all_white;
use crate::text::is_blank;

verus! {

/// The field that is being edited, and the cells that it lies in: control, cell and
/// paragraph of each.
#[derive(Clone, Debug, Default)]
pub struct ActiveField {
    pub section_index: usize,
    pub para_index: usize,
    pub control_index: usize,
    pub cell_path: Option<Vec<(usize, usize, usize)>>,
}

/// The two paths lead through the same cells.
pub open spec fn same_cells(a: Seq<(usize, usize, usize)>, b: Seq<CellPathEntry>) -> bool {
    &&& a.len() == b.len()
    &&& forall|i: int|
        0 <= i < a.len() ==> (#[trigger] a[i]).0 == b[i].control_index && a[i].1 == b[i].cell_index
}

/// The active field is the one with this control.
pub open spec fn field_is_active(
    active: Option<&ActiveField>,
    section_index: usize,
    para_index: usize,
    control_index: usize,
    context: Option<&CellContext>,
) -> bool {
    active matches Some(field) && field.section_index == section_index && field.para_index
        == para_index && field.control_index == control_index && match (field.cell_path, context) {
        (None, None) => true,
        (Some(path), Some(c)) => same_cells(path@, c.path@),
        _ => false,
    }
}

fn cells_match(a: &[(usize, usize, usize)], b: &[CellPathEntry]) -> (r: bool)
    ensures
        r == same_cells(a@, b@),
{
    if a.len() != b.len() {
        return false;
    }
    for i in 0..a.len()
        invariant
            a@.len() == b@.len(),
            forall|k: int|
                0 <= k < i ==> (#[trigger] a@[k]).0 == b@[k].control_index && a@[k].1
                    == b@[k].cell_index,
    {
        if a[i].0 != b[i].control_index || a[i].1 != b[i].cell_index {
            return false;
        }
    }
    true
}

/// Whether the active field is the one with this control.
pub fn is_active_field(
    active: Option<&ActiveField>,
    section_index: usize,
    para_index: usize,
    control_index: usize,
    context: Option<&CellContext>,
) -> (r: bool)
    ensures
        r == field_is_active(active, section_index, para_index, control_index, context),
{
    match active {
        Some(field) => {
            if field.section_index != section_index || field.para_index != para_index
                || field.control_index != control_index {
                return false;
            }
            match (&field.cell_path, context) {
                (None, None) => true,
                (Some(path), Some(c)) => cells_match(path.as_slice(), c.path.as_slice()),
                _ => false,
            }
        },
        None => false,
    }
}

/// A line from `start` up to `end` owns the place: a place at its end only where the
/// next line does not start there.
pub open spec fn line_owns_place(place: int, start: int, end: int, next_starts_at_end: bool) -> bool {
    start <= place && (place < end || (place == end && !next_starts_at_end))
}

/// No field stands on two lines: a place of a line that is followed by another belongs
/// to one of the two, and every place on them to one.
pub proof fn lemma_place_owned_by_one_line(
    place: int,
    start: int,
    middle: int,
    end: int,
    next_starts_at_end: bool,
)
    requires
        start <= middle <= end,
    ensures
        !(line_owns_place(place, start, middle, true) && line_owns_place(
            place,
            middle,
            end,
            next_starts_at_end,
        )),
        start <= place < end ==> line_owns_place(place, start, middle, true) || line_owns_place(
            place,
            middle,
            end,
            next_starts_at_end,
        ),
{
}

/// A mark in a line.
#[derive(Clone, Copy, Debug, PartialEq, Eq, Structural)]
pub enum FieldMarker {
    /// Start of a field, by the number of its range.
    Begin(usize),
    /// Place of the cursor in an empty field.
    Anchor(usize),
    /// Prompt of an empty field.
    Guide(usize),
    /// End of a field.
    End(usize),
    /// Bookmark, by its control.
    Bookmark(usize),
}

/// The line that marks are put into.
#[derive(Clone, Copy, Debug, PartialEq, Eq, Structural)]
pub struct MarkedLine {
    pub char_start: usize,
    pub char_end: usize,
    pub next_starts_at_end: bool,
    /// The marks of controls are shown.
    pub shows_codes: bool,
}

impl MarkedLine {
    /// The line owns the place.
    pub open spec fn owns(self, place: usize) -> bool {
        line_owns_place(
            place as int,
            self.char_start as int,
            self.char_end as int,
            self.next_starts_at_end,
        )
    }

    fn is_owner(&self, place: usize) -> (r: bool)
        ensures
            r == self.owns(place),
    {
        place >= self.char_start && (place < self.char_end || (place == self.char_end
            && !self.next_starts_at_end))
    }
}

/// Range `k` of the paragraph is that of a click-here field.
pub open spec fn is_click_here_range(para: Paragraph, k: int) -> bool {
    let control = para.field_ranges@[k].control_idx;
    control < para.controls@.len() && para.controls@[control as int] is Field
        && para.controls@[control as int]->Field_0.is_click_here
}

/// One mark or none.
pub open spec fn mark_if(shown: bool, mark: FieldMarker) -> Seq<FieldMarker> {
    if shown {
        seq![mark]
    } else {
        Seq::empty()
    }
}

/// The marks of range `k`: its start, the cursor's place and the prompt of an empty
/// field, and its end, as far as they are on the line.
pub open spec fn range_marks(para: Paragraph, k: int, line: MarkedLine, active: bool) -> Seq<
    FieldMarker,
> {
    let range = para.field_ranges@[k];
    let field = para.controls@[range.control_idx as int]->Field_0;
    let starts = line.owns(range.start_char_idx);
    let ends = line.owns(range.end_char_idx);
    let empty = range.start_char_idx == range.end_char_idx;
    if is_click_here_range(para, k) {
        mark_if(line.shows_codes && starts, FieldMarker::Begin(k as usize)) + mark_if(
            empty && starts,
            FieldMarker::Anchor(k as usize),
        ) + mark_if(
            empty && starts && !active && field.guide_text is Some,
            FieldMarker::Guide(k as usize),
        ) + mark_if(line.shows_codes && ends, FieldMarker::End(k as usize))
    } else {
        Seq::empty()
    }
}

/// The marks of the first `n` ranges; `active` says of each whether it is edited.
pub open spec fn ranges_marks(para: Paragraph, n: int, line: MarkedLine, active: Seq<bool>) -> Seq<
    FieldMarker,
>
    decreases n,
{
    if n <= 0 {
        Seq::empty()
    } else {
        ranges_marks(para, n - 1, line, active) + range_marks(para, n - 1, line, active[n - 1])
    }
}

/// The place of a control; one without a place stands at the start.
pub open spec fn control_place(positions: Seq<usize>, index: int) -> usize {
    if index < positions.len() {
        positions[index]
    } else {
        0
    }
}

/// A control is a bookmark on the line, its ends included.
pub open spec fn is_bookmark_on_line(
    para: Paragraph,
    positions: Seq<usize>,
    index: int,
    line: MarkedLine,
) -> bool {
    para.controls@[index] is Bookmark && line.char_start <= control_place(positions, index)
        <= line.char_end
}

/// The marks of the bookmarks among the first `n` controls.
pub open spec fn bookmark_marks(
    para: Paragraph,
    positions: Seq<usize>,
    n: int,
    line: MarkedLine,
) -> Seq<FieldMarker>
    decreases n,
{
    if n <= 0 {
        Seq::empty()
    } else {
        bookmark_marks(para, positions, n - 1, line) + mark_if(
            is_bookmark_on_line(para, positions, n - 1, line),
            FieldMarker::Bookmark((n - 1) as usize),
        )
    }
}

/// Appends a mark where it is shown.
fn push_mark(marks: &mut Vec<FieldMarker>, shown: bool, mark: FieldMarker)
    ensures
        final(marks)@ == old(marks)@ + mark_if(shown, mark),
{
    if shown {
        marks.push(mark);
    }
    assert(marks@ == old(marks)@ + mark_if(shown, mark));
}

/// The marks of a line: those of its fields, then those of its bookmarks. `active`
/// says of each field range whether it is edited; `positions` are the places of the
/// controls in the text.
pub fn line_marks(para: &Paragraph, active: &[bool], positions: &[usize], line: MarkedLine) -> (marks:
    Vec<FieldMarker>)
    requires
        active@.len() == para.field_ranges@.len(),
    ensures
        marks@ == ranges_marks(*para, para.field_ranges@.len() as int, line, active@) + if line
            .shows_codes {
            bookmark_marks(*para, positions@, para.controls@.len() as int, line)
        } else {
            Seq::empty()
        },
{
    let mut marks: Vec<FieldMarker> = Vec::new();
    for k in 0..para.field_ranges.len()
        invariant
            active@.len() == para.field_ranges@.len(),
            marks@ == ranges_marks(*para, k as int, line, active@),
    {
        let ghost before = marks@;
        let range = para.field_ranges[k];
        if range.control_idx < para.controls.len() {
            if let Control::Field(field) = &para.controls[range.control_idx] {
                if field.is_click_here {
                    let starts: bool = line.is_owner(range.start_char_idx);
                    let ends: bool = line.is_owner(range.end_char_idx);
                    let empty: bool = range.start_char_idx == range.end_char_idx;
                    push_mark(&mut marks, line.shows_codes && starts, FieldMarker::Begin(k));
                    push_mark(&mut marks, empty && starts, FieldMarker::Anchor(k));
                    push_mark(
                        &mut marks,
                        empty && starts && !active[k] && field.guide_text.is_some(),
                        FieldMarker::Guide(k),
                    );
                    push_mark(&mut marks, line.shows_codes && ends, FieldMarker::End(k));
                }
            }
        }
        assert(marks@ == before + range_marks(*para, k as int, line, active@[k as int]));
    }
    let ghost fields = marks@;
    if !line.shows_codes {
        assert(marks@ == fields + Seq::<FieldMarker>::empty());
        return marks;
    }
    assert(marks@ == fields + Seq::<FieldMarker>::empty());
    for i in 0..para.controls.len()
        invariant
            marks@ == fields + bookmark_marks(*para, positions@, i as int, line),
    {
        let mut place: usize = 0;
        if i < positions.len() {
            place = positions[i];
        }
        let mut shown: bool = false;
        if let Control::Bookmark(_) = &para.controls[i] {
            shown = line.char_start <= place && place <= line.char_end;
        }
        push_mark(&mut marks, shown, FieldMarker::Bookmark(i));
        assert(marks@ == fields + bookmark_marks(*para, positions@, i + 1, line));
    }
    marks
}

/// A place lies between two known places.
pub open spec fn interval_holds<W>(places: Seq<(usize, W)>, i: int, target: usize) -> bool {
    places[i].0 <= target <= places[i + 1].0
}

/// A place lies between no two neighbouring known places.
pub open spec fn no_interval_holds<W>(places: Seq<(usize, W)>, target: usize) -> bool {
    forall|j: int| 0 <= j < places.len() - 1 ==> !#[trigger] interval_holds(places, j, target)
}

/// The first pair of neighbouring known places that a place lies between.
pub fn place_interval<W: Copy>(places: &[(usize, W)], target: usize) -> (r: Option<usize>)
    ensures
        r matches Some(i) ==> i + 1 < places@.len() && interval_holds(places@, i as int, target)
            && forall|j: int| 0 <= j < i ==> !#[trigger] interval_holds(places@, j, target),
        r is None ==> no_interval_holds(places@, target),
{
    let n: usize = places.len();
    let mut i: usize = 0;
    while i < n && i + 1 < n
        invariant
            n == places@.len(),
            i <= n,
            forall|j: int| 0 <= j < i ==> !#[trigger] interval_holds(places@, j, target),
        decreases n - i,
    {
        if places[i].0 <= target && target <= places[i + 1].0 {
            return Some(i);
        }
        assert(!interval_holds(places@, i as int, target));
        i += 1;
    }
    None
}

/// Some run shows more than white space.
pub open spec fn shows_text(runs: Seq<ComposedTextRun>) -> bool {
    exists|i: int| 0 <= i < runs.len() && !all_white((#[trigger] runs[i]).text@)
}

/// Whether a prompt is the only content of its line, which is then placed by the
/// paragraph's alignment: nothing else is seen there, and the line is centred or set
/// right. `has_width` says that the line's box has a width.
pub fn guide_owns_line(runs: &[ComposedTextRun], has_width: bool, alignment: Option<Alignment>) -> (r:
    bool)
    ensures
        r == (!shows_text(runs@) && has_width && (alignment == Some(Alignment::Center)
            || alignment == Some(Alignment::Right))),
{
    let aligned: bool = match alignment {
        Some(Alignment::Center) | Some(Alignment::Right) => true,
        _ => false,
    };
    if !has_width || !aligned {
        return false;
    }
    for i in 0..runs.len()
        invariant
            forall|k: int| 0 <= k < i ==> all_white((#[trigger] runs@[k]).text@),
    {
        if !is_blank(runs[i].text.as_str()) {
            assert(!all_white(runs@[i as int].text@));
            return false;
        }
    }
    true
}

/// How far a prompt may reach.
#[derive(Clone, Copy, Debug, PartialEq, Eq, Structural)]
pub enum GuideLimit {
    /// The width of the line.
    Line,
    /// From its start to the right edge of the body.
    Body,
    /// From its start to the right edge of the line.
    LineRest,
    /// There is no limit.
    Open,
}

/// Decides how far a prompt may reach.
pub fn guide_limit(owns_line: bool, in_cell: bool, body_has_width: bool, before_line_end: bool) -> (r:
    GuideLimit)
    ensures
        r == (if owns_line {
            GuideLimit::Line
        } else if !in_cell && body_has_width {
            GuideLimit::Body
        } else if before_line_end {
            GuideLimit::LineRest
        } else {
            GuideLimit::Open
        }),
{
    if owns_line {
        GuideLimit::Line
    } else if !in_cell && body_has_width {
        GuideLimit::Body
    } else if before_line_end {
        GuideLimit::LineRest
    } else {
        GuideLimit::Open
    }
}

/// The most pieces that a prompt is cut into by its width; what is left is one more.
pub const MAX_GUIDE_CHUNKS: usize = 65;

/// The characters from `a` up to `b` are the piece to cut off a prompt of `len`
/// characters: as many as fit, or one where not even one fits. `too_wide` says whether
/// the characters between two places are too wide.
pub open spec fn is_guide_chunk<F: Fn(usize, usize) -> bool>(
    too_wide: F,
    a: usize,
    b: usize,
    len: usize,
) -> bool {
    &&& a < b <= len
    &&& b == a + 1 || forall|e: usize|
        a < e <= b ==> #[trigger] call_ensures(too_wide, (a, e), false)
    &&& b == len || call_ensures(too_wide, (a, (b + 1) as usize), true) || (b == a + 1
        && call_ensures(too_wide, (a, b), true))
}

/// The start of piece `i`, from the ends of the pieces.
pub open spec fn chunk_start(ends: Seq<usize>, i: int) -> usize {
    if i == 0 {
        0
    } else {
        ends[i - 1]
    }
}

/// All pieces but the one behind the last that is cut by its width are as wide as fits.
#[verifier::opaque]
spec fn are_guide_chunks<F: Fn(usize, usize) -> bool>(
    too_wide: F,
    ends: Seq<usize>,
    len: usize,
) -> bool {
    forall|i: int|
        0 <= i < ends.len() && i < MAX_GUIDE_CHUNKS ==> is_guide_chunk(
            too_wide,
            chunk_start(ends, i),
            #[trigger] ends[i],
            len,
        )
}

proof fn lemma_guide_chunk_added<F: Fn(usize, usize) -> bool>(
    too_wide: F,
    ends: Seq<usize>,
    end: usize,
    len: usize,
)
    requires
        are_guide_chunks(too_wide, ends, len),
        ends.len() >= MAX_GUIDE_CHUNKS || is_guide_chunk(
            too_wide,
            if ends.len() == 0 {
                0
            } else {
                ends.last()
            },
            end,
            len,
        ),
    ensures
        are_guide_chunks(too_wide, ends.push(end), len),
{
    reveal(are_guide_chunks);
    let more = ends.push(end);
    assert forall|i: int| 0 <= i < more.len() && i < MAX_GUIDE_CHUNKS implies is_guide_chunk(
        too_wide,
        chunk_start(more, i),
        #[trigger] more[i],
        len,
    ) by {
        if i < ends.len() {
            assert(more[i] == ends[i]);
            assert(chunk_start(more, i) == chunk_start(ends, i));
        } else {
            assert(more[i] == end);
        }
    }
}

/// Where a prompt of `len` characters is cut to fit a width: the ends of its pieces.
/// One without a limit, or that is not too wide, stays whole; any other is cut at the last
/// place that fits, again and again. After the last piece that is cut by its width the
/// rest follows, also where nothing is left.
pub fn split_guide_text_to_width<F: Fn(usize, usize) -> bool>(
    len: usize,
    has_limit: bool,
    too_wide: F,
) -> (ends: Vec<usize>)
    requires
        forall|a: usize, b: usize| a <= b <= len ==> #[trigger] call_requires(too_wide, (a, b)),
    ensures
        !has_limit ==> ends@ == seq![len],
        has_limit && ends@ != seq![len] ==> call_ensures(too_wide, (0usize, len), true),
        has_limit && ends@ == seq![len] ==> len == 1 || call_ensures(
            too_wide,
            (0usize, len),
            false,
        ),
        len > 0 ==> ends@.len() > 0 && ends@.last() == len,
        ends@.len() < MAX_GUIDE_CHUNKS || ends@.len() == MAX_GUIDE_CHUNKS + 1,
        forall|i: int, j: int| 0 <= i < j < ends@.len() ==> #[trigger] ends@[i] <= #[trigger] ends@[j],
        ends@ != seq![len] ==> forall|i: int|
            0 <= i < ends@.len() && i < MAX_GUIDE_CHUNKS ==> is_guide_chunk(
                too_wide,
                chunk_start(ends@, i),
                #[trigger] ends@[i],
                len,
            ),
{
    reveal(are_guide_chunks);
    let mut ends: Vec<usize> = Vec::new();
    if !has_limit || !too_wide(0, len) {
        ends.push(len);
        assert(ends@ == seq![len]);
        return ends;
    }
    let mut start: usize = 0;
    while start < len
        invariant_except_break
            start <= len,
            ends@.len() < MAX_GUIDE_CHUNKS,
            ends@.len() == 0 ==> start == 0,
            ends@.len() > 0 ==> ends@.last() == start,
        invariant
            forall|a: usize, b: usize|
                a <= b <= len ==> #[trigger] call_requires(too_wide, (a, b)),
            forall|i: int| 0 <= i < ends@.len() ==> #[trigger] ends@[i] <= len,
            forall|i: int, j: int|
                0 <= i < j < ends@.len() ==> #[trigger] ends@[i] <= #[trigger] ends@[j],
            are_guide_chunks(too_wide, ends@, len),
        ensures
            ends@.len() < MAX_GUIDE_CHUNKS || ends@.len() == MAX_GUIDE_CHUNKS + 1,
            len > 0 ==> ends@.len() > 0 && ends@.last() == len,
        decreases len - start,
    {
        let end: usize = guide_chunk_end(start, len, &too_wide);
        proof {
            lemma_guide_chunk_added(too_wide, ends@, end, len);
        }
        ends.push(end);
        start = end;
        if ends.len() >= MAX_GUIDE_CHUNKS {
            proof {
                lemma_guide_chunk_added(too_wide, ends@, len, len);
            }
            ends.push(len);
            break;
        }
    }
    proof {
        if ends@ == seq![len] {
            assert(is_guide_chunk(too_wide, chunk_start(ends@, 0), ends@[0], len));
        }
    }
    ends
}

/// The end of the next piece of a prompt.
fn guide_chunk_end<F: Fn(usize, usize) -> bool>(start: usize, len: usize, too_wide: &F) -> (end:
    usize)
    requires
        start < len,
        forall|a: usize, b: usize| a <= b <= len ==> #[trigger] call_requires(*too_wide, (a, b)),
    ensures
        is_guide_chunk(*too_wide, start, end, len),
{
    let mut end: usize = start;
    while end < len
        invariant
            start <= end <= len,
            start < len,
            forall|a: usize, b: usize|
                a <= b <= len ==> #[trigger] call_requires(*too_wide, (a, b)),
            forall|e: usize| start < e <= end ==> #[trigger] call_ensures(*too_wide, (start, e), false),
        decreases len - end,
    {
        if too_wide(start, end + 1) {
            if end == start {
                return start + 1;
            }
            return end;
        }
        end += 1;
    }
    end
}

} // verus!
