//! The plan by which a line is drawn: its runs one after the other, each with the marks
//! in front of it and the objects or notes that cut it.

use vstd::prelude::*;

use crate::composed::lemma_runs_text_prefix;
use crate::composed::lemma_runs_units_prefix;
use crate::composed::runs_text;
use crate::composed::runs_units;
use crate::composed::ComposedLine;
use crate::composed::ComposedParagraph;
use crate::frame::ordered_by_position;
use crate::model::Paragraph;
use crate::runs::cuts_are_valid;
use crate::runs::cuts_stand_inside;
use crate::runs::drawn_before;
use crate::runs::drawn_in_run;
use crate::runs::in_run;
use crate::runs::lemma_pieces_hold_the_text;
use crate::runs::markers_up_to;
use crate::runs::note_is_prefix;
use crate::runs::notes_drawn_after;
use crate::runs::notes_in_run;
use crate::runs::objects_in_run;
use crate::runs::pieces_of_run;
use crate::runs::run_objects;
use crate::runs::split_run;
use crate::runs::take_markers_up_to;
use crate::runs::take_run_notes;
use crate::runs::text_of_pieces;
use crate::runs::RunPiece;
use crate::runs::RunPlace;
use crate::seqs::indices;
use crate::seqs::lemma_filter_last;
use crate::tac::prior_empty_line_owns;
use crate::text::chars_of;
use crate::text::count_char;
use crate::text::lemma_occurrences_concat;
use crate::text::occurrences;

verus! {

/// Which line is drawn, and from where.
#[derive(Clone, Copy, Debug, PartialEq, Eq, Structural)]
pub struct PlannedLine {
    pub line_idx: usize,
    /// The first line of the paragraph that is drawn here.
    pub start_line: usize,
    pub is_last_line_of_para: bool,
    /// The file says which line each object is on.
    pub has_stored_assignment: bool,
    /// The document's character that the line starts with.
    pub char_offset: usize,
}

/// How a run is drawn.
pub struct RunPlan<W> {
    pub place: RunPlace,
    /// The document's character that the run starts with.
    pub char_start: usize,
    /// The number of tabs in the line before the run.
    pub first_tab: usize,
    /// The marks to draw in front of the run.
    pub markers: Vec<usize>,
    /// The objects that cut the run, with their places in it.
    pub objects: Vec<(usize, W, usize)>,
    /// The notes that cut the run, where no object does.
    pub notes: Vec<usize>,
    pub pieces: Vec<RunPiece>,
    /// The paragraph ends with the last piece of text.
    pub is_para_end: bool,
    /// A forced break follows the last piece of text.
    pub is_line_break_end: bool,
}

/// How a line is drawn.
pub struct LinePlan<W> {
    pub runs: Vec<RunPlan<W>>,
    /// The marks to draw behind the last run.
    pub tail_markers: Vec<usize>,
    /// The document's character behind the line's runs.
    pub char_end: usize,
}

/// The place that run `k` of a line starts at.
pub open spec fn run_start(line: ComposedLine, k: int) -> int {
    line.char_start + runs_units(line.runs@.take(k))
}

/// Where run `k` of the line stands.
pub open spec fn place_of(comp: ComposedParagraph, at: PlannedLine, k: int) -> RunPlace {
    let line = comp.lines@[at.line_idx as int];
    RunPlace {
        line_idx: at.line_idx,
        is_last_line_of_para: at.is_last_line_of_para,
        is_last_of_line: k + 1 == line.runs@.len(),
        start: run_start(line, k) as usize,
        end: run_start(line, k + 1) as usize,
    }
}

/// The objects that cut run `k`.
pub open spec fn cutting_objects<W>(
    comp: ComposedParagraph,
    offsets: Seq<(usize, W, usize)>,
    at: PlannedLine,
    k: int,
) -> Seq<(usize, W, usize)> {
    objects_in_run(comp, offsets, place_of(comp, at, k), at.has_stored_assignment)
}

/// Which notes are drawn before run `k`. A run that objects cut draws no notes.
pub open spec fn notes_before<W>(
    comp: ComposedParagraph,
    para: Option<&Paragraph>,
    offsets: Seq<(usize, W, usize)>,
    at: PlannedLine,
    k: int,
) -> Seq<bool>
    decreases k,
{
    let notes = comp.footnote_positions@;
    if k <= 0 {
        Seq::new(notes.len(), |i: int| false)
    } else {
        let before = notes_before(comp, para, offsets, at, k - 1);
        if cutting_objects(comp, offsets, at, k - 1).len() == 0 {
            notes_drawn_after(
                para,
                notes,
                before,
                place_of(comp, at, k - 1),
                at.start_line,
                comp.lines@[at.line_idx as int].char_start,
            )
        } else {
            before
        }
    }
}

/// The notes that cut run `k`.
pub open spec fn cutting_notes<W>(
    comp: ComposedParagraph,
    para: Option<&Paragraph>,
    offsets: Seq<(usize, W, usize)>,
    at: PlannedLine,
    k: int,
) -> Seq<usize> {
    if cutting_objects(comp, offsets, at, k).len() == 0 {
        notes_in_run(
            para,
            comp.footnote_positions@,
            notes_before(comp, para, offsets, at, k),
            place_of(comp, at, k),
            at.start_line,
            comp.lines@[at.line_idx as int].char_start,
        )
    } else {
        Seq::empty()
    }
}

/// The places at which run `k` is cut.
pub open spec fn cuts_of<W>(
    comp: ComposedParagraph,
    para: Option<&Paragraph>,
    offsets: Seq<(usize, W, usize)>,
    at: PlannedLine,
    k: int,
) -> Seq<usize> {
    let objects = cutting_objects(comp, offsets, at, k);
    if objects.len() > 0 {
        objects.map_values(|t: (usize, W, usize)| t.0)
    } else {
        cutting_notes(comp, para, offsets, at, k).map_values(
            |i: usize|
                (comp.footnote_positions@[i as int].0 - place_of(comp, at, k).start) as usize,
        )
    }
}

/// The document's character that run `k` starts with.
pub open spec fn run_char_start(comp: ComposedParagraph, at: PlannedLine, k: int) -> int {
    at.char_offset + runs_units(comp.lines@[at.line_idx as int].runs@.take(k))
}

/// Run `k` is the last one of the paragraph.
pub open spec fn ends_para(comp: ComposedParagraph, at: PlannedLine, k: int) -> bool {
    at.is_last_line_of_para && k + 1 == comp.lines@[at.line_idx as int].runs@.len()
}

/// The pieces of run `k`: a run that nothing cuts is one piece, though it be empty.
pub open spec fn pieces_of<W>(
    comp: ComposedParagraph,
    para: Option<&Paragraph>,
    offsets: Seq<(usize, W, usize)>,
    at: PlannedLine,
    k: int,
) -> Seq<RunPiece> {
    let len = comp.lines@[at.line_idx as int].runs@[k].text@.len() as int;
    let cuts = cuts_of(comp, para, offsets, at, k);
    let by_objects = cutting_objects(comp, offsets, at, k).len() > 0;
    if cuts.len() > 0 {
        pieces_of_run(
            len,
            cuts,
            run_char_start(comp, at, k),
            by_objects,
            by_objects && ends_para(comp, at, k),
        )
    } else {
        seq![
            RunPiece::Text {
                start: 0,
                end: len as usize,
                char_start: run_char_start(comp, at, k) as usize,
            },
        ]
    }
}

/// Which marks are drawn before those of run `k`: the ones at or before the start of
/// the run before.
pub open spec fn markers_before(line: ComposedLine, positions: Seq<usize>, k: int) -> Seq<bool> {
    Seq::new(positions.len(), |i: int| k > 0 && positions[i] <= run_start(line, k - 1))
}

/// The cuts of run `k` stand in its text, and the characters behind them can be counted.
pub open spec fn run_fits<W>(
    comp: ComposedParagraph,
    para: Option<&Paragraph>,
    offsets: Seq<(usize, W, usize)>,
    at: PlannedLine,
    k: int,
) -> bool {
    let cuts = cuts_of(comp, para, offsets, at, k);
    &&& cuts_stand_inside(comp.lines@[at.line_idx as int].runs@[k].text@.len() as int, cuts)
    &&& run_char_start(comp, at, k) + drawn_before(cuts, cuts.len() as int) + cuts.len()
        <= usize::MAX
}

/// The line is there, and its places and cuts are machine integers.
pub open spec fn line_fits<W>(
    comp: ComposedParagraph,
    para: Option<&Paragraph>,
    offsets: Seq<(usize, W, usize)>,
    at: PlannedLine,
) -> bool {
    &&& at.line_idx < comp.lines@.len()
    &&& {
        let line = comp.lines@[at.line_idx as int];
        &&& line.char_start + runs_units(line.runs@) <= usize::MAX
        &&& at.char_offset + runs_units(line.runs@) <= usize::MAX
        &&& runs_text(line.runs@).len() <= usize::MAX
        &&& forall|k: int|
            0 <= k < line.runs@.len() ==> #[trigger] run_fits(comp, para, offsets, at, k)
    }
}

impl<W> RunPlan<W> {
    /// This is how run `k` of the line is drawn.
    pub open spec fn draws(
        self,
        comp: ComposedParagraph,
        para: Option<&Paragraph>,
        offsets: Seq<(usize, W, usize)>,
        positions: Seq<usize>,
        at: PlannedLine,
        k: int,
    ) -> bool {
        let line = comp.lines@[at.line_idx as int];
        &&& self.place == place_of(comp, at, k)
        &&& self.char_start == run_char_start(comp, at, k)
        &&& self.first_tab == occurrences(runs_text(line.runs@.take(k)), '\t')
        &&& self.markers@ == markers_up_to(
            positions,
            markers_before(line, positions, k),
            run_start(line, k) as usize,
        )
        &&& self.objects@ == cutting_objects(comp, offsets, at, k)
        &&& self.notes@ == cutting_notes(comp, para, offsets, at, k)
        &&& self.pieces@ == pieces_of(comp, para, offsets, at, k)
        &&& self.is_para_end == ends_para(comp, at, k)
        &&& self.is_line_break_end == (line.has_line_break && k + 1 == line.runs@.len())
    }
}

/// The places of the objects in their run.
pub(crate) fn object_cuts<W: Copy>(objects: &[(usize, W, usize)]) -> (cuts: Vec<usize>)
    ensures
        cuts@ == objects@.map_values(|t: (usize, W, usize)| t.0),
{
    let mut cuts: Vec<usize> = Vec::new();
    for i in 0..objects.len()
        invariant
            cuts@ == objects@.take(i as int).map_values(|t: (usize, W, usize)| t.0),
    {
        cuts.push(objects[i].0);
        assert(cuts@ == objects@.take(i + 1).map_values(|t: (usize, W, usize)| t.0));
    }
    assert(objects@.take(objects@.len() as int) == objects@);
    cuts
}

/// The places of the notes in their run.
fn note_cuts(notes: &[(usize, u16, usize)], taken: &[usize], start: usize) -> (cuts: Vec<usize>)
    requires
        forall|j: int|
            0 <= j < taken@.len() ==> (#[trigger] taken@[j]) < notes@.len()
                && notes@[taken@[j] as int].0 >= start,
    ensures
        cuts@ == taken@.map_values(|i: usize| (notes@[i as int].0 - start) as usize),
{
    let ghost f = |i: usize| (notes@[i as int].0 - start) as usize;
    let mut cuts: Vec<usize> = Vec::new();
    assert(cuts@ == taken@.take(0).map_values(f));
    for j in 0..taken.len()
        invariant
            f == (|i: usize| (notes@[i as int].0 - start) as usize),
            forall|j: int|
                0 <= j < taken@.len() ==> (#[trigger] taken@[j]) < notes@.len()
                    && notes@[taken@[j] as int].0 >= start,
            cuts@ == taken@.take(j as int).map_values(f),
    {
        assert(taken@[j as int] < notes@.len());
        cuts.push(notes[taken[j]].0 - start);
        assert(cuts@ == taken@.take(j + 1).map_values(f));
    }
    assert(taken@.take(taken@.len() as int) == taken@);
    cuts
}

/// The notes of a run stand at or behind its start.
proof fn lemma_notes_stand_in_run(
    para: Option<&Paragraph>,
    notes: Seq<(usize, u16, usize)>,
    drawn: Seq<bool>,
    place: RunPlace,
    start_line: usize,
    line_char_start: usize,
)
    ensures
        ({
            let taken = notes_in_run(para, notes, drawn, place, start_line, line_char_start);
            forall|j: int|
                0 <= j < taken.len() ==> (#[trigger] taken[j]) < notes.len()
                    && notes[taken[j] as int].0 >= place.start
        }),
{
    let taken = notes_in_run(para, notes, drawn, place, start_line, line_char_start);
    let all = indices(notes.len());
    let p = |i: usize|
        !drawn[i as int] && !note_is_prefix(
            para,
            notes[i as int],
            place.line_idx,
            start_line,
            line_char_start,
        ) && in_run(
            notes[i as int].0 as int,
            place.start as int,
            place.end as int,
            place.is_last_of_line,
        );
    assert(taken == all.filter(p));
    assert forall|j: int| 0 <= j < taken.len() implies (#[trigger] taken[j]) < notes.len()
        && notes[taken[j] as int].0 >= place.start by {
        assert(taken.contains(taken[j]));
        all.lemma_filter_contains_rev(p, taken[j]);
    }
}

/// Plans how a line is drawn.
pub fn line_plan<W: Copy>(
    comp: &ComposedParagraph,
    para: Option<&Paragraph>,
    offsets: &[(usize, W, usize)],
    marker_positions: &[usize],
    at: PlannedLine,
) -> (plan: LinePlan<W>)
    requires
        line_fits(*comp, para, offsets@, at),
    ensures
        plan.runs@.len() == comp.lines@[at.line_idx as int].runs@.len(),
        forall|k: int|
            0 <= k < plan.runs@.len() ==> (#[trigger] plan.runs@[k]).draws(
                *comp,
                para,
                offsets@,
                marker_positions@,
                at,
                k,
            ),
        plan.tail_markers@ == markers_up_to(
            marker_positions@,
            markers_before(
                comp.lines@[at.line_idx as int],
                marker_positions@,
                plan.runs@.len() as int,
            ),
            usize::MAX,
        ),
        plan.char_end == at.char_offset + runs_units(comp.lines@[at.line_idx as int].runs@),
{
    let line = &comp.lines[at.line_idx];
    let count: usize = line.runs.len();
    let notes = comp.footnote_positions.as_slice();
    let mut markers_drawn: Vec<bool> = Vec::new();
    for i in 0..marker_positions.len()
        invariant
            markers_drawn@.len() == i,
            forall|j: int| 0 <= j < i ==> !#[trigger] markers_drawn@[j],
    {
        markers_drawn.push(false);
    }
    let mut notes_drawn: Vec<bool> = Vec::new();
    for i in 0..notes.len()
        invariant
            notes_drawn@.len() == i,
            forall|j: int| 0 <= j < i ==> !#[trigger] notes_drawn@[j],
    {
        notes_drawn.push(false);
    }
    let mut runs: Vec<RunPlan<W>> = Vec::new();
    let mut start: usize = line.char_start;
    let mut char_start: usize = at.char_offset;
    let mut first_tab: usize = 0;
    proof {
        assert(line.runs@.take(0).len() == 0);
        assert(markers_drawn@ == markers_before(*line, marker_positions@, 0));
        assert(notes_drawn@ == notes_before(*comp, para, offsets@, at, 0));
    }
    for k in 0..count
        invariant
            line_fits(*comp, para, offsets@, at),
            *line == comp.lines@[at.line_idx as int],
            count == line.runs@.len(),
            notes@ == comp.footnote_positions@,
            start == run_start(*line, k as int),
            char_start == run_char_start(*comp, at, k as int),
            first_tab == occurrences(runs_text(line.runs@.take(k as int)), '\t'),
            first_tab <= runs_text(line.runs@.take(k as int)).len(),
            markers_drawn@ == markers_before(*line, marker_positions@, k as int),
            notes_drawn@ == notes_before(*comp, para, offsets@, at, k as int),
            notes_drawn@.len() == notes@.len(),
            runs@.len() == k,
            forall|j: int|
                0 <= j < k ==> (#[trigger] runs@[j]).draws(
                    *comp,
                    para,
                    offsets@,
                    marker_positions@,
                    at,
                    j,
                ),
    {
        proof {
            lemma_runs_units_prefix(line.runs@, k as int);
            lemma_runs_text_prefix(line.runs@, k as int);
            lemma_occurrences_concat(
                runs_text(line.runs@.take(k as int)),
                line.runs@[k as int].text@,
                '\t',
            );
            assert(run_fits(*comp, para, offsets@, at, k as int));
        }
        let run = &line.runs[k];
        let end: usize = start + run.units();
        let is_last: bool = k + 1 == count;
        let place = RunPlace {
            line_idx: at.line_idx,
            is_last_line_of_para: at.is_last_line_of_para,
            is_last_of_line: is_last,
            start,
            end,
        };
        assert(place == place_of(*comp, at, k as int));
        let markers = take_markers_up_to(marker_positions, &mut markers_drawn, start);
        assert(markers_drawn@ == markers_before(*line, marker_positions@, k + 1)) by {
            if k > 0 {
                lemma_runs_units_prefix(line.runs@, k - 1);
            }
        }
        let chars = chars_of(run.text.as_str());
        let len: usize = chars.len();
        let objects = run_objects(comp, offsets, place, at.has_stored_assignment);
        let is_para_end: bool = at.is_last_line_of_para && is_last;
        let mut taken: Vec<usize> = Vec::new();
        let pieces: Vec<RunPiece>;
        if objects.len() > 0 {
            let cuts = object_cuts(objects.as_slice());
            assert(cuts@ == cuts_of(*comp, para, offsets@, at, k as int));
            pieces = split_run(len, cuts.as_slice(), char_start, true, is_para_end);
        } else {
            proof {
                lemma_notes_stand_in_run(
                    para,
                    notes@,
                    notes_drawn@,
                    place,
                    at.start_line,
                    line.char_start,
                );
            }
            taken = take_run_notes(
                para,
                notes,
                &mut notes_drawn,
                place,
                at.start_line,
                line.char_start,
            );
            let cuts = note_cuts(notes, taken.as_slice(), start);
            assert(cuts@ == cuts_of(*comp, para, offsets@, at, k as int));
            if taken.len() > 0 {
                pieces = split_run(len, cuts.as_slice(), char_start, false, false);
            } else {
                let mut whole: Vec<RunPiece> = Vec::new();
                whole.push(RunPiece::Text { start: 0, end: len, char_start });
                assert(whole@ == seq![RunPiece::Text { start: 0, end: len, char_start }]);
                pieces = whole;
            }
        }
        assert(pieces@ == pieces_of(*comp, para, offsets@, at, k as int));
        assert(taken@ == cutting_notes(*comp, para, offsets@, at, k as int));
        assert(notes_drawn@ == notes_before(*comp, para, offsets@, at, k + 1));
        assert(chars@.take(len as int) == chars@);
        let tabs: usize = count_char(chars.as_slice(), len, '\t');
        runs.push(
            RunPlan {
                place,
                char_start,
                first_tab,
                markers,
                objects,
                notes: taken,
                pieces,
                is_para_end,
                is_line_break_end: line.has_line_break && is_last,
            },
        );
        char_start += end - start;
        start = end;
        first_tab += tabs;
    }
    assert(line.runs@.take(count as int) == line.runs@);
    let tail_markers = take_markers_up_to(marker_positions, &mut markers_drawn, usize::MAX);
    LinePlan { runs, tail_markers, char_end: char_start }
}

/// The entries that are left keep their order.
proof fn lemma_filter_keeps_order<A>(s: Seq<A>, p: spec_fn(A) -> bool, f: spec_fn(A) -> int)
    requires
        forall|i: int, j: int| 0 <= i < j < s.len() ==> f(#[trigger] s[i]) <= f(#[trigger] s[j]),
    ensures
        forall|i: int, j: int|
            0 <= i < j < s.filter(p).len() ==> f(#[trigger] s.filter(p)[i]) <= f(
                #[trigger] s.filter(p)[j],
            ),
    decreases s.len(),
{
    if s.len() == 0 {
        reveal(Seq::filter);
    } else {
        let front = s.drop_last();
        assert forall|i: int, j: int| 0 <= i < j < front.len() implies f(#[trigger] front[i]) <= f(
            #[trigger] front[j],
        ) by {
            assert(f(s[i]) <= f(s[j]));
        }
        lemma_filter_keeps_order(front, p, f);
        lemma_filter_last(s, p);
        let kept = s.filter(p);
        assert forall|i: int, j: int| 0 <= i < j < kept.len() implies f(#[trigger] kept[i]) <= f(
            #[trigger] kept[j],
        ) by {
            if p(s.last()) && j == kept.len() - 1 {
                assert(front.filter(p).contains(kept[i]));
                front.lemma_filter_contains_rev(p, kept[i]);
                let at = choose|at: int| 0 <= at < front.len() && front[at] == kept[i];
                assert(f(s[at]) <= f(s[s.len() - 1]));
            } else {
                assert(f(front.filter(p)[i]) <= f(front.filter(p)[j]));
            }
        }
    }
}

/// The notes stand in the order of their places.
pub open spec fn notes_in_order(notes: Seq<(usize, u16, usize)>) -> bool {
    forall|i: int, j: int|
        0 <= i < j < notes.len() ==> (#[trigger] notes[i]).0 <= (#[trigger] notes[j]).0
}

/// The cuts of a run are in order where the objects and the notes are.
pub(crate) proof fn lemma_cuts_in_order<W>(
    comp: ComposedParagraph,
    para: Option<&Paragraph>,
    offsets: Seq<(usize, W, usize)>,
    at: PlannedLine,
    k: int,
)
    requires
        ordered_by_position(offsets),
        notes_in_order(comp.footnote_positions@),
        run_fits(comp, para, offsets, at, k),
    ensures
        cuts_are_valid(
            comp.lines@[at.line_idx as int].runs@[k].text@.len() as int,
            cuts_of(comp, para, offsets, at, k),
        ),
{
    let place = place_of(comp, at, k);
    let cuts = cuts_of(comp, para, offsets, at, k);
    let objects = cutting_objects(comp, offsets, at, k);
    if objects.len() > 0 {
        let p = |t: (usize, W, usize)|
            drawn_in_run(comp, place, at.has_stored_assignment, t.0 as int);
        let f = |t: (usize, W, usize)| t.0 as int;
        let kept = offsets.filter(p);
        lemma_filter_keeps_order(offsets, p, f);
        assert forall|i: int, j: int| 0 <= i < j < cuts.len() implies #[trigger] cuts[i]
            <= #[trigger] cuts[j] by {
            assert(f(kept[i]) <= f(kept[j]));
            assert(kept.contains(kept[i]) && kept.contains(kept[j]));
            offsets.lemma_filter_contains_rev(p, kept[i]);
            offsets.lemma_filter_contains_rev(p, kept[j]);
            assert(cuts[i] == kept[i].0 - place.start);
            assert(cuts[j] == kept[j].0 - place.start);
        }
    } else {
        let notes = comp.footnote_positions@;
        let drawn = notes_before(comp, para, offsets, at, k);
        let char_start = comp.lines@[at.line_idx as int].char_start;
        let all = indices(notes.len());
        let p = |i: usize|
            !drawn[i as int] && !note_is_prefix(
                para,
                notes[i as int],
                place.line_idx,
                at.start_line,
                char_start,
            ) && in_run(
                notes[i as int].0 as int,
                place.start as int,
                place.end as int,
                place.is_last_of_line,
            );
        let f = |i: usize| notes[i as int].0 as int;
        let taken = cutting_notes(comp, para, offsets, at, k);
        assert(taken == all.filter(p));
        assert(comp.footnote_positions.len() == notes.len());
        assert forall|i: int, j: int| 0 <= i < j < all.len() implies f(#[trigger] all[i]) <= f(
            #[trigger] all[j],
        ) by {
            assert(notes[i].0 <= notes[j].0);
        }
        lemma_filter_keeps_order(all, p, f);
        lemma_notes_stand_in_run(para, notes, drawn, place, at.start_line, char_start);
        assert forall|i: int, j: int| 0 <= i < j < cuts.len() implies #[trigger] cuts[i]
            <= #[trigger] cuts[j] by {
            assert(f(taken[i]) <= f(taken[j]));
            assert(cuts[i] == notes[taken[i] as int].0 - place.start);
            assert(cuts[j] == notes[taken[j] as int].0 - place.start);
        }
    }
}

/// The text that the first `k` runs draw.
pub open spec fn drawn_text<W>(
    comp: ComposedParagraph,
    para: Option<&Paragraph>,
    offsets: Seq<(usize, W, usize)>,
    at: PlannedLine,
    k: int,
) -> Seq<char>
    decreases k,
{
    if k <= 0 {
        Seq::empty()
    } else {
        drawn_text(comp, para, offsets, at, k - 1) + text_of_pieces(
            pieces_of(comp, para, offsets, at, k - 1),
            comp.lines@[at.line_idx as int].runs@[k - 1].text@,
        )
    }
}

proof fn lemma_drawn_text_up_to<W>(
    comp: ComposedParagraph,
    para: Option<&Paragraph>,
    offsets: Seq<(usize, W, usize)>,
    at: PlannedLine,
    k: int,
)
    requires
        line_fits(comp, para, offsets, at),
        ordered_by_position(offsets),
        notes_in_order(comp.footnote_positions@),
        0 <= k <= comp.lines@[at.line_idx as int].runs@.len(),
    ensures
        drawn_text(comp, para, offsets, at, k) == runs_text(
            comp.lines@[at.line_idx as int].runs@.take(k),
        ),
    decreases k,
{
    let runs = comp.lines@[at.line_idx as int].runs@;
    if k == 0 {
        assert(runs.take(0).len() == 0);
    } else {
        lemma_drawn_text_up_to(comp, para, offsets, at, k - 1);
        lemma_runs_text_prefix(runs, k - 1);
        let text = runs[k - 1].text@;
        let cuts = cuts_of(comp, para, offsets, at, k - 1);
        let by_objects = cutting_objects(comp, offsets, at, k - 1).len() > 0;
        let pieces = pieces_of(comp, para, offsets, at, k - 1);
        assert(run_fits(comp, para, offsets, at, k - 1));
        if cuts.len() > 0 {
            lemma_cuts_in_order(comp, para, offsets, at, k - 1);
            lemma_pieces_hold_the_text(
                text,
                cuts,
                run_char_start(comp, at, k - 1),
                by_objects,
                by_objects && ends_para(comp, at, k - 1),
            );
        } else {
            assert(pieces.drop_last().len() == 0);
            assert(text_of_pieces(pieces.drop_last(), text) == Seq::<char>::empty());
            assert(text.subrange(0, text.len() as int) == text);
            assert(Seq::<char>::empty() + text == text);
        }
    }
}

/// A line draws its text, whole and in order, whatever cuts its runs.
pub proof fn lemma_line_draws_its_text<W>(
    comp: ComposedParagraph,
    para: Option<&Paragraph>,
    offsets: Seq<(usize, W, usize)>,
    at: PlannedLine,
)
    requires
        line_fits(comp, para, offsets, at),
        ordered_by_position(offsets),
        notes_in_order(comp.footnote_positions@),
    ensures
        ({
            let line = comp.lines@[at.line_idx as int];
            drawn_text(comp, para, offsets, at, line.runs@.len() as int) == line.text()
        }),
{
    let runs = comp.lines@[at.line_idx as int].runs@;
    lemma_drawn_text_up_to(comp, para, offsets, at, runs.len() as int);
    assert(runs.take(runs.len() as int) == runs);
}

/// A later run starts no earlier.
pub(crate) proof fn lemma_run_starts_ascend(line: ComposedLine, j: int, k: int)
    requires
        0 <= j <= k <= line.runs@.len(),
    ensures
        line.char_start <= run_start(line, j) <= run_start(line, k) <= line.char_start + runs_units(
            line.runs@,
        ),
    decreases k,
{
    if k == 0 {
        assert(line.runs@.take(0).len() == 0);
    } else {
        lemma_runs_units_prefix(line.runs@, k - 1);
        if j < k {
            lemma_run_starts_ascend(line, j, k - 1);
        } else {
            lemma_run_starts_ascend(line, k - 1, k - 1);
        }
    }
}

/// The marks that are drawn in front of run `k`, or behind the last one.
pub open spec fn markers_at(line: ComposedLine, positions: Seq<usize>, k: int) -> Seq<usize> {
    markers_up_to(
        positions,
        markers_before(line, positions, k),
        if k < line.runs@.len() {
            run_start(line, k) as usize
        } else {
            usize::MAX
        },
    )
}

/// Mark `i` is drawn in front of run `k`.
pub(crate) proof fn lemma_marker_at(line: ComposedLine, positions: Seq<usize>, k: int, i: int)
    requires
        line.char_start + runs_units(line.runs@) <= usize::MAX,
        0 <= k <= line.runs@.len(),
        0 <= i < positions.len() <= usize::MAX,
    ensures
        markers_at(line, positions, k).contains(i as usize) <==> (k > 0 ==> run_start(line, k - 1)
            < positions[i]) && (k < line.runs@.len() ==> positions[i] <= run_start(line, k)),
{
    let drawn = markers_before(line, positions, k);
    let place = if k < line.runs@.len() {
        run_start(line, k) as usize
    } else {
        usize::MAX
    };
    let all = indices(positions.len());
    let p = |i: usize| !drawn[i as int] && positions[i as int] <= place;
    assert(markers_at(line, positions, k) == all.filter(p));
    lemma_run_starts_ascend(line, k, line.runs@.len() as int);
    if all.filter(p).contains(i as usize) {
        all.lemma_filter_contains_rev(p, i as usize);
    }
    if p(i as usize) {
        assert(all[i] == i as usize);
        all.lemma_filter_contains(p, i);
    }
}

/// The place, behind the start of run `n - 1`, at which mark `i` is drawn.
proof fn lemma_marker_slot(line: ComposedLine, positions: Seq<usize>, i: int, n: int) -> (k: int)
    requires
        line.char_start + runs_units(line.runs@) <= usize::MAX,
        0 < n <= line.runs@.len(),
        0 <= i < positions.len() <= usize::MAX,
        positions[i] > run_start(line, n - 1),
    ensures
        0 <= k <= line.runs@.len(),
        markers_at(line, positions, k).contains(i as usize),
    decreases line.runs@.len() - n,
{
    lemma_marker_at(line, positions, n, i);
    if n < line.runs@.len() && positions[i] > run_start(line, n) {
        lemma_marker_slot(line, positions, i, n + 1)
    } else {
        n
    }
}

/// Every mark is drawn at one place of the line and at no other.
pub proof fn lemma_marker_drawn_once(line: ComposedLine, positions: Seq<usize>, i: int)
    requires
        line.char_start + runs_units(line.runs@) <= usize::MAX,
        0 <= i < positions.len() <= usize::MAX,
    ensures
        exists|k: int|
            0 <= k <= line.runs@.len() && #[trigger] markers_at(line, positions, k).contains(
                i as usize,
            ),
        forall|j: int, k: int|
            0 <= j < k <= line.runs@.len() ==> !(#[trigger] markers_at(
                line,
                positions,
                j,
            ).contains(i as usize) && #[trigger] markers_at(line, positions, k).contains(
                i as usize,
            )),
{
    lemma_marker_at(line, positions, 0, i);
    if line.runs@.len() > 0 && positions[i] > run_start(line, 0) {
        let slot = lemma_marker_slot(line, positions, i, 1);
        assert(markers_at(line, positions, slot).contains(i as usize));
    } else {
        assert(markers_at(line, positions, 0).contains(i as usize));
    }
    assert forall|j: int, k: int| 0 <= j < k <= line.runs@.len() implies !(#[trigger] markers_at(
        line,
        positions,
        j,
    ).contains(i as usize) && #[trigger] markers_at(line, positions, k).contains(i as usize)) by {
        lemma_marker_at(line, positions, j, i);
        lemma_marker_at(line, positions, k, i);
        lemma_run_starts_ascend(line, j, k - 1);
    }
}

/// No object is drawn by two runs of a line.
pub proof fn lemma_object_drawn_once(comp: ComposedParagraph, at: PlannedLine, j: int, k: int, pos: int)
    requires
        at.line_idx < comp.lines@.len(),
        0 <= j < k < comp.lines@[at.line_idx as int].runs@.len(),
        comp.lines@[at.line_idx as int].char_start + runs_units(
            comp.lines@[at.line_idx as int].runs@,
        ) <= usize::MAX,
        drawn_in_run(comp, place_of(comp, at, j), at.has_stored_assignment, pos),
    ensures
        !drawn_in_run(comp, place_of(comp, at, k), at.has_stored_assignment, pos),
{
    let line = comp.lines@[at.line_idx as int];
    lemma_run_starts_ascend(line, j + 1, k);
    lemma_run_starts_ascend(line, j, j + 1);
    lemma_run_starts_ascend(line, k, k + 1);
}

proof fn lemma_note_stays_drawn<W>(
    comp: ComposedParagraph,
    para: Option<&Paragraph>,
    offsets: Seq<(usize, W, usize)>,
    at: PlannedLine,
    j: int,
    k: int,
    note: int,
)
    requires
        0 <= j <= k,
        0 <= note < comp.footnote_positions@.len(),
        notes_before(comp, para, offsets, at, j)[note],
    ensures
        notes_before(comp, para, offsets, at, k)[note],
    decreases k,
{
    if j < k {
        lemma_note_stays_drawn(comp, para, offsets, at, j, k - 1, note);
    }
}

/// No note is drawn by two runs of a line.
pub proof fn lemma_note_drawn_by_one_run<W>(
    comp: ComposedParagraph,
    para: Option<&Paragraph>,
    offsets: Seq<(usize, W, usize)>,
    at: PlannedLine,
    j: int,
    k: int,
    note: usize,
)
    requires
        0 <= j < k,
        cutting_notes(comp, para, offsets, at, j).contains(note),
    ensures
        !cutting_notes(comp, para, offsets, at, k).contains(note),
{
    let notes = comp.footnote_positions@;
    let char_start = comp.lines@[at.line_idx as int].char_start;
    let all = indices(notes.len());
    let taken_at = |n: int|
        |i: usize|
            !notes_before(comp, para, offsets, at, n)[i as int] && !note_is_prefix(
                para,
                notes[i as int],
                place_of(comp, at, n).line_idx,
                at.start_line,
                char_start,
            ) && in_run(
                notes[i as int].0 as int,
                place_of(comp, at, n).start as int,
                place_of(comp, at, n).end as int,
                place_of(comp, at, n).is_last_of_line,
            );
    assert(cutting_notes(comp, para, offsets, at, j) == all.filter(taken_at(j)));
    all.lemma_filter_contains_rev(taken_at(j), note);
    assert(0 <= note < notes.len());
    assert(notes_before(comp, para, offsets, at, j + 1)[note as int]);
    lemma_note_stays_drawn(comp, para, offsets, at, j + 1, k, note as int);
    if cutting_notes(comp, para, offsets, at, k).contains(note) {
        assert(cutting_notes(comp, para, offsets, at, k) == all.filter(taken_at(k)));
        all.lemma_filter_contains_rev(taken_at(k), note);
    }
}

/// Line `j` of the paragraph starts behind the runs of line `i`, and so does every line
/// between them.
pub open spec fn line_follows(comp: ComposedParagraph, i: int, j: int) -> bool {
    &&& 0 <= i < j < comp.lines@.len()
    &&& comp.lines@[i].char_start + runs_units(comp.lines@[i].runs@) <= comp.lines@[i
        + 1].char_start <= comp.lines@[j].char_start
}

/// No object is drawn by the runs of two lines, also where one line ends and the next
/// starts at its place.
pub proof fn lemma_object_drawn_on_one_line(
    comp: ComposedParagraph,
    a: PlannedLine,
    b: PlannedLine,
    j: int,
    k: int,
    pos: int,
)
    requires
        line_follows(comp, a.line_idx as int, b.line_idx as int),
        !a.has_stored_assignment,
        !b.has_stored_assignment,
        0 <= j < comp.lines@[a.line_idx as int].runs@.len(),
        0 <= k < comp.lines@[b.line_idx as int].runs@.len(),
        comp.lines@[b.line_idx as int].char_start + runs_units(
            comp.lines@[b.line_idx as int].runs@,
        ) <= usize::MAX,
        drawn_in_run(comp, place_of(comp, a, j), false, pos),
    ensures
        !drawn_in_run(comp, place_of(comp, b, k), false, pos),
{
    let first = comp.lines@[a.line_idx as int];
    let second = comp.lines@[b.line_idx as int];
    lemma_run_starts_ascend(first, j, j + 1);
    lemma_run_starts_ascend(second, 0, k);
    lemma_run_starts_ascend(second, k, k + 1);
}

/// No note is drawn on two lines, unless it stands right where the later one starts.
pub proof fn lemma_note_drawn_on_one_line<W>(
    comp: ComposedParagraph,
    para: Option<&Paragraph>,
    offsets: Seq<(usize, W, usize)>,
    a: PlannedLine,
    b: PlannedLine,
    j: int,
    k: int,
    note: usize,
)
    requires
        line_follows(comp, a.line_idx as int, b.line_idx as int),
        0 <= j < comp.lines@[a.line_idx as int].runs@.len(),
        0 <= k < comp.lines@[b.line_idx as int].runs@.len(),
        comp.lines@[b.line_idx as int].char_start + runs_units(
            comp.lines@[b.line_idx as int].runs@,
        ) <= usize::MAX,
        cutting_notes(comp, para, offsets, a, j).contains(note),
        comp.footnote_positions@[note as int].0 != comp.lines@[b.line_idx as int].char_start,
    ensures
        !cutting_notes(comp, para, offsets, b, k).contains(note),
{
    lemma_cutting_note_in_run(comp, para, offsets, a, j, note);
    if cutting_notes(comp, para, offsets, b, k).contains(note) {
        lemma_cutting_note_in_run(comp, para, offsets, b, k, note);
        let first = comp.lines@[a.line_idx as int];
        let second = comp.lines@[b.line_idx as int];
        lemma_run_starts_ascend(first, j, j + 1);
        lemma_run_starts_ascend(second, 0, k);
        lemma_run_starts_ascend(second, k, k + 1);
    }
}

proof fn lemma_cutting_note_in_run<W>(
    comp: ComposedParagraph,
    para: Option<&Paragraph>,
    offsets: Seq<(usize, W, usize)>,
    at: PlannedLine,
    k: int,
    note: usize,
)
    requires
        cutting_notes(comp, para, offsets, at, k).contains(note),
    ensures
        in_run(
            comp.footnote_positions@[note as int].0 as int,
            place_of(comp, at, k).start as int,
            place_of(comp, at, k).end as int,
            place_of(comp, at, k).is_last_of_line,
        ),
{
    let notes = comp.footnote_positions@;
    let char_start = comp.lines@[at.line_idx as int].char_start;
    let all = indices(notes.len());
    let taken = |i: usize|
        !notes_before(comp, para, offsets, at, k)[i as int] && !note_is_prefix(
            para,
            notes[i as int],
            place_of(comp, at, k).line_idx,
            at.start_line,
            char_start,
        ) && in_run(
            notes[i as int].0 as int,
            place_of(comp, at, k).start as int,
            place_of(comp, at, k).end as int,
            place_of(comp, at, k).is_last_of_line,
        );
    assert(cutting_notes(comp, para, offsets, at, k) == all.filter(taken));
    all.lemma_filter_contains_rev(taken, note);
}

/// Every object inside the text of a line is drawn by one of its runs, unless an empty line
/// before it owns the object.
pub proof fn lemma_every_object_in_text_is_drawn(
    comp: ComposedParagraph,
    at: PlannedLine,
    pos: int,
)
    requires
        at.line_idx < comp.lines@.len(),
        comp.lines@[at.line_idx as int].char_start + runs_units(
            comp.lines@[at.line_idx as int].runs@,
        ) <= usize::MAX,
        comp.lines@[at.line_idx as int].char_start <= pos < comp.lines@[at.line_idx as int].char_start
            + runs_units(comp.lines@[at.line_idx as int].runs@),
        !prior_empty_line_owns(comp, at.line_idx as int, pos),
    ensures
        exists|k: int|
            0 <= k < comp.lines@[at.line_idx as int].runs@.len() && #[trigger] drawn_in_run(
                comp,
                place_of(comp, at, k),
                at.has_stored_assignment,
                pos,
            ),
{
    let line = comp.lines@[at.line_idx as int];
    let n = line.runs@.len() as int;
    assert(line.runs@.take(n) == line.runs@);
    let k = lemma_run_of_place(line, pos, n);
    lemma_run_starts_ascend(line, k, k + 1);
    assert(drawn_in_run(comp, place_of(comp, at, k), at.has_stored_assignment, pos));
}

/// The run of a line that holds a place of its text.
pub(crate) proof fn lemma_run_of_place(line: ComposedLine, pos: int, n: int) -> (k: int)
    requires
        0 <= n <= line.runs@.len(),
        line.char_start <= pos < run_start(line, n),
    ensures
        0 <= k < n,
        run_start(line, k) <= pos < run_start(line, k + 1),
    decreases n,
{
    if n == 0 {
        assert(line.runs@.take(0).len() == 0);
        0
    } else if pos >= run_start(line, n - 1) {
        n - 1
    } else {
        lemma_run_of_place(line, pos, n - 1)
    }
}

} // verus!
