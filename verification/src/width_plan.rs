//! The plan by which the width of a line is estimated before it is drawn.

use vstd::prelude::*;

use crate::composed::lemma_runs_text_prefix;
use crate::composed::lemma_runs_units_prefix;
use crate::composed::runs_char_count;
use crate::composed::runs_text;
use crate::composed::runs_units;
use crate::composed::ComposedLine;
use crate::composed::ComposedParagraph;
use crate::composed::ComposedTextRun;
use crate::line_plan::object_cuts;
use crate::line_plan::lemma_run_of_place;
use crate::line_plan::run_start;
use crate::model::Paragraph;
use crate::runs::behind_cut;
use crate::runs::cuts_stand_inside;
use crate::runs::drawn_before;
use crate::runs::in_run;
use crate::runs::notes_in_run_width;
use crate::runs::objects_in_run_width;
use crate::runs::pieces_of_run;
use crate::runs::run_width_notes;
use crate::runs::run_width_objects;
use crate::runs::split_run;
use crate::runs::RunPiece;
use crate::text::chars_of;
use crate::text::count_char;
use crate::text::lemma_occurrences_concat;
use crate::text::occurrences;

verus! {

/// How the width of a run is estimated.
pub struct RunWidth<W> {
    /// Characters are set on top of each other: the run takes the width of its places.
    pub is_overlap: bool,
    /// The number of tabs in the line before the run.
    pub first_tab: usize,
    /// The objects that count in the run, with their places in it.
    pub objects: Vec<(usize, W, usize)>,
    /// The text and the objects in order.
    pub pieces: Vec<RunPiece>,
    /// The piece behind the last object is measured as the text that is drawn for it.
    pub measures_display: bool,
    /// The notes whose marks widen the run.
    pub notes: Vec<usize>,
}

/// The objects that count in run `k`; none where characters are set on top of each other.
pub open spec fn counted_objects<W>(line: ComposedLine, objects: Seq<(usize, W, usize)>, k: int) -> Seq<
    (usize, W, usize),
> {
    if line.runs@[k].char_overlap is Some {
        Seq::empty()
    } else {
        objects_in_run_width(
            objects,
            run_start(line, k) as usize,
            run_start(line, k + 1) as usize,
            line.text_end() as usize,
        )
    }
}

/// The places in run `k` at which objects count.
pub open spec fn width_cuts<W>(line: ComposedLine, objects: Seq<(usize, W, usize)>, k: int) -> Seq<
    usize,
> {
    counted_objects(line, objects, k).map_values(|t: (usize, W, usize)| t.0)
}

/// The places of the objects in run `k` are places of its text.
pub open spec fn width_fits<W>(line: ComposedLine, objects: Seq<(usize, W, usize)>, k: int) -> bool {
    let cuts = width_cuts(line, objects, k);
    &&& cuts_stand_inside(line.runs@[k].text@.len() as int, cuts)
    &&& drawn_before(cuts, cuts.len() as int) + cuts.len() <= usize::MAX
}

impl<W> RunWidth<W> {
    /// This is how the width of run `k` is estimated.
    pub open spec fn estimates(
        self,
        comp: ComposedParagraph,
        para: Option<&Paragraph>,
        objects: Seq<(usize, W, usize)>,
        line_idx: usize,
        start_line: usize,
        k: int,
    ) -> bool {
        let line = comp.lines@[line_idx as int];
        let run = line.runs@[k];
        let cuts = width_cuts(line, objects, k);
        &&& self.is_overlap == (run.char_overlap is Some)
        &&& self.first_tab == occurrences(runs_text(line.runs@.take(k)), '\t')
        &&& self.objects@ == counted_objects(line, objects, k)
        &&& self.pieces@ == if self.is_overlap {
            Seq::empty()
        } else {
            pieces_of_run(run.text@.len() as int, cuts, 0, false, false)
        }
        &&& self.measures_display == (!self.is_overlap && run.display_text is Some && behind_cut(
            cuts,
            cuts.len() as int,
        ) == 0)
        &&& self.notes@ == if self.is_overlap {
            Seq::empty()
        } else {
            notes_in_run_width(
                para,
                comp.footnote_positions@,
                line_idx,
                start_line,
                line.char_start,
                run_start(line, k) as usize,
                run_start(line, k + 1) as usize,
                line.text_end() as usize,
            )
        }
    }
}

/// The parts that the width of a run is estimated from.
fn run_width<W: Copy>(
    comp: &ComposedParagraph,
    para: Option<&Paragraph>,
    objects: &[(usize, W, usize)],
    line_idx: usize,
    start_line: usize,
    k: usize,
    start: usize,
    end: usize,
    text_end: usize,
    first_tab: usize,
) -> (width: RunWidth<W>)
    requires
        line_idx < comp.lines@.len(),
        k < comp.lines@[line_idx as int].runs@.len(),
        width_fits(comp.lines@[line_idx as int], objects@, k as int),
        start == run_start(comp.lines@[line_idx as int], k as int),
        end == run_start(comp.lines@[line_idx as int], k + 1),
        text_end == comp.lines@[line_idx as int].text_end(),
        first_tab == occurrences(
            runs_text(comp.lines@[line_idx as int].runs@.take(k as int)),
            '\t',
        ),
    ensures
        width.estimates(*comp, para, objects@, line_idx, start_line, k as int),
{
    let line = &comp.lines[line_idx];
    let run = &line.runs[k];
    if run.char_overlap.is_some() {
        return RunWidth {
            is_overlap: true,
            first_tab,
            objects: Vec::new(),
            pieces: Vec::new(),
            measures_display: false,
            notes: Vec::new(),
        };
    }
    let counted = run_width_objects(objects, start, end, text_end);
    let cuts = object_cuts(counted.as_slice());
    assert(cuts@ == width_cuts(*line, objects@, k as int));
    let len: usize = run.text.as_str().unicode_len();
    let pieces = split_run(len, cuts.as_slice(), 0, false, false);
    let n: usize = cuts.len();
    let measures_display: bool = run.display_text.is_some() && (n == 0 || cuts[n - 1] == 0);
    let notes = run_width_notes(
        para,
        comp.footnote_positions.as_slice(),
        line_idx,
        start_line,
        line.char_start,
        start,
        end,
        text_end,
    );
    RunWidth { is_overlap: false, first_tab, objects: counted, pieces, measures_display, notes }
}

/// Plans how the width of a line is estimated.
pub fn line_width_plan<W: Copy>(
    comp: &ComposedParagraph,
    para: Option<&Paragraph>,
    objects: &[(usize, W, usize)],
    line_idx: usize,
    start_line: usize,
) -> (plan: Vec<RunWidth<W>>)
    requires
        line_idx < comp.lines@.len(),
        comp.lines@[line_idx as int].fits(),
        comp.lines@[line_idx as int].char_start + runs_units(comp.lines@[line_idx as int].runs@)
            <= usize::MAX,
        forall|k: int|
            0 <= k < comp.lines@[line_idx as int].runs@.len() ==> #[trigger] width_fits(
                comp.lines@[line_idx as int],
                objects@,
                k,
            ),
    ensures
        plan@.len() == comp.lines@[line_idx as int].runs@.len(),
        forall|k: int|
            0 <= k < plan@.len() ==> (#[trigger] plan@[k]).estimates(
                *comp,
                para,
                objects@,
                line_idx,
                start_line,
                k,
            ),
{
    let line = &comp.lines[line_idx];
    let text_end: usize = line.char_start + runs_char_count(line.runs.as_slice());
    let mut plan: Vec<RunWidth<W>> = Vec::new();
    let mut start: usize = line.char_start;
    let mut first_tab: usize = 0;
    assert(line.runs@.take(0).len() == 0);
    for k in 0..line.runs.len()
        invariant
            line_idx < comp.lines@.len(),
            *line == comp.lines@[line_idx as int],
            line.fits(),
            line.char_start + runs_units(line.runs@) <= usize::MAX,
            forall|k: int|
                0 <= k < line.runs@.len() ==> #[trigger] width_fits(*line, objects@, k),
            text_end == line.text_end(),
            start == run_start(*line, k as int),
            first_tab == occurrences(runs_text(line.runs@.take(k as int)), '\t'),
            first_tab <= runs_text(line.runs@.take(k as int)).len(),
            plan@.len() == k,
            forall|j: int|
                0 <= j < k ==> (#[trigger] plan@[j]).estimates(
                    *comp,
                    para,
                    objects@,
                    line_idx,
                    start_line,
                    j,
                ),
    {
        proof {
            lemma_runs_units_prefix(line.runs@, k as int);
            lemma_runs_text_prefix(line.runs@, k as int);
            lemma_occurrences_concat(
                runs_text(line.runs@.take(k as int)),
                line.runs@[k as int].text@,
                '\t',
            );
            assert(width_fits(*line, objects@, k as int));
        }
        let run = &line.runs[k];
        let end: usize = start + run.units();
        plan.push(
            run_width(
                comp,
                para,
                objects,
                line_idx,
                start_line,
                k,
                start,
                end,
                text_end,
                first_tab,
            ),
        );
        let chars = chars_of(run.text.as_str());
        let len: usize = chars.len();
        assert(chars@.take(len as int) == chars@);
        first_tab += count_char(chars.as_slice(), len, '\t');
        start = end;
    }
    plan
}

/// The object at `pos` counts in run `k`.
pub open spec fn counts_in_run(line: ComposedLine, k: int, pos: int) -> bool {
    line.runs@[k].char_overlap is None && in_run(
        pos,
        run_start(line, k),
        run_start(line, k + 1),
        run_start(line, k + 1) >= line.text_end(),
    )
}

/// Every object from the start of a line to the end of its text counts toward the width
/// of some run, where no characters are set on top of each other.
pub proof fn lemma_every_object_counts(line: ComposedLine, pos: int)
    requires
        line.runs@.len() > 0,
        forall|k: int| 0 <= k < line.runs@.len() ==> (#[trigger] line.runs@[k]).char_overlap is None,
        line.char_start <= pos <= line.text_end(),
    ensures
        exists|k: int| 0 <= k < line.runs@.len() && #[trigger] counts_in_run(line, k, pos),
{
    let n = line.runs@.len() as int;
    lemma_places_are_chars(line.runs@, n);
    assert(line.runs@.take(n) == line.runs@);
    if pos < line.text_end() {
        let k = lemma_run_of_place(line, pos, n);
        assert(counts_in_run(line, k, pos));
    } else {
        lemma_runs_units_prefix(line.runs@, n - 1);
        assert(counts_in_run(line, n - 1, pos));
    }
}

proof fn lemma_places_are_chars(runs: Seq<ComposedTextRun>, k: int)
    requires
        forall|k: int| 0 <= k < runs.len() ==> (#[trigger] runs[k]).char_overlap is None,
        0 <= k <= runs.len(),
    ensures
        runs_units(runs.take(k)) == runs_text(runs.take(k)).len(),
    decreases k,
{
    if k > 0 {
        lemma_places_are_chars(runs, k - 1);
        lemma_runs_units_prefix(runs, k - 1);
        lemma_runs_text_prefix(runs, k - 1);
        assert(runs[k - 1].char_overlap is None);
    }
}

/// No object counts toward the width of two runs, unless the later one is empty.
pub proof fn lemma_object_counts_once(line: ComposedLine, j: int, k: int, pos: int)
    requires
        0 <= j < k < line.runs@.len(),
        forall|i: int| 0 <= i < line.runs@.len() ==> (#[trigger] line.runs@[i]).char_overlap is None,
        line.runs@[k].text@.len() > 0,
        counts_in_run(line, j, pos),
    ensures
        !counts_in_run(line, k, pos),
{
    let n = line.runs@.len() as int;
    lemma_places_are_chars(line.runs@, n);
    assert(line.runs@.take(n) == line.runs@);
    lemma_starts_ascend(line, j + 1, k);
    lemma_starts_ascend(line, k + 1, n);
    lemma_runs_units_prefix(line.runs@, k);
    assert(line.runs@[k].char_overlap is None);
}

proof fn lemma_starts_ascend(line: ComposedLine, j: int, k: int)
    requires
        0 <= j <= k <= line.runs@.len(),
    ensures
        run_start(line, j) <= run_start(line, k),
    decreases k,
{
    if j < k {
        lemma_runs_units_prefix(line.runs@, k - 1);
        lemma_starts_ascend(line, j, k - 1);
    }
}

} // verus!
