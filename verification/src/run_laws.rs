//! Laws of drawing: what a line counts toward its width is what its runs draw.

use vstd::prelude::*;

use crate::composed::lemma_runs_text_prefix;
use crate::composed::runs_text;
use crate::composed::ComposedParagraph;
use crate::composed::ComposedTextRun;
use crate::runs::drawn_in_run;
use crate::runs::run_takes_end;
use crate::runs::RunPlace;
use crate::tac::line_emits_trailing_object;
use crate::tac::line_owns;

verus! {

/// Where run `k` of a line stands, for runs whose characters take one place each.
pub open spec fn place_of_run(comp: ComposedParagraph, line_idx: int, k: int) -> RunPlace {
    let line = comp.lines@[line_idx];
    RunPlace {
        line_idx: line_idx as usize,
        is_last_line_of_para: line_idx + 1 == comp.lines@.len(),
        is_last_of_line: k + 1 == line.runs@.len(),
        start: (line.char_start + runs_text(line.runs@.take(k)).len()) as usize,
        end: (line.char_start + runs_text(line.runs@.take(k + 1)).len()) as usize,
    }
}

/// Some run of the line draws the object at `pos`.
pub open spec fn drawn_on_line(comp: ComposedParagraph, line_idx: int, pos: int) -> bool {
    exists|k: int|
        0 <= k < comp.lines@[line_idx].runs@.len() && #[trigger] drawn_in_run(
            comp,
            place_of_run(comp, line_idx, k),
            false,
            pos,
        )
}

/// The next line starts right behind the text of the line and its forced break.
pub open spec fn next_line_follows(comp: ComposedParagraph, line_idx: int) -> bool {
    line_idx + 1 < comp.lines@.len() ==> comp.lines@[line_idx + 1].char_start
        == comp.lines@[line_idx].text_end() + if comp.lines@[line_idx].has_line_break {
        1int
    } else {
        0int
    }
}

/// The run that holds a place of the line's text.
proof fn lemma_run_of_position(runs: Seq<ComposedTextRun>, at: int, n: int) -> (k: int)
    requires
        0 <= n <= runs.len(),
        0 <= at < runs_text(runs.take(n)).len(),
    ensures
        0 <= k < n,
        runs_text(runs.take(k)).len() <= at < runs_text(runs.take(k + 1)).len(),
    decreases n,
{
    if n == 0 {
        assert(runs.take(0).len() == 0);
        0
    } else if at >= runs_text(runs.take(n - 1)).len() {
        n - 1
    } else {
        lemma_run_of_position(runs, at, n - 1)
    }
}

/// The objects that a line of text counts toward its width are those that its runs
/// draw: the ones that it owns, and the ones behind its text where it draws these.
pub proof fn lemma_line_draws_what_it_counts(comp: ComposedParagraph, line_idx: int, pos: int)
    requires
        comp.fits(),
        0 <= line_idx < comp.lines@.len() <= usize::MAX,
        comp.lines@[line_idx].text().len() > 0,
        next_line_follows(comp, line_idx),
    ensures
        drawn_on_line(comp, line_idx, pos) <==> line_owns(comp, line_idx, pos) || (
        line_emits_trailing_object(comp, line_idx) && pos == comp.lines@[line_idx].text_end()),
{
    let line = comp.lines@[line_idx];
    let runs = line.runs@;
    let n = runs.len() as int;
    assert(comp.lines@[line_idx].fits());
    assert(runs.take(n) == runs);
    assert(n > 0) by {
        if n == 0 {
            assert(runs_text(runs).len() == 0);
        }
    }
    assert forall|k: int| 0 <= k < n implies runs_text(runs.take(k)).len() <= runs_text(
        #[trigger] runs.take(k + 1),
    ).len() <= runs_text(runs).len() by {
        lemma_runs_text_prefix(runs, k);
    }
    if drawn_on_line(comp, line_idx, pos) {
        let k = choose|k: int|
            0 <= k < n && #[trigger] drawn_in_run(comp, place_of_run(comp, line_idx, k), false, pos);
        assert(runs_text(runs.take(k)).len() <= runs_text(runs.take(k + 1)).len());
        let place = place_of_run(comp, line_idx, k);
        if pos < place.end {
            assert(line_owns(comp, line_idx, pos));
        } else {
            assert(run_takes_end(comp, place));
            assert(k + 1 == n);
            assert(line_emits_trailing_object(comp, line_idx));
        }
    }
    if line_owns(comp, line_idx, pos) && pos < line.text_end() {
        let k = lemma_run_of_position(runs, pos - line.char_start, n);
        assert(runs_text(runs.take(k)).len() <= runs_text(runs.take(k + 1)).len());
        assert(drawn_in_run(comp, place_of_run(comp, line_idx, k), false, pos));
    } else if line_owns(comp, line_idx, pos) || (line_emits_trailing_object(comp, line_idx) && pos
        == line.text_end()) {
        let place = place_of_run(comp, line_idx, n - 1);
        assert(runs_text(runs.take(n - 1)).len() <= runs_text(runs.take(n - 1 + 1)).len());
        assert(pos == line.text_end());
        assert(run_takes_end(comp, place));
        assert(drawn_in_run(comp, place, false, pos));
    }
}

} // verus!
