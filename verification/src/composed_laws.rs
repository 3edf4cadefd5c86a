//! What the text and the places of composed lines promise.

use vstd::prelude::*;

use crate::composed::run_display;
use crate::composed::runs_display;
use crate::composed::runs_text;
use crate::composed::runs_units;
use crate::composed::ComposedLine;
use crate::composed::ComposedParagraph;
use crate::composed::ComposedTextRun;

verus! {

/// The text of runs is put together in their order: that of two rows of runs is that of the
/// first with that of the second behind it, and one run has its own text.
pub proof fn lemma_runs_text_adds_up(a: Seq<ComposedTextRun>, b: Seq<ComposedTextRun>)
    ensures
        runs_text(a + b) == runs_text(a) + runs_text(b),
        a.len() == 0 ==> runs_text(a).len() == 0,
        a.len() == 1 ==> runs_text(a) == a[0].text@,
    decreases b.len(),
{
    reveal_with_fuel(runs_text, 2);
    if a.len() == 1 {
        assert(a.drop_last().len() == 0);
        assert(Seq::<char>::empty() + a[0].text@ == a[0].text@);
    }
    if b.len() == 0 {
        assert(a + b == a);
        assert(runs_text(a) + runs_text(b) == runs_text(a));
    } else {
        lemma_runs_text_adds_up(a, b.drop_last());
        assert((a + b).drop_last() == a + b.drop_last());
        assert((a + b).last() == b.last());
        assert(runs_text(a) + (runs_text(b.drop_last()) + b.last().text@) == (runs_text(a)
            + runs_text(b.drop_last())) + b.last().text@);
    }
}

/// The drawn text of runs is put together in their order; a run draws its text unless
/// another is given to be drawn in its place.
pub proof fn lemma_runs_display_adds_up(a: Seq<ComposedTextRun>, b: Seq<ComposedTextRun>)
    ensures
        runs_display(a + b) == runs_display(a) + runs_display(b),
        a.len() == 0 ==> runs_display(a).len() == 0,
        a.len() == 1 && a[0].display_text is None ==> runs_display(a) == a[0].text@,
        a.len() == 1 && a[0].display_text is Some ==> runs_display(a) == a[0].display_text->0@,
    decreases b.len(),
{
    reveal_with_fuel(runs_display, 2);
    if a.len() == 1 {
        assert(a.drop_last().len() == 0);
        assert(Seq::<char>::empty() + run_display(a[0]) == run_display(a[0]));
    }
    if b.len() == 0 {
        assert(a + b == a);
        assert(runs_display(a) + runs_display(b) == runs_display(a));
    } else {
        lemma_runs_display_adds_up(a, b.drop_last());
        assert((a + b).drop_last() == a + b.drop_last());
        assert((a + b).last() == b.last());
        assert(runs_display(a) + (runs_display(b.drop_last()) + run_display(b.last())) == (
        runs_display(a) + runs_display(b.drop_last())) + run_display(b.last()));
    }
}

/// The places of runs add up. A run takes a place for each character, unless its characters
/// are set on top of each other: then it takes as many as it says.
pub proof fn lemma_runs_units_add_up(a: Seq<ComposedTextRun>, b: Seq<ComposedTextRun>)
    ensures
        runs_units(a + b) == runs_units(a) + runs_units(b),
        a.len() == 0 ==> runs_units(a) == 0,
        a.len() == 1 && a[0].char_overlap is None ==> runs_units(a) == a[0].text@.len(),
        a.len() == 1 && a[0].char_overlap is Some ==> runs_units(a) == a[0].char_overlap->0,
    decreases b.len(),
{
    reveal_with_fuel(runs_units, 2);
    if a.len() == 1 {
        assert(a.drop_last().len() == 0);
    }
    if b.len() == 0 {
        assert(a + b == a);
    } else {
        lemma_runs_units_add_up(a, b.drop_last());
        assert((a + b).drop_last() == a + b.drop_last());
        assert((a + b).last() == b.last());
    }
}

/// Without characters on top of each other a line takes as many places as its text has
/// characters.
pub proof fn lemma_places_are_characters(runs: Seq<ComposedTextRun>)
    requires
        forall|i: int| 0 <= i < runs.len() ==> (#[trigger] runs[i]).char_overlap is None,
    ensures
        runs_units(runs) == runs_text(runs).len(),
    decreases runs.len(),
{
    if runs.len() > 0 {
        lemma_places_are_characters(runs.drop_last());
    }
}

/// A line ends where the next one starts. The last one ends behind its text, and behind its
/// break where it has one.
pub proof fn lemma_line_ends_where_the_next_starts(comp: ComposedParagraph, i: int)
    requires
        0 <= i < comp.lines@.len(),
    ensures
        i + 1 < comp.lines@.len() ==> comp.char_end(i) == comp.lines@[i + 1].char_start,
        i + 1 == comp.lines@.len() ==> comp.char_end(i) - comp.lines@[i].char_start == runs_text(
            comp.lines@[i].runs@,
        ).len() + if comp.lines@[i].has_line_break {
            1int
        } else {
            0int
        },
        comp.char_end(comp.lines@.len() as int) == 0,
{
}

/// The end of a line's text lies as many characters behind its start as its runs hold.
pub proof fn lemma_text_end(line: ComposedLine)
    ensures
        line.text() == runs_text(line.runs@),
        line.text_end() - line.char_start == runs_text(line.runs@).len(),
{
}

} // verus!
