//! Composed paragraphs: lines of text runs that share a style.

use vstd::prelude::*;

verus! {

/// A piece of a line in one style.
///
/// `text` is what the document holds; `display_text` is what is drawn in its
/// place where the two differ. Overlaid characters advance together:
/// `char_overlap` is then the number of units that they advance by.
#[derive(Clone, Debug, Default)]
pub struct ComposedTextRun {
    pub text: String,
    pub display_text: Option<String>,
    pub char_overlap: Option<usize>,
    pub char_style_id: u32,
    pub lang_index: usize,
    pub footnote_marker: Option<u16>,
}

/// A line of a composed paragraph; the lengths are in HWPUNIT.
#[derive(Clone, Debug, Default)]
pub struct ComposedLine {
    pub runs: Vec<ComposedTextRun>,
    pub line_height: i32,
    pub baseline_distance: i32,
    pub segment_width: i32,
    pub column_start: i32,
    pub line_spacing: i32,
    /// The line ends in a forced break.
    pub has_line_break: bool,
    /// Index of the first character of the line in the paragraph.
    pub char_start: usize,
}

/// What kind of object a control puts into a line.
#[derive(Clone, Copy, Debug, PartialEq, Eq, Structural)]
pub enum InlineControlType {
    Table,
    Shape,
    Other,
}

/// A control that stands in a line.
#[derive(Clone, Copy, Debug, PartialEq, Eq, Structural)]
pub struct InlineControl {
    pub line_index: usize,
    pub control_type: InlineControlType,
}

/// A paragraph composed into lines.
///
/// `tac_controls` holds the position, the width in HWPUNIT and the index of each
/// control that is laid out like a character.
#[derive(Clone, Debug, Default)]
pub struct ComposedParagraph {
    pub lines: Vec<ComposedLine>,
    pub para_style_id: u16,
    pub tac_controls: Vec<(usize, i32, usize)>,
    /// Position, number and control index of each note reference.
    pub footnote_positions: Vec<(usize, u16, usize)>,
    pub tab_extended: Vec<[u16; 7]>,
    pub numbering_text: Option<String>,
    pub inline_controls: Vec<InlineControl>,
}

/// The text that a run draws and is measured by.
pub open spec fn run_display(run: ComposedTextRun) -> Seq<char> {
    match run.display_text {
        Some(text) => text@,
        None => run.text@,
    }
}

/// The number of positions that a run takes up in the paragraph.
pub open spec fn run_units(run: ComposedTextRun) -> nat {
    match run.char_overlap {
        Some(units) => units as nat,
        None => run.text@.len(),
    }
}

/// The text of a sequence of runs.
pub open spec fn runs_text(runs: Seq<ComposedTextRun>) -> Seq<char>
    decreases runs.len(),
{
    if runs.len() == 0 {
        Seq::empty()
    } else {
        runs_text(runs.drop_last()) + runs.last().text@
    }
}

/// The text that a sequence of runs draws.
pub open spec fn runs_display(runs: Seq<ComposedTextRun>) -> Seq<char>
    decreases runs.len(),
{
    if runs.len() == 0 {
        Seq::empty()
    } else {
        runs_display(runs.drop_last()) + run_display(runs.last())
    }
}

/// The number of positions that a sequence of runs takes up.
pub open spec fn runs_units(runs: Seq<ComposedTextRun>) -> nat
    decreases runs.len(),
{
    if runs.len() == 0 {
        0
    } else {
        runs_units(runs.drop_last()) + run_units(runs.last())
    }
}

impl ComposedLine {
    /// The text of the line.
    pub open spec fn text(self) -> Seq<char> {
        runs_text(self.runs@)
    }

    /// The index after the last character of the line's runs.
    pub open spec fn text_end(self) -> int {
        self.char_start + self.text().len()
    }

    /// The positions of the line, and the one after its break, are machine integers.
    pub open spec fn fits(self) -> bool {
        self.text_end() < usize::MAX
    }
}

impl ComposedParagraph {
    /// Every line's positions are machine integers.
    pub open spec fn fits(self) -> bool {
        forall|i: int| 0 <= i < self.lines@.len() ==> #[trigger] self.lines@[i].fits()
    }

    /// The index after the last position of a line: where the next line starts,
    /// or, for the last line, after its text and its break. A line that is not
    /// there ends at 0.
    pub open spec fn char_end(self, line_idx: int) -> int {
        if line_idx + 1 < self.lines@.len() {
            self.lines@[line_idx + 1].char_start as int
        } else if line_idx < self.lines@.len() {
            self.lines@[line_idx].text_end() + if self.lines@[line_idx].has_line_break {
                1int
            } else {
                0int
            }
        } else {
            0
        }
    }
}

/// A prefix of runs has a prefix of the text.
pub proof fn lemma_runs_text_prefix(runs: Seq<ComposedTextRun>, k: int)
    requires
        0 <= k < runs.len(),
    ensures
        runs_text(runs.take(k + 1)) == runs_text(runs.take(k)) + runs[k].text@,
        runs_text(runs.take(k + 1)).len() <= runs_text(runs).len(),
    decreases runs.len(),
{
    assert(runs.take(k + 1).drop_last() == runs.take(k));
    if k + 1 < runs.len() {
        lemma_runs_text_prefix(runs.drop_last(), k);
        assert(runs.drop_last().take(k + 1) == runs.take(k + 1));
    } else {
        assert(runs.take(k + 1) == runs);
    }
}

/// A prefix of runs draws a prefix of the drawn text.
pub proof fn lemma_runs_display_prefix(runs: Seq<ComposedTextRun>, k: int)
    requires
        0 <= k < runs.len(),
    ensures
        runs_display(runs.take(k + 1)) == runs_display(runs.take(k)) + run_display(runs[k]),
        runs_display(runs.take(k + 1)).len() <= runs_display(runs).len(),
    decreases runs.len(),
{
    assert(runs.take(k + 1).drop_last() == runs.take(k));
    if k + 1 < runs.len() {
        lemma_runs_display_prefix(runs.drop_last(), k);
        assert(runs.drop_last().take(k + 1) == runs.take(k + 1));
    } else {
        assert(runs.take(k + 1) == runs);
    }
}

/// A prefix of runs takes up no more positions than all of them.
pub proof fn lemma_runs_units_prefix(runs: Seq<ComposedTextRun>, k: int)
    requires
        0 <= k < runs.len(),
    ensures
        runs_units(runs.take(k + 1)) == runs_units(runs.take(k)) + run_units(runs[k]),
        runs_units(runs.take(k + 1)) <= runs_units(runs),
    decreases runs.len(),
{
    assert(runs.take(k + 1).drop_last() == runs.take(k));
    if k + 1 < runs.len() {
        lemma_runs_units_prefix(runs.drop_last(), k);
        assert(runs.drop_last().take(k + 1) == runs.take(k + 1));
    } else {
        assert(runs.take(k + 1) == runs);
    }
}

impl ComposedTextRun {
    /// The text that the run draws and is measured by.
    pub fn effective_text(&self) -> (text: &str)
        ensures
            text@ == run_display(*self),
    {
        match &self.display_text {
            Some(text) => text.as_str(),
            None => self.text.as_str(),
        }
    }

    /// The number of positions that the run takes up.
    pub fn units(&self) -> (units: usize)
        ensures
            units == run_units(*self),
    {
        match self.char_overlap {
            Some(units) => units,
            None => self.text.as_str().unicode_len(),
        }
    }
}

/// The number of characters in the text of the runs.
pub fn runs_char_count(runs: &[ComposedTextRun]) -> (count: usize)
    requires
        runs_text(runs@).len() <= usize::MAX,
    ensures
        count == runs_text(runs@).len(),
{
    let mut count: usize = 0;
    for i in 0..runs.len()
        invariant
            count == runs_text(runs@.take(i as int)).len(),
            runs_text(runs@).len() <= usize::MAX,
    {
        proof {
            lemma_runs_text_prefix(runs@, i as int);
        }
        count += runs[i].text.as_str().unicode_len();
    }
    assert(runs@.take(runs@.len() as int) == runs@);
    count
}

/// The number of positions that the runs take up.
pub fn runs_unit_count(runs: &[ComposedTextRun]) -> (count: usize)
    requires
        runs_units(runs@) <= usize::MAX,
    ensures
        count == runs_units(runs@),
{
    let mut count: usize = 0;
    for i in 0..runs.len()
        invariant
            count == runs_units(runs@.take(i as int)),
            runs_units(runs@) <= usize::MAX,
    {
        proof {
            lemma_runs_units_prefix(runs@, i as int);
        }
        count += runs[i].units();
    }
    assert(runs@.take(runs@.len() as int) == runs@);
    count
}

/// The index after the last position of a line.
pub fn composed_line_char_end(comp: &ComposedParagraph, line_idx: usize) -> (end: usize)
    requires
        comp.fits(),
        line_idx < usize::MAX,
    ensures
        end == comp.char_end(line_idx as int),
{
    if line_idx + 1 < comp.lines.len() {
        return comp.lines[line_idx + 1].char_start;
    }
    if line_idx >= comp.lines.len() {
        return 0;
    }
    let line = &comp.lines[line_idx];
    assert(comp.lines@[line_idx as int].fits());
    let text_end: usize = line.char_start + runs_char_count(line.runs.as_slice());
    if line.has_line_break {
        text_end + 1
    } else {
        text_end
    }
}

} // verus!
