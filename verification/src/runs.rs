//! How the runs of a line are drawn: which objects and notes stand in a run, and into
//! which pieces they cut it.

use vstd::prelude::*;

use crate::composed::lemma_runs_display_prefix;
use crate::composed::runs_display;
use crate::composed::ComposedParagraph;
use crate::composed::ComposedTextRun;
use crate::frame::is_leading_endnote_marker_rendered_as_prefix;
use crate::model::Paragraph;
use crate::seqs::indices;
use crate::seqs::lemma_filter_start;
use crate::seqs::lemma_filter_step;
use crate::spacing::displayed_chars;
use crate::spacing::smaller;
use crate::tac::prior_empty_line_owns;
use crate::tac::tac_owned_by_prior_empty_line;
use crate::text::chars_of;
use crate::text::count_trailing;
use crate::text::lemma_trailing_count;
use crate::text::trailing_count;

verus! {

/// The place behind the first `k` runs in the drawn text of a line.
pub open spec fn display_end(runs: Seq<ComposedTextRun>, k: int) -> nat {
    runs_display(runs.take(k)).len()
}

/// How many of the last `budget` characters of the line lie in run `i`.
pub open spec fn share_of_run(runs: Seq<ComposedTextRun>, budget: int, i: int) -> int {
    let cut = runs_display(runs).len() - budget;
    let start = display_end(runs, i) as int;
    let end = display_end(runs, i + 1) as int;
    if end <= cut {
        0
    } else if start >= cut {
        end - start
    } else {
        end - cut
    }
}

/// The spaces at the end of the line that take no share of its free width.
pub open spec fn trailing_budget(runs: Seq<ComposedTextRun>, limit: usize) -> int {
    smaller(trailing_count(runs_display(runs), ' ') as int, limit as int)
}

/// For each run, how many of the spaces at the end of the line it holds.
///
/// Nothing is held back where the free width goes to those spaces as well, or where
/// the spaces do not change their width; `applies` says that neither is so.
pub fn line_trailing_space_by_run(runs: &[ComposedTextRun], limit: usize, applies: bool) -> (counts:
    Vec<usize>)
    ensures
        counts@.len() == runs@.len(),
        forall|i: int|
            0 <= i < runs@.len() ==> #[trigger] counts@[i] == if applies {
                share_of_run(runs@, trailing_budget(runs@, limit), i)
            } else {
                0
            },
{
    let mut counts: Vec<usize> = Vec::new();
    let chars = displayed_chars(runs);
    let mut budget: usize = 0;
    if applies {
        budget = count_trailing(chars.as_slice(), ' ');
        if budget > limit {
            budget = limit;
        }
    }
    let total: usize = chars.len();
    let cut: usize = total - budget;
    let mut start: usize = 0;
    for i in 0..runs.len()
        invariant
            total == runs_display(runs@).len(),
            cut + budget == total,
            applies ==> budget == trailing_budget(runs@, limit),
            !applies ==> budget == 0,
            start == display_end(runs@, i as int),
            counts@.len() == i,
            forall|k: int|
                0 <= k < i ==> #[trigger] counts@[k] == if applies {
                    share_of_run(runs@, trailing_budget(runs@, limit), k)
                } else {
                    0
                },
    {
        proof {
            lemma_runs_display_prefix(runs@, i as int);
        }
        let own: usize = runs[i].effective_text().unicode_len();
        let end: usize = start + own;
        let mut share: usize = 0;
        if end > cut {
            if start >= cut {
                share = own;
            } else {
                share = end - cut;
            }
        }
        counts.push(share);
        start = end;
    }
    counts
}

/// The sum of the first `k` numbers.
pub open spec fn sum_of(counts: Seq<int>, k: int) -> int
    decreases k,
{
    if k <= 0 {
        0
    } else {
        sum_of(counts, k - 1) + counts[k - 1]
    }
}

/// The runs of a line hold exactly the spaces at its end between them.
pub proof fn lemma_shares_add_up(runs: Seq<ComposedTextRun>, budget: int)
    requires
        0 <= budget <= runs_display(runs).len(),
    ensures
        sum_of(
            Seq::new(runs.len(), |i: int| share_of_run(runs, budget, i)),
            runs.len() as int,
        ) == budget,
{
    lemma_shares_up_to(runs, budget, runs.len() as int);
    assert(runs.take(runs.len() as int) == runs);
}

proof fn lemma_shares_up_to(runs: Seq<ComposedTextRun>, budget: int, k: int)
    requires
        0 <= k <= runs.len(),
        0 <= budget <= runs_display(runs).len(),
    ensures
        ({
            let cut = runs_display(runs).len() - budget;
            let end = display_end(runs, k) as int;
            sum_of(Seq::new(runs.len(), |i: int| share_of_run(runs, budget, i)), k) == if end
                > cut {
                end - cut
            } else {
                0
            }
        }),
    decreases k,
{
    if k > 0 {
        lemma_shares_up_to(runs, budget, k - 1);
        lemma_runs_display_prefix(runs, k - 1);
    }
}

/// A run's characters at the end of the line that it holds are spaces.
pub proof fn lemma_share_is_spaces(runs: Seq<ComposedTextRun>, limit: usize, i: int, j: int)
    requires
        0 <= i < runs.len(),
        display_end(runs, i + 1) - share_of_run(runs, trailing_budget(runs, limit), i) <= j
            < display_end(runs, i + 1),
    ensures
        runs_display(runs)[j] == ' ',
{
    lemma_trailing_count(runs_display(runs), ' ');
    lemma_runs_display_prefix(runs, i);
}

/// An object stands at a place that belongs to the run. The place behind the run
/// counts where `takes_end` says so.
pub open spec fn in_run(pos: int, run_start: int, run_end: int, takes_end: bool) -> bool {
    run_start <= pos && (pos < run_end || (takes_end && pos == run_end))
}

/// Where a run stands in its line.
#[derive(Clone, Copy, Debug, PartialEq, Eq, Structural)]
pub struct RunPlace {
    pub line_idx: usize,
    pub is_last_line_of_para: bool,
    pub is_last_of_line: bool,
    pub start: usize,
    pub end: usize,
}

/// The run draws the objects right behind it: the last run of the last line or of a
/// line with a forced break, unless the next line starts there.
pub open spec fn run_takes_end(comp: ComposedParagraph, place: RunPlace) -> bool {
    &&& place.is_last_of_line
    &&& place.is_last_line_of_para || comp.lines@[place.line_idx as int].has_line_break
    &&& place.line_idx + 1 < comp.lines@.len() ==> comp.lines@[place.line_idx + 1].char_start
        != place.end
}

/// The object at `pos` is drawn inside the run.
pub open spec fn drawn_in_run(
    comp: ComposedParagraph,
    place: RunPlace,
    has_stored_assignment: bool,
    pos: int,
) -> bool {
    &&& in_run(
        pos,
        place.start as int,
        place.end as int,
        run_takes_end(comp, place) || (has_stored_assignment && place.is_last_of_line),
    )
    &&& has_stored_assignment || !prior_empty_line_owns(comp, place.line_idx as int, pos)
}

/// The objects of a run, with their places relative to its start.
pub open spec fn objects_in_run<W>(
    comp: ComposedParagraph,
    tac_offsets: Seq<(usize, W, usize)>,
    place: RunPlace,
    has_stored_assignment: bool,
) -> Seq<(usize, W, usize)> {
    tac_offsets.filter(
        |t: (usize, W, usize)| drawn_in_run(comp, place, has_stored_assignment, t.0 as int),
    ).map_values(|t: (usize, W, usize)| ((t.0 - place.start) as usize, t.1, t.2))
}

/// The objects that are drawn inside a run, in order, with their places relative to
/// the start of the run.
pub fn run_objects<W: Copy>(
    comp: &ComposedParagraph,
    tac_offsets: &[(usize, W, usize)],
    place: RunPlace,
    has_stored_assignment: bool,
) -> (r: Vec<(usize, W, usize)>)
    requires
        place.line_idx < comp.lines@.len(),
    ensures
        r@ == objects_in_run(*comp, tac_offsets@, place, has_stored_assignment),
{
    let line_count: usize = comp.lines.len();
    let line = &comp.lines[place.line_idx];
    let next_starts_at_end: bool = place.line_idx + 1 < line_count
        && comp.lines[place.line_idx + 1].char_start == place.end;
    let takes_end: bool = (place.is_last_of_line && (place.is_last_line_of_para
        || line.has_line_break) && !next_starts_at_end) || (has_stored_assignment
        && place.is_last_of_line);
    let ghost p = |t: (usize, W, usize)|
        drawn_in_run(*comp, place, has_stored_assignment, t.0 as int);
    let ghost shift = |t: (usize, W, usize)| ((t.0 - place.start) as usize, t.1, t.2);
    let mut r: Vec<(usize, W, usize)> = Vec::new();
    proof {
        lemma_filter_start(tac_offsets@, p);
        assert(r@ == tac_offsets@.take(0).filter(p).map_values(shift));
    }
    for i in 0..tac_offsets.len()
        invariant
            place.line_idx < comp.lines@.len(),
            takes_end == (run_takes_end(*comp, place) || (has_stored_assignment
                && place.is_last_of_line)),
            p == (|t: (usize, W, usize)|
                drawn_in_run(*comp, place, has_stored_assignment, t.0 as int)),
            shift == (|t: (usize, W, usize)| ((t.0 - place.start) as usize, t.1, t.2)),
            r@ == tac_offsets@.take(i as int).filter(p).map_values(shift),
    {
        proof {
            lemma_filter_step(tac_offsets@, p, i as int);
        }
        let offset: (usize, W, usize) = tac_offsets[i];
        let inside: bool = offset.0 >= place.start && (offset.0 < place.end || (takes_end
            && offset.0 == place.end));
        if inside && (has_stored_assignment || !tac_owned_by_prior_empty_line(
            comp,
            place.line_idx,
            offset.0,
        )) {
            r.push((offset.0 - place.start, offset.1, offset.2));
            assert(r@ == tac_offsets@.take(i + 1).filter(p).map_values(shift));
        }
    }
    assert(tac_offsets@.take(tac_offsets@.len() as int) == tac_offsets@);
    r
}

/// The objects of a run when the line's width is estimated: those of the line that
/// stand in the run. The last run, which reaches the end of the line's text, also
/// counts those right behind it.
pub open spec fn objects_in_run_width<W>(
    line_objects: Seq<(usize, W, usize)>,
    run_start: usize,
    run_end: usize,
    line_text_end: usize,
) -> Seq<(usize, W, usize)> {
    line_objects.filter(
        |t: (usize, W, usize)|
            in_run(t.0 as int, run_start as int, run_end as int, run_end >= line_text_end),
    ).map_values(|t: (usize, W, usize)| ((t.0 - run_start) as usize, t.1, t.2))
}

/// The objects that count toward the width of a run, with their places in it.
pub fn run_width_objects<W: Copy>(
    line_objects: &[(usize, W, usize)],
    run_start: usize,
    run_end: usize,
    line_text_end: usize,
) -> (r: Vec<(usize, W, usize)>)
    ensures
        r@ == objects_in_run_width(line_objects@, run_start, run_end, line_text_end),
{
    let ghost p = |t: (usize, W, usize)|
        in_run(t.0 as int, run_start as int, run_end as int, run_end >= line_text_end);
    let ghost shift = |t: (usize, W, usize)| ((t.0 - run_start) as usize, t.1, t.2);
    let mut r: Vec<(usize, W, usize)> = Vec::new();
    proof {
        lemma_filter_start(line_objects@, p);
        assert(r@ == line_objects@.take(0).filter(p).map_values(shift));
    }
    for i in 0..line_objects.len()
        invariant
            p == (|t: (usize, W, usize)|
                in_run(t.0 as int, run_start as int, run_end as int, run_end >= line_text_end)),
            shift == (|t: (usize, W, usize)| ((t.0 - run_start) as usize, t.1, t.2)),
            r@ == line_objects@.take(i as int).filter(p).map_values(shift),
    {
        proof {
            lemma_filter_step(line_objects@, p, i as int);
        }
        let offset: (usize, W, usize) = line_objects[i];
        if offset.0 >= run_start && (offset.0 < run_end || (run_end >= line_text_end && offset.0
            == run_end)) {
            r.push((offset.0 - run_start, offset.1, offset.2));
            assert(r@ == line_objects@.take(i + 1).filter(p).map_values(shift));
        }
    }
    assert(line_objects@.take(line_objects@.len() as int) == line_objects@);
    r
}

/// A piece of a run.
#[derive(Clone, Copy, Debug, PartialEq, Eq, Structural)]
pub enum RunPiece {
    /// Characters from `start` up to `end`; the first one is the document's character
    /// `char_start`.
    Text { start: usize, end: usize, char_start: usize },
    /// What cuts the run there, by its number.
    Break { index: usize },
    /// The end of the paragraph, where nothing follows the last cut.
    End { char_start: usize },
}

/// Where the text behind the first `k` cuts starts.
pub open spec fn behind_cut(cuts: Seq<usize>, k: int) -> int {
    if k == 0 {
        0
    } else {
        cuts[k - 1] as int
    }
}

/// How many characters are drawn before and between the first `k` cuts.
pub open spec fn drawn_before(cuts: Seq<usize>, k: int) -> int
    decreases k,
{
    if k <= 0 {
        0
    } else {
        drawn_before(cuts, k - 1) + if behind_cut(cuts, k - 1) < cuts[k - 1] {
            cuts[k - 1] - behind_cut(cuts, k - 1)
        } else {
            0
        }
    }
}

/// The document's character behind `k` cuts.
pub open spec fn document_char(
    char_offset: int,
    cuts: Seq<usize>,
    k: int,
    cuts_count: bool,
) -> int {
    char_offset + drawn_before(cuts, k) + if cuts_count {
        k
    } else {
        0
    }
}

/// Behind cuts in order, the document's character follows from the place in the run.
pub proof fn lemma_document_char(len: int, cuts: Seq<usize>, k: int)
    requires
        cuts_are_valid(len, cuts),
        0 <= k <= cuts.len(),
    ensures
        drawn_before(cuts, k) == behind_cut(cuts, k),
    decreases k,
{
    if k > 0 {
        lemma_document_char(len, cuts, k - 1);
        if k > 1 {
            assert(cuts[k - 2] <= cuts[k - 1]);
        }
    }
}

proof fn lemma_drawn_before_grows(cuts: Seq<usize>, k: int, n: int)
    requires
        0 <= k <= n,
    ensures
        0 <= drawn_before(cuts, k) <= drawn_before(cuts, n),
    decreases n,
{
    if k < n {
        lemma_drawn_before_grows(cuts, k, n - 1);
    } else if n > 0 {
        lemma_drawn_before_grows(cuts, k - 1, n - 1);
    }
}

/// The text up to `end` behind `k` cuts, if there is any.
pub open spec fn text_piece(
    cuts: Seq<usize>,
    k: int,
    end: int,
    char_offset: int,
    cuts_count: bool,
) -> Seq<RunPiece> {
    let start = behind_cut(cuts, k);
    if start < end {
        seq![
            RunPiece::Text {
                start: start as usize,
                end: end as usize,
                char_start: document_char(char_offset, cuts, k, cuts_count) as usize,
            },
        ]
    } else {
        Seq::empty()
    }
}

/// The pieces up to and with the first `k` cuts.
pub open spec fn pieces_up_to(
    cuts: Seq<usize>,
    k: int,
    char_offset: int,
    cuts_count: bool,
) -> Seq<RunPiece>
    decreases k,
{
    if k <= 0 {
        Seq::empty()
    } else {
        pieces_up_to(cuts, k - 1, char_offset, cuts_count) + text_piece(
            cuts,
            k - 1,
            cuts[k - 1] as int,
            char_offset,
            cuts_count,
        ) + seq![RunPiece::Break { index: (k - 1) as usize }]
    }
}

/// The pieces of a run of `len` characters: the text before each cut, the cut, and
/// the text behind the last one. Cuts take a character of their own in the document
/// where `cuts_count` says so. Where no text is left, `marks_end` asks for the end.
pub open spec fn pieces_of_run(
    len: int,
    cuts: Seq<usize>,
    char_offset: int,
    cuts_count: bool,
    marks_end: bool,
) -> Seq<RunPiece> {
    let n = cuts.len() as int;
    let start = behind_cut(cuts, n);
    pieces_up_to(cuts, n, char_offset, cuts_count) + if start < len {
        text_piece(cuts, n, len, char_offset, cuts_count)
    } else if marks_end {
        seq![
            RunPiece::End {
                char_start: document_char(char_offset, cuts, n, cuts_count) as usize,
            },
        ]
    } else {
        Seq::empty()
    }
}

/// The cuts stand inside the run.
pub open spec fn cuts_stand_inside(len: int, cuts: Seq<usize>) -> bool {
    forall|i: int| 0 <= i < cuts.len() ==> #[trigger] cuts[i] <= len
}

/// The cuts stand inside the run, one not before the other.
pub open spec fn cuts_are_valid(len: int, cuts: Seq<usize>) -> bool {
    &&& cuts_stand_inside(len, cuts)
    &&& forall|i: int, j: int| 0 <= i < j < cuts.len() ==> #[trigger] cuts[i] <= #[trigger] cuts[j]
}

/// Cuts a run into pieces.
pub fn split_run(
    len: usize,
    cuts: &[usize],
    char_offset: usize,
    cuts_count: bool,
    marks_end: bool,
) -> (pieces: Vec<RunPiece>)
    requires
        cuts_stand_inside(len as int, cuts@),
        char_offset + drawn_before(cuts@, cuts@.len() as int) + cuts@.len() <= usize::MAX,
    ensures
        pieces@ == pieces_of_run(len as int, cuts@, char_offset as int, cuts_count, marks_end),
{
    let mut pieces: Vec<RunPiece> = Vec::new();
    let mut start: usize = 0;
    let mut char_start: usize = char_offset;
    for k in 0..cuts.len()
        invariant
            cuts_stand_inside(len as int, cuts@),
            char_offset + drawn_before(cuts@, cuts@.len() as int) + cuts@.len() <= usize::MAX,
            start == behind_cut(cuts@, k as int),
            start <= len,
            char_start == document_char(char_offset as int, cuts@, k as int, cuts_count),
            pieces@ == pieces_up_to(cuts@, k as int, char_offset as int, cuts_count),
    {
        let at: usize = cuts[k];
        let ghost before = pieces@;
        proof {
            lemma_drawn_before_grows(cuts@, k + 1, cuts@.len() as int);
        }
        if start < at {
            pieces.push(RunPiece::Text { start, end: at, char_start });
            char_start += at - start;
        }
        assert(pieces@ == before + text_piece(
            cuts@,
            k as int,
            at as int,
            char_offset as int,
            cuts_count,
        ));
        let ghost with_text = pieces@;
        pieces.push(RunPiece::Break { index: k });
        assert(pieces@ == with_text + seq![RunPiece::Break { index: k }]);
        if cuts_count {
            char_start += 1;
        }
        start = at;
    }
    if start < len {
        pieces.push(RunPiece::Text { start, end: len, char_start });
    } else if marks_end {
        pieces.push(RunPiece::End { char_start });
    }
    assert(pieces@ == pieces_of_run(
        len as int,
        cuts@,
        char_offset as int,
        cuts_count,
        marks_end,
    ));
    pieces
}

/// The text of the pieces, put together.
pub open spec fn text_of_pieces(pieces: Seq<RunPiece>, text: Seq<char>) -> Seq<char>
    decreases pieces.len(),
{
    if pieces.len() == 0 {
        Seq::empty()
    } else {
        text_of_pieces(pieces.drop_last(), text) + match pieces.last() {
            RunPiece::Text { start, end, .. } => text.subrange(start as int, end as int),
            _ => Seq::empty(),
        }
    }
}

pub(crate) proof fn lemma_text_of_pieces_push(pieces: Seq<RunPiece>, piece: RunPiece, text: Seq<char>)
    ensures
        text_of_pieces(pieces + seq![piece], text) == text_of_pieces(pieces, text) + match piece {
            RunPiece::Text { start, end, .. } => text.subrange(start as int, end as int),
            _ => Seq::empty(),
        },
{
    assert((pieces + seq![piece]).drop_last() == pieces);
}

pub(crate) proof fn lemma_text_up_to(
    text: Seq<char>,
    cuts: Seq<usize>,
    k: int,
    char_offset: int,
    cuts_count: bool,
)
    requires
        cuts_are_valid(text.len() as int, cuts),
        0 <= k <= cuts.len(),
        text.len() <= usize::MAX,
    ensures
        text_of_pieces(pieces_up_to(cuts, k, char_offset, cuts_count), text) == text.take(
            behind_cut(cuts, k),
        ),
        0 <= behind_cut(cuts, k) <= text.len(),
    decreases k,
{
    if k > 0 {
        lemma_text_up_to(text, cuts, k - 1, char_offset, cuts_count);
        let before = pieces_up_to(cuts, k - 1, char_offset, cuts_count);
        let start = behind_cut(cuts, k - 1);
        let at = cuts[k - 1] as int;
        assert(cuts[k - 1] <= text.len());
        assert(k > 1 ==> cuts[k - 2] <= cuts[k - 1]);
        let piece = text_piece(cuts, k - 1, at, char_offset, cuts_count);
        if start < at {
            lemma_text_of_pieces_push(before, piece[0], text);
            assert(before + piece == before + seq![piece[0]]);
            assert(text.take(start) + text.subrange(start, at) == text.take(at));
        } else {
            assert(before + piece == before);
            assert(start == at);
        }
        lemma_text_of_pieces_push(
            before + piece,
            RunPiece::Break { index: (k - 1) as usize },
            text,
        );
        assert(text.take(at) + Seq::<char>::empty() == text.take(at));
    }
}

/// The pieces of a run hold its text, whole and in order.
pub proof fn lemma_pieces_hold_the_text(
    text: Seq<char>,
    cuts: Seq<usize>,
    char_offset: int,
    cuts_count: bool,
    marks_end: bool,
)
    requires
        cuts_are_valid(text.len() as int, cuts),
        text.len() <= usize::MAX,
    ensures
        text_of_pieces(
            pieces_of_run(text.len() as int, cuts, char_offset, cuts_count, marks_end),
            text,
        ) == text,
{
    let n = cuts.len() as int;
    let len = text.len() as int;
    lemma_text_up_to(text, cuts, n, char_offset, cuts_count);
    let before = pieces_up_to(cuts, n, char_offset, cuts_count);
    let start = behind_cut(cuts, n);
    if start < len {
        let piece = text_piece(cuts, n, len, char_offset, cuts_count);
        lemma_text_of_pieces_push(before, piece[0], text);
        assert(before + piece == before + seq![piece[0]]);
        assert(text.take(start) + text.subrange(start, len) == text);
    } else {
        assert(text.take(start) == text);
        if marks_end {
            let end = RunPiece::End {
                char_start: document_char(char_offset, cuts, n, cuts_count) as usize,
            };
            lemma_text_of_pieces_push(before, end, text);
            assert(text + Seq::<char>::empty() == text);
        } else {
            assert(before + Seq::<RunPiece>::empty() == before);
        }
    }
}

/// The cuts among the pieces, in order.
pub open spec fn cuts_of_pieces(pieces: Seq<RunPiece>) -> Seq<int>
    decreases pieces.len(),
{
    if pieces.len() == 0 {
        Seq::empty()
    } else {
        match pieces.last() {
            RunPiece::Break { index } => cuts_of_pieces(pieces.drop_last()).push(index as int),
            _ => cuts_of_pieces(pieces.drop_last()),
        }
    }
}

pub(crate) proof fn lemma_cuts_up_to(cuts: Seq<usize>, k: int, char_offset: int, cuts_count: bool)
    requires
        0 <= k <= cuts.len() <= usize::MAX,
    ensures
        cuts_of_pieces(pieces_up_to(cuts, k, char_offset, cuts_count)) == Seq::new(
            k as nat,
            |i: int| i,
        ),
    decreases k,
{
    if k > 0 {
        lemma_cuts_up_to(cuts, k - 1, char_offset, cuts_count);
        let before = pieces_up_to(cuts, k - 1, char_offset, cuts_count);
        let piece = text_piece(cuts, k - 1, cuts[k - 1] as int, char_offset, cuts_count);
        if piece.len() > 0 {
            assert((before + piece).drop_last() == before);
        } else {
            assert(before + piece == before);
        }
        assert(cuts_of_pieces(before + piece) == cuts_of_pieces(before));
        let all = pieces_up_to(cuts, k, char_offset, cuts_count);
        assert(all.drop_last() == before + piece);
        assert(all.last() == RunPiece::Break { index: (k - 1) as usize });
        assert(cuts_of_pieces(all) == cuts_of_pieces(before).push(k - 1));
        assert(cuts_of_pieces(all) == Seq::new(k as nat, |i: int| i));
    } else {
        assert(Seq::new(0, |i: int| i) == Seq::<int>::empty());
    }
}

/// Every cut of a run is among its pieces once, in order.
pub proof fn lemma_pieces_hold_every_cut(
    len: int,
    cuts: Seq<usize>,
    char_offset: int,
    cuts_count: bool,
    marks_end: bool,
)
    requires
        cuts.len() <= usize::MAX,
    ensures
        cuts_of_pieces(pieces_of_run(len, cuts, char_offset, cuts_count, marks_end)) == Seq::new(
            cuts.len(),
            |i: int| i,
        ),
{
    let n = cuts.len() as int;
    lemma_cuts_up_to(cuts, n, char_offset, cuts_count);
    let before = pieces_up_to(cuts, n, char_offset, cuts_count);
    let all = pieces_of_run(len, cuts, char_offset, cuts_count, marks_end);
    if all.len() > before.len() {
        assert(all.drop_last() == before);
    } else {
        assert(all == before);
    }
}

/// The note with this number is drawn in front of the paragraph already.
pub open spec fn note_is_prefix(
    para: Option<&Paragraph>,
    note: (usize, u16, usize),
    line_idx: usize,
    start_line: usize,
    line_char_start: usize,
) -> bool {
    line_idx == 0 && start_line == 0 && note.0 == line_char_start && (para matches Some(p) && note.2
        < p.controls@.len() && p.controls@[note.2 as int] is Endnote)
}

/// The notes that a run draws: those not drawn before that stand in the run. The
/// last run of a line also takes the ones right behind it.
pub open spec fn notes_in_run(
    para: Option<&Paragraph>,
    notes: Seq<(usize, u16, usize)>,
    drawn: Seq<bool>,
    place: RunPlace,
    start_line: usize,
    line_char_start: usize,
) -> Seq<usize> {
    indices(notes.len()).filter(
        |i: usize|
            !drawn[i as int] && !note_is_prefix(
                para,
                notes[i as int],
                place.line_idx,
                start_line,
                line_char_start,
            ) && in_run(
                notes[i as int].0 as int,
                place.start as int,
                place.end as int,
                place.is_last_of_line,
            ),
    )
}

/// Which notes are drawn once the run is.
pub open spec fn notes_drawn_after(
    para: Option<&Paragraph>,
    notes: Seq<(usize, u16, usize)>,
    drawn: Seq<bool>,
    place: RunPlace,
    start_line: usize,
    line_char_start: usize,
) -> Seq<bool> {
    Seq::new(
        notes.len(),
        |i: int|
            drawn[i] || note_is_prefix(
                para,
                notes[i],
                place.line_idx,
                start_line,
                line_char_start,
            ) || in_run(
                notes[i].0 as int,
                place.start as int,
                place.end as int,
                place.is_last_of_line,
            ),
    )
}

/// Takes the notes that a run draws, and marks them as drawn.
pub fn take_run_notes(
    para: Option<&Paragraph>,
    notes: &[(usize, u16, usize)],
    drawn: &mut Vec<bool>,
    place: RunPlace,
    start_line: usize,
    line_char_start: usize,
) -> (r: Vec<usize>)
    requires
        old(drawn)@.len() == notes@.len(),
    ensures
        r@ == notes_in_run(para, notes@, old(drawn)@, place, start_line, line_char_start),
        final(drawn)@ == notes_drawn_after(
            para,
            notes@,
            old(drawn)@,
            place,
            start_line,
            line_char_start,
        ),
{
    let ghost before = drawn@;
    let ghost p = |i: usize|
        !before[i as int] && !note_is_prefix(
            para,
            notes@[i as int],
            place.line_idx,
            start_line,
            line_char_start,
        ) && in_run(
            notes@[i as int].0 as int,
            place.start as int,
            place.end as int,
            place.is_last_of_line,
        );
    let ghost all = indices(notes@.len());
    let ghost after = notes_drawn_after(para, notes@, before, place, start_line, line_char_start);
    let mut r: Vec<usize> = Vec::new();
    proof {
        lemma_filter_start(all, p);
    }
    for i in 0..notes.len()
        invariant
            p == (|i: usize|
                !before[i as int] && !note_is_prefix(
                    para,
                    notes@[i as int],
                    place.line_idx,
                    start_line,
                    line_char_start,
                ) && in_run(
                    notes@[i as int].0 as int,
                    place.start as int,
                    place.end as int,
                    place.is_last_of_line,
                )),
            all == indices(notes@.len()),
            after == notes_drawn_after(
                para,
                notes@,
                before,
                place,
                start_line,
                line_char_start,
            ),
            drawn@.len() == notes@.len(),
            before.len() == notes@.len(),
            forall|k: int| 0 <= k < i ==> #[trigger] drawn@[k] == after[k],
            forall|k: int| i <= k < notes@.len() ==> #[trigger] drawn@[k] == before[k],
            r@ == all.take(i as int).filter(p),
    {
        proof {
            lemma_filter_step(all, p, i as int);
        }
        let note: (usize, u16, usize) = notes[i];
        let prefix: bool = is_leading_endnote_marker_rendered_as_prefix(
            para,
            note.2,
            place.line_idx,
            start_line,
            note.0,
            line_char_start,
        );
        let inside: bool = note.0 >= place.start && (note.0 < place.end || (place.is_last_of_line
            && note.0 == place.end));
        if !drawn[i] && !prefix && inside {
            r.push(i);
        }
        if prefix || inside {
            drawn.set(i, true);
        }
    }
    assert(drawn@ == after);
    r
}

/// No run draws a note that an earlier run has drawn.
pub proof fn lemma_note_drawn_once(
    para: Option<&Paragraph>,
    notes: Seq<(usize, u16, usize)>,
    drawn: Seq<bool>,
    first: RunPlace,
    second: RunPlace,
    start_line: usize,
    line_char_start: usize,
    note: usize,
)
    requires
        drawn.len() == notes.len(),
        notes_in_run(para, notes, drawn, first, start_line, line_char_start).contains(note),
    ensures
        !notes_in_run(
            para,
            notes,
            notes_drawn_after(para, notes, drawn, first, start_line, line_char_start),
            second,
            start_line,
            line_char_start,
        ).contains(note),
{
    let all = indices(notes.len());
    let p1 = |i: usize|
        !drawn[i as int] && !note_is_prefix(
            para,
            notes[i as int],
            first.line_idx,
            start_line,
            line_char_start,
        ) && in_run(
            notes[i as int].0 as int,
            first.start as int,
            first.end as int,
            first.is_last_of_line,
        );
    let after = notes_drawn_after(para, notes, drawn, first, start_line, line_char_start);
    let p2 = |i: usize|
        !after[i as int] && !note_is_prefix(
            para,
            notes[i as int],
            second.line_idx,
            start_line,
            line_char_start,
        ) && in_run(
            notes[i as int].0 as int,
            second.start as int,
            second.end as int,
            second.is_last_of_line,
        );
    assert(all.filter(p1).contains(note));
    all.lemma_filter_contains_rev(p1, note);
    assert(0 <= note < notes.len());
    assert(after[note as int]);
    if all.filter(p2).contains(note) {
        all.lemma_filter_contains_rev(p2, note);
    }
}

/// The notes whose marks widen a run when the line's width is estimated.
pub open spec fn notes_in_run_width(
    para: Option<&Paragraph>,
    notes: Seq<(usize, u16, usize)>,
    line_idx: usize,
    start_line: usize,
    line_char_start: usize,
    run_start: usize,
    run_end: usize,
    line_text_end: usize,
) -> Seq<usize> {
    indices(notes.len()).filter(
        |i: usize|
            !note_is_prefix(para, notes[i as int], line_idx, start_line, line_char_start) && in_run(
                notes[i as int].0 as int,
                run_start as int,
                run_end as int,
                run_end >= line_text_end,
            ),
    )
}

/// Finds the notes whose marks widen a run.
pub fn run_width_notes(
    para: Option<&Paragraph>,
    notes: &[(usize, u16, usize)],
    line_idx: usize,
    start_line: usize,
    line_char_start: usize,
    run_start: usize,
    run_end: usize,
    line_text_end: usize,
) -> (r: Vec<usize>)
    ensures
        r@ == notes_in_run_width(
            para,
            notes@,
            line_idx,
            start_line,
            line_char_start,
            run_start,
            run_end,
            line_text_end,
        ),
{
    let ghost p = |i: usize|
        !note_is_prefix(para, notes@[i as int], line_idx, start_line, line_char_start) && in_run(
            notes@[i as int].0 as int,
            run_start as int,
            run_end as int,
            run_end >= line_text_end,
        );
    let ghost all = indices(notes@.len());
    let mut r: Vec<usize> = Vec::new();
    proof {
        lemma_filter_start(all, p);
    }
    for i in 0..notes.len()
        invariant
            p == (|i: usize|
                !note_is_prefix(
                    para,
                    notes@[i as int],
                    line_idx,
                    start_line,
                    line_char_start,
                ) && in_run(
                    notes@[i as int].0 as int,
                    run_start as int,
                    run_end as int,
                    run_end >= line_text_end,
                )),
            all == indices(notes@.len()),
            r@ == all.take(i as int).filter(p),
    {
        proof {
            lemma_filter_step(all, p, i as int);
        }
        let note: (usize, u16, usize) = notes[i];
        if !is_leading_endnote_marker_rendered_as_prefix(
            para,
            note.2,
            line_idx,
            start_line,
            note.0,
            line_char_start,
        ) && note.0 >= run_start && (note.0 < run_end || (run_end >= line_text_end && note.0
            == run_end)) {
            r.push(i);
        }
    }
    r
}

/// The marks that stand at or before a place and are not drawn yet.
pub open spec fn markers_up_to(positions: Seq<usize>, drawn: Seq<bool>, place: usize) -> Seq<
    usize,
> {
    indices(positions.len()).filter(|i: usize| !drawn[i as int] && positions[i as int] <= place)
}

/// Takes the marks that stand at or before a place and were not drawn yet.
pub fn take_markers_up_to(positions: &[usize], drawn: &mut Vec<bool>, place: usize) -> (r: Vec<
    usize,
>)
    requires
        old(drawn)@.len() == positions@.len(),
    ensures
        r@ == markers_up_to(positions@, old(drawn)@, place),
        final(drawn)@ == Seq::new(
            positions@.len(),
            |i: int| old(drawn)@[i] || positions@[i] <= place,
        ),
{
    let ghost before = drawn@;
    let ghost p = |i: usize| !before[i as int] && positions@[i as int] <= place;
    let ghost all = indices(positions@.len());
    let mut r: Vec<usize> = Vec::new();
    proof {
        lemma_filter_start(all, p);
    }
    for i in 0..positions.len()
        invariant
            p == (|i: usize| !before[i as int] && positions@[i as int] <= place),
            all == indices(positions@.len()),
            drawn@.len() == positions@.len(),
            before.len() == positions@.len(),
            forall|k: int|
                0 <= k < i ==> #[trigger] drawn@[k] == (before[k] || positions@[k] <= place),
            forall|k: int| i <= k < positions@.len() ==> #[trigger] drawn@[k] == before[k],
            r@ == all.take(i as int).filter(p),
    {
        proof {
            lemma_filter_step(all, p, i as int);
        }
        if !drawn[i] && positions[i] <= place {
            r.push(i);
            drawn.set(i, true);
        }
    }
    assert(drawn@ == Seq::new(positions@.len(), |i: int| before[i] || positions@[i] <= place));
    r
}

/// The text holds a character that moves what follows it.
pub open spec fn has_layout_control(text: Seq<char>) -> bool {
    text.contains('\t') || text.contains('\n') || text.contains('\r')
}

/// Whether the text holds a tab or a line break.
pub fn contains_layout_control(text: &str) -> (r: bool)
    ensures
        r == has_layout_control(text@),
{
    let chars = chars_of(text);
    for i in 0..chars.len()
        invariant
            chars@ == text@,
            forall|k: int|
                0 <= k < i ==> #[trigger] chars@[k] != '\t' && chars@[k] != '\n' && chars@[k]
                    != '\r',
    {
        if chars[i] == '\t' || chars[i] == '\n' || chars[i] == '\r' {
            assert(text@[i as int] == '\t' || text@[i as int] == '\n' || text@[i as int] == '\r');
            return true;
        }
    }
    assert(!text@.contains('\t'));
    assert(!text@.contains('\n'));
    assert(!text@.contains('\r'));
    false
}

/// An object or a note touches the run.
pub open spec fn touches(pos: int, run_start: int, run_end: int) -> bool {
    run_start <= pos <= run_end
}

/// None of the objects or notes touches the run.
pub open spec fn none_touches<W>(
    offsets: Seq<(usize, W, usize)>,
    run_start: int,
    run_end: int,
) -> bool {
    forall|i: int|
        0 <= i < offsets.len() ==> !touches((#[trigger] offsets[i]).0 as int, run_start, run_end)
}

/// Whether a run may be drawn with exact glyph positions: nothing cuts it or stands at
/// its edges, and none of its characters moves what follows.
pub fn exact_replay_eligible<W: Copy>(
    run: &ComposedTextRun,
    run_start: usize,
    run_end: usize,
    tac_offsets: &[(usize, W, usize)],
    notes: &[(usize, u16, usize)],
) -> (r: bool)
    ensures
        r == (run.char_overlap is None && !has_layout_control(run.text@) && none_touches(
            tac_offsets@,
            run_start as int,
            run_end as int,
        ) && none_touches(notes@, run_start as int, run_end as int)),
{
    if run.char_overlap.is_some() || contains_layout_control(run.text.as_str()) {
        return false;
    }
    for i in 0..tac_offsets.len()
        invariant
            forall|k: int|
                0 <= k < i ==> !touches(
                    (#[trigger] tac_offsets@[k]).0 as int,
                    run_start as int,
                    run_end as int,
                ),
    {
        let offset: (usize, W, usize) = tac_offsets[i];
        if offset.0 >= run_start && offset.0 <= run_end {
            assert(touches(tac_offsets@[i as int].0 as int, run_start as int, run_end as int));
            return false;
        }
    }
    for i in 0..notes.len()
        invariant
            forall|k: int|
                0 <= k < i ==> !touches(
                    (#[trigger] notes@[k]).0 as int,
                    run_start as int,
                    run_end as int,
                ),
    {
        let note: (usize, u16, usize) = notes[i];
        if note.0 >= run_start && note.0 <= run_end {
            assert(touches(notes@[i as int].0 as int, run_start as int, run_end as int));
            return false;
        }
    }
    true
}

/// Whether a piece of a run may be drawn with exact glyph positions: its run is not one of
/// characters on top of each other, and none of its characters moves what follows.
pub fn piece_replay_eligible(run: &ComposedTextRun, piece: &str) -> (r: bool)
    ensures
        r == (run.char_overlap is None && !has_layout_control(piece@)),
{
    !run.char_overlap.is_some() && !contains_layout_control(piece)
}

/// The character stands for a field whose value is drawn in its place.
pub open spec fn is_field_mark(ch: char) -> bool {
    ch == '\u{15}' || ch == '\u{16}' || ch == '\u{17}' || ch == '\u{2007}'
}

/// Whether the run is a single field mark with its value: its width is not rounded.
pub fn is_field_marker_run(run: &ComposedTextRun) -> (r: bool)
    ensures
        r == (run.display_text is Some && run.text@.len() == 1 && is_field_mark(run.text@[0])),
{
    if run.display_text.is_none() {
        return false;
    }
    let chars = chars_of(run.text.as_str());
    chars.len() == 1 && (chars[0] == '\u{15}' || chars[0] == '\u{16}' || chars[0] == '\u{17}'
        || chars[0] == '\u{2007}')
}

/// How many spaces a text starts with.
pub open spec fn leading_spaces(text: Seq<char>) -> nat
    decreases text.len(),
{
    if text.len() > 0 && text[0] == ' ' {
        leading_spaces(text.drop_first()) + 1
    } else {
        0
    }
}

/// The spaces that a run starts with, where something follows them: its border and
/// background start behind these.
pub fn spaces_before_content(chars: &[char]) -> (r: Option<usize>)
    ensures
        r == (if 0 < leading_spaces(chars@) < chars@.len() {
            Some(leading_spaces(chars@) as usize)
        } else {
            None
        }),
{
    let mut n: usize = 0;
    assert(chars@.skip(0) == chars@);
    while n < chars.len() && chars[n] == ' '
        invariant
            n <= chars@.len(),
            leading_spaces(chars@) == n + leading_spaces(chars@.skip(n as int)),
        decreases chars@.len() - n,
    {
        assert(chars@.skip(n as int).drop_first() == chars@.skip(n + 1));
        n += 1;
    }
    if 0 < n && n < chars.len() {
        Some(n)
    } else {
        None
    }
}

/// A stretch of a run that is marked in a colour.
#[derive(Clone, Copy, Debug, PartialEq, Eq, Structural)]
pub struct Highlight {
    pub start: usize,
    pub end: usize,
    pub color: u32,
}

/// The kind of range tag that marks text in a colour.
pub const HIGHLIGHT_TAG: u32 = 2;

/// The stretch of a run that a range tag marks in a colour, relative to the run. The
/// high byte of the tag is its kind; the rest is the colour.
pub fn highlight_in_run(
    tag: u32,
    tag_start: usize,
    tag_end: usize,
    run_start: usize,
    run_end: usize,
) -> (r: Option<Highlight>)
    ensures
        r is Some <==> tag / 0x100_0000 == HIGHLIGHT_TAG && tag_start < tag_end && run_start
            < run_end && tag_start < run_end && run_start < tag_end,
        r matches Some(h) ==> h.color == tag % 0x100_0000 && h.start + run_start == (if tag_start
            >= run_start {
            tag_start
        } else {
            run_start
        }) && h.end + run_start == (if tag_end <= run_end {
            tag_end
        } else {
            run_end
        }),
{
    if tag / 0x100_0000 != HIGHLIGHT_TAG {
        return None;
    }
    let mut start: usize = tag_start;
    if run_start > start {
        start = run_start;
    }
    let mut end: usize = tag_end;
    if run_end < end {
        end = run_end;
    }
    if start >= end {
        return None;
    }
    Some(Highlight { start: start - run_start, end: end - run_start, color: tag % 0x100_0000 })
}

/// Whether no run of the line shows a character: all of them are control characters
/// or stand for objects.
pub open spec fn shows_no_character(runs: Seq<ComposedTextRun>) -> bool {
    forall|i: int, j: int|
        0 <= i < runs.len() && 0 <= j < runs[i].text@.len() ==> {
            let c = #[trigger] runs[i].text@[j];
            c as u32 <= 0x1f || c == '\u{FFFC}'
        }
}

/// Whether no run of the line shows a character.
pub fn line_shows_no_character(runs: &[ComposedTextRun]) -> (r: bool)
    ensures
        r == shows_no_character(runs@),
{
    for i in 0..runs.len()
        invariant
            forall|a: int, b: int|
                0 <= a < i && 0 <= b < runs@[a].text@.len() ==> {
                    let c = #[trigger] runs@[a].text@[b];
                    c as u32 <= 0x1f || c == '\u{FFFC}'
                },
    {
        let chars = chars_of(runs[i].text.as_str());
        for j in 0..chars.len()
            invariant
                i < runs@.len(),
                chars@ == runs@[i as int].text@,
                forall|b: int|
                    0 <= b < j ==> {
                        let c = #[trigger] chars@[b];
                        c as u32 <= 0x1f || c == '\u{FFFC}'
                    },
        {
            if chars[j] as u32 > 0x1f && chars[j] != '\u{FFFC}' {
                assert(!({
                    let c = runs@[i as int].text@[j as int];
                    c as u32 <= 0x1f || c == '\u{FFFC}'
                }));
                return false;
            }
        }
        assert forall|a: int, b: int| 0 <= a < i + 1 && 0 <= b < runs@[a].text@.len() implies {
            let c = #[trigger] runs@[a].text@[b];
            c as u32 <= 0x1f || c == '\u{FFFC}'
        } by {
            if a == i {
                assert(chars@[b] == runs@[a].text@[b]);
            }
        }
    }
    true
}

/// Whether an equation in the text may rise above the top of its line: outside cells, on a
/// line that shows no character.
pub fn equation_may_rise(in_cell: bool, runs: &[ComposedTextRun]) -> (r: bool)
    ensures
        r == (!in_cell && shows_no_character(runs@)),
{
    !in_cell && line_shows_no_character(runs)
}

} // verus!
