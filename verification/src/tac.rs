//! Which line owns an object that is laid out like a character.
//!
//! Such an object (a TAC) stands at a character position. An entry
//! `(position, width, control)` pairs that position with the width that the
//! object takes and with the index of its control; the width is of whatever type
//! the caller measures in and is only carried along.

use vstd::prelude::*;

use crate::composed::composed_line_char_end;
use crate::composed::runs_char_count;
use crate::composed::ComposedLine;
use crate::composed::ComposedParagraph;
use crate::seqs::lemma_filter_step;

verus! {

/// Whether a position lies in the range of a line; an empty range holds its start.
pub open spec fn position_in_range(pos: int, start: int, end: int) -> bool {
    if end > start {
        start <= pos < end
    } else {
        pos == start
    }
}

/// Whether a position lies in the range of a line; an empty range holds its start.
pub fn char_pos_in_line(pos: usize, start: usize, end: usize) -> (r: bool)
    ensures
        r == position_in_range(pos as int, start as int, end as int),
{
    if end > start {
        pos >= start && pos < end
    } else {
        pos == start
    }
}

/// The line before a text line is empty and stands at the same position, so it is
/// the line of the object there.
pub open spec fn prior_empty_line_owns(comp: ComposedParagraph, line_idx: int, pos: int) -> bool {
    &&& 0 < line_idx < comp.lines@.len()
    &&& comp.lines@[line_idx].char_start == pos
    &&& comp.lines@[line_idx].runs@.len() > 0
    &&& comp.lines@[line_idx - 1].runs@.len() == 0
    &&& comp.lines@[line_idx - 1].char_start == pos
}

/// Whether an object at `pos` is already owned by an empty line before a text line.
pub fn tac_owned_by_prior_empty_line(comp: &ComposedParagraph, line_idx: usize, pos: usize) -> (r:
    bool)
    ensures
        r == prior_empty_line_owns(*comp, line_idx as int, pos as int),
{
    if line_idx == 0 || line_idx >= comp.lines.len() {
        return false;
    }
    let line = &comp.lines[line_idx];
    if line.char_start != pos || line.runs.len() == 0 {
        return false;
    }
    let prev = &comp.lines[line_idx - 1];
    prev.runs.len() == 0 && prev.char_start == pos
}

/// The line owns an object at `pos`.
///
/// A paragraph of a single empty line owns every object.
pub open spec fn line_owns(comp: ComposedParagraph, line_idx: int, pos: int) -> bool {
    let start = comp.lines@[line_idx].char_start as int;
    let end = comp.char_end(line_idx);
    &&& 0 <= line_idx < comp.lines@.len()
    &&& (comp.lines@.len() == 1 && end <= start) || position_in_range(pos, start, end)
    &&& !prior_empty_line_owns(comp, line_idx, pos)
}

/// The objects that a line owns, in their order.
pub fn tac_offsets_for_line<W: Copy>(
    comp: &ComposedParagraph,
    tac_offsets: &[(usize, W, usize)],
    line_idx: usize,
) -> (r: Vec<(usize, W, usize)>)
    requires
        comp.fits(),
    ensures
        r@ == tac_offsets@.filter(
            |t: (usize, W, usize)| line_owns(*comp, line_idx as int, t.0 as int),
        ),
{
    let ghost owned = |t: (usize, W, usize)| line_owns(*comp, line_idx as int, t.0 as int);
    let mut r: Vec<(usize, W, usize)> = Vec::new();
    let present: bool = line_idx < comp.lines.len();
    let mut start: usize = 0;
    let mut end: usize = 0;
    let mut single_empty_line: bool = false;
    if present {
        start = comp.lines[line_idx].char_start;
        end = composed_line_char_end(comp, line_idx);
        single_empty_line = comp.lines.len() == 1 && end <= start;
    }
    proof {
        reveal(Seq::filter);
        assert(tac_offsets@.take(0).filter(owned) == Seq::<(usize, W, usize)>::empty());
    }
    for i in 0..tac_offsets.len()
        invariant
            owned == (|t: (usize, W, usize)| line_owns(*comp, line_idx as int, t.0 as int)),
            present == (line_idx < comp.lines@.len()),
            present ==> start == comp.lines@[line_idx as int].char_start,
            present ==> end == comp.char_end(line_idx as int),
            present ==> single_empty_line == (comp.lines@.len() == 1 && end <= start),
            r@ == tac_offsets@.take(i as int).filter(owned),
    {
        let offset: (usize, W, usize) = tac_offsets[i];
        proof {
            lemma_filter_step(tac_offsets@, owned, i as int);
        }
        if present && (single_empty_line || char_pos_in_line(offset.0, start, end))
            && !tac_owned_by_prior_empty_line(comp, line_idx, offset.0) {
            r.push(offset);
        }
    }
    assert(tac_offsets@.take(tac_offsets@.len() as int) == tac_offsets@);
    r
}


/// Some entry is about the control.
pub open spec fn mentions_control<W>(offsets: Seq<(usize, W, usize)>, control: usize) -> bool {
    exists|j: int| 0 <= j < offsets.len() && #[trigger] offsets[j].2 == control
}

/// `base`, extended by the entries at `pos` whose controls it does not mention yet.
pub open spec fn extended_by_position<W>(
    base: Seq<(usize, W, usize)>,
    offsets: Seq<(usize, W, usize)>,
    pos: int,
) -> Seq<(usize, W, usize)>
    decreases offsets.len(),
{
    if offsets.len() == 0 {
        base
    } else {
        let acc = extended_by_position(base, offsets.drop_last(), pos);
        let last = offsets.last();
        if last.0 == pos && !mentions_control(acc, last.2) {
            acc.push(last)
        } else {
            acc
        }
    }
}

/// An object right behind the text of a line is drawn on that line: the line is the
/// last one or ends in a forced break, and no line starts at that position.
pub open spec fn line_emits_trailing_object(comp: ComposedParagraph, line_idx: int) -> bool {
    let line = comp.lines@[line_idx];
    &&& 0 <= line_idx < comp.lines@.len()
    &&& line.runs@.len() > 0
    &&& line_idx + 1 == comp.lines@.len() || line.has_line_break
    &&& line_idx + 1 < comp.lines@.len() ==> comp.lines@[line_idx + 1].char_start
        != line.text_end()
}

/// The objects that count toward the width of a line.
pub open spec fn width_objects<W>(
    comp: ComposedParagraph,
    tac_offsets: Seq<(usize, W, usize)>,
    line_idx: int,
) -> Seq<(usize, W, usize)> {
    let owned = tac_offsets.filter(|t: (usize, W, usize)| line_owns(comp, line_idx, t.0 as int));
    if line_emits_trailing_object(comp, line_idx) {
        extended_by_position(owned, tac_offsets, comp.lines@[line_idx].text_end())
    } else {
        owned
    }
}

fn mentions<W: Copy>(offsets: &[(usize, W, usize)], control: usize) -> (r: bool)
    ensures
        r == mentions_control(offsets@, control),
{
    for j in 0..offsets.len()
        invariant
            forall|k: int| 0 <= k < j ==> #[trigger] offsets@[k].2 != control,
    {
        if offsets[j].2 == control {
            assert(offsets@[j as int].2 == control);
            return true;
        }
    }
    false
}

/// The objects that count toward the width of a line: those that it owns and those
/// that are drawn behind its text.
pub fn tac_offsets_for_line_width<W: Copy>(
    comp: &ComposedParagraph,
    tac_offsets: &[(usize, W, usize)],
    line_idx: usize,
) -> (r: Vec<(usize, W, usize)>)
    requires
        comp.fits(),
    ensures
        r@ == width_objects(*comp, tac_offsets@, line_idx as int),
{
    let mut offsets = tac_offsets_for_line(comp, tac_offsets, line_idx);
    if line_idx >= comp.lines.len() {
        return offsets;
    }
    let line = &comp.lines[line_idx];
    if line.runs.len() == 0 {
        return offsets;
    }
    assert(comp.lines@[line_idx as int].fits());
    let run_end: usize = line.char_start + runs_char_count(line.runs.as_slice());
    let is_last_line: bool = line_idx + 1 == comp.lines.len();
    let next_starts_at_run_end: bool = !is_last_line && comp.lines[line_idx + 1].char_start
        == run_end;
    if !((is_last_line || line.has_line_break) && !next_starts_at_run_end) {
        return offsets;
    }
    let ghost owned = offsets@;
    assert(extended_by_position(owned, tac_offsets@.take(0), run_end as int) == owned);
    for i in 0..tac_offsets.len()
        invariant
            offsets@ == extended_by_position(owned, tac_offsets@.take(i as int), run_end as int),
    {
        let offset: (usize, W, usize) = tac_offsets[i];
        assert(tac_offsets@.take(i + 1).drop_last() == tac_offsets@.take(i as int));
        if offset.0 == run_end && !mentions(offsets.as_slice(), offset.2) {
            offsets.push(offset);
        }
    }
    assert(tac_offsets@.take(tac_offsets@.len() as int) == tac_offsets@);
    offsets
}

/// The line is empty and stands at `start`.
pub open spec fn is_empty_line_at(line: ComposedLine, start: usize) -> bool {
    line.runs@.len() == 0 && line.char_start == start
}

/// The empty lines among `lines` that stand at `start`.
pub open spec fn empty_lines_at(lines: Seq<ComposedLine>, start: usize) -> Seq<ComposedLine> {
    lines.filter(|line: ComposedLine| is_empty_line_at(line, start))
}

/// The objects that a group of `count` empty lines at `start` shares out.
pub open spec fn shared_objects<W>(
    tac_offsets: Seq<(usize, W, usize)>,
    start: usize,
    count: nat,
) -> Seq<(usize, W, usize)> {
    tac_offsets.filter(|t: (usize, W, usize)| start <= t.0 && t.0 < start + count)
}

/// The objects of one of several empty lines at the same position: the lines of the
/// group take the objects one by one, in order. `None` where the line is not of such
/// a group, or the group has no object or more objects than lines.
pub open spec fn repeated_empty_line_objects<W>(
    comp: ComposedParagraph,
    tac_offsets: Seq<(usize, W, usize)>,
    line_idx: int,
) -> Option<Seq<(usize, W, usize)>> {
    let start = comp.lines@[line_idx].char_start;
    let count = empty_lines_at(comp.lines@, start).len();
    let ordinal = empty_lines_at(comp.lines@.take(line_idx), start).len() as int;
    let objects = shared_objects(tac_offsets, start, count);
    if !(0 <= line_idx < comp.lines@.len()) || comp.lines@[line_idx].runs@.len() > 0 || count <= 1 {
        None
    } else if objects.len() == 0 || objects.len() > count {
        None
    } else if ordinal < objects.len() {
        Some(seq![objects[ordinal]])
    } else {
        Some(Seq::empty())
    }
}

/// Counts the empty lines at `start` among the first `n`.
fn count_empty_lines(lines: &[ComposedLine], n: usize, start: usize) -> (count: usize)
    requires
        n <= lines@.len(),
    ensures
        count == empty_lines_at(lines@.take(n as int), start).len(),
        count <= n,
{
    let ghost p = |line: ComposedLine| is_empty_line_at(line, start);
    let mut count: usize = 0;
    proof {
        reveal(Seq::filter);
    }
    for i in 0..n
        invariant
            n <= lines@.len(),
            p == (|line: ComposedLine| is_empty_line_at(line, start)),
            count == lines@.take(i as int).filter(p).len(),
            count <= i,
    {
        proof {
            lemma_filter_step(lines@, p, i as int);
        }
        if lines[i].runs.len() == 0 && lines[i].char_start == start {
            count += 1;
        }
    }
    count
}

/// Shares out the objects of several empty lines at the same position.
pub fn repeated_empty_tac_line_offset<W: Copy>(
    comp: &ComposedParagraph,
    tac_offsets: &[(usize, W, usize)],
    line_idx: usize,
) -> (r: Option<Vec<(usize, W, usize)>>)
    ensures
        match repeated_empty_line_objects(*comp, tac_offsets@, line_idx as int) {
            Some(objects) => r is Some && r->0@ == objects,
            None => r is None,
        },
{
    if line_idx >= comp.lines.len() || comp.lines[line_idx].runs.len() > 0 {
        return None;
    }
    let start: usize = comp.lines[line_idx].char_start;
    let repeated: usize = count_empty_lines(comp.lines.as_slice(), comp.lines.len(), start);
    assert(comp.lines@.take(comp.lines@.len() as int) == comp.lines@);
    if repeated <= 1 {
        return None;
    }
    let ordinal: usize = count_empty_lines(comp.lines.as_slice(), line_idx, start);
    let ghost shared = |t: (usize, W, usize)| start <= t.0 && t.0 < start + repeated as nat;
    let mut sequence: Vec<(usize, W, usize)> = Vec::new();
    proof {
        reveal(Seq::filter);
        assert(tac_offsets@.take(0).filter(shared) == Seq::<(usize, W, usize)>::empty());
    }
    for i in 0..tac_offsets.len()
        invariant
            shared == (|t: (usize, W, usize)| start <= t.0 && t.0 < start + repeated as nat),
            sequence@ == tac_offsets@.take(i as int).filter(shared),
    {
        let offset: (usize, W, usize) = tac_offsets[i];
        proof {
            lemma_filter_step(tac_offsets@, shared, i as int);
        }
        if offset.0 >= start && offset.0 - start < repeated {
            sequence.push(offset);
        }
    }
    assert(tac_offsets@.take(tac_offsets@.len() as int) == tac_offsets@);
    if sequence.len() > 0 && sequence.len() <= repeated {
        let mut own: Vec<(usize, W, usize)> = Vec::new();
        if ordinal < sequence.len() {
            own.push(sequence[ordinal]);
        }
        Some(own)
    } else {
        None
    }
}

} // verus!
