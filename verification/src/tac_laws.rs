//! Laws of object ownership: no object is drawn twice, none is lost.

use vstd::prelude::*;

use crate::composed::ComposedLine;
use crate::composed::ComposedParagraph;
use crate::seqs::lemma_filter_step;
use crate::tac::empty_lines_at;
use crate::tac::extended_by_position;
use crate::tac::is_empty_line_at;
use crate::tac::line_emits_trailing_object;
use crate::tac::line_owns;
use crate::tac::repeated_empty_line_objects;
use crate::tac::shared_objects;
use crate::tac::width_objects;

verus! {

/// The lines of the paragraph start one behind the other.
pub open spec fn starts_ascend(comp: ComposedParagraph) -> bool {
    forall|i: int, j: int|
        0 <= i < j < comp.lines@.len() ==> #[trigger] comp.lines@[i].char_start <= #[trigger] comp.lines@[j].char_start
}

/// An object that lies in the non-empty range of a line belongs to no later line.
pub proof fn lemma_object_of_text_range_owned_once(
    comp: ComposedParagraph,
    i: int,
    j: int,
    pos: int,
)
    requires
        starts_ascend(comp),
        0 <= i < j < comp.lines@.len(),
        comp.lines@[i].char_start < comp.lines@[i + 1].char_start,
        line_owns(comp, i, pos),
    ensures
        !line_owns(comp, j, pos),
{
    assert(comp.lines@[i + 1].char_start <= comp.lines@[j].char_start);
}

/// An object on the empty line before a text line is not drawn on the text line too.
pub proof fn lemma_object_of_empty_line_not_on_next_text_line(
    comp: ComposedParagraph,
    i: int,
    pos: int,
)
    requires
        0 <= i,
        i + 1 < comp.lines@.len(),
        comp.lines@[i].runs@.len() == 0,
        comp.lines@[i + 1].runs@.len() > 0,
        comp.lines@[i].char_start == comp.lines@[i + 1].char_start,
        line_owns(comp, i, pos),
    ensures
        !line_owns(comp, i + 1, pos),
{
}

/// Where the lines start at strictly increasing positions, every position of the
/// paragraph belongs to exactly one line.
pub proof fn lemma_every_position_has_one_line(comp: ComposedParagraph, pos: int) -> (line: int)
    requires
        forall|i: int, j: int|
            0 <= i < j < comp.lines@.len() ==> #[trigger] comp.lines@[i].char_start
                < #[trigger] comp.lines@[j].char_start,
        comp.lines@.len() > 0,
        comp.lines@[0].char_start <= pos < comp.char_end(comp.lines@.len() - 1),
    ensures
        line_owns(comp, line, pos),
        forall|other: int| line_owns(comp, other, pos) ==> other == line,
{
    let line = lemma_line_of_position(comp, pos, comp.lines@.len() as int);
    assert forall|other: int| line_owns(comp, other, pos) implies other == line by {
        if other < line {
            assert(comp.lines@[other + 1].char_start <= comp.lines@[line].char_start);
            assert(comp.lines@[other].char_start < comp.lines@[other + 1].char_start);
        } else if line < other {
            if line + 1 < comp.lines@.len() {
                assert(comp.lines@[line + 1].char_start <= comp.lines@[other].char_start);
                assert(comp.lines@[line].char_start < comp.lines@[line + 1].char_start);
            }
        }
    }
    line
}

/// The last of the first `n` lines that starts at or before `pos`.
proof fn lemma_line_of_position(comp: ComposedParagraph, pos: int, n: int) -> (line: int)
    requires
        forall|i: int, j: int|
            0 <= i < j < comp.lines@.len() ==> #[trigger] comp.lines@[i].char_start
                < #[trigger] comp.lines@[j].char_start,
        1 <= n <= comp.lines@.len(),
        comp.lines@[0].char_start <= pos < comp.char_end(n - 1),
    ensures
        0 <= line < n,
        line_owns(comp, line, pos),
    decreases n,
{
    if comp.lines@[n - 1].char_start <= pos {
        if n - 1 > 0 {
            assert(comp.lines@[n - 2].char_start < comp.lines@[n - 1].char_start);
        }
        n - 1
    } else {
        lemma_line_of_position(comp, pos, n - 1)
    }
}

/// The objects of a line's width begin with the objects that the line owns.
pub proof fn lemma_width_objects_extend_owned<W>(
    comp: ComposedParagraph,
    tac_offsets: Seq<(usize, W, usize)>,
    line_idx: int,
)
    ensures
        ({
            let owned = tac_offsets.filter(
                |t: (usize, W, usize)| line_owns(comp, line_idx, t.0 as int),
            );
            let all = width_objects(comp, tac_offsets, line_idx);
            &&& owned.len() <= all.len()
            &&& all.take(owned.len() as int) == owned
            &&& forall|k: int|
                owned.len() <= k < all.len() ==> (#[trigger] all[k]).0
                    == comp.lines@[line_idx].text_end()
        }),
{
    let owned = tac_offsets.filter(|t: (usize, W, usize)| line_owns(comp, line_idx, t.0 as int));
    assert(owned.take(owned.len() as int) == owned);
    if line_emits_trailing_object(comp, line_idx) {
        lemma_extension_shape(owned, tac_offsets, comp.lines@[line_idx].text_end());
    }
}

proof fn lemma_extension_shape<W>(
    base: Seq<(usize, W, usize)>,
    offsets: Seq<(usize, W, usize)>,
    pos: int,
)
    ensures
        base.len() <= extended_by_position(base, offsets, pos).len(),
        extended_by_position(base, offsets, pos).take(base.len() as int) == base,
        forall|k: int|
            base.len() <= k < extended_by_position(base, offsets, pos).len()
                ==> (#[trigger] extended_by_position(base, offsets, pos)[k]).0 == pos,
    decreases offsets.len(),
{
    if offsets.len() == 0 {
        assert(base.take(base.len() as int) == base);
    } else {
        lemma_extension_shape(base, offsets.drop_last(), pos);
        let acc = extended_by_position(base, offsets.drop_last(), pos);
        assert(acc.push(offsets.last()).take(base.len() as int) == acc.take(base.len() as int));
    }
}

/// An object at which the next line starts is the next line's: it never widens the
/// line before it.
pub proof fn lemma_next_line_object_not_in_width<W>(
    comp: ComposedParagraph,
    tac_offsets: Seq<(usize, W, usize)>,
    line_idx: int,
)
    requires
        0 <= line_idx,
        line_idx + 1 < comp.lines@.len(),
        comp.lines@[line_idx].char_start < comp.lines@[line_idx + 1].char_start,
        comp.lines@[line_idx + 1].char_start == comp.lines@[line_idx].text_end(),
    ensures
        forall|k: int|
            0 <= k < width_objects(comp, tac_offsets, line_idx).len() ==> (
            #[trigger] width_objects(comp, tac_offsets, line_idx)[k]).0
                != comp.lines@[line_idx + 1].char_start,
{
    let p = |t: (usize, W, usize)| line_owns(comp, line_idx, t.0 as int);
    let owned = tac_offsets.filter(p);
    assert(width_objects(comp, tac_offsets, line_idx) == owned);
    assert forall|k: int| 0 <= k < owned.len() implies (#[trigger] owned[k]).0
        != comp.lines@[line_idx + 1].char_start by {
        tac_offsets.lemma_filter_contains_rev(p, owned[k]);
    }
}

/// The place of a line among the empty lines at its position.
pub open spec fn empty_line_ordinal(comp: ComposedParagraph, line_idx: int) -> nat {
    empty_lines_at(comp.lines@.take(line_idx), comp.lines@[line_idx].char_start).len()
}

proof fn lemma_empty_lines_step(lines: Seq<ComposedLine>, k: int, start: usize)
    requires
        0 <= k < lines.len(),
    ensures
        empty_lines_at(lines.take(k + 1), start).len() == empty_lines_at(
            lines.take(k),
            start,
        ).len() + if is_empty_line_at(lines[k], start) {
            1nat
        } else {
            0nat
        },
{
    lemma_filter_step(lines, |line: ComposedLine| is_empty_line_at(line, start), k);
}

proof fn lemma_empty_lines_monotone(lines: Seq<ComposedLine>, a: int, b: int, start: usize)
    requires
        0 <= a <= b <= lines.len(),
    ensures
        empty_lines_at(lines.take(a), start).len() <= empty_lines_at(lines.take(b), start).len(),
    decreases b - a,
{
    if a < b {
        lemma_empty_lines_monotone(lines, a, b - 1, start);
        lemma_empty_lines_step(lines, b - 1, start);
    }
}

/// Two of the empty lines at one position take different objects: the later line is
/// further along in the sequence of objects.
pub proof fn lemma_repeated_empty_lines_take_different_objects(
    comp: ComposedParagraph,
    i: int,
    j: int,
)
    requires
        0 <= i < j < comp.lines@.len(),
        comp.lines@[i].char_start == comp.lines@[j].char_start,
        comp.lines@[i].runs@.len() == 0,
        comp.lines@[j].runs@.len() == 0,
    ensures
        empty_line_ordinal(comp, i) < empty_line_ordinal(comp, j) < empty_lines_at(
            comp.lines@,
            comp.lines@[i].char_start,
        ).len(),
{
    let start = comp.lines@[i].char_start;
    let n = comp.lines@.len() as int;
    lemma_empty_lines_step(comp.lines@, i, start);
    lemma_empty_lines_monotone(comp.lines@, i + 1, j, start);
    lemma_empty_lines_step(comp.lines@, j, start);
    lemma_empty_lines_monotone(comp.lines@, j + 1, n, start);
    assert(comp.lines@.take(n) == comp.lines@);
}

/// The empty lines at one position take every object that they share out: the object
/// with number `k` is the one object of the line that comes back.
pub proof fn lemma_repeated_empty_lines_take_every_object<W>(
    comp: ComposedParagraph,
    tac_offsets: Seq<(usize, W, usize)>,
    start: usize,
    k: int,
) -> (line: int)
    requires
        ({
            let count = empty_lines_at(comp.lines@, start).len();
            let objects = shared_objects(tac_offsets, start, count);
            &&& count > 1
            &&& objects.len() <= count
            &&& 0 <= k < objects.len()
        }),
    ensures
        0 <= line < comp.lines@.len(),
        is_empty_line_at(comp.lines@[line], start),
        repeated_empty_line_objects(comp, tac_offsets, line) == Some(
            seq![
                shared_objects(tac_offsets, start, empty_lines_at(comp.lines@, start).len())[k],
            ],
        ),
{
    let n = comp.lines@.len() as int;
    assert(comp.lines@.take(n) == comp.lines@);
    lemma_line_with_ordinal(comp.lines@, start, k as nat, n)
}

/// The empty line at `start` that has `k` such lines before it.
proof fn lemma_line_with_ordinal(
    lines: Seq<ComposedLine>,
    start: usize,
    k: nat,
    n: int,
) -> (line: int)
    requires
        0 <= n <= lines.len(),
        k < empty_lines_at(lines.take(n), start).len(),
    ensures
        0 <= line < n,
        is_empty_line_at(lines[line], start),
        empty_lines_at(lines.take(line), start).len() == k,
    decreases n,
{
    reveal(Seq::filter);
    if n == 0 {
        assert(lines.take(0).len() == 0);
        0
    } else {
        lemma_empty_lines_step(lines, n - 1, start);
        if k < empty_lines_at(lines.take(n - 1), start).len() {
            lemma_line_with_ordinal(lines, start, k, n - 1)
        } else {
            n - 1
        }
    }
}

} // verus!
