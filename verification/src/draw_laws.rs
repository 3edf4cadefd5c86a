//! What the drawing of a line promises: where its runs, objects, notes and marks stand.

use vstd::prelude::*;

use crate::composed::lemma_runs_units_prefix;
use crate::composed::runs_display;
use crate::composed::runs_text;
use crate::composed::runs_units;
use crate::composed::ComposedLine;
use crate::composed::ComposedParagraph;
use crate::composed::ComposedTextRun;
use crate::frame::ordered_by_position;
use crate::line_plan::cuts_of;
use crate::line_plan::cutting_notes;
use crate::line_plan::cutting_objects;
use crate::line_plan::lemma_cuts_in_order;
use crate::line_plan::lemma_marker_at;
use crate::line_plan::lemma_run_starts_ascend;
use crate::line_plan::line_fits;
use crate::line_plan::markers_at;
use crate::line_plan::notes_before;
use crate::line_plan::notes_in_order;
use crate::line_plan::place_of;
use crate::line_plan::run_fits;
use crate::line_plan::run_start;
use crate::line_plan::PlannedLine;
use crate::line_plan::RunPlan;
use crate::model::Paragraph;
use crate::runs::cuts_are_valid;
use crate::runs::cuts_of_pieces;
use crate::runs::drawn_in_run;
use crate::runs::equation_may_rise;
use crate::runs::exact_replay_eligible;
use crate::runs::highlight_in_run;
use crate::runs::is_field_marker_run;
use crate::runs::leading_spaces;
use crate::runs::lemma_cuts_up_to;
use crate::runs::lemma_document_char;
use crate::runs::lemma_text_of_pieces_push;
use crate::runs::lemma_text_up_to;
use crate::runs::note_is_prefix;
use crate::runs::notes_in_run;
use crate::runs::objects_in_run;
use crate::runs::objects_in_run_width;
use crate::runs::piece_replay_eligible;
use crate::runs::pieces_of_run;
use crate::runs::pieces_up_to;
use crate::runs::run_takes_end;
use crate::runs::spaces_before_content;
use crate::runs::text_of_pieces;
use crate::runs::trailing_budget;
use crate::runs::Highlight;
use crate::runs::RunPiece;
use crate::runs::RunPlace;
use crate::seqs::indices;
use crate::text::lemma_trailing_count;
use crate::text::occurrences;
use crate::width_plan::counted_objects;
use crate::width_plan::RunWidth;

verus! {

/// The runs of a line stand one behind the other: the first at the line's start, each other
/// where the one before ends, and each takes as many places as it has.
pub proof fn lemma_runs_stand_behind_each_other(
    comp: ComposedParagraph,
    at: PlannedLine,
    k: int,
)
    requires
        at.line_idx < comp.lines@.len(),
        0 <= k < comp.lines@[at.line_idx as int].runs@.len(),
        comp.lines@[at.line_idx as int].char_start + runs_units(
            comp.lines@[at.line_idx as int].runs@,
        ) <= usize::MAX,
    ensures
        place_of(comp, at, 0).start == comp.lines@[at.line_idx as int].char_start,
        k > 0 ==> place_of(comp, at, k - 1).end == place_of(comp, at, k).start,
        comp.lines@[at.line_idx as int].runs@[k].char_overlap is None ==> place_of(comp, at, k).end
            - place_of(comp, at, k).start == comp.lines@[at.line_idx as int].runs@[k].text@.len(),
        comp.lines@[at.line_idx as int].runs@[k].char_overlap matches Some(units) ==> place_of(
            comp,
            at,
            k,
        ).end - place_of(comp, at, k).start == units,
        place_of(comp, at, k).is_last_of_line <==> k == comp.lines@[at.line_idx as int].runs@.len()
            - 1,
        place_of(comp, at, k).line_idx == at.line_idx,
        place_of(comp, at, k).is_last_line_of_para == at.is_last_line_of_para,
{
    let line = comp.lines@[at.line_idx as int];
    assert(line.runs@.take(0).len() == 0);
    lemma_runs_units_prefix(line.runs@, k);
    lemma_run_starts_ascend(line, k, k + 1);
    lemma_run_starts_ascend(line, 0, k);
    if k > 0 {
        lemma_run_starts_ascend(line, k - 1, k);
    }
}

/// An object inside a run is drawn there, unless an empty line in front owns it; one in
/// front of the run or behind its end is not.
pub proof fn lemma_run_draws_what_stands_in_it(
    comp: ComposedParagraph,
    place: RunPlace,
    stored: bool,
    pos: int,
)
    ensures
        stored && place.start <= pos < place.end ==> drawn_in_run(comp, place, stored, pos),
        place.line_idx == 0 && place.start <= pos < place.end ==> drawn_in_run(
            comp,
            place,
            stored,
            pos,
        ),
        pos < place.start || pos > place.end ==> !drawn_in_run(comp, place, stored, pos),
        pos == place.end && !place.is_last_of_line ==> !drawn_in_run(comp, place, stored, pos),
        0 < place.line_idx < comp.lines@.len() && place.start <= pos < place.end && pos
            > comp.lines@[place.line_idx as int].char_start ==> drawn_in_run(
            comp,
            place,
            stored,
            pos,
        ),
{
}

/// An object right behind a line is drawn by its last run in the last line and in front of
/// a forced break, but not where the next line starts at its place.
pub proof fn lemma_object_behind_a_line(comp: ComposedParagraph, place: RunPlace)
    requires
        place.line_idx < comp.lines@.len(),
    ensures
        place.is_last_of_line && place.line_idx + 1 == comp.lines@.len()
            && place.is_last_line_of_para ==> run_takes_end(comp, place),
        place.is_last_of_line && comp.lines@[place.line_idx as int].has_line_break && (
        place.line_idx + 1 < comp.lines@.len() ==> comp.lines@[place.line_idx + 1].char_start
            != place.end) ==> run_takes_end(comp, place),
        !place.is_last_of_line ==> !run_takes_end(comp, place),
        place.line_idx + 1 < comp.lines@.len() && comp.lines@[place.line_idx + 1].char_start
            == place.end ==> !run_takes_end(comp, place),
        !place.is_last_line_of_para && !comp.lines@[place.line_idx as int].has_line_break
            ==> !run_takes_end(comp, place),
{
}

/// The objects of a run are those that it draws, at their place behind its start: each that
/// is drawn is there, and each that is there is drawn.
pub proof fn lemma_objects_keep_their_place<W>(
    comp: ComposedParagraph,
    offsets: Seq<(usize, W, usize)>,
    place: RunPlace,
    stored: bool,
    i: int,
    k: int,
) -> (j: int)
    requires
        0 <= i < offsets.len(),
        0 <= k < objects_in_run(comp, offsets, place, stored).len(),
    ensures
        drawn_in_run(comp, place, stored, offsets[i].0 as int) ==> objects_in_run(
            comp,
            offsets,
            place,
            stored,
        ).contains(((offsets[i].0 - place.start) as usize, offsets[i].1, offsets[i].2)),
        0 <= j < offsets.len(),
        drawn_in_run(comp, place, stored, offsets[j].0 as int),
        offsets[j].0 - place.start == objects_in_run(comp, offsets, place, stored)[k].0,
        offsets[j].1 == objects_in_run(comp, offsets, place, stored)[k].1,
        offsets[j].2 == objects_in_run(comp, offsets, place, stored)[k].2,
{
    let p = |t: (usize, W, usize)| drawn_in_run(comp, place, stored, t.0 as int);
    let shift = |t: (usize, W, usize)| ((t.0 - place.start) as usize, t.1, t.2);
    let kept = offsets.filter(p);
    let r = objects_in_run(comp, offsets, place, stored);
    assert(r == kept.map_values(shift));
    if p(offsets[i]) {
        offsets.lemma_filter_contains(p, i);
        let n = choose|n: int| 0 <= n < kept.len() && kept[n] == offsets[i];
        assert(r[n] == shift(offsets[i]));
    }
    assert(kept.contains(kept[k]));
    offsets.lemma_filter_contains_rev(p, kept[k]);
    choose|j: int| 0 <= j < offsets.len() && offsets[j] == kept[k]
}

/// An object inside a run counts toward its width, at its place; the last run counts those
/// right behind it too.
pub proof fn lemma_objects_count_at_their_place<W>(
    objects: Seq<(usize, W, usize)>,
    start: usize,
    end: usize,
    text_end: usize,
    i: int,
)
    requires
        0 <= i < objects.len(),
        start <= objects[i].0,
        objects[i].0 < end || (objects[i].0 == end && end >= text_end),
    ensures
        objects_in_run_width(objects, start, end, text_end).contains(
            ((objects[i].0 - start) as usize, objects[i].1, objects[i].2),
        ),
{
    let p = |t: (usize, W, usize)|
        crate::runs::in_run(t.0 as int, start as int, end as int, end >= text_end);
    let shift = |t: (usize, W, usize)| ((t.0 - start) as usize, t.1, t.2);
    let kept = objects.filter(p);
    objects.lemma_filter_contains(p, i);
    let k = choose|k: int| 0 <= k < kept.len() && kept[k] == objects[i];
    assert(objects_in_run_width(objects, start, end, text_end)[k] == shift(objects[i]));
}

/// A piece of text knows its place in the document: as far behind the run's start as in the
/// run, and one further for each cut in front of it where cuts take a place. No piece of
/// text is empty.
pub proof fn lemma_pieces_know_their_place(
    text: Seq<char>,
    cuts: Seq<usize>,
    char_offset: int,
    cuts_count: bool,
    marks_end: bool,
    i: int,
)
    requires
        cuts_are_valid(text.len() as int, cuts),
        0 <= char_offset,
        char_offset + text.len() + cuts.len() <= usize::MAX,
        0 <= i < pieces_of_run(
            text.len() as int,
            cuts,
            char_offset,
            cuts_count,
            marks_end,
        ).len(),
    ensures
        ({
            let pieces = pieces_of_run(
                text.len() as int,
                cuts,
                char_offset,
                cuts_count,
                marks_end,
            );
            let before = if cuts_count {
                cuts_of_pieces(pieces.take(i)).len() as int
            } else {
                0
            };
            pieces[i] matches RunPiece::Text { start, end, char_start } ==> start < end <= text.len()
                && char_start == char_offset + start + before
        }),
{
    let n = cuts.len() as int;
    let len = text.len() as int;
    let front = pieces_up_to(cuts, n, char_offset, cuts_count);
    let pieces = pieces_of_run(len, cuts, char_offset, cuts_count, marks_end);
    lemma_places_up_to(text, cuts, n, char_offset, cuts_count);
    if i < front.len() {
        assert(pieces[i] == front[i]);
        assert(pieces.take(i) == front.take(i));
    } else {
        assert(i == front.len());
        assert(pieces.take(i) == front);
        lemma_cuts_up_to(cuts, n, char_offset, cuts_count);
        lemma_document_char(len, cuts, n);
        if n > 0 {
            assert(cuts[n - 1] <= len);
        }
    }
}

proof fn lemma_places_up_to(
    text: Seq<char>,
    cuts: Seq<usize>,
    k: int,
    char_offset: int,
    cuts_count: bool,
)
    requires
        cuts_are_valid(text.len() as int, cuts),
        0 <= k <= cuts.len(),
        0 <= char_offset,
        char_offset + text.len() + cuts.len() <= usize::MAX,
    ensures
        forall|i: int|
            0 <= i < pieces_up_to(cuts, k, char_offset, cuts_count).len() ==> (
            #[trigger] pieces_up_to(cuts, k, char_offset, cuts_count)[i] matches RunPiece::Text {
                start,
                end,
                char_start,
            } ==> start < end <= text.len() && char_start == char_offset + start + if cuts_count {
                cuts_of_pieces(pieces_up_to(cuts, k, char_offset, cuts_count).take(i)).len() as int
            } else {
                0
            }),
    decreases k,
{
    if k > 0 {
        lemma_places_up_to(text, cuts, k - 1, char_offset, cuts_count);
        lemma_cuts_up_to(cuts, k - 1, char_offset, cuts_count);
        lemma_document_char(text.len() as int, cuts, k - 1);
        let before = pieces_up_to(cuts, k - 1, char_offset, cuts_count);
        let all = pieces_up_to(cuts, k, char_offset, cuts_count);
        assert(cuts[k - 1] <= text.len());
        if k > 1 {
            assert(cuts[k - 2] <= text.len());
        }
        assert forall|i: int| 0 <= i < all.len() implies (#[trigger] all[i] matches RunPiece::Text {
            start,
            end,
            char_start,
        } ==> start < end <= text.len() && char_start == char_offset + start + if cuts_count {
            cuts_of_pieces(all.take(i)).len() as int
        } else {
            0
        }) by {
            if i < before.len() {
                assert(all[i] == before[i]);
                assert(all.take(i) == before.take(i));
            } else if i == before.len() {
                assert(all.take(i) == before);
            }
        }
    }
}

/// A cut stands where it belongs: the text in front of cut `k` is the text up to its place.
pub proof fn lemma_cut_stands_at_its_place(
    text: Seq<char>,
    cuts: Seq<usize>,
    char_offset: int,
    cuts_count: bool,
    marks_end: bool,
    k: int,
)
    requires
        cuts_are_valid(text.len() as int, cuts),
        text.len() <= usize::MAX,
        0 <= k < cuts.len() <= usize::MAX,
    ensures
        exists|i: int|
            0 <= i < pieces_of_run(
                text.len() as int,
                cuts,
                char_offset,
                cuts_count,
                marks_end,
            ).len() && (#[trigger] pieces_of_run(
                text.len() as int,
                cuts,
                char_offset,
                cuts_count,
                marks_end,
            )[i]) == (RunPiece::Break { index: k as usize }) && text_of_pieces(
                pieces_of_run(
                    text.len() as int,
                    cuts,
                    char_offset,
                    cuts_count,
                    marks_end,
                ).take(i),
                text,
            ) == text.take(cuts[k] as int),
{
    let len = text.len() as int;
    let n = cuts.len() as int;
    let all = pieces_of_run(len, cuts, char_offset, cuts_count, marks_end);
    let upto = pieces_up_to(cuts, k + 1, char_offset, cuts_count);
    lemma_pieces_prefix(cuts, k + 1, n, char_offset, cuts_count);
    let i = upto.len() - 1;
    let front = pieces_up_to(cuts, n, char_offset, cuts_count);
    assert(front.take(upto.len() as int) == upto);
    assert(all[i] == front[i]);
    assert(front[i] == upto[i]);
    assert(all.take(i) == upto.drop_last()) by {
        assert forall|j: int| 0 <= j < i implies all[j] == upto[j] by {
            assert(front.take(upto.len() as int)[j] == front[j]);
        }
    }
    lemma_text_up_to(text, cuts, k + 1, char_offset, cuts_count);
    assert(upto.drop_last() + seq![upto.last()] == upto);
    lemma_text_of_pieces_push(upto.drop_last(), upto.last(), text);
    assert(text_of_pieces(upto.drop_last(), text) + Seq::<char>::empty() == text_of_pieces(
        upto.drop_last(),
        text,
    ));
}

proof fn lemma_pieces_prefix(
    cuts: Seq<usize>,
    k: int,
    n: int,
    char_offset: int,
    cuts_count: bool,
)
    requires
        0 <= k <= n <= cuts.len(),
    ensures
        pieces_up_to(cuts, k, char_offset, cuts_count).len() <= pieces_up_to(
            cuts,
            n,
            char_offset,
            cuts_count,
        ).len(),
        pieces_up_to(cuts, n, char_offset, cuts_count).take(
            pieces_up_to(cuts, k, char_offset, cuts_count).len() as int,
        ) == pieces_up_to(cuts, k, char_offset, cuts_count),
    decreases n,
{
    let own = pieces_up_to(cuts, k, char_offset, cuts_count);
    if k < n {
        lemma_pieces_prefix(cuts, k, n - 1, char_offset, cuts_count);
        let before = pieces_up_to(cuts, n - 1, char_offset, cuts_count);
        let all = pieces_up_to(cuts, n, char_offset, cuts_count);
        assert(all.take(own.len() as int) == before.take(own.len() as int));
    } else {
        assert(own.take(own.len() as int) == own);
    }
}

/// The paragraph's end is marked where no text is left behind the last object, once, and
/// only where that is asked for.
pub proof fn lemma_end_is_marked_behind_the_last_object(
    text: Seq<char>,
    cuts: Seq<usize>,
    char_offset: int,
    cuts_count: bool,
    marks_end: bool,
)
    requires
        cuts_are_valid(text.len() as int, cuts),
        cuts.len() > 0,
    ensures
        ({
            let pieces = pieces_of_run(
                text.len() as int,
                cuts,
                char_offset,
                cuts_count,
                marks_end,
            );
            &&& pieces.len() > 0
            &&& cuts.last() < text.len() ==> pieces.last() is Text
            &&& cuts.last() == text.len() && marks_end ==> pieces.last() is End
            &&& cuts.last() == text.len() && !marks_end ==> pieces.last() is Break
        }),
{
}

/// A run is drawn whole and knows its place: its text in order, behind the places of the
/// runs before it, with the end of the paragraph and of the line only at the last one.
pub proof fn lemma_run_is_drawn_in_its_place<W>(
    plan: RunPlan<W>,
    comp: ComposedParagraph,
    para: Option<&Paragraph>,
    offsets: Seq<(usize, W, usize)>,
    positions: Seq<usize>,
    at: PlannedLine,
    k: int,
)
    requires
        line_fits(comp, para, offsets, at),
        ordered_by_position(offsets),
        notes_in_order(comp.footnote_positions@),
        0 <= k < comp.lines@[at.line_idx as int].runs@.len(),
        plan.draws(comp, para, offsets, positions, at, k),
    ensures
        text_of_pieces(plan.pieces@, comp.lines@[at.line_idx as int].runs@[k].text@)
            == comp.lines@[at.line_idx as int].runs@[k].text@,
        plan.char_start == at.char_offset + runs_units(
            comp.lines@[at.line_idx as int].runs@.take(k),
        ),
        k == 0 ==> plan.char_start == at.char_offset,
        k + 1 < comp.lines@[at.line_idx as int].runs@.len() ==> !plan.is_para_end
            && !plan.is_line_break_end,
        k + 1 == comp.lines@[at.line_idx as int].runs@.len() ==> plan.is_para_end
            == at.is_last_line_of_para && plan.is_line_break_end
            == comp.lines@[at.line_idx as int].has_line_break,
        plan.objects@.len() > 0 ==> plan.notes@.len() == 0,
        plan.first_tab == occurrences(
            runs_text(comp.lines@[at.line_idx as int].runs@.take(k)),
            '\t',
        ),
{
    let text = comp.lines@[at.line_idx as int].runs@[k].text@;
    let cuts = cuts_of(comp, para, offsets, at, k);
    assert(run_fits(comp, para, offsets, at, k));
    assert(comp.lines@[at.line_idx as int].runs@.take(0).len() == 0);
    crate::composed::lemma_runs_text_prefix(comp.lines@[at.line_idx as int].runs@, k);
    if cuts.len() > 0 {
        lemma_cuts_in_order(comp, para, offsets, at, k);
        let by_objects = cutting_objects(comp, offsets, at, k).len() > 0;
        crate::runs::lemma_pieces_hold_the_text(
            text,
            cuts,
            crate::line_plan::run_char_start(comp, at, k),
            by_objects,
            by_objects && crate::line_plan::ends_para(comp, at, k),
        );
    } else {
        assert(plan.pieces@.drop_last().len() == 0);
        assert(text_of_pieces(plan.pieces@.drop_last(), text) == Seq::<char>::empty());
        assert(text.subrange(0, text.len() as int) == text);
        assert(Seq::<char>::empty() + text == text);
    }
}

/// A note inside a run is drawn there, unless it was drawn before or stands in front of the
/// paragraph already; in the last run of a line so is one right behind it.
pub proof fn lemma_notes_of_a_run(
    para: Option<&Paragraph>,
    notes: Seq<(usize, u16, usize)>,
    drawn: Seq<bool>,
    place: RunPlace,
    start_line: usize,
    line_char_start: usize,
    i: int,
)
    requires
        0 <= i < notes.len() <= usize::MAX,
        drawn.len() == notes.len(),
    ensures
        notes_in_run(para, notes, drawn, place, start_line, line_char_start).contains(i as usize)
            <==> !drawn[i] && !note_is_prefix(
            para,
            notes[i],
            place.line_idx,
            start_line,
            line_char_start,
        ) && place.start <= notes[i].0 && (notes[i].0 < place.end || (place.is_last_of_line
            && notes[i].0 == place.end)),
{
    let all = indices(notes.len());
    let p = |i: usize|
        !drawn[i as int] && !note_is_prefix(
            para,
            notes[i as int],
            place.line_idx,
            start_line,
            line_char_start,
        ) && crate::runs::in_run(
            notes[i as int].0 as int,
            place.start as int,
            place.end as int,
            place.is_last_of_line,
        );
    assert(all[i] == i as usize);
    if p(i as usize) {
        all.lemma_filter_contains(p, i);
    }
    if all.filter(p).contains(i as usize) {
        all.lemma_filter_contains_rev(p, i as usize);
    }
}

/// A note stands in front of the paragraph where it is an endnote at the very start of the
/// paragraph's first line; a footnote never does, nor does a note on a later line.
pub proof fn lemma_note_in_front_of_the_paragraph(
    para: &Paragraph,
    note: (usize, u16, usize),
    line_idx: usize,
    start_line: usize,
    line_char_start: usize,
)
    ensures
        line_idx > 0 || start_line > 0 || note.0 != line_char_start ==> !note_is_prefix(
            Some(para),
            note,
            line_idx,
            start_line,
            line_char_start,
        ),
        note.2 < para.controls@.len() && para.controls@[note.2 as int] is Footnote
            ==> !note_is_prefix(Some(para), note, line_idx, start_line, line_char_start),
        line_idx == 0 && start_line == 0 && note.0 == line_char_start && note.2
            < para.controls@.len() && para.controls@[note.2 as int] is Endnote ==> note_is_prefix(
            Some(para),
            note,
            line_idx,
            start_line,
            line_char_start,
        ),
{
}

/// No note inside a run that no object cuts is lost: it stands in front of the paragraph, or
/// that run or one before it draws it.
pub proof fn lemma_note_of_a_run_is_drawn<W>(
    comp: ComposedParagraph,
    para: Option<&Paragraph>,
    offsets: Seq<(usize, W, usize)>,
    at: PlannedLine,
    k: int,
    note: usize,
)
    requires
        comp.footnote_positions@.len() <= usize::MAX,
        note < comp.footnote_positions@.len(),
        0 <= k,
        cutting_objects(comp, offsets, at, k).len() == 0,
        place_of(comp, at, k).start <= comp.footnote_positions@[note as int].0 < place_of(
            comp,
            at,
            k,
        ).end,
        !note_is_prefix(
            para,
            comp.footnote_positions@[note as int],
            at.line_idx,
            at.start_line,
            comp.lines@[at.line_idx as int].char_start,
        ),
    ensures
        exists|j: int|
            0 <= j <= k && #[trigger] cutting_notes(comp, para, offsets, at, j).contains(note),
{
    let notes = comp.footnote_positions@;
    let drawn = notes_before(comp, para, offsets, at, k);
    lemma_notes_before_len(comp, para, offsets, at, k);
    if drawn[note as int] {
        lemma_drawn_note_was_drawn(comp, para, offsets, at, k, note);
        let j = choose|j: int|
            0 <= j < k && #[trigger] cutting_notes(comp, para, offsets, at, j).contains(note);
        assert(cutting_notes(comp, para, offsets, at, j).contains(note));
    } else {
        lemma_notes_of_a_run(
            para,
            notes,
            drawn,
            place_of(comp, at, k),
            at.start_line,
            comp.lines@[at.line_idx as int].char_start,
            note as int,
        );
        assert(cutting_notes(comp, para, offsets, at, k).contains(note));
    }
}

proof fn lemma_notes_before_len<W>(
    comp: ComposedParagraph,
    para: Option<&Paragraph>,
    offsets: Seq<(usize, W, usize)>,
    at: PlannedLine,
    k: int,
)
    ensures
        notes_before(comp, para, offsets, at, k).len() == comp.footnote_positions@.len(),
    decreases k,
{
    if k > 0 {
        lemma_notes_before_len(comp, para, offsets, at, k - 1);
    }
}

proof fn lemma_drawn_note_was_drawn<W>(
    comp: ComposedParagraph,
    para: Option<&Paragraph>,
    offsets: Seq<(usize, W, usize)>,
    at: PlannedLine,
    k: int,
    note: usize,
)
    requires
        comp.footnote_positions@.len() <= usize::MAX,
        note < comp.footnote_positions@.len(),
        0 <= k,
        notes_before(comp, para, offsets, at, k)[note as int],
        !note_is_prefix(
            para,
            comp.footnote_positions@[note as int],
            at.line_idx,
            at.start_line,
            comp.lines@[at.line_idx as int].char_start,
        ),
    ensures
        exists|j: int|
            0 <= j < k && #[trigger] cutting_notes(comp, para, offsets, at, j).contains(note),
    decreases k,
{
    let before = notes_before(comp, para, offsets, at, k - 1);
    lemma_notes_before_len(comp, para, offsets, at, k - 1);
    if k > 0 {
        if before[note as int] {
            lemma_drawn_note_was_drawn(comp, para, offsets, at, k - 1, note);
            let j = choose|j: int|
                0 <= j < k - 1 && #[trigger] cutting_notes(comp, para, offsets, at, j).contains(
                    note,
                );
            assert(cutting_notes(comp, para, offsets, at, j).contains(note));
        } else {
            lemma_notes_of_a_run(
                para,
                comp.footnote_positions@,
                before,
                place_of(comp, at, k - 1),
                at.start_line,
                comp.lines@[at.line_idx as int].char_start,
                note as int,
            );
            assert(cutting_notes(comp, para, offsets, at, k - 1).contains(note));
        }
    }
}

/// A mark stands in front of the first run that starts at its place or behind it; one behind
/// all starts stands behind the last run.
pub proof fn lemma_mark_stands_in_front_of_its_run(
    line: ComposedLine,
    positions: Seq<usize>,
    k: int,
    i: int,
)
    requires
        line.char_start + runs_units(line.runs@) <= usize::MAX,
        0 <= k <= line.runs@.len(),
        0 <= i < positions.len() <= usize::MAX,
    ensures
        markers_at(line, positions, k).contains(i as usize) <==> (k > 0 ==> line.char_start
            + runs_units(line.runs@.take(k - 1)) < positions[i]) && (k < line.runs@.len()
            ==> positions[i] <= line.char_start + runs_units(line.runs@.take(k))),
{
    lemma_marker_at(line, positions, k, i);
}

/// A run whose characters are set on top of each other counts neither objects nor notes nor
/// text; any other counts its text whole.
pub proof fn lemma_width_of_a_run<W>(
    width: RunWidth<W>,
    comp: ComposedParagraph,
    para: Option<&Paragraph>,
    objects: Seq<(usize, W, usize)>,
    line_idx: usize,
    start_line: usize,
    k: int,
)
    requires
        width.estimates(comp, para, objects, line_idx, start_line, k),
        line_idx < comp.lines@.len(),
        0 <= k < comp.lines@[line_idx as int].runs@.len(),
        comp.lines@[line_idx as int].runs@[k].text@.len() <= usize::MAX,
    ensures
        width.is_overlap <==> comp.lines@[line_idx as int].runs@[k].char_overlap is Some,
        width.is_overlap ==> width.objects@.len() == 0 && width.pieces@.len() == 0
            && width.notes@.len() == 0 && !width.measures_display,
        !width.is_overlap && width.objects@.len() == 0 ==> text_of_pieces(
            width.pieces@,
            comp.lines@[line_idx as int].runs@[k].text@,
        ) == comp.lines@[line_idx as int].runs@[k].text@,
        !width.is_overlap && width.objects@.len() == 0 ==> (width.measures_display
            <==> comp.lines@[line_idx as int].runs@[k].display_text is Some),
        width.first_tab == occurrences(
            runs_text(comp.lines@[line_idx as int].runs@.take(k)),
            '\t',
        ),
{
    let text = comp.lines@[line_idx as int].runs@[k].text@;
    let cuts = crate::width_plan::width_cuts(comp.lines@[line_idx as int], objects, k);
    if !width.is_overlap && width.objects@.len() == 0 {
        assert(cuts.len() == 0);
        crate::runs::lemma_pieces_hold_the_text(text, cuts, 0, false, false);
    }
}

/// The spaces at the end of a line that take no free width are those that it ends in, as far
/// as they may count.
pub proof fn lemma_spaces_without_free_width(runs: Seq<ComposedTextRun>, limit: usize, i: int)
    ensures
        0 <= trailing_budget(runs, limit) <= limit,
        runs_display(runs).len() - trailing_budget(runs, limit) <= i < runs_display(runs).len()
            ==> runs_display(runs)[i] == ' ',
        trailing_budget(runs, limit) < limit && trailing_budget(runs, limit) < runs_display(
            runs,
        ).len() ==> runs_display(runs)[runs_display(runs).len() - 1 - trailing_budget(runs, limit)]
            != ' ',
{
    lemma_trailing_count(runs_display(runs), ' ');
}

/// A place of a run is marked in a colour just where the tag covers it, in the colour that
/// the tag names.
pub proof fn lemma_highlighted_places(
    tag: u32,
    tag_start: usize,
    tag_end: usize,
    run_start: usize,
    run_end: usize,
    place: usize,
    r: Option<Highlight>,
)
    requires
        call_ensures(highlight_in_run, (tag, tag_start, tag_end, run_start, run_end), r),
        run_start <= place < run_end,
    ensures
        0x200_0000 <= tag < 0x300_0000 ==> (tag_start <= place < tag_end <==> r is Some
            && r->0.start <= place - run_start < r->0.end),
        tag < 0x200_0000 || tag >= 0x300_0000 ==> r is None,
        r matches Some(h) ==> h.start < h.end <= run_end - run_start && h.color + 0x200_0000 == tag,
{
}

/// A run is drawn with exact positions only where nothing stands in it or at its edges, it
/// holds no tab or line end, and its characters are not on top of each other.
pub proof fn lemma_exact_positions(
    run: &ComposedTextRun,
    start: usize,
    end: usize,
    objects: &[(usize, u32, usize)],
    notes: &[(usize, u16, usize)],
    i: int,
    r: bool,
)
    requires
        call_ensures(exact_replay_eligible::<u32>, (run, start, end, objects, notes), r),
    ensures
        run.char_overlap is Some ==> !r,
        0 <= i < run.text@.len() && (run.text@[i] == '\t' || run.text@[i] == '\n' || run.text@[i]
            == '\r') ==> !r,
        0 <= i < objects@.len() && start <= objects@[i].0 <= end ==> !r,
        0 <= i < notes@.len() && start <= notes@[i].0 <= end ==> !r,
        run.char_overlap is None && objects@.len() == 0 && notes@.len() == 0 && (forall|k: int|
            0 <= k < run.text@.len() ==> #[trigger] run.text@[k] != '\t' && run.text@[k] != '\n'
                && run.text@[k] != '\r') ==> r,
{
    if 0 <= i < run.text@.len() {
        assert(run.text@.contains(run.text@[i]));
    }
    if 0 <= i < objects@.len() && start <= objects@[i].0 <= end {
        assert(crate::runs::touches(objects@[i].0 as int, start as int, end as int));
    }
    if 0 <= i < notes@.len() && start <= notes@[i].0 <= end {
        assert(crate::runs::touches(notes@[i].0 as int, start as int, end as int));
    }
}

/// A piece is drawn with exact positions unless its run's characters are on top of each
/// other or it holds a tab or a line end.
pub proof fn lemma_exact_piece(run: &ComposedTextRun, piece: &str, i: int, r: bool)
    requires
        call_ensures(piece_replay_eligible, (run, piece), r),
    ensures
        run.char_overlap is Some ==> !r,
        0 <= i < piece@.len() && (piece@[i] == '\t' || piece@[i] == '\n' || piece@[i] == '\r')
            ==> !r,
        run.char_overlap is None && piece@.len() == 0 ==> r,
{
    if 0 <= i < piece@.len() {
        assert(piece@.contains(piece@[i]));
    }
}

/// A run is a field's mark where it is one character of that kind and has a value to show.
pub proof fn lemma_mark_of_a_value(run: &ComposedTextRun, r: bool)
    requires
        call_ensures(is_field_marker_run, (run,), r),
    ensures
        run.display_text is None || run.text@.len() != 1 ==> !r,
        r ==> 0x15 <= run.text@[0] as u32 <= 0x17 || run.text@[0] == '\u{2007}',
        run.display_text is Some && run.text@.len() == 1 && run.text@[0] == '\u{2007}' ==> r,
        run.display_text is Some && run.text@.len() == 1 && run.text@[0] == '\u{15}' ==> r,
        run.display_text is Some && run.text@.len() == 1 && run.text@[0] == '\u{16}' ==> r,
        run.display_text is Some && run.text@.len() == 1 && run.text@[0] == '\u{17}' ==> r,
{
}

/// The spaces in front of a run's content: all characters up to there are spaces, and the
/// next is none. A run of spaces alone has no content.
pub proof fn lemma_spaces_in_front(chars: &[char], i: int, r: Option<usize>)
    requires
        call_ensures(spaces_before_content, (chars,), r),
        chars@.len() <= usize::MAX,
    ensures
        r matches Some(n) ==> 0 < n < chars@.len() && chars@[n as int] != ' ' && (0 <= i < n
            ==> chars@[i] == ' '),
        chars@.len() > 0 && chars@[0] != ' ' ==> r is None,
        (forall|k: int| 0 <= k < chars@.len() ==> #[trigger] chars@[k] == ' ') ==> r is None,
{
    lemma_leading_spaces(chars@);
}

proof fn lemma_leading_spaces(text: Seq<char>)
    ensures
        leading_spaces(text) <= text.len(),
        forall|i: int| 0 <= i < leading_spaces(text) ==> #[trigger] text[i] == ' ',
        leading_spaces(text) < text.len() ==> text[leading_spaces(text) as int] != ' ',
    decreases text.len(),
{
    if text.len() > 0 && text[0] == ' ' {
        let rest = text.drop_first();
        lemma_leading_spaces(rest);
        assert forall|i: int| 0 <= i < leading_spaces(text) implies #[trigger] text[i] == ' ' by {
            if i > 0 {
                assert(rest[i - 1] == ' ');
            }
        }
    }
}

/// An equation may rise above its line only outside of cells, beside nothing that shows.
pub proof fn lemma_equation_that_rises(
    in_cell: bool,
    runs: &[ComposedTextRun],
    i: int,
    j: int,
    r: bool,
)
    requires
        call_ensures(equation_may_rise, (in_cell, runs), r),
    ensures
        in_cell ==> !r,
        0 <= i < runs@.len() && 0 <= j < runs@[i].text@.len() && runs@[i].text@[j] as u32 >= 0x20
            && runs@[i].text@[j] != '\u{FFFC}' ==> !r,
        !in_cell && runs@.len() == 0 ==> r,
{
}

/// An object counts toward the width of the run that holds its place, and of no other; one
/// right behind a run counts where the run reaches the end of the line's text.
pub proof fn lemma_object_counts_in_its_run<W>(
    line: ComposedLine,
    objects: Seq<(usize, W, usize)>,
    k: int,
    i: int,
)
    requires
        line.char_start + runs_units(line.runs@) <= usize::MAX,
        runs_text(line.runs@).len() + line.char_start <= usize::MAX,
        0 <= k < line.runs@.len(),
        line.runs@[k].char_overlap is None,
        0 <= i < objects.len(),
        forall|j: int|
            0 <= j < objects.len() && (#[trigger] objects[j]).2 == objects[i].2 ==> j == i,
    ensures
        (exists|n: int|
            0 <= n < counted_objects(line, objects, k).len() && (#[trigger] counted_objects(
                line,
                objects,
                k,
            )[n]).2 == objects[i].2) <==> line.char_start + runs_units(line.runs@.take(k))
            <= objects[i].0 && (objects[i].0 < line.char_start + runs_units(line.runs@.take(k + 1))
            || (objects[i].0 == line.char_start + runs_units(line.runs@.take(k + 1))
            && line.char_start + runs_units(line.runs@.take(k + 1)) >= line.char_start + runs_text(
            line.runs@,
        ).len())),
{
    let start = run_start(line, k) as usize;
    let end = run_start(line, k + 1) as usize;
    let text_end = line.text_end() as usize;
    lemma_run_starts_ascend(line, k, k + 1);
    let p = |t: (usize, W, usize)|
        crate::runs::in_run(t.0 as int, start as int, end as int, end >= text_end);
    let shift = |t: (usize, W, usize)| ((t.0 - start) as usize, t.1, t.2);
    let kept = objects.filter(p);
    let r = counted_objects(line, objects, k);
    assert(r == kept.map_values(shift));
    if p(objects[i]) {
        objects.lemma_filter_contains(p, i);
        let n = choose|n: int| 0 <= n < kept.len() && kept[n] == objects[i];
        assert(r[n] == shift(objects[i]));
        assert(r[n].2 == objects[i].2);
    }
    if exists|n: int| 0 <= n < r.len() && (#[trigger] r[n]).2 == objects[i].2 {
        let n = choose|n: int| 0 <= n < r.len() && (#[trigger] r[n]).2 == objects[i].2;
        assert(kept.contains(kept[n]));
        objects.lemma_filter_contains_rev(p, kept[n]);
        let j = choose|j: int| 0 <= j < objects.len() && objects[j] == kept[n];
        assert(objects[j].2 == objects[i].2);
    }
}

} // verus!
