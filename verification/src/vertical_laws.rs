//! What the columns of vertical text promise: they show the text of the cell, whole and in
//! reading order.

use vstd::prelude::*;

use crate::composed::runs_text;
use crate::composed::ComposedLine;
use crate::composed::ComposedParagraph;
use crate::composed::ComposedTextRun;
use crate::model::Paragraph;
use crate::seqs::indices;
use crate::seqs::lemma_filter_start;
use crate::seqs::lemma_filter_step;
use crate::vertical::cell_chars;
use crate::vertical::cell_columns;
use crate::vertical::char_at;
use crate::vertical::clusters_are_chars;
use crate::vertical::is_upright_text;
use crate::vertical::keeps_place;
use crate::vertical::lines_chars;
use crate::vertical::lines_len;
use crate::vertical::para_chars;
use crate::vertical::para_columns;
use crate::vertical::run_chars;
use crate::vertical::runs_chars;
use crate::vertical::shaped_node_count;
use crate::vertical::shaped_node_id;
use crate::vertical::vertical_glyph;
use crate::vertical::vertical_turn;
use crate::vertical::VerticalChar;
use crate::vertical::VerticalColumn;
use crate::vertical::VerticalTurn;

verus! {

/// The text of lines, one behind the other.
pub open spec fn text_of_lines(lines: Seq<ComposedLine>) -> Seq<char>
    decreases lines.len(),
{
    if lines.len() == 0 {
        Seq::empty()
    } else {
        text_of_lines(lines.drop_last()) + runs_text(lines.last().runs@)
    }
}

/// The characters are those of the text, in reading order, without its line ends; each
/// knows its place in a paragraph in which the text starts at `base`.
pub open spec fn shows_text(chars: Seq<VerticalChar>, text: Seq<char>, base: int) -> bool {
    &&& chars.map_values(|c: VerticalChar| c.ch) == text.filter(
        |c: char| c != '\n' && c != '\r',
    )
    &&& forall|i: int, j: int|
        0 <= i < j < chars.len() ==> (#[trigger] chars[i]).char_offset < (
        #[trigger] chars[j]).char_offset
    &&& forall|i: int|
        0 <= i < chars.len() ==> base <= (#[trigger] chars[i]).char_offset < base + text.len()
            && text[chars[i].char_offset - base] == chars[i].ch
}

proof fn lemma_shows_text_adds_up(
    a: Seq<VerticalChar>,
    b: Seq<VerticalChar>,
    s: Seq<char>,
    t: Seq<char>,
    base: int,
)
    requires
        shows_text(a, s, base),
        shows_text(b, t, base + s.len()),
    ensures
        shows_text(a + b, s + t, base),
{
    let f = |c: VerticalChar| c.ch;
    let p = |c: char| c != '\n' && c != '\r';
    Seq::filter_distributes_over_add(s, t, p);
    assert((a + b).map_values(f) == a.map_values(f) + b.map_values(f));
}

proof fn lemma_run_chars_up_to(
    run: ComposedTextRun,
    text: Seq<char>,
    para_style_id: u16,
    para: usize,
    offset: int,
    n: int,
)
    requires
        0 <= offset,
        offset + text.len() <= usize::MAX,
        0 <= n <= text.len(),
    ensures
        shows_text(
            indices(text.len()).take(n).filter(keeps_place(text)).map_values(
                char_at(run, text, para_style_id, para, offset),
            ),
            text.take(n),
            offset,
        ),
    decreases n,
{
    let all = indices(text.len());
    let keeps = keeps_place(text);
    let f = char_at(run, text, para_style_id, para, offset);
    let p = |c: char| c != '\n' && c != '\r';
    let ch = |c: VerticalChar| c.ch;
    let done = all.take(n).filter(keeps);
    if n == 0 {
        lemma_filter_start(all, keeps);
        lemma_filter_start(text, p);
        assert(done.map_values(f).map_values(ch) == Seq::<char>::empty());
    } else {
        lemma_run_chars_up_to(run, text, para_style_id, para, offset, n - 1);
        lemma_filter_step(all, keeps, n - 1);
        lemma_filter_step(text, p, n - 1);
        let before = all.take(n - 1).filter(keeps);
        if keeps(all[n - 1]) {
            assert(done.map_values(f) == before.map_values(f).push(f(all[n - 1])));
            assert(done.map_values(f).map_values(ch) == before.map_values(f).map_values(ch).push(
                text[n - 1],
            ));
        }
        let shown = before.map_values(f);
        assert forall|i: int| 0 <= i < shown.len() implies offset <= (
        #[trigger] shown[i]).char_offset < offset + n && text.take(n)[shown[i].char_offset - offset]
            == shown[i].ch by {
            assert(text.take(n - 1)[shown[i].char_offset - offset] == shown[i].ch);
        }
    }
}

proof fn lemma_run_chars_show_text(
    run: ComposedTextRun,
    text: Seq<char>,
    para_style_id: u16,
    para: usize,
    offset: int,
)
    requires
        0 <= offset,
        offset + text.len() <= usize::MAX,
    ensures
        shows_text(run_chars(run, text, para_style_id, para, offset), text, offset),
{
    lemma_run_chars_up_to(run, text, para_style_id, para, offset, text.len() as int);
    assert(indices(text.len()).take(text.len() as int) == indices(text.len()));
    assert(text.take(text.len() as int) == text);
}

/// The characters of a line show the texts of its runs, one behind the other.
pub proof fn lemma_line_shows_its_text(
    runs: Seq<ComposedTextRun>,
    para_style_id: u16,
    para: usize,
    offset: int,
)
    requires
        0 <= offset,
        offset + runs_text(runs).len() <= usize::MAX,
    ensures
        shows_text(runs_chars(runs, para_style_id, para, offset), runs_text(runs), offset),
    decreases runs.len(),
{
    if runs.len() == 0 {
        lemma_nothing_shows_nothing(offset);
    } else {
        let before = runs.drop_last();
        let last = runs.last();
        let at = offset + runs_text(before).len();
        lemma_line_shows_its_text(before, para_style_id, para, offset);
        lemma_run_chars_show_text(last, last.text@, para_style_id, para, at);
        lemma_shows_text_adds_up(
            runs_chars(before, para_style_id, para, offset),
            run_chars(last, last.text@, para_style_id, para, at),
            runs_text(before),
            last.text@,
            offset,
        );
    }
}

proof fn lemma_nothing_shows_nothing(base: int)
    ensures
        shows_text(Seq::empty(), Seq::empty(), base),
{
    let p = |c: char| c != '\n' && c != '\r';
    reveal(Seq::filter);
    assert(Seq::<VerticalChar>::empty().map_values(|c: VerticalChar| c.ch) == Seq::<char>::empty());
    assert(Seq::<char>::empty().filter(p) == Seq::<char>::empty());
}

proof fn lemma_lines_show_their_text(
    lines: Seq<ComposedLine>,
    n: int,
    para_style_id: u16,
    para: usize,
)
    requires
        0 <= n <= lines.len(),
        text_of_lines(lines.take(n)).len() <= usize::MAX,
    ensures
        shows_text(lines_chars(lines, n, para_style_id, para), text_of_lines(lines.take(n)), 0),
        lines_len(lines, n) == text_of_lines(lines.take(n)).len(),
    decreases n,
{
    if n == 0 {
        lemma_nothing_shows_nothing(0);
        assert(lines.take(0).len() == 0);
    } else {
        assert(lines.take(n).drop_last() == lines.take(n - 1));
        assert(lines.take(n).last() == lines[n - 1]);
        lemma_lines_show_their_text(lines, n - 1, para_style_id, para);
        let at = lines_len(lines, n - 1);
        let own = runs_text(lines[n - 1].runs@);
        lemma_line_shows_its_text(lines[n - 1].runs@, para_style_id, para, at);
        lemma_shows_text_adds_up(
            lines_chars(lines, n - 1, para_style_id, para),
            runs_chars(lines[n - 1].runs@, para_style_id, para, at),
            text_of_lines(lines.take(n - 1)),
            own,
            0,
        );
    }
}

/// The characters of a paragraph, in order, are the texts of its lines and runs put
/// together without line ends. Their places ascend strictly, and each is the paragraph's
/// character at its place.
pub proof fn lemma_paragraph_shows_its_text(comp: ComposedParagraph, para: usize)
    requires
        text_of_lines(comp.lines@).len() <= usize::MAX,
    ensures
        para_chars(comp, para).map_values(|c: VerticalChar| c.ch) == text_of_lines(
            comp.lines@,
        ).filter(|c: char| c != '\n' && c != '\r'),
        forall|i: int, j: int|
            0 <= i < j < para_chars(comp, para).len() ==> (#[trigger] para_chars(
                comp,
                para,
            )[i]).char_offset < (#[trigger] para_chars(comp, para)[j]).char_offset,
        forall|i: int|
            0 <= i < para_chars(comp, para).len() ==> (#[trigger] para_chars(
                comp,
                para,
            )[i]).char_offset < text_of_lines(comp.lines@).len() && text_of_lines(
                comp.lines@,
            )[para_chars(comp, para)[i].char_offset as int] == para_chars(comp, para)[i].ch,
{
    let n = comp.lines@.len() as int;
    assert(comp.lines@.take(n) == comp.lines@);
    lemma_lines_show_their_text(comp.lines@, n, comp.para_style_id, para);
    let plain = lines_chars(comp.lines@, n, comp.para_style_id, para);
    let own = para_chars(comp, para);
    let ch = |c: VerticalChar| c.ch;
    assert(own.map_values(ch) == plain.map_values(ch));
    assert forall|i: int| 0 <= i < own.len() implies (#[trigger] own[i]).char_offset
        == plain[i].char_offset && own[i].ch == plain[i].ch by {}
}

/// Every character of a paragraph that is no line end stands in a column.
pub proof fn lemma_no_character_is_left_out(comp: ComposedParagraph, para: usize, at: int)
    requires
        text_of_lines(comp.lines@).len() <= usize::MAX,
        0 <= at < text_of_lines(comp.lines@).len(),
        text_of_lines(comp.lines@)[at] != '\n',
        text_of_lines(comp.lines@)[at] != '\r',
    ensures
        exists|i: int|
            0 <= i < para_chars(comp, para).len() && (#[trigger] para_chars(
                comp,
                para,
            )[i]).char_offset == at && para_chars(comp, para)[i].ch == text_of_lines(
                comp.lines@,
            )[at],
{
    lemma_paragraph_shows_its_text(comp, para);
    lemma_place_is_shown(para_chars(comp, para), text_of_lines(comp.lines@), at);
}

/// A place with a character that counts is among places that ascend and hold them all.
proof fn lemma_place_is_shown(chars: Seq<VerticalChar>, text: Seq<char>, at: int)
    requires
        shows_text(chars, text, 0),
        0 <= at < text.len(),
        text[at] != '\n',
        text[at] != '\r',
    ensures
        exists|i: int| 0 <= i < chars.len() && (#[trigger] chars[i]).char_offset == at,
    decreases text.len(),
{
    let p = |c: char| c != '\n' && c != '\r';
    let ch = |c: VerticalChar| c.ch;
    let last = text.len() - 1;
    let shorter = text.take(last);
    crate::seqs::lemma_filter_last(text, p);
    assert(text.drop_last() == shorter);
    let kept = text.filter(p);
    assert(chars.map_values(ch).len() == kept.len());
    if p(text.last()) {
        assert(kept.len() > 0);
        let end = chars.len() - 1;
        assert(chars.map_values(ch).len() == chars.len());
        // The shown places ascend, and all characters but the last come from the shorter
        // text, so the last shown one stands at the last place.
        lemma_last_place_is_shown(chars, text, last);
        let rest = chars.drop_last();
        assert(rest.map_values(ch) == chars.map_values(ch).drop_last());
        assert(rest.map_values(ch) == shorter.filter(p));
        assert forall|i: int| 0 <= i < rest.len() implies 0 <= (#[trigger] rest[i]).char_offset
            < shorter.len() && shorter[rest[i].char_offset as int] == rest[i].ch by {
            assert(chars[i].char_offset < chars[end].char_offset);
        }
        assert(shows_text(rest, shorter, 0));
        if at == last {
            assert(chars[end].char_offset == at);
        } else {
            lemma_place_is_shown(rest, shorter, at);
            let i = choose|i: int|
                0 <= i < rest.len() && (#[trigger] rest[i]).char_offset == at;
            assert(chars[i].char_offset == at);
        }
    } else {
        assert forall|i: int| 0 <= i < chars.len() implies 0 <= (#[trigger] chars[i]).char_offset
            < shorter.len() && shorter[chars[i].char_offset as int] == chars[i].ch by {
            if chars[i].char_offset == last {
                assert(chars.map_values(ch)[i] == text[last]);
                text.lemma_filter_pred(p, i);
            }
        }
        assert(shows_text(chars, shorter, 0));
        lemma_place_is_shown(chars, shorter, at);
    }
}

/// There are no more ascending places of characters that count in front of `n` than the
/// text keeps there.
proof fn lemma_places_in_front(chars: Seq<VerticalChar>, text: Seq<char>, n: int)
    requires
        0 <= n <= text.len(),
        forall|i: int, j: int|
            0 <= i < j < chars.len() ==> (#[trigger] chars[i]).char_offset < (
            #[trigger] chars[j]).char_offset,
        forall|i: int|
            0 <= i < chars.len() ==> (#[trigger] chars[i]).char_offset < n
                && text[chars[i].char_offset as int] != '\n' && text[chars[i].char_offset as int]
                != '\r',
    ensures
        chars.len() <= text.take(n).filter(|c: char| c != '\n' && c != '\r').len(),
    decreases n,
{
    let p = |c: char| c != '\n' && c != '\r';
    if n == 0 {
        if chars.len() > 0 {
            assert(chars[0].char_offset < 0);
        }
    } else {
        lemma_filter_step(text, p, n - 1);
        if chars.len() > 0 && chars.last().char_offset == n - 1 {
            let rest = chars.drop_last();
            let end = chars.len() - 1;
            assert(p(text[n - 1])) by {
                assert(chars[end].char_offset == n - 1);
            }
            assert forall|i: int| 0 <= i < rest.len() implies (#[trigger] rest[i]).char_offset < n
                - 1 && text[rest[i].char_offset as int] != '\n' && text[rest[i].char_offset as int]
                != '\r' by {
                assert(chars[i].char_offset < chars[end].char_offset);
            }
            lemma_places_in_front(rest, text, n - 1);
        } else {
            assert forall|i: int| 0 <= i < chars.len() implies (#[trigger] chars[i]).char_offset < n
                - 1 by {
                let end = chars.len() - 1;
                assert(chars[end] == chars.last());
                if i < end {
                    assert(chars[i].char_offset < chars[end].char_offset);
                }
            }
            lemma_places_in_front(chars, text, n - 1);
        }
    }
}

proof fn lemma_last_place_is_shown(chars: Seq<VerticalChar>, text: Seq<char>, last: int)
    requires
        shows_text(chars, text, 0),
        last == text.len() - 1,
        0 <= last,
        text[last] != '\n',
        text[last] != '\r',
        chars.len() > 0,
    ensures
        chars.last().char_offset == last,
{
    let p = |c: char| c != '\n' && c != '\r';
    let ch = |c: VerticalChar| c.ch;
    let end = chars.len() - 1;
    assert(chars[end].char_offset < text.len());
    if chars[end].char_offset != last {
        assert forall|i: int| 0 <= i < chars.len() implies (#[trigger] chars[i]).char_offset < last
            && text[chars[i].char_offset as int] != '\n' && text[chars[i].char_offset as int]
            != '\r' by {
            if i < end {
                assert(chars[i].char_offset < chars[end].char_offset);
            }
            assert(chars.map_values(ch)[i] == chars[i].ch);
            text.lemma_filter_pred(p, i);
        }
        lemma_places_in_front(chars, text, last);
        crate::seqs::lemma_filter_last(text, p);
        assert(text.drop_last() == text.take(last));
        assert(chars.map_values(ch).len() == chars.len());
    }
}

/// The characters of a cell come paragraph by paragraph, those of each in the order of its
/// text.
pub proof fn lemma_cell_is_read_in_order(comps: Seq<ComposedParagraph>, n: int, i: int, j: int)
    requires
        0 <= n <= comps.len() <= usize::MAX,
        0 <= i < j < cell_chars(comps, n).len(),
        forall|k: int|
            0 <= k < n ==> text_of_lines((#[trigger] comps[k]).lines@).len() <= usize::MAX,
    ensures
        cell_chars(comps, n)[i].cell_para_index <= cell_chars(comps, n)[j].cell_para_index < n,
        cell_chars(comps, n)[i].cell_para_index == cell_chars(comps, n)[j].cell_para_index
            ==> cell_chars(comps, n)[i].char_offset < cell_chars(comps, n)[j].char_offset,
    decreases n,
{
    if n > 0 {
        let before = cell_chars(comps, n - 1);
        let own = para_chars(comps[n - 1], (n - 1) as usize);
        let all = cell_chars(comps, n);
        lemma_paragraph_shows_its_text(comps[n - 1], (n - 1) as usize);
        if j < before.len() {
            lemma_cell_is_read_in_order(comps, n - 1, i, j);
        } else {
            crate::vertical::lemma_one_end_per_paragraph(
                comps[n - 1],
                (n - 1) as usize,
                j - before.len(),
            );
            assert(all[j] == own[j - before.len()]);
            if i < before.len() {
                lemma_cell_char_is_of_its_paragraph(comps, n - 1, i);
                assert(all[i] == before[i]);
            } else {
                crate::vertical::lemma_one_end_per_paragraph(
                    comps[n - 1],
                    (n - 1) as usize,
                    i - before.len(),
                );
                assert(all[i] == own[i - before.len()]);
            }
        }
    }
}

/// A character of a cell is the one at its place in the paragraph that it names.
pub proof fn lemma_cell_char_is_of_its_paragraph(comps: Seq<ComposedParagraph>, n: int, i: int)
    requires
        0 <= n <= comps.len() <= usize::MAX,
        0 <= i < cell_chars(comps, n).len(),
        forall|k: int|
            0 <= k < n ==> text_of_lines((#[trigger] comps[k]).lines@).len() <= usize::MAX,
    ensures
        ({
            let c = cell_chars(comps, n)[i];
            let text = text_of_lines(comps[c.cell_para_index as int].lines@);
            &&& c.cell_para_index < n
            &&& c.char_offset < text.len()
            &&& text[c.char_offset as int] == c.ch
        }),
    decreases n,
{
    if n > 0 {
        let before = cell_chars(comps, n - 1);
        let own = para_chars(comps[n - 1], (n - 1) as usize);
        if i < before.len() {
            lemma_cell_char_is_of_its_paragraph(comps, n - 1, i);
            assert(cell_chars(comps, n)[i] == before[i]);
        } else {
            lemma_paragraph_shows_its_text(comps[n - 1], (n - 1) as usize);
            crate::vertical::lemma_one_end_per_paragraph(
                comps[n - 1],
                (n - 1) as usize,
                i - before.len(),
            );
            assert(cell_chars(comps, n)[i] == own[i - before.len()]);
        }
    }
}

/// No visible character of a cell's paragraphs is left out.
pub proof fn lemma_cell_leaves_nothing_out(
    comps: Seq<ComposedParagraph>,
    n: int,
    para: int,
    at: int,
)
    requires
        0 <= para < n <= comps.len() <= usize::MAX,
        text_of_lines(comps[para].lines@).len() <= usize::MAX,
        0 <= at < text_of_lines(comps[para].lines@).len(),
        text_of_lines(comps[para].lines@)[at] != '\n',
        text_of_lines(comps[para].lines@)[at] != '\r',
    ensures
        exists|i: int|
            0 <= i < cell_chars(comps, n).len() && (#[trigger] cell_chars(
                comps,
                n,
            )[i]).cell_para_index == para && cell_chars(comps, n)[i].char_offset == at,
    decreases n,
{
    let before = cell_chars(comps, n - 1);
    let own = para_chars(comps[n - 1], (n - 1) as usize);
    let all = cell_chars(comps, n);
    if para < n - 1 {
        lemma_cell_leaves_nothing_out(comps, n - 1, para, at);
        let i = choose|i: int|
            0 <= i < before.len() && (#[trigger] before[i]).cell_para_index == para
                && before[i].char_offset == at;
        assert(all[i] == before[i]);
    } else {
        lemma_no_character_is_left_out(comps[para], para as usize, at);
        let i = choose|i: int| 0 <= i < own.len() && (#[trigger] own[i]).char_offset == at;
        crate::vertical::lemma_one_end_per_paragraph(comps[para], para as usize, i);
        assert(all[before.len() + i] == own[i]);
    }
}

/// The characters of two rows of runs are those of the first and then those of the second,
/// which go on where the first end.
pub proof fn lemma_runs_follow_each_other(
    a: Seq<ComposedTextRun>,
    b: Seq<ComposedTextRun>,
    para_style_id: u16,
    para: usize,
    offset: int,
)
    ensures
        runs_chars(a + b, para_style_id, para, offset) == runs_chars(
            a,
            para_style_id,
            para,
            offset,
        ) + runs_chars(b, para_style_id, para, offset + runs_text(a).len()),
    decreases b.len(),
{
    if b.len() == 0 {
        assert(a + b == a);
        assert(runs_chars(a, para_style_id, para, offset) + Seq::<VerticalChar>::empty()
            == runs_chars(a, para_style_id, para, offset));
    } else {
        lemma_runs_follow_each_other(a, b.drop_last(), para_style_id, para, offset);
        crate::composed_laws::lemma_runs_text_adds_up(a, b.drop_last());
        assert((a + b).drop_last() == a + b.drop_last());
        assert((a + b).last() == b.last());
        let at = offset + runs_text(a).len();
        let own = run_chars(
            b.last(),
            b.last().text@,
            para_style_id,
            para,
            at + runs_text(b.drop_last()).len(),
        );
        assert(runs_chars(a, para_style_id, para, offset) + (runs_chars(
            b.drop_last(),
            para_style_id,
            para,
            at,
        ) + own) == (runs_chars(a, para_style_id, para, offset) + runs_chars(
            b.drop_last(),
            para_style_id,
            para,
            at,
        )) + own);
    }
}

/// A character has the style of its run and of its paragraph.
pub proof fn lemma_characters_keep_their_style(
    run: ComposedTextRun,
    para_style_id: u16,
    para: usize,
    offset: int,
    i: int,
)
    requires
        0 <= i < runs_chars(seq![run], para_style_id, para, offset).len(),
    ensures
        ({
            let c = runs_chars(seq![run], para_style_id, para, offset)[i];
            &&& c.char_style_id == run.char_style_id
            &&& c.lang_index == run.lang_index
            &&& c.para_style_id == para_style_id
            &&& c.cell_para_index == para
            &&& !c.is_para_end
        }),
{
    reveal_with_fuel(runs_chars, 2);
    assert(seq![run].drop_last().len() == 0);
}

proof fn lemma_lines_chars_prefix(
    lines: Seq<ComposedLine>,
    k: int,
    n: int,
    para_style_id: u16,
    para: usize,
)
    requires
        0 <= k <= n <= lines.len(),
    ensures
        lines_chars(lines, k, para_style_id, para).len() <= lines_chars(
            lines,
            n,
            para_style_id,
            para,
        ).len(),
        lines_chars(lines, k, para_style_id, para) == lines_chars(
            lines,
            n,
            para_style_id,
            para,
        ).take(lines_chars(lines, k, para_style_id, para).len() as int),
    decreases n,
{
    let own = lines_chars(lines, k, para_style_id, para);
    if k < n {
        lemma_lines_chars_prefix(lines, k, n - 1, para_style_id, para);
        let before = lines_chars(lines, n - 1, para_style_id, para);
        let all = lines_chars(lines, n, para_style_id, para);
        assert(all.take(own.len() as int) == before.take(own.len() as int));
    } else {
        assert(own.take(own.len() as int) == own);
    }
}

/// Each line has a column of its own that shows the text of the line; a paragraph without
/// lines has one empty column. A column is as wide as the file says of its line.
pub proof fn lemma_column_shows_its_line(
    comp: ComposedParagraph,
    source: Option<Paragraph>,
    para: usize,
    base: int,
    line: int,
)
    requires
        text_of_lines(comp.lines@).len() <= usize::MAX,
        0 <= base,
        base + para_chars(comp, para).len() <= usize::MAX,
        0 <= line < comp.lines@.len(),
    ensures
        para_columns(comp, source, para, base).len() == comp.lines@.len(),
        ({
            let column = para_columns(comp, source, para, base)[line];
            &&& base <= column.start <= column.end <= base + para_chars(comp, para).len()
            &&& para_chars(comp, para).subrange(column.start - base, column.end - base).map_values(
                |c: VerticalChar| c.ch,
            ) == runs_text(comp.lines@[line].runs@).filter(|c: char| c != '\n' && c != '\r')
            &&& column.para_style_id == comp.para_style_id
            &&& source is Some && line < source->0.line_segs@.len() ==> column.stored == Some(
                (
                    source->0.line_segs@[line].line_height,
                    source->0.line_segs@[line].line_spacing,
                ),
            )
            &&& source is None || line >= source->0.line_segs@.len() ==> column.stored is None
        }),
{
    let lines = comp.lines@;
    let style = comp.para_style_id;
    let n = lines.len() as int;
    let column = para_columns(comp, source, para, base)[line];
    let ch = |c: VerticalChar| c.ch;
    let start = lines_chars(lines, line, style, para).len() as int;
    let next = lines_chars(lines, line + 1, style, para);
    let all = lines_chars(lines, n, style, para);
    let own = para_chars(comp, para);
    lemma_lines_chars_prefix(lines, line, line + 1, style, para);
    lemma_lines_chars_prefix(lines, line + 1, n, style, para);
    assert(own.len() == all.len());
    let at = lines_len(lines, line);
    let shown = runs_chars(lines[line].runs@, style, para, at);
    assert(next == lines_chars(lines, line, style, para) + shown);
    assert(lines.take(n) == lines);
    lemma_text_of_lines_grows(lines, line + 1);
    lemma_lines_show_their_text(lines, line, style, para);
    assert(lines.take(line + 1).drop_last() == lines.take(line));
    lemma_line_shows_its_text(lines[line].runs@, style, para, at);
    assert forall|i: int| 0 <= i < shown.len() implies own[start + i].ch == #[trigger] shown[i].ch by {
        assert(next[start + i] == shown[i]);
        assert(all.take(next.len() as int)[start + i] == all[start + i]);
    }
    assert(own.subrange(column.start - base, column.end - base).map_values(ch)
        == shown.map_values(ch));
}

proof fn lemma_text_of_lines_grows(lines: Seq<ComposedLine>, k: int)
    requires
        0 <= k <= lines.len(),
    ensures
        text_of_lines(lines.take(k)).len() <= text_of_lines(lines).len(),
        k > 0 ==> text_of_lines(lines.take(k)).len() == text_of_lines(lines.take(k - 1)).len()
            + runs_text(lines[k - 1].runs@).len(),
    decreases lines.len(),
{
    if k > 0 {
        assert(lines.take(k).drop_last() == lines.take(k - 1));
        assert(lines.take(k).last() == lines[k - 1]);
    }
    if k == lines.len() {
        assert(lines.take(k) == lines);
    } else {
        lemma_text_of_lines_grows(lines.drop_last(), k);
        assert(lines.drop_last().take(k) == lines.take(k));
    }
}

/// The columns of a cell follow its paragraphs: those of one more paragraph come behind all
/// others, one for each of its lines, or one where it has none.
pub proof fn lemma_columns_follow_the_paragraphs(
    comps: Seq<ComposedParagraph>,
    paras: Seq<Paragraph>,
    n: int,
    line: int,
)
    requires
        0 < n <= comps.len(),
        0 <= line < comps[n - 1].lines@.len() || line == 0,
    ensures
        cell_columns(comps, paras, 0).len() == 0,
        cell_columns(comps, paras, n).len() - cell_columns(comps, paras, n - 1).len() == if comps[n
            - 1].lines@.len() == 0 {
            1int
        } else {
            comps[n - 1].lines@.len() as int
        },
        cell_columns(comps, paras, n - 1) == cell_columns(comps, paras, n).take(
            cell_columns(comps, paras, n - 1).len() as int,
        ),
        cell_columns(comps, paras, n)[cell_columns(comps, paras, n - 1).len() + line]
            == para_columns(
            comps[n - 1],
            if n <= paras.len() {
                Some(paras[n - 1])
            } else {
                None
            },
            (n - 1) as usize,
            cell_chars(comps, n - 1).len() as int,
        )[line],
{
    let before = cell_columns(comps, paras, n - 1);
    assert(cell_columns(comps, paras, n).take(before.len() as int) == before);
}

/// The last column of a cell does without the spacing behind its line; any other has it.
pub proof fn lemma_last_column_has_no_spacing(
    column: VerticalColumn,
    inner: Option<i64>,
    last: Option<i64>,
)
    requires
        call_ensures(VerticalColumn::stored_width, (&column, false), inner),
        call_ensures(VerticalColumn::stored_width, (&column, true), last),
    ensures
        column.stored is None <==> inner is None,
        column.stored is None <==> last is None,
        column.stored matches Some((height, spacing)) ==> last->0 == height && inner->0 - last->0
            == spacing,
{
}

/// A character that lies in any vertical text is turned; Latin letters are turned only in
/// text that asks for it, and East Asian ones never for that.
pub proof fn lemma_turned_characters(
    ch: char,
    rotates: bool,
    is_wide: bool,
    direction: u8,
    turn: VerticalTurn,
)
    requires
        call_ensures(vertical_turn, (ch, rotates, is_wide, direction), turn),
    ensures
        rotates ==> turn.needs_rotation,
        !rotates && is_wide ==> !turn.needs_rotation && !turn.half_advance,
        !rotates && direction != 1 ==> !turn.needs_rotation,
        !is_wide && direction == 1 ==> turn.needs_rotation,
        turn.needs_rotation ==> turn.half_advance,
        !turn.needs_rotation && ('0' as u32 <= ch as u32 <= '9' as u32 || 'A' as u32 <= ch as u32
            <= 'Z' as u32 || 'a' as u32 <= ch as u32 <= 'z' as u32) ==> !turn.half_advance,
        !is_wide && (ch as u32) < '0' as u32 ==> turn.half_advance,
        !is_wide && (ch as u32) > 'z' as u32 ==> turn.half_advance,
{
}

/// A turned character with a vertical form is drawn as that form and not turned; what is
/// not turned is drawn as it is.
pub proof fn lemma_vertical_forms(
    ch: char,
    needs_rotation: bool,
    substitute: Option<char>,
    r: (char, bool),
)
    requires
        call_ensures(vertical_glyph, (ch, needs_rotation, substitute), r),
    ensures
        !needs_rotation ==> r == (ch, false),
        needs_rotation && substitute is Some ==> r == (substitute->0, false),
        needs_rotation && substitute is None ==> r == (ch, true),
{
}

/// Hangul syllables and common Chinese characters are upright; one Latin letter, digit or
/// space is enough for a text not to be.
pub proof fn lemma_upright_text(text: &str, i: int, r: bool)
    requires
        call_ensures(is_upright_text, (text,), r),
    ensures
        (forall|k: int|
            #![trigger text@[k]]
            0 <= k < text@.len() ==> 0xac00 <= text@[k] as u32 <= 0xd7a3 || 0x4e00 <= text@[k] as u32
                <= 0x9fff) ==> r,
        0 <= i < text@.len() && (text@[i] as u32) < 0x1100 ==> !r,
        0 <= i < text@.len() && 0x3000 <= text@[i] as u32 <= 0x312f ==> !r,
        0 <= i < text@.len() && (text@[i] as u32) > 0xfaff ==> !r,
{
}

/// The nodes of a shaped column are numbered one behind the other: its line, then its
/// glyphs, and as many as were counted.
pub proof fn lemma_shaped_nodes_are_numbered(
    glyphs: usize,
    first: u32,
    index: usize,
    count: Option<u32>,
    own: Option<u32>,
    next: Option<u32>,
)
    requires
        index < usize::MAX,
        call_ensures(shaped_node_count, (glyphs,), count),
        call_ensures(shaped_node_id, (first, index), own),
        call_ensures(shaped_node_id, (first, (index + 1) as usize), next),
    ensures
        count matches Some(n) ==> n == glyphs + 1,
        glyphs < u32::MAX ==> count is Some,
        own matches Some(id) ==> id > first && id - first == index + 1,
        next matches Some(id) ==> own is Some && id == own->0 + 1,
        count matches Some(n) && index < glyphs && first + n - 1 <= u32::MAX ==> own is Some,
{
}

/// The clusters of shaped glyphs are the characters just where they cover the text's bytes
/// one behind the other, each as many as its character takes.
pub proof fn lemma_clusters_cover_the_bytes(
    ranges: &[(usize, usize)],
    text: &str,
    i: int,
    r: bool,
)
    requires
        call_ensures(clusters_are_chars, (ranges, text), r),
        r,
        0 <= i < ranges@.len(),
    ensures
        ranges@.len() == text@.len(),
        ranges@[0].0 == 0,
        i + 1 < ranges@.len() ==> ranges@[i].1 == ranges@[i + 1].0,
        ranges@[i].1 - ranges@[i].0 == if (text@[i] as u32) < 0x80 {
            1int
        } else if (text@[i] as u32) < 0x800 {
            2
        } else if (text@[i] as u32) < 0x10000 {
            3
        } else {
            4
        },
{
    assert(ranges@[0].0 == crate::vertical::utf8_start(text@, 0));
    if i + 1 < ranges@.len() {
        assert(ranges@[i + 1].0 == crate::vertical::utf8_start(text@, i + 1));
    }
}

} // verus!
