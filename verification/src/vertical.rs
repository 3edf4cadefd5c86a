//! Vertical text of a cell: its characters and the columns that they stand in.

use vstd::prelude::*;

use crate::composed::runs_text;
use crate::composed::ComposedLine;
use crate::composed::ComposedParagraph;
use crate::composed::ComposedTextRun;
use crate::model::LineSeg;
use crate::model::Paragraph;
use crate::seqs::indices;
use crate::seqs::lemma_filter_start;
use crate::seqs::lemma_filter_step;
use crate::text::chars_of;

verus! {

/// A character of vertical text.
#[derive(Clone, Copy, Debug, PartialEq, Eq, Structural)]
pub struct VerticalChar {
    pub ch: char,
    pub char_style_id: u32,
    pub lang_index: usize,
    pub para_style_id: u16,
    /// The paragraph of the cell that the character is in, and its place there.
    pub cell_para_index: usize,
    pub char_offset: usize,
    pub is_para_end: bool,
}

/// A column of vertical text: its characters, from the first up to the second number,
/// and the stored height and spacing of its line, in HWPUNIT.
#[derive(Clone, Copy, Debug, PartialEq, Eq)]
pub struct VerticalColumn {
    pub start: usize,
    pub end: usize,
    pub para_style_id: u16,
    pub stored: Option<(i32, i32)>,
}

impl VerticalColumn {
    /// The stored width of the column, in HWPUNIT: its line with the spacing behind it,
    /// which the last column of a cell does without.
    pub fn stored_width(&self, is_last: bool) -> (r: Option<i64>)
        ensures
            r == (match self.stored {
                Some((height, spacing)) => Some(
                    if is_last {
                        height as i64
                    } else {
                        (height + spacing) as i64
                    },
                ),
                None => None,
            }),
    {
        match self.stored {
            Some((height, spacing)) => if is_last {
                Some(height as i64)
            } else {
                Some(height as i64 + spacing as i64)
            },
            None => None,
        }
    }
}

/// The vertical text of a cell.
#[derive(Clone, Debug, Default)]
pub struct VerticalText {
    pub chars: Vec<VerticalChar>,
    pub columns: Vec<VerticalColumn>,
}

/// Line ends take no place in a column.
pub open spec fn is_line_end(c: char) -> bool {
    c == '\n' || c == '\r'
}

/// The places of a text that hold no line end.
pub open spec fn keeps_place(text: Seq<char>) -> spec_fn(usize) -> bool {
    |i: usize| !is_line_end(text[i as int])
}

/// The character at a place of a run's text.
pub open spec fn char_at(
    run: ComposedTextRun,
    text: Seq<char>,
    para_style_id: u16,
    para: usize,
    offset: int,
) -> spec_fn(usize) -> VerticalChar {
    |i: usize|
        VerticalChar {
            ch: text[i as int],
            char_style_id: run.char_style_id,
            lang_index: run.lang_index,
            para_style_id,
            cell_para_index: para,
            char_offset: (offset + i) as usize,
            is_para_end: false,
        }
}

/// The characters of a run, from place `offset` of the paragraph on.
pub open spec fn run_chars(
    run: ComposedTextRun,
    text: Seq<char>,
    para_style_id: u16,
    para: usize,
    offset: int,
) -> Seq<VerticalChar> {
    indices(text.len()).filter(keeps_place(text)).map_values(
        char_at(run, text, para_style_id, para, offset),
    )
}

/// The characters of the runs of a line.
pub open spec fn runs_chars(
    runs: Seq<ComposedTextRun>,
    para_style_id: u16,
    para: usize,
    offset: int,
) -> Seq<VerticalChar>
    decreases runs.len(),
{
    if runs.len() == 0 {
        Seq::empty()
    } else {
        runs_chars(runs.drop_last(), para_style_id, para, offset) + run_chars(
            runs.last(),
            runs.last().text@,
            para_style_id,
            para,
            offset + runs_text(runs.drop_last()).len(),
        )
    }
}

/// The length of the text of the first `n` lines.
pub open spec fn lines_len(lines: Seq<ComposedLine>, n: int) -> int
    decreases n,
{
    if n <= 0 {
        0
    } else {
        lines_len(lines, n - 1) + lines[n - 1].text().len()
    }
}

/// The characters of the first `n` lines of a paragraph.
pub open spec fn lines_chars(
    lines: Seq<ComposedLine>,
    n: int,
    para_style_id: u16,
    para: usize,
) -> Seq<VerticalChar>
    decreases n,
{
    if n <= 0 {
        Seq::empty()
    } else {
        lines_chars(lines, n - 1, para_style_id, para) + runs_chars(
            lines[n - 1].runs@,
            para_style_id,
            para,
            lines_len(lines, n - 1),
        )
    }
}

/// The characters with the last marked as the end of its paragraph.
pub open spec fn end_marked(chars: Seq<VerticalChar>) -> Seq<VerticalChar> {
    if chars.len() == 0 {
        chars
    } else {
        chars.update(
            chars.len() - 1,
            VerticalChar { is_para_end: true, ..chars.last() },
        )
    }
}

/// The characters of a paragraph.
pub open spec fn para_chars(comp: ComposedParagraph, para: usize) -> Seq<VerticalChar> {
    end_marked(lines_chars(comp.lines@, comp.lines@.len() as int, comp.para_style_id, para))
}

/// The stored height and spacing of a line.
pub open spec fn stored_metrics(para: Option<Paragraph>, line: int) -> Option<(i32, i32)> {
    match para {
        Some(p) => if line < p.line_segs@.len() {
            Some((p.line_segs@[line].line_height, p.line_segs@[line].line_spacing))
        } else {
            None
        },
        None => None,
    }
}

/// Column `line` of a paragraph whose characters start at `base`.
pub open spec fn para_column(
    comp: ComposedParagraph,
    source: Option<Paragraph>,
    para: usize,
    base: int,
    line: int,
) -> VerticalColumn {
    let before = lines_chars(comp.lines@, line, comp.para_style_id, para).len();
    let after = if line < comp.lines@.len() {
        lines_chars(comp.lines@, line + 1, comp.para_style_id, para).len()
    } else {
        before
    };
    VerticalColumn {
        start: (base + before) as usize,
        end: (base + after) as usize,
        para_style_id: comp.para_style_id,
        stored: stored_metrics(source, line),
    }
}

/// The columns of a paragraph: one for each line, and one for a paragraph without any.
pub open spec fn para_columns(
    comp: ComposedParagraph,
    source: Option<Paragraph>,
    para: usize,
    base: int,
) -> Seq<VerticalColumn> {
    Seq::new(
        if comp.lines@.len() == 0 {
            1
        } else {
            comp.lines@.len()
        },
        |line: int| para_column(comp, source, para, base, line),
    )
}

/// The source of paragraph `k` of a cell.
pub open spec fn source_of(paras: Seq<Paragraph>, k: int) -> Option<Paragraph> {
    if k < paras.len() {
        Some(paras[k])
    } else {
        None
    }
}

/// The characters of the first `n` paragraphs of a cell.
pub open spec fn cell_chars(comps: Seq<ComposedParagraph>, n: int) -> Seq<VerticalChar>
    decreases n,
{
    if n <= 0 {
        Seq::empty()
    } else {
        cell_chars(comps, n - 1) + para_chars(comps[n - 1], (n - 1) as usize)
    }
}

/// The columns of the first `n` paragraphs of a cell.
pub open spec fn cell_columns(comps: Seq<ComposedParagraph>, paras: Seq<Paragraph>, n: int) -> Seq<
    VerticalColumn,
>
    decreases n,
{
    if n <= 0 {
        Seq::empty()
    } else {
        cell_columns(comps, paras, n - 1) + para_columns(
            comps[n - 1],
            source_of(paras, n - 1),
            (n - 1) as usize,
            cell_chars(comps, n - 1).len() as int,
        )
    }
}

/// The places of a paragraph's characters are machine integers.
pub open spec fn places_fit(comp: ComposedParagraph) -> bool {
    lines_len(comp.lines@, comp.lines@.len() as int) <= usize::MAX
}

proof fn lemma_lines_len_grows(lines: Seq<ComposedLine>, n: int, m: int)
    requires
        0 <= n <= m <= lines.len(),
    ensures
        0 <= lines_len(lines, n) <= lines_len(lines, m),
    decreases m,
{
    if n < m {
        lemma_lines_len_grows(lines, n, m - 1);
    } else if n > 0 {
        lemma_lines_len_grows(lines, n - 1, n - 1);
    }
}

/// Appends the characters of a run.
fn push_run_chars(
    chars: &mut Vec<VerticalChar>,
    run: &ComposedTextRun,
    para_style_id: u16,
    para: usize,
    offset: usize,
)
    requires
        offset + run.text@.len() <= usize::MAX,
    ensures
        final(chars)@ == old(chars)@ + run_chars(
            *run,
            run.text@,
            para_style_id,
            para,
            offset as int,
        ),
{
    let text = chars_of(run.text.as_str());
    let ghost before = chars@;
    let ghost all = indices(run.text@.len());
    let ghost p = keeps_place(run.text@);
    let ghost f = char_at(*run, run.text@, para_style_id, para, offset as int);
    proof {
        lemma_filter_start(all, p);
        assert(chars@ == before + all.take(0).filter(p).map_values(f));
    }
    for i in 0..text.len()
        invariant
            text@ == run.text@,
            offset + run.text@.len() <= usize::MAX,
            all == indices(run.text@.len()),
            p == keeps_place(run.text@),
            f == char_at(*run, run.text@, para_style_id, para, offset as int),
            chars@ == before + all.take(i as int).filter(p).map_values(f),
    {
        let ghost done = all.take(i as int).filter(p);
        proof {
            lemma_filter_step(all, p, i as int);
        }
        if text[i] != '\n' && text[i] != '\r' {
            let own = VerticalChar {
                ch: text[i],
                char_style_id: run.char_style_id,
                lang_index: run.lang_index,
                para_style_id,
                cell_para_index: para,
                char_offset: offset + i,
                is_para_end: false,
            };
            chars.push(own);
            assert(p(i));
            assert(f(i) == own);
            assert(done.push(i).map_values(f) == done.map_values(f).push(own));
        }
    }
    assert(all.take(all.len() as int) == all);
}

/// Appends the characters of a line and returns the length of its text.
fn push_line_chars(
    chars: &mut Vec<VerticalChar>,
    line: &ComposedLine,
    para_style_id: u16,
    para: usize,
    offset: usize,
) -> (len: usize)
    requires
        offset + line.text().len() <= usize::MAX,
    ensures
        final(chars)@ == old(chars)@ + runs_chars(
            line.runs@,
            para_style_id,
            para,
            offset as int,
        ),
        len == line.text().len(),
{
    let ghost before = chars@;
    assert(before == old(chars)@);
    let mut len: usize = 0;
    assert(line.runs@.take(0) == Seq::<ComposedTextRun>::empty());
    for i in 0..line.runs.len()
        invariant
            offset + line.text().len() <= usize::MAX,
            before == old(chars)@,
            len == runs_text(line.runs@.take(i as int)).len(),
            chars@ == before + runs_chars(
                line.runs@.take(i as int),
                para_style_id,
                para,
                offset as int,
            ),
    {
        proof {
            crate::composed::lemma_runs_text_prefix(line.runs@, i as int);
        }
        assert(line.runs@.take(i + 1).drop_last() == line.runs@.take(i as int));
        push_run_chars(chars, &line.runs[i], para_style_id, para, offset + len);
        len += line.runs[i].text.as_str().unicode_len();
    }
    assert(line.runs@.take(line.runs@.len() as int) == line.runs@);
    len
}

/// The characters belong to the paragraph; none ends it, and none is a line end.
pub open spec fn plain_in(chars: Seq<VerticalChar>, para: usize) -> bool {
    forall|i: int|
        0 <= i < chars.len() ==> (#[trigger] chars[i]).cell_para_index == para
            && !chars[i].is_para_end && !is_line_end(chars[i].ch)
}

proof fn lemma_run_chars_plain(
    run: ComposedTextRun,
    text: Seq<char>,
    para_style_id: u16,
    para: usize,
    offset: int,
)
    ensures
        plain_in(run_chars(run, text, para_style_id, para, offset), para),
{
    let kept = indices(text.len()).filter(keeps_place(text));
    assert forall|i: int| 0 <= i < kept.len() implies !is_line_end(text[#[trigger] kept[i] as int]) by {
        assert(kept.contains(kept[i]));
        indices(text.len()).lemma_filter_contains_rev(keeps_place(text), kept[i]);
    }
}

proof fn lemma_runs_chars_plain(
    runs: Seq<ComposedTextRun>,
    para_style_id: u16,
    para: usize,
    offset: int,
)
    ensures
        plain_in(runs_chars(runs, para_style_id, para, offset), para),
    decreases runs.len(),
{
    if runs.len() > 0 {
        lemma_runs_chars_plain(runs.drop_last(), para_style_id, para, offset);
        lemma_run_chars_plain(
            runs.last(),
            runs.last().text@,
            para_style_id,
            para,
            offset + runs_text(runs.drop_last()).len(),
        );
    }
}

proof fn lemma_lines_chars_plain(lines: Seq<ComposedLine>, n: int, para_style_id: u16, para: usize)
    ensures
        plain_in(lines_chars(lines, n, para_style_id, para), para),
    decreases n,
{
    if n > 0 {
        lemma_lines_chars_plain(lines, n - 1, para_style_id, para);
        lemma_runs_chars_plain(lines[n - 1].runs@, para_style_id, para, lines_len(lines, n - 1));
    }
}

fn metrics_of(paras: &[Paragraph], para: usize, line: usize) -> (r: Option<(i32, i32)>)
    ensures
        r == stored_metrics(source_of(paras@, para as int), line as int),
{
    if para < paras.len() && line < paras[para].line_segs.len() {
        let seg: &LineSeg = &paras[para].line_segs[line];
        Some((seg.line_height, seg.line_spacing))
    } else {
        None
    }
}

/// Appends the characters and the columns of a paragraph.
fn push_para(text: &mut VerticalText, comp: &ComposedParagraph, paras: &[Paragraph], para: usize)
    requires
        places_fit(*comp),
    ensures
        final(text).chars@ == old(text).chars@ + para_chars(*comp, para),
        final(text).columns@ == old(text).columns@ + para_columns(
            *comp,
            source_of(paras@, para as int),
            para,
            old(text).chars@.len() as int,
        ),
{
    let ghost source = source_of(paras@, para as int);
    let ghost chars = text.chars@;
    let ghost columns = text.columns@;
    let ghost base = chars.len() as int;
    let ghost style = comp.para_style_id;
    assert(chars == old(text).chars@ && columns == old(text).columns@);
    let base_len: usize = text.chars.len();
    if comp.lines.len() == 0 {
        text.columns.push(
            VerticalColumn {
                start: base_len,
                end: base_len,
                para_style_id: comp.para_style_id,
                stored: metrics_of(paras, para, 0),
            },
        );
        assert(para_columns(*comp, source, para, base) == seq![
            para_column(*comp, source, para, base, 0),
        ]);
        assert(text.columns@ == columns + para_columns(*comp, source, para, base));
        assert(text.chars@ == chars + para_chars(*comp, para));
        return;
    }
    let mut offset: usize = 0;
    for line in 0..comp.lines.len()
        invariant
            places_fit(*comp),
            source == source_of(paras@, para as int),
            base == chars.len(),
            style == comp.para_style_id,
            chars == old(text).chars@,
            columns == old(text).columns@,
            offset == lines_len(comp.lines@, line as int),
            text.chars@ == chars + lines_chars(comp.lines@, line as int, style, para),
            text.columns@ == columns + Seq::new(
                line as nat,
                |k: int| para_column(*comp, source, para, base, k),
            ),
    {
        proof {
            lemma_lines_len_grows(comp.lines@, line + 1, comp.lines@.len() as int);
        }
        let start: usize = text.chars.len();
        let len: usize = push_line_chars(
            &mut text.chars,
            &comp.lines[line],
            comp.para_style_id,
            para,
            offset,
        );
        assert(text.chars@ == chars + lines_chars(comp.lines@, line + 1, style, para));
        let end: usize = text.chars.len();
        text.columns.push(
            VerticalColumn {
                start,
                end,
                para_style_id: comp.para_style_id,
                stored: metrics_of(paras, para, line),
            },
        );
        assert(text.columns@ == columns + Seq::new(
            (line + 1) as nat,
            |k: int| para_column(*comp, source, para, base, k),
        ));
        offset += len;
    }
    let ghost own = lines_chars(comp.lines@, comp.lines@.len() as int, style, para);
    let n: usize = text.chars.len();
    if n > base_len {
        let mut last: VerticalChar = text.chars[n - 1];
        last.is_para_end = true;
        text.chars.set(n - 1, last);
    }
    assert(text.chars@ == chars + end_marked(own));
    assert(text.columns@ == columns + para_columns(*comp, source, para, base));
}

/// The characters and the columns of the vertical text of a cell. `comps` are its
/// composed paragraphs, `paras` their sources.
pub fn vertical_text(comps: &[ComposedParagraph], paras: &[Paragraph]) -> (text: VerticalText)
    requires
        forall|k: int| 0 <= k < comps@.len() ==> places_fit(#[trigger] comps@[k]),
    ensures
        text.chars@ == cell_chars(comps@, comps@.len() as int),
        text.columns@ == cell_columns(comps@, paras@, comps@.len() as int),
{
    let mut text = VerticalText { chars: Vec::new(), columns: Vec::new() };
    for k in 0..comps.len()
        invariant
            forall|k: int| 0 <= k < comps@.len() ==> places_fit(#[trigger] comps@[k]),
            text.chars@ == cell_chars(comps@, k as int),
            text.columns@ == cell_columns(comps@, paras@, k as int),
    {
        assert(places_fit(comps@[k as int]));
        push_para(&mut text, &comps[k], paras, k);
    }
    text
}

/// The columns stand side by side and hold all characters: each starts where the one
/// before ends.
pub open spec fn columns_tile(columns: Seq<VerticalColumn>, len: int) -> bool {
    &&& columns.len() > 0 ==> columns[0].start == 0 && columns.last().end == len
    &&& columns.len() == 0 ==> len == 0
    &&& forall|i: int|
        0 <= i < columns.len() - 1 ==> (#[trigger] columns[i]).end == columns[i + 1].start
    &&& forall|i: int|
        0 <= i < columns.len() ==> (#[trigger] columns[i]).start <= columns[i].end
}

/// Every character of a cell's vertical text stands in one column, in order.
#[verifier::rlimit(60)]
pub proof fn lemma_columns_hold_the_text(
    comps: Seq<ComposedParagraph>,
    paras: Seq<Paragraph>,
    n: int,
)
    requires
        0 <= n <= comps.len(),
        cell_chars(comps, n).len() <= usize::MAX,
    ensures
        columns_tile(cell_columns(comps, paras, n), cell_chars(comps, n).len() as int),
    decreases n,
{
    if n > 0 {
        let p = (n - 1) as usize;
        let comp = comps[n - 1];
        let base = cell_chars(comps, n - 1).len() as int;
        let own = para_columns(comp, source_of(paras, n - 1), p, base);
        let before = cell_columns(comps, paras, n - 1);
        let all = cell_columns(comps, paras, n);
        lemma_columns_hold_the_text(comps, paras, n - 1);
        let count = comp.lines@.len() as int;
        assert forall|k: int| 0 <= k <= count implies base + (#[trigger] lines_chars(
            comp.lines@,
            k,
            comp.para_style_id,
            p,
        )).len() <= usize::MAX by {
            lemma_chars_grow(comp.lines@, k, count, comp.para_style_id, p);
        }
        assert forall|k: int| 0 <= k < own.len() implies (#[trigger] own[k]).start <= own[k].end
            && own[k] == para_column(comp, source_of(paras, n - 1), p, base, k) by {
            assert(base + lines_chars(comp.lines@, k, comp.para_style_id, p).len() <= usize::MAX);
            if k < count {
                lemma_chars_grow(comp.lines@, k, k + 1, comp.para_style_id, p);
                assert(base + lines_chars(comp.lines@, k + 1, comp.para_style_id, p).len()
                    <= usize::MAX);
            }
        }
        assert forall|i: int| 0 <= i < all.len() - 1 implies (#[trigger] all[i]).end == all[i
            + 1].start by {
            if i + 1 < before.len() {
                assert(all[i] == before[i] && all[i + 1] == before[i + 1]);
            } else if i + 1 == before.len() {
                assert(all[i] == before.last());
                assert(all[i + 1] == own[0]);
                assert(base + lines_chars(comp.lines@, 0, comp.para_style_id, p).len()
                    <= usize::MAX);
            } else {
                let k = i - before.len();
                assert(all[i] == own[k] && all[i + 1] == own[k + 1]);
                assert(base + lines_chars(comp.lines@, k + 1, comp.para_style_id, p).len()
                    <= usize::MAX);
            }
        }
        assert forall|i: int| 0 <= i < all.len() implies (#[trigger] all[i]).start <= all[i].end by {
            if i < before.len() {
                assert(all[i] == before[i]);
            } else {
                assert(all[i] == own[i - before.len()]);
            }
        }
        assert(all.last() == own.last());
        assert(base + lines_chars(comp.lines@, count, comp.para_style_id, p).len() <= usize::MAX);
        if before.len() == 0 {
            assert(all[0] == own[0]);
            assert(base + lines_chars(comp.lines@, 0, comp.para_style_id, p).len() <= usize::MAX);
        } else {
            assert(all[0] == before[0]);
        }
    }
}

proof fn lemma_chars_grow(
    lines: Seq<ComposedLine>,
    k: int,
    n: int,
    para_style_id: u16,
    para: usize,
)
    requires
        0 <= k <= n <= lines.len(),
    ensures
        lines_chars(lines, k, para_style_id, para).len() <= lines_chars(
            lines,
            n,
            para_style_id,
            para,
        ).len(),
    decreases n,
{
    if k < n {
        lemma_chars_grow(lines, k, n - 1, para_style_id, para);
    }
}

/// Only the last character of a paragraph is marked as its end.
pub proof fn lemma_one_end_per_paragraph(comp: ComposedParagraph, para: usize, i: int)
    requires
        0 <= i < para_chars(comp, para).len(),
    ensures
        para_chars(comp, para)[i].is_para_end == (i == para_chars(comp, para).len() - 1),
        para_chars(comp, para)[i].cell_para_index == para,
        !is_line_end(para_chars(comp, para)[i].ch),
{
    let n = comp.lines@.len() as int;
    lemma_lines_chars_plain(comp.lines@, n, comp.para_style_id, para);
    let own = lines_chars(comp.lines@, n, comp.para_style_id, para);
    assert(!own[i].is_para_end && own[i].cell_para_index == para && !is_line_end(own[i].ch));
}

/// How a character stands in a column.
#[derive(Clone, Copy, Debug, PartialEq, Eq, Structural)]
pub struct VerticalTurn {
    pub needs_rotation: bool,
    /// It takes half a square.
    pub half_advance: bool,
}

/// An ASCII letter or digit.
pub open spec fn is_alphanumeric_code(c: u32) -> bool {
    0x30 <= c <= 0x39 || 0x41 <= c <= 0x5a || 0x61 <= c <= 0x7a
}

/// Decides how a character stands in a column. `rotates` says that it lies in any
/// vertical text, `is_wide` that it is of an East Asian script.
pub fn vertical_turn(ch: char, rotates: bool, is_wide: bool, text_direction: u8) -> (turn:
    VerticalTurn)
    ensures
        turn.needs_rotation == (rotates || (text_direction == 1 && !is_wide)),
        turn.half_advance == (turn.needs_rotation || (!is_wide && !is_alphanumeric_code(
            ch as u32,
        ))),
{
    let needs_rotation: bool = rotates || (text_direction == 1 && !is_wide);
    let c: u32 = ch as u32;
    let alphanumeric: bool = (0x30 <= c && c <= 0x39) || (0x41 <= c && c <= 0x5a) || (0x61 <= c && c
        <= 0x7a);
    VerticalTurn { needs_rotation, half_advance: needs_rotation || (!is_wide && !alphanumeric) }
}

/// The character that is drawn, and whether it is turned: a character with a vertical
/// form is replaced by it.
pub fn vertical_glyph(ch: char, needs_rotation: bool, substitute: Option<char>) -> (r: (
    char,
    bool,
))
    ensures
        r == (match substitute {
            Some(form) => if needs_rotation {
                (form, false)
            } else {
                (ch, false)
            },
            None => (ch, needs_rotation),
        }),
{
    if needs_rotation {
        match substitute {
            Some(form) => (form, false),
            None => (ch, true),
        }
    } else {
        (ch, false)
    }
}

/// A letter that is drawn upright: Hangul or a Chinese character.
pub open spec fn is_upright_code(c: u32) -> bool {
    ||| 0x1100 <= c <= 0x11ff
    ||| 0x3130 <= c <= 0x318f
    ||| 0x3400 <= c <= 0x4dbf
    ||| 0x4e00 <= c <= 0x9fff
    ||| 0xac00 <= c <= 0xd7af
    ||| 0xf900 <= c <= 0xfaff
}

/// Every letter is drawn upright.
pub open spec fn all_upright(text: Seq<char>) -> bool {
    forall|i: int| 0 <= i < text.len() ==> is_upright_code(#[trigger] text[i] as u32)
}

/// Whether every letter is drawn upright.
pub fn is_upright_text(text: &str) -> (r: bool)
    ensures
        r == all_upright(text@),
{
    let chars = chars_of(text);
    for i in 0..chars.len()
        invariant
            chars@ == text@,
            forall|k: int| 0 <= k < i ==> is_upright_code(#[trigger] chars@[k] as u32),
    {
        let c: u32 = chars[i] as u32;
        let upright: bool = (0x1100 <= c && c <= 0x11ff) || (0x3130 <= c && c <= 0x318f) || (0x3400
            <= c && c <= 0x4dbf) || (0x4e00 <= c && c <= 0x9fff) || (0xac00 <= c && c <= 0xd7af) || (
        0xf900 <= c && c <= 0xfaff);
        if !upright {
            assert(!is_upright_code(text@[i as int] as u32));
            return false;
        }
    }
    true
}

/// What the style of a run of vertical text asks for.
#[derive(Clone, Copy, Debug, Default, PartialEq, Eq, Structural)]
pub struct VerticalStyleFacts {
    pub bold: bool,
    pub italic: bool,
    pub underlined: bool,
    pub strikethrough: bool,
    pub border_fill_id: u16,
    pub outline_type: u8,
    pub shadow_type: u8,
    pub emboss: bool,
    pub engrave: bool,
    pub superscript: bool,
    pub subscript: bool,
    pub emphasis_dot: u8,
    pub has_letter_spacing: bool,
    /// Letters are wider or narrower than the font's.
    pub has_ratio: bool,
}

/// The style draws plain letters.
pub open spec fn vertical_style_is_plain(s: VerticalStyleFacts) -> bool {
    !s.bold && !s.italic && !s.underlined && !s.strikethrough && s.border_fill_id == 0
        && s.outline_type == 0 && s.shadow_type == 0 && !s.emboss && !s.engrave && !s.superscript
        && !s.subscript && s.emphasis_dot == 0 && !s.has_letter_spacing && !s.has_ratio
}

/// The run shows its own text and nothing else.
pub open spec fn shows_only_text(run: ComposedTextRun) -> bool {
    run.text@.len() > 0 && run.char_overlap is None && run.footnote_marker is None
        && run.display_text is None && run.lang_index == 0
}

/// The characters are all in the style of the run.
pub open spec fn in_style_of(chars: Seq<VerticalChar>, run: ComposedTextRun) -> bool {
    forall|i: int|
        0 <= i < chars.len() ==> (#[trigger] chars[i]).char_style_id == run.char_style_id
            && chars[i].lang_index == run.lang_index
}

/// The cell's vertical text is one run of upright letters in one column, in a table of
/// one cell.
pub open spec fn is_bounded_vertical(
    native_layout: bool,
    text_direction: u8,
    table_cell_count: usize,
    paras: Seq<Paragraph>,
    comps: Seq<ComposedParagraph>,
    text: VerticalText,
    style: Option<VerticalStyleFacts>,
) -> bool {
    let run = comps[0].lines@[0].runs@[0];
    &&& native_layout && text_direction == 2 && table_cell_count == 1
    &&& paras.len() == 1 && comps.len() == 1
    &&& comps[0].lines@.len() == 1 && comps[0].lines@[0].runs@.len() == 1
    &&& text.columns@.len() == 1 && text.chars@.len() > 0
    &&& paras[0].controls@.len() == 0 && paras[0].range_tags@.len() == 0
    &&& shows_only_text(run) && run.text@.len() == text.chars@.len()
    &&& all_upright(run.text@) && in_style_of(text.chars@, run)
    &&& style matches Some(s) && vertical_style_is_plain(s)
    &&& text.columns@[0].start == 0 && text.columns@[0].end == text.chars@.len()
}

fn chars_in_style(chars: &[VerticalChar], run: &ComposedTextRun) -> (r: bool)
    ensures
        r == in_style_of(chars@, *run),
{
    for i in 0..chars.len()
        invariant
            forall|k: int|
                0 <= k < i ==> (#[trigger] chars@[k]).char_style_id == run.char_style_id
                    && chars@[k].lang_index == run.lang_index,
    {
        if chars[i].char_style_id != run.char_style_id || chars[i].lang_index != run.lang_index {
            return false;
        }
    }
    true
}

/// Whether a cell's vertical text may be drawn with shaped glyphs. `style` is that of
/// its run, where the document has it.
pub fn bounded_vertical_eligible(
    native_layout: bool,
    text_direction: u8,
    table_cell_count: usize,
    paras: &[Paragraph],
    comps: &[ComposedParagraph],
    text: &VerticalText,
    style: Option<VerticalStyleFacts>,
) -> (r: bool)
    ensures
        r == is_bounded_vertical(
            native_layout,
            text_direction,
            table_cell_count,
            paras@,
            comps@,
            *text,
            style,
        ),
{
    if !native_layout || text_direction != 2 || table_cell_count != 1 || paras.len() != 1
        || comps.len() != 1 || comps[0].lines.len() != 1 || comps[0].lines[0].runs.len() != 1
        || text.columns.len() != 1 || text.chars.len() == 0 || paras[0].controls.len() != 0
        || paras[0].range_tags.len() != 0 {
        return false;
    }
    let run: &ComposedTextRun = &comps[0].lines[0].runs[0];
    let len: usize = run.text.as_str().unicode_len();
    if len == 0 || run.char_overlap.is_some() || run.footnote_marker.is_some()
        || run.display_text.is_some() || run.lang_index != 0 || len != text.chars.len() {
        return false;
    }
    if !is_upright_text(run.text.as_str()) || !chars_in_style(text.chars.as_slice(), run) {
        return false;
    }
    match style {
        Some(s) => {
            let plain: bool = !s.bold && !s.italic && !s.underlined && !s.strikethrough
                && s.border_fill_id == 0 && s.outline_type == 0 && s.shadow_type == 0 && !s.emboss
                && !s.engrave && !s.superscript && !s.subscript && s.emphasis_dot == 0
                && !s.has_letter_spacing && !s.has_ratio;
            plain && text.columns[0].start == 0 && text.columns[0].end == text.chars.len()
        },
        None => false,
    }
}

/// How many bytes a character takes in UTF-8.
pub open spec fn utf8_len(c: char) -> int {
    let code = c as u32;
    if code < 0x80 {
        1
    } else if code < 0x800 {
        2
    } else if code < 0x10000 {
        3
    } else {
        4
    }
}

/// The byte that character `i` of the text starts at.
pub open spec fn utf8_start(text: Seq<char>, i: int) -> int
    decreases i,
{
    if i <= 0 {
        0
    } else {
        utf8_start(text, i - 1) + utf8_len(text[i - 1])
    }
}

/// There is one range for each character, and it covers the character's bytes.
pub open spec fn ranges_are_chars(ranges: Seq<(usize, usize)>, text: Seq<char>) -> bool {
    &&& ranges.len() == text.len()
    &&& forall|i: int|
        0 <= i < ranges.len() ==> (#[trigger] ranges[i]).0 == utf8_start(text, i) && ranges[i].1
            == utf8_start(text, i + 1)
}

proof fn lemma_utf8_start_grows(text: Seq<char>, i: int, j: int)
    requires
        0 <= i <= j,
    ensures
        0 <= utf8_start(text, i) <= utf8_start(text, j),
    decreases j,
{
    if i < j {
        lemma_utf8_start_grows(text, i, j - 1);
    } else if i > 0 {
        lemma_utf8_start_grows(text, i - 1, i - 1);
    }
}

/// Whether the clusters of the shaped glyphs are the characters of the text, by their
/// ranges of bytes.
pub fn clusters_are_chars(ranges: &[(usize, usize)], text: &str) -> (r: bool)
    ensures
        r == ranges_are_chars(ranges@, text@),
{
    let chars = chars_of(text);
    if ranges.len() != chars.len() {
        return false;
    }
    let mut start: usize = 0;
    for i in 0..ranges.len()
        invariant
            chars@ == text@,
            ranges@.len() == text@.len(),
            start == utf8_start(text@, i as int),
            forall|k: int|
                0 <= k < i ==> (#[trigger] ranges@[k]).0 == utf8_start(text@, k) && ranges@[k].1
                    == utf8_start(text@, k + 1),
    {
        let c: u32 = chars[i] as u32;
        let mut len: usize = 4;
        if c < 0x80 {
            len = 1;
        } else if c < 0x800 {
            len = 2;
        } else if c < 0x10000 {
            len = 3;
        }
        assert(utf8_start(text@, i + 1) == start + len);
        if start > usize::MAX - len {
            assert(ranges@[i as int].1 != utf8_start(text@, i + 1));
            return false;
        }
        if ranges[i].0 != start || ranges[i].1 != start + len {
            return false;
        }
        start += len;
    }
    true
}

/// How many nodes a shaped column takes: its line and one for each glyph; `None` where
/// these are more than can be numbered.
pub fn shaped_node_count(glyphs: usize) -> (r: Option<u32>)
    ensures
        r == (if glyphs + 1 <= u32::MAX {
            Some((glyphs + 1) as u32)
        } else {
            None
        }),
{
    if glyphs < u32::MAX as usize {
        Some((glyphs as u32) + 1)
    } else {
        None
    }
}

/// The number of the node of glyph `index`, behind that of its line.
pub fn shaped_node_id(first: u32, index: usize) -> (r: Option<u32>)
    ensures
        r == (if first + index + 1 <= u32::MAX {
            Some((first + index + 1) as u32)
        } else {
            None
        }),
{
    if index < u32::MAX as usize {
        let own: u32 = index as u32 + 1;
        if first <= u32::MAX - own {
            Some(first + own)
        } else {
            None
        }
    } else {
        None
    }
}

/// Adds a built line to a cell once its frame was accepted; a refused one leaves the
/// cell as it was.
pub fn commit_bounded_vertical_hwp5_table_cell<T, E>(
    children: &mut Vec<T>,
    line: T,
    frame: Result<(), E>,
) -> (r: Result<(), E>)
    ensures
        match frame {
            Ok(_) => r is Ok && final(children)@ == old(children)@.push(line),
            Err(reason) => r == Err::<(), E>(reason) && final(children)@ == old(children)@,
        },
{
    match frame {
        Ok(_) => {
            children.push(line);
            Ok(())
        },
        Err(reason) => Err(reason),
    }
}

} // verus!
