//! Paragraphs whose text flows around tables laid out like characters.

use vstd::prelude::*;

use crate::controls::picture_or_shape;
use crate::controls::picture_or_shape_attr;
use crate::line_geometry::band_holds_table;
use crate::line_geometry::declared_height;
use crate::line_geometry::inline_table_at;
use crate::line_geometry::tac_stored_band_is_outer_box;
use crate::model::CaptionDirection;
use crate::model::Cell;
use crate::model::Control;
use crate::model::LineSeg;
use crate::model::Paragraph;
use crate::model::Table;
use crate::model::TextWrap;
use crate::model::VertRelTo;
use crate::runs::behind_cut;
use crate::seqs::indices;
use crate::seqs::lemma_filter_start;
use crate::seqs::lemma_filter_step;

verus! {

/// The stored offset behind one control: an extended control takes eight units.
pub const CONTROL_UNITS: u32 = 8;

/// The control with this index stands in front of the text.
pub open spec fn leads_text(para: Paragraph, index: int) -> bool {
    0 <= index < para.controls@.len() && index < para.control_positions@.len()
        && para.control_positions@[index] == 0
}

/// The control with this index is the only one in front of the text.
pub open spec fn leads_text_alone(para: Paragraph, index: int) -> bool {
    leads_text(para, index) && forall|j: int| #[trigger] leads_text(para, j) ==> j == index
}

/// The table has a caption with text below it.
pub open spec fn has_bottom_caption(table: Table) -> bool {
    table.caption matches Some(caption) && caption.direction == CaptionDirection::Bottom
        && caption.paragraphs > 0
}

/// The first stored line belongs to a table with a caption, and the text starts on
/// the second one: the break in front of the first character is then a real one.
/// `table_is_inline` says that the leading table flows with the text.
pub open spec fn keeps_first_break(para: Paragraph, table_is_inline: bool) -> bool {
    &&& para.char_offsets@.len() > 0
    &&& para.char_offsets@[0] == CONTROL_UNITS
    &&& para.text@.len() > 0
    &&& para.line_segs@.len() >= 2
    &&& para.line_segs@[0].text_start == 0
    &&& para.line_segs@[1].lifted_start == CONTROL_UNITS
    &&& para.line_segs@[0].segment_width > 0
    &&& table_is_inline
    &&& exists|i: int| #[trigger]
        leads_text_alone(para, i) && inline_table_at(para, i) && has_bottom_caption(
            *para.controls@[i]->Table_0,
        )
}

/// The only control in front of the text.
fn sole_leading_control(para: &Paragraph) -> (r: Option<usize>)
    ensures
        r matches Some(i) ==> leads_text_alone(*para, i as int),
        r is None ==> forall|i: int| !#[trigger] leads_text_alone(*para, i),
{
    let mut found: Option<usize> = None;
    for i in 0..para.controls.len()
        invariant
            found is None ==> forall|k: int| 0 <= k < i ==> !#[trigger] leads_text(*para, k),
            found matches Some(f) ==> f < i && leads_text(*para, f as int) && forall|k: int|
                0 <= k < i && #[trigger] leads_text(*para, k) ==> k == f,
    {
        if i < para.control_positions.len() && para.control_positions[i] == 0 {
            assert(leads_text(*para, i as int));
            if let Some(f) = found {
                assert forall|k: int| !#[trigger] leads_text_alone(*para, k) by {
                    if leads_text_alone(*para, k) {
                        assert(leads_text(*para, f as int));
                        assert(k == f);
                        assert(k == i);
                    }
                }
                return None;
            }
            found = Some(i);
        }
    }
    match found {
        Some(f) => {
            assert(leads_text_alone(*para, f as int));
        },
        None => {
            assert forall|k: int| !#[trigger] leads_text_alone(*para, k) by {
                assert(!leads_text(*para, k));
            }
        },
    }
    found
}

/// Whether the break in front of the first character is a real one.
pub fn preserves_stored_first_visible_break_after_bottom_caption_table(
    para: &Paragraph,
    table_is_inline: bool,
) -> (r: bool)
    ensures
        r == keeps_first_break(*para, table_is_inline),
{
    if para.char_offsets.len() == 0 || para.char_offsets[0] != CONTROL_UNITS
        || para.text.as_str().is_empty() || para.line_segs.len() < 2
        || para.line_segs[0].text_start != 0 || para.line_segs[1].lifted_start != CONTROL_UNITS
        || para.line_segs[0].segment_width <= 0 || !table_is_inline {
        return false;
    }
    match sole_leading_control(para) {
        Some(i) => {
            assert forall|k: int| #[trigger] leads_text_alone(*para, k) implies k == i by {
                assert(leads_text(*para, i as int));
            }
            match &para.controls[i] {
                Control::Table(table) => {
                    let caption_below: bool = match table.caption {
                        Some(caption) => caption.direction == CaptionDirection::Bottom
                            && caption.paragraphs > 0,
                        None => false,
                    };
                    let r: bool = table.common.treat_as_char && caption_below;
                    assert(inline_table_at(*para, i as int) == table.common.treat_as_char);
                    r
                },
                _ => false,
            }
        },
        None => false,
    }
}

/// How many characters stand before the stored offset.
pub open spec fn chars_before(offsets: Seq<u32>, start: u32) -> nat
    decreases offsets.len(),
{
    if offsets.len() == 0 || offsets[0] >= start {
        0
    } else {
        chars_before(offsets.drop_first(), start) + 1
    }
}

/// What `chars_before` finds: the first character at or behind the offset.
pub proof fn lemma_chars_before(offsets: Seq<u32>, start: u32)
    ensures
        chars_before(offsets, start) <= offsets.len(),
        forall|i: int|
            0 <= i < chars_before(offsets, start) ==> (#[trigger] offsets[i]) < start,
        chars_before(offsets, start) < offsets.len() ==> offsets[chars_before(
            offsets,
            start,
        ) as int] >= start,
    decreases offsets.len(),
{
    if offsets.len() > 0 && offsets[0] < start {
        let rest = offsets.drop_first();
        lemma_chars_before(rest, start);
        assert forall|i: int| 0 <= i < chars_before(offsets, start) implies (
        #[trigger] offsets[i]) < start by {
            if i > 0 {
                assert(rest[i - 1] < start);
            }
        }
    }
}

/// The character that stored line `line` starts at.
pub open spec fn line_start_char(para: Paragraph, line: int) -> int {
    let before = chars_before(para.char_offsets@, para.line_segs@[line].lifted_start);
    if before < para.char_offsets@.len() {
        before as int
    } else {
        para.text@.len() as int
    }
}

/// The breaks of the lines before `n`: pairs of the first character of a stored line
/// and the line's index. A line that starts at the first character breaks nothing,
/// unless it is the second one and `keep_first` says so; nor does one that starts no
/// further than the break before.
pub open spec fn stored_breaks(para: Paragraph, keep_first: bool, n: int) -> Seq<(int, int)>
    decreases n,
{
    if n <= 1 {
        Seq::empty()
    } else {
        let before = stored_breaks(para, keep_first, n - 1);
        let start = line_start_char(para, n - 1);
        if (start > 0 || (n - 1 == 1 && keep_first)) && start <= para.text@.len() && (before.len()
            == 0 || before.last().0 < start) {
            before.push((start, n - 1))
        } else {
            before
        }
    }
}

/// The breaks of a paragraph around its tables, by the stored lines.
pub open spec fn breaks_of(para: Paragraph, table_is_inline: bool) -> Seq<(int, int)> {
    if para.line_segs@.len() <= 1 || para.char_offsets@.len() == 0 {
        Seq::empty()
    } else {
        stored_breaks(
            para,
            keeps_first_break(para, table_is_inline),
            para.line_segs@.len() as int,
        )
    }
}

/// A break as numbers.
pub open spec fn break_view(b: (usize, usize)) -> (int, int) {
    (b.0 as int, b.1 as int)
}

/// Finds the first character at or behind a stored offset.
fn first_char_at(offsets: &[u32], start: u32) -> (i: usize)
    ensures
        i == chars_before(offsets@, start),
{
    let mut i: usize = 0;
    assert(offsets@.skip(0) == offsets@);
    while i < offsets.len() && offsets[i] < start
        invariant
            i <= offsets@.len(),
            chars_before(offsets@, start) == i + chars_before(offsets@.skip(i as int), start),
        decreases offsets@.len() - i,
    {
        assert(offsets@.skip(i as int).drop_first() == offsets@.skip(i + 1));
        i += 1;
    }
    i
}

/// The breaks of a paragraph around its tables: the first character of a stored line
/// and the index of that line.
pub fn inline_table_stored_line_breaks(para: &Paragraph, table_is_inline: bool) -> (r: Vec<
    (usize, usize),
>)
    ensures
        r@.map_values(|b: (usize, usize)| break_view(b)) == breaks_of(*para, table_is_inline),
{
    let ghost as_numbers = |b: (usize, usize)| break_view(b);
    let mut r: Vec<(usize, usize)> = Vec::new();
    assert(r@.map_values(as_numbers) == Seq::<(int, int)>::empty());
    if para.line_segs.len() <= 1 || para.char_offsets.len() == 0 {
        return r;
    }
    let text_len: usize = para.text.as_str().unicode_len();
    let keep_first: bool = preserves_stored_first_visible_break_after_bottom_caption_table(
        para,
        table_is_inline,
    );
    for line in 1..para.line_segs.len()
        invariant
            as_numbers == (|b: (usize, usize)| break_view(b)),
            text_len == para.text@.len(),
            r@.map_values(as_numbers) == stored_breaks(*para, keep_first, line as int),
    {
        let found: usize = first_char_at(
            para.char_offsets.as_slice(),
            para.line_segs[line].lifted_start,
        );
        let mut start: usize = found;
        if found >= para.char_offsets.len() {
            start = text_len;
        }
        proof {
            lemma_chars_before(
                para.char_offsets@,
                para.line_segs@[line as int].lifted_start,
            );
        }
        assert(start == line_start_char(*para, line as int));
        let ghost before = r@;
        let mut moves_on: bool = true;
        if r.len() > 0 {
            moves_on = r[r.len() - 1].0 < start;
            assert(before.map_values(as_numbers).last() == break_view(before.last()));
        }
        let kept: bool = line == 1 && start == 0 && keep_first;
        if (start > 0 || kept) && start <= text_len && moves_on {
            r.push((start, line));
            assert(r@.map_values(as_numbers) == before.map_values(as_numbers).push(
                (start as int, line as int),
            ));
        }
    }
    r
}

/// The characters that the breaks stand at.
pub fn inline_table_stored_line_break_char_indices(para: &Paragraph, table_is_inline: bool) -> (r:
    Vec<usize>)
    ensures
        r@.map_values(|i: usize| i as int) == breaks_of(*para, table_is_inline).map_values(
            |b: (int, int)| b.0,
        ),
{
    let breaks = inline_table_stored_line_breaks(para, table_is_inline);
    let ghost numbers = breaks_of(*para, table_is_inline);
    let mut r: Vec<usize> = Vec::new();
    for i in 0..breaks.len()
        invariant
            numbers == breaks_of(*para, table_is_inline),
            breaks@.map_values(|b: (usize, usize)| break_view(b)) == numbers,
            r@.len() == i,
            forall|k: int| 0 <= k < i ==> #[trigger] r@[k] == numbers[k].0,
    {
        assert(numbers[i as int] == break_view(breaks@[i as int]));
        r.push(breaks[i].0);
    }
    assert(r@.map_values(|i: usize| i as int) == numbers.map_values(|b: (int, int)| b.0));
    r
}

proof fn lemma_stored_breaks_advance(para: Paragraph, keep_first: bool, n: int)
    requires
        n <= para.line_segs@.len(),
    ensures
        ({
            let breaks = stored_breaks(para, keep_first, n);
            &&& forall|i: int|
                0 <= i < breaks.len() ==> 0 <= (#[trigger] breaks[i]).0 <= para.text@.len() && 1
                    <= breaks[i].1 < n
            &&& forall|i: int, j: int|
                0 <= i < j < breaks.len() ==> (#[trigger] breaks[i]).0 < (#[trigger] breaks[j]).0
                    && breaks[i].1 < breaks[j].1
        }),
    decreases n,
{
    if n > 1 {
        lemma_stored_breaks_advance(para, keep_first, n - 1);
        let before = stored_breaks(para, keep_first, n - 1);
        let breaks = stored_breaks(para, keep_first, n);
        lemma_chars_before(para.char_offsets@, para.line_segs@[n - 1].lifted_start);
        assert forall|i: int, j: int| 0 <= i < j < breaks.len() implies (#[trigger] breaks[i]).0 < (
        #[trigger] breaks[j]).0 && breaks[i].1 < breaks[j].1 by {
            if j == before.len() {
                let last = before.len() - 1;
                assert(before[i] == breaks[i]);
                assert(i < last ==> before[i].0 < before[last].0);
            } else {
                assert(before[i] == breaks[i] && before[j] == breaks[j]);
            }
        }
    }
}

/// The breaks stand at ever later characters of the text and belong to ever later
/// stored lines; the first line breaks nothing.
pub proof fn lemma_breaks_advance(para: Paragraph, table_is_inline: bool)
    ensures
        ({
            let breaks = breaks_of(para, table_is_inline);
            &&& forall|i: int|
                0 <= i < breaks.len() ==> 0 <= (#[trigger] breaks[i]).0 <= para.text@.len() && 1
                    <= breaks[i].1 < para.line_segs@.len()
            &&& forall|i: int, j: int|
                0 <= i < j < breaks.len() ==> (#[trigger] breaks[i]).0 < (#[trigger] breaks[j]).0
                    && breaks[i].1 < breaks[j].1
        }),
{
    lemma_stored_breaks_advance(
        para,
        keeps_first_break(para, table_is_inline),
        para.line_segs@.len() as int,
    );
}

proof fn lemma_first_break_is_second_line(para: Paragraph, keep_first: bool, n: int, i: int)
    requires
        0 <= i < stored_breaks(para, keep_first, n).len(),
        stored_breaks(para, keep_first, n)[i].0 == 0,
    ensures
        keep_first,
        stored_breaks(para, keep_first, n)[i].1 == 1,
    decreases n,
{
    if n > 1 {
        let before = stored_breaks(para, keep_first, n - 1);
        if i < before.len() {
            lemma_first_break_is_second_line(para, keep_first, n - 1, i);
        }
    }
}

/// A break in front of the first character belongs to the second stored line, and
/// only a table with a caption before the text makes one.
pub proof fn lemma_break_before_text(para: Paragraph, table_is_inline: bool, i: int)
    requires
        0 <= i < breaks_of(para, table_is_inline).len(),
        breaks_of(para, table_is_inline)[i].0 == 0,
    ensures
        keeps_first_break(para, table_is_inline),
        breaks_of(para, table_is_inline)[i].1 == 1,
{
    lemma_first_break_is_second_line(
        para,
        keeps_first_break(para, table_is_inline),
        para.line_segs@.len() as int,
        i,
    );
}

/// What a stored line takes of the flow: its height, or its text's, and its spacing.
pub open spec fn own_advance(seg: LineSeg) -> int {
    (if seg.line_height >= seg.text_height {
        seg.line_height
    } else {
        seg.text_height
    }) + seg.line_spacing
}

/// What the first `n` stored lines take of the flow.
pub open spec fn total_advance(segs: Seq<LineSeg>, n: int) -> int
    decreases n,
{
    if n <= 0 {
        0
    } else {
        total_advance(segs, n - 1) + own_advance(segs[n - 1])
    }
}

/// The distance of a stored line from the first one, as far as the paragraph's own
/// lines account for it: a larger one is due to an object that is drawn on its own.
pub open spec fn stored_top_offset(para: Paragraph, line: int) -> Option<int> {
    let first = para.line_segs@[0];
    let seg = para.line_segs@[line];
    let delta = seg.vertical_pos - first.vertical_pos;
    let advance = total_advance(para.line_segs@, line);
    if 0 < line < para.line_segs@.len() && !first.implementation_property
        && !seg.implementation_property && delta > 0 && !(advance > 0 && delta > advance + advance
        / 4) {
        Some(delta)
    } else {
        None
    }
}

/// The distance of a stored line from the first one, in HWPUNIT.
pub fn inline_table_stored_line_top_offset(para: &Paragraph, line: usize) -> (r: Option<i64>)
    ensures
        match stored_top_offset(*para, line as int) {
            Some(offset) => r is Some && r->0 == offset,
            None => r is None,
        },
{
    if line == 0 || line >= para.line_segs.len() || para.line_segs[0].implementation_property
        || para.line_segs[line].implementation_property {
        return None;
    }
    let delta: i64 = para.line_segs[line].vertical_pos as i64 - para.line_segs[0].vertical_pos as i64;
    let mut advance: i128 = 0;
    for i in 0..line
        invariant
            line < para.line_segs@.len() <= u64::MAX,
            advance == total_advance(para.line_segs@, i as int),
            -0x1_0000_0000 * i <= advance <= 0x1_0000_0000 * i,
    {
        let seg = &para.line_segs[i];
        let mut height: i64 = seg.line_height as i64;
        if seg.text_height > seg.line_height {
            height = seg.text_height as i64;
        }
        advance = advance + (height + seg.line_spacing as i64) as i128;
    }
    if advance > 0 && delta as i128 > advance + advance / 4 {
        return None;
    }
    if delta > 0 {
        Some(delta)
    } else {
        None
    }
}

/// The tables laid out like characters, in order.
pub fn inline_tables(para: &Paragraph) -> (r: Vec<usize>)
    ensures
        r@ == indices(para.controls@.len()).filter(|i: usize| inline_table_at(*para, i as int)),
{
    let ghost p = |i: usize| inline_table_at(*para, i as int);
    let ghost all = indices(para.controls@.len());
    let mut r: Vec<usize> = Vec::new();
    proof {
        lemma_filter_start(all, p);
    }
    for i in 0..para.controls.len()
        invariant
            p == (|i: usize| inline_table_at(*para, i as int)),
            all == indices(para.controls@.len()),
            r@ == all.take(i as int).filter(p),
    {
        proof {
            lemma_filter_step(all, p, i as int);
        }
        if let Control::Table(table) = &para.controls[i] {
            if table.common.treat_as_char {
                r.push(i);
            }
        }
    }
    r
}

/// How many of the tables stand in front of the text.
pub open spec fn leading_tables(para: Paragraph, tables: Seq<usize>) -> nat
    decreases tables.len(),
{
    if tables.len() == 0 {
        0
    } else {
        leading_tables(para, tables.drop_last()) + if leads_text(para, tables.last() as int) {
            1nat
        } else {
            0nat
        }
    }
}

/// Counts the tables that stand in front of the text.
pub fn leading_inline_tables(para: &Paragraph, tables: &[usize]) -> (count: usize)
    requires
        forall|k: int| 0 <= k < tables@.len() ==> (#[trigger] tables@[k]) < para.controls@.len(),
    ensures
        count == leading_tables(*para, tables@),
        count <= tables@.len(),
{
    let mut count: usize = 0;
    for k in 0..tables.len()
        invariant
            forall|k: int|
                0 <= k < tables@.len() ==> (#[trigger] tables@[k]) < para.controls@.len(),
            count == leading_tables(*para, tables@.take(k as int)),
            count <= k,
    {
        assert(tables@.take(k + 1).drop_last() == tables@.take(k as int));
        let i: usize = tables[k];
        assert(tables@[k as int] < para.controls@.len());
        if i < para.control_positions.len() && para.control_positions[i] == 0 {
            count += 1;
        }
    }
    assert(tables@.take(tables@.len() as int) == tables@);
    count
}

/// A picture or shape between the lines that does not move with the text.
pub open spec fn is_detached_float(control: Control) -> bool {
    picture_or_shape(control) matches Some(common) && !common.treat_as_char
        && !common.flow_with_text && common.text_wrap == TextWrap::TopAndBottom
        && common.vert_rel_to == VertRelTo::Para
}

/// A paragraph has such an object.
pub open spec fn para_has_detached(para: Paragraph) -> bool {
    exists|i: int| 0 <= i < para.controls@.len() && is_detached_float(#[trigger] para.controls@[i])
}

/// A paragraph of a cell has such an object.
pub open spec fn cell_has_detached(cell: Cell) -> bool {
    exists|i: int| 0 <= i < cell.paragraphs@.len() && para_has_detached(#[trigger] cell.paragraphs@[i])
}

/// A cell of a table has such an object.
pub open spec fn table_has_detached(table: Table) -> bool {
    exists|i: int| 0 <= i < table.cells@.len() && cell_has_detached(#[trigger] table.cells@[i])
}

fn find_detached_in_para(para: &Paragraph) -> (r: bool)
    ensures
        r == para_has_detached(*para),
{
    for i in 0..para.controls.len()
        invariant
            forall|k: int| 0 <= k < i ==> !is_detached_float(#[trigger] para.controls@[k]),
    {
        if let Some(common) = picture_or_shape_attr(&para.controls[i]) {
            if !common.treat_as_char && !common.flow_with_text && common.text_wrap
                == TextWrap::TopAndBottom && common.vert_rel_to == VertRelTo::Para {
                assert(is_detached_float(para.controls@[i as int]));
                return true;
            }
        }
    }
    false
}

fn find_detached_in_cell(cell: &Cell) -> (r: bool)
    ensures
        r == cell_has_detached(*cell),
{
    for i in 0..cell.paragraphs.len()
        invariant
            forall|k: int| 0 <= k < i ==> !para_has_detached(#[trigger] cell.paragraphs@[k]),
    {
        if find_detached_in_para(&cell.paragraphs[i]) {
            assert(para_has_detached(cell.paragraphs@[i as int]));
            return true;
        }
    }
    false
}

fn find_detached_in_table(table: &Table) -> (r: bool)
    ensures
        r == table_has_detached(*table),
{
    for i in 0..table.cells.len()
        invariant
            forall|k: int| 0 <= k < i ==> !cell_has_detached(#[trigger] table.cells@[k]),
    {
        if find_detached_in_cell(&table.cells[i]) {
            assert(cell_has_detached(table.cells@[i as int]));
            return true;
        }
    }
    false
}

/// One of the paragraph's tables in the text holds an object that does not move with
/// the text.
pub open spec fn tables_hold_detached(para: Paragraph) -> bool {
    exists|i: int| #[trigger]
        inline_table_at(para, i) && table_has_detached(*para.controls@[i]->Table_0)
}

/// How far the stored position moves the line of the tables, in HWPUNIT: not at all
/// unless one of them holds an object that does not move with the text.
pub fn inline_table_line_shift(para: &Paragraph) -> (shift: i32)
    ensures
        shift == (if tables_hold_detached(*para) && para.line_segs@.len() > 0
            && para.line_segs@[0].vertical_pos > 0 {
            para.line_segs@[0].vertical_pos
        } else {
            0
        }),
{
    if para.line_segs.len() == 0 || para.line_segs[0].vertical_pos <= 0 {
        return 0;
    }
    for i in 0..para.controls.len()
        invariant
            para.line_segs@.len() > 0,
            para.line_segs@[0].vertical_pos > 0,
            forall|k: int|
                0 <= k < i ==> !(#[trigger] inline_table_at(*para, k) && table_has_detached(
                    *para.controls@[k]->Table_0,
                )),
    {
        if let Control::Table(table) = &para.controls[i] {
            if table.common.treat_as_char && find_detached_in_table(table) {
                assert(inline_table_at(*para, i as int));
                return para.line_segs[0].vertical_pos;
            }
        }
    }
    0
}

/// How many UTF-16 units a character takes.
pub open spec fn utf16_units(c: char) -> int {
    if c as u32 >= 0x10000 {
        2
    } else {
        1
    }
}

/// A control stands in front of character `i`: its stored offset lies further from
/// the one before than that character accounts for.
pub open spec fn gap_before(chars: Seq<char>, offsets: Seq<u32>, i: int) -> bool {
    1 <= i && offsets[i] - offsets[i - 1] > utf16_units(chars[i - 1]) + 4
}

/// The characters that a control stands in front of, in order.
pub open spec fn gap_cuts(chars: Seq<char>, offsets: Seq<u32>) -> Seq<usize> {
    indices(offsets.len()).filter(|i: usize| gap_before(chars, offsets, i as int))
}

/// The stretch of text behind `k` cuts.
pub open spec fn segment(cuts: Seq<usize>, k: int, len: int) -> (int, int) {
    (
        behind_cut(cuts, k),
        if k < cuts.len() {
            cuts[k] as int
        } else {
            len
        },
    )
}

/// The stretches of text between the controls; before them an empty one for each of
/// the `leading` tables in front of the text.
pub open spec fn text_segments_of(chars: Seq<char>, offsets: Seq<u32>, leading: nat) -> Seq<
    (int, int),
> {
    let cuts = gap_cuts(chars, offsets);
    Seq::new(leading, |i: int| (0int, 0int)) + Seq::new(
        cuts.len() + 1,
        |k: int| segment(cuts, k, chars.len() as int),
    )
}

/// Stored offsets that go with the text: one for each character and its end at most, none
/// before the one in front of it.
pub open spec fn offsets_fit(chars: Seq<char>, offsets: Seq<u32>) -> bool {
    &&& offsets.len() <= chars.len() + 1
    &&& forall|i: int, j: int|
        0 <= i < j < offsets.len() ==> #[trigger] offsets[i] <= #[trigger] offsets[j]
}

/// The stretches of text between the controls of a paragraph.
pub fn text_segments(chars: &[char], offsets: &[u32], leading: usize) -> (r: Vec<(usize, usize)>)
    requires
        offsets_fit(chars@, offsets@),
    ensures
        r@.map_values(|b: (usize, usize)| break_view(b)) == text_segments_of(
            chars@,
            offsets@,
            leading as nat,
        ),
{
    let ghost as_numbers = |b: (usize, usize)| break_view(b);
    let ghost front = Seq::new(leading as nat, |i: int| (0int, 0int));
    let mut r: Vec<(usize, usize)> = Vec::new();
    for i in 0..leading
        invariant
            as_numbers == (|b: (usize, usize)| break_view(b)),
            r@.map_values(as_numbers) == Seq::new(i as nat, |k: int| (0int, 0int)),
    {
        let ghost before = r@;
        r.push((0, 0));
        assert(r@.map_values(as_numbers) == before.map_values(as_numbers).push((0int, 0int)));
        assert(r@.map_values(as_numbers) == Seq::new((i + 1) as nat, |k: int| (0int, 0int)));
    }
    let ghost p = |i: usize| gap_before(chars@, offsets@, i as int);
    let ghost all = indices(offsets@.len());
    let ghost len = chars@.len() as int;
    let mut start: usize = 0;
    let ghost mut done = Seq::<usize>::empty();
    proof {
        lemma_filter_start(all, p);
        assert(r@.map_values(as_numbers) == front + Seq::new(
            done.len(),
            |k: int| segment(done, k, len),
        ));
    }
    for i in 0..offsets.len()
        invariant
            as_numbers == (|b: (usize, usize)| break_view(b)),
            front == Seq::new(leading as nat, |i: int| (0int, 0int)),
            offsets_fit(chars@, offsets@),
            p == (|i: usize| gap_before(chars@, offsets@, i as int)),
            all == indices(offsets@.len()),
            len == chars@.len(),
            done == all.take(i as int).filter(p),
            start == behind_cut(done, done.len() as int),
            start <= i || start == 0,
            r@.map_values(as_numbers) == front + Seq::new(
                done.len(),
                |k: int| segment(done, k, len),
            ),
    {
        proof {
            lemma_filter_step(all, p, i as int);
        }
        if i > 0 {
            let mut units: u32 = 1;
            if chars[i - 1] as u32 >= 0x10000 {
                units = 2;
            }
            assert(offsets@[i - 1] <= offsets@[i as int]);
            let gap: u32 = offsets[i] - offsets[i - 1];
            if gap > units + 4 {
                let ghost before = r@;
                let ghost old_done = done;
                r.push((start, i));
                proof {
                    done = done.push(i);
                    assert(r@.map_values(as_numbers) == before.map_values(as_numbers).push(
                        (start as int, i as int),
                    ));
                    assert(Seq::new(done.len(), |k: int| segment(done, k, len)) == Seq::new(
                        old_done.len(),
                        |k: int| segment(old_done, k, len),
                    ).push((start as int, i as int)));
                    assert(r@.map_values(as_numbers) == front + Seq::new(
                        done.len(),
                        |k: int| segment(done, k, len),
                    ));
                }
                start = i;
            }
        }
    }
    let ghost before = r@;
    r.push((start, chars.len()));
    proof {
        assert(all.take(all.len() as int) == all);
        assert(done == gap_cuts(chars@, offsets@));
        assert(r@.map_values(as_numbers) == before.map_values(as_numbers).push((start as int, len)));
        assert(Seq::new((done.len() + 1) as nat, |k: int| segment(done, k, len)) == Seq::new(
            done.len(),
            |k: int| segment(done, k, len),
        ).push((start as int, len)));
        assert(r@.map_values(as_numbers) == text_segments_of(chars@, offsets@, leading as nat));
    }
    r
}

/// The text of the segments, put together.
pub open spec fn segments_text(segments: Seq<(int, int)>, chars: Seq<char>) -> Seq<char>
    decreases segments.len(),
{
    if segments.len() == 0 {
        Seq::empty()
    } else {
        segments_text(segments.drop_last(), chars) + chars.subrange(
            segments.last().0,
            segments.last().1,
        )
    }
}

/// The segments of a paragraph hold its text, whole and in order.
pub proof fn lemma_segments_hold_the_text(chars: Seq<char>, offsets: Seq<u32>, leading: nat)
    requires
        offsets_fit(chars, offsets),
        chars.len() <= usize::MAX,
        offsets.len() <= usize::MAX,
    ensures
        segments_text(text_segments_of(chars, offsets, leading), chars) == chars,
{
    let cuts = gap_cuts(chars, offsets);
    lemma_cuts_ascend(chars, offsets, offsets.len() as int);
    assert(indices(offsets.len()).take(offsets.len() as int) == indices(offsets.len()));
    let front = Seq::new(leading, |i: int| (0int, 0int));
    lemma_front_has_no_text(chars, leading);
    assert(front + Seq::<(int, int)>::empty() == front);
    lemma_segments_up_to(chars, cuts, front, (cuts.len() + 1) as int);
    let len = chars.len() as int;
    assert(Seq::new((cuts.len() + 1) as nat, |k: int| segment(cuts, k, len)) == Seq::new(
        cuts.len() + 1,
        |k: int| segment(cuts, k, len),
    ));
    assert(chars.take(len) == chars);
}

proof fn lemma_front_has_no_text(chars: Seq<char>, leading: nat)
    ensures
        segments_text(Seq::new(leading, |i: int| (0int, 0int)), chars) == Seq::<char>::empty(),
    decreases leading,
{
    let front = Seq::new(leading, |i: int| (0int, 0int));
    if leading > 0 {
        lemma_front_has_no_text(chars, (leading - 1) as nat);
        assert(front.drop_last() == Seq::new((leading - 1) as nat, |i: int| (0int, 0int)));
        assert(chars.subrange(0, 0) == Seq::<char>::empty());
    }
}

proof fn lemma_cuts_ascend(chars: Seq<char>, offsets: Seq<u32>, n: int)
    requires
        offsets_fit(chars, offsets),
        0 <= n <= offsets.len() <= usize::MAX,
    ensures
        ({
            let cuts = indices(offsets.len()).take(n).filter(
                |i: usize| gap_before(chars, offsets, i as int),
            );
            &&& forall|i: int| 0 <= i < cuts.len() ==> #[trigger] cuts[i] < n
            &&& forall|i: int, j: int|
                0 <= i < j < cuts.len() ==> #[trigger] cuts[i] <= #[trigger] cuts[j]
        }),
    decreases n,
{
    let all = indices(offsets.len());
    let p = |i: usize| gap_before(chars, offsets, i as int);
    if n == 0 {
        lemma_filter_start(all, p);
    } else {
        lemma_cuts_ascend(chars, offsets, n - 1);
        lemma_filter_step(all, p, n - 1);
    }
}

proof fn lemma_segments_up_to(
    chars: Seq<char>,
    cuts: Seq<usize>,
    front: Seq<(int, int)>,
    k: int,
)
    requires
        0 <= k <= cuts.len() + 1,
        forall|i: int| 0 <= i < cuts.len() ==> #[trigger] cuts[i] <= chars.len(),
        forall|i: int, j: int|
            0 <= i < j < cuts.len() ==> #[trigger] cuts[i] <= #[trigger] cuts[j],
        segments_text(front, chars) == Seq::<char>::empty(),
    ensures
        segments_text(
            front + Seq::new(k as nat, |i: int| segment(cuts, i, chars.len() as int)),
            chars,
        ) == chars.take(
            if k == 0 {
                0
            } else {
                segment(cuts, k - 1, chars.len() as int).1
            },
        ),
    decreases k,
{
    let len = chars.len() as int;
    let own = Seq::new(k as nat, |i: int| segment(cuts, i, len));
    if k == 0 {
        assert(front + own == front);
        assert(chars.take(0) == Seq::<char>::empty());
    } else {
        lemma_segments_up_to(chars, cuts, front, k - 1);
        let before = front + Seq::new((k - 1) as nat, |i: int| segment(cuts, i, len));
        assert((front + own).drop_last() == before);
        let s = segment(cuts, k - 1, len);
        assert((front + own).last() == s);
        if k > 1 {
            assert(cuts[k - 2] <= chars.len());
            if k - 1 < cuts.len() {
                assert(cuts[k - 2] <= cuts[k - 1]);
            }
        }
        if k - 1 < cuts.len() {
            assert(cuts[k - 1] <= chars.len());
        }
        assert(chars.take(s.0) + chars.subrange(s.0, s.1) == chars.take(s.1));
    }
}

/// The cell counts toward the width of column `c`: it stands there and spans no other.
pub open spec fn cell_sets_column(cell: Cell, c: int) -> bool {
    cell.col == c && cell.col_span <= 1
}

/// The width of column `c` of a table: that of its widest cell.
pub open spec fn is_column_width(table: Table, c: int, width: int) -> bool {
    &&& width >= 0
    &&& forall|i: int|
        0 <= i < table.cells@.len() && cell_sets_column(#[trigger] table.cells@[i], c)
            ==> table.cells@[i].width as i32 <= width
    &&& width == 0 || exists|i: int|
        0 <= i < table.cells@.len() && cell_sets_column(#[trigger] table.cells@[i], c)
            && table.cells@[i].width as i32 == width
}

/// The widths of a table's columns, in HWPUNIT.
pub fn table_column_widths(table: &Table) -> (widths: Vec<i32>)
    ensures
        widths@.len() == table.col_count,
        forall|c: int|
            0 <= c < widths@.len() ==> is_column_width(*table, c, #[trigger] widths@[c] as int),
{
    let mut widths: Vec<i32> = Vec::new();
    for c in 0..table.col_count as usize
        invariant
            widths@.len() == c,
            forall|k: int|
                0 <= k < c ==> is_column_width(*table, k, #[trigger] widths@[k] as int),
    {
        let mut width: i32 = 0;
        for i in 0..table.cells.len()
            invariant
                width >= 0,
                forall|k: int|
                    0 <= k < i && cell_sets_column(#[trigger] table.cells@[k], c as int)
                        ==> table.cells@[k].width as i32 <= width,
                width == 0 || exists|k: int|
                    0 <= k < i && cell_sets_column(#[trigger] table.cells@[k], c as int)
                        && table.cells@[k].width as i32 == width,
        {
            let cell = &table.cells[i];
            if cell.col as usize == c && cell.col_span <= 1 {
                assert(cell_sets_column(table.cells@[i as int], c as int));
                let own: i32 = cell.width as i32;
                if own > width {
                    width = own;
                }
            }
        }
        assert(is_column_width(*table, c as int, width as int));
        widths.push(width);
    }
    widths
}

/// The stored line holds an object of the given height.
pub open spec fn line_holds(seg: LineSeg, height: u32) -> bool {
    seg.line_height as u32 >= height
}

/// The stored line of the tables: the first that holds one of the given height; the
/// first of all where none does.
pub fn table_line_index(para: &Paragraph, first_table_height: Option<u32>) -> (r: usize)
    ensures
        match first_table_height {
            Some(height) => {
                &&& r < para.line_segs@.len() ==> line_holds(para.line_segs@[r as int], height)
                    || r == 0
                &&& forall|i: int|
                    0 <= i < r ==> !line_holds(#[trigger] para.line_segs@[i], height)
                &&& (forall|i: int|
                    0 <= i < para.line_segs@.len() ==> !line_holds(
                        #[trigger] para.line_segs@[i],
                        height,
                    )) ==> r == 0
                &&& (exists|i: int|
                    0 <= i < para.line_segs@.len() && line_holds(
                        #[trigger] para.line_segs@[i],
                        height,
                    )) ==> r < para.line_segs@.len() && line_holds(
                    para.line_segs@[r as int],
                    height,
                )
            },
            None => r == 0,
        },
{
    match first_table_height {
        Some(height) => {
            for i in 0..para.line_segs.len()
                invariant
                    first_table_height == Some(height),
                    forall|k: int|
                        0 <= k < i ==> !line_holds(#[trigger] para.line_segs@[k], height),
            {
                if para.line_segs[i].line_height as u32 >= height {
                    assert(line_holds(para.line_segs@[i as int], height));
                    return i;
                }
            }
            0
        },
        None => 0,
    }
}

/// The stored line of the text: the first that is not the tables'.
pub fn text_line_index(line_count: usize, table_line: usize) -> (r: Option<usize>)
    ensures
        r == (if table_line > 0 && line_count > 0 {
            Some(0usize)
        } else if table_line == 0 && line_count > 1 {
            Some(1usize)
        } else {
            None
        }),
{
    if table_line > 0 {
        if line_count > 0 {
            Some(0)
        } else {
            None
        }
    } else if line_count > 1 {
        Some(1)
    } else {
        None
    }
}

/// The stored line whose height is the step from one line of text to the next: that of the
/// text, or else the first.
pub fn step_line_index(line_count: usize, table_line: usize) -> (r: Option<usize>)
    ensures
        r == (if line_count == 0 {
            None
        } else if table_line == 0 && line_count > 1 {
            Some(1usize)
        } else {
            Some(0usize)
        }),
{
    match text_line_index(line_count, table_line) {
        Some(line) => Some(line),
        None => if line_count > 0 {
            Some(0)
        } else {
            None
        },
    }
}

/// Stored line `k` holds the stored offset `pos`: it is the last that starts there or
/// before.
pub open spec fn line_holds_offset(segs: Seq<LineSeg>, pos: u32, k: int) -> bool {
    &&& 0 <= k < segs.len()
    &&& segs[k].lifted_start <= pos
    &&& forall|j: int| k < j < segs.len() ==> (#[trigger] segs[j]).lifted_start > pos
}

/// Every stored line starts behind the stored offset `pos`.
pub open spec fn lines_start_behind(segs: Seq<LineSeg>, pos: u32) -> bool {
    forall|k: int| 0 <= k < segs.len() ==> (#[trigger] segs[k]).lifted_start > pos
}

/// The stored line that a character stands on, in a paragraph of several lines.
pub fn stored_line_of_char(para: &Paragraph, char_idx: usize) -> (r: Option<usize>)
    ensures
        r matches Some(k) ==> para.line_segs@.len() >= 2 && char_idx < para.char_offsets@.len()
            && line_holds_offset(
            para.line_segs@,
            para.char_offsets@[char_idx as int],
            k as int,
        ),
        r is None ==> para.line_segs@.len() < 2 || char_idx >= para.char_offsets@.len()
            || lines_start_behind(para.line_segs@, para.char_offsets@[char_idx as int]),
{
    if para.line_segs.len() < 2 || char_idx >= para.char_offsets.len() {
        return None;
    }
    let pos: u32 = para.char_offsets[char_idx];
    let mut k: usize = para.line_segs.len();
    while k > 0
        invariant
            char_idx < para.char_offsets@.len(),
            pos == para.char_offsets@[char_idx as int],
            para.line_segs@.len() >= 2,
            k <= para.line_segs@.len(),
            forall|j: int|
                k <= j < para.line_segs@.len() ==> (#[trigger] para.line_segs@[j]).lifted_start
                    > pos,
        decreases k,
    {
        if para.line_segs[k - 1].lifted_start <= pos {
            return Some(k - 1);
        }
        k -= 1;
    }
    None
}

/// What comes next in a paragraph of text and tables.
#[derive(Clone, Copy, Debug, PartialEq, Eq, Structural)]
pub enum FlowItem {
    /// A stretch of text, by its number.
    Segment(usize),
    /// A table, by its number. One behind all text stays on the line that it is on.
    Table { index: usize, trailing: bool },
}

/// The first `k` stretches of text, each with the table behind it.
pub open spec fn flow_up_to(tables: int, k: int) -> Seq<FlowItem>
    decreases k,
{
    if k <= 0 {
        Seq::empty()
    } else {
        let before = flow_up_to(tables, k - 1).push(FlowItem::Segment((k - 1) as usize));
        if k - 1 < tables {
            before.push(FlowItem::Table { index: (k - 1) as usize, trailing: false })
        } else {
            before
        }
    }
}

/// The order of text and tables: text and tables in turn, then the tables that are
/// left.
pub open spec fn flow_order_of(segments: int, tables: int) -> Seq<FlowItem> {
    flow_up_to(tables, segments) + Seq::new(
        (if tables > segments {
            tables - segments
        } else {
            0
        }) as nat,
        |i: int| FlowItem::Table { index: (segments + i) as usize, trailing: true },
    )
}

/// Puts the text and the tables of a paragraph in order.
pub fn flow_order(segments: usize, tables: usize) -> (r: Vec<FlowItem>)
    ensures
        r@ == flow_order_of(segments as int, tables as int),
{
    let mut r: Vec<FlowItem> = Vec::new();
    for k in 0..segments
        invariant
            r@ == flow_up_to(tables as int, k as int),
    {
        r.push(FlowItem::Segment(k));
        if k < tables {
            r.push(FlowItem::Table { index: k, trailing: false });
        }
    }
    let ghost front = r@;
    let mut k: usize = segments;
    assert(r@ == front + Seq::new(
        0,
        |i: int| FlowItem::Table { index: (segments + i) as usize, trailing: true },
    ));
    while k < tables
        invariant
            segments <= k,
            segments <= tables ==> k <= tables,
            segments > tables ==> k == segments,
            r@ == front + Seq::new(
                (k - segments) as nat,
                |i: int| FlowItem::Table { index: (segments + i) as usize, trailing: true },
            ),
        decreases tables - k,
    {
        r.push(FlowItem::Table { index: k, trailing: true });
        assert(r@ == front + Seq::new(
            (k + 1 - segments) as nat,
            |i: int| FlowItem::Table { index: (segments + i) as usize, trailing: true },
        ));
        k += 1;
    }
    r
}

/// How many times table `index` is among the items.
pub open spec fn table_uses(items: Seq<FlowItem>, index: usize) -> nat
    decreases items.len(),
{
    if items.len() == 0 {
        0
    } else {
        table_uses(items.drop_last(), index) + match items.last() {
            FlowItem::Table { index: i, .. } => if i == index {
                1nat
            } else {
                0nat
            },
            FlowItem::Segment(_) => 0nat,
        }
    }
}

proof fn lemma_table_uses_up_to(tables: int, k: int, index: usize)
    requires
        0 <= k <= usize::MAX,
    ensures
        table_uses(flow_up_to(tables, k), index) == if index < k && index < tables {
            1nat
        } else {
            0nat
        },
    decreases k,
{
    if k > 0 {
        lemma_table_uses_up_to(tables, k - 1, index);
        let before = flow_up_to(tables, k - 1);
        let with_text = before.push(FlowItem::Segment((k - 1) as usize));
        assert(with_text.drop_last() == before);
        assert(table_uses(with_text, index) == table_uses(before, index));
        if k - 1 < tables {
            let all = flow_up_to(tables, k);
            assert(all.drop_last() == with_text);
        }
    }
}

proof fn lemma_table_uses_trailing(front: Seq<FlowItem>, segments: int, n: int, index: usize)
    requires
        0 <= n,
        0 <= segments,
        segments + n <= usize::MAX,
    ensures
        table_uses(
            front + Seq::new(
                n as nat,
                |i: int| FlowItem::Table { index: (segments + i) as usize, trailing: true },
            ),
            index,
        ) == table_uses(front, index) + if segments <= index < segments + n {
            1nat
        } else {
            0nat
        },
    decreases n,
{
    let tail = Seq::new(
        n as nat,
        |i: int| FlowItem::Table { index: (segments + i) as usize, trailing: true },
    );
    if n == 0 {
        assert(front + tail == front);
    } else {
        lemma_table_uses_trailing(front, segments, n - 1, index);
        let shorter = Seq::new(
            (n - 1) as nat,
            |i: int| FlowItem::Table { index: (segments + i) as usize, trailing: true },
        );
        assert((front + tail).drop_last() == front + shorter);
    }
}

/// Every table of the paragraph is laid out once.
pub proof fn lemma_every_table_laid_out_once(segments: int, tables: int, index: usize)
    requires
        0 <= segments <= usize::MAX,
        0 <= index < tables <= usize::MAX,
    ensures
        table_uses(flow_order_of(segments, tables), index) == 1,
{
    lemma_table_uses_up_to(tables, segments, index);
    let n = if tables > segments {
        tables - segments
    } else {
        0
    };
    lemma_table_uses_trailing(flow_up_to(tables, segments), segments, n, index);
}

/// Whether a table in the text moves to the next line: it does not lead the text,
/// something stands before it on the line, and it does not fit behind that.
pub fn should_wrap_middle_anchored_table(
    control_position: Option<usize>,
    text_len: usize,
    line_is_occupied: bool,
    exceeds_line: bool,
) -> (r: bool)
    ensures
        r == ((control_position matches Some(position) && 0 < position <= text_len)
            && line_is_occupied && exceeds_line),
{
    match control_position {
        Some(position) => position > 0 && position <= text_len && line_is_occupied
            && exceeds_line,
        None => false,
    }
}

/// The only stored line of the paragraph is the table with its outer margins.
pub open spec fn line_is_the_table(para: Paragraph, table: Table) -> bool {
    para.line_segs@.len() == 1 && !para.line_segs@[0].implementation_property && band_holds_table(
        para.line_segs@[0].line_height as int,
        table.outer_margin_top as int,
        declared_height(table.common.height),
        table.outer_margin_bottom as int,
    )
}

/// Whether a table between the text moves to the next line. A table that is the whole
/// stored line does not.
pub fn inline_table_wraps(
    para: &Paragraph,
    table: &Table,
    control_position: Option<usize>,
    text_len: usize,
    line_is_occupied: bool,
    exceeds_line: bool,
) -> (r: bool)
    ensures
        r == ((control_position matches Some(position) && 0 < position <= text_len)
            && line_is_occupied && exceeds_line && !line_is_the_table(*para, *table)),
{
    should_wrap_middle_anchored_table(control_position, text_len, line_is_occupied, exceeds_line)
        && !tac_stored_band_is_outer_box(para, table)
}

/// Where a table in the text has its upper edge.
#[derive(Clone, Copy, Debug, PartialEq, Eq, Structural)]
pub enum TableSeat {
    /// Its upper margin below the top of the line.
    TopMargin,
    /// Such that its lower margin ends on the base line.
    BaseLine,
    /// At the top of the line.
    LineTop,
}

/// Decides where a table in the text has its upper edge. `above_line` says that a
/// table on the base line would rise above the line.
pub fn table_seat(para: &Paragraph, table: &Table, above_line: bool, trailing: bool) -> (seat:
    TableSeat)
    ensures
        seat == (if line_is_the_table(*para, *table) || (above_line && !trailing) {
            TableSeat::TopMargin
        } else if above_line {
            TableSeat::LineTop
        } else {
            TableSeat::BaseLine
        }),
{
    if tac_stored_band_is_outer_box(para, table) || (above_line && !trailing) {
        TableSeat::TopMargin
    } else if above_line {
        TableSeat::LineTop
    } else {
        TableSeat::BaseLine
    }
}

/// The first note reference at a character.
pub fn note_at_char(notes: &[(usize, u16, usize)], ch: usize) -> (r: Option<usize>)
    ensures
        r matches Some(k) ==> k < notes@.len() && notes@[k as int].0 == ch && forall|j: int|
            0 <= j < k ==> (#[trigger] notes@[j]).0 != ch,
        r is Some <==> carries_note(notes@, ch as int),
{
    for k in 0..notes.len()
        invariant
            forall|j: int| 0 <= j < k ==> (#[trigger] notes@[j]).0 != ch,
    {
        if notes[k].0 == ch {
            return Some(k);
        }
    }
    None
}

/// How far the text of a segment has been laid out.
#[derive(Clone, Copy, Debug, PartialEq, Eq, Structural)]
pub struct TextCursor {
    /// First character that was not drawn yet.
    pub run_start: usize,
    /// Number of stored breaks that were used.
    pub next_break: usize,
}

/// What happens at a character.
#[derive(Clone, Copy, Debug, PartialEq, Eq)]
pub struct CharStep {
    /// The characters to draw first, from the first up to the second.
    pub flush: Option<(usize, usize)>,
    /// The character starts a new line.
    pub wraps: bool,
    /// The stored line that starts here.
    pub stored_line: Option<usize>,
}

/// The next stored break is at or before the character.
pub open spec fn break_is_due(cursor: TextCursor, breaks: Seq<(usize, usize)>, ch: int) -> bool {
    cursor.next_break < breaks.len() && breaks[cursor.next_break as int].0 <= ch
}

/// The character starts a new line: at a stored break, or, once these are used up,
/// where it does not fit any more.
pub open spec fn char_wraps(
    cursor: TextCursor,
    breaks: Seq<(usize, usize)>,
    ch: int,
    overflows: bool,
) -> bool {
    break_is_due(cursor, breaks, ch) || (cursor.next_break >= breaks.len() && overflows)
}

/// The cursor after a character.
pub open spec fn cursor_after(
    cursor: TextCursor,
    breaks: Seq<(usize, usize)>,
    ch: usize,
    overflows: bool,
    looks_different: bool,
) -> TextCursor {
    TextCursor {
        run_start: if (looks_different || char_wraps(cursor, breaks, ch as int, overflows)) && ch
            > cursor.run_start {
            ch
        } else {
            cursor.run_start
        },
        next_break: if break_is_due(cursor, breaks, ch as int) {
            (cursor.next_break + 1) as usize
        } else {
            cursor.next_break
        },
    }
}

/// Lays out one character: the characters before it are drawn where it starts a line
/// or looks different.
pub fn advance_char(
    cursor: &mut TextCursor,
    breaks: &[(usize, usize)],
    ch: usize,
    overflows: bool,
    looks_different: bool,
) -> (step: CharStep)
    ensures
        step.wraps == char_wraps(*old(cursor), breaks@, ch as int, overflows),
        step.stored_line == (if break_is_due(*old(cursor), breaks@, ch as int) {
            Some(breaks@[old(cursor).next_break as int].1)
        } else {
            None
        }),
        step.flush == (if (looks_different || step.wraps) && ch > old(cursor).run_start {
            Some((old(cursor).run_start, ch))
        } else {
            None
        }),
        *final(cursor) == cursor_after(*old(cursor), breaks@, ch, overflows, looks_different),
{
    let mut wraps: bool = false;
    let mut stored_line: Option<usize> = None;
    if cursor.next_break < breaks.len() {
        if breaks[cursor.next_break].0 <= ch {
            wraps = true;
            stored_line = Some(breaks[cursor.next_break].1);
            cursor.next_break = cursor.next_break + 1;
        }
    } else {
        wraps = overflows;
    }
    let mut flush: Option<(usize, usize)> = None;
    if (looks_different || wraps) && ch > cursor.run_start {
        flush = Some((cursor.run_start, ch));
        cursor.run_start = ch;
    }
    CharStep { flush, wraps, stored_line }
}

/// The cursor once the characters before `ch` are drawn.
pub open spec fn cursor_flushed(cursor: TextCursor, ch: usize) -> TextCursor {
    TextCursor {
        run_start: if ch > cursor.run_start {
            ch
        } else {
            cursor.run_start
        },
        next_break: cursor.next_break,
    }
}

/// Draws the characters before a note reference.
pub fn flush_before_note(cursor: &mut TextCursor, ch: usize) -> (flush: Option<(usize, usize)>)
    ensures
        flush == (if ch > old(cursor).run_start {
            Some((old(cursor).run_start, ch))
        } else {
            None
        }),
        *final(cursor) == cursor_flushed(*old(cursor), ch),
{
    if ch > cursor.run_start {
        let start: usize = cursor.run_start;
        cursor.run_start = ch;
        Some((start, ch))
    } else {
        None
    }
}

/// A note reference stands at the character.
pub open spec fn carries_note(notes: Seq<(usize, u16, usize)>, ch: int) -> bool {
    exists|j: int| 0 <= j < notes.len() && (#[trigger] notes[j]).0 == ch
}

/// What decides how a segment is drawn: the note references, the stored breaks, and of
/// each character whether it does not fit and whether it looks different.
pub ghost struct SegmentFacts {
    pub notes: Seq<(usize, u16, usize)>,
    pub breaks: Seq<(usize, usize)>,
    pub overflows: spec_fn(int) -> bool,
    pub looks_different: spec_fn(int) -> bool,
}

impl SegmentFacts {
    /// The cursor when the note reference at a character, if there is one, is drawn.
    pub open spec fn noted(self, cursor: TextCursor, ch: int) -> TextCursor {
        if carries_note(self.notes, ch) {
            cursor_flushed(cursor, ch as usize)
        } else {
            cursor
        }
    }

    /// The cursor when the note reference at a character and the character are laid out.
    pub open spec fn step(self, cursor: TextCursor, ch: int) -> TextCursor {
        cursor_after(
            self.noted(cursor, ch),
            self.breaks,
            ch as usize,
            (self.overflows)(ch),
            (self.looks_different)(ch),
        )
    }

    /// The cursor after the characters from `start` up to `end`.
    pub open spec fn cursor_after_text(self, cursor: TextCursor, start: int, end: int) -> TextCursor
        decreases end - start,
    {
        if end <= start {
            cursor
        } else {
            self.step(self.cursor_after_text(cursor, start, end - 1), end - 1)
        }
    }

    /// The characters of a segment that were drawn when it is laid out up to `end`, one
    /// run after the other: at each character those before its note reference, then those
    /// before the character itself.
    pub open spec fn drawn_text(
        self,
        chars: Seq<char>,
        cursor: TextCursor,
        start: int,
        end: int,
    ) -> Seq<char>
        decreases end - start,
    {
        if end <= start {
            Seq::empty()
        } else {
            let before = self.cursor_after_text(cursor, start, end - 1);
            let noted = self.noted(before, end - 1);
            let after = self.step(before, end - 1);
            self.drawn_text(chars, cursor, start, end - 1) + chars.subrange(
                before.run_start as int,
                noted.run_start as int,
            ) + chars.subrange(noted.run_start as int, after.run_start as int)
        }
    }
}

/// Wherever the lines break and notes are referred to, a segment is drawn whole and in
/// order: what was drawn on the way and what is left at its end are its text.
pub proof fn lemma_segment_is_drawn_whole(
    facts: SegmentFacts,
    chars: Seq<char>,
    cursor: TextCursor,
    start: int,
    end: int,
)
    requires
        0 <= start <= end <= chars.len() <= usize::MAX,
        cursor.run_start == start,
    ensures
        ({
            let last = facts.cursor_after_text(cursor, start, end);
            &&& start <= last.run_start <= end
            &&& facts.drawn_text(chars, cursor, start, end) + chars.subrange(
                last.run_start as int,
                end,
            ) == chars.subrange(start, end)
        }),
{
    lemma_drawn_up_to_cursor(facts, chars, cursor, start, end);
    let last = facts.cursor_after_text(cursor, start, end);
    assert(chars.subrange(start, last.run_start as int) + chars.subrange(
        last.run_start as int,
        end,
    ) == chars.subrange(start, end));
}

/// A note reference stands in front of its character: when the character is laid out, all
/// characters before it are drawn.
pub proof fn lemma_text_before_a_note_is_drawn(
    facts: SegmentFacts,
    chars: Seq<char>,
    cursor: TextCursor,
    start: int,
    ch: int,
)
    requires
        0 <= start <= ch < chars.len() <= usize::MAX,
        cursor.run_start == start,
        carries_note(facts.notes, ch),
    ensures
        facts.noted(facts.cursor_after_text(cursor, start, ch), ch).run_start == ch,
        facts.drawn_text(chars, cursor, start, ch + 1) == chars.subrange(start, ch),
{
    lemma_drawn_up_to_cursor(facts, chars, cursor, start, ch);
    lemma_drawn_up_to_cursor(facts, chars, cursor, start, ch + 1);
}

proof fn lemma_drawn_up_to_cursor(
    facts: SegmentFacts,
    chars: Seq<char>,
    cursor: TextCursor,
    start: int,
    end: int,
)
    requires
        0 <= start <= end <= chars.len() <= usize::MAX,
        cursor.run_start == start,
    ensures
        ({
            let last = facts.cursor_after_text(cursor, start, end);
            &&& start <= last.run_start <= end
            &&& end > start ==> last.run_start < end
            &&& facts.drawn_text(chars, cursor, start, end) == chars.subrange(
                start,
                last.run_start as int,
            )
        }),
    decreases end - start,
{
    if start < end {
        lemma_drawn_up_to_cursor(facts, chars, cursor, start, end - 1);
        let before = facts.cursor_after_text(cursor, start, end - 1);
        let noted = facts.noted(before, end - 1);
        let after = facts.step(before, end - 1);
        assert(chars.subrange(start, before.run_start as int) + chars.subrange(
            before.run_start as int,
            noted.run_start as int,
        ) + chars.subrange(noted.run_start as int, after.run_start as int) == chars.subrange(
            start,
            after.run_start as int,
        ));
    } else {
        assert(chars.subrange(start, start) == Seq::<char>::empty());
    }
}

/// Where a new line starts.
#[derive(Clone, Copy, Debug, PartialEq, Eq, Structural)]
pub enum WrapTarget {
    /// This far below the first line, in HWPUNIT.
    Stored(i64),
    /// Below the tables.
    BelowTables,
    /// One line further down.
    NextLine,
}

/// Decides where a new line starts: where the file put it; else the first one below
/// the tables, and the others below each other.
pub fn wrap_target(
    para: &Paragraph,
    stored_line: Option<usize>,
    already_below_tables: bool,
    tables_reach_down: bool,
) -> (target: WrapTarget)
    ensures
        match target {
            WrapTarget::Stored(offset) => stored_line is Some && stored_top_offset(
                *para,
                stored_line->0 as int,
            ) == Some(offset as int),
            WrapTarget::BelowTables => !already_below_tables && tables_reach_down,
            WrapTarget::NextLine => already_below_tables || !tables_reach_down,
        },
        !(target is Stored) ==> stored_line is None || stored_top_offset(
            *para,
            stored_line->0 as int,
        ) is None,
{
    if let Some(line) = stored_line {
        if let Some(offset) = inline_table_stored_line_top_offset(para, line) {
            return WrapTarget::Stored(offset);
        }
    }
    if !already_below_tables && tables_reach_down {
        WrapTarget::BelowTables
    } else {
        WrapTarget::NextLine
    }
}

} // verus!
