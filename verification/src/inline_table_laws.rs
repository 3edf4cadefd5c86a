//! What the flow of text around tables promises: nothing is left out, nothing comes twice,
//! and lines break where the file broke them.

use vstd::prelude::*;

use crate::inline_table::breaks_of;
use crate::inline_table::char_wraps;
use crate::inline_table::chars_before;
use crate::inline_table::flow_order_of;
use crate::inline_table::flow_up_to;
use crate::inline_table::gap_before;
use crate::inline_table::gap_cuts;
use crate::inline_table::inline_table_wraps;
use crate::inline_table::inline_tables;
use crate::inline_table::keeps_first_break;
use crate::inline_table::leading_tables;
use crate::inline_table::lemma_breaks_advance;
use crate::inline_table::lemma_chars_before;
use crate::inline_table::lemma_segments_hold_the_text;
use crate::inline_table::line_start_char;
use crate::inline_table::note_at_char;
use crate::inline_table::offsets_fit;
use crate::inline_table::segment;
use crate::inline_table::segments_text;
use crate::inline_table::step_line_index;
use crate::inline_table::stored_breaks;
use crate::inline_table::stored_line_of_char;
use crate::inline_table::stored_top_offset;
use crate::inline_table::table_column_widths;
use crate::inline_table::table_line_index;
use crate::inline_table::table_seat;
use crate::inline_table::text_line_index;
use crate::inline_table::text_segments_of;
use crate::inline_table::total_advance;
use crate::inline_table::wrap_target;
use crate::inline_table::FlowItem;
use crate::inline_table::SegmentFacts;
use crate::inline_table::TableSeat;
use crate::inline_table::TextCursor;
use crate::inline_table::WrapTarget;
use crate::model::Control;
use crate::model::LineSeg;
use crate::model::Paragraph;
use crate::model::Table;
use crate::seqs::indices;

verus! {

proof fn lemma_flow_up_to_places(tables: int, k: int)
    requires
        0 <= tables,
        0 <= k <= usize::MAX,
    ensures
        flow_up_to(tables, k).len() == k + if k <= tables {
            k
        } else {
            tables
        },
        forall|i: int|
            0 <= i < k && i < tables ==> #[trigger] flow_up_to(tables, k)[2 * i]
                == FlowItem::Segment(i as usize),
        forall|i: int|
            0 <= i < k && i < tables ==> #[trigger] flow_up_to(tables, k)[2 * i + 1]
                == (FlowItem::Table { index: i as usize, trailing: false }),
        forall|i: int|
            tables <= i < k ==> #[trigger] flow_up_to(tables, k)[tables + i] == FlowItem::Segment(
                i as usize,
            ),
    decreases k,
{
    if k > 0 {
        lemma_flow_up_to_places(tables, k - 1);
        let before = flow_up_to(tables, k - 1);
        let all = flow_up_to(tables, k);
        assert forall|i: int| 0 <= i < k && i < tables implies #[trigger] all[2 * i]
            == FlowItem::Segment(i as usize) by {
            if i < k - 1 {
                assert(all[2 * i] == before[2 * i]);
            }
        }
        assert forall|i: int| 0 <= i < k && i < tables implies #[trigger] all[2 * i + 1] == (
        FlowItem::Table { index: i as usize, trailing: false }) by {
            if i < k - 1 {
                assert(all[2 * i + 1] == before[2 * i + 1]);
            }
        }
        assert forall|i: int| tables <= i < k implies #[trigger] all[tables + i]
            == FlowItem::Segment(i as usize) by {
            if i < k - 1 {
                assert(all[tables + i] == before[tables + i]);
            }
        }
    }
}

/// Text and tables come in turn, the text first: stretch `i` and table `i` are items `2 * i`
/// and `2 * i + 1` as long as there are both. What is left of either follows in order, and
/// only tables that no text follows are behind all text.
pub proof fn lemma_text_and_tables_come_in_turn(segments: int, tables: int, i: int)
    requires
        0 <= segments <= usize::MAX,
        0 <= tables <= usize::MAX,
        0 <= i,
    ensures
        flow_order_of(segments, tables).len() == segments + tables,
        i < segments && i < tables ==> flow_order_of(segments, tables)[2 * i] == FlowItem::Segment(
            i as usize,
        ) && flow_order_of(segments, tables)[2 * i + 1] == (FlowItem::Table {
            index: i as usize,
            trailing: false,
        }),
        tables <= i < segments ==> flow_order_of(segments, tables)[tables + i]
            == FlowItem::Segment(i as usize),
        segments <= i < tables ==> flow_order_of(segments, tables)[segments + i] == (
        FlowItem::Table { index: i as usize, trailing: true }),
{
    lemma_flow_up_to_places(tables, segments);
    let front = flow_up_to(tables, segments);
    let all = flow_order_of(segments, tables);
    if i < segments && i < tables {
        assert(all[2 * i] == front[2 * i]);
        assert(all[2 * i + 1] == front[2 * i + 1]);
    } else if i < segments {
        assert(all[tables + i] == front[tables + i]);
    }
}

/// The item at a place of the order.
proof fn lemma_flow_item(segments: int, tables: int, at: int)
    requires
        0 <= segments <= usize::MAX,
        0 <= tables <= usize::MAX,
        0 <= at < segments + tables,
    ensures
        flow_order_of(segments, tables).len() == segments + tables,
        ({
            let both = if segments <= tables {
                segments
            } else {
                tables
            };
            let item = flow_order_of(segments, tables)[at];
            &&& at < 2 * both && at % 2 == 0 ==> item == FlowItem::Segment((at / 2) as usize)
            &&& at < 2 * both && at % 2 == 1 ==> item == (FlowItem::Table {
                index: (at / 2) as usize,
                trailing: false,
            })
            &&& at >= 2 * both && segments > tables ==> item == FlowItem::Segment(
                (at - tables) as usize,
            )
            &&& at >= 2 * both && segments <= tables ==> item == (FlowItem::Table {
                index: (at - segments) as usize,
                trailing: true,
            })
        }),
{
    let both = if segments <= tables {
        segments
    } else {
        tables
    };
    if at < 2 * both {
        lemma_text_and_tables_come_in_turn(segments, tables, at / 2);
        if at % 2 == 0 {
            assert(2 * (at / 2) == at);
        } else {
            assert(2 * (at / 2) + 1 == at);
        }
    } else if segments > tables {
        lemma_text_and_tables_come_in_turn(segments, tables, at - tables);
    } else {
        lemma_text_and_tables_come_in_turn(segments, tables, at - segments);
    }
}

/// Every stretch of text of the paragraph is laid out, and none twice: some item is stretch
/// `k`, and any two items that are stretches stand in the order of the text.
pub proof fn lemma_every_stretch_laid_out_once(segments: int, tables: int)
    requires
        0 <= segments <= usize::MAX,
        0 <= tables <= usize::MAX,
    ensures
        forall|k: usize|
            k < segments ==> #[trigger] flow_order_of(segments, tables).contains(
                FlowItem::Segment(k),
            ),
        forall|i: int, j: int|
            0 <= i < j < flow_order_of(segments, tables).len() && (#[trigger] flow_order_of(
                segments,
                tables,
            )[i]) is Segment && (#[trigger] flow_order_of(segments, tables)[j]) is Segment
                ==> flow_order_of(segments, tables)[i]->Segment_0 < flow_order_of(
                segments,
                tables,
            )[j]->Segment_0,
        forall|i: int|
            0 <= i < flow_order_of(segments, tables).len() && (#[trigger] flow_order_of(
                segments,
                tables,
            )[i]) is Segment ==> flow_order_of(segments, tables)[i]->Segment_0 < segments,
{
    let all = flow_order_of(segments, tables);
    lemma_text_and_tables_come_in_turn(segments, tables, 0);
    assert forall|k: usize| k < segments implies #[trigger] all.contains(FlowItem::Segment(k)) by {
        lemma_text_and_tables_come_in_turn(segments, tables, k as int);
        if k < tables {
            assert(all[2 * (k as int)] == FlowItem::Segment(k));
        } else {
            assert(all[tables + k] == FlowItem::Segment(k));
        }
    }
    assert forall|i: int, j: int|
        0 <= i < j < all.len() && (#[trigger] all[i]) is Segment && (
        #[trigger] all[j]) is Segment implies all[i]->Segment_0 < all[j]->Segment_0 by {
        lemma_flow_item(segments, tables, i);
        lemma_flow_item(segments, tables, j);
    }
    assert forall|i: int| 0 <= i < all.len() && (#[trigger] all[i]) is Segment implies all[i]->Segment_0
        < segments by {
        lemma_flow_item(segments, tables, i);
    }
}

/// The tables come in order, and a table that text follows is not behind all text.
pub proof fn lemma_tables_come_in_order(segments: int, tables: int, i: int, j: int)
    requires
        0 <= segments <= usize::MAX,
        0 <= tables <= usize::MAX,
        0 <= i < j < segments + tables,
    ensures
        flow_order_of(segments, tables)[i] is Table && flow_order_of(segments, tables)[j] is Table
            ==> flow_order_of(segments, tables)[i]->index < flow_order_of(segments, tables)[j]->index,
        flow_order_of(segments, tables)[i] is Table && flow_order_of(
            segments,
            tables,
        )[j] is Segment ==> !flow_order_of(segments, tables)[i]->trailing,
{
    lemma_flow_item(segments, tables, i);
    lemma_flow_item(segments, tables, j);
}

/// The text that the items show, put together.
pub open spec fn items_text(
    items: Seq<FlowItem>,
    segments: Seq<(int, int)>,
    chars: Seq<char>,
) -> Seq<char>
    decreases items.len(),
{
    if items.len() == 0 {
        Seq::empty()
    } else {
        items_text(items.drop_last(), segments, chars) + match items.last() {
            FlowItem::Segment(k) => chars.subrange(segments[k as int].0, segments[k as int].1),
            FlowItem::Table { .. } => Seq::empty(),
        }
    }
}

proof fn lemma_items_text_up_to(
    tables: int,
    k: int,
    segments: Seq<(int, int)>,
    chars: Seq<char>,
)
    requires
        0 <= k <= segments.len() <= usize::MAX,
        0 <= tables,
    ensures
        items_text(flow_up_to(tables, k), segments, chars) == segments_text(
            segments.take(k),
            chars,
        ),
    decreases k,
{
    if k > 0 {
        lemma_items_text_up_to(tables, k - 1, segments, chars);
        let before = flow_up_to(tables, k - 1);
        let with_text = before.push(FlowItem::Segment((k - 1) as usize));
        assert(with_text.drop_last() == before);
        assert(segments.take(k).drop_last() == segments.take(k - 1));
        let text = items_text(with_text, segments, chars);
        if k - 1 < tables {
            assert(flow_up_to(tables, k).drop_last() == with_text);
            assert(text + Seq::<char>::empty() == text);
        }
    }
}

proof fn lemma_trailing_tables_show_no_text(
    front: Seq<FlowItem>,
    tail: Seq<FlowItem>,
    segments: Seq<(int, int)>,
    chars: Seq<char>,
)
    requires
        forall|i: int| 0 <= i < tail.len() ==> (#[trigger] tail[i]) is Table,
    ensures
        items_text(front + tail, segments, chars) == items_text(front, segments, chars),
    decreases tail.len(),
{
    if tail.len() == 0 {
        assert(front + tail == front);
    } else {
        lemma_trailing_tables_show_no_text(front, tail.drop_last(), segments, chars);
        assert((front + tail).drop_last() == front + tail.drop_last());
        assert((front + tail).last() == tail.last());
        let text = items_text(front, segments, chars);
        assert(text + Seq::<char>::empty() == text);
    }
}

/// Whatever tables stand in it, a paragraph's text is laid out whole and in order: the text
/// of the items, put together, is the text of the paragraph.
pub proof fn lemma_flow_shows_the_text(
    chars: Seq<char>,
    offsets: Seq<u32>,
    leading: nat,
    tables: int,
)
    requires
        offsets_fit(chars, offsets),
        chars.len() <= usize::MAX,
        offsets.len() <= usize::MAX,
        text_segments_of(chars, offsets, leading).len() <= usize::MAX,
        0 <= tables <= usize::MAX,
    ensures
        items_text(
            flow_order_of(text_segments_of(chars, offsets, leading).len() as int, tables),
            text_segments_of(chars, offsets, leading),
            chars,
        ) == chars,
{
    let segments = text_segments_of(chars, offsets, leading);
    let n = segments.len() as int;
    lemma_segments_hold_the_text(chars, offsets, leading);
    lemma_items_text_up_to(tables, n, segments, chars);
    assert(segments.take(n) == segments);
    let front = flow_up_to(tables, n);
    let all = flow_order_of(n, tables);
    let tail = all.skip(front.len() as int);
    assert(front + tail == all);
    lemma_trailing_tables_show_no_text(front, tail, segments, chars);
}

/// A gap of more than four units beyond the character in front of it cuts the text there,
/// and nothing else does: character `i` starts a stretch of its own just where its stored
/// offset lies that far behind the one before. In front stand `leading` empty stretches.
pub proof fn lemma_stretches_start_at_gaps(
    chars: Seq<char>,
    offsets: Seq<u32>,
    leading: nat,
    i: int,
)
    requires
        offsets_fit(chars, offsets),
        chars.len() <= usize::MAX,
        offsets.len() <= usize::MAX,
        1 <= i < offsets.len(),
    ensures
        (exists|k: int|
            leading < k < text_segments_of(chars, offsets, leading).len() && (
            #[trigger] text_segments_of(chars, offsets, leading)[k]).0 == i) <==> offsets[i]
            - offsets[i - 1] > 4 + if chars[i - 1] as u32 >= 0x10000 {
            2int
        } else {
            1int
        },
        forall|k: int|
            0 <= k < leading ==> #[trigger] text_segments_of(chars, offsets, leading)[k] == (
            0int,
            0int,
        ),
        text_segments_of(chars, offsets, leading)[leading as int].0 == 0,
        text_segments_of(chars, offsets, leading).last().1 == chars.len(),
        forall|k: int|
            leading < k < text_segments_of(chars, offsets, leading).len() ==> (
            #[trigger] text_segments_of(chars, offsets, leading)[k]).0 == text_segments_of(
                chars,
                offsets,
                leading,
            )[k - 1].1,
{
    let cuts = gap_cuts(chars, offsets);
    let all = indices(offsets.len());
    let p = |i: usize| gap_before(chars, offsets, i as int);
    let segments = text_segments_of(chars, offsets, leading);
    let at = i as usize;
    if p(at) {
        assert(all[i] == at);
        assert(all.contains(at));
        all.lemma_filter_contains(p, i);
        let c = choose|c: int| 0 <= c < cuts.len() && cuts[c] == at;
        assert(segments[leading + c + 1] == segment(cuts, c + 1, chars.len() as int));
        assert(segments[leading + c + 1].0 == i);
    }
    if exists|k: int| leading < k < segments.len() && (#[trigger] segments[k]).0 == i {
        let k = choose|k: int| leading < k < segments.len() && (#[trigger] segments[k]).0 == i;
        let c = k - leading - 1;
        assert(segments[k] == segment(cuts, c + 1, chars.len() as int));
        assert(cuts[c] == at);
        assert(cuts.contains(at));
        all.lemma_filter_contains_rev(p, at);
    }
    assert forall|k: int| leading < k < segments.len() implies (#[trigger] segments[k]).0
        == segments[k - 1].1 by {
        let c = k - leading;
        assert(segments[k] == segment(cuts, c, chars.len() as int));
        assert(segments[k - 1] == segment(cuts, c - 1, chars.len() as int));
    }
    assert(segments[leading as int] == segment(cuts, 0, chars.len() as int));
    assert(segments.last() == segment(cuts, cuts.len() as int, chars.len() as int));
}

proof fn lemma_stored_break_is_a_line_start(para: Paragraph, keep_first: bool, n: int, b: int)
    requires
        n <= para.line_segs@.len(),
        0 <= b < stored_breaks(para, keep_first, n).len(),
    ensures
        ({
            let (c, line) = stored_breaks(para, keep_first, n)[b];
            &&& 1 <= line < n
            &&& c == line_start_char(para, line)
        }),
    decreases n,
{
    if n > 1 {
        let before = stored_breaks(para, keep_first, n - 1);
        if b < before.len() {
            lemma_stored_break_is_a_line_start(para, keep_first, n - 1, b);
        }
    }
}

proof fn lemma_line_has_its_break(para: Paragraph, keep_first: bool, n: int, line: int)
    requires
        1 <= line < n <= para.line_segs@.len(),
        0 < line_start_char(para, line) <= para.text@.len(),
    ensures
        exists|b: int|
            0 <= b < stored_breaks(para, keep_first, n).len() && (#[trigger] stored_breaks(
                para,
                keep_first,
                n,
            )[b]).0 >= line_start_char(para, line) && stored_breaks(para, keep_first, n)[b].1
                <= line,
    decreases n,
{
    let before = stored_breaks(para, keep_first, n - 1);
    let all = stored_breaks(para, keep_first, n);
    if line < n - 1 {
        lemma_line_has_its_break(para, keep_first, n - 1, line);
        let b = choose|b: int|
            0 <= b < before.len() && (#[trigger] before[b]).0 >= line_start_char(para, line)
                && before[b].1 <= line;
        assert(all[b] == before[b]);
    } else if before.len() == 0 || before.last().0 < line_start_char(para, line) {
        assert(all[all.len() - 1] == (line_start_char(para, line), line));
    } else {
        let b = before.len() - 1;
        lemma_stored_break_is_a_line_start(para, keep_first, n - 1, b);
        assert(all[b] == before[b]);
    }
}

/// A line breaks at the first character that is stored at or behind the start of a stored
/// line; behind all characters that is the end of the text.
pub proof fn lemma_breaks_are_line_starts(para: Paragraph, table_is_inline: bool, b: int)
    requires
        0 <= b < breaks_of(para, table_is_inline).len(),
    ensures
        ({
            let (c, line) = breaks_of(para, table_is_inline)[b];
            let start = para.line_segs@[line].lifted_start;
            &&& 1 <= line < para.line_segs@.len()
            &&& c < para.char_offsets@.len() ==> forall|i: int|
                0 <= i < c && i < para.char_offsets@.len() ==> (#[trigger] para.char_offsets@[i])
                    < start
            &&& para.char_offsets@[c] >= start || c == para.text@.len()
        }),
{
    let keep = keeps_first_break(para, table_is_inline);
    let n = para.line_segs@.len() as int;
    lemma_stored_break_is_a_line_start(para, keep, n, b);
    lemma_breaks_advance(para, table_is_inline);
    let (c, line) = breaks_of(para, table_is_inline)[b];
    lemma_chars_before(para.char_offsets@, para.line_segs@[line].lifted_start);
}

/// Every stored line behind the first that starts inside the text breaks it: there is a
/// break of that line, or of one before it, that lies no further in front.
pub proof fn lemma_stored_lines_break_the_text(
    para: Paragraph,
    table_is_inline: bool,
    line: int,
    c: int,
)
    requires
        1 <= line < para.line_segs@.len(),
        0 < c < para.char_offsets@.len(),
        c <= para.text@.len(),
        para.char_offsets@[c] >= para.line_segs@[line].lifted_start,
        forall|i: int|
            0 <= i < c ==> (#[trigger] para.char_offsets@[i]) < para.line_segs@[line].lifted_start,
    ensures
        exists|b: int|
            0 <= b < breaks_of(para, table_is_inline).len() && (#[trigger] breaks_of(
                para,
                table_is_inline,
            )[b]).0 >= c && breaks_of(para, table_is_inline)[b].1 <= line,
{
    let start = para.line_segs@[line].lifted_start;
    lemma_chars_before(para.char_offsets@, start);
    let found = chars_before(para.char_offsets@, start) as int;
    if found < c {
        assert(para.char_offsets@[found] < start);
    } else if found > c {
        assert(para.char_offsets@[c] < start);
    }
    assert(line_start_char(para, line) == c);
    let keep = keeps_first_break(para, table_is_inline);
    let n = para.line_segs@.len() as int;
    lemma_line_has_its_break(para, keep, n, line);
    let breaks = stored_breaks(para, keep, n);
    let b = choose|b: int|
        0 <= b < breaks.len() && (#[trigger] breaks[b]).0 >= line_start_char(para, line)
            && breaks[b].1 <= line;
    assert(breaks_of(para, table_is_inline) == breaks);
    assert(breaks_of(para, table_is_inline)[b].0 >= c);
}

/// A stored line lies as far below the first as the file says, if it lies below it at all.
pub proof fn lemma_stored_top_is_the_files(para: Paragraph, line: int)
    ensures
        stored_top_offset(para, line) matches Some(offset) ==> {
            &&& 0 < line < para.line_segs@.len()
            &&& offset > 0
            &&& para.line_segs@[0].vertical_pos + offset == para.line_segs@[line].vertical_pos
            &&& !para.line_segs@[0].implementation_property
            &&& !para.line_segs@[line].implementation_property
        },
{
}

/// The first line takes its height, or that of its text, and its spacing: the second one
/// keeps its stored place up to a quarter more than that, and not further down.
pub proof fn lemma_second_line_is_near(para: Paragraph)
    requires
        para.line_segs@.len() > 1,
        !para.line_segs@[0].implementation_property,
        !para.line_segs@[1].implementation_property,
        para.line_segs@[1].vertical_pos > para.line_segs@[0].vertical_pos,
        para.line_segs@[0].line_height >= 0,
        para.line_segs@[0].line_spacing > 0,
    ensures
        ({
            let first = para.line_segs@[0];
            let tall = if first.line_height >= first.text_height {
                first.line_height
            } else {
                first.text_height
            };
            let below = para.line_segs@[1].vertical_pos - first.vertical_pos;
            stored_top_offset(para, 1) is Some <==> 4 * below < 5 * (tall + first.line_spacing) + 4
                && below <= (tall + first.line_spacing) + (tall + first.line_spacing) / 4
        }),
{
    assert(total_advance(para.line_segs@, 0) == 0);
    reveal_with_fuel(total_advance, 2);
}

proof fn lemma_stacked_lines(segs: Seq<LineSeg>, n: int)
    requires
        0 <= n < segs.len(),
        forall|i: int|
            0 <= i < segs.len() - 1 ==> (#[trigger] segs[i + 1]).vertical_pos
                == segs[i].vertical_pos + (if segs[i].line_height >= segs[i].text_height {
                segs[i].line_height
            } else {
                segs[i].text_height
            }) + segs[i].line_spacing,
    ensures
        total_advance(segs, n) == segs[n].vertical_pos - segs[0].vertical_pos,
    decreases n,
{
    if n > 0 {
        lemma_stacked_lines(segs, n - 1);
        assert(segs[(n - 1) + 1].vertical_pos == segs[n].vertical_pos);
    }
}

/// Lines of the file that are stacked without a gap all keep their stored place.
pub proof fn lemma_stacked_lines_keep_their_place(para: Paragraph, line: int)
    requires
        0 < line < para.line_segs@.len(),
        !para.line_segs@[0].implementation_property,
        !para.line_segs@[line].implementation_property,
        forall|i: int|
            0 <= i < para.line_segs@.len() - 1 ==> (#[trigger] para.line_segs@[i
                + 1]).vertical_pos == para.line_segs@[i].vertical_pos + (
            if para.line_segs@[i].line_height >= para.line_segs@[i].text_height {
                para.line_segs@[i].line_height
            } else {
                para.line_segs@[i].text_height
            }) + para.line_segs@[i].line_spacing,
        para.line_segs@[line].vertical_pos > para.line_segs@[0].vertical_pos,
    ensures
        stored_top_offset(para, line) == Some(
            para.line_segs@[line].vertical_pos - para.line_segs@[0].vertical_pos,
        ),
{
    lemma_stacked_lines(para.line_segs@, line);
}

/// The tables of the text are its controls that are tables and laid out like characters,
/// all of them and in order.
pub proof fn lemma_tables_of_the_text(para: &Paragraph, r: Vec<usize>, i: int, j: int)
    requires
        call_ensures(inline_tables, (para,), r),
        para.controls@.len() <= usize::MAX,
    ensures
        0 <= i < para.controls@.len() ==> (r@.contains(i as usize) <==> (
        para.controls@[i] matches Control::Table(table) && table.common.treat_as_char)),
        0 <= i < j < r@.len() ==> r@[i] < r@[j],
        0 <= i < r@.len() ==> r@[i] < para.controls@.len(),
{
    let p = |i: usize| crate::line_geometry::inline_table_at(*para, i as int);
    let all = indices(para.controls@.len());
    lemma_filtered_indices_ascend(para.controls@.len(), p, para.controls@.len() as int);
    assert(all.take(para.controls@.len() as int) == all);
    if 0 <= i < para.controls@.len() {
        assert(all[i] == i as usize);
        assert(all.contains(i as usize));
        if p(i as usize) {
            all.lemma_filter_contains(p, i);
        }
        if r@.contains(i as usize) {
            all.lemma_filter_contains_rev(p, i as usize);
        }
    }
}

/// The indices that a filter keeps ascend.
pub proof fn lemma_filtered_indices_ascend(len: nat, p: spec_fn(usize) -> bool, n: int)
    requires
        0 <= n <= len <= usize::MAX,
    ensures
        forall|i: int|
            0 <= i < indices(len).take(n).filter(p).len() ==> #[trigger] indices(len).take(
                n,
            ).filter(p)[i] < n,
        forall|i: int, j: int|
            0 <= i < j < indices(len).take(n).filter(p).len() ==> #[trigger] indices(len).take(
                n,
            ).filter(p)[i] < #[trigger] indices(len).take(n).filter(p)[j],
    decreases n,
{
    if n == 0 {
        crate::seqs::lemma_filter_start(indices(len), p);
    } else {
        lemma_filtered_indices_ascend(len, p, n - 1);
        crate::seqs::lemma_filter_step(indices(len), p, n - 1);
    }
}

/// The tables in front of the text are counted one by one: one more table counts just where
/// it stands at the first character.
pub proof fn lemma_leading_tables_add_up(para: Paragraph, tables: Seq<usize>, index: usize)
    requires
        index < para.controls@.len(),
    ensures
        leading_tables(para, Seq::empty()) == 0,
        leading_tables(para, tables.push(index)) - leading_tables(para, tables) == if index
            < para.control_positions@.len() && para.control_positions@[index as int] == 0 {
            1int
        } else {
            0int
        },
{
    assert(tables.push(index).drop_last() == tables);
}

/// A column is as wide as its widest cell of one column: no such cell is wider, and where
/// there is one, one of them is as wide.
pub proof fn lemma_column_holds_its_cells(table: &Table, widths: Vec<i32>, i: int, c: int)
    requires
        call_ensures(table_column_widths, (table,), widths),
        0 <= i < table.cells@.len(),
        0 <= c < table.col_count,
        table.cells@[i].col == c,
        table.cells@[i].col_span <= 1,
        table.cells@[i].width <= i32::MAX,
    ensures
        widths@.len() == table.col_count,
        table.cells@[i].width <= widths@[c],
        (forall|k: int|
            #![trigger table.cells@[k]]
            0 <= k < table.cells@.len() && table.cells@[k].col == c && table.cells@[k].col_span <= 1
                ==> table.cells@[k].width <= table.cells@[i].width) ==> widths@[c]
            == table.cells@[i].width,
{
    assert(crate::inline_table::is_column_width(*table, c, widths@[c] as int));
    assert(crate::inline_table::cell_sets_column(table.cells@[i], c));
}

/// A column that no cell of its own stands in has no width.
pub proof fn lemma_column_without_cells(table: &Table, widths: Vec<i32>, c: int)
    requires
        call_ensures(table_column_widths, (table,), widths),
        0 <= c < table.col_count,
        forall|k: int|
            #![trigger table.cells@[k]]
            0 <= k < table.cells@.len() ==> table.cells@[k].col != c || table.cells@[k].col_span
                > 1,
    ensures
        widths@[c] == 0,
{
    assert(crate::inline_table::is_column_width(*table, c, widths@[c] as int));
}

/// The tables stand on the first stored line that is as high as the first of them.
pub proof fn lemma_tables_stand_on_a_high_line(para: &Paragraph, height: u32, i: int, r: usize)
    requires
        call_ensures(table_line_index, (para, Some(height)), r),
        0 <= i < para.line_segs@.len(),
        para.line_segs@[i].line_height >= 0,
    ensures
        i < r ==> para.line_segs@[i].line_height < height,
        i == r && r > 0 ==> para.line_segs@[i].line_height >= height,
        para.line_segs@[i].line_height >= height ==> r <= i,
{
}

/// Text and tables stand on different stored lines, the text on the first that is free; the
/// step is that of the text, or of the only line.
pub proof fn lemma_text_has_a_line_of_its_own(
    line_count: usize,
    table_line: usize,
    text: Option<usize>,
    step: Option<usize>,
)
    requires
        call_ensures(text_line_index, (line_count, table_line), text),
        call_ensures(step_line_index, (line_count, table_line), step),
    ensures
        text matches Some(line) ==> line < line_count && line != table_line && line <= 1 && (line
            == 1 ==> table_line == 0) && step == Some(line),
        text is None ==> line_count <= 1 && (line_count == 1 ==> table_line == 0),
        text is None && line_count == 1 ==> step == Some(0usize),
        line_count == 0 ==> step is None,
{
}

/// A character stands on the last stored line that starts at it or before: the line starts
/// no later, and every later line does.
pub proof fn lemma_character_stands_on_its_line(
    para: &Paragraph,
    char_idx: usize,
    i: int,
    r: Option<usize>,
)
    requires
        call_ensures(stored_line_of_char, (para, char_idx), r),
        para.line_segs@.len() >= 2,
        char_idx < para.char_offsets@.len(),
        0 <= i < para.line_segs@.len(),
    ensures
        para.line_segs@[i].lifted_start <= para.char_offsets@[char_idx as int] ==> (
        r matches Some(line) && line >= i),
        r matches Some(line) ==> line < para.line_segs@.len()
            && para.line_segs@[line as int].lifted_start <= para.char_offsets@[char_idx as int],
{
}

/// A table moves down only from behind something on its line that leaves too little room:
/// one that leads the text, that stands alone or that fits stays; one in the text that does
/// not fit moves, unless it is the whole stored line.
pub proof fn lemma_table_moves_down(
    para: &Paragraph,
    table: &Table,
    position: Option<usize>,
    text_len: usize,
    occupied: bool,
    exceeds: bool,
    r: bool,
)
    requires
        call_ensures(
            inline_table_wraps,
            (para, table, position, text_len, occupied, exceeds),
            r,
        ),
    ensures
        !occupied || !exceeds ==> !r,
        position is None || position == Some(0usize) || position->0 > text_len ==> !r,
        para.line_segs@.len() != 1 && occupied && exceeds && position is Some && 0 < position->0
            <= text_len ==> r,
        para.line_segs@.len() == 1 && !para.line_segs@[0].implementation_property
            && table.outer_margin_top > 0 && table.outer_margin_bottom > 0 && 0
            < table.common.height <= i32::MAX && para.line_segs@[0].line_height
            == table.outer_margin_top + table.common.height + table.outer_margin_bottom ==> !r,
{
}

/// A table sits on the base line unless it would rise above its line; then it hangs from
/// the line's top, below its margin unless all text is in front of it.
pub proof fn lemma_table_sits_on_the_base_line(
    para: &Paragraph,
    table: &Table,
    above_line: bool,
    trailing: bool,
    seat: TableSeat,
)
    requires
        call_ensures(table_seat, (para, table, above_line, trailing), seat),
        para.line_segs@.len() != 1 || para.line_segs@[0].implementation_property,
    ensures
        seat == TableSeat::BaseLine <==> !above_line,
        above_line ==> (seat == TableSeat::LineTop <==> trailing),
        above_line ==> (seat == TableSeat::TopMargin <==> !trailing),
{
}

/// A table that is the whole stored line stands its margin below the top, whatever else
/// holds.
pub proof fn lemma_table_that_is_the_line(
    para: &Paragraph,
    table: &Table,
    above_line: bool,
    trailing: bool,
    seat: TableSeat,
)
    requires
        call_ensures(table_seat, (para, table, above_line, trailing), seat),
        para.line_segs@.len() == 1,
        !para.line_segs@[0].implementation_property,
        table.outer_margin_top > 0,
        table.outer_margin_bottom > 0,
        0 < table.common.height <= i32::MAX,
        para.line_segs@[0].line_height == table.outer_margin_top + table.common.height
            + table.outer_margin_bottom,
    ensures
        seat == TableSeat::TopMargin,
{
}

/// The note found at a character is the first that refers from there.
pub proof fn lemma_note_found_at_its_character(
    notes: &[(usize, u16, usize)],
    ch: usize,
    j: int,
    r: Option<usize>,
)
    requires
        call_ensures(note_at_char, (notes, ch), r),
        0 <= j < notes@.len(),
        notes@[j].0 == ch,
    ensures
        r matches Some(k) && k <= j && notes@[k as int].0 == ch,
{
}

/// A stored break that is reached ends the line; as long as one is ahead nothing else does,
/// however wide the text is measured; behind the last one the measured width decides.
pub proof fn lemma_stored_breaks_decide_first(
    cursor: TextCursor,
    breaks: Seq<(usize, usize)>,
    ch: int,
    overflows: bool,
)
    ensures
        cursor.next_break < breaks.len() && breaks[cursor.next_break as int].0 <= ch ==> char_wraps(
            cursor,
            breaks,
            ch,
            overflows,
        ),
        cursor.next_break < breaks.len() && breaks[cursor.next_break as int].0 > ch ==> !char_wraps(
            cursor,
            breaks,
            ch,
            overflows,
        ),
        cursor.next_break >= breaks.len() ==> char_wraps(cursor, breaks, ch, overflows)
            == overflows,
{
}

/// Every stored break inside the text is used, each at its own character: when the text is
/// laid out up to `end`, just the breaks in front of `end` are.
pub proof fn lemma_every_stored_break_is_used(
    facts: SegmentFacts,
    cursor: TextCursor,
    start: int,
    end: int,
    b: int,
)
    requires
        0 <= start <= end <= usize::MAX,
        0 <= b < facts.breaks.len() <= usize::MAX,
        forall|i: int, j: int|
            0 <= i < j < facts.breaks.len() ==> (#[trigger] facts.breaks[i]).0 < (
            #[trigger] facts.breaks[j]).0,
        forall|i: int|
            0 <= i < facts.breaks.len() ==> (i < cursor.next_break <==> (
            #[trigger] facts.breaks[i]).0 < start),
        cursor.next_break <= facts.breaks.len(),
    ensures
        b < facts.cursor_after_text(cursor, start, end).next_break <==> facts.breaks[b].0 < end,
{
    lemma_breaks_used_up_to(facts, cursor, start, end);
}

proof fn lemma_breaks_used_up_to(facts: SegmentFacts, cursor: TextCursor, start: int, end: int)
    requires
        0 <= start <= end <= usize::MAX,
        facts.breaks.len() <= usize::MAX,
        forall|i: int, j: int|
            0 <= i < j < facts.breaks.len() ==> (#[trigger] facts.breaks[i]).0 < (
            #[trigger] facts.breaks[j]).0,
        forall|i: int|
            0 <= i < facts.breaks.len() ==> (i < cursor.next_break <==> (
            #[trigger] facts.breaks[i]).0 < start),
        cursor.next_break <= facts.breaks.len(),
    ensures
        facts.cursor_after_text(cursor, start, end).next_break <= facts.breaks.len(),
        forall|i: int|
            0 <= i < facts.breaks.len() ==> (i < facts.cursor_after_text(
                cursor,
                start,
                end,
            ).next_break <==> (#[trigger] facts.breaks[i]).0 < end),
    decreases end - start,
{
    if start < end {
        lemma_breaks_used_up_to(facts, cursor, start, end - 1);
        let before = facts.cursor_after_text(cursor, start, end - 1);
        let after = facts.cursor_after_text(cursor, start, end);
        assert(after == facts.step(before, end - 1));
        let k = before.next_break as int;
        if k < facts.breaks.len() {
            assert(facts.breaks[k].0 >= end - 1);
            if facts.breaks[k].0 <= end - 1 {
                assert forall|i: int| 0 <= i < facts.breaks.len() implies (i < after.next_break
                    <==> (#[trigger] facts.breaks[i]).0 < end) by {
                    if i > k {
                        assert(facts.breaks[k].0 < facts.breaks[i].0);
                    }
                }
            } else {
                assert forall|i: int| 0 <= i < facts.breaks.len() implies (i < after.next_break
                    <==> (#[trigger] facts.breaks[i]).0 < end) by {
                    if i > k {
                        assert(facts.breaks[k].0 < facts.breaks[i].0);
                    }
                }
            }
        }
    }
}

/// A line that the file placed goes there; of the others the first goes below the tables if
/// these reach down, and each later one a line further.
pub proof fn lemma_wrapped_line_goes_where_the_file_put_it(
    para: &Paragraph,
    stored_line: Option<usize>,
    already_below: bool,
    tables_reach_down: bool,
    target: WrapTarget,
)
    requires
        call_ensures(wrap_target, (para, stored_line, already_below, tables_reach_down), target),
    ensures
        target matches WrapTarget::Stored(offset) ==> (stored_line matches Some(line) && 0 < line
            < para.line_segs@.len() && offset > 0 && para.line_segs@[0].vertical_pos + offset
            == para.line_segs@[line as int].vertical_pos),
        stored_line is None && tables_reach_down && !already_below ==> target
            == WrapTarget::BelowTables,
        stored_line is None && (already_below || !tables_reach_down) ==> target
            == WrapTarget::NextLine,
        stored_line matches Some(line) && stored_top_offset(*para, line as int) is Some
            ==> target is Stored,
{
}

} // verus!
