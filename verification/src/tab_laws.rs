//! What tabs promise: what they align, and what leaves them waiting.

use vstd::prelude::*;

use crate::composed::ComposedTextRun;
use crate::tab_flow::number_end;
use crate::tab_flow::NumberEnd;
use crate::tab_flow::RunStart;
use crate::tab_flow::TabWait;
use crate::tabs::blank_after_last_tab;
use crate::tabs::ends_in_tab;
use crate::tabs::intra_run_tab;
use crate::tabs::is_last_tab;
use crate::tabs::last_tab_to_resolve;
use crate::tabs::leader_digits_of;
use crate::tabs::objects_behind_tab;
use crate::tabs::stop_aligns;
use crate::tabs::stops_decide;
use crate::tabs::tab_block_end;
use crate::tabs::tab_block_over_runs;
use crate::tabs::LeaderDigits;
use crate::tabs::TabStop;
use crate::text::all_white;
use crate::text::trim;

verus! {

/// A text with a tab at its end ends in it; spaces behind the tab change nothing, and any
/// other character does.
pub proof fn lemma_what_ends_in_a_tab(text: Seq<char>, c: char)
    ensures
        ends_in_tab(text.push('\t')),
        c == ' ' || c == '\u{2007}' ==> ends_in_tab(text.push(c)) == ends_in_tab(text),
        c != '\t' && c != ' ' && c != '\u{2007}' ==> !ends_in_tab(text.push(c)),
        !ends_in_tab(Seq::empty()),
{
    assert(is_last_tab(text.push('\t'), text.len() as int));
    let longer = text.push(c);
    if c == ' ' || c == '\u{2007}' {
        if ends_in_tab(text) {
            let i = choose|i: int|
                #[trigger] is_last_tab(text, i) && forall|j: int|
                    i < j < text.len() ==> #[trigger] text[j] == ' ' || text[j] == '\u{2007}';
            assert(is_last_tab(longer, i));
        }
        if ends_in_tab(longer) {
            let i = choose|i: int|
                #[trigger] is_last_tab(longer, i) && forall|j: int|
                    i < j < longer.len() ==> #[trigger] longer[j] == ' ' || longer[j]
                        == '\u{2007}';
            assert forall|j: int| i < j < text.len() implies #[trigger] text[j] != '\t' && (text[j]
                == ' ' || text[j] == '\u{2007}') by {
                assert(longer[j] == text[j]);
            }
            assert(is_last_tab(text, i));
        }
    }
    if c != '\t' && c != ' ' && c != '\u{2007}' && ends_in_tab(longer) {
        let i = choose|i: int|
            #[trigger] is_last_tab(longer, i) && forall|j: int|
                i < j < longer.len() ==> #[trigger] longer[j] == ' ' || longer[j] == '\u{2007}';
        assert(longer[text.len() as int] == c);
        assert(i < text.len());
    }
}

/// A tab at the end of a text has nothing visible behind it; white space behind it changes
/// nothing, and a visible character does.
pub proof fn lemma_what_is_blank_behind_a_tab(text: Seq<char>, c: char)
    ensures
        blank_after_last_tab(text.push('\t')),
        c == ' ' ==> blank_after_last_tab(text.push(c)) == blank_after_last_tab(text),
        '!' as u32 <= c as u32 <= '~' as u32 ==> !blank_after_last_tab(text.push(c)),
        !blank_after_last_tab(Seq::empty()),
{
    assert(is_last_tab(text.push('\t'), text.len() as int));
    let n = text.len() as int;
    let longer = text.push(c);
    assert(text.push('\t').skip(n + 1).len() == 0);
    if c == ' ' {
        if blank_after_last_tab(text) {
            let i = choose|i: int| #[trigger]
                is_last_tab(text, i) && all_white(text.skip(i + 1));
            assert(is_last_tab(longer, i));
            assert forall|j: int| 0 <= j < longer.skip(i + 1).len() implies
                crate::text::is_white_space_code(#[trigger] longer.skip(i + 1)[j] as u32) by {
                if j < text.skip(i + 1).len() {
                    assert(longer.skip(i + 1)[j] == text.skip(i + 1)[j]);
                }
            }
        }
        if blank_after_last_tab(longer) {
            let i = choose|i: int| #[trigger]
                is_last_tab(longer, i) && all_white(longer.skip(i + 1));
            assert forall|j: int| i < j < text.len() implies #[trigger] text[j] != '\t' by {
                assert(longer[j] == text[j]);
            }
            assert(is_last_tab(text, i));
            assert forall|j: int| 0 <= j < text.skip(i + 1).len() implies
                crate::text::is_white_space_code(#[trigger] text.skip(i + 1)[j] as u32) by {
                assert(longer.skip(i + 1)[j] == text.skip(i + 1)[j]);
            }
        }
    }
    if '!' as u32 <= c as u32 <= '~' as u32 && blank_after_last_tab(longer) {
        let i = choose|i: int| #[trigger]
            is_last_tab(longer, i) && all_white(longer.skip(i + 1));
        assert(i < n) by {
            assert(longer[n] == c);
        }
        assert(longer.skip(i + 1)[n - i - 1] == c);
    }
}

/// The stops of the paragraph decide about a tab for which nothing is stored, or only its
/// place; stored data of a right or centre tab leaves it to them too, and that of a left or
/// decimal one does not.
pub proof fn lemma_what_stops_decide(
    tab_extended: Seq<[u16; 7]>,
    placeholders: Seq<bool>,
    index: int,
)
    requires
        placeholders.len() == tab_extended.len(),
        0 <= index,
    ensures
        index >= tab_extended.len() ==> stops_decide(tab_extended, placeholders, index),
        index < tab_extended.len() && placeholders[index] ==> stops_decide(
            tab_extended,
            placeholders,
            index,
        ),
        index < tab_extended.len() && !placeholders[index] && 0x200 <= tab_extended[index]@[2]
            < 0x400 ==> stops_decide(tab_extended, placeholders, index),
        index < tab_extended.len() && !placeholders[index] && (tab_extended[index]@[2] < 0x200
            || tab_extended[index]@[2] >= 0x400) ==> !stops_decide(
            tab_extended,
            placeholders,
            index,
        ),
{
}

/// A run leaves its last tab to be resolved just where it has one and the stops decide
/// about it; no tab stands behind it.
pub proof fn lemma_last_tab_is_resolved(
    chars: &[char],
    index: usize,
    tab_extended: &[[u16; 7]],
    placeholders: &[bool],
    i: int,
    r: Option<usize>,
)
    requires
        call_ensures(last_tab_to_resolve, (chars, index, tab_extended, placeholders), r),
        0 <= i < chars@.len(),
        chars@[i] == '\t',
    ensures
        r matches Some(at) ==> i <= at < chars@.len() && chars@[at as int] == '\t',
        index >= tab_extended@.len() ==> r is Some,
{
    assert(chars@.contains(chars@[i]));
    if let Some(at) = r {
        if i > at {
            assert(chars@[i] != '\t');
        }
    }
}

/// A tab inside a run aligns what is visible behind it in the run; with nothing visible
/// there it is left to the next run.
pub proof fn lemma_tab_inside_a_run(
    chars: &[char],
    base: usize,
    tab_extended: &[[u16; 7]],
    placeholders: &[bool],
    at: int,
    r: Option<usize>,
)
    requires
        call_ensures(intra_run_tab, (chars, base, tab_extended, placeholders), r),
        0 <= at < chars@.len() <= usize::MAX,
        chars@[at] == '\t',
        forall|j: int| at < j < chars@.len() ==> #[trigger] chars@[j] != '\t',
    ensures
        r matches Some(i) ==> i == at,
        all_white(chars@.skip(at + 1)) ==> r is None,
        !all_white(chars@.skip(at + 1)) && tab_extended@.len() == 0 ==> r == Some(at as usize),
{
    assert(is_last_tab(chars@, at));
    if tab_extended@.len() == 0 {
        assert(stops_decide(
            tab_extended@,
            placeholders@,
            base + crate::text::occurrences(chars@.take(at), '\t'),
        ));
    }
    if let Some(i) = r {
        if i < at {
            assert(chars@[at] != '\t');
        } else if i > at {
            assert(chars@[i as int] != '\t');
        }
    }
}

/// Only stops to the right and to the centre align what follows.
pub proof fn lemma_stops_that_align(tab_type: u8, r: bool)
    requires
        call_ensures(stop_aligns, (tab_type,), r),
    ensures
        tab_type == 0 || tab_type > 2 ==> !r,
        1 <= tab_type <= 2 ==> r,
{
}

/// Where a number is awaited, white space leaves the wait; nothing happens where none is
/// awaited.
pub proof fn lemma_wait_for_a_number(text: Seq<char>)
    ensures
        leader_digits_of(false, text) == LeaderDigits::Idle,
        all_white(text) <==> leader_digits_of(true, text) == LeaderDigits::Wait,
{
}

/// A run with a character between its white space that is no digit is not the number, and
/// ends the wait.
pub proof fn lemma_no_number(text: Seq<char>, i: int)
    requires
        0 <= i < trim(text).len(),
        trim(text)[i] < '0' || trim(text)[i] > '9',
    ensures
        leader_digits_of(true, text) == LeaderDigits::Drop,
{
    crate::text::lemma_trim_empty_iff_white(text);
}

/// A run of digits, white space around them left aside, is the number.
pub proof fn lemma_number_of_digits(text: Seq<char>)
    requires
        trim(text).len() > 0,
        forall|i: int| 0 <= i < trim(text).len() ==> '0' <= #[trigger] trim(text)[i] <= '9',
    ensures
        leader_digits_of(true, text) == LeaderDigits::Place,
{
    crate::text::lemma_trim_empty_iff_white(text);
}

/// A visible run behind a tab stands where the stop asks for: it ends at a right stop, with
/// the line behind a leader, and has its middle at a centre stop.
pub proof fn lemma_stop_places_the_run<W>(
    wait: TabWait<W>,
    stop: TabStop<W>,
    text: Seq<char>,
    stops: Seq<TabStop<W>>,
)
    requires
        wait.stop == Some(stop),
        !all_white(text),
    ensures
        stop.tab_type == 1 && stop.fill_type == 0 ==> wait.start_of(text, stops)
            == RunStart::EndsAt(stop.position),
        stop.tab_type == 1 && stop.fill_type != 0 ==> wait.start_of(text, stops) == RunStart::<
            W,
        >::EndsWithLine,
        stop.tab_type == 2 ==> wait.start_of(text, stops) == RunStart::CenteredAt(stop.position),
        stop.tab_type != 1 && stop.tab_type != 2 && !wait.awaits_number ==> wait.start_of(
            text,
            stops,
        ) == RunStart::<W>::Flow,
{
}

/// A page number goes to the last stop that sets text to the right behind a leader.
pub proof fn lemma_number_goes_to_the_last_leader<W>(
    wait: TabWait<W>,
    text: Seq<char>,
    stops: Seq<TabStop<W>>,
    i: int,
)
    requires
        wait.stop is None,
        wait.awaits_number,
        leader_digits_of(true, text) == LeaderDigits::Place,
        stops.len() <= usize::MAX,
        0 <= i < stops.len(),
        stops[i].tab_type == 1,
        stops[i].fill_type != 0,
    ensures
        wait.start_of(text, stops) matches RunStart::Number(k) && i <= k < stops.len()
            && stops[k as int].tab_type == 1 && stops[k as int].fill_type != 0,
{
    lemma_last_leader_is_behind(stops, i);
}

proof fn lemma_last_leader_is_behind<W>(stops: Seq<TabStop<W>>, i: int)
    requires
        0 <= i < stops.len(),
        stops[i].tab_type == 1,
        stops[i].fill_type != 0,
    ensures
        crate::tab_flow::last_leader(stops) matches Some(k) && i <= k < stops.len()
            && stops[k].tab_type == 1 && stops[k].fill_type != 0,
    decreases stops.len(),
{
    if i < stops.len() - 1 && !crate::tabs::is_right_leader(stops.last()) {
        lemma_last_leader_is_behind(stops.drop_last(), i);
    }
}

/// A run that ends in a tab leaves that tab's stop, whatever was open before; one without a
/// tab leaves all as it was.
pub proof fn lemma_tab_leaves_its_stop<W>(
    wait: TabWait<W>,
    text: Seq<char>,
    stops: Seq<TabStop<W>>,
    resolved: Option<TabStop<W>>,
)
    ensures
        wait.behind_run(text.push('\t'), stops, resolved).stop == resolved,
        !text.contains('\t') ==> wait.behind_run(text, stops, resolved) == wait,
        wait.awaits_number ==> wait.behind_run(text, stops, resolved).awaits_number,
        (exists|j: int|
            0 <= j < stops.len() && (#[trigger] stops[j]).tab_type == 1 && stops[j].fill_type != 0)
            ==> wait.behind_run(text.push('\t'), stops, resolved).awaits_number,
        (forall|j: int|
            0 <= j < stops.len() ==> (#[trigger] stops[j]).tab_type != 1 || stops[j].fill_type
                == 0) ==> wait.behind_run(text, stops, resolved).awaits_number
            == wait.awaits_number,
{
    lemma_what_ends_in_a_tab(text, 'x');
    lemma_what_is_blank_behind_a_tab(text, 'x');
    if !text.contains('\t') {
        crate::tabs::lemma_no_last_tab(text);
    }
    if exists|j: int|
        0 <= j < stops.len() && (#[trigger] stops[j]).tab_type == 1 && stops[j].fill_type != 0 {
        let j = choose|j: int|
            0 <= j < stops.len() && (#[trigger] stops[j]).tab_type == 1 && stops[j].fill_type != 0;
        assert(crate::tabs::is_right_leader(stops[j]));
    }
}

/// A number ends before the stop where tabs are stored, else with the line, or at the stop
/// of a line without a width.
pub proof fn lemma_end_of_a_number(stored_tabs: usize, line_has_width: bool, end: NumberEnd)
    requires
        call_ensures(number_end, (stored_tabs, line_has_width), end),
    ensures
        end == NumberEnd::BeforeStop <==> stored_tabs != 0,
        end == NumberEnd::Line <==> stored_tabs == 0 && line_has_width,
        end == NumberEnd::Stop <==> stored_tabs == 0 && !line_has_width,
{
}

/// The runs that a tab aligns are all those up to the next tab.
pub proof fn lemma_block_of_a_tab(runs: &[ComposedTextRun], start: usize, i: int, end: usize)
    requires
        call_ensures(tab_block_end, (runs, start), end),
        start <= i < runs@.len(),
    ensures
        runs@[i].text@.contains('\t') ==> end <= i,
        (forall|k: int|
            #![trigger runs@[k]]
            start <= k <= i ==> !runs@[k].text@.contains('\t')) ==> end > i,
        start <= end <= runs@.len(),
{
}

/// A tab aligns the rest of the line with it just where runs follow and no tab is in them.
pub proof fn lemma_tab_over_the_rest_of_the_line(
    chars: &[char],
    runs: &[ComposedTextRun],
    run_idx: usize,
    i: int,
    r: Option<usize>,
)
    requires
        call_ensures(tab_block_over_runs, (chars, runs, run_idx), r),
        run_idx < runs@.len(),
    ensures
        run_idx + 1 == runs@.len() ==> r is None,
        run_idx < i < runs@.len() && runs@[i].text@.contains('\t') ==> r is None,
        !chars@.contains('\t') ==> r is None,
        r matches Some(at) ==> chars@[at as int] == '\t',
{
}

/// The objects behind a tab are those with a later place, in order; another tab behind it
/// aligns them instead.
pub proof fn lemma_objects_behind_a_tab(
    chars: &[char],
    tab: usize,
    objects: &[(usize, u32, usize)],
    i: int,
    r: Option<Vec<(usize, u32, usize)>>,
)
    requires
        call_ensures(objects_behind_tab::<u32>, (chars, tab, objects), r),
        tab < chars@.len(),
    ensures
        tab < i < chars@.len() && chars@[i] == '\t' ==> r is None,
        (forall|k: int| tab < k < chars@.len() ==> #[trigger] chars@[k] != '\t') ==> r is Some,
        r matches Some(v) ==> forall|k: int| 0 <= k < v@.len() ==> (#[trigger] v@[k]).0 > tab,
        r matches Some(v) ==> (0 <= i < objects@.len() && objects@[i].0 > tab ==> v@.contains(
            objects@[i],
        )),
{
    let rest = chars@.skip(tab + 1);
    let p = |t: (usize, u32, usize)| t.0 > tab;
    if tab < i < chars@.len() && chars@[i] == '\t' {
        assert(rest[i - tab - 1] == '\t');
    }
    if (forall|k: int| tab < k < chars@.len() ==> #[trigger] chars@[k] != '\t') {
        assert(!rest.contains('\t')) by {
            if rest.contains('\t') {
                let k = choose|k: int| 0 <= k < rest.len() && rest[k] == '\t';
                assert(chars@[tab + 1 + k] == '\t');
            }
        }
    }
    if let Some(v) = r {
        assert forall|k: int| 0 <= k < v@.len() implies (#[trigger] v@[k]).0 > tab by {
            objects@.lemma_filter_pred(p, k);
        }
        if 0 <= i < objects@.len() && objects@[i].0 > tab {
            objects@.lemma_filter_contains(p, i);
        }
    }
}

} // verus!
