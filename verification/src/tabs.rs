//! Tabs that align what follows them, also across the runs of a line.

use vstd::prelude::*;

use crate::composed::ComposedTextRun;
use crate::text::all_white;
use crate::text::chars_of;
use crate::text::contains_char;
use crate::text::count_char;
use crate::text::is_blank;
use crate::text::is_blank_slice;
use crate::text::occurrences;
use crate::text::trim;
use crate::text::trimmed;

verus! {

/// The last tab of the text stands at `i`.
pub open spec fn is_last_tab(text: Seq<char>, i: int) -> bool {
    &&& 0 <= i < text.len()
    &&& text[i] == '\t'
    &&& forall|j: int| i < j < text.len() ==> #[trigger] text[j] != '\t'
}

/// The place of the last tab, if there is one.
pub fn last_tab(chars: &[char]) -> (r: Option<usize>)
    ensures
        r matches Some(i) ==> is_last_tab(chars@, i as int),
        r is None <==> !chars@.contains('\t'),
{
    let mut i: usize = chars.len();
    while i > 0
        invariant
            i <= chars@.len(),
            forall|j: int| i <= j < chars@.len() ==> #[trigger] chars@[j] != '\t',
        decreases i,
    {
        if chars[i - 1] == '\t' {
            assert(chars@[i - 1] == '\t');
            return Some(i - 1);
        }
        i -= 1;
    }
    None
}

/// A text has only one last tab.
proof fn lemma_one_last_tab(text: Seq<char>, at: int)
    requires
        is_last_tab(text, at),
    ensures
        forall|i: int| #[trigger] is_last_tab(text, i) ==> i == at,
{
    assert forall|i: int| #[trigger] is_last_tab(text, i) implies i == at by {
        if i < at {
            assert(text[at] != '\t');
        } else if i > at {
            assert(text[i] != '\t');
        }
    }
}

/// A text without a tab has no last one.
pub(crate) proof fn lemma_no_last_tab(text: Seq<char>)
    requires
        !text.contains('\t'),
    ensures
        forall|i: int| !#[trigger] is_last_tab(text, i),
{
    assert forall|i: int| !#[trigger] is_last_tab(text, i) by {
        if 0 <= i < text.len() {
            assert(text.contains(text[i]));
        }
    }
}

/// The text ends in a tab, if spaces behind it are left aside.
pub open spec fn ends_in_tab(text: Seq<char>) -> bool {
    exists|i: int|
        #[trigger] is_last_tab(text, i) && forall|j: int|
            i < j < text.len() ==> #[trigger] text[j] == ' ' || text[j] == '\u{2007}'
}

/// Nothing but white space follows the last tab.
pub open spec fn blank_after_last_tab(text: Seq<char>) -> bool {
    exists|i: int| #[trigger] is_last_tab(text, i) && all_white(text.skip(i + 1))
}

/// Whether the text ends in a tab, if spaces behind it are left aside.
pub fn run_ends_in_tab(chars: &[char]) -> (r: bool)
    ensures
        r == ends_in_tab(chars@),
{
    match last_tab(chars) {
        Some(at) => {
            for j in at + 1..chars.len()
                invariant
                    is_last_tab(chars@, at as int),
                    forall|k: int|
                        at < k < j ==> #[trigger] chars@[k] == ' ' || chars@[k] == '\u{2007}',
            {
                if chars[j] != ' ' && chars[j] != '\u{2007}' {
                    proof {
                        lemma_one_last_tab(chars@, at as int);
                    }
                    return false;
                }
            }
            true
        },
        None => {
            proof {
                lemma_no_last_tab(chars@);
            }
            false
        },
    }
}

/// Whether nothing but white space follows the last tab.
pub fn run_blank_after_last_tab(chars: &[char]) -> (r: bool)
    ensures
        r == blank_after_last_tab(chars@),
{
    match last_tab(chars) {
        Some(at) => {
            let count: usize = chars.len();
            assert(at < count);
            let (_, rest) = chars.split_at(at + 1);
            assert(rest@ == chars@.skip(at + 1));
            proof {
                lemma_one_last_tab(chars@, at as int);
            }
            is_blank_slice(rest)
        },
        None => {
            proof {
                lemma_no_last_tab(chars@);
            }
            false
        },
    }
}

/// The kind of a tab as the document stores it: right and centre align across runs.
pub open spec fn stored_kind_aligns(ext: [u16; 7]) -> bool {
    ext@[2] / 256 == 2 || ext@[2] / 256 == 3
}

/// The tab stops of the paragraph decide about a tab: no data is stored for it, the
/// data only holds its place, or it says that the tab aligns.
pub open spec fn stops_decide(
    tab_extended: Seq<[u16; 7]>,
    placeholders: Seq<bool>,
    index: int,
) -> bool {
    index >= tab_extended.len() || placeholders[index] || stored_kind_aligns(tab_extended[index])
}

/// Whether the tab stops of the paragraph decide about a tab.
pub fn tab_stops_decide(tab_extended: &[[u16; 7]], placeholders: &[bool], index: usize) -> (r: bool)
    requires
        placeholders@.len() == tab_extended@.len(),
    ensures
        r == stops_decide(tab_extended@, placeholders@, index as int),
{
    if index >= tab_extended.len() || placeholders[index] {
        return true;
    }
    let kind: u16 = tab_extended[index][2] / 256;
    kind == 2 || kind == 3
}

/// The tab at the end of a run whose stop may align the next run; `inline_index` is
/// the number of that tab in the stored data.
pub fn last_tab_to_resolve(
    chars: &[char],
    inline_index: usize,
    tab_extended: &[[u16; 7]],
    placeholders: &[bool],
) -> (r: Option<usize>)
    requires
        placeholders@.len() == tab_extended@.len(),
    ensures
        r is Some <==> chars@.contains('\t') && stops_decide(
            tab_extended@,
            placeholders@,
            inline_index as int,
        ),
        r matches Some(i) ==> is_last_tab(chars@, i as int),
{
    if !tab_stops_decide(tab_extended, placeholders, inline_index) {
        return None;
    }
    last_tab(chars)
}

/// Whether a tab stop aligns what follows: to the right or to the centre.
pub fn stop_aligns(tab_type: u8) -> (r: bool)
    ensures
        r == (tab_type == 1 || tab_type == 2),
{
    tab_type == 1 || tab_type == 2
}

/// The last tab, if there is one, aligns nothing of its own run: nothing visible is behind
/// it, or the tab stops do not decide about it.
pub open spec fn no_tab_aligns(
    text: Seq<char>,
    inline_base: int,
    tab_extended: Seq<[u16; 7]>,
    placeholders: Seq<bool>,
) -> bool {
    forall|i: int| #[trigger]
        is_last_tab(text, i) ==> all_white(text.skip(i + 1)) || !stops_decide(
            tab_extended,
            placeholders,
            inline_base + occurrences(text.take(i), '\t'),
        )
}

/// The last tab of a run whose own text it aligns: something visible follows it in the
/// run, and the tab stops decide about it. `inline_base` is the number of the run's
/// first tab in the stored data.
pub fn intra_run_tab(
    chars: &[char],
    inline_base: usize,
    tab_extended: &[[u16; 7]],
    placeholders: &[bool],
) -> (r: Option<usize>)
    requires
        placeholders@.len() == tab_extended@.len(),
        inline_base + chars@.len() <= usize::MAX,
    ensures
        r matches Some(i) ==> is_last_tab(chars@, i as int) && !all_white(chars@.skip(i + 1))
            && stops_decide(
            tab_extended@,
            placeholders@,
            inline_base + occurrences(chars@.take(i as int), '\t'),
        ),
        r is None ==> no_tab_aligns(
            chars@,
            inline_base as int,
            tab_extended@,
            placeholders@,
        ),
{
    match last_tab(chars) {
        Some(at) => {
            proof {
                lemma_one_last_tab(chars@, at as int);
            }
            let (_, rest) = chars.split_at(at + 1);
            assert(rest@ == chars@.skip(at + 1));
            if is_blank_slice(rest) {
                return None;
            }
            let ordinal: usize = count_char(chars, at, '\t');
            if tab_stops_decide(tab_extended, placeholders, inline_base + ordinal) {
                Some(at)
            } else {
                None
            }
        },
        None => {
            proof {
                lemma_no_last_tab(chars@);
            }
            None
        },
    }
}

/// What a run does with the tab that an earlier run left open.
#[derive(Clone, Copy, Debug, PartialEq, Eq, Structural)]
pub enum PendingTab {
    /// The run is blank: the next one is asked.
    Carry,
    /// The run and those up to the next tab are aligned.
    Align,
}

/// Decides what a run does with a tab that an earlier run left open.
pub fn pending_tab_step(tab_type: u8, run_text: &str) -> (step: PendingTab)
    ensures
        step == (if (tab_type == 1 || tab_type == 2) && all_white(run_text@) {
            PendingTab::Carry
        } else {
            PendingTab::Align
        }),
{
    if (tab_type == 1 || tab_type == 2) && is_blank(run_text) {
        PendingTab::Carry
    } else {
        PendingTab::Align
    }
}

/// What a run does where a page number is awaited behind a leader.
#[derive(Clone, Copy, Debug, PartialEq, Eq, Structural)]
pub enum LeaderDigits {
    /// No number is awaited.
    Idle,
    /// The run is blank: the number is still awaited.
    Wait,
    /// The run is the number: it is set to the right end.
    Place,
    /// The run is something else: no number is awaited any more.
    Drop,
}

/// All characters are digits.
pub open spec fn all_digits(text: Seq<char>) -> bool {
    forall|i: int| 0 <= i < text.len() ==> '0' <= #[trigger] text[i] <= '9'
}

/// What a run does where a page number may be awaited.
pub open spec fn leader_digits_of(awaited: bool, text: Seq<char>) -> LeaderDigits {
    if !awaited {
        LeaderDigits::Idle
    } else if all_white(text) {
        LeaderDigits::Wait
    } else if all_digits(trim(text)) {
        LeaderDigits::Place
    } else {
        LeaderDigits::Drop
    }
}

/// Decides what a run does where a page number may be awaited.
pub fn leader_digits_step(awaited: bool, run_text: &str) -> (step: LeaderDigits)
    ensures
        step == leader_digits_of(awaited, run_text@),
{
    if !awaited {
        return LeaderDigits::Idle;
    }
    let chars = chars_of(run_text);
    if is_blank_slice(chars.as_slice()) {
        return LeaderDigits::Wait;
    }
    let body = trimmed(chars.as_slice());
    for i in 0..body.len()
        invariant
            awaited,
            !all_white(run_text@),
            body@ == trim(run_text@),
            forall|k: int| 0 <= k < i ==> '0' <= #[trigger] body@[k] <= '9',
    {
        if !('0' <= body[i] && body[i] <= '9') {
            assert(!('0' <= trim(run_text@)[i as int] <= '9'));
            return LeaderDigits::Drop;
        }
    }
    LeaderDigits::Place
}

/// A tab stop; its place is of whatever type the caller measures in.
#[derive(Clone, Copy, Debug)]
pub struct TabStop<W> {
    pub position: W,
    pub tab_type: u8,
    pub fill_type: u8,
}

/// The stop sets text to the right, behind a leader.
pub open spec fn is_right_leader<W>(stop: TabStop<W>) -> bool {
    stop.tab_type == 1 && stop.fill_type != 0
}

/// The last tab stop that sets text to the right behind a leader.
pub fn last_right_leader<W: Copy>(stops: &[TabStop<W>]) -> (r: Option<usize>)
    ensures
        r matches Some(i) ==> i < stops@.len() && is_right_leader(stops@[i as int]) && forall|
            j: int,
        |
            i < j < stops@.len() ==> !is_right_leader(#[trigger] stops@[j]),
        r is None ==> forall|j: int|
            0 <= j < stops@.len() ==> !is_right_leader(#[trigger] stops@[j]),
{
    let mut i: usize = stops.len();
    while i > 0
        invariant
            i <= stops@.len(),
            forall|j: int| i <= j < stops@.len() ==> !is_right_leader(#[trigger] stops@[j]),
        decreases i,
    {
        let stop: TabStop<W> = stops[i - 1];
        if stop.tab_type == 1 && stop.fill_type != 0 {
            return Some(i - 1);
        }
        i -= 1;
    }
    None
}

/// Whether a page number is awaited behind a run: its last tab has nothing visible
/// behind it, and a tab stop sets text to the right behind a leader.
pub fn awaits_leader_digits<W: Copy>(run_text: &str, stops: &[TabStop<W>]) -> (r: bool)
    ensures
        r == (blank_after_last_tab(run_text@) && exists|j: int|
            0 <= j < stops@.len() && is_right_leader(#[trigger] stops@[j])),
{
    let chars = chars_of(run_text);
    match last_right_leader(stops) {
        Some(i) => {
            assert(is_right_leader(stops@[i as int]));
            run_blank_after_last_tab(chars.as_slice())
        },
        None => false,
    }
}

/// Where the runs that a tab aligns end: at the first run with another tab.
pub fn tab_block_end(runs: &[ComposedTextRun], start: usize) -> (end: usize)
    ensures
        start <= end,
        if start <= runs@.len() {
            end <= runs@.len()
        } else {
            end == start
        },
        forall|i: int| start <= i < end ==> !(#[trigger] runs@[i]).text@.contains('\t'),
        end < runs@.len() ==> runs@[end as int].text@.contains('\t'),
{
    let mut end: usize = start;
    while end < runs.len()
        invariant
            start <= end,
            start <= runs@.len() ==> end <= runs@.len(),
            start > runs@.len() ==> end == start,
            forall|i: int| start <= i < end ==> !(#[trigger] runs@[i]).text@.contains('\t'),
        decreases runs@.len() - end,
    {
        if contains_char(runs[end].text.as_str(), '\t') {
            return end;
        }
        end += 1;
    }
    end
}

/// The last tab of the text that a line's remaining runs follow: the text has a tab,
/// other runs follow it, and none of these has one.
pub fn tab_block_over_runs(chars: &[char], runs: &[ComposedTextRun], run_idx: usize) -> (r: Option<
    usize,
>)
    requires
        run_idx < runs@.len(),
    ensures
        r is Some <==> chars@.contains('\t') && run_idx + 1 < runs@.len() && forall|i: int|
            run_idx < i < runs@.len() ==> !(#[trigger] runs@[i]).text@.contains('\t'),
        r matches Some(i) ==> is_last_tab(chars@, i as int),
{
    let count: usize = runs.len();
    if run_idx + 1 >= count {
        return None;
    }
    if tab_block_end(runs, run_idx + 1) < count {
        return None;
    }
    last_tab(chars)
}

/// The objects that a tab aligns together with the text behind it; `None` where
/// another tab follows.
pub fn objects_behind_tab<W: Copy>(chars: &[char], tab: usize, objects: &[(usize, W, usize)]) -> (r:
    Option<Vec<(usize, W, usize)>>)
    requires
        tab < chars@.len(),
    ensures
        r is None <==> chars@.skip(tab + 1).contains('\t'),
        r matches Some(v) ==> v@ == objects@.filter(|t: (usize, W, usize)| t.0 > tab),
{
    let count: usize = chars.len();
    assert(tab < count);
    let (_, rest) = chars.split_at(tab + 1);
    assert(rest@ == chars@.skip(tab + 1));
    if last_tab(rest).is_some() {
        proof {
            let i = choose|i: int| is_last_tab(rest@, i);
            assert(rest@.contains(rest@[i]));
        }
        return None;
    }
    let ghost p = |t: (usize, W, usize)| t.0 > tab;
    let mut r: Vec<(usize, W, usize)> = Vec::new();
    proof {
        crate::seqs::lemma_filter_start(objects@, p);
    }
    for i in 0..objects.len()
        invariant
            p == (|t: (usize, W, usize)| t.0 > tab),
            r@ == objects@.take(i as int).filter(p),
    {
        proof {
            crate::seqs::lemma_filter_step(objects@, p, i as int);
        }
        let object: (usize, W, usize) = objects[i];
        if object.0 > tab {
            r.push(object);
        }
    }
    assert(objects@.take(objects@.len() as int) == objects@);
    Some(r)
}

} // verus!
