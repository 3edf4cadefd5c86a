//! What a tab leaves to the runs behind it: a stop that aligns them, or the wait for a
//! page number behind a leader.

use vstd::prelude::*;

use crate::tabs::all_digits;
use crate::tabs::awaits_leader_digits;
use crate::tabs::blank_after_last_tab;
use crate::tabs::ends_in_tab;
use crate::tabs::is_right_leader;
use crate::tabs::last_right_leader;
use crate::tabs::leader_digits_of;
use crate::tabs::leader_digits_step;
use crate::tabs::lemma_no_last_tab;
use crate::tabs::pending_tab_step;
use crate::tabs::run_ends_in_tab;
use crate::tabs::LeaderDigits;
use crate::tabs::PendingTab;
use crate::tabs::TabStop;
use crate::text::all_white;
use crate::text::chars_of;
use crate::text::trim;

verus! {

/// What the runs read so far left open.
#[derive(Clone, Copy, Debug)]
pub struct TabWait<W> {
    /// The stop that aligns what follows.
    pub stop: Option<TabStop<W>>,
    /// A page number is awaited behind a leader.
    pub awaits_number: bool,
}

/// Where a run starts.
#[derive(Clone, Copy, Debug)]
pub enum RunStart<W> {
    /// Behind the run before.
    Flow,
    /// It is a page number, which ends where the stop with this index says.
    Number(usize),
    /// Such that its block ends at the right end of the line.
    EndsWithLine,
    /// Such that its block ends at a place behind the margin.
    EndsAt(W),
    /// Such that the middle of its block stands at a place.
    CenteredAt(W),
}

/// The run is blank, and the stop waits for the next one.
pub open spec fn stop_is_carried<W>(stop: TabStop<W>, text: Seq<char>) -> bool {
    (stop.tab_type == 1 || stop.tab_type == 2) && all_white(text)
}

/// The last stop that sets text to the right behind a leader.
pub open spec fn last_leader<W>(stops: Seq<TabStop<W>>) -> Option<int>
    decreases stops.len(),
{
    if stops.len() == 0 {
        None
    } else if is_right_leader(stops.last()) {
        Some(stops.len() - 1)
    } else {
        last_leader(stops.drop_last())
    }
}

proof fn lemma_last_leader<W>(stops: Seq<TabStop<W>>, i: int)
    requires
        0 <= i < stops.len(),
        is_right_leader(stops[i]),
        forall|j: int| i < j < stops.len() ==> !is_right_leader(#[trigger] stops[j]),
    ensures
        last_leader(stops) == Some(i),
    decreases stops.len(),
{
    if i < stops.len() - 1 {
        assert(!is_right_leader(stops[stops.len() - 1]));
        lemma_last_leader(stops.drop_last(), i);
    }
}

proof fn lemma_no_leader<W>(stops: Seq<TabStop<W>>)
    requires
        forall|j: int| 0 <= j < stops.len() ==> !is_right_leader(#[trigger] stops[j]),
    ensures
        last_leader(stops) is None,
    decreases stops.len(),
{
    if stops.len() > 0 {
        assert(!is_right_leader(stops[stops.len() - 1]));
        lemma_no_leader(stops.drop_last());
    }
}

impl<W> TabWait<W> {
    /// What is still open when a run with this text starts.
    pub open spec fn at_run(self, text: Seq<char>) -> TabWait<W> {
        TabWait {
            stop: match self.stop {
                Some(stop) => if stop_is_carried(stop, text) {
                    Some(stop)
                } else {
                    None
                },
                None => None,
            },
            awaits_number: self.awaits_number && all_white(text),
        }
    }

    /// Where a run with this text starts. A stop that aligns it goes before the wait for
    /// a number.
    pub open spec fn start_of(self, text: Seq<char>, stops: Seq<TabStop<W>>) -> RunStart<W> {
        let number = if leader_digits_of(self.awaits_number, text) == LeaderDigits::Place {
            match last_leader(stops) {
                Some(i) => RunStart::Number(i as usize),
                None => RunStart::Flow,
            }
        } else {
            RunStart::Flow
        };
        match self.stop {
            Some(stop) => if stop_is_carried(stop, text) {
                number
            } else if stop.tab_type == 1 {
                if stop.fill_type != 0 {
                    RunStart::EndsWithLine
                } else {
                    RunStart::EndsAt(stop.position)
                }
            } else if stop.tab_type == 2 {
                RunStart::CenteredAt(stop.position)
            } else {
                number
            },
            None => number,
        }
    }

    /// What is open behind a run with this text, whose last tab goes to `resolved`.
    pub open spec fn behind_run(
        self,
        text: Seq<char>,
        stops: Seq<TabStop<W>>,
        resolved: Option<TabStop<W>>,
    ) -> TabWait<W> {
        TabWait {
            stop: if ends_in_tab(text) {
                resolved
            } else {
                self.stop
            },
            awaits_number: self.awaits_number || (blank_after_last_tab(text) && exists|j: int|
                0 <= j < stops.len() && is_right_leader(#[trigger] stops[j])),
        }
    }
}

/// Where a run starts, and what is still open then.
pub fn enter_run<W: Copy>(wait: &mut TabWait<W>, run_text: &str, stops: &[TabStop<W>]) -> (start:
    RunStart<W>)
    ensures
        start == old(wait).start_of(run_text@, stops@),
        *final(wait) == old(wait).at_run(run_text@),
{
    let before: TabWait<W> = *wait;
    let mut start: RunStart<W> = RunStart::Flow;
    match leader_digits_step(before.awaits_number, run_text) {
        LeaderDigits::Idle => {},
        LeaderDigits::Wait => {},
        LeaderDigits::Drop => {
            wait.awaits_number = false;
        },
        LeaderDigits::Place => {
            wait.awaits_number = false;
            match last_right_leader(stops) {
                Some(i) => {
                    proof {
                        lemma_last_leader(stops@, i as int);
                    }
                    start = RunStart::Number(i);
                },
                None => {
                    proof {
                        lemma_no_leader(stops@);
                    }
                },
            }
        },
    }
    match before.stop {
        Some(stop) => {
            match pending_tab_step(stop.tab_type, run_text) {
                PendingTab::Carry => {},
                PendingTab::Align => {
                    wait.stop = None;
                    if stop.tab_type == 1 {
                        if stop.fill_type != 0 {
                            start = RunStart::EndsWithLine;
                        } else {
                            start = RunStart::EndsAt(stop.position);
                        }
                    } else if stop.tab_type == 2 {
                        start = RunStart::CenteredAt(stop.position);
                    }
                },
            }
        },
        None => {},
    }
    start
}

/// What is open behind a run, whose last tab goes to `resolved`.
pub fn leave_run<W: Copy>(
    wait: &mut TabWait<W>,
    run_text: &str,
    stops: &[TabStop<W>],
    resolved: Option<TabStop<W>>,
)
    ensures
        *final(wait) == old(wait).behind_run(run_text@, stops@, resolved),
{
    let chars = chars_of(run_text);
    if run_ends_in_tab(chars.as_slice()) {
        wait.stop = resolved;
    }
    if awaits_leader_digits(run_text, stops) {
        wait.awaits_number = true;
    }
}

/// Where a page number behind a leader ends.
#[derive(Clone, Copy, Debug, PartialEq, Eq, Structural)]
pub enum NumberEnd {
    /// At the right end of the line.
    Line,
    /// At the stop.
    Stop,
    /// A gap before the stop.
    BeforeStop,
}

/// Where a page number ends: stored tabs leave a gap before their stop.
pub fn number_end(stored_tabs: usize, line_has_width: bool) -> (end: NumberEnd)
    ensures
        end == (if stored_tabs > 0 {
            NumberEnd::BeforeStop
        } else if line_has_width {
            NumberEnd::Line
        } else {
            NumberEnd::Stop
        }),
{
    if stored_tabs > 0 {
        NumberEnd::BeforeStop
    } else if line_has_width {
        NumberEnd::Line
    } else {
        NumberEnd::Stop
    }
}

/// A blank run without a tab is not what a tab aligns: it flows on, and all that was
/// open stays open.
pub proof fn lemma_blank_run_leaves_the_wait<W>(
    wait: TabWait<W>,
    text: Seq<char>,
    stops: Seq<TabStop<W>>,
    resolved: Option<TabStop<W>>,
)
    requires
        all_white(text),
        !text.contains('\t'),
        wait.stop matches Some(stop) ==> stop.tab_type == 1 || stop.tab_type == 2,
    ensures
        wait.start_of(text, stops) == RunStart::<W>::Flow,
        wait.at_run(text).behind_run(text, stops, resolved) == wait,
{
    lemma_no_last_tab(text);
}

/// A visible run ends every wait: at most one block is aligned by a tab, and at most one
/// number is set behind a leader.
pub proof fn lemma_visible_run_ends_the_wait<W>(wait: TabWait<W>, text: Seq<char>)
    requires
        !all_white(text),
    ensures
        wait.at_run(text).stop is None,
        !wait.at_run(text).awaits_number,
{
}

/// A run that is no number moves only where a tab waits for it.
pub proof fn lemma_run_flows_without_a_wait<W>(
    wait: TabWait<W>,
    text: Seq<char>,
    stops: Seq<TabStop<W>>,
)
    requires
        wait.stop is None,
        !wait.awaits_number || all_white(text) || !all_digits(trim(text)),
    ensures
        wait.start_of(text, stops) == RunStart::<W>::Flow,
{
}

} // verus!
