//! How the free width of a line is shared out.

use vstd::prelude::*;

use crate::composed::lemma_runs_display_prefix;
use crate::composed::lemma_runs_text_prefix;
use crate::composed::run_units;
use crate::composed::runs_display;
use crate::composed::runs_text;
use crate::composed::runs_unit_count;
use crate::composed::runs_units;
use crate::composed::ComposedLine;
use crate::composed::ComposedTextRun;
use crate::model::Alignment;
use crate::text::chars_of;
use crate::text::count_char;
use crate::text::count_trailing;
use crate::text::lemma_trailing_count;
use crate::text::occurrences;
use crate::text::trailing_count;

verus! {

/// Three dashes stand at `at`.
pub open spec fn three_dashes_at(text: Seq<char>, at: int) -> bool {
    0 <= at && at + 2 < text.len() && text[at] == '-' && text[at + 1] == '-' && text[at + 2] == '-'
}

/// The character belongs to a leader: it is one of three or more dashes in a row.
pub open spec fn is_leader_dash(text: Seq<char>, i: int) -> bool {
    three_dashes_at(text, i - 2) || three_dashes_at(text, i - 1) || three_dashes_at(text, i)
}

/// How many of the first `n` characters belong to leaders.
pub open spec fn leader_dashes_before(text: Seq<char>, n: int) -> nat
    decreases n,
{
    if n <= 0 {
        0
    } else {
        leader_dashes_before(text, n - 1) + if is_leader_dash(text, n - 1) {
            1nat
        } else {
            0nat
        }
    }
}

/// How many characters belong to leaders.
pub open spec fn leader_dashes(text: Seq<char>) -> nat {
    leader_dashes_before(text, text.len() as int)
}

/// The dashes from `a` up to `b` are a leader, or none of them is.
pub(crate) proof fn lemma_leader_run(text: Seq<char>, a: int, b: int, k: int)
    requires
        0 <= a <= k <= b <= text.len(),
        forall|i: int| a <= i < b ==> #[trigger] text[i] == '-',
        a > 0 ==> text[a - 1] != '-',
        b < text.len() ==> text[b] != '-',
    ensures
        leader_dashes_before(text, k) == leader_dashes_before(text, a) + if b - a >= 3 {
            k - a
        } else {
            0
        },
    decreases k - a,
{
    if a < k {
        lemma_leader_run(text, a, b, k - 1);
        let i = k - 1;
        if b - a >= 3 {
            let start = if i + 2 < b {
                i
            } else if i + 1 < b && i - 1 >= a {
                i - 1
            } else {
                i - 2
            };
            assert(three_dashes_at(text, start));
        } else {
            assert(!three_dashes_at(text, i - 2));
            assert(!three_dashes_at(text, i - 1));
            assert(!three_dashes_at(text, i));
        }
    }
}

/// Counts the characters of leaders among the first `n` characters.
pub fn count_dash_leaders(chars: &[char], n: usize) -> (count: usize)
    requires
        n <= chars@.len(),
    ensures
        count == leader_dashes(chars@.take(n as int)),
        count <= n,
{
    let ghost text = chars@.take(n as int);
    let mut count: usize = 0;
    let mut i: usize = 0;
    while i < n
        invariant
            n <= chars@.len(),
            text == chars@.take(n as int),
            i <= n,
            count <= i,
            count == leader_dashes_before(text, i as int),
            0 < i < n ==> text[i - 1] != '-' || text[i as int] != '-',
        decreases n - i,
    {
        if chars[i] == '-' {
            let mut j: usize = i;
            while j < n && chars[j] == '-'
                invariant
                    n <= chars@.len(),
                    text == chars@.take(n as int),
                    i <= j <= n,
                    forall|k: int| i <= k < j ==> #[trigger] text[k] == '-',
                decreases n - j,
            {
                j += 1;
            }
            proof {
                lemma_leader_run(text, i as int, j as int, j as int);
            }
            if j - i >= 3 {
                count += j - i;
            }
            i = j;
        } else {
            assert(text[i as int] != '-');
            i += 1;
        }
    }
    count
}

/// What the sharing of free width needs to know of a line's characters.
#[derive(Clone, Copy, Debug, Default, PartialEq, Eq, Structural)]
pub struct LineCounts {
    /// Spaces at the end of the line.
    pub trailing_spaces: usize,
    /// Characters before those.
    pub visible: usize,
    /// Spaces before those.
    pub interior_spaces: usize,
    /// Dashes of leaders before those.
    pub leader_dashes: usize,
}

/// The counts of a text of which at most `limit` spaces count as trailing.
pub open spec fn counts_of(text: Seq<char>, limit: usize) -> LineCounts {
    let all_trailing = trailing_count(text, ' ');
    let trailing = if all_trailing <= limit {
        all_trailing
    } else {
        limit as nat
    };
    let visible = text.len() - trailing;
    LineCounts {
        trailing_spaces: trailing as usize,
        visible: visible as usize,
        interior_spaces: occurrences(text.take(visible), ' ') as usize,
        leader_dashes: leader_dashes(text.take(visible)) as usize,
    }
}

/// Counts the characters of a line; at most `limit` spaces count as trailing.
pub fn count_line(chars: &[char], limit: usize) -> (counts: LineCounts)
    ensures
        counts == counts_of(chars@, limit),
        counts.visible + counts.trailing_spaces == chars@.len(),
        counts.interior_spaces <= counts.visible,
        counts.leader_dashes <= counts.visible,
{
    let mut trailing: usize = count_trailing(chars, ' ');
    if trailing > limit {
        trailing = limit;
    }
    let visible: usize = chars.len() - trailing;
    LineCounts {
        trailing_spaces: trailing,
        visible,
        interior_spaces: count_char(chars, visible, ' '),
        leader_dashes: count_dash_leaders(chars, visible),
    }
}

/// The characters of the runs.
pub fn line_chars(runs: &[ComposedTextRun]) -> (chars: Vec<char>)
    ensures
        chars@ == runs_text(runs@),
{
    let mut chars: Vec<char> = Vec::new();
    for i in 0..runs.len()
        invariant
            chars@ == runs_text(runs@.take(i as int)),
    {
        proof {
            lemma_runs_text_prefix(runs@, i as int);
        }
        let mut own = chars_of(runs[i].text.as_str());
        chars.append(&mut own);
    }
    assert(runs@.take(runs@.len() as int) == runs@);
    chars
}

/// The characters that the runs draw.
pub fn displayed_chars(runs: &[ComposedTextRun]) -> (chars: Vec<char>)
    ensures
        chars@ == runs_display(runs@),
{
    let mut chars: Vec<char> = Vec::new();
    for i in 0..runs.len()
        invariant
            chars@ == runs_display(runs@.take(i as int)),
    {
        proof {
            lemma_runs_display_prefix(runs@, i as int);
        }
        let mut own = chars_of(runs[i].effective_text());
        chars.append(&mut own);
    }
    assert(runs@.take(runs@.len() as int) == runs@);
    chars
}

/// A text has a leader.
pub open spec fn has_leader(text: Seq<char>) -> bool {
    exists|at: int| #[trigger] three_dashes_at(text, at)
}

fn contains_leader(chars: &[char]) -> (r: bool)
    ensures
        r == has_leader(chars@),
{
    let n: usize = chars.len();
    let mut at: usize = 0;
    while at < n && n - at > 2
        invariant
            n == chars@.len(),
            at <= n,
            forall|k: int| 0 <= k < at ==> !#[trigger] three_dashes_at(chars@, k),
        decreases n - at,
    {
        if chars[at] == '-' && chars[at + 1] == '-' && chars[at + 2] == '-' {
            assert(three_dashes_at(chars@, at as int));
            return true;
        }
        at += 1;
    }
    false
}

/// The first run that has a leader: its style is that of the dashes.
pub fn first_leader_run(runs: &[ComposedTextRun]) -> (r: Option<usize>)
    ensures
        r matches Some(k) ==> k < runs@.len() && has_leader(runs@[k as int].text@) && forall|j: int|
            0 <= j < k ==> !has_leader((#[trigger] runs@[j]).text@),
        r is None ==> forall|j: int| 0 <= j < runs@.len() ==> !has_leader((#[trigger] runs@[j]).text@),
{
    for k in 0..runs.len()
        invariant
            forall|j: int| 0 <= j < k ==> !has_leader((#[trigger] runs@[j]).text@),
    {
        let chars = chars_of(runs[k].text.as_str());
        if contains_leader(chars.as_slice()) {
            return Some(k);
        }
    }
    None
}

/// Character `i` of run `k` is the last of the line that is no space.
pub open spec fn is_last_glyph(runs: Seq<ComposedTextRun>, k: int, i: int) -> bool {
    &&& 0 <= k < runs.len()
    &&& 0 <= i < runs[k].text@.len()
    &&& runs[k].text@[i] != ' '
    &&& forall|j: int| i < j < runs[k].text@.len() ==> #[trigger] runs[k].text@[j] == ' '
    &&& forall|l: int, j: int|
        k < l < runs.len() && 0 <= j < runs[l].text@.len() ==> #[trigger] runs[l].text@[j] == ' '
}

/// The glyph that a line ends in, with its run: the last character that is no space.
/// Neither a tab nor an object is a glyph.
pub fn last_line_glyph(runs: &[ComposedTextRun]) -> (r: Option<(usize, char)>)
    ensures
        r matches Some((k, glyph)) ==> glyph != '\t' && glyph != '\u{fffc}' && exists|i: int|
            is_last_glyph(runs@, k as int, i) && #[trigger] runs@[k as int].text@[i] == glyph,
        r is None ==> forall|k: int, i: int| #[trigger]
            is_last_glyph(runs@, k, i) ==> runs@[k].text@[i] == '\t' || runs@[k].text@[i]
                == '\u{fffc}',
{
    let mut k: usize = runs.len();
    while k > 0
        invariant
            k <= runs@.len(),
            forall|l: int, j: int|
                k <= l < runs@.len() && 0 <= j < runs@[l].text@.len() ==> #[trigger] runs@[l].text@[j]
                    == ' ',
        decreases k,
    {
        let chars = chars_of(runs[k - 1].text.as_str());
        let trailing: usize = count_trailing(chars.as_slice(), ' ');
        proof {
            lemma_trailing_count(chars@, ' ');
        }
        if trailing < chars.len() {
            let at: usize = chars.len() - trailing - 1;
            let glyph: char = chars[at];
            assert(is_last_glyph(runs@, k - 1, at as int));
            assert forall|l: int, i: int| is_last_glyph(runs@, l, i) implies l == k - 1 && i == at by {
                if l < k - 1 {
                    assert(runs@[k - 1].text@[at as int] == ' ');
                } else if l > k - 1 {
                    assert(runs@[l].text@[i] == ' ');
                } else if i < at {
                    assert(runs@[l].text@[at as int] == ' ');
                } else if i > at {
                    assert(runs@[l].text@[i] == ' ');
                }
            }
            if glyph == '\t' || glyph == '\u{fffc}' {
                return None;
            }
            assert(runs@[k - 1].text@[at as int] == glyph);
            return Some((k - 1, glyph));
        }
        assert forall|j: int| 0 <= j < runs@[k - 1].text@.len() implies #[trigger] runs@[k
            - 1].text@[j] == ' ' by {
            assert(chars@[j] == ' ');
        }
        k -= 1;
    }
    None
}

/// The number of drawn characters that a change of spacing applies to: all but tabs.
pub fn total_char_count(runs: &[ComposedTextRun]) -> (count: usize)
    ensures
        count == runs_display(runs@).len() - occurrences(runs_display(runs@), '\t'),
{
    let chars = displayed_chars(runs);
    assert(chars@.take(chars@.len() as int) == chars@);
    let tabs: usize = count_char(chars.as_slice(), chars.len(), '\t');
    chars.len() - tabs
}

/// Whether the alignment fills the line by widening its spaces.
///
/// `Justify` leaves out the last line of a paragraph, `Split` does not. Neither
/// applies to a line that ends in a forced break.
pub open spec fn distributes_words(
    alignment: Alignment,
    is_last_line: bool,
    has_forced_break: bool,
) -> bool {
    !has_forced_break && (alignment == Alignment::Split || (alignment == Alignment::Justify
        && !is_last_line))
}

/// Whether the alignment fills the line by widening its spaces.
pub fn needs_word_distribution(
    alignment: Alignment,
    is_last_line_of_para: bool,
    has_forced_break: bool,
) -> (r: bool)
    ensures
        r == distributes_words(alignment, is_last_line_of_para, has_forced_break),
{
    match alignment {
        Alignment::Split => !has_forced_break,
        Alignment::Justify => !is_last_line_of_para && !has_forced_break,
        _ => false,
    }
}

/// `Split` widens the spaces of every line of which `Justify` does.
pub proof fn lemma_split_distributes_where_justify_does(is_last_line: bool, has_forced_break: bool)
    requires
        distributes_words(Alignment::Justify, is_last_line, has_forced_break),
    ensures
        distributes_words(Alignment::Split, is_last_line, has_forced_break),
{
}

/// A line that ends in a forced break keeps its spaces, whatever the alignment.
pub proof fn lemma_forced_break_never_distributes(alignment: Alignment, is_last_line: bool)
    ensures
        !distributes_words(alignment, is_last_line, true),
{
}

/// The company name in private-use characters, followed by the space before the logo.
pub open spec fn company_logo_text() -> Seq<char> {
    seq!['\u{F03EF}', '\u{F03F0}', '\u{F03F1}', '\u{F03F2}', '\u{F03F3}', '\u{F03F4}', ' ']
}

/// Whether the line is the company name with its logo: the space in front of the
/// logo alone takes the free width.
pub fn is_hancom_company_pua_logo_line(line: &ComposedLine, alignment: Alignment) -> (r: bool)
    ensures
        r == (alignment == Alignment::Split && line.text() == company_logo_text()),
{
    if alignment != Alignment::Split {
        return false;
    }
    let chars = line_chars(line.runs.as_slice());
    let r: bool = chars.len() == 7 && chars[0] == '\u{F03EF}' && chars[1] == '\u{F03F0}' && chars[2]
        == '\u{F03F1}' && chars[3] == '\u{F03F2}' && chars[4] == '\u{F03F3}' && chars[5]
        == '\u{F03F4}' && chars[6] == ' ';
    proof {
        if r {
            assert(chars@ == company_logo_text());
        } else if chars@ == company_logo_text() {
            assert(chars@[0] == company_logo_text()[0]);
        }
    }
    r
}

/// The sign of a measured length.
#[derive(Clone, Copy, Debug, PartialEq, Eq, Structural)]
pub enum Sign {
    Negative,
    Zero,
    Positive,
}

/// What a line is known by when its free width is shared out. The signs and the
/// comparisons are of measured widths.
#[derive(Clone, Copy, Debug, PartialEq, Eq, Structural)]
pub struct SpacingFacts {
    pub alignment: Alignment,
    pub in_cell: bool,
    /// The alignment widens the spaces of this line.
    pub needs_justify: bool,
    /// The line is the last one of a justified paragraph and keeps its width.
    pub is_excluded_justify_last_line: bool,
    /// Only spaces may be widened, never the distance of characters.
    pub justify_spaces_only: bool,
    /// The alignment widens the distance of all characters.
    pub needs_distribute: bool,
    pub has_tabs: bool,
    /// The space that a soft wrap left at the end of the line is drawn.
    pub renders_trailing_space: bool,
    /// A cell's text is not compressed.
    pub suppress_cell_overflow_spacing: bool,
    /// A cell's text is compressed until it fits.
    pub converge_auto_shrink_cell: bool,
    /// Drawn characters without tabs.
    pub total_char_count: usize,
    /// Counts of the drawn text.
    pub shown: LineCounts,
    /// Counts of the document's text.
    pub plain: LineCounts,
    /// Free width when the spaces at the end are left out (or drawn, see above).
    pub word_slack: Sign,
    /// Free width of the whole text.
    pub char_slack: Sign,
    /// A leader of this line can be drawn wider.
    pub leader_can_grow: bool,
    /// Free width between the visible characters.
    pub distribute_slack: Sign,
    /// The text has a width.
    pub has_width: bool,
    /// Some run is set tighter than natural.
    pub has_tight_run: bool,
    /// Set at its natural distance, the text would not fit.
    pub natural_width_overflows: bool,
}

/// Whether the line is the last one of a justified paragraph and keeps its width.
pub fn is_excluded_justify_last_line(
    alignment: Alignment,
    is_last_line_of_para: bool,
    needs_justify: bool,
) -> (r: bool)
    ensures
        r == (alignment == Alignment::Justify && is_last_line_of_para && !needs_justify),
{
    alignment == Alignment::Justify && is_last_line_of_para && !needs_justify
}

/// How the free width of a line is shared out.
#[derive(Clone, Copy, Debug, PartialEq, Eq, Structural)]
pub enum SpacingPlan {
    /// Nothing changes.
    Natural,
    /// All of it goes to the dashes of leaders; where `of_words` holds, the spaces at the
    /// end of the line count as free.
    Leaders { dashes: usize, of_words: bool },
    /// The dashes of leaders get back their natural width, as far as there is room.
    RestoreLeaders { dashes: usize },
    /// It goes to the spaces; what is left of a lack may go to the characters.
    Words { slots: usize, rest_to_characters: bool },
    /// It goes to all characters, down to half of their average width.
    Characters { count: usize },
    /// It goes to the gaps between the visible characters.
    Gaps { gaps: usize, visible: usize },
    /// Characters move closer, step by step, until the text fits.
    Converge { count: usize },
    /// Characters move apart, step by step, until the text fills the cell.
    FillCell { count: usize },
}

/// The free width of a line whose spaces are widened: to its leaders, its spaces or,
/// without any, its characters.
pub open spec fn justify_plan(f: SpacingFacts) -> SpacingPlan {
    if f.shown.interior_spaces > 0 {
        if f.shown.leader_dashes > 0 && f.word_slack == Sign::Positive {
            SpacingPlan::Leaders { dashes: f.shown.leader_dashes, of_words: true }
        } else if f.suppress_cell_overflow_spacing && f.word_slack == Sign::Negative {
            SpacingPlan::Natural
        } else {
            SpacingPlan::Words {
                slots: if f.renders_trailing_space {
                    (f.shown.interior_spaces + f.shown.trailing_spaces) as usize
                } else {
                    f.shown.interior_spaces
                },
                rest_to_characters: f.in_cell && f.total_char_count > 1 && !f.has_tabs,
            }
        }
    } else if f.total_char_count > 1 {
        if f.char_slack == Sign::Positive && f.justify_spaces_only {
            SpacingPlan::Natural
        } else if f.char_slack == Sign::Positive && f.shown.leader_dashes > 0 {
            SpacingPlan::Leaders { dashes: f.shown.leader_dashes, of_words: false }
        } else if f.char_slack == Sign::Negative && f.suppress_cell_overflow_spacing {
            SpacingPlan::Natural
        } else if f.char_slack == Sign::Negative && f.converge_auto_shrink_cell {
            SpacingPlan::Converge { count: f.total_char_count }
        } else {
            SpacingPlan::Characters { count: f.total_char_count }
        }
    } else {
        SpacingPlan::Natural
    }
}

/// The line may give the dashes of its leaders their natural width back: its spaces
/// are not widened, though its alignment fills lines.
pub open spec fn restores_leaders(f: SpacingFacts) -> bool {
    !f.needs_justify && (f.alignment == Alignment::Justify || f.alignment == Alignment::Split)
        && f.plain.leader_dashes > 0
}

/// The free width of a line whose characters are moved apart; spaces at its end take
/// no part.
pub open spec fn distribute_plan(f: SpacingFacts) -> SpacingPlan {
    let visible = if f.total_char_count >= f.plain.trailing_spaces {
        f.total_char_count - f.plain.trailing_spaces
    } else {
        0
    };
    if visible <= 1 || (f.suppress_cell_overflow_spacing && f.distribute_slack == Sign::Negative) {
        SpacingPlan::Natural
    } else {
        SpacingPlan::Gaps { gaps: (visible - 1) as usize, visible: visible as usize }
    }
}

/// The text was set tight to fit its cell and leaves room there now.
pub open spec fn fills_cell(f: SpacingFacts) -> bool {
    f.in_cell && f.total_char_count > 1 && !f.has_tabs && f.alignment != Alignment::Left
        && f.char_slack == Sign::Positive && f.has_width && f.has_tight_run
        && f.natural_width_overflows && !f.is_excluded_justify_last_line
}

/// How the free width of a line is shared out.
pub open spec fn plan_of(f: SpacingFacts) -> SpacingPlan {
    if f.needs_justify {
        justify_plan(f)
    } else if restores_leaders(f) && f.leader_can_grow {
        SpacingPlan::RestoreLeaders { dashes: f.plain.leader_dashes }
    } else if f.needs_distribute && f.total_char_count > 1 {
        distribute_plan(f)
    } else if f.char_slack == Sign::Negative && f.total_char_count > 1 && !f.has_tabs {
        if f.suppress_cell_overflow_spacing {
            SpacingPlan::Natural
        } else if f.converge_auto_shrink_cell {
            SpacingPlan::Converge { count: f.total_char_count }
        } else {
            SpacingPlan::Characters { count: f.total_char_count }
        }
    } else if fills_cell(f) {
        SpacingPlan::FillCell { count: f.total_char_count }
    } else {
        SpacingPlan::Natural
    }
}

/// The dashes of leaders that may get their natural width back, if any.
pub fn last_line_leader_dashes(
    needs_justify: bool,
    alignment: Alignment,
    plain: LineCounts,
) -> (r: Option<usize>)
    ensures
        r == (if !needs_justify && (alignment == Alignment::Justify || alignment
            == Alignment::Split) && plain.leader_dashes > 0 {
            Some(plain.leader_dashes)
        } else {
            None
        }),
{
    if !needs_justify && (alignment == Alignment::Justify || alignment == Alignment::Split)
        && plain.leader_dashes > 0 {
        Some(plain.leader_dashes)
    } else {
        None
    }
}

/// Decides how the free width of a line is shared out.
pub fn line_spacing_plan(f: SpacingFacts) -> (plan: SpacingPlan)
    requires
        f.shown.interior_spaces + f.shown.trailing_spaces <= usize::MAX,
    ensures
        plan == plan_of(f),
{
    if f.needs_justify {
        if f.shown.interior_spaces > 0 {
            if f.shown.leader_dashes > 0 && f.word_slack == Sign::Positive {
                return SpacingPlan::Leaders { dashes: f.shown.leader_dashes, of_words: true };
            }
            if f.suppress_cell_overflow_spacing && f.word_slack == Sign::Negative {
                return SpacingPlan::Natural;
            }
            let mut slots: usize = f.shown.interior_spaces;
            if f.renders_trailing_space {
                slots = f.shown.interior_spaces + f.shown.trailing_spaces;
            }
            return SpacingPlan::Words {
                slots,
                rest_to_characters: f.in_cell && f.total_char_count > 1 && !f.has_tabs,
            };
        }
        if f.total_char_count <= 1 {
            return SpacingPlan::Natural;
        }
        return match f.char_slack {
            Sign::Positive => if f.justify_spaces_only {
                SpacingPlan::Natural
            } else if f.shown.leader_dashes > 0 {
                SpacingPlan::Leaders { dashes: f.shown.leader_dashes, of_words: false }
            } else {
                SpacingPlan::Characters { count: f.total_char_count }
            },
            Sign::Negative => if f.suppress_cell_overflow_spacing {
                SpacingPlan::Natural
            } else if f.converge_auto_shrink_cell {
                SpacingPlan::Converge { count: f.total_char_count }
            } else {
                SpacingPlan::Characters { count: f.total_char_count }
            },
            Sign::Zero => SpacingPlan::Characters { count: f.total_char_count },
        };
    }
    if let Some(dashes) = last_line_leader_dashes(f.needs_justify, f.alignment, f.plain) {
        if f.leader_can_grow {
            return SpacingPlan::RestoreLeaders { dashes };
        }
    }
    if f.needs_distribute && f.total_char_count > 1 {
        if f.total_char_count <= f.plain.trailing_spaces || f.total_char_count
            - f.plain.trailing_spaces <= 1 {
            return SpacingPlan::Natural;
        }
        if f.suppress_cell_overflow_spacing && f.distribute_slack == Sign::Negative {
            return SpacingPlan::Natural;
        }
        let visible: usize = f.total_char_count - f.plain.trailing_spaces;
        return SpacingPlan::Gaps { gaps: visible - 1, visible };
    }
    if f.char_slack == Sign::Negative && f.total_char_count > 1 && !f.has_tabs {
        return if f.suppress_cell_overflow_spacing {
            SpacingPlan::Natural
        } else if f.converge_auto_shrink_cell {
            SpacingPlan::Converge { count: f.total_char_count }
        } else {
            SpacingPlan::Characters { count: f.total_char_count }
        };
    }
    if f.in_cell && f.total_char_count > 1 && !f.has_tabs && f.alignment != Alignment::Left
        && f.char_slack == Sign::Positive && f.has_width && f.has_tight_run
        && f.natural_width_overflows && !f.is_excluded_justify_last_line {
        return SpacingPlan::FillCell { count: f.total_char_count };
    }
    SpacingPlan::Natural
}

/// Every plan has something to share the width out to.
pub proof fn lemma_plan_has_recipients(f: SpacingFacts)
    requires
        f.shown.interior_spaces + f.shown.trailing_spaces <= usize::MAX,
    ensures
        match plan_of(f) {
            SpacingPlan::Natural => true,
            SpacingPlan::Leaders { dashes, .. } => dashes > 0,
            SpacingPlan::RestoreLeaders { dashes } => dashes > 0,
            SpacingPlan::Words { slots, .. } => slots > 0,
            SpacingPlan::Characters { count } => count > 1,
            SpacingPlan::Gaps { gaps, visible } => gaps > 0 && visible == gaps + 1,
            SpacingPlan::Converge { count } => count > 1,
            SpacingPlan::FillCell { count } => count > 1,
        },
{
}

/// Where a cell's text is not to be compressed, text that is too wide stays as it is.
pub proof fn lemma_suppressed_cell_is_not_compressed(f: SpacingFacts)
    requires
        f.suppress_cell_overflow_spacing,
        f.word_slack == Sign::Negative,
        f.char_slack == Sign::Negative,
        f.distribute_slack == Sign::Negative,
        !f.leader_can_grow,
    ensures
        plan_of(f) == SpacingPlan::Natural,
{
}

/// The last line of a justified paragraph is not stretched to fill its cell.
pub proof fn lemma_excluded_last_line_is_not_stretched(f: SpacingFacts)
    requires
        f.is_excluded_justify_last_line,
        !f.needs_justify,
        !f.needs_distribute,
        !f.leader_can_grow,
        f.char_slack != Sign::Negative,
    ensures
        plan_of(f) == SpacingPlan::Natural,
{
}

/// Which rule sets the spacing of a line.
#[derive(Clone, Copy, Debug, PartialEq, Eq, Structural)]
pub enum SpacingMode {
    /// The one space before the company logo takes the free width.
    CompanyLogo,
    /// The characters move together until the text fits on its one line.
    Squeeze,
    /// The spaces that a soft wrap left keep their width.
    KeepBlank,
    /// The spacing plan applies.
    Plan,
}

/// Chooses the rule that sets the spacing of a line.
pub fn spacing_mode(
    is_company_logo_line: bool,
    squeeze_line: bool,
    runs_all_whitespace: bool,
    is_last_line_of_para: bool,
    has_forced_break: bool,
    has_objects: bool,
    needs_justify: bool,
    needs_distribute: bool,
) -> (mode: SpacingMode)
    ensures
        mode == (if is_company_logo_line {
            SpacingMode::CompanyLogo
        } else if squeeze_line {
            SpacingMode::Squeeze
        } else if runs_all_whitespace && !is_last_line_of_para && !has_forced_break && !has_objects
            && !needs_justify && !needs_distribute {
            SpacingMode::KeepBlank
        } else {
            SpacingMode::Plan
        }),
{
    if is_company_logo_line {
        SpacingMode::CompanyLogo
    } else if squeeze_line {
        SpacingMode::Squeeze
    } else if runs_all_whitespace && !is_last_line_of_para && !has_forced_break && !has_objects
        && !needs_justify && !needs_distribute {
        SpacingMode::KeepBlank
    } else {
        SpacingMode::Plan
    }
}

/// The highest position of the objects.
pub open spec fn is_last_position<W>(offsets: Seq<(usize, W, usize)>, pos: usize) -> bool {
    &&& exists|i: int| 0 <= i < offsets.len() && (#[trigger] offsets[i]).0 == pos
    &&& forall|i: int| 0 <= i < offsets.len() ==> (#[trigger] offsets[i]).0 <= pos
}

/// The position of the last object, if there is any.
pub fn last_object_position<W: Copy>(offsets: &[(usize, W, usize)]) -> (r: Option<usize>)
    ensures
        r is None <==> offsets@.len() == 0,
        r matches Some(pos) ==> is_last_position(offsets@, pos),
{
    if offsets.len() == 0 {
        return None;
    }
    let mut pos: usize = offsets[0].0;
    for i in 0..offsets.len()
        invariant
            offsets@.len() > 0,
            i == 0 ==> pos == offsets@[0].0,
            i > 0 ==> exists|k: int| 0 <= k < i && (#[trigger] offsets@[k]).0 == pos,
            forall|k: int| 0 <= k < i ==> (#[trigger] offsets@[k]).0 <= pos,
    {
        let offset: (usize, W, usize) = offsets[i];
        if i == 0 || offset.0 > pos {
            pos = offset.0;
            assert(offsets@[i as int].0 == pos);
        }
    }
    Some(pos)
}

/// How many spaces at the end of a line may count as trailing: those behind the
/// last object. Without an object there is no limit.
pub fn trailing_space_limit_after_last_inline_object(
    line: &ComposedLine,
    last_inline_object_pos: Option<usize>,
) -> (limit: usize)
    requires
        line.char_start + runs_units(line.runs@) <= usize::MAX,
    ensures
        limit == (match last_inline_object_pos {
            None => usize::MAX as int,
            Some(pos) => if line.char_start + runs_units(line.runs@) >= pos {
                line.char_start + runs_units(line.runs@) - pos
            } else {
                0
            },
        }),
{
    match last_inline_object_pos {
        None => usize::MAX,
        Some(pos) => {
            let end: usize = line.char_start + runs_unit_count(line.runs.as_slice());
            if end >= pos {
                end - pos
            } else {
                0
            }
        },
    }
}

/// The smaller of two numbers.
pub open spec fn smaller(a: int, b: int) -> int {
    if a <= b {
        a
    } else {
        b
    }
}

/// The spaces at the end of a run that ends at `end`, as far as they are behind the
/// last object.
pub open spec fn trailing_in_run(run: ComposedTextRun, end: int, object: Option<usize>) -> int {
    let spaces = trailing_count(run.text@, ' ') as int;
    let start = end - run_units(run);
    match object {
        None => spaces,
        Some(pos) => {
            let floor = if pos >= start {
                pos as int
            } else {
                start
            };
            smaller(spaces, if end >= floor {
                end - floor
            } else {
                0
            })
        },
    }
}

/// The spaces at the end of a line, run by run from the back: pairs of a run's index
/// and a number of spaces. A run that does not end in spaces, or is underlined where
/// that counts, ends the row, as does one that has other characters too.
pub open spec fn trailing_pieces(
    runs: Seq<ComposedTextRun>,
    end: int,
    object: Option<usize>,
    stops: Seq<bool>,
) -> Seq<(int, int)>
    decreases runs.len(),
{
    if runs.len() == 0 {
        Seq::empty()
    } else {
        let last = runs.len() - 1;
        let spaces = trailing_in_run(runs[last], end, object);
        if spaces == 0 || stops[last] {
            Seq::empty()
        } else if spaces != run_units(runs[last]) {
            seq![(last, spaces)]
        } else {
            seq![(last, spaces)] + trailing_pieces(
                runs.drop_last(),
                end - run_units(runs[last]),
                object,
                stops,
            )
        }
    }
}

/// The spaces at the end of a line that an alignment leaves out, run by run from the
/// back. `stops` says of each run whether spaces of it count as content.
pub fn trailing_space_pieces(
    line: &ComposedLine,
    last_inline_object_pos: Option<usize>,
    stops: &[bool],
) -> (r: Vec<(usize, usize)>)
    requires
        line.char_start + runs_units(line.runs@) <= usize::MAX,
        stops@.len() == line.runs@.len(),
    ensures
        r@.map_values(|e: (usize, usize)| (e.0 as int, e.1 as int)) == trailing_pieces(
            line.runs@,
            line.char_start + runs_units(line.runs@),
            last_inline_object_pos,
            stops@,
        ),
{
    let ghost ints = |e: (usize, usize)| (e.0 as int, e.1 as int);
    let mut r: Vec<(usize, usize)> = Vec::new();
    let mut n: usize = line.runs.len();
    let mut end: usize = line.char_start + runs_unit_count(line.runs.as_slice());
    let ghost whole = trailing_pieces(line.runs@, end as int, last_inline_object_pos, stops@);
    assert(line.runs@.take(n as int) == line.runs@);
    assert(r@.map_values(ints) == Seq::<(int, int)>::empty());
    while n > 0
        invariant_except_break
            whole == r@.map_values(ints) + trailing_pieces(
                line.runs@.take(n as int),
                end as int,
                last_inline_object_pos,
                stops@,
            ),
        invariant
            ints == (|e: (usize, usize)| (e.0 as int, e.1 as int)),
            n <= line.runs@.len(),
            stops@.len() == line.runs@.len(),
            end == line.char_start + runs_units(line.runs@.take(n as int)),
        ensures
            whole == r@.map_values(ints),
        decreases n,
    {
        let run = &line.runs[n - 1];
        let ghost before = line.runs@.take(n as int);
        assert(before.drop_last() == line.runs@.take(n - 1));
        let units: usize = run.units();
        let start: usize = end - units;
        let chars = chars_of(run.text.as_str());
        let mut spaces: usize = count_trailing(chars.as_slice(), ' ');
        if let Some(pos) = last_inline_object_pos {
            let mut floor: usize = start;
            if pos > floor {
                floor = pos;
            }
            let mut room: usize = 0;
            if end > floor {
                room = end - floor;
            }
            if room < spaces {
                spaces = room;
            }
        }
        assert(spaces == trailing_in_run(before[n - 1], end as int, last_inline_object_pos));
        if spaces == 0 || stops[n - 1] {
            assert(whole == r@.map_values(ints));
            break;
        }
        let ghost done = r@;
        r.push((n - 1, spaces));
        assert(r@.map_values(ints) == done.map_values(ints) + seq![(n - 1, spaces as int)]);
        if spaces != units {
            break;
        }
        proof {
            let rest = trailing_pieces(
                line.runs@.take(n - 1),
                start as int,
                last_inline_object_pos,
                stops@,
            );
            assert(done.map_values(ints) + (seq![(n - 1, spaces as int)] + rest) == r@.map_values(
                ints,
            ) + rest);
        }
        n -= 1;
        end = start;
    }
    r
}

} // verus!
