//! The letter spacing behind the last cluster of a line that starts with a picture.

use unicode_segmentation::UnicodeSegmentation;
use vstd::prelude::*;

use crate::composed::runs_char_count;
use crate::composed::ComposedLine;
use crate::composed::ComposedTextRun;
use crate::controls::is_inline_picture;
use crate::model::Control;
use crate::model::Paragraph;
use crate::text::chars_of;
use crate::text::contains_white;
use crate::text::has_white;

verus! {

/// The last extended grapheme cluster of a text.
pub uninterp spec fn last_grapheme(text: Seq<char>) -> Option<Seq<char>>;

/// `UnicodeSegmentation::graphemes(text, true)`, walked from its end: the last extended
/// grapheme cluster of the text. An empty text has none; that of any other text is its
/// end, one character at least.
#[verifier::external_body]
fn last_cluster(text: &str) -> (r: Option<String>)
    ensures
        match r {
            Some(cluster) => last_grapheme(text@) == Some(cluster@),
            None => last_grapheme(text@) is None,
        },
        match r {
            Some(cluster) => 0 < cluster@.len() <= text@.len() && text@.skip(
                text@.len() - cluster@.len(),
            ) == cluster@,
            None => text@.len() == 0,
        },
{
    match UnicodeSegmentation::graphemes(text, true).next_back() {
        Some(cluster) => Some(cluster.to_string()),
        None => None,
    }
}

/// The control with this index is a picture laid out like a character.
pub open spec fn is_picture_in_text(para: Option<&Paragraph>, index: int) -> bool {
    para matches Some(p) && 0 <= index < p.controls@.len() && is_inline_picture(p.controls@[index])
}

/// The runs show their own text, one character after the other.
pub open spec fn runs_are_plain(runs: Seq<ComposedTextRun>) -> bool {
    forall|i: int|
        0 <= i < runs.len() ==> (#[trigger] runs[i]).char_overlap is None && runs[i].display_text
            is None
}

/// The line has text behind all of its objects, and one of these is a picture.
pub open spec fn text_ends_behind_picture(
    line: ComposedLine,
    para: Option<&Paragraph>,
    offsets: Seq<(usize, usize)>,
) -> bool {
    &&& runs_are_plain(line.runs@)
    &&& forall|i: int| 0 <= i < offsets.len() ==> (#[trigger] offsets[i]).0 < line.text_end()
    &&& exists|i: int|
        0 <= i < offsets.len() && is_picture_in_text(para, (#[trigger] offsets[i]).1 as int)
}

/// Run `k` is the last with text.
pub open spec fn is_last_text_run(runs: Seq<ComposedTextRun>, k: int) -> bool {
    &&& 0 <= k < runs.len()
    &&& runs[k].text@.len() > 0
    &&& forall|j: int| k < j < runs.len() ==> (#[trigger] runs[j]).text@.len() == 0
}

/// No run is the last with text.
pub open spec fn no_run_has_text(runs: Seq<ComposedTextRun>) -> bool {
    forall|k: int| !#[trigger] is_last_text_run(runs, k)
}

fn plain_runs(runs: &[ComposedTextRun]) -> (r: bool)
    ensures
        r == runs_are_plain(runs@),
{
    for i in 0..runs.len()
        invariant
            forall|k: int|
                0 <= k < i ==> (#[trigger] runs@[k]).char_overlap is None && runs@[k].display_text
                    is None,
    {
        if runs[i].char_overlap.is_some() || runs[i].display_text.is_some() {
            return false;
        }
    }
    true
}

fn picture_in_text(para: Option<&Paragraph>, index: usize) -> (r: bool)
    ensures
        r == is_picture_in_text(para, index as int),
{
    match para {
        Some(p) => if index < p.controls.len() {
            match &p.controls[index] {
                Control::Picture(picture) => picture.common.treat_as_char,
                _ => false,
            }
        } else {
            false
        },
        None => false,
    }
}

/// The run whose last letter spacing may not count toward the width of the line: the
/// last one with text, where the line has a picture and nothing behind its text.
/// `offsets` holds the position and the control of each object of the line.
pub fn terminal_run(line: &ComposedLine, para: Option<&Paragraph>, offsets: &[(usize, usize)]) -> (r:
    Option<usize>)
    requires
        line.fits(),
    ensures
        r matches Some(k) ==> text_ends_behind_picture(*line, para, offsets@) && is_last_text_run(
            line.runs@,
            k as int,
        ),
        r is None ==> !text_ends_behind_picture(*line, para, offsets@) || no_run_has_text(
            line.runs@,
        ),
{
    if !plain_runs(line.runs.as_slice()) {
        return None;
    }
    let end: usize = line.char_start + runs_char_count(line.runs.as_slice());
    let mut has_picture: bool = false;
    for i in 0..offsets.len()
        invariant
            end == line.text_end(),
            forall|k: int| 0 <= k < i ==> (#[trigger] offsets@[k]).0 < end,
            has_picture == exists|k: int|
                0 <= k < i && is_picture_in_text(para, (#[trigger] offsets@[k]).1 as int),
    {
        if offsets[i].0 >= end {
            return None;
        }
        if picture_in_text(para, offsets[i].1) {
            assert(is_picture_in_text(para, offsets@[i as int].1 as int));
            has_picture = true;
        }
    }
    if !has_picture {
        return None;
    }
    let mut k: usize = line.runs.len();
    while k > 0
        invariant
            k <= line.runs@.len(),
            text_ends_behind_picture(*line, para, offsets@),
            forall|j: int| k <= j < line.runs@.len() ==> (#[trigger] line.runs@[j]).text@.len() == 0,
        decreases k,
    {
        if line.runs[k - 1].text.as_str().unicode_len() > 0 {
            return Some(k - 1);
        }
        k -= 1;
    }
    None
}

/// Whether the letter spacing of the last cluster is left out of the width: the run
/// has some, and the cluster shows something. `is_tracked` says that the run's letter
/// spacing is positive and that no pairs are kerned.
pub fn cluster_drops_tracking(cluster: Option<&str>, is_tracked: bool) -> (r: bool)
    ensures
        r == (cluster matches Some(text) && is_tracked && !has_white(text@)),
{
    match cluster {
        Some(text) => {
            let chars = chars_of(text);
            is_tracked && !contains_white(chars.as_slice())
        },
        None => false,
    }
}

/// The cluster whose letter spacing does not count toward the width of a line, with
/// the run that it ends. `is_tracked` says of each run whether its letter spacing is
/// positive and no pairs are kerned.
pub fn terminal_tracking_after_inline_picture(
    line: &ComposedLine,
    para: Option<&Paragraph>,
    offsets: &[(usize, usize)],
    is_tracked: &[bool],
) -> (r: Option<(usize, String)>)
    requires
        line.fits(),
        is_tracked@.len() == line.runs@.len(),
    ensures
        r matches Some((k, cluster)) ==> {
            &&& text_ends_behind_picture(*line, para, offsets@)
            &&& is_last_text_run(line.runs@, k as int)
            &&& is_tracked@[k as int]
            &&& last_grapheme(line.runs@[k as int].text@) == Some(cluster@)
            &&& !has_white(cluster@)
        },
        r is None ==> forall|k: int|
            #![trigger is_last_text_run(line.runs@, k)]
            is_last_text_run(line.runs@, k) && text_ends_behind_picture(*line, para, offsets@) ==> (
            !is_tracked@[k] || !(last_grapheme(line.runs@[k].text@) is Some) || has_white(
                last_grapheme(line.runs@[k].text@)->0,
            )),
{
    match terminal_run(line, para, offsets) {
        Some(k) => {
            assert forall|j: int| is_last_text_run(line.runs@, j) implies j == k by {
                if j < k {
                    assert(line.runs@[k as int].text@.len() == 0);
                } else if j > k {
                    assert(line.runs@[j].text@.len() == 0);
                }
            }
            match last_cluster(line.runs[k].text.as_str()) {
                Some(cluster) => {
                    if cluster_drops_tracking(Some(cluster.as_str()), is_tracked[k]) {
                        Some((k, cluster))
                    } else {
                        None
                    }
                },
                None => None,
            }
        },
        None => None,
    }
}

} // verus!
