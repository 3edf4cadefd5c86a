//! What counting and trimming promise of a text.

use vstd::prelude::*;

use crate::text::is_control_code;
use crate::text::is_white_space_code;
use crate::text::occurrences;
use crate::text::trailing_count;
use crate::text::trim;
use crate::text::trim_end;
use crate::text::trim_start;

verus! {

/// A character occurs as often as it is left when all others are taken out.
pub proof fn lemma_occurrences_are_what_a_filter_keeps(text: Seq<char>, ch: char)
    ensures
        occurrences(text, ch) == text.filter(|c: char| c == ch).len(),
    decreases text.len(),
{
    let p = |c: char| c == ch;
    reveal(Seq::filter);
    if text.len() > 0 {
        lemma_occurrences_are_what_a_filter_keeps(text.drop_last(), ch);
        crate::seqs::lemma_filter_last(text, p);
    }
}

/// A text of one character alone ends in as many of it as it is long, and any other
/// character behind it ends the count.
pub proof fn lemma_trailing_count_starts_anew(text: Seq<char>, ch: char, other: char)
    ensures
        trailing_count(text.push(ch), ch) == trailing_count(text, ch) + 1,
        other != ch ==> trailing_count(text.push(other), ch) == 0,
        trailing_count(Seq::empty(), ch) == 0,
{
    assert(text.push(ch).drop_last() == text);
}

proof fn lemma_trim_end_cuts(text: Seq<char>)
    ensures
        trim_end(text).len() <= text.len(),
        trim_end(text) == text.take(trim_end(text).len() as int),
        forall|i: int|
            trim_end(text).len() <= i < text.len() ==> is_white_space_code(
                #[trigger] text[i] as u32,
            ),
        trim_end(text).len() > 0 ==> !is_white_space_code(trim_end(text).last() as u32),
    decreases text.len(),
{
    if text.len() > 0 && is_white_space_code(text.last() as u32) {
        let shorter = text.drop_last();
        lemma_trim_end_cuts(shorter);
        let n = trim_end(text).len() as int;
        assert(shorter.take(n) == text.take(n));
        assert forall|i: int| n <= i < text.len() implies is_white_space_code(
            #[trigger] text[i] as u32,
        ) by {
            if i < shorter.len() {
                assert(is_white_space_code(shorter[i] as u32));
            }
        }
    } else {
        assert(text.take(text.len() as int) == text);
    }
}

proof fn lemma_trim_start_cuts(text: Seq<char>)
    ensures
        trim_start(text).len() <= text.len(),
        trim_start(text) == text.skip(text.len() - trim_start(text).len()),
        forall|i: int|
            0 <= i < text.len() - trim_start(text).len() ==> is_white_space_code(
                #[trigger] text[i] as u32,
            ),
        trim_start(text).len() > 0 ==> !is_white_space_code(trim_start(text)[0] as u32),
    decreases text.len(),
{
    if text.len() > 0 && is_white_space_code(text[0] as u32) {
        let shorter = text.drop_first();
        lemma_trim_start_cuts(shorter);
        let n = text.len() - trim_start(text).len();
        assert(shorter.skip(n - 1) == text.skip(n));
        assert forall|i: int| 0 <= i < n implies is_white_space_code(#[trigger] text[i] as u32) by {
            if i > 0 {
                assert(is_white_space_code(shorter[i - 1] as u32));
            }
        }
    } else {
        assert(text.skip(0) == text);
    }
}

/// A trimmed text is the part of the text between the white space at its ends: it neither
/// starts nor ends in white space, and nothing else was cut off.
pub proof fn lemma_trim_cuts_white_space(text: Seq<char>) -> (cut: (int, int))
    ensures
        0 <= cut.0 <= cut.1 <= text.len(),
        trim(text) == text.subrange(cut.0, cut.1),
        forall|i: int|
            0 <= i < text.len() && (i < cut.0 || cut.1 <= i) ==> is_white_space_code(
                #[trigger] text[i] as u32,
            ),
        trim(text).len() > 0 ==> !is_white_space_code(trim(text)[0] as u32)
            && !is_white_space_code(trim(text).last() as u32),
{
    let body = trim_end(text);
    lemma_trim_end_cuts(text);
    lemma_trim_start_cuts(body);
    let start = body.len() - trim_start(body).len();
    assert(trim(text) == text.subrange(start, body.len() as int));
    assert forall|i: int|
        0 <= i < text.len() && (i < start || body.len() <= i) implies is_white_space_code(
        #[trigger] text[i] as u32,
    ) by {
        if i < start {
            assert(is_white_space_code(body[i] as u32));
        }
    }
    if trim(text).len() > 0 {
        assert(trim(text).last() == body.last());
    }
    (start, body.len() as int)
}

/// Spaces, tabs, line ends and the wide space are white space; letters, digits, signs and
/// Hangul are not.
pub proof fn lemma_white_space(c: u32)
    ensures
        c == ' ' as u32 || c == '\t' as u32 || c == '\n' as u32 || c == '\r' as u32 || c
            == '\u{a0}' as u32 || c == '\u{3000}' as u32 ==> is_white_space_code(c),
        0x21 <= c <= 0x7e ==> !is_white_space_code(c),
        0x3001 <= c ==> !is_white_space_code(c),
        c <= 8 ==> !is_white_space_code(c),
        0x2000 <= c <= 0x200a || 0x2028 <= c <= 0x2029 ==> is_white_space_code(c),
        0x09 <= c <= 0x0d || c == 0x85 || c == 0x1680 || c == 0x202f || c == 0x205f
            ==> is_white_space_code(c),
        0x0e <= c <= 0x1f || 0x7f <= c <= 0x84 || 0x86 <= c <= 0x9f ==> !is_white_space_code(c),
        0x200b <= c <= 0x2027 || 0x202a <= c <= 0x202e || 0x2030 <= c <= 0x205e
            ==> !is_white_space_code(c),
        0xa1 <= c < 0x1680 ==> !is_white_space_code(c),
        0x1681 <= c < 0x2000 ==> !is_white_space_code(c),
        0x2060 <= c < 0x3000 ==> !is_white_space_code(c),
{
}

/// Control characters are those below the space and those around the end of ASCII.
pub proof fn lemma_control_characters(c: u32)
    ensures
        c < ' ' as u32 ==> is_control_code(c),
        ' ' as u32 <= c <= '~' as u32 ==> !is_control_code(c),
        0x7f <= c < 0xa0 ==> is_control_code(c),
        c >= 0xa0 ==> !is_control_code(c),
{
}

} // verus!
