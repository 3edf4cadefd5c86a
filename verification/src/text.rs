//! Characters and short texts: classification, counting and formatting.

use vstd::prelude::*;

verus! {

/// `String::push` appends the given character at the end of the string.
pub assume_specification[ String::push ](s: &mut String, ch: char)
    ensures
        final(s)@ == old(s)@.push(ch),
;

/// The code points with the Unicode property White_Space.
pub open spec fn is_white_space_code(c: u32) -> bool {
    ||| 0x09 <= c <= 0x0d
    ||| c == 0x20
    ||| c == 0x85
    ||| c == 0xa0
    ||| c == 0x1680
    ||| 0x2000 <= c <= 0x200a
    ||| c == 0x2028
    ||| c == 0x2029
    ||| c == 0x202f
    ||| c == 0x205f
    ||| c == 0x3000
}

/// The code points of the Unicode category Cc.
pub open spec fn is_control_code(c: u32) -> bool {
    c <= 0x1f || 0x7f <= c <= 0x9f
}

/// Whether the character has the Unicode property White_Space.
pub fn is_white_space(ch: char) -> (r: bool)
    ensures
        r == is_white_space_code(ch as u32),
{
    let c: u32 = ch as u32;
    (0x09 <= c && c <= 0x0d) || c == 0x20 || c == 0x85 || c == 0xa0 || c == 0x1680 || (0x2000 <= c
        && c <= 0x200a) || c == 0x2028 || c == 0x2029 || c == 0x202f || c == 0x205f || c == 0x3000
}

/// Whether the character is a control character.
pub fn is_control(ch: char) -> (r: bool)
    ensures
        r == is_control_code(ch as u32),
{
    let c: u32 = ch as u32;
    c <= 0x1f || (0x7f <= c && c <= 0x9f)
}

/// The characters of a text, in order.
pub fn chars_of(text: &str) -> (chars: Vec<char>)
    ensures
        chars@ == text@,
{
    let mut chars: Vec<char> = Vec::new();
    for c in it: text.chars()
        invariant
            it.seq() == text@,
            chars@ == text@.take(it.index()),
    {
        chars.push(c);
    }
    chars
}

/// The string that holds the given characters, in order.
pub fn string_of(chars: &[char]) -> (text: String)
    ensures
        text@ == chars@,
{
    let mut text = String::new();
    for i in 0..chars.len()
        invariant
            text@ == chars@.take(i as int),
    {
        text.push(chars[i]);
        assert(chars@.take(i + 1) == chars@.take(i as int).push(chars@[i as int]));
    }
    assert(chars@.take(chars@.len() as int) == chars@);
    text
}

/// Every character of the text is white space.
pub open spec fn all_white(text: Seq<char>) -> bool {
    forall|i: int| 0 <= i < text.len() ==> is_white_space_code(#[trigger] text[i] as u32)
}

/// Whether nothing but white space is in the text.
pub fn is_blank(text: &str) -> (r: bool)
    ensures
        r == all_white(text@),
{
    let chars = chars_of(text);
    is_blank_slice(chars.as_slice())
}

/// Whether nothing but white space is among the characters.
pub fn is_blank_slice(chars: &[char]) -> (r: bool)
    ensures
        r == all_white(chars@),
{
    for i in 0..chars.len()
        invariant
            forall|k: int| 0 <= k < i ==> is_white_space_code(#[trigger] chars@[k] as u32),
    {
        if !is_white_space(chars[i]) {
            assert(!is_white_space_code(chars@[i as int] as u32));
            return false;
        }
    }
    true
}

/// Some character of the text is white space.
pub open spec fn has_white(text: Seq<char>) -> bool {
    exists|i: int| 0 <= i < text.len() && is_white_space_code(#[trigger] text[i] as u32)
}

/// Whether there is white space among the characters.
pub fn contains_white(chars: &[char]) -> (r: bool)
    ensures
        r == has_white(chars@),
{
    for i in 0..chars.len()
        invariant
            forall|k: int| 0 <= k < i ==> !is_white_space_code(#[trigger] chars@[k] as u32),
    {
        if is_white_space(chars[i]) {
            assert(is_white_space_code(chars@[i as int] as u32));
            return true;
        }
    }
    false
}

/// Whether two texts hold the same characters.
pub fn same_text(a: &str, b: &str) -> (r: bool)
    ensures
        r == (a@ == b@),
{
    let left = chars_of(a);
    let right = chars_of(b);
    if left.len() != right.len() {
        return false;
    }
    for i in 0..left.len()
        invariant
            left@ == a@,
            right@ == b@,
            left@.len() == right@.len(),
            forall|k: int| 0 <= k < i ==> left@[k] == right@[k],
    {
        if left[i] != right[i] {
            assert(a@[i as int] != b@[i as int]);
            return false;
        }
    }
    assert(left@ == right@);
    true
}

/// The text without white space at its end.
pub open spec fn trim_end(text: Seq<char>) -> Seq<char>
    decreases text.len(),
{
    if text.len() > 0 && is_white_space_code(text.last() as u32) {
        trim_end(text.drop_last())
    } else {
        text
    }
}

/// The text without white space at its start.
pub open spec fn trim_start(text: Seq<char>) -> Seq<char>
    decreases text.len(),
{
    if text.len() > 0 && is_white_space_code(text[0] as u32) {
        trim_start(text.drop_first())
    } else {
        text
    }
}

/// The text without white space at both ends.
pub open spec fn trim(text: Seq<char>) -> Seq<char> {
    trim_start(trim_end(text))
}

/// The characters without white space at both ends.
pub fn trimmed(chars: &[char]) -> (r: Vec<char>)
    ensures
        r@ == trim(chars@),
{
    let mut end: usize = chars.len();
    assert(chars@.take(end as int) == chars@);
    while end > 0 && is_white_space(chars[end - 1])
        invariant
            end <= chars@.len(),
            trim_end(chars@) == trim_end(chars@.take(end as int)),
        decreases end,
    {
        assert(chars@.take(end as int).drop_last() == chars@.take(end - 1));
        end -= 1;
    }
    let mut start: usize = 0;
    let ghost body = chars@.take(end as int);
    assert(body.skip(0) == body);
    while start < end && is_white_space(chars[start])
        invariant
            start <= end <= chars@.len(),
            body == chars@.take(end as int),
            trim_start(body) == trim_start(body.skip(start as int)),
        decreases end - start,
    {
        assert(body.skip(start as int).drop_first() == body.skip(start + 1));
        start += 1;
    }
    let mut r: Vec<char> = Vec::new();
    for i in start..end
        invariant
            start <= end <= chars@.len(),
            r@ == chars@.subrange(start as int, i as int),
    {
        r.push(chars[i]);
    }
    assert(r@ == body.skip(start as int));
    r
}

/// Nothing is left of a text exactly where it is all white space.
pub proof fn lemma_trim_empty_iff_white(text: Seq<char>)
    ensures
        trim(text).len() == 0 <==> all_white(text),
{
    lemma_trim_end_empty(text);
    lemma_trim_start_empty(trim_end(text));
    if trim(text).len() == 0 {
        if trim_end(text).len() > 0 {
            lemma_trim_end_last(text);
            let t = trim_end(text);
            assert(is_white_space_code(t[t.len() - 1] as u32));
        }
    }
}

proof fn lemma_trim_end_empty(text: Seq<char>)
    ensures
        trim_end(text).len() == 0 <==> all_white(text),
    decreases text.len(),
{
    if text.len() > 0 && is_white_space_code(text.last() as u32) {
        lemma_trim_end_empty(text.drop_last());
        let shorter = text.drop_last();
        if all_white(shorter) {
            assert forall|i: int| 0 <= i < text.len() implies is_white_space_code(
                #[trigger] text[i] as u32,
            ) by {
                if i < shorter.len() {
                    assert(is_white_space_code(shorter[i] as u32));
                }
            }
        } else {
            let i = choose|i: int|
                0 <= i < shorter.len() && !is_white_space_code(#[trigger] shorter[i] as u32);
            assert(!is_white_space_code(text[i] as u32));
        }
    } else if text.len() > 0 {
        assert(!is_white_space_code(text[text.len() - 1] as u32));
    }
}

proof fn lemma_trim_end_last(text: Seq<char>)
    requires
        trim_end(text).len() > 0,
    ensures
        !is_white_space_code(trim_end(text).last() as u32),
    decreases text.len(),
{
    if text.len() > 0 && is_white_space_code(text.last() as u32) {
        lemma_trim_end_last(text.drop_last());
    }
}

proof fn lemma_trim_start_empty(text: Seq<char>)
    ensures
        trim_start(text).len() == 0 <==> all_white(text),
    decreases text.len(),
{
    if text.len() > 0 && is_white_space_code(text[0] as u32) {
        lemma_trim_start_empty(text.drop_first());
        let shorter = text.drop_first();
        if all_white(shorter) {
            assert forall|i: int| 0 <= i < text.len() implies is_white_space_code(
                #[trigger] text[i] as u32,
            ) by {
                if i > 0 {
                    assert(is_white_space_code(shorter[i - 1] as u32));
                }
            }
        } else {
            let i = choose|i: int|
                0 <= i < shorter.len() && !is_white_space_code(#[trigger] shorter[i] as u32);
            assert(!is_white_space_code(text[i + 1] as u32));
        }
    }
}

/// Whether a character occurs in the text.
pub fn contains_char(text: &str, ch: char) -> (r: bool)
    ensures
        r == text@.contains(ch),
{
    let chars = chars_of(text);
    for i in 0..chars.len()
        invariant
            chars@ == text@,
            forall|k: int| 0 <= k < i ==> #[trigger] chars@[k] != ch,
    {
        if chars[i] == ch {
            assert(text@[i as int] == ch);
            return true;
        }
    }
    false
}

/// How many times a character stands at the end of the text, without a gap.
pub open spec fn trailing_count(text: Seq<char>, ch: char) -> nat
    decreases text.len(),
{
    if text.len() > 0 && text.last() == ch {
        trailing_count(text.drop_last(), ch) + 1
    } else {
        0
    }
}

/// What `trailing_count` counts: that many characters, and no more, at the end.
pub proof fn lemma_trailing_count(text: Seq<char>, ch: char)
    ensures
        trailing_count(text, ch) <= text.len(),
        forall|i: int|
            text.len() - trailing_count(text, ch) <= i < text.len() ==> #[trigger] text[i] == ch,
        trailing_count(text, ch) < text.len() ==> text[text.len() - trailing_count(text, ch) - 1]
            != ch,
    decreases text.len(),
{
    if text.len() > 0 && text.last() == ch {
        lemma_trailing_count(text.drop_last(), ch);
        let shorter = text.drop_last();
        assert forall|i: int| text.len() - trailing_count(text, ch) <= i < text.len() implies
            #[trigger] text[i] == ch by {
            if i < shorter.len() {
                assert(shorter[i] == ch);
            }
        }
    }
}

/// The number of times that a character stands at the end.
pub fn count_trailing(chars: &[char], ch: char) -> (count: usize)
    ensures
        count == trailing_count(chars@, ch),
        count <= chars@.len(),
{
    let n: usize = chars.len();
    let mut count: usize = 0;
    assert(chars@.take(n as int) == chars@);
    while count < n && chars[n - 1 - count] == ch
        invariant
            n == chars@.len(),
            count <= n,
            trailing_count(chars@, ch) == count + trailing_count(chars@.take(n - count), ch),
        decreases n - count,
    {
        assert(chars@.take(n - count).drop_last() == chars@.take(n - count - 1));
        count += 1;
    }
    count
}

/// How many times a character occurs in the text.
pub open spec fn occurrences(text: Seq<char>, ch: char) -> nat
    decreases text.len(),
{
    if text.len() == 0 {
        0
    } else {
        occurrences(text.drop_last(), ch) + if text.last() == ch {
            1nat
        } else {
            0nat
        }
    }
}

/// Two texts hold a character as often as both of them together.
pub proof fn lemma_occurrences_concat(a: Seq<char>, b: Seq<char>, ch: char)
    ensures
        occurrences(a + b, ch) == occurrences(a, ch) + occurrences(b, ch),
    decreases b.len(),
{
    if b.len() == 0 {
        assert(a + b == a);
    } else {
        assert((a + b).drop_last() == a + b.drop_last());
        lemma_occurrences_concat(a, b.drop_last(), ch);
    }
}

/// Counts a character among the first `n` characters.
pub fn count_char(chars: &[char], n: usize, ch: char) -> (count: usize)
    requires
        n <= chars@.len(),
    ensures
        count == occurrences(chars@.take(n as int), ch),
        count <= n,
{
    let mut count: usize = 0;
    for i in 0..n
        invariant
            n <= chars@.len(),
            count == occurrences(chars@.take(i as int), ch),
            count <= i,
    {
        assert(chars@.take(i + 1).drop_last() == chars@.take(i as int));
        if chars[i] == ch {
            count += 1;
        }
    }
    count
}

} // verus!
