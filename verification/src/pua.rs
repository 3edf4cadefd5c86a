//! Private-use characters of HWP documents and their standard counterparts.

use vstd::prelude::*;

verus! {

/// The table of private-use code points that have a standard counterpart.
///
/// The basic range U+F020..U+F0FF holds Wingdings characters at 0xF000 plus their
/// font code. The supplementary codes are the ones that Hancom assigns itself:
/// the down arrow of the low range, the middle dot, book brackets, the example
/// marker and the line-drawing characters.
pub open spec fn pua_counterpart(code: u32) -> Option<char> {
    match code {
        0xF022 => Some('\u{2702}'),
        0xF036 => Some('\u{231B}'),
        0xF045 => Some('\u{261C}'),
        0xF046 => Some('\u{261E}'),
        0xF047 => Some('\u{261D}'),
        0xF048 => Some('\u{261F}'),
        0xF04A => Some('\u{263A}'),
        0xF04E => Some('\u{2620}'),
        0xF052 => Some('\u{263C}'),
        0xF054 => Some('\u{2744}'),
        0xF058 => Some('\u{2720}'),
        0xF059 => Some('\u{2721}'),
        0xF06C => Some('\u{25CF}'),
        0xF06D => Some('\u{25CF}'),
        0xF06E => Some('\u{25A0}'),
        0xF06F => Some('\u{25A1}'),
        0xF070 => Some('\u{25A1}'),
        0xF071 => Some('\u{25A1}'),
        0xF072 => Some('\u{25A1}'),
        0xF073 => Some('\u{2B27}'),
        0xF074 => Some('\u{29EB}'),
        0xF075 => Some('\u{25C6}'),
        0xF076 => Some('\u{2756}'),
        0xF077 => Some('\u{2B25}'),
        0xF09E => Some('\u{00B7}'),
        0xF09F => Some('\u{2022}'),
        0xF0A0 => Some('\u{00B7}'),
        0xF0A1 => Some('\u{26AA}'),
        0xF0A2 => Some('\u{25CB}'),
        0xF0A3 => Some('\u{25CB}'),
        0xF0A4 => Some('\u{25C9}'),
        0xF0A5 => Some('\u{25CE}'),
        0xF0A7 => Some('\u{25AA}'),
        0xF0A8 => Some('\u{25FB}'),
        0xF0AA => Some('\u{2726}'),
        0xF0AB => Some('\u{2605}'),
        0xF0AC => Some('\u{2736}'),
        0xF0AD => Some('\u{2734}'),
        0xF0AE => Some('\u{2739}'),
        0xF0E8 => Some('\u{2794}'),
        0xF0EF => Some('\u{21E6}'),
        0xF0F0 => Some('\u{21E8}'),
        0xF0F1 => Some('\u{21E7}'),
        0xF0F2 => Some('\u{21E9}'),
        0xF0FB => Some('\u{2717}'),
        0xF0FC => Some('\u{2714}'),
        0xF0FD => Some('\u{2612}'),
        0xF0FE => Some('\u{2611}'),
        0xF003B => Some('\u{2193}'),
        0xF00DA => Some('\u{25B8}'),
        0xF080F => Some('\u{2501}'),
        0xF0811 => Some('\u{250C}'),
        0xF0817 => Some('\u{2514}'),
        0xF081A => Some('\u{2500}'),
        0xF0827 => Some('\u{2550}'),
        0xF0854 => Some('\u{300A}'),
        0xF0855 => Some('\u{300B}'),
        0xF02EF => Some('\u{00B7}'),
        _ => None,
    }
}

/// What a private-use character is shown as: its counterpart, or itself.
pub open spec fn pua_bullet_char(ch: char) -> char {
    match pua_counterpart(ch as u32) {
        Some(target) => target,
        None => ch,
    }
}

/// Maps a private-use character to the standard character that stands for it.
///
/// A character without an entry in the table comes back unchanged.
pub fn map_pua_bullet_char(ch: char) -> (mapped: char)
    ensures
        mapped == pua_bullet_char(ch),
{
    let code: u32 = ch as u32;
    if 0xF0000 <= code && code <= 0xF00CF {
        return match code {
            0xF003B => '\u{2193}',
            _ => ch,
        };
    }
    if 0xF02B0 <= code && code <= 0xF02FF {
        return match code {
            0xF02EF => '\u{00B7}',
            _ => ch,
        };
    }
    if 0xF00D0 <= code && code <= 0xF09FF {
        return match code {
            0xF00DA => '\u{25B8}',
            0xF080F => '\u{2501}',
            0xF0811 => '\u{250C}',
            0xF0817 => '\u{2514}',
            0xF081A => '\u{2500}',
            0xF0827 => '\u{2550}',
            0xF0854 => '\u{300A}',
            0xF0855 => '\u{300B}',
            _ => ch,
        };
    }
    if !(0xF020 <= code && code <= 0xF0FF) {
        return ch;
    }
    let w: u32 = code - 0xF000;
    match w {
        0x22 => '\u{2702}',
        0x36 => '\u{231B}',
        0x45 => '\u{261C}',
        0x46 => '\u{261E}',
        0x47 => '\u{261D}',
        0x48 => '\u{261F}',
        0x4A => '\u{263A}',
        0x4E => '\u{2620}',
        0x52 => '\u{263C}',
        0x54 => '\u{2744}',
        0x58 => '\u{2720}',
        0x59 => '\u{2721}',
        0x6C => '\u{25CF}',
        0x6D => '\u{25CF}',
        0x6E => '\u{25A0}',
        0x6F => '\u{25A1}',
        0x70 => '\u{25A1}',
        0x71 => '\u{25A1}',
        0x72 => '\u{25A1}',
        0x73 => '\u{2B27}',
        0x74 => '\u{29EB}',
        0x75 => '\u{25C6}',
        0x76 => '\u{2756}',
        0x77 => '\u{2B25}',
        0x9E => '\u{00B7}',
        0x9F => '\u{2022}',
        0xA0 => '\u{00B7}',
        0xA1 => '\u{26AA}',
        0xA2 => '\u{25CB}',
        0xA3 => '\u{25CB}',
        0xA4 => '\u{25C9}',
        0xA5 => '\u{25CE}',
        0xA7 => '\u{25AA}',
        0xA8 => '\u{25FB}',
        0xAA => '\u{2726}',
        0xAB => '\u{2605}',
        0xAC => '\u{2736}',
        0xAD => '\u{2734}',
        0xAE => '\u{2739}',
        0xE8 => '\u{2794}',
        0xEF => '\u{21E6}',
        0xF0 => '\u{21E8}',
        0xF1 => '\u{21E7}',
        0xF2 => '\u{21E9}',
        0xFB => '\u{2717}',
        0xFC => '\u{2714}',
        0xFD => '\u{2612}',
        0xFE => '\u{2611}',
        _ => ch,
    }
}

/// Mapping is idempotent: a mapped character is its own counterpart.
pub proof fn lemma_pua_mapping_idempotent(ch: char)
    ensures
        pua_bullet_char(pua_bullet_char(ch)) == pua_bullet_char(ch),
{
}

/// Only private-use characters are ever changed.
pub proof fn lemma_pua_mapping_keeps_standard_characters(ch: char)
    requires
        !(0xF020 <= ch as u32 <= 0xF0FF),
        !(0xF0000 <= ch as u32 <= 0xF09FF),
    ensures
        pua_bullet_char(ch) == ch,
{
}

/// A character that is changed becomes one outside the private-use ranges.
pub proof fn lemma_pua_mapping_leaves_private_use(ch: char)
    requires
        pua_bullet_char(ch) != ch,
    ensures
        !(0xE000 <= pua_bullet_char(ch) as u32 <= 0xF8FF),
        (pua_bullet_char(ch) as u32) < 0xF0000,
{
}

} // verus!
