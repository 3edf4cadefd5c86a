use paragraph_layout::pua::map_pua_bullet_char;

#[test]
fn supplementary_pua_a_passthrough_for_boxed_digits() {
    for cp in 0xF02B1..=0xF02C4 {
        let ch = char::from_u32(cp).unwrap();
        assert_eq!(map_pua_bullet_char(ch), ch, "U+{:05X} should passthrough", cp);
    }
}

#[test]
fn supplementary_pua_a_maps_middle_dot() {
    assert_eq!(map_pua_bullet_char('\u{F02EF}'), '\u{00B7}');
}

#[test]
fn basic_pua_arrow_e8() {
    assert_eq!(map_pua_bullet_char('\u{F0E8}'), '\u{2794}');
}

#[test]
fn supplementary_pua_a_unmapped_returns_original() {
    assert_eq!(map_pua_bullet_char('\u{F0500}'), '\u{F0500}');
}

#[test]
fn basic_pua_outside_range_returns_original() {
    assert_eq!(map_pua_bullet_char('\u{F53A}'), '\u{F53A}');
}

#[test]
fn supplementary_pua_a_low_range_maps_down_arrow() {
    assert_eq!(map_pua_bullet_char('\u{F003B}'), '\u{2193}');
}

#[test]
fn supplementary_pua_a_low_range_unmapped_returns_original() {
    assert_eq!(map_pua_bullet_char('\u{F0090}'), '\u{F0090}');
    assert_eq!(map_pua_bullet_char('\u{F0000}'), '\u{F0000}');
    assert_eq!(map_pua_bullet_char('\u{F00CF}'), '\u{F00CF}');
}

#[test]
fn mapping_twice_changes_nothing_more() {
    for cp in 0..=0x10FFFFu32 {
        if let Some(ch) = char::from_u32(cp) {
            let once = map_pua_bullet_char(ch);
            assert_eq!(map_pua_bullet_char(once), once, "U+{:05X}", cp);
        }
    }
}

#[test]
fn ordinary_characters_are_not_mapped() {
    for ch in ['a', ' ', '가', '漢', '①', '\u{2193}', '\u{E000}', '\u{FFFD}'] {
        assert_eq!(map_pua_bullet_char(ch), ch);
    }
}
