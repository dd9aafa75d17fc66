use ssd1306_display::font::{glyph_for, lookup, BLANK, CROSS, FONT_DATA, GLYPH_COUNT};

#[test]
fn table_holds_three_glyphs_of_eight_bytes() {
    assert_eq!(GLYPH_COUNT, 3);
    assert_eq!(FONT_DATA.len(), 3);
    for bitmap in FONT_DATA.iter() {
        assert_eq!(bitmap.len(), 8);
    }
}

#[test]
fn blank_is_all_zero() {
    assert_eq!(BLANK, 0);
    assert_eq!(lookup(0), Some([0, 0, 0, 0, 0, 0, 0, 0]));
}

#[test]
fn cross_is_the_plus_pattern() {
    assert_eq!(CROSS, 1);
    assert_eq!(lookup(1), Some([0x00, 0x08, 0x1C, 0x08, 0xFF, 0x08, 0x1C, 0x08]));
}

#[test]
fn third_glyph_is_the_x_pattern() {
    assert_eq!(lookup(2), Some([0x81, 0x42, 0x24, 0x18, 0x18, 0x24, 0x42, 0x81]));
}

#[test]
fn lookup_agrees_with_the_table() {
    for index in 0..3 {
        assert_eq!(lookup(index), Some(FONT_DATA[index]));
    }
}

#[test]
fn lookup_past_the_table_finds_nothing() {
    assert_eq!(lookup(3), None);
    assert_eq!(lookup(65), None);
    assert_eq!(lookup(usize::MAX), None);
}

#[test]
fn character_stands_for_the_glyph_at_its_code_point() {
    assert_eq!(glyph_for('\u{0}'), Some(FONT_DATA[0]));
    assert_eq!(glyph_for('\u{1}'), Some(FONT_DATA[1]));
    assert_eq!(glyph_for('\u{2}'), Some(FONT_DATA[2]));
}

#[test]
fn other_characters_have_no_glyph() {
    assert_eq!(glyph_for('\u{3}'), None);
    assert_eq!(glyph_for('A'), None);
    assert_eq!(glyph_for(' '), None);
    assert_eq!(glyph_for('\u{10FFFF}'), None);
}
