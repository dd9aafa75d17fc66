//! The glyph table: a fixed set of 8x8 bitmaps, one byte per column, found
//! by position.

use vstd::prelude::*;

verus! {

/// The number of glyphs in the table.
pub const GLYPH_COUNT: usize = 3;

/// Position of the blank glyph.
pub const BLANK: usize = 0;

/// Position of the plus-shaped cross.
pub const CROSS: usize = 1;

/// The bitmaps, by position: blank, a plus-shaped cross, an X.
pub const FONT_DATA: [[u8; 8]; 3] = [
    [0b00000000, 0b00000000, 0b00000000, 0b00000000, 0b00000000, 0b00000000, 0b00000000, 0b00000000],
    [0b00000000, 0b00001000, 0b00011100, 0b00001000, 0b11111111, 0b00001000, 0b00011100, 0b00001000],
    [0b10000001, 0b01000010, 0b00100100, 0b00011000, 0b00011000, 0b00100100, 0b01000010, 0b10000001],
];

/// Whether the table holds a glyph at `index`.
pub open spec fn has_glyph(index: int) -> bool {
    0 <= index < 3
}

/// The bitmap at `index`, column by column.
pub open spec fn glyph_bitmap(index: int) -> Seq<u8>
    recommends
        has_glyph(index),
{
    if index == 1 {
        seq![0x00u8, 0x08u8, 0x1Cu8, 0x08u8, 0xFFu8, 0x08u8, 0x1Cu8, 0x08u8]
    } else if index == 2 {
        seq![0x81u8, 0x42u8, 0x24u8, 0x18u8, 0x18u8, 0x24u8, 0x42u8, 0x81u8]
    } else {
        seq![0x00u8, 0x00u8, 0x00u8, 0x00u8, 0x00u8, 0x00u8, 0x00u8, 0x00u8]
    }
}

/// Whether the table holds a glyph for `c`: a character stands for the
/// glyph at the position of its code point.
pub open spec fn supported(c: char) -> bool {
    has_glyph(c as int)
}

/// Every bitmap of the table is eight bytes.
pub proof fn lemma_glyph_len(index: int)
    ensures
        glyph_bitmap(index).len() == 8,
{
}

/// The bitmap at `index`, or `None` where the table ends before it.
pub fn lookup(index: usize) -> (r: Option<[u8; 8]>)
    ensures
        r is Some <==> has_glyph(index as int),
        r is Some ==> r->0@ == glyph_bitmap(index as int),
{
    if index < GLYPH_COUNT {
        let bitmap = FONT_DATA[index];
        assert(bitmap@ =~= glyph_bitmap(index as int));
        Some(bitmap)
    } else {
        None
    }
}

/// The bitmap that stands for `c`, or `None` for a character without one.
pub fn glyph_for(c: char) -> (r: Option<[u8; 8]>)
    ensures
        r is Some <==> supported(c),
        r is Some ==> r->0@ == glyph_bitmap(c as int),
{
    let code: u32 = c as u32;
    if code < 3 {
        lookup(code as usize)
    } else {
        None
    }
}

} // verus!
