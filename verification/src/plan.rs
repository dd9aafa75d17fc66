//! What each operation of the driver hands to the bus, frame by frame.

use crate::font::{glyph_bitmap, supported};
use crate::framing::{command_frame, command_frames, data_frame};
use crate::transport::{extends_by, frames_of, lemma_run_completed, Transfer};
use vstd::prelude::*;

verus! {

/// The commands that set the addressing window to the whole panel and the
/// cursor to its top left cell: columns 0 to 127, pages 0 to 7.
pub open spec fn cursor_commands() -> Seq<u8> {
    seq![0x21u8, 0x00u8, 0x7Fu8, 0x22u8, 0x00u8, 0x07u8]
}

/// The commands that bring the controller up, in the order it needs them:
/// display off, clock ratio, multiplex ratio, display offset, the cursor
/// window, charge pump, horizontal addressing, segment remap, scan
/// direction, pin mapping, contrast, pre-charge period, deselect level,
/// display from memory, normal display, display on.
pub open spec fn bring_up_commands() -> Seq<u8> {
    seq![0xAEu8, 0xD5u8, 0x80u8, 0xA8u8, 0x3Fu8, 0xD3u8, 0x00u8] + cursor_commands() + seq![
        0x8Du8, 0x14u8, 0x20u8, 0x00u8, 0xA1u8, 0xC8u8, 0xDAu8, 0x12u8, 0x81u8, 0xCFu8,
        0xD9u8, 0xF1u8, 0xDBu8, 0x40u8, 0xA4u8, 0xA6u8, 0xAFu8,
    ]
}

/// One data frame per cell of the panel, 128 in all: the glyph at `even`
/// for the cells with an even number, the first among them, and the glyph
/// at `odd` for the others.
pub open spec fn cell_frames(even: int, odd: int) -> Seq<Seq<u8>> {
    Seq::new(
        128,
        |i: int|
            data_frame(
                glyph_bitmap(
                    if i % 2 == 0 {
                        even
                    } else {
                        odd
                    },
                ),
            ),
    )
}

/// What resetting the cursor sends.
pub open spec fn cursor_plan() -> Seq<Seq<u8>> {
    command_frames(cursor_commands())
}

/// What clearing the screen sends: the cursor reset, then the blank glyph
/// into every cell.
pub open spec fn clear_plan() -> Seq<Seq<u8>> {
    cursor_plan() + cell_frames(0, 0)
}

/// What drawing the test pattern sends: the cursor reset, then blank and
/// cross in turn, blank first.
pub open spec fn checkerboard_plan() -> Seq<Seq<u8>> {
    cursor_plan() + cell_frames(0, 1)
}

/// What bringing the controller up sends: its commands, then a cleared screen.
pub open spec fn setup_plan() -> Seq<Seq<u8>> {
    command_frames(bring_up_commands()) + clear_plan()
}

/// The position of the first character of `text` that has no glyph, or the
/// length of `text` where every character has one.
pub open spec fn first_unsupported(text: Seq<char>) -> int
    decreases text.len(),
{
    if text.len() == 0 || !supported(text[0]) {
        0
    } else {
        1 + first_unsupported(text.drop_first())
    }
}

/// One data frame per character of `text`, each carrying the character's glyph.
pub open spec fn glyph_frames(text: Seq<char>) -> Seq<Seq<u8>> {
    Seq::new(text.len(), |i: int| data_frame(glyph_bitmap(text[i] as int)))
}

/// What drawing `text` sends: the glyphs of its characters in order, up to
/// the first character that has none.
pub open spec fn text_plan(text: Seq<char>) -> Seq<Seq<u8>> {
    glyph_frames(text.take(first_unsupported(text)))
}

/// The first character without a glyph comes after every run of characters
/// that have one, and not after the end of the text.
pub proof fn lemma_first_unsupported_bounds(text: Seq<char>, k: int)
    requires
        0 <= k <= text.len(),
        forall|i: int| 0 <= i < k ==> supported(#[trigger] text[i]),
    ensures
        k <= first_unsupported(text) <= text.len(),
    decreases text.len(),
{
    if text.len() > 0 && supported(text[0]) {
        let rest = text.drop_first();
        if k > 0 {
            assert forall|i: int| 0 <= i < k - 1 implies supported(#[trigger] rest[i]) by {
                assert(rest[i] == text[i + 1]);
            }
            lemma_first_unsupported_bounds(rest, k - 1);
        } else {
            lemma_first_unsupported_bounds(rest, 0);
        }
    }
}

/// `k` is the position of the first character without a glyph exactly when
/// every character before it has one and the one at `k`, if any, has none.
pub proof fn lemma_first_unsupported(text: Seq<char>, k: int)
    requires
        0 <= k <= text.len(),
        forall|i: int| 0 <= i < k ==> supported(#[trigger] text[i]),
        k < text.len() ==> !supported(text[k]),
    ensures
        first_unsupported(text) == k,
    decreases k,
{
    if k > 0 {
        let rest = text.drop_first();
        assert forall|i: int| 0 <= i < k - 1 implies supported(#[trigger] rest[i]) by {
            assert(rest[i] == text[i + 1]);
        }
        lemma_first_unsupported(rest, k - 1);
    }
}

/// Resetting the cursor sends six commands, each framed by itself: column
/// range, first column 0, last column 127, page range, first page 0, last
/// page 7.
pub proof fn lemma_cursor_plan()
    ensures
        cursor_plan() == seq![
            seq![0x00u8, 0x21u8],
            seq![0x00u8, 0x00u8],
            seq![0x00u8, 0x7Fu8],
            seq![0x00u8, 0x22u8],
            seq![0x00u8, 0x00u8],
            seq![0x00u8, 0x07u8],
        ],
{
    assert(cursor_plan() =~= seq![
        seq![0x00u8, 0x21u8],
        seq![0x00u8, 0x00u8],
        seq![0x00u8, 0x7Fu8],
        seq![0x00u8, 0x22u8],
        seq![0x00u8, 0x00u8],
        seq![0x00u8, 0x07u8],
    ]);
}

/// Clearing the screen sends the six frames of the cursor reset and then
/// 128 data frames, each the data prefix and the eight zero bytes of the
/// blank glyph.
pub proof fn lemma_clear_plan()
    ensures
        clear_plan().len() == 134,
        clear_plan().take(6) == cursor_plan(),
        forall|i: int|
            6 <= i < 134 ==> #[trigger] clear_plan()[i] == seq![
                0x40u8, 0x00u8, 0x00u8, 0x00u8, 0x00u8, 0x00u8, 0x00u8, 0x00u8, 0x00u8,
            ],
{
    let blank = seq![0x40u8, 0x00u8, 0x00u8, 0x00u8, 0x00u8, 0x00u8, 0x00u8, 0x00u8, 0x00u8];
    assert(clear_plan().take(6) =~= cursor_plan());
    assert forall|i: int| 6 <= i < 134 implies #[trigger] clear_plan()[i] == blank by {
        assert(clear_plan()[i] =~= blank);
    }
}

/// The test pattern sends the six frames of the cursor reset and then 128
/// data frames: the blank glyph into the cells with an even number, the
/// first among them, and the cross into the others.
pub proof fn lemma_checkerboard_plan()
    ensures
        checkerboard_plan().len() == 134,
        checkerboard_plan().take(6) == cursor_plan(),
        forall|i: int|
            0 <= i < 128 ==> #[trigger] checkerboard_plan()[6 + i] == data_frame(
                if i % 2 == 0 {
                    glyph_bitmap(0)
                } else {
                    glyph_bitmap(1)
                },
            ),
{
    assert(checkerboard_plan().take(6) =~= cursor_plan());
}

/// Bringing the controller up sends thirty commands in their fixed order,
/// each framed by itself and display-on the last of them, and then what
/// clearing the screen sends.
pub proof fn lemma_setup_plan()
    ensures
        bring_up_commands() == seq![
            0xAEu8, 0xD5u8, 0x80u8, 0xA8u8, 0x3Fu8, 0xD3u8, 0x00u8, 0x21u8, 0x00u8, 0x7Fu8,
            0x22u8, 0x00u8, 0x07u8, 0x8Du8, 0x14u8, 0x20u8, 0x00u8, 0xA1u8, 0xC8u8, 0xDAu8,
            0x12u8, 0x81u8, 0xCFu8, 0xD9u8, 0xF1u8, 0xDBu8, 0x40u8, 0xA4u8, 0xA6u8, 0xAFu8,
        ],
        bring_up_commands().last() == 0xAFu8,
        setup_plan().len() == 164,
        forall|i: int|
            0 <= i < 30 ==> #[trigger] setup_plan()[i] == command_frame(bring_up_commands()[i]),
        setup_plan().skip(30) == clear_plan(),
{
    assert(bring_up_commands() =~= seq![
        0xAEu8, 0xD5u8, 0x80u8, 0xA8u8, 0x3Fu8, 0xD3u8, 0x00u8, 0x21u8, 0x00u8, 0x7Fu8,
        0x22u8, 0x00u8, 0x07u8, 0x8Du8, 0x14u8, 0x20u8, 0x00u8, 0xA1u8, 0xC8u8, 0xDAu8,
        0x12u8, 0x81u8, 0xCFu8, 0xD9u8, 0xF1u8, 0xDBu8, 0x40u8, 0xA4u8, 0xA6u8, 0xAFu8,
    ]);
    assert(setup_plan().skip(30) =~= clear_plan());
}

/// Clearing the screen twice sends the same frames twice: where both calls
/// succeed, each adds the 134 transfers of one cleared screen to the
/// record, and the second run is frame for frame the first.
pub proof fn lemma_clear_twice<E>(
    start: Seq<Transfer<E>>,
    once: Seq<Transfer<E>>,
    twice: Seq<Transfer<E>>,
    address: u8,
)
    requires
        extends_by(start, once, address, clear_plan(), Ok(())),
        extends_by(once, twice, address, clear_plan(), Ok(())),
    ensures
        once.len() == start.len() + 134,
        twice.len() == once.len() + 134,
        frames_of(once.skip(start.len() as int)) == clear_plan(),
        frames_of(twice.skip(once.len() as int)) == frames_of(once.skip(start.len() as int)),
{
    lemma_run_completed(start, once, address, clear_plan());
    lemma_run_completed(once, twice, address, clear_plan());
}

} // verus!
