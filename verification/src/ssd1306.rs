//! The display driver: brings the controller up, sets its addressing window
//! and paints glyph cells into its memory.

use crate::error::DisplayError;
use crate::font::{glyph_for, supported, BLANK, CROSS, FONT_DATA};
use crate::framing::{
    command_frame, command_frames, data_frame, data_frames, lemma_single_frame, CHUNK_SIZE,
    COMMAND_PREFIX, DATA_PREFIX, FRAME_CAPACITY,
};
use crate::plan::{
    bring_up_commands, cell_frames, checkerboard_plan, clear_plan, cursor_commands, cursor_plan,
    first_unsupported, glyph_frames, lemma_first_unsupported, lemma_first_unsupported_bounds,
    setup_plan, text_plan,
};
use crate::transport::{
    extends_by, lemma_ok_unit, lemma_run_nothing, lemma_run_one, lemma_run_step,
    lemma_run_stopped, lemma_run_then, Transfer, Transport,
};
use vstd::prelude::*;
use vstd::slice::slice_subrange;

verus! {

/// Bus address of the controller on this family of panels.
pub const SSD1306_ADDR: u8 = 0x3C;

/// Width of the panel in pixels.
pub const WIDTH: u8 = 128;

/// Height of the panel in pixels.
pub const HEIGHT: u8 = 64;

/// The number of 8x8 glyph cells on the panel: sixteen columns of eight rows.
pub const CELL_COUNT: usize = 128;

/// The cells are the 8x8 squares that the panel divides into.
pub proof fn lemma_cell_count()
    ensures
        CELL_COUNT == (WIDTH / 8) * (HEIGHT / 8),
{
}

/// A controller on a bus, with the record of what the driver has sent it.
///
/// The driver owns its bus. The record is kept for proofs alone and costs
/// nothing at run time: `transmit` is the one place where the bus is
/// called, and the one place where the record grows.
///
/// The controller answers the drawing operations as described only once
/// `setup` has succeeded on it; the driver does not guard against an
/// earlier call, and sends the same frames either way.
pub struct Ssd1306<I2C: Transport> {
    address: u8,
    i2c: I2C,
    sent: Ghost<Seq<Transfer<I2C::Error>>>,
}

impl<I2C: Transport> Ssd1306<I2C> {
    /// The bus address that every transaction of this driver goes to.
    pub closed spec fn address(&self) -> u8 {
        self.address
    }

    /// Every transaction this driver has handed to its bus, oldest first.
    pub closed spec fn transfers(&self) -> Seq<Transfer<I2C::Error>> {
        self.sent@
    }

    /// Between `self` and `after` the driver made a fail-fast run through
    /// `plan` that returned `r`, and did nothing else.
    pub open spec fn ran(self, after: Self, plan: Seq<Seq<u8>>, r: Result<(), I2C::Error>) -> bool {
        &&& after.address() == self.address()
        &&& extends_by(self.transfers(), after.transfers(), self.address(), plan, r)
    }

    /// Between `self` and `after` the driver drew `text` and returned `r`:
    /// it made a fail-fast run through the glyphs of the characters before
    /// the first that has none. An error of the bus is returned as it came;
    /// where the bus took every frame, the first character without a glyph
    /// is reported, and the call succeeds where there is none.
    pub open spec fn wrote_text(
        self,
        after: Self,
        text: Seq<char>,
        r: Result<(), DisplayError<I2C::Error>>,
    ) -> bool {
        let stop = first_unsupported(text);
        match r {
            Ok(_) => self.ran(after, text_plan(text), Ok(())) && stop == text.len(),
            Err(DisplayError::Transport(e)) => self.ran(after, text_plan(text), Err(e)),
            Err(DisplayError::UnsupportedGlyph(c)) => {
                &&& self.ran(after, text_plan(text), Ok(()))
                &&& stop < text.len()
                &&& c == text[stop]
            },
        }
    }

    /// A driver for the controller at `address` on the bus `i2c`. Nothing is
    /// sent yet.
    pub fn new(i2c: I2C, address: u8) -> (driver: Self)
        ensures
            driver.address() == address,
            driver.transfers() == Seq::<Transfer<I2C::Error>>::empty(),
    {
        Self { i2c, address, sent: Ghost(Seq::empty()) }
    }

    /// Hands one frame to the bus and records it.
    fn transmit(&mut self, frame: &[u8]) -> (r: Result<(), I2C::Error>)
        ensures
            final(self).address() == old(self).address(),
            final(self).transfers() == old(self).transfers().push(
                Transfer { address: old(self).address(), bytes: frame@, outcome: r },
            ),
    {
        let r = self.i2c.write(self.address, frame);
        proof {
            self.sent@ = self.sent@.push(Transfer { address: self.address, bytes: frame@, outcome: r });
        }
        r
    }

    /// Sends one command byte: a single transaction of the command prefix
    /// and `command`. Returns what the bus answered.
    pub fn write_command(&mut self, command: u8) -> (r: Result<(), I2C::Error>)
        ensures
            final(self).address() == old(self).address(),
            final(self).transfers() == old(self).transfers().push(
                Transfer { address: old(self).address(), bytes: command_frame(command), outcome: r },
            ),
            (*old(self)).ran(*final(self), seq![command_frame(command)], r),
    {
        let frame: [u8; 2] = [COMMAND_PREFIX, command];
        assert(frame@ =~= command_frame(command));
        let ghost before = self.transfers();
        let r = self.transmit(frame.as_slice());
        proof {
            lemma_run_one(before, self.address(), command_frame(command), r);
        }
        r
    }

    /// Sends pixel data: the payload cut into chunks of at most sixteen
    /// bytes, each chunk in a transaction of its own behind the data prefix.
    /// Stops at the first chunk that the bus refuses and returns its error;
    /// the chunks before it have been sent.
    pub fn write_data(&mut self, data: &[u8]) -> (r: Result<(), I2C::Error>)
        ensures
            (*old(self)).ran(*final(self), data_frames(data@), r),
    {
        let mut frame: [u8; FRAME_CAPACITY] = [0; FRAME_CAPACITY];
        let mut start: usize = 0;
        let ghost plan = data_frames(data@);
        let ghost mut k: int = 0;
        proof {
            lemma_run_nothing(self.transfers(), self.address());
            assert(plan.take(0) =~= Seq::<Seq<u8>>::empty());
        }
        while start < data.len()
            invariant
                plan == data_frames(data@),
                0 <= k <= plan.len(),
                start <= data.len(),
                start == data.len() || start == 16 * k,
                start == data.len() ==> k == plan.len(),
                self.address() == old(self).address(),
                extends_by(
                    old(self).transfers(),
                    self.transfers(),
                    self.address(),
                    plan.take(k),
                    Ok(()),
                ),
            decreases data.len() - start,
        {
            let rest: usize = data.len() - start;
            let n: usize = if rest < CHUNK_SIZE {
                rest
            } else {
                CHUNK_SIZE
            };
            frame[0] = DATA_PREFIX;
            let mut i: usize = 0;
            while i < n
                invariant
                    i <= n <= 16,
                    start + n <= data.len(),
                    frame@[0] == 0x40u8,
                    forall|j: int| 1 <= j <= i ==> #[trigger] frame@[j] == data@[start + j - 1],
                decreases n - i,
            {
                frame[i + 1] = data[start + i];
                i = i + 1;
            }
            let ghost before = self.transfers();
            let r = self.transmit(slice_subrange(frame.as_slice(), 0, n + 1));
            proof {
                assert(frame@.subrange(0, n + 1) =~= plan[k]);
                lemma_run_one(before, self.address(), plan[k], r);
                lemma_run_step(
                    old(self).transfers(),
                    before,
                    self.transfers(),
                    self.address(),
                    plan,
                    k,
                    r,
                );
            }
            if r.is_err() {
                return r;
            }
            proof {
                lemma_ok_unit(r);
            }
            start = start + n;
            proof {
                k = k + 1;
            }
        }
        proof {
            assert(plan.take(k) =~= plan);
        }
        Ok(())
    }

    /// Sends command bytes in order, one transaction each. Stops at the
    /// first that the bus refuses and returns its error.
    fn write_commands(&mut self, commands: &[u8]) -> (r: Result<(), I2C::Error>)
        ensures
            (*old(self)).ran(*final(self), command_frames(commands@), r),
    {
        let ghost plan = command_frames(commands@);
        proof {
            lemma_run_nothing(self.transfers(), self.address());
            assert(plan.take(0) =~= Seq::<Seq<u8>>::empty());
        }
        let mut i: usize = 0;
        while i < commands.len()
            invariant
                i <= commands.len(),
                plan == command_frames(commands@),
                self.address() == old(self).address(),
                extends_by(
                    old(self).transfers(),
                    self.transfers(),
                    self.address(),
                    plan.take(i as int),
                    Ok(()),
                ),
            decreases commands.len() - i,
        {
            let ghost before = self.transfers();
            let r = self.write_command(commands[i]);
            proof {
                lemma_run_step(
                    old(self).transfers(),
                    before,
                    self.transfers(),
                    self.address(),
                    plan,
                    i as int,
                    r,
                );
            }
            if r.is_err() {
                return r;
            }
            proof {
                lemma_ok_unit(r);
            }
            i = i + 1;
        }
        proof {
            assert(plan.take(i as int) =~= plan);
        }
        Ok(())
    }

    /// Sets the addressing window to the whole panel, which puts the cursor
    /// on the top left cell: six commands, each in a transaction of its own.
    pub fn zero_cursor(&mut self) -> (r: Result<(), I2C::Error>)
        ensures
            (*old(self)).ran(*final(self), cursor_plan(), r),
    {
        let commands: [u8; 6] = [0x21, 0x00, 0x7F, 0x22, 0x00, 0x07];
        assert(commands@ =~= cursor_commands());
        self.write_commands(commands.as_slice())
    }

    /// Resets the cursor, then writes the glyph at `even` into the cells
    /// with an even number and the glyph at `odd` into the others.
    fn fill_cells(&mut self, even: usize, odd: usize) -> (r: Result<(), I2C::Error>)
        requires
            even < 3,
            odd < 3,
        ensures
            (*old(self)).ran(
                *final(self),
                cursor_plan() + cell_frames(even as int, odd as int),
                r,
            ),
    {
        let ghost cells = cell_frames(even as int, odd as int);
        let r = self.zero_cursor();
        if r.is_err() {
            proof {
                lemma_run_stopped(
                    old(self).transfers(),
                    self.transfers(),
                    self.address(),
                    cursor_plan(),
                    cursor_plan() + cells,
                    r,
                );
            }
            return r;
        }
        let ghost origin = self.transfers();
        proof {
            lemma_ok_unit(r);
            lemma_run_nothing(origin, self.address());
            assert(cells.take(0) =~= Seq::<Seq<u8>>::empty());
        }
        let mut i: usize = 0;
        while i < CELL_COUNT
            invariant
                i <= 128,
                even < 3,
                odd < 3,
                cells == cell_frames(even as int, odd as int),
                self.address() == old(self).address(),
                extends_by(
                    old(self).transfers(),
                    origin,
                    self.address(),
                    cursor_plan(),
                    Ok(()),
                ),
                extends_by(origin, self.transfers(), self.address(), cells.take(i as int), Ok(())),
            decreases 128 - i,
        {
            let bitmap = if i % 2 == 0 {
                FONT_DATA[even]
            } else {
                FONT_DATA[odd]
            };
            let ghost before = self.transfers();
            let r = self.write_data(bitmap.as_slice());
            proof {
                assert(data_frame(bitmap@) =~= cells[i as int]);
                lemma_single_frame(bitmap@);
                lemma_run_step(
                    origin,
                    before,
                    self.transfers(),
                    self.address(),
                    cells,
                    i as int,
                    r,
                );
            }
            if r.is_err() {
                proof {
                    lemma_run_then(
                        old(self).transfers(),
                        origin,
                        self.transfers(),
                        self.address(),
                        cursor_plan(),
                        cells,
                        r,
                    );
                }
                return r;
            }
            proof {
                lemma_ok_unit(r);
            }
            i = i + 1;
        }
        proof {
            assert(cells.take(i as int) =~= cells);
            lemma_run_then(
                old(self).transfers(),
                origin,
                self.transfers(),
                self.address(),
                cursor_plan(),
                cells,
                Ok(()),
            );
        }
        Ok(())
    }

    /// Clears the screen: resets the cursor, then writes the blank glyph
    /// into each of the 128 cells. Stops at the first transaction that the
    /// bus refuses and returns its error; the screen is then cleared in part.
    pub fn clear_screen(&mut self) -> (r: Result<(), I2C::Error>)
        ensures
            (*old(self)).ran(*final(self), clear_plan(), r),
    {
        self.fill_cells(BLANK, BLANK)
    }

    /// Draws `text` from the cursor on, one glyph cell per character, with
    /// no cursor reset of its own. A character stands for the glyph at the
    /// position of its code point. Stops at the first character that has no
    /// glyph, or at the first transaction that the bus refuses; what was
    /// sent before stays on the screen.
    pub fn write_text(&mut self, text: &str) -> (r: Result<(), DisplayError<I2C::Error>>)
        ensures
            (*old(self)).wrote_text(*final(self), text@, r),
    {
        let ghost frames = glyph_frames(text@);
        proof {
            lemma_run_nothing(self.transfers(), self.address());
            assert(frames.take(0) =~= Seq::<Seq<u8>>::empty());
        }
        for c in it: text.chars()
            invariant
                it.seq() == text@,
                frames == glyph_frames(text@),
                forall|j: int| 0 <= j < it.index() ==> supported(#[trigger] text@[j]),
                self.address() == old(self).address(),
                extends_by(
                    old(self).transfers(),
                    self.transfers(),
                    self.address(),
                    frames.take(it.index() as int),
                    Ok(()),
                ),
        {
            let ghost at = it.index() as int;
            let bitmap = match glyph_for(c) {
                Some(bitmap) => bitmap,
                None => {
                    proof {
                        lemma_first_unsupported(text@, at);
                        assert(frames.take(at) =~= text_plan(text@));
                    }
                    return Err(DisplayError::UnsupportedGlyph(c));
                },
            };
            let ghost before = self.transfers();
            let r = self.write_data(bitmap.as_slice());
            proof {
                lemma_single_frame(bitmap@);
                lemma_run_step(
                    old(self).transfers(),
                    before,
                    self.transfers(),
                    self.address(),
                    frames,
                    at,
                    r,
                );
            }
            match r {
                Err(e) => {
                    proof {
                        lemma_first_unsupported_bounds(text@, at + 1);
                        lemma_run_stopped(
                            old(self).transfers(),
                            self.transfers(),
                            self.address(),
                            frames.take(at + 1),
                            text_plan(text@),
                            r,
                        );
                    }
                    return Err(DisplayError::Transport(e));
                },
                Ok(_) => {
                    proof {
                        lemma_ok_unit(r);
                    }
                },
            }
        }
        proof {
            lemma_first_unsupported(text@, text@.len() as int);
            assert(frames.take(text@.len() as int) =~= text_plan(text@));
        }
        Ok(())
    }

    /// Draws the test pattern: resets the cursor, then writes blank and
    /// cross in turn into the 128 cells, blank into the first. Stops at the
    /// first transaction that the bus refuses and returns its error.
    pub fn draw_checkerboard(&mut self) -> (r: Result<(), I2C::Error>)
        ensures
            (*old(self)).ran(*final(self), checkerboard_plan(), r),
    {
        self.fill_cells(BLANK, CROSS)
    }

    /// Brings the controller up and clears the screen. The commands go out
    /// in the order of `bring_up_commands`, display-on last, and the cleared
    /// screen follows them. Stops at the first transaction that the bus
    /// refuses and returns its error; nothing is undone.
    pub fn setup(&mut self) -> (r: Result<(), I2C::Error>)
        ensures
            (*old(self)).ran(*final(self), setup_plan(), r),
    {
        let ghost bring_up = command_frames(bring_up_commands());
        let ghost head = command_frames(seq![0xAEu8, 0xD5u8, 0x80u8, 0xA8u8, 0x3Fu8, 0xD3u8, 0x00u8]);
        let ghost start = self.transfers();
        let ghost address = self.address();

        let timing: [u8; 7] = [0xAE, 0xD5, 0x80, 0xA8, 0x3F, 0xD3, 0x00];
        assert(command_frames(timing@) =~= head);
        let r = self.write_commands(timing.as_slice());
        if r.is_err() {
            proof {
                lemma_run_stopped(start, self.transfers(), address, head, setup_plan(), r);
            }
            return r;
        }
        let ghost timed = self.transfers();
        proof {
            lemma_ok_unit(r);
        }

        let r = self.zero_cursor();
        proof {
            lemma_run_then(start, timed, self.transfers(), address, head, cursor_plan(), r);
        }
        if r.is_err() {
            proof {
                lemma_run_stopped(
                    start,
                    self.transfers(),
                    address,
                    head + cursor_plan(),
                    setup_plan(),
                    r,
                );
            }
            return r;
        }
        let ghost windowed = self.transfers();
        proof {
            lemma_ok_unit(r);
        }

        let panel: [u8; 17] = [
            0x8D,
            0x14,
            0x20,
            0x00,
            0xA1,
            0xC8,
            0xDA,
            0x12,
            0x81,
            0xCF,
            0xD9,
            0xF1,
            0xDB,
            0x40,
            0xA4,
            0xA6,
            0xAF,
        ];
        let r = self.write_commands(panel.as_slice());
        proof {
            lemma_run_then(
                start,
                windowed,
                self.transfers(),
                address,
                head + cursor_plan(),
                command_frames(panel@),
                r,
            );
            assert(head + cursor_plan() + command_frames(panel@) =~= bring_up);
        }
        if r.is_err() {
            proof {
                lemma_run_stopped(start, self.transfers(), address, bring_up, setup_plan(), r);
            }
            return r;
        }
        let ghost lit = self.transfers();
        proof {
            lemma_ok_unit(r);
        }

        let r = self.clear_screen();
        proof {
            lemma_run_then(start, lit, self.transfers(), address, bring_up, clear_plan(), r);
        }
        r
    }
}

} // verus!
