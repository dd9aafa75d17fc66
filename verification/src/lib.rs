//! A driver for the SSD1306 monochrome display controller on a two-wire bus.
//!
//! The driver brings the controller from power-on into a known state and
//! paints 8x8 glyph cells into its memory. Every transaction it makes is a
//! control byte followed by a command byte or by a chunk of pixel data, and
//! every operation stops at the first transaction that the bus refuses.
//!
//! - [`font`] holds the glyph table.
//! - [`framing`] says how commands and pixel data are framed.
//! - [`plan`] says what each operation of the driver sends.
//! - [`transport`] names what the driver asks of a bus and how a record of
//!   transactions relates to what an operation was to send.
//! - [`ssd1306`] is the driver.
//! - [`error`] holds the error of drawing text.

pub mod error;
pub mod font;
pub mod framing;
pub mod plan;
pub mod ssd1306;
pub mod transport;
