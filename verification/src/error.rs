//! What can go wrong while text is drawn.

use vstd::prelude::*;

verus! {

/// Why drawing text stopped.
#[derive(Debug, PartialEq, Eq)]
pub enum DisplayError<E> {
    /// The bus refused a transaction; this is its own error.
    Transport(E),
    /// The glyph table holds nothing for this character.
    UnsupportedGlyph(char),
}

} // verus!
