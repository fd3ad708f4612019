//! Errors of font building.

use vstd::prelude::*;

verus! {

/// Why a font could not be built.
#[derive(Debug)]
pub enum Error {
    /// A value does not fit the field of the font format it is meant for, or a
    /// font-writing step failed; the text says which.
    Conversion(String),
    /// No glyph has a codepoint that the character map can hold.
    NoGlyphs,
}

} // verus!
