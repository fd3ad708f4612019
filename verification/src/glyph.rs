//! The input of font building: bitmap glyphs and the font configuration.

use vstd::prelude::*;
use vstd::string::*;

verus! {

/// One glyph as a grid of pixels, row-major, `0` for transparent and any other
/// value for filled.
#[derive(Debug, Clone, PartialEq, Eq)]
pub struct BitmapGlyph {
    pub codepoint: u32,
    pub width: u16,
    pub height: u16,
    pub offset_x: i16,
    pub offset_y: i16,
    pub advance_width: Option<u16>,
    pub pixels: Vec<u8>,
}

/// Font-wide settings.
#[derive(Debug, Clone, PartialEq, Eq)]
pub struct FontConfig {
    pub family_name: String,
    /// Line height in pixels.
    pub line_height: u16,
    /// Font units per pixel.
    pub scale: u32,
}

impl Default for FontConfig {
    fn default() -> (config: Self)
        ensures
            config.family_name@ == "BitmapFont"@,
            config.line_height == 16,
            config.scale == 64,
    {
        FontConfig { family_name: String::from_str("BitmapFont"), line_height: 16, scale: 64 }
    }
}

} // verus!
