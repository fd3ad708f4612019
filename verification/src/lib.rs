//! Converts bitmap font glyphs into TrueType fonts with traced rectangle outlines.

pub mod builder;
pub mod descriptor;
pub mod error;
pub mod glyph;
pub mod rects;
pub mod text;

pub use builder::build_ttf;
pub use error::Error;
pub use glyph::{BitmapGlyph, FontConfig};
pub use rects::collect_pixel_rects;
