//! Bitmap fonts as constant lookup tables.
//!
//! The crate has two halves. The [`codegen`] module turns parsed glyph
//! sources into the text of a constant three-level table
//! (weight, then size, then character, then packed glyph). The [`font`]
//! module reads such a table at run time: it lists weights and sizes, looks
//! glyphs up and unpacks their pixels.

pub use phf;

pub mod bitmap;
pub mod builders;
pub mod codegen;
pub mod compile;
pub mod font;
pub mod group;
pub mod literal;
pub mod metadata;
pub mod table;
pub mod types;

pub use crate::bitmap::BitMap;
pub use crate::font::Font;
pub use crate::table::ConstFontMap;
pub use crate::types::{FontSize, FontWeight};
