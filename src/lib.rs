//! Decoding of Adobe Color Swatch palettes (versions 1 and 2) and their
//! rendering as stylesheet text.
pub mod colors;
pub mod decode;
pub mod laws;
pub mod render;
pub mod stylesheet;

pub use colors::{AcoError, ColorSpace, HexColor, RawColorV1, RawColorV2};
