//! Layout geometry for a terminal quote-and-image renderer.
//!
//! The library computes, from a terminal's cell dimensions, an image's pixel
//! aspect ratio and a set of size and margin constraints, where the image and
//! a word-wrapped quote are placed so that neither overflows the terminal.
//! All arithmetic is exact: fractional cell coordinates are kept as integer
//! fractions and truncated toward zero only where a cell coordinate is
//! produced.

pub mod anchor;
pub mod layout;
pub mod quotes;
pub mod settings;
pub mod wrap;

pub use quotes::{Color, Quote, Quotes};
pub use settings::NerdcliConfig;
