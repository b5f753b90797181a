//! Colourises biological sequence text by mapping each character to a
//! terminal colour: scheme merging, colour degradation, span selection,
//! streaming and buffered rendering, consensus and transposition.
pub mod ansi_colors;
pub mod buffered;
pub mod charmap;
pub mod colorschemes;
pub mod consensus;
pub mod error;
pub mod inout;
pub mod render;
pub mod select;
pub mod styles;
pub mod text;
