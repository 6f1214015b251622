//! Simulation engine for a falling-glyph terminal animation: an RGB/HSL
//! color model, fading glyphs, columns that spawn glyph streams, and the
//! grid of columns that is advanced one tick at a time.
pub mod color;
mod random;
pub mod glyph;
pub mod column;
pub mod waterfall;
