//! Stroke-font text plotting: glyph layout, pen-lift synthesis,
//! bounding-box normalisation and stroke emission, each with a
//! contract checked by Verus.
use vstd::prelude::*;

pub mod device;
pub mod drawing;
pub mod font;
pub mod layout;
pub mod plot;
pub mod vector;

verus! {

/// The ways the pipeline can fail.
#[derive(Clone, Copy, Debug, PartialEq, Eq, Structural)]
pub enum PlotError {
    /// No font of the requested name.
    UnknownFont,
    /// No visible stroke: nothing to bound or render.
    EmptyDrawing,
    /// A character has no glyph in the font.
    GlyphIndexOutOfRange,
    /// The drawing's extent does not fit the coordinate type.
    ExtentOverflow,
}

} // verus!
