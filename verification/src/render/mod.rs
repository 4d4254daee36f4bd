//! What is drawn, and where.

pub mod colormap;
pub mod glyph;
pub mod hud;
pub mod labels;
pub mod line;
pub mod overlay;
pub mod raster;
pub mod timeline;

use vstd::prelude::*;

verus! {

/// A colour: red, green and blue.
pub type Rgb = (u8, u8, u8);

} // verus!
