//! Half-block pixels: a character cell shows two pixels, the upper one in its foreground and
//! the lower one in its background.

use vstd::prelude::*;
use crate::config::Colormap;
use crate::radar::{DbzGrid, RadarProduct};
use crate::render::colormap::{product_shade, Shade, NO_DATA};
#[allow(unused_imports)]
use crate::render::colormap::shade_of;
use crate::render::overlay::PixelOverlay;

verus! {

pub const UPPER_HALF_BLOCK: char = '\u{2580}';

/// What a pixel is drawn as: what lies over it, else its reading, else nothing.
pub open spec fn pixel_shade(
    grid: DbzGrid,
    over: PixelOverlay,
    x: int,
    y: int,
    product: RadarProduct,
    map: Colormap,
) -> Shade {
    match over.at((x, y)) {
        Some(rgb) => Shade::Flat(rgb),
        None => match grid.at(x, y) {
            Some(v) => match shade_of(v, product, map) {
                Some(s) => s,
                None => Shade::Flat(NO_DATA),
            },
            None => Shade::Flat(NO_DATA),
        },
    }
}

fn pixel(
    grid: &DbzGrid,
    over: &PixelOverlay,
    x: usize,
    y: usize,
    product: RadarProduct,
    map: Colormap,
) -> (r: Shade)
    requires
        grid.wf(),
        over.wf(),
    ensures
        r == pixel_shade(*grid, *over, x as int, y as int, product, map),
{
    match over.get(x, y) {
        Some(rgb) => Shade::Flat(rgb),
        None => match grid.get(x, y) {
            Some(v) => match product_shade(v, product, map) {
                Some(s) => s,
                None => Shade::Flat(NO_DATA),
            },
            None => Shade::Flat(NO_DATA),
        },
    }
}

/// The upper and the lower pixel of a character cell: row `r` of the terminal shows the pixel
/// rows `2r` and `2r + 1`.
pub fn cell_colors(
    grid: &DbzGrid,
    over: &PixelOverlay,
    col: usize,
    row: usize,
    product: RadarProduct,
    map: Colormap,
) -> (r: (Shade, Shade))
    requires
        grid.wf(),
        over.wf(),
        2 * row + 1 <= usize::MAX,
    ensures
        r.0 == pixel_shade(*grid, *over, col as int, 2 * row, product, map),
        r.1 == pixel_shade(*grid, *over, col as int, 2 * row + 1, product, map),
{
    (
        pixel(grid, over, col, row * 2, product, map),
        pixel(grid, over, col, row * 2 + 1, product, map),
    )
}

/// What lies over the picture hides it, whatever the reading below; where nothing does, a reading
/// shows in its shade, and black shows where there is none or none that is drawn.
pub proof fn law_annotations_lie_on_top(
    grid: DbzGrid,
    over: PixelOverlay,
    x: int,
    y: int,
    product: RadarProduct,
    map: Colormap,
)
    ensures
        over.at((x, y)) matches Some(rgb) ==> pixel_shade(grid, over, x, y, product, map)
            == Shade::Flat(rgb),
        over.at((x, y)) is None && grid.at(x, y) is None ==> pixel_shade(
            grid,
            over,
            x,
            y,
            product,
            map,
        ) == Shade::Flat((0, 0, 0)),
        over.at((x, y)) is None ==> (grid.at(x, y) matches Some(v) ==> match shade_of(
            v,
            product,
            map,
        ) {
            Some(s) => pixel_shade(grid, over, x, y, product, map) == s,
            None => pixel_shade(grid, over, x, y, product, map) == Shade::Flat((0, 0, 0)),
        }),
{
}

} // verus!
