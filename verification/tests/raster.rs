use weatui::config::Colormap;
use weatui::radar::{DbzGrid, RadarProduct};
use weatui::render::colormap::{dbz_shade, Shade, NO_DATA};
use weatui::render::overlay::{PixelOverlay, HOME_MARKER};
use weatui::render::raster::{cell_colors, UPPER_HALF_BLOCK};

fn shade(dbz: f32) -> Shade {
    dbz_shade(dbz.to_bits(), Colormap::Threat).unwrap()
}

fn colors(col: usize, row: usize) -> (Shade, Shade) {
    let over = PixelOverlay::new(3, 4);
    cell_colors(&grid(), &over, col, row, RadarProduct::Reflectivity, Colormap::Threat)
}

fn grid() -> DbzGrid {
    let mut g = DbzGrid::new(3, 4);
    g.set(0, 0, Some(55.0_f32.to_bits()));
    g.set(0, 1, Some(20.0_f32.to_bits()));
    g.set(1, 2, Some(65.0_f32.to_bits()));
    g
}

#[test]
fn a10_foreground_is_the_even_pixel_row_and_background_the_odd_one() {
    let (fg, bg) = colors(0, 0);
    assert_eq!(fg, shade(55.0));
    assert_eq!(bg, shade(20.0));
}

#[test]
fn a10_second_terminal_row_reads_pixel_rows_two_and_three() {
    let (fg, bg) = colors(1, 1);
    assert_eq!(fg, shade(65.0));
    assert_eq!(bg, Shade::Flat(NO_DATA));
}

#[test]
fn a10_two_pixels_in_one_cell_can_carry_different_colours() {
    let (fg, bg) = colors(0, 0);
    assert_ne!(fg, bg, "half-block must give two independent pixels");
}

#[test]
fn empty_pixels_render_as_background_not_as_a_dark_echo() {
    let (fg, bg) = colors(2, 0);
    assert_eq!(fg, Shade::Flat(NO_DATA));
    assert_eq!(bg, Shade::Flat(NO_DATA));
}

#[test]
fn reading_beyond_the_grid_is_background_rather_than_a_panic() {
    let (fg, bg) = colors(99, 99);
    assert_eq!(fg, Shade::Flat(NO_DATA));
    assert_eq!(bg, Shade::Flat(NO_DATA));
}

#[test]
fn what_is_painted_over_the_map_covers_the_echo() {
    let mut over = PixelOverlay::new(3, 4);
    over.set(0, 1, HOME_MARKER);
    let (fg, bg) =
        cell_colors(&grid(), &over, 0, 0, RadarProduct::Reflectivity, Colormap::Threat);
    assert_eq!(fg, shade(55.0));
    assert_eq!(bg, Shade::Flat(HOME_MARKER));
    assert_eq!(UPPER_HALF_BLOCK, '\u{2580}');
}
