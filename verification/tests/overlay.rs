use weatui::render::overlay::{
    PixelOverlay, HOME_MARKER, LETHAL_OUTLINE, SEVERE_OUTLINE, WATCH_OUTLINE,
};

const NORMAN: (f64, f64) = (35.2057, -97.4427);
const KM_PER_DEG_LAT: f64 = 111.19492664455873;

/// A place on a map of 200 by 100 pixels, 200 km wide, about Norman.
fn pixel(lat: f64, lon: f64) -> (i64, i64) {
    let north = (lat - NORMAN.0) * KM_PER_DEG_LAT;
    let east = (lon - NORMAN.1) * KM_PER_DEG_LAT * NORMAN.0.to_radians().cos();
    ((east + 100.0).floor() as i64, (50.0 - north).floor() as i64)
}

#[test]
fn new_overlay_is_empty() {
    let o = PixelOverlay::new(10, 10);
    assert_eq!(o.painted(), 0);
    assert_eq!(o.get(5, 5), None);
}

#[test]
fn out_of_bounds_writes_are_discarded_rather_than_panicking() {
    let mut o = PixelOverlay::new(10, 10);
    o.set(-5, 3, HOME_MARKER);
    o.set(3, -5, HOME_MARKER);
    o.set(100, 3, HOME_MARKER);
    o.set(3, 100, HOME_MARKER);
    assert_eq!(o.painted(), 0);
}

#[test]
fn horizontal_and_vertical_lines_are_continuous() {
    let mut o = PixelOverlay::new(20, 20);
    o.draw_line((2, 5), (8, 5), LETHAL_OUTLINE);
    for x in 2..=8 {
        assert_eq!(o.get(x, 5), Some(LETHAL_OUTLINE), "gap at x={x}");
    }
    o.draw_line((15, 2), (15, 9), SEVERE_OUTLINE);
    for y in 2..=9 {
        assert_eq!(o.get(15, y), Some(SEVERE_OUTLINE), "gap at y={y}");
    }
}

#[test]
fn diagonal_line_reaches_its_endpoint() {
    let mut o = PixelOverlay::new(20, 20);
    o.draw_line((0, 0), (9, 9), LETHAL_OUTLINE);
    assert_eq!(o.get(0, 0), Some(LETHAL_OUTLINE));
    assert_eq!(o.get(9, 9), Some(LETHAL_OUTLINE));
}

#[test]
fn a_line_entirely_outside_the_overlay_paints_nothing() {
    let mut o = PixelOverlay::new(20, 20);
    o.draw_line((-100, -100), (-50, -50), LETHAL_OUTLINE);
    assert_eq!(o.painted(), 0);
}

#[test]
fn an_edge_crossing_the_boundary_still_paints_the_inside_portion() {
    let mut o = PixelOverlay::new(20, 20);
    o.draw_line((-10, 10), (10, 10), LETHAL_OUTLINE);
    assert!(o.painted() > 0, "clipped edge should still draw inside pixels");
    assert_eq!(o.get(0, 10), Some(LETHAL_OUTLINE));
}

#[test]
fn polygon_ring_is_closed_even_when_the_last_vertex_is_not_repeated() {
    let mut o = PixelOverlay::new(200, 100);
    let ring: Vec<(i64, i64)> = vec![
        pixel(NORMAN.0 - 0.2, NORMAN.1 - 0.2),
        pixel(NORMAN.0 - 0.2, NORMAN.1 + 0.2),
        pixel(NORMAN.0 + 0.2, NORMAN.1 + 0.2),
        pixel(NORMAN.0 + 0.2, NORMAN.1 - 0.2),
    ];
    o.draw_ring(&ring, LETHAL_OUTLINE);
    assert!(o.painted() > 100, "only {} pixels painted", o.painted());
}

#[test]
fn degenerate_rings_draw_nothing() {
    let mut o = PixelOverlay::new(200, 100);
    o.draw_ring(&Vec::new(), LETHAL_OUTLINE);
    o.draw_ring(&vec![pixel(NORMAN.0, NORMAN.1)], LETHAL_OUTLINE);
    assert_eq!(o.painted(), 0);
}

#[test]
fn home_crosshair_leaves_its_own_centre_pixel_unpainted() {
    let mut o = PixelOverlay::new(200, 100);
    o.draw_home(pixel(NORMAN.0, NORMAN.1), HOME_MARKER);
    assert_eq!(o.get(100, 50), None, "centre must stay readable");
    assert_eq!(o.get(97, 50), Some(HOME_MARKER));
    assert_eq!(o.get(103, 50), Some(HOME_MARKER));
    assert_eq!(o.get(100, 47), Some(HOME_MARKER));
    assert_eq!(o.get(100, 53), Some(HOME_MARKER));
}

#[test]
fn home_marker_off_screen_paints_nothing() {
    let mut o = PixelOverlay::new(200, 100);
    o.draw_home(pixel(10.0, 10.0), HOME_MARKER);
    assert_eq!(o.painted(), 0);
}

#[test]
fn what_is_drawn_last_covers_what_was_there() {
    let mut o = PixelOverlay::new(4, 3);
    o.set(1, 2, LETHAL_OUTLINE);
    o.set(1, 2, WATCH_OUTLINE);
    assert_eq!(o.get(1, 2), Some(WATCH_OUTLINE));
    assert_eq!(o.get(2, 1), None);
    assert_eq!(o.painted(), 1);
}

#[test]
fn a_line_stays_in_the_box_of_its_ends_and_has_no_gaps() {
    let mut o = PixelOverlay::new(30, 30);
    o.draw_line((20, 4), (3, 11), LETHAL_OUTLINE);
    assert_eq!(o.painted(), 18, "one pixel per column along the longer side");
    for x in 3..=20 {
        let rows: Vec<usize> = (0..30).filter(|y| o.get(x, *y).is_some()).collect();
        assert_eq!(rows.len(), 1);
        assert!((4..=11).contains(&rows[0]));
    }
    for x in 0..30 {
        if !(3..=20).contains(&x) {
            assert!((0..30).all(|y| o.get(x, y).is_none()));
        }
    }
}

#[test]
fn a_ring_joins_its_last_corner_with_its_first() {
    let mut o = PixelOverlay::new(10, 10);
    o.draw_ring(&vec![(1, 1), (8, 1), (8, 8), (1, 8)], SEVERE_OUTLINE);
    assert_eq!(o.painted(), 28);
    assert_eq!(o.get(1, 4), Some(SEVERE_OUTLINE));
    assert_eq!(o.get(4, 4), None);
}

#[test]
fn a_cell_is_bracketed_and_a_selected_one_more_so() {
    let mut o = PixelOverlay::new(21, 21);
    o.draw_cell_marker((10, 10), SEVERE_OUTLINE, false);
    let small = o.painted();
    assert_eq!(o.get(10, 10), None);
    assert_eq!(o.get(6, 6), Some(SEVERE_OUTLINE));
    assert_eq!(o.get(14, 14), Some(SEVERE_OUTLINE));
    let mut big = PixelOverlay::new(21, 21);
    big.draw_cell_marker((10, 10), SEVERE_OUTLINE, true);
    assert_eq!(big.get(4, 16), Some(SEVERE_OUTLINE));
    assert!(big.painted() > small);
}

#[test]
fn listed_points_off_the_map_are_left_out() {
    let mut o = PixelOverlay::new(5, 5);
    o.draw_points(&vec![(0, 0), (4, 4), (5, 0), (-1, 2)], HOME_MARKER);
    assert_eq!(o.painted(), 2);
    o.draw_distance_rings(&vec![(2, 2), (9, 9)], WATCH_OUTLINE);
    assert_eq!(o.painted(), 3);
}
