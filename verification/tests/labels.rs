use weatui::radar::cells::Hazard;
use weatui::render::labels::{
    hazard_color, hazard_letter, Area, CellLabel, MapText, Mark, PlaceLabel, RingLabel,
    MAX_CITY_LABELS,
};

fn warm(f: f32) -> Option<u32> {
    Some(f.to_bits())
}

fn map(width: u16, height: u16) -> MapText {
    MapText {
        area: Area { x: 0, y: 0, width, height },
        home: None,
        rings: Vec::new(),
        places: Vec::new(),
        cells: Vec::new(),
        surface_temp_f: None,
        show_cities: false,
        show_hazards: false,
    }
}

fn row(marks: &[Mark], y: u16, width: usize) -> String {
    let mut cells = vec![' '; width];
    for m in marks.iter().filter(|m| m.y == y) {
        for (k, c) in m.text.chars().enumerate() {
            cells[m.x as usize + k] = c;
        }
    }
    cells.into_iter().collect()
}

fn screen(marks: &[Mark], width: usize, height: u16) -> String {
    (0..height).map(|y| row(marks, y, width)).collect::<Vec<_>>().join("\n")
}

#[test]
fn ring_distance_labels_sit_on_their_rings() {
    let mut m = map(60, 30);
    m.home = Some((30, 30));
    for km in [25.0_f64, 50.0] {
        m.rings.push(RingLabel { text: format!("{km:.0}km"), columns: (km / 2.0).round() as i64 });
    }
    let text = screen(&m.render(), 60, 30);
    assert!(text.contains("25km"), "{text}");
    assert!(text.contains("50km"), "{text}");
}

#[test]
fn rain_labels_as_snow_below_freezing_surface_temps() {
    assert_eq!(hazard_letter(Hazard::Rain, warm(70.0)), 'R');
    assert_eq!(hazard_letter(Hazard::Rain, warm(30.0)), 'S');
    assert_eq!(hazard_letter(Hazard::Rain, None), 'R');
    assert_eq!(hazard_letter(Hazard::Tornado, warm(30.0)), 'T', "cold never rewrites a tornado");
}

#[test]
fn hazard_letters_render_beside_the_cell() {
    let mut m = map(40, 20);
    m.show_hazards = true;
    m.surface_temp_f = warm(70.0);
    m.cells.push(CellLabel {
        pixel: (20, 20),
        hazards: vec![Hazard::Tornado, Hazard::Wind, Hazard::Rain],
    });
    let row = row(&m.render(), 10, 40);
    assert!(row.contains("TWR"), "letters in severity order beside the marker: {row:?}");
}

#[test]
fn toggling_hazards_off_renders_nothing() {
    let mut m = map(40, 20);
    m.cells.push(CellLabel { pixel: (20, 20), hazards: vec![Hazard::Rain] });
    assert!(m.render().is_empty(), "disabled layer must draw nothing");
}

#[test]
fn a_nearby_city_gets_a_label() {
    let mut m = map(60, 30);
    m.show_cities = true;
    m.places.push(PlaceLabel { name: "Nashville".to_string(), pixel: (30, 30) });
    let text = screen(&m.render(), 60, 30);
    assert!(text.contains("Nashville"), "{text}");
    m.show_cities = false;
    assert!(m.render().is_empty());
}

#[test]
fn place_names_do_not_cover_each_other() {
    let mut m = map(60, 30);
    m.show_cities = true;
    for (name, pixel) in [("Nashville", (10, 30)), ("Antioch", (12, 31)), ("Memphis", (40, 10))] {
        m.places.push(PlaceLabel { name: name.to_string(), pixel });
    }
    let text = screen(&m.render(), 60, 30);
    assert!(text.contains("Nashville") && text.contains("Memphis"), "{text}");
    assert!(!text.contains("Antioch"), "{text}");
}

#[test]
fn only_so_many_places_are_named() {
    let mut m = map(200, 100);
    m.show_cities = true;
    for k in 0..30 {
        m.places.push(PlaceLabel { name: format!("P{k}"), pixel: (10, 4 * k + 2) });
    }
    assert_eq!(m.render().len(), MAX_CITY_LABELS * 2 / 2);
}

#[test]
fn a_pixel_lies_in_the_cell_that_shows_it() {
    let a = Area { x: 4, y: 3, width: 10, height: 5 };
    assert_eq!(a.cell_of((0, 0)), Some((4, 3)));
    assert_eq!(a.cell_of((9, 9)), Some((13, 7)));
    assert_eq!(a.cell_of((2, 3)), Some((6, 4)));
    for outside in [(10, 0), (0, 10), (-1, 0), (0, -1)] {
        assert_eq!(a.cell_of(outside), None);
    }
}

#[test]
fn a_tornado_is_the_loudest_letter() {
    assert_eq!(hazard_color(Hazard::Tornado), (255, 60, 60));
    assert_ne!(hazard_color(Hazard::Rain), hazard_color(Hazard::Hail));
}
