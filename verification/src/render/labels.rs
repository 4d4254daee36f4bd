//! The text on the map: distances, places and the hazards of storm cells.

use vstd::prelude::*;
#[allow(unused_imports)]
use vstd::string::StringExecFns;
#[allow(unused_imports)]
use crate::ieee::{at_least32, ge32};
use crate::radar::cells::Hazard;
use crate::render::Rgb;
#[allow(unused_imports)]
use crate::text::one_char;

verus! {

/// 34 degrees Fahrenheit: at or below it rain is labelled as snow.
pub const SNOW_TEMP_F: u32 = 0x4208_0000;

/// How many places are named at most.
pub const MAX_CITY_LABELS: usize = 12;

/// How many hazards of a cell are named at most.
pub const MAX_HAZARD_LETTERS: usize = 3;

pub const CITY_COLOR: Rgb = (120, 126, 138);

/// The colour of a hazard.
pub open spec fn hazard_colour(h: Hazard) -> Rgb {
    match h {
        Hazard::Tornado => (255, 60, 60),
        Hazard::Hail => (245, 210, 70),
        Hazard::Wind => (255, 130, 40),
        Hazard::Lightning => (170, 150, 255),
        Hazard::Rain => (110, 170, 255),
    }
}

pub fn hazard_color(h: Hazard) -> (r: Rgb)
    ensures
        r == hazard_colour(h),
        h is Tornado ==> r == (255u8, 60u8, 60u8),
        h is Hail ==> r == (245u8, 210u8, 70u8),
        h is Wind ==> r == (255u8, 130u8, 40u8),
        h is Lightning ==> r == (170u8, 150u8, 255u8),
        h is Rain ==> r == (110u8, 170u8, 255u8),
{
    match h {
        Hazard::Tornado => (255, 60, 60),
        Hazard::Hail => (245, 210, 70),
        Hazard::Wind => (255, 130, 40),
        Hazard::Lightning => (170, 150, 255),
        Hazard::Rain => (110, 170, 255),
    }
}

/// The letter of a hazard, given the temperature at the surface: where it freezes, rain is
/// snow.
pub open spec fn hazard_sign(h: Hazard, surface_temp_f: Option<u32>) -> char {
    if h is Rain && (surface_temp_f matches Some(t) && ge32(SNOW_TEMP_F, t)) {
        'S'
    } else {
        h.sign()
    }
}

pub fn hazard_letter(h: Hazard, surface_temp_f: Option<u32>) -> (r: char)
    ensures
        r == hazard_sign(h, surface_temp_f),
        h is Tornado ==> r == 'T',
        h is Hail ==> r == 'H',
        h is Wind ==> r == 'W',
        h is Lightning ==> r == 'L',
        h is Rain ==> r == (if surface_temp_f is Some && ge32(0x4208_0000, surface_temp_f->0) {
            'S'
        } else {
            'R'
        }),
{
    let freezing: bool = match surface_temp_f {
        Some(t) => at_least32(SNOW_TEMP_F, t),
        None => false,
    };
    if h == Hazard::Rain && freezing {
        'S'
    } else {
        h.letter()
    }
}

/// The part of the screen that the map fills.
#[derive(Debug, Clone, Copy, PartialEq, Eq, Structural)]
pub struct Area {
    pub x: u16,
    pub y: u16,
    pub width: u16,
    pub height: u16,
}

impl Area {
    /// Whether the area lies on a screen.
    pub open spec fn wf(self) -> bool {
        self.x + self.width <= u16::MAX && self.y + self.height <= u16::MAX
    }

    /// The first column beyond the area.
    pub open spec fn right(self) -> int {
        self.x + self.width
    }

    /// The character cell of a pixel, none where it lies outside. Pixel coordinates count in
    /// sixteen bits, two rows of pixels to a row of characters.
    pub open spec fn cell(self, p: (i64, i64)) -> Option<(int, int)> {
        let col = p.0 % 65_536;
        let row = p.1 / 2 % 65_536;
        if p.0 < 0 || p.1 < 0 || col >= self.width || row >= self.height {
            None
        } else {
            Some((self.x + col, self.y + row))
        }
    }

    pub fn cell_of(&self, p: (i64, i64)) -> (r: Option<(u16, u16)>)
        requires
            self.wf(),
        ensures
            r is None <==> self.cell(p) is None,
            r matches Some(c) ==> self.cell(p) == Some((c.0 as int, c.1 as int)) && self.x <= c.0
                < self.right() && self.y <= c.1 < self.y + self.height,
    {
        let (px, py) = p;
        if px < 0 || py < 0 {
            return None;
        }
        let col: u16 = (px % 65_536) as u16;
        let row: u16 = (py / 2 % 65_536) as u16;
        if col < self.width && row < self.height {
            Some((self.x + col, self.y + row))
        } else {
            None
        }
    }
}

/// A text on the map, no wider than `width`.
#[derive(Debug)]
pub struct Mark {
    pub x: u16,
    pub y: u16,
    pub text: String,
    pub width: u16,
    pub rgb: Rgb,
}

/// What is marked.
pub struct Marking {
    pub x: int,
    pub y: int,
    pub text: Seq<char>,
    pub width: int,
    pub rgb: Rgb,
}

impl View for Mark {
    type V = Marking;

    open spec fn view(&self) -> Marking {
        Marking {
            x: self.x as int,
            y: self.y as int,
            text: self.text@,
            width: self.width as int,
            rgb: self.rgb,
        }
    }
}

/// What a list of marks says.
pub open spec fn markings(list: Seq<Mark>) -> Seq<Marking> {
    list.map_values(|m: Mark| m@)
}

fn push_mark(list: &mut Vec<Mark>, mark: Mark)
    ensures
        markings(final(list)@) == markings(old(list)@).push(mark@),
{
    let ghost before = markings(list@);
    list.push(mark);
    assert(markings(list@) =~= before.push(mark@));
}

/// A ring of distance around home: what is written on it, and its radius in columns.
#[derive(Debug, Clone)]
pub struct RingLabel {
    pub text: String,
    pub columns: i64,
}

/// A shade of the rings' own colour that is bright enough to be read.
pub open spec fn ring_label_colour() -> Rgb {
    (120, 132, 156)
}

/// The marks of the first `n` rings: each on the ring's own column in the row of home, where
/// that column lies to the right of home and within the area.
pub open spec fn ring_marks(rings: Seq<RingLabel>, home: (int, int), right: int, n: int) -> Seq<
    Marking,
>
    decreases n,
{
    if n <= 0 {
        Seq::empty()
    } else {
        let before = ring_marks(rings, home, right, n - 1);
        let x = home.0 + rings[n - 1].columns;
        if x <= home.0 || x % 65_536 >= right {
            before
        } else {
            before.push(
                Marking {
                    x: x % 65_536,
                    y: home.1,
                    text: rings[n - 1].text@,
                    width: right - x % 65_536,
                    rgb: ring_label_colour(),
                },
            )
        }
    }
}

fn push_ring_marks(list: &mut Vec<Mark>, rings: &Vec<RingLabel>, home: (u16, u16), right: u16)
    requires
        forall|i: int|
            0 <= i < rings@.len() ==> (#[trigger] rings@[i]).columns <= i64::MAX - 65_535,
    ensures
        markings(final(list)@) == markings(old(list)@) + ring_marks(
            rings@,
            (home.0 as int, home.1 as int),
            right as int,
            rings@.len() as int,
        ),
{
    let ghost base = markings(list@);
    let ghost at = (home.0 as int, home.1 as int);
    let mut i: usize = 0;
    assert(base + ring_marks(rings@, at, right as int, 0) =~= base);
    while i < rings.len()
        invariant
            i <= rings@.len(),
            at == (home.0 as int, home.1 as int),
            markings(list@) == base + ring_marks(rings@, at, right as int, i as int),
            forall|k: int|
                0 <= k < rings@.len() ==> (#[trigger] rings@[k]).columns <= i64::MAX - 65_535,
        decreases rings@.len() - i,
    {
        assert(rings@[i as int].columns <= i64::MAX - 65_535);
        let x: i64 = home.0 as i64 + rings[i].columns;
        if x > home.0 as i64 {
            let col: u16 = (x % 65_536) as u16;
            if col < right {
                let mark = Mark {
                    x: col,
                    y: home.1,
                    text: rings[i].text.clone(),
                    width: right - col,
                    rgb: (120, 132, 156),
                };
                let ghost val = mark@;
                let ghost was = ring_marks(rings@, at, right as int, i as int);
                push_mark(list, mark);
                assert(base + was.push(val) =~= (base + was).push(val));
            }
        }
        i += 1;
    }
}

/// A place on the map and the pixel it lies on.
#[derive(Debug)]
pub struct PlaceLabel {
    pub name: String,
    pub pixel: (i64, i64),
}

/// The marks of the first `n` places: a place whose row already has a name is left out.
pub open spec fn city_marks(places: Seq<PlaceLabel>, area: Area, n: int) -> Seq<Marking>
    decreases n,
{
    if n <= 0 {
        Seq::empty()
    } else {
        let before = city_marks(places, area, n - 1);
        match area.cell(places[n - 1].pixel) {
            Some(c) => if exists|k: int| 0 <= k < before.len() && (#[trigger] before[k]).y == c.1 {
                before
            } else {
                before.push(
                    Marking {
                        x: c.0,
                        y: c.1,
                        text: "\u{b7}"@ + places[n - 1].name@,
                        width: area.right() - c.0,
                        rgb: CITY_COLOR,
                    },
                )
            },
            None => before,
        }
    }
}

fn row_is_named(list: &Vec<Mark>, from: usize, y: u16) -> (r: bool)
    requires
        from <= list@.len(),
    ensures
        r == exists|k: int| from <= k < list@.len() && (#[trigger] markings(list@)[k]).y == y,
{
    let mut i: usize = from;
    while i < list.len()
        invariant
            from <= i <= list@.len(),
            forall|k: int| from <= k < i ==> (#[trigger] markings(list@)[k]).y != y,
        decreases list@.len() - i,
    {
        assert(markings(list@)[i as int].y == list@[i as int].y);
        if list[i].y == y {
            return true;
        }
        i += 1;
    }
    false
}

fn push_city_marks(list: &mut Vec<Mark>, places: &Vec<PlaceLabel>, area: Area)
    requires
        area.wf(),
    ensures
        markings(final(list)@) == markings(old(list)@) + city_marks(
            places@,
            area,
            (if places@.len() < MAX_CITY_LABELS {
                places@.len() as int
            } else {
                MAX_CITY_LABELS as int
            }),
        ),
{
    let ghost base = markings(list@);
    let from: usize = list.len();
    let n: usize = if places.len() < MAX_CITY_LABELS {
        places.len()
    } else {
        MAX_CITY_LABELS
    };
    let mut i: usize = 0;
    assert(base + city_marks(places@, area, 0) =~= base);
    while i < n
        invariant
            i <= n <= places@.len(),
            area.wf(),
            from == base.len(),
            markings(list@) == base + city_marks(places@, area, i as int),
        decreases n - i,
    {
        let ghost was = city_marks(places@, area, i as int);
        if let Some((x, y)) = area.cell_of(places[i].pixel) {
            assert(markings(list@).len() == list@.len());
            assert(list@.len() == base.len() + was.len());
            let taken: bool = row_is_named(list, from, y);
            proof {
                if taken {
                    let k = choose|k: int|
                        from <= k < list@.len() && (#[trigger] markings(list@)[k]).y == y;
                    assert(markings(list@)[k] == was[k - from]);
                    assert(was[k - from].y == y);
                }
                if exists|k: int| 0 <= k < was.len() && (#[trigger] was[k]).y == y {
                    let k = choose|k: int| 0 <= k < was.len() && (#[trigger] was[k]).y == y;
                    assert(markings(list@)[k + from].y == y);
                }
            }
            if !taken {
                let mut text = "\u{b7}".to_owned();
                text.append(places[i].name.as_str());
                let mark = Mark { x, y, text, width: area.x + area.width - x, rgb: CITY_COLOR };
                let ghost val = mark@;
                push_mark(list, mark);
                assert(base + was.push(val) =~= (base + was).push(val));
            }
        }
        i += 1;
    }
}

/// A storm cell on the map: the pixel it lies on, and its hazards, worst first.
#[derive(Debug)]
pub struct CellLabel {
    pub pixel: (i64, i64),
    pub hazards: Vec<Hazard>,
}

/// The column of the first hazard letter of a cell.
pub open spec fn letters_from(x: int) -> int {
    if x + 4 > u16::MAX {
        u16::MAX as int
    } else {
        x + 4
    }
}

/// The marks of the first `n` letters of a cell at a character cell: one column each, from
/// the fourth column to its right, within the area.
pub open spec fn letter_marks(
    hazards: Seq<Hazard>,
    at: (int, int),
    right: int,
    temp: Option<u32>,
    n: int,
) -> Seq<Marking>
    decreases n,
{
    if n <= 0 {
        Seq::empty()
    } else {
        let before = letter_marks(hazards, at, right, temp, n - 1);
        let x = letters_from(at.0) + n - 1;
        if n <= hazards.len() && n <= MAX_HAZARD_LETTERS && x < right {
            before.push(
                Marking {
                    x,
                    y: at.1,
                    text: seq![hazard_sign(hazards[n - 1], temp)],
                    width: 1,
                    rgb: hazard_colour(hazards[n - 1]),
                },
            )
        } else {
            before
        }
    }
}

/// The marks of the hazards of the first `n` cells.
pub open spec fn hazard_marks(
    cells: Seq<CellLabel>,
    area: Area,
    temp: Option<u32>,
    n: int,
) -> Seq<Marking>
    decreases n,
{
    if n <= 0 {
        Seq::empty()
    } else {
        let before = hazard_marks(cells, area, temp, n - 1);
        match area.cell(cells[n - 1].pixel) {
            Some(c) => before + letter_marks(
                cells[n - 1].hazards@,
                c,
                area.right(),
                temp,
                MAX_HAZARD_LETTERS as int,
            ),
            None => before,
        }
    }
}

fn push_letter_marks(
    list: &mut Vec<Mark>,
    hazards: &Vec<Hazard>,
    at: (u16, u16),
    right: u16,
    temp: Option<u32>,
)
    ensures
        markings(final(list)@) == markings(old(list)@) + letter_marks(
            hazards@,
            (at.0 as int, at.1 as int),
            right as int,
            temp,
            MAX_HAZARD_LETTERS as int,
        ),
{
    let ghost base = markings(list@);
    let ghost here = (at.0 as int, at.1 as int);
    let first: u32 = if at.0 as u32 + 4 > 65_535 {
        65_535
    } else {
        at.0 as u32 + 4
    };
    let mut i: usize = 0;
    assert(base + letter_marks(hazards@, here, right as int, temp, 0) =~= base);
    while i < MAX_HAZARD_LETTERS
        invariant
            i <= MAX_HAZARD_LETTERS,
            here == (at.0 as int, at.1 as int),
            first == letters_from(here.0),
            first <= 65_535,
            markings(list@) == base + letter_marks(hazards@, here, right as int, temp, i as int),
        decreases MAX_HAZARD_LETTERS - i,
    {
        let ghost was = letter_marks(hazards@, here, right as int, temp, i as int);
        let x: u32 = first + i as u32;
        if i < hazards.len() && x < right as u32 {
            let text = one_char(hazard_letter(hazards[i], temp));
            let mark = Mark {
                x: x as u16,
                y: at.1,
                text,
                width: 1,
                rgb: hazard_color(hazards[i]),
            };
            let ghost val = mark@;
            push_mark(list, mark);
            assert(base + was.push(val) =~= (base + was).push(val));
        }
        i += 1;
    }
}

/// Everything that is written on the map.
#[derive(Debug)]
pub struct MapText {
    pub area: Area,
    /// The pixel of home, and the rings around it, where distances can be told.
    pub home: Option<(i64, i64)>,
    pub rings: Vec<RingLabel>,
    /// The places to name, where places are named.
    pub places: Vec<PlaceLabel>,
    pub cells: Vec<CellLabel>,
    pub surface_temp_f: Option<u32>,
    pub show_cities: bool,
    pub show_hazards: bool,
}

impl MapText {
    /// Whether the area lies on a screen and no ring reaches the end of the numbers.
    pub open spec fn wf(self) -> bool {
        &&& self.area.wf()
        &&& forall|i: int|
            0 <= i < self.rings@.len() ==> (#[trigger] self.rings@[i]).columns <= i64::MAX - 65_535
    }

    /// The character cell of home.
    pub open spec fn home_cell(self) -> Option<(int, int)> {
        match self.home {
            Some(p) => self.area.cell(p),
            None => None,
        }
    }

    /// What is written: distances, then places, then hazards.
    pub open spec fn text(self) -> Seq<Marking> {
        (match self.home_cell() {
            Some(h) => ring_marks(self.rings@, h, self.area.right(), self.rings@.len() as int),
            None => Seq::empty(),
        }) + (if self.show_cities {
            city_marks(
                self.places@,
                self.area,
                if self.places@.len() < MAX_CITY_LABELS {
                    self.places@.len() as int
                } else {
                    MAX_CITY_LABELS as int
                },
            )
        } else {
            Seq::empty()
        }) + (if self.show_hazards {
            hazard_marks(self.cells@, self.area, self.surface_temp_f, self.cells@.len() as int)
        } else {
            Seq::empty()
        })
    }

    /// The marks, in the order in which they are drawn.
    pub fn render(&self) -> (r: Vec<Mark>)
        requires
            self.wf(),
        ensures
            markings(r@) == self.text(),
    {
        let mut list: Vec<Mark> = Vec::new();
        assert(markings(list@) =~= Seq::<Marking>::empty());
        if let Some(p) = self.home {
            if let Some(h) = self.area.cell_of(p) {
                push_ring_marks(&mut list, &self.rings, h, self.area.x + self.area.width);
            }
        }
        let ghost rings = match self.home_cell() {
            Some(h) => ring_marks(self.rings@, h, self.area.right(), self.rings@.len() as int),
            None => Seq::empty(),
        };
        assert(markings(list@) =~= rings);
        if self.show_cities {
            push_city_marks(&mut list, &self.places, self.area);
        }
        let ghost base = markings(list@);
        if self.show_hazards {
            let mut i: usize = 0;
            assert(base + hazard_marks(self.cells@, self.area, self.surface_temp_f, 0) =~= base);
            while i < self.cells.len()
                invariant
                    i <= self.cells@.len(),
                    self.wf(),
                    markings(list@) == base + hazard_marks(
                        self.cells@,
                        self.area,
                        self.surface_temp_f,
                        i as int,
                    ),
                decreases self.cells@.len() - i,
            {
                let ghost was = hazard_marks(
                    self.cells@,
                    self.area,
                    self.surface_temp_f,
                    i as int,
                );
                if let Some(c) = self.area.cell_of(self.cells[i].pixel) {
                    push_letter_marks(
                        &mut list,
                        &self.cells[i].hazards,
                        c,
                        self.area.x + self.area.width,
                        self.surface_temp_f,
                    );
                    proof {
                        let more = letter_marks(
                            self.cells@[i as int].hazards@,
                            (c.0 as int, c.1 as int),
                            self.area.right(),
                            self.surface_temp_f,
                            MAX_HAZARD_LETTERS as int,
                        );
                        assert(base + was + more =~= base + (was + more));
                    }
                }
                i += 1;
            }
        }
        assert(markings(list@) =~= self.text());
        list
    }
}

proof fn lemma_city_rows_differ(places: Seq<PlaceLabel>, area: Area, n: int)
    ensures
        forall|a: int, b: int|
            0 <= a < b < city_marks(places, area, n).len() ==> (#[trigger] city_marks(
                places,
                area,
                n,
            )[a]).y != (#[trigger] city_marks(places, area, n)[b]).y,
    decreases n,
{
    if n > 0 {
        lemma_city_rows_differ(places, area, n - 1);
        let before = city_marks(places, area, n - 1);
        let now = city_marks(places, area, n);
        assert forall|a: int, b: int| 0 <= a < b < now.len() implies (#[trigger] now[a]).y != (
        #[trigger] now[b]).y by {
            assert(now[a] == before[a]);
            if b < before.len() {
                assert(now[b] == before[b]);
            }
        }
    }
}

/// Names of places never collide: no two of them stand in one row.
pub proof fn law_place_names_do_not_collide(places: Seq<PlaceLabel>, area: Area, n: int, a: int, b: int)
    requires
        0 <= a < b < city_marks(places, area, n).len(),
    ensures
        city_marks(places, area, n)[a].y != city_marks(places, area, n)[b].y,
{
    lemma_city_rows_differ(places, area, n);
}

/// A pixel within the area shows in the character of its column and of its pair of rows, and the
/// two pixels of a pair in the same one; what lies left of the area or above it shows in none.
pub proof fn law_pixels_share_characters_by_two(area: Area, x: i64, row: i64)
    requires
        0 <= x < area.width,
        0 <= row < area.height,
    ensures
        area.cell((x, (2 * row) as i64)) == Some((area.x + x, area.y + row)),
        area.cell((x, (2 * row + 1) as i64)) == Some((area.x + x, area.y + row)),
        area.cell((-1i64, (2 * row) as i64)) is None,
        area.cell((x, -1i64)) is None,
        area.cell((area.width as i64, (2 * row) as i64)) is None,
        area.cell((x, (2 * area.height) as i64)) is None,
{
    assert((2 * row) / 2 == row);
    assert((2 * row + 1) / 2 == row);
    assert((2 * area.height) / 2 == area.height as int);
}

/// A ring that reaches a column to the right of home and within the area is labelled there, in the
/// row of home, with its own text; every label is one of these.
pub proof fn law_rings_are_labelled_on_themselves(
    rings: Seq<RingLabel>,
    home: (int, int),
    right: int,
    n: int,
    i: int,
)
    requires
        0 <= n <= rings.len(),
        0 <= home.0,
        right <= 65_536,
    ensures
        0 <= i < n && rings[i].columns > 0 && home.0 + rings[i].columns < right ==> exists|k: int|
            0 <= k < ring_marks(rings, home, right, n).len() && (#[trigger] ring_marks(
                rings,
                home,
                right,
                n,
            )[k]).x == home.0 + rings[i].columns && ring_marks(rings, home, right, n)[k].text
                == rings[i].text@,
        0 <= i < ring_marks(rings, home, right, n).len() ==> {
            let m = ring_marks(rings, home, right, n)[i];
            &&& m.y == home.1
            &&& 0 <= m.x < right
            &&& m.width == right - m.x
            &&& exists|k: int|
                0 <= k < n && m.text == (#[trigger] rings[k]).text@ && rings[k].columns > 0 && m.x
                    == (home.0 + rings[k].columns) % 65_536
        },
    decreases n,
{
    if n > 0 {
        law_rings_are_labelled_on_themselves(rings, home, right, n - 1, i);
        let before = ring_marks(rings, home, right, n - 1);
        let all = ring_marks(rings, home, right, n);
        if 0 <= i < n - 1 && rings[i].columns > 0 && home.0 + rings[i].columns < right {
            let k = choose|k: int|
                0 <= k < before.len() && (#[trigger] before[k]).x == home.0 + rings[i].columns
                    && before[k].text == rings[i].text@;
            assert(all[k] == before[k]);
        }
        if i == n - 1 && rings[i].columns > 0 && home.0 + rings[i].columns < right {
            assert((home.0 + rings[i].columns) % 65_536 == home.0 + rings[i].columns);
            assert(all[before.len() as int].x == home.0 + rings[i].columns);
        }
        if 0 <= i < all.len() {
            if i < before.len() {
                assert(all[i] == before[i]);
            } else {
                assert(all[i].text == rings[n - 1].text@);
            }
        }
    }
}

/// Letters stand side by side from the fourth column to the right of their cell: the first of a
/// cell is that of its worst hazard, each has the colour of its hazard, and there are at most
/// three.
pub proof fn law_letters_stand_worst_first(
    hazards: Seq<Hazard>,
    at: (int, int),
    right: int,
    temp: Option<u32>,
    n: int,
    k: int,
)
    requires
        0 <= n <= 3,
        at.0 + 4 <= u16::MAX,
    ensures
        ({
            let marks = letter_marks(hazards, at, right, temp, n);
            &&& marks.len() <= 3
            &&& marks.len() <= hazards.len()
            &&& 0 <= k < n && k < hazards.len() && at.0 + 4 + k < right <==> 0 <= k < marks.len()
            &&& 0 <= k < marks.len() ==> {
                &&& marks[k].x == at.0 + 4 + k
                &&& marks[k].y == at.1
                &&& marks[k].text == seq![hazard_sign(hazards[k], temp)]
                &&& marks[k].rgb == hazard_colour(hazards[k])
                &&& marks[k].width == 1
            }
        }),
    decreases n,
{
    if n > 0 {
        law_letters_stand_worst_first(hazards, at, right, temp, n - 1, k);
        law_letters_stand_worst_first(hazards, at, right, temp, n - 1, n - 2);
        law_letters_stand_worst_first(hazards, at, right, temp, n - 1, n - 1);
        let before = letter_marks(hazards, at, right, temp, n - 1);
        let marks = letter_marks(hazards, at, right, temp, n);
        if marks.len() > before.len() {
            if n >= 2 {
                assert(before.len() > n - 2);
            }
            assert(before.len() == n - 1);
        }
    }
}

/// Names of places stand where their places are, after a dot; the first place within the area is
/// always named, and every name is that of a place.
pub proof fn law_names_stand_at_their_places(
    places: Seq<PlaceLabel>,
    area: Area,
    n: int,
    i: int,
)
    requires
        0 <= n <= places.len(),
    ensures
        0 <= i < city_marks(places, area, n).len() ==> {
            let m = city_marks(places, area, n)[i];
            exists|k: int|
                0 <= k < n && m.text == "\u{b7}"@ + (#[trigger] places[k]).name@ && area.cell(
                    places[k].pixel,
                ) == Some((m.x, m.y)) && m.width == area.right() - m.x
        },
        0 <= i < n && area.cell(places[i].pixel) is Some ==> exists|k: int|
            0 <= k < city_marks(places, area, n).len() && (#[trigger] city_marks(
                places,
                area,
                n,
            )[k]).y == (area.cell(places[i].pixel)->Some_0).1,
        n >= 1 && area.cell(places[0].pixel) is Some ==> city_marks(places, area, n).len() >= 1
            && city_marks(places, area, n)[0].text == "\u{b7}"@ + places[0].name@,
    decreases n,
{
    if n > 0 {
        law_names_stand_at_their_places(places, area, n - 1, i);
        let before = city_marks(places, area, n - 1);
        let all = city_marks(places, area, n);
        assert(all.len() == before.len() || all.len() == before.len() + 1);
        if 0 <= i < all.len() {
            if i < before.len() {
                assert(all[i] == before[i]);
            } else {
                assert(all[i].text == "\u{b7}"@ + places[n - 1].name@);
            }
        }
        if 0 <= i < n - 1 && area.cell(places[i].pixel) is Some {
            let k = choose|k: int|
                0 <= k < before.len() && (#[trigger] before[k]).y == (area.cell(
                    places[i].pixel,
                )->Some_0).1;
            assert(all[k] == before[k]);
        }
        if i == n - 1 && area.cell(places[i].pixel) is Some {
            let c = area.cell(places[i].pixel)->0;
            if exists|k: int| 0 <= k < before.len() && (#[trigger] before[k]).y == c.1 {
                let k = choose|k: int| 0 <= k < before.len() && (#[trigger] before[k]).y == c.1;
                assert(all[k].y == c.1);
            } else {
                assert(all[before.len() as int].y == c.1);
            }
        }
        if before.len() >= 1 {
            assert(all[0] == before[0]);
        }
    }
}

/// What is switched off is not written: distances need home in view, names and hazards their
/// switches, and at most twelve places are named.
pub proof fn law_only_what_is_asked_for_is_written(map: MapText)
    ensures
        map.home_cell() is None && !map.show_cities && !map.show_hazards ==> map.text().len() == 0,
        map.home_cell() is None && map.show_cities && !map.show_hazards ==> map.text()
            == city_marks(
            map.places@,
            map.area,
            if map.places@.len() < 12 {
                map.places@.len() as int
            } else {
                12
            },
        ),
        map.home_cell() is None && !map.show_cities && map.show_hazards ==> map.text()
            == hazard_marks(map.cells@, map.area, map.surface_temp_f, map.cells@.len() as int),
        map.home_cell() is Some && !map.show_cities && !map.show_hazards ==> map.text()
            == ring_marks(
            map.rings@,
            map.home_cell()->0,
            map.area.right(),
            map.rings@.len() as int,
        ),
{
    let cities = city_marks(
        map.places@,
        map.area,
        if map.places@.len() < 12 {
            map.places@.len() as int
        } else {
            12
        },
    );
    let hazards = hazard_marks(
        map.cells@,
        map.area,
        map.surface_temp_f,
        map.cells@.len() as int,
    );
    if map.home_cell() is None {
        if map.show_cities && !map.show_hazards {
            assert(map.text() =~= cities);
        }
        if !map.show_cities && map.show_hazards {
            assert(map.text() =~= hazards);
        }
    } else if !map.show_cities && !map.show_hazards {
        assert(map.text() =~= ring_marks(
            map.rings@,
            map.home_cell()->0,
            map.area.right(),
            map.rings@.len() as int,
        ));
    }
}

} // verus!
