//! Places: tables of them, and how one is picked.

use vstd::prelude::*;
#[allow(unused_imports)]
use vstd::string::StringExecFns;
#[allow(unused_imports)]
use crate::ieee::{is_least, least};
#[allow(unused_imports)]
use crate::text::{
    all_digits, ascii_upper, chars_of, is_digit, law_first_field_ends_at_the_separator,
    lemma_split_fields, lines, same, same_ignoring_case, split, split_on,
    text_lines, texts, trim, trimmed, uppercased,
};

verus! {

/// A place: latitude and longitude in degrees, as bit patterns of doubles.
#[derive(Debug, Clone, Copy, PartialEq, Eq, Structural)]
pub struct Coords {
    pub lat: u64,
    pub lon: u64,
}

/// A radar site.
#[derive(Debug, Clone)]
pub struct RadarSite {
    pub id: String,
    pub coords: Coords,
}

/// One row of a table of places: a key and two numerals.
#[derive(Debug, Clone)]
pub struct TableRow {
    pub key: String,
    pub lat: String,
    pub lon: String,
}

/// What a row says.
pub struct Row {
    pub key: Seq<char>,
    pub lat: Seq<char>,
    pub lon: Seq<char>,
}

impl View for TableRow {
    type V = Row;

    open spec fn view(&self) -> Row {
        Row { key: self.key@, lat: self.lat@, lon: self.lon@ }
    }
}

/// What a line of a table says: at least three fields between commas, and a key.
pub open spec fn row_of(line: Seq<char>) -> Option<Row> {
    let f = split_on(line, ',');
    if f.len() >= 3 && trim(f[0]).len() > 0 {
        Some(Row { key: trim(f[0]), lat: trim(f[1]), lon: trim(f[2]) })
    } else {
        None
    }
}

/// The rows of the lines that have one.
pub open spec fn rows_of(lines: Seq<Seq<char>>) -> Seq<Row>
    decreases lines.len(),
{
    if lines.len() == 0 {
        Seq::empty()
    } else {
        match row_of(lines.last()) {
            Some(row) => rows_of(lines.drop_last()).push(row),
            None => rows_of(lines.drop_last()),
        }
    }
}

fn parse_row(line: &str) -> (r: Option<TableRow>)
    ensures
        r is Some <==> row_of(line@) is Some,
        r matches Some(row) ==> row_of(line@) == Some(row@),
{
    let f = split(line, ',');
    let ghost all = split_on(line@, ',');
    assert(all.len() == f@.len());
    if f.len() < 3 {
        return None;
    }
    assert(all[0] == f@[0]@);
    assert(all[1] == f@[1]@);
    assert(all[2] == f@[2]@);
    let key = trimmed(f[0].as_str());
    if key.as_str().is_empty() {
        return None;
    }
    Some(TableRow { key, lat: trimmed(f[1].as_str()), lon: trimmed(f[2].as_str()) })
}

/// Reads a table of places, one to a line; lines that are not rows are left out.
pub fn parse_table(csv: &str) -> (r: Vec<TableRow>)
    ensures
        r@.map_values(|t: TableRow| t@) == rows_of(text_lines(csv@)),
{
    let all = lines(csv);
    let ghost seen = text_lines(csv@);
    let mut out: Vec<TableRow> = Vec::new();
    let mut i: usize = 0;
    assert(out@.map_values(|t: TableRow| t@) =~= rows_of(seen.take(0)));
    while i < all.len()
        invariant
            i <= all@.len(),
            seen == texts(all@),
            out@.map_values(|t: TableRow| t@) == rows_of(seen.take(i as int)),
        decreases all@.len() - i,
    {
        let ghost was = out@.map_values(|t: TableRow| t@);
        assert(seen.take(i + 1).drop_last() =~= seen.take(i as int));
        assert(seen.take(i + 1).last() == all@[i as int]@);
        if let Some(row) = parse_row(all[i].as_str()) {
            let ghost val = row@;
            out.push(row);
            assert(out@.map_values(|t: TableRow| t@) =~= was.push(val));
        }
        i += 1;
    }
    assert(seen.take(i as int) =~= seen);
    out
}

/// The first position at which `key` stands in a list.
pub open spec fn is_first_at(list: Seq<Seq<char>>, key: Seq<char>, i: int) -> bool {
    &&& 0 <= i < list.len()
    &&& list[i] == key
    &&& forall|j: int| 0 <= j < i ==> #[trigger] list[j] != key
}

fn first_at(list: &Vec<String>, key: &str) -> (r: Option<usize>)
    ensures
        r is None <==> !texts(list@).contains(key@),
        r matches Some(i) ==> is_first_at(texts(list@), key@, i as int),
{
    let mut i: usize = 0;
    while i < list.len()
        invariant
            i <= list@.len(),
            forall|j: int| 0 <= j < i ==> #[trigger] texts(list@)[j] != key@,
        decreases list@.len() - i,
    {
        assert(texts(list@)[i as int] == list@[i as int]@);
        if same(list[i].as_str(), key) {
            assert(texts(list@).contains(key@));
            return Some(i);
        }
        i += 1;
    }
    None
}

/// Why a ZIP code gives no place.
#[derive(Debug, Clone, Copy, PartialEq, Eq, Structural)]
pub enum ZipError {
    /// It is not five digits.
    Malformed,
    /// No place is known for it.
    Unassigned,
}

/// Whether a text is a ZIP code: five digits.
pub open spec fn is_zip(s: Seq<char>) -> bool {
    s.len() == 5 && all_digits(s)
}

/// The position of a ZIP code in a table of them; white space around it does not count.
pub fn coords_for_zip(keys: &Vec<String>, zip: &str) -> (r: Result<usize, ZipError>)
    ensures
        match r {
            Err(ZipError::Malformed) => !is_zip(trim(zip@)),
            Err(ZipError::Unassigned) => is_zip(trim(zip@)) && !texts(keys@).contains(trim(zip@)),
            Ok(i) => is_zip(trim(zip@)) && is_first_at(texts(keys@), trim(zip@), i as int),
        },
{
    let code = trimmed(zip);
    let cs = chars_of(code.as_str());
    if cs.len() != 5 {
        return Err(ZipError::Malformed);
    }
    let mut i: usize = 0;
    while i < 5
        invariant
            i <= 5,
            cs@.len() == 5,
            cs@ == trim(zip@),
            forall|k: int| 0 <= k < i ==> is_digit(#[trigger] cs@[k]),
        decreases 5 - i,
    {
        if cs[i] < '0' || cs[i] > '9' {
            assert(!is_digit(cs@[i as int]));
            return Err(ZipError::Malformed);
        }
        i += 1;
    }
    match first_at(keys, code.as_str()) {
        Some(at) => Ok(at),
        None => Err(ZipError::Unassigned),
    }
}

/// What is said of a ZIP code for which no place is known.
pub fn unassigned_zip(zip: &str) -> (r: String)
    ensures
        r@ == "ZIP "@ + trim(zip@)
            + " has no Census ZCTA centroid; set lat and lon explicitly in the config instead"@,
{
    let code = trimmed(zip);
    let mut out = "ZIP ".to_owned();
    out.append(code.as_str());
    out.append(" has no Census ZCTA centroid; set lat and lon explicitly in the config instead");
    out
}

/// The position of a radar site in a table of ids, whatever the case in which it is asked for.
pub fn radar_site_by_id(ids: &Vec<String>, id: &str) -> (r: Option<usize>)
    ensures
        r is None <==> !texts(ids@).contains(ascii_upper(trim(id@))),
        r matches Some(i) ==> is_first_at(texts(ids@), ascii_upper(trim(id@)), i as int),
{
    let bare = trimmed(id);
    let want = uppercased(bare.as_str());
    first_at(ids, want.as_str())
}

/// The nearest radar site, given how far each is: the bit patterns of doubles, in the total
/// order. The first is taken of those equally near; without sites there is none.
pub fn nearest_radar_site(distances: &Vec<u64>) -> (r: Option<usize>)
    ensures
        r is None <==> distances@.len() == 0,
        r matches Some(i) ==> is_least(distances@, i as int),
{
    least(distances)
}

/// Why no radar site could be picked.
#[derive(Debug, Clone, Copy, PartialEq, Eq, Structural)]
pub enum SiteError {
    /// The table is empty.
    NoSite,
    /// The site asked for is not in the table.
    Unknown,
}

/// Whether the nearest site is asked for.
pub open spec fn asks_nearest(setting: Seq<char>) -> bool {
    ascii_upper(setting) == ascii_upper("auto"@)
}

/// The radar site to use: the nearest, by its distance, or the one asked for by id.
pub fn resolve_site(setting: &str, ids: &Vec<String>, distances: &Vec<u64>) -> (r: Result<
    usize,
    SiteError,
>)
    requires
        distances@.len() == ids@.len(),
    ensures
        match r {
            Ok(i) => if asks_nearest(setting@) {
                is_least(distances@, i as int)
            } else {
                is_first_at(texts(ids@), ascii_upper(trim(setting@)), i as int)
            },
            Err(SiteError::NoSite) => asks_nearest(setting@) && ids@.len() == 0,
            Err(SiteError::Unknown) => !asks_nearest(setting@) && !texts(ids@).contains(
                ascii_upper(trim(setting@)),
            ),
        },
{
    if same_ignoring_case(setting, "auto") {
        match nearest_radar_site(distances) {
            Some(i) => Ok(i),
            None => Err(SiteError::NoSite),
        }
    } else {
        match radar_site_by_id(ids, setting) {
            Some(i) => Ok(i),
            None => Err(SiteError::Unknown),
        }
    }
}

/// The name of a compass point, sixteen to the circle, clockwise from north.
pub open spec fn point_name(sector: int) -> Seq<char> {
    let k = sector % 16;
    if k == 0 {
        "N"@
    } else if k == 1 {
        "NNE"@
    } else if k == 2 {
        "NE"@
    } else if k == 3 {
        "ENE"@
    } else if k == 4 {
        "E"@
    } else if k == 5 {
        "ESE"@
    } else if k == 6 {
        "SE"@
    } else if k == 7 {
        "SSE"@
    } else if k == 8 {
        "S"@
    } else if k == 9 {
        "SSW"@
    } else if k == 10 {
        "SW"@
    } else if k == 11 {
        "WSW"@
    } else if k == 12 {
        "W"@
    } else if k == 13 {
        "WNW"@
    } else if k == 14 {
        "NW"@
    } else {
        "NNW"@
    }
}

/// The name of the compass point of a sector: the number of sixteenths of a circle from north,
/// to the nearest, clockwise.
pub fn compass_16(sector: u64) -> (r: &'static str)
    ensures
        r@ == point_name(sector as int),
{
    let k: u64 = sector % 16;
    if k == 0 {
        "N"
    } else if k == 1 {
        "NNE"
    } else if k == 2 {
        "NE"
    } else if k == 3 {
        "ENE"
    } else if k == 4 {
        "E"
    } else if k == 5 {
        "ESE"
    } else if k == 6 {
        "SE"
    } else if k == 7 {
        "SSE"
    } else if k == 8 {
        "S"
    } else if k == 9 {
        "SSW"
    } else if k == 10 {
        "SW"
    } else if k == 11 {
        "WSW"
    } else if k == 12 {
        "W"
    } else if k == 13 {
        "WNW"
    } else if k == 14 {
        "NW"
    } else {
        "NNW"
    }
}

/// A row reads back as it is written: the key, the latitude and the longitude between commas, each
/// without the white space around it, whatever follows.
pub proof fn law_row_reads_back(
    key: Seq<char>,
    lat: Seq<char>,
    lon: Seq<char>,
    rest: Seq<char>,
)
    requires
        !key.contains(','),
        !lat.contains(','),
        !lon.contains(','),
        trim(key).len() > 0,
    ensures
        row_of(key + seq![','] + (lat + seq![','] + lon)) == Some(
            Row { key: trim(key), lat: trim(lat), lon: trim(lon) },
        ),
        row_of(key + seq![','] + (lat + seq![','] + (lon + seq![','] + rest))) == Some(
            Row { key: trim(key), lat: trim(lat), lon: trim(lon) },
        ),
        row_of(key) is None,
        row_of(key + seq![','] + lat) is None,
{
    law_first_field_ends_at_the_separator(key, ',', lat + seq![','] + lon);
    law_first_field_ends_at_the_separator(key, ',', lat + seq![','] + (lon + seq![','] + rest));
    law_first_field_ends_at_the_separator(key, ',', lat);
    law_first_field_ends_at_the_separator(lat, ',', lon);
    law_first_field_ends_at_the_separator(lat, ',', lon + seq![','] + rest);
    law_first_field_ends_at_the_separator(lon, ',', rest);
    let short = split_on(key + seq![','] + (lat + seq![','] + lon), ',');
    assert(short =~= seq![key, lat, lon]);
    let long = split_on(key + seq![','] + (lat + seq![','] + (lon + seq![','] + rest)), ',');
    assert(long =~= seq![key, lat, lon] + split_on(rest, ','));
    assert(long[0] == key && long[1] == lat && long[2] == lon);
}

/// The rows of two lists of lines, one after the other, are those of the first and then those of
/// the second; a line that is no row leaves no trace.
pub proof fn law_rows_keep_their_order(a: Seq<Seq<char>>, b: Seq<Seq<char>>, line: Seq<char>)
    ensures
        rows_of(a + b) == rows_of(a) + rows_of(b),
        rows_of(seq![line]) == (match row_of(line) {
            Some(row) => seq![row],
            None => Seq::empty(),
        }),
    decreases b.len(),
{
    reveal_with_fuel(rows_of, 2);
    assert(seq![line].drop_last() =~= Seq::<Seq<char>>::empty());
    assert(rows_of(seq![line]) =~= (match row_of(line) {
        Some(row) => seq![row],
        None => Seq::empty(),
    }));
    if b.len() == 0 {
        assert(a + b =~= a);
        assert(rows_of(a) + rows_of(b) =~= rows_of(a));
    } else {
        law_rows_keep_their_order(a, b.drop_last(), line);
        assert((a + b).drop_last() =~= a + b.drop_last());
        assert((a + b).last() == b.last());
        assert(rows_of(a + b) =~= rows_of(a) + rows_of(b));
    }
}

/// The letter for the other way.
pub open spec fn other_way(c: char) -> char {
    if c == 'N' {
        'S'
    } else if c == 'S' {
        'N'
    } else if c == 'E' {
        'W'
    } else {
        'E'
    }
}

/// The letter as a mirror shows it that swaps east and west.
pub open spec fn mirrored(c: char) -> char {
    if c == 'E' {
        'W'
    } else if c == 'W' {
        'E'
    } else {
        c
    }
}

/// The first quarter of the compass goes from north by NNE, NE and ENE to east, the names on the
/// other side are those with every letter turned round, and those to the west mirror those to the
/// east.
pub proof fn law_compass_is_symmetric(sector: int)
    requires
        0 <= sector < 16,
    ensures
        sector == 0 ==> point_name(sector) == "N"@,
        sector == 1 ==> point_name(sector) == "NNE"@,
        sector == 2 ==> point_name(sector) == "NE"@,
        sector == 3 ==> point_name(sector) == "ENE"@,
        sector == 4 ==> point_name(sector) == "E"@,
        point_name(sector + 8) == point_name(sector).map_values(|c: char| other_way(c)),
        point_name(16 - sector) == point_name(sector).map_values(|c: char| mirrored(c)),
        point_name(sector + 16) == point_name(sector),
{
    reveal_strlit("N");
    reveal_strlit("NNE");
    reveal_strlit("NE");
    reveal_strlit("ENE");
    reveal_strlit("E");
    reveal_strlit("ESE");
    reveal_strlit("SE");
    reveal_strlit("SSE");
    reveal_strlit("S");
    reveal_strlit("SSW");
    reveal_strlit("SW");
    reveal_strlit("WSW");
    reveal_strlit("W");
    reveal_strlit("WNW");
    reveal_strlit("NW");
    reveal_strlit("NNW");
    let name = point_name(sector);
    let across = point_name(sector + 8);
    let beside = point_name(16 - sector);
    assert(sector % 16 == sector);
    assert((sector + 8) % 16 == if sector < 8 {
        sector + 8
    } else {
        sector - 8
    });
    assert((16 - sector) % 16 == if sector == 0 {
        0
    } else {
        16 - sector
    });
    assert(across =~= name.map_values(|c: char| other_way(c)));
    assert(beside =~= name.map_values(|c: char| mirrored(c)));
}

/// The nearest site is asked for by the word `auto` in whatever case, and by no other.
pub proof fn law_auto_asks_for_the_nearest(setting: Seq<char>)
    ensures
        asks_nearest(setting) <==> ascii_upper(setting) == "AUTO"@,
{
    reveal_strlit("auto");
    reveal_strlit("AUTO");
    assert(ascii_upper("auto"@) =~= "AUTO"@);
}

/// A ZIP code is five digits and nothing else.
pub proof fn law_zip_is_five_digits(s: Seq<char>, i: int)
    ensures
        is_zip(s) ==> s.len() == 5,
        is_zip(s) && 0 <= i < 5 ==> '0' <= s[i] <= '9',
        s.len() == 5 && (forall|k: int| 0 <= k < 5 ==> '0' <= (#[trigger] s[k]) <= '9') ==> is_zip(
            s,
        ),
{
    if is_zip(s) && 0 <= i < 5 {
        assert(is_digit(s[i]));
    }
}

} // verus!
