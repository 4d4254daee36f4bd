//! County borders.

use vstd::prelude::*;
#[allow(unused_imports)]
use vstd::string::StringExecFns;
#[allow(unused_imports)]
use crate::alert::{Geometry, Ring};
#[allow(unused_imports)]
use crate::config::path_join;
use crate::config::path_joined;
#[allow(unused_imports)]
use crate::text::{chars_of, lemma_split_fields, opt_text, split, split_on, string_of, texts};

verus! {

/// The borders of the counties of a state.
#[derive(Debug, Clone)]
pub struct CountyMap {
    pub state: String,
    pub rings: Vec<Ring>,
}

/// The state in the id of a county zone: its first two characters, where both are capital
/// letters.
pub open spec fn state_in(id: Seq<char>) -> Option<Seq<char>> {
    if id.len() >= 2 && 'A' <= id[0] <= 'Z' && 'A' <= id[1] <= 'Z' {
        Some(id.take(2))
    } else {
        None
    }
}

/// The state of a county zone, from the id at the end of its address, such as
/// `https://api.weather.gov/zones/county/TNC081`; none where the address does not end in one.
pub fn state_of(county_zone_url: &str) -> (r: Option<String>)
    ensures
        opt_text(r) == state_in(split_on(county_zone_url@, '/').last()),
{
    let parts = split(county_zone_url, '/');
    proof {
        lemma_split_fields(county_zone_url@, '/');
    }
    let last: usize = parts.len() - 1;
    assert(texts(parts@)[last as int] == parts@[last as int]@);
    let cs = chars_of(parts[last].as_str());
    if cs.len() < 2 || cs[0] < 'A' || cs[0] > 'Z' || cs[1] < 'A' || cs[1] > 'Z' {
        return None;
    }
    let r = string_of(&cs, 0, 2);
    assert(r@ =~= cs@.take(2));
    Some(r)
}

/// The file in which the borders of a state are kept.
pub open spec fn cache_file(
    cache_home: Option<Seq<char>>,
    home: Option<Seq<char>>,
    state: Seq<char>,
) -> Option<Seq<char>> {
    let base = match cache_home {
        Some(dir) => Some(dir),
        None => match home {
            Some(h) => Some(path_join(h, ".cache"@)),
            None => None,
        },
    };
    match base {
        Some(b) => Some(path_join(path_join(b, "weatui"@), "counties-"@ + state + ".json"@)),
        None => None,
    }
}

/// The characters of an optional string slice.
pub open spec fn slice_text(o: Option<&str>) -> Option<Seq<char>> {
    match o {
        Some(s) => Some(s@),
        None => None,
    }
}

/// The file in which the borders of a state are kept, given the values of `XDG_CACHE_HOME`
/// and `HOME`; none where neither is set.
pub fn cache_path(cache_home: Option<&str>, home: Option<&str>, state: &str) -> (r: Option<String>)
    ensures
        opt_text(r) == cache_file(slice_text(cache_home), slice_text(home), state@),
{
    let base = match cache_home {
        Some(dir) => dir.to_owned(),
        None => match home {
            Some(h) => path_joined(h, ".cache"),
            None => {
                return None;
            },
        },
    };
    let dir = path_joined(base.as_str(), "weatui");
    let mut file = "counties-".to_owned();
    file.append(state);
    file.append(".json");
    Some(path_joined(dir.as_str(), file.as_str()))
}

/// Where the list of a state's counties is found.
pub fn county_list_url(state: &str) -> (r: String)
    ensures
        r@ == "https://api.weather.gov/zones?type=county&area="@ + state@,
{
    let mut out = "https://api.weather.gov/zones?type=county&area=".to_owned();
    out.append(state);
    out
}

/// Where the border of a county is found.
pub fn county_url(id: &str) -> (r: String)
    ensures
        r@ == "https://api.weather.gov/zones/county/"@ + id@,
{
    let mut out = "https://api.weather.gov/zones/county/".to_owned();
    out.append(id);
    out
}

/// The positions of the outer rings of each county that has a border, in order.
pub open spec fn borders(counties: Seq<Option<Geometry>>) -> Seq<Seq<(u64, u64)>>
    decreases counties.len(),
{
    if counties.len() == 0 {
        Seq::empty()
    } else {
        let before = borders(counties.drop_last());
        match counties.last() {
            Some(g) => before + g.outer().map_values(|r: Ring| r@),
            None => before,
        }
    }
}

fn copy_ring(ring: &Ring) -> (r: Ring)
    ensures
        r@ == ring@,
{
    let mut out: Ring = Vec::new();
    let mut i: usize = 0;
    while i < ring.len()
        invariant
            i <= ring@.len(),
            out@ == ring@.take(i as int),
        decreases ring@.len() - i,
    {
        out.push(ring[i]);
        i += 1;
        assert(out@ =~= ring@.take(i as int));
    }
    assert(ring@.take(i as int) =~= ring@);
    out
}

/// The map of a state from the borders of its counties; none where no county has one.
pub fn gather(state: &str, counties: &Vec<Option<Geometry>>) -> (r: Option<CountyMap>)
    ensures
        r is Some <==> borders(counties@).len() > 0,
        r matches Some(map) ==> map.state@ == state@ && map.rings@.map_values(|x: Ring| x@)
            == borders(counties@),
{
    let mut rings: Vec<Ring> = Vec::new();
    let mut i: usize = 0;
    assert(rings@.map_values(|x: Ring| x@) =~= borders(counties@.take(0)));
    while i < counties.len()
        invariant
            i <= counties@.len(),
            rings@.map_values(|x: Ring| x@) == borders(counties@.take(i as int)),
        decreases counties@.len() - i,
    {
        assert(counties@.take(i + 1).drop_last() =~= counties@.take(i as int));
        assert(counties@.take(i + 1).last() == counties@[i as int]);
        if let Some(g) = &counties[i] {
            let outer = g.outer_rings();
            let ghost base = borders(counties@.take(i as int));
            let ghost found = g.outer().map_values(|r: Ring| r@);
            let mut j: usize = 0;
            assert(base + found.take(0) =~= base);
            while j < outer.len()
                invariant
                    j <= outer@.len(),
                    outer@.map_values(|x: &Ring| *x) == g.outer(),
                    found == g.outer().map_values(|r: Ring| r@),
                    rings@.map_values(|x: Ring| x@) == base + found.take(j as int),
                decreases outer@.len() - j,
            {
                let ghost was = rings@.map_values(|x: Ring| x@);
                let ring = copy_ring(outer[j]);
                assert(g.outer()[j as int] == *outer@[j as int]);
                assert(found[j as int] == ring@);
                rings.push(ring);
                assert(rings@.map_values(|x: Ring| x@) =~= was.push(ring@));
                assert(found.take(j + 1) =~= found.take(j as int).push(ring@));
                assert(base + found.take(j + 1) =~= (base + found.take(j as int)).push(ring@));
                j += 1;
            }
            assert(found.take(j as int) =~= found) by {
                assert(found.len() == outer@.len());
            }
        }
        i += 1;
    }
    assert(counties@.take(i as int) =~= counties@);
    if rings.len() == 0 {
        return None;
    }
    Some(CountyMap { state: state.to_owned(), rings })
}

/// The state of a county is named by the two capital letters with which its id begins, whatever
/// address stands before the id.
pub proof fn law_state_is_read_off_the_id(a: char, b: char, rest: Seq<char>)
    ensures
        'A' <= a <= 'Z' && 'A' <= b <= 'Z' ==> state_in(seq![a, b] + rest) == Some(seq![a, b]),
        !('A' <= a <= 'Z' && 'A' <= b <= 'Z') ==> state_in(seq![a, b] + rest) is None,
        state_in(seq![a]) is None,
{
    assert((seq![a, b] + rest).take(2) =~= seq![a, b]);
}

/// The borders of a state lie in a file of their own under the cache's home, and without one under
/// `.cache` at home.
pub proof fn law_borders_have_a_file_for_each_state(
    cache_home: Seq<char>,
    home: Seq<char>,
    other: Option<Seq<char>>,
    state: Seq<char>,
)
    requires
        cache_home.len() > 0 && cache_home.last() != '/',
        home.len() > 0 && home.last() != '/',
    ensures
        cache_file(Some(cache_home), other, state) == Some(
            cache_home + "/weatui/counties-"@ + state + ".json"@,
        ),
        cache_file(None, Some(home), state) == Some(
            home + "/.cache/weatui/counties-"@ + state + ".json"@,
        ),
        cache_file(None, None, state) is None,
{
    reveal_strlit("/");
    reveal_strlit("weatui");
    reveal_strlit(".cache");
    reveal_strlit("counties-");
    reveal_strlit("/weatui/counties-");
    reveal_strlit("/.cache/weatui/counties-");
    let name = "counties-"@ + state + ".json"@;
    let dir = path_join(cache_home, "weatui"@);
    assert(dir.last() == 'i');
    assert(path_join(dir, name) =~= cache_home + "/weatui/counties-"@ + state + ".json"@);
    let under = path_join(home, ".cache"@);
    assert(under.last() == 'e');
    let there = path_join(under, "weatui"@);
    assert(there.last() == 'i');
    assert(path_join(there, name) =~= home + "/.cache/weatui/counties-"@ + state + ".json"@);
}

/// The borders of two lists of counties, one after the other, are those of the first and then
/// those of the second; a county without a border adds none, and another its outer rings.
pub proof fn law_borders_keep_their_order(
    a: Seq<Option<Geometry>>,
    b: Seq<Option<Geometry>>,
    g: Geometry,
)
    ensures
        borders(a + b) == borders(a) + borders(b),
        borders(seq![Some(g)]) == g.outer().map_values(|r: Ring| r@),
        borders(seq![None::<Geometry>]).len() == 0,
    decreases b.len(),
{
    reveal_with_fuel(borders, 2);
    assert(seq![Some(g)].drop_last() =~= Seq::<Option<Geometry>>::empty());
    assert(borders(seq![Some(g)]) =~= g.outer().map_values(|r: Ring| r@));
    assert(seq![None::<Geometry>].drop_last() =~= Seq::<Option<Geometry>>::empty());
    if b.len() == 0 {
        assert(a + b =~= a);
        assert(borders(a) + borders(b) =~= borders(a));
    } else {
        law_borders_keep_their_order(a, b.drop_last(), g);
        assert((a + b).drop_last() =~= a + b.drop_last());
        assert((a + b).last() == b.last());
        assert(borders(a + b) =~= borders(a) + borders(b));
    }
}

} // verus!
