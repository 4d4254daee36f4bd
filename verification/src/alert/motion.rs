//! Storm motion, from an alert's motion description.
//!
//! ```text
//! 2026-07-27T07:00:00-00:00...storm...319DEG...30KT...46.93,-91.76
//! ```
//!
//! The degrees are where the storm comes from. Its heading is the opposite: a storm at 319DEG
//! travels toward 139. Reading one for the other reports an inbound storm as departing.

use vstd::prelude::*;
use crate::geo::Coords;
#[allow(unused_imports)]
use crate::ieee::{above64, at_least64, ge64, gt64, is_least, least};
#[allow(unused_imports)]
use crate::text::{
    before_suffix, join, law_joining_undoes_splitting_at_a_part, opt_text, split, split_from, split_on, split_text, strip_suffix, texts, trim,
    trimmed,
};
#[allow(unused_imports)]
use crate::time::{parse_timestamp, rfc3339_moment, stamp_of, toward_zero, Stamp};

verus! {

/// 360 degrees.
pub const FULL_CIRCLE: u64 = 0x4076_8000_0000_0000;

/// 90 degrees.
pub const RIGHT_ANGLE: u64 = 0x4056_8000_0000_0000;

/// Why a text does not describe a motion.
#[derive(Debug, Clone, Copy, PartialEq, Eq, Structural)]
pub enum MotionError {
    /// There are fewer than five segments.
    Segments,
    /// The first segment is no timestamp.
    Timestamp,
    /// The third segment does not end in `DEG`.
    BearingSuffix,
    /// The bearing is no number.
    Bearing,
    /// The bearing is not within a circle.
    BearingRange,
    /// The fourth segment does not end in `KT`.
    SpeedSuffix,
    /// The speed is no number.
    Speed,
    /// The speed is negative.
    NegativeSpeed,
    /// The coordinates are missing or do not come in pairs.
    Coordinates,
}

/// How a storm moves. Bearing and speed are bit patterns of doubles.
#[derive(Debug, Clone)]
pub struct StormMotion {
    pub observed_at: Stamp,
    pub from_bearing_deg: u64,
    pub speed_kt: u64,
    pub track: Vec<Coords>,
}

/// What a motion description says.
pub struct Motion {
    pub observed_at: Stamp,
    pub from_bearing_deg: u64,
    pub speed_kt: u64,
    pub track: Seq<Coords>,
}

impl View for StormMotion {
    type V = Motion;

    open spec fn view(&self) -> Motion {
        Motion {
            observed_at: self.observed_at,
            from_bearing_deg: self.from_bearing_deg,
            speed_kt: self.speed_kt,
            track: self.track@,
        }
    }
}

/// The segments of a description.
pub open spec fn motion_segments(raw: Seq<char>) -> Seq<Seq<char>> {
    split_from(trim(raw), "..."@, 0)
}

/// The numbers that could be read, in order.
pub open spec fn readable_numbers(list: Seq<Option<u64>>) -> Seq<u64>
    decreases list.len(),
{
    if list.len() == 0 {
        Seq::empty()
    } else {
        match list.last() {
            Some(v) => readable_numbers(list.drop_last()).push(v),
            None => readable_numbers(list.drop_last()),
        }
    }
}

/// Numbers taken in pairs as latitude and longitude.
pub open spec fn in_pairs(numbers: Seq<u64>) -> Seq<Coords> {
    Seq::new(
        (numbers.len() / 2) as nat,
        |i: int| Coords { lat: numbers[2 * i], lon: numbers[2 * i + 1] },
    )
}

/// What a description says, given its segments and the readings of its timestamp and its
/// numerals; what is wrong with it, where something is.
pub open spec fn motion_reading(
    segments: Seq<Seq<char>>,
    observed_at: Option<Stamp>,
    bearing: Option<u64>,
    speed: Option<u64>,
    coordinates: Seq<Option<u64>>,
) -> Result<Motion, MotionError> {
    let numbers = readable_numbers(coordinates);
    if segments.len() < 5 {
        Err(MotionError::Segments)
    } else if observed_at is None {
        Err(MotionError::Timestamp)
    } else if before_suffix(trim(segments[2]), "DEG"@) is None {
        Err(MotionError::BearingSuffix)
    } else if bearing is None {
        Err(MotionError::Bearing)
    } else if !(ge64(bearing->0, 0) && gt64(FULL_CIRCLE, bearing->0)) {
        Err(MotionError::BearingRange)
    } else if before_suffix(trim(segments[3]), "KT"@) is None {
        Err(MotionError::SpeedSuffix)
    } else if speed is None {
        Err(MotionError::Speed)
    } else if gt64(0, speed->0) {
        Err(MotionError::NegativeSpeed)
    } else if numbers.len() == 0 || numbers.len() % 2 != 0 {
        Err(MotionError::Coordinates)
    } else {
        Ok(
            Motion {
                observed_at: observed_at->0,
                from_bearing_deg: bearing->0,
                speed_kt: speed->0,
                track: in_pairs(numbers),
            },
        )
    }
}

/// The numerals of a description, which are to be read as doubles.
#[derive(Debug, Clone)]
pub struct MotionNumerals {
    pub bearing: Option<String>,
    pub speed: Option<String>,
    pub coordinates: Vec<String>,
}

/// Whether `r` is what was read: the same motion, or the same error.
pub open spec fn is_reading(
    r: Result<StormMotion, MotionError>,
    said: Result<Motion, MotionError>,
) -> bool {
    match r {
        Ok(m) => said == Ok::<Motion, MotionError>(m@),
        Err(e) => said == Err::<Motion, MotionError>(e),
    }
}

impl StormMotion {
    /// The segments of a description.
    pub fn segments(raw: &str) -> (r: Vec<String>)
        ensures
            texts(r@) == motion_segments(raw@),
    {
        proof {
            reveal_strlit("...");
        }
        let body = trimmed(raw);
        split_text(body.as_str(), "...")
    }

    /// The numerals of a description: the bearing and the speed without their units, and the
    /// coordinates.
    pub fn numerals(raw: &str) -> (r: MotionNumerals)
        ensures
            ({
                let s = motion_segments(raw@);
                if s.len() < 5 {
                    r.bearing is None && r.speed is None && r.coordinates@.len() == 0
                } else {
                    &&& opt_text(r.bearing) == before_suffix(trim(s[2]), "DEG"@)
                    &&& opt_text(r.speed) == before_suffix(trim(s[3]), "KT"@)
                    &&& texts(r.coordinates@) == split_on(s[4], ',').map_values(
                        |f: Seq<char>| trim(f),
                    )
                }
            }),
    {
        let s = StormMotion::segments(raw);
        let ghost all = motion_segments(raw@);
        assert(all.len() == s@.len());
        if s.len() < 5 {
            return MotionNumerals { bearing: None, speed: None, coordinates: Vec::new() };
        }
        assert(all[2] == s@[2]@);
        assert(all[3] == s@[3]@);
        assert(all[4] == s@[4]@);
        let deg_field = trimmed(s[2].as_str());
        let kt_field = trimmed(s[3].as_str());
        let fields = split(s[4].as_str(), ',');
        let mut coordinates: Vec<String> = Vec::new();
        let mut i: usize = 0;
        while i < fields.len()
            invariant
                i <= fields@.len(),
                i == coordinates@.len(),
                forall|k: int|
                    0 <= k < i ==> (#[trigger] coordinates@[k])@ == trim(fields@[k]@),
            decreases fields@.len() - i,
        {
            let f = trimmed(fields[i].as_str());
            coordinates.push(f);
            i += 1;
        }
        assert(texts(coordinates@) =~= split_on(all[4], ',').map_values(|f: Seq<char>| trim(f)))
            by {
            assert forall|k: int| 0 <= k < fields@.len() implies split_on(all[4], ',')[k] == (
            #[trigger] fields@[k])@ by {
                assert(texts(fields@)[k] == fields@[k]@);
            }
        }
        MotionNumerals {
            bearing: strip_suffix(deg_field.as_str(), "DEG"),
            speed: strip_suffix(kt_field.as_str(), "KT"),
            coordinates,
        }
    }

    /// The motion that segments describe, given the readings of the timestamp and of the
    /// numerals as doubles, none for one that is no number.
    pub fn from_segments(
        segments: &Vec<String>,
        observed_at: Option<Stamp>,
        bearing: Option<u64>,
        speed: Option<u64>,
        coordinates: &Vec<Option<u64>>,
    ) -> (r: Result<StormMotion, MotionError>)
        ensures
            is_reading(
                r,
                motion_reading(texts(segments@), observed_at, bearing, speed, coordinates@),
            ),
            r matches Ok(m) ==> {
                let numbers = readable_numbers(coordinates@);
                &&& observed_at == Some(m.observed_at)
                &&& bearing == Some(m.from_bearing_deg)
                &&& speed == Some(m.speed_kt)
                &&& numbers.len() == 2 * m.track@.len()
                &&& forall|i: int|
                    0 <= i < m.track@.len() ==> (#[trigger] m.track@[i]).lat == numbers[2 * i]
                        && m.track@[i].lon == numbers[2 * i + 1]
            },
    {
        let ghost all = texts(segments@);
        if segments.len() < 5 {
            return Err(MotionError::Segments);
        }
        assert(all[2] == segments@[2]@);
        assert(all[3] == segments@[3]@);
        let observed_at: Stamp = match observed_at {
            Some(t) => t,
            None => {
                return Err(MotionError::Timestamp);
            },
        };
        let deg_field = trimmed(segments[2].as_str());
        if strip_suffix(deg_field.as_str(), "DEG").is_none() {
            return Err(MotionError::BearingSuffix);
        }
        let from_bearing_deg: u64 = match bearing {
            Some(b) => b,
            None => {
                return Err(MotionError::Bearing);
            },
        };
        if !(at_least64(from_bearing_deg, 0) && above64(FULL_CIRCLE, from_bearing_deg)) {
            return Err(MotionError::BearingRange);
        }
        let kt_field = trimmed(segments[3].as_str());
        if strip_suffix(kt_field.as_str(), "KT").is_none() {
            return Err(MotionError::SpeedSuffix);
        }
        let speed_kt: u64 = match speed {
            Some(v) => v,
            None => {
                return Err(MotionError::Speed);
            },
        };
        if above64(0, speed_kt) {
            return Err(MotionError::NegativeSpeed);
        }
        let mut numbers: Vec<u64> = Vec::new();
        let mut i: usize = 0;
        while i < coordinates.len()
            invariant
                i <= coordinates@.len(),
                numbers@ == readable_numbers(coordinates@.take(i as int)),
            decreases coordinates@.len() - i,
        {
            assert(coordinates@.take(i + 1).drop_last() =~= coordinates@.take(i as int));
            if let Some(v) = coordinates[i] {
                numbers.push(v);
            }
            i += 1;
        }
        assert(coordinates@.take(i as int) =~= coordinates@);
        let n: usize = numbers.len();
        if n == 0 || n % 2 != 0 {
            return Err(MotionError::Coordinates);
        }
        let mut track: Vec<Coords> = Vec::new();
        let mut k: usize = 0;
        while k < n / 2
            invariant
                n == numbers@.len(),
                k <= n / 2,
                k == track@.len(),
                forall|j: int|
                    0 <= j < k ==> #[trigger] track@[j] == (Coords {
                        lat: numbers@[2 * j],
                        lon: numbers@[2 * j + 1],
                    }),
            decreases n / 2 - k,
        {
            track.push(Coords { lat: numbers[2 * k], lon: numbers[2 * k + 1] });
            k += 1;
        }
        assert(track@ =~= in_pairs(numbers@));
        Ok(StormMotion { observed_at, from_bearing_deg, speed_kt, track })
    }

    /// The motion that a text describes, given the readings of its numerals as doubles, none
    /// for one that is no number.
    pub fn parse(
        raw: &str,
        bearing: Option<u64>,
        speed: Option<u64>,
        coordinates: &Vec<Option<u64>>,
    ) -> (r: Result<StormMotion, MotionError>)
        ensures
            ({
                let s = motion_segments(raw@);
                let observed = if s.len() == 0 {
                    None
                } else {
                    stamp_of(rfc3339_moment(trim(s[0])))
                };
                is_reading(r, motion_reading(s, observed, bearing, speed, coordinates@))
            }),
    {
        let s = StormMotion::segments(raw);
        let ghost all = motion_segments(raw@);
        assert(all.len() == s@.len());
        let observed_at: Option<Stamp> = if s.len() == 0 {
            None
        } else {
            assert(all[0] == s@[0]@);
            let first = trimmed(s[0].as_str());
            parse_timestamp(first.as_str())
        };
        StormMotion::from_segments(&s, observed_at, bearing, speed, coordinates)
    }

    /// The point of the track nearest a target, given how far each is from it: the bit patterns
    /// of doubles, in the total order. The first is taken of those equally near.
    pub fn closest_track_point(&self, distances: &Vec<u64>) -> (r: Option<Coords>)
        requires
            distances@.len() == self.track@.len(),
        ensures
            r is None <==> self.track@.len() == 0,
            r matches Some(p) ==> exists|i: int| #[trigger]
                is_least(distances@, i) && p == self.track@[i],
    {
        match least(distances) {
            Some(i) => Some(self.track[i]),
            None => None,
        }
    }

    /// The time until the storm arrives, in seconds: none where it does not move, has no
    /// track, or does not close in. `offset_deg` is the angle between its heading and the
    /// direction to the target from the nearest point of its track, `secs` the time to cover
    /// the way along its heading, rounded.
    pub fn eta_to(&self, offset_deg: u64, secs: i64) -> (r: Option<i64>)
        ensures
            r == (if ge64(0, self.speed_kt) || self.track@.len() == 0 || ge64(
                offset_deg,
                RIGHT_ANGLE,
            ) || !(-(i64::MAX / 1000) <= secs <= i64::MAX / 1000) {
                None
            } else {
                Some(secs)
            }),
            ge64(offset_deg, 0x4056_8000_0000_0000) ==> r is None,
            ge64(0, self.speed_kt) ==> r is None,
            r matches Some(s) ==> s == secs,
    {
        if at_least64(0, self.speed_kt) {
            return None;
        }
        if self.track.len() == 0 {
            return None;
        }
        if at_least64(offset_deg, RIGHT_ANGLE) {
            return None;
        }
        let most: i64 = i64::MAX / 1000;
        if secs > most || secs < -most {
            return None;
        }
        Some(secs)
    }
}

/// Whole minutes in a number of seconds, rounded toward zero.
pub fn whole_minutes(secs: i64) -> (r: i64)
    ensures
        r == toward_zero(secs as int, 60),
{
    if secs < 0 {
        let back: i128 = -(secs as i128);
        let minutes: i128 = back / 60;
        -(minutes as i64)
    } else {
        secs / 60
    }
}

/// A description that is read has a track, a bearing within a circle and a speed that is not
/// negative.
pub proof fn law_motion_is_usable(
    segments: Seq<Seq<char>>,
    observed_at: Option<Stamp>,
    bearing: Option<u64>,
    speed: Option<u64>,
    coordinates: Seq<Option<u64>>,
)
    requires
        motion_reading(segments, observed_at, bearing, speed, coordinates) is Ok,
    ensures
        ({
            let m = motion_reading(segments, observed_at, bearing, speed, coordinates)->Ok_0;
            &&& m.track.len() >= 1
            &&& ge64(m.from_bearing_deg, 0)
            &&& gt64(FULL_CIRCLE, m.from_bearing_deg)
            &&& !gt64(0, m.speed_kt)
        }),
{
}

/// The numbers of a track, point by point: the latitude of each and then its longitude.
pub open spec fn laid_out(track: Seq<Coords>) -> Seq<u64>
    decreases track.len(),
{
    if track.len() == 0 {
        Seq::empty()
    } else {
        laid_out(track.drop_last()) + seq![track.last().lat, track.last().lon]
    }
}

proof fn lemma_pairs_lie_out(numbers: Seq<u64>, n: int)
    requires
        0 <= 2 * n <= numbers.len(),
    ensures
        laid_out(in_pairs(numbers).take(n)) == numbers.take(2 * n),
    decreases n,
{
    let points = in_pairs(numbers);
    if n > 0 {
        lemma_pairs_lie_out(numbers, n - 1);
        assert(points.take(n).drop_last() =~= points.take(n - 1));
        assert(laid_out(points.take(n)) =~= numbers.take(2 * n));
    } else {
        assert(points.take(n) =~= Seq::<Coords>::empty());
        assert(laid_out(points.take(n)) =~= numbers.take(2 * n));
    }
}

/// A motion that is read says what the description does: its moment, its bearing and its speed as
/// they are, and a track that, laid out again, is the list of the numbers read. Each number is
/// used once and in order: the even ones are latitudes and each next one the longitude of the
/// same point.
pub proof fn law_track_is_the_numbers_read(
    segments: Seq<Seq<char>>,
    observed_at: Option<Stamp>,
    bearing: Option<u64>,
    speed: Option<u64>,
    coordinates: Seq<Option<u64>>,
)
    requires
        motion_reading(segments, observed_at, bearing, speed, coordinates) is Ok,
    ensures
        ({
            let m = motion_reading(segments, observed_at, bearing, speed, coordinates)->Ok_0;
            let numbers = readable_numbers(coordinates);
            &&& observed_at == Some(m.observed_at)
            &&& bearing == Some(m.from_bearing_deg)
            &&& speed == Some(m.speed_kt)
            &&& laid_out(m.track) == numbers
            &&& 2 * m.track.len() == numbers.len()
            &&& forall|i: int|
                0 <= i < m.track.len() ==> (#[trigger] m.track[i]).lat == numbers[2 * i]
                    && m.track[i].lon == numbers[2 * i + 1]
        }),
{
    let m = motion_reading(segments, observed_at, bearing, speed, coordinates)->Ok_0;
    let numbers = readable_numbers(coordinates);
    let n = m.track.len() as int;
    lemma_pairs_lie_out(numbers, n);
    assert(m.track.take(n) =~= m.track);
    assert(numbers.take(2 * n) =~= numbers);
}

/// The numbers read of two lists, one after the other, are those of the first and then those of
/// the second: none is lost, moved or made up. One that cannot be read leaves no trace.
pub proof fn law_numbers_are_read_in_order(
    a: Seq<Option<u64>>,
    b: Seq<Option<u64>>,
    v: u64,
)
    ensures
        readable_numbers(a + b) == readable_numbers(a) + readable_numbers(b),
        readable_numbers(seq![Some(v)]) == seq![v],
        readable_numbers(seq![None::<u64>]).len() == 0,
    decreases b.len(),
{
    reveal_with_fuel(readable_numbers, 2);
    let one = seq![Some(v)];
    assert(one.drop_last() =~= Seq::<Option<u64>>::empty());
    assert(readable_numbers(one) =~= seq![v]);
    let none = seq![None::<u64>];
    assert(none.drop_last() =~= Seq::<Option<u64>>::empty());
    if b.len() == 0 {
        assert(a + b =~= a);
        assert(readable_numbers(a) + readable_numbers(b) =~= readable_numbers(a));
    } else {
        law_numbers_are_read_in_order(a, b.drop_last(), v);
        assert((a + b).drop_last() =~= a + b.drop_last());
        assert((a + b).last() == b.last());
        assert(readable_numbers(a + b) =~= readable_numbers(a) + readable_numbers(b));
    }
}

/// A description is read exactly where it has five segments, a moment, a bearing in degrees that
/// lies within a circle, a speed in knots that is not negative, and coordinates in pairs.
pub proof fn law_motion_is_read_exactly_where_it_is_whole(
    segments: Seq<Seq<char>>,
    observed_at: Option<Stamp>,
    bearing: Option<u64>,
    speed: Option<u64>,
    coordinates: Seq<Option<u64>>,
)
    ensures
        motion_reading(segments, observed_at, bearing, speed, coordinates) is Ok <==> {
            &&& segments.len() >= 5
            &&& observed_at is Some
            &&& before_suffix(trim(segments[2]), "DEG"@) is Some
            &&& bearing matches Some(b) && ge64(b, 0) && gt64(0x4076_8000_0000_0000, b)
            &&& before_suffix(trim(segments[3]), "KT"@) is Some
            &&& speed matches Some(v) && !gt64(0, v)
            &&& readable_numbers(coordinates).len() >= 2
            &&& readable_numbers(coordinates).len() % 2 == 0
        },
{
}

/// The segments of a description with the dots between them are the description again, but for the
/// white space around it.
pub proof fn law_segments_are_the_description(raw: Seq<char>)
    ensures
        motion_segments(raw).len() >= 1,
        join(motion_segments(raw), "..."@) == trim(raw),
{
    reveal_strlit("...");
    law_joining_undoes_splitting_at_a_part(trim(raw), "..."@, 0);
    assert(trim(raw).skip(0) =~= trim(raw));
}

} // verus!
