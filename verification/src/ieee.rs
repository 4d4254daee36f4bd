//! Ordering of IEEE-754 numbers by their bit patterns.
//!
//! Readings cross the library as bit patterns: they are ordered, compared with thresholds
//! and handed on, never added or multiplied.

use vstd::prelude::*;

verus! {

/// The pattern of a double's sign bit.
pub const SIGN64: u64 = 0x8000_0000_0000_0000;

/// The pattern of a double's positive infinity; a greater magnitude is not a number.
pub const INFINITY64: u64 = 0x7FF0_0000_0000_0000;

/// The pattern of a single's sign bit.
pub const SIGN32: u32 = 0x8000_0000;

/// The pattern of a single's positive infinity; a greater magnitude is not a number.
pub const INFINITY32: u32 = 0x7F80_0000;

/// A double's pattern without its sign.
pub open spec fn magnitude64(b: u64) -> int {
    if b >= SIGN64 {
        b - SIGN64
    } else {
        b as int
    }
}

/// Whether a double's pattern is no number.
pub open spec fn nan64(b: u64) -> bool {
    magnitude64(b) > INFINITY64
}

/// Where a double stands in numeric order; the two zeros stand together.
pub open spec fn rank64(b: u64) -> int {
    if b >= SIGN64 {
        -magnitude64(b)
    } else {
        magnitude64(b)
    }
}

/// `a > b` on doubles: false where either is no number.
pub open spec fn gt64(a: u64, b: u64) -> bool {
    !nan64(a) && !nan64(b) && rank64(a) > rank64(b)
}

/// `a >= b` on doubles: false where either is no number.
pub open spec fn ge64(a: u64, b: u64) -> bool {
    !nan64(a) && !nan64(b) && rank64(a) >= rank64(b)
}

/// Where a double stands in the total order, in which every pattern has its own place.
pub open spec fn total64(b: u64) -> int {
    if b >= SIGN64 {
        -1 - magnitude64(b)
    } else {
        magnitude64(b)
    }
}

/// A single's pattern without its sign.
pub open spec fn magnitude32(b: u32) -> int {
    if b >= SIGN32 {
        b - SIGN32
    } else {
        b as int
    }
}

/// Whether a single's pattern is no number.
pub open spec fn nan32(b: u32) -> bool {
    magnitude32(b) > INFINITY32
}

/// Where a single stands in numeric order; the two zeros stand together.
pub open spec fn rank32(b: u32) -> int {
    if b >= SIGN32 {
        -magnitude32(b)
    } else {
        magnitude32(b)
    }
}

/// `a > b` on singles: false where either is no number.
pub open spec fn gt32(a: u32, b: u32) -> bool {
    !nan32(a) && !nan32(b) && rank32(a) > rank32(b)
}

/// `a >= b` on singles: false where either is no number.
pub open spec fn ge32(a: u32, b: u32) -> bool {
    !nan32(a) && !nan32(b) && rank32(a) >= rank32(b)
}

/// Where a single stands in the total order, in which every pattern has its own place.
pub open spec fn total32(b: u32) -> int {
    if b >= SIGN32 {
        -1 - magnitude32(b)
    } else {
        magnitude32(b)
    }
}

fn signed64(b: u64) -> (r: i64)
    ensures
        r == rank64(b),
{
    if b >= SIGN64 {
        -((b - SIGN64) as i64)
    } else {
        b as i64
    }
}

fn is_nan64(b: u64) -> (r: bool)
    ensures
        r == nan64(b),
{
    if b >= SIGN64 {
        b - SIGN64 > INFINITY64
    } else {
        b > INFINITY64
    }
}

/// Whether double `a` is greater than double `b`.
pub fn above64(a: u64, b: u64) -> (r: bool)
    ensures
        r == gt64(a, b),
{
    !is_nan64(a) && !is_nan64(b) && signed64(a) > signed64(b)
}

/// Whether double `a` is no less than double `b`.
pub fn at_least64(a: u64, b: u64) -> (r: bool)
    ensures
        r == ge64(a, b),
{
    !is_nan64(a) && !is_nan64(b) && signed64(a) >= signed64(b)
}

/// The place of a double in the total order.
pub fn place64(b: u64) -> (r: i64)
    ensures
        r == total64(b),
{
    if b >= SIGN64 {
        -1 - ((b - SIGN64) as i64)
    } else {
        b as i64
    }
}

fn signed32(b: u32) -> (r: i64)
    ensures
        r == rank32(b),
{
    if b >= SIGN32 {
        -((b - SIGN32) as i64)
    } else {
        b as i64
    }
}

fn is_nan32(b: u32) -> (r: bool)
    ensures
        r == nan32(b),
{
    if b >= SIGN32 {
        b - SIGN32 > INFINITY32
    } else {
        b > INFINITY32
    }
}

/// Whether single `a` is greater than single `b`.
pub fn above32(a: u32, b: u32) -> (r: bool)
    ensures
        r == gt32(a, b),
{
    !is_nan32(a) && !is_nan32(b) && signed32(a) > signed32(b)
}

/// Whether single `a` is no less than single `b`.
pub fn at_least32(a: u32, b: u32) -> (r: bool)
    ensures
        r == ge32(a, b),
{
    !is_nan32(a) && !is_nan32(b) && signed32(a) >= signed32(b)
}

/// The place of a single in the total order.
pub fn place32(b: u32) -> (r: i64)
    ensures
        r == total32(b),
{
    if b >= SIGN32 {
        -1 - ((b - SIGN32) as i64)
    } else {
        b as i64
    }
}

/// The first position whose double comes lowest in the total order.
pub open spec fn is_least(keys: Seq<u64>, at: int) -> bool {
    &&& 0 <= at < keys.len()
    &&& forall|j: int| 0 <= j < keys.len() ==> total64(keys[at]) <= total64(#[trigger] keys[j])
    &&& forall|j: int| 0 <= j < at ==> total64(keys[at]) < total64(#[trigger] keys[j])
}

/// Where the least of a list of doubles stands first.
pub fn least(keys: &Vec<u64>) -> (r: Option<usize>)
    ensures
        r is None <==> keys@.len() == 0,
        r matches Some(i) ==> is_least(keys@, i as int),
{
    if keys.len() == 0 {
        return None;
    }
    let mut best: usize = 0;
    let mut i: usize = 1;
    while i < keys.len()
        invariant
            1 <= i <= keys@.len(),
            best < i,
            is_least(keys@.take(i as int), best as int),
        decreases keys@.len() - i,
    {
        let ghost seen = keys@.take(i as int);
        let ghost more = keys@.take(i + 1);
        assert(more =~= seen.push(keys@[i as int]));
        assert(seen[best as int] == keys@[best as int]);
        if place64(keys[i]) < place64(keys[best]) {
            assert forall|j: int| 0 <= j < i implies total64(keys@[i as int]) < total64(
                #[trigger] more[j],
            ) by {
                assert(more[j] == seen[j]);
            }
            best = i;
        } else {
            assert forall|j: int| 0 <= j < best implies total64(more[best as int]) < total64(
                #[trigger] more[j],
            ) by {
                assert(more[j] == seen[j]);
            }
            assert forall|j: int| 0 <= j <= i implies total64(more[best as int]) <= total64(
                #[trigger] more[j],
            ) by {
                if j < i {
                    assert(more[j] == seen[j]);
                }
            }
        }
        i += 1;
    }
    assert(keys@.take(i as int) =~= keys@);
    Some(best)
}

/// The greater of two optional readings; a reading that cannot be compared stays.
pub open spec fn raised(so_far: Option<u32>, reading: Option<u32>) -> Option<u32> {
    match (so_far, reading) {
        (None, _) => reading,
        (Some(_), None) => so_far,
        (Some(m), Some(v)) => if gt32(v, m) {
            reading
        } else {
            so_far
        },
    }
}

pub fn raise(so_far: Option<u32>, reading: Option<u32>) -> (r: Option<u32>)
    ensures
        r == raised(so_far, reading),
{
    match (so_far, reading) {
        (None, _) => reading,
        (Some(_), None) => so_far,
        (Some(m), Some(v)) => if above32(v, m) {
            reading
        } else {
            so_far
        },
    }
}

/// Whether `r` is the greatest of the readings: it is one of them, and none is greater; it is
/// nothing only where there are none.
pub open spec fn is_highest(readings: Seq<Option<u32>>, r: Option<u32>) -> bool {
    &&& r is None <==> forall|i: int| 0 <= i < readings.len() ==> (#[trigger] readings[i]) is None
    &&& r is Some ==> readings.contains(r)
    &&& r matches Some(v) ==> forall|i: int|
        0 <= i < readings.len() && (#[trigger] readings[i]) is Some ==> !gt32(readings[i]->0, v)
}

pub proof fn lemma_highest_step(readings: Seq<Option<u32>>, r: Option<u32>, x: Option<u32>)
    requires
        is_highest(readings, r),
    ensures
        is_highest(readings.push(x), raised(r, x)),
{
    let more = readings.push(x);
    let n = readings.len() as int;
    let best = raised(r, x);
    assert(more[n] == x);
    assert forall|i: int| 0 <= i < n implies #[trigger] more[i] == readings[i] by {}
    if r is Some && best == r {
        let k = readings.index_of(r);
        assert(more[k] == r);
    }
    if r is None && x is None {
        assert forall|i: int| 0 <= i < more.len() implies (#[trigger] more[i]) is None by {
            if i < n {
                assert(readings[i] is None);
            }
        }
    }
    if best is Some {
        assert(more.contains(best)) by {
            if best != r {
                assert(more[n] == best);
            }
        }
        assert forall|i: int| 0 <= i < more.len() && (#[trigger] more[i]) is Some implies !gt32(
            more[i]->0,
            best->0,
        ) by {
            if i < n {
                assert(readings[i] == more[i]);
            }
        }
    }
}

/// The greatest of the readings, taken in order: a later one takes the place of an earlier one
/// only where it is greater.
pub open spec fn highest_of(readings: Seq<Option<u32>>) -> Option<u32>
    decreases readings.len(),
{
    if readings.len() == 0 {
        None
    } else {
        raised(highest_of(readings.drop_last()), readings.last())
    }
}

/// No reading is greater than the greatest of them.
pub proof fn lemma_highest_of(readings: Seq<Option<u32>>)
    ensures
        is_highest(readings, highest_of(readings)),
    decreases readings.len(),
{
    if readings.len() > 0 {
        lemma_highest_of(readings.drop_last());
        lemma_highest_step(
            readings.drop_last(),
            highest_of(readings.drop_last()),
            readings.last(),
        );
        assert(readings.drop_last().push(readings.last()) =~= readings);
    }
}

/// A reading without its sign.
pub open spec fn magnitude(v: u32) -> u32 {
    if v >= SIGN32 {
        (v - SIGN32) as u32
    } else {
        v
    }
}

pub fn unsigned(v: u32) -> (r: u32)
    ensures
        r == magnitude(v),
{
    if v >= SIGN32 {
        v - SIGN32
    } else {
        v
    }
}

/// Whether `r` is the greatest reading, those that are no number left aside where there are
/// others.
pub open spec fn is_top(readings: Seq<Option<u32>>, r: Option<u32>) -> bool {
    &&& is_highest(readings, r)
    &&& (r matches Some(v) && nan32(v)) ==> forall|i: int|
        0 <= i < readings.len() && (#[trigger] readings[i]) is Some ==> nan32(readings[i]->0)
}

/// The greater of two optional readings; one that is no number gives way.
pub open spec fn topped(so_far: Option<u32>, reading: Option<u32>) -> Option<u32> {
    match (so_far, reading) {
        (Some(m), Some(_)) if nan32(m) => reading,
        _ => raised(so_far, reading),
    }
}

pub fn top(so_far: Option<u32>, reading: Option<u32>) -> (r: Option<u32>)
    ensures
        r == topped(so_far, reading),
{
    match (so_far, reading) {
        (Some(m), Some(_)) => if !at_least32(m, m) {
            reading
        } else {
            raise(so_far, reading)
        },
        _ => raise(so_far, reading),
    }
}

pub proof fn lemma_top_step(readings: Seq<Option<u32>>, r: Option<u32>, x: Option<u32>)
    requires
        is_top(readings, r),
    ensures
        is_top(readings.push(x), topped(r, x)),
{
    lemma_highest_step(readings, r, x);
    let more = readings.push(x);
    let n = readings.len() as int;
    let best = topped(r, x);
    assert(more[n] == x);
    assert forall|i: int| 0 <= i < n implies #[trigger] more[i] == readings[i] by {}
    if r is Some && x is Some && nan32(r->0) {
        assert(more.contains(best)) by {
            assert(more[n] == best);
        }
        assert forall|i: int| 0 <= i < more.len() && (#[trigger] more[i]) is Some implies !gt32(
            more[i]->0,
            best->0,
        ) by {
            if i < n {
                assert(nan32(readings[i]->0));
            }
        }
        assert(!(more[n] is None));
        if nan32(best->0) {
            assert forall|i: int| 0 <= i < more.len() && (#[trigger] more[i]) is Some implies nan32(
                more[i]->0,
            ) by {
                if i < n {
                    assert(nan32(readings[i]->0));
                }
            }
        }
    } else if best is Some && nan32(best->0) {
        assert forall|i: int| 0 <= i < more.len() && (#[trigger] more[i]) is Some implies nan32(
            more[i]->0,
        ) by {
            if i < n {
                assert(readings[i] is Some);
            }
        }
    }
}

/// The greatest of the readings, taken in order: one that is no number gives way, and of equal
/// ones the first stays.
pub open spec fn top_of(readings: Seq<Option<u32>>) -> Option<u32>
    decreases readings.len(),
{
    if readings.len() == 0 {
        None
    } else {
        topped(top_of(readings.drop_last()), readings.last())
    }
}

pub proof fn lemma_top_of(readings: Seq<Option<u32>>)
    ensures
        is_top(readings, top_of(readings)),
    decreases readings.len(),
{
    if readings.len() > 0 {
        lemma_top_of(readings.drop_last());
        lemma_top_step(readings.drop_last(), top_of(readings.drop_last()), readings.last());
        assert(readings.drop_last().push(readings.last()) =~= readings);
    }
}

/// Whether `r` is the least of the readings, those that are no number left aside where there
/// are others; it is nothing only where there are none.
pub open spec fn is_bottom(readings: Seq<Option<u32>>, r: Option<u32>) -> bool {
    &&& r is None <==> forall|i: int| 0 <= i < readings.len() ==> (#[trigger] readings[i]) is None
    &&& r is Some ==> readings.contains(r)
    &&& r matches Some(v) ==> forall|i: int|
        0 <= i < readings.len() && (#[trigger] readings[i]) is Some ==> !gt32(v, readings[i]->0)
    &&& (r matches Some(v) && nan32(v)) ==> forall|i: int|
        0 <= i < readings.len() && (#[trigger] readings[i]) is Some ==> nan32(readings[i]->0)
}

/// The lesser of two optional readings; one that is no number gives way.
pub open spec fn bottomed(so_far: Option<u32>, reading: Option<u32>) -> Option<u32> {
    match (so_far, reading) {
        (None, _) => reading,
        (Some(_), None) => so_far,
        (Some(m), Some(v)) => if nan32(m) || gt32(m, v) {
            reading
        } else {
            so_far
        },
    }
}

pub fn bottom(so_far: Option<u32>, reading: Option<u32>) -> (r: Option<u32>)
    ensures
        r == bottomed(so_far, reading),
{
    match (so_far, reading) {
        (None, _) => reading,
        (Some(_), None) => so_far,
        (Some(m), Some(v)) => if is_nan32(m) || above32(m, v) {
            reading
        } else {
            so_far
        },
    }
}

pub proof fn lemma_bottom_step(readings: Seq<Option<u32>>, r: Option<u32>, x: Option<u32>)
    requires
        is_bottom(readings, r),
    ensures
        is_bottom(readings.push(x), bottomed(r, x)),
{
    let more = readings.push(x);
    let n = readings.len() as int;
    let least = bottomed(r, x);
    assert(more[n] == x);
    assert forall|i: int| 0 <= i < n implies #[trigger] more[i] == readings[i] by {}
    if r is None && x is None {
        assert forall|i: int| 0 <= i < more.len() implies (#[trigger] more[i]) is None by {
            if i < n {
                assert(readings[i] is None);
            }
        }
    }
    if least is Some {
        assert(more.contains(least)) by {
            if least == x {
                assert(more[n] == least);
            } else {
                let k = readings.index_of(r);
                assert(more[k] == least);
            }
        }
        assert forall|i: int| 0 <= i < more.len() && (#[trigger] more[i]) is Some implies !gt32(
            least->0,
            more[i]->0,
        ) && (nan32(least->0) ==> nan32(more[i]->0)) by {
            if i < n {
                assert(readings[i] == more[i]);
            }
        }
    }
}

/// The least of the readings, taken in order: one that is no number gives way, and of equal ones
/// the first stays.
pub open spec fn bottom_of(readings: Seq<Option<u32>>) -> Option<u32>
    decreases readings.len(),
{
    if readings.len() == 0 {
        None
    } else {
        bottomed(bottom_of(readings.drop_last()), readings.last())
    }
}

pub proof fn lemma_bottom_of(readings: Seq<Option<u32>>)
    ensures
        is_bottom(readings, bottom_of(readings)),
    decreases readings.len(),
{
    if readings.len() > 0 {
        lemma_bottom_of(readings.drop_last());
        lemma_bottom_step(
            readings.drop_last(),
            bottom_of(readings.drop_last()),
            readings.last(),
        );
        assert(readings.drop_last().push(readings.last()) =~= readings);
    }
}

/// Whether a single's pattern is a finite number.
pub open spec fn finite(b: u32) -> bool {
    magnitude32(b) < INFINITY32
}

pub fn is_finite(b: u32) -> (r: bool)
    ensures
        r == finite(b),
{
    if b >= SIGN32 {
        b - SIGN32 < INFINITY32
    } else {
        b < INFINITY32
    }
}

/// Doubles compare as the numbers they stand for: two that are not negative by their patterns, two
/// that are not positive the other way round, one of each by their signs, the two zeros as equal,
/// and one that is no number as neither greater nor less than anything.
pub proof fn law_doubles_compare_as_numbers(a: u64, b: u64)
    requires
        a < 0x8000_0000_0000_0000,
        b < 0x8000_0000_0000_0000,
    ensures
        a <= 0x7FF0_0000_0000_0000 && b <= 0x7FF0_0000_0000_0000 ==> {
            let (na, nb) = ((a + 0x8000_0000_0000_0000) as u64, (b + 0x8000_0000_0000_0000) as u64);
            &&& gt64(a, b) <==> a > b
            &&& ge64(a, b) <==> a >= b
            &&& gt64(na, nb) <==> a < b
            &&& ge64(na, nb) <==> a <= b
            &&& gt64(a, nb) <==> !(a == 0 && b == 0)
            &&& ge64(a, nb)
            &&& !gt64(na, b)
            &&& ge64(na, b) <==> a == 0 && b == 0
        },
        a > 0x7FF0_0000_0000_0000 ==> forall|x: u64|
            !(#[trigger] gt64(a, x)) && !gt64(x, a) && !ge64(a, x) && !ge64(x, a),
{
}

/// Singles compare as the numbers they stand for, as doubles do.
pub proof fn law_singles_compare_as_numbers(a: u32, b: u32)
    requires
        a < 0x8000_0000,
        b < 0x8000_0000,
    ensures
        a <= 0x7F80_0000 && b <= 0x7F80_0000 ==> {
            let (na, nb) = ((a + 0x8000_0000) as u32, (b + 0x8000_0000) as u32);
            &&& gt32(a, b) <==> a > b
            &&& ge32(a, b) <==> a >= b
            &&& gt32(na, nb) <==> a < b
            &&& ge32(na, nb) <==> a <= b
            &&& gt32(a, nb) <==> !(a == 0 && b == 0)
            &&& ge32(a, nb)
            &&& !gt32(na, b)
            &&& ge32(na, b) <==> a == 0 && b == 0
        },
        a > 0x7F80_0000 ==> forall|x: u32|
            !(#[trigger] gt32(a, x)) && !gt32(x, a) && !ge32(a, x) && !ge32(x, a),
        magnitude(a) == a,
        magnitude((a + 0x8000_0000) as u32) == a,
        finite(a) <==> a < 0x7F80_0000,
        finite((a + 0x8000_0000) as u32) == finite(a),
{
}

/// The total order goes on where the order of numbers stops: it agrees with it, and no two
/// patterns share a place.
pub proof fn law_total_order_refines_the_order_of_numbers(a: u64, b: u64, c: u32, d: u32)
    ensures
        gt64(a, b) ==> total64(a) > total64(b),
        total64(a) == total64(b) ==> a == b,
        gt32(c, d) ==> total32(c) > total32(d),
        total32(c) == total32(d) ==> c == d,
        total64(0x8000_0000_0000_0000) < total64(0),
        total32(0x8000_0000) < total32(0),
{
}

/// Of readings that are equal the first stays, and one that is no number never covers one that is.
pub proof fn law_first_of_the_greatest_stays(readings: Seq<Option<u32>>, x: Option<u32>)
    ensures
        highest_of(readings.push(x)) == highest_of(readings) || highest_of(readings.push(x)) == x,
        top_of(readings.push(x)) == top_of(readings) || top_of(readings.push(x)) == x,
        bottom_of(readings.push(x)) == bottom_of(readings) || bottom_of(readings.push(x)) == x,
        x is None ==> highest_of(readings.push(x)) == highest_of(readings) && top_of(
            readings.push(x),
        ) == top_of(readings) && bottom_of(readings.push(x)) == bottom_of(readings),
        x is Some && highest_of(readings) is Some && !gt32(x->0, highest_of(readings)->0)
            ==> highest_of(readings.push(x)) == highest_of(readings),
        x is Some && top_of(readings) is Some && !nan32(top_of(readings)->0) && !gt32(
            x->0,
            top_of(readings)->0,
        ) ==> top_of(readings.push(x)) == top_of(readings),
        x is Some && bottom_of(readings) is Some && !nan32(bottom_of(readings)->0) && !gt32(
            bottom_of(readings)->0,
            x->0,
        ) ==> bottom_of(readings.push(x)) == bottom_of(readings),
{
    assert(readings.push(x).drop_last() =~= readings);
}

/// The least of a list of doubles is less than or equal to every other that is a number, where it
/// is one, and it is the first of its kind.
pub proof fn law_least_is_below_all(keys: Seq<u64>, at: int, j: int)
    requires
        is_least(keys, at),
        0 <= j < keys.len(),
    ensures
        0 <= at < keys.len(),
        !gt64(keys[at], keys[j]),
        keys[j] == keys[at] ==> at <= j,
{
    assert(total64(keys[at]) <= total64(keys[j]));
    if j < at {
        assert(total64(keys[at]) < total64(keys[j]));
    }
}

/// The greatest of a list of readings is one of them that none exceeds, and so is the least one
/// that exceeds none.
pub proof fn law_extremes_bound_the_readings(readings: Seq<Option<u32>>, i: int)
    requires
        0 <= i < readings.len(),
        readings[i] is Some,
    ensures
        highest_of(readings) is Some && !gt32(readings[i]->0, highest_of(readings)->0),
        top_of(readings) is Some && !gt32(readings[i]->0, top_of(readings)->0),
        bottom_of(readings) is Some && !gt32(bottom_of(readings)->0, readings[i]->0),
        readings.contains(highest_of(readings)),
        readings.contains(top_of(readings)),
        readings.contains(bottom_of(readings)),
        !nan32(readings[i]->0) ==> !nan32(top_of(readings)->0) && !nan32(bottom_of(readings)->0),
{
    lemma_highest_of(readings);
    lemma_top_of(readings);
    lemma_bottom_of(readings);
}

} // verus!
