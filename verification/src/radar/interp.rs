//! The motion between two frames.

use vstd::prelude::*;
#[allow(unused_imports)]
use crate::ieee::{above64, ge64, gt64};

verus! {

/// How far, in grid steps each way, a displacement is searched.
pub const SHIFT_SEARCH: i64 = 8;

/// How many displacements are tried along each axis.
pub const SHIFT_WIDTH: usize = 17;

/// The displacement that the `i`th score stands for: east and north steps, the east ones
/// running fastest.
pub open spec fn displacement(i: int) -> (int, int) {
    (i % SHIFT_WIDTH as int - SHIFT_SEARCH, i / SHIFT_WIDTH as int - SHIFT_SEARCH)
}

/// Whether the score at `i` is the first of the greatest ones.
pub open spec fn is_first_best(scores: Seq<u64>, i: int) -> bool {
    &&& 0 <= i < scores.len()
    &&& forall|j: int| 0 <= j < scores.len() ==> !gt64(#[trigger] scores[j], scores[i])
    &&& forall|j: int| 0 <= j < i ==> !ge64(#[trigger] scores[j], scores[i])
}

/// The displacement with the greatest echo overlap, the first where several have it; none at
/// all where no displacement makes echoes overlap.
pub fn estimate_shift(scores: &Vec<u64>) -> (r: (i64, i64))
    requires
        scores@.len() == SHIFT_WIDTH * SHIFT_WIDTH,
    ensures
        (forall|j: int| 0 <= j < scores@.len() ==> !gt64(#[trigger] scores@[j], 0)) ==> r == (
            0i64,
            0i64,
        ),
        (exists|j: int| 0 <= j < scores@.len() && gt64(#[trigger] scores@[j], 0)) ==> exists|i: int|
            #[trigger] is_first_best(scores@, i) && (r.0 as int, r.1 as int) == displacement(i),
{
    let mut best: Option<usize> = None;
    let mut i: usize = 0;
    while i < scores.len()
        invariant
            i <= scores@.len(),
            best is None ==> forall|j: int| 0 <= j < i ==> !gt64(#[trigger] scores@[j], 0),
            best matches Some(b) ==> b < i && gt64(scores@[b as int], 0) && (forall|j: int|
                0 <= j < i ==> !gt64(#[trigger] scores@[j], scores@[b as int])) && (forall|j: int|
                0 <= j < b ==> !ge64(#[trigger] scores@[j], scores@[b as int])),
        decreases scores@.len() - i,
    {
        let better: bool = match best {
            None => above64(scores[i], 0),
            Some(b) => above64(scores[i], scores[b]),
        };
        if better {
            let ghost was = best;
            best = Some(i);
            assert forall|j: int| 0 <= j < i implies !ge64(
                #[trigger] scores@[j],
                scores@[i as int],
            ) by {
                match was {
                    None => {
                        assert(!gt64(scores@[j], 0));
                    },
                    Some(b) => {
                        assert(!gt64(scores@[j], scores@[b as int]));
                    },
                }
            }
            assert forall|j: int| 0 <= j <= i implies !gt64(
                #[trigger] scores@[j],
                scores@[i as int],
            ) by {
                if j < i {
                    assert(!ge64(scores@[j], scores@[i as int]));
                }
            }
        }
        i += 1;
    }
    match best {
        Some(b) => {
            assert(is_first_best(scores@, b as int));
            let east: i64 = (b % SHIFT_WIDTH) as i64 - SHIFT_SEARCH;
            let north: i64 = (b / SHIFT_WIDTH) as i64 - SHIFT_SEARCH;
            (east, north)
        },
        None => (0, 0),
    }
}

/// Each displacement of up to eight steps each way has one score, the east steps running fastest,
/// and the middle one stands for no displacement.
pub proof fn law_scores_cover_the_displacements(i: int, east: int, north: int)
    ensures
        0 <= i < 289 ==> -8 <= displacement(i).0 <= 8 && -8 <= displacement(i).1 <= 8,
        -8 <= east <= 8 && -8 <= north <= 8 ==> displacement((north + 8) * 17 + (east + 8)) == (
            east,
            north,
        ),
        0 <= i < 289 ==> i == (displacement(i).1 + 8) * 17 + (displacement(i).0 + 8),
        displacement(144) == (0int, 0int),
{
}

} // verus!
