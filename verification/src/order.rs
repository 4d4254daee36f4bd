//! Stable ordering.

use vstd::prelude::*;

verus! {

/// Whether the element at `i` comes before the one at `j` in a stable ordering by key.
pub open spec fn precedes(keys: Seq<(i64, i64)>, i: int, j: int) -> bool {
    ||| keys[i].0 < keys[j].0
    ||| keys[i].0 == keys[j].0 && keys[i].1 < keys[j].1
    ||| keys[i] == keys[j] && i < j
}

/// Whether `order` names every position once, in the order of the keys; equal keys keep the
/// order of their positions. There is exactly one such order.
pub open spec fn is_order(keys: Seq<(i64, i64)>, order: Seq<usize>) -> bool {
    &&& order.len() == keys.len()
    &&& forall|k: int| 0 <= k < order.len() ==> (#[trigger] order[k]) < keys.len()
    &&& forall|a: int, b: int|
        0 <= a < b < order.len() ==> precedes(
            keys,
            (#[trigger] order[a]) as int,
            (#[trigger] order[b]) as int,
        )
}

fn comes_before(keys: &Vec<(i64, i64)>, i: usize, j: usize) -> (r: bool)
    requires
        i < keys@.len(),
        j < keys@.len(),
    ensures
        r == precedes(keys@, i as int, j as int),
{
    let (a, b) = keys[i];
    let (c, d) = keys[j];
    a < c || (a == c && b < d) || (a == c && b == d && i < j)
}

/// The positions of `keys` in the order of the keys.
pub fn stable_order(keys: &Vec<(i64, i64)>) -> (order: Vec<usize>)
    ensures
        is_order(keys@, order@),
{
    let mut order: Vec<usize> = Vec::new();
    let mut i: usize = 0;
    while i < keys.len()
        invariant
            i <= keys@.len(),
            order@.len() == i,
            forall|k: int| 0 <= k < i ==> (#[trigger] order@[k]) < i,
            forall|a: int, b: int|
                0 <= a < b < i ==> precedes(
                    keys@,
                    (#[trigger] order@[a]) as int,
                    (#[trigger] order@[b]) as int,
                ),
        decreases keys@.len() - i,
    {
        let mut at: usize = i;
        while at > 0 && comes_before(keys, i, order[at - 1])
            invariant
                at <= i,
                i < keys@.len(),
                order@.len() == i,
                forall|k: int| 0 <= k < i ==> (#[trigger] order@[k]) < i,
                forall|k: int| at <= k < i ==> precedes(keys@, i as int, #[trigger] order@[k] as int),
            decreases at,
        {
            at -= 1;
        }
        let ghost was = order@;
        order.insert(at, i);
        assert forall|a: int, b: int| 0 <= a < b < i + 1 implies precedes(
            keys@,
            (#[trigger] order@[a]) as int,
            (#[trigger] order@[b]) as int,
        ) by {
            let fa = if a < at { a } else { a - 1 };
            let fb = if b < at { b } else { b - 1 };
            if a != at {
                assert(order@[a] == was[fa]);
            }
            if b != at {
                assert(order@[b] == was[fb]);
            }
            if b == at {
                assert(precedes(keys@, was[at - 1] as int, i as int));
                if a < at - 1 {
                    assert(precedes(keys@, was[a] as int, was[at - 1] as int));
                }
            }
        }
        assert forall|k: int| 0 <= k < i + 1 implies (#[trigger] order@[k]) < i + 1 by {
            if k != at {
                assert(order@[k] == was[if k < at { k } else { k - 1 }]);
            }
        }
        i += 1;
    }
    order
}

/// An order leaves nothing out and names nothing twice.
pub proof fn lemma_order_is_permutation(keys: Seq<(i64, i64)>, order: Seq<usize>)
    requires
        is_order(keys, order),
    ensures
        order.no_duplicates(),
        forall|i: usize| i < keys.len() ==> #[trigger] order.contains(i),
{
    assert(order.no_duplicates()) by {
        assert forall|a: int, b: int|
            0 <= a < order.len() && 0 <= b < order.len() && a != b implies order[a] != order[b] by {
            if a < b {
                assert(precedes(keys, order[a] as int, order[b] as int));
            } else {
                assert(precedes(keys, order[b] as int, order[a] as int));
            }
        }
    }
    assert forall|i: usize| i < keys.len() implies #[trigger] order.contains(i) by {
        let ints = order.map_values(|x: usize| x as int);
        assert(ints.no_duplicates());
        ints.unique_seq_to_set();
        vstd::seq_lib::seq_to_set_is_finite(ints);
        let range = vstd::set_lib::set_int_range(0, keys.len() as int);
        vstd::set_lib::lemma_int_range(0, keys.len() as int);
        assert(ints.to_set().subset_of(range)) by {
            assert forall|x: int| ints.to_set().contains(x) implies range.contains(x) by {
                let k = ints.index_of(x);
                assert(order[k] == x);
            }
        }
        vstd::set_lib::lemma_subset_equality(ints.to_set(), range);
        assert(range.contains(i as int));
        assert(ints.contains(i as int));
        let k = ints.index_of(i as int);
        assert(order[k] == i);
    }
}

} // verus!
