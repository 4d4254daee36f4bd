//! Connected regions of a lattice.

use vstd::prelude::*;

verus! {

/// Whether two positions of a lattice of rows of `width` touch along a side.
pub open spec fn touching(width: int, a: int, b: int) -> bool {
    ||| b == a + 1 && b % width != 0
    ||| a == b + 1 && a % width != 0
    ||| b == a + width
    ||| a == b + width
}

/// Whether a position is part of the mask.
pub open spec fn masked(mask: Seq<bool>, i: int) -> bool {
    0 <= i < mask.len() && mask[i]
}

/// Whether `path` leads through the mask from one touching position to the next.
pub open spec fn is_path(mask: Seq<bool>, width: int, path: Seq<int>) -> bool {
    &&& path.len() > 0
    &&& forall|k: int| 0 <= k < path.len() ==> masked(mask, #[trigger] path[k])
    &&& forall|k: int|
        0 < k < path.len() ==> touching(width, path[k - 1], #[trigger] path[k])
}

/// Whether a path through the mask leads from `a` to `b`.
pub open spec fn linked(mask: Seq<bool>, width: int, a: int, b: int) -> bool {
    exists|path: Seq<int>| #[trigger]
        is_path(mask, width, path) && path[0] == a && path.last() == b
}

/// The region of the mask that holds `a`.
pub open spec fn region(mask: Seq<bool>, width: int, a: int) -> Set<int> {
    Set::new(|b: int| linked(mask, width, a, b))
}

/// Whether `a` is the first position of its region.
pub open spec fn leads(mask: Seq<bool>, width: int, a: int) -> bool {
    masked(mask, a) && forall|b: int| #[trigger] linked(mask, width, a, b) ==> a <= b
}

/// The positions in a list.
pub open spec fn positions(members: Seq<usize>) -> Set<int> {
    Set::new(|i: int| exists|k: int| 0 <= k < members.len() && #[trigger] members[k] == i)
}

proof fn lemma_linked_self(mask: Seq<bool>, width: int, a: int)
    requires
        masked(mask, a),
    ensures
        linked(mask, width, a, a),
{
    let path = seq![a];
    assert(is_path(mask, width, path));
    assert(path[0] == a && path.last() == a);
}

proof fn lemma_linked_step(mask: Seq<bool>, width: int, a: int, b: int, c: int)
    requires
        linked(mask, width, a, b),
        touching(width, b, c),
        masked(mask, c),
    ensures
        linked(mask, width, a, c),
{
    let path = choose|path: Seq<int>| #[trigger]
        is_path(mask, width, path) && path[0] == a && path.last() == b;
    let longer = path.push(c);
    assert forall|k: int| 0 < k < longer.len() implies touching(
        width,
        longer[k - 1],
        #[trigger] longer[k],
    ) by {
        if k < path.len() {
            assert(longer[k] == path[k]);
            assert(longer[k - 1] == path[k - 1]);
        }
    }
    assert(is_path(mask, width, longer));
    assert(longer[0] == a && longer.last() == c);
}

proof fn lemma_linked_back(mask: Seq<bool>, width: int, a: int, b: int)
    requires
        linked(mask, width, a, b),
    ensures
        linked(mask, width, b, a),
{
    let path = choose|path: Seq<int>| #[trigger]
        is_path(mask, width, path) && path[0] == a && path.last() == b;
    let back = path.reverse();
    let n = path.len() as int;
    assert forall|k: int| 0 < k < back.len() implies touching(
        width,
        back[k - 1],
        #[trigger] back[k],
    ) by {
        assert(touching(width, path[n - 1 - k], path[n - k]));
    }
    assert(is_path(mask, width, back));
    assert(back[0] == b && back.last() == a);
}

/// A set that holds `a` and every masked neighbour of what it holds, holds all that `a` is
/// linked to.
proof fn lemma_closed_holds_linked(mask: Seq<bool>, width: int, set: Set<int>, a: int, b: int)
    requires
        set.contains(a),
        forall|x: int, y: int| #[trigger]
            set.contains(x) && #[trigger] touching(width, x, y) && masked(mask, y) ==> set.contains(
                y,
            ),
        linked(mask, width, a, b),
    ensures
        set.contains(b),
{
    let path = choose|path: Seq<int>| #[trigger]
        is_path(mask, width, path) && path[0] == a && path.last() == b;
    lemma_closed_holds_path(mask, width, set, path, path.len() - 1);
}

proof fn lemma_closed_holds_path(
    mask: Seq<bool>,
    width: int,
    set: Set<int>,
    path: Seq<int>,
    k: int,
)
    requires
        is_path(mask, width, path),
        set.contains(path[0]),
        forall|x: int, y: int| #[trigger]
            set.contains(x) && #[trigger] touching(width, x, y) && masked(mask, y) ==> set.contains(
                y,
            ),
        0 <= k < path.len(),
    ensures
        set.contains(path[k]),
    decreases k,
{
    if k > 0 {
        lemma_closed_holds_path(mask, width, set, path, k - 1);
        assert(touching(width, path[k - 1], path[k]));
    }
}

proof fn lemma_linked_join(mask: Seq<bool>, width: int, a: int, b: int, c: int)
    requires
        linked(mask, width, a, b),
        linked(mask, width, b, c),
    ensures
        linked(mask, width, a, c),
{
    let set = region(mask, width, a);
    assert forall|x: int, y: int| #[trigger]
        set.contains(x) && #[trigger] touching(width, x, y) && masked(
            mask,
            y,
        ) implies set.contains(y) by {
        lemma_linked_step(mask, width, a, x, y);
    }
    lemma_closed_holds_linked(mask, width, set, b, c);
}

/// Distinct positions below a bound are no more than the bound.
proof fn lemma_distinct_below(list: Seq<usize>, bound: nat)
    requires
        list.no_duplicates(),
        forall|k: int| 0 <= k < list.len() ==> #[trigger] list[k] < bound,
    ensures
        list.len() <= bound,
{
    let set = list.to_set();
    list.unique_seq_to_set();
    let ints = set.map(|x: usize| x as int);
    let range = vstd::set_lib::set_int_range(0, bound as int);
    vstd::set_lib::lemma_int_range(0, bound as int);
    vstd::seq_lib::seq_to_set_is_finite(list);
    assert(ints.subset_of(range)) by {
        assert forall|x: int| ints.contains(x) implies range.contains(x) by {
            let u = choose|u: usize| set.contains(u) && u as int == x;
            let k = list.index_of(u);
            assert(list[k] == u);
        }
    }
    vstd::set_lib::lemma_map_size(set, ints, |x: usize| x as int);
    vstd::set_lib::lemma_len_subset(ints, range);
}

/// Whether everything newly marked is listed or waiting, once each, and linked to `start`.
#[verifier::opaque]
spec fn flood_inv(
    mask: Seq<bool>,
    width: int,
    start: int,
    before: Seq<bool>,
    visited: Seq<bool>,
    all: Seq<usize>,
) -> bool {
    &&& visited.len() == mask.len()
    &&& before.len() == mask.len()
    &&& all.no_duplicates()
    &&& forall|k: int|
        0 <= k < all.len() ==> (#[trigger] all[k]) < mask.len() && linked(
            mask,
            width,
            start,
            all[k] as int,
        ) && visited[all[k] as int] && !before[all[k] as int]
    &&& forall|i: int| 0 <= i < mask.len() && before[i] ==> #[trigger] visited[i]
    &&& forall|i: usize|
        i < mask.len() && visited[i as int] && !before[i as int] ==> #[trigger] all.contains(i)
}

/// What `flood_inv` says of each element.
proof fn lemma_flood_facts(
    mask: Seq<bool>,
    width: int,
    start: int,
    before: Seq<bool>,
    visited: Seq<bool>,
    all: Seq<usize>,
)
    requires
        flood_inv(mask, width, start, before, visited, all),
    ensures
        all.no_duplicates(),
        all.len() <= mask.len(),
        visited.len() == mask.len(),
        forall|k: int|
            0 <= k < all.len() ==> (#[trigger] all[k]) < mask.len() && linked(
                mask,
                width,
                start,
                all[k] as int,
            ) && visited[all[k] as int] && !before[all[k] as int],
        forall|i: int| 0 <= i < mask.len() && before[i] ==> #[trigger] visited[i],
        forall|i: usize|
            i < mask.len() && visited[i as int] && !before[i as int] ==> #[trigger] all.contains(i),
{
    reveal(flood_inv);
    lemma_distinct_below(all, mask.len());
}

proof fn lemma_flood_begin(mask: Seq<bool>, width: int, before: Seq<bool>, start: usize)
    requires
        before.len() == mask.len(),
        start < mask.len(),
        mask[start as int],
        !before[start as int],
    ensures
        flood_inv(
            mask,
            width,
            start as int,
            before,
            before.update(start as int, true),
            seq![start],
        ),
{
    reveal(flood_inv);
    lemma_linked_self(mask, width, start as int);
    let all = seq![start];
    assert forall|i: usize|
        i < mask.len() && before.update(start as int, true)[i as int]
            && !before[i as int] implies #[trigger] all.contains(i) by {
        assert(all[0] == i);
    }
}

/// Marking a masked neighbour of something linked keeps the invariant.
proof fn lemma_flood_reach(
    mask: Seq<bool>,
    width: int,
    start: int,
    before: Seq<bool>,
    visited: Seq<bool>,
    all: Seq<usize>,
    from: int,
    j: usize,
)
    requires
        flood_inv(mask, width, start, before, visited, all),
        linked(mask, width, start, from),
        touching(width, from, j as int),
        j < mask.len(),
        mask[j as int],
        !visited[j as int],
    ensures
        flood_inv(mask, width, start, before, visited.update(j as int, true), all.push(j)),
{
    reveal(flood_inv);
    let more = all.push(j);
    lemma_linked_step(mask, width, start, from, j as int);
    assert(!all.contains(j));
    let now = visited.update(j as int, true);
    assert(!before[j as int]);
    assert forall|i: usize|
        i < mask.len() && now[i as int] && !before[i as int] implies #[trigger] more.contains(
        i,
    ) by {
        if i == j {
            assert(more[all.len() as int] == i);
        } else {
            assert(all.contains(i));
            let k = all.index_of(i);
            assert(more[k] == i);
        }
    }
    assert forall|k: int| 0 <= k < more.len() implies (#[trigger] more[k]) < mask.len() && linked(
        mask,
        width,
        start,
        more[k] as int,
    ) && now[more[k] as int] && !before[more[k] as int] by {
        if k < all.len() {
            assert(more[k] == all[k]);
        }
    }
    assert(more.no_duplicates()) by {
        assert forall|a: int, b: int|
            0 <= a < more.len() && 0 <= b < more.len() && a != b implies more[a] != more[b] by {
            if a == all.len() && more[b] == j {
                assert(all[b] == j);
            }
            if b == all.len() && more[a] == j {
                assert(all[a] == j);
            }
        }
    }
}

/// Moving the last of the waiting positions to the list keeps the invariant.
proof fn lemma_flood_pop(
    mask: Seq<bool>,
    width: int,
    start: int,
    before: Seq<bool>,
    visited: Seq<bool>,
    members: Seq<usize>,
    stack: Seq<usize>,
)
    requires
        flood_inv(mask, width, start, before, visited, members + stack),
        stack.len() > 0,
    ensures
        flood_inv(
            mask,
            width,
            start,
            before,
            visited,
            members.push(stack.last()) + stack.drop_last(),
        ),
{
    reveal(flood_inv);
    let all = members + stack;
    let now = members.push(stack.last()) + stack.drop_last();
    let m = members.len() as int;
    let n = all.len() as int;
    assert forall|k: int| 0 <= k < n implies #[trigger] now[k] == all[if k < m {
        k
    } else if k == m {
        n - 1
    } else {
        k - 1
    }] by {}
    assert forall|i: usize|
        i < mask.len() && visited[i as int] && !before[i as int] implies #[trigger] now.contains(
        i,
    ) by {
        assert(all.contains(i));
        let k = all.index_of(i);
        if k < m {
            assert(now[k] == i);
        } else if k == n - 1 {
            assert(now[m] == i);
        } else {
            assert(now[k + 1] == i);
        }
    }
}

/// Whether every masked neighbour of what is listed is marked.
#[verifier::opaque]
spec fn explored(mask: Seq<bool>, width: int, visited: Seq<bool>, members: Seq<usize>) -> bool {
    forall|k: int, y: int|
        0 <= k < members.len() && touching(width, #[trigger] members[k] as int, y)
            && #[trigger] masked(mask, y) ==> visited[y]
}

proof fn lemma_explored_more(
    mask: Seq<bool>,
    width: int,
    before: Seq<bool>,
    visited: Seq<bool>,
    members: Seq<usize>,
    i: usize,
)
    requires
        explored(mask, width, before, members),
        before.len() == mask.len(),
        visited.len() == mask.len(),
        forall|y: int| 0 <= y < mask.len() && before[y] ==> #[trigger] visited[y],
        forall|y: int| touching(width, i as int, y) && #[trigger] masked(mask, y) ==> visited[y],
    ensures
        explored(mask, width, visited, members.push(i)),
{
    reveal(explored);
    let more = members.push(i);
    assert forall|k: int, y: int|
        0 <= k < more.len() && touching(width, #[trigger] more[k] as int, y) && #[trigger] masked(
            mask,
            y,
        ) implies visited[y] by {
        if k < members.len() {
            assert(more[k] == members[k]);
            assert(before[y]);
        }
    }
}

/// Once nothing waits, what is listed is the region.
proof fn lemma_flood_end(
    mask: Seq<bool>,
    width: int,
    start: usize,
    before: Seq<bool>,
    visited: Seq<bool>,
    members: Seq<usize>,
)
    requires
        mask.len() <= usize::MAX,
        flood_inv(mask, width, start as int, before, visited, members),
        explored(mask, width, visited, members),
        members.len() > 0,
        members[0] == start,
        before.len() == mask.len(),
        forall|i: int|
            0 <= i < mask.len() && #[trigger] before[i] ==> !linked(mask, width, start as int, i),
    ensures
        members.no_duplicates(),
        positions(members) == region(mask, width, start as int),
        forall|i: int|
            0 <= i < mask.len() ==> (#[trigger] visited[i] <==> before[i] || linked(
                mask,
                width,
                start as int,
                i,
            )),
{
    reveal(explored);
    let s = start as int;
    lemma_flood_facts(mask, width, s, before, visited, members);
    let set = positions(members);
    assert(set.contains(s)) by {
        assert(members[0] == s);
    }
    assert forall|x: int, y: int| #[trigger]
        set.contains(x) && #[trigger] touching(width, x, y) && masked(
            mask,
            y,
        ) implies set.contains(y) by {
        let k = choose|k: int| 0 <= k < members.len() && #[trigger] members[k] == x;
        assert(visited[y]);
        lemma_linked_step(mask, width, s, x, y);
        let u = y as usize;
        assert(members.contains(u));
        let m = members.index_of(u);
        assert(members[m] == y);
    }
    assert forall|b: int| set.contains(b) <==> linked(mask, width, s, b) by {
        if set.contains(b) {
            let k = choose|k: int| 0 <= k < members.len() && #[trigger] members[k] == b;
        }
        if linked(mask, width, s, b) {
            lemma_closed_holds_linked(mask, width, set, s, b);
        }
    }
    assert(set =~= region(mask, width, s));
    assert forall|i: int| 0 <= i < mask.len() implies (#[trigger] visited[i] <==> before[i]
        || linked(mask, width, s, i)) by {
        if visited[i] && !before[i] {
            let u = i as usize;
            assert(members.contains(u));
            let k = members.index_of(u);
            assert(members[k] == i);
            assert(set.contains(i));
        }
        if linked(mask, width, s, i) {
            assert(set.contains(i));
            let k = choose|k: int| 0 <= k < members.len() && #[trigger] members[k] == i;
        }
    }
}

/// Marks and lists everything linked to `start`.
fn flood(mask: &Vec<bool>, width: usize, visited: &mut Vec<bool>, start: usize) -> (members: Vec<
    usize,
>)
    requires
        width > 0,
        old(visited)@.len() == mask@.len(),
        start < mask@.len(),
        mask@[start as int],
        !old(visited)@[start as int],
        forall|i: int|
            0 <= i < mask@.len() && #[trigger] old(visited)@[i] ==> !linked(
                mask@,
                width as int,
                start as int,
                i,
            ),
    ensures
        final(visited)@.len() == mask@.len(),
        members@.len() > 0,
        members@[0] == start,
        members@.no_duplicates(),
        positions(members@) == region(mask@, width as int, start as int),
        forall|i: int|
            0 <= i < mask@.len() ==> (#[trigger] final(visited)@[i] <==> old(visited)@[i]
                || linked(mask@, width as int, start as int, i)),
{
    let ghost w = width as int;
    let ghost s = start as int;
    let ghost before = visited@;
    let n: usize = mask.len();
    let mut members: Vec<usize> = Vec::new();
    let mut stack: Vec<usize> = Vec::new();
    stack.push(start);
    visited[start] = true;
    proof {
        lemma_flood_begin(mask@, w, before, start);
        assert(members@ + stack@ =~= seq![start]);
        reveal(explored);
    }
    while stack.len() > 0
        invariant
            width > 0,
            w == width,
            s == start,
            n == mask@.len(),
            before == old(visited)@,
            before.len() == n,
            visited@.len() == n,
            flood_inv(mask@, w, s, before, visited@, members@ + stack@),
            explored(mask@, w, visited@, members@),
            if members@.len() == 0 { stack@ == seq![start] } else { members@[0] == start },
        decreases n - members@.len(),
    {
        proof {
            lemma_flood_facts(mask@, w, s, before, visited@, members@ + stack@);
        }
        visit(mask, width, visited, &mut members, &mut stack, start, Ghost(before));
    }
    proof {
        assert(members@ + stack@ =~= members@);
        lemma_flood_end(mask@, w, start, before, visited@, members@);
    }
    members
}

/// Lists the last of the waiting positions and marks its neighbours.
fn visit(
    mask: &Vec<bool>,
    width: usize,
    visited: &mut Vec<bool>,
    members: &mut Vec<usize>,
    stack: &mut Vec<usize>,
    start: usize,
    before: Ghost<Seq<bool>>,
)
    requires
        width > 0,
        old(stack)@.len() > 0,
        old(visited)@.len() == mask@.len(),
        flood_inv(
            mask@,
            width as int,
            start as int,
            before@,
            old(visited)@,
            old(members)@ + old(stack)@,
        ),
        explored(mask@, width as int, old(visited)@, old(members)@),
        if old(members)@.len() == 0 { old(stack)@ == seq![start] } else { old(members)@[0] == start },
    ensures
        final(visited)@.len() == mask@.len(),
        flood_inv(
            mask@,
            width as int,
            start as int,
            before@,
            final(visited)@,
            final(members)@ + final(stack)@,
        ),
        explored(mask@, width as int, final(visited)@, final(members)@),
        final(members)@.len() == old(members)@.len() + 1,
        final(members)@[0] == start,
{
    let ghost w = width as int;
    let ghost listed = members@;
    let ghost waiting = stack@;
    let ghost v0 = visited@;
    let n: usize = mask.len();
    proof {
        lemma_flood_facts(mask@, w, start as int, before@, v0, listed + waiting);
        lemma_flood_pop(mask@, w, start as int, before@, v0, listed, waiting);
    }
    let i: usize = stack.pop().unwrap();
    members.push(i);
    let ghost here = i as int;
    proof {
        assert((listed + waiting)[listed.len() + waiting.len() - 1] == i);
        assert(members@ + stack@ =~= listed.push(waiting.last()) + waiting.drop_last());
        assert(members@[0] == start);
        vstd::arithmetic::div_mod::lemma_mod_bound(here, w);
        if here == 0 {
            vstd::arithmetic::div_mod::lemma_small_mod(0, w as nat);
        }
    }
    if i % width > 0 {
        expand(mask, width, visited, members, stack, start, before, i, i - 1);
    }
    let ghost v1 = visited@;
    if i + 1 < n && (i + 1) % width > 0 {
        expand(mask, width, visited, members, stack, start, before, i, i + 1);
    }
    let ghost v2 = visited@;
    if i >= width {
        expand(mask, width, visited, members, stack, start, before, i, i - width);
    }
    let ghost v3 = visited@;
    if width < n - i {
        expand(mask, width, visited, members, stack, start, before, i, i + width);
    }
    proof {
        assert forall|y: int| touching(w, here, y) && #[trigger] masked(
            mask@,
            y,
        ) implies visited@[y] by {
            if here == y + 1 && here % w != 0 {
                assert(v1[y]);
                assert(v2[y]);
                assert(v3[y]);
            } else if y == here + 1 && y % w != 0 {
                assert(v2[y]);
                assert(v3[y]);
            } else if here == y + w {
                assert(v3[y]);
            }
        }
        assert forall|y: int| 0 <= y < mask@.len() && v0[y] implies #[trigger] visited@[y] by {
            assert(v1[y]);
            assert(v2[y]);
            assert(v3[y]);
        }
        lemma_explored_more(mask@, w, v0, visited@, listed, i);
    }
}

/// Marks the neighbour `j` of `from`, if it is part of the mask and not marked yet.
fn expand(
    mask: &Vec<bool>,
    width: usize,
    visited: &mut Vec<bool>,
    members: &Vec<usize>,
    stack: &mut Vec<usize>,
    start: usize,
    before: Ghost<Seq<bool>>,
    from: usize,
    j: usize,
)
    requires
        j < mask@.len(),
        old(visited)@.len() == mask@.len(),
        touching(width as int, from as int, j as int),
        linked(mask@, width as int, start as int, from as int),
        flood_inv(
            mask@,
            width as int,
            start as int,
            before@,
            old(visited)@,
            members@ + old(stack)@,
        ),
    ensures
        final(visited)@.len() == mask@.len(),
        mask@[j as int] ==> final(visited)@[j as int],
        forall|y: int|
            0 <= y < mask@.len() && old(visited)@[y] ==> #[trigger] final(visited)@[y],
        flood_inv(
            mask@,
            width as int,
            start as int,
            before@,
            final(visited)@,
            members@ + final(stack)@,
        ),
        final(stack)@.len() >= old(stack)@.len(),
        final(stack)@.take(old(stack)@.len() as int) == old(stack)@,
{
    let ghost was = stack@;
    assert(was.take(was.len() as int) =~= was);
    if !visited[j] && mask[j] {
        proof {
            lemma_flood_reach(
                mask@,
                width as int,
                start as int,
                before@,
                visited@,
                members@ + stack@,
                from as int,
                j,
            );
        }
        visited[j] = true;
        stack.push(j);
        assert(members@ + stack@ =~= (members@ + was).push(j));
        assert(stack@.take(was.len() as int) =~= was);
    }
}

/// The regions of at least `least` positions, each listed once from its first position, in
/// the order of their first positions.
pub open spec fn are_regions(
    mask: Seq<bool>,
    width: int,
    least: nat,
    upto: int,
    found: Seq<Vec<usize>>,
) -> bool {
    &&& forall|k: int|
        0 <= k < found.len() ==> {
            let m = (#[trigger] found[k])@;
            &&& m.len() >= least
            &&& m.len() > 0
            &&& m.no_duplicates()
            &&& m[0] < upto
            &&& leads(mask, width, m[0] as int)
            &&& positions(m) == region(mask, width, m[0] as int)
        }
    &&& forall|k: int, l: int|
        0 <= k < l < found.len() ==> (#[trigger] found[k])@[0] < (#[trigger] found[l])@[0]
    &&& forall|a: int| #[trigger]
        leads(mask, width, a) && a < upto && region(mask, width, a).len() >= least ==> exists|
            k: int,
        |
            0 <= k < found.len() && (#[trigger] found[k])@[0] == a
}

proof fn lemma_positions_len(members: Seq<usize>)
    requires
        members.no_duplicates(),
    ensures
        positions(members).finite(),
        positions(members).len() == members.len(),
{
    let ints = members.map_values(|x: usize| x as int);
    assert(ints.no_duplicates());
    ints.unique_seq_to_set();
    vstd::seq_lib::seq_to_set_is_finite(ints);
    assert forall|i: int| ints.to_set().contains(i) <==> positions(members).contains(i) by {
        if ints.contains(i) {
            let k = ints.index_of(i);
            assert(members[k] == i);
        }
        if positions(members).contains(i) {
            let k = choose|k: int| 0 <= k < members.len() && #[trigger] members[k] == i;
            assert(ints[k] == i);
        }
    }
    assert(ints.to_set() =~= positions(members));
}

/// The regions of a mask over rows of `width` that have at least `least` positions.
pub fn regions(mask: &Vec<bool>, width: usize, least: usize) -> (found: Vec<Vec<usize>>)
    requires
        width > 0,
        least > 0,
    ensures
        are_regions(mask@, width as int, least as nat, mask@.len() as int, found@),
{
    let ghost w = width as int;
    let n: usize = mask.len();
    let mut visited: Vec<bool> = Vec::new();
    let mut i: usize = 0;
    while i < n
        invariant
            i <= n,
            visited@.len() == i,
            forall|k: int| 0 <= k < i ==> !visited@[k],
        decreases n - i,
    {
        visited.push(false);
        i += 1;
    }
    let mut found: Vec<Vec<usize>> = Vec::new();
    let mut start: usize = 0;
    while start < n
        invariant
            n == mask@.len(),
            w == width,
            width > 0,
            least > 0,
            start <= n,
            visited@.len() == n,
            forall|j: int|
                0 <= j < n ==> (#[trigger] visited@[j] <==> exists|a: int|
                    a < start && #[trigger] linked(mask@, w, a, j)),
            are_regions(mask@, w, least as nat, start as int, found@),
        decreases n - start,
    {
        let ghost s = start as int;
        let ghost before = visited@;
        let ghost held = found@;
        if !visited[start] && mask[start] {
            assert forall|i: int| 0 <= i < n && #[trigger] visited@[i] implies !linked(
                mask@,
                w,
                s,
                i,
            ) by {
                if linked(mask@, w, s, i) {
                    let a = choose|a: int| a < start && #[trigger] linked(mask@, w, a, i);
                    lemma_linked_back(mask@, w, s, i);
                    lemma_linked_join(mask@, w, a, i, s);
                    assert(visited@[s]);
                }
            }
            assert(leads(mask@, w, s)) by {
                assert forall|b: int| #[trigger] linked(mask@, w, s, b) implies s <= b by {
                    if b < s {
                        lemma_linked_back(mask@, w, s, b);
                        assert(visited@[s]);
                    }
                }
            }
            let members = flood(mask, width, &mut visited, start);
            proof {
                lemma_positions_len(members@);
            }
            assert forall|j: int| 0 <= j < n implies (#[trigger] visited@[j] <==> exists|a: int|
                a < start + 1 && #[trigger] linked(mask@, w, a, j)) by {
                if linked(mask@, w, s, j) {
                    assert(s < start + 1);
                }
                if before[j] {
                    let a = choose|a: int| a < start && #[trigger] linked(mask@, w, a, j);
                    assert(a < start + 1);
                }
                if exists|a: int| a < start + 1 && #[trigger] linked(mask@, w, a, j) {
                    let a = choose|a: int| a < start + 1 && #[trigger] linked(mask@, w, a, j);
                    if a < start {
                        assert(before[j]);
                    }
                }
            }
            if members.len() >= least {
                found.push(members);
                assert forall|a: int| #[trigger]
                    leads(mask@, w, a) && a < start + 1 && region(mask@, w, a).len()
                        >= least implies exists|k: int|
                    0 <= k < found@.len() && (#[trigger] found@[k])@[0] == a by {
                    if a == s {
                        assert(found@[held.len() as int]@[0] == a);
                    } else {
                        let k = choose|k: int|
                            0 <= k < held.len() && (#[trigger] held[k])@[0] == a;
                        assert(found@[k] == held[k]);
                    }
                }
                assert(are_regions(mask@, w, least as nat, start + 1, found@));
            } else {
                assert(are_regions(mask@, w, least as nat, start + 1, found@));
            }
        } else {
            assert forall|j: int| 0 <= j < n implies (#[trigger] visited@[j] <==> exists|a: int|
                a < start + 1 && #[trigger] linked(mask@, w, a, j)) by {
                if before[j] {
                    let a = choose|a: int| a < start && #[trigger] linked(mask@, w, a, j);
                    assert(a < start + 1);
                }
                if exists|a: int| a < start + 1 && #[trigger] linked(mask@, w, a, j) {
                    let a = choose|a: int| a < start + 1 && #[trigger] linked(mask@, w, a, j);
                    if a == s {
                        let path = choose|path: Seq<int>| #[trigger]
                            is_path(mask@, w, path) && path[0] == s && path.last() == j;
                        assert(masked(mask@, path[0]));
                        assert(visited@[s]);
                        let c = choose|c: int| c < start && #[trigger] linked(mask@, w, c, s);
                        lemma_linked_join(mask@, w, c, s, j);
                    }
                }
            }
            assert(!leads(mask@, w, s)) by {
                if leads(mask@, w, s) {
                    assert(visited@[s]);
                    let c = choose|c: int| c < start && #[trigger] linked(mask@, w, c, s);
                    lemma_linked_back(mask@, w, c, s);
                }
            }
            assert(are_regions(mask@, w, least as nat, start + 1, found@));
        }
        start += 1;
    }
    assert forall|a: int| #[trigger] leads(mask@, w, a) implies a < n by {}
    found
}

proof fn lemma_some_position_leads(mask: Seq<bool>, width: int, i: int) -> (a: int)
    requires
        masked(mask, i),
    ensures
        leads(mask, width, a),
        linked(mask, width, a, i),
    decreases i,
{
    lemma_linked_self(mask, width, i);
    if leads(mask, width, i) {
        i
    } else {
        let b = choose|b: int| #[trigger] linked(mask, width, i, b) && b < i;
        let path = choose|path: Seq<int>| #[trigger]
            is_path(mask, width, path) && path[0] == i && path.last() == b;
        assert(masked(mask, path[path.len() - 1]));
        let a = lemma_some_position_leads(mask, width, b);
        lemma_linked_back(mask, width, i, b);
        lemma_linked_join(mask, width, a, b, i);
        a
    }
}

/// Every position of a region with enough positions is listed, and in one region only.
pub proof fn law_each_position_in_one_region(
    mask: Seq<bool>,
    width: int,
    least: nat,
    found: Seq<Vec<usize>>,
    i: int,
)
    requires
        are_regions(mask, width, least, mask.len() as int, found),
        masked(mask, i),
        region(mask, width, i).len() >= least,
    ensures
        exists|k: int| 0 <= k < found.len() && positions((#[trigger] found[k])@).contains(i),
        forall|k: int, l: int|
            0 <= k < found.len() && 0 <= l < found.len() && positions(
                (#[trigger] found[k])@,
            ).contains(i) && positions((#[trigger] found[l])@).contains(i) ==> k == l,
{
    let a = lemma_some_position_leads(mask, width, i);
    assert forall|b: int|
        region(mask, width, a).contains(b) <==> region(mask, width, i).contains(b) by {
        lemma_linked_back(mask, width, a, i);
        if linked(mask, width, a, b) {
            lemma_linked_join(mask, width, i, a, b);
        }
        if linked(mask, width, i, b) {
            lemma_linked_join(mask, width, a, i, b);
        }
    }
    assert(region(mask, width, a) =~= region(mask, width, i));
    let k = choose|k: int| 0 <= k < found.len() && (#[trigger] found[k])@[0] == a;
    assert(region(mask, width, a).contains(i));
    assert(positions(found[k]@).contains(i));
    assert forall|k: int, l: int|
        0 <= k < found.len() && 0 <= l < found.len() && positions(
            (#[trigger] found[k])@,
        ).contains(i) && positions((#[trigger] found[l])@).contains(i) implies k == l by {
        let x = found[k]@[0] as int;
        let y = found[l]@[0] as int;
        assert(region(mask, width, x).contains(i));
        assert(region(mask, width, y).contains(i));
        lemma_linked_back(mask, width, x, i);
        lemma_linked_back(mask, width, y, i);
        lemma_linked_join(mask, width, x, i, y);
        lemma_linked_join(mask, width, y, i, x);
        assert(x == y);
    }
}

/// Positions touch along a side and in no other way: those one column apart in one row, and those
/// one row apart in one column; not across a corner, nor from the end of a row to the beginning of
/// the next.
pub proof fn law_touching_is_along_a_side(width: int, x: int, y: int, u: int, v: int)
    requires
        width >= 1,
        0 <= x < width,
        0 <= u < width,
    ensures
        touching(width, y * width + x, v * width + u) <==> {
            ||| v == y && (u == x + 1 || u == x - 1)
            ||| u == x && (v == y + 1 || v == y - 1)
        },
{
    let a = y * width + x;
    let b = v * width + u;
    vstd::arithmetic::div_mod::lemma_fundamental_div_mod_converse(a, width, y, x);
    vstd::arithmetic::div_mod::lemma_fundamental_div_mod_converse(b, width, v, u);
    assert((y + 1) * width == y * width + width) by (nonlinear_arith);
    assert((v + 1) * width == v * width + width) by (nonlinear_arith);
    if b == a + width {
        vstd::arithmetic::div_mod::lemma_fundamental_div_mod_converse(b, width, y + 1, x);
    }
    if a == b + width {
        vstd::arithmetic::div_mod::lemma_fundamental_div_mod_converse(a, width, v + 1, u);
    }
    if b == a + 1 {
        if x + 1 < width {
            vstd::arithmetic::div_mod::lemma_fundamental_div_mod_converse(b, width, y, x + 1);
        } else {
            vstd::arithmetic::div_mod::lemma_fundamental_div_mod_converse(b, width, y + 1, 0);
        }
    }
    if a == b + 1 {
        if u + 1 < width {
            vstd::arithmetic::div_mod::lemma_fundamental_div_mod_converse(a, width, v, u + 1);
        } else {
            vstd::arithmetic::div_mod::lemma_fundamental_div_mod_converse(a, width, v + 1, 0);
        }
    }
}

} // verus!
