//! The frames of the radar loop, in order of validity, and the cursor over them.

use vstd::prelude::*;
use crate::time::Stamp;

verus! {

/// One frame. `field` is whatever the display samples.
#[derive(Debug, Clone)]
pub struct RadarFrame<F> {
    pub captured_at: Stamp,
    pub field: F,
    /// Whether this is a forecast rather than an observation.
    pub projected: bool,
}

/// A bounded list of frames, no two of one moment, with a cursor.
#[derive(Debug, Clone)]
pub struct FrameRing<F> {
    frames: Vec<RadarFrame<F>>,
    capacity: usize,
    cursor: usize,
    playing: bool,
    follow_live: bool,
}

/// What a ring holds.
#[verifier::ext_equal]
pub struct Loop<F> {
    pub frames: Seq<RadarFrame<F>>,
    pub capacity: nat,
    pub cursor: int,
    pub playing: bool,
    pub follow_live: bool,
}

/// How many of the leading frames are no later than `t`.
pub open spec fn slot<F>(frames: Seq<RadarFrame<F>>, t: Stamp) -> int
    decreases frames.len(),
{
    if frames.len() == 0 || t.before(frames[0].captured_at) {
        0
    } else {
        1 + slot(frames.drop_first(), t)
    }
}

/// The position of the frame of moment `t`, where there is one.
pub open spec fn frame_at<F>(frames: Seq<RadarFrame<F>>, t: Stamp) -> Option<int> {
    let s = slot(frames, t);
    if s > 0 && frames[s - 1].captured_at == t {
        Some(s - 1)
    } else {
        None
    }
}

/// The observed frames.
pub open spec fn observed<F>(frames: Seq<RadarFrame<F>>) -> Seq<RadarFrame<F>>
    decreases frames.len(),
{
    if frames.len() == 0 {
        Seq::empty()
    } else if frames.last().projected {
        observed(frames.drop_last())
    } else {
        observed(frames.drop_last()).push(frames.last())
    }
}

/// The lesser of two numbers.
pub open spec fn least_of(a: int, b: int) -> int {
    if a < b {
        a
    } else {
        b
    }
}

/// The greater of two numbers.
pub open spec fn greatest_of(a: int, b: int) -> int {
    if a < b {
        b
    } else {
        a
    }
}

/// The last position of a list, zero where it is empty.
pub open spec fn last_index(len: nat) -> int {
    greatest_of(len - 1, 0)
}

impl<F> Loop<F> {
    /// Frames stand in strict order of time and fit the capacity; the cursor is on a frame
    /// if there is any; following means being on the newest.
    pub open spec fn wf(self) -> bool {
        &&& self.capacity >= 1
        &&& self.frames.len() <= self.capacity
        &&& forall|i: int, j: int|
            0 <= i < j < self.frames.len() ==> (#[trigger] self.frames[i]).captured_at.before(
                (#[trigger] self.frames[j]).captured_at,
            )
        &&& 0 <= self.cursor <= last_index(self.frames.len())
        &&& self.follow_live ==> self.cursor == last_index(self.frames.len())
    }

    /// The frame under the cursor.
    pub open spec fn current(self) -> Option<RadarFrame<F>> {
        if self.cursor < self.frames.len() {
            Some(self.frames[self.cursor])
        } else {
            None
        }
    }

    /// The loop after a frame comes in. One of a moment already held takes that frame's
    /// place. Another goes where its time puts it, the oldest leaves where the loop was
    /// full, and the cursor stays on its frame unless it follows the newest.
    pub open spec fn pushed(self, frame: RadarFrame<F>) -> Loop<F> {
        match frame_at(self.frames, frame.captured_at) {
            Some(i) => Loop { frames: self.frames.update(i, frame), ..self },
            None => {
                let at = slot(self.frames, frame.captured_at);
                let more = self.frames.insert(at, frame);
                let moved = if at <= self.cursor && self.cursor + 1 < more.len() {
                    self.cursor + 1
                } else {
                    self.cursor
                };
                let excess = greatest_of(more.len() - self.capacity, 0);
                Loop {
                    frames: more.skip(excess),
                    cursor: if self.follow_live {
                        more.len() - excess - 1
                    } else {
                        greatest_of(moved - excess, 0)
                    },
                    ..self
                }
            },
        }
    }

    /// The loop without its forecasts: the cursor moves back by as many as stood at or
    /// before it.
    pub open spec fn without_projected(self) -> Loop<F> {
        let kept = observed(self.frames);
        let upto = least_of(self.cursor + 1, self.frames.len() as int);
        let gone = upto - observed(self.frames.take(upto)).len();
        Loop {
            frames: kept,
            cursor: if self.follow_live {
                last_index(kept.len())
            } else {
                least_of(greatest_of(self.cursor - gone, 0), last_index(kept.len()))
            },
            ..self
        }
    }

    pub open spec fn stepped_forward(self) -> Loop<F> {
        if self.frames.len() == 0 {
            self
        } else {
            let cursor = least_of(self.cursor + 1, last_index(self.frames.len()));
            Loop { cursor, follow_live: cursor == last_index(self.frames.len()), ..self }
        }
    }

    pub open spec fn stepped_back(self) -> Loop<F> {
        Loop { cursor: greatest_of(self.cursor - 1, 0), follow_live: false, ..self }
    }

    pub open spec fn at_oldest(self) -> Loop<F> {
        Loop { cursor: 0, follow_live: self.frames.len() <= 1, ..self }
    }

    pub open spec fn at_newest(self) -> Loop<F> {
        Loop { cursor: last_index(self.frames.len()), follow_live: true, ..self }
    }

    /// The loop one step on in playback, from the newest frame back to the oldest.
    pub open spec fn advanced(self) -> Loop<F> {
        if !self.playing || self.frames.len() == 0 {
            self
        } else {
            let cursor = if self.cursor + 1 >= self.frames.len() {
                0
            } else {
                self.cursor + 1
            };
            Loop { cursor, follow_live: cursor + 1 == self.frames.len(), ..self }
        }
    }
}

proof fn lemma_slot<F>(frames: Seq<RadarFrame<F>>, t: Stamp)
    ensures
        0 <= slot(frames, t) <= frames.len(),
        forall|i: int| 0 <= i < slot(frames, t) ==> !t.before((#[trigger] frames[i]).captured_at),
        slot(frames, t) < frames.len() ==> t.before(frames[slot(frames, t)].captured_at),
    decreases frames.len(),
{
    if frames.len() > 0 && !t.before(frames[0].captured_at) {
        let rest = frames.drop_first();
        lemma_slot(rest, t);
        assert forall|i: int| 0 <= i < slot(frames, t) implies !t.before(
            (#[trigger] frames[i]).captured_at,
        ) by {
            if i > 0 {
                assert(frames[i] == rest[i - 1]);
            }
        }
    }
}

proof fn lemma_slot_is<F>(frames: Seq<RadarFrame<F>>, t: Stamp, at: int)
    requires
        0 <= at <= frames.len(),
        forall|i: int| 0 <= i < at ==> !t.before((#[trigger] frames[i]).captured_at),
        at < frames.len() ==> t.before(frames[at].captured_at),
    ensures
        slot(frames, t) == at,
{
    lemma_slot(frames, t);
    let s = slot(frames, t);
    if s < at {
        assert(!t.before(frames[s].captured_at));
    }
}

proof fn lemma_observed_len<F>(frames: Seq<RadarFrame<F>>)
    ensures
        observed(frames).len() <= frames.len(),
    decreases frames.len(),
{
    if frames.len() > 0 {
        lemma_observed_len(frames.drop_last());
    }
}

/// Every observed frame is one of the frames, and keeps its place among the others.
proof fn lemma_observed_sorted<F>(frames: Seq<RadarFrame<F>>)
    requires
        forall|i: int, j: int|
            0 <= i < j < frames.len() ==> (#[trigger] frames[i]).captured_at.before(
                (#[trigger] frames[j]).captured_at,
            ),
    ensures
        forall|i: int, j: int|
            0 <= i < j < observed(frames).len() ==> (#[trigger] observed(
                frames,
            )[i]).captured_at.before((#[trigger] observed(frames)[j]).captured_at),
        forall|i: int|
            0 <= i < observed(frames).len() ==> !(#[trigger] observed(frames)[i]).projected
                && frames.contains(observed(frames)[i]),
    decreases frames.len(),
{
    if frames.len() > 0 {
        let before = frames.drop_last();
        lemma_observed_sorted(before);
        let kept = observed(before);
        assert forall|i: int| 0 <= i < kept.len() implies (#[trigger] kept[i]).captured_at.before(
            frames.last().captured_at,
        ) && frames.contains(kept[i]) by {
            assert(before.contains(kept[i]));
            let k = before.index_of(kept[i]);
            assert(frames[k] == kept[i]);
            assert(frames[frames.len() - 1] == frames.last());
        }
        assert(frames.contains(frames.last())) by {
            assert(frames[frames.len() - 1] == frames.last());
        }
    }
}

impl<F> FrameRing<F> {
    /// What this ring holds.
    pub closed spec fn view(self) -> Loop<F> {
        Loop {
            frames: self.frames@,
            capacity: self.capacity as nat,
            cursor: self.cursor as int,
            playing: self.playing,
            follow_live: self.follow_live,
        }
    }

    /// An empty ring with room for `capacity` frames, for one at least, that plays and
    /// follows the newest frame.
    pub fn new(capacity: usize) -> (r: FrameRing<F>)
        ensures
            r@.wf(),
            r@ == (Loop::<F> {
                frames: Seq::empty(),
                capacity: greatest_of(capacity as int, 1) as nat,
                cursor: 0,
                playing: true,
                follow_live: true,
            }),
    {
        let r = FrameRing {
            frames: Vec::new(),
            capacity: if capacity < 1 {
                1
            } else {
                capacity
            },
            cursor: 0,
            playing: true,
            follow_live: true,
        };
        assert(r@.frames =~= Seq::<RadarFrame<F>>::empty());
        r
    }

    /// Takes in a frame by its time, whatever the order in which frames arrive.
    pub fn push(&mut self, frame: RadarFrame<F>)
        requires
            old(self)@.wf(),
        ensures
            final(self)@.wf(),
            final(self)@ == old(self)@.pushed(frame),
    {
        let ghost was = self@;
        let t: Stamp = frame.captured_at;
        let mut at: usize = 0;
        while at < self.frames.len() && !t.is_before(&self.frames[at].captured_at)
            invariant
                self@ == was,
                was.wf(),
                t == frame.captured_at,
                at <= self.frames@.len(),
                forall|i: int| 0 <= i < at ==> !t.before((#[trigger] was.frames[i]).captured_at),
            decreases self.frames@.len() - at,
        {
            at += 1;
        }
        proof {
            lemma_slot_is(was.frames, t, at as int);
        }
        if at > 0 && self.frames[at - 1].captured_at == t {
            self.frames[at - 1] = frame;
            assert(self@.frames =~= was.pushed(frame).frames);
            assert forall|i: int, j: int| 0 <= i < j < self@.frames.len() implies (
            #[trigger] self@.frames[i]).captured_at.before((#[trigger] self@.frames[j]).captured_at) by {
                assert(self@.frames[i].captured_at == was.frames[i].captured_at);
                assert(self@.frames[j].captured_at == was.frames[j].captured_at);
            }
            return;
        }
        let ghost more = was.frames.insert(at as int, frame);
        assert forall|i: int, j: int| 0 <= i < j < more.len() implies (
        #[trigger] more[i]).captured_at.before((#[trigger] more[j]).captured_at) by {
            if at > 0 {
                let p = was.frames[at - 1];
                assert(p.captured_at.before(t));
                if j == at && i < at - 1 {
                    assert(was.frames[i].captured_at.before(p.captured_at));
                }
            }
            if at < was.frames.len() && i == at && j > at + 1 {
                assert(was.frames[at as int].captured_at.before(was.frames[j - 1].captured_at));
            }
            if i < at && j > at {
                assert(was.frames[i].captured_at.before(was.frames[j - 1].captured_at));
            }
        }
        if self.frames.len() == self.capacity {
            // Room is made first: the oldest frame leaves, which may be the new one.
            if at == 0 {
                assert(more.skip(1) =~= was.frames);
                if self.follow_live {
                    self.cursor = self.frames.len() - 1;
                }
                assert(self@ =~= was.pushed(frame));
                return;
            }
            self.frames.remove(0);
            self.frames.insert(at - 1, frame);
            assert(self.frames@ =~= more.skip(1));
            if at > self.cursor {
                self.cursor = if self.cursor > 0 {
                    self.cursor - 1
                } else {
                    0
                };
            }
        } else {
            self.frames.insert(at, frame);
            assert(self.frames@ =~= more.skip(0));
            if at <= self.cursor && self.cursor + 1 < self.frames.len() {
                self.cursor += 1;
            }
        }
        if self.follow_live {
            self.cursor = self.frames.len() - 1;
        }
        assert(self@ =~= was.pushed(frame));
    }

    /// Takes every forecast out, wherever it stands among the observations.
    pub fn drop_projected(&mut self)
        requires
            old(self)@.wf(),
        ensures
            final(self)@.wf(),
            final(self)@ == old(self)@.without_projected(),
    {
        let ghost was = self@;
        let ghost all = self.frames@;
        let n: usize = self.frames.len();
        let mut k: usize = 0;
        let mut i: usize = 0;
        let mut gone: usize = 0;
        assert(self.frames@ =~= observed(all.take(0)) + all.skip(0));
        let ghost upto = least_of(was.cursor + 1, all.len() as int);
        while k < n
            invariant
                k <= n,
                n == all.len(),
                was.frames == all,
                was.wf(),
                i == observed(all.take(k as int)).len(),
                i <= k,
                self.frames@ == observed(all.take(k as int)) + all.skip(k as int),
                self.cursor == was.cursor,
                self.capacity == was.capacity,
                self.playing == was.playing,
                self.follow_live == was.follow_live,
                upto == least_of(was.cursor + 1, all.len() as int),
                gone <= k,
                gone == least_of(upto, k as int) - observed(
                    all.take(least_of(upto, k as int)),
                ).len(),
            decreases n - k,
        {
            let ghost kept = observed(all.take(k as int));
            assert(all.take(k + 1).drop_last() =~= all.take(k as int));
            assert(all.take(k + 1).last() == all[k as int]);
            assert(self.frames@[i as int] == all[k as int]);
            if self.frames[i].projected {
                self.frames.remove(i);
                assert(self.frames@ =~= kept + all.skip(k + 1));
                if k <= self.cursor {
                    gone += 1;
                }
            } else {
                i += 1;
                assert(self.frames@ =~= kept.push(all[k as int]) + all.skip(k + 1));
            }
            k += 1;
        }
        assert(all.take(n as int) =~= all);
        assert(self.frames@ =~= observed(all));
        assert(least_of(upto, n as int) == upto);
        proof {
            lemma_observed_sorted(all);
            lemma_observed_len(all);
            lemma_observed_len(all.take(upto));
        }
        let last: usize = if self.frames.len() > 0 {
            self.frames.len() - 1
        } else {
            0
        };
        let back: usize = if self.cursor > gone {
            self.cursor - gone
        } else {
            0
        };
        self.cursor = if self.follow_live || back > last {
            last
        } else {
            back
        };
        assert(self@ =~= was.without_projected());
    }

    /// How many frames there are.
    pub fn len(&self) -> (r: usize)
        ensures
            r == self@.frames.len(),
    {
        self.frames.len()
    }

    pub fn is_empty(&self) -> (r: bool)
        ensures
            r == (self@.frames.len() == 0),
    {
        self.frames.len() == 0
    }

    /// The cursor's position.
    pub fn cursor(&self) -> (r: usize)
        ensures
            r == self@.cursor,
    {
        self.cursor
    }

    /// The frame under the cursor.
    pub fn current(&self) -> (r: Option<&RadarFrame<F>>)
        ensures
            r is Some <==> self@.current() is Some,
            r matches Some(f) ==> self@.current() == Some(*f),
    {
        if self.cursor < self.frames.len() {
            Some(&self.frames[self.cursor])
        } else {
            None
        }
    }

    /// The frames, oldest first.
    pub fn frames(&self) -> (r: &Vec<RadarFrame<F>>)
        ensures
            r@ == self@.frames,
    {
        &self.frames
    }

    pub fn is_playing(&self) -> (r: bool)
        ensures
            r == self@.playing,
    {
        self.playing
    }

    pub fn is_following_live(&self) -> (r: bool)
        ensures
            r == self@.follow_live,
    {
        self.follow_live
    }

    pub fn toggle_play(&mut self)
        requires
            old(self)@.wf(),
        ensures
            final(self)@.wf(),
            final(self)@ == (Loop { playing: !old(self)@.playing, ..old(self)@ }),
    {
        self.playing = !self.playing;
    }

    /// One frame toward the newest.
    pub fn step_forward(&mut self)
        requires
            old(self)@.wf(),
        ensures
            final(self)@.wf(),
            final(self)@ == old(self)@.stepped_forward(),
    {
        if self.frames.len() == 0 {
            return;
        }
        let last: usize = self.frames.len() - 1;
        if self.cursor < last {
            self.cursor += 1;
        }
        self.follow_live = self.cursor == last;
    }

    /// One frame toward the oldest.
    pub fn step_back(&mut self)
        requires
            old(self)@.wf(),
        ensures
            final(self)@.wf(),
            final(self)@ == old(self)@.stepped_back(),
    {
        self.cursor = if self.cursor > 0 {
            self.cursor - 1
        } else {
            0
        };
        self.follow_live = false;
    }

    pub fn jump_oldest(&mut self)
        requires
            old(self)@.wf(),
        ensures
            final(self)@.wf(),
            final(self)@ == old(self)@.at_oldest(),
    {
        self.cursor = 0;
        self.follow_live = self.frames.len() <= 1;
    }

    pub fn jump_newest(&mut self)
        requires
            old(self)@.wf(),
        ensures
            final(self)@.wf(),
            final(self)@ == old(self)@.at_newest(),
    {
        self.cursor = if self.frames.len() > 0 {
            self.frames.len() - 1
        } else {
            0
        };
        self.follow_live = true;
    }

    /// One step of playback.
    pub fn advance_playback(&mut self)
        requires
            old(self)@.wf(),
        ensures
            final(self)@.wf(),
            final(self)@ == old(self)@.advanced(),
    {
        if !self.playing || self.frames.len() == 0 {
            return;
        }
        self.cursor = if self.cursor + 1 >= self.frames.len() {
            0
        } else {
            self.cursor + 1
        };
        self.follow_live = self.cursor + 1 == self.frames.len();
    }
}

/// A frame that comes in does not move the view of someone looking back: the cursor stays on
/// the moment it was on, except where that frame was the oldest of a full loop and had to
/// leave, when it goes to the oldest frame left.
pub proof fn law_push_does_not_move_the_view<F>(ring: Loop<F>, frame: RadarFrame<F>)
    requires
        ring.wf(),
        !ring.follow_live,
        ring.frames.len() > 0,
    ensures
        ({
            let after = ring.pushed(frame);
            let full = ring.frames.len() == ring.capacity;
            let fresh = frame_at(ring.frames, frame.captured_at) is None;
            if fresh && full && ring.cursor == 0 && slot(ring.frames, frame.captured_at) > 0 {
                after.cursor == 0
            } else {
                after.frames[after.cursor].captured_at == ring.frames[ring.cursor].captured_at
            }
        }),
{
    lemma_slot(ring.frames, frame.captured_at);
}

/// Someone who follows the newest frame stays on the newest frame.
pub proof fn law_following_stays_on_newest<F>(ring: Loop<F>, frame: RadarFrame<F>)
    requires
        ring.wf(),
        ring.follow_live,
    ensures
        ring.pushed(frame).follow_live,
        ring.pushed(frame).cursor == last_index(ring.pushed(frame).frames.len()),
        ring.without_projected().cursor == last_index(ring.without_projected().frames.len()),
{
    lemma_slot(ring.frames, frame.captured_at);
}

/// Two frames of one moment never stand side by side: the later to arrive replaces the
/// earlier, and the loop does not grow.
pub proof fn law_same_moment_replaces<F>(ring: Loop<F>, frame: RadarFrame<F>, i: int)
    requires
        ring.wf(),
        0 <= i < ring.frames.len(),
        ring.frames[i].captured_at == frame.captured_at,
    ensures
        ring.pushed(frame).frames == ring.frames.update(i, frame),
{
    let s = slot(ring.frames, frame.captured_at);
    lemma_slot(ring.frames, frame.captured_at);
    if s <= i {
        if s < i {
            assert(ring.frames[s].captured_at.before(ring.frames[i].captured_at));
        }
    } else if s - 1 > i {
        assert(ring.frames[i].captured_at.before(ring.frames[s - 1].captured_at));
    }
}

proof fn lemma_observed_concat<F>(frames: Seq<RadarFrame<F>>, k: int)
    requires
        0 <= k <= frames.len(),
    ensures
        observed(frames.take(k)).len() <= observed(frames).len(),
        forall|i: int|
            0 <= i < observed(frames.take(k)).len() ==> observed(frames)[i] == (#[trigger] observed(
                frames.take(k),
            )[i]),
    decreases frames.len() - k,
{
    if k < frames.len() {
        lemma_observed_concat(frames, k + 1);
        let a = observed(frames.take(k));
        let b = observed(frames.take(k + 1));
        assert(frames.take(k + 1).drop_last() =~= frames.take(k));
        assert forall|i: int| 0 <= i < a.len() implies observed(frames)[i] == (#[trigger] a[i]) by {
            assert(b[i] == a[i]);
        }
    } else {
        assert(frames.take(k) =~= frames);
    }
}

/// Taking the forecasts out leaves the view on the observation it was on.
pub proof fn law_dropping_forecasts_keeps_the_view<F>(ring: Loop<F>)
    requires
        ring.wf(),
        !ring.follow_live,
        ring.frames.len() > 0,
        !ring.frames[ring.cursor].projected,
    ensures
        ring.without_projected().current() == ring.current(),
{
    let upto = ring.cursor + 1;
    let head = ring.frames.take(upto);
    lemma_observed_concat(ring.frames, upto);
    lemma_observed_len(head.drop_last());
    assert(head.last() == ring.frames[ring.cursor]);
    let n = observed(head).len();
    assert(observed(head)[n - 1] == ring.frames[ring.cursor]);
    assert(observed(ring.frames)[n - 1] == observed(head)[n - 1]);
}

/// Playback visits every frame and comes back: as many steps as there are frames end on the
/// frame they began with.
pub proof fn law_playback_comes_round<F>(ring: Loop<F>, n: nat)
    requires
        ring.wf(),
        ring.playing,
        ring.frames.len() > 0,
    ensures
        played(ring, n).cursor == (ring.cursor + n) % (ring.frames.len() as int),
        played(ring, n).frames == ring.frames,
        played(ring, ring.frames.len()).cursor == ring.cursor,
    decreases n,
{
    let len = ring.frames.len() as int;
    lemma_played(ring, n);
    lemma_played(ring, ring.frames.len());
    vstd::arithmetic::div_mod::lemma_mod_add_multiples_vanish(ring.cursor, len);
    vstd::arithmetic::div_mod::lemma_small_mod(ring.cursor as nat, len as nat);
}

/// The loop after `n` steps of playback.
pub open spec fn played<F>(ring: Loop<F>, n: nat) -> Loop<F>
    decreases n,
{
    if n == 0 {
        ring
    } else {
        played(ring, (n - 1) as nat).advanced()
    }
}

proof fn lemma_played<F>(ring: Loop<F>, n: nat)
    requires
        ring.wf(),
        ring.playing,
        ring.frames.len() > 0,
    ensures
        played(ring, n).cursor == (ring.cursor + n) % (ring.frames.len() as int),
        played(ring, n).frames == ring.frames,
        played(ring, n).playing,
    decreases n,
{
    let len = ring.frames.len() as int;
    if n == 0 {
        vstd::arithmetic::div_mod::lemma_small_mod(ring.cursor as nat, len as nat);
    } else {
        lemma_played(ring, (n - 1) as nat);
        let before = (ring.cursor + n - 1) % len;
        vstd::arithmetic::div_mod::lemma_mod_bound(ring.cursor + n - 1, len);
        vstd::arithmetic::div_mod::lemma_add_mod_noop(ring.cursor + n - 1, 1, len);
        if len == 1 {
            assert((ring.cursor + n) % len == 0);
        } else {
            vstd::arithmetic::div_mod::lemma_small_mod(1, len as nat);
            if before + 1 < len {
                vstd::arithmetic::div_mod::lemma_small_mod((before + 1) as nat, len as nat);
            } else {
                vstd::arithmetic::div_mod::lemma_mod_self_0(len);
            }
        }
    }
}

/// A frame that comes in is held, and no other is lost or changed for it but one of its own moment
/// or, in a full loop, the oldest of all, which may be the frame itself.
pub proof fn law_only_the_oldest_leaves<F>(ring: Loop<F>, frame: RadarFrame<F>, i: int)
    requires
        ring.wf(),
        0 <= i < ring.frames.len(),
    ensures
        ({
            let after = ring.pushed(frame);
            let n = ring.frames.len();
            let room = n < ring.capacity;
            let held = exists|k: int|
                0 <= k < n && (#[trigger] ring.frames[k]).captured_at == frame.captured_at;
            let oldest = frame.captured_at.before(ring.frames[0].captured_at);
            &&& held || room || !oldest ==> after.frames.contains(frame)
            &&& !held && !room && oldest ==> after.frames == ring.frames
            &&& ring.frames[i].captured_at != frame.captured_at && (i > 0 || held || room || oldest)
                ==> after.frames.contains(ring.frames[i])
            &&& after.frames.len() == if held || !room {
                n
            } else {
                n + 1
            }
            &&& after.capacity == ring.capacity
            &&& after.playing == ring.playing
        }),
{
    let t = frame.captured_at;
    let n = ring.frames.len();
    lemma_slot(ring.frames, t);
    let at = slot(ring.frames, t);
    let held = exists|k: int| 0 <= k < n && (#[trigger] ring.frames[k]).captured_at == t;
    if held {
        let k = choose|k: int| 0 <= k < n && (#[trigger] ring.frames[k]).captured_at == t;
        law_same_moment_replaces(ring, frame, k);
        let after = ring.frames.update(k, frame);
        assert(after[k] == frame);
        assert(after[i] == if i == k {
            frame
        } else {
            ring.frames[i]
        });
    } else {
        assert(frame_at(ring.frames, t) is None);
        let more = ring.frames.insert(at, frame);
        let excess = greatest_of(more.len() - ring.capacity, 0);
        let after = more.skip(excess);
        assert(after == ring.pushed(frame).frames);
        assert(more[at] == frame);
        let j = if i < at {
            i
        } else {
            i + 1
        };
        assert(more[j] == ring.frames[i]);
        if at - excess >= 0 {
            assert(after[at - excess] == frame);
        } else {
            assert(after =~= ring.frames);
        }
        if j - excess >= 0 {
            assert(after[j - excess] == ring.frames[i]);
        }
        if at == 0 {
            assert(t.before(ring.frames[0].captured_at));
        } else {
            assert(!t.before(ring.frames[0].captured_at));
        }
    }
}

/// Taking the forecasts out leaves every observation, in its order, and nothing else: the
/// observations of two stretches of the loop are those of the first and then those of the second.
pub proof fn law_observations_keep_their_order<F>(
    a: Seq<RadarFrame<F>>,
    b: Seq<RadarFrame<F>>,
    frame: RadarFrame<F>,
)
    ensures
        observed(a + b) == observed(a) + observed(b),
        !frame.projected ==> observed(seq![frame]) == seq![frame],
        frame.projected ==> observed(seq![frame]).len() == 0,
    decreases b.len(),
{
    reveal_with_fuel(observed, 2);
    assert(seq![frame].drop_last() =~= Seq::<RadarFrame<F>>::empty());
    assert(observed(seq![frame].drop_last()) =~= Seq::<RadarFrame<F>>::empty());
    assert(!frame.projected ==> observed(seq![frame]) =~= seq![frame]);
    if b.len() == 0 {
        assert(a + b =~= a);
        assert(observed(a) + observed(b) =~= observed(a));
    } else {
        law_observations_keep_their_order(a, b.drop_last(), frame);
        assert((a + b).drop_last() =~= a + b.drop_last());
        assert((a + b).last() == b.last());
        assert(observed(a + b) =~= observed(a) + observed(b));
    }
}

/// A step moves the view by one frame and stops at the ends; one forward and one back end where
/// they began. The view follows the newest frame exactly while it is on it by a step forward or a
/// jump, and no move of the view touches the frames.
pub proof fn law_steps_move_by_one<F>(ring: Loop<F>)
    requires
        ring.wf(),
        ring.frames.len() > 0,
    ensures
        ({
            let n = ring.frames.len() as int;
            let on = ring.stepped_forward();
            let back = ring.stepped_back();
            &&& ring.cursor + 1 < n ==> on.cursor == ring.cursor + 1
            &&& ring.cursor + 1 == n ==> on.cursor == ring.cursor
            &&& on.follow_live <==> on.cursor + 1 == n
            &&& ring.cursor > 0 ==> back.cursor == ring.cursor - 1
            &&& ring.cursor == 0 ==> back.cursor == 0
            &&& !back.follow_live
            &&& ring.cursor + 1 < n ==> on.stepped_back().cursor == ring.cursor
            &&& ring.cursor > 0 ==> back.stepped_forward().cursor == ring.cursor
            &&& ring.at_oldest().cursor == 0
            &&& ring.at_newest().cursor == n - 1
            &&& ring.at_newest().follow_live
            &&& ring.at_oldest().follow_live <==> n == 1
            &&& on.frames == ring.frames && back.frames == ring.frames
            &&& ring.at_oldest().frames == ring.frames && ring.at_newest().frames == ring.frames
            &&& on.playing == ring.playing && back.playing == ring.playing
            &&& ring.at_oldest().playing == ring.playing && ring.at_newest().playing == ring.playing
            &&& !ring.playing ==> ring.advanced() == ring
            &&& ring.playing ==> (ring.advanced().follow_live <==> ring.advanced().cursor == n - 1)
            &&& ring.current() == Some(ring.frames[ring.cursor])
        }),
{
}

proof fn lemma_forecasts_only<F>(frames: Seq<RadarFrame<F>>)
    requires
        forall|i: int| 0 <= i < frames.len() ==> (#[trigger] frames[i]).projected,
    ensures
        observed(frames).len() == 0,
    decreases frames.len(),
{
    if frames.len() > 0 {
        assert(frames[frames.len() - 1].projected);
        let rest = frames.drop_last();
        assert forall|i: int| 0 <= i < rest.len() implies (#[trigger] rest[i]).projected by {
            assert(frames[i].projected);
        }
        lemma_forecasts_only(rest);
    }
}

/// Someone who looks at a forecast when the forecasts are taken out is left on the last observation
/// before it, and on the first frame where there is none before it.
pub proof fn law_dropping_forecasts_steps_back<F>(ring: Loop<F>, p: int)
    requires
        ring.wf(),
        !ring.follow_live,
        ring.frames.len() > 0,
        -1 <= p <= ring.cursor,
        p >= 0 ==> !ring.frames[p].projected,
        forall|i: int| p < i <= ring.cursor ==> (#[trigger] ring.frames[i]).projected,
    ensures
        p >= 0 ==> ring.without_projected().current() == Some(ring.frames[p]),
        p < 0 ==> ring.without_projected().cursor == 0,
{
    let c = ring.cursor;
    let upto = ring.frames.take(c + 1);
    let a = ring.frames.take(p + 1);
    let b = ring.frames.subrange(p + 1, c + 1);
    assert(upto =~= a + b);
    assert forall|i: int| 0 <= i < b.len() implies (#[trigger] b[i]).projected by {
        assert(ring.frames[p + 1 + i].projected);
    }
    lemma_forecasts_only(b);
    law_observations_keep_their_order(a, b, ring.frames[0]);
    lemma_observed_concat(ring.frames, c + 1);
    let seen = observed(upto);
    assert(seen =~= observed(a));
    if p >= 0 {
        assert(a.last() == ring.frames[p]);
        assert(seen.last() == ring.frames[p]);
        assert(observed(ring.frames)[seen.len() - 1] == seen[seen.len() - 1]);
    }
}

} // verus!
