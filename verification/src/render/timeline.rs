//! The line that shows where in the loop the view is.

use vstd::prelude::*;
#[allow(unused_imports)]
use vstd::string::StringExecFns;
#[allow(unused_imports)]
use crate::radar::ring::{FrameRing, Loop};
use crate::render::glyph;
use crate::render::line::{plain_style, Style};
#[allow(unused_imports)]
use crate::render::line::plain;
#[allow(unused_imports)]
use crate::text::{decimal, decimal2, number, number2, one_char};
use crate::time::Stamp;

verus! {

pub const PAST: char = '\u{2501}';

pub const CURSOR: char = '\u{25c9}';

pub const PROJECTED: char = '\u{2504}';

/// The mark of one frame: a forecast is never drawn as an observation.
pub open spec fn mark<F>(ring: Loop<F>, i: int) -> char {
    if i == ring.cursor {
        CURSOR
    } else if ring.frames[i].projected {
        PROJECTED
    } else {
        PAST
    }
}

/// The frames as characters, oldest first.
pub fn track<F>(ring: &FrameRing<F>) -> (r: String)
    ensures
        r@ == Seq::new(ring@.frames.len(), |i: int| mark(ring@, i)),
{
    let frames = ring.frames();
    let cursor: usize = ring.cursor();
    let mut out = String::new();
    let mut i: usize = 0;
    let ghost all = Seq::new(ring@.frames.len(), |i: int| mark(ring@, i));
    while i < frames.len()
        invariant
            i <= frames@.len(),
            frames@ == ring@.frames,
            cursor == ring@.cursor,
            all == Seq::new(ring@.frames.len(), |i: int| mark(ring@, i)),
            out@ == all.take(i as int),
        decreases frames@.len() - i,
    {
        let c: char = if i == cursor {
            CURSOR
        } else if frames[i].projected {
            PROJECTED
        } else {
            PAST
        };
        out.push(c);
        i += 1;
        assert(out@ =~= all.take(i as int));
    }
    assert(all.take(i as int) =~= all);
    out
}

/// The time of day of a moment in UTC. A leap second is the sixtieth.
pub open spec fn utc_clock(t: Stamp) -> Seq<char> {
    let s = t.secs as int % 86_400;
    let sec = s % 60 + (if t.nanos >= 1_000_000_000 {
        1int
    } else {
        0
    });
    decimal2((s / 3_600) as nat) + ":"@ + decimal2((s / 60 % 60) as nat) + ":"@ + decimal2(
        sec as nat,
    ) + "Z"@
}

/// Writes the time of day of a moment in UTC.
pub fn utc_clock_text(t: Stamp) -> (r: String)
    ensures
        r@ == utc_clock(t),
{
    let s: u64 = t.second_of_day();
    let extra: u64 = if t.nanos >= 1_000_000_000 {
        1
    } else {
        0
    };
    let mut out = number2(s / 3_600);
    out.append(":");
    let minutes = number2(s / 60 % 60);
    out.append(minutes.as_str());
    out.append(":");
    let seconds = number2(s % 60 + extra);
    out.append(seconds.as_str());
    out.append("Z");
    out
}

/// What is said of the loop. Playback may leave the newest frame, so that only someone who
/// paused is said to scrub.
pub open spec fn loop_status<F>(ring: Loop<F>) -> Seq<char> {
    if ring.frames.len() == 0 {
        seq![glyph::REFRESH] + " awaiting first volume"@
    } else {
        seq![
            if ring.playing {
                glyph::PLAY
            } else {
                glyph::PAUSE
            },
        ] + " "@ + decimal((ring.cursor + 1) as nat) + "/"@ + decimal(ring.frames.len()) + (
        if ring.follow_live {
            " LIVE"@
        } else if ring.playing {
            " LOOP"@
        } else {
            " SCRUB"@
        }) + "  "@ + seq![glyph::CLOCK] + " "@ + utc_clock(ring.frames[ring.cursor].captured_at)
    }
}

pub fn status_text<F>(ring: &FrameRing<F>) -> (r: String)
    requires
        ring@.wf(),
    ensures
        r@ == loop_status(ring@),
{
    if ring.is_empty() {
        let mut out = one_char(glyph::REFRESH);
        out.append(" awaiting first volume");
        return out;
    }
    let transport: char = if ring.is_playing() {
        glyph::PLAY
    } else {
        glyph::PAUSE
    };
    let mut out = one_char(transport);
    out.append(" ");
    let count: u64 = ring.len() as u64;
    let at: u64 = ring.cursor() as u64;
    assert(at < count);
    let position = number(at + 1);
    out.append(position.as_str());
    out.append("/");
    let total = number(count);
    out.append(total.as_str());
    if ring.is_following_live() {
        out.append(" LIVE");
    } else if ring.is_playing() {
        out.append(" LOOP");
    } else {
        out.append(" SCRUB");
    }
    out.append("  ");
    let clock = one_char(glyph::CLOCK);
    out.append(clock.as_str());
    out.append(" ");
    match ring.current() {
        Some(f) => {
            let stamp = utc_clock_text(f.captured_at);
            out.append(stamp.as_str());
        },
        None => {},
    }
    out
}

/// The style of the status: one colour while following the newest frame, another otherwise.
pub fn status_style<F>(ring: &FrameRing<F>) -> (r: Style)
    ensures
        r == plain(
            if ring@.follow_live {
                (120, 200, 255)
            } else {
                (255, 176, 32)
            },
        ),
{
    if ring.is_following_live() {
        plain_style((120, 200, 255))
    } else {
        plain_style((255, 176, 32))
    }
}

/// The track marks one cursor, and each forecast that is not under it as a forecast.
pub proof fn law_track_marks_one_cursor<F>(ring: Loop<F>, i: int)
    requires
        ring.wf(),
        0 <= i < ring.frames.len(),
    ensures
        mark(ring, i) == CURSOR <==> i == ring.cursor,
        mark(ring, i) == PROJECTED <==> i != ring.cursor && ring.frames[i].projected,
{
}

/// The clock counts the hours, the minutes and the seconds since midnight, whatever the day.
pub proof fn law_clock_tells_the_time_of_day(t: Stamp, day: int, h: int, m: int, s: int)
    requires
        0 <= h < 24,
        0 <= m < 60,
        0 <= s < 60,
        t.secs == 86_400 * day + 3_600 * h + 60 * m + s,
        t.nanos < 1_000_000_000,
    ensures
        utc_clock(t) == decimal2(h as nat) + ":"@ + decimal2(m as nat) + ":"@ + decimal2(s as nat)
            + "Z"@,
{
    let r = 3_600 * h + 60 * m + s;
    vstd::arithmetic::div_mod::lemma_fundamental_div_mod_converse(t.secs as int, 86_400, day, r);
    vstd::arithmetic::div_mod::lemma_fundamental_div_mod_converse(r, 3_600, h, 60 * m + s);
    vstd::arithmetic::div_mod::lemma_fundamental_div_mod_converse(r, 60, 60 * h + m, s);
    vstd::arithmetic::div_mod::lemma_fundamental_div_mod_converse(60 * h + m, 60, h, m);
}

/// The status counts the frame under the cursor from one, and says that the view is live exactly
/// while it follows the newest frame, that it loops while it plays on otherwise, and that it is
/// moved by hand while it is paused.
pub proof fn law_status_tells_where_the_view_is<F>(ring: Loop<F>)
    requires
        ring.wf(),
        ring.frames.len() > 0,
    ensures
        ({
            let place = " "@ + decimal((ring.cursor + 1) as nat) + "/"@ + decimal(
                ring.frames.len(),
            );
            let mode = if ring.follow_live {
                " LIVE"@
            } else if ring.playing {
                " LOOP"@
            } else {
                " SCRUB"@
            };
            let said = place + mode + "  "@ + seq!['\u{f017}'] + " "@ + utc_clock(
                ring.frames[ring.cursor].captured_at,
            );
            &&& loop_status(ring).skip(1) == said
            &&& ring.playing ==> loop_status(ring)[0] == '\u{f04b}'
            &&& !ring.playing ==> loop_status(ring)[0] == '\u{f04c}'
        }),
{
    let place = " "@ + decimal((ring.cursor + 1) as nat) + "/"@ + decimal(ring.frames.len());
    let mode = if ring.follow_live {
        " LIVE"@
    } else if ring.playing {
        " LOOP"@
    } else {
        " SCRUB"@
    };
    let said = place + mode + "  "@ + seq!['\u{f017}'] + " "@ + utc_clock(
        ring.frames[ring.cursor].captured_at,
    );
    assert(loop_status(ring).skip(1) =~= said);
}

} // verus!
