use weatui::radar::ring::{FrameRing, RadarFrame};
use weatui::render::glyph;
use weatui::render::timeline::{
    status_style, status_text, track, utc_clock_text, CURSOR, PAST, PROJECTED,
};
use weatui::time::Stamp;

fn frame(minute: i64, projected: bool) -> RadarFrame<()> {
    RadarFrame {
        captured_at: Stamp { secs: 1_700_000_000 + minute * 60, nanos: 0 },
        field: (),
        projected,
    }
}

fn ring_with(observed: usize, projected: usize) -> FrameRing<()> {
    let mut r = FrameRing::new(16);
    for i in 0..observed {
        r.push(frame(i as i64, false));
    }
    for i in 0..projected {
        r.push(frame((observed + i) as i64, true));
    }
    r
}

#[test]
fn empty_ring_reports_that_it_is_waiting_rather_than_showing_a_false_position() {
    let r = FrameRing::<()>::new(4);
    assert_eq!(track(&r), "");
    assert!(status_text(&r).contains("awaiting"));
}

#[test]
fn track_marks_exactly_one_cursor() {
    let t = track(&ring_with(5, 0));
    assert_eq!(t.chars().filter(|c| *c == CURSOR).count(), 1);
    assert_eq!(t.chars().count(), 5);
}

#[test]
fn cursor_sits_on_the_newest_frame_while_following_live() {
    let t: Vec<char> = track(&ring_with(4, 0)).chars().collect();
    assert_eq!(t[3], CURSOR);
}

#[test]
fn projected_frames_use_a_distinct_rune_from_observed_ones() {
    let t: Vec<char> = track(&ring_with(3, 2)).chars().collect();
    assert_eq!(t[0], PAST);
    assert_eq!(t[3], PROJECTED, "extrapolated frames must be visually distinct");
    assert_eq!(t[4], CURSOR);
}

#[test]
fn scrubbing_moves_the_cursor_and_flips_the_live_indicator() {
    let mut r = ring_with(4, 0);
    assert!(status_text(&r).contains("LIVE"));
    r.step_back();
    let t: Vec<char> = track(&r).chars().collect();
    assert_eq!(t[2], CURSOR);
    assert!(status_text(&r).contains("LOOP"), "playing off-newest is a loop, not a scrub");
    r.toggle_play();
    assert!(status_text(&r).contains("SCRUB"), "paused off-newest is a scrub");
}

#[test]
fn status_reports_position_out_of_total() {
    let r = ring_with(7, 0);
    assert!(status_text(&r).contains("7/7"), "got: {}", status_text(&r));
}

#[test]
fn transport_glyph_follows_play_state() {
    let mut r = ring_with(3, 0);
    assert!(status_text(&r).contains(glyph::PLAY));
    r.toggle_play();
    assert!(status_text(&r).contains(glyph::PAUSE));
}

#[test]
fn the_clock_is_that_of_utc() {
    assert_eq!(utc_clock_text(Stamp { secs: 1_700_000_000, nanos: 0 }), "22:13:20Z");
}

#[test]
fn the_status_is_blue_only_while_live() {
    let mut r = ring_with(3, 0);
    assert_eq!(status_style(&r).fg, (120, 200, 255));
    r.step_back();
    assert_eq!(status_style(&r).fg, (255, 176, 32));
}
