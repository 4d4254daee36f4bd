use weatui::radar::ring::{FrameRing, RadarFrame};
use weatui::time::Stamp;

fn frame(minute: u32) -> RadarFrame<u32> {
    RadarFrame {
        captured_at: Stamp { secs: 1_700_000_000 + minute as i64 * 60, nanos: 0 },
        field: minute,
        projected: false,
    }
}

#[test]
fn empty_ring_has_no_current_frame() {
    let r = FrameRing::<u32>::new(4);
    assert!(r.is_empty());
    assert!(r.current().is_none());
}

#[test]
fn ring_evicts_oldest_beyond_capacity() {
    let mut r = FrameRing::new(3);
    for i in 0..5 {
        r.push(frame(i));
    }
    assert_eq!(r.len(), 3);
    assert_eq!(r.frames().first().unwrap().captured_at, frame(2).captured_at);
}

#[test]
fn following_live_tracks_the_newest_frame() {
    let mut r = FrameRing::new(4);
    r.push(frame(0));
    r.push(frame(1));
    assert_eq!(r.cursor(), 1);
    assert_eq!(r.current().unwrap().captured_at, frame(1).captured_at);
}

#[test]
fn scrubbing_back_stops_following_and_new_frames_do_not_yank_the_view() {
    let mut r = FrameRing::new(8);
    r.push(frame(0));
    r.push(frame(1));
    r.step_back();
    assert!(!r.is_following_live());
    r.push(frame(2));
    assert_eq!(r.current().unwrap().captured_at, frame(0).captured_at);
}

#[test]
fn eviction_while_scrubbing_keeps_the_cursor_on_the_same_frame() {
    let mut r = FrameRing::new(3);
    r.push(frame(0));
    r.push(frame(1));
    r.push(frame(2));
    r.jump_oldest();
    assert_eq!(r.current().unwrap().captured_at, frame(0).captured_at);
    r.push(frame(3));
    assert_eq!(r.current().unwrap().captured_at, frame(1).captured_at);
}

#[test]
fn step_forward_stops_at_the_newest_and_resumes_following() {
    let mut r = FrameRing::new(4);
    r.push(frame(0));
    r.push(frame(1));
    r.jump_oldest();
    r.step_forward();
    assert_eq!(r.cursor(), 1);
    assert!(r.is_following_live());
    r.step_forward();
    assert_eq!(r.cursor(), 1);
}

#[test]
fn step_back_saturates_at_the_oldest_frame() {
    let mut r = FrameRing::new(4);
    r.push(frame(0));
    r.step_back();
    r.step_back();
    assert_eq!(r.cursor(), 0);
}

#[test]
fn jump_newest_restores_live_following() {
    let mut r = FrameRing::new(4);
    r.push(frame(0));
    r.push(frame(1));
    r.jump_oldest();
    assert!(!r.is_following_live());
    r.jump_newest();
    assert!(r.is_following_live());
    assert_eq!(r.cursor(), 1);
}

#[test]
fn a_single_frame_ring_stays_live_across_playback_wraps() {
    let mut r = FrameRing::new(4);
    r.push(frame(0));
    assert!(r.is_following_live());
    for _ in 0..5 {
        r.advance_playback();
        assert!(r.is_following_live(), "one frame is always the newest frame");
        assert_eq!(r.cursor(), 0);
    }
}

#[test]
fn playback_reaching_the_newest_frame_reports_live_again() {
    let mut r = FrameRing::new(4);
    r.push(frame(0));
    r.push(frame(1));
    r.push(frame(2));
    r.advance_playback();
    assert_eq!(r.cursor(), 0);
    assert!(!r.is_following_live());
    r.advance_playback();
    r.advance_playback();
    assert_eq!(r.cursor(), 2);
    assert!(r.is_following_live());
}

#[test]
fn playback_wraps_around_to_the_oldest_frame() {
    let mut r = FrameRing::new(4);
    r.push(frame(0));
    r.push(frame(1));
    r.push(frame(2));
    assert_eq!(r.cursor(), 2);
    r.advance_playback();
    assert_eq!(r.cursor(), 0);
}

#[test]
fn paused_playback_does_not_advance() {
    let mut r = FrameRing::new(4);
    r.push(frame(0));
    r.push(frame(1));
    r.jump_oldest();
    r.toggle_play();
    assert!(!r.is_playing());
    r.advance_playback();
    assert_eq!(r.cursor(), 0);
}

/// A fresh observation can land after an overtaken forecast
/// frame, so dropping only from the back would leave stale model output
/// between real volumes for ever.
#[test]
fn drop_projected_removes_forecasts_buried_between_observations() {
    let mut r = FrameRing::new(10);
    r.push(frame(0));
    r.push(projected_frame(5));
    r.push(frame(10));
    r.push(projected_frame(15));
    r.push(frame(20));

    r.drop_projected();
    assert_eq!(r.len(), 3);
    assert!(
        r.frames().iter().all(|f| !f.projected),
        "a projected frame survived between observations"
    );
}

/// The realtime volume is polled again while it assembles; a second frame of
/// the same moment would stutter playback and evict real history.
#[test]
fn pushing_the_same_captured_at_replaces_rather_than_duplicates() {
    let mut r = FrameRing::new(10);
    r.push(frame(0));
    r.push(frame(5));
    r.push(frame(5));
    r.push(frame(5));
    assert_eq!(r.len(), 2, "re-polling one volume must not grow the ring");
}

#[test]
fn replacement_keeps_the_newer_assembly_of_the_volume() {
    let mut r = FrameRing::new(10);
    let mut early = frame(5);
    early.projected = true;
    r.push(early);
    r.push(frame(5));
    assert_eq!(r.len(), 1);
    assert!(r.frames().iter().all(|f| !f.projected), "the later push must win");
}

fn projected_frame(minute: u32) -> RadarFrame<u32> {
    RadarFrame { projected: true, ..frame(minute) }
}

/// Projections share the ring with observations, so a capacity sized only
/// to the history count silently evicts that many observed volumes as soon
/// as projections are appended.
#[test]
fn capacity_covering_projections_preserves_every_observed_frame() {
    let history = 6;
    let projections = 3;
    let mut r = FrameRing::new(history + projections);
    for i in 0..history {
        r.push(frame(i as u32));
    }
    for i in 0..projections {
        r.push(projected_frame((history + i) as u32));
    }
    assert_eq!(r.frames().iter().filter(|f| !f.projected).count(), history);
    assert_eq!(r.frames().first().unwrap().captured_at, frame(0).captured_at);
}

#[test]
fn undersized_capacity_would_drop_history_which_is_why_it_is_padded() {
    let mut r = FrameRing::new(6);
    for i in 0..6 {
        r.push(frame(i));
    }
    for i in 0..3 {
        r.push(projected_frame(6 + i));
    }
    assert_eq!(
        r.frames().iter().filter(|f| !f.projected).count(),
        3,
        "documents the eviction that padding the capacity avoids"
    );
}

#[test]
fn dropping_projections_restores_room_for_the_next_observation() {
    let mut r = FrameRing::new(9);
    for i in 0..6 {
        r.push(frame(i));
    }
    for i in 0..3 {
        r.push(projected_frame(6 + i));
    }
    r.drop_projected();
    assert_eq!(r.len(), 6);
    assert!(r.frames().iter().all(|f| !f.projected));
    assert_eq!(r.frames().first().unwrap().captured_at, frame(0).captured_at);
}

/// Observations and forecasts come from independent tasks, so a volume can
/// arrive after a forecast batch while being older than every frame in it.
#[test]
fn frames_are_ordered_by_time_regardless_of_arrival_order() {
    let mut r = FrameRing::new(16);
    r.push(projected_frame(100));
    r.push(projected_frame(115));
    r.push(frame(10));
    r.push(frame(5));

    let times: Vec<_> = r.frames().iter().map(|f| f.captured_at).collect();
    assert!(times.windows(2).all(|w| !w[1].is_before(&w[0])), "not chronological: {times:?}");
    assert_eq!(times[0], frame(5).captured_at);
    assert_eq!(times[3], projected_frame(115).captured_at);
}

#[test]
fn a_late_observation_does_not_land_after_the_forecast() {
    let mut r = FrameRing::new(16);
    for i in 0..3 {
        r.push(frame(i));
    }
    r.push(projected_frame(60));
    r.push(frame(3));

    let kinds: Vec<bool> = r.frames().iter().map(|f| f.projected).collect();
    assert_eq!(kinds, vec![false, false, false, false, true]);
}

#[test]
fn inserting_before_the_cursor_keeps_it_on_the_same_frame() {
    let mut r = FrameRing::new(16);
    r.push(frame(10));
    r.push(frame(20));
    r.jump_oldest();
    let held = r.current().unwrap().captured_at;
    r.push(frame(5));
    assert_eq!(r.current().unwrap().captured_at, held, "cursor must not drift");
}

#[test]
fn dropping_projections_still_works_with_ordered_insertion() {
    let mut r = FrameRing::new(16);
    r.push(projected_frame(90));
    r.push(frame(1));
    r.push(projected_frame(75));
    r.drop_projected();
    assert_eq!(r.len(), 1);
    assert!(r.frames().iter().all(|f| !f.projected));
}

#[test]
fn zero_capacity_is_clamped_so_a_frame_can_still_be_held() {
    let mut r = FrameRing::new(0);
    r.push(frame(0));
    assert_eq!(r.len(), 1);
}

#[test]
fn playback_comes_round_to_where_it_started() {
    let mut r = FrameRing::new(4);
    for i in 0..4 {
        r.push(frame(i));
    }
    r.step_back();
    let held = r.cursor();
    for _ in 0..4 {
        r.advance_playback();
    }
    assert_eq!(r.cursor(), held);
}

#[test]
fn a_pushed_frame_does_not_move_the_view() {
    let mut r = FrameRing::new(8);
    for i in [10, 20, 30] {
        r.push(frame(i));
    }
    r.step_back();
    for i in [5, 15, 25, 35] {
        r.push(frame(i));
        assert_eq!(r.current().unwrap().field, 20);
    }
}

#[test]
fn dropping_forecasts_keeps_the_view() {
    let mut r = FrameRing::new(8);
    r.push(projected_frame(1));
    r.push(frame(2));
    r.push(projected_frame(3));
    r.push(frame(4));
    r.jump_oldest();
    r.step_forward();
    assert_eq!(r.current().unwrap().field, 2);
    r.drop_projected();
    assert_eq!(r.current().unwrap().field, 2);
    assert_eq!(r.cursor(), 0);
    r.drop_projected();
    assert_eq!(r.len(), 2);
}

#[test]
fn moments_are_told_apart_by_their_nanoseconds() {
    let mut r = FrameRing::new(8);
    let mut later = frame(0);
    later.captured_at.nanos = 1;
    r.push(later);
    r.push(frame(0));
    assert_eq!(r.len(), 2);
    assert_eq!(r.frames()[0].captured_at.nanos, 0);
}
