use roomcore::clock::{step_delta, FpsCounter, FrameClock, MAX_STEP_NANOS};

#[test]
fn step_is_clamped_to_fifteenth_second() {
    assert_eq!(step_delta(1_000_000_000), 66_666_666);
    assert_eq!(step_delta(u64::MAX), MAX_STEP_NANOS);
    assert_eq!(step_delta(16_000_000), 16_000_000);
    assert_eq!(step_delta(0), 0);
}

#[test]
fn clock_measures_frames() {
    let mut c = FrameClock::new();
    c.init(1_000);
    c.frame_advance(17_001_000);
    assert_eq!(c.get_duration(), 17_000_000);
    assert_eq!(c.get_deltatime(), 17_000_000);
    c.frame_advance(2_017_001_000);
    assert_eq!(c.get_duration(), 2_000_000_000);
    assert_eq!(c.get_deltatime(), 66_666_666);
    c.frame_advance(5);
    assert_eq!(c.get_duration(), 0);
}

#[test]
fn fps_reports_at_window_end() {
    let mut f = FpsCounter::new();
    for _ in 0..99 {
        assert_eq!(f.frame(10_000_000), None);
    }
    assert_eq!(f.frame(10_000_000), Some(100));
    assert_eq!(f.elapsed, 0);
    assert_eq!(f.frames, 0);
    assert_eq!(f.frame(4_000_000_000), Some(0));
}
