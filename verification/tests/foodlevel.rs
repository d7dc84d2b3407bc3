use kibbled::foodlevel::{
    frame_is_fresh, score_text, should_attempt, supervise, FoodLevel, HelperError, Reading,
    Supervise, Tick, Watch, HELPER_TIMEOUT, MAX_FRAME_AGE, RATE_LIMIT,
};

fn t(secs: u64) -> u64 {
    secs * 1000
}

#[test]
fn never_attempts_while_feeding() {
    assert!(!should_attempt(true, false, None, t(1000), RATE_LIMIT));
    assert!(!should_attempt(true, true, None, t(1000), RATE_LIMIT));
    assert!(!should_attempt(true, false, Some(t(0)), t(1000), RATE_LIMIT));
}

#[test]
fn just_finished_feed_bypasses_the_cooldown() {
    let now = t(1000);
    assert!(should_attempt(false, true, Some(now), now, RATE_LIMIT));
}

#[test]
fn first_ever_attempt_is_allowed() {
    assert!(should_attempt(false, false, None, t(0), RATE_LIMIT));
}

#[test]
fn periodic_attempt_is_rate_limited() {
    let last = t(0);
    let still_cooling = last + RATE_LIMIT - t(1);
    let cooled_down = last + RATE_LIMIT;
    assert!(!should_attempt(false, false, Some(last), still_cooling, RATE_LIMIT));
    assert!(should_attempt(false, false, Some(last), cooled_down, RATE_LIMIT));
}

fn score(stdout: &[u8]) -> Option<f32> {
    score_text(stdout).and_then(|s| s.parse().ok())
}

#[test]
fn parses_a_well_formed_score() {
    assert_eq!(score(b"score=0.4400\n"), Some(0.44));
    assert_eq!(score(b"score=0.0000\n"), Some(0.0));
    assert_eq!(score(b"score=1.0000\n"), Some(1.0));
    assert_eq!(score(b"score=0.5"), Some(0.5));
}

#[test]
fn output_without_a_score_is_rejected() {
    assert_eq!(score_text(b""), None);
    assert_eq!(score_text(b"garbage\n"), None);
    assert_eq!(score_text(b"kibble-food: dlopen failed\n"), None);
    assert_eq!(score_text(&[b's', 0xff]), None);
    assert_eq!(score_text(b"score=full\n"), None);
    assert_eq!(score_text(b"score=\n"), None);
    assert_eq!(score_text(b"score= 1e-2 \n").as_deref(), Some("1e-2"));
}

#[test]
fn ignores_anything_after_the_first_line() {
    assert_eq!(score(b"score=0.3000\nsecond line\n"), Some(0.3));
}

#[test]
fn the_last_reading_is_kept() {
    let mut f = FoodLevel::new();
    assert!(f.snapshot().is_none());
    f.record_attempt(5);
    assert_eq!(f.last_attempt_at(), Some(5));
    f.record_reading(Reading { pct: 40, computed_unix: 9 });
    assert_eq!(f.snapshot().map(|r| (r.pct, r.computed_unix)), Some((40, 9)));
}

#[test]
fn a_feed_that_ends_calls_for_a_look() {
    let mut w = Watch { was_feeding: false };
    assert!(matches!(w.tick(true, None, 0), Tick::Nothing));
    assert!(matches!(w.tick(false, Some(0), 10), Tick::Settle));
    assert!(w.settled(false));
    assert!(matches!(w.tick(false, Some(0), 20), Tick::Nothing));
    assert!(matches!(w.tick(false, Some(0), RATE_LIMIT), Tick::Attempt));
}

#[test]
fn a_helper_is_watched() {
    assert!(matches!(supervise(true, false, 0, HELPER_TIMEOUT), Supervise::AbortForFeed));
    assert!(matches!(supervise(false, true, 0, HELPER_TIMEOUT), Supervise::Collect));
    assert!(matches!(supervise(false, false, HELPER_TIMEOUT, HELPER_TIMEOUT), Supervise::TimeOut));
    assert!(matches!(supervise(false, false, 10, HELPER_TIMEOUT), Supervise::Wait));
}

#[test]
fn old_frames_are_not_scored() {
    assert!(frame_is_fresh(100, 100 + MAX_FRAME_AGE));
    assert!(!frame_is_fresh(100, 101 + MAX_FRAME_AGE));
}

#[test]
fn a_helper_s_failure_is_told() {
    let m = HelperError::ExitStatus { code: Some(2), stderr: "no model".into() }.message();
    assert!(m.contains("Some(2)") && m.contains("no model"), "{m}");
}
