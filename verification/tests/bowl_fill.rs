use kibbled::bowl_fill::{BowlFillRefresh, RateLimiter, FOOD_SURPLUS_CMD};

#[test]
fn first_claim_always_succeeds() {
    let mut l = RateLimiter { last_sent: 0 };
    assert!(l.claim(1_000));
}

#[test]
fn claim_within_a_minute_is_refused() {
    let mut l = RateLimiter { last_sent: 1_000 };
    assert!(!l.claim(1_030));
    assert!(!l.claim(1_059));
}

#[test]
fn claim_at_and_past_the_minute_succeeds() {
    let mut l = RateLimiter { last_sent: 1_000 };
    assert!(l.claim(1_060));
    assert!(!l.claim(1_090));
}

#[test]
fn a_refused_claim_does_not_move_the_deadline() {
    let mut l = RateLimiter { last_sent: 1_000 };
    assert!(!l.claim(1_010));
    assert!(l.claim(1_060));
}

#[test]
fn nothing_is_requested_while_feeding() {
    let mut r = BowlFillRefresh::new();
    assert!(r.request_if_due(true, 1_000).is_none());
    let (_, payload) = r.request_if_due(false, 1_000).unwrap();
    assert_eq!(payload, [FOOD_SURPLUS_CMD]);
    assert!(r.request_if_due(false, 1_030).is_none());
}
