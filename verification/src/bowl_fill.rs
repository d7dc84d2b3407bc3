//! When to ask the microcontroller for a fresh bowl reading: never during a feed, and at most once
//! a minute.

use vstd::prelude::*;

use crate::bus::msg::SUBCHIP_REQ_DATA;

verus! {

/// The command byte that asks for the reading. The message that carries it forwards any command,
/// so it is never built from anything but this constant.
pub const FOOD_SURPLUS_CMD: u8 = 0x19;

pub const MIN_INTERVAL_SECS: u64 = 60;

/// Lets one request through per interval.
pub struct RateLimiter {
    /// Unix seconds of the last claim that succeeded; 0 means never.
    pub last_sent: u64,
}

/// Whether a claim at `now` succeeds.
pub open spec fn due(last_sent: u64, now: u64) -> bool {
    now - last_sent >= MIN_INTERVAL_SECS
}

impl RateLimiter {
    pub fn claim(&mut self, now: u64) -> (r: bool)
        ensures
            r == due(old(self).last_sent, now),
            final(self).last_sent == (if r {
                now
            } else {
                old(self).last_sent
            }),
    {
        if now.saturating_sub(self.last_sent) < MIN_INTERVAL_SECS {
            return false;
        }
        self.last_sent = now;
        true
    }
}

/// What keeps requests apart.
pub struct BowlFillRefresh {
    pub limiter: RateLimiter,
}

impl BowlFillRefresh {
    pub fn new() -> (r: BowlFillRefresh)
        ensures
            r.limiter.last_sent == 0,
    {
        BowlFillRefresh { limiter: RateLimiter { last_sent: 0 } }
    }

    /// The message to send now, if no feed is in flight and the last one was a minute ago or more.
    pub fn request_if_due(&mut self, feeding: bool, now: u64) -> (r: Option<(u16, [u8; 1])>)
        ensures
            r is Some <==> !feeding && due(old(self).limiter.last_sent, now),
            r matches Some(m) ==> m.0 == SUBCHIP_REQ_DATA && m.1@ == seq![FOOD_SURPLUS_CMD],
            final(self).limiter.last_sent == (if r is Some {
                now
            } else {
                old(self).limiter.last_sent
            }),
    {
        if feeding {
            return None;
        }
        if !self.limiter.claim(now) {
            return None;
        }
        let payload: [u8; 1] = [FOOD_SURPLUS_CMD];
        assert(payload@ =~= seq![FOOD_SURPLUS_CMD]);
        Some((SUBCHIP_REQ_DATA, payload))
    }
}

/// After a claim at `now` none succeeds for a minute, and one that is refused moves nothing.
pub proof fn law_one_claim_per_interval(last_sent: u64, now: u64, later: u64)
    requires
        due(last_sent, now),
        later < now + MIN_INTERVAL_SECS,
    ensures
        !due(now, later),
{
}

/// The level is asked for at most once a minute.
pub proof fn law_asked_once_a_minute(last_sent: u64, now: u64)
    ensures
        due(last_sent, now) <==> now >= last_sent + 60,
{
}

} // verus!
