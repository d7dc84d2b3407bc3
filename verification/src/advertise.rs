//! BLE advertising with a deadline of its own: whoever turns it on and forgets, it ends.

use vstd::prelude::*;
use vstd::string::*;

use crate::json::{bool_str, bool_text};
use crate::number::{dec, dec_string};

verus! {

/// How long advertising lasts where the caller does not say.
pub const DEFAULT_SECONDS: u64 = 300;

/// The longest a caller may ask for.
pub const MAX_SECONDS: u64 = 1800;

/// The payload that turns advertising on or off: only the first byte counts.
pub fn payload(on: bool) -> (b: [u8; 4])
    ensures
        b@ == seq![
            if on {
                1u8
            } else {
                0u8
            },
            0u8,
            0u8,
            0u8,
        ],
{
    let b: [u8; 4] = [if on {
        1
    } else {
        0
    }, 0, 0, 0];
    assert(b@ =~= seq![
        if on {
            1u8
        } else {
            0u8
        },
        0u8,
        0u8,
        0u8,
    ]);
    b
}

/// How long advertising lasts: what was asked for, brought between one second and the maximum.
pub open spec fn window(seconds: Option<u64>) -> u64 {
    match seconds {
        None => DEFAULT_SECONDS,
        Some(s) => if s < 1 {
            1
        } else if s > MAX_SECONDS {
            MAX_SECONDS
        } else {
            s
        },
    }
}

/// The absolute deadline of a request made at `now`.
pub fn resolve_deadline(now: u64, seconds: Option<u64>) -> (t: u64)
    requires
        now + MAX_SECONDS <= u64::MAX,
    ensures
        t == now + window(seconds),
{
    let s: u64 = match seconds {
        None => DEFAULT_SECONDS,
        Some(s) => if s < 1 {
            1
        } else if s > MAX_SECONDS {
            MAX_SECONDS
        } else {
            s
        },
    };
    now + s
}

/// The status body: the deadline is reported only while advertising is on.
pub open spec fn status_text(on: bool, until: u64) -> Seq<char> {
    "{\"advertising\":"@ + bool_text(on) + ",\"until\":"@ + (if on {
        dec(until as nat)
    } else {
        "null"@
    }) + "}"@
}

pub fn format_status(on: bool, until: u64) -> (s: String)
    ensures
        s@ == status_text(on, until),
{
    let deadline: String = if on {
        dec_string(until)
    } else {
        "null".to_owned()
    };
    let mut s: String = "{\"advertising\":".to_owned();
    s.append(bool_str(on));
    s.append(",\"until\":");
    s.append(deadline.as_str());
    s.append("}");
    s
}

/// What was last asked for, and until when.
pub struct BleAdv {
    pub on: bool,
    /// Unix seconds; meaningful only while on.
    pub until: u64,
}

impl BleAdv {
    /// A fresh process takes advertising to be off.
    pub fn new() -> (r: BleAdv)
        ensures
            !r.on,
            r.until == 0,
    {
        BleAdv { on: false, until: 0 }
    }

    /// Records a request that was sent at `now`.
    pub fn set(&mut self, on: bool, seconds: Option<u64>, now: u64)
        requires
            now + MAX_SECONDS <= u64::MAX,
        ensures
            final(self).on == on,
            final(self).until == (if on {
                (now + window(seconds)) as u64
            } else {
                0
            }),
    {
        if on {
            self.on = true;
            self.until = resolve_deadline(now, seconds);
        } else {
            self.on = false;
            self.until = 0;
        }
    }

    pub fn status_json(&self) -> (s: String)
        ensures
            s@ == status_text(self.on, self.until),
    {
        format_status(self.on, self.until)
    }

    /// Ends advertising once its deadline has passed; says whether `off` must be sent.
    pub fn reconcile_once(&mut self, now: u64) -> (turned_off: bool)
        ensures
            turned_off == (old(self).on && now >= old(self).until),
            turned_off ==> !final(self).on && final(self).until == 0,
            !turned_off ==> *final(self) == *old(self),
    {
        let due: bool = self.on && now >= self.until;
        if due {
            self.on = false;
            self.until = 0;
        }
        due
    }
}

/// Advertising that was turned on ends within the maximum, whatever was asked for.
pub proof fn law_advertising_is_bounded(now: u64, seconds: Option<u64>, later: u64)
    requires
        now + MAX_SECONDS <= later,
    ensures
        1 <= window(seconds) <= MAX_SECONDS,
        later >= now + window(seconds),
{
}

/// Who does not say how long gets five minutes; who does gets what they ask for, up to half an hour
/// and from a second on.
pub proof fn law_window_is_what_is_asked(s: u64)
    ensures
        window(None) == 300,
        1 <= s <= 1800 ==> window(Some(s)) == s,
        s > 1800 ==> window(Some(s)) == 1800,
        s < 1 ==> window(Some(s)) == 1,
{
}

} // verus!
