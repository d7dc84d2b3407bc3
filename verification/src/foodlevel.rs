//! When to spend an inference on the bowl, and what to do with the helper that runs it.
//!
//! Right after a feed one attempt is made; otherwise at most one per interval, and never during a
//! feed. Every attempt counts, a failed one too.

use vstd::prelude::*;
use vstd::string::*;

use crate::embed::{code_string, code_text};
use crate::number::{has_float_form, is_float};
use crate::text::{
    from_utf8, lines, split_lines, starts, strip_prefix, texts, trim, trimmed,
    Pat,
};
use vstd::utf8::{decode_utf8, encode_utf8_decode_utf8, valid_utf8};

verus! {

pub const MODEL_PATH: &'static str = "/alg/petkit_pp_fooddet_416_128_segreg_0509_u16.axmodel";

pub const HELPER_PATH: &'static str = "/opt/kibble/kibble-food";

/// Milliseconds between attempts that no feed calls for.
pub const RATE_LIMIT: u64 = 600_000;

/// How old, in seconds, a frame may be.
pub const MAX_FRAME_AGE: u64 = 600;

/// How long, in milliseconds, the helper may run.
pub const HELPER_TIMEOUT: u64 = 15_000;

/// One reading.
#[derive(Debug, Clone, Copy, PartialEq, Eq, Structural)]
pub struct Reading {
    /// How full the bowl is, from 0 to 100.
    pub pct: u8,
    /// When that was computed.
    pub computed_unix: u64,
}

/// The last reading, and when the last attempt was made.
pub struct FoodLevel {
    last: Option<Reading>,
    last_attempt_at: Option<u64>,
}

impl FoodLevel {
    pub closed spec fn reading(&self) -> Option<Reading> {
        self.last
    }

    pub closed spec fn attempted(&self) -> Option<u64> {
        self.last_attempt_at
    }

    pub fn new() -> (f: FoodLevel)
        ensures
            f.reading() is None,
            f.attempted() is None,
    {
        FoodLevel { last: None, last_attempt_at: None }
    }

    /// The last reading, if there was one.
    pub fn snapshot(&self) -> (r: Option<Reading>)
        ensures
            r == self.reading(),
    {
        self.last
    }

    pub fn last_attempt_at(&self) -> (r: Option<u64>)
        ensures
            r == self.attempted(),
    {
        self.last_attempt_at
    }

    pub fn record_attempt(&mut self, now_ms: u64)
        ensures
            final(self).attempted() == Some(now_ms),
            final(self).reading() == old(self).reading(),
    {
        self.last_attempt_at = Some(now_ms);
    }

    pub fn record_reading(&mut self, reading: Reading)
        ensures
            final(self).reading() == Some(reading),
            final(self).attempted() == old(self).attempted(),
    {
        self.last = Some(reading);
    }
}

/// Whether to make an attempt.
pub open spec fn attempts(
    feeding_now: bool,
    just_finished_feed: bool,
    last_attempt_at: Option<u64>,
    now: u64,
    rate_limit: u64,
) -> bool {
    !feeding_now && (just_finished_feed || match last_attempt_at {
        None => true,
        Some(t) => now - t >= rate_limit || rate_limit == 0,
    })
}

/// Whether to make an attempt now: never during a feed, always right after one, else once per
/// `rate_limit`.
pub fn should_attempt(
    feeding_now: bool,
    just_finished_feed: bool,
    last_attempt_at: Option<u64>,
    now: u64,
    rate_limit: u64,
) -> (r: bool)
    ensures
        r == attempts(feeding_now, just_finished_feed, last_attempt_at, now, rate_limit),
{
    if feeding_now {
        return false;
    }
    if just_finished_feed {
        return true;
    }
    match last_attempt_at {
        None => true,
        Some(t) => now.saturating_sub(t) >= rate_limit,
    }
}

/// Whether a frame taken at `ts` is fresh enough at `now`.
pub open spec fn is_fresh(ts: u64, now: u64) -> bool {
    now - ts <= MAX_FRAME_AGE
}

/// Whether a frame taken at `ts` is fresh enough at `now`.
pub fn frame_is_fresh(ts: u64, now: u64) -> (r: bool)
    ensures
        r == is_fresh(ts, now),
{
    now.saturating_sub(ts) <= MAX_FRAME_AGE
}

/// What one look at the feeding flag calls for.
#[derive(Debug, Clone, Copy, PartialEq, Eq, Structural)]
pub enum Tick {
    Nothing,
    /// Make an attempt.
    Attempt,
    /// A feed has just ended: let the scene settle, then look again.
    Settle,
}

/// What a look at the feeding flag calls for, where it was `was_feeding` before.
pub open spec fn tick_of(
    was_feeding: bool,
    feeding: bool,
    last_attempt_at: Option<u64>,
    now_ms: u64,
) -> Tick {
    if was_feeding && !feeding {
        Tick::Settle
    } else if attempts(feeding, false, last_attempt_at, now_ms, RATE_LIMIT) {
        Tick::Attempt
    } else {
        Tick::Nothing
    }
}

/// Watches the feeding flag.
pub struct Watch {
    pub was_feeding: bool,
}

impl Watch {
    pub fn tick(&mut self, feeding: bool, last_attempt_at: Option<u64>, now_ms: u64) -> (t: Tick)
        ensures
            final(self).was_feeding == feeding,
            t == tick_of(old(self).was_feeding, feeding, last_attempt_at, now_ms),
    {
        let just_finished: bool = self.was_feeding && !feeding;
        self.was_feeding = feeding;
        if just_finished {
            Tick::Settle
        } else if should_attempt(feeding, false, last_attempt_at, now_ms, RATE_LIMIT) {
            Tick::Attempt
        } else {
            Tick::Nothing
        }
    }

    /// After the scene has settled: whether to make the attempt that the feed called for.
    pub fn settled(&mut self, feeding: bool) -> (r: bool)
        ensures
            final(self).was_feeding == feeding,
            r == !feeding,
    {
        self.was_feeding = feeding;
        !feeding && should_attempt(false, true, None, 0, RATE_LIMIT)
    }
}

/// The text behind `score=` in a line, white space aside.
pub open spec fn behind_score(line: Seq<char>) -> Seq<char> {
    trimmed(line.subrange(6, line.len() as int), Pat::Space)
}

/// The text of the score in the helper's output: what stands behind `score=` in the first line,
/// where that is a number.
pub open spec fn score_of(out: Seq<u8>) -> Option<Seq<char>> {
    if valid_utf8(out) {
        let ls = lines(decode_utf8(out));
        if ls.len() > 0 && starts(ls[0], "score="@) && is_float(behind_score(ls[0])) {
            Some(behind_score(ls[0]))
        } else {
            None
        }
    } else {
        None
    }
}

/// The text of the score in the helper's output.
pub fn score_text(stdout: &[u8]) -> (r: Option<String>)
    ensures
        match r {
            Some(s) => score_of(stdout@) == Some(s@),
            None => score_of(stdout@) is None,
        },
{
    let text: String = match from_utf8(stdout) {
        Some(t) => t,
        None => return None,
    };
    proof {
        encode_utf8_decode_utf8(text@);
        reveal_strlit("score=");
    }
    let ls: Vec<&str> = split_lines(text.as_str());
    assert(texts(ls@).len() == ls@.len());
    if ls.len() == 0 {
        return None;
    }
    assert(texts(ls@)[0] == ls@[0]@);
    match strip_prefix(ls[0], "score=") {
        Some(rest) => {
            let score: &str = trim(rest, Pat::Space);
            if has_float_form(score) {
                Some(score.to_owned())
            } else {
                None
            }
        },
        None => None,
    }
}

/// Why a run of the helper gave no score.
#[derive(Debug)]
pub enum HelperError {
    Spawn(String),
    /// A feed started while the helper was running.
    AbortedForFeed,
    Timeout,
    ExitStatus { code: Option<i32>, stderr: String },
    BadOutput,
}

impl HelperError {
    pub open spec fn text(&self) -> Seq<char> {
        match self {
            HelperError::Spawn(m) => "spawn "@ + HELPER_PATH@ + ": "@ + m@,
            HelperError::AbortedForFeed => "aborted: a feed started mid-inference"@,
            HelperError::Timeout => HELPER_PATH@ + " did not exit within 15s"@,
            HelperError::ExitStatus { code, stderr } => HELPER_PATH@ + " exited "@ + code_text(
                *code,
            ) + ": "@ + trimmed(stderr@, Pat::Space),
            HelperError::BadOutput => HELPER_PATH@ + " exited 0 but printed no valid score"@,
        }
    }

    pub fn message(&self) -> (s: String)
        ensures
            s@ == self.text(),
    {
        match self {
            HelperError::Spawn(m) => {
                let mut s: String = "spawn ".to_owned();
                s.append(HELPER_PATH);
                s.append(": ");
                s.append(m.as_str());
                s
            },
            HelperError::AbortedForFeed => "aborted: a feed started mid-inference".to_owned(),
            HelperError::Timeout => {
                let mut s: String = HELPER_PATH.to_owned();
                s.append(" did not exit within 15s");
                s
            },
            HelperError::ExitStatus { code, stderr } => {
                let mut s: String = HELPER_PATH.to_owned();
                s.append(" exited ");
                s.append(code_string(*code).as_str());
                s.append(": ");
                s.append(trim(stderr.as_str(), Pat::Space));
                s
            },
            HelperError::BadOutput => {
                let mut s: String = HELPER_PATH.to_owned();
                s.append(" exited 0 but printed no valid score");
                s
            },
        }
    }
}

/// What to do with a helper that was started.
#[derive(Debug, Clone, Copy, PartialEq, Eq, Structural)]
pub enum Supervise {
    /// Look again a little later.
    Wait,
    /// Kill it: a feed has started.
    AbortForFeed,
    /// Kill it: it has run for too long.
    TimeOut,
    /// Read its output.
    Collect,
}

/// What becomes of a helper that runs.
pub open spec fn supervised(feeding: bool, exited: bool, elapsed_ms: u64, timeout_ms: u64) -> Supervise {
    if feeding {
        Supervise::AbortForFeed
    } else if exited {
        Supervise::Collect
    } else if elapsed_ms >= timeout_ms {
        Supervise::TimeOut
    } else {
        Supervise::Wait
    }
}

/// Looks at a running helper: a feed comes before everything, an exit before the timeout.
pub fn supervise(feeding: bool, exited: bool, elapsed_ms: u64, timeout_ms: u64) -> (s: Supervise)
    ensures
        s == supervised(feeding, exited, elapsed_ms, timeout_ms),
{
    if feeding {
        return Supervise::AbortForFeed;
    }
    if exited {
        return Supervise::Collect;
    }
    if elapsed_ms >= timeout_ms {
        return Supervise::TimeOut;
    }
    Supervise::Wait
}

/// No inference outlives the start of a feed, and none is started during one.
pub proof fn law_never_during_a_feed(
    just_finished_feed: bool,
    last_attempt_at: Option<u64>,
    now: u64,
    rate_limit: u64,
)
    ensures
        !attempts(true, just_finished_feed, last_attempt_at, now, rate_limit),
{
}

/// After an attempt none follows within the limit, unless a feed has just ended.
pub proof fn law_attempts_are_limited(at: u64, now: u64, rate_limit: u64)
    requires
        now < at + rate_limit,
        rate_limit > 0,
    ensures
        !attempts(false, false, Some(at), now, rate_limit),
        attempts(false, true, Some(at), now, rate_limit),
{
}

/// The level is looked at when a feed is over, and otherwise once in ten minutes, never while one is
/// running; and only in a frame of the last ten minutes.
pub proof fn law_when_the_level_is_looked_at(
    was_feeding: bool,
    feeding: bool,
    last: Option<u64>,
    ts: u64,
    now: u64,
)
    ensures
        tick_of(was_feeding, feeding, last, now) == Tick::Settle <==> was_feeding && !feeding,
        tick_of(was_feeding, feeding, last, now) == Tick::Attempt <==> !was_feeding && !feeding && (
        last is None || now >= last->0 + 600_000),
        is_fresh(ts, now) <==> now <= ts + 600,
{
}

/// The score is what stands behind its name in the first line.
pub proof fn law_score_is_read(line: Seq<char>, score: Seq<char>)
    requires
        line == "score="@ + score,
        score.len() > 0,
        !crate::text::is_space(score[0]),
        !crate::text::is_space(score.last()),
    ensures
        starts(line, "score="@),
        behind_score(line) == score,
{
    reveal_strlit("score=");
    assert(line.subrange(0, 6) =~= "score="@);
    assert(line.subrange(6, line.len() as int) =~= score);
    crate::text::lemma_trimmed_id(score, Pat::Space);
}

/// A helper never outlives the start of a feed, is waited for only as long as its time is not up, and
/// what it printed is taken only once it has ended.
pub proof fn law_helper_gives_way(feeding: bool, exited: bool, elapsed_ms: u64, timeout_ms: u64)
    ensures
        ({
            let s = supervised(feeding, exited, elapsed_ms, timeout_ms);
            &&& s == Supervise::AbortForFeed <==> feeding
            &&& s == Supervise::Wait ==> elapsed_ms < timeout_ms && !exited
            &&& s == Supervise::Collect ==> exited
            &&& s == Supervise::TimeOut ==> elapsed_ms >= timeout_ms && !exited
            &&& !feeding && exited ==> s == Supervise::Collect
        }),
{
}

} // verus!
