//! Pacing of requests: the site asks for a pause between two requests, so
//! each request waits until the pause since the end of the one before it is
//! over. Times are milliseconds since the epoch of the clock.

use vstd::prelude::*;

verus! {

/// The pause that the site asks for between two requests, in milliseconds.
pub const COOLDOWN: u32 = 3000;

/// When the last request ended, and the pause to keep after it.
#[derive(Debug, Clone, Copy, PartialEq, Eq)]
pub struct Throttle {
    interval: u32,
    previous: Option<i64>,
}

/// A throttle, as mathematical values.
pub struct ThrottleView {
    /// The pause between two requests.
    pub interval: int,
    /// When the last request ended, if there was one.
    pub previous: Option<int>,
}

impl View for Throttle {
    type V = ThrottleView;

    closed spec fn view(&self) -> ThrottleView {
        ThrottleView {
            interval: self.interval as int,
            previous: match self.previous {
                Some(p) => Some(p as int),
                None => None,
            },
        }
    }
}

/// How long a request at `now` has to wait: what is left of the pause
/// since the last request ended, and nothing where the pause is over or no
/// request was made yet.
pub open spec fn delay_of(throttle: ThrottleView, now: int) -> int {
    match throttle.previous {
        Some(previous) => {
            let elapsed = now - previous;
            if elapsed < throttle.interval {
                throttle.interval - elapsed
            } else {
                0
            }
        },
        None => 0,
    }
}

/// The throttle after a request ended at `now`.
pub open spec fn after_request(throttle: ThrottleView, now: int) -> ThrottleView {
    ThrottleView { interval: throttle.interval, previous: Some(now) }
}

/// The milliseconds that `sec` seconds and `nsec` nanoseconds come to, held
/// to the range of `i64`. Nanoseconds below zero count as none.
pub open spec fn milliseconds_of(sec: int, nsec: int) -> int {
    let whole = sec * 1000 + if nsec > 0 {
        nsec / 1_000_000
    } else {
        0
    };
    if whole > i64::MAX {
        i64::MAX as int
    } else if whole < i64::MIN {
        i64::MIN as int
    } else {
        whole
    }
}

/// Reads the clock with `time::now`, and returns the seconds and the
/// nanoseconds of what `Tm::to_timespec` makes of it. Nothing is claimed of
/// the result: it is the time of the call.
#[verifier::external_body]
fn clock() -> (r: (i64, i32)) {
    let spec = time::now().to_timespec();
    (spec.sec, spec.nsec)
}

/// The milliseconds that `sec` seconds and `nsec` nanoseconds come to.
pub fn milliseconds(sec: i64, nsec: i32) -> (r: i64)
    ensures
        r == milliseconds_of(sec as int, nsec as int),
{
    let part: i128 = if nsec > 0 {
        (nsec / 1_000_000) as i128
    } else {
        0
    };
    let whole: i128 = sec as i128 * 1000 + part;
    if whole > i64::MAX as i128 {
        i64::MAX
    } else if whole < i64::MIN as i128 {
        i64::MIN
    } else {
        whole as i64
    }
}

/// The time of the call: what `milliseconds` makes of the clock's reading.
pub fn now() -> i64 {
    let (sec, nsec) = clock();
    milliseconds(sec, nsec)
}

impl Throttle {
    /// A throttle that keeps the site's pause, before any request.
    pub fn new() -> (r: Throttle)
        ensures
            r@ == (ThrottleView { interval: COOLDOWN as int, previous: None }),
    {
        Throttle { interval: COOLDOWN, previous: None }
    }

    /// A throttle that keeps a pause of `interval` milliseconds, before any
    /// request.
    pub fn with_interval(interval: u32) -> (r: Throttle)
        ensures
            r@ == (ThrottleView { interval: interval as int, previous: None }),
    {
        Throttle { interval, previous: None }
    }

    /// How many milliseconds a request at `now` has to wait before it may
    /// start.
    pub fn delay(&self, now: i64) -> (wait: u128)
        ensures
            wait == delay_of(self@, now as int),
    {
        match self.previous {
            Some(previous) => {
                let elapsed: i128 = now as i128 - previous as i128;
                let interval: i128 = self.interval as i128;
                if elapsed < interval {
                    (interval - elapsed) as u128
                } else {
                    0
                }
            },
            None => 0,
        }
    }

    /// Records that a request ended at `now`: the pause runs from there.
    pub fn finished(&mut self, now: i64)
        ensures
            final(self)@ == after_request(old(self)@, now as int),
    {
        self.previous = Some(now);
    }
}

/// A request never starts before the pause since the end of the last one is
/// over, is not held up once it is over, never waits longer than the pause
/// on a clock that does not go back, and the first request is not held up
/// at all.
pub proof fn lemma_throttle_floor(throttle: ThrottleView, now: int)
    requires
        throttle.interval >= 0,
    ensures
        delay_of(throttle, now) >= 0,
        throttle.previous matches Some(previous) ==> (previous <= now ==> delay_of(throttle, now)
            <= throttle.interval),
        throttle.previous matches Some(previous) ==> now + delay_of(throttle, now) - previous
            >= throttle.interval,
        throttle.previous matches Some(previous) ==> (now - previous >= throttle.interval
            ==> delay_of(throttle, now) == 0),
        throttle.previous is None ==> delay_of(throttle, now) == 0,
{
}

/// Two requests in a row: where the second is asked for after the first
/// ended, and waits as told, it starts a whole pause after that end.
pub proof fn lemma_back_to_back(throttle: ThrottleView, ended: int, asked: int)
    requires
        ended <= asked,
    ensures
        asked + delay_of(after_request(throttle, ended), asked) >= ended + throttle.interval,
        asked + delay_of(after_request(throttle, ended), asked) == if asked - ended
            < throttle.interval {
            ended + throttle.interval
        } else {
            asked
        },
{
}

} // verus!
