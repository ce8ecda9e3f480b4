//! Points in time, as nanoseconds of a monotonic clock.
use vstd::prelude::*;

verus! {

/// Nanoseconds in a millisecond.
pub const NANOS_PER_MILLI: u64 = 1_000_000;

/// Nanoseconds in a second.
pub const NANOS_PER_SEC: u64 = 1_000_000_000;

/// Time between two status reports.
pub const STATUS_INTERVAL: u64 = 100 * NANOS_PER_MILLI;

/// Time from `since` to `now`; none when `since` lies ahead.
pub open spec fn time_since(now: u64, since: u64) -> nat {
    if now >= since {
        (now - since) as nat
    } else {
        0
    }
}

/// Time from `since` to `now`; none when `since` lies ahead.
pub fn elapsed(now: u64, since: u64) -> (d: u64)
    ensures
        d == time_since(now, since),
{
    now.saturating_sub(since)
}

/// Lets a recurring warning through once a second.
pub struct WarnLimit {
    pub last: u64,
}

impl WarnLimit {
    /// A limit that has let nothing through since second zero.
    pub fn new() -> (limit: Self)
        ensures
            limit.last == 0,
    {
        WarnLimit { last: 0 }
    }

    /// Whether a warning at second `now` is the first one of that second.
    pub fn pass(&mut self, now: u64) -> (first: bool)
        ensures
            first == (old(self).last != now),
            final(self).last == now,
    {
        let first = self.last != now;
        self.last = now;
        first
    }
}

/// Watches an output stream for underruns: a shortfall counts only once audio has flowed.
pub struct UnderrunWatch {
    pub seen_data: bool,
    pub limit: WarnLimit,
}

impl UnderrunWatch {
    /// A watch on a stream that was never fed.
    pub fn new() -> (watch: Self)
        ensures
            !watch.seen_data,
            watch.limit.last == 0,
    {
        UnderrunWatch { seen_data: false, limit: WarnLimit::new() }
    }

    /// Takes note of a callback that got `played` of `wanted` samples at second `now`; returns the
    /// number of missing samples where that calls for a warning.
    pub fn note(&mut self, played: usize, wanted: usize, now: u64) -> (missing: Option<usize>)
        requires
            played <= wanted,
        ensures
            final(self).seen_data == (old(self).seen_data || played > 0),
            missing is Some <==> final(self).seen_data && played < wanted && old(self).limit.last
                != now,
            missing matches Some(n) ==> n == wanted - played,
            final(self).limit.last == if final(self).seen_data && played < wanted {
                now
            } else {
                old(self).limit.last
            },
    {
        if played > 0 {
            self.seen_data = true;
        }
        if self.seen_data && played < wanted && self.limit.pass(now) {
            Some(wanted - played)
        } else {
            None
        }
    }
}

/// Time that has passed, put on top of when it began, is now; of what is still to begin none has passed.
pub proof fn lemma_time_adds_up(now: u64, since: u64)
    ensures
        since <= now ==> since + time_since(now, since) == now,
        now <= since ==> time_since(now, since) == 0,
{
}

} // verus!
