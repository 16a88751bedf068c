//! What is due when: the heartbeats of a receiver that runs.
//!
//! Times are in milliseconds on a clock that does not run backwards.

use vstd::prelude::*;
use crate::units::{elapsed, elapsed_ms};

verus! {

/// Time between two reports of the status of the device.
pub const STATUS_INTERVAL_MS: u64 = 5_000;

/// Time between two reports of the signal.
pub const SIGNAL_INTERVAL_MS: u64 = 500;

/// Time between two summaries of the tracker.
pub const SUMMARY_INTERVAL_MS: u64 = 10_000;

/// Something that is done again whenever an interval has passed since it
/// was last done.
#[derive(Debug, Clone, Copy, PartialEq, Eq, Structural)]
pub struct Periodic {
    /// The interval in milliseconds.
    pub interval: u64,
    /// When it was last done.
    pub last: u64,
}

/// Whether something is due at time `now`: the interval has passed.
pub open spec fn is_due(p: Periodic, now: u64) -> bool {
    elapsed(now, p.last) >= p.interval
}

/// The state after time `now` was looked at: what was due has been done.
pub open spec fn polled(p: Periodic, now: u64) -> Periodic {
    if is_due(p, now) {
        Periodic { last: now, ..p }
    } else {
        p
    }
}

impl Periodic {
    /// Something that was last done at time `now`.
    pub fn new(interval: u64, now: u64) -> (p: Periodic)
        ensures
            p == (Periodic { interval, last: now }),
    {
        Periodic { interval, last: now }
    }

    /// Whether it is due at time `now`; if so, it counts as done at `now`.
    pub fn poll(&mut self, now: u64) -> (due: bool)
        ensures
            due == is_due(*old(self), now),
            *final(self) == polled(*old(self), now),
    {
        if elapsed_ms(now, self.last) >= self.interval {
            self.last = now;
            true
        } else {
            false
        }
    }
}

/// What is due at a moment.
#[derive(Debug, Clone, Copy, PartialEq, Eq, Structural)]
pub struct Due {
    /// The status of the device is to be reported.
    pub status: bool,
    /// The signal is to be reported.
    pub signal: bool,
    /// The tracker is to be summed up.
    pub summary: bool,
}

/// The three heartbeats of a receiver.
#[derive(Debug, Clone, Copy, PartialEq, Eq, Structural)]
pub struct Schedule {
    pub status: Periodic,
    pub signal: Periodic,
    pub summary: Periodic,
}

/// The schedule of a receiver that starts at time `now`.
pub open spec fn schedule_from(now: u64) -> Schedule {
    Schedule {
        status: Periodic { interval: STATUS_INTERVAL_MS, last: now },
        signal: Periodic { interval: SIGNAL_INTERVAL_MS, last: now },
        summary: Periodic { interval: SUMMARY_INTERVAL_MS, last: now },
    }
}

impl Schedule {
    /// The schedule of a receiver that starts at time `now`.
    pub fn new(now: u64) -> (schedule: Schedule)
        ensures
            schedule == schedule_from(now),
    {
        Schedule {
            status: Periodic::new(STATUS_INTERVAL_MS, now),
            signal: Periodic::new(SIGNAL_INTERVAL_MS, now),
            summary: Periodic::new(SUMMARY_INTERVAL_MS, now),
        }
    }

    /// What is due at time `now`. Each of it counts as done at `now`.
    pub fn poll(&mut self, now: u64) -> (due: Due)
        ensures
            due == (Due {
                status: is_due(old(self).status, now),
                signal: is_due(old(self).signal, now),
                summary: is_due(old(self).summary, now),
            }),
            *final(self) == (Schedule {
                status: polled(old(self).status, now),
                signal: polled(old(self).signal, now),
                summary: polled(old(self).summary, now),
            }),
    {
        let status = self.status.poll(now);
        let signal = self.signal.poll(now);
        let summary = self.summary.poll(now);
        Due { status, signal, summary }
    }
}

/// A report is never later than the first look at the clock after its
/// interval has passed, and two reports are at least an interval apart.
pub proof fn lemma_reports_are_spaced(p: Periodic, now: u64, later: u64)
    requires
        p.last <= now <= later,
        is_due(p, now),
        is_due(polled(p, now), later),
    ensures
        later - now >= p.interval,
        polled(polled(p, now), later).last == later,
{
}

} // verus!
