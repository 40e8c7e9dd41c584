//! Countdown timers for the door state machine and visual offsets.
//!
//! Time is carried in whole milliseconds. A timer counts `current` down
//! from `start` and clamps at zero.

use vstd::prelude::*;

verus! {

/// Longest span a timer may be started with, in milliseconds; keeps the
/// `alpha` arithmetic exact in a `u64`.
pub const TIMER_LIMIT_MS: u64 = 1_000_000_000_000;

/// A countdown from `start` to zero, in milliseconds.
#[derive(Clone, Copy, Debug, PartialEq, Eq, Structural)]
pub struct Timer {
    pub current: u64,
    pub start: u64,
}

/// What ticking a timer by `dt` milliseconds leaves behind: the
/// remainder, clamped at zero.
pub open spec fn timer_tick_spec(t: Timer, dt: u64) -> Timer {
    Timer { current: if dt < t.current { (t.current - dt) as u64 } else { 0 }, start: t.start }
}

/// Progress of the countdown in per-mille: 0 when freshly started,
/// 1000 when done; a zero-length timer is complete at once.
pub open spec fn timer_alpha_spec(t: Timer) -> u64 {
    if t.start == 0 {
        1000
    } else {
        (((t.start - t.current) * 1000) / (t.start as int)) as u64
    }
}

impl Timer {
    /// The countdown never exceeds where it started.
    pub open spec fn wf(self) -> bool {
        self.current <= self.start <= TIMER_LIMIT_MS
    }

    /// A fresh countdown of `ms` milliseconds.
    pub fn start(ms: u64) -> (r: Timer)
        requires
            ms <= TIMER_LIMIT_MS,
        ensures
            r == (Timer { current: ms, start: ms }),
            r.wf(),
    {
        Timer { current: ms, start: ms }
    }

    /// Counts down by `dt` milliseconds, clamping at zero.
    pub fn tick(&mut self, dt: u64)
        ensures
            *final(self) == timer_tick_spec(*old(self), dt),
            old(self).wf() ==> final(self).wf(),
    {
        if self.current > 0 {
            if dt < self.current {
                self.current = self.current - dt;
            } else {
                self.current = 0;
            }
        }
    }

    /// True once the countdown has reached zero.
    pub fn is_done(&self) -> (r: bool)
        ensures
            r <==> self.current == 0,
    {
        self.current == 0
    }

    /// Progress in per-mille, rising from 0 to 1000 as the countdown
    /// runs out.
    pub fn alpha(&self) -> (r: u64)
        requires
            self.wf(),
        ensures
            r == timer_alpha_spec(*self),
            r <= 1000,
    {
        if self.start == 0 {
            1000
        } else {
            proof {
                let e = self.start - self.current;
                assert(e * 1000 <= self.start * 1000) by (nonlinear_arith)
                    requires
                        0 <= e <= self.start,
                ;
                assert(self.start * 1000 <= TIMER_LIMIT_MS * 1000) by (nonlinear_arith)
                    requires
                        self.start <= TIMER_LIMIT_MS,
                ;
                assert((e * 1000) / (self.start as int) <= 1000) by (nonlinear_arith)
                    requires
                        0 <= e <= self.start,
                        0 < self.start,
                ;
            }
            ((self.start - self.current) * 1000) / self.start
        }
    }
}

} // verus!
