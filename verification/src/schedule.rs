//! The guard that keeps passes apart.
//!
//! A timer fires once per interval, whatever the last pass took. The guard
//! decides what a tick does: it starts a pass if none is running and is
//! skipped otherwise, so that two passes never run at once. It also says
//! when a running pass has used up its time.

use vstd::prelude::*;

verus! {

/// The interval between two ticks of the timer, in seconds.
pub const PASS_INTERVAL_SECONDS: u32 = 60;

/// The longest that a pass may take, in seconds: it is over before the next
/// tick.
pub const PASS_BUDGET_SECONDS: u64 = 55;

/// The longest that one outside call may take, in seconds.
pub const CALL_TIMEOUT_SECONDS: u64 = 10;

/// The state of the guard: whether a pass is running, when it began, and how
/// long a pass may take. Times are readings of one clock, in its unit.
pub struct GuardView {
    pub running: bool,
    pub started_at: u64,
    pub budget: u64,
}

impl GuardView {
    /// What a tick at `now` does: the guard afterwards, and whether a pass
    /// starts. While a pass is running the tick is skipped and the guard
    /// stays as it was.
    pub open spec fn tick(self, now: u64) -> (GuardView, bool) {
        if self.running {
            (self, false)
        } else {
            (GuardView { running: true, started_at: now, ..self }, true)
        }
    }

    /// The guard after the running pass has ended.
    pub open spec fn finish(self) -> GuardView {
        GuardView { running: false, ..self }
    }

    /// The time that the running pass has taken at `now`; a clock that went
    /// backwards counts as no time.
    pub open spec fn elapsed(self, now: u64) -> int {
        if now >= self.started_at {
            now - self.started_at
        } else {
            0
        }
    }

    /// A pass is running and has used up its time at `now`.
    pub open spec fn timed_out(self, now: u64) -> bool {
        self.running && self.elapsed(now) >= self.budget
    }
}

/// The guard that keeps passes apart.
pub struct PassGuard {
    running: bool,
    started_at: u64,
    budget: u64,
}

impl View for PassGuard {
    type V = GuardView;

    closed spec fn view(&self) -> GuardView {
        GuardView { running: self.running, started_at: self.started_at, budget: self.budget }
    }
}

impl PassGuard {
    /// A guard with no pass running, for passes that may take `budget`.
    pub fn new(budget: u64) -> (guard: PassGuard)
        ensures
            guard@ == (GuardView { running: false, started_at: 0, budget }),
    {
        PassGuard { running: false, started_at: 0, budget }
    }

    /// A pass is running.
    pub fn is_running(&self) -> (running: bool)
        ensures
            running == self@.running,
    {
        self.running
    }

    /// Takes a tick of the timer at `now` and says whether a pass starts.
    pub fn tick(&mut self, now: u64) -> (start: bool)
        ensures
            (final(self)@, start) == old(self)@.tick(now),
    {
        if self.running {
            false
        } else {
            self.running = true;
            self.started_at = now;
            true
        }
    }

    /// Notes that the running pass has ended.
    pub fn finish(&mut self)
        ensures
            final(self)@ == old(self)@.finish(),
    {
        self.running = false;
    }

    /// A pass is running and has used up its time at `now`.
    pub fn timed_out(&self, now: u64) -> (late: bool)
        ensures
            late == self@.timed_out(now),
    {
        if !self.running {
            false
        } else if now >= self.started_at {
            now - self.started_at >= self.budget
        } else {
            self.budget == 0
        }
    }
}

/// Passes never overlap: once a tick has started a pass, every later tick
/// is skipped and changes nothing, until the pass has ended; the first tick
/// after that starts the next pass.
pub proof fn law_passes_never_overlap(guard: GuardView, first: u64, second: u64)
    requires
        guard.tick(first).1,
    ensures
        !guard.tick(first).0.tick(second).1,
        guard.tick(first).0.tick(second).0 == guard.tick(first).0,
        guard.tick(first).0.finish().tick(second).1,
{
}

} // verus!
