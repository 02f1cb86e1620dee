//! Interval timers over the monotonic clock.

use vstd::prelude::*;
use std::time::{Duration, Instant};

verus! {

/// `std::time::Instant`: a reading of the monotonic clock. The proofs see
/// nothing inside it.
#[verifier::external_type_specification]
#[verifier::external_body]
pub struct ExInstant(Instant);

/// `std::time::Instant::now`: a reading of the monotonic clock. Nothing is
/// claimed of the reading.
#[verifier::external_body]
fn clock_now() -> Instant {
    Instant::now()
}

/// `std::time::Instant::elapsed`: the time that has passed since `start` was
/// read. Nothing is claimed of it.
#[verifier::external_body]
fn time_since(start: &Instant) -> Duration {
    start.elapsed()
}

/// `std::time::Duration::as_secs`: the whole seconds of a duration. Nothing
/// is claimed of the number.
#[verifier::external_body]
fn whole_seconds(d: &Duration) -> u64 {
    d.as_secs()
}

/// A timer with a fixed interval, in seconds.
///
/// A timer that was started with `start_imm` counts as started one interval
/// ago: the interval is kept as a lead that is added to the clock's reading.
#[derive(Debug)]
pub struct Timer {
    interval: u32,
    start_time: Instant,
    lead: u64,
    active: bool,
}

/// What a timer holds besides the clock reading it was started at.
#[derive(Debug, Clone, Copy, PartialEq, Eq, Structural)]
pub struct TimerModel {
    /// The interval, in seconds.
    pub interval: u32,
    /// The seconds by which the start was antedated.
    pub lead: u64,
    /// Whether the timer is running.
    pub active: bool,
}

impl TimerModel {
    /// The timer after `start`.
    pub open spec fn started(self) -> TimerModel {
        TimerModel { interval: self.interval, lead: 0, active: true }
    }

    /// The timer after `start_imm`.
    pub open spec fn started_imm(self) -> TimerModel {
        TimerModel { interval: self.interval, lead: self.interval as u64, active: true }
    }

    /// The timer after `stop`.
    pub open spec fn stopped(self) -> TimerModel {
        TimerModel { active: false, ..self }
    }

    /// A stopped timer with the given interval.
    pub open spec fn idle(interval: u32) -> TimerModel {
        TimerModel { interval, lead: 0, active: false }
    }

    /// The timer is running and has run out when `secs` whole seconds have
    /// passed on the clock since it was started: with its lead they make up
    /// its interval.
    pub open spec fn run_out(self, secs: u64) -> bool {
        self.active && secs + self.lead >= self.interval
    }

    /// `expired` is what a look at the clock can say of the timer: whether
    /// it is running and has run out, at some reading of the clock.
    pub open spec fn may_show(self, expired: bool) -> bool {
        exists|secs: u64| expired == self.run_out(secs)
    }
}

/// What the clock can say of a timer: of one that is not running, that it
/// has not run out; of a running one whose lead covers its interval, that it
/// has; of any other running one, either.
pub proof fn lemma_may_show(t: TimerModel, expired: bool)
    ensures
        t.may_show(expired) <==> (expired ==> t.active) && (t.run_out(0) ==> expired),
{
    if (expired ==> t.active) && (t.run_out(0) ==> expired) {
        if expired {
            assert(expired == t.run_out(t.interval as u64));
        } else {
            assert(expired == t.run_out(0));
        }
    }
    if t.may_show(expired) {
        let secs = choose|secs: u64| expired == t.run_out(secs);
        assert(t.run_out(0) ==> t.run_out(secs));
    }
}

impl View for Timer {
    type V = TimerModel;

    open spec fn view(&self) -> TimerModel {
        TimerModel { interval: self.interval(), lead: self.lead(), active: self.active() }
    }
}

impl Clone for Timer {
    fn clone(&self) -> (copy: Timer)
        ensures
            copy@ == self@,
    {
        Timer {
            interval: self.interval,
            start_time: self.start_time,
            lead: self.lead,
            active: self.active,
        }
    }
}

impl Timer {
    /// The timer's interval, in seconds.
    pub closed spec fn interval(&self) -> u32 {
        self.interval
    }

    /// The seconds by which the start was antedated.
    pub closed spec fn lead(&self) -> u64 {
        self.lead
    }

    /// The timer is running.
    pub closed spec fn active(&self) -> bool {
        self.active
    }

    /// The seconds that the timer shows when `secs` whole seconds have passed
    /// on the clock since it was started.
    pub open spec fn elapsed_after(&self, secs: u64) -> u64 {
        if secs + self.lead() > u64::MAX {
            u64::MAX
        } else {
            (secs + self.lead()) as u64
        }
    }

    /// The timer has run out when `secs` whole seconds have passed on the
    /// clock since it was started.
    pub open spec fn expired_after(&self, secs: u64) -> bool {
        self.elapsed_after(secs) >= self.interval()
    }

    /// A stopped timer with the given interval.
    pub fn new(interval: u32) -> (t: Timer)
        ensures
            t@ == TimerModel::idle(interval),
    {
        Timer { interval, start_time: clock_now(), lead: 0, active: false }
    }

    /// Starts the timer now.
    pub fn start(&mut self)
        ensures
            final(self)@ == old(self)@.started(),
    {
        self.start_time = clock_now();
        self.lead = 0;
        self.active = true;
    }

    /// Starts the timer as if one interval had already passed, so that it has
    /// run out at once.
    pub fn start_imm(&mut self)
        ensures
            final(self)@ == old(self)@.started_imm(),
            forall|secs: u64| final(self).expired_after(secs),
    {
        self.start_time = clock_now();
        self.lead = self.interval as u64;
        self.active = true;
    }

    /// Stops the timer.
    pub fn stop(&mut self)
        ensures
            final(self)@ == old(self)@.stopped(),
    {
        self.active = false;
    }

    /// Whether the timer is running.
    pub fn is_up(&self) -> (up: bool)
        ensures
            up == self.active(),
    {
        self.active
    }

    /// The interval the timer was made with.
    pub fn period(&self) -> (interval: u32)
        ensures
            interval == self.interval(),
    {
        self.interval
    }

    /// What the timer shows for a clock reading of `secs` whole seconds since
    /// it was started.
    pub fn elapsed_at(&self, secs: u64) -> (shown: u64)
        ensures
            shown == self.elapsed_after(secs),
    {
        secs.saturating_add(self.lead)
    }

    /// Whether the timer has run out at a clock reading of `secs` whole
    /// seconds since it was started.
    pub fn is_expired_at(&self, secs: u64) -> (expired: bool)
        ensures
            expired == self.expired_after(secs),
    {
        self.elapsed_at(secs) >= self.interval as u64
    }

    /// Whether a running timer has run out. The answer depends on the clock;
    /// a timer whose lead covers its interval has run out whatever the clock
    /// shows.
    pub fn is_expired(&self) -> (expired: bool)
        requires
            self.active(),
        ensures
            exists|secs: u64| expired == self.expired_after(secs),
            self.lead() >= self.interval() ==> expired,
            self@.may_show(expired),
    {
        let d = time_since(&self.start_time);
        let secs = whole_seconds(&d);
        let expired = self.is_expired_at(secs);
        assert(expired == self.expired_after(secs));
        assert(expired == self@.run_out(secs));
        expired
    }

    /// The seconds since the timer was started, by the clock. Never less than
    /// the timer's lead.
    pub fn elapsed(&self) -> (shown: u64)
        ensures
            exists|secs: u64| shown == self.elapsed_after(secs),
            shown >= self.lead(),
    {
        let d = time_since(&self.start_time);
        let secs = whole_seconds(&d);
        let shown = self.elapsed_at(secs);
        assert(shown == self.elapsed_after(secs));
        shown
    }
}

} // verus!
