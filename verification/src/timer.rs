//! The 60 Hz countdown timer. No background clock runs: `set_timer` records
//! a value together with the wall-clock instant of the call, and `get_timer`
//! derives the remaining value by converting the elapsed real time to ticks
//! of 16 ms and subtracting, floored at zero.
//!
//! The wall clock itself is outside what can be verified, so the reading of
//! it is trusted and kept to three small wrappers; the tick arithmetic is
//! the verified `remaining_ticks`, which `get_timer` applies to whatever
//! elapsed-millisecond count the clock handed back.

use vstd::prelude::*;

verus! {

#[verifier::external_type_specification]
#[verifier::external_body]
pub struct ExInstant(std::time::Instant);

/// Relies on std::time::Instant::now: the current wall-clock instant.
/// Nothing is promised of the value.
#[verifier::external_body]
fn instant_now() -> (r: std::time::Instant) {
    std::time::Instant::now()
}

/// Relies on std::time::Instant::elapsed: the time from `t` to now,
/// saturating at zero. Nothing is promised of the value.
#[verifier::external_body]
fn elapsed_of(t: &std::time::Instant) -> (r: std::time::Duration) {
    t.elapsed()
}

/// Relies on std::time::Duration::as_millis: the duration in whole
/// milliseconds. Nothing is promised of the value (the cast to `u64`
/// truncates only beyond half a billion years).
#[verifier::external_body]
fn millis_of(d: &std::time::Duration) -> (r: u64) {
    d.as_millis() as u64
}

/// The countdown value left after `elapsed_ms` milliseconds, at one tick
/// per 16 ms, floored at zero.
pub open spec fn spec_remaining(value: u8, elapsed_ms: u64) -> int {
    if elapsed_ms as int / 16 >= value as int {
        0
    } else {
        value as int - elapsed_ms as int / 16
    }
}

/// Convert an elapsed real time in milliseconds to the countdown value
/// left from `value`: `max(0, value - elapsed_ms / 16)`.
pub fn remaining_ticks(value: u8, elapsed_ms: u64) -> (r: u8)
    ensures
        r as int == spec_remaining(value, elapsed_ms),
        r <= value,
{
    let ticks: u64 = elapsed_ms / 16;
    if ticks >= value as u64 {
        0
    } else {
        value - ticks as u8
    }
}

/// The delay timer. Its view is the value most recently set; the reading
/// decays from it with real time.
pub struct Timer {
    delay_timer: u8,
    timer_set_time: std::time::Instant,
}

impl View for Timer {
    type V = u8;

    closed spec fn view(&self) -> u8 {
        self.delay_timer
    }
}

impl Timer {
    /// A timer that already reads zero.
    pub fn new() -> (t: Timer)
        ensures
            t@ == 0,
    {
        Timer { delay_timer: 0, timer_set_time: instant_now() }
    }

    /// Set the countdown value and restart its wall-clock reference.
    pub fn set_timer(&mut self, value: u8)
        ensures
            final(self)@ == value,
    {
        self.delay_timer = value;
        self.timer_set_time = instant_now();
    }

    /// The current countdown value: the set value minus one tick per 16 ms
    /// of elapsed real time, floored at zero. The elapsed time depends on
    /// the wall clock, so only the bound by the set value is promised; the
    /// tick arithmetic itself is `remaining_ticks`, verified exactly.
    pub fn get_timer(&self) -> (r: u8)
        ensures
            r <= self@,
    {
        let d = elapsed_of(&self.timer_set_time);
        let ms = millis_of(&d);
        remaining_ticks(self.delay_timer, ms)
    }
}

} // verus!
