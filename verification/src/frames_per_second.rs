//! Frame-rate measurement over windows of a fixed number of frames.

use std::time::{Duration, SystemTime, SystemTimeError};
use vstd::prelude::*;

verus! {

/// `std::time::SystemTime`, carried through as an opaque value.
#[verifier::external_type_specification]
#[verifier::external_body]
pub struct ExSystemTime(SystemTime);

/// `std::time::SystemTimeError`, carried through as an opaque value.
#[verifier::external_type_specification]
#[verifier::external_body]
pub struct ExSystemTimeError(SystemTimeError);

/// `SystemTime::now` reads the system clock; nothing is claimed of the result.
pub assume_specification[ SystemTime::now ]() -> (now: SystemTime)
;

/// `SystemTime::elapsed` compares with the system clock: it fails when the
/// clock has gone back past the given time. Nothing is claimed of the result.
pub assume_specification[ SystemTime::elapsed ](time: &SystemTime) -> (elapsed: Result<
    Duration,
    SystemTimeError,
>)
;

/// `Duration::as_micros` gives the whole microseconds of a duration. The value
/// of an opaque duration is not modelled, so nothing is claimed of the result.
pub assume_specification[ Duration::as_micros ](duration: &Duration) -> (micros: u128)
;

/// A finished measuring window: so many frames took so many microseconds.
#[derive(Clone, Copy, Debug, PartialEq, Eq, Structural)]
pub struct Rate {
    pub frames: u8,
    pub micros: u128,
}

/// The system clock went back past the time of the last sample.
#[derive(Clone, Copy, Debug, PartialEq, Eq, Structural)]
pub struct ClockWentBack;

/// Counts frames and the time they took, and reports once per window of
/// `samples` frames.
pub struct FramesPerSecond {
    time: u128,
    frames: u8,
    samples: u8,
    last: SystemTime,
}

impl FramesPerSecond {
    /// Microseconds recorded in the current window.
    pub closed spec fn time(&self) -> u128 {
        self.time
    }

    /// Frames recorded in the current window.
    pub closed spec fn frames(&self) -> u8 {
        self.frames
    }

    /// Frames per window.
    pub closed spec fn samples(&self) -> u8 {
        self.samples
    }

    /// The current window is not yet full. A counter made for windows of at
    /// least one frame always is in this state.
    pub open spec fn wf(&self) -> bool {
        self.frames() < self.samples()
    }

    /// What recording a frame that took `elapsed` microseconds does to the
    /// counter `before`: it fills the window and reports it, or counts on.
    /// The time of a window saturates at `u128::MAX`.
    pub open spec fn records(
        &self,
        before: &FramesPerSecond,
        elapsed: u128,
        rate: Option<Rate>,
    ) -> bool {
        let total = if before.time() + elapsed > u128::MAX {
            u128::MAX
        } else {
            (before.time() + elapsed) as u128
        };
        &&& self.samples() == before.samples()
        &&& if before.frames() + 1 == before.samples() {
            &&& rate == Some(Rate { frames: before.samples(), micros: total })
            &&& self.time() == 0
            &&& self.frames() == 0
        } else {
            &&& rate is None
            &&& self.time() == total
            &&& self.frames() == before.frames() + 1
        }
    }

    /// A counter for windows of `samples` frames, with nothing recorded,
    /// timing from now.
    pub fn new(samples: u8) -> (counter: Self)
        ensures
            counter.time() == 0,
            counter.frames() == 0,
            counter.samples() == samples,
            samples > 0 ==> counter.wf(),
    {
        Self { time: 0, frames: 0, samples, last: SystemTime::now() }
    }

    /// Whether the current window is not yet full.
    pub fn is_wf(&self) -> (valid: bool)
        ensures
            valid == self.wf(),
    {
        self.frames < self.samples
    }

    /// Records one frame that took `elapsed` microseconds.
    pub fn record(&mut self, elapsed: u128) -> (rate: Option<Rate>)
        requires
            old(self).wf(),
        ensures
            final(self).records(old(self), elapsed, rate),
            final(self).wf(),
    {
        self.time = self.time.saturating_add(elapsed);
        self.frames += 1;
        if self.frames == self.samples {
            self.frames = 0;
            let rate = Rate { frames: self.samples, micros: self.time };
            self.time = 0;
            return Some(rate);
        }
        None
    }

    /// Records one frame that took the time since the last call (or since
    /// the counter was made), and starts timing the next one.
    ///
    /// Fails, and records nothing, when the system clock went back.
    pub fn sample(&mut self) -> (outcome: Result<Option<Rate>, ClockWentBack>)
        requires
            old(self).wf(),
        ensures
            final(self).wf(),
            outcome matches Ok(rate) ==> exists|elapsed: u128|
                final(self).records(old(self), elapsed, rate),
            outcome is Err ==> final(self).time() == old(self).time() && final(self).frames()
                == old(self).frames() && final(self).samples() == old(self).samples(),
    {
        match self.last.elapsed() {
            Ok(duration) => {
                let elapsed = duration.as_micros();
                self.last = SystemTime::now();
                let rate = self.record(elapsed);
                assert(self.records(old(self), elapsed, rate));
                Ok(rate)
            },
            Err(_) => Err(ClockWentBack),
        }
    }
}

} // verus!
