//! The frame clock and the frame-rate counter. Times are whole nanoseconds
//! read from a monotonic source by the caller.
use vstd::prelude::*;

verus! {

/// Nanoseconds in one second.
pub const NANOS_PER_SECOND: u64 = 1_000_000_000;

/// The longest step handed to a mode: 1/15 s, in whole nanoseconds.
pub const MAX_STEP_NANOS: u64 = 66_666_666;

/// Time over which the frame-rate counter averages before it reports.
pub const FPS_WINDOW_NANOS: u64 = 1_000_000_000;

pub open spec fn elapsed_since(last: u64, now: u64) -> u64 {
    if now >= last {
        (now - last) as u64
    } else {
        0
    }
}

pub open spec fn clamped_step(duration: u64) -> u64 {
    if duration <= MAX_STEP_NANOS {
        duration
    } else {
        MAX_STEP_NANOS
    }
}

/// The step for a frame that took `duration`: never above 1/15 s.
pub fn step_delta(duration: u64) -> (r: u64)
    ensures
        r == clamped_step(duration),
        r <= duration,
        15 * r <= NANOS_PER_SECOND,
{
    if duration <= MAX_STEP_NANOS {
        duration
    } else {
        MAX_STEP_NANOS
    }
}

/// The step is at most 1/15 s whatever the frame took, and never negative.
pub proof fn lemma_step_bounded(duration: u64)
    ensures
        0 <= clamped_step(duration),
        15 * clamped_step(duration) <= NANOS_PER_SECOND,
        duration <= MAX_STEP_NANOS ==> clamped_step(duration) == duration,
{
}

/// The instant of the last frame and the time the frame before it took.
pub struct FrameClock {
    pub last: u64,
    pub duration: u64,
}

impl FrameClock {
    pub fn new() -> (r: FrameClock)
        ensures
            r.last == 0,
            r.duration == 0,
    {
        FrameClock { last: 0, duration: 0 }
    }

    /// Starts measuring from `now`.
    pub fn init(&mut self, now: u64)
        ensures
            final(self).last == now,
            final(self).duration == 0,
    {
        self.last = now;
        self.duration = 0;
    }

    /// Marks the start of a frame at `now`; the time since the previous mark
    /// becomes the frame's duration.
    pub fn frame_advance(&mut self, now: u64)
        ensures
            final(self).last == now,
            final(self).duration == elapsed_since(old(self).last, now),
    {
        self.duration = if now >= self.last {
            now - self.last
        } else {
            0
        };
        self.last = now;
    }

    pub fn get_duration(&self) -> (r: u64)
        ensures
            r == self.duration,
    {
        self.duration
    }

    /// The duration clamped for stepping.
    pub fn get_deltatime(&self) -> (r: u64)
        ensures
            r == clamped_step(self.duration),
    {
        step_delta(self.duration)
    }
}

/// Frames counted and time accumulated in the current window.
pub struct FpsCounter {
    pub elapsed: u64,
    pub frames: u64,
}

/// Frames per second over a window of `frames` frames lasting `elapsed`.
pub open spec fn rate(frames: int, elapsed: int) -> int {
    frames * NANOS_PER_SECOND / elapsed
}

impl FpsCounter {
    pub open spec fn wf(&self) -> bool {
        self.elapsed < FPS_WINDOW_NANOS
    }

    pub fn new() -> (r: FpsCounter)
        ensures
            r.wf(),
            r.elapsed == 0,
            r.frames == 0,
    {
        FpsCounter { elapsed: 0, frames: 0 }
    }

    /// Counts a frame that took `duration`. Once the window is full it
    /// returns the frame rate over it and starts a new window.
    pub fn frame(&mut self, duration: u64) -> (r: Option<u64>)
        requires
            old(self).wf(),
        ensures
            final(self).wf(),
            ({
                let e = old(self).elapsed + duration;
                let f = if old(self).frames < u64::MAX {
                    old(self).frames + 1
                } else {
                    old(self).frames as int
                };
                if e >= FPS_WINDOW_NANOS {
                    &&& r == Some(rate(f, e) as u64)
                    &&& final(self).elapsed == 0
                    &&& final(self).frames == 0
                } else {
                    &&& r is None
                    &&& final(self).elapsed == e
                    &&& final(self).frames == f
                }
            }),
    {
        let frames: u64 = if self.frames < u64::MAX {
            self.frames + 1
        } else {
            self.frames
        };
        if duration >= FPS_WINDOW_NANOS - self.elapsed {
            let e: u128 = self.elapsed as u128 + duration as u128;
            proof {
                assert(frames as int * NANOS_PER_SECOND as int <= u64::MAX as int * NANOS_PER_SECOND as int)
                    by (nonlinear_arith)
                    requires frames <= u64::MAX;
                assert(rate(frames as int, e as int) <= frames as int) by (nonlinear_arith)
                    requires e >= NANOS_PER_SECOND, frames >= 0;
            }
            let fps: u128 = frames as u128 * NANOS_PER_SECOND as u128 / e;
            self.elapsed = 0;
            self.frames = 0;
            Some(fps as u64)
        } else {
            self.elapsed = self.elapsed + duration;
            self.frames = frames;
            None
        }
    }
}

} // verus!
