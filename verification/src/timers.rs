//! The two 8-bit countdown timers (delay and sound), decremented at a fixed
//! external cadence and clamped at zero.

use vstd::prelude::*;

verus! {

/// Two independent saturating-down counters. Instructions set them
/// absolutely; the host drives `tick` at its own fixed cadence, decoupled
/// from the instruction rate.
pub struct Timers {
    /// The delay counter.
    pub delay: u8,
    /// The sound counter.
    pub sound: u8,
}

impl Timers {
    /// Both counters at zero.
    pub fn new() -> (r: Self)
        ensures
            r.delay == 0u8,
            r.sound == 0u8,
    {
        let delay: u8 = 0;
        let sound: u8 = 0;
        Self { delay, sound }
    }

    /// Reads the sound counter.
    pub fn sound(&self) -> (r: u8)
        ensures
            r == self.sound,
    {
        self.sound
    }

    /// Reads the delay counter.
    pub fn delay(&self) -> (r: u8)
        ensures
            r == self.delay,
    {
        self.delay
    }

    /// Sets the delay counter.
    pub fn set_delay(&mut self, delay: u8)
        ensures
            final(self).delay == delay,
            final(self).sound == old(self).sound,
    {
        self.delay = delay;
    }

    /// Sets the sound counter.
    pub fn set_sound(&mut self, sound: u8)
        ensures
            final(self).sound == sound,
            final(self).delay == old(self).delay,
    {
        self.sound = sound;
    }

    /// One external cadence step: decrements each nonzero counter by one and
    /// leaves a zero counter at zero, so neither ever wraps below zero.
    pub fn tick(&mut self)
        ensures
            final(self).delay == if old(self).delay > 0 {
                (old(self).delay - 1) as u8
            } else {
                0u8
            },
            final(self).sound == if old(self).sound > 0 {
                (old(self).sound - 1) as u8
            } else {
                0u8
            },
    {
        if self.delay > 0 {
            self.delay = self.delay - 1;
        }
        if self.sound > 0 {
            self.sound = self.sound - 1;
        }
    }
}

} // verus!
