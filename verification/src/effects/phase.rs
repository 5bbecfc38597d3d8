//! The clock of the drifting effects: the millisecond counter slowed down by
//! the speed control, without a jump where its low half wraps.
use vstd::prelude::*;

use crate::math;
use crate::math::scale16by8;

verus! {

/// Which 65536 ms stretch of the counter `timer_ms` lies in, modulo 256.
pub open spec fn epoch_of(timer_ms: u32) -> u8 {
    (timer_ms as int / 65536 % 256) as u8
}

/// How far the slowed clock runs per 256 ms, less one.
pub open spec fn pace(speed: u8) -> int {
    speed as int / 8
}

/// A slowed clock.
#[derive(Copy, Clone, Debug, PartialEq, Eq, Structural)]
pub struct PhaseClock {
    /// What the stretches that are over have contributed.
    pub correction: u16,
    /// The stretch of the last reading.
    pub epoch: u8,
}

impl PhaseClock {
    /// A clock that has not been read.
    pub open spec fn fresh() -> PhaseClock {
        PhaseClock { correction: 0, epoch: 0 }
    }

    /// The clock once it has been read at `timer_ms`.
    pub open spec fn advanced(self, timer_ms: u32, speed: u8) -> PhaseClock {
        if epoch_of(timer_ms) == self.epoch {
            self
        } else {
            PhaseClock {
                correction: ((self.correction + (1 + pace(speed)) * 256) % 65536) as u16,
                epoch: epoch_of(timer_ms),
            }
        }
    }

    /// The slowed time that a clock advanced to `timer_ms` shows.
    pub open spec fn time(self, timer_ms: u32, speed: u8) -> int {
        (math::scaled8(timer_ms as int % 65536, pace(speed)) + self.correction) % 65536
    }

    pub fn new() -> (clock: Self)
        ensures
            clock == Self::fresh(),
    {
        Self { correction: 0, epoch: 0 }
    }

    /// Advances the clock to `timer_ms` and reads it.
    pub fn read(&mut self, timer_ms: u32, speed: u8) -> (time: u16)
        ensures
            *final(self) == old(self).advanced(timer_ms, speed),
            time == final(self).time(timer_ms, speed),
    {
        let scale: u8 = speed / 8;
        let epoch: u8 = (timer_ms / 65536 % 256) as u8;
        if epoch != self.epoch {
            self.epoch = epoch;
            self.correction = self.correction.wrapping_add((1 + scale as u16) * 256);
        }
        scale16by8((timer_ms % 65536) as u16, scale).wrapping_add(self.correction)
    }
}

/// Where the low half of the counter wraps the slowed clock goes on by one
/// step, as anywhere else.
pub proof fn law_no_jump_at_the_wrap(clock: PhaseClock, timer_ms: u32, speed: u8)
    requires
        timer_ms < u32::MAX,
        timer_ms as int % 65536 == 65535,
        clock.epoch == epoch_of(timer_ms),
    ensures
        ({
            let next = (timer_ms + 1) as u32;
            clock.advanced(next, speed).time(next, speed) == (clock.time(timer_ms, speed) + 1)
                % 65536
        }),
{
    let next = (timer_ms + 1) as u32;
    let p = pace(speed);
    assert(next as int % 65536 == 0);
    assert(epoch_of(next) != epoch_of(timer_ms));
    assert(0 * (1 + p) == 0);
    assert(65535 * (1 + p) / 256 == 256 * (1 + p) - 1);
}

/// The slowed clock runs at `1 + speed / 8` steps for every 256 milliseconds of
/// the counter's low half, on top of what the stretches before have left, and
/// wraps after 65536.
pub proof fn law_the_clock_is_slowed_evenly(clock: PhaseClock, timer_ms: u32, speed: u8)
    ensures
        ({
            let low = timer_ms as int - 65536 * (timer_ms as int / 65536);
            let ran = low * (1 + speed as int / 8) / 256;
            &&& 256 * ran <= low * (1 + speed as int / 8) < 256 * ran + 256
            &&& clock.time(timer_ms, speed) == (ran + clock.correction) % 65536
        }),
{
}

/// A stretch of 65536 milliseconds that is over leaves what the clock ran in
/// it: 256 times `1 + speed / 8` steps. Within a stretch nothing is left.
pub proof fn law_a_finished_stretch_is_kept(clock: PhaseClock, timer_ms: u32, speed: u8)
    ensures
        ({
            let stretch = timer_ms as int / 65536 % 256;
            let after = clock.advanced(timer_ms, speed);
            &&& stretch == clock.epoch ==> after == clock
            &&& stretch != clock.epoch ==> {
                &&& after.epoch == stretch
                &&& after.correction == (clock.correction + 256 * (1 + speed as int / 8)) % 65536
            }
        }),
        PhaseClock::fresh().correction == 0,
        PhaseClock::fresh().epoch == 0,
{
}

} // verus!
