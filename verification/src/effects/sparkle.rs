//! SPARKLE: every LED twinkles on its own phase.
use vstd::prelude::*;

use super::phase;
use super::phase::PhaseClock;
use super::FrameParams;
use crate::color::Hsv;
use crate::layout::LedLayout;
use crate::math;
use crate::math::{ease8_in_out_approx, scale8, sin8};
use crate::palette;
use crate::palette::interp_color;

verus! {

/// Phase between two neighbouring LEDs of the frame buffer.
pub const PHASE_STEP: usize = 151;

/// Brightness of the LED `index` at a slowed time.
pub open spec fn twinkle(index: int, time: int) -> int {
    math::sine((index % 256 * PHASE_STEP + time) % 256)
}

fn led_twinkle(index: usize, time: u16) -> (r: u8)
    ensures
        r == twinkle(index as int, time as int),
{
    let phase: u32 = (index % 256) as u32 * 151 + time as u32;
    sin8((phase % 256) as u8)
}

/// The color of the LED `index` when `clock` has been read for `frame`.
pub open spec fn pixel(clock: PhaseClock, frame: FrameParams<'_>, index: int) -> Hsv {
    let light = twinkle(index, clock.time(frame.timer_ms, frame.speed));
    palette::color_at(
        frame.palette@,
        light as u8,
        frame.sat,
        math::scaled8(frame.val as int, math::eased(light)) as u8,
    )
}

/// The frame. Pixels beyond the layout keep what they held.
pub open spec fn painted(
    clock: PhaseClock,
    frame: FrameParams<'_>,
    leds: Seq<(u8, u8)>,
    out: Seq<Hsv>,
) -> Seq<Hsv> {
    Seq::new(
        out.len(),
        |i: int|
            if i < leds.len() {
                pixel(clock, frame, i)
            } else {
                out[i]
            },
    )
}

/// The sparkle effect: its clock.
pub struct SparkleState {
    clock: PhaseClock,
}

impl View for SparkleState {
    type V = PhaseClock;

    closed spec fn view(&self) -> PhaseClock {
        self.clock
    }
}

impl Default for SparkleState {
    fn default() -> (state: Self)
        ensures
            state@ == phase::PhaseClock::fresh(),
    {
        Self::new()
    }
}

impl SparkleState {
    pub fn new() -> (state: Self)
        ensures
            state@ == phase::PhaseClock::fresh(),
    {
        Self { clock: PhaseClock::new() }
    }

    /// Renders one frame.
    pub fn tick<L: LedLayout>(&mut self, layout: &L, params: FrameParams<'_>, out: &mut [Hsv])
        ensures
            final(self)@ == old(self)@.advanced(params.timer_ms, params.speed),
            final(out)@ == painted(final(self)@, params, layout.leds(), old(out)@),
    {
        let time: u16 = self.clock.read(params.timer_ms, params.speed);
        let ghost clock = self@;
        let ghost start = out@;
        let count: usize = layout.count();
        let len: usize = out.len();
        let mut i: usize = 0;
        while i < len && i < count
            invariant
                i <= len,
                i <= count,
                len == out@.len(),
                len == start.len(),
                count == layout.leds().len(),
                time == clock.time(params.timer_ms, params.speed),
                forall|j: int| 0 <= j < i ==> out@[j] == pixel(clock, params, j),
                forall|j: int| i <= j < len ==> out@[j] == start[j],
            decreases len - i,
        {
            let light: u8 = led_twinkle(i, time);
            out[i] = interp_color(
                params.palette,
                light,
                params.sat,
                scale8(params.val, ease8_in_out_approx(light)),
            );
            i += 1;
        }
        assert(out@ =~= painted(clock, params, layout.leds(), start));
    }
}

/// Every LED twinkles like the one before it in the buffer, 151 steps of phase
/// ahead.
pub proof fn law_neighbours_twinkle_apart(index: int, time: int)
    requires
        0 <= index,
    ensures
        twinkle(index + 1, time) == twinkle(index, time + 151),
        twinkle(0, time) == math::sine(time % 256),
        twinkle(index, time + 256) == twinkle(index, time),
{
    let (here, next) = (index % 256, (index + 1) % 256);
    assert(next == here + 1 || here == 255 && next == 0);
    assert((next * 151 + time) % 256 == (here * 151 + (time + 151)) % 256);
    assert((here * 151 + (time + 256)) % 256 == (here * 151 + time) % 256);
    assert((0 * 151 + time) % 256 == time % 256);
}

/// A twinkle picks the palette color and, eased, scales the brightness of the
/// frame.
pub proof fn law_a_twinkle_scales_the_brightness(
    clock: PhaseClock,
    frame: FrameParams<'_>,
    index: int,
)
    ensures
        ({
            let light = twinkle(index, clock.time(frame.timer_ms, frame.speed));
            pixel(clock, frame, index) == palette::color_at(
                frame.palette@,
                light as u8,
                frame.sat,
                math::scaled8(frame.val as int, math::eased(light)) as u8,
            )
        }),
{
}

} // verus!
