//! FLOW: two crossed waves that drift and slowly turn.
use vstd::prelude::*;

use super::phase;
use super::phase::PhaseClock;
use super::FrameParams;
use crate::color::Hsv;
use crate::layout::LedLayout;
use crate::math;
use crate::math::{cos8, scale8, sin8};
use crate::palette;
use crate::palette::interp_color;

verus! {

/// One coordinate of a position turned by an angle: `a` along the axis and
/// `b` across it, with cosine and sine offset by 128.
pub open spec fn turned(a: int, b: int, cosine: int, sine: int) -> int {
    math::quot((cosine - 128) * (a - 128) - (sine - 128) * (b - 128), 128)
}

fn turn(a: u8, b: u8, cosine: u8, sine: u8) -> (r: i32)
    ensures
        r == turned(a as int, b as int, cosine as int, sine as int),
        -300 <= r <= 300,
{
    let c: i32 = cosine as i32 - 128;
    let s: i32 = sine as i32 - 128;
    let p: i32 = a as i32 - 128;
    let q: i32 = b as i32 - 128;
    assert(-16384 <= c * p <= 16384) by (nonlinear_arith)
        requires
            -128 <= c <= 127,
            -128 <= p <= 127,
    ;
    assert(-16384 <= s * q <= 16384) by (nonlinear_arith)
        requires
            -128 <= s <= 127,
            -128 <= q <= 127,
    ;
    (c * p - s * q) / 128
}

/// Height of a wave at a phase.
pub open spec fn crest(phase: int) -> int {
    math::sine(phase % 256)
}

fn crest_at(phase: i32) -> (r: u8)
    requires
        -262_144 <= phase <= 262_144,
    ensures
        r == crest(phase as int),
{
    let forward: i32 = phase + 262_144;
    assert(forward as int % 256 == phase as int % 256);
    sin8((forward % 256) as u8)
}

/// How the board is turned at a slowed time: cosine and sine of its angle,
/// both offset by 128, and the share of the first wave.
pub open spec fn attitude(time: int) -> (int, int, int) {
    let angle = time / 4 % 256;
    (math::cosine(angle), math::sine(angle), 32 + crest(time) / 4)
}

fn attitude_at(time: u16) -> (r: (u8, u8, u8))
    ensures
        (r.0 as int, r.1 as int, r.2 as int) == attitude(time as int),
        1 <= r.1,
{
    let angle: u8 = (time / 4 % 256) as u8;
    (cos8(angle), sin8(angle), 32 + crest_at(time as i32) / 4)
}

/// Palette position of the LED at `led` at a slowed time: a wave along the
/// turned axis and one across it, mixed.
pub open spec fn level(led: (u8, u8), time: int) -> int {
    let (c, s, share) = attitude(time);
    let along = turned(led.0 as int, led.1 as int, c, s);
    let across = turned(led.1 as int, led.0 as int, c, 256 - s);
    math::scaled8(crest(along - 2 * time), share) + math::scaled8(
        crest(across + time),
        255 - share,
    )
}

fn flow_level(led: (u8, u8), time: u16) -> (r: u8)
    ensures
        r == level(led, time as int),
{
    let (c, s, share) = attitude_at(time);
    let along: i32 = turn(led.0, led.1, c, s);
    let across: i32 = turn(led.1, led.0, c, (256 - s as u16) as u8);
    let wave: u8 = crest_at(along - 2 * time as i32);
    let swell: u8 = crest_at(across + time as i32);
    proof {
        lemma_shares(wave as int, swell as int, share as int);
    }
    scale8(wave, share) + scale8(swell, 255 - share)
}

proof fn lemma_shares(a: int, b: int, share: int)
    requires
        0 <= a <= 255,
        0 <= b <= 255,
        0 <= share <= 255,
    ensures
        math::scaled8(a, share) + math::scaled8(b, 255 - share) <= 255,
{
    assert(a * (1 + share) <= 255 * (1 + share)) by (nonlinear_arith)
        requires
            a <= 255,
            0 <= share,
    ;
    assert(b * (256 - share) <= 255 * (256 - share)) by (nonlinear_arith)
        requires
            b <= 255,
            share <= 255,
    ;
}

/// The color of the LED at `led` when `clock` has been read for `frame`.
pub open spec fn pixel(clock: PhaseClock, frame: FrameParams<'_>, led: (u8, u8)) -> Hsv {
    palette::color_at(
        frame.palette@,
        level(led, clock.time(frame.timer_ms, frame.speed)) as u8,
        frame.sat,
        frame.val,
    )
}

/// The frame. Pixels beyond the layout keep what they held.
pub open spec fn painted(
    clock: PhaseClock,
    frame: FrameParams<'_>,
    leds: Seq<(u8, u8)>,
    out: Seq<Hsv>,
) -> Seq<Hsv> {
    Seq::new(
        out.len(),
        |i: int|
            if i < leds.len() {
                pixel(clock, frame, leds[i])
            } else {
                out[i]
            },
    )
}

/// The flow effect: its clock.
pub struct FlowState {
    clock: PhaseClock,
}

impl View for FlowState {
    type V = PhaseClock;

    closed spec fn view(&self) -> PhaseClock {
        self.clock
    }
}

impl Default for FlowState {
    fn default() -> (state: Self)
        ensures
            state@ == phase::PhaseClock::fresh(),
    {
        Self::new()
    }
}

impl FlowState {
    pub fn new() -> (state: Self)
        ensures
            state@ == phase::PhaseClock::fresh(),
    {
        Self { clock: PhaseClock::new() }
    }

    /// Renders one frame.
    pub fn tick<L: LedLayout>(&mut self, layout: &L, params: FrameParams<'_>, out: &mut [Hsv])
        ensures
            final(self)@ == old(self)@.advanced(params.timer_ms, params.speed),
            final(out)@ == painted(final(self)@, params, layout.leds(), old(out)@),
    {
        let time: u16 = self.clock.read(params.timer_ms, params.speed);
        let ghost clock = self@;
        let ghost start = out@;
        let count: usize = layout.count();
        let len: usize = out.len();
        let mut i: usize = 0;
        while i < len && i < count
            invariant
                i <= len,
                i <= count,
                len == out@.len(),
                len == start.len(),
                count == layout.leds().len(),
                time == clock.time(params.timer_ms, params.speed),
                forall|j: int| 0 <= j < i ==> out@[j] == pixel(clock, params, layout.leds()[j]),
                forall|j: int| i <= j < len ==> out@[j] == start[j],
            decreases len - i,
        {
            let level: u8 = flow_level(layout.position(i), time);
            out[i] = interp_color(params.palette, level, params.sat, params.val);
            i += 1;
        }
        assert(out@ =~= painted(clock, params, layout.leds(), start));
    }
}

/// The two waves of an LED run along the turned axes through the middle of the
/// board: the first along the one, back by twice the slowed time, the second
/// along the other, ahead by it. The board turns by one step of 256 for every
/// four of the time, and the first wave's share swings between 32 and 95 with
/// it.
pub proof fn law_two_waves_cross(led: (u8, u8), time: int)
    requires
        0 <= time,
    ensures
        ({
            let angle = time / 4 % 256;
            let (c, s) = (math::cosine(angle) - 128, math::sine(angle) - 128);
            let (x, y) = (led.0 - 128, led.1 - 128);
            let along = math::quot(c * x - s * y, 128);
            let across = math::quot(c * y + s * x, 128);
            let share = 32 + math::sine(time % 256) / 4;
            level(led, time) == math::scaled8(math::sine((along - 2 * time) % 256), share)
                + math::scaled8(math::sine((across + time) % 256), 255 - share)
        }),
{
    let angle = time / 4 % 256;
    let (c, s) = (math::cosine(angle) - 128, math::sine(angle) - 128);
    let (x, y) = (led.0 - 128, led.1 - 128);
    let across = turned(
        led.1 as int,
        led.0 as int,
        math::cosine(angle),
        256 - math::sine(angle),
    );
    assert(256 - math::sine(angle) - 128 == -s);
    assert(c * y - (-s) * x == c * y + s * x) by (nonlinear_arith);
    assert(across == math::quot(c * y + s * x, 128));
}

/// An LED wears the palette color of its level at the clock's slowed time.
pub proof fn law_the_flow_is_read_off_its_clock(
    clock: PhaseClock,
    frame: FrameParams<'_>,
    led: (u8, u8),
)
    ensures
        pixel(clock, frame, led) == palette::color_at(
            frame.palette@,
            level(led, clock.time(frame.timer_ms, frame.speed)) as u8,
            frame.sat,
            frame.val,
        ),
{
}

} // verus!
