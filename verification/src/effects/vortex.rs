//! VORTEX: the palette wound around the middle of the board, turning.
use vstd::prelude::*;

use super::phase;
use super::phase::PhaseClock;
use super::ripple::radial_distance;
use super::FrameParams;
use crate::color::Hsv;
use crate::layout::LedLayout;
use crate::math;
use crate::math::sin8;
use crate::palette;
use crate::palette::interp_color;

verus! {

/// The middle of the grid.
pub const CENTRE: u8 = 128;

/// Direction of `(dx, dy)` as a fraction of a full turn, out of 256: each
/// quarter turn is linear in the slope, and no direction at all is 0.
pub open spec fn direction(dx: int, dy: int) -> int {
    let up = if dy < 0 {
        -dy
    } else {
        dy
    };
    let half = if dx == 0 && dy == 0 {
        0
    } else if dx >= 0 {
        32 - math::quot((dx - up) * 32, dx + up)
    } else {
        96 - math::quot((dx + up) * 32, up - dx)
    };
    if dy < 0 {
        (256 - half) % 256
    } else {
        half
    }
}

proof fn lemma_slope(a: int, b: int)
    requires
        -b <= a <= b,
        1 <= b,
    ensures
        -32 <= math::quot(a * 32, b) <= 32,
{
    if a >= 0 {
        assert(0 <= a * 32 / b <= 32) by (nonlinear_arith)
            requires
                0 <= a <= b,
                1 <= b,
        ;
    } else {
        let c = -a;
        assert(0 <= c * 32 / b <= 32) by (nonlinear_arith)
            requires
                0 <= c <= b,
                1 <= b,
        ;
    }
}

fn turn_of(dx: i32, dy: i32) -> (r: u8)
    requires
        -128 <= dx <= 127,
        -128 <= dy <= 127,
    ensures
        r == direction(dx as int, dy as int),
{
    let up: i32 = if dy < 0 {
        -dy
    } else {
        dy
    };
    let half: i32 = if dx == 0 && dy == 0 {
        0
    } else if dx >= 0 {
        proof {
            lemma_slope(dx - up, dx + up);
        }
        32 - (dx - up) * 32 / (dx + up)
    } else {
        proof {
            lemma_slope(dx + up, up - dx);
        }
        96 - (dx + up) * 32 / (up - dx)
    };
    if dy < 0 {
        ((256 - half) % 256) as u8
    } else {
        half as u8
    }
}

/// Palette position of the LED at `led` at a slowed time.
pub open spec fn level(led: (u8, u8), time: int) -> int {
    let turn = direction(led.0 - CENTRE, led.1 - CENTRE);
    let away = super::ripple::half_distance(led, (CENTRE, CENTRE));
    math::sine((2 * turn + away - time) % 256)
}

fn vortex_level(led: (u8, u8), time: u16) -> (r: u8)
    ensures
        r == level(led, time as int),
{
    let turn: u8 = turn_of(led.0 as i32 - 128, led.1 as i32 - 128);
    let away: u8 = radial_distance(led.0, led.1, CENTRE, CENTRE);
    let angle: i32 = 2 * turn as i32 + away as i32 - time as i32 + 65_536;
    assert(angle as int % 256 == (2 * turn + away - time) % 256);
    sin8((angle % 256) as u8)
}

/// The color of the LED at `led` when `clock` has been read for `frame`.
pub open spec fn pixel(clock: PhaseClock, frame: FrameParams<'_>, led: (u8, u8)) -> Hsv {
    palette::color_at(
        frame.palette@,
        level(led, clock.time(frame.timer_ms, frame.speed)) as u8,
        frame.sat,
        frame.val,
    )
}

/// The frame. Pixels beyond the layout keep what they held.
pub open spec fn painted(
    clock: PhaseClock,
    frame: FrameParams<'_>,
    leds: Seq<(u8, u8)>,
    out: Seq<Hsv>,
) -> Seq<Hsv> {
    Seq::new(
        out.len(),
        |i: int|
            if i < leds.len() {
                pixel(clock, frame, leds[i])
            } else {
                out[i]
            },
    )
}

/// The vortex effect: its clock.
pub struct VortexState {
    clock: PhaseClock,
}

impl View for VortexState {
    type V = PhaseClock;

    closed spec fn view(&self) -> PhaseClock {
        self.clock
    }
}

impl Default for VortexState {
    fn default() -> (state: Self)
        ensures
            state@ == phase::PhaseClock::fresh(),
    {
        Self::new()
    }
}

impl VortexState {
    pub fn new() -> (state: Self)
        ensures
            state@ == phase::PhaseClock::fresh(),
    {
        Self { clock: PhaseClock::new() }
    }

    /// Renders one frame.
    pub fn tick<L: LedLayout>(&mut self, layout: &L, params: FrameParams<'_>, out: &mut [Hsv])
        ensures
            final(self)@ == old(self)@.advanced(params.timer_ms, params.speed),
            final(out)@ == painted(final(self)@, params, layout.leds(), old(out)@),
    {
        let time: u16 = self.clock.read(params.timer_ms, params.speed);
        let ghost clock = self@;
        let ghost start = out@;
        let count: usize = layout.count();
        let len: usize = out.len();
        let mut i: usize = 0;
        while i < len && i < count
            invariant
                i <= len,
                i <= count,
                len == out@.len(),
                len == start.len(),
                count == layout.leds().len(),
                time == clock.time(params.timer_ms, params.speed),
                forall|j: int| 0 <= j < i ==> out@[j] == pixel(clock, params, layout.leds()[j]),
                forall|j: int| i <= j < len ==> out@[j] == start[j],
            decreases len - i,
        {
            let level: u8 = vortex_level(layout.position(i), time);
            out[i] = interp_color(params.palette, level, params.sat, params.val);
            i += 1;
        }
        assert(out@ =~= painted(clock, params, layout.leds(), start));
    }
}

/// The four axes are a quarter turn apart.
pub proof fn law_the_axes_are_quarter_turns(d: int)
    requires
        1 <= d,
    ensures
        direction(d, 0) == 0,
        direction(0, d) == 64,
        direction(-d, 0) == 128,
        direction(0, -d) == 192,
{
    assert(d * 32 / d == 32) by (nonlinear_arith)
        requires
            1 <= d,
    ;
}

/// A direction turns evenly with the slope: within the first quarter it is 32,
/// less that share of the difference of the two sides in their sum, rounded
/// toward zero. The other quarters mirror it.
pub proof fn law_directions_mirror(dx: int, dy: int)
    requires
        0 <= dx,
        0 <= dy,
        dx + dy > 0,
    ensures
        direction(dx, dy) == 32 - math::quot((dx - dy) * 32, dx + dy),
        direction(0, 0) == 0,
        dx > 0 && dy > 0 ==> direction(dx, -dy) == 256 - direction(dx, dy),
        dx > 0 ==> direction(-dx, dy) == 128 - direction(dx, dy),
        dx > 0 && dy > 0 ==> direction(-dx, -dy) == 128 + direction(dx, dy),
        dx == dy ==> direction(dx, dy) == 32,
{
    lemma_slope(dx - dy, dx + dy);
    math::law_quot_rounds_toward_zero((dx - dy) * 32, dx + dy);
    math::law_quot_rounds_toward_zero((dy - dx) * 32, dx + dy);
    assert((dy - dx) * 32 == -((dx - dy) * 32));
    if dx == dy {
        assert(0int / (dx + dy) == 0) by (nonlinear_arith)
            requires
                dx + dy > 0,
        ;
    }
    if dx > 0 && dy > 0 {
        let q = math::quot((dx - dy) * 32, dx + dy);
        assert(-32 < q < 32) by {
            lemma_inner_slope(dx - dy, dx + dy);
        }
    }
}

proof fn lemma_inner_slope(a: int, b: int)
    requires
        -b < a < b,
    ensures
        -32 < math::quot(a * 32, b) < 32,
{
    let q = math::quot(a * 32, b);
    math::law_quot_rounds_toward_zero(a * 32, b);
    assert(-32 < q < 32) by (nonlinear_arith)
        requires
            -b < a < b,
            a * 32 >= 0 ==> 0 <= a * 32 - q * b < b,
            a * 32 <= 0 ==> -b < a * 32 - q * b <= 0,
    ;
}

/// The palette is wound twice around the middle, one step further for each
/// step away from it, and turns with the slowed time.
pub proof fn law_the_palette_winds_twice(led: (u8, u8), time: int)
    ensures
        ({
            let turn = direction(led.0 - 128, led.1 - 128);
            let away = super::ripple::half_distance(led, (128, 128));
            level(led, time) == math::sine((2 * turn + away - time) % 256)
        }),
        level(led, time + 256) == level(led, time),
{
    let turn = direction(led.0 - 128, led.1 - 128);
    let away = super::ripple::half_distance(led, (128, 128));
    assert((2 * turn + away - (time + 256)) % 256 == (2 * turn + away - time) % 256);
}

/// An LED wears the palette color of its level at the clock's slowed time.
pub proof fn law_the_vortex_is_read_off_its_clock(
    clock: PhaseClock,
    frame: FrameParams<'_>,
    led: (u8, u8),
)
    ensures
        pixel(clock, frame, led) == palette::color_at(
            frame.palette@,
            level(led, clock.time(frame.timer_ms, frame.speed)) as u8,
            frame.sat,
            frame.val,
        ),
{
}

} // verus!
