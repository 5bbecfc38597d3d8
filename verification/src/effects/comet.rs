//! COMET: a body that flies to the keys that are pressed, arriving late,
//! carrying its momentum through the turn, and dragging a short trail.
//!
//! The flight is a chain of legs. A press ends the leg in progress and opens a
//! new one from the position and velocity the comet had at that instant. Each
//! leg is a closed form of its own start and the elapsed time, so two boards
//! that render the same legs at the same time draw the same comet whatever
//! frames each rendered before.
use vstd::prelude::*;

use super::{clock_rewound, FrameParams};
use crate::color;
use crate::color::Hsv;
use crate::layout::LedLayout;
use crate::math;
use crate::math::{isqrt, scale255, soft_edge};
use crate::palette;
use crate::palette::interp_color;

verus! {

/// Sub-unit resolution of every position here: board coordinates times 16.
pub const POS_ONE: i64 = 16;

/// Fixed-point one of the curve parameter and its bases.
pub const CURVE_ONE: i64 = 1024;

/// Velocity ceiling in board units per second.
pub const VEL_LIMIT: i64 = 8_000;

/// Positions sampled behind the head.
pub const TRAIL_SAMPLES: usize = 8;

/// Brightness of the trail where it leaves the head; also that of the head's
/// rim, so the two meet without a seam.
pub const TRAIL_PEAK: u8 = 190;

/// Palette rotation per trail sample.
pub const TRAIL_HUE_STEP: u8 = 3;

/// Coverage above which a pixel washes out toward white.
pub const CORE_THRESHOLD: u8 = 190;

/// Saturation that each point of coverage past the threshold costs.
pub const CORE_DESATURATION: u16 = 2;

/// A leg further ahead of a sample than this did not start in the future, it
/// wrapped the millisecond counter.
pub const FUTURE_GUARD: u32 = 0x7fff_ffff;

/// Longest that a leg can be lit: the longest travel time and linger time that
/// their types hold.
pub const LONGEST_FLIGHT_MS: u32 = 69_360;

/// How far a press may be stamped ahead of one recorded after it: less than
/// half of the clock's range, by as much as the longest flight lasts.
pub const ORDER_SLACK: u32 = 0x7ffe_f110;

/// Distance, in board units, that a full lag times.
pub const BOARD_SPAN: u32 = 255;

/// Longest hop the board can ask for.
pub const BOARD_DIAGONAL: u32 = 361;

/// Floor on a leg's travel time.
pub const MIN_TRAVEL_MS: u32 = 40;

/// Runtime controls of the comet. Every field is a byte;
/// [`CometParams::set`] checks the bounds.
#[derive(Copy, Clone, Debug, PartialEq, Eq, Structural)]
pub struct CometParams {
    /// Time for a flight the full width of the board, in units of 10 ms. This
    /// is the lag at its worst: no flight takes longer. The shared speed
    /// control scales it, and 128 preserves it.
    pub lag: u8,
    /// How strongly a hop's distance sets its travel time: 0 gives every
    /// flight the same time, 255 makes it follow the square root of the
    /// distance, so that short hops finish quickly and long ones stay bounded
    /// by `lag`.
    pub pace: u8,
    /// Fraction of the in-flight velocity that a redirect inherits, out of
    /// 128.
    pub momentum: u8,
    /// How far back along the flown path the trail reaches, in units of 10 ms.
    pub trail: u8,
    /// Radius of the head in board units.
    pub head: u8,
    /// How long the comet takes to fade once it has arrived, in units of
    /// 10 ms.
    pub linger: u8,
}

impl CometParams {
    pub const LAG_MIN: u8 = 4;

    pub const LAG_MAX: u8 = 120;

    pub const PACE_MIN: u8 = 0;

    pub const PACE_MAX: u8 = 255;

    pub const MOMENTUM_MIN: u8 = 0;

    pub const MOMENTUM_MAX: u8 = 255;

    pub const TRAIL_MIN: u8 = 0;

    pub const TRAIL_MAX: u8 = 80;

    pub const HEAD_MIN: u8 = 4;

    pub const HEAD_MAX: u8 = 40;

    pub const LINGER_MIN: u8 = 4;

    pub const LINGER_MAX: u8 = 255;

    /// Momentum that conserves velocity exactly.
    pub const MOMENTUM_UNIT: u8 = 128;

    /// Number of parameters.
    pub const COUNT: u8 = 6;

    /// Host-facing parameter names, in index order.
    pub const NAMES: [&'static str; 6] = [
        "Lag x10ms",
        "Distance pace",
        "Momentum",
        "Trail x10ms",
        "Head size",
        "Linger x10ms",
    ];

    /// Inclusive lower bound of each parameter, in index order.
    pub const MINS: [u8; 6] = [
        Self::LAG_MIN,
        Self::PACE_MIN,
        Self::MOMENTUM_MIN,
        Self::TRAIL_MIN,
        Self::HEAD_MIN,
        Self::LINGER_MIN,
    ];

    /// Inclusive upper bound of each parameter, in index order.
    pub const MAXES: [u8; 6] = [
        Self::LAG_MAX,
        Self::PACE_MAX,
        Self::MOMENTUM_MAX,
        Self::TRAIL_MAX,
        Self::HEAD_MAX,
        Self::LINGER_MAX,
    ];

    /// Default of each parameter, in index order.
    pub const DEFAULTS: [u8; 6] = [32, 200, 168, 20, 14, 80];

    /// The value of parameter `index`.
    pub open spec fn param(self, index: int) -> u8 {
        if index == 0 {
            self.lag
        } else if index == 1 {
            self.pace
        } else if index == 2 {
            self.momentum
        } else if index == 3 {
            self.trail
        } else if index == 4 {
            self.head
        } else {
            self.linger
        }
    }

    /// These values with parameter `index` at `value`.
    pub open spec fn with_param(self, index: int, value: u8) -> CometParams {
        if index == 0 {
            CometParams { lag: value, ..self }
        } else if index == 1 {
            CometParams { pace: value, ..self }
        } else if index == 2 {
            CometParams { momentum: value, ..self }
        } else if index == 3 {
            CometParams { trail: value, ..self }
        } else if index == 4 {
            CometParams { head: value, ..self }
        } else {
            CometParams { linger: value, ..self }
        }
    }

    /// Whether `value` may be given to parameter `index`.
    pub open spec fn accepts(index: int, value: u8) -> bool {
        &&& 0 <= index < Self::COUNT
        &&& Self::MINS[index] <= value <= Self::MAXES[index]
    }

    /// Value of one parameter, or `None` for an unknown index.
    pub fn get(&self, index: u8) -> (value: Option<u8>)
        ensures
            value == (if index < Self::COUNT {
                Some(self.param(index as int))
            } else {
                None
            }),
    {
        match index {
            0 => Some(self.lag),
            1 => Some(self.pace),
            2 => Some(self.momentum),
            3 => Some(self.trail),
            4 => Some(self.head),
            5 => Some(self.linger),
            _ => None,
        }
    }

    /// Sets one parameter, leaving the values unchanged if the index or the
    /// value is invalid.
    pub fn set(&mut self, index: u8, value: u8) -> (ok: bool)
        ensures
            ok == Self::accepts(index as int, value),
            *final(self) == (if ok {
                old(self).with_param(index as int, value)
            } else {
                *old(self)
            }),
    {
        let i: usize = index as usize;
        if i >= Self::COUNT as usize || value < Self::MINS[i] || value > Self::MAXES[i] {
            return false;
        }
        match index {
            0 => self.lag = value,
            1 => self.pace = value,
            2 => self.momentum = value,
            3 => self.trail = value,
            4 => self.head = value,
            5 => self.linger = value,
            _ => return false,
        }
        true
    }
}

/// The tuned defaults.
pub open spec fn comet_defaults() -> CometParams {
    CometParams { lag: 32, pace: 200, momentum: 168, trail: 20, head: 14, linger: 80 }
}

impl Default for CometParams {
    fn default() -> (params: Self)
        ensures
            params == comet_defaults(),
    {
        Self { lag: 32, pace: 200, momentum: 168, trail: 20, head: 14, linger: 80 }
    }
}

/// A duration in units of 10 milliseconds, scaled by the shared speed control:
/// 128 preserves it.
pub open spec fn at_speed(units: int, speed: int) -> int {
    units * 10 * (384 - speed) / 256
}

/// [`at_speed`], and at least 1.
pub open spec fn lasting(units: int, speed: int) -> int {
    math::larger(at_speed(units, speed), 1)
}

fn speed_scaled(units: u8, speed: u8) -> (ms: u32)
    ensures
        ms == at_speed(units as int, speed as int),
        ms <= 3825,
{
    proof {
        math::lemma_product_bound(units as int * 10, 2550, 384 - speed as int, 384);
    }
    units as u32 * 10 * (384 - speed as u32) / 256
}

/// See [`lasting`].
pub fn scaled_ms(units: u8, speed: u8) -> (ms: u32)
    ensures
        ms == lasting(units as int, speed as int),
        1 <= ms <= 3825,
{
    let ms: u32 = speed_scaled(units, speed);
    if ms < 1 {
        1
    } else {
        ms
    }
}

/// From `a` toward `b` by `frac` out of 255.
pub open spec fn between(a: int, b: int, frac: int) -> int {
    if b >= a {
        a + (b - a) * frac / 255
    } else {
        a - (a - b) * frac / 255
    }
}

fn lerp(a: u32, b: u32, frac: u8) -> (r: u32)
    requires
        a <= 100_000,
        b <= 100_000,
    ensures
        r == between(a as int, b as int, frac as int),
        r <= 100_000,
{
    if b >= a {
        proof {
            lemma_fraction(b - a, frac as int);
        }
        a + (b - a) * frac as u32 / 255
    } else {
        proof {
            lemma_fraction(a - b, frac as int);
        }
        a - (a - b) * frac as u32 / 255
    }
}

proof fn lemma_fraction(span: int, frac: int)
    requires
        0 <= span,
        0 <= frac <= 255,
    ensures
        0 <= span * frac <= span * 255,
        0 <= span * frac / 255 <= span,
{
    assert(0 <= span * frac <= span * 255) by (nonlinear_arith)
        requires
            0 <= span,
            0 <= frac <= 255,
    ;
}

/// A travel time of `base` for the full width of the board, cut down by the
/// square root of the distance. A hop longer than that width takes no more.
pub open spec fn rooted(base: int, distance: int) -> int {
    math::smaller(base * math::root(distance * 255) / 255, base)
}

/// Travel time of a hop of `distance` board units: the lag, of which the pace
/// gives back as much as the square root of the distance leaves.
pub open spec fn travel_time(params: CometParams, speed: u8, distance: int) -> int {
    let base = lasting(params.lag as int, speed as int);
    math::clamped(between(base, rooted(base, distance), params.pace as int), 40, 65535)
}

fn travel_ms(params: CometParams, speed: u8, distance: u32) -> (ms: u16)
    requires
        distance <= BOARD_DIAGONAL,
    ensures
        ms == travel_time(params, speed, distance as int),
{
    let base: u32 = scaled_ms(params.lag, speed);
    let reach: u64 = isqrt(distance as u64 * 255);
    assert(reach <= 303) by (nonlinear_arith)
        requires
            reach * reach <= distance * 255,
            distance <= 361,
    ;
    proof {
        math::lemma_product_bound(base as int, 3825, reach as int, 303);
    }
    let scaled: u32 = base * reach as u32 / 255;
    let by_distance: u32 = if scaled < base {
        scaled
    } else {
        base
    };
    let ms: u32 = lerp(base, by_distance, params.pace);
    if ms < MIN_TRAVEL_MS {
        MIN_TRAVEL_MS as u16
    } else if ms > 65535 {
        65535
    } else {
        ms as u16
    }
}

/// Distance in whole board units from a position to a key, capped at the
/// board's diagonal.
pub open spec fn hop(from: (int, int), x: u8, y: u8) -> int {
    let dx = math::quot(x * 16 - from.0, 16);
    let dy = math::quot(y * 16 - from.1, 16);
    math::smaller(math::root(dx * dx + dy * dy), BOARD_DIAGONAL as int)
}

/// Bound on every position on a flight.
pub open spec fn on_path(v: int) -> bool {
    -100_000_000 <= v <= 100_000_000
}

proof fn lemma_signed_product(a: int, a_max: int, b: int, b_max: int)
    requires
        -a_max <= a <= a_max,
        -b_max <= b <= b_max,
    ensures
        -(a_max * b_max) <= a * b <= a_max * b_max,
{
    assert(-(a_max * b_max) <= a * b <= a_max * b_max) by (nonlinear_arith)
        requires
            -a_max <= a <= a_max,
            -b_max <= b <= b_max,
    ;
}

fn hop_distance(from_x: i32, from_y: i32, to_x: u8, to_y: u8) -> (d: u32)
    requires
        on_path(from_x as int),
        on_path(from_y as int),
    ensures
        d == hop((from_x as int, from_y as int), to_x, to_y),
        d <= BOARD_DIAGONAL,
{
    let dx: i64 = (to_x as i64 * POS_ONE - from_x as i64) / POS_ONE;
    let dy: i64 = (to_y as i64 * POS_ONE - from_y as i64) / POS_ONE;
    proof {
        lemma_signed_product(dx as int, 7_000_000, dx as int, 7_000_000);
        lemma_signed_product(dy as int, 7_000_000, dy as int, 7_000_000);
        assert(0 <= dx * dx) by (nonlinear_arith);
        assert(0 <= dy * dy) by (nonlinear_arith);
    }
    let d: u64 = isqrt((dx * dx + dy * dy) as u64);
    if d > BOARD_DIAGONAL as u64 {
        BOARD_DIAGONAL
    } else {
        d as u32
    }
}

/// One flight from wherever the comet was to the key that called it.
#[derive(Copy, Clone, Debug, PartialEq, Eq, Structural)]
pub struct Leg {
    pub spawn_ms: u32,
    /// Where the comet was when this leg opened, in sixteenths.
    pub from_x: i16,
    pub from_y: i16,
    /// Velocity carried into this leg, board units per second.
    pub vel_x: i16,
    pub vel_y: i16,
    /// Travel time, fixed at the press, so that retuning paces the next leg.
    pub duration_ms: u16,
    pub to_x: u8,
    pub to_y: u8,
    pub palette_pos: u8,
    /// Whether this leg began a new flight. The trail never reaches back past
    /// such a leg: the comet was nowhere before it.
    pub restart: bool,
}

/// Progress through a leg, from 0 to 1024, held at the end.
pub open spec fn progress(elapsed: int, duration: int) -> int {
    let span = math::larger(duration, 1);
    math::smaller(elapsed, span) * 1024 / span
}

fn curve_param(elapsed_ms: u32, duration_ms: u16) -> (u: i64)
    ensures
        u == progress(elapsed_ms as int, duration_ms as int),
        0 <= u <= 1024,
{
    let duration: u32 = if duration_ms < 1 {
        1
    } else {
        duration_ms as u32
    };
    let run: u32 = if elapsed_ms < duration {
        elapsed_ms
    } else {
        duration
    };
    proof {
        lemma_progress(run as int, duration as int);
    }
    (run * 1024 / duration) as i64
}

proof fn lemma_progress(run: int, span: int)
    requires
        0 <= run <= span,
        1 <= span,
    ensures
        0 <= run * 1024 / span <= 1024,
        run == span ==> run * 1024 / span == 1024,
        run == 0 ==> run * 1024 / span == 0,
{
    assert(0 <= run * 1024 / span <= 1024) by (nonlinear_arith)
        requires
            0 <= run <= span,
            1 <= span,
    ;
    if run == span {
        assert(span * 1024 / span == 1024) by (nonlinear_arith)
            requires
                1 <= span,
        ;
    }
    if run == 0 {
        assert(0int / span == 0) by (nonlinear_arith)
            requires
                1 <= span,
        ;
    }
}

/// The square of the curve parameter.
pub open spec fn squared(u: int) -> int {
    u * u / 1024
}

/// The cube of the curve parameter.
pub open spec fn cubed(u: int) -> int {
    squared(u) * u / 1024
}

proof fn lemma_powers(u: int)
    requires
        0 <= u <= 1024,
    ensures
        0 <= u * u <= 1_048_576,
        0 <= squared(u) <= u,
        0 <= squared(u) * u <= 1_048_576,
        0 <= cubed(u) <= squared(u),
{
    assert(0 <= u * u <= 1024 * u) by (nonlinear_arith)
        requires
            0 <= u <= 1024,
    ;
    let s = squared(u);
    assert(0 <= s * u <= 1024 * s) by (nonlinear_arith)
        requires
            0 <= s,
            0 <= u <= 1024,
    ;
}

/// How far `vel` alone would carry the comet over a whole leg.
pub open spec fn reach(vel: int, duration: int) -> int {
    math::quot(vel * duration * 16, 1000)
}

fn leg_reach(vel: i16, duration_ms: u16) -> (r: i64)
    ensures
        r == reach(vel as int, duration_ms as int),
        -35_000_000 <= r <= 35_000_000,
{
    proof {
        lemma_signed_product(vel as int, 32768, duration_ms as int, 65535);
    }
    vel as i64 * duration_ms as i64 * POS_ONE / 1000
}

/// One axis of a cubic Hermite from `from` at the carried velocity to the key
/// at rest. Of the two bases the first runs from one to zero and is flat at
/// both ends; the second is zero at both ends and starts with unit slope.
pub open spec fn curve(from: int, to: u8, vel: int, duration: int, u: int) -> int {
    let key = to * 16;
    let start = 2 * cubed(u) - 3 * squared(u) + 1024;
    let carry = cubed(u) - 2 * squared(u) + u;
    key + math::quot((from - key) * start, 1024) + math::quot(reach(vel, duration) * carry, 1024)
}

fn hermite(from: i16, to: u8, vel: i16, duration_ms: u16, u: i64) -> (at: i32)
    requires
        0 <= u <= 1024,
    ensures
        at == curve(from as int, to, vel as int, duration_ms as int, u as int),
        on_path(at as int),
{
    proof {
        lemma_powers(u as int);
    }
    let key: i64 = to as i64 * POS_ONE;
    let u2: i64 = u * u / CURVE_ONE;
    let u3: i64 = u2 * u / CURVE_ONE;
    let start: i64 = 2 * u3 - 3 * u2 + CURVE_ONE;
    let carry: i64 = u3 - 2 * u2 + u;
    let span: i64 = from as i64 - key;
    let carried: i64 = leg_reach(vel, duration_ms);
    proof {
        lemma_signed_product(span as int, 40_000, start as int, 4096);
        lemma_signed_product(carried as int, 35_000_000, carry as int, 2048);
    }
    (key + span * start / CURVE_ONE + carried * carry / CURVE_ONE) as i32
}

/// The slope of [`curve`], as board units per second.
pub open spec fn curve_speed(from: int, to: u8, vel: int, duration: int, u: int) -> int {
    let start = 6 * squared(u) - 6 * u;
    let carry = 3 * squared(u) - 4 * u + 1024;
    let slope = math::quot((from - to * 16) * start, 1024) + math::quot(
        reach(vel, duration) * carry,
        1024,
    );
    math::quot(slope * 1000, 16 * math::larger(duration, 1))
}

fn hermite_slope(from: i16, to: u8, vel: i16, duration_ms: u16, u: i64) -> (speed: i64)
    requires
        0 <= u <= 1024,
    ensures
        speed == curve_speed(from as int, to, vel as int, duration_ms as int, u as int),
        -1_000_000_000_000 <= speed <= 1_000_000_000_000,
{
    proof {
        lemma_powers(u as int);
    }
    let key: i64 = to as i64 * POS_ONE;
    let u2: i64 = u * u / CURVE_ONE;
    let start: i64 = 6 * u2 - 6 * u;
    let carry: i64 = 3 * u2 - 4 * u + CURVE_ONE;
    let span: i64 = from as i64 - key;
    let carried: i64 = leg_reach(vel, duration_ms);
    proof {
        lemma_signed_product(span as int, 40_000, start as int, 8192);
        lemma_signed_product(carried as int, 35_000_000, carry as int, 8192);
    }
    let slope: i64 = span * start / CURVE_ONE + carried * carry / CURVE_ONE;
    let duration: i64 = if duration_ms < 1 {
        1
    } else {
        duration_ms as i64
    };
    let divisor: i64 = POS_ONE * duration;
    let scaled: i64 = slope * 1000;
    proof {
        lemma_quot_shrinks(scaled as int, divisor as int);
    }
    scaled / divisor
}

proof fn lemma_quot_shrinks(a: int, b: int)
    requires
        1 <= b,
    ensures
        a >= 0 ==> 0 <= math::quot(a, b) <= a,
        a < 0 ==> a <= math::quot(a, b) <= 0,
{
    if a >= 0 {
        assert(0 <= a / b <= a) by (nonlinear_arith)
            requires
                0 <= a,
                1 <= b,
        ;
    } else {
        let c = -a;
        assert(0 <= c / b <= c) by (nonlinear_arith)
            requires
                0 <= c,
                1 <= b,
        ;
    }
}

impl Leg {
    /// Where the comet is `elapsed` milliseconds into this leg.
    pub open spec fn position(self, elapsed: int) -> (int, int) {
        let u = progress(elapsed, self.duration_ms as int);
        (
            curve(self.from_x as int, self.to_x, self.vel_x as int, self.duration_ms as int, u),
            curve(self.from_y as int, self.to_y, self.vel_y as int, self.duration_ms as int, u),
        )
    }

    /// How fast the comet moves `elapsed` milliseconds into this leg, in board
    /// units per second.
    pub open spec fn velocity(self, elapsed: int) -> (int, int) {
        let u = progress(elapsed, self.duration_ms as int);
        (
            curve_speed(
                self.from_x as int,
                self.to_x,
                self.vel_x as int,
                self.duration_ms as int,
                u,
            ),
            curve_speed(
                self.from_y as int,
                self.to_y,
                self.vel_y as int,
                self.duration_ms as int,
                u,
            ),
        )
    }

    /// Whether this leg had started by `now`.
    pub open spec fn started(self, now: u32) -> bool {
        math::ticks_since(now, self.spawn_ms) <= FUTURE_GUARD
    }

    /// Whether this leg opens after `now`.
    pub open spec fn upcoming(self, now: u32) -> bool {
        0 < math::ticks_since(self.spawn_ms, now) <= FUTURE_GUARD
    }
}

fn leg_position(leg: Leg, elapsed_ms: u32) -> (at: (i32, i32))
    ensures
        (at.0 as int, at.1 as int) == leg.position(elapsed_ms as int),
        on_path(at.0 as int),
        on_path(at.1 as int),
{
    let u: i64 = curve_param(elapsed_ms, leg.duration_ms);
    (
        hermite(leg.from_x, leg.to_x, leg.vel_x, leg.duration_ms, u),
        hermite(leg.from_y, leg.to_y, leg.vel_y, leg.duration_ms, u),
    )
}

fn leg_velocity(leg: Leg, elapsed_ms: u32) -> (speed: (i64, i64))
    ensures
        (speed.0 as int, speed.1 as int) == leg.velocity(elapsed_ms as int),
        -1_000_000_000_000 <= speed.0 <= 1_000_000_000_000,
        -1_000_000_000_000 <= speed.1 <= 1_000_000_000_000,
{
    let u: i64 = curve_param(elapsed_ms, leg.duration_ms);
    (
        hermite_slope(leg.from_x, leg.to_x, leg.vel_x, leg.duration_ms, u),
        hermite_slope(leg.from_y, leg.to_y, leg.vel_y, leg.duration_ms, u),
    )
}

/// Coverage of the point `p` by a round glow of `radius` board units around
/// `c`, positions in sixteenths.
pub open spec fn glow(p: (int, int), c: (int, int), radius: int) -> int {
    let dx = math::distance(p.0, c.0);
    let dy = math::distance(p.1, c.1);
    if dx > radius * 16 || dy > radius * 16 {
        0
    } else {
        math::edge_falloff(math::root(dx * dx + dy * dy), radius * 16)
    }
}

/// Coverage of the point `p` by a stroke of half-width `width` board units
/// from `a` to `b`, capped at both ends with the glow that the head uses.
pub open spec fn stroke(p: (int, int), a: (int, int), b: (int, int), width: int) -> int {
    let limit = width * 16;
    let v = (b.0 - a.0, b.1 - a.1);
    let w = (p.0 - a.0, p.1 - a.1);
    let length = v.0 * v.0 + v.1 * v.1;
    let along = w.0 * v.0 + w.1 * v.1;
    if p.0 < math::smaller(a.0, b.0) - limit || p.0 > math::larger(a.0, b.0) + limit || p.1
        < math::smaller(a.1, b.1) - limit || p.1 > math::larger(a.1, b.1) + limit {
        0
    } else if length == 0 || along <= 0 {
        glow(p, a, width)
    } else if along >= length {
        glow(p, b, width)
    } else {
        let aside = math::distance(w.0 * v.1, w.1 * v.0);
        math::edge_falloff(aside / math::larger(math::root(length), 1), limit)
    }
}

fn gap(a: i32, b: i32) -> (d: u64)
    requires
        on_path(a as int),
        on_path(b as int),
    ensures
        d == math::distance(a as int, b as int),
        d <= 200_000_000,
{
    if a >= b {
        (a - b) as u64
    } else {
        (b - a) as u64
    }
}

fn point_coverage(px: i32, py: i32, cx: i32, cy: i32, radius: u8) -> (coverage: u8)
    requires
        on_path(px as int),
        on_path(py as int),
        on_path(cx as int),
        on_path(cy as int),
    ensures
        coverage == glow((px as int, py as int), (cx as int, cy as int), radius as int),
{
    let limit: u64 = radius as u64 * 16;
    let dx: u64 = gap(px, cx);
    let dy: u64 = gap(py, cy);
    if dx > limit || dy > limit {
        return 0;
    }
    proof {
        math::lemma_product_bound(dx as int, 4080, dx as int, 4080);
        math::lemma_product_bound(dy as int, 4080, dy as int, 4080);
    }
    let d: u64 = isqrt(dx * dx + dy * dy);
    assert(d <= 5771) by (nonlinear_arith)
        requires
            d * d <= dx * dx + dy * dy,
            dx * dx + dy * dy <= 33_292_800,
    ;
    soft_edge(d as u32, limit as u32)
}

fn segment_coverage(px: i32, py: i32, ax: i32, ay: i32, bx: i32, by: i32, width: u8) -> (coverage:
    u8)
    requires
        on_path(px as int),
        on_path(py as int),
        on_path(ax as int),
        on_path(ay as int),
        on_path(bx as int),
        on_path(by as int),
    ensures
        coverage == stroke(
            (px as int, py as int),
            (ax as int, ay as int),
            (bx as int, by as int),
            width as int,
        ),
{
    let limit: i32 = width as i32 * 16;
    let (left, right): (i32, i32) = if ax <= bx {
        (ax, bx)
    } else {
        (bx, ax)
    };
    let (top, bottom): (i32, i32) = if ay <= by {
        (ay, by)
    } else {
        (by, ay)
    };
    if px < left - limit || px > right + limit || py < top - limit || py > bottom + limit {
        return 0;
    }
    let vx: i64 = bx as i64 - ax as i64;
    let vy: i64 = by as i64 - ay as i64;
    let wx: i64 = px as i64 - ax as i64;
    let wy: i64 = py as i64 - ay as i64;
    proof {
        lemma_signed_product(vx as int, 200_000_000, vx as int, 200_000_000);
        lemma_signed_product(vy as int, 200_000_000, vy as int, 200_000_000);
        lemma_signed_product(wx as int, 200_000_000, vx as int, 200_000_000);
        lemma_signed_product(wy as int, 200_000_000, vy as int, 200_000_000);
        lemma_signed_product(wx as int, 200_000_000, vy as int, 200_000_000);
        lemma_signed_product(wy as int, 200_000_000, vx as int, 200_000_000);
        assert(0 <= vx * vx) by (nonlinear_arith);
        assert(0 <= vy * vy) by (nonlinear_arith);
    }
    let length: i64 = vx * vx + vy * vy;
    let along: i64 = wx * vx + wy * vy;
    if length == 0 || along <= 0 {
        return point_coverage(px, py, ax, ay, width);
    }
    if along >= length {
        return point_coverage(px, py, bx, by, width);
    }
    let root: u64 = isqrt(length as u64);
    let divisor: u64 = if root < 1 {
        1
    } else {
        root
    };
    let right_hand: i64 = wx * vy;
    let left_hand: i64 = wy * vx;
    let aside: u64 = if right_hand >= left_hand {
        (right_hand - left_hand) as u64
    } else {
        (left_hand - right_hand) as u64
    };
    let offset: u64 = aside / divisor;
    if offset > limit as u64 {
        return 0;
    }
    soft_edge(offset as u32, limit as u32)
}

/// Brightness of the trail stroke that ends at sample `index`.
pub open spec fn stroke_fade(index: int) -> int {
    190 * (9 - index) / 9
}

fn trail_fade(index: usize) -> (fade: u8)
    requires
        1 <= index <= 9,
    ensures
        fade == stroke_fade(index as int),
{
    (TRAIL_PEAK as u32 * (TRAIL_SAMPLES + 1 - index) as u32 / (TRAIL_SAMPLES + 1) as u32) as u8
}

/// Saturation of a pixel with `coverage`: the hot core washes toward white.
pub open spec fn core_saturation(sat: int, coverage: int) -> int {
    if coverage < CORE_THRESHOLD {
        sat
    } else {
        sat - math::smaller((coverage - CORE_THRESHOLD) * 2, sat)
    }
}

fn core_sat(sat: u8, coverage: u8) -> (r: u8)
    ensures
        r == core_saturation(sat as int, coverage as int),
{
    if coverage < CORE_THRESHOLD {
        return sat;
    }
    let cost: u16 = (coverage - CORE_THRESHOLD) as u16 * CORE_DESATURATION;
    if cost > sat as u16 {
        0
    } else {
        sat - cost as u8
    }
}

fn clamp_pos(value: i32) -> (r: i16)
    ensures
        r == math::clamped(value as int, -32768, 32767),
{
    if value < -32768 {
        -32768
    } else if value > 32767 {
        32767
    } else {
        value as i16
    }
}

/// A point on the flown path, with the palette position the comet wore there.
#[derive(Copy, Clone, Debug, PartialEq, Eq, Structural)]
pub struct Trace {
    pub x: i32,
    pub y: i32,
    pub palette_pos: u8,
}

impl Trace {
    /// The point and its palette position as plain numbers.
    pub open spec fn point(self) -> (int, int, u8) {
        (self.x as int, self.y as int, self.palette_pos)
    }

    pub open spec fn wf(self) -> bool {
        on_path(self.x as int) && on_path(self.y as int)
    }
}

/// Something that happens to a comet.
pub enum CometEvent<'p> {
    /// A press of the key at `x`, `y`.
    Press { x: u8, y: u8, now: u32 },
    Frame { frame: FrameParams<'p> },
}

impl<'p> CometEvent<'p> {
    /// The clock reading that the event brings.
    pub open spec fn time(self) -> u32 {
        match self {
            CometEvent::Press { now, .. } => now,
            CometEvent::Frame { frame } => frame.timer_ms,
        }
    }
}

/// What a [`CometState`] holds.
pub struct CometModel {
    /// The remembered legs, newest first.
    pub legs: Seq<Leg>,
    pub color_step: u8,
    /// Speed of the last rendered frame, which paces the next leg.
    pub last_speed: u8,
    pub last_timer_ms: u32,
    pub params: CometParams,
}

impl CometModel {
    /// The state a new effect starts in.
    pub open spec fn fresh(params: CometParams) -> CometModel {
        CometModel {
            legs: Seq::empty(),
            color_step: 0,
            last_speed: 128,
            last_timer_ms: 0,
            params,
        }
    }

    /// Among the `n` newest legs, the one that `now` falls into: of those that
    /// had started the latest to start, and the newest of several that started
    /// together. -1 when none had.
    pub open spec fn current(self, now: u32, n: int) -> int
        decreases n,
    {
        if n <= 0 {
            -1
        } else {
            let best = self.current(now, n - 1);
            let leg = self.legs[n - 1];
            if leg.started(now) && (best < 0 || math::ticks_since(now, leg.spawn_ms)
                < math::ticks_since(now, self.legs[best].spawn_ms)) {
                n - 1
            } else {
                best
            }
        }
    }

    /// The leg that `now` falls into and how long it had been running.
    pub open spec fn flight(self, now: u32) -> Option<(Leg, int)> {
        let k = self.current(now, self.legs.len() as int);
        if k < 0 {
            None
        } else {
            Some((self.legs[k], math::ticks_since(now, self.legs[k].spawn_ms)))
        }
    }

    /// Among the `n` newest legs, the one that opens soonest after `now`, and
    /// the oldest of several that open together. -1 when none does.
    pub open spec fn next_up(self, now: u32, n: int) -> int
        decreases n,
    {
        if n <= 0 {
            -1
        } else {
            let best = self.next_up(now, n - 1);
            let leg = self.legs[n - 1];
            if leg.upcoming(now) && (best < 0 || math::ticks_since(leg.spawn_ms, now)
                <= math::ticks_since(self.legs[best].spawn_ms, now)) {
                n - 1
            } else {
                best
            }
        }
    }

    /// When the flight in progress at `now` began: the newest leg, from `k`
    /// on, that had started and that began a flight.
    pub open spec fn launch(self, now: u32, k: int) -> Option<u32>
        decreases self.legs.len() - k,
    {
        if k >= self.legs.len() {
            None
        } else if self.legs[k].started(now) && self.legs[k].restart {
            Some(self.legs[k].spawn_ms)
        } else {
            self.launch(now, k + 1)
        }
    }

    /// Brightness `elapsed` milliseconds into `leg`: full while travelling,
    /// then fading over the linger time.
    pub open spec fn brightness(self, leg: Leg, elapsed: int) -> int {
        let fading = elapsed - leg.duration_ms;
        let linger = lasting(self.params.linger as int, self.last_speed as int);
        if fading < 0 {
            255
        } else if fading >= linger {
            0
        } else {
            255 - fading * 255 / linger
        }
    }

    /// The flight at `now`, unless it has faded out.
    pub open spec fn lit_flight(self, now: u32) -> Option<(Leg, int)> {
        match self.flight(now) {
            Some((leg, elapsed)) => if self.brightness(leg, elapsed) == 0 {
                None
            } else {
                Some((leg, elapsed))
            },
            None => None,
        }
    }

    /// The velocity that a redirect inherits.
    pub open spec fn carried(self, velocity: int) -> int {
        math::clamped(math::quot(velocity * self.params.momentum, 128), -8000, 8000)
    }

    /// Where the comet was at `now`, and its palette position there. Before
    /// every remembered leg it sat at the start of the first of them.
    pub open spec fn trace(self, now: u32) -> Option<(int, int, u8)> {
        match self.flight(now) {
            Some((leg, elapsed)) => {
                let at = leg.position(elapsed);
                Some((at.0, at.1, leg.palette_pos))
            },
            None => {
                let k = self.next_up(now, self.legs.len() as int);
                if k < 0 {
                    None
                } else {
                    let leg = self.legs[k];
                    Some((leg.from_x as int, leg.from_y as int, leg.palette_pos))
                }
            },
        }
    }

    /// The state as a clock reading of `now` finds it: a clock that jumped
    /// backward drops the flight.
    pub open spec fn unwound(self, now: u32) -> CometModel {
        if super::rewound(self.last_timer_ms, now) {
            CometModel { legs: Seq::empty(), ..self }
        } else {
            self
        }
    }

    /// The leg that a press of the key at `(x, y)` opens.
    pub open spec fn opened(self, x: u8, y: u8, now: u32) -> Leg {
        let flying = self.lit_flight(now);
        let (from, velocity) = match flying {
            Some((leg, elapsed)) => {
                let v = leg.velocity(elapsed);
                (leg.position(elapsed), (self.carried(v.0), self.carried(v.1)))
            },
            None => ((x * 16, y * 16), (0, 0)),
        };
        Leg {
            spawn_ms: now,
            from_x: math::clamped(from.0, -32768, 32767) as i16,
            from_y: math::clamped(from.1, -32768, 32767) as i16,
            vel_x: velocity.0 as i16,
            vel_y: velocity.1 as i16,
            duration_ms: travel_time(self.params, self.last_speed, hop(from, x, y)) as u16,
            to_x: x,
            to_y: y,
            palette_pos: super::key_color(x, y, self.color_step),
            restart: flying is None,
        }
    }

    /// The state after a press, when `capacity` legs are remembered.
    pub open spec fn pressed(self, capacity: int, x: u8, y: u8, now: u32) -> CometModel {
        if capacity == 0 {
            self
        } else {
            let found = self.unwound(now);
            CometModel {
                legs: super::remembered(found.legs, found.opened(x, y, now), capacity),
                color_step: math::byte_sum(self.color_step as int, 29),
                last_timer_ms: now,
                ..self
            }
        }
    }

    /// The state after a frame.
    pub open spec fn ticked(self, frame: FrameParams<'_>) -> CometModel {
        CometModel {
            last_timer_ms: frame.timer_ms,
            last_speed: frame.speed,
            ..self.unwound(frame.timer_ms)
        }
    }

    /// The state after the first `n` of a sequence of frames.
    pub open spec fn ticked_through(self, frames: Seq<FrameParams<'_>>, n: int) -> CometModel
        decreases n,
    {
        if n <= 0 {
            self
        } else {
            self.ticked_through(frames, n - 1).ticked(frames[n - 1])
        }
    }

    /// The state after the first `n` of a sequence of presses, each given as
    /// `(x, y, time)`.
    pub open spec fn pressed_through(
        self,
        capacity: int,
        presses: Seq<(u8, u8, u32)>,
        n: int,
    ) -> CometModel
        decreases n,
    {
        if n <= 0 {
            self
        } else {
            let (x, y, now) = presses[n - 1];
            self.pressed_through(capacity, presses, n - 1).pressed(capacity, x, y, now)
        }
    }

    /// The state after the first `n` of a sequence of events, with their
    /// frames or, as on a board that rendered none, without.
    pub open spec fn lived_through(
        self,
        capacity: int,
        events: Seq<CometEvent<'_>>,
        n: int,
        rendering: bool,
    ) -> CometModel
        decreases n,
    {
        if n <= 0 {
            self
        } else {
            let before = self.lived_through(capacity, events, n - 1, rendering);
            match events[n - 1] {
                CometEvent::Press { x, y, now } => before.pressed(capacity, x, y, now),
                CometEvent::Frame { frame } => if rendering {
                    before.ticked(frame)
                } else {
                    before
                },
            }
        }
    }

    /// Whether no remembered leg is stamped later than the last reading of the
    /// clock by nearly half of its range.
    pub open spec fn in_order(self) -> bool {
        forall|k: int|
            0 <= k < self.legs.len() ==> (#[trigger] self.legs[k]).spawn_ms <= self.last_timer_ms
                + ORDER_SLACK
    }

    /// Time between two trail samples.
    pub open spec fn sample_step(self) -> int {
        at_speed(self.params.trail as int, self.last_speed as int) / 8
    }

    /// Where the comet was `n` samples before `now`, unless that is before
    /// its flight began.
    pub open spec fn sample(self, now: u32, n: int) -> Option<(int, int, u8)> {
        let at = super::before(now, self.sample_step() * n);
        let launch = self.launch(now, 0);
        if launch is Some && math::ticks_since(at, launch->0) > FUTURE_GUARD {
            None
        } else {
            match self.trace(at) {
                Some(point) => Some(
                    (point.0, point.1, math::byte_sum(point.2 as int, n * TRAIL_HUE_STEP)),
                ),
                None => None,
            }
        }
    }

    /// The head and up to `n` samples behind it, ending where one is missing.
    pub open spec fn path(self, now: u32, n: int) -> Seq<(int, int, u8)>
        decreases n,
    {
        if n <= 0 {
            let (leg, elapsed) = self.flight(now)->0;
            let at = leg.position(elapsed);
            seq![(at.0, at.1, leg.palette_pos)]
        } else {
            let shorter = self.path(now, n - 1);
            if shorter.len() < n || self.sample(now, n) is None {
                shorter
            } else {
                shorter.push(self.sample(now, n)->0)
            }
        }
    }

    /// The head and the trail that is drawn.
    pub open spec fn drawn_path(self, now: u32) -> Seq<(int, int, u8)> {
        self.path(
            now,
            if self.sample_step() == 0 {
                0
            } else {
                8
            },
        )
    }

    /// Half-width of the trail.
    pub open spec fn trail_width(self) -> int {
        math::larger(self.params.head as int / 2, 1)
    }

    /// Coverage by trail stroke `n` of the LED at `led`.
    pub open spec fn stroke_light(
        self,
        path: Seq<(int, int, u8)>,
        led: (u8, u8),
        n: int,
    ) -> int {
        math::scaled255(
            stroke(
                (led.0 * 16, led.1 * 16),
                (path[n - 1].0, path[n - 1].1),
                (path[n].0, path[n].1),
                self.trail_width(),
            ),
            stroke_fade(n),
        )
    }

    /// The strongest coverage of the LED at `led` by the head and the first
    /// `n` trail strokes, and the palette position of the first to reach it.
    pub open spec fn strongest(self, path: Seq<(int, int, u8)>, led: (u8, u8), n: int) -> (int, u8)
        decreases n,
    {
        if n <= 0 {
            (
                glow(
                    (led.0 * 16, led.1 * 16),
                    (path[0].0, path[0].1),
                    self.params.head as int,
                ),
                path[0].2,
            )
        } else {
            let so_far = self.strongest(path, led, n - 1);
            let light = self.stroke_light(path, led, n);
            if light > so_far.0 {
                (light, path[n].2)
            } else {
                so_far
            }
        }
    }

    /// The color of the LED at `led` while the comet is lit.
    pub open spec fn pixel(self, frame: FrameParams<'_>, led: (u8, u8)) -> Hsv {
        let (leg, elapsed) = self.lit_flight(frame.timer_ms)->0;
        let path = self.drawn_path(frame.timer_ms);
        let (coverage, position) = self.strongest(path, led, path.len() - 1);
        if coverage == 0 {
            color::black()
        } else {
            palette::color_at(
                frame.palette@,
                position,
                core_saturation(frame.sat as int, coverage) as u8,
                math::scaled255(
                    math::scaled255(coverage, self.brightness(leg, elapsed)),
                    frame.val as int,
                ) as u8,
            )
        }
    }

    /// The frame: every LED black, but for the comet while it is lit.
    pub open spec fn painted(self, frame: FrameParams<'_>, leds: Seq<(u8, u8)>, len: nat) -> Seq<
        Hsv,
    > {
        Seq::new(
            len,
            |i: int|
                if i < leds.len() && self.lit_flight(frame.timer_ms) is Some {
                    self.pixel(frame, leds[i])
                } else {
                    color::black()
                },
        )
    }
}

/// Ring of the `N` most recent flight legs and the current tuning.
pub struct CometState<const N: usize> {
    legs: [Leg; N],
    /// Legs written so far, saturating at `N`.
    filled: usize,
    next: usize,
    color_step: u8,
    last_speed: u8,
    last_timer_ms: u32,
    params: CometParams,
}

impl<const N: usize> View for CometState<N> {
    type V = CometModel;

    closed spec fn view(&self) -> CometModel {
        CometModel {
            legs: Seq::new(
                self.filled as nat,
                |back: int| self.legs@[super::ring_slot(self.next as int, back, N as int)],
            ),
            color_step: self.color_step,
            last_speed: self.last_speed,
            last_timer_ms: self.last_timer_ms,
            params: self.params,
        }
    }
}

impl<const N: usize> Default for CometState<N> {
    fn default() -> (state: Self)
        ensures
            state.wf(),
            state@ == CometModel::fresh(comet_defaults()),
    {
        Self::new()
    }
}

impl<const N: usize> CometState<N> {
    /// The ring's cursors are in range.
    pub closed spec fn wf(&self) -> bool {
        &&& self.filled <= N
        &&& N > 0 ==> self.next < N
    }

    pub fn new() -> (state: Self)
        ensures
            state.wf(),
            state@ == CometModel::fresh(comet_defaults()),
    {
        Self::with_params(CometParams::default())
    }

    /// State pre-tuned with `params`.
    pub fn with_params(params: CometParams) -> (state: Self)
        ensures
            state.wf(),
            state@ == CometModel::fresh(params),
    {
        let state = Self {
            legs: [Leg {
                spawn_ms: 0,
                from_x: 0,
                from_y: 0,
                vel_x: 0,
                vel_y: 0,
                duration_ms: 1,
                to_x: 0,
                to_y: 0,
                palette_pos: 0,
                restart: false,
            };N],
            filled: 0,
            next: 0,
            color_step: 0,
            last_speed: 128,
            last_timer_ms: 0,
            params,
        };
        assert(state@.legs =~= Seq::<Leg>::empty());
        state
    }

    /// Retunes a running effect. The leg in flight keeps the travel time it
    /// launched with and finishes the arc it is on.
    pub fn set_params(&mut self, params: CometParams)
        requires
            old(self).wf(),
        ensures
            final(self).wf(),
            final(self)@ == (CometModel { params, ..old(self)@ }),
    {
        self.params = params;
        assert(self@.legs =~= old(self)@.legs);
    }

    /// The tuning currently in effect.
    pub fn params(&self) -> (params: CometParams)
        ensures
            params == self@.params,
    {
        self.params
    }

    /// The leg recorded `back` presses before the newest.
    fn leg(&self, back: usize) -> (leg: Leg)
        requires
            self.wf(),
            back < self@.legs.len(),
        ensures
            leg == self@.legs[back as int],
    {
        let slot: usize = if self.next > back {
            self.next - 1 - back
        } else {
            self.next + (N - 1 - back)
        };
        self.legs[slot]
    }

    fn leg_at(&self, timer_ms: u32) -> (found: Option<(Leg, u32)>)
        requires
            self.wf(),
        ensures
            match found {
                Some((leg, elapsed)) => self@.flight(timer_ms) == Some((leg, elapsed as int)),
                None => self@.flight(timer_ms) is None,
            },
    {
        let mut current: Option<(Leg, u32)> = None;
        let mut back: usize = 0;
        while back < self.filled
            invariant
                self.wf(),
                back <= self.filled,
                self.filled == self@.legs.len(),
                ({
                    let k = self@.current(timer_ms, back as int);
                    match current {
                        Some((leg, elapsed)) => 0 <= k < back && leg == self@.legs[k] && elapsed
                            == math::ticks_since(timer_ms, leg.spawn_ms),
                        None => k < 0,
                    }
                }),
            decreases self.filled - back,
        {
            let leg: Leg = self.leg(back);
            let elapsed: u32 = timer_ms.wrapping_sub(leg.spawn_ms);
            if elapsed <= FUTURE_GUARD {
                let closer: bool = match current {
                    Some((_, best)) => elapsed < best,
                    None => true,
                };
                if closer {
                    current = Some((leg, elapsed));
                }
            }
            back += 1;
        }
        current
    }

    fn flight_start_ms(&self, timer_ms: u32) -> (start: Option<u32>)
        requires
            self.wf(),
        ensures
            start == self@.launch(timer_ms, 0),
    {
        let mut back: usize = 0;
        while back < self.filled
            invariant
                self.wf(),
                back <= self.filled,
                self.filled == self@.legs.len(),
                self@.launch(timer_ms, 0) == self@.launch(timer_ms, back as int),
            decreases self.filled - back,
        {
            let leg: Leg = self.leg(back);
            if timer_ms.wrapping_sub(leg.spawn_ms) <= FUTURE_GUARD && leg.restart {
                return Some(leg.spawn_ms);
            }
            back += 1;
        }
        None
    }

    fn leg_after(&self, timer_ms: u32) -> (found: Option<Leg>)
        requires
            self.wf(),
        ensures
            ({
                let k = self@.next_up(timer_ms, self@.legs.len() as int);
                found == if k < 0 {
                    None
                } else {
                    Some(self@.legs[k])
                }
            }),
    {
        let mut upcoming: Option<(Leg, u32)> = None;
        let mut back: usize = 0;
        while back < self.filled
            invariant
                self.wf(),
                back <= self.filled,
                self.filled == self@.legs.len(),
                ({
                    let k = self@.next_up(timer_ms, back as int);
                    match upcoming {
                        Some((leg, ahead)) => 0 <= k < back && leg == self@.legs[k] && ahead
                            == math::ticks_since(leg.spawn_ms, timer_ms),
                        None => k < 0,
                    }
                }),
            decreases self.filled - back,
        {
            let leg: Leg = self.leg(back);
            let ahead: u32 = leg.spawn_ms.wrapping_sub(timer_ms);
            if ahead != 0 && ahead <= FUTURE_GUARD {
                let closer: bool = match upcoming {
                    Some((_, best)) => ahead <= best,
                    None => true,
                };
                if closer {
                    upcoming = Some((leg, ahead));
                }
            }
            back += 1;
        }
        match upcoming {
            Some((leg, _)) => Some(leg),
            None => None,
        }
    }

    fn envelope(&self, leg: Leg, elapsed_ms: u32) -> (brightness: u8)
        ensures
            brightness == self@.brightness(leg, elapsed_ms as int),
    {
        if elapsed_ms < leg.duration_ms as u32 {
            return 255;
        }
        let fading: u32 = elapsed_ms - leg.duration_ms as u32;
        let linger: u32 = self.linger_ms();
        if fading >= linger {
            return 0;
        }
        assert(0 <= fading * 255 / (linger as int) <= 255) by (nonlinear_arith)
            requires
                0 <= fading < linger,
        ;
        (255 - fading * 255 / linger) as u8
    }

    fn linger_ms(&self) -> (ms: u32)
        ensures
            ms == lasting(self@.params.linger as int, self@.last_speed as int),
            1 <= ms <= 3825,
    {
        scaled_ms(self.params.linger, self.last_speed)
    }

    fn trail_ms(&self) -> (ms: u32)
        ensures
            ms == at_speed(self@.params.trail as int, self@.last_speed as int),
            ms <= 3825,
    {
        speed_scaled(self.params.trail, self.last_speed)
    }

    fn carry(&self, velocity: i64) -> (carried: i16)
        requires
            -1_000_000_000_000 <= velocity <= 1_000_000_000_000,
        ensures
            carried == self@.carried(velocity as int),
    {
        proof {
            lemma_signed_product(
                velocity as int,
                1_000_000_000_000,
                self.params.momentum as int,
                255,
            );
        }
        let scaled: i64 = velocity * self.params.momentum as i64
            / CometParams::MOMENTUM_UNIT as i64;
        if scaled < -VEL_LIMIT {
            -8000
        } else if scaled > VEL_LIMIT {
            8000
        } else {
            scaled as i16
        }
    }

    fn trace_at(&self, timer_ms: u32) -> (trace: Option<Trace>)
        requires
            self.wf(),
        ensures
            match trace {
                Some(trace) => trace.wf() && self@.trace(timer_ms) == Some(trace.point()),
                None => self@.trace(timer_ms) is None,
            },
    {
        if let Some((leg, elapsed)) = self.leg_at(timer_ms) {
            let (x, y) = leg_position(leg, elapsed);
            return Some(Trace { x, y, palette_pos: leg.palette_pos });
        }
        match self.leg_after(timer_ms) {
            Some(leg) => Some(
                Trace { x: leg.from_x as i32, y: leg.from_y as i32, palette_pos: leg.palette_pos },
            ),
            None => None,
        }
    }

    fn flight_state(&self, timer_ms: u32) -> (found: Option<(i32, i32, i64, i64)>)
        requires
            self.wf(),
        ensures
            match found {
                Some((x, y, vx, vy)) => {
                    &&& on_path(x as int)
                    &&& on_path(y as int)
                    &&& -1_000_000_000_000 <= vx <= 1_000_000_000_000
                    &&& -1_000_000_000_000 <= vy <= 1_000_000_000_000
                    &&& self@.lit_flight(timer_ms) matches Some((leg, elapsed))
                    &&& leg.position(elapsed) == (x as int, y as int)
                    &&& leg.velocity(elapsed) == (vx as int, vy as int)
                },
                None => self@.lit_flight(timer_ms) is None,
            },
    {
        match self.leg_at(timer_ms) {
            Some((leg, elapsed)) => {
                if self.envelope(leg, elapsed) == 0 {
                    return None;
                }
                let (x, y) = leg_position(leg, elapsed);
                let (vx, vy) = leg_velocity(leg, elapsed);
                Some((x, y, vx, vy))
            },
            None => None,
        }
    }

    fn clear(&mut self)
        requires
            old(self).wf(),
        ensures
            final(self).wf(),
            final(self)@ == (CometModel { legs: Seq::empty(), ..old(self)@ }),
    {
        self.filled = 0;
        self.next = 0;
        assert(self@.legs =~= Seq::<Leg>::empty());
    }

    /// Drops the flight when the clock jumped backward, and notes the time.
    fn observe(&mut self, timer_ms: u32)
        requires
            old(self).wf(),
        ensures
            final(self).wf(),
            final(self)@ == (CometModel {
                last_timer_ms: timer_ms,
                ..old(self)@.unwound(timer_ms)
            }),
    {
        if clock_rewound(self.last_timer_ms, timer_ms) {
            self.clear();
        }
        let ghost found = self@;
        self.last_timer_ms = timer_ms;
        assert(self@.legs =~= found.legs);
    }

    /// Writes a leg into the ring.
    fn remember(&mut self, leg: Leg)
        requires
            old(self).wf(),
            N > 0,
        ensures
            final(self).wf(),
            final(self)@ == (CometModel {
                legs: super::remembered(old(self)@.legs, leg, N as int),
                ..old(self)@
            }),
    {
        let slot: usize = self.next;
        self.legs[slot] = leg;
        self.next = if slot + 1 < N {
            slot + 1
        } else {
            0
        };
        if self.filled < N {
            self.filled = self.filled + 1;
        }
        assert(self@.legs =~= super::remembered(old(self)@.legs, leg, N as int));
    }

    /// Records a press of the key at `(x, y)`: it opens a new leg from where
    /// the comet is, or at the key itself when the comet has faded out.
    pub fn record_hit(&mut self, x: u8, y: u8, timer_ms: u32)
        requires
            old(self).wf(),
        ensures
            final(self).wf(),
            final(self)@ == old(self)@.pressed(N as int, x, y, timer_ms),
    {
        if N == 0 {
            return;
        }
        let ghost begin = self@;
        self.observe(timer_ms);
        let ghost found = self@;
        proof {
            lemma_same_flight(found, begin.unwound(timer_ms), timer_ms);
        }
        let flying: Option<(i32, i32, i64, i64)> = self.flight_state(timer_ms);
        let (from_x, from_y, vel_x, vel_y): (i32, i32, i16, i16) = match flying {
            Some((px, py, vx, vy)) => (px, py, self.carry(vx), self.carry(vy)),
            None => (x as i32 * 16, y as i32 * 16, 0, 0),
        };
        let leg = Leg {
            spawn_ms: timer_ms,
            from_x: clamp_pos(from_x),
            from_y: clamp_pos(from_y),
            vel_x,
            vel_y,
            duration_ms: travel_ms(
                self.params,
                self.last_speed,
                hop_distance(from_x, from_y, x, y),
            ),
            to_x: x,
            to_y: y,
            palette_pos: super::press_color(x, y, self.color_step),
            restart: flying.is_none(),
        };
        assert(leg == begin.unwound(timer_ms).opened(x, y, timer_ms));
        self.remember(leg);
        let ghost held = self@;
        self.color_step = self.color_step.wrapping_add(29);
        assert(self@.legs =~= held.legs);
    }
}

impl<const N: usize> CometState<N> {
    /// The trail sample `n` steps behind the head.
    fn sample_at(&self, timer_ms: u32, launched: Option<u32>, step: u32, n: u8) -> (found: Option<
        Trace,
    >)
        requires
            self.wf(),
            1 <= n <= 8,
            step <= 478,
            step == self@.sample_step(),
            launched == self@.launch(timer_ms, 0),
        ensures
            match found {
                Some(trace) => trace.wf() && self@.sample(timer_ms, n as int) == Some(
                    trace.point(),
                ),
                None => self@.sample(timer_ms, n as int) is None,
            },
    {
        assert(0 <= step * n <= 478 * 8) by (nonlinear_arith)
            requires
                step <= 478,
                n <= 8,
        ;
        let at: u32 = timer_ms.wrapping_sub(step * n as u32);
        assert(at == super::before(timer_ms, self@.sample_step() * n));
        if let Some(start) = launched {
            if at.wrapping_sub(start) > FUTURE_GUARD {
                return None;
            }
        }
        match self.trace_at(at) {
            Some(trace) => Some(
                Trace { palette_pos: trace.palette_pos.wrapping_add(n * TRAIL_HUE_STEP), ..trace },
            ),
            None => None,
        }
    }

    /// The drawn path, head first, and how many of its points are used.
    fn flown_path(&self, timer_ms: u32, head: Trace) -> (r: ([Trace; 9], usize))
        requires
            self.wf(),
            head.wf(),
            self@.flight(timer_ms) is Some,
            seq![head.point()] == self@.path(timer_ms, 0),
        ensures
            1 <= r.1 <= 9,
            r.1 == self@.drawn_path(timer_ms).len(),
            forall|j: int|
                0 <= j < r.1 ==> (#[trigger] r.0@[j]).wf() && r.0@[j].point()
                    == self@.drawn_path(timer_ms)[j],
    {
        let mut path: [Trace; 9] = [head;9];
        let mut points: usize = 1;
        let span: u32 = self.trail_ms();
        let step: u32 = span / TRAIL_SAMPLES as u32;
        assert(step == span as int / 8);
        if step == 0 {
            assert(path@[0].point() == self@.path(timer_ms, 0)[0]);
            return (path, points);
        }
        let launched: Option<u32> = self.flight_start_ms(timer_ms);
        assert(path@[0].point() == self@.path(timer_ms, 0)[0]);
        while points <= TRAIL_SAMPLES
            invariant
                self.wf(),
                1 <= points <= 9,
                1 <= step <= 478,
                step == self@.sample_step(),
                launched == self@.launch(timer_ms, 0),
                points == self@.path(timer_ms, points - 1).len(),
                forall|j: int|
                    0 <= j < points ==> (#[trigger] path@[j]).wf() && path@[j].point()
                        == self@.path(timer_ms, points - 1)[j],
            decreases 9 - points,
        {
            match self.sample_at(timer_ms, launched, step, points as u8) {
                Some(trace) => {
                    path[points] = trace;
                },
                None => {
                    proof {
                        lemma_path_stops(self@, timer_ms, points as int, 8);
                    }
                    return (path, points);
                },
            }
            points += 1;
        }
        (path, points)
    }

    /// Strongest coverage of one LED, and its palette position.
    fn led_light(&self, path: &[Trace; 9], points: usize, led: (u8, u8)) -> (light: (u8, u8))
        requires
            1 <= points <= 9,
            forall|j: int| 0 <= j < points ==> (#[trigger] path@[j]).wf(),
        ensures
            forall|drawn: Seq<(int, int, u8)>|
                drawn.len() == points && (forall|j: int|
                    0 <= j < points ==> (#[trigger] path@[j]).point() == drawn[j]) ==> (
                light.0 as int,
                light.1,
            ) == #[trigger] self@.strongest(drawn, led, points - 1),
    {
        let head: u8 = self.params.head;
        let half: u8 = head / 2;
        let width: u8 = if half < 1 {
            1
        } else {
            half
        };
        let px: i32 = led.0 as i32 * 16;
        let py: i32 = led.1 as i32 * 16;
        let ghost drawn = Seq::new(points as nat, |j: int| path@[j].point());
        assert(path@[0].wf());
        let mut strongest: u8 = point_coverage(px, py, path[0].x, path[0].y, head);
        let mut position: u8 = path[0].palette_pos;
        let mut n: usize = 1;
        while n < points
            invariant
                1 <= n <= points <= 9,
                px == led.0 * 16,
                py == led.1 * 16,
                width == self@.trail_width(),
                drawn == Seq::new(points as nat, |j: int| path@[j].point()),
                forall|j: int| 0 <= j < points ==> (#[trigger] path@[j]).wf(),
                (strongest as int, position) == self@.strongest(drawn, led, n - 1),
            decreases points - n,
        {
            let a: Trace = path[n - 1];
            let b: Trace = path[n];
            assert(path@[n - 1].wf() && path@[n as int].wf());
            let coverage: u8 = scale255(
                segment_coverage(px, py, a.x, a.y, b.x, b.y, width),
                trail_fade(n),
            );
            assert(coverage == self@.stroke_light(drawn, led, n as int));
            if coverage > strongest {
                strongest = coverage;
                position = b.palette_pos;
            }
            n += 1;
        }
        proof {
            assert forall|other: Seq<(int, int, u8)>|
                other.len() == points && (forall|j: int|
                    0 <= j < points ==> (#[trigger] path@[j]).point() == other[j]) implies (
                strongest as int,
                position,
            ) == #[trigger] self@.strongest(other, led, points - 1) by {
                assert(other =~= drawn);
            }
        }
        (strongest, position)
    }

    /// Paints the comet over a black frame.
    fn paint<L: LedLayout>(&self, layout: &L, frame: FrameParams<'_>, out: &mut [Hsv])
        requires
            self.wf(),
            forall|j: int| 0 <= j < old(out)@.len() ==> old(out)@[j] == color::black(),
        ensures
            final(out)@ == self@.painted(frame, layout.leds(), old(out)@.len()),
    {
        let ghost model = self@;
        let ghost blank = out@;
        let (leg, elapsed) = match self.leg_at(frame.timer_ms) {
            Some(found) => found,
            None => {
                assert(out@ =~= model.painted(frame, layout.leds(), blank.len()));
                return ;
            },
        };
        let brightness: u8 = self.envelope(leg, elapsed);
        if brightness == 0 {
            assert(out@ =~= model.painted(frame, layout.leds(), blank.len()));
            return ;
        }
        let (x, y) = leg_position(leg, elapsed);
        let (path, points) = self.flown_path(
            frame.timer_ms,
            Trace { x, y, palette_pos: leg.palette_pos },
        );
        let count: usize = layout.count();
        let len: usize = out.len();
        let mut i: usize = 0;
        while i < len && i < count
            invariant
                i <= len,
                i <= count,
                len == out@.len(),
                len == blank.len(),
                count == layout.leds().len(),
                model == self@,
                1 <= points <= 9,
                model.lit_flight(frame.timer_ms) == Some((leg, elapsed as int)),
                brightness == model.brightness(leg, elapsed as int),
                points == model.drawn_path(frame.timer_ms).len(),
                forall|j: int|
                    0 <= j < points ==> (#[trigger] path@[j]).wf() && path@[j].point()
                        == model.drawn_path(frame.timer_ms)[j],
                forall|j: int| 0 <= j < i ==> out@[j] == model.pixel(frame, layout.leds()[j]),
                forall|j: int| i <= j < len ==> out@[j] == color::black(),
            decreases len - i,
        {
            let led: (u8, u8) = layout.position(i);
            let (strongest, position) = self.led_light(&path, points, led);
            assert((strongest as int, position) == model.strongest(
                model.drawn_path(frame.timer_ms),
                led,
                points - 1,
            ));
            if strongest != 0 {
                out[i] = interp_color(
                    frame.palette,
                    position,
                    core_sat(frame.sat, strongest),
                    scale255(scale255(strongest, brightness), frame.val),
                );
            }
            i += 1;
        }
        assert(out@ =~= model.painted(frame, layout.leds(), blank.len()));
    }

    fn render<L: LedLayout>(&mut self, layout: &L, frame: FrameParams<'_>, out: &mut [Hsv])
        requires
            old(self).wf(),
        ensures
            final(self).wf(),
            final(self)@ == old(self)@.ticked(frame),
            final(out)@ == final(self)@.painted(frame, layout.leds(), old(out)@.len()),
    {
        super::fill(out, Hsv::default());
        self.observe(frame.timer_ms);
        let ghost found = self@;
        self.last_speed = frame.speed;
        assert(self@.legs =~= found.legs);
        self.paint(layout, frame, out);
    }

    /// Draws the comet over black.
    pub fn tick<L: LedLayout>(&mut self, layout: &L, frame: FrameParams<'_>, out: &mut [Hsv])
        requires
            old(self).wf(),
        ensures
            final(self).wf(),
            final(self)@ == old(self)@.ticked(frame),
            final(out)@ == final(self)@.painted(frame, layout.leds(), old(out)@.len()),
    {
        self.render(layout, frame, out);
    }

    /// Draws the comet as a layer: black is transparent.
    pub fn tick_layer<L: LedLayout>(&mut self, layout: &L, frame: FrameParams<'_>, out: &mut [Hsv])
        requires
            old(self).wf(),
        ensures
            final(self).wf(),
            final(self)@ == old(self)@.ticked(frame),
            final(out)@ == final(self)@.painted(frame, layout.leds(), old(out)@.len()),
    {
        self.render(layout, frame, out);
    }
}

/// A path that has ended gets no longer.
proof fn lemma_path_stops(model: CometModel, now: u32, m: int, n: int)
    requires
        1 <= m <= n,
        model.path(now, m - 1).len() == m,
        model.sample(now, m) is None,
    ensures
        model.path(now, n) == model.path(now, m - 1),
    decreases n,
{
    if n > m {
        lemma_path_stops(model, now, m, n - 1);
    }
}

/// The flight depends on the legs, the speed and the tuning alone.
proof fn lemma_same_flight(a: CometModel, b: CometModel, now: u32)
    requires
        a.legs == b.legs,
        a.last_speed == b.last_speed,
        a.params == b.params,
    ensures
        a.flight(now) == b.flight(now),
        a.lit_flight(now) == b.lit_flight(now),
{
    lemma_same_current(a, b, now, a.legs.len() as int);
}

proof fn lemma_same_current(a: CometModel, b: CometModel, now: u32, n: int)
    requires
        a.legs == b.legs,
    ensures
        a.current(now, n) == b.current(now, n),
    decreases n,
{
    if n > 0 {
        lemma_same_current(a, b, now, n - 1);
    }
}

/// Setting a parameter changes that parameter alone.
pub proof fn law_set_then_get(params: CometParams, index: int, value: u8, other: int)
    requires
        0 <= index < CometParams::COUNT,
        0 <= other < CometParams::COUNT,
    ensures
        params.with_param(index, value).param(index) == value,
        other != index ==> params.with_param(index, value).param(other) == params.param(other),
{
}

/// The advertised defaults are the values a new state is tuned to, and every
/// one of them is within its bounds.
pub proof fn law_defaults_are_advertised(index: int)
    requires
        0 <= index < CometParams::COUNT,
    ensures
        comet_defaults().param(index) == CometParams::DEFAULTS[index],
        CometParams::accepts(index, CometParams::DEFAULTS[index]),
{
}

/// A leg starts exactly where it was opened, whatever velocity it carries.
pub proof fn law_a_leg_starts_where_it_opened(leg: Leg)
    ensures
        leg.position(0) == (leg.from_x as int, leg.from_y as int),
{
    let span = math::larger(leg.duration_ms as int, 1);
    lemma_progress(0, span);
    assert(squared(0) == 0 && cubed(0) == 0);
    lemma_rest(reach(leg.vel_x as int, leg.duration_ms as int));
    lemma_rest(reach(leg.vel_y as int, leg.duration_ms as int));
    lemma_unit(leg.from_x - leg.to_x * 16);
    lemma_unit(leg.from_y - leg.to_y * 16);
}

/// The comet reaches the key it chases when the travel time is over, and stays
/// there.
pub proof fn law_a_leg_ends_on_its_key(leg: Leg, elapsed: int)
    requires
        elapsed >= leg.duration_ms,
        elapsed >= 1,
    ensures
        leg.position(elapsed) == (leg.to_x * 16, leg.to_y * 16),
{
    let span = math::larger(leg.duration_ms as int, 1);
    lemma_progress(span, span);
    assert(progress(elapsed, leg.duration_ms as int) == 1024);
    assert(squared(1024) == 1024 && cubed(1024) == 1024);
    lemma_rest(reach(leg.vel_x as int, leg.duration_ms as int));
    lemma_rest(reach(leg.vel_y as int, leg.duration_ms as int));
    lemma_rest(leg.from_x - leg.to_x * 16);
    lemma_rest(leg.from_y - leg.to_y * 16);
}

proof fn lemma_rest(span: int)
    ensures
        math::quot(span * 0, 1024) == 0,
{
}

proof fn lemma_unit(span: int)
    ensures
        math::quot(span * 1024, 1024) == span,
{
}

/// A comet is at full brightness all the way to its key, dims from there on,
/// and is out when its linger time is over.
pub proof fn law_brightness_fades(model: CometModel, leg: Leg, elapsed: int, later: int)
    requires
        0 <= elapsed <= later,
    ensures
        elapsed < leg.duration_ms ==> model.brightness(leg, elapsed) == 255,
        0 <= model.brightness(leg, later) <= model.brightness(leg, elapsed) <= 255,
        elapsed >= leg.duration_ms + lasting(model.params.linger as int, model.last_speed as int)
            ==> model.brightness(leg, elapsed) == 0,
{
    let linger = lasting(model.params.linger as int, model.last_speed as int);
    let near = elapsed - leg.duration_ms;
    let far = later - leg.duration_ms;
    if 0 <= near < linger {
        lemma_fade(near, linger);
    }
    if 0 <= far < linger {
        lemma_fade(far, linger);
        if 0 <= near {
            lemma_quotients(near * 255, far * 255, linger);
        }
    }
}

proof fn lemma_fade(run: int, span: int)
    requires
        0 <= run < span,
    ensures
        0 <= run * 255 / span <= 255,
{
    assert(0 <= run * 255 / span <= 255) by (nonlinear_arith)
        requires
            0 <= run < span,
    ;
}

proof fn lemma_quotients(a: int, b: int, d: int)
    requires
        a <= b,
        1 <= d,
    ensures
        a / d <= b / d,
{
    assert(a / d <= b / d) by (nonlinear_arith)
        requires
            a <= b,
            1 <= d,
    ;
}

/// At zero pace every flight takes the same time.
pub proof fn law_zero_pace_ignores_distance(params: CometParams, speed: u8, near: int, far: int)
    requires
        params.pace == 0,
    ensures
        travel_time(params, speed, near) == travel_time(params, speed, far),
{
    let base = lasting(params.lag as int, speed as int);
    let a = rooted(base, near);
    let b = rooted(base, far);
    assert((a - base) * 0 / 255 == 0 && (base - a) * 0 / 255 == 0);
    assert((b - base) * 0 / 255 == 0 && (base - b) * 0 / 255 == 0);
}

/// A longer hop never takes less time.
pub proof fn law_longer_hops_take_longer(params: CometParams, speed: u8, near: int, far: int)
    requires
        0 <= near <= far,
    ensures
        travel_time(params, speed, near) <= travel_time(params, speed, far),
{
    let base = lasting(params.lag as int, speed as int);
    math::law_root_exists(near * 255);
    math::law_root_exists(far * 255);
    let r = math::root(near * 255);
    let s = math::root(far * 255);
    math::law_root_is_monotone(near * 255, far * 255, r, s);
    let a = rooted(base, near);
    let b = rooted(base, far);
    assert(base * r <= base * s) by (nonlinear_arith)
        requires
            0 <= base,
            r <= s,
    ;
    assert(a <= b <= base);
    let pace = params.pace as int;
    assert((base - b) * pace <= (base - a) * pace) by (nonlinear_arith)
        requires
            a <= b,
            0 <= pace,
    ;
    assert(between(base, a, pace) == base - (base - a) * pace / 255) by {
        assert((base - base) * pace == 0) by (nonlinear_arith);
    }
    assert(between(base, b, pace) == base - (base - b) * pace / 255) by {
        assert((base - base) * pace == 0) by (nonlinear_arith);
    }
}

/// A flight the full width of the board takes the lag, whatever the pace, and
/// no hop of any length takes more; nothing takes less than the floor.
pub proof fn law_the_lag_bounds_a_flight(params: CometParams, speed: u8, distance: int)
    requires
        0 <= distance,
    ensures
        travel_time(params, speed, BOARD_SPAN as int) == math::larger(
            lasting(params.lag as int, speed as int),
            MIN_TRAVEL_MS as int,
        ),
        MIN_TRAVEL_MS <= travel_time(params, speed, distance) <= math::larger(
            lasting(params.lag as int, speed as int),
            MIN_TRAVEL_MS as int,
        ),
{
    let base = lasting(params.lag as int, speed as int);
    assert(0 <= params.lag * 10 * (384 - speed) <= 979_200) by (nonlinear_arith)
        requires
            0 <= params.lag <= 255,
            0 <= speed <= 255,
    ;
    assert(1 <= base <= 3825);
    assert(math::is_root(65025, 255));
    math::law_root_is_unique(65025, 255);
    assert(base * 255 / 255 == base);
    assert(between(base, base, params.pace as int) == base) by {
        assert((base - base) * params.pace == 0) by (nonlinear_arith);
    }
    let given = rooted(base, distance);
    assert(given <= base);
    let pace = params.pace as int;
    assert((base - given) * pace >= 0) by (nonlinear_arith)
        requires
            given <= base,
            0 <= pace,
    ;
    assert(between(base, given, pace) <= base) by {
        assert((base - base) * pace == 0) by (nonlinear_arith);
    }
}

/// Without momentum a redirect carries nothing; at the unit it conserves the
/// velocity, up to the ceiling.
pub proof fn law_momentum_scales_the_carried_velocity(model: CometModel, velocity: int)
    ensures
        model.params.momentum == 0 ==> model.carried(velocity) == 0,
        model.params.momentum == CometParams::MOMENTUM_UNIT ==> model.carried(velocity)
            == math::clamped(velocity, -VEL_LIMIT as int, VEL_LIMIT as int),
{
    if model.params.momentum == 0 {
        assert(velocity * 0 == 0);
    }
}

/// A press while the comet is lit bends its path without a break: the new leg
/// begins where the comet was, with the velocity it carries.
pub proof fn law_a_redirect_is_continuous(model: CometModel, x: u8, y: u8, now: u32)
    requires
        model.lit_flight(now) is Some,
    ensures
        ({
            let (leg, elapsed) = model.lit_flight(now)->0;
            let next = model.opened(x, y, now);
            let at = leg.position(elapsed);
            &&& !next.restart
            &&& next.position(0) == (
                math::clamped(at.0, -32768, 32767),
                math::clamped(at.1, -32768, 32767),
            )
            &&& next.vel_x == model.carried(leg.velocity(elapsed).0)
            &&& next.vel_y == model.carried(leg.velocity(elapsed).1)
        }),
{
    law_a_leg_starts_where_it_opened(model.opened(x, y, now));
}

/// A press after the comet has faded out starts over at the key: the new leg
/// rests there from its first moment on.
pub proof fn law_a_press_after_the_fade_starts_over(
    model: CometModel,
    x: u8,
    y: u8,
    now: u32,
    elapsed: int,
)
    requires
        model.lit_flight(now) is None,
        0 <= elapsed,
    ensures
        model.opened(x, y, now).restart,
        model.opened(x, y, now).position(elapsed) == (x * 16, y * 16),
{
    let leg = model.opened(x, y, now);
    let u = progress(elapsed, leg.duration_ms as int);
    assert(reach(0, leg.duration_ms as int) == 0);
    let start = 2 * cubed(u) - 3 * squared(u) + 1024;
    let carry = cubed(u) - 2 * squared(u) + u;
    assert(0 * start == 0 && 0 * carry == 0);
}

/// The flight at a time is the one leg that was opened last by then: it had
/// started, and no other that had started did so later.
pub proof fn law_the_flight_is_the_latest_leg(model: CometModel, now: u32, k: int)
    requires
        0 <= k < model.legs.len(),
        model.legs[k].started(now),
    ensures
        ({
            &&& model.flight(now) matches Some((leg, elapsed))
            &&& leg.started(now)
            &&& elapsed == math::ticks_since(now, leg.spawn_ms)
            &&& elapsed <= math::ticks_since(now, model.legs[k].spawn_ms)
        }),
{
    lemma_current(model, now, model.legs.len() as int, k);
}

proof fn lemma_current(model: CometModel, now: u32, n: int, k: int)
    requires
        0 <= n <= model.legs.len(),
        0 <= k < model.legs.len(),
    ensures
        ({
            let c = model.current(now, n);
            &&& -1 <= c < n
            &&& c >= 0 ==> model.legs[c].started(now)
            &&& k < n && model.legs[k].started(now) ==> c >= 0 && math::ticks_since(
                now,
                model.legs[c].spawn_ms,
            ) <= math::ticks_since(now, model.legs[k].spawn_ms)
        }),
    decreases n,
{
    if n > 0 {
        lemma_current(model, now, n - 1, k);
    }
}

/// Right after a press the comet flies the leg that the press opened, also
/// when several presses carry the same time.
pub proof fn law_the_newest_press_wins(model: CometModel, capacity: int, x: u8, y: u8, now: u32)
    requires
        capacity >= 1,
    ensures
        model.pressed(capacity, x, y, now).flight(now) == Some(
            (model.unwound(now).opened(x, y, now), 0int),
        ),
{
    let after = model.pressed(capacity, x, y, now);
    assert(after.legs[0] == model.unwound(now).opened(x, y, now));
    lemma_newest(after, now, after.legs.len() as int);
}

proof fn lemma_newest(model: CometModel, now: u32, n: int)
    requires
        1 <= n <= model.legs.len(),
        model.legs[0].spawn_ms == now,
    ensures
        model.current(now, n) == 0,
    decreases n,
{
    if n > 1 {
        lemma_newest(model, now, n - 1);
    } else {
        assert(model.current(now, 0) == -1);
    }
}

/// Without a trail nothing but the head is drawn.
pub proof fn law_no_trail_leaves_the_head(model: CometModel, now: u32)
    requires
        model.params.trail == 0,
    ensures
        model.drawn_path(now).len() == 1,
{
    assert(at_speed(0, model.last_speed as int) == 0) by {
        assert(0 * (384 - model.last_speed) == 0);
    }
}

/// A clock that jumped backward drops the flight: the frame that sees it is
/// black.
pub proof fn law_a_rewind_drops_the_flight(
    model: CometModel,
    frame: FrameParams<'_>,
    leds: Seq<(u8, u8)>,
    len: nat,
)
    requires
        super::rewound(model.last_timer_ms, frame.timer_ms),
    ensures
        model.ticked(frame).painted(frame, leds, len) == Seq::new(len, |i: int| color::black()),
{
    let after = model.ticked(frame);
    assert(after.current(frame.timer_ms, 0) == -1);
    assert(after.lit_flight(frame.timer_ms) is None);
    assert(after.painted(frame, leds, len) =~= Seq::new(len, |i: int| color::black()));
}

/// Whether the clock readings of a sequence of frames never go back, starting
/// from `from` and going on to `to`.
pub open spec fn forward(from: u32, frames: Seq<FrameParams<'_>>, to: u32) -> bool {
    &&& from <= to
    &&& forall|i: int|
        0 <= i < frames.len() ==> from <= (#[trigger] frames[i]).timer_ms <= to
    &&& forall|i: int, j: int|
        0 <= i <= j < frames.len() ==> (#[trigger] frames[i]).timer_ms <= (
        #[trigger] frames[j]).timer_ms
}

/// Whether no two consecutive readings of a sequence of frames, from `from` on
/// and up to `to`, are a rewind.
pub open spec fn unbroken(from: u32, frames: Seq<FrameParams<'_>>, to: u32) -> bool {
    &&& frames.len() == 0 ==> !super::rewound(from, to)
    &&& frames.len() > 0 ==> {
        &&& !super::rewound(from, frames[0].timer_ms)
        &&& !super::rewound(frames[frames.len() - 1].timer_ms, to)
    }
    &&& forall|i: int|
        #![trigger frames[i]]
        0 < i < frames.len() ==> !super::rewound(frames[i - 1].timer_ms, frames[i].timer_ms)
}

/// What a frame shows depends on the recorded legs, the tuning and the time
/// alone, not on how many frames were rendered before it: after any number of
/// frames at readings that do not go back, the same comet is drawn as after
/// none.
pub proof fn law_earlier_frames_leave_no_mark(
    model: CometModel,
    frames: Seq<FrameParams<'_>>,
    frame: FrameParams<'_>,
    leds: Seq<(u8, u8)>,
    len: nat,
)
    requires
        model.in_order(),
        forward(model.last_timer_ms, frames, frame.timer_ms),
    ensures
        model.ticked_through(frames, frames.len() as int).ticked(frame).painted(frame, leds, len)
            == model.ticked(frame).painted(frame, leds, len),
{
    let n = frames.len() as int;
    let now = frame.timer_ms;
    let marked = model.ticked_through(frames, n);
    lemma_frames_forward(model, frames, now, n);
    let a = marked.ticked(frame);
    let b = model.ticked(frame);
    if now - model.last_timer_ms > 0x8000_0001 {
        lemma_out_of_reach(a, now);
        lemma_out_of_reach(b, now);
        assert(a.painted(frame, leds, len) =~= b.painted(frame, leds, len));
    } else {
        assert(a == b);
    }
}

/// After frames that do not go back the legs are as they were, unless the
/// clock has run on past half its range.
proof fn lemma_frames_forward(
    model: CometModel,
    frames: Seq<FrameParams<'_>>,
    to: u32,
    n: int,
)
    requires
        forward(model.last_timer_ms, frames, to),
        0 <= n <= frames.len(),
    ensures
        ({
            let marked = model.ticked_through(frames, n);
            &&& marked.params == model.params
            &&& marked.color_step == model.color_step
            &&& marked.last_timer_ms == if n == 0 {
                model.last_timer_ms
            } else {
                frames[n - 1].timer_ms
            }
            &&& marked.legs == model.legs || (marked.legs == Seq::<Leg>::empty() && to
                - model.last_timer_ms > 0x8000_0001)
        }),
    decreases n,
{
    if n > 0 {
        lemma_frames_forward(model, frames, to, n - 1);
        if n > 1 {
            assert(frames[n - 2].timer_ms <= frames[n - 1].timer_ms);
        }
        assert(model.last_timer_ms <= frames[n - 1].timer_ms <= to);
    }
}

/// Legs whose flight is long over are not seen.
proof fn lemma_out_of_reach(model: CometModel, now: u32)
    requires
        forall|k: int|
            0 <= k < model.legs.len() ==> now - (#[trigger] model.legs[k]).spawn_ms > LONGEST_FLIGHT_MS,
    ensures
        model.lit_flight(now) is None,
{
    lemma_none_recent(model, now, model.legs.len() as int);
    let k = model.current(now, model.legs.len() as int);
    if k >= 0 {
        let leg = model.legs[k];
        let linger = model.params.linger as int;
        let pace = 384 - model.last_speed;
        math::lemma_product_bound(linger * 10, 2550, pace, 384);
        assert(lasting(linger, model.last_speed as int) <= 3825);
        assert(model.brightness(leg, math::ticks_since(now, leg.spawn_ms)) == 0);
    }
}

proof fn lemma_none_recent(model: CometModel, now: u32, n: int)
    requires
        n <= model.legs.len(),
        forall|k: int|
            0 <= k < model.legs.len() ==> now - (#[trigger] model.legs[k]).spawn_ms > LONGEST_FLIGHT_MS,
    ensures
        ({
            let k = model.current(now, n);
            k >= 0 ==> k < n && math::ticks_since(now, model.legs[k].spawn_ms) > LONGEST_FLIGHT_MS
        }),
    decreases n,
{
    if n > 0 {
        lemma_none_recent(model, now, n - 1);
        assert(now - model.legs[n - 1].spawn_ms > LONGEST_FLIGHT_MS);
    }
}

/// Across a wrap of the clock the same holds of the whole state: any number of
/// frames without a rewind leaves it as a single frame would.
pub proof fn law_unbroken_frames_leave_no_mark(
    model: CometModel,
    frames: Seq<FrameParams<'_>>,
    frame: FrameParams<'_>,
)
    requires
        unbroken(model.last_timer_ms, frames, frame.timer_ms),
        !super::rewound(model.last_timer_ms, frame.timer_ms),
    ensures
        model.ticked_through(frames, frames.len() as int).ticked(frame) == model.ticked(frame),
{
    lemma_frames_unbroken(model, frames, frame.timer_ms, frames.len() as int);
}

proof fn lemma_frames_unbroken(
    model: CometModel,
    frames: Seq<FrameParams<'_>>,
    to: u32,
    n: int,
)
    requires
        unbroken(model.last_timer_ms, frames, to),
        0 <= n <= frames.len(),
    ensures
        ({
            let marked = model.ticked_through(frames, n);
            &&& marked.params == model.params
            &&& marked.color_step == model.color_step
            &&& marked.legs == model.legs
            &&& marked.last_timer_ms == if n == 0 {
                model.last_timer_ms
            } else {
                frames[n - 1].timer_ms
            }
        }),
    decreases n,
{
    if n > 0 {
        lemma_frames_unbroken(model, frames, to, n - 1);
        assert(n > 1 ==> !super::rewound(frames[n - 2].timer_ms, frames[n - 1].timer_ms));
    }
}

/// Two boards that are tuned alike and see the same presses draw the same
/// comet from then on, however many frames either has rendered since. The
/// presses come in order, but for steps back that are far from half of the
/// clock's range.
pub proof fn law_two_boards_draw_the_same_comet(
    params: CometParams,
    capacity: int,
    presses: Seq<(u8, u8, u32)>,
    frames: Seq<FrameParams<'_>>,
    frame: FrameParams<'_>,
    leds: Seq<(u8, u8)>,
    len: nat,
)
    requires
        capacity >= 0,
        forall|i: int, j: int|
            0 <= i <= j < presses.len() ==> (#[trigger] presses[i]).2 <= (#[trigger] presses[j]).2
                + ORDER_SLACK,
        ({
            let last = if presses.len() == 0 {
                0
            } else {
                presses[presses.len() - 1].2
            };
            forward(last, frames, frame.timer_ms)
        }),
    ensures
        ({
            let model = CometModel::fresh(params).pressed_through(
                capacity,
                presses,
                presses.len() as int,
            );
            model.ticked_through(frames, frames.len() as int).ticked(frame).painted(
                frame,
                leds,
                len,
            ) == model.ticked(frame).painted(frame, leds, len)
        }),
{
    let n = presses.len() as int;
    let model = CometModel::fresh(params).pressed_through(capacity, presses, n);
    lemma_presses_in_order(params, capacity, presses, n);
    if n > 0 && capacity > 0 {
        assert forall|k: int| 0 <= k < model.legs.len() implies (
        #[trigger] model.legs[k]).spawn_ms <= model.last_timer_ms + ORDER_SLACK by {
            assert(model.legs[k].spawn_ms <= presses[n - 1].2 + ORDER_SLACK);
        }
    }
    assert(forward(model.last_timer_ms, frames, frame.timer_ms));
    law_earlier_frames_leave_no_mark(model, frames, frame, leds, len);
}

proof fn lemma_presses_in_order(
    params: CometParams,
    capacity: int,
    presses: Seq<(u8, u8, u32)>,
    n: int,
)
    requires
        capacity >= 0,
        0 <= n <= presses.len(),
        forall|i: int, j: int|
            0 <= i <= j < presses.len() ==> (#[trigger] presses[i]).2 <= (#[trigger] presses[j]).2
                + ORDER_SLACK,
    ensures
        ({
            let model = CometModel::fresh(params).pressed_through(capacity, presses, n);
            &&& n == 0 || capacity == 0 ==> model.last_timer_ms == 0 && model.legs.len() == 0
            &&& n > 0 && capacity > 0 ==> model.last_timer_ms == presses[n - 1].2
            &&& forall|k: int, j: int|
                0 <= k < model.legs.len() && n <= j + 1 <= presses.len() ==> (
                #[trigger] model.legs[k]).spawn_ms <= (#[trigger] presses[j]).2 + ORDER_SLACK
        }),
    decreases n,
{
    if n > 0 {
        lemma_presses_in_order(params, capacity, presses, n - 1);
        let before = CometModel::fresh(params).pressed_through(capacity, presses, n - 1);
        let (x, y, now) = presses[n - 1];
        let after = before.pressed(capacity, x, y, now);
        if capacity > 0 {
            let found = before.unwound(now);
            assert forall|k: int, j: int|
                0 <= k < after.legs.len() && n <= j + 1 <= presses.len() implies (
            #[trigger] after.legs[k]).spawn_ms <= (#[trigger] presses[j]).2 + ORDER_SLACK by {
                if k > 0 {
                    assert(after.legs[k] == found.legs[k - 1]);
                    assert(found.legs.len() > 0);
                    assert(before.legs[k - 1].spawn_ms <= presses[j].2 + ORDER_SLACK);
                } else {
                    assert(presses[n - 1].2 <= presses[j].2 + ORDER_SLACK);
                }
            }
        }
    }
}

/// A frame before a press does not show in the leg that the press opens, nor
/// in anything else, as long as the speed stays and no reading is a rewind.
pub proof fn law_a_frame_leaves_the_next_press_alone(
    model: CometModel,
    frame: FrameParams<'_>,
    capacity: int,
    x: u8,
    y: u8,
    now: u32,
)
    requires
        capacity != 0,
        frame.speed == model.last_speed,
        !super::rewound(model.last_timer_ms, frame.timer_ms),
        !super::rewound(frame.timer_ms, now),
        !super::rewound(model.last_timer_ms, now),
    ensures
        model.ticked(frame).pressed(capacity, x, y, now) == model.pressed(capacity, x, y, now),
{
    lemma_same_press(model.ticked(frame), model, capacity, x, y, now);
}

/// A press finds the same comet on two boards whose clocks alone were last
/// read at different times.
proof fn lemma_same_press(a: CometModel, b: CometModel, capacity: int, x: u8, y: u8, now: u32)
    requires
        alike(a, b),
        !super::rewound(a.last_timer_ms, now),
        !super::rewound(b.last_timer_ms, now),
    ensures
        alike(a.pressed(capacity, x, y, now), b.pressed(capacity, x, y, now)),
        capacity != 0 ==> a.pressed(capacity, x, y, now) == b.pressed(capacity, x, y, now),
{
    lemma_same_flight(a, b, now);
    assert(a.opened(x, y, now) == b.opened(x, y, now));
}

/// Whether two states differ at most in when their clock was last read.
pub open spec fn alike(a: CometModel, b: CometModel) -> bool {
    (CometModel { last_timer_ms: 0, ..a }) == (CometModel { last_timer_ms: 0, ..b })
}

/// Whether no reading of a sequence of events, from `from` on and up to `to`,
/// is a rewind of one before it.
pub open spec fn steady(from: u32, events: Seq<CometEvent<'_>>, to: u32) -> bool {
    &&& !super::rewound(from, to)
    &&& forall|i: int|
        0 <= i < events.len() ==> !super::rewound(from, (#[trigger] events[i]).time())
            && !super::rewound(events[i].time(), to)
    &&& forall|i: int, j: int|
        0 <= i < j < events.len() ==> !super::rewound(
            (#[trigger] events[i]).time(),
            (#[trigger] events[j]).time(),
        )
}

/// Two boards that see the same presses draw the same comet wherever between
/// them either renders its frames: a board that rendered frames among the
/// presses and one that rendered none agree on the next frame, and on the
/// whole state after it. The frames among the presses are at the speed that
/// paces the legs.
pub proof fn law_frames_among_presses_leave_no_mark(
    model: CometModel,
    capacity: int,
    events: Seq<CometEvent<'_>>,
    frame: FrameParams<'_>,
    leds: Seq<(u8, u8)>,
    len: nat,
)
    requires
        steady(model.last_timer_ms, events, frame.timer_ms),
        forall|i: int|
            0 <= i < events.len() ==> ((#[trigger] events[i]) matches CometEvent::Frame { frame: f }
                ==> f.speed == model.last_speed),
    ensures
        ({
            let n = events.len() as int;
            let rendered = model.lived_through(capacity, events, n, true).ticked(frame);
            let quiet = model.lived_through(capacity, events, n, false).ticked(frame);
            &&& rendered == quiet
            &&& rendered.painted(frame, leds, len) == quiet.painted(frame, leds, len)
        }),
{
    lemma_events_alike(model, capacity, events, frame.timer_ms, events.len() as int);
}

proof fn lemma_events_alike(
    model: CometModel,
    capacity: int,
    events: Seq<CometEvent<'_>>,
    to: u32,
    n: int,
)
    requires
        steady(model.last_timer_ms, events, to),
        forall|i: int|
            0 <= i < events.len() ==> ((#[trigger] events[i]) matches CometEvent::Frame { frame: f }
                ==> f.speed == model.last_speed),
        0 <= n <= events.len(),
    ensures
        ({
            let a = model.lived_through(capacity, events, n, true);
            let b = model.lived_through(capacity, events, n, false);
            &&& alike(a, b)
            &&& a.last_speed == model.last_speed
            &&& seen(model.last_timer_ms, events, n, a.last_timer_ms)
            &&& seen(model.last_timer_ms, events, n, b.last_timer_ms)
        }),
    decreases n,
{
    if n > 0 {
        lemma_events_alike(model, capacity, events, to, n - 1);
        let a = model.lived_through(capacity, events, n - 1, true);
        let b = model.lived_through(capacity, events, n - 1, false);
        let event = events[n - 1];
        let t = event.time();
        lemma_seen(model.last_timer_ms, events, to, n, a.last_timer_ms);
        lemma_seen(model.last_timer_ms, events, to, n, b.last_timer_ms);
        assert(seen(model.last_timer_ms, events, n, t));
        if let CometEvent::Press { x, y, now } = event {
            lemma_same_press(a, b, capacity, x, y, now);
        }
    }
}

/// Whether `t` is `from` or a reading of one of the first `n` events.
spec fn seen(from: u32, events: Seq<CometEvent<'_>>, n: int, t: u32) -> bool {
    t == from || exists|i: int| 0 <= i < n && (#[trigger] events[i]).time() == t
}

proof fn lemma_seen(from: u32, events: Seq<CometEvent<'_>>, to: u32, n: int, t: u32)
    requires
        steady(from, events, to),
        0 < n <= events.len(),
        seen(from, events, n - 1, t),
    ensures
        !super::rewound(t, events[n - 1].time()),
        seen(from, events, n, t),
{
    if t != from {
        let i = choose|i: int| 0 <= i < n - 1 && (#[trigger] events[i]).time() == t;
        assert(!super::rewound(events[i].time(), events[n - 1].time()));
    }
}

/// Retuning paces the next press alone: the leg in flight keeps its travel
/// time and its arc, and so does every other that is remembered. Only what
/// the tuning says of the head, the trail and the fade shows at once.
pub proof fn law_legs_keep_their_flight(
    model: CometModel,
    params: CometParams,
    frame: FrameParams<'_>,
    leds: Seq<(u8, u8)>,
    len: nat,
)
    ensures
        ({
            let retuned = CometModel { params, ..model };
            &&& retuned.flight(frame.timer_ms) == model.flight(frame.timer_ms)
            &&& retuned.trace(frame.timer_ms) == model.trace(frame.timer_ms)
            &&& params.head == model.params.head && params.trail == model.params.trail
                && params.linger == model.params.linger ==> retuned.painted(frame, leds, len)
                == model.painted(frame, leds, len)
        }),
{
    let retuned = CometModel { params, ..model };
    lemma_same_trace(retuned, model, frame.timer_ms);
    if params.head == model.params.head && params.trail == model.params.trail && params.linger
        == model.params.linger {
        lemma_same_path(retuned, model, frame.timer_ms, 8);
        lemma_same_path(retuned, model, frame.timer_ms, 0);
        let path = model.drawn_path(frame.timer_ms);
        assert(retuned.drawn_path(frame.timer_ms) == path);
        assert forall|led: (u8, u8)| #[trigger]
            retuned.strongest(path, led, path.len() - 1) == model.strongest(
                path,
                led,
                path.len() - 1,
            ) by {
            lemma_same_strongest(retuned, model, path, led, path.len() - 1);
        }
        assert(retuned.painted(frame, leds, len) =~= model.painted(frame, leds, len));
    }
}

proof fn lemma_same_trace(a: CometModel, b: CometModel, now: u32)
    requires
        a.legs == b.legs,
    ensures
        a.flight(now) == b.flight(now),
        a.trace(now) == b.trace(now),
        a.launch(now, 0) == b.launch(now, 0),
{
    lemma_same_current(a, b, now, a.legs.len() as int);
    lemma_same_next(a, b, now, a.legs.len() as int);
    lemma_same_launch(a, b, now, 0);
}

proof fn lemma_same_next(a: CometModel, b: CometModel, now: u32, n: int)
    requires
        a.legs == b.legs,
    ensures
        a.next_up(now, n) == b.next_up(now, n),
    decreases n,
{
    if n > 0 {
        lemma_same_next(a, b, now, n - 1);
    }
}

proof fn lemma_same_launch(a: CometModel, b: CometModel, now: u32, k: int)
    requires
        a.legs == b.legs,
    ensures
        a.launch(now, k) == b.launch(now, k),
    decreases a.legs.len() - k,
{
    if k < a.legs.len() {
        lemma_same_launch(a, b, now, k + 1);
    }
}

proof fn lemma_same_path(a: CometModel, b: CometModel, now: u32, n: int)
    requires
        a.legs == b.legs,
        a.last_speed == b.last_speed,
        a.params.trail == b.params.trail,
    ensures
        a.path(now, n) == b.path(now, n),
    decreases n,
{
    lemma_same_trace(a, b, now);
    if n > 0 {
        lemma_same_path(a, b, now, n - 1);
        lemma_same_trace(a, b, super::before(now, a.sample_step() * n));
    }
}

proof fn lemma_same_strongest(
    a: CometModel,
    b: CometModel,
    path: Seq<(int, int, u8)>,
    led: (u8, u8),
    n: int,
)
    requires
        a.params.head == b.params.head,
    ensures
        a.strongest(path, led, n) == b.strongest(path, led, n),
    decreases n,
{
    if n > 0 {
        lemma_same_strongest(a, b, path, led, n - 1);
    }
}

/// A leg opens with the velocity it carries, short of it by at most two board
/// units per second to rounding, and arrives at rest.
pub proof fn law_a_leg_carries_its_velocity(leg: Leg, elapsed: int)
    requires
        leg.duration_ms >= MIN_TRAVEL_MS,
        elapsed >= leg.duration_ms,
    ensures
        nearly(leg.velocity(0).0, leg.vel_x as int),
        nearly(leg.velocity(0).1, leg.vel_y as int),
        leg.velocity(elapsed) == (0int, 0int),
{
    let duration = leg.duration_ms as int;
    lemma_progress(0, duration);
    lemma_progress(duration, duration);
    assert(squared(0) == 0);
    assert(squared(1024) == 1024);
    lemma_rest(leg.from_x - leg.to_x * 16);
    lemma_rest(leg.from_y - leg.to_y * 16);
    lemma_rest(reach(leg.vel_x as int, duration));
    lemma_rest(reach(leg.vel_y as int, duration));
    lemma_unit(reach(leg.vel_x as int, duration));
    lemma_unit(reach(leg.vel_y as int, duration));
    lemma_opening_velocity(leg.vel_x as int, duration);
    lemma_opening_velocity(leg.vel_y as int, duration);
    assert(0int / (16 * duration) == 0) by (nonlinear_arith)
        requires
            duration >= 1,
    ;
}

/// Whether `actual` is `wanted` or at most two short of it, toward zero.
pub open spec fn nearly(actual: int, wanted: int) -> bool {
    if wanted >= 0 {
        wanted - 2 <= actual <= wanted
    } else {
        wanted <= actual <= wanted + 2
    }
}

proof fn lemma_opening_velocity(vel: int, duration: int)
    requires
        duration >= 40,
    ensures
        nearly(math::quot(reach(vel, duration) * 1000, 16 * duration), vel),
{
    if vel >= 0 {
        assert(vel * duration * 16 >= 0) by (nonlinear_arith)
            requires
                vel >= 0,
                duration >= 40,
        ;
        lemma_round_trip(vel, duration);
    } else {
        let back = -vel;
        assert(vel * duration * 16 == -(back * duration * 16)) by (nonlinear_arith)
            requires
                back == -vel,
        ;
        assert(back * duration * 16 > 0) by (nonlinear_arith)
            requires
                back > 0,
                duration >= 40,
        ;
        lemma_round_trip(back, duration);
    }
}

proof fn lemma_round_trip(vel: int, duration: int)
    requires
        vel >= 0,
        duration >= 40,
    ensures
        0 <= vel * duration * 16 / 1000,
        vel - 2 <= vel * duration * 16 / 1000 * 1000 / (16 * duration) <= vel,
{
    let d = 16 * duration;
    let whole = vel * duration * 16;
    assert(whole == vel * d) by (nonlinear_arith)
        requires
            whole == vel * duration * 16,
            d == 16 * duration,
    ;
    assert(0 <= vel * d) by (nonlinear_arith)
        requires
            vel >= 0,
            d >= 640,
    ;
    let kept = whole / 1000 * 1000;
    assert(whole - 1000 < kept <= whole);
    let result = kept / d;
    assert(result * d <= kept < (result + 1) * d) by (nonlinear_arith)
        requires
            result == kept / d,
            d >= 640,
    ;
    assert(result <= vel) by (nonlinear_arith)
        requires
            result * d <= vel * d,
            d >= 640,
    ;
    assert(result + 1 > vel - 2) by (nonlinear_arith)
        requires
            (result + 1) * d > vel * d - 1000,
            d >= 640,
    ;
}

/// The trail never reaches back past the press that began the flight: every
/// sample of the drawn path lies at or after it.
pub proof fn law_the_trail_stops_at_the_launch(model: CometModel, now: u32, n: int)
    requires
        model.launch(now, 0) is Some,
        1 <= n < model.drawn_path(now).len(),
    ensures
        math::ticks_since(
            super::before(now, model.sample_step() * n),
            model.launch(now, 0)->0,
        ) <= FUTURE_GUARD,
{
    lemma_path_samples(model, now, 8, n);
}

proof fn lemma_path_samples(model: CometModel, now: u32, most: int, n: int)
    requires
        0 <= most,
    ensures
        1 <= model.path(now, most).len() <= most + 1,
        1 <= n < model.path(now, most).len() ==> model.sample(now, n) == Some(
            model.path(now, most)[n],
        ),
    decreases most,
{
    if most > 0 {
        lemma_path_samples(model, now, most - 1, n);
    }
}

/// At full pace the travel time follows the square root of the distance, up
/// to the lag.
pub proof fn law_full_pace_follows_the_root(params: CometParams, speed: u8, distance: int)
    requires
        params.pace == 255,
        0 <= distance,
    ensures
        travel_time(params, speed, distance) == math::clamped(
            math::smaller(
                lasting(params.lag as int, speed as int) * math::root(distance * 255) / 255,
                lasting(params.lag as int, speed as int),
            ),
            MIN_TRAVEL_MS as int,
            65535,
        ),
{
    let base = lasting(params.lag as int, speed as int);
    let given = rooted(base, distance);
    assert((given - base) * 255 / 255 == given - base);
    assert((base - given) * 255 / 255 == base - given);
}

/// Momentum above the unit gains speed through a turn, up to the ceiling, and
/// below the unit loses it.
pub proof fn law_momentum_gains_or_loses(model: CometModel, velocity: int)
    requires
        0 <= velocity,
    ensures
        model.params.momentum >= CometParams::MOMENTUM_UNIT ==> model.carried(velocity)
            >= math::smaller(velocity, VEL_LIMIT as int),
        model.params.momentum <= CometParams::MOMENTUM_UNIT ==> model.carried(velocity) <= velocity,
{
    let momentum = model.params.momentum as int;
    if momentum >= 128 {
        assert(velocity * momentum >= velocity * 128) by (nonlinear_arith)
            requires
                velocity >= 0,
                momentum >= 128,
        ;
    }
    if momentum <= 128 {
        assert(0 <= velocity * momentum <= velocity * 128) by (nonlinear_arith)
            requires
                velocity >= 0,
                0 <= momentum <= 128,
        ;
    }
}

/// The trail lies on the flown path: each of its points is where the comet
/// was that many sample steps before.
pub proof fn law_the_trail_follows_the_flown_path(model: CometModel, now: u32, n: int)
    requires
        1 <= n < model.drawn_path(now).len(),
    ensures
        ({
            let then = super::before(now, model.sample_step() * n);
            let point = model.drawn_path(now)[n];
            &&& model.trace(then) matches Some(at)
            &&& (point.0, point.1) == (at.0, at.1)
        }),
{
    lemma_path_samples(model, now, 8, n);
}

/// Without a leg to fly the frame is black.
pub proof fn law_an_idle_comet_is_black(
    model: CometModel,
    frame: FrameParams<'_>,
    leds: Seq<(u8, u8)>,
    len: nat,
)
    requires
        model.legs.len() == 0,
    ensures
        model.ticked(frame).painted(frame, leds, len) == Seq::new(len, |i: int| color::black()),
{
    let after = model.ticked(frame);
    assert(after.current(frame.timer_ms, 0) == -1);
    assert(after.lit_flight(frame.timer_ms) is None);
    assert(after.painted(frame, leds, len) =~= Seq::new(len, |i: int| color::black()));
}

/// A leg is timed evenly: its progress runs from 0 at its start to 1024 at the
/// end of its travel time, in proportion to the time in between, and is held
/// there.
pub proof fn law_a_leg_is_timed_evenly(elapsed: int, duration: int)
    requires
        0 <= elapsed,
        1 <= duration,
    ensures
        0 <= progress(elapsed, duration) <= 1024,
        elapsed >= duration ==> progress(elapsed, duration) == 1024,
        elapsed <= duration ==> progress(elapsed, duration) * duration <= elapsed * 1024
            < progress(elapsed, duration) * duration + duration,
        elapsed == 0 ==> progress(elapsed, duration) == 0,
        2 * elapsed == duration ==> progress(elapsed, duration) == 512,
{
    let run = math::smaller(elapsed, duration);
    math::lemma_quotient(run * 1024, duration);
    lemma_progress(run, duration);
    if 2 * elapsed == duration {
        math::lemma_quotient_is(elapsed * 1024, duration, 512);
    }
}

/// Squares and cubes of the curve parameter are those of the fraction it
/// stands for, each rounded down.
pub proof fn law_powers_round_down(u: int)
    requires
        0 <= u <= 1024,
    ensures
        1024 * squared(u) <= u * u < 1024 * squared(u) + 1024,
        1024 * cubed(u) <= squared(u) * u < 1024 * cubed(u) + 1024,
        squared(0) == 0 && cubed(0) == 0,
        squared(512) == 256 && cubed(512) == 128,
        squared(1024) == 1024 && cubed(1024) == 1024,
{
    lemma_powers(u);
}

/// What is left of the way at progress `u`, out of 1024, when nothing carries
/// the comet along: the cubic that leaves and arrives at rest.
pub open spec fn way_left(u: int) -> int {
    2 * cubed(u) - 3 * squared(u) + 1024
}

/// How much of a carried velocity still shows at progress `u`, out of 1024:
/// the cubic that starts at full slope and ends at rest.
pub open spec fn way_carried(u: int) -> int {
    cubed(u) - 2 * squared(u) + u
}

/// The way that is left falls from all of it at the start, over half of it in
/// the middle, to nothing at the end, along the cubic that is flat at both
/// ends; rounding moves it by less than three parts of 1024. What is carried
/// is nothing at both ends and follows its own cubic as closely.
pub proof fn law_the_way_follows_its_cubics(u: int)
    requires
        0 <= u <= 1024,
    ensures
        way_left(0) == 1024,
        way_left(512) == 512,
        way_left(1024) == 0,
        way_left(u) <= 1024,
        way_carried(0) == 0,
        way_carried(1024) == 0,
        -2 * 1048576 < 1048576 * way_left(u) - (2 * (u * u * u) - 3072 * (u * u) + 1073741824) < 3
            * 1048576,
        -1048576 < 1048576 * way_carried(u) - (u * u * u - 2048 * (u * u) + 1048576 * u) < 2
            * 1048576,
{
    law_powers_round_down(u);
    lemma_powers(u);
    let (square, cube) = (squared(u), cubed(u));
    // What rounding took from the square, and then from the cube.
    let lost = u * u - 1024 * square;
    let cut = square * u - 1024 * cube;
    assert(1024 * (square * u) == u * u * u - lost * u) by (nonlinear_arith)
        requires
            lost == u * u - 1024 * square,
    ;
    assert(0 <= lost * u <= 1024 * lost) by (nonlinear_arith)
        requires
            0 <= lost,
            0 <= u <= 1024,
    ;
}

/// One curve carries both axes: at every moment of a leg the comet has the
/// same share of its way left on each, and the velocity it carries adds to
/// each the same share of what it would cover alone. Positions are in
/// sixteenths.
pub proof fn law_both_axes_fly_alike(leg: Leg, elapsed: int)
    requires
        0 <= elapsed,
    ensures
        ({
            let u = progress(elapsed, leg.duration_ms as int);
            let (left, carried) = (way_left(u), way_carried(u));
            let far_x = math::quot(leg.vel_x * leg.duration_ms * 16, 1000);
            let far_y = math::quot(leg.vel_y * leg.duration_ms * 16, 1000);
            &&& leg.position(elapsed).0 == leg.to_x * 16 + math::quot(
                (leg.from_x - leg.to_x * 16) * left,
                1024,
            ) + math::quot(far_x * carried, 1024)
            &&& leg.position(elapsed).1 == leg.to_y * 16 + math::quot(
                (leg.from_y - leg.to_y * 16) * left,
                1024,
            ) + math::quot(far_y * carried, 1024)
        }),
{
}

/// A comet that starts at rest makes the same share of its way along each axis:
/// what is left is all of it at the start, half of it halfway through the
/// travel time, and nothing at the end.
pub proof fn law_halfway_is_half_of_the_way(leg: Leg, elapsed: int)
    requires
        0 <= elapsed,
        leg.duration_ms >= 1,
        leg.vel_x == 0,
        leg.vel_y == 0,
    ensures
        exists|left: int|
            {
                &&& (elapsed == 0 ==> left == 1024)
                &&& (2 * elapsed == leg.duration_ms ==> left == 512)
                &&& (elapsed >= leg.duration_ms ==> left == 0)
                &&& left <= 1024
                &&& leg.position(elapsed) == #[trigger] short_of(leg, left)
            },
{
    let u = progress(elapsed, leg.duration_ms as int);
    law_a_leg_is_timed_evenly(elapsed, leg.duration_ms as int);
    law_the_way_follows_its_cubics(u);
    law_the_way_follows_its_cubics(512);
    law_both_axes_fly_alike(leg, elapsed);
    assert(0 * (leg.duration_ms as int) * 16 == 0);
    assert(0 * way_carried(u) == 0);
    assert(leg.position(elapsed) == short_of(leg, way_left(u)));
}

/// The point that is `left` parts out of 1024 of a leg's way short of its key,
/// on both axes.
pub open spec fn short_of(leg: Leg, left: int) -> (int, int) {
    (
        leg.to_x * 16 + math::quot((leg.from_x - leg.to_x * 16) * left, 1024),
        leg.to_y * 16 + math::quot((leg.from_y - leg.to_y * 16) * left, 1024),
    )
}

/// A leg with its axes swapped.
pub open spec fn transposed(leg: Leg) -> Leg {
    Leg {
        from_x: leg.from_y,
        from_y: leg.from_x,
        vel_x: leg.vel_y,
        vel_y: leg.vel_x,
        to_x: leg.to_y,
        to_y: leg.to_x,
        ..leg
    }
}

/// No axis is special: a leg with its axes swapped flies the swapped path, at
/// the swapped velocity.
pub proof fn law_a_leg_favours_no_axis(leg: Leg, elapsed: int)
    ensures
        transposed(leg).position(elapsed) == (leg.position(elapsed).1, leg.position(elapsed).0),
        transposed(leg).velocity(elapsed) == (leg.velocity(elapsed).1, leg.velocity(elapsed).0),
{
}

/// The velocity of a leg is the slope of its path, in board units per second:
/// of the way that is left, and of what is carried.
pub proof fn law_velocity_is_the_slope(leg: Leg, elapsed: int)
    requires
        0 <= elapsed,
        leg.duration_ms >= 1,
    ensures
        ({
            let u = progress(elapsed, leg.duration_ms as int);
            let (closing, losing) = (6 * squared(u) - 6 * u, 3 * squared(u) - 4 * u + 1024);
            let far_x = math::quot(leg.vel_x * leg.duration_ms * 16, 1000);
            let far_y = math::quot(leg.vel_y * leg.duration_ms * 16, 1000);
            let slope_x = math::quot((leg.from_x - leg.to_x * 16) * closing, 1024) + math::quot(
                far_x * losing,
                1024,
            );
            let slope_y = math::quot((leg.from_y - leg.to_y * 16) * closing, 1024) + math::quot(
                far_y * losing,
                1024,
            );
            &&& leg.velocity(elapsed).0 == math::quot(slope_x * 1000, 16 * leg.duration_ms)
            &&& leg.velocity(elapsed).1 == math::quot(slope_y * 1000, 16 * leg.duration_ms)
        }),
{
}

/// Durations are tuned in tens of milliseconds and keep `384 - speed` parts out
/// of 256 of them, rounded down; what has to last lasts a millisecond at least.
pub proof fn law_durations_are_tuned_in_tens(units: int, speed: int)
    ensures
        256 * at_speed(units, speed) <= units * 10 * (384 - speed) < 256 * at_speed(units, speed)
            + 256,
        at_speed(units, 128) == units * 10,
        1 <= lasting(units, speed),
        lasting(units, speed) == at_speed(units, speed) || lasting(units, speed) == 1,
        at_speed(units, speed) >= 1 ==> lasting(units, speed) == at_speed(units, speed),
{
}

/// The travel time of a hop is the lag, less the part of it that the pace gives
/// back: `pace` out of 255 of what the root of the distance leaves, measured
/// against the width of the board. Nothing takes less than 40 milliseconds.
pub proof fn law_travel_time_follows_lag_and_pace(
    params: CometParams,
    speed: u8,
    distance: int,
    reach: int,
)
    requires
        0 <= distance,
        0 <= reach,
        reach * reach <= distance * 255 < (reach + 1) * (reach + 1),
    ensures
        ({
            let lag = lasting(params.lag as int, speed as int);
            let by_distance = if reach >= 255 {
                lag
            } else {
                lag * reach / 255
            };
            let paced = lag - (lag - by_distance) * params.pace / 255;
            &&& paced < 40 ==> travel_time(params, speed, distance) == 40
            &&& 40 <= paced <= 65535 ==> travel_time(params, speed, distance) == paced
        }),
{
    let lag = lasting(params.lag as int, speed as int);
    math::law_root_is(distance * 255, reach);
    if reach >= 255 {
        assert(lag * reach >= lag * 255) by (nonlinear_arith)
            requires
                reach >= 255,
                lag >= 1,
        ;
        assert(rooted(lag, distance) == lag);
        assert((lag - lag) * params.pace == 0) by (nonlinear_arith);
    } else {
        assert(0 <= lag * reach <= lag * 255) by (nonlinear_arith)
            requires
                0 <= reach < 255,
                lag >= 1,
        ;
        assert(rooted(lag, distance) == lag * reach / 255);
        if lag * reach / 255 == lag {
            assert((lag - lag) * params.pace == 0) by (nonlinear_arith);
        }
    }
}

/// A hop is as long as the straight line to its key, in whole board units of
/// each axis, rounded down and capped at the board's diagonal of 361.
pub proof fn law_a_hop_is_straight(from: (int, int), x: u8, y: u8, length: int)
    requires
        0 <= length,
        ({
            let dx = math::quot(x * 16 - from.0, 16);
            let dy = math::quot(y * 16 - from.1, 16);
            length * length <= dx * dx + dy * dy < (length + 1) * (length + 1)
        }),
    ensures
        length <= 361 ==> hop(from, x, y) == length,
        length > 361 ==> hop(from, x, y) == 361,
        hop((from.1, from.0), y, x) == hop(from, x, y),
{
    let dx = math::quot(x * 16 - from.0, 16);
    let dy = math::quot(y * 16 - from.1, 16);
    math::law_root_is(dx * dx + dy * dy, length);
}

/// The head glows round: its light is the soft edge of the straight distance
/// from its centre, out to the radius, in sixteenths of a board unit.
pub proof fn law_a_glow_is_round(p: (int, int), c: (int, int), radius: int, away: int)
    requires
        0 <= radius,
        0 <= away,
        away * away <= (p.0 - c.0) * (p.0 - c.0) + (p.1 - c.1) * (p.1 - c.1) < (away + 1) * (away
            + 1),
    ensures
        glow(p, c, radius) == math::edge_falloff(away, 16 * radius),
        glow(p, c, radius) > 0 <==> away <= 16 * radius,
        glow((p.1, p.0), (c.1, c.0), radius) == glow(p, c, radius),
{
    let dx = math::distance(p.0, c.0);
    let dy = math::distance(p.1, c.1);
    assert(dx * dx == (p.0 - c.0) * (p.0 - c.0) && dy * dy == (p.1 - c.1) * (p.1 - c.1)) by {
        assert((p.0 - c.0) * (p.0 - c.0) == (c.0 - p.0) * (c.0 - p.0)) by (nonlinear_arith);
        assert((p.1 - c.1) * (p.1 - c.1) == (c.1 - p.1) * (c.1 - p.1)) by (nonlinear_arith);
    }
    math::law_root_is(dx * dx + dy * dy, away);
    assert(dx <= away && dy <= away) by (nonlinear_arith)
        requires
            0 <= dx,
            0 <= dy,
            0 <= away,
            dx * dx + dy * dy < (away + 1) * (away + 1),
    ;
    math::law_edge_falloff_range(away, 16 * radius);
}

/// Whether `p` is no farther than `width` board units outside the box that two
/// points span.
pub open spec fn near_box(p: (int, int), a: (int, int), b: (int, int), width: int) -> bool {
    &&& p.0 + 16 * width >= a.0 || p.0 + 16 * width >= b.0
    &&& p.0 - 16 * width <= a.0 || p.0 - 16 * width <= b.0
    &&& p.1 + 16 * width >= a.1 || p.1 + 16 * width >= b.1
    &&& p.1 - 16 * width <= a.1 || p.1 - 16 * width <= b.1
}

/// A stroke is straight and narrow: beside it, the points are lit whose
/// distance from it is within its half-width. That distance is the area that
/// the point spans with the stroke, over the stroke's length, both rounded
/// down.
pub proof fn law_a_stroke_is_straight(
    p: (int, int),
    a: (int, int),
    b: (int, int),
    width: int,
    length: int,
)
    requires
        0 <= width,
        1 <= length,
        near_box(p, a, b, width),
        length * length <= (b.0 - a.0) * (b.0 - a.0) + (b.1 - a.1) * (b.1 - a.1) < (length + 1) * (
        length + 1),
        0 < (p.0 - a.0) * (b.0 - a.0) + (p.1 - a.1) * (b.1 - a.1) < (b.0 - a.0) * (b.0 - a.0) + (b.1
            - a.1) * (b.1 - a.1),
    ensures
        ({
            let area = (p.0 - a.0) * (b.1 - a.1) - (p.1 - a.1) * (b.0 - a.0);
            let off = if area >= 0 {
                area
            } else {
                -area
            };
            &&& stroke(p, a, b, width) == math::edge_falloff(off / length, 16 * width)
            &&& stroke(p, a, b, width) > 0 <==> off < (16 * width + 1) * length
        }),
{
    let v = (b.0 - a.0, b.1 - a.1);
    let w = (p.0 - a.0, p.1 - a.1);
    math::law_root_is(v.0 * v.0 + v.1 * v.1, length);
    let off = math::distance(w.0 * v.1, w.1 * v.0);
    math::lemma_quotient(off, length);
    let q = off / length;
    assert(0 <= q) by (nonlinear_arith)
        requires
            0 <= off < q * length + length,
            1 <= length,
    ;
    let limit = 16 * width;
    math::law_edge_falloff_range(q, limit);
    assert(q <= limit <==> off < (limit + 1) * length) by (nonlinear_arith)
        requires
            q * length <= off < q * length + length,
            1 <= length,
    ;
}

/// Before its start and past its end a stroke is the glow of that end; a
/// stroke of no length is the glow of its one point, and nothing is lit
/// outside the box around it.
pub proof fn law_a_stroke_ends_in_glows(p: (int, int), a: (int, int), b: (int, int), width: int)
    ensures
        ({
            let along = (p.0 - a.0) * (b.0 - a.0) + (p.1 - a.1) * (b.1 - a.1);
            let length = (b.0 - a.0) * (b.0 - a.0) + (b.1 - a.1) * (b.1 - a.1);
            &&& !near_box(p, a, b, width) ==> stroke(p, a, b, width) == 0
            &&& near_box(p, a, b, width) && along <= 0 ==> stroke(p, a, b, width) == glow(
                p,
                a,
                width,
            )
            &&& near_box(p, a, b, width) && length > 0 && along >= length ==> stroke(
                p,
                a,
                b,
                width,
            ) == glow(p, b, width)
        }),
{
    let v = (b.0 - a.0, b.1 - a.1);
    assert(v.0 * v.0 >= 0 && v.1 * v.1 >= 0) by (nonlinear_arith);
}

/// A stroke looks the same with its axes swapped.
pub proof fn law_a_stroke_favours_no_axis(p: (int, int), a: (int, int), b: (int, int), width: int)
    ensures
        stroke((p.1, p.0), (a.1, a.0), (b.1, b.0), width) == stroke(p, a, b, width),
{
}

/// The trail dims evenly from stroke to stroke, from 190 parts of 255 where it
/// leaves the head toward nothing past its eighth.
pub proof fn law_the_trail_dims_evenly(n: int)
    requires
        1 <= n <= 9,
    ensures
        9 * stroke_fade(n) <= 190 * (9 - n) < 9 * stroke_fade(n) + 9,
        0 <= stroke_fade(n) <= 190,
        stroke_fade(9) == 0,
{
}

/// The core washes out: from a coverage of 190 on, each point costs two of the
/// saturation, until none is left.
pub proof fn law_the_core_washes_out(sat: int, coverage: int)
    requires
        0 <= sat <= 255,
    ensures
        coverage <= 190 ==> core_saturation(sat, coverage) == sat,
        coverage > 190 && 2 * (coverage - 190) <= sat ==> core_saturation(sat, coverage) == sat - 2
            * (coverage - 190),
        coverage > 190 && 2 * (coverage - 190) > sat ==> core_saturation(sat, coverage) == 0,
{
}

/// Once the comet has arrived it dims in proportion to the time, over as long
/// as the linger says.
pub proof fn law_an_arrival_dims_evenly(model: CometModel, leg: Leg, elapsed: int)
    requires
        leg.duration_ms <= elapsed,
    ensures
        ({
            let linger = lasting(model.params.linger as int, model.last_speed as int);
            let (since, lost) = (elapsed - leg.duration_ms, 255 - model.brightness(leg, elapsed));
            &&& since < linger ==> lost * linger <= since * 255 < lost * linger + linger
            &&& since >= linger ==> lost == 255
        }),
{
    let linger = lasting(model.params.linger as int, model.last_speed as int);
    math::lemma_quotient((elapsed - leg.duration_ms) * 255, linger);
}

/// A redirect inherits `momentum` out of 128 of the velocity, rounded toward
/// zero and held to 8000 either way.
pub proof fn law_a_redirect_inherits_its_share(model: CometModel, velocity: int)
    ensures
        ({
            let share = math::quot(velocity * model.params.momentum, 128);
            &&& -8000 <= share <= 8000 ==> model.carried(velocity) == share
            &&& share > 8000 ==> model.carried(velocity) == 8000
            &&& share < -8000 ==> model.carried(velocity) == -8000
        }),
{
}

/// A press opens a leg that starts at its own time, ends on its key and wears
/// the color of its key and step. How long it takes is the travel time of the
/// way from where the comet is, or from the key itself where none is lit, at
/// the speed of the last frame.
pub proof fn law_a_press_opens_a_leg_to_its_key(model: CometModel, x: u8, y: u8, now: u32)
    ensures
        ({
            let leg = model.opened(x, y, now);
            &&& leg.spawn_ms == now && (leg.to_x, leg.to_y) == (x, y)
            &&& leg.palette_pos == super::key_color(x, y, model.color_step)
            &&& leg.restart <==> model.lit_flight(now) is None
            &&& model.lit_flight(now) is None ==> {
                &&& (leg.from_x as int, leg.from_y as int) == (x * 16, y * 16)
                &&& (leg.vel_x, leg.vel_y) == (0i16, 0i16)
                &&& leg.duration_ms == travel_time(
                    model.params,
                    model.last_speed,
                    hop((x * 16, y * 16), x, y),
                ) as u16
            }
            &&& model.lit_flight(now) matches Some((flown, elapsed)) ==> leg.duration_ms
                == travel_time(
                model.params,
                model.last_speed,
                hop(flown.position(elapsed), x, y),
            ) as u16
        }),
{
}

/// A press is remembered as the newest leg, in front of those before it, of
/// which the oldest falls off where there is no room. The color moves on by
/// 29, and neither tuning nor pace changes.
pub proof fn law_a_press_is_remembered_first(
    model: CometModel,
    capacity: int,
    x: u8,
    y: u8,
    now: u32,
    k: int,
)
    requires
        1 <= capacity,
        model.legs.len() <= capacity,
        0 <= k < model.legs.len(),
        k + 1 < capacity,
    ensures
        ({
            let after = model.pressed(capacity, x, y, now);
            &&& after.legs[0] == model.unwound(now).opened(x, y, now)
            &&& !super::rewound(model.last_timer_ms, now) ==> after.legs[k + 1] == model.legs[k]
            &&& super::rewound(model.last_timer_ms, now) ==> after.legs.len() == 1
            &&& after.color_step == math::byte_sum(model.color_step as int, 29)
            &&& after.last_timer_ms == now
            &&& after.last_speed == model.last_speed && after.params == model.params
            &&& model.pressed(0, x, y, now) == model
        }),
{
}

/// A frame leaves the legs alone, unless the clock was rewound, and notes its
/// own speed and time.
pub proof fn law_a_frame_notes_its_pace(model: CometModel, frame: FrameParams<'_>)
    ensures
        ({
            let after = model.ticked(frame);
            &&& after.last_speed == frame.speed && after.last_timer_ms == frame.timer_ms
            &&& after.params == model.params && after.color_step == model.color_step
            &&& !super::rewound(model.last_timer_ms, frame.timer_ms) ==> after.legs == model.legs
            &&& super::rewound(model.last_timer_ms, frame.timer_ms) ==> after.legs.len() == 0
        }),
{
}

/// Of several legs that started together the comet flies the newest, and it
/// flies none that starts after the given time.
pub proof fn law_the_newest_of_equal_legs_flies(model: CometModel, now: u32, k: int)
    requires
        0 <= k < model.legs.len(),
        math::ticks_since(now, model.legs[k].spawn_ms) <= 0x7fff_ffff,
        forall|j: int|
            0 <= j < model.legs.len() && j != k && math::ticks_since(
                now,
                (#[trigger] model.legs[j]).spawn_ms,
            ) <= 0x7fff_ffff ==> math::ticks_since(now, model.legs[j].spawn_ms) > math::ticks_since(
                now,
                model.legs[k].spawn_ms,
            ) || j > k && math::ticks_since(now, model.legs[j].spawn_ms) == math::ticks_since(
                now,
                model.legs[k].spawn_ms,
            ),
    ensures
        model.flight(now) == Some(
            (model.legs[k], math::ticks_since(now, model.legs[k].spawn_ms)),
        ),
{
    lemma_flown(model, now, model.legs.len() as int, k);
}

proof fn lemma_flown(model: CometModel, now: u32, n: int, k: int)
    requires
        0 <= n <= model.legs.len(),
        0 <= k < model.legs.len(),
        model.legs[k].started(now),
        forall|j: int|
            0 <= j < model.legs.len() && j != k && (#[trigger] model.legs[j]).started(now)
                ==> math::ticks_since(now, model.legs[j].spawn_ms) > math::ticks_since(
                now,
                model.legs[k].spawn_ms,
            ) || j > k && math::ticks_since(now, model.legs[j].spawn_ms) == math::ticks_since(
                now,
                model.legs[k].spawn_ms,
            ),
    ensures
        k < n ==> model.current(now, n) == k,
        k >= n ==> model.current(now, n) < 0 || model.current(now, n) < n && math::ticks_since(
            now,
            model.legs[model.current(now, n)].spawn_ms,
        ) > math::ticks_since(now, model.legs[k].spawn_ms),
    decreases n,
{
    if n > 0 {
        lemma_flown(model, now, n - 1, k);
        assert(model.legs[n - 1] == model.legs[n - 1]);
    }
}

/// A flight is one of the remembered legs, and there is one exactly when one
/// had started.
pub proof fn law_a_flight_is_a_started_leg(model: CometModel, now: u32)
    ensures
        model.flight(now) is Some <==> exists|k: int|
            0 <= k < model.legs.len() && math::ticks_since(
                now,
                (#[trigger] model.legs[k]).spawn_ms,
            ) <= 0x7fff_ffff,
        model.flight(now) matches Some((leg, elapsed)) ==> model.legs.contains(leg) && elapsed
            == math::ticks_since(now, leg.spawn_ms),
{
    let n = model.legs.len() as int;
    let c = model.current(now, n);
    lemma_current_range(model, now, n);
    if exists|k: int|
        0 <= k < n && math::ticks_since(now, (#[trigger] model.legs[k]).spawn_ms) <= 0x7fff_ffff {
        let k = choose|k: int|
            0 <= k < n && math::ticks_since(now, (#[trigger] model.legs[k]).spawn_ms)
                <= 0x7fff_ffff;
        lemma_current(model, now, n, k);
    }
    if c >= 0 {
        assert(model.legs[c].started(now));
        assert(model.legs.contains(model.legs[c]));
    }
}

proof fn lemma_current_range(model: CometModel, now: u32, n: int)
    requires
        0 <= n <= model.legs.len(),
    ensures
        -1 <= model.current(now, n) < n,
        model.current(now, n) >= 0 ==> model.legs[model.current(now, n)].started(now),
    decreases n,
{
    if n > 0 {
        lemma_current_range(model, now, n - 1);
    }
}

/// While it flies, the comet's trace is the flight's own position, in the
/// flight's color; where it neither flies nor has a leg to come there is none.
pub proof fn law_the_trace_is_the_flight(model: CometModel, now: u32)
    ensures
        model.flight(now) matches Some((leg, elapsed)) ==> model.trace(now) == Some(
            (leg.position(elapsed).0, leg.position(elapsed).1, leg.palette_pos),
        ),
        model.flight(now) is None && (forall|k: int|
            0 <= k < model.legs.len() ==> !(0 < math::ticks_since(
                (#[trigger] model.legs[k]).spawn_ms,
                now,
            ) <= 0x7fff_ffff)) ==> model.trace(now) is None,
{
    lemma_upcoming_range(model, now, model.legs.len() as int);
}

proof fn lemma_upcoming_range(model: CometModel, now: u32, n: int)
    requires
        0 <= n <= model.legs.len(),
    ensures
        -1 <= model.next_up(now, n) < n,
        model.next_up(now, n) >= 0 ==> model.legs[model.next_up(now, n)].upcoming(now),
    decreases n,
{
    if n > 0 {
        lemma_upcoming_range(model, now, n - 1);
    }
}

/// Before its first leg the comet sits where the leg that opens soonest starts.
pub proof fn law_before_its_legs_the_comet_waits(model: CometModel, now: u32, k: int)
    requires
        0 <= k < model.legs.len(),
        model.flight(now) is None,
        0 < math::ticks_since(model.legs[k].spawn_ms, now) <= 0x7fff_ffff,
        forall|j: int|
            0 <= j < model.legs.len() && j != k && 0 < math::ticks_since(
                (#[trigger] model.legs[j]).spawn_ms,
                now,
            ) <= 0x7fff_ffff ==> math::ticks_since(model.legs[j].spawn_ms, now)
                > math::ticks_since(model.legs[k].spawn_ms, now),
    ensures
        model.trace(now) == Some(
            (
                model.legs[k].from_x as int,
                model.legs[k].from_y as int,
                model.legs[k].palette_pos,
            ),
        ),
{
    lemma_soonest(model, now, model.legs.len() as int, k);
}

proof fn lemma_soonest(model: CometModel, now: u32, n: int, k: int)
    requires
        0 <= n <= model.legs.len(),
        0 <= k < model.legs.len(),
        model.legs[k].upcoming(now),
        forall|j: int|
            0 <= j < model.legs.len() && j != k && (#[trigger] model.legs[j]).upcoming(now)
                ==> math::ticks_since(model.legs[j].spawn_ms, now) > math::ticks_since(
                model.legs[k].spawn_ms,
                now,
            ),
    ensures
        k < n ==> model.next_up(now, n) == k,
        k >= n ==> model.next_up(now, n) < 0 || model.next_up(now, n) < n && math::ticks_since(
            model.legs[model.next_up(now, n)].spawn_ms,
            now,
        ) > math::ticks_since(model.legs[k].spawn_ms, now),
    decreases n,
{
    if n > 0 {
        lemma_soonest(model, now, n - 1, k);
        assert(model.legs[n - 1] == model.legs[n - 1]);
    }
}

/// The flight in progress was launched by the newest leg that had started and
/// that did not continue another.
pub proof fn law_the_launch_is_the_newest_restart(model: CometModel, now: u32, k: int)
    requires
        0 <= k < model.legs.len(),
        model.legs[k].restart,
        math::ticks_since(now, model.legs[k].spawn_ms) <= 0x7fff_ffff,
        forall|j: int|
            0 <= j < k ==> !(#[trigger] model.legs[j]).restart || math::ticks_since(
                now,
                model.legs[j].spawn_ms,
            ) > 0x7fff_ffff,
    ensures
        model.launch(now, 0) == Some(model.legs[k].spawn_ms),
{
    lemma_launched(model, now, 0, k);
}

proof fn lemma_launched(model: CometModel, now: u32, from: int, k: int)
    requires
        0 <= from <= k < model.legs.len(),
        model.legs[k].restart,
        model.legs[k].started(now),
        forall|j: int|
            from <= j < k ==> !(#[trigger] model.legs[j]).restart || !model.legs[j].started(now),
    ensures
        model.launch(now, from) == Some(model.legs[k].spawn_ms),
    decreases k - from,
{
    if from < k {
        assert(!model.legs[from].restart || !model.legs[from].started(now));
        lemma_launched(model, now, from + 1, k);
    }
}

/// The trail is sampled eight times over its length, each sample an eighth
/// farther back and three palette steps further on than the one before; it is
/// half as wide as the head, and at least one.
pub proof fn law_the_trail_is_sampled_evenly(model: CometModel, now: u32, n: int)
    requires
        1 <= n < model.drawn_path(now).len(),
    ensures
        ({
            let whole = at_speed(model.params.trail as int, model.last_speed as int);
            let step = model.sample_step();
            let then = super::before(now, step * n);
            &&& 8 * step <= whole < 8 * step + 8
            &&& model.trace(then) matches Some(at) && model.drawn_path(now)[n] == (
                at.0,
                at.1,
                math::byte_sum(at.2 as int, 3 * n),
            )
            &&& model.params.head >= 2 ==> 2 * model.trail_width() <= model.params.head < 2
                * model.trail_width() + 2
            &&& model.params.head < 2 ==> model.trail_width() == 1
        }),
{
    lemma_path_samples(model, now, 8, n);
}

/// The head leads the drawn path, where the flight is. Behind it the trail goes
/// on for eight samples, or to the first that the flight has none for.
pub proof fn law_the_path_starts_at_the_head(model: CometModel, now: u32)
    requires
        model.flight(now) is Some,
    ensures
        ({
            let path = model.drawn_path(now);
            let (leg, elapsed) = model.flight(now)->0;
            &&& 1 <= path.len() <= 9
            &&& path[0] == (
                leg.position(elapsed).0,
                leg.position(elapsed).1,
                leg.palette_pos,
            )
            &&& path.len() < 9 && model.sample_step() != 0 ==> model.sample(
                now,
                path.len() as int,
            ) is None
        }),
{
    lemma_path_shape(model, now, 8);
    lemma_path_shape(model, now, 0);
}

proof fn lemma_path_shape(model: CometModel, now: u32, n: int)
    requires
        0 <= n,
    ensures
        1 <= model.path(now, n).len() <= n + 1,
        model.path(now, n)[0] == model.path(now, 0)[0],
        model.path(now, n).len() < n + 1 ==> model.sample(
            now,
            model.path(now, n).len() as int,
        ) is None,
    decreases n,
{
    if n > 0 {
        lemma_path_shape(model, now, n - 1);
    }
}

/// A sample is missing exactly where it would lie before the launch, or where
/// the comet was nowhere.
pub proof fn law_a_sample_is_missing_before_the_launch(model: CometModel, now: u32, n: int)
    ensures
        ({
            let then = super::before(now, model.sample_step() * n);
            let early = model.launch(now, 0) matches Some(start) && math::ticks_since(then, start)
                > 0x7fff_ffff;
            model.sample(now, n) is None <==> early || model.trace(then) is None
        }),
{
}

/// An LED shows the strongest of the head and the trail: no stroke covers it
/// more than what shows, and neither does the head.
pub proof fn law_the_strongest_coverage_shows(
    model: CometModel,
    path: Seq<(int, int, u8)>,
    led: (u8, u8),
    n: int,
    k: int,
)
    requires
        0 <= n < path.len(),
        1 <= k <= n,
    ensures
        ({
            let p = (led.0 * 16, led.1 * 16);
            let (light, position) = model.strongest(path, led, n);
            let head = glow(p, (path[0].0, path[0].1), model.params.head as int);
            let own = math::scaled255(
                stroke(
                    p,
                    (path[k - 1].0, path[k - 1].1),
                    (path[k].0, path[k].1),
                    model.trail_width(),
                ),
                stroke_fade(k),
            );
            &&& head <= light
            &&& own <= light
            &&& model.stroke_light(path, led, k) == own
            &&& head == light ==> position == path[0].2
            &&& model.strongest(path, led, 0) == (head, path[0].2)
        }),
    decreases n,
{
    if n > 1 {
        law_the_strongest_coverage_shows(
            model,
            path,
            led,
            n - 1,
            if k < n {
                k
            } else {
                1
            },
        );
    } else {
        assert(model.strongest(path, led, 0).0 == glow(
            (led.0 * 16, led.1 * 16),
            (path[0].0, path[0].1),
            model.params.head as int,
        ));
    }
}

/// Whatever shows on an LED is the head or a stroke, in its own color.
pub proof fn law_coverage_comes_from_the_path(
    model: CometModel,
    path: Seq<(int, int, u8)>,
    led: (u8, u8),
    n: int,
)
    requires
        0 <= n < path.len(),
    ensures
        model.strongest(path, led, n) == model.strongest(path, led, 0) || exists|k: int|
            1 <= k <= n && model.strongest(path, led, n) == (
                #[trigger] model.stroke_light(path, led, k),
                path[k].2,
            ),
    decreases n,
{
    if n > 0 {
        law_coverage_comes_from_the_path(model, path, led, n - 1);
        if model.stroke_light(path, led, n) > model.strongest(path, led, n - 1).0 {
            assert(model.strongest(path, led, n) == (
                model.stroke_light(path, led, n),
                path[n].2,
            ));
        }
    }
}

/// A frame colors each LED of the board that the comet covers by what shows
/// there, washed out at the core and as bright as coverage, fade and frame
/// allow; everything else is black, and so is a frame without a lit comet.
pub proof fn law_the_frame_shows_the_comet(
    model: CometModel,
    frame: FrameParams<'_>,
    leds: Seq<(u8, u8)>,
    len: nat,
    i: int,
)
    requires
        0 <= i < len,
    ensures
        ({
            let out = model.painted(frame, leds, len);
            let lit = model.lit_flight(frame.timer_ms);
            &&& out.len() == len
            &&& i >= leds.len() || lit is None ==> out[i] == (Hsv { h: 0, s: 0, v: 0 })
            &&& i < leds.len() && lit is Some ==> {
                let (leg, elapsed) = lit->0;
                let path = model.drawn_path(frame.timer_ms);
                let (coverage, position) = model.strongest(path, leds[i], path.len() - 1);
                let faded = math::scaled255(coverage, model.brightness(leg, elapsed));
                &&& coverage == 0 ==> out[i] == (Hsv { h: 0, s: 0, v: 0 })
                &&& coverage != 0 ==> out[i] == palette::color_at(
                    frame.palette@,
                    position,
                    core_saturation(frame.sat as int, coverage) as u8,
                    math::scaled255(faded, frame.val as int) as u8,
                )
            }
            &&& lit is None <==> (model.flight(frame.timer_ms) is None || {
                let (leg, elapsed) = model.flight(frame.timer_ms)->0;
                model.brightness(leg, elapsed) == 0
            })
            &&& lit is Some ==> lit == model.flight(frame.timer_ms)
        }),
{
}

/// Each control has its own bounds, and reads and writes its own field.
pub proof fn law_each_control_has_its_bounds(params: CometParams, value: u8, index: int)
    ensures
        CometParams::accepts(0, value) <==> 4 <= value <= 120,
        CometParams::accepts(1, value),
        CometParams::accepts(2, value),
        CometParams::accepts(3, value) <==> value <= 80,
        CometParams::accepts(4, value) <==> 4 <= value <= 40,
        CometParams::accepts(5, value) <==> 4 <= value,
        index < 0 || index > 5 ==> !CometParams::accepts(index, value),
        params.param(0) == params.lag,
        params.param(1) == params.pace,
        params.param(2) == params.momentum,
        params.param(3) == params.trail,
        params.param(4) == params.head,
        params.param(5) == params.linger,
{
}

/// A new comet is tuned to a lag of 320 milliseconds at the nominal pace, most
/// of it given back on short hops, a little more momentum than it has, a trail
/// of 200 milliseconds, a head of 14 and a fade of 800 milliseconds.
pub proof fn law_a_new_comet_is_tuned(params: CometParams)
    ensures
        comet_defaults().lag == 32 && comet_defaults().pace == 200 && comet_defaults().momentum
            == 168,
        comet_defaults().trail == 20 && comet_defaults().head == 14 && comet_defaults().linger
            == 80,
        CometModel::fresh(params).params == params,
        CometModel::fresh(params).last_timer_ms == 0,
{
}

/// Each control is listed to a host under its own name.
pub proof fn law_each_control_has_its_name()
    ensures
        CometParams::NAMES@ == seq![
            "Lag x10ms",
            "Distance pace",
            "Momentum",
            "Trail x10ms",
            "Head size",
            "Linger x10ms",
        ],
{
}

} // verus!
