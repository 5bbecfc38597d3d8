//! RAIN: particles falling down the board, each with a fading trail.
//!
//! How busy it looks is set by [`RainParams`]: the spawn cadence and the
//! number of slots together decide how many drops are airborne. Each drop owns
//! a column (a random x position) and a head that sweeps from the top of the
//! board to below it; LEDs the head has passed form a trail that decays with
//! distance behind the head. LEDs outside every drop's column stay dark.
use vstd::prelude::*;

use super::{clock_rewound, due, FrameParams};
use crate::bytes;
use crate::bytes::{ByteSource, FnBytes, Pcg32, PcgBytes};
use crate::color::Hsv;
use crate::layout::LedLayout;
use crate::math;
use crate::math::{abs_diff, scale16by8, scale8};

verus! {

/// Drop slots the state always carries.
pub const RAIN_DROPS: usize = 32;

/// A spawn deadline further in the past than this restarts from the current
/// time instead of firing every slot at once.
pub const CADENCE_RESYNC_MS: u32 = 2_000;

/// Slowest a drop may fall, as a fraction of the nominal rate out of 255.
pub const RATE_MIN: u8 = 160;

/// Runtime tuning of the rain. Every field is a byte, so the struct maps onto
/// a host-visible parameter list; [`RainParams::set`] checks the bounds.
#[derive(Copy, Clone, Debug, PartialEq, Eq, Structural)]
pub struct RainParams {
    /// Drop slots allowed to spawn, 1..=32.
    pub drops: u8,
    /// Base delay between spawns, in units of 10 ms.
    pub spawn_interval: u8,
    /// Trail length behind the head, in y-grid units.
    pub trail_len: u8,
    /// Half-width of the column a drop illuminates, in x-grid units.
    pub column_half_width: u8,
    /// Hue of the rain.
    pub rain_hue: u8,
}

impl RainParams {
    /// Milliseconds per unit of the spawn interval.
    pub const SPAWN_INTERVAL_STEP_MS: u32 = 10;

    pub const DROPS_MIN: u8 = 1;

    pub const DROPS_MAX: u8 = 32;

    pub const SPAWN_INTERVAL_MIN: u8 = 1;

    pub const SPAWN_INTERVAL_MAX: u8 = 255;

    pub const TRAIL_LEN_MIN: u8 = 16;

    pub const TRAIL_LEN_MAX: u8 = 255;

    pub const COLUMN_HALF_WIDTH_MIN: u8 = 4;

    pub const COLUMN_HALF_WIDTH_MAX: u8 = 64;

    pub const HUE_MIN: u8 = 0;

    pub const HUE_MAX: u8 = 255;

    pub const HUE_GREEN: u8 = 86;

    pub const HUE_BLUE: u8 = 172;

    /// Parameters the rain advertises.
    pub const RAIN_ONLY_COUNT: u8 = 5;

    /// Number of parameters.
    pub const COUNT: u8 = 5;

    /// Host-facing parameter names, in index order.
    pub const NAMES: [&'static str; 5] = ["Drops", "Spawn x10ms", "Trail", "Width", "Rain hue"];

    /// Inclusive lower bound of each parameter, in index order.
    pub const MINS: [u8; 5] = [
        Self::DROPS_MIN,
        Self::SPAWN_INTERVAL_MIN,
        Self::TRAIL_LEN_MIN,
        Self::COLUMN_HALF_WIDTH_MIN,
        Self::HUE_MIN,
    ];

    /// Inclusive upper bound of each parameter, in index order.
    pub const MAXES: [u8; 5] = [
        Self::DROPS_MAX,
        Self::SPAWN_INTERVAL_MAX,
        Self::TRAIL_LEN_MAX,
        Self::COLUMN_HALF_WIDTH_MAX,
        Self::HUE_MAX,
    ];

    /// Default of each parameter, in index order.
    pub const DEFAULTS: [u8; 5] = [6, 30, 128, 14, Self::HUE_BLUE];

    /// The value of parameter `index`.
    pub open spec fn param(self, index: int) -> u8 {
        if index == 0 {
            self.drops
        } else if index == 1 {
            self.spawn_interval
        } else if index == 2 {
            self.trail_len
        } else if index == 3 {
            self.column_half_width
        } else {
            self.rain_hue
        }
    }

    /// Whether `value` may be given to parameter `index`.
    pub open spec fn accepts(index: int, value: u8) -> bool {
        &&& 0 <= index < Self::COUNT
        &&& Self::MINS[index] <= value <= Self::MAXES[index]
    }

    /// These values with parameter `index` at `value`.
    pub open spec fn with_param(self, index: int, value: u8) -> RainParams {
        if index == 0 {
            RainParams { drops: value, ..self }
        } else if index == 1 {
            RainParams { spawn_interval: value, ..self }
        } else if index == 2 {
            RainParams { trail_len: value, ..self }
        } else if index == 3 {
            RainParams { column_half_width: value, ..self }
        } else {
            RainParams { rain_hue: value, ..self }
        }
    }

    /// Value of one parameter, or `None` when `index` is out of range.
    pub fn get(&self, index: u8) -> (value: Option<u8>)
        ensures
            value == (if index < Self::COUNT {
                Some(self.param(index as int))
            } else {
                None
            }),
    {
        match index {
            0 => Some(self.drops),
            1 => Some(self.spawn_interval),
            2 => Some(self.trail_len),
            3 => Some(self.column_half_width),
            4 => Some(self.rain_hue),
            _ => None,
        }
    }

    /// Sets one parameter. Returns `false`, and leaves the values untouched,
    /// when `index` is out of range or `value` outside its bounds.
    pub fn set(&mut self, index: u8, value: u8) -> (ok: bool)
        ensures
            ok == Self::accepts(index as int, value),
            *final(self) == (if ok {
                old(self).with_param(index as int, value)
            } else {
                *old(self)
            }),
    {
        let i: usize = index as usize;
        if i >= Self::COUNT as usize || value < Self::MINS[i] || value > Self::MAXES[i] {
            return false;
        }
        match index {
            0 => self.drops = value,
            1 => self.spawn_interval = value,
            2 => self.trail_len = value,
            3 => self.column_half_width = value,
            4 => self.rain_hue = value,
            _ => return false,
        }
        true
    }

    /// Drop slots that may spawn.
    pub open spec fn slots(self) -> int {
        math::clamped(self.drops as int, 1, 32)
    }

    /// Trail length the renderer uses.
    pub open spec fn trail(self) -> int {
        math::larger(self.trail_len as int, 1)
    }

    /// Column half-width the renderer uses.
    pub open spec fn half_width(self) -> int {
        math::larger(self.column_half_width as int, 1)
    }

    /// Base spawn delay in milliseconds.
    pub open spec fn interval(self) -> int {
        self.spawn_interval * 10
    }

    /// One spawn delay: the base plus up to half of it.
    pub open spec fn delay(self, entropy: u8) -> int {
        self.interval() + self.interval() * entropy / 512
    }

    /// Base spawn delay in milliseconds.
    pub fn spawn_interval_ms(&self) -> (ms: u32)
        ensures
            ms == self.interval(),
    {
        self.spawn_interval as u32 * Self::SPAWN_INTERVAL_STEP_MS
    }

    /// One spawn delay, its jitter chosen by `entropy`. The jitter scales with
    /// the base, so a short interval is not swamped by it.
    pub fn spawn_delay_ms(&self, entropy: u8) -> (ms: u32)
        ensures
            ms == self.delay(entropy),
            ms <= 3822,
    {
        let base: u32 = self.spawn_interval_ms();
        proof {
            math::lemma_product_bound(base as int, 2550, entropy as int, 255);
        }
        base + base * entropy as u32 / 512
    }

    /// Drop slots that may spawn, clamped into the supported range.
    pub fn active_drops(&self) -> (n: usize)
        ensures
            n == self.slots(),
    {
        if self.drops < Self::DROPS_MIN {
            Self::DROPS_MIN as usize
        } else if self.drops > Self::DROPS_MAX {
            RAIN_DROPS
        } else {
            self.drops as usize
        }
    }
}

/// The tuned defaults.
pub open spec fn rain_defaults() -> RainParams {
    RainParams {
        drops: 6,
        spawn_interval: 30,
        trail_len: 128,
        column_half_width: 14,
        rain_hue: 172,
    }
}

impl Default for RainParams {
    fn default() -> (params: Self)
        ensures
            params == rain_defaults(),
    {
        Self {
            drops: 6,
            spawn_interval: 30,
            trail_len: 128,
            column_half_width: 14,
            rain_hue: Self::HUE_BLUE,
        }
    }
}

/// One particle.
#[derive(Copy, Clone, Debug, PartialEq, Eq, Structural)]
pub struct RainDrop {
    /// Clock when the drop spawned.
    pub spawn_ms: u32,
    /// Its column.
    pub x: u8,
    /// Fraction of the nominal fall rate, 255 being full speed. Varied rates
    /// keep drops born together from expiring together.
    pub rate: u8,
    pub active: bool,
}

/// An empty slot.
pub open spec fn no_drop() -> RainDrop {
    RainDrop { spawn_ms: 0, x: 0, rate: 255, active: false }
}

/// The fall rate that a random byte picks.
pub open spec fn rate_of(entropy: u8) -> u8 {
    (160 + entropy / 3) as u8
}

/// Milliseconds a drop at `rate` takes to fall from the top of the board to
/// `overshoot` past the bottom.
pub open spec fn fall_time(speed: int, overshoot: int, rate: int) -> int {
    2 * (255 + overshoot) * 255 * 256 / math::larger(rate * (1 + speed / 4), 1)
}

/// See [`fall_time`].
pub fn fall_duration_ms(speed: u8, overshoot: u8, rate: u8) -> (ms: u32)
    ensures
        ms == fall_time(speed as int, overshoot as int, rate as int),
        rate >= RATE_MIN ==> ms <= 416_160,
{
    let span: u32 = 2 * (255 + overshoot as u32);
    let per_tick: u32 = 1 + speed as u32 / 4;
    proof {
        math::lemma_product_bound(rate as int, 255, per_tick as int, 64);
    }
    let pace: u32 = rate as u32 * per_tick;
    let divisor: u32 = if pace < 1 {
        1
    } else {
        pace
    };
    let distance: u32 = span * 255 * 256;
    proof {
        assert(pace >= rate) by (nonlinear_arith)
            requires
                pace == rate * per_tick,
                per_tick >= 1,
                rate >= 0,
        ;
        lemma_quotient_bound(distance as int, divisor as int);
    }
    distance / divisor
}

proof fn lemma_quotient_bound(distance: int, divisor: int)
    requires
        0 <= distance <= 66_585_600,
        1 <= divisor,
    ensures
        0 <= distance / divisor <= distance,
        divisor >= 160 ==> distance / divisor <= 416_160,
{
    assert(0 <= distance / divisor <= distance) by (nonlinear_arith)
        requires
            0 <= distance,
            1 <= divisor,
    ;
    if divisor >= 160 {
        assert(distance / divisor <= 416_160) by (nonlinear_arith)
            requires
                0 <= distance <= 66_585_600,
                160 <= divisor,
        ;
    }
}

/// The drop's head, `elapsed` milliseconds into its fall: its distance below
/// the top of the board.
pub open spec fn fallen(elapsed: int, speed: int, rate: int) -> int {
    math::scaled8(elapsed, 1 + speed / 4) * rate / 255 / 2
}

/// Slots being refilled: the drops, the next spawn deadline, and how many
/// random bytes that has taken.
pub struct RainFall {
    pub drops: Seq<RainDrop>,
    pub next_spawn_ms: u32,
    pub used: int,
}

/// The first free slot from `k` up, or `n` when all of `k..n` are taken.
pub open spec fn free_slot(drops: Seq<RainDrop>, k: int, n: int) -> int
    decreases n - k,
{
    if k >= n {
        n
    } else if !drops[k].active {
        k
    } else {
        free_slot(drops, k + 1, n)
    }
}

/// One spawn opportunity: nothing while the deadline lies ahead; otherwise a
/// drop in the first free slot, or, with every slot taken, a new deadline
/// counted from now.
pub open spec fn spawned(fall: RainFall, params: RainParams, now: u32, draws: Seq<u8>) -> RainFall {
    let slot = free_slot(fall.drops, 0, params.slots());
    if !super::is_due(fall.next_spawn_ms, now) {
        fall
    } else if slot == params.slots() {
        RainFall {
            drops: fall.drops,
            next_spawn_ms: super::after(now, math::larger(params.delay(draws[fall.used]), 1)),
            used: fall.used + 1,
        }
    } else {
        RainFall {
            drops: fall.drops.update(
                slot,
                RainDrop {
                    spawn_ms: now,
                    x: draws[fall.used],
                    rate: rate_of(draws[fall.used + 1]),
                    active: true,
                },
            ),
            next_spawn_ms: super::after(
                fall.next_spawn_ms,
                math::larger(params.delay(draws[fall.used + 2]), 1),
            ),
            used: fall.used + 3,
        }
    }
}

/// `n` spawn opportunities in a row.
pub open spec fn spawned_times(
    fall: RainFall,
    params: RainParams,
    now: u32,
    draws: Seq<u8>,
    n: int,
) -> RainFall
    decreases n,
{
    if n <= 0 {
        fall
    } else {
        spawned(spawned_times(fall, params, now, draws, n - 1), params, now, draws)
    }
}

proof fn lemma_spawned_not_due(
    fall: RainFall,
    params: RainParams,
    now: u32,
    draws: Seq<u8>,
    m: int,
    n: int,
)
    requires
        0 <= m <= n,
        !super::is_due(spawned_times(fall, params, now, draws, m).next_spawn_ms, now),
    ensures
        spawned_times(fall, params, now, draws, n) == spawned_times(fall, params, now, draws, m),
    decreases n,
{
    if m < n {
        lemma_spawned_not_due(fall, params, now, draws, m, n - 1);
    }
}

proof fn lemma_spawned_used(
    fall: RainFall,
    params: RainParams,
    now: u32,
    draws: Seq<u8>,
    n: int,
)
    requires
        0 <= n,
    ensures
        fall.used <= spawned_times(fall, params, now, draws, n).used <= fall.used + 3 * n,
    decreases n,
{
    if n > 0 {
        lemma_spawned_used(fall, params, now, draws, n - 1);
    }
}

/// Only the bytes that were used matter.
proof fn lemma_spawned_prefix(
    fall: RainFall,
    params: RainParams,
    now: u32,
    draws: Seq<u8>,
    more: Seq<u8>,
    n: int,
)
    requires
        0 <= n,
        0 <= fall.used,
        draws.len() <= more.len(),
        forall|i: int| 0 <= i < draws.len() ==> draws[i] == more[i],
        spawned_times(fall, params, now, draws, n).used <= draws.len(),
    ensures
        spawned_times(fall, params, now, more, n) == spawned_times(fall, params, now, draws, n),
    decreases n,
{
    if n > 0 {
        lemma_spawned_used(fall, params, now, draws, n - 1);
        lemma_spawned_prefix(fall, params, now, draws, more, n - 1);
    }
}

/// What a [`RainState`] holds.
pub struct RainModel {
    pub drops: Seq<RainDrop>,
    pub next_spawn_ms: u32,
    pub last_timer_ms: u32,
    pub initialized: bool,
    pub params: RainParams,
}

impl RainModel {
    /// The state a new effect starts in.
    pub open spec fn fresh(params: RainParams) -> RainModel {
        RainModel {
            drops: Seq::new(32, |k: int| no_drop()),
            next_spawn_ms: 0,
            last_timer_ms: 0,
            initialized: false,
            params,
        }
    }

    /// Whether the frame at `now` starts the rain over: the first one does,
    /// and one whose clock jumped backward.
    pub open spec fn restarts(self, now: u32) -> bool {
        !self.initialized || super::rewound(self.last_timer_ms, now)
    }

    /// Slot `k` after starting over: the slots are filled as though it had
    /// been raining, spread evenly down the fall.
    pub open spec fn primed_drop(self, frame: FrameParams<'_>, draws: Seq<u8>, k: int) -> RainDrop {
        let spread = fall_time(frame.speed as int, self.params.trail(), RATE_MIN as int);
        RainDrop {
            spawn_ms: super::before(frame.timer_ms, spread * k / self.params.slots()),
            x: draws[2 * k + 1],
            rate: rate_of(draws[2 * k]),
            active: true,
        }
    }

    /// The slots as a frame finds them: filled when the rain starts over,
    /// otherwise as they were.
    pub open spec fn entered(self, frame: FrameParams<'_>, draws: Seq<u8>) -> RainFall {
        if self.restarts(frame.timer_ms) {
            RainFall {
                drops: Seq::new(
                    32,
                    |k: int|
                        if k < self.params.slots() {
                            self.primed_drop(frame, draws, k)
                        } else {
                            self.drops[k]
                        },
                ),
                next_spawn_ms: frame.timer_ms,
                used: 2 * self.params.slots(),
            }
        } else {
            RainFall { drops: self.drops, next_spawn_ms: self.next_spawn_ms, used: 0 }
        }
    }

    /// The slots before spawning: a deadline left far behind restarts from
    /// now.
    pub open spec fn resynced(self, frame: FrameParams<'_>, draws: Seq<u8>) -> RainFall {
        let fall = self.entered(frame, draws);
        if super::is_due(fall.next_spawn_ms, frame.timer_ms) && math::ticks_since(
            frame.timer_ms,
            fall.next_spawn_ms,
        ) > CADENCE_RESYNC_MS {
            RainFall { next_spawn_ms: frame.timer_ms, ..fall }
        } else {
            fall
        }
    }

    /// The slots after spawning, one opportunity per slot.
    pub open spec fn refilled(self, frame: FrameParams<'_>, draws: Seq<u8>) -> RainFall {
        spawned_times(
            self.resynced(frame, draws),
            self.params,
            frame.timer_ms,
            draws,
            self.params.slots(),
        )
    }

    /// Whether `drop` is still airborne at this frame: its trail has not
    /// cleared the board.
    pub open spec fn airborne(self, drop: RainDrop, frame: FrameParams<'_>) -> bool {
        let elapsed = math::ticks_since(frame.timer_ms, drop.spawn_ms);
        &&& drop.active
        &&& elapsed <= 65535
        &&& fallen(elapsed, frame.speed as int, drop.rate as int) <= 255 + self.params.trail()
    }

    /// `drop` after this frame.
    pub open spec fn settled(self, drop: RainDrop, frame: FrameParams<'_>) -> RainDrop {
        RainDrop { active: self.airborne(drop, frame), ..drop }
    }

    /// The state after a frame that drew `draws`.
    pub open spec fn rained(self, frame: FrameParams<'_>, draws: Seq<u8>) -> RainModel {
        let fall = self.refilled(frame, draws);
        RainModel {
            drops: fall.drops.map_values(|drop: RainDrop| self.settled(drop, frame)),
            next_spawn_ms: fall.next_spawn_ms,
            last_timer_ms: frame.timer_ms,
            initialized: true,
            params: self.params,
        }
    }

    /// How brightly `drop` lights the LED at `led`: full at its head, fading
    /// along the trail and across the column, and 0 outside them.
    pub open spec fn light(self, drop: RainDrop, frame: FrameParams<'_>, led: (u8, u8)) -> int {
        let head = fallen(
            math::ticks_since(frame.timer_ms, drop.spawn_ms),
            frame.speed as int,
            drop.rate as int,
        );
        let behind = head - led.1;
        let aside = math::distance(led.0 as int, drop.x as int);
        if !self.airborne(drop, frame) || aside >= self.params.half_width() || behind < 0 || behind
            > self.params.trail() {
            0
        } else {
            math::scaled8(
                255 - behind * 255 / self.params.trail(),
                255 - aside * 255 / self.params.half_width(),
            )
        }
    }

    /// The brightest of the first `n` drops at `led`.
    pub open spec fn brightest(self, frame: FrameParams<'_>, led: (u8, u8), n: int) -> int
        decreases n,
    {
        if n <= 0 {
            0
        } else {
            math::larger(
                self.brightest(frame, led, n - 1),
                self.light(self.drops[n - 1], frame, led),
            )
        }
    }

    /// The color of the LED at `led`.
    pub open spec fn pixel(self, frame: FrameParams<'_>, led: (u8, u8)) -> Hsv {
        Hsv {
            h: self.params.rain_hue,
            s: frame.sat,
            v: math::scaled8(self.brightest(frame, led, 32), frame.val as int) as u8,
        }
    }

    /// The frame buffer `out` with every LED of the layout painted.
    pub open spec fn painted(self, frame: FrameParams<'_>, leds: Seq<(u8, u8)>, out: Seq<Hsv>) -> Seq<
        Hsv,
    > {
        Seq::new(
            out.len(),
            |i: int|
                if i < leds.len() {
                    self.pixel(frame, leds[i])
                } else {
                    out[i]
                },
        )
    }
}

/// The rain effect: its drops, its spawn deadline and its tuning.
pub struct RainState {
    drops: [RainDrop; 32],
    next_spawn_ms: u32,
    last_timer_ms: u32,
    initialized: bool,
    params: RainParams,
}

impl View for RainState {
    type V = RainModel;

    closed spec fn view(&self) -> RainModel {
        RainModel {
            drops: self.drops@,
            next_spawn_ms: self.next_spawn_ms,
            last_timer_ms: self.last_timer_ms,
            initialized: self.initialized,
            params: self.params,
        }
    }
}

impl Default for RainState {
    fn default() -> (state: Self)
        ensures
            state@ == RainModel::fresh(rain_defaults()),
    {
        Self::new()
    }
}

impl RainState {
    pub fn new() -> (state: Self)
        ensures
            state@ == RainModel::fresh(rain_defaults()),
    {
        Self::with_params(RainParams::default())
    }

    /// State pre-tuned with `params`.
    pub fn with_params(params: RainParams) -> (state: Self)
        ensures
            state@ == RainModel::fresh(params),
    {
        let drops: [RainDrop; 32] = [RainDrop { spawn_ms: 0, x: 0, rate: 255, active: false };32];
        assert(drops@ =~= Seq::new(32, |k: int| no_drop()));
        Self { drops, next_spawn_ms: 0, last_timer_ms: 0, initialized: false, params }
    }

    /// Retunes a running effect. Drops already in flight keep falling.
    pub fn set_params(&mut self, params: RainParams)
        ensures
            final(self)@ == (RainModel { params, ..old(self)@ }),
    {
        self.params = params;
    }

    /// The tuning currently in effect.
    pub fn params(&self) -> (params: RainParams)
        ensures
            params == self@.params,
    {
        self.params
    }

    /// Fills the slots when this frame starts the rain over, and brings a
    /// stale deadline forward.
    fn enter<B: ByteSource>(&mut self, frame: FrameParams<'_>, rng: &mut B)
        requires
            old(rng).ready(),
            old(rng).drawn().len() == 0,
        ensures
            final(rng).ready(),
            final(rng).origin() == old(rng).origin(),
            final(rng).drawn().len() == old(self)@.resynced(frame, final(rng).drawn()).used,
            ({
                let fall = old(self)@.resynced(frame, final(rng).drawn());
                final(self)@ == RainModel {
                    drops: fall.drops,
                    next_spawn_ms: fall.next_spawn_ms,
                    last_timer_ms: frame.timer_ms,
                    initialized: true,
                    params: old(self)@.params,
                }
            }),
    {
        let now: u32 = frame.timer_ms;
        let ghost start = self@;
        let restart: bool = !self.initialized || clock_rewound(self.last_timer_ms, now);
        self.last_timer_ms = now;
        self.initialized = true;
        if restart {
            self.next_spawn_ms = now;
            let slots: usize = self.params.active_drops();
            let overshoot: u8 = if self.params.trail_len < 1 {
                1
            } else {
                self.params.trail_len
            };
            let spread: u32 = fall_duration_ms(frame.speed, overshoot, RATE_MIN);
            let mut slot: usize = 0;
            while slot < slots
                invariant
                    slot <= slots <= 32,
                    slots == start.params.slots(),
                    spread == fall_time(frame.speed as int, start.params.trail(), RATE_MIN as int),
                    spread <= 416_160,
                    now == frame.timer_ms,
                    rng.ready(),
                    rng.origin() == old(rng).origin(),
                    rng.drawn().len() == 2 * slot,
                    self.params == start.params,
                    self.next_spawn_ms == now,
                    self.last_timer_ms == now,
                    self.initialized,
                    start.drops.len() == 32,
                    forall|k: int| 0 <= k < slot ==> #[trigger] self.drops@[k] == start.primed_drop(frame, rng.drawn(), k),
                    forall|k: int| slot <= k < 32 ==> #[trigger] self.drops@[k] == start.drops[k],
                decreases slots - slot,
            {
                let rate: u8 = RATE_MIN + rng.next_byte() / 3;
                proof {
                    math::lemma_product_bound(spread as int, 416_160, slot as int, 32);
                }
                let age: u32 = spread * slot as u32 / slots as u32;
                let x: u8 = rng.next_byte();
                self.drops[slot] = RainDrop { spawn_ms: now.wrapping_sub(age), x, rate, active: true };
                slot += 1;
            }
            proof {
                assert(self.drops@ =~= start.entered(frame, rng.drawn()).drops);
            }
        }
        if due(self.next_spawn_ms, now) && now.wrapping_sub(self.next_spawn_ms) > CADENCE_RESYNC_MS {
            self.next_spawn_ms = now;
        }
    }

    /// The first free slot among the first `slots`, or `slots`.
    fn first_free(&self, slots: usize) -> (k: usize)
        requires
            slots <= 32,
        ensures
            k == free_slot(self@.drops, 0, slots as int),
            k <= slots,
    {
        let mut k: usize = 0;
        while k < slots && self.drops[k].active
            invariant
                k <= slots <= 32,
                free_slot(self@.drops, 0, slots as int) == free_slot(
                    self@.drops,
                    k as int,
                    slots as int,
                ),
            decreases slots - k,
        {
            k += 1;
        }
        k
    }

    /// Spawns drops while the deadline is behind. Each pass fills one slot, so
    /// the slot count bounds the loop.
    #[verifier::spinoff_prover]
    #[verifier::rlimit(40)]
    fn refill<B: ByteSource>(&mut self, frame: FrameParams<'_>, rng: &mut B)
        requires
            old(rng).ready(),
        ensures
            final(rng).ready(),
            final(rng).origin() == old(rng).origin(),
            old(rng).drawn().is_prefix_of(final(rng).drawn()),
            ({
                let fall = spawned_times(
                    RainFall {
                        drops: old(self)@.drops,
                        next_spawn_ms: old(self)@.next_spawn_ms,
                        used: old(rng).drawn().len() as int,
                    },
                    old(self)@.params,
                    frame.timer_ms,
                    final(rng).drawn(),
                    old(self)@.params.slots(),
                );
                &&& final(rng).drawn().len() == fall.used
                &&& final(self)@ == RainModel {
                    drops: fall.drops,
                    next_spawn_ms: fall.next_spawn_ms,
                    ..old(self)@
                }
            }),
    {
        let now: u32 = frame.timer_ms;
        let slots: usize = self.params.active_drops();
        let ghost begin = self@;
        let ghost start = RainFall {
            drops: self@.drops,
            next_spawn_ms: self@.next_spawn_ms,
            used: rng.drawn().len() as int,
        };
        let mut pass: usize = 0;
        while pass < slots && due(self.next_spawn_ms, now)
            invariant
                pass <= slots <= 32,
                slots == begin.params.slots(),
                now == frame.timer_ms,
                rng.ready(),
                rng.origin() == old(rng).origin(),
                start.used == old(rng).drawn().len(),
                old(rng).drawn().is_prefix_of(rng.drawn()),
                self@ == (RainModel {
                    drops: self@.drops,
                    next_spawn_ms: self@.next_spawn_ms,
                    ..begin
                }),
                spawned_times(start, begin.params, now, rng.drawn(), pass as int) == (RainFall {
                    drops: self@.drops,
                    next_spawn_ms: self@.next_spawn_ms,
                    used: rng.drawn().len() as int,
                }),
            decreases slots - pass,
        {
            let ghost draws = rng.drawn();
            let slot: usize = self.first_free(slots);
            if slot == slots {
                let delay: u32 = self.params.spawn_delay_ms(rng.next_byte());
                proof {
                    lemma_spawned_prefix(start, begin.params, now, draws, rng.drawn(), pass as int);
                }
                self.next_spawn_ms = now.wrapping_add(if delay < 1 {
                    1
                } else {
                    delay
                });
            } else {
                let x: u8 = rng.next_byte();
                let rate: u8 = RATE_MIN + rng.next_byte() / 3;
                self.drops[slot] = RainDrop { spawn_ms: now, x, rate, active: true };
                let delay: u32 = self.params.spawn_delay_ms(rng.next_byte());
                proof {
                    lemma_spawned_prefix(start, begin.params, now, draws, rng.drawn(), pass as int);
                }
                self.next_spawn_ms = self.next_spawn_ms.wrapping_add(if delay < 1 {
                    1
                } else {
                    delay
                });
            }
            pass += 1;
        }
        proof {
            if pass < slots {
                lemma_spawned_not_due(
                    start,
                    begin.params,
                    now,
                    rng.drawn(),
                    pass as int,
                    slots as int,
                );
            }
        }
    }

    /// Where the drop's head is, or `None` once its trail has cleared the
    /// board.
    fn head(&self, drop: RainDrop, frame: FrameParams<'_>) -> (head: Option<u16>)
        ensures
            head is Some <==> self@.airborne(drop, frame),
            head matches Some(y) ==> y == fallen(
                math::ticks_since(frame.timer_ms, drop.spawn_ms),
                frame.speed as int,
                drop.rate as int,
            ) && y <= 510,
    {
        if !drop.active {
            return None;
        }
        let elapsed: u32 = frame.timer_ms.wrapping_sub(drop.spawn_ms);
        if elapsed > 65535 {
            return None;
        }
        let nominal: u16 = scale16by8(elapsed as u16, 1 + frame.speed / 4);
        proof {
            math::lemma_product_bound(nominal as int, 65535, drop.rate as int, 255);
        }
        let y: u32 = nominal as u32 * drop.rate as u32 / 255 / 2;
        let trail: u32 = if self.params.trail_len < 1 {
            1
        } else {
            self.params.trail_len as u32
        };
        if y > 255 + trail {
            None
        } else {
            Some(y as u16)
        }
    }

    /// Retires the drops that have left the board.
    fn settle(&mut self, frame: FrameParams<'_>)
        ensures
            final(self)@ == (RainModel {
                drops: old(self)@.drops.map_values(
                    |drop: RainDrop| old(self)@.settled(drop, frame),
                ),
                ..old(self)@
            }),
    {
        let mut slot: usize = 0;
        while slot < RAIN_DROPS
            invariant
                slot <= 32,
                old(self)@.drops.len() == 32,
                self@ == (RainModel { drops: self@.drops, ..old(self)@ }),
                forall|k: int| 0 <= k < slot ==> #[trigger] self@.drops[k] == old(self)@.settled(old(self)@.drops[k], frame),
                forall|k: int| slot <= k < 32 ==> #[trigger] self@.drops[k] == old(self)@.drops[k],
            decreases 32 - slot,
        {
            let drop: RainDrop = self.drops[slot];
            let active: bool = self.head(drop, frame).is_some();
            self.drops[slot] = RainDrop { active, ..drop };
            slot += 1;
        }
        assert(self@.drops =~= old(self)@.drops.map_values(
            |drop: RainDrop| old(self)@.settled(drop, frame),
        ));
    }

    /// How brightly `drop` lights the LED at `(lx, ly)`.
    fn drop_light(&self, drop: RainDrop, frame: FrameParams<'_>, lx: u8, ly: u8) -> (light: u8)
        ensures
            light == self@.light(drop, frame, (lx, ly)),
    {
        let head: u16 = match self.head(drop, frame) {
            Some(head) => head,
            None => return 0,
        };
        let half_width: u16 = if self.params.column_half_width < 1 {
            1
        } else {
            self.params.column_half_width as u16
        };
        let trail: u16 = if self.params.trail_len < 1 {
            1
        } else {
            self.params.trail_len as u16
        };
        let aside: u16 = abs_diff(lx, drop.x) as u16;
        if aside >= half_width || head < ly as u16 || head - ly as u16 > trail {
            return 0;
        }
        let behind: u16 = head - ly as u16;
        proof {
            lemma_share_of_255(behind as int, trail as int);
            lemma_share_of_255(aside as int, half_width as int);
        }
        let along: u8 = 255 - (behind * 255 / trail) as u8;
        let across: u8 = 255 - (aside * 255 / half_width) as u8;
        scale8(along, across)
    }

    /// Paints every LED of the layout.
    fn paint<L: LedLayout>(&self, layout: &L, frame: FrameParams<'_>, out: &mut [Hsv])
        ensures
            final(out)@ == self@.painted(frame, layout.leds(), old(out)@),
    {
        let count: usize = layout.count();
        let len: usize = out.len();
        let mut i: usize = 0;
        while i < len && i < count
            invariant
                i <= len,
                i <= count,
                len == out@.len(),
                len == old(out)@.len(),
                count == layout.leds().len(),
                forall|j: int| 0 <= j < i ==> out@[j] == self@.pixel(frame, layout.leds()[j]),
                forall|j: int| i <= j < len ==> out@[j] == old(out)@[j],
            decreases len - i,
        {
            let (lx, ly) = layout.position(i);
            let mut intensity: u8 = 0;
            let mut slot: usize = 0;
            while slot < RAIN_DROPS
                invariant
                    slot <= 32,
                    intensity == self@.brightest(frame, (lx, ly), slot as int),
                decreases 32 - slot,
            {
                let light: u8 = self.drop_light(self.drops[slot], frame, lx, ly);
                if light > intensity {
                    intensity = light;
                }
                slot += 1;
            }
            out[i] = Hsv { h: self.params.rain_hue, s: frame.sat, v: scale8(intensity, frame.val) };
            i += 1;
        }
        assert(out@ =~= self@.painted(frame, layout.leds(), old(out)@));
    }

    /// One frame's worth of spawning and falling.
    fn advance<B: ByteSource>(&mut self, frame: FrameParams<'_>, rng: &mut B)
        requires
            old(rng).ready(),
            old(rng).drawn().len() == 0,
        ensures
            final(rng).ready(),
            final(rng).origin() == old(rng).origin(),
            final(rng).drawn().len() == old(self)@.refilled(frame, final(rng).drawn()).used,
            final(self)@ == old(self)@.rained(frame, final(rng).drawn()),
    {
        let ghost begin = self@;
        self.enter(frame, rng);
        let ghost draws = rng.drawn();
        self.refill(frame, rng);
        proof {
            lemma_resynced_prefix(begin, frame, draws, rng.drawn());
        }
        self.settle(frame);
        assert(self@.drops =~= begin.rained(frame, rng.drawn()).drops);
    }

    /// Ticks the rain. `rng` should return bytes uniformly over 0..=255. A
    /// drop that spawns takes three: its column, its fall rate and the jitter
    /// of the next spawn. A frame that starts the rain over first takes two
    /// per slot, the fall rate and the column. A spawn that is due while every
    /// slot is taken takes one, the jitter of the next attempt.
    pub fn tick<L, R>(&mut self, layout: &L, params: FrameParams<'_>, rng: R, out: &mut [Hsv]) where
        L: LedLayout,
        R: FnMut() -> u8,

        requires
            call_requires(rng, ()),
        ensures
            exists|draws: Seq<u8>|
                {
                    &&& bytes::returned_by(rng, draws)
                    &&& draws.len() == old(self)@.refilled(params, draws).used
                    &&& final(self)@ == #[trigger] old(self)@.rained(params, draws)
                },
            final(out)@ == final(self)@.painted(params, layout.leds(), old(out)@),
    {
        let mut source = FnBytes::new(rng);
        self.advance(params, &mut source);
        proof {
            source.lemma_drawn();
        }
        self.paint(layout, params, out);
    }

    /// [`RainState::tick`] with the bytes of a generator.
    pub fn tick_with_rng<L: LedLayout>(
        &mut self,
        rng: &mut Pcg32,
        layout: &L,
        params: FrameParams<'_>,
        out: &mut [Hsv],
    )
        ensures
            final(self)@ == old(self)@.rained(params, old(rng).bytes(MOST_DRAWS as int)),
            *final(rng) == old(rng).advanced(
                old(self)@.refilled(params, old(rng).bytes(MOST_DRAWS as int)).used,
            ),
            final(out)@ == final(self)@.painted(params, layout.leds(), old(out)@),
    {
        let ghost begin = self@;
        let mut source = PcgBytes::new(*rng);
        self.advance(params, &mut source);
        *rng = source.generator();
        proof {
            lemma_refilled_used(begin, params, source.drawn());
            lemma_rained_prefix(begin, params, source.drawn(), old(rng).bytes(MOST_DRAWS as int));
        }
        self.paint(layout, params, out);
    }

    /// State with exactly one drop and spawning held off, to watch a single
    /// trail.
    pub fn with_single_drop(x: u8, spawn_ms: u32) -> (state: Self)
        ensures
            state@ == (RainModel {
                drops: Seq::new(
                    32,
                    |k: int|
                        if k == 0 {
                            RainDrop { spawn_ms, x, rate: 255, active: true }
                        } else {
                            no_drop()
                        },
                ),
                next_spawn_ms: super::after(spawn_ms, 1_000_000),
                last_timer_ms: spawn_ms,
                initialized: true,
                params: rain_defaults(),
            }),
    {
        let mut state = Self::new();
        state.initialized = true;
        state.last_timer_ms = spawn_ms;
        state.drops[0] = RainDrop { spawn_ms, x, rate: 255, active: true };
        state.next_spawn_ms = spawn_ms.wrapping_add(1_000_000);
        assert(state@.drops =~= Seq::new(
            32,
            |k: int|
                if k == 0 {
                    RainDrop { spawn_ms, x, rate: 255, active: true }
                } else {
                    no_drop()
                },
        ));
        state
    }

    /// Number of airborne drops.
    pub fn active_drop_count(&self) -> (n: usize)
        ensures
            n == active_among(self@.drops, 32),
    {
        let mut n: usize = 0;
        let mut slot: usize = 0;
        while slot < RAIN_DROPS
            invariant
                slot <= 32,
                n == active_among(self@.drops, slot as int),
                n <= slot,
            decreases 32 - slot,
        {
            if self.drops[slot].active {
                n += 1;
            }
            slot += 1;
        }
        n
    }
}

/// Most bytes one frame can draw: two per slot to fill the board and three
/// per spawn.
pub const MOST_DRAWS: usize = 160;

/// How many of the first `n` slots hold an airborne drop.
pub open spec fn active_among(drops: Seq<RainDrop>, n: int) -> int
    decreases n,
{
    if n <= 0 {
        0
    } else {
        active_among(drops, n - 1) + if drops[n - 1].active {
            1int
        } else {
            0int
        }
    }
}

proof fn lemma_share_of_255(part: int, whole: int)
    requires
        0 <= part <= whole,
        1 <= whole,
    ensures
        0 <= part * 255 / whole <= 255,
{
    assert(0 <= part * 255 / whole <= 255) by (nonlinear_arith)
        requires
            0 <= part <= whole,
            1 <= whole,
    ;
}

proof fn lemma_resynced_prefix(
    model: RainModel,
    frame: FrameParams<'_>,
    draws: Seq<u8>,
    more: Seq<u8>,
)
    requires
        draws.len() >= model.resynced(frame, draws).used,
        draws.is_prefix_of(more),
    ensures
        model.resynced(frame, more) == model.resynced(frame, draws),
{
    assert(forall|i: int| 0 <= i < draws.len() ==> draws[i] == more[i]);
    assert(model.entered(frame, more).drops =~= model.entered(frame, draws).drops);
}

proof fn lemma_refilled_used(model: RainModel, frame: FrameParams<'_>, draws: Seq<u8>)
    ensures
        0 <= model.refilled(frame, draws).used <= MOST_DRAWS,
{
    lemma_spawned_used(
        model.resynced(frame, draws),
        model.params,
        frame.timer_ms,
        draws,
        model.params.slots(),
    );
}

/// What a frame does depends only on the bytes that it used.
proof fn lemma_rained_prefix(
    model: RainModel,
    frame: FrameParams<'_>,
    draws: Seq<u8>,
    more: Seq<u8>,
)
    requires
        draws.is_prefix_of(more),
        draws.len() == model.refilled(frame, draws).used,
    ensures
        model.refilled(frame, more) == model.refilled(frame, draws),
        model.rained(frame, more) == model.rained(frame, draws),
{
    lemma_spawned_used(
        model.resynced(frame, draws),
        model.params,
        frame.timer_ms,
        draws,
        model.params.slots(),
    );
    lemma_resynced_prefix(model, frame, draws, more);
    assert(forall|i: int| 0 <= i < draws.len() ==> draws[i] == more[i]);
    lemma_spawned_prefix(
        model.resynced(frame, draws),
        model.params,
        frame.timer_ms,
        draws,
        more,
        model.params.slots(),
    );
}

/// Setting a parameter and reading it back gives the value, every other
/// parameter keeps its own.
pub proof fn law_set_then_get(params: RainParams, index: int, value: u8, other: int)
    requires
        0 <= index < RainParams::COUNT,
        0 <= other < RainParams::COUNT,
    ensures
        params.with_param(index, value).param(index) == value,
        other != index ==> params.with_param(index, value).param(other) == params.param(other),
{
}

/// The advertised defaults are the values a new state is tuned to, and every
/// one of them is within its bounds.
pub proof fn law_defaults_are_advertised(index: int)
    requires
        0 <= index < RainParams::COUNT,
    ensures
        rain_defaults().param(index) == RainParams::DEFAULTS[index],
        RainParams::accepts(index, RainParams::DEFAULTS[index]),
{
}

/// Jitter adds at most half of the base delay, at every cadence.
pub proof fn law_jitter_is_proportional(params: RainParams, entropy: u8)
    ensures
        params.interval() <= params.delay(entropy) <= params.interval() + params.interval() / 2,
{
    let base = params.interval();
    assert(0 <= base * entropy <= base * 255) by (nonlinear_arith)
        requires
            0 <= base,
            0 <= entropy <= 255,
    ;
}

/// An LED outside every airborne drop's column stays dark.
pub proof fn law_off_column_is_dark(model: RainModel, frame: FrameParams<'_>, led: (u8, u8))
    requires
        model.drops.len() == 32,
        forall|k: int|
            0 <= k < 32 && model.airborne(#[trigger] model.drops[k], frame) ==> math::distance(
                led.0 as int,
                model.drops[k].x as int,
            ) >= model.params.half_width(),
    ensures
        model.pixel(frame, led).v == 0,
{
    lemma_dark(model, frame, led, 32);
}

proof fn lemma_dark(model: RainModel, frame: FrameParams<'_>, led: (u8, u8), n: int)
    requires
        0 <= n <= model.drops.len(),
        forall|k: int| 0 <= k < n ==> model.light(#[trigger] model.drops[k], frame, led) == 0,
    ensures
        model.brightest(frame, led, n) == 0,
    decreases n,
{
    if n > 0 {
        lemma_dark(model, frame, led, n - 1);
    }
}

/// Nearer the head is never dimmer: of two LEDs in one column that a drop's
/// head has passed, the lower one is lit at least as brightly.
pub proof fn law_head_outshines_trail(
    model: RainModel,
    drop: RainDrop,
    frame: FrameParams<'_>,
    x: u8,
    upper: u8,
    lower: u8,
)
    requires
        upper <= lower,
        model.light(drop, frame, (x, lower)) > 0,
    ensures
        model.light(drop, frame, (x, upper)) <= model.light(drop, frame, (x, lower)),
{
    let head = fallen(
        math::ticks_since(frame.timer_ms, drop.spawn_ms),
        frame.speed as int,
        drop.rate as int,
    );
    let near = head - lower;
    let far = head - upper;
    let trail = model.params.trail();
    let aside = math::distance(x as int, drop.x as int);
    if far <= trail {
        assert(near * 255 / trail <= far * 255 / trail) by (nonlinear_arith)
            requires
                0 <= near <= far,
                1 <= trail,
        ;
        lemma_share_of_255(near, trail);
        lemma_share_of_255(far, trail);
        lemma_share_of_255(aside, model.params.half_width());
        let across = 255 - aside * 255 / model.params.half_width();
        math::law_scale8_is_monotone(
            255 - far * 255 / trail,
            255 - near * 255 / trail,
            across,
            across,
        );
    }
}

/// The slot ceiling holds: a slot beyond the tuned count is never filled, it
/// only drains.
pub proof fn law_surplus_slots_only_drain(
    model: RainModel,
    frame: FrameParams<'_>,
    draws: Seq<u8>,
    k: int,
)
    requires
        model.drops.len() == 32,
        model.params.slots() <= k < 32,
    ensures
        model.rained(frame, draws).drops.len() == 32,
        model.rained(frame, draws).drops[k].active ==> model.drops[k].active,
{
    let fall = model.resynced(frame, draws);
    lemma_spawned_keeps(fall, model.params, frame.timer_ms, draws, model.params.slots(), k);
}

proof fn lemma_free_slot(drops: Seq<RainDrop>, k: int, n: int)
    requires
        k <= n,
    ensures
        k <= free_slot(drops, k, n) <= n,
        free_slot(drops, k, n) < n ==> !drops[free_slot(drops, k, n)].active,
    decreases n - k,
{
    if k < n && drops[k].active {
        lemma_free_slot(drops, k + 1, n);
    }
}

/// Spawning keeps every drop in flight and never reaches past the slots.
proof fn lemma_spawned_keeps(
    fall: RainFall,
    params: RainParams,
    now: u32,
    draws: Seq<u8>,
    n: int,
    k: int,
)
    requires
        fall.drops.len() == 32,
        0 <= k < 32,
    ensures
        spawned_times(fall, params, now, draws, n).drops.len() == 32,
        fall.drops[k].active || k >= params.slots() ==> spawned_times(
            fall,
            params,
            now,
            draws,
            n,
        ).drops[k] == fall.drops[k],
    decreases n,
{
    if n > 0 {
        lemma_spawned_keeps(fall, params, now, draws, n - 1, k);
        lemma_free_slot(
            spawned_times(fall, params, now, draws, n - 1).drops,
            0,
            params.slots(),
        );
    }
}

/// The rain comes back after the clock jumped backward, as it starts at
/// first: such a frame leaves a drop airborne that spawned at the frame's own
/// time.
pub proof fn law_rain_restarts(model: RainModel, frame: FrameParams<'_>, draws: Seq<u8>)
    requires
        model.drops.len() == 32,
        model.restarts(frame.timer_ms),
    ensures
        model.rained(frame, draws).drops.len() == 32,
        model.rained(frame, draws).drops[0].active,
        model.rained(frame, draws).drops[0].spawn_ms == frame.timer_ms,
{
    let fall = model.resynced(frame, draws);
    let slots = model.params.slots();
    let first = model.primed_drop(frame, draws, 0);
    assert(0int / slots == 0) by (nonlinear_arith)
        requires
            slots >= 1,
    ;
    assert(fall.drops[0] == first);
    lemma_spawned_keeps(fall, model.params, frame.timer_ms, draws, slots, 0);
    let refilled = model.refilled(frame, draws);
    assert(refilled.drops[0] == first);
    let spread = fall_time(frame.speed as int, model.params.trail(), RATE_MIN as int);
    assert(spread * 0 == 0);
    assert(first.spawn_ms == frame.timer_ms);
    assert(0 * (1 + (1 + frame.speed as int / 4)) == 0);
    assert(math::scaled8(0, 1 + frame.speed as int / 4) == 0);
    assert(0 * (first.rate as int) == 0);
    assert(model.airborne(first, frame));
}

/// Starting over never leaves the next spawn stranded: its deadline is at most
/// one delay past the frame's own time, or already due.
pub proof fn law_spawning_is_never_stranded(
    model: RainModel,
    frame: FrameParams<'_>,
    draws: Seq<u8>,
)
    requires
        model.restarts(frame.timer_ms),
    ensures
        ({
            let deadline = model.rained(frame, draws).next_spawn_ms;
            super::is_due(deadline, frame.timer_ms) || math::ticks_since(deadline, frame.timer_ms) <= 3825
        }),
{
    let fall = model.resynced(frame, draws);
    lemma_deadline(fall, model.params, frame.timer_ms, draws, model.params.slots());
}

proof fn lemma_pushed_deadline(deadline: u32, now: u32, delay: int)
    requires
        super::is_due(deadline, now),
        0 <= delay <= 3825,
    ensures
        super::is_due(super::after(deadline, delay), now) || math::ticks_since(super::after(deadline, delay), now)
            <= 3825,
{
    let behind = math::ticks_since(now, deadline);
    let pushed = super::after(deadline, delay);
    if delay <= behind {
        assert(math::ticks_since(now, pushed) == behind - delay);
    } else {
        assert(math::ticks_since(pushed, now) == delay - behind);
    }
}

proof fn lemma_deadline(
    fall: RainFall,
    params: RainParams,
    now: u32,
    draws: Seq<u8>,
    n: int,
)
    requires
        super::is_due(fall.next_spawn_ms, now),
        0 <= n,
    ensures
        ({
            let deadline = spawned_times(fall, params, now, draws, n).next_spawn_ms;
            super::is_due(deadline, now) || math::ticks_since(deadline, now) <= 3825
        }),
    decreases n,
{
    if n > 0 {
        lemma_deadline(fall, params, now, draws, n - 1);
        let before = spawned_times(fall, params, now, draws, n - 1);
        if super::is_due(before.next_spawn_ms, now) {
            law_jitter_is_proportional(params, draws[before.used]);
            law_jitter_is_proportional(params, draws[before.used + 2]);
            let saturated = math::larger(params.delay(draws[before.used]), 1);
            let cadence = math::larger(params.delay(draws[before.used + 2]), 1);
            assert(super::is_due(now, now));
            lemma_pushed_deadline(now, now, saturated);
            lemma_pushed_deadline(before.next_spawn_ms, now, cadence);
        }
    }
}

/// Without brightness the rain has no value.
pub proof fn law_no_brightness_is_dark(model: RainModel, frame: FrameParams<'_>, led: (u8, u8))
    requires
        frame.val == 0,
    ensures
        model.pixel(frame, led).v == 0,
{
    lemma_brightest_range(model, frame, led, 32);
}

proof fn lemma_brightest_range(model: RainModel, frame: FrameParams<'_>, led: (u8, u8), n: int)
    ensures
        0 <= model.brightest(frame, led, n) <= 255,
    decreases n,
{
    if n > 0 {
        lemma_brightest_range(model, frame, led, n - 1);
        let drop = model.drops[n - 1];
        let head = fallen(
            math::ticks_since(frame.timer_ms, drop.spawn_ms),
            frame.speed as int,
            drop.rate as int,
        );
        let behind = head - led.1;
        let aside = math::distance(led.0 as int, drop.x as int);
        if 0 <= behind <= model.params.trail() && aside < model.params.half_width() {
            lemma_share_of_255(behind, model.params.trail());
            lemma_share_of_255(aside, model.params.half_width());
            let along = 255 - behind * 255 / model.params.trail();
            let across = 255 - aside * 255 / model.params.half_width();
            math::lemma_product_bound(along, 255, 1 + across, 256);
        }
    }
}

/// Each control has its own bounds, and reads its own field; what the renderer
/// uses of them is held to 1 to 32 slots and to at least one step of trail and
/// of width.
pub proof fn law_each_control_has_its_bounds(params: RainParams, value: u8, index: int)
    ensures
        RainParams::accepts(0, value) <==> 1 <= value <= 32,
        RainParams::accepts(1, value) <==> 1 <= value,
        RainParams::accepts(2, value) <==> 16 <= value,
        RainParams::accepts(3, value) <==> 4 <= value <= 64,
        RainParams::accepts(4, value),
        index < 0 || index > 4 ==> !RainParams::accepts(index, value),
        params.param(0) == params.drops,
        params.param(1) == params.spawn_interval,
        params.param(2) == params.trail_len,
        params.param(3) == params.column_half_width,
        params.param(4) == params.rain_hue,
        1 <= params.drops <= 32 ==> params.slots() == params.drops,
        params.drops == 0 ==> params.slots() == 1,
        params.drops > 32 ==> params.slots() == 32,
        params.trail_len > 0 ==> params.trail() == params.trail_len,
        params.trail_len == 0 ==> params.trail() == 1,
        params.column_half_width > 0 ==> params.half_width() == params.column_half_width,
        params.column_half_width == 0 ==> params.half_width() == 1,
{
}

/// Spawns are tuned in tens of milliseconds, and a byte of jitter adds as many
/// 512ths of the interval, rounded down.
pub proof fn law_spawn_delays_are_tuned_in_tens(params: RainParams, entropy: u8)
    ensures
        params.interval() == 10 * params.spawn_interval,
        ({
            let jitter = params.delay(entropy) - 10 * params.spawn_interval;
            512 * jitter <= 10 * params.spawn_interval * entropy < 512 * jitter + 512
        }),
{
    assert(10 * params.spawn_interval * entropy == params.spawn_interval * 10 * entropy)
        by (nonlinear_arith);
}

/// A drop falls at 160 to 245 parts out of 255 of the full rate, one more for
/// every three steps of its byte.
pub proof fn law_rates_vary_with_their_byte(entropy: u8)
    ensures
        160 <= rate_of(entropy) <= 245,
        3 * (rate_of(entropy) - 160) <= entropy < 3 * (rate_of(entropy) - 160) + 3,
{
}

/// A drop falls evenly: of every 256 milliseconds the speed keeps `2 + speed /
/// 4`, and of those its rate keeps that many 510ths, both rounded down. It
/// starts at the top and never climbs.
pub proof fn law_a_drop_falls_evenly(elapsed: int, later: int, speed: int, rate: int)
    requires
        0 <= elapsed <= later,
        0 <= speed <= 255,
        0 <= rate <= 255,
    ensures
        ({
            let ran = math::scaled8(elapsed, 1 + speed / 4);
            let depth = fallen(elapsed, speed, rate);
            &&& 256 * ran <= elapsed * (2 + speed / 4) < 256 * ran + 256
            &&& 510 * depth <= ran * rate < 510 * depth + 510
        }),
        fallen(0, speed, rate) == 0,
        fallen(elapsed, speed, rate) <= fallen(later, speed, rate),
{
    let ran = math::scaled8(elapsed, 1 + speed / 4);
    let more = math::scaled8(later, 1 + speed / 4);
    math::law_scale8_is_monotone(elapsed, later, 1 + speed / 4, 1 + speed / 4);
    assert(0 <= elapsed * (1 + (1 + speed / 4))) by (nonlinear_arith)
        requires
            0 <= elapsed,
            0 <= speed / 4,
    ;
    assert(elapsed * (1 + (1 + speed / 4)) == elapsed * (2 + speed / 4));
    assert(0 <= ran * rate <= more * rate) by (nonlinear_arith)
        requires
            0 <= ran <= more,
            0 <= rate,
    ;
    assert(0 * (1 + (1 + speed / 4)) == 0);
    assert(0 * rate == 0);
}

/// The time to fall past the bottom of the board by `overshoot` is that
/// distance over the drop's pace, rounded down; a drop without pace takes the
/// whole count.
pub proof fn law_a_fall_takes_its_time(speed: int, overshoot: int, rate: int)
    requires
        0 <= speed <= 255,
        0 <= overshoot <= 255,
        1 <= rate <= 255,
    ensures
        ({
            let (pace, time) = (rate * (1 + speed / 4), fall_time(speed, overshoot, rate));
            time * pace <= 130_560 * (255 + overshoot) < time * pace + pace
        }),
        fall_time(speed, overshoot, 0) == 130_560 * (255 + overshoot),
{
    let pace = rate * (1 + speed / 4);
    assert(1 <= pace) by (nonlinear_arith)
        requires
            1 <= rate,
            0 <= speed / 4,
            pace == rate * (1 + speed / 4),
    ;
    assert(2 * (255 + overshoot) * 255 * 256 == 130_560 * (255 + overshoot));
    math::lemma_quotient(130_560 * (255 + overshoot), pace);
    assert(0 * (1 + speed / 4) == 0);
    math::lemma_quotient_is(130_560 * (255 + overshoot), 1, 130_560 * (255 + overshoot));
}

/// A spawn takes the first free slot: every slot before it is taken, and where
/// it reports none all are.
pub proof fn law_the_first_free_slot_is_taken(drops: Seq<RainDrop>, n: int, k: int)
    requires
        0 <= k < n,
    ensures
        0 <= free_slot(drops, 0, n) <= n,
        k < free_slot(drops, 0, n) ==> drops[k].active,
        free_slot(drops, 0, n) < n ==> !drops[free_slot(drops, 0, n)].active,
{
    lemma_free_slot(drops, 0, n);
    lemma_taken(drops, 0, n, k);
}

proof fn lemma_taken(drops: Seq<RainDrop>, from: int, n: int, k: int)
    requires
        from <= k < n,
    ensures
        k < free_slot(drops, from, n) ==> drops[k].active,
    decreases n - from,
{
    if drops[from].active && from < k {
        lemma_taken(drops, from + 1, n, k);
    }
}

/// A spawn opportunity does nothing before the deadline. Then it puts a drop
/// into the first free slot, at this frame's time, with the first byte for its
/// column and the second for its rate, and moves the deadline on from itself by
/// the delay of the third. With no slot free it only sets a new deadline, from
/// now, by the delay of one byte.
pub proof fn law_a_spawn_fills_one_slot(
    fall: RainFall,
    params: RainParams,
    now: u32,
    draws: Seq<u8>,
    k: int,
)
    requires
        fall.drops.len() == 32,
        0 <= k < 32,
    ensures
        ({
            let after = spawned(fall, params, now, draws);
            let slot = free_slot(fall.drops, 0, params.slots());
            let due = super::is_due(fall.next_spawn_ms, now);
            let drop = after.drops[slot];
            &&& after.drops.len() == 32
            &&& !due ==> after == fall
            &&& due && slot < params.slots() ==> {
                &&& drop.active && drop.spawn_ms == now
                &&& drop.x == draws[fall.used] && drop.rate == rate_of(draws[fall.used + 1])
                &&& k != slot ==> after.drops[k] == fall.drops[k]
                &&& math::ticks_since(after.next_spawn_ms, fall.next_spawn_ms) == math::larger(
                    params.delay(draws[fall.used + 2]),
                    1,
                )
                &&& after.used == fall.used + 3
            }
            &&& due && slot >= params.slots() ==> {
                &&& after.drops == fall.drops
                &&& math::ticks_since(after.next_spawn_ms, now) == math::larger(
                    params.delay(draws[fall.used]),
                    1,
                )
                &&& after.used == fall.used + 1
            }
        }),
{
    lemma_free_slot(fall.drops, 0, params.slots());
    law_jitter_is_proportional(params, draws[fall.used]);
    law_jitter_is_proportional(params, draws[fall.used + 2]);
}

/// Every slot gets one opportunity per frame, in a row.
pub proof fn law_opportunities_follow_one_another(
    fall: RainFall,
    params: RainParams,
    now: u32,
    draws: Seq<u8>,
    n: int,
)
    requires
        1 <= n,
    ensures
        spawned_times(fall, params, now, draws, 0) == fall,
        spawned_times(fall, params, now, draws, 1) == spawned(fall, params, now, draws),
        spawned_times(fall, params, now, draws, n) == spawned(
            spawned_times(fall, params, now, draws, n - 1),
            params,
            now,
            draws,
        ),
{
    assert(spawned_times(fall, params, now, draws, 0) == fall);
}

/// Starting over fills every slot as though it had been raining: slot `k` out
/// of the tuned ones fell as long ago as that share of the slowest fall, on the
/// column and at the rate of its own two bytes. The other slots stay, and the
/// deadline is now. A frame that does not start over changes nothing.
pub proof fn law_starting_over_fills_the_board(
    model: RainModel,
    frame: FrameParams<'_>,
    draws: Seq<u8>,
    k: int,
)
    requires
        model.drops.len() == 32,
        0 <= k < 32,
    ensures
        ({
            let fall = model.entered(frame, draws);
            let slots = model.params.slots();
            let over = !model.initialized || super::rewound(model.last_timer_ms, frame.timer_ms);
            let slowest = fall_time(frame.speed as int, model.params.trail(), 160);
            let drop = fall.drops[k];
            &&& over && k < slots ==> {
                &&& drop.active
                &&& drop.spawn_ms == super::before(frame.timer_ms, slowest * k / slots)
                &&& drop.rate == rate_of(draws[2 * k]) && drop.x == draws[2 * k + 1]
            }
            &&& over && k >= slots ==> drop == model.drops[k]
            &&& over ==> fall.next_spawn_ms == frame.timer_ms && fall.used == 2 * slots
            &&& !over ==> fall.drops == model.drops && fall.next_spawn_ms == model.next_spawn_ms
                && fall.used == 0
        }),
{
}

/// A deadline that is due by more than two seconds restarts from now; any
/// other stands, and the drops and the bytes are untouched either way.
pub proof fn law_a_late_deadline_restarts(model: RainModel, frame: FrameParams<'_>, draws: Seq<u8>)
    ensures
        ({
            let (fall, after) = (model.entered(frame, draws), model.resynced(frame, draws));
            let late = math::ticks_since(frame.timer_ms, fall.next_spawn_ms);
            &&& after.drops == fall.drops && after.used == fall.used
            &&& 2_000 < late < 0x7fff_ffff ==> after.next_spawn_ms == frame.timer_ms
            &&& late <= 2_000 || late >= 0x7fff_ffff ==> after.next_spawn_ms == fall.next_spawn_ms
        }),
{
}

/// A drop is airborne until its trail has cleared the bottom of the board, and
/// for 65 seconds at most; a frame puts out the others and changes nothing else
/// of a drop. It notes its time, and keeps the tuning.
pub proof fn law_a_frame_lands_its_drops(
    model: RainModel,
    frame: FrameParams<'_>,
    draws: Seq<u8>,
    k: int,
)
    requires
        model.drops.len() == 32,
        0 <= k < 32,
    ensures
        ({
            let fall = model.refilled(frame, draws);
            let after = model.rained(frame, draws);
            let drop = fall.drops[k];
            let elapsed = math::ticks_since(frame.timer_ms, drop.spawn_ms);
            let airborne = drop.active && elapsed <= 65535 && fallen(
                elapsed,
                frame.speed as int,
                drop.rate as int,
            ) <= 255 + model.params.trail();
            &&& fall == spawned_times(
                model.resynced(frame, draws),
                model.params,
                frame.timer_ms,
                draws,
                model.params.slots(),
            )
            &&& after.drops.len() == 32
            &&& after.drops[k] == (RainDrop { active: airborne, ..drop })
            &&& after.next_spawn_ms == fall.next_spawn_ms
            &&& after.last_timer_ms == frame.timer_ms && after.initialized
            &&& after.params == model.params
        }),
{
    lemma_spawned_keeps(
        model.resynced(frame, draws),
        model.params,
        frame.timer_ms,
        draws,
        model.params.slots(),
        k,
    );
}

/// A drop lights its column from its head back along its trail: both fade in
/// proportion to the distance, from the head and from the middle of the column,
/// and an LED gets the product. Below the head, past the trail, beside the
/// column and from a drop that is not airborne there is nothing.
pub proof fn law_a_drop_lights_its_trail(
    model: RainModel,
    drop: RainDrop,
    frame: FrameParams<'_>,
    led: (u8, u8),
)
    ensures
        ({
            let head = fallen(
                math::ticks_since(frame.timer_ms, drop.spawn_ms),
                frame.speed as int,
                drop.rate as int,
            );
            let (trail, wide) = (model.params.trail(), model.params.half_width());
            let behind = head - led.1;
            let aside = if led.0 >= drop.x {
                led.0 - drop.x
            } else {
                drop.x - led.0
            };
            let light = model.light(drop, frame, led);
            &&& model.airborne(drop, frame) && aside < wide && 0 <= behind <= trail ==> light
                == math::scaled8(255 - behind * 255 / trail, 255 - aside * 255 / wide)
            &&& !model.airborne(drop, frame) || aside >= wide || behind < 0 || behind > trail
                ==> light == 0
            &&& model.airborne(drop, frame) && aside == 0 && behind == 0 ==> light == 255
        }),
{
    let (trail, wide) = (model.params.trail(), model.params.half_width());
    math::lemma_quotient_is(0, trail, 0);
    math::lemma_quotient_is(0, wide, 0);
    assert(math::scaled8(255, 255) == 255);
}

/// The nearer the middle of the column, the brighter: of two LEDs in one row
/// the one that is not farther from the drop gets no less.
pub proof fn law_a_column_fades_to_its_sides(
    model: RainModel,
    drop: RainDrop,
    frame: FrameParams<'_>,
    near: u8,
    far: u8,
    y: u8,
)
    requires
        math::distance(near as int, drop.x as int) <= math::distance(far as int, drop.x as int),
    ensures
        model.light(drop, frame, (far, y)) <= model.light(drop, frame, (near, y)),
{
    let head = fallen(
        math::ticks_since(frame.timer_ms, drop.spawn_ms),
        frame.speed as int,
        drop.rate as int,
    );
    let (trail, wide) = (model.params.trail(), model.params.half_width());
    let behind = head - y;
    let (a, b) = (
        math::distance(near as int, drop.x as int),
        math::distance(far as int, drop.x as int),
    );
    if 0 <= behind <= trail && a < wide {
        lemma_share_of_255(behind, trail);
        lemma_share_of_255(a, wide);
        let along = 255 - behind * 255 / trail;
        math::lemma_product_bound(along, 255, 1 + (255 - a * 255 / wide), 256);
        if b < wide {
            lemma_share_of_255(b, wide);
            assert(a * 255 / wide <= b * 255 / wide) by (nonlinear_arith)
                requires
                    0 <= a <= b,
                    1 <= wide,
            ;
            math::law_scale8_is_monotone(
                along,
                along,
                255 - b * 255 / wide,
                255 - a * 255 / wide,
            );
        }
    }
}

/// An LED shows the brightest drop: none of the first `n` lights it more, and
/// what shows is one of them, or nothing.
pub proof fn law_the_brightest_drop_shows(
    model: RainModel,
    frame: FrameParams<'_>,
    led: (u8, u8),
    n: int,
    k: int,
)
    requires
        0 <= k < n <= model.drops.len(),
    ensures
        model.light(model.drops[k], frame, led) <= model.brightest(frame, led, n),
        model.brightest(frame, led, n) == 0 || exists|j: int|
            0 <= j < n && model.light(#[trigger] model.drops[j], frame, led) == model.brightest(
                frame,
                led,
                n,
            ),
    decreases n,
{
    if n > 1 {
        law_the_brightest_drop_shows(
            model,
            frame,
            led,
            n - 1,
            if k < n - 1 {
                k
            } else {
                0
            },
        );
        let rest = model.brightest(frame, led, n - 1);
        if model.brightest(frame, led, n) == rest && rest != 0 {
            let j = choose|j: int|
                0 <= j < n - 1 && model.light(#[trigger] model.drops[j], frame, led) == rest;
            assert(model.light(model.drops[j], frame, led) == rest);
        } else {
            assert(model.light(model.drops[n - 1], frame, led) <= model.brightest(frame, led, n));
        }
    } else {
        assert(model.brightest(frame, led, 0) == 0);
        assert(model.light(model.drops[0], frame, led) <= model.brightest(frame, led, n));
    }
}

/// A frame colors each LED of the board in the tuned hue, at the saturation of
/// the frame and as bright as the brightest drop and the frame allow, and
/// leaves the rest of the buffer alone.
pub proof fn law_the_frame_shows_the_rain(
    model: RainModel,
    frame: FrameParams<'_>,
    leds: Seq<(u8, u8)>,
    out: Seq<Hsv>,
    i: int,
)
    requires
        0 <= i < out.len(),
    ensures
        ({
            let shown = model.painted(frame, leds, out);
            &&& shown.len() == out.len()
            &&& i >= leds.len() ==> shown[i] == out[i]
            &&& i < leds.len() ==> {
                &&& shown[i].h == model.params.rain_hue
                &&& shown[i].s == frame.sat
                &&& shown[i].v == math::scaled8(
                    model.brightest(frame, leds[i], 32),
                    frame.val as int,
                ) as u8
            }
        }),
{
}

/// A new rain has 6 drops, one about every 300 milliseconds, with trails of 128
/// and columns 14 to either side, in blue.
pub proof fn law_a_new_rain_is_tuned(params: RainParams)
    ensures
        rain_defaults().drops == 6 && rain_defaults().spawn_interval == 30,
        rain_defaults().trail_len == 128 && rain_defaults().column_half_width == 14,
        rain_defaults().rain_hue == 172,
        RainModel::fresh(params).params == params,
        RainModel::fresh(params).next_spawn_ms == 0 && RainModel::fresh(params).last_timer_ms == 0,
{
}

/// The count of drops in flight goes up by one for each slot that holds one.
pub proof fn law_active_drops_are_counted(drops: Seq<RainDrop>, n: int, k: int)
    requires
        0 <= k < n,
    ensures
        0 <= active_among(drops, n) <= n,
        drops[k].active ==> active_among(drops, n) >= 1,
        !drops[k].active ==> active_among(drops, n) <= n - 1,
        active_among(drops, k + 1) == active_among(drops, k) + if drops[k].active {
            1int
        } else {
            0int
        },
    decreases n,
{
    if k < n - 1 {
        law_active_drops_are_counted(drops, n - 1, k);
    } else if n > 1 {
        law_active_drops_are_counted(drops, n - 1, 0);
    } else {
        assert(active_among(drops, 0) == 0);
    }
}

/// Each control is listed to a host under its own name.
pub proof fn law_each_control_has_its_name()
    ensures
        RainParams::NAMES@ == seq![
            "Drops",
            "Spawn x10ms",
            "Trail",
            "Width",
            "Rain hue",
        ],
{
}

} // verus!
