//! RIPPLE: up to three radial drops, each swelling and dying away.
use vstd::prelude::*;

use super::{clock_rewound, due, FrameParams};
use crate::bytes;
use crate::bytes::{ByteSource, FnBytes, Pcg32, PcgBytes};
use crate::color::Hsv;
use crate::layout::LedLayout;
use crate::math;
use crate::math::{abs_half_diff, cos8, ease8_in_out_approx, scale16by8, scale8, sqrt16};
use crate::palette;
use crate::palette::interp_color;

verus! {

/// Droplets in flight at most.
pub const RIPPLE_DROPS: usize = 3;

/// Pause between two spawns.
pub const RIPPLE_SPAWN_INTERVAL_MS: u32 = 1000;

/// One radial drop.
#[derive(Copy, Clone, Debug, PartialEq, Eq, Structural)]
pub struct Droplet {
    /// Clock when the drop spawned.
    pub spawn_ms: u32,
    pub x: u8,
    pub y: u8,
    /// Height of its wave; 0 is a free slot.
    pub amplitude: u8,
    /// How fast the wave falls off with distance.
    pub scale: u8,
    pub phase: u8,
}

/// A free slot.
pub open spec fn no_droplet() -> Droplet {
    Droplet { spawn_ms: 0, x: 0, y: 0, amplitude: 0, scale: 0, phase: 0 }
}

/// Amplitude envelope: rising to 32, level to 55, then a smooth decay to zero
/// at 255.
pub open spec fn envelope(t: int) -> int {
    if t < 32 {
        3 + 5 * t
    } else if t <= 55 {
        192
    } else {
        math::scaled8((255 - t) * 123 / 128, (255 - t) * 123 / 128)
    }
}

/// See [`envelope`].
pub fn ripple_amplitude(t: u8) -> (amplitude: u8)
    ensures
        amplitude == envelope(t as int),
{
    if t <= 55 {
        if t < 32 {
            3 + 5 * t
        } else {
            192
        }
    } else {
        let u: u8 = ((255 - t) as u16 * 123 / 128) as u8;
        scale8(u, u)
    }
}

/// How far a droplet is into its life, from 0 to 1019 while it lives. Its age
/// counts modulo 2^16 milliseconds.
pub open spec fn life(frame: FrameParams<'_>, spawn_ms: u32) -> int {
    math::scaled8(math::ticks_since(frame.timer_ms, spawn_ms) % 65536, 1 + frame.speed as int / 4)
}

/// `droplet` at this frame.
pub open spec fn swollen(droplet: Droplet, frame: FrameParams<'_>) -> Droplet {
    let tick = life(frame, droplet.spawn_ms);
    if droplet.amplitude == 0 {
        droplet
    } else if tick < 1020 {
        Droplet {
            amplitude: envelope(tick / 4) as u8,
            scale: (255int / (1 + tick / 4 / 2)) as u8,
            phase: (tick % 256) as u8,
            ..droplet
        }
    } else {
        Droplet { amplitude: 0, ..droplet }
    }
}

fn swell(droplet: Droplet, frame: FrameParams<'_>) -> (r: Droplet)
    ensures
        r == swollen(droplet, frame),
{
    if droplet.amplitude == 0 {
        return droplet;
    }
    let elapsed: u16 = (frame.timer_ms.wrapping_sub(droplet.spawn_ms) % 65536) as u16;
    let tick: u16 = scale16by8(elapsed, 1 + frame.speed / 4);
    if tick < 1020 {
        let t: u8 = (tick / 4) as u8;
        Droplet {
            amplitude: ripple_amplitude(t),
            scale: 255 / (1 + t / 2),
            phase: (tick % 256) as u8,
            ..droplet
        }
    } else {
        Droplet { amplitude: 0, ..droplet }
    }
}

/// Distance on the half-scale grid of the radial effects.
pub open spec fn half_distance(a: (u8, u8), b: (u8, u8)) -> int {
    let dx = math::distance(a.0 as int, b.0 as int) / 2;
    let dy = math::distance(a.1 as int, b.1 as int) / 2;
    math::root(dx * dx + dy * dy)
}

/// See [`half_distance`].
pub fn radial_distance(ax: u8, ay: u8, bx: u8, by: u8) -> (r: u8)
    ensures
        r == half_distance((ax, ay), (bx, by)),
        r <= 180,
{
    let dx: u8 = abs_half_diff(ax, bx);
    let dy: u8 = abs_half_diff(ay, by);
    proof {
        math::lemma_product_bound(dx as int, 127, dx as int, 127);
        math::lemma_product_bound(dy as int, 127, dy as int, 127);
    }
    let sum: u16 = dx as u16 * dx as u16 + dy as u16 * dy as u16;
    let r: u8 = sqrt16(sum);
    assert(r <= 180) by (nonlinear_arith)
        requires
            r * r <= sum,
            sum <= 32258,
    ;
    r
}

/// Height of a wave whose distance from its centre, scaled, is `reach`.
pub open spec fn bump_at(reach: int, amplitude: u8) -> int {
    math::scaled8(math::eased(255 - reach), amplitude as int)
}

/// Where a wave is in its swing, `r` from its centre: between -127 and 127.
pub open spec fn swing_at(r: int, phase: u8) -> int {
    math::cosine((8 * r - phase) % 256) - 128
}

fn bump(reach: u8, amplitude: u8) -> (b: u8)
    ensures
        b == bump_at(reach as int, amplitude),
{
    scale8(ease8_in_out_approx(255 - reach), amplitude)
}

fn swing(r: u8, phase: u8) -> (w: i32)
    ensures
        w == swing_at(r as int, phase),
        -127 <= w <= 127,
{
    let turn: u8 = ((8 * r as u16 + 256 - phase as u16) % 256) as u8;
    assert(turn as int == (8 * r - phase) % 256);
    let height: u8 = cos8(turn);
    height as i32 - 128
}

/// What a droplet adds to the palette position of the LED at `led`: a cosine
/// of the distance, inside the reach that its scale leaves.
pub open spec fn wave(droplet: Droplet, led: (u8, u8)) -> int {
    let r = half_distance(led, (droplet.x, droplet.y));
    if droplet.amplitude == 0 || r * droplet.scale >= 255 {
        0
    } else {
        math::quot(
            swing_at(r, droplet.phase) * bump_at(r * droplet.scale, droplet.amplitude),
            128,
        )
    }
}

fn droplet_wave(droplet: Droplet, lx: u8, ly: u8) -> (w: i16)
    ensures
        w == wave(droplet, (lx, ly)),
        -254 <= w <= 254,
{
    if droplet.amplitude == 0 {
        return 0;
    }
    let r: u8 = radial_distance(lx, ly, droplet.x, droplet.y);
    proof {
        math::lemma_product_bound(r as int, 180, droplet.scale as int, 255);
    }
    let reach: u16 = r as u16 * droplet.scale as u16;
    if reach >= 255 {
        return 0;
    }
    let height: i32 = bump(reach as u8, droplet.amplitude) as i32;
    let side: i32 = swing(r, droplet.phase);
    assert(-127 * 255 <= side * height <= 127 * 255) by (nonlinear_arith)
        requires
            -127 <= side <= 127,
            0 <= height <= 255,
    ;
    (side * height / 128) as i16
}

/// What a [`RippleState`] holds.
pub struct RippleModel {
    pub drops: Seq<Droplet>,
    /// Slot that the next droplet takes.
    pub tail: int,
    pub next_spawn_ms: u32,
    pub last_timer_ms: u32,
    pub initialized: bool,
}

impl RippleModel {
    pub open spec fn wf(self) -> bool {
        self.drops.len() == 3 && 0 <= self.tail < 3
    }

    /// The state a new effect starts in.
    pub open spec fn fresh() -> RippleModel {
        RippleModel {
            drops: Seq::new(3, |k: int| no_droplet()),
            tail: 0,
            next_spawn_ms: 0,
            last_timer_ms: 0,
            initialized: false,
        }
    }

    /// The spawn deadline as a frame at `now` reads it: the first frame, and
    /// one whose clock jumped backward, bring it to now.
    pub open spec fn deadline(self, now: u32) -> u32 {
        if !self.initialized || super::rewound(self.last_timer_ms, now) {
            now
        } else {
            self.next_spawn_ms
        }
    }

    /// Whether the frame at `now` spawns a droplet: the next slot is free and
    /// the deadline has passed.
    pub open spec fn spawns(self, now: u32) -> bool {
        self.drops[self.tail].amplitude == 0 && super::is_due(self.deadline(now), now)
    }

    /// The droplets with the one that `byte` places, where one spawns.
    pub open spec fn placed(self, now: u32, leds: Seq<(u8, u8)>, byte: u8) -> Seq<Droplet> {
        if self.spawns(now) {
            let at = leds[byte as int % leds.len() as int];
            self.drops.update(
                self.tail,
                Droplet { spawn_ms: now, x: at.0, y: at.1, amplitude: 1, scale: 0, phase: 0 },
            )
        } else {
            self.drops
        }
    }

    /// The state after a frame; `byte` places the droplet where one spawns.
    pub open spec fn rippled(
        self,
        frame: FrameParams<'_>,
        leds: Seq<(u8, u8)>,
        byte: u8,
    ) -> RippleModel {
        let now = frame.timer_ms;
        RippleModel {
            drops: self.placed(now, leds, byte).map_values(|d: Droplet| swollen(d, frame)),
            tail: if self.spawns(now) {
                (self.tail + 1) % 3
            } else {
                self.tail
            },
            next_spawn_ms: if self.spawns(now) {
                super::after(now, 1000)
            } else {
                self.deadline(now)
            },
            last_timer_ms: now,
            initialized: true,
        }
    }

    /// Palette position of the LED at `led`.
    pub open spec fn level(self, led: (u8, u8)) -> int {
        math::clamped(
            128 + wave(self.drops[0], led) + wave(self.drops[1], led) + wave(self.drops[2], led),
            0,
            255,
        )
    }

    /// The color of the LED at `led`.
    pub open spec fn pixel(self, frame: FrameParams<'_>, led: (u8, u8)) -> Hsv {
        palette::color_at(frame.palette@, self.level(led) as u8, frame.sat, frame.val)
    }

    /// The frame buffer `out` with every LED of the layout painted.
    pub open spec fn painted(self, frame: FrameParams<'_>, leds: Seq<(u8, u8)>, out: Seq<Hsv>) -> Seq<
        Hsv,
    > {
        Seq::new(
            out.len(),
            |i: int|
                if i < leds.len() {
                    self.pixel(frame, leds[i])
                } else {
                    out[i]
                },
        )
    }
}

/// The ripple effect: its droplets and its spawn deadline.
pub struct RippleState {
    drops: [Droplet; 3],
    drops_tail: usize,
    next_spawn_ms: u32,
    last_timer_ms: u32,
    initialized: bool,
}

impl View for RippleState {
    type V = RippleModel;

    closed spec fn view(&self) -> RippleModel {
        RippleModel {
            drops: self.drops@,
            tail: self.drops_tail as int,
            next_spawn_ms: self.next_spawn_ms,
            last_timer_ms: self.last_timer_ms,
            initialized: self.initialized,
        }
    }
}

impl Default for RippleState {
    fn default() -> (state: Self)
        ensures
            state@ == RippleModel::fresh(),
            state@.wf(),
    {
        Self::new()
    }
}

impl RippleState {
    pub fn new() -> (state: Self)
        ensures
            state@ == RippleModel::fresh(),
            state@.wf(),
    {
        let drops: [Droplet; 3] = [
            Droplet { spawn_ms: 0, x: 0, y: 0, amplitude: 0, scale: 0, phase: 0 };3];
        assert(drops@ =~= Seq::new(3, |k: int| no_droplet()));
        Self { drops, drops_tail: 0, next_spawn_ms: 0, last_timer_ms: 0, initialized: false }
    }

    /// The droplets, in slot order.
    pub fn droplets(&self) -> (drops: [Droplet; 3])
        ensures
            drops@ == self@.drops,
    {
        self.drops
    }

    /// Slot that the next droplet takes.
    pub fn next_slot(&self) -> (slot: usize)
        ensures
            slot == self@.tail,
    {
        self.drops_tail
    }

    /// Reads the clock: brings the deadline to now where the frame starts
    /// over, and says whether a droplet spawns.
    fn enter(&mut self, now: u32) -> (spawns: bool)
        requires
            old(self)@.wf(),
        ensures
            spawns == old(self)@.spawns(now),
            final(self)@ == (RippleModel {
                next_spawn_ms: old(self)@.deadline(now),
                last_timer_ms: now,
                initialized: true,
                ..old(self)@
            }),
    {
        if !self.initialized || clock_rewound(self.last_timer_ms, now) {
            self.next_spawn_ms = now;
        }
        self.initialized = true;
        self.last_timer_ms = now;
        self.drops[self.drops_tail].amplitude == 0 && due(self.next_spawn_ms, now)
    }

    /// Places a droplet on the LED that `byte` picks.
    fn spawn<L: LedLayout>(&mut self, layout: &L, now: u32, byte: u8)
        requires
            old(self)@.wf(),
            layout.leds().len() > 0,
        ensures
            ({
                let at = layout.leds()[byte as int % layout.leds().len() as int];
                final(self)@ == RippleModel {
                    drops: old(self)@.drops.update(
                        old(self)@.tail,
                        Droplet { spawn_ms: now, x: at.0, y: at.1, amplitude: 1, scale: 0, phase: 0 },
                    ),
                    tail: (old(self)@.tail + 1) % 3,
                    next_spawn_ms: super::after(now, 1000),
                    ..old(self)@
                }
            }),
    {
        let led: usize = byte as usize % layout.count();
        let (x, y) = layout.position(led);
        let slot: usize = self.drops_tail;
        self.drops[slot] = Droplet { spawn_ms: now, x, y, amplitude: 1, scale: 0, phase: 0 };
        self.drops_tail = (slot + 1) % RIPPLE_DROPS;
        self.next_spawn_ms = now.wrapping_add(RIPPLE_SPAWN_INTERVAL_MS);
    }

    /// Advances every droplet.
    fn advance(&mut self, frame: FrameParams<'_>)
        ensures
            final(self)@ == (RippleModel {
                drops: old(self)@.drops.map_values(|d: Droplet| swollen(d, frame)),
                ..old(self)@
            }),
    {
        self.drops[0] = swell(self.drops[0], frame);
        self.drops[1] = swell(self.drops[1], frame);
        self.drops[2] = swell(self.drops[2], frame);
        assert(self@.drops =~= old(self)@.drops.map_values(|d: Droplet| swollen(d, frame)));
    }

    /// Whether a frame at `now` spawns a droplet, for which the layout needs an
    /// LED.
    pub fn spawn_due(&self, now: u32) -> (r: bool)
        requires
            self@.wf(),
        ensures
            r == self@.spawns(now),
    {
        let starts_over: bool = !self.initialized || clock_rewound(self.last_timer_ms, now);
        self.drops[self.drops_tail].amplitude == 0 && (starts_over || due(self.next_spawn_ms, now))
    }

    /// One frame's worth of spawning and swelling. A droplet that spawns takes
    /// one byte, and nothing else takes any.
    fn step<L: LedLayout, B: ByteSource>(
        &mut self,
        layout: &L,
        frame: FrameParams<'_>,
        rng: &mut B,
    )
        requires
            old(self)@.wf(),
            old(rng).drawn().len() == 0,
            old(self)@.spawns(frame.timer_ms) ==> layout.leds().len() > 0 && old(rng).ready(),
        ensures
            final(self)@.wf(),
            final(rng).origin() == old(rng).origin(),
            old(rng).ready() ==> final(rng).ready(),
            final(rng).drawn().len() == (if old(self)@.spawns(frame.timer_ms) {
                1nat
            } else {
                0nat
            }),
            final(self)@ == old(self)@.rippled(frame, layout.leds(), final(rng).drawn()[0]),
    {
        if self.enter(frame.timer_ms) {
            let byte: u8 = rng.next_byte();
            self.spawn(layout, frame.timer_ms, byte);
        }
        self.advance(frame);
        assert(self@ == old(self)@.rippled(frame, layout.leds(), rng.drawn()[0]));
    }

    /// Paints every LED of the layout.
    fn paint<L: LedLayout>(&self, layout: &L, frame: FrameParams<'_>, out: &mut [Hsv])
        ensures
            final(out)@ == self@.painted(frame, layout.leds(), old(out)@),
    {
        let count: usize = layout.count();
        let len: usize = out.len();
        let mut i: usize = 0;
        while i < len && i < count
            invariant
                i <= len,
                i <= count,
                len == out@.len(),
                len == old(out)@.len(),
                count == layout.leds().len(),
                forall|j: int| 0 <= j < i ==> out@[j] == self@.pixel(frame, layout.leds()[j]),
                forall|j: int| i <= j < len ==> out@[j] == old(out)@[j],
            decreases len - i,
        {
            let (lx, ly) = layout.position(i);
            let sum: i16 = 128 + droplet_wave(self.drops[0], lx, ly) + droplet_wave(
                self.drops[1],
                lx,
                ly,
            ) + droplet_wave(self.drops[2], lx, ly);
            let level: u8 = if sum < 0 {
                0
            } else if sum > 255 {
                255
            } else {
                sum as u8
            };
            out[i] = interp_color(frame.palette, level, frame.sat, frame.val);
            i += 1;
        }
        assert(out@ =~= self@.painted(frame, layout.leds(), old(out)@));
    }

    /// Ticks the ripple. `rng` is called when a droplet spawns and should
    /// return a byte uniformly over 0..=255; modulo the LED count it picks the
    /// droplet's centre.
    pub fn tick<L, R>(&mut self, layout: &L, params: FrameParams<'_>, rng: R, out: &mut [Hsv]) where
        L: LedLayout,
        R: FnMut() -> u8,

        requires
            old(self)@.wf(),
            old(self)@.spawns(params.timer_ms) ==> layout.leds().len() > 0 && call_requires(rng, ()),
        ensures
            final(self)@.wf(),
            exists|draws: Seq<u8>|
                {
                    &&& bytes::returned_by(rng, draws)
                    &&& draws.len() == (if old(self)@.spawns(params.timer_ms) {
                        1nat
                    } else {
                        0nat
                    })
                    &&& final(self)@ == old(self)@.rippled(
                        params,
                        layout.leds(),
                        #[trigger] draws[0],
                    )
                },
            final(out)@ == final(self)@.painted(params, layout.leds(), old(out)@),
    {
        let mut source = FnBytes::new(rng);
        self.step(layout, params, &mut source);
        proof {
            if source.drawn().len() > 0 {
                source.lemma_drawn();
            }
            assert(bytes::returned_by(rng, source.drawn()));
        }
        self.paint(layout, params, out);
    }

    /// [`RippleState::tick`] with the bytes of a generator.
    pub fn tick_with_rng<L: LedLayout>(
        &mut self,
        rng: &mut Pcg32,
        layout: &L,
        params: FrameParams<'_>,
        out: &mut [Hsv],
    )
        requires
            old(self)@.wf(),
            old(self)@.spawns(params.timer_ms) ==> layout.leds().len() > 0,
        ensures
            final(self)@.wf(),
            final(self)@ == old(self)@.rippled(
                params,
                layout.leds(),
                (old(rng).word() % 256) as u8,
            ),
            *final(rng) == (if old(self)@.spawns(params.timer_ms) {
                old(rng).advanced(1)
            } else {
                *old(rng)
            }),
            final(out)@ == final(self)@.painted(params, layout.leds(), old(out)@),
    {
        let ghost begin = self@;
        let mut source = PcgBytes::new(*rng);
        self.step(layout, params, &mut source);
        *rng = source.generator();
        proof {
            bytes::law_advancing_adds_up(*old(rng), 0, 0);
            assert(self@ == begin.rippled(params, layout.leds(), (old(rng).word() % 256) as u8));
        }
        self.paint(layout, params, out);
    }
}

/// Spawning comes back after the clock jumped backward: the frame that sees
/// the jump spawns as soon as the next slot is free, and whichever frame it
/// is, the deadline it leaves is at most one interval ahead.
pub proof fn law_spawning_survives_a_rewind(
    model: RippleModel,
    frame: FrameParams<'_>,
    leds: Seq<(u8, u8)>,
    byte: u8,
)
    requires
        super::rewound(model.last_timer_ms, frame.timer_ms) || !model.initialized,
    ensures
        model.spawns(frame.timer_ms) <==> model.drops[model.tail].amplitude == 0,
        ({
            let deadline = model.rippled(frame, leds, byte).next_spawn_ms;
            math::ticks_since(deadline, frame.timer_ms) <= RIPPLE_SPAWN_INTERVAL_MS
        }),
{
}

/// Without droplets in flight the whole board rests at the middle of the
/// palette.
pub proof fn law_still_water(model: RippleModel, frame: FrameParams<'_>, led: (u8, u8))
    requires
        model.wf(),
        forall|k: int| 0 <= k < 3 ==> (#[trigger] model.drops[k]).amplitude == 0,
    ensures
        model.pixel(frame, led) == palette::color_at(frame.palette@, 128, frame.sat, frame.val),
{
}

/// The amplitude envelope stays below 256 and ends at zero.
pub proof fn law_envelope_ends(t: int)
    requires
        0 <= t <= 255,
    ensures
        0 <= envelope(t) <= 192,
        envelope(255) == 0,
{
    assert(envelope(255) == math::scaled8(0, 0));
    assert(math::scaled8(0, 0) == 0);
    if t > 55 {
        let u = (255 - t) * 123 / 128;
        assert(0 <= u <= 191);
        assert(u * (1 + u) <= 191 * 192) by (nonlinear_arith)
            requires
                0 <= u <= 191,
        ;
        assert(0 <= u * (1 + u)) by (nonlinear_arith)
            requires
                0 <= u,
        ;
    }
}

/// The distance of the radial effects is the straight one: each axis is halved
/// and rounded down, and the root of the sum of their squares is rounded down
/// again. It is the same both ways and with the axes swapped, and nothing is
/// away from itself.
pub proof fn law_radial_distances_are_straight(a: (u8, u8), b: (u8, u8))
    ensures
        ({
            let dx = if a.0 >= b.0 {
                (a.0 - b.0) / 2
            } else {
                (b.0 - a.0) / 2
            };
            let dy = if a.1 >= b.1 {
                (a.1 - b.1) / 2
            } else {
                (b.1 - a.1) / 2
            };
            let r = half_distance(a, b);
            &&& 0 <= r
            &&& r * r <= dx * dx + dy * dy < (r + 1) * (r + 1)
            &&& r == half_distance(b, a)
            &&& r == half_distance((a.1, a.0), (b.1, b.0))
        }),
        half_distance(a, a) == 0,
{
    lemma_half_distance(a, b);
    lemma_half_distance(a, a);
    math::law_root_is(0, 0);
}

/// A distance is a root.
pub proof fn lemma_half_distance(a: (u8, u8), b: (u8, u8))
    ensures
        ({
            let dx = math::distance(a.0 as int, b.0 as int) / 2;
            let dy = math::distance(a.1 as int, b.1 as int) / 2;
            let r = half_distance(a, b);
            &&& 0 <= r <= 180
            &&& r * r <= dx * dx + dy * dy < (r + 1) * (r + 1)
        }),
{
    let dx = math::distance(a.0 as int, b.0 as int) / 2;
    let dy = math::distance(a.1 as int, b.1 as int) / 2;
    math::lemma_product_bound(dx, 127, dx, 127);
    math::lemma_product_bound(dy, 127, dy, 127);
    math::law_root_squares_back(dx * dx + dy * dy);
    let r = half_distance(a, b);
    assert(r <= 180) by (nonlinear_arith)
        requires
            0 <= r,
            r * r <= 32258,
    ;
}

/// A droplet spreads radially: within the reach that its scale leaves, each
/// LED is moved by a cosine of its distance, eight steps of phase for each step
/// away and behind by the droplet's own phase, as high as the eased distance
/// and the amplitude allow. Wherever swing and height make up a whole step the
/// LED is displaced, and to the side of the swing.
pub proof fn law_a_wave_spreads_from_its_droplet(droplet: Droplet, led: (u8, u8))
    requires
        droplet.amplitude > 0,
        half_distance(led, (droplet.x, droplet.y)) * droplet.scale < 255,
    ensures
        ({
            let r = half_distance(led, (droplet.x, droplet.y));
            let swing = math::cosine((8 * r - droplet.phase) % 256) - 128;
            let height = math::scaled8(
                math::eased(255 - r * droplet.scale),
                droplet.amplitude as int,
            );
            let moved = wave(droplet, led);
            &&& moved == math::quot(swing * height, 128)
            &&& swing * height >= 128 ==> moved > 0
            &&& swing * height <= -128 ==> moved < 0
            &&& -128 < swing * height < 128 ==> moved == 0
        }),
{
}

/// A droplet moves nothing beyond the reach that its scale leaves, and a free
/// slot moves nothing at all.
pub proof fn law_a_wave_ends_at_its_reach(droplet: Droplet, led: (u8, u8))
    requires
        droplet.amplitude == 0 || half_distance(led, (droplet.x, droplet.y)) * droplet.scale
            >= 255,
    ensures
        wave(droplet, led) == 0,
{
}

/// A droplet moves LEDs alike that are alike far away.
pub proof fn law_a_wave_is_round(droplet: Droplet, led: (u8, u8), other: (u8, u8))
    requires
        half_distance(led, (droplet.x, droplet.y)) == half_distance(other, (droplet.x, droplet.y)),
    ensures
        wave(droplet, led) == wave(droplet, other),
{
}

/// The amplitude rises by 5 a step from 3, is level at 192, and then comes
/// down as the square of what is left: it never rises again.
pub proof fn law_the_envelope_swells_and_dies(t: int, later: int)
    requires
        0 <= t <= later <= 255,
    ensures
        t < 32 ==> envelope(t) == 3 + 5 * t,
        32 <= t <= 55 ==> envelope(t) == 192,
        t > 55 ==> {
            let u = (255 - t) * 123 / 128;
            &&& 128 * u <= (255 - t) * 123 < 128 * u + 128
            &&& 256 * envelope(t) <= u * (u + 1) < 256 * envelope(t) + 256
        },
        t >= 32 ==> envelope(later) <= envelope(t),
{
    law_envelope_ends(t);
    law_envelope_ends(later);
    if t > 55 {
        let (u, w) = ((255 - t) * 123 / 128, (255 - later) * 123 / 128);
        assert(w * (1 + w) <= u * (1 + u)) by (nonlinear_arith)
            requires
                0 <= w <= u,
        ;
        assert(u * (u + 1) == u * (1 + u)) by (nonlinear_arith);
    }
}

/// A droplet lives for 1020 ticks of a clock that the speed drives: every 256
/// milliseconds of it are `2 + speed / 4` ticks. While it lives it stays where
/// it fell, its amplitude follows the envelope at a quarter of the ticks and
/// its phase the ticks themselves; then its slot is free.
pub proof fn law_a_droplet_lives_its_time(droplet: Droplet, frame: FrameParams<'_>)
    ensures
        ({
            let age = math::ticks_since(frame.timer_ms, droplet.spawn_ms) % 65536;
            let tick = life(frame, droplet.spawn_ms);
            let after = swollen(droplet, frame);
            &&& 256 * tick <= age * (2 + frame.speed as int / 4) < 256 * tick + 256
            &&& (after.x, after.y, after.spawn_ms) == (droplet.x, droplet.y, droplet.spawn_ms)
            &&& droplet.amplitude == 0 ==> after == droplet
            &&& droplet.amplitude > 0 && tick >= 1020 ==> after.amplitude == 0
            &&& droplet.amplitude > 0 && tick < 1020 ==> {
                &&& after.amplitude == envelope(tick / 4)
                &&& (tick - after.phase) % 256 == 0
                &&& after.scale * (1 + tick / 8) <= 255 < after.scale * (1 + tick / 8) + 1 + tick
                    / 8
            }
        }),
{
    let tick = life(frame, droplet.spawn_ms);
    let age = math::ticks_since(frame.timer_ms, droplet.spawn_ms) % 65536;
    assert(0 <= age * (2 + frame.speed as int / 4)) by (nonlinear_arith)
        requires
            0 <= age,
            0 <= frame.speed as int / 4,
    ;
    assert(1 + (1 + frame.speed as int / 4) == 2 + frame.speed as int / 4);
    assert(tick / 4 / 2 == tick / 8);
    if droplet.amplitude > 0 && tick < 1020 {
        law_envelope_ends(tick / 4);
        lemma_scale(tick / 8);
    }
}

proof fn lemma_scale(t: int)
    requires
        0 <= t <= 127,
    ensures
        0 <= 255int / (1 + t) <= 255,
        255int / (1 + t) * (1 + t) <= 255 < 255int / (1 + t) * (1 + t) + 1 + t,
{
    math::lemma_quotient(255, 1 + t);
    let q = 255int / (1 + t);
    assert(0 <= q <= 255) by (nonlinear_arith)
        requires
            0 <= t,
            q * (1 + t) <= 255 < q * (1 + t) + 1 + t,
    ;
}

/// A wave spreads as its droplet ages: what an older droplet's scale keeps out
/// of its reach, a younger one's keeps out too.
pub proof fn law_a_wave_widens(
    droplet: Droplet,
    earlier: FrameParams<'_>,
    later: FrameParams<'_>,
    r: int,
)
    requires
        droplet.amplitude > 0,
        0 <= r,
        life(earlier, droplet.spawn_ms) <= life(later, droplet.spawn_ms) < 1020,
        r * swollen(droplet, earlier).scale < 255,
    ensures
        swollen(droplet, later).scale <= swollen(droplet, earlier).scale,
        r * swollen(droplet, later).scale < 255,
{
    law_a_droplet_lives_its_time(droplet, earlier);
    law_a_droplet_lives_its_time(droplet, later);
    let near = life(earlier, droplet.spawn_ms) / 8;
    let far = life(later, droplet.spawn_ms) / 8;
    assert(0 <= life(earlier, droplet.spawn_ms)) by {
        let age = math::ticks_since(earlier.timer_ms, droplet.spawn_ms) % 65536;
        assert(0 <= age * (2 + earlier.speed as int / 4)) by (nonlinear_arith)
            requires
                0 <= age,
                0 <= earlier.speed as int / 4,
        ;
    }
    let (a, b) = (
        swollen(droplet, earlier).scale as int,
        swollen(droplet, later).scale as int,
    );
    assert(b <= a) by (nonlinear_arith)
        requires
            0 <= near <= far,
            255 < a * (1 + near) + 1 + near,
            b * (1 + far) <= 255,
            0 <= b,
    ;
    assert(r * b <= r * a) by (nonlinear_arith)
        requires
            0 <= r,
            b <= a,
    ;
}

/// A droplet falls when its slot is free and the deadline has come; the first
/// frame, and one whose clock was rewound, bring the deadline to their own
/// time.
pub proof fn law_when_a_droplet_falls(model: RippleModel, now: u32)
    ensures
        ({
            let starts = !model.initialized || super::rewound(model.last_timer_ms, now);
            let free = model.drops[model.tail].amplitude == 0;
            &&& starts ==> (model.spawns(now) <==> free)
            &&& !starts ==> (model.spawns(now) <==> free && super::is_due(
                model.next_spawn_ms,
                now,
            ))
            &&& starts ==> model.deadline(now) == now
            &&& !starts ==> model.deadline(now) == model.next_spawn_ms
        }),
{
}

/// A droplet that falls takes the next of the three slots, on the LED that the
/// byte picks, and the one after it falls a second later at the earliest. A
/// frame without one keeps slot and deadline; either way the other droplets
/// only age.
pub proof fn law_a_frame_ages_its_droplets(
    model: RippleModel,
    frame: FrameParams<'_>,
    leds: Seq<(u8, u8)>,
    byte: u8,
    k: int,
)
    requires
        model.wf(),
        leds.len() > 0,
        0 <= k < 3,
    ensures
        ({
            let now = frame.timer_ms;
            let after = model.rippled(frame, leds, byte);
            let at = leds[byte as int % leds.len() as int];
            let falls = model.spawns(now);
            &&& after.wf() && after.initialized && after.last_timer_ms == now
            &&& falls ==> after.drops[model.tail] == swollen(
                Droplet { spawn_ms: now, x: at.0, y: at.1, amplitude: 1, scale: 0, phase: 0 },
                frame,
            )
            &&& !falls || k != model.tail ==> after.drops[k] == swollen(model.drops[k], frame)
            &&& falls ==> math::ticks_since(after.next_spawn_ms, now) == 1000
            &&& !falls ==> after.next_spawn_ms == model.deadline(now)
            &&& falls ==> after.tail == if model.tail == 2 {
                0
            } else {
                model.tail + 1
            }
            &&& !falls ==> after.tail == model.tail
        }),
{
}

/// The three waves add up around the middle of the palette, and the sum stops
/// at its ends.
pub proof fn law_waves_add_up(model: RippleModel, led: (u8, u8))
    ensures
        ({
            let sum = 128 + wave(model.drops[0], led) + wave(model.drops[1], led) + wave(
                model.drops[2],
                led,
            );
            &&& 0 <= sum <= 255 ==> model.level(led) == sum
            &&& sum < 0 ==> model.level(led) == 0
            &&& sum > 255 ==> model.level(led) == 255
        }),
{
}

/// A frame colors each LED of the board by its level, at the saturation and
/// brightness of the frame, and leaves the rest of the buffer alone.
pub proof fn law_the_frame_shows_the_waves(
    model: RippleModel,
    frame: FrameParams<'_>,
    leds: Seq<(u8, u8)>,
    out: Seq<Hsv>,
    i: int,
)
    requires
        0 <= i < out.len(),
    ensures
        ({
            let shown = model.painted(frame, leds, out);
            &&& shown.len() == out.len()
            &&& i >= leds.len() ==> shown[i] == out[i]
            &&& i < leds.len() ==> shown[i] == palette::color_at(
                frame.palette@,
                model.level(leds[i]) as u8,
                frame.sat,
                frame.val,
            )
        }),
{
}

} // verus!
