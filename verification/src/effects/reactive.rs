//! REACTIVE: pressed keys glow and fade, over a dim wash of the palette's
//! first color.
use vstd::prelude::*;

use super::ripple::radial_distance;
use super::{next_slot, FrameParams};
use crate::color;
use crate::color::Hsv;
use crate::layout::LedLayout;
use crate::math;
use crate::math::{scale16by8, scale8};
use crate::palette;
use crate::palette::interp_color;

verus! {

/// Distance from a key, on the half-scale grid, at which its glow has ended.
pub const GLOW_RADIUS: u8 = 21;

/// Levels below this one fade toward the wash.
pub const WASH_LEVEL: u8 = 32;

/// One pressed key.
#[derive(Copy, Clone, Debug, PartialEq, Eq, Structural)]
pub struct Hit {
    pub x: u8,
    pub y: u8,
    pub spawn_ms: u32,
    pub active: bool,
}

/// A slot that holds no press.
pub open spec fn empty_hit() -> Hit {
    Hit { x: 0, y: 0, spawn_ms: 0, active: false }
}

/// Brightness that is left of a press after `elapsed` milliseconds.
pub open spec fn afterglow(elapsed: int, speed: u8) -> int {
    let worn = math::scaled8(elapsed, math::smaller(speed + 16, 255));
    if elapsed > 65535 || worn >= 255 {
        0
    } else {
        255 - worn
    }
}

fn afterglow_of(elapsed: u32, speed: u8) -> (r: u8)
    ensures
        r == afterglow(elapsed as int, speed),
{
    if elapsed > 65535 {
        return 0;
    }
    let worn: u16 = scale16by8(elapsed as u16, speed.saturating_add(16));
    if worn >= 255 {
        0
    } else {
        255 - worn as u8
    }
}

/// Light that a press of brightness `amplitude` at `key` gives the LED at
/// `led`.
pub open spec fn glow(key: (u8, u8), amplitude: int, led: (u8, u8)) -> int {
    let away = super::ripple::half_distance(led, key);
    if away >= GLOW_RADIUS {
        0
    } else {
        math::scaled8(255 - 12 * away, amplitude)
    }
}

fn key_glow(hit: Hit, amplitude: u8, led: (u8, u8)) -> (r: u8)
    ensures
        r == glow((hit.x, hit.y), amplitude as int, led),
{
    let away: u8 = radial_distance(led.0, led.1, hit.x, hit.y);
    if away >= GLOW_RADIUS {
        0
    } else {
        scale8(255 - 12 * away, amplitude)
    }
}

/// What a [`ReactiveState`] holds.
pub struct ReactiveModel {
    /// The remembered presses, by ring slot.
    pub hits: Seq<Hit>,
    /// The slot to be written next.
    pub next: int,
}

impl ReactiveModel {
    /// The state that a new effect with room for `capacity` presses starts in.
    pub open spec fn fresh(capacity: nat) -> ReactiveModel {
        ReactiveModel { hits: Seq::new(capacity, |k: int| empty_hit()), next: 0 }
    }

    /// The state after a press.
    pub open spec fn pressed(self, x: u8, y: u8, now: u32) -> ReactiveModel {
        if self.hits.len() == 0 {
            self
        } else {
            ReactiveModel {
                hits: self.hits.update(self.next, Hit { x, y, spawn_ms: now, active: true }),
                next: super::ring_next(self.next, self.hits.len() as int),
            }
        }
    }

    /// Brightness that is left of the press in slot `k`.
    pub open spec fn amplitude(self, frame: FrameParams<'_>, k: int) -> int {
        if self.hits[k].active {
            afterglow(math::ticks_since(frame.timer_ms, self.hits[k].spawn_ms), frame.speed)
        } else {
            0
        }
    }

    /// The state after a frame: a press that has faded out is forgotten.
    pub open spec fn ticked(self, frame: FrameParams<'_>) -> ReactiveModel {
        ReactiveModel {
            hits: Seq::new(
                self.hits.len(),
                |k: int| Hit { active: self.amplitude(frame, k) > 0, ..self.hits[k] },
            ),
            ..self
        }
    }

    /// Light of the first `n` slots on the LED at `led`, which adds up.
    pub open spec fn level(self, frame: FrameParams<'_>, led: (u8, u8), n: int) -> int
        decreases n,
    {
        if n <= 0 {
            0
        } else {
            let hit = self.hits[n - 1];
            math::smaller(
                self.level(frame, led, n - 1) + if self.amplitude(frame, n - 1) > 0 {
                    glow((hit.x, hit.y), self.amplitude(frame, n - 1), led)
                } else {
                    0
                },
                255,
            )
        }
    }

    /// The color of the LED at `led` over the wash, or, as a layer, over
    /// nothing.
    pub open spec fn pixel(self, frame: FrameParams<'_>, led: (u8, u8), layer: bool) -> Hsv {
        let level = self.level(frame, led, self.hits.len() as int);
        let lit = palette::color_at(frame.palette@, level as u8, frame.sat, frame.val);
        if layer && level == 0 {
            color::black()
        } else if level >= WASH_LEVEL {
            lit
        } else {
            Hsv {
                v: math::scaled8(
                    lit.v as int,
                    if layer {
                        8 * level
                    } else {
                        64 + 6 * level
                    },
                ) as u8,
                ..lit
            }
        }
    }

    /// The frame over the wash. Pixels beyond the layout keep what they held.
    pub open spec fn painted(
        self,
        frame: FrameParams<'_>,
        leds: Seq<(u8, u8)>,
        out: Seq<Hsv>,
    ) -> Seq<Hsv> {
        Seq::new(
            out.len(),
            |i: int|
                if i < leds.len() {
                    self.pixel(frame, leds[i], false)
                } else {
                    out[i]
                },
        )
    }

    /// The frame as a layer: black, but for the pressed keys.
    pub open spec fn layered(self, frame: FrameParams<'_>, leds: Seq<(u8, u8)>, len: nat) -> Seq<
        Hsv,
    > {
        Seq::new(
            len,
            |i: int|
                if i < leds.len() {
                    self.pixel(frame, leds[i], true)
                } else {
                    color::black()
                },
        )
    }
}

/// Ring of the `N` most recent presses.
pub struct ReactiveState<const N: usize> {
    hits: [Hit; N],
    next: usize,
}

impl<const N: usize> View for ReactiveState<N> {
    type V = ReactiveModel;

    closed spec fn view(&self) -> ReactiveModel {
        ReactiveModel { hits: self.hits@, next: self.next as int }
    }
}

impl<const N: usize> Default for ReactiveState<N> {
    fn default() -> (state: Self)
        ensures
            state.wf(),
            state@ == ReactiveModel::fresh(N as nat),
    {
        Self::new()
    }
}

impl<const N: usize> ReactiveState<N> {
    /// The write cursor is in range.
    pub closed spec fn wf(&self) -> bool {
        N > 0 ==> self.next < N
    }

    pub fn new() -> (state: Self)
        ensures
            state.wf(),
            state@ == ReactiveModel::fresh(N as nat),
    {
        let state = Self { hits: [Hit { x: 0, y: 0, spawn_ms: 0, active: false };N], next: 0 };
        assert(state@.hits =~= ReactiveModel::fresh(N as nat).hits);
        state
    }

    /// Records a press of the key at `(x, y)`.
    pub fn record_hit(&mut self, x: u8, y: u8, timer_ms: u32)
        requires
            old(self).wf(),
        ensures
            final(self).wf(),
            final(self)@ == old(self)@.pressed(x, y, timer_ms),
    {
        if N == 0 {
            return ;
        }
        let slot: usize = self.next;
        self.hits[slot] = Hit { x, y, spawn_ms: timer_ms, active: true };
        self.next = next_slot(slot, N);
    }

    /// Forgets the presses that have faded out, and measures the rest.
    fn expire(&mut self, frame: FrameParams<'_>) -> (amplitudes: [u8; N])
        requires
            old(self).wf(),
        ensures
            final(self).wf(),
            final(self)@ == old(self)@.ticked(frame),
            forall|k: int|
                0 <= k < N ==> #[trigger] amplitudes@[k] == final(self)@.amplitude(frame, k),
    {
        let ghost begin = self@;
        let mut amplitudes: [u8; N] = [0;N];
        let mut slot: usize = 0;
        while slot < N
            invariant
                self.wf(),
                slot <= N,
                begin.hits.len() == N,
                self@.next == begin.next,
                forall|k: int|
                    0 <= k < slot ==> #[trigger] self@.hits[k] == begin.ticked(frame).hits[k],
                forall|k: int| slot <= k < N ==> #[trigger] self@.hits[k] == begin.hits[k],
                forall|k: int|
                    0 <= k < slot ==> #[trigger] amplitudes@[k] == begin.amplitude(frame, k),
            decreases N - slot,
        {
            let hit: Hit = self.hits[slot];
            assert(hit == self@.hits[slot as int]);
            let amplitude: u8 = if hit.active {
                afterglow_of(frame.timer_ms.wrapping_sub(hit.spawn_ms), frame.speed)
            } else {
                0
            };
            assert(amplitude == begin.amplitude(frame, slot as int));
            amplitudes[slot] = amplitude;
            self.hits[slot] = Hit { active: amplitude > 0, ..hit };
            slot += 1;
        }
        assert(self@.hits =~= begin.ticked(frame).hits);
        assert forall|k: int| 0 <= k < N implies #[trigger] amplitudes@[k] == self@.amplitude(
            frame,
            k,
        ) by {
            assert(begin.amplitude(frame, k) >= 0);
        }
        amplitudes
    }

    /// The color of one LED.
    fn led(
        &self,
        frame: FrameParams<'_>,
        amplitudes: &[u8; N],
        led: (u8, u8),
        layer: bool,
    ) -> (color: Hsv)
        requires
            forall|k: int| 0 <= k < N ==> #[trigger] amplitudes@[k] == self@.amplitude(frame, k),
        ensures
            color == self@.pixel(frame, led, layer),
    {
        let ghost model = self@;
        let mut level: u8 = 0;
        let mut slot: usize = 0;
        while slot < N
            invariant
                model == self@,
                model.hits.len() == N,
                slot <= N,
                forall|k: int|
                    0 <= k < N ==> #[trigger] amplitudes@[k] == model.amplitude(frame, k),
                level == model.level(frame, led, slot as int),
            decreases N - slot,
        {
            let hit: Hit = self.hits[slot];
            let amplitude: u8 = amplitudes[slot];
            assert(hit == model.hits[slot as int]);
            assert(amplitude == model.amplitude(frame, slot as int));
            if amplitude > 0 {
                level = level.saturating_add(key_glow(hit, amplitude, led));
            }
            slot += 1;
        }
        if layer && level == 0 {
            return Hsv::default();
        }
        let lit: Hsv = interp_color(frame.palette, level, frame.sat, frame.val);
        if level >= WASH_LEVEL {
            return lit;
        }
        let share: u8 = if layer {
            8 * level
        } else {
            64 + 6 * level
        };
        Hsv { v: scale8(lit.v, share), ..lit }
    }

    fn paint<L: LedLayout>(
        &self,
        layout: &L,
        frame: FrameParams<'_>,
        amplitudes: &[u8; N],
        layer: bool,
        out: &mut [Hsv],
    )
        requires
            forall|k: int| 0 <= k < N ==> #[trigger] amplitudes@[k] == self@.amplitude(frame, k),
        ensures
            final(out)@ == Seq::new(
                old(out)@.len(),
                |i: int|
                    if i < layout.leds().len() {
                        self@.pixel(frame, layout.leds()[i], layer)
                    } else {
                        old(out)@[i]
                    },
            ),
    {
        let ghost start = out@;
        let count: usize = layout.count();
        let len: usize = out.len();
        let mut i: usize = 0;
        while i < len && i < count
            invariant
                i <= len,
                i <= count,
                len == out@.len(),
                len == start.len(),
                count == layout.leds().len(),
                forall|k: int|
                    0 <= k < N ==> #[trigger] amplitudes@[k] == self@.amplitude(frame, k),
                forall|j: int|
                    0 <= j < i ==> out@[j] == self@.pixel(frame, layout.leds()[j], layer),
                forall|j: int| i <= j < len ==> out@[j] == start[j],
            decreases len - i,
        {
            out[i] = self.led(frame, amplitudes, layout.position(i), layer);
            i += 1;
        }
        assert(out@ =~= Seq::new(
            start.len(),
            |i: int|
                if i < layout.leds().len() {
                    self@.pixel(frame, layout.leds()[i], layer)
                } else {
                    start[i]
                },
        ));
    }

    /// Renders the pressed keys over the dim wash.
    pub fn tick<L: LedLayout>(&mut self, layout: &L, params: FrameParams<'_>, out: &mut [Hsv])
        requires
            old(self).wf(),
        ensures
            final(self).wf(),
            final(self)@ == old(self)@.ticked(params),
            final(out)@ == final(self)@.painted(params, layout.leds(), old(out)@),
    {
        let amplitudes: [u8; N] = self.expire(params);
        let ghost start = out@;
        self.paint(layout, params, &amplitudes, false, out);
        assert(out@ =~= self@.painted(params, layout.leds(), start));
    }

    /// Renders the pressed keys alone: everything else is transparent.
    pub fn tick_layer<L: LedLayout>(&mut self, layout: &L, params: FrameParams<'_>, out: &mut [Hsv])
        requires
            old(self).wf(),
        ensures
            final(self).wf(),
            final(self)@ == old(self)@.ticked(params),
            final(out)@ == final(self)@.layered(params, layout.leds(), old(out)@.len()),
    {
        let amplitudes: [u8; N] = self.expire(params);
        super::fill(out, Hsv::default());
        let ghost start = out@;
        self.paint(layout, params, &amplitudes, true, out);
        assert(out@ =~= self@.layered(params, layout.leds(), start.len()));
    }
}

/// An idle layer covers nothing: without a press that still glows every pixel
/// is transparent.
pub proof fn law_an_idle_layer_is_transparent(
    model: ReactiveModel,
    frame: FrameParams<'_>,
    leds: Seq<(u8, u8)>,
    len: nat,
)
    requires
        forall|k: int| 0 <= k < model.hits.len() ==> #[trigger] model.amplitude(frame, k) == 0,
    ensures
        model.ticked(frame).layered(frame, leds, len) == Seq::new(len, |i: int| color::black()),
{
    let after = model.ticked(frame);
    assert forall|i: int| 0 <= i < len && i < leds.len() implies after.pixel(frame, leds[i], true)
        == color::black() by {
        assert forall|k: int| 0 <= k < after.hits.len() implies !(#[trigger] after.hits[k]).active by {
            assert(model.amplitude(frame, k) == 0);
        }
        lemma_idle(after, frame, leds[i], after.hits.len() as int);
    }
    assert(after.layered(frame, leds, len) =~= Seq::new(len, |i: int| color::black()));
}

proof fn lemma_idle(model: ReactiveModel, frame: FrameParams<'_>, led: (u8, u8), n: int)
    requires
        n <= model.hits.len(),
        forall|k: int| 0 <= k < model.hits.len() ==> !(#[trigger] model.hits[k]).active,
    ensures
        model.level(frame, led, n) == 0,
    decreases n,
{
    if n > 0 {
        lemma_idle(model, frame, led, n - 1);
        assert(!model.hits[n - 1].active);
    }
}

/// A press glows at full brightness and fades with the time: of every 256
/// milliseconds the speed wears off `speed + 17`, 256 at most, and nothing is
/// left once 255 are worn off or the clock's low half has passed.
pub proof fn law_a_press_fades_with_the_clock(elapsed: int, speed: u8)
    requires
        0 <= elapsed,
    ensures
        ({
            let pace = if speed <= 238 {
                speed + 17
            } else {
                256
            };
            let left = afterglow(elapsed, speed);
            &&& 0 <= left <= 255
            &&& elapsed > 65535 || elapsed * pace >= 255 * 256 ==> left == 0
            &&& elapsed <= 65535 && elapsed * pace < 255 * 256 ==> 256 * (255 - left) <= elapsed
                * pace < 256 * (255 - left) + 256
            &&& afterglow(0, speed) == 255
        }),
{
    let pace = if speed <= 238 {
        speed + 17
    } else {
        256
    };
    assert(1 + math::smaller(speed + 16, 255) == pace);
    assert(0 <= elapsed * pace) by (nonlinear_arith)
        requires
            0 <= elapsed,
            0 <= pace,
    ;
    assert(0 * pace == 0);
    assert(math::scaled8(elapsed, math::smaller(speed + 16, 255)) == elapsed * pace / 256);
    assert(math::scaled8(0, math::smaller(speed + 16, 255)) == 0);
}

/// A glow loses 12 parts a step and ends 21 steps from its key.
pub proof fn law_a_glow_ends_around_its_key(key: (u8, u8), amplitude: int, led: (u8, u8))
    ensures
        ({
            let away = super::ripple::half_distance(led, key);
            &&& away >= 21 ==> glow(key, amplitude, led) == 0
            &&& away < 21 ==> glow(key, amplitude, led) == math::scaled8(
                255 - 12 * away,
                amplitude,
            )
        }),
{
}

/// A press is remembered in the next slot, at its place and time; every other
/// one stays.
pub proof fn law_a_press_takes_one_slot(model: ReactiveModel, x: u8, y: u8, now: u32, k: int)
    requires
        0 <= model.next < model.hits.len(),
        0 <= k < model.hits.len(),
    ensures
        ({
            let after = model.pressed(x, y, now);
            &&& after.hits.len() == model.hits.len()
            &&& after.hits[model.next] == (Hit { x, y, spawn_ms: now, active: true })
            &&& k != model.next ==> after.hits[k] == model.hits[k]
            &&& after.next == super::ring_next(model.next, model.hits.len() as int)
        }),
{
}

/// A frame forgets the presses that have faded out and changes nothing else.
pub proof fn law_a_frame_forgets_what_has_faded(
    model: ReactiveModel,
    frame: FrameParams<'_>,
    k: int,
)
    requires
        0 <= k < model.hits.len(),
    ensures
        ({
            let after = model.ticked(frame);
            let left = afterglow(
                math::ticks_since(frame.timer_ms, model.hits[k].spawn_ms),
                frame.speed,
            );
            &&& after.hits.len() == model.hits.len() && after.next == model.next
            &&& after.hits[k] == (Hit {
                active: model.hits[k].active && left > 0,
                ..model.hits[k]
            })
            &&& model.hits[k].active ==> model.amplitude(frame, k) == left
            &&& !model.hits[k].active ==> model.amplitude(frame, k) == 0
        }),
{
}

/// Glows add up, and the sum stops at 255: one more slot adds its own light,
/// if it still glows.
pub proof fn law_glows_add_up(model: ReactiveModel, frame: FrameParams<'_>, led: (u8, u8), n: int)
    requires
        0 <= n,
    ensures
        ({
            let hit = model.hits[n];
            let amplitude = model.amplitude(frame, n);
            let own = if amplitude > 0 {
                glow((hit.x, hit.y), amplitude, led)
            } else {
                0
            };
            let before = model.level(frame, led, n);
            let after = model.level(frame, led, n + 1);
            &&& model.level(frame, led, 0) == 0
            &&& before + own <= 255 ==> after == before + own
            &&& before + own > 255 ==> after == 255
        }),
{
}

/// An LED wears the palette color of its level. Below 32 that fades: over the
/// wash to a quarter of its value, as a layer to nothing.
pub proof fn law_low_levels_fade(
    model: ReactiveModel,
    frame: FrameParams<'_>,
    led: (u8, u8),
    layer: bool,
)
    ensures
        ({
            let level = model.level(frame, led, model.hits.len() as int);
            let lit = palette::color_at(frame.palette@, level as u8, frame.sat, frame.val);
            let color = model.pixel(frame, led, layer);
            &&& level >= 32 ==> color == lit
            &&& layer && level == 0 ==> color == (Hsv { h: 0, s: 0, v: 0 })
            &&& level < 32 && !(layer && level == 0) ==> color.h == lit.h && color.s == lit.s
            &&& 0 < level < 32 && layer ==> color.v == math::scaled8(
                lit.v as int,
                8 * level,
            ) as u8
            &&& level < 32 && !layer ==> color.v == math::scaled8(
                lit.v as int,
                64 + 6 * level,
            ) as u8
        }),
{
}

/// A layer covers the board alone and is black beyond it.
pub proof fn law_a_layer_is_black_beyond_the_board(
    model: ReactiveModel,
    frame: FrameParams<'_>,
    leds: Seq<(u8, u8)>,
    len: nat,
    i: int,
)
    requires
        0 <= i < len,
    ensures
        model.layered(frame, leds, len).len() == len,
        i < leds.len() ==> model.layered(frame, leds, len)[i] == model.pixel(frame, leds[i], true),
        i >= leds.len() ==> model.layered(frame, leds, len)[i] == (Hsv { h: 0, s: 0, v: 0 }),
{
}

} // verus!
