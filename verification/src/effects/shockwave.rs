//! SHOCKWAVE: expanding rings launched by key presses.
use vstd::prelude::*;

use super::ripple::radial_distance;
use super::{lifetime_ms, next_slot, press_color, progress, FrameParams};
use crate::color;
use crate::color::Hsv;
use crate::layout::LedLayout;
use crate::math;
use crate::math::{abs_diff, scale255, soft_edge};
use crate::palette;
use crate::palette::interp_color;

verus! {

/// Lifetime of a ring at the nominal pace.
pub const BASE_DURATION_MS: u32 = 900;

/// Half-width of a ring.
pub const RING_HALF_WIDTH: u8 = 9;

/// One expanding ring.
#[derive(Copy, Clone, Debug, PartialEq, Eq, Structural)]
pub struct ShockwaveHit {
    pub x: u8,
    pub y: u8,
    /// Distance to the LED farthest from the key, which the ring reaches at
    /// the end of its life.
    pub max_radius: u8,
    pub spawn_ms: u32,
    pub palette_pos: u8,
    pub active: bool,
}

/// A slot that holds no ring.
pub open spec fn empty_hit() -> ShockwaveHit {
    ShockwaveHit { x: 0, y: 0, max_radius: 0, spawn_ms: 0, palette_pos: 0, active: false }
}

/// Lifetime of a ring at `speed`.
pub open spec fn span(speed: u8) -> int {
    super::lifetime(BASE_DURATION_MS as int, speed)
}

/// See [`span`].
pub fn duration_ms(speed: u8) -> (ms: u32)
    ensures
        ms == span(speed),
        1 <= ms,
{
    lifetime_ms(BASE_DURATION_MS, speed)
}

/// Distance from `(x, y)` to the farthest of the first `n` LEDs.
pub open spec fn farthest(leds: Seq<(u8, u8)>, x: u8, y: u8, n: int) -> int
    decreases n,
{
    if n <= 0 {
        0
    } else {
        math::larger(
            farthest(leds, x, y, n - 1),
            super::ripple::half_distance((x, y), leds[n - 1]),
        )
    }
}

fn farthest_led<L: LedLayout>(layout: &L, x: u8, y: u8) -> (r: u8)
    ensures
        r == farthest(layout.leds(), x, y, layout.leds().len() as int),
{
    let count: usize = layout.count();
    let mut found: u8 = 0;
    let mut i: usize = 0;
    while i < count
        invariant
            i <= count,
            count == layout.leds().len(),
            found == farthest(layout.leds(), x, y, i as int),
        decreases count - i,
    {
        let (led_x, led_y) = layout.position(i);
        let distance: u8 = radial_distance(x, y, led_x, led_y);
        if distance > found {
            found = distance;
        }
        i += 1;
    }
    found
}

/// Radius of a ring.
pub open spec fn radius(hit: ShockwaveHit, progress: int) -> int {
    math::scaled255(hit.max_radius as int, progress)
}

/// Light that a ring gives the LED at `led`: brightest on the ring itself, and
/// fading over its life.
pub open spec fn wave_light(hit: ShockwaveHit, led: (u8, u8), progress: int) -> int {
    let away = super::ripple::half_distance(led, (hit.x, hit.y));
    math::scaled255(
        math::edge_falloff(math::distance(away, radius(hit, progress)), RING_HALF_WIDTH as int),
        255 - progress,
    )
}

fn wave_value(hit: ShockwaveHit, led: (u8, u8), progress: u8) -> (r: u8)
    ensures
        r == wave_light(hit, led, progress as int),
{
    let away: u8 = radial_distance(led.0, led.1, hit.x, hit.y);
    let delta: u8 = abs_diff(away, scale255(hit.max_radius, progress));
    scale255(soft_edge(delta as u32, RING_HALF_WIDTH as u32), 255 - progress)
}

/// What a [`ShockwaveState`] holds.
pub struct ShockwaveModel {
    /// The remembered rings, by ring slot.
    pub hits: Seq<ShockwaveHit>,
    /// The slot to be written next.
    pub next: int,
    pub color_step: u8,
}

impl ShockwaveModel {
    /// The state that a new effect with room for `capacity` rings starts in.
    pub open spec fn fresh(capacity: nat) -> ShockwaveModel {
        ShockwaveModel { hits: Seq::new(capacity, |k: int| empty_hit()), next: 0, color_step: 0 }
    }

    /// The ring that a press of the key at `(x, y)` launches.
    pub open spec fn launched(self, leds: Seq<(u8, u8)>, x: u8, y: u8, now: u32) -> ShockwaveHit {
        ShockwaveHit {
            x,
            y,
            max_radius: farthest(leds, x, y, leds.len() as int) as u8,
            spawn_ms: now,
            palette_pos: super::key_color(x, y, self.color_step),
            active: true,
        }
    }

    /// The state after a press.
    pub open spec fn pressed(self, leds: Seq<(u8, u8)>, x: u8, y: u8, now: u32) -> ShockwaveModel {
        if self.hits.len() == 0 {
            self
        } else {
            ShockwaveModel {
                hits: self.hits.update(self.next, self.launched(leds, x, y, now)),
                next: super::ring_next(self.next, self.hits.len() as int),
                color_step: math::byte_sum(self.color_step as int, 29),
            }
        }
    }

    /// How long slot `k` has been running.
    pub open spec fn age(self, frame: FrameParams<'_>, k: int) -> int {
        math::ticks_since(frame.timer_ms, self.hits[k].spawn_ms)
    }

    /// Whether slot `k` is lit in a frame.
    pub open spec fn live(self, frame: FrameParams<'_>, k: int) -> bool {
        self.hits[k].active && self.age(frame, k) < span(frame.speed)
    }

    /// Share of its lifetime that slot `k` has behind it.
    pub open spec fn share(self, frame: FrameParams<'_>, k: int) -> int {
        super::share(self.age(frame, k), span(frame.speed))
    }

    /// Whether every active slot is lit in a frame, with its share in
    /// `shares`.
    pub open spec fn measured(self, frame: FrameParams<'_>, shares: Seq<u8>) -> bool {
        forall|k: int|
            #![trigger shares[k]]
            0 <= k < self.hits.len() && self.hits[k].active ==> self.live(frame, k)
                && shares[k] == self.share(frame, k)
    }

    /// The state after a frame: what has outlived its time goes out for good.
    pub open spec fn ticked(self, frame: FrameParams<'_>) -> ShockwaveModel {
        ShockwaveModel {
            hits: Seq::new(
                self.hits.len(),
                |k: int| ShockwaveHit { active: self.live(frame, k), ..self.hits[k] },
            ),
            ..self
        }
    }

    /// Strongest light on the LED at `led` from the first `n` slots, and the
    /// palette position of the first slot that gives it.
    pub open spec fn strongest(self, frame: FrameParams<'_>, led: (u8, u8), n: int) -> (int, u8)
        decreases n,
    {
        if n <= 0 {
            (0, 0)
        } else {
            let rest = self.strongest(frame, led, n - 1);
            let light = wave_light(self.hits[n - 1], led, self.share(frame, n - 1));
            if self.live(frame, n - 1) && light > rest.0 {
                (light, math::byte_sum(
                    self.hits[n - 1].palette_pos as int,
                    self.share(frame, n - 1) / 3,
                ))
            } else {
                rest
            }
        }
    }

    /// The color of the LED at `led`.
    pub open spec fn pixel(self, frame: FrameParams<'_>, led: (u8, u8)) -> Hsv {
        let (light, position) = self.strongest(frame, led, self.hits.len() as int);
        if light == 0 {
            color::black()
        } else {
            palette::color_at(
                frame.palette@,
                position,
                frame.sat,
                math::scaled255(light, frame.val as int) as u8,
            )
        }
    }

    /// The frame: black, but for what is lit.
    pub open spec fn painted(self, frame: FrameParams<'_>, leds: Seq<(u8, u8)>, len: nat) -> Seq<
        Hsv,
    > {
        Seq::new(
            len,
            |i: int|
                if i < leds.len() {
                    self.pixel(frame, leds[i])
                } else {
                    color::black()
                },
        )
    }
}

/// Ring of the `N` most recent shockwaves.
pub struct ShockwaveState<const N: usize> {
    hits: [ShockwaveHit; N],
    next: usize,
    color_step: u8,
}

impl<const N: usize> View for ShockwaveState<N> {
    type V = ShockwaveModel;

    closed spec fn view(&self) -> ShockwaveModel {
        ShockwaveModel {
            hits: self.hits@,
            next: self.next as int,
            color_step: self.color_step,
        }
    }
}

impl<const N: usize> Default for ShockwaveState<N> {
    fn default() -> (state: Self)
        ensures
            state.wf(),
            state@ == ShockwaveModel::fresh(N as nat),
    {
        Self::new()
    }
}

impl<const N: usize> ShockwaveState<N> {
    /// The write cursor is in range.
    pub closed spec fn wf(&self) -> bool {
        N > 0 ==> self.next < N
    }

    pub fn new() -> (state: Self)
        ensures
            state.wf(),
            state@ == ShockwaveModel::fresh(N as nat),
    {
        let state = Self {
            hits: [ShockwaveHit {
                x: 0,
                y: 0,
                max_radius: 0,
                spawn_ms: 0,
                palette_pos: 0,
                active: false,
            };N],
            next: 0,
            color_step: 0,
        };
        assert(state@.hits =~= ShockwaveModel::fresh(N as nat).hits);
        state
    }

    /// Records a press of the key at `(x, y)`.
    pub fn record_hit<L: LedLayout>(&mut self, layout: &L, x: u8, y: u8, timer_ms: u32)
        requires
            old(self).wf(),
        ensures
            final(self).wf(),
            final(self)@ == old(self)@.pressed(layout.leds(), x, y, timer_ms),
    {
        if N == 0 {
            return ;
        }
        let hit = ShockwaveHit {
            x,
            y,
            max_radius: farthest_led(layout, x, y),
            spawn_ms: timer_ms,
            palette_pos: press_color(x, y, self.color_step),
            active: true,
        };
        let slot: usize = self.next;
        self.hits[slot] = hit;
        self.next = next_slot(slot, N);
        self.color_step = self.color_step.wrapping_add(29);
    }

    /// Puts out what has outlived its time, and measures the rest.
    fn expire(&mut self, frame: FrameParams<'_>) -> (shares: [u8; N])
        requires
            old(self).wf(),
        ensures
            final(self).wf(),
            final(self)@ == old(self)@.ticked(frame),
            final(self)@.measured(frame, shares@),
    {
        let ghost begin = self@;
        let duration: u32 = duration_ms(frame.speed);
        let mut shares: [u8; N] = [0;N];
        let mut slot: usize = 0;
        while slot < N
            invariant
                self.wf(),
                slot <= N,
                begin.hits.len() == N,
                duration == span(frame.speed),
                self@ == (ShockwaveModel { hits: self@.hits, ..begin }),
                forall|k: int|
                    0 <= k < slot ==> #[trigger] self@.hits[k] == begin.ticked(frame).hits[k],
                forall|k: int| slot <= k < N ==> #[trigger] self@.hits[k] == begin.hits[k],
                forall|k: int|
                    0 <= k < slot && begin.live(frame, k) ==> #[trigger] shares@[k] == begin.share(
                        frame,
                        k,
                    ),
            decreases N - slot,
        {
            let hit: ShockwaveHit = self.hits[slot];
            assert(hit == self@.hits[slot as int]);
            if hit.active {
                let elapsed: u32 = frame.timer_ms.wrapping_sub(hit.spawn_ms);
                if elapsed >= duration {
                    self.hits[slot] = ShockwaveHit { active: false, ..hit };
                } else {
                    shares[slot] = progress(elapsed, duration);
                }
            }
            slot += 1;
        }
        assert(self@.hits =~= begin.ticked(frame).hits);
        assert forall|k: int|
            #![trigger shares@[k]]
            0 <= k < N && self@.hits[k].active implies self@.live(frame, k) && shares@[k]
            == self@.share(frame, k) by {
            assert(begin.live(frame, k));
        }
        shares
    }

    /// The color of one LED.
    fn led(&self, frame: FrameParams<'_>, shares: &[u8; N], led: (u8, u8)) -> (color: Hsv)
        requires
            self.wf(),
            self@.measured(frame, shares@),
        ensures
            color == self@.pixel(frame, led),
    {
        let ghost model = self@;
        let mut light: u8 = 0;
        let mut position: u8 = 0;
        let mut slot: usize = 0;
        while slot < N
            invariant
                self.wf(),
                model == self@,
                model.hits.len() == N,
                slot <= N,
                model.measured(frame, shares@),
                (light as int, position) == model.strongest(frame, led, slot as int),
            decreases N - slot,
        {
            let hit: ShockwaveHit = self.hits[slot];
            let share: u8 = shares[slot];
            assert(hit == model.hits[slot as int]);
            if hit.active {
                assert(share == model.share(frame, slot as int) && model.live(frame, slot as int));
                let value: u8 = wave_value(hit, led, share);
                if value > light {
                    light = value;
                    position = hit.palette_pos.wrapping_add(share / 3);
                }
            }
            slot += 1;
        }
        if light == 0 {
            return Hsv::default();
        }
        interp_color(frame.palette, position, frame.sat, scale255(light, frame.val))
    }

    fn render<L: LedLayout>(&mut self, layout: &L, frame: FrameParams<'_>, out: &mut [Hsv])
        requires
            old(self).wf(),
        ensures
            final(self).wf(),
            final(self)@ == old(self)@.ticked(frame),
            final(out)@ == final(self)@.painted(frame, layout.leds(), old(out)@.len()),
    {
        super::fill(out, Hsv::default());
        let shares: [u8; N] = self.expire(frame);
        let ghost model = self@;
        let count: usize = layout.count();
        let len: usize = out.len();
        let mut i: usize = 0;
        while i < len && i < count
            invariant
                self.wf(),
                model == self@,
                i <= len,
                i <= count,
                len == out@.len(),
                count == layout.leds().len(),
                model.measured(frame, shares@),
                forall|j: int| 0 <= j < i ==> out@[j] == model.pixel(frame, layout.leds()[j]),
                forall|j: int| i <= j < len ==> out@[j] == color::black(),
            decreases len - i,
        {
            out[i] = self.led(frame, &shares, layout.position(i));
            i += 1;
        }
        assert(out@ =~= model.painted(frame, layout.leds(), len as nat));
    }

    /// Renders over black.
    pub fn tick<L: LedLayout>(&mut self, layout: &L, frame: FrameParams<'_>, out: &mut [Hsv])
        requires
            old(self).wf(),
        ensures
            final(self).wf(),
            final(self)@ == old(self)@.ticked(frame),
            final(out)@ == final(self)@.painted(frame, layout.leds(), old(out)@.len()),
    {
        self.render(layout, frame, out);
    }

    /// Renders as a layer: black is transparent.
    pub fn tick_layer<L: LedLayout>(&mut self, layout: &L, frame: FrameParams<'_>, out: &mut [Hsv])
        requires
            old(self).wf(),
        ensures
            final(self).wf(),
            final(self)@ == old(self)@.ticked(frame),
            final(out)@ == final(self)@.painted(frame, layout.leds(), old(out)@.len()),
    {
        self.render(layout, frame, out);
    }
}

/// A ring lights nothing farther from it than its half-width.
pub proof fn law_a_ring_is_narrow(hit: ShockwaveHit, led: (u8, u8), progress: int)
    requires
        0 <= progress <= 255,
        math::distance(
            super::ripple::half_distance(led, (hit.x, hit.y)),
            radius(hit, progress),
        ) > RING_HALF_WIDTH,
    ensures
        wave_light(hit, led, progress) == 0,
{
    assert(0 * (255 - progress) == 0);
}

/// A ring starts on the key, only ever moves away from it, and never passes
/// the farthest LED.
pub proof fn law_a_ring_moves_away(hit: ShockwaveHit, progress: int, later: int)
    requires
        0 <= progress <= later <= 255,
    ensures
        radius(hit, 0) == 0,
        radius(hit, progress) <= radius(hit, later) <= hit.max_radius,
        radius(hit, 255) == hit.max_radius,
{
    let most = hit.max_radius as int;
    assert(most * 0 == 0);
    assert(most * progress <= most * later <= most * 255) by (nonlinear_arith)
        requires
            0 <= most,
            0 <= progress <= later <= 255,
    ;
}

/// The key itself is fully lit at the moment it is pressed.
pub proof fn law_a_ring_starts_on_the_key(hit: ShockwaveHit)
    ensures
        wave_light(hit, (hit.x, hit.y), 0) == 255,
{
    assert(math::is_root(0, 0));
    math::law_root_is_unique(0, 0);
    assert(super::ripple::half_distance((hit.x, hit.y), (hit.x, hit.y)) == 0);
    assert(hit.max_radius * 0 == 0);
    assert(math::edge_falloff(0, RING_HALF_WIDTH as int) == 255);
    assert(math::scaled255(255, 255) == 255);
}

/// Once every lifetime is over the whole frame is black, and stays so.
pub proof fn law_expired_is_transparent(
    model: ShockwaveModel,
    frame: FrameParams<'_>,
    leds: Seq<(u8, u8)>,
    len: nat,
)
    requires
        forall|k: int|
            0 <= k < model.hits.len() && (#[trigger] model.hits[k]).active ==> model.age(frame, k)
                >= span(frame.speed),
    ensures
        model.ticked(frame).painted(frame, leds, len) == Seq::new(len, |i: int| color::black()),
        forall|k: int|
            0 <= k < model.hits.len() ==> !(#[trigger] model.ticked(frame).hits[k]).active,
{
    let after = model.ticked(frame);
    assert forall|k: int| 0 <= k < model.hits.len() implies !(#[trigger] after.hits[k]).active by {
        assert(model.hits[k].active ==> model.age(frame, k) >= span(frame.speed));
    }
    assert forall|i: int| 0 <= i < len && i < leds.len() implies after.pixel(frame, leds[i])
        == color::black() by {
        lemma_dark(after, frame, leds[i], after.hits.len() as int);
    }
    assert(after.painted(frame, leds, len) =~= Seq::new(len, |i: int| color::black()));
}

proof fn lemma_dark(model: ShockwaveModel, frame: FrameParams<'_>, led: (u8, u8), n: int)
    requires
        n <= model.hits.len(),
        forall|k: int| 0 <= k < model.hits.len() ==> !(#[trigger] model.hits[k]).active,
    ensures
        model.strongest(frame, led, n) == (0int, 0u8),
    decreases n,
{
    if n > 0 {
        lemma_dark(model, frame, led, n - 1);
        assert(!model.hits[n - 1].active);
    }
}

/// The radius of a ring is its share of the way to the farthest LED, rounded
/// to the nearest step.
pub proof fn law_a_ring_grows_evenly(hit: ShockwaveHit, progress: int)
    ensures
        -127 <= hit.max_radius * progress - 255 * radius(hit, progress) <= 127,
{
}

/// A ring shines within 9 steps of its radius, brightest on it, and dims over
/// its life: an LED farther in or farther out than that gets nothing, and one
/// nearer gets the soft edge of its distance from the ring.
pub proof fn law_a_ring_shines_on_its_radius(hit: ShockwaveHit, led: (u8, u8), progress: int)
    requires
        0 <= progress < 255,
    ensures
        ({
            let off = super::ripple::half_distance(led, (hit.x, hit.y)) - radius(hit, progress);
            let light = wave_light(hit, led, progress);
            &&& off > 9 || off < -9 ==> light == 0
            &&& -9 <= off <= 9 ==> light == math::scaled255(
                math::edge_falloff(
                    if off >= 0 {
                        off
                    } else {
                        -off
                    },
                    9,
                ),
                255 - progress,
            )
            &&& off == 0 ==> light == 255 - progress
        }),
{
    assert(0 * (255 - progress) == 0);
    assert(math::edge_falloff(0, 9) == 255);
}

/// A ring reaches for the farthest LED: none of the board is farther from the
/// key, and one is as far, unless all sit on it.
pub proof fn law_a_ring_reaches_the_farthest_led(
    leds: Seq<(u8, u8)>,
    x: u8,
    y: u8,
    n: int,
    k: int,
)
    requires
        0 <= k < n <= leds.len(),
    ensures
        super::ripple::half_distance((x, y), leds[k]) <= farthest(leds, x, y, n),
        exists|j: int|
            0 <= j < n && super::ripple::half_distance((x, y), #[trigger] leds[j])
                == farthest(leds, x, y, n),
    decreases n,
{
    let last = super::ripple::half_distance((x, y), leds[n - 1]);
    let before = farthest(leds, x, y, n - 1);
    super::ripple::lemma_half_distance((x, y), leds[n - 1]);
    if n > 1 {
        law_a_ring_reaches_the_farthest_led(
            leds,
            x,
            y,
            n - 1,
            if k < n - 1 {
                k
            } else {
                0
            },
        );
        if last < before {
            let j = choose|j: int|
                0 <= j < n - 1 && super::ripple::half_distance((x, y), #[trigger] leds[j])
                    == before;
            assert(super::ripple::half_distance((x, y), leds[j]) == farthest(leds, x, y, n));
        } else {
            assert(super::ripple::half_distance((x, y), leds[n - 1]) == farthest(leds, x, y, n));
        }
    } else {
        assert(farthest(leds, x, y, 0) == 0);
        assert(super::ripple::half_distance((x, y), leds[0]) == farthest(leds, x, y, n));
    }
}

/// A press launches one ring, around its own key, in the next slot; it starts
/// at the press's time in the color of its key and step, and reaches for the
/// farthest LED. Every other ring stays, and the color moves on by 29.
pub proof fn law_a_press_launches_one_ring(
    model: ShockwaveModel,
    leds: Seq<(u8, u8)>,
    x: u8,
    y: u8,
    now: u32,
    k: int,
)
    requires
        model.hits.len() > 0,
        0 <= model.next < model.hits.len(),
        0 <= k < model.hits.len(),
    ensures
        ({
            let after = model.pressed(leds, x, y, now);
            let ring = after.hits[model.next];
            &&& after.hits.len() == model.hits.len()
            &&& ring.active && ring.spawn_ms == now && (ring.x, ring.y) == (x, y)
            &&& ring.palette_pos == super::key_color(x, y, model.color_step)
            &&& ring.max_radius == farthest(leds, x, y, leds.len() as int) as u8
            &&& k != model.next ==> after.hits[k] == model.hits[k]
            &&& after.next == super::ring_next(model.next, model.hits.len() as int)
            &&& after.color_step == math::byte_sum(model.color_step as int, 29)
        }),
{
}

/// A ring is lit from its press until its lifetime of 900 milliseconds,
/// paced by the speed, is over; a frame puts out what is not lit and changes
/// nothing else.
pub proof fn law_rings_live_their_time(model: ShockwaveModel, frame: FrameParams<'_>, k: int)
    requires
        0 <= k < model.hits.len(),
    ensures
        ({
            let elapsed = math::ticks_since(frame.timer_ms, model.hits[k].spawn_ms);
            let after = model.ticked(frame);
            let lit = model.hits[k].active && elapsed < super::lifetime(900, frame.speed);
            &&& model.live(frame, k) == lit
            &&& after.hits.len() == model.hits.len()
            &&& after.hits[k] == (ShockwaveHit { active: lit, ..model.hits[k] })
            &&& after.next == model.next && after.color_step == model.color_step
            &&& model.share(frame, k) == super::share(elapsed, super::lifetime(900, frame.speed))
        }),
{
}

/// The light of one slot on an LED, whether or not it is lit.
spec fn slot_light(model: ShockwaveModel, frame: FrameParams<'_>, led: (u8, u8), k: int) -> int {
    wave_light(model.hits[k], led, model.share(frame, k))
}

/// The palette position that one slot wears at its age.
spec fn slot_color(model: ShockwaveModel, frame: FrameParams<'_>, k: int) -> u8 {
    math::byte_sum(model.hits[k].palette_pos as int, model.share(frame, k) / 3)
}

/// Whether slot `k` is the first of those that give the LED the most light.
spec fn leads(
    model: ShockwaveModel,
    frame: FrameParams<'_>,
    led: (u8, u8),
    n: int,
    k: int,
) -> bool {
    &&& 0 <= k < n
    &&& model.live(frame, k)
    &&& slot_light(model, frame, led, k) == model.strongest(frame, led, n).0
    &&& slot_color(model, frame, k) == model.strongest(frame, led, n).1
    &&& forall|j: int|
        0 <= j < k && model.live(frame, j) ==> #[trigger] slot_light(model, frame, led, j)
            < model.strongest(frame, led, n).0
}

proof fn lemma_strongest(model: ShockwaveModel, frame: FrameParams<'_>, led: (u8, u8), n: int)
    requires
        0 <= n <= model.hits.len(),
    ensures
        ({
            let light = model.strongest(frame, led, n).0;
            &&& 0 <= light
            &&& forall|k: int|
                0 <= k < n && model.live(frame, k) ==> #[trigger] slot_light(model, frame, led, k)
                    <= light
            &&& light > 0 ==> exists|k: int| #[trigger] leads(model, frame, led, n, k)
        }),
    decreases n,
{
    if n > 0 {
        lemma_strongest(model, frame, led, n - 1);
        let rest = model.strongest(frame, led, n - 1);
        let own = slot_light(model, frame, led, n - 1);
        if model.live(frame, n - 1) && own > rest.0 {
            assert(leads(model, frame, led, n, n - 1));
        } else if rest.0 > 0 {
            let k = choose|k: int| #[trigger] leads(model, frame, led, n - 1, k);
            assert(leads(model, frame, led, n, k));
        }
    }
}

/// An LED shows the ring that lights it most, and of several equal ones the
/// one in the first slot: no lit one gives more than what shows.
pub proof fn law_the_strongest_ring_shows(
    model: ShockwaveModel,
    frame: FrameParams<'_>,
    led: (u8, u8),
    n: int,
    k: int,
)
    requires
        0 <= k < n <= model.hits.len(),
        model.live(frame, k),
    ensures
        ({
            let (light, position) = model.strongest(frame, led, n);
            let own = wave_light(model.hits[k], led, model.share(frame, k));
            &&& own <= light
            &&& own == light && light > 0 && (forall|j: int|
                0 <= j < k && model.live(frame, j) ==> wave_light(
                    #[trigger] model.hits[j],
                    led,
                    model.share(frame, j),
                ) < light) ==> position == math::byte_sum(
                model.hits[k].palette_pos as int,
                model.share(frame, k) / 3,
            )
        }),
{
    lemma_strongest(model, frame, led, n);
    let light = model.strongest(frame, led, n).0;
    let own = slot_light(model, frame, led, k);
    assert(own <= light);
    if own == light && light > 0 && (forall|j: int|
        0 <= j < k && model.live(frame, j) ==> wave_light(
            #[trigger] model.hits[j],
            led,
            model.share(frame, j),
        ) < light) {
        let m = choose|m: int| #[trigger] leads(model, frame, led, n, m);
        if m < k {
            assert(wave_light(model.hits[m], led, model.share(frame, m)) < light);
        }
        assert(m == k);
    }
}

/// Whatever shows on an LED comes from a lit ring.
pub proof fn law_light_comes_from_a_lit_ring(
    model: ShockwaveModel,
    frame: FrameParams<'_>,
    led: (u8, u8),
    n: int,
)
    requires
        0 <= n <= model.hits.len(),
        model.strongest(frame, led, n).0 > 0,
    ensures
        exists|k: int|
            {
                &&& 0 <= k < n
                &&& model.live(frame, k)
                &&& wave_light(
                    #[trigger] model.hits[k],
                    led,
                    model.share(frame, k),
                ) == model.strongest(frame, led, n).0
                &&& math::byte_sum(
                    model.hits[k].palette_pos as int,
                    model.share(frame, k) / 3,
                ) == model.strongest(frame, led, n).1
            },
{
    lemma_strongest(model, frame, led, n);
    let k = choose|k: int| #[trigger] leads(model, frame, led, n, k);
    assert(slot_light(model, frame, led, k) == model.strongest(frame, led, n).0);
    assert(wave_light(model.hits[k], led, model.share(frame, k)) == model.strongest(
        frame,
        led,
        n,
    ).0);
}

/// A frame colors each LED of the board by what shows there, in the palette
/// and at the saturation and brightness of the frame; what is unlit, and what
/// lies beyond the board, is black.
pub proof fn law_the_frame_shows_the_rings(
    model: ShockwaveModel,
    frame: FrameParams<'_>,
    leds: Seq<(u8, u8)>,
    len: nat,
    i: int,
)
    requires
        0 <= i < len,
    ensures
        ({
            let out = model.painted(frame, leds, len);
            &&& out.len() == len
            &&& i >= leds.len() ==> out[i] == (Hsv { h: 0, s: 0, v: 0 })
            &&& i < leds.len() ==> {
                let (light, position) = model.strongest(frame, leds[i], model.hits.len() as int);
                &&& light == 0 ==> out[i] == (Hsv { h: 0, s: 0, v: 0 })
                &&& light != 0 ==> out[i] == palette::color_at(
                    frame.palette@,
                    position,
                    frame.sat,
                    math::scaled255(light, frame.val as int) as u8,
                )
            }
        }),
{
}

/// The strongest light on an LED is a byte.
pub proof fn law_light_is_a_byte(
    model: ShockwaveModel,
    frame: FrameParams<'_>,
    led: (u8, u8),
    n: int,
)
    requires
        0 <= n <= model.hits.len(),
    ensures
        0 <= model.strongest(frame, led, n).0 <= 255,
{
    lemma_strongest(model, frame, led, n);
    if model.strongest(frame, led, n).0 > 0 {
        let k = choose|k: int| #[trigger] leads(model, frame, led, n, k);
        let elapsed = model.age(frame, k);
        super::law_shares_follow_the_clock(elapsed, elapsed, span(frame.speed));
        let hit = model.hits[k];
        let share = model.share(frame, k);
        let off = math::distance(
            super::ripple::half_distance(led, (hit.x, hit.y)),
            radius(hit, share),
        );
        math::law_edge_falloff_range(off, 9);
        math::law_scale255_shrinks(math::edge_falloff(off, 9), 255 - share);
    }
}

} // verus!
