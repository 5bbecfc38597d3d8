//! KEYFALL: streaks launched from pressed keys, falling toward the board edge
//! that [`KeyfallParams::gravity`] selects.
use vstd::prelude::*;

use super::{lifetime_ms, next_slot, press_color, progress, FrameParams};
use crate::color;
use crate::color::Hsv;
use crate::layout::LedLayout;
use crate::math;
use crate::math::{abs_diff, scale255, soft_edge};
use crate::palette;
use crate::palette::interp_color;

verus! {

/// Lifetime of a streak at the nominal pace.
pub const BASE_DURATION_MS: u32 = 760;

/// Half-width of a streak.
pub const COLUMN_HALF_WIDTH: u8 = 11;

/// How far a streak's light reaches back from its head.
pub const TRAIL_LENGTH: u8 = 58;

/// Progress at which the head has reached the board edge. From there on the
/// streak is held while it fades.
pub const TRAVEL_END: u8 = 192;

/// Direction in which streaks fall.
#[derive(Copy, Clone, Debug, PartialEq, Eq, Structural)]
pub enum KeyfallGravity {
    /// Toward the bottom edge.
    Down,
    /// Toward the top edge.
    Up,
    /// Toward the left edge.
    Left,
    /// Toward the right edge.
    Right,
}

impl KeyfallGravity {
    /// The direction that a byte selects; an unknown one selects Down.
    pub open spec fn selected(value: u8) -> KeyfallGravity {
        if value == 1 {
            KeyfallGravity::Up
        } else if value == 2 {
            KeyfallGravity::Left
        } else if value == 3 {
            KeyfallGravity::Right
        } else {
            KeyfallGravity::Down
        }
    }

    /// See [`KeyfallGravity::selected`].
    pub fn from_byte(value: u8) -> (gravity: Self)
        ensures
            gravity == Self::selected(value),
    {
        match value {
            1 => Self::Up,
            2 => Self::Left,
            3 => Self::Right,
            _ => Self::Down,
        }
    }

    /// A board position as `(along, across)`: the first grows in the falling
    /// direction, the second is the axis that a streak's width lies on.
    pub open spec fn projected(self, at: (u8, u8)) -> (u8, u8) {
        match self {
            KeyfallGravity::Down => (at.1, at.0),
            KeyfallGravity::Up => ((255 - at.1) as u8, at.0),
            KeyfallGravity::Right => (at.0, at.1),
            KeyfallGravity::Left => ((255 - at.0) as u8, at.1),
        }
    }

    /// See [`KeyfallGravity::projected`].
    pub fn project(self, x: u8, y: u8) -> (at: (u8, u8))
        ensures
            at == self.projected((x, y)),
    {
        match self {
            Self::Down => (y, x),
            Self::Up => (255 - y, x),
            Self::Right => (x, y),
            Self::Left => (255 - x, y),
        }
    }
}

/// Runtime controls of the keyfall. [`KeyfallParams::set`] checks the bounds.
#[derive(Copy, Clone, Debug, PartialEq, Eq, Structural)]
pub struct KeyfallParams {
    /// 0 down, 1 up, 2 left, 3 right.
    pub gravity: u8,
}

impl KeyfallParams {
    pub const GRAVITY_MIN: u8 = 0;

    pub const GRAVITY_MAX: u8 = 3;

    /// Number of parameters.
    pub const COUNT: u8 = 1;

    /// Host-facing parameter names, in index order.
    pub const NAMES: [&'static str; 1] = ["Gravity"];

    /// Inclusive lower bound of each parameter, in index order.
    pub const MINS: [u8; 1] = [Self::GRAVITY_MIN];

    /// Inclusive upper bound of each parameter, in index order.
    pub const MAXES: [u8; 1] = [Self::GRAVITY_MAX];

    /// Default of each parameter, in index order.
    pub const DEFAULTS: [u8; 1] = [0];

    /// Whether `value` may be given to parameter `index`.
    pub open spec fn accepts(index: int, value: u8) -> bool {
        &&& 0 <= index < Self::COUNT
        &&& Self::MINS[index] <= value <= Self::MAXES[index]
    }

    /// Value of one parameter, or `None` for an unknown index.
    pub fn get(&self, index: u8) -> (value: Option<u8>)
        ensures
            value == (if index < Self::COUNT {
                Some(self.gravity)
            } else {
                None
            }),
    {
        match index {
            0 => Some(self.gravity),
            _ => None,
        }
    }

    /// Sets one parameter, leaving the values unchanged if the index or the
    /// value is invalid.
    pub fn set(&mut self, index: u8, value: u8) -> (ok: bool)
        ensures
            ok == Self::accepts(index as int, value),
            *final(self) == (if ok {
                KeyfallParams { gravity: value }
            } else {
                *old(self)
            }),
    {
        let i: usize = index as usize;
        if i >= Self::COUNT as usize || value < Self::MINS[i] || value > Self::MAXES[i] {
            return false;
        }
        self.gravity = value;
        true
    }

    /// The selected direction.
    pub fn direction(&self) -> (gravity: KeyfallGravity)
        ensures
            gravity == KeyfallGravity::selected(self.gravity),
    {
        KeyfallGravity::from_byte(self.gravity)
    }
}

/// The tuned defaults.
pub open spec fn keyfall_defaults() -> KeyfallParams {
    KeyfallParams { gravity: 0 }
}

impl Default for KeyfallParams {
    fn default() -> (params: Self)
        ensures
            params == keyfall_defaults(),
    {
        Self { gravity: 0 }
    }
}

/// One falling streak.
#[derive(Copy, Clone, Debug, PartialEq, Eq, Structural)]
pub struct FallingHit {
    /// The pressed key, projected onto the axes of the gravity in force when
    /// the press was recorded.
    pub along: u8,
    pub across: u8,
    /// Where the board ends in the falling direction, in the same projection.
    pub end: u8,
    /// The direction this streak falls in, whatever is selected later.
    pub gravity: KeyfallGravity,
    pub spawn_ms: u32,
    pub palette_pos: u8,
    pub active: bool,
}

/// A slot that holds no streak.
pub open spec fn empty_hit() -> FallingHit {
    FallingHit {
        along: 0,
        across: 0,
        end: 0,
        gravity: KeyfallGravity::Down,
        spawn_ms: 0,
        palette_pos: 0,
        active: false,
    }
}

/// Lifetime of a streak at `speed`.
pub open spec fn span(speed: u8) -> int {
    super::lifetime(BASE_DURATION_MS as int, speed)
}

/// See [`span`].
pub fn duration_ms(speed: u8) -> (ms: u32)
    ensures
        ms == span(speed),
        1 <= ms,
{
    lifetime_ms(BASE_DURATION_MS, speed)
}

/// The largest coordinate in the falling direction that one of the first `n`
/// LEDs has: where the board ends.
pub open spec fn edge(leds: Seq<(u8, u8)>, gravity: KeyfallGravity, n: int) -> int
    decreases n,
{
    if n <= 0 {
        0
    } else {
        math::larger(edge(leds, gravity, n - 1), gravity.projected(leds[n - 1]).0 as int)
    }
}

fn far_edge<L: LedLayout>(layout: &L, gravity: KeyfallGravity) -> (r: u8)
    ensures
        r == edge(layout.leds(), gravity, layout.leds().len() as int),
{
    let count: usize = layout.count();
    let mut found: u8 = 0;
    let mut i: usize = 0;
    while i < count
        invariant
            i <= count,
            count == layout.leds().len(),
            found == edge(layout.leds(), gravity, i as int),
        decreases count - i,
    {
        let (x, y) = layout.position(i);
        let (along, _) = gravity.project(x, y);
        if along > found {
            found = along;
        }
        i += 1;
    }
    found
}

/// Where the head of a streak is, in the falling direction.
pub open spec fn head(hit: FallingHit, progress: int) -> int {
    let travel = if progress >= TRAVEL_END {
        255
    } else {
        progress * 255 / 192
    };
    hit.along + (hit.end - hit.along) * travel / 255
}

/// Brightness of a streak while it is held at the edge.
pub open spec fn landing_fade(progress: int) -> int {
    if progress < TRAVEL_END {
        255
    } else {
        (255 - progress) * 255 / 63
    }
}

/// Light that a streak gives the LED at `led`: brightest at its head and in
/// the middle of its column, and none before the key or ahead of the head.
pub open spec fn falling_light(hit: FallingHit, led: (u8, u8), progress: int) -> int {
    let (along, across) = hit.gravity.projected(led);
    let offset = math::distance(across as int, hit.across as int);
    let behind = head(hit, progress) - along;
    if along < hit.along || behind < 0 {
        0
    } else {
        math::scaled255(
            math::scaled255(
                math::edge_falloff(offset, COLUMN_HALF_WIDTH as int),
                math::edge_falloff(behind, TRAIL_LENGTH as int),
            ),
            landing_fade(progress),
        )
    }
}

fn falling_value(hit: FallingHit, led: (u8, u8), progress: u8) -> (r: u8)
    requires
        hit.along <= hit.end,
    ensures
        r == falling_light(hit, led, progress as int),
{
    let (along, across) = hit.gravity.project(led.0, led.1);
    let offset: u8 = abs_diff(across, hit.across);
    let travel: u32 = if progress >= TRAVEL_END {
        255
    } else {
        progress as u32 * 255 / 192
    };
    let reach: u32 = (hit.end - hit.along) as u32;
    assert(0 <= reach * travel <= reach * 255 <= 65025) by (nonlinear_arith)
        requires
            0 <= reach <= 255,
            0 <= travel <= 255,
    ;
    let head: u32 = hit.along as u32 + reach * travel / 255;
    if along < hit.along || along as u32 > head {
        return 0;
    }
    let width: u8 = soft_edge(offset as u32, COLUMN_HALF_WIDTH as u32);
    let length: u8 = soft_edge(head - along as u32, TRAIL_LENGTH as u32);
    let envelope: u8 = if progress < TRAVEL_END {
        255
    } else {
        ((255 - progress) as u32 * 255 / 63) as u8
    };
    scale255(scale255(width, length), envelope)
}

/// What a [`KeyfallState`] holds.
pub struct KeyfallModel {
    /// The remembered streaks, by ring slot.
    pub hits: Seq<FallingHit>,
    /// The slot to be written next.
    pub next: int,
    pub color_step: u8,
    pub params: KeyfallParams,
}

impl KeyfallModel {
    /// The state that a new effect with room for `capacity` streaks starts in.
    pub open spec fn fresh(capacity: nat, params: KeyfallParams) -> KeyfallModel {
        KeyfallModel {
            hits: Seq::new(capacity, |k: int| empty_hit()),
            next: 0,
            color_step: 0,
            params,
        }
    }

    /// The streak that a press of the key at `(x, y)` launches.
    pub open spec fn launched(self, leds: Seq<(u8, u8)>, x: u8, y: u8, now: u32) -> FallingHit {
        let gravity = KeyfallGravity::selected(self.params.gravity);
        let (along, across) = gravity.projected((x, y));
        FallingHit {
            along,
            across,
            end: math::larger(edge(leds, gravity, leds.len() as int), along as int) as u8,
            gravity,
            spawn_ms: now,
            palette_pos: super::key_color(x, y, self.color_step),
            active: true,
        }
    }

    /// The state after a press.
    pub open spec fn pressed(self, leds: Seq<(u8, u8)>, x: u8, y: u8, now: u32) -> KeyfallModel {
        if self.hits.len() == 0 {
            self
        } else {
            KeyfallModel {
                hits: self.hits.update(self.next, self.launched(leds, x, y, now)),
                next: super::ring_next(self.next, self.hits.len() as int),
                color_step: math::byte_sum(self.color_step as int, 29),
                ..self
            }
        }
    }

    /// How long slot `k` has been running.
    pub open spec fn age(self, frame: FrameParams<'_>, k: int) -> int {
        math::ticks_since(frame.timer_ms, self.hits[k].spawn_ms)
    }

    /// Whether slot `k` is lit in a frame.
    pub open spec fn live(self, frame: FrameParams<'_>, k: int) -> bool {
        self.hits[k].active && self.age(frame, k) < span(frame.speed)
    }

    /// Share of its lifetime that slot `k` has behind it.
    pub open spec fn share(self, frame: FrameParams<'_>, k: int) -> int {
        super::share(self.age(frame, k), span(frame.speed))
    }

    /// Whether every active slot is lit in a frame, with its share in
    /// `shares`.
    pub open spec fn measured(self, frame: FrameParams<'_>, shares: Seq<u8>) -> bool {
        forall|k: int|
            #![trigger shares[k]]
            0 <= k < self.hits.len() && self.hits[k].active ==> self.live(frame, k)
                && shares[k] == self.share(frame, k)
    }

    /// The state after a frame: what has outlived its time goes out for good.
    pub open spec fn ticked(self, frame: FrameParams<'_>) -> KeyfallModel {
        KeyfallModel {
            hits: Seq::new(
                self.hits.len(),
                |k: int| FallingHit { active: self.live(frame, k), ..self.hits[k] },
            ),
            ..self
        }
    }

    /// Strongest light on the LED at `led` from the first `n` slots, and the
    /// palette position of the first slot that gives it.
    pub open spec fn strongest(self, frame: FrameParams<'_>, led: (u8, u8), n: int) -> (int, u8)
        decreases n,
    {
        if n <= 0 {
            (0, 0)
        } else {
            let rest = self.strongest(frame, led, n - 1);
            let light = falling_light(self.hits[n - 1], led, self.share(frame, n - 1));
            if self.live(frame, n - 1) && light > rest.0 {
                (light, math::byte_sum(
                    self.hits[n - 1].palette_pos as int,
                    self.share(frame, n - 1) / 2,
                ))
            } else {
                rest
            }
        }
    }

    /// The color of the LED at `led`.
    pub open spec fn pixel(self, frame: FrameParams<'_>, led: (u8, u8)) -> Hsv {
        let (light, position) = self.strongest(frame, led, self.hits.len() as int);
        if light == 0 {
            color::black()
        } else {
            palette::color_at(
                frame.palette@,
                position,
                frame.sat,
                math::scaled255(light, frame.val as int) as u8,
            )
        }
    }

    /// The frame: black, but for what is lit.
    pub open spec fn painted(self, frame: FrameParams<'_>, leds: Seq<(u8, u8)>, len: nat) -> Seq<
        Hsv,
    > {
        Seq::new(
            len,
            |i: int|
                if i < leds.len() {
                    self.pixel(frame, leds[i])
                } else {
                    color::black()
                },
        )
    }
}

/// Ring of the `N` most recent streaks and the current tuning.
pub struct KeyfallState<const N: usize> {
    hits: [FallingHit; N],
    next: usize,
    color_step: u8,
    params: KeyfallParams,
}

impl<const N: usize> View for KeyfallState<N> {
    type V = KeyfallModel;

    closed spec fn view(&self) -> KeyfallModel {
        KeyfallModel {
            hits: self.hits@,
            next: self.next as int,
            color_step: self.color_step,
            params: self.params,
        }
    }
}

impl<const N: usize> Default for KeyfallState<N> {
    fn default() -> (state: Self)
        ensures
            state.wf(),
            state@ == KeyfallModel::fresh(N as nat, keyfall_defaults()),
    {
        Self::new()
    }
}

impl<const N: usize> KeyfallState<N> {
    /// The write cursor is in range, and no streak falls away from its end.
    pub closed spec fn wf(&self) -> bool {
        &&& N > 0 ==> self.next < N
        &&& forall|k: int|
            0 <= k < N ==> (#[trigger] self.hits@[k]).along <= self.hits@[k].end
    }

    /// No remembered streak falls away from the edge it is headed for.
    pub proof fn law_streaks_fall_toward_their_end(&self, k: int)
        requires
            self.wf(),
            0 <= k < self@.hits.len(),
        ensures
            self@.hits[k].along <= self@.hits[k].end,
    {
    }

    pub fn new() -> (state: Self)
        ensures
            state.wf(),
            state@ == KeyfallModel::fresh(N as nat, keyfall_defaults()),
    {
        Self::with_params(KeyfallParams::default())
    }

    /// State pre-tuned with `params`.
    pub fn with_params(params: KeyfallParams) -> (state: Self)
        ensures
            state.wf(),
            state@ == KeyfallModel::fresh(N as nat, params),
    {
        let state = Self {
            hits: [FallingHit {
                along: 0,
                across: 0,
                end: 0,
                gravity: KeyfallGravity::Down,
                spawn_ms: 0,
                palette_pos: 0,
                active: false,
            };N],
            next: 0,
            color_step: 0,
            params,
        };
        assert(state@.hits =~= KeyfallModel::fresh(N as nat, params).hits);
        state
    }

    /// Retunes a running effect. Streaks already falling keep the direction
    /// they launched with.
    pub fn set_params(&mut self, params: KeyfallParams)
        requires
            old(self).wf(),
        ensures
            final(self).wf(),
            final(self)@ == (KeyfallModel { params, ..old(self)@ }),
    {
        self.params = params;
    }

    /// The tuning currently in effect.
    pub fn params(&self) -> (params: KeyfallParams)
        ensures
            params == self@.params,
    {
        self.params
    }

    /// Records a press of the key at `(x, y)`.
    pub fn record_hit<L: LedLayout>(&mut self, layout: &L, x: u8, y: u8, timer_ms: u32)
        requires
            old(self).wf(),
        ensures
            final(self).wf(),
            final(self)@ == old(self)@.pressed(layout.leds(), x, y, timer_ms),
    {
        if N == 0 {
            return ;
        }
        let gravity: KeyfallGravity = self.params.direction();
        let (along, across) = gravity.project(x, y);
        let far: u8 = far_edge(layout, gravity);
        let hit = FallingHit {
            along,
            across,
            end: if far >= along {
                far
            } else {
                along
            },
            gravity,
            spawn_ms: timer_ms,
            palette_pos: press_color(x, y, self.color_step),
            active: true,
        };
        assert(hit == self@.launched(layout.leds(), x, y, timer_ms));
        let slot: usize = self.next;
        self.hits[slot] = hit;
        self.next = next_slot(slot, N);
        self.color_step = self.color_step.wrapping_add(29);
    }

    /// Puts out what has outlived its time, and measures the rest.
    fn expire(&mut self, frame: FrameParams<'_>) -> (shares: [u8; N])
        requires
            old(self).wf(),
        ensures
            final(self).wf(),
            final(self)@ == old(self)@.ticked(frame),
            final(self)@.measured(frame, shares@),
    {
        let ghost begin = self@;
        let duration: u32 = duration_ms(frame.speed);
        let mut shares: [u8; N] = [0;N];
        let mut slot: usize = 0;
        while slot < N
            invariant
                self.wf(),
                slot <= N,
                begin.hits.len() == N,
                duration == span(frame.speed),
                self@ == (KeyfallModel { hits: self@.hits, ..begin }),
                forall|k: int|
                    0 <= k < slot ==> #[trigger] self@.hits[k] == begin.ticked(frame).hits[k],
                forall|k: int| slot <= k < N ==> #[trigger] self@.hits[k] == begin.hits[k],
                forall|k: int|
                    0 <= k < slot && begin.live(frame, k) ==> #[trigger] shares@[k] == begin.share(
                        frame,
                        k,
                    ),
            decreases N - slot,
        {
            let hit: FallingHit = self.hits[slot];
            assert(hit == self@.hits[slot as int]);
            if hit.active {
                let elapsed: u32 = frame.timer_ms.wrapping_sub(hit.spawn_ms);
                if elapsed >= duration {
                    self.hits[slot] = FallingHit { active: false, ..hit };
                } else {
                    shares[slot] = progress(elapsed, duration);
                }
            }
            slot += 1;
        }
        assert(self@.hits =~= begin.ticked(frame).hits);
        assert forall|k: int|
            #![trigger shares@[k]]
            0 <= k < N && self@.hits[k].active implies self@.live(frame, k) && shares@[k]
            == self@.share(frame, k) by {
            assert(begin.live(frame, k));
        }
        shares
    }

    /// The color of one LED.
    fn led(&self, frame: FrameParams<'_>, shares: &[u8; N], led: (u8, u8)) -> (color: Hsv)
        requires
            self.wf(),
            self@.measured(frame, shares@),
        ensures
            color == self@.pixel(frame, led),
    {
        let ghost model = self@;
        let mut light: u8 = 0;
        let mut position: u8 = 0;
        let mut slot: usize = 0;
        while slot < N
            invariant
                self.wf(),
                model == self@,
                model.hits.len() == N,
                slot <= N,
                model.measured(frame, shares@),
                (light as int, position) == model.strongest(frame, led, slot as int),
            decreases N - slot,
        {
            let hit: FallingHit = self.hits[slot];
            let share: u8 = shares[slot];
            assert(hit == model.hits[slot as int]);
            if hit.active {
                assert(share == model.share(frame, slot as int) && model.live(frame, slot as int));
                let value: u8 = falling_value(hit, led, share);
                if value > light {
                    light = value;
                    position = hit.palette_pos.wrapping_add(share / 2);
                }
            }
            slot += 1;
        }
        if light == 0 {
            return Hsv::default();
        }
        interp_color(frame.palette, position, frame.sat, scale255(light, frame.val))
    }

    fn render<L: LedLayout>(&mut self, layout: &L, frame: FrameParams<'_>, out: &mut [Hsv])
        requires
            old(self).wf(),
        ensures
            final(self).wf(),
            final(self)@ == old(self)@.ticked(frame),
            final(out)@ == final(self)@.painted(frame, layout.leds(), old(out)@.len()),
    {
        super::fill(out, Hsv::default());
        let shares: [u8; N] = self.expire(frame);
        let ghost model = self@;
        let count: usize = layout.count();
        let len: usize = out.len();
        let mut i: usize = 0;
        while i < len && i < count
            invariant
                self.wf(),
                model == self@,
                i <= len,
                i <= count,
                len == out@.len(),
                count == layout.leds().len(),
                model.measured(frame, shares@),
                forall|j: int| 0 <= j < i ==> out@[j] == model.pixel(frame, layout.leds()[j]),
                forall|j: int| i <= j < len ==> out@[j] == color::black(),
            decreases len - i,
        {
            out[i] = self.led(frame, &shares, layout.position(i));
            i += 1;
        }
        assert(out@ =~= model.painted(frame, layout.leds(), len as nat));
    }

    /// Renders over black.
    pub fn tick<L: LedLayout>(&mut self, layout: &L, frame: FrameParams<'_>, out: &mut [Hsv])
        requires
            old(self).wf(),
        ensures
            final(self).wf(),
            final(self)@ == old(self)@.ticked(frame),
            final(out)@ == final(self)@.painted(frame, layout.leds(), old(out)@.len()),
    {
        self.render(layout, frame, out);
    }

    /// Renders as a layer: black is transparent.
    pub fn tick_layer<L: LedLayout>(&mut self, layout: &L, frame: FrameParams<'_>, out: &mut [Hsv])
        requires
            old(self).wf(),
        ensures
            final(self).wf(),
            final(self)@ == old(self)@.ticked(frame),
            final(out)@ == final(self)@.painted(frame, layout.leds(), old(out)@.len()),
    {
        self.render(layout, frame, out);
    }
}

/// The advertised default is the value a new state is tuned to, it is within
/// its bounds, and it points down.
pub proof fn law_the_default_gravity_is_down()
    ensures
        keyfall_defaults().gravity == KeyfallParams::DEFAULTS[0],
        KeyfallParams::accepts(0, KeyfallParams::DEFAULTS[0]),
        KeyfallGravity::selected(keyfall_defaults().gravity) == KeyfallGravity::Down,
{
}

/// A streak lights nothing beside its column, nothing on the far side of the
/// key it came from, and nothing ahead of its head.
pub proof fn law_a_streak_stays_in_its_lane(hit: FallingHit, led: (u8, u8), progress: int)
    requires
        ({
            let (along, across) = hit.gravity.projected(led);
            ||| along < hit.along
            ||| along > head(hit, progress)
            ||| math::distance(across as int, hit.across as int) > COLUMN_HALF_WIDTH
        }),
        0 <= progress <= 255,
    ensures
        falling_light(hit, led, progress) == 0,
{
    let (along, across) = hit.gravity.projected(led);
    if along >= hit.along && along <= head(hit, progress) {
        let length = math::edge_falloff(head(hit, progress) - along, TRAIL_LENGTH as int);
        assert(0 * length == 0);
        let fade = landing_fade(progress);
        assert(0 * fade == 0);
    }
}

/// A streak starts at the key and has reached the board edge when three
/// quarters of its life are over; an LED there, in its column, is then fully
/// lit.
pub proof fn law_a_streak_reaches_the_edge(hit: FallingHit, led: (u8, u8))
    requires
        hit.along <= hit.end,
        hit.gravity.projected(led) == (hit.end, hit.across),
    ensures
        head(hit, 0) == hit.along,
        head(hit, TRAVEL_END as int) == hit.end,
        falling_light(hit, led, TRAVEL_END as int) == 255,
{
    let reach = hit.end - hit.along;
    assert(reach * 0 / 255 == 0);
    assert(reach * 255 / 255 == reach);
    assert(math::edge_falloff(0, COLUMN_HALF_WIDTH as int) == 255);
    assert(math::edge_falloff(0, TRAIL_LENGTH as int) == 255);
    assert(landing_fade(TRAVEL_END as int) == 255);
    assert(math::scaled255(255, 255) == 255);
}

/// Retuning aims the next press alone: what is already falling looks the same
/// under every tuning.
pub proof fn law_streaks_keep_their_gravity(
    model: KeyfallModel,
    params: KeyfallParams,
    frame: FrameParams<'_>,
    led: (u8, u8),
)
    ensures
        (KeyfallModel { params, ..model }).pixel(frame, led) == model.pixel(frame, led),
{
    lemma_same_light(model, params, frame, led, model.hits.len() as int);
}

proof fn lemma_same_light(
    model: KeyfallModel,
    params: KeyfallParams,
    frame: FrameParams<'_>,
    led: (u8, u8),
    n: int,
)
    ensures
        (KeyfallModel { params, ..model }).strongest(frame, led, n) == model.strongest(
            frame,
            led,
            n,
        ),
    decreases n,
{
    if n > 0 {
        lemma_same_light(model, params, frame, led, n - 1);
    }
}

/// The four directions are one fall seen from four sides: turning gravity is
/// turning the board.
pub proof fn law_gravity_turns_the_board(x: u8, y: u8)
    ensures
        KeyfallGravity::Up.projected((x, y)) == KeyfallGravity::Down.projected(
            (x, (255 - y) as u8),
        ),
        KeyfallGravity::Right.projected((x, y)) == KeyfallGravity::Down.projected((y, x)),
        KeyfallGravity::Left.projected((x, y)) == KeyfallGravity::Down.projected(
            (y, (255 - x) as u8),
        ),
{
}

/// Once every lifetime is over the whole frame is black, and stays so.
pub proof fn law_expired_is_transparent(
    model: KeyfallModel,
    frame: FrameParams<'_>,
    leds: Seq<(u8, u8)>,
    len: nat,
)
    requires
        forall|k: int|
            0 <= k < model.hits.len() && (#[trigger] model.hits[k]).active ==> model.age(frame, k)
                >= span(frame.speed),
    ensures
        model.ticked(frame).painted(frame, leds, len) == Seq::new(len, |i: int| color::black()),
        forall|k: int|
            0 <= k < model.hits.len() ==> !(#[trigger] model.ticked(frame).hits[k]).active,
{
    let after = model.ticked(frame);
    assert forall|k: int| 0 <= k < model.hits.len() implies !(#[trigger] after.hits[k]).active by {
        assert(model.hits[k].active ==> model.age(frame, k) >= span(frame.speed));
    }
    assert forall|i: int| 0 <= i < len && i < leds.len() implies after.pixel(frame, leds[i])
        == color::black() by {
        lemma_dark(after, frame, leds[i], after.hits.len() as int);
    }
    assert(after.painted(frame, leds, len) =~= Seq::new(len, |i: int| color::black()));
}

proof fn lemma_dark(model: KeyfallModel, frame: FrameParams<'_>, led: (u8, u8), n: int)
    requires
        n <= model.hits.len(),
        forall|k: int| 0 <= k < model.hits.len() ==> !(#[trigger] model.hits[k]).active,
    ensures
        model.strongest(frame, led, n) == (0int, 0u8),
    decreases n,
{
    if n > 0 {
        lemma_dark(model, frame, led, n - 1);
        assert(!model.hits[n - 1].active);
    }
}

/// Gravity gives every key its place along the fall and across it: the one
/// grows toward the edge that gravity names, from 0 at the opposite edge, and
/// the other is the coordinate that the fall leaves alone.
pub proof fn law_gravity_names_the_axes(gravity: KeyfallGravity, at: (u8, u8))
    ensures
        ({
            let (along, across) = gravity.projected(at);
            &&& gravity == KeyfallGravity::Down ==> along == at.1 && across == at.0
            &&& gravity == KeyfallGravity::Up ==> along + at.1 == 255 && across == at.0
            &&& gravity == KeyfallGravity::Right ==> along == at.0 && across == at.1
            &&& gravity == KeyfallGravity::Left ==> along + at.0 == 255 && across == at.1
        }),
{
}

/// The byte of a direction is 1 for up, 2 for left and 3 for right; every other
/// one is down.
pub proof fn law_gravity_bytes(value: u8)
    ensures
        KeyfallGravity::selected(1) == KeyfallGravity::Up,
        KeyfallGravity::selected(2) == KeyfallGravity::Left,
        KeyfallGravity::selected(3) == KeyfallGravity::Right,
        value == 0 || value > 3 ==> KeyfallGravity::selected(value) == KeyfallGravity::Down,
        KeyfallParams::accepts(0, value) <==> value <= 3,
{
}

/// The head of a streak moves evenly from the key to the edge over the first
/// 192 parts of its life, never back and never past either, and rests there
/// for the remaining ones.
pub proof fn law_a_streak_falls_evenly(hit: FallingHit, progress: int, later: int)
    requires
        hit.along <= hit.end,
        0 <= progress <= later <= 255,
    ensures
        hit.along <= head(hit, progress) <= head(hit, later) <= hit.end,
        progress >= 192 ==> head(hit, progress) == hit.end,
        progress < 192 ==> {
            let (reach, gone) = (hit.end - hit.along, head(hit, progress) - hit.along);
            let travel = progress * 255 / 192;
            &&& 192 * travel <= progress * 255 < 192 * travel + 192
            &&& 255 * gone <= reach * travel < 255 * gone + 255
        },
{
    let reach = hit.end - hit.along;
    let near = if progress >= 192 {
        255
    } else {
        progress * 255 / 192
    };
    let far = if later >= 192 {
        255
    } else {
        later * 255 / 192
    };
    assert(0 <= near <= far <= 255);
    assert(0 <= reach * near <= reach * far <= reach * 255) by (nonlinear_arith)
        requires
            0 <= reach,
            0 <= near <= far <= 255,
    ;
}

/// A streak is held at full brightness on its way, and fades evenly to nothing
/// once it has landed.
pub proof fn law_a_streak_fades_where_it_lands(progress: int, later: int)
    requires
        0 <= progress <= later <= 255,
    ensures
        progress < 192 ==> landing_fade(progress) == 255,
        192 <= progress ==> 63 * landing_fade(progress) <= (255 - progress) * 255 < 63
            * landing_fade(progress) + 63,
        0 <= landing_fade(later) <= landing_fade(progress) <= 255,
        landing_fade(255) == 0,
{
}

/// A streak lights the LEDs of its column that its head has passed: within 11
/// steps of the key across the fall, between the key and the head along it, and
/// up to 58 steps behind the head. There its light is the product of both soft
/// edges and of the fade; everywhere else there is none.
pub proof fn law_a_streak_lights_its_trail(hit: FallingHit, led: (u8, u8), progress: int)
    requires
        0 <= progress <= 255,
    ensures
        ({
            let (along, across) = hit.gravity.projected(led);
            let aside = math::distance(across as int, hit.across as int);
            let behind = head(hit, progress) - along;
            let light = falling_light(hit, led, progress);
            &&& along >= hit.along && behind >= 0 ==> light == math::scaled255(
                math::scaled255(math::edge_falloff(aside, 11), math::edge_falloff(behind, 58)),
                landing_fade(progress),
            )
            &&& along < hit.along || behind < 0 || behind > 58 || aside > 11 ==> light == 0
        }),
{
    let (along, across) = hit.gravity.projected(led);
    let aside = math::distance(across as int, hit.across as int);
    let behind = head(hit, progress) - along;
    let fade = landing_fade(progress);
    let (wide, long) = (math::edge_falloff(aside, 11), math::edge_falloff(behind, 58));
    assert(0 * long == 0 && wide * 0 == 0 && 0 * fade == 0);
}

/// The edge that streaks fall to is as far along the fall as the outermost LED
/// of the board: none lies beyond it, and one lies on it, unless it is 0.
pub proof fn law_the_edge_is_the_outermost_led(
    leds: Seq<(u8, u8)>,
    gravity: KeyfallGravity,
    n: int,
    k: int,
)
    requires
        0 <= k < n <= leds.len(),
    ensures
        gravity.projected(leds[k]).0 <= edge(leds, gravity, n) <= 255,
        exists|j: int|
            0 <= j < n && gravity.projected(#[trigger] leds[j]).0 == edge(leds, gravity, n),
    decreases n,
{
    let last = gravity.projected(leds[n - 1]).0 as int;
    let before = edge(leds, gravity, n - 1);
    if n > 1 {
        law_the_edge_is_the_outermost_led(
            leds,
            gravity,
            n - 1,
            if k < n - 1 {
                k
            } else {
                0
            },
        );
        if last < before {
            let j = choose|j: int|
                0 <= j < n - 1 && gravity.projected(#[trigger] leds[j]).0 == before;
            assert(gravity.projected(leds[j]).0 == edge(leds, gravity, n));
        } else {
            assert(gravity.projected(leds[n - 1]).0 == edge(leds, gravity, n));
        }
    } else {
        assert(edge(leds, gravity, 0) == 0);
        assert(gravity.projected(leds[0]).0 == edge(leds, gravity, n));
    }
}

/// A press launches one streak in the next slot: it falls from its own key in
/// the selected direction to the edge of the board, or stays where the key
/// itself is the outermost. It starts at the press's time in the color of its
/// key and step; every other streak stays, and the color moves on by 29.
pub proof fn law_a_press_launches_one_streak(
    model: KeyfallModel,
    leds: Seq<(u8, u8)>,
    x: u8,
    y: u8,
    now: u32,
    k: int,
)
    requires
        model.hits.len() > 0,
        0 <= model.next < model.hits.len(),
        0 <= k < model.hits.len(),
    ensures
        ({
            let after = model.pressed(leds, x, y, now);
            let streak = after.hits[model.next];
            let gravity = KeyfallGravity::selected(model.params.gravity);
            let far = edge(leds, gravity, leds.len() as int);
            &&& after.hits.len() == model.hits.len()
            &&& streak.active && streak.spawn_ms == now && streak.gravity == gravity
            &&& (streak.along, streak.across) == gravity.projected((x, y))
            &&& 0 <= far <= 255
            &&& far >= streak.along ==> streak.end == far
            &&& far < streak.along ==> streak.end == streak.along
            &&& streak.palette_pos == super::key_color(x, y, model.color_step)
            &&& k != model.next ==> after.hits[k] == model.hits[k]
            &&& after.next == super::ring_next(model.next, model.hits.len() as int)
            &&& after.color_step == math::byte_sum(model.color_step as int, 29)
            &&& after.params == model.params
        }),
{
    let gravity = KeyfallGravity::selected(model.params.gravity);
    if leds.len() > 0 {
        law_the_edge_is_the_outermost_led(leds, gravity, leds.len() as int, 0);
    }
}

/// A streak is fully lit on its own key at the moment of the press.
pub proof fn law_a_streak_starts_on_its_key(
    model: KeyfallModel,
    leds: Seq<(u8, u8)>,
    x: u8,
    y: u8,
    now: u32,
)
    ensures
        falling_light(model.launched(leds, x, y, now), (x, y), 0) == 255,
{
    let hit = model.launched(leds, x, y, now);
    let reach = hit.end - hit.along;
    assert(reach * 0 / 255 == 0);
    assert(head(hit, 0) == hit.along);
    assert(math::edge_falloff(0, 11) == 255 && math::edge_falloff(0, 58) == 255);
    assert(math::scaled255(255, 255) == 255);
}

/// A streak is lit from its press until its lifetime of 760 milliseconds,
/// paced by the speed, is over; a frame puts out what is not lit and changes
/// nothing else.
pub proof fn law_streaks_live_their_time(model: KeyfallModel, frame: FrameParams<'_>, k: int)
    requires
        0 <= k < model.hits.len(),
    ensures
        ({
            let elapsed = math::ticks_since(frame.timer_ms, model.hits[k].spawn_ms);
            let after = model.ticked(frame);
            let lit = model.hits[k].active && elapsed < super::lifetime(760, frame.speed);
            &&& model.live(frame, k) == lit
            &&& after.hits.len() == model.hits.len()
            &&& after.hits[k] == (FallingHit { active: lit, ..model.hits[k] })
            &&& after.next == model.next && after.color_step == model.color_step
            &&& after.params == model.params
            &&& model.share(frame, k) == super::share(elapsed, super::lifetime(760, frame.speed))
        }),
{
}

/// The light of one slot on an LED, whether or not it is lit.
spec fn slot_light(model: KeyfallModel, frame: FrameParams<'_>, led: (u8, u8), k: int) -> int {
    falling_light(model.hits[k], led, model.share(frame, k))
}

/// The palette position that one slot wears at its age.
spec fn slot_color(model: KeyfallModel, frame: FrameParams<'_>, k: int) -> u8 {
    math::byte_sum(model.hits[k].palette_pos as int, model.share(frame, k) / 2)
}

/// Whether slot `k` is the first of those that give the LED the most light.
spec fn leads(
    model: KeyfallModel,
    frame: FrameParams<'_>,
    led: (u8, u8),
    n: int,
    k: int,
) -> bool {
    &&& 0 <= k < n
    &&& model.live(frame, k)
    &&& slot_light(model, frame, led, k) == model.strongest(frame, led, n).0
    &&& slot_color(model, frame, k) == model.strongest(frame, led, n).1
    &&& forall|j: int|
        0 <= j < k && model.live(frame, j) ==> #[trigger] slot_light(model, frame, led, j)
            < model.strongest(frame, led, n).0
}

proof fn lemma_strongest(model: KeyfallModel, frame: FrameParams<'_>, led: (u8, u8), n: int)
    requires
        0 <= n <= model.hits.len(),
    ensures
        ({
            let light = model.strongest(frame, led, n).0;
            &&& 0 <= light
            &&& forall|k: int|
                0 <= k < n && model.live(frame, k) ==> #[trigger] slot_light(model, frame, led, k)
                    <= light
            &&& light > 0 ==> exists|k: int| #[trigger] leads(model, frame, led, n, k)
        }),
    decreases n,
{
    if n > 0 {
        lemma_strongest(model, frame, led, n - 1);
        let rest = model.strongest(frame, led, n - 1);
        let own = slot_light(model, frame, led, n - 1);
        if model.live(frame, n - 1) && own > rest.0 {
            assert(leads(model, frame, led, n, n - 1));
        } else if rest.0 > 0 {
            let k = choose|k: int| #[trigger] leads(model, frame, led, n - 1, k);
            assert(leads(model, frame, led, n, k));
        }
    }
}

/// An LED shows the streak that lights it most, and of several equal ones the
/// one in the first slot: no lit one gives more than what shows.
pub proof fn law_the_strongest_streak_shows(
    model: KeyfallModel,
    frame: FrameParams<'_>,
    led: (u8, u8),
    n: int,
    k: int,
)
    requires
        0 <= k < n <= model.hits.len(),
        model.live(frame, k),
    ensures
        ({
            let (light, position) = model.strongest(frame, led, n);
            let own = falling_light(model.hits[k], led, model.share(frame, k));
            &&& own <= light
            &&& own == light && light > 0 && (forall|j: int|
                0 <= j < k && model.live(frame, j) ==> falling_light(
                    #[trigger] model.hits[j],
                    led,
                    model.share(frame, j),
                ) < light) ==> position == math::byte_sum(
                model.hits[k].palette_pos as int,
                model.share(frame, k) / 2,
            )
        }),
{
    lemma_strongest(model, frame, led, n);
    let light = model.strongest(frame, led, n).0;
    let own = slot_light(model, frame, led, k);
    assert(own <= light);
    if own == light && light > 0 && (forall|j: int|
        0 <= j < k && model.live(frame, j) ==> falling_light(
            #[trigger] model.hits[j],
            led,
            model.share(frame, j),
        ) < light) {
        let m = choose|m: int| #[trigger] leads(model, frame, led, n, m);
        if m < k {
            assert(falling_light(model.hits[m], led, model.share(frame, m)) < light);
        }
        assert(m == k);
    }
}

/// Whatever shows on an LED comes from a lit streak.
pub proof fn law_light_comes_from_a_lit_streak(
    model: KeyfallModel,
    frame: FrameParams<'_>,
    led: (u8, u8),
    n: int,
)
    requires
        0 <= n <= model.hits.len(),
        model.strongest(frame, led, n).0 > 0,
    ensures
        exists|k: int|
            {
                &&& 0 <= k < n
                &&& model.live(frame, k)
                &&& falling_light(
                    #[trigger] model.hits[k],
                    led,
                    model.share(frame, k),
                ) == model.strongest(frame, led, n).0
                &&& math::byte_sum(
                    model.hits[k].palette_pos as int,
                    model.share(frame, k) / 2,
                ) == model.strongest(frame, led, n).1
            },
{
    lemma_strongest(model, frame, led, n);
    let k = choose|k: int| #[trigger] leads(model, frame, led, n, k);
    assert(slot_light(model, frame, led, k) == model.strongest(frame, led, n).0);
    assert(falling_light(model.hits[k], led, model.share(frame, k)) == model.strongest(
        frame,
        led,
        n,
    ).0);
}

/// A frame colors each LED of the board by what shows there, in the palette
/// and at the saturation and brightness of the frame; what is unlit, and what
/// lies beyond the board, is black.
pub proof fn law_the_frame_shows_the_streaks(
    model: KeyfallModel,
    frame: FrameParams<'_>,
    leds: Seq<(u8, u8)>,
    len: nat,
    i: int,
)
    requires
        0 <= i < len,
    ensures
        ({
            let out = model.painted(frame, leds, len);
            &&& out.len() == len
            &&& i >= leds.len() ==> out[i] == (Hsv { h: 0, s: 0, v: 0 })
            &&& i < leds.len() ==> {
                let (light, position) = model.strongest(frame, leds[i], model.hits.len() as int);
                &&& light == 0 ==> out[i] == (Hsv { h: 0, s: 0, v: 0 })
                &&& light != 0 ==> out[i] == palette::color_at(
                    frame.palette@,
                    position,
                    frame.sat,
                    math::scaled255(light, frame.val as int) as u8,
                )
            }
        }),
{
}

} // verus!
