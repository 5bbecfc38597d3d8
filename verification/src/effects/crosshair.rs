//! CROSSHAIR: a short row-and-column pulse centred on a pressed key.
//!
//! Distances along each arm are normalized independently between the key and
//! that arm's board edge, so an off-centre key does not make a short arm
//! finish before a long one.
use vstd::prelude::*;

use super::{lifetime_ms, next_slot, progress, FrameParams};
use crate::color;
use crate::color::Hsv;
use crate::layout::LedLayout;
use crate::math;
use crate::math::{abs_diff, scale255, soft_edge};

verus! {

/// Animation selected by [`CrosshairParams::motion`].
#[derive(Copy, Clone, Debug, PartialEq, Eq, Structural)]
pub enum CrosshairMotion {
    /// The complete row and column appear immediately and fade away.
    Flash,
    /// Four streaks travel from the board edges toward the pressed key.
    Inward,
    /// Four streaks travel from the pressed key toward the board edges.
    Outward,
    /// The complete cross contracts from its edges toward the pressed key.
    Collapse,
}

impl CrosshairMotion {
    /// The motion that a byte selects; an unknown one selects Flash.
    pub open spec fn selected(value: u8) -> CrosshairMotion {
        if value == 1 {
            CrosshairMotion::Inward
        } else if value == 2 {
            CrosshairMotion::Outward
        } else if value == 3 {
            CrosshairMotion::Collapse
        } else {
            CrosshairMotion::Flash
        }
    }

    /// See [`CrosshairMotion::selected`].
    pub fn from_byte(value: u8) -> (motion: Self)
        ensures
            motion == Self::selected(value),
    {
        match value {
            1 => Self::Inward,
            2 => Self::Outward,
            3 => Self::Collapse,
            _ => Self::Flash,
        }
    }
}

/// Runtime controls of the crosshair. Every field is a byte;
/// [`CrosshairParams::set`] checks the bounds.
#[derive(Copy, Clone, Debug, PartialEq, Eq, Structural)]
pub struct CrosshairParams {
    /// 0 Flash, 1 Inward, 2 Outward, 3 Collapse.
    pub motion: u8,
    /// Base lifetime in units of 10 milliseconds.
    pub duration: u8,
    /// Coordinate tolerance perpendicular to each row or column arm.
    pub arm_half_width: u8,
    /// Width of a moving streak in normalized 0..=255 arm units.
    pub pulse_width: u8,
    /// Number of most recently recorded crosses that may be displayed.
    pub active_crosses: u8,
    /// Hue of arm pixels.
    pub arm_hue: u8,
    /// Contrasting hue of the LED of the pressed key.
    pub key_hue: u8,
}

impl CrosshairParams {
    pub const DURATION_STEP_MS: u32 = 10;

    pub const MOTION_MIN: u8 = 0;

    pub const MOTION_MAX: u8 = 3;

    pub const DURATION_MIN: u8 = 4;

    pub const DURATION_MAX: u8 = 255;

    pub const ARM_HALF_WIDTH_MIN: u8 = 0;

    pub const ARM_HALF_WIDTH_MAX: u8 = 48;

    pub const PULSE_WIDTH_MIN: u8 = 4;

    pub const PULSE_WIDTH_MAX: u8 = 192;

    pub const ACTIVE_CROSSES_MIN: u8 = 1;

    pub const ACTIVE_CROSSES_MAX: u8 = 16;

    pub const HUE_MIN: u8 = 0;

    pub const HUE_MAX: u8 = 255;

    pub const HUE_WARM: u8 = 16;

    pub const HUE_BLUE: u8 = 172;

    /// Number of parameters.
    pub const COUNT: u8 = 7;

    /// Host-facing parameter names, in index order.
    pub const NAMES: [&'static str; 7] = [
        "Motion",
        "Duration x10ms",
        "Arm width",
        "Pulse width",
        "Crosses",
        "Arm hue",
        "Key hue",
    ];

    /// Inclusive lower bound of each parameter, in index order.
    pub const MINS: [u8; 7] = [
        Self::MOTION_MIN,
        Self::DURATION_MIN,
        Self::ARM_HALF_WIDTH_MIN,
        Self::PULSE_WIDTH_MIN,
        Self::ACTIVE_CROSSES_MIN,
        Self::HUE_MIN,
        Self::HUE_MIN,
    ];

    /// Inclusive upper bound of each parameter, in index order.
    pub const MAXES: [u8; 7] = [
        Self::MOTION_MAX,
        Self::DURATION_MAX,
        Self::ARM_HALF_WIDTH_MAX,
        Self::PULSE_WIDTH_MAX,
        Self::ACTIVE_CROSSES_MAX,
        Self::HUE_MAX,
        Self::HUE_MAX,
    ];

    /// Default of each parameter, in index order.
    pub const DEFAULTS: [u8; 7] = [0, 16, 8, 56, 4, Self::HUE_BLUE, Self::HUE_WARM];

    /// The value of parameter `index`.
    pub open spec fn param(self, index: int) -> u8 {
        if index == 0 {
            self.motion
        } else if index == 1 {
            self.duration
        } else if index == 2 {
            self.arm_half_width
        } else if index == 3 {
            self.pulse_width
        } else if index == 4 {
            self.active_crosses
        } else if index == 5 {
            self.arm_hue
        } else {
            self.key_hue
        }
    }

    /// These values with parameter `index` at `value`.
    pub open spec fn with_param(self, index: int, value: u8) -> CrosshairParams {
        if index == 0 {
            CrosshairParams { motion: value, ..self }
        } else if index == 1 {
            CrosshairParams { duration: value, ..self }
        } else if index == 2 {
            CrosshairParams { arm_half_width: value, ..self }
        } else if index == 3 {
            CrosshairParams { pulse_width: value, ..self }
        } else if index == 4 {
            CrosshairParams { active_crosses: value, ..self }
        } else if index == 5 {
            CrosshairParams { arm_hue: value, ..self }
        } else {
            CrosshairParams { key_hue: value, ..self }
        }
    }

    /// Whether `value` may be given to parameter `index`.
    pub open spec fn accepts(index: int, value: u8) -> bool {
        &&& 0 <= index < Self::COUNT
        &&& Self::MINS[index] <= value <= Self::MAXES[index]
    }

    /// Value of one parameter, or `None` for an unknown index.
    pub fn get(&self, index: u8) -> (value: Option<u8>)
        ensures
            value == (if index < Self::COUNT {
                Some(self.param(index as int))
            } else {
                None
            }),
    {
        match index {
            0 => Some(self.motion),
            1 => Some(self.duration),
            2 => Some(self.arm_half_width),
            3 => Some(self.pulse_width),
            4 => Some(self.active_crosses),
            5 => Some(self.arm_hue),
            6 => Some(self.key_hue),
            _ => None,
        }
    }

    /// Sets one parameter, leaving the values unchanged if the index or the
    /// value is invalid.
    pub fn set(&mut self, index: u8, value: u8) -> (ok: bool)
        ensures
            ok == Self::accepts(index as int, value),
            *final(self) == (if ok {
                old(self).with_param(index as int, value)
            } else {
                *old(self)
            }),
    {
        let i: usize = index as usize;
        if i >= Self::COUNT as usize || value < Self::MINS[i] || value > Self::MAXES[i] {
            return false;
        }
        match index {
            0 => self.motion = value,
            1 => self.duration = value,
            2 => self.arm_half_width = value,
            3 => self.pulse_width = value,
            4 => self.active_crosses = value,
            5 => self.arm_hue = value,
            6 => self.key_hue = value,
            _ => return false,
        }
        true
    }

    /// Lifetime of a cross at `speed`.
    pub open spec fn span(self, speed: u8) -> int {
        super::lifetime(math::larger(self.duration as int, 4) * 10, speed)
    }

    /// Lifetime of a cross after applying the shared speed control.
    pub fn duration_ms(&self, speed: u8) -> (ms: u32)
        ensures
            ms == self.span(speed),
            1 <= ms <= 15_000,
    {
        let units: u8 = if self.duration < Self::DURATION_MIN {
            Self::DURATION_MIN
        } else {
            self.duration
        };
        lifetime_ms(units as u32 * Self::DURATION_STEP_MS, speed)
    }

    /// Perpendicular tolerance of an arm.
    pub open spec fn width(self) -> int {
        math::smaller(self.arm_half_width as int, 48)
    }
}

/// The tuned defaults.
pub open spec fn crosshair_defaults() -> CrosshairParams {
    CrosshairParams {
        motion: 0,
        duration: 16,
        arm_half_width: 8,
        pulse_width: 56,
        active_crosses: 4,
        arm_hue: 172,
        key_hue: 16,
    }
}

impl Default for CrosshairParams {
    fn default() -> (params: Self)
        ensures
            params == crosshair_defaults(),
    {
        Self {
            motion: 0,
            duration: 16,
            arm_half_width: 8,
            pulse_width: 56,
            active_crosses: 4,
            arm_hue: Self::HUE_BLUE,
            key_hue: Self::HUE_WARM,
        }
    }
}

/// One recorded press.
#[derive(Copy, Clone, Debug, PartialEq, Eq, Structural)]
pub struct CrosshairHit {
    pub led_idx: usize,
    pub x: u8,
    pub y: u8,
    pub spawn_ms: u32,
    pub active: bool,
}

/// A slot that holds no press.
pub open spec fn empty_hit() -> CrosshairHit {
    CrosshairHit { led_idx: 0, x: 0, y: 0, spawn_ms: 0, active: false }
}

/// Distance from `hit` on the half-arm that `position` lies on, normalized so
/// that the key is 0 and either board edge is 255.
pub open spec fn normalized(position: int, hit: int) -> int {
    if position < hit {
        (hit - position) * 255 / hit
    } else if position > hit {
        (position - hit) * 255 / (255 - hit)
    } else {
        0
    }
}

fn normalized_distance(position: u8, hit: u8) -> (r: u8)
    ensures
        r == normalized(position as int, hit as int),
{
    if position < hit {
        proof {
            lemma_normalized(hit - position, hit as int);
        }
        ((hit as u16 - position as u16) * 255 / hit as u16) as u8
    } else if position > hit {
        proof {
            lemma_normalized(position - hit, 255 - hit);
        }
        ((position as u16 - hit as u16) * 255 / (255 - hit as u16)) as u8
    } else {
        0
    }
}

proof fn lemma_normalized(run: int, span: int)
    requires
        0 <= run <= span,
        1 <= span,
    ensures
        0 <= run * 255 / span <= 255,
{
    assert(0 <= run * 255 / span <= 255) by (nonlinear_arith)
        requires
            0 <= run <= span,
            1 <= span,
    ;
}

/// Width of a streak within its bounds.
pub open spec fn pulse(width: int) -> int {
    math::clamped(width, 4, 192)
}

fn pulse_extent(width: u8) -> (r: u8)
    ensures
        r == pulse(width as int),
{
    if width < CrosshairParams::PULSE_WIDTH_MIN {
        CrosshairParams::PULSE_WIDTH_MIN
    } else if width > CrosshairParams::PULSE_WIDTH_MAX {
        CrosshairParams::PULSE_WIDTH_MAX
    } else {
        width
    }
}

fn streak(position: u8, centre: u8, width: u8) -> (r: u8)
    ensures
        r == math::edge_falloff(
            math::distance(position as int, centre as int),
            pulse(width as int),
        ),
{
    soft_edge(abs_diff(position, centre) as u32, pulse_extent(width) as u32)
}

/// Progress of a moving streak: it finishes its travel halfway through the
/// lifetime.
pub open spec fn travelled(progress: int) -> int {
    math::smaller(2 * progress, 255)
}

fn travel_progress(progress: u8) -> (r: u8)
    ensures
        r == travelled(progress as int),
{
    if progress < 128 {
        progress * 2
    } else {
        255
    }
}

/// Brightness of a moving streak: full while it travels, then fading at the
/// destination.
pub open spec fn motion_fade(progress: int) -> int {
    if progress < 128 {
        255
    } else {
        2 * (255 - progress)
    }
}

fn motion_envelope(progress: u8) -> (r: u8)
    ensures
        r == motion_fade(progress as int),
{
    if progress < 128 {
        255
    } else {
        (255 - progress) * 2
    }
}

/// Brightness at normalized distance `along` of a cross whose edge has
/// contracted to `boundary`.
pub open spec fn contracted(along: int, boundary: int, width: int) -> int {
    if along > boundary {
        0
    } else if boundary - along >= pulse(width) {
        255
    } else {
        (boundary - along + 1) * 255 / (pulse(width) + 1)
    }
}

fn contraction(along: u8, boundary: u8, width: u8) -> (r: u8)
    ensures
        r == contracted(along as int, boundary as int, width as int),
{
    if along > boundary {
        return 0;
    }
    let softness: u8 = pulse_extent(width);
    let inside: u8 = boundary - along;
    if inside >= softness {
        return 255;
    }
    proof {
        lemma_normalized(inside + 1, softness + 1);
    }
    ((inside as u16 + 1) * 255 / (softness as u16 + 1)) as u8
}

/// Brightness along an arm, by the motion.
pub open spec fn along_arm(motion: CrosshairMotion, along: int, width: int, progress: int) -> int {
    match motion {
        CrosshairMotion::Flash => 255 - progress,
        CrosshairMotion::Inward => math::scaled255(
            math::edge_falloff(math::distance(along, 255 - travelled(progress)), pulse(width)),
            motion_fade(progress),
        ),
        CrosshairMotion::Outward => math::scaled255(
            math::edge_falloff(math::distance(along, travelled(progress)), pulse(width)),
            motion_fade(progress),
        ),
        CrosshairMotion::Collapse => math::scaled255(
            contracted(along, 255 - progress, width),
            255 - progress,
        ),
    }
}

/// Brightness of an arm at `along` its length and `transverse` to it.
pub open spec fn arm_light(
    params: CrosshairParams,
    along: int,
    transverse: int,
    progress: int,
) -> int {
    math::scaled255(
        along_arm(
            CrosshairMotion::selected(params.motion),
            along,
            params.pulse_width as int,
            progress,
        ),
        math::edge_falloff(transverse, params.width()),
    )
}

fn arm_value(params: CrosshairParams, along: u8, transverse: u8, width: u8, progress: u8) -> (r: u8)
    requires
        width == params.width(),
    ensures
        r == arm_light(params, along as int, transverse as int, progress as int),
{
    let pulse_width: u8 = params.pulse_width;
    let longitudinal: u8 = match CrosshairMotion::from_byte(params.motion) {
        CrosshairMotion::Flash => 255 - progress,
        CrosshairMotion::Inward => scale255(
            streak(along, 255 - travel_progress(progress), pulse_width),
            motion_envelope(progress),
        ),
        CrosshairMotion::Outward => scale255(
            streak(along, travel_progress(progress), pulse_width),
            motion_envelope(progress),
        ),
        CrosshairMotion::Collapse => scale255(
            contraction(along, 255 - progress, pulse_width),
            255 - progress,
        ),
    };
    scale255(longitudinal, soft_edge(transverse as u32, width as u32))
}

/// Brightness that the cross of `hit` gives the LED at `led`: the stronger of
/// its row arm and its column arm.
pub open spec fn cross_light(
    params: CrosshairParams,
    hit: CrosshairHit,
    led: (u8, u8),
    progress: int,
) -> int {
    let dx = math::distance(led.0 as int, hit.x as int);
    let dy = math::distance(led.1 as int, hit.y as int);
    math::larger(
        if dy <= params.width() {
            arm_light(params, normalized(led.0 as int, hit.x as int), dy, progress)
        } else {
            0
        },
        if dx <= params.width() {
            arm_light(params, normalized(led.1 as int, hit.y as int), dx, progress)
        } else {
            0
        },
    )
}

fn value_at(params: CrosshairParams, hit: CrosshairHit, led: (u8, u8), progress: u8) -> (r: u8)
    ensures
        r == cross_light(params, hit, led, progress as int),
{
    let width: u8 = if params.arm_half_width > CrosshairParams::ARM_HALF_WIDTH_MAX {
        CrosshairParams::ARM_HALF_WIDTH_MAX
    } else {
        params.arm_half_width
    };
    let dx: u8 = abs_diff(led.0, hit.x);
    let dy: u8 = abs_diff(led.1, hit.y);
    let row: u8 = if dy <= width {
        arm_value(params, normalized_distance(led.0, hit.x), dy, width, progress)
    } else {
        0
    };
    let column: u8 = if dx <= width {
        arm_value(params, normalized_distance(led.1, hit.y), dx, width, progress)
    } else {
        0
    };
    if row >= column {
        row
    } else {
        column
    }
}

/// What a [`CrosshairState`] holds.
pub struct CrosshairModel {
    /// The remembered presses, newest first.
    pub hits: Seq<CrosshairHit>,
    pub params: CrosshairParams,
}

impl CrosshairModel {
    /// The state that a new effect with room for `capacity` presses starts in.
    pub open spec fn fresh(capacity: nat, params: CrosshairParams) -> CrosshairModel {
        CrosshairModel { hits: Seq::new(capacity, |k: int| empty_hit()), params }
    }

    /// The state after a press.
    pub open spec fn pressed(self, led_idx: usize, x: u8, y: u8, now: u32) -> CrosshairModel {
        CrosshairModel {
            hits: super::remembered(
                self.hits,
                CrosshairHit { led_idx, x, y, spawn_ms: now, active: true },
                self.hits.len() as int,
            ),
            ..self
        }
    }

    /// The state after the first `n` of a sequence of presses, each given as
    /// `(led_idx, x, y, time)`.
    pub open spec fn pressed_through(
        self,
        presses: Seq<(usize, u8, u8, u32)>,
        n: int,
    ) -> CrosshairModel
        decreases n,
    {
        if n <= 0 {
            self
        } else {
            let (led_idx, x, y, now) = presses[n - 1];
            self.pressed_through(presses, n - 1).pressed(led_idx, x, y, now)
        }
    }

    /// Number of newest presses that are displayed.
    pub open spec fn visible(self) -> int {
        math::clamped(self.params.active_crosses as int, 1, self.hits.len() as int)
    }

    /// Whether the press recorded `k` presses before the newest is shown.
    pub open spec fn shown(self, k: int) -> bool {
        0 <= k < self.visible() && k < self.hits.len() && self.hits[k].active
    }

    /// How much of its lifetime the press recorded `k` before the newest has
    /// behind it.
    pub open spec fn age(self, frame: FrameParams<'_>, k: int) -> int {
        math::ticks_since(frame.timer_ms, self.hits[k].spawn_ms)
    }

    /// The state after a frame that drew `drawn` LEDs: a displayed press whose
    /// lifetime is over goes out for good.
    pub open spec fn ticked(self, frame: FrameParams<'_>, drawn: int) -> CrosshairModel {
        CrosshairModel {
            hits: Seq::new(
                self.hits.len(),
                |k: int|
                    CrosshairHit {
                        active: self.hits[k].active && !(drawn > 0 && k < self.visible()
                            && self.age(frame, k) >= self.params.span(frame.speed)),
                        ..self.hits[k]
                    },
            ),
            ..self
        }
    }

    /// Brightness that press `k` gives the LED at `led`.
    pub open spec fn light(self, frame: FrameParams<'_>, led: (u8, u8), k: int) -> int {
        cross_light(
            self.params,
            self.hits[k],
            led,
            super::share(self.age(frame, k), self.params.span(frame.speed)),
        )
    }

    /// Strongest light on the LED `index` at `led` among the `n` newest
    /// presses, of those that pressed this LED's key or of the others.
    pub open spec fn brightest(
        self,
        frame: FrameParams<'_>,
        index: int,
        led: (u8, u8),
        n: int,
        own: bool,
    ) -> int
        decreases n,
    {
        if n <= 0 {
            0
        } else {
            let rest = self.brightest(frame, index, led, n - 1, own);
            if self.shown(n - 1) && (self.hits[n - 1].led_idx == index) == own {
                math::larger(rest, self.light(frame, led, n - 1))
            } else {
                rest
            }
        }
    }

    /// Whether one of the `n` newest presses that are shown pressed the key
    /// of the LED `index`.
    pub open spec fn struck(self, index: int, n: int) -> bool {
        exists|k: int| 0 <= k < n && #[trigger] self.shown(k) && self.hits[k].led_idx == index
    }

    /// The color of the LED `index` at `led`: the key hue wins on the LED of
    /// a displayed press, whichever arm lights it.
    pub open spec fn pixel(self, frame: FrameParams<'_>, index: int, led: (u8, u8)) -> Hsv {
        let n = self.visible();
        let light = math::larger(
            self.brightest(frame, index, led, n, true),
            self.brightest(frame, index, led, n, false),
        );
        if light == 0 {
            color::black()
        } else {
            Hsv {
                h: if self.struck(index, n) {
                    self.params.key_hue
                } else {
                    self.params.arm_hue
                },
                s: frame.sat,
                v: math::scaled255(light, frame.val as int) as u8,
            }
        }
    }

    /// The frame: black, but for the displayed crosses.
    pub open spec fn painted(self, frame: FrameParams<'_>, leds: Seq<(u8, u8)>, len: nat) -> Seq<
        Hsv,
    > {
        Seq::new(
            len,
            |i: int|
                if i < leds.len() && self.hits.len() > 0 {
                    self.pixel(frame, i, leds[i])
                } else {
                    color::black()
                },
        )
    }
}

/// Ring of the `N` most recently recorded presses and the current tuning.
pub struct CrosshairState<const N: usize> {
    hits: [CrosshairHit; N],
    next: usize,
    params: CrosshairParams,
}

impl<const N: usize> View for CrosshairState<N> {
    type V = CrosshairModel;

    closed spec fn view(&self) -> CrosshairModel {
        CrosshairModel {
            hits: Seq::new(
                N as nat,
                |back: int| self.hits@[super::ring_slot(self.next as int, back, N as int)],
            ),
            params: self.params,
        }
    }
}

impl<const N: usize> Default for CrosshairState<N> {
    fn default() -> (state: Self)
        ensures
            state.wf(),
            state@ == CrosshairModel::fresh(N as nat, crosshair_defaults()),
    {
        Self::new()
    }
}

impl<const N: usize> CrosshairState<N> {
    /// The write cursor is in range.
    pub closed spec fn wf(&self) -> bool {
        N > 0 ==> self.next < N
    }

    pub fn new() -> (state: Self)
        ensures
            state.wf(),
            state@ == CrosshairModel::fresh(N as nat, crosshair_defaults()),
    {
        Self::with_params(CrosshairParams::default())
    }

    /// State pre-tuned with `params`.
    pub fn with_params(params: CrosshairParams) -> (state: Self)
        ensures
            state.wf(),
            state@ == CrosshairModel::fresh(N as nat, params),
    {
        let state = Self {
            hits: [CrosshairHit { led_idx: 0, x: 0, y: 0, spawn_ms: 0, active: false };N],
            next: 0,
            params,
        };
        assert(state@.hits =~= CrosshairModel::fresh(N as nat, params).hits);
        state
    }

    /// The tuning currently in effect.
    pub fn params(&self) -> (params: CrosshairParams)
        ensures
            params == self@.params,
    {
        self.params
    }

    /// Retunes a running effect.
    pub fn set_params(&mut self, params: CrosshairParams)
        requires
            old(self).wf(),
        ensures
            final(self).wf(),
            final(self)@ == (CrosshairModel { params, ..old(self)@ }),
    {
        self.params = params;
        assert(self@.hits =~= old(self)@.hits);
    }

    /// Records a press. `led_idx` identifies the exact key even when several
    /// LEDs share coordinates.
    pub fn record_hit(&mut self, led_idx: usize, x: u8, y: u8, timer_ms: u32)
        requires
            old(self).wf(),
        ensures
            final(self).wf(),
            final(self)@ == old(self)@.pressed(led_idx, x, y, timer_ms),
    {
        if N == 0 {
            assert(self@.hits =~= old(self)@.pressed(led_idx, x, y, timer_ms).hits);
            return ;
        }
        let slot: usize = self.next;
        self.hits[slot] = CrosshairHit { led_idx, x, y, spawn_ms: timer_ms, active: true };
        self.next = next_slot(slot, N);
        assert(self@.hits =~= old(self)@.pressed(led_idx, x, y, timer_ms).hits);
    }

    /// The ring slot of the press recorded `back` presses before the newest.
    fn slot(&self, back: usize) -> (slot: usize)
        requires
            self.wf(),
            back < N,
        ensures
            slot == super::ring_slot(self.next as int, back as int, N as int),
            slot < N,
    {
        if self.next > back {
            self.next - 1 - back
        } else {
            self.next + (N - 1 - back)
        }
    }

    fn visible(&self) -> (n: usize)
        requires
            N > 0,
        ensures
            n == self@.visible(),
            1 <= n <= N,
    {
        let wanted: usize = self.params.active_crosses as usize;
        if wanted < 1 {
            1
        } else if wanted > N {
            N
        } else {
            wanted
        }
    }

    /// Puts out the displayed presses whose lifetime is over.
    fn expire(&mut self, frame: FrameParams<'_>, duration: u32, visible: usize)
        requires
            old(self).wf(),
            N > 0,
            duration == old(self)@.params.span(frame.speed),
            visible == old(self)@.visible(),
            visible <= N,
        ensures
            final(self).wf(),
            final(self)@ == old(self)@.ticked(frame, 1),
    {
        let ghost begin = self@;
        let mut back: usize = 0;
        while back < visible
            invariant
                self.wf(),
                N > 0,
                back <= visible <= N,
                visible == begin.visible(),
                duration == begin.params.span(frame.speed),
                begin.hits.len() == N,
                self@.params == begin.params,
                self@.hits.len() == N,
                forall|k: int|
                    0 <= k < back ==> #[trigger] self@.hits[k] == begin.ticked(frame, 1).hits[k],
                forall|k: int| back <= k < N ==> #[trigger] self@.hits[k] == begin.hits[k],
            decreases visible - back,
        {
            let ghost before = self@;
            let slot: usize = self.slot(back);
            let hit: CrosshairHit = self.hits[slot];
            assert(hit == before.hits[back as int]);
            if hit.active && frame.timer_ms.wrapping_sub(hit.spawn_ms) >= duration {
                self.hits[slot] = CrosshairHit { active: false, ..hit };
            }
            assert(self@.hits =~= before.hits.update(
                back as int,
                begin.ticked(frame, 1).hits[back as int],
            ));
            back += 1;
        }
        assert(self@.hits =~= begin.ticked(frame, 1).hits);
    }

    /// The color of one LED.
    fn led(
        &self,
        frame: FrameParams<'_>,
        duration: u32,
        visible: usize,
        index: usize,
        led: (u8, u8),
    ) -> (color: Hsv)
        requires
            self.wf(),
            N > 0,
            duration == self@.params.span(frame.speed),
            visible == self@.visible(),
            visible <= N,
            forall|k: int|
                #[trigger] self@.shown(k) ==> self@.age(frame, k) < self@.params.span(frame.speed),
        ensures
            color == self@.pixel(frame, index as int, led),
    {
        let ghost model = self@;
        let mut arm: u8 = 0;
        let mut key: u8 = 0;
        let mut struck: bool = false;
        let mut back: usize = 0;
        while back < visible
            invariant
                self.wf(),
                N > 0,
                model == self@,
                model.hits.len() == N,
                back <= visible <= N,
                visible == model.visible(),
                duration == model.params.span(frame.speed),
                forall|k: int|
                    #[trigger] model.shown(k) ==> model.age(frame, k) < model.params.span(
                        frame.speed,
                    ),
                arm == model.brightest(frame, index as int, led, back as int, false),
                key == model.brightest(frame, index as int, led, back as int, true),
                struck == model.struck(index as int, back as int),
            decreases visible - back,
        {
            let slot: usize = self.slot(back);
            let hit: CrosshairHit = self.hits[slot];
            assert(hit == model.hits[back as int]);
            assert(hit.active == model.shown(back as int));
            if hit.active {
                let elapsed: u32 = frame.timer_ms.wrapping_sub(hit.spawn_ms);
                let light: u8 = value_at(self.params, hit, led, progress(elapsed, duration));
                assert(light == model.light(frame, led, back as int));
                if hit.led_idx == index {
                    struck = true;
                    if light > key {
                        key = light;
                    }
                } else if light > arm {
                    arm = light;
                }
            }
            back += 1;
        }
        let light: u8 = if key >= arm {
            key
        } else {
            arm
        };
        if light == 0 {
            return Hsv::default();
        }
        let hue: u8 = if struck {
            self.params.key_hue
        } else {
            self.params.arm_hue
        };
        Hsv::new(hue, frame.sat, scale255(light, frame.val))
    }

    fn render<L: LedLayout>(&mut self, layout: &L, frame: FrameParams<'_>, out: &mut [Hsv])
        requires
            old(self).wf(),
        ensures
            final(self).wf(),
            final(self)@ == old(self)@.ticked(
                frame,
                math::smaller(layout.leds().len() as int, old(out)@.len() as int),
            ),
            final(out)@ == final(self)@.painted(frame, layout.leds(), old(out)@.len()),
    {
        super::fill(out, Hsv::default());
        let count: usize = layout.count();
        let len: usize = out.len();
        if N == 0 || count == 0 || len == 0 {
            assert(self@.hits =~= old(self)@.ticked(
                frame,
                math::smaller(count as int, len as int),
            ).hits);
            assert(out@ =~= self@.painted(frame, layout.leds(), len as nat));
            return ;
        }
        let duration: u32 = self.params.duration_ms(frame.speed);
        let visible: usize = self.visible();
        self.expire(frame, duration, visible);
        let ghost model = self@;
        let mut i: usize = 0;
        while i < len && i < count
            invariant
                self.wf(),
                N > 0,
                model == self@,
                model.hits.len() == N,
                i <= len,
                i <= count,
                len == out@.len(),
                count == layout.leds().len(),
                duration == model.params.span(frame.speed),
                visible == model.visible(),
                visible <= N,
                forall|k: int|
                    #[trigger] model.shown(k) ==> model.age(frame, k) < model.params.span(
                        frame.speed,
                    ),
                forall|j: int|
                    0 <= j < i ==> out@[j] == model.pixel(frame, j, layout.leds()[j]),
                forall|j: int| i <= j < len ==> out@[j] == color::black(),
            decreases len - i,
        {
            out[i] = self.led(frame, duration, visible, i, layout.position(i));
            i += 1;
        }
        assert(out@ =~= model.painted(frame, layout.leds(), len as nat));
    }

    /// Renders as a standalone sparse effect: idle and non-arm pixels are
    /// black.
    pub fn tick<L: LedLayout>(&mut self, layout: &L, frame: FrameParams<'_>, out: &mut [Hsv])
        requires
            old(self).wf(),
        ensures
            final(self).wf(),
            final(self)@ == old(self)@.ticked(
                frame,
                math::smaller(layout.leds().len() as int, old(out)@.len() as int),
            ),
            final(out)@ == final(self)@.painted(frame, layout.leds(), old(out)@.len()),
    {
        self.render(layout, frame, out);
    }

    /// Renders as a sparse overlay: its value is direct layer coverage.
    pub fn tick_layer<L: LedLayout>(&mut self, layout: &L, frame: FrameParams<'_>, out: &mut [Hsv])
        requires
            old(self).wf(),
        ensures
            final(self).wf(),
            final(self)@ == old(self)@.ticked(
                frame,
                math::smaller(layout.leds().len() as int, old(out)@.len() as int),
            ),
            final(out)@ == final(self)@.painted(frame, layout.leds(), old(out)@.len()),
    {
        self.render(layout, frame, out);
    }
}

/// Setting a parameter changes that parameter alone.
pub proof fn law_set_then_get(params: CrosshairParams, index: int, value: u8, other: int)
    requires
        0 <= index < CrosshairParams::COUNT,
        0 <= other < CrosshairParams::COUNT,
    ensures
        params.with_param(index, value).param(index) == value,
        other != index ==> params.with_param(index, value).param(other) == params.param(other),
{
}

/// The advertised defaults are the values a new state is tuned to, and every
/// one of them is within its bounds.
pub proof fn law_defaults_are_advertised(index: int)
    requires
        0 <= index < CrosshairParams::COUNT,
    ensures
        crosshair_defaults().param(index) == CrosshairParams::DEFAULTS[index],
        CrosshairParams::accepts(index, CrosshairParams::DEFAULTS[index]),
{
}

/// A frame is black when no displayed press is within its lifetime: an idle
/// effect, and one whose crosses have all expired.
pub proof fn law_idle_and_expired_are_black(
    model: CrosshairModel,
    frame: FrameParams<'_>,
    leds: Seq<(u8, u8)>,
    len: nat,
)
    requires
        forall|k: int|
            #[trigger] model.shown(k) ==> model.age(frame, k) >= model.params.span(frame.speed),
    ensures
        ({
            let drawn = math::smaller(leds.len() as int, len as int);
            model.ticked(frame, drawn).painted(frame, leds, len) == Seq::new(
                len,
                |i: int| color::black(),
            )
        }),
{
    let drawn = math::smaller(leds.len() as int, len as int);
    let after = model.ticked(frame, drawn);
    assert forall|i: int| 0 <= i < len && i < leds.len() implies after.pixel(frame, i, leds[i])
        == color::black() by {
        assert forall|k: int| !#[trigger] after.shown(k) by {
            assert(after.shown(k) ==> model.shown(k));
        }
        lemma_dark(after, frame, i, leds[i], after.visible(), true);
        lemma_dark(after, frame, i, leds[i], after.visible(), false);
    }
    assert(after.painted(frame, leds, len) =~= Seq::new(len, |i: int| color::black()));
}

proof fn lemma_dark(
    model: CrosshairModel,
    frame: FrameParams<'_>,
    index: int,
    led: (u8, u8),
    n: int,
    own: bool,
)
    requires
        forall|k: int| !#[trigger] model.shown(k),
    ensures
        model.brightest(frame, index, led, n, own) == 0,
    decreases n,
{
    if n > 0 {
        lemma_dark(model, frame, index, led, n - 1, own);
        assert(!model.shown(n - 1));
    }
}

/// Only the newest presses show: two states that are tuned alike and agree on
/// as many presses as are displayed render the same frames, whatever else they
/// remember.
pub proof fn law_only_displayed_presses_show(
    model: CrosshairModel,
    other: CrosshairModel,
    frame: FrameParams<'_>,
    leds: Seq<(u8, u8)>,
    drawn: int,
    len: nat,
)
    requires
        model.params == other.params,
        model.hits.len() == other.hits.len(),
        forall|k: int| 0 <= k < model.visible() ==> #[trigger] model.hits[k] == other.hits[k],
    ensures
        model.ticked(frame, drawn).painted(frame, leds, len) == other.ticked(frame, drawn).painted(
            frame,
            leds,
            len,
        ),
{
    let a = model.ticked(frame, drawn);
    let b = other.ticked(frame, drawn);
    assert forall|k: int| 0 <= k < a.visible() && k < a.hits.len() implies #[trigger] a.hits[k]
        == b.hits[k] by {
        assert(model.hits[k] == other.hits[k]);
    }
    assert forall|k: int| #[trigger] a.shown(k) == b.shown(k) by {}
    assert forall|i: int| 0 <= i < len && i < leds.len() implies a.pixel(frame, i, leds[i])
        == b.pixel(frame, i, leds[i]) by {
        lemma_same_light(a, b, frame, i, leds[i], a.visible(), true);
        lemma_same_light(a, b, frame, i, leds[i], a.visible(), false);
        lemma_same_struck(a, b, i);
        lemma_same_struck(b, a, i);
    }
    assert(a.painted(frame, leds, len) =~= b.painted(frame, leds, len));
}

proof fn lemma_same_struck(a: CrosshairModel, b: CrosshairModel, index: int)
    requires
        a.visible() == b.visible(),
        forall|k: int| #[trigger] a.shown(k) == b.shown(k),
        forall|k: int|
            0 <= k < a.visible() && k < a.hits.len() ==> #[trigger] a.hits[k] == b.hits[k],
    ensures
        a.struck(index, a.visible()) ==> b.struck(index, b.visible()),
{
    if a.struck(index, a.visible()) {
        let k = choose|k: int|
            0 <= k < a.visible() && #[trigger] a.shown(k) && a.hits[k].led_idx == index;
        assert(b.shown(k) && b.hits[k].led_idx == index);
    }
}

proof fn lemma_same_light(
    a: CrosshairModel,
    b: CrosshairModel,
    frame: FrameParams<'_>,
    index: int,
    led: (u8, u8),
    n: int,
    own: bool,
)
    requires
        a.params == b.params,
        n <= a.visible(),
        forall|k: int| #[trigger] a.shown(k) == b.shown(k),
        forall|k: int|
            0 <= k < a.visible() && k < a.hits.len() ==> #[trigger] a.hits[k] == b.hits[k],
    ensures
        a.brightest(frame, index, led, n, own) == b.brightest(frame, index, led, n, own),
    decreases n,
{
    if n > 0 {
        lemma_same_light(a, b, frame, index, led, n - 1, own);
        assert(a.shown(n - 1) == b.shown(n - 1));
        if a.shown(n - 1) {
            assert(a.hits[n - 1] == b.hits[n - 1]);
        }
    }
}

/// After any sequence of presses the board shows what it would have shown had
/// only the newest of them been recorded, as many as may be displayed. With
/// one active cross every press thus ends the animation before it at once.
pub proof fn law_older_presses_leave_no_mark(
    capacity: nat,
    params: CrosshairParams,
    presses: Seq<(usize, u8, u8, u32)>,
    frame: FrameParams<'_>,
    leds: Seq<(u8, u8)>,
    drawn: int,
    len: nat,
)
    requires
        capacity >= 1,
        params.active_crosses >= 1,
    ensures
        ({
            let fresh = CrosshairModel::fresh(capacity, params);
            let m = presses.len() as int;
            let kept = math::smaller(
                math::smaller(params.active_crosses as int, capacity as int),
                m,
            );
            let newest = presses.skip(m - kept);
            fresh.pressed_through(presses, m).ticked(frame, drawn).painted(frame, leds, len)
                == fresh.pressed_through(newest, kept).ticked(frame, drawn).painted(
                frame,
                leds,
                len,
            )
        }),
{
    let fresh = CrosshairModel::fresh(capacity, params);
    let m = presses.len() as int;
    let kept = math::smaller(math::smaller(params.active_crosses as int, capacity as int), m);
    let newest = presses.skip(m - kept);
    let all = fresh.pressed_through(presses, m);
    let few = fresh.pressed_through(newest, kept);
    assert(newest.len() == kept);
    lemma_remembered_presses(capacity, params, presses, m);
    lemma_remembered_presses(capacity, params, newest, kept);
    assert forall|k: int| 0 <= k < all.visible() implies #[trigger] all.hits[k] == few.hits[k] by {
        if k < kept {
            assert(newest[kept - 1 - k] == presses[m - 1 - k]);
        }
        assert(few.hits[k] == recalled(newest, kept, k));
        assert(all.hits[k] == recalled(presses, m, k));
    }
    law_only_displayed_presses_show(all, few, frame, leds, drawn, len);
}

/// What slot `k` of a memory, newest first, holds after the first `n` presses.
pub open spec fn recalled(presses: Seq<(usize, u8, u8, u32)>, n: int, k: int) -> CrosshairHit {
    if k < n {
        let (led_idx, x, y, spawn_ms) = presses[n - 1 - k];
        CrosshairHit { led_idx, x, y, spawn_ms, active: true }
    } else {
        empty_hit()
    }
}

proof fn lemma_remembered_presses(
    capacity: nat,
    params: CrosshairParams,
    presses: Seq<(usize, u8, u8, u32)>,
    n: int,
)
    requires
        capacity >= 1,
        0 <= n <= presses.len(),
    ensures
        ({
            let model = CrosshairModel::fresh(capacity, params).pressed_through(presses, n);
            &&& model.params == params
            &&& model.hits.len() == capacity
            &&& forall|k: int|
                0 <= k < capacity ==> #[trigger] model.hits[k] == recalled(presses, n, k)
        }),
    decreases n,
{
    if n > 0 {
        lemma_remembered_presses(capacity, params, presses, n - 1);
        let before = CrosshairModel::fresh(capacity, params).pressed_through(presses, n - 1);
        let after = CrosshairModel::fresh(capacity, params).pressed_through(presses, n);
        assert forall|k: int| 0 <= k < capacity implies #[trigger] after.hits[k] == recalled(
            presses,
            n,
            k,
        ) by {
            if k > 0 {
                assert(after.hits[k] == before.hits[k - 1]);
            }
        }
    }
}

/// The LED of a displayed press wears the key hue whenever it is lit, and
/// every other LED wears the arm hue.
pub proof fn law_the_pressed_key_keeps_its_hue(
    model: CrosshairModel,
    frame: FrameParams<'_>,
    index: int,
    led: (u8, u8),
)
    ensures
        model.pixel(frame, index, led).v > 0 ==> model.pixel(frame, index, led).h == (
        if model.struck(index, model.visible()) {
            model.params.key_hue
        } else {
            model.params.arm_hue
        }),
{
}

/// An LED off both the row and the column of a cross gets no light from it.
pub proof fn law_off_the_arms_is_dark(
    params: CrosshairParams,
    hit: CrosshairHit,
    led: (u8, u8),
    progress: int,
)
    requires
        math::distance(led.0 as int, hit.x as int) > params.width(),
        math::distance(led.1 as int, hit.y as int) > params.width(),
    ensures
        cross_light(params, hit, led, progress) == 0,
{
}

/// The inward and the outward streak run the same course in opposite
/// directions, over the whole travel.
pub proof fn law_inward_mirrors_outward(along: int, width: int, progress: int)
    requires
        0 <= along <= 255,
        0 <= progress <= 255,
    ensures
        along_arm(CrosshairMotion::Inward, along, width, progress) == along_arm(
            CrosshairMotion::Outward,
            255 - along,
            width,
            progress,
        ),
{
}

/// Both ends of a half-arm are normalized: the key is at 0 and the board edge
/// at 255, wherever the key is.
pub proof fn law_arms_are_normalized(hit: u8)
    ensures
        normalized(hit as int, hit as int) == 0,
        hit > 0 ==> normalized(0, hit as int) == 255,
        hit < 255 ==> normalized(255, hit as int) == 255,
{
    if hit > 0 {
        assert(hit * 255 / (hit as int) == 255) by (nonlinear_arith)
            requires
                hit > 0,
        ;
    }
    if hit < 255 {
        let span = 255 - hit;
        assert(span * 255 / span == 255) by (nonlinear_arith)
            requires
                span > 0,
        ;
    }
}

/// A moving streak starts fully lit at its origin, and from the middle of its
/// life on it is at its destination.
pub proof fn law_streaks_reach_their_destination(width: int, progress: int)
    requires
        128 <= progress <= 255,
    ensures
        along_arm(CrosshairMotion::Outward, 0, width, 0) == 255,
        along_arm(CrosshairMotion::Inward, 255, width, 0) == 255,
        along_arm(CrosshairMotion::Outward, 255, width, progress) == motion_fade(progress),
        along_arm(CrosshairMotion::Inward, 0, width, progress) == motion_fade(progress),
{
    let wide = pulse(width);
    assert(0int / (wide + 1) == 0) by (nonlinear_arith)
        requires
            wide >= 4,
    ;
    assert(math::edge_falloff(0, wide) == 255);
    assert(math::scaled255(255, 255) == 255);
    assert(math::scaled255(255, motion_fade(progress)) == motion_fade(progress));
}

/// A collapsing cross is dark beyond the edge it has contracted to.
pub proof fn law_a_collapse_contracts(along: int, width: int, progress: int)
    requires
        0 <= progress <= 255,
        along > 255 - progress,
    ensures
        along_arm(CrosshairMotion::Collapse, along, width, progress) == 0,
{
    assert(0 * (255 - progress) == 0);
}

/// A half-arm is measured in 255ths of the way from the key to its own board
/// edge, rounded down, and so grows steadily toward that edge.
pub proof fn law_a_half_arm_is_measured_evenly(position: int, hit: int)
    requires
        0 <= position <= 255,
        0 <= hit <= 255,
    ensures
        ({
            let away = normalized(position, hit);
            &&& position < hit ==> away * hit <= (hit - position) * 255 < away * hit + hit
            &&& position > hit ==> away * (255 - hit) <= (position - hit) * 255 < away * (255 - hit)
                + 255 - hit
            &&& position == hit ==> away == 0
            &&& 0 <= away <= 255
        }),
{
    if position < hit {
        math::lemma_quotient((hit - position) * 255, hit);
        lemma_normalized(hit - position, hit);
    } else if position > hit {
        math::lemma_quotient((position - hit) * 255, 255 - hit);
        lemma_normalized(position - hit, 255 - hit);
    }
}

/// A half-arm and its mirror image are measured alike.
pub proof fn law_half_arms_mirror(position: int, hit: int)
    ensures
        normalized(255 - position, 255 - hit) == normalized(position, hit),
{
}

/// The bytes of the motions are 1 for inward, 2 for outward and 3 for
/// collapse; every other one is a flash.
pub proof fn law_motion_bytes(value: u8)
    ensures
        CrosshairMotion::selected(1) == CrosshairMotion::Inward,
        CrosshairMotion::selected(2) == CrosshairMotion::Outward,
        CrosshairMotion::selected(3) == CrosshairMotion::Collapse,
        value == 0 || value > 3 ==> CrosshairMotion::selected(value) == CrosshairMotion::Flash,
{
}

/// A flash shows the whole arm at once and fades as its life goes by.
pub proof fn law_a_flash_fades_as_a_whole(along: int, other: int, width: int, progress: int)
    ensures
        along_arm(CrosshairMotion::Flash, along, width, progress) == 255 - progress,
        along_arm(CrosshairMotion::Flash, along, width, progress) == along_arm(
            CrosshairMotion::Flash,
            other,
            width,
            progress,
        ),
{
}

/// A streak is centred where it has travelled to: two parts of the arm for
/// each part of its life, from the key outward or from the edge inward, until
/// it has arrived. It is a soft edge as wide as the pulse, held between 4 and
/// 192, at full brightness on its way and then losing two parts a part.
pub proof fn law_a_streak_travels_the_arm(along: int, width: int, progress: int)
    requires
        0 <= along <= 255,
        0 <= progress <= 255,
    ensures
        ({
            let gone = if progress < 128 {
                2 * progress
            } else {
                255
            };
            let left = if progress < 128 {
                255
            } else {
                2 * (255 - progress)
            };
            let wide = if width < 4 {
                4
            } else if width > 192 {
                192
            } else {
                width
            };
            let out = if along >= gone {
                along - gone
            } else {
                gone - along
            };
            let back = if along + gone >= 255 {
                along + gone - 255
            } else {
                255 - gone - along
            };
            &&& along_arm(CrosshairMotion::Outward, along, width, progress) == math::scaled255(
                math::edge_falloff(out, wide),
                left,
            )
            &&& along_arm(CrosshairMotion::Inward, along, width, progress) == math::scaled255(
                math::edge_falloff(back, wide),
                left,
            )
            &&& out > wide ==> along_arm(CrosshairMotion::Outward, along, width, progress) == 0
            &&& back > wide ==> along_arm(CrosshairMotion::Inward, along, width, progress) == 0
        }),
{
    assert(0 * motion_fade(progress) == 0);
}

/// A collapsing arm is whole up to a pulse short of the edge it has contracted
/// to, softens from there to the edge, and is dark beyond; it dims as a whole
/// while its edge comes in, one part of the arm for each part of its life.
pub proof fn law_a_collapse_softens_to_its_edge(along: int, width: int, progress: int)
    requires
        0 <= along <= 255,
        0 <= progress <= 255,
    ensures
        ({
            let wide = if width < 4 {
                4
            } else if width > 192 {
                192
            } else {
                width
            };
            let inside = 255 - progress - along;
            let lit = contracted(along, 255 - progress, width);
            &&& along_arm(CrosshairMotion::Collapse, along, width, progress) == math::scaled255(
                lit,
                255 - progress,
            )
            &&& inside < 0 ==> lit == 0
            &&& inside >= wide ==> lit == 255
            &&& 0 <= inside < wide ==> lit * (wide + 1) <= (inside + 1) * 255 < lit * (wide + 1)
                + wide + 1
        }),
{
    math::lemma_quotient((255 - progress - along + 1) * 255, pulse(width) + 1);
}

/// An arm is as wide as it is tuned, up to 48 steps to either side, and softens
/// across; its light is the product of what runs along it and of that edge.
pub proof fn law_an_arm_softens_across(
    params: CrosshairParams,
    along: int,
    transverse: int,
    progress: int,
)
    ensures
        ({
            let wide = if params.arm_half_width > 48 {
                48
            } else {
                params.arm_half_width as int
            };
            let lit = along_arm(
                CrosshairMotion::selected(params.motion),
                along,
                params.pulse_width as int,
                progress,
            );
            &&& params.width() == wide
            &&& arm_light(params, along, transverse, progress) == math::scaled255(
                lit,
                math::edge_falloff(transverse, wide),
            )
            &&& transverse > wide ==> arm_light(params, along, transverse, progress) == 0
        }),
{
    let lit = along_arm(
        CrosshairMotion::selected(params.motion),
        along,
        params.pulse_width as int,
        progress,
    );
    assert(lit * 0 == 0);
}

/// A cross is a row and a column through its key: an LED gets the stronger of
/// the two arms, each measured along its own axis and across the other.
pub proof fn law_a_cross_is_a_row_and_a_column(
    params: CrosshairParams,
    hit: CrosshairHit,
    led: (u8, u8),
    progress: int,
)
    requires
        0 <= progress <= 255,
    ensures
        ({
            let row = arm_light(
                params,
                normalized(led.0 as int, hit.x as int),
                math::distance(led.1 as int, hit.y as int),
                progress,
            );
            let column = arm_light(
                params,
                normalized(led.1 as int, hit.y as int),
                math::distance(led.0 as int, hit.x as int),
                progress,
            );
            let light = cross_light(params, hit, led, progress);
            &&& light >= row && light >= column
            &&& light == row || light == column
        }),
{
    law_an_arm_softens_across(
        params,
        normalized(led.0 as int, hit.x as int),
        math::distance(led.1 as int, hit.y as int),
        progress,
    );
    law_an_arm_softens_across(
        params,
        normalized(led.1 as int, hit.y as int),
        math::distance(led.0 as int, hit.x as int),
        progress,
    );
    lemma_arm_range(
        params,
        normalized(led.0 as int, hit.x as int),
        math::distance(led.1 as int, hit.y as int),
        progress,
    );
    lemma_arm_range(
        params,
        normalized(led.1 as int, hit.y as int),
        math::distance(led.0 as int, hit.x as int),
        progress,
    );
}

proof fn lemma_arm_range(params: CrosshairParams, along: int, transverse: int, progress: int)
    requires
        0 <= progress <= 255,
        0 <= transverse,
    ensures
        0 <= arm_light(params, along, transverse, progress),
{
    let motion = CrosshairMotion::selected(params.motion);
    let wide = params.pulse_width as int;
    let lit = along_arm(motion, along, wide, progress);
    math::law_edge_falloff_range(math::distance(along, travelled(progress)), pulse(wide));
    math::law_edge_falloff_range(math::distance(along, 255 - travelled(progress)), pulse(wide));
    math::law_edge_falloff_range(transverse, params.width());
    assert(0 <= contracted(along, 255 - progress, wide)) by {
        let (inside, soft) = (255 - progress - along, pulse(wide));
        if 0 <= inside < soft {
            lemma_normalized(inside + 1, soft + 1);
        }
    }
    lemma_product(
        math::edge_falloff(math::distance(along, travelled(progress)), pulse(wide)),
        motion_fade(progress),
    );
    lemma_product(
        math::edge_falloff(math::distance(along, 255 - travelled(progress)), pulse(wide)),
        motion_fade(progress),
    );
    lemma_product(contracted(along, 255 - progress, wide), 255 - progress);
    lemma_product(lit, math::edge_falloff(transverse, params.width()));
}

proof fn lemma_product(a: int, b: int)
    requires
        0 <= a,
        0 <= b,
    ensures
        0 <= math::scaled255(a, b),
{
    assert(0 <= a * b) by (nonlinear_arith)
        requires
            0 <= a,
            0 <= b,
    ;
}

/// No axis is special: a cross with its axes swapped lights the swapped LED
/// alike.
pub proof fn law_a_cross_favours_no_axis(
    params: CrosshairParams,
    hit: CrosshairHit,
    led: (u8, u8),
    progress: int,
)
    ensures
        cross_light(
            params,
            CrosshairHit { x: hit.y, y: hit.x, ..hit },
            (led.1, led.0),
            progress,
        ) == cross_light(params, hit, led, progress),
{
}

/// A cross lives for as many tens of milliseconds as it is tuned to, four at
/// least, paced by the speed.
pub proof fn law_a_cross_lives_its_time(params: CrosshairParams, speed: u8)
    ensures
        params.duration >= 4 ==> params.span(speed) == super::lifetime(params.duration * 10, speed),
        params.duration < 4 ==> params.span(speed) == super::lifetime(40, speed),
{
}

/// A press is remembered as the newest, with its LED, place and time, in front
/// of those before it, of which the oldest falls off.
pub proof fn law_a_press_is_remembered_first(
    model: CrosshairModel,
    led_idx: usize,
    x: u8,
    y: u8,
    now: u32,
    k: int,
)
    requires
        0 <= k,
        k + 1 < model.hits.len(),
    ensures
        ({
            let after = model.pressed(led_idx, x, y, now);
            &&& after.hits.len() == model.hits.len()
            &&& after.hits[0] == (CrosshairHit { led_idx, x, y, spawn_ms: now, active: true })
            &&& after.hits[k + 1] == model.hits[k]
            &&& after.params == model.params
        }),
{
}

/// As many of the newest presses are displayed as are tuned, one at least, and
/// of them those that are still active.
pub proof fn law_the_newest_crosses_show(model: CrosshairModel, k: int)
    requires
        0 <= k < model.hits.len(),
    ensures
        ({
            let tuned = model.params.active_crosses;
            &&& tuned >= 1 ==> (model.shown(k) <==> k < tuned && model.hits[k].active)
            &&& tuned == 0 ==> (model.shown(k) <==> k == 0 && model.hits[k].active)
        }),
{
}

/// A frame that draws puts out the displayed crosses whose life is over, and
/// changes nothing else; one that draws no LED changes nothing at all.
pub proof fn law_a_frame_puts_out_the_expired(
    model: CrosshairModel,
    frame: FrameParams<'_>,
    drawn: int,
    k: int,
)
    requires
        0 <= k < model.hits.len(),
    ensures
        ({
            let after = model.ticked(frame, drawn);
            let over = math::ticks_since(frame.timer_ms, model.hits[k].spawn_ms)
                >= model.params.span(frame.speed);
            &&& after.hits.len() == model.hits.len() && after.params == model.params
            &&& model.shown(k) && over && drawn > 0 ==> after.hits[k] == (CrosshairHit {
                active: false,
                ..model.hits[k]
            })
            &&& !model.shown(k) || !over || drawn <= 0 ==> after.hits[k] == model.hits[k]
        }),
{
}

/// An LED shows the strongest of the displayed crosses: none of them lights it
/// more than its color says, and what shows is one of them.
pub proof fn law_the_strongest_cross_shows(
    model: CrosshairModel,
    frame: FrameParams<'_>,
    index: int,
    led: (u8, u8),
    n: int,
    k: int,
)
    requires
        0 <= k < n,
        model.shown(k),
    ensures
        ({
            let share = super::share(
                math::ticks_since(frame.timer_ms, model.hits[k].spawn_ms),
                model.params.span(frame.speed),
            );
            let own = cross_light(model.params, model.hits[k], led, share);
            let pressed = model.hits[k].led_idx == index;
            &&& own <= model.brightest(frame, index, led, n, pressed)
            &&& model.light(frame, led, k) == own
        }),
    decreases n,
{
    if k < n - 1 {
        law_the_strongest_cross_shows(model, frame, index, led, n - 1, k);
    }
}

/// Whatever lights an LED is a displayed cross, of the kind that was asked for:
/// one that pressed this LED's key, or one that pressed another.
pub proof fn law_light_comes_from_a_displayed_cross(
    model: CrosshairModel,
    frame: FrameParams<'_>,
    index: int,
    led: (u8, u8),
    n: int,
    own: bool,
)
    ensures
        model.brightest(frame, index, led, n, own) == 0 || exists|k: int|
            {
                &&& 0 <= k < n
                &&& #[trigger] model.shown(k)
                &&& (model.hits[k].led_idx == index) == own
                &&& model.light(frame, led, k) == model.brightest(frame, index, led, n, own)
            },
    decreases n,
{
    if n > 0 {
        law_light_comes_from_a_displayed_cross(model, frame, index, led, n - 1, own);
        let rest = model.brightest(frame, index, led, n - 1, own);
        let all = model.brightest(frame, index, led, n, own);
        if all == rest {
            if rest != 0 {
                let k = choose|k: int|
                    {
                        &&& 0 <= k < n - 1
                        &&& #[trigger] model.shown(k)
                        &&& (model.hits[k].led_idx == index) == own
                        &&& model.light(frame, led, k) == rest
                    };
                assert(model.shown(k));
            }
        } else {
            assert(model.shown(n - 1));
        }
    }
}

/// A frame colors each LED of the board that a displayed cross lights: in the
/// key hue where that LED's own key was pressed and in the arm hue elsewhere,
/// at the saturation of the frame and as bright as the strongest cross and the
/// frame allow. Everything else is black.
pub proof fn law_the_frame_shows_the_crosses(
    model: CrosshairModel,
    frame: FrameParams<'_>,
    leds: Seq<(u8, u8)>,
    len: nat,
    i: int,
)
    requires
        0 <= i < len,
        model.hits.len() > 0,
    ensures
        ({
            let out = model.painted(frame, leds, len);
            let n = model.visible();
            &&& out.len() == len
            &&& i >= leds.len() ==> out[i] == (Hsv { h: 0, s: 0, v: 0 })
            &&& i < leds.len() ==> {
                let own = model.brightest(frame, i, leds[i], n, true);
                let others = model.brightest(frame, i, leds[i], n, false);
                let light = if own >= others {
                    own
                } else {
                    others
                };
                &&& light == 0 ==> out[i] == (Hsv { h: 0, s: 0, v: 0 })
                &&& light != 0 ==> {
                    &&& out[i].h == if model.struck(i, n) {
                        model.params.key_hue
                    } else {
                        model.params.arm_hue
                    }
                    &&& out[i].s == frame.sat
                    &&& out[i].v == math::scaled255(light, frame.val as int) as u8
                }
            }
        }),
{
}

/// An LED is struck exactly when a displayed press was of its own key.
pub proof fn law_a_struck_led_was_pressed(model: CrosshairModel, index: int)
    ensures
        model.struck(index, model.visible()) <==> exists|k: int|
            0 <= k < model.hits.len() && #[trigger] model.shown(k) && model.hits[k].led_idx
                == index,
{
    if exists|k: int|
        0 <= k < model.hits.len() && #[trigger] model.shown(k) && model.hits[k].led_idx == index {
        let k = choose|k: int|
            0 <= k < model.hits.len() && #[trigger] model.shown(k) && model.hits[k].led_idx
                == index;
        assert(0 <= k < model.visible() && model.shown(k));
    }
}

/// Each control has its own bounds, and reads its own field.
pub proof fn law_each_control_has_its_bounds(params: CrosshairParams, value: u8, index: int)
    ensures
        CrosshairParams::accepts(0, value) <==> value <= 3,
        CrosshairParams::accepts(1, value) <==> 4 <= value,
        CrosshairParams::accepts(2, value) <==> value <= 48,
        CrosshairParams::accepts(3, value) <==> 4 <= value <= 192,
        CrosshairParams::accepts(4, value) <==> 1 <= value <= 16,
        CrosshairParams::accepts(5, value),
        CrosshairParams::accepts(6, value),
        index < 0 || index > 6 ==> !CrosshairParams::accepts(index, value),
        params.param(0) == params.motion,
        params.param(1) == params.duration,
        params.param(2) == params.arm_half_width,
        params.param(3) == params.pulse_width,
        params.param(4) == params.active_crosses,
        params.param(5) == params.arm_hue,
        params.param(6) == params.key_hue,
{
}

/// A new crosshair flashes for 160 milliseconds, 8 steps to either side, four
/// crosses at once, in blue with warm keys.
pub proof fn law_a_new_crosshair_is_tuned(capacity: nat, params: CrosshairParams)
    ensures
        crosshair_defaults().motion == 0 && crosshair_defaults().duration == 16,
        crosshair_defaults().arm_half_width == 8 && crosshair_defaults().pulse_width == 56,
        crosshair_defaults().active_crosses == 4,
        crosshair_defaults().arm_hue == 172 && crosshair_defaults().key_hue == 16,
        CrosshairModel::fresh(capacity, params).params == params,
{
}

/// A flash and a streak that runs outward light their own key fully at the
/// moment of the press.
pub proof fn law_a_cross_starts_on_its_key(params: CrosshairParams, hit: CrosshairHit)
    requires
        params.motion == 0 || params.motion == 2,
    ensures
        cross_light(params, hit, (hit.x, hit.y), 0) == 255,
{
    let wide = pulse(params.pulse_width as int);
    math::law_edge_falloff_range(0, wide);
    math::law_edge_falloff_range(0, params.width());
    assert(math::scaled255(255, 255) == 255);
}

/// Each control is listed to a host under its own name.
pub proof fn law_each_control_has_its_name()
    ensures
        CrosshairParams::NAMES@ == seq![
            "Motion",
            "Duration x10ms",
            "Arm width",
            "Pulse width",
            "Crosses",
            "Arm hue",
            "Key hue",
        ],
{
}

} // verus!
