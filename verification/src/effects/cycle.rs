//! Runtime-switchable effect selection.
//!
//! Firmware that cycles through the effects needs one value that owns
//! whichever is active and its state: [`Effect`]. Cycling resets the outgoing
//! effect, so that each starts from its own time phase. [`EffectStack`] layers
//! two of them.
use vstd::prelude::*;

use super::comet::{CometModel, CometParams, CometState};
use super::crosshair::{CrosshairModel, CrosshairParams, CrosshairState};
use super::flow::FlowState;
use super::gradient;
use super::keyfall::{KeyfallModel, KeyfallParams, KeyfallState};
use super::phase::PhaseClock;
use super::rain::{RainModel, RainParams, RainState};
use super::reactive::{ReactiveModel, ReactiveState};
use super::ripple::{RippleModel, RippleState};
use super::shockwave::{ShockwaveModel, ShockwaveState};
use super::sparkle::SparkleState;
use super::tracer::{TracerModel, TracerState};
use super::vortex::VortexState;
use super::{
    comet, crosshair, flow, keyfall, rain, reactive, shockwave, sparkle, tracer, vortex,
    FrameParams,
};
use crate::bytes::Pcg32;
use crate::color;
use crate::color::{blend_rgb, hsv_to_rgb, Hsv, Rgb};
use crate::layout::LedLayout;
use crate::math;
use crate::palette;

verus! {

/// Stream of the Ripple generator.
pub const RIPPLE_RNG_STREAM: u64 = 0xA02B_DBF7_BB3C_0A7F;

/// Stream of the Rain generator, distinct from Ripple's so that the two do not
/// share their placements when seeded alike.
pub const RAIN_RNG_STREAM: u64 = 0x5851_F42D_4C95_7F2D;

/// What an [`Effect`] holds.
pub enum EffectModel {
    Gradient,
    Flow(PhaseClock),
    Vortex(PhaseClock),
    Sparkle(PhaseClock),
    Ripple(RippleModel, Pcg32),
    Rain(RainModel, Pcg32),
    Reactive(ReactiveModel),
    Crosshair(CrosshairModel),
    Tracer(TracerModel),
    Keyfall(KeyfallModel),
    Shockwave(ShockwaveModel),
    Comet(CometModel),
}

impl EffectModel {
    /// Stable index of the effect.
    pub open spec fn index(self) -> u8 {
        match self {
            EffectModel::Gradient => 0,
            EffectModel::Flow(_) => 1,
            EffectModel::Vortex(_) => 2,
            EffectModel::Sparkle(_) => 3,
            EffectModel::Ripple(_, _) => 4,
            EffectModel::Rain(_, _) => 5,
            EffectModel::Reactive(_) => 6,
            EffectModel::Crosshair(_) => 7,
            EffectModel::Tracer(_) => 8,
            EffectModel::Keyfall(_) => 9,
            EffectModel::Shockwave(_) => 10,
            EffectModel::Comet(_) => 11,
        }
    }

    /// A fresh effect that remembers `capacity` presses. `seed` seeds the
    /// generator of those that have one.
    pub open spec fn fresh(capacity: nat, index: u8, seed: u64) -> Option<EffectModel> {
        if index == 0 {
            Some(EffectModel::Gradient)
        } else if index == 1 {
            Some(EffectModel::Flow(PhaseClock::fresh()))
        } else if index == 2 {
            Some(EffectModel::Vortex(PhaseClock::fresh()))
        } else if index == 3 {
            Some(EffectModel::Sparkle(PhaseClock::fresh()))
        } else if index == 4 {
            Some(
                EffectModel::Ripple(
                    RippleModel::fresh(),
                    Pcg32 { seed, stream: RIPPLE_RNG_STREAM, position: 0 },
                ),
            )
        } else if index == 5 {
            Some(
                EffectModel::Rain(
                    RainModel::fresh(rain::rain_defaults()),
                    Pcg32 { seed, stream: RAIN_RNG_STREAM, position: 0 },
                ),
            )
        } else if index == 6 {
            Some(EffectModel::Reactive(ReactiveModel::fresh(capacity)))
        } else if index == 7 {
            Some(
                EffectModel::Crosshair(
                    CrosshairModel::fresh(capacity, crosshair::crosshair_defaults()),
                ),
            )
        } else if index == 8 {
            Some(EffectModel::Tracer(TracerModel::fresh(capacity)))
        } else if index == 9 {
            Some(
                EffectModel::Keyfall(KeyfallModel::fresh(capacity, keyfall::keyfall_defaults())),
            )
        } else if index == 10 {
            Some(EffectModel::Shockwave(ShockwaveModel::fresh(capacity)))
        } else if index == 11 {
            Some(EffectModel::Comet(CometModel::fresh(comet::comet_defaults())))
        } else {
            None
        }
    }

    /// Whether a frame at `now` spawns a droplet, which needs an LED to fall
    /// on.
    pub open spec fn needs_led(self, now: u32) -> bool {
        match self {
            EffectModel::Ripple(m, _) => m.spawns(now),
            _ => false,
        }
    }

    /// Whether a frame can be rendered on the board `leds`.
    pub open spec fn ready(self, frame: FrameParams<'_>, leds: Seq<(u8, u8)>) -> bool {
        self.needs_led(frame.timer_ms) ==> leds.len() > 0
    }

    /// The effect after a frame that drew `drawn` LEDs of the board `leds`.
    pub open spec fn ticked(
        self,
        frame: FrameParams<'_>,
        leds: Seq<(u8, u8)>,
        drawn: int,
    ) -> EffectModel {
        match self {
            EffectModel::Gradient => self,
            EffectModel::Flow(m) => EffectModel::Flow(m.advanced(frame.timer_ms, frame.speed)),
            EffectModel::Vortex(m) => EffectModel::Vortex(m.advanced(frame.timer_ms, frame.speed)),
            EffectModel::Sparkle(m) => EffectModel::Sparkle(
                m.advanced(frame.timer_ms, frame.speed),
            ),
            EffectModel::Ripple(m, rng) => EffectModel::Ripple(
                m.rippled(frame, leds, (rng.word() % 256) as u8),
                if m.spawns(frame.timer_ms) {
                    rng.advanced(1)
                } else {
                    rng
                },
            ),
            EffectModel::Rain(m, rng) => {
                let draws = rng.bytes(rain::MOST_DRAWS as int);
                EffectModel::Rain(
                    m.rained(frame, draws),
                    rng.advanced(m.refilled(frame, draws).used),
                )
            },
            EffectModel::Reactive(m) => EffectModel::Reactive(m.ticked(frame)),
            EffectModel::Crosshair(m) => EffectModel::Crosshair(m.ticked(frame, drawn)),
            EffectModel::Tracer(m) => EffectModel::Tracer(m.ticked(frame)),
            EffectModel::Keyfall(m) => EffectModel::Keyfall(m.ticked(frame)),
            EffectModel::Shockwave(m) => EffectModel::Shockwave(m.ticked(frame)),
            EffectModel::Comet(m) => EffectModel::Comet(m.ticked(frame)),
        }
    }

    /// The frame that this effect, once ticked, leaves in a buffer that held
    /// `out`.
    pub open spec fn painted(
        self,
        frame: FrameParams<'_>,
        leds: Seq<(u8, u8)>,
        out: Seq<Hsv>,
    ) -> Seq<Hsv> {
        match self {
            EffectModel::Gradient => gradient::painted(frame, leds, out),
            EffectModel::Flow(m) => flow::painted(m, frame, leds, out),
            EffectModel::Vortex(m) => vortex::painted(m, frame, leds, out),
            EffectModel::Sparkle(m) => sparkle::painted(m, frame, leds, out),
            EffectModel::Ripple(m, _) => m.painted(frame, leds, out),
            EffectModel::Rain(m, _) => m.painted(frame, leds, out),
            EffectModel::Reactive(m) => m.painted(frame, leds, out),
            EffectModel::Crosshair(m) => m.painted(frame, leds, out.len()),
            EffectModel::Tracer(m) => m.painted(frame, leds, out.len()),
            EffectModel::Keyfall(m) => m.painted(frame, leds, out.len()),
            EffectModel::Shockwave(m) => m.painted(frame, leds, out.len()),
            EffectModel::Comet(m) => m.painted(frame, leds, out.len()),
        }
    }

    /// The frame as a layer, whose value is coverage. Only Reactive differs:
    /// its dim wash is left out.
    pub open spec fn layered(
        self,
        frame: FrameParams<'_>,
        leds: Seq<(u8, u8)>,
        out: Seq<Hsv>,
    ) -> Seq<Hsv> {
        match self {
            EffectModel::Reactive(m) => m.layered(frame, leds, out.len()),
            _ => self.painted(frame, leds, out),
        }
    }

    /// Whether the effect reacts to key presses.
    pub open spec fn takes_hits(self) -> bool {
        self.index() >= 6
    }

    /// Whether the effect reacts to key presses and remembers none that could
    /// still show.
    pub open spec fn idle(self) -> bool {
        match self {
            EffectModel::Reactive(m) => forall|k: int|
                0 <= k < m.hits.len() ==> !(#[trigger] m.hits[k]).active,
            EffectModel::Crosshair(m) => forall|k: int|
                0 <= k < m.hits.len() ==> !(#[trigger] m.hits[k]).active,
            EffectModel::Tracer(m) => forall|k: int|
                0 <= k < m.segments.len() ==> !(#[trigger] m.segments[k]).active,
            EffectModel::Keyfall(m) => forall|k: int|
                0 <= k < m.hits.len() ==> !(#[trigger] m.hits[k]).active,
            EffectModel::Shockwave(m) => forall|k: int|
                0 <= k < m.hits.len() ==> !(#[trigger] m.hits[k]).active,
            EffectModel::Comet(m) => m.legs.len() == 0,
            _ => false,
        }
    }

    /// The effect after a press of the key of the LED `led_idx`.
    pub open spec fn pressed(
        self,
        capacity: nat,
        leds: Seq<(u8, u8)>,
        led_idx: usize,
        now: u32,
    ) -> EffectModel {
        let (x, y) = leds[led_idx as int];
        match self {
            EffectModel::Reactive(m) => EffectModel::Reactive(m.pressed(x, y, now)),
            EffectModel::Crosshair(m) => EffectModel::Crosshair(m.pressed(led_idx, x, y, now)),
            EffectModel::Tracer(m) => EffectModel::Tracer(m.pressed(x, y, now)),
            EffectModel::Keyfall(m) => EffectModel::Keyfall(m.pressed(leds, x, y, now)),
            EffectModel::Shockwave(m) => EffectModel::Shockwave(m.pressed(leds, x, y, now)),
            EffectModel::Comet(m) => EffectModel::Comet(m.pressed(capacity as int, x, y, now)),
            _ => self,
        }
    }

    /// The effect with its rain retuned, if it has any.
    pub open spec fn with_rain_params(self, params: RainParams) -> EffectModel {
        match self {
            EffectModel::Rain(m, rng) => EffectModel::Rain(RainModel { params, ..m }, rng),
            _ => self,
        }
    }

    /// The effect with Crosshair retuned, if it is that.
    pub open spec fn with_crosshair_params(self, params: CrosshairParams) -> EffectModel {
        match self {
            EffectModel::Crosshair(m) => EffectModel::Crosshair(CrosshairModel { params, ..m }),
            _ => self,
        }
    }

    /// The effect with Keyfall retuned, if it is that.
    pub open spec fn with_keyfall_params(self, params: KeyfallParams) -> EffectModel {
        match self {
            EffectModel::Keyfall(m) => EffectModel::Keyfall(KeyfallModel { params, ..m }),
            _ => self,
        }
    }

    /// The effect with Comet retuned, if it is that.
    pub open spec fn with_comet_params(self, params: CometParams) -> EffectModel {
        match self {
            EffectModel::Comet(m) => EffectModel::Comet(CometModel { params, ..m }),
            _ => self,
        }
    }
}

/// The index after `index` in the cycle.
pub open spec fn following(index: u8) -> u8 {
    if index == 11 {
        0
    } else {
        (index + 1) as u8
    }
}

/// The index before `index` in the cycle.
pub open spec fn preceding(index: u8) -> u8 {
    if index == 0 {
        11
    } else {
        (index - 1) as u8
    }
}

/// The currently active effect and its state. `HITS` sizes every key-reactive
/// effect's memory of presses.
pub enum Effect<const HITS: usize> {
    Gradient,
    Flow(FlowState),
    Vortex(VortexState),
    Sparkle(SparkleState),
    Ripple(RippleState, Pcg32),
    Rain(RainState, Pcg32),
    Reactive(ReactiveState<HITS>),
    Crosshair(CrosshairState<HITS>),
    Tracer(TracerState<HITS>),
    Keyfall(KeyfallState<HITS>),
    Shockwave(ShockwaveState<HITS>),
    Comet(CometState<HITS>),
}

impl<const HITS: usize> View for Effect<HITS> {
    type V = EffectModel;

    open spec fn view(&self) -> EffectModel {
        match *self {
            Effect::Gradient => EffectModel::Gradient,
            Effect::Flow(s) => EffectModel::Flow(s@),
            Effect::Vortex(s) => EffectModel::Vortex(s@),
            Effect::Sparkle(s) => EffectModel::Sparkle(s@),
            Effect::Ripple(s, rng) => EffectModel::Ripple(s@, rng),
            Effect::Rain(s, rng) => EffectModel::Rain(s@, rng),
            Effect::Reactive(s) => EffectModel::Reactive(s@),
            Effect::Crosshair(s) => EffectModel::Crosshair(s@),
            Effect::Tracer(s) => EffectModel::Tracer(s@),
            Effect::Keyfall(s) => EffectModel::Keyfall(s@),
            Effect::Shockwave(s) => EffectModel::Shockwave(s@),
            Effect::Comet(s) => EffectModel::Comet(s@),
        }
    }
}

impl<const HITS: usize> Effect<HITS> {
    /// The invariant of the active effect's state.
    pub open spec fn wf(&self) -> bool {
        match *self {
            Effect::Ripple(s, _) => s@.wf(),
            Effect::Reactive(s) => s.wf(),
            Effect::Crosshair(s) => s.wf(),
            Effect::Tracer(s) => s.wf(),
            Effect::Keyfall(s) => s.wf(),
            Effect::Shockwave(s) => s.wf(),
            Effect::Comet(s) => s.wf(),
            _ => true,
        }
    }

    /// Display names in stable index order.
    pub const NAMES: [&'static str; 12] = [
        "Gradient",
        "Flow",
        "Vortex",
        "Sparkle",
        "Ripple",
        "Rain",
        "Reactive",
        "Crosshair",
        "Tracer",
        "Keyfall",
        "Shockwave",
        "Comet",
    ];

    /// Stable index of the Flow effect into [`Self::NAMES`].
    pub const FLOW_INDEX: u8 = 1;

    /// Stable index of the Rain effect into [`Self::NAMES`].
    pub const RAIN_INDEX: u8 = 5;

    /// The index of the retired Storm effect. Crosshair occupies it now, so
    /// callers that restore old records have to migrate Storm before
    /// construction.
    pub const LEGACY_STORM_INDEX: u8 = 7;

    /// Stable index of the Crosshair effect into [`Self::NAMES`].
    pub const CROSSHAIR_INDEX: u8 = 7;

    /// Stable index of the Tracer effect into [`Self::NAMES`].
    pub const TRACER_INDEX: u8 = 8;

    /// Stable index of the Keyfall effect into [`Self::NAMES`].
    pub const KEYFALL_INDEX: u8 = 9;

    /// Stable index of the Shockwave effect into [`Self::NAMES`].
    pub const SHOCKWAVE_INDEX: u8 = 10;

    /// Stable index of the Comet effect into [`Self::NAMES`].
    pub const COMET_INDEX: u8 = 11;

    /// Whether the effect at `index` renders rain, and so exposes
    /// [`RainParams`].
    pub fn uses_rain_params(index: u8) -> (r: bool)
        ensures
            r == (index == Self::RAIN_INDEX),
    {
        index == Self::RAIN_INDEX
    }

    /// Whether the effect at `index` exposes [`CrosshairParams`].
    pub fn uses_crosshair_params(index: u8) -> (r: bool)
        ensures
            r == (index == Self::CROSSHAIR_INDEX),
    {
        index == Self::CROSSHAIR_INDEX
    }

    /// Whether the effect at `index` exposes [`KeyfallParams`].
    pub fn uses_keyfall_params(index: u8) -> (r: bool)
        ensures
            r == (index == Self::KEYFALL_INDEX),
    {
        index == Self::KEYFALL_INDEX
    }

    /// Whether the effect at `index` exposes [`CometParams`].
    pub fn uses_comet_params(index: u8) -> (r: bool)
        ensures
            r == (index == Self::COMET_INDEX),
    {
        index == Self::COMET_INDEX
    }

    /// Retunes the rain; a no-op for every other effect.
    pub fn set_rain_params(&mut self, params: RainParams)
        requires
            old(self).wf(),
        ensures
            final(self).wf(),
            final(self)@ == old(self)@.with_rain_params(params),
    {
        match self {
            Self::Rain(state, _) => state.set_params(params),
            _ => {},
        }
    }

    /// The tuning of the rain, or `None` for every other effect.
    pub fn rain_params(&self) -> (params: Option<RainParams>)
        ensures
            params == match self@ {
                EffectModel::Rain(m, _) => Some(m.params),
                _ => None,
            },
    {
        match self {
            Self::Rain(state, _) => Some(state.params()),
            _ => None,
        }
    }

    /// Retunes Crosshair; a no-op for every other effect.
    pub fn set_crosshair_params(&mut self, params: CrosshairParams)
        requires
            old(self).wf(),
        ensures
            final(self).wf(),
            final(self)@ == old(self)@.with_crosshair_params(params),
    {
        match self {
            Self::Crosshair(state) => state.set_params(params),
            _ => {},
        }
    }

    /// The tuning of Crosshair, or `None` for every other effect.
    pub fn crosshair_params(&self) -> (params: Option<CrosshairParams>)
        ensures
            params == match self@ {
                EffectModel::Crosshair(m) => Some(m.params),
                _ => None,
            },
    {
        match self {
            Self::Crosshair(state) => Some(state.params()),
            _ => None,
        }
    }

    /// Retunes Keyfall; a no-op for every other effect.
    pub fn set_keyfall_params(&mut self, params: KeyfallParams)
        requires
            old(self).wf(),
        ensures
            final(self).wf(),
            final(self)@ == old(self)@.with_keyfall_params(params),
    {
        match self {
            Self::Keyfall(state) => state.set_params(params),
            _ => {},
        }
    }

    /// The tuning of Keyfall, or `None` for every other effect.
    pub fn keyfall_params(&self) -> (params: Option<KeyfallParams>)
        ensures
            params == match self@ {
                EffectModel::Keyfall(m) => Some(m.params),
                _ => None,
            },
    {
        match self {
            Self::Keyfall(state) => Some(state.params()),
            _ => None,
        }
    }

    /// Retunes Comet; a no-op for every other effect.
    pub fn set_comet_params(&mut self, params: CometParams)
        requires
            old(self).wf(),
        ensures
            final(self).wf(),
            final(self)@ == old(self)@.with_comet_params(params),
    {
        match self {
            Self::Comet(state) => state.set_params(params),
            _ => {},
        }
    }

    /// The tuning of Comet, or `None` for every other effect.
    pub fn comet_params(&self) -> (params: Option<CometParams>)
        ensures
            params == match self@ {
                EffectModel::Comet(m) => Some(m.params),
                _ => None,
            },
    {
        match self {
            Self::Comet(state) => Some(state.params()),
            _ => None,
        }
    }

    /// Stable index of the active effect into [`Self::NAMES`].
    pub fn index(&self) -> (index: u8)
        ensures
            index == self@.index(),
            index < 12,
    {
        match self {
            Self::Gradient => 0,
            Self::Flow(_) => 1,
            Self::Vortex(_) => 2,
            Self::Sparkle(_) => 3,
            Self::Ripple(_, _) => 4,
            Self::Rain(_, _) => 5,
            Self::Reactive(_) => 6,
            Self::Crosshair(_) => 7,
            Self::Tracer(_) => 8,
            Self::Keyfall(_) => 9,
            Self::Shockwave(_) => 10,
            Self::Comet(_) => 11,
        }
    }

    /// Fresh effect state for a stable index, or `None` when out of range.
    /// `ripple_seed` seeds the generator of Ripple and of Rain.
    pub fn from_index(index: u8, ripple_seed: u64) -> (effect: Option<Self>)
        ensures
            match effect {
                Some(effect) => {
                    &&& effect.wf()
                    &&& EffectModel::fresh(HITS as nat, index, ripple_seed) == Some(effect@)
                },
                None => EffectModel::fresh(HITS as nat, index, ripple_seed) is None,
            },
    {
        match index {
            0 => Some(Self::Gradient),
            1 => Some(Self::Flow(FlowState::new())),
            2 => Some(Self::Vortex(VortexState::new())),
            3 => Some(Self::Sparkle(SparkleState::new())),
            4 => Some(Self::Ripple(RippleState::new(), ripple_rng(ripple_seed))),
            5 => Some(Self::Rain(RainState::new(), rain_rng(ripple_seed))),
            6 => Some(Self::Reactive(ReactiveState::new())),
            7 => Some(Self::Crosshair(CrosshairState::new())),
            8 => Some(Self::Tracer(TracerState::new())),
            9 => Some(Self::Keyfall(KeyfallState::new())),
            10 => Some(Self::Shockwave(ShockwaveState::new())),
            11 => Some(Self::Comet(CometState::new())),
            _ => None,
        }
    }

    /// Renders one frame of the active effect into `out`.
    pub fn tick<L: LedLayout>(&mut self, layout: &L, params: FrameParams<'_>, out: &mut [Hsv])
        requires
            old(self).wf(),
            old(self)@.ready(params, layout.leds()),
        ensures
            final(self).wf(),
            final(self)@ == old(self)@.ticked(
                params,
                layout.leds(),
                math::smaller(layout.leds().len() as int, old(out)@.len() as int),
            ),
            final(out)@ == final(self)@.painted(params, layout.leds(), old(out)@),
    {
        match self {
            Self::Gradient => gradient::gradient(layout, params, out),
            Self::Flow(s) => s.tick(layout, params, out),
            Self::Vortex(s) => s.tick(layout, params, out),
            Self::Sparkle(s) => s.tick(layout, params, out),
            Self::Ripple(s, rng) => s.tick_with_rng(rng, layout, params, out),
            Self::Rain(s, rng) => s.tick_with_rng(rng, layout, params, out),
            Self::Reactive(s) => s.tick(layout, params, out),
            Self::Crosshair(s) => s.tick(layout, params, out),
            Self::Tracer(s) => s.tick(layout, params, out),
            Self::Keyfall(s) => s.tick(layout, params, out),
            Self::Shockwave(s) => s.tick(layout, params, out),
            Self::Comet(s) => s.tick(layout, params, out),
        }
    }

    /// Renders the effect as a layer whose value is coverage. Reactive's dim
    /// wash is left out, so that only key presses cover the lower slot.
    pub fn tick_layer<L: LedLayout>(&mut self, layout: &L, params: FrameParams<'_>, out: &mut [Hsv])
        requires
            old(self).wf(),
            old(self)@.ready(params, layout.leds()),
        ensures
            final(self).wf(),
            final(self)@ == old(self)@.ticked(
                params,
                layout.leds(),
                math::smaller(layout.leds().len() as int, old(out)@.len() as int),
            ),
            final(out)@ == final(self)@.layered(params, layout.leds(), old(out)@),
    {
        match self {
            Self::Reactive(s) => s.tick_layer(layout, params, out),
            Self::Crosshair(s) => s.tick_layer(layout, params, out),
            Self::Tracer(s) => s.tick_layer(layout, params, out),
            Self::Keyfall(s) => s.tick_layer(layout, params, out),
            Self::Shockwave(s) => s.tick_layer(layout, params, out),
            Self::Comet(s) => s.tick_layer(layout, params, out),
            _ => self.tick(layout, params, out),
        }
    }

    /// Switches to the next effect in the cycle. `ripple_seed` seeds the
    /// generator of Ripple and of Rain, so that their first drop lands on a
    /// different key each time; pass the current time.
    pub fn next(&mut self, ripple_seed: u64)
        ensures
            final(self).wf(),
            EffectModel::fresh(HITS as nat, following(old(self)@.index()), ripple_seed) == Some(
                final(self)@,
            ),
    {
        *self = match self {
            Self::Gradient => Self::Flow(FlowState::new()),
            Self::Flow(_) => Self::Vortex(VortexState::new()),
            Self::Vortex(_) => Self::Sparkle(SparkleState::new()),
            Self::Sparkle(_) => Self::Ripple(RippleState::new(), ripple_rng(ripple_seed)),
            Self::Ripple(_, _) => Self::Rain(RainState::new(), rain_rng(ripple_seed)),
            Self::Rain(_, _) => Self::Reactive(ReactiveState::new()),
            Self::Reactive(_) => Self::Crosshair(CrosshairState::new()),
            Self::Crosshair(_) => Self::Tracer(TracerState::new()),
            Self::Tracer(_) => Self::Keyfall(KeyfallState::new()),
            Self::Keyfall(_) => Self::Shockwave(ShockwaveState::new()),
            Self::Shockwave(_) => Self::Comet(CometState::new()),
            Self::Comet(_) => Self::Gradient,
        };
    }

    /// Switches to the previous effect in the cycle; see [`Effect::next`].
    pub fn prev(&mut self, ripple_seed: u64)
        ensures
            final(self).wf(),
            EffectModel::fresh(HITS as nat, preceding(old(self)@.index()), ripple_seed) == Some(
                final(self)@,
            ),
    {
        *self = match self {
            Self::Gradient => Self::Comet(CometState::new()),
            Self::Comet(_) => Self::Shockwave(ShockwaveState::new()),
            Self::Shockwave(_) => Self::Keyfall(KeyfallState::new()),
            Self::Keyfall(_) => Self::Tracer(TracerState::new()),
            Self::Tracer(_) => Self::Crosshair(CrosshairState::new()),
            Self::Crosshair(_) => Self::Reactive(ReactiveState::new()),
            Self::Reactive(_) => Self::Rain(RainState::new(), rain_rng(ripple_seed)),
            Self::Rain(_, _) => Self::Ripple(RippleState::new(), ripple_rng(ripple_seed)),
            Self::Ripple(_, _) => Self::Sparkle(SparkleState::new()),
            Self::Sparkle(_) => Self::Vortex(VortexState::new()),
            Self::Vortex(_) => Self::Flow(FlowState::new()),
            Self::Flow(_) => Self::Gradient,
        };
    }

    /// Records a press of the key of the LED `led_idx` in a key-reactive
    /// effect; a no-op for every other, and where no press can be remembered.
    /// Returns whether the press was recorded, so that the caller can skip a
    /// render that would show nothing.
    pub fn record_hit<L: LedLayout>(&mut self, layout: &L, led_idx: usize, timer_ms: u32) -> (taken:
        bool)
        requires
            old(self).wf(),
            led_idx < layout.leds().len(),
        ensures
            final(self).wf(),
            taken == (HITS > 0 && old(self)@.takes_hits()),
            final(self)@ == old(self)@.pressed(HITS as nat, layout.leds(), led_idx, timer_ms),
    {
        let (x, y) = layout.position(led_idx);
        match self {
            Self::Reactive(s) => s.record_hit(x, y, timer_ms),
            Self::Crosshair(s) => s.record_hit(led_idx, x, y, timer_ms),
            Self::Tracer(s) => s.record_hit(x, y, timer_ms),
            Self::Keyfall(s) => s.record_hit(layout, x, y, timer_ms),
            Self::Shockwave(s) => s.record_hit(layout, x, y, timer_ms),
            Self::Comet(s) => s.record_hit(x, y, timer_ms),
            _ => return false,
        }
        HITS > 0
    }

    /// Whether a frame at `timer_ms` spawns a droplet, for which the layout
    /// needs an LED.
    pub fn needs_led(&self, timer_ms: u32) -> (r: bool)
        requires
            self.wf(),
        ensures
            r == self@.needs_led(timer_ms),
    {
        match self {
            Self::Ripple(s, _) => s.spawn_due(timer_ms),
            _ => false,
        }
    }
}

fn ripple_rng(seed: u64) -> (rng: Pcg32)
    ensures
        rng == (Pcg32 { seed, stream: RIPPLE_RNG_STREAM, position: 0 }),
{
    Pcg32::new(seed, RIPPLE_RNG_STREAM)
}

fn rain_rng(seed: u64) -> (rng: Pcg32)
    ensures
        rng == (Pcg32 { seed, stream: RAIN_RNG_STREAM, position: 0 }),
{
    Pcg32::new(seed, RAIN_RNG_STREAM)
}

/// Names, indices and construction agree: every index below the number of
/// names builds the effect of that index, and no other builds one.
pub proof fn law_indices_are_stable(capacity: nat, index: u8, seed: u64)
    ensures
        EffectModel::fresh(capacity, index, seed) is Some <==> index < Effect::<0>::NAMES.len(),
        EffectModel::fresh(capacity, index, seed) matches Some(effect) ==> effect.index() == index,
{
}

/// Going forward and then back, or the other way round, ends on the effect
/// that it started from.
pub proof fn law_forward_and_back_cancel(index: u8)
    requires
        index < 12,
    ensures
        preceding(following(index)) == index,
        following(preceding(index)) == index,
        following(index) < 12,
        preceding(index) < 12,
{
}

/// An effect stays what it is through frames, presses and retuning.
pub proof fn law_only_switching_switches(
    effect: EffectModel,
    capacity: nat,
    frame: FrameParams<'_>,
    leds: Seq<(u8, u8)>,
    drawn: int,
    led_idx: usize,
    now: u32,
    params: RainParams,
)
    ensures
        effect.ticked(frame, leds, drawn).index() == effect.index(),
        effect.pressed(capacity, leds, led_idx, now).index() == effect.index(),
        effect.with_rain_params(params).index() == effect.index(),
{
}

/// What [`EffectStack`] holds.
pub struct StackModel {
    pub primary: EffectModel,
    pub overlay: Option<EffectModel>,
}

impl StackModel {
    /// The frame that the overlay is rendered with: its value is coverage, so
    /// brightness is applied when the slots are combined.
    pub open spec fn coverage_frame(frame: FrameParams<'_>) -> FrameParams<'_> {
        FrameParams { val: 255, ..frame }
    }

    /// Whether both slots can render a frame on the board `leds`.
    pub open spec fn ready(self, frame: FrameParams<'_>, leds: Seq<(u8, u8)>) -> bool {
        &&& self.primary.ready(frame, leds)
        &&& self.overlay matches Some(overlay) ==> overlay.ready(
            Self::coverage_frame(frame),
            leds,
        )
    }

    /// The stack after a frame that drew `drawn` LEDs.
    pub open spec fn ticked(
        self,
        frame: FrameParams<'_>,
        leds: Seq<(u8, u8)>,
        drawn: int,
    ) -> StackModel {
        StackModel {
            primary: self.primary.ticked(frame, leds, drawn),
            overlay: match self.overlay {
                Some(overlay) => Some(overlay.ticked(Self::coverage_frame(frame), leds, drawn)),
                None => None,
            },
        }
    }

    /// What the ticked stack leaves in a scratch buffer that held `scratch`.
    pub open spec fn scratched(
        self,
        frame: FrameParams<'_>,
        leds: Seq<(u8, u8)>,
        scratch: Seq<Hsv>,
    ) -> Seq<Hsv> {
        let base = self.primary.painted(frame, leds, scratch);
        match self.overlay {
            Some(overlay) => overlay.layered(Self::coverage_frame(frame), leds, base),
            None => base,
        }
    }

    /// The color of pixel `i`: the overlay's hue and saturation at the global
    /// brightness, blended over the primary by the overlay's value.
    pub open spec fn pixel(
        self,
        frame: FrameParams<'_>,
        leds: Seq<(u8, u8)>,
        scratch: Seq<Hsv>,
        i: int,
    ) -> Rgb {
        let base = color::rgb_of(self.primary.painted(frame, leds, scratch)[i]);
        match self.overlay {
            Some(_) => {
                let layer = self.scratched(frame, leds, scratch)[i];
                color::blended(base, color::rgb_of(Hsv { v: frame.val, ..layer }), layer.v)
            },
            None => base,
        }
    }

    /// The frame that the ticked stack leaves in a buffer that held `out`.
    /// Pixels that the scratch buffer does not reach keep what they held.
    pub open spec fn painted(
        self,
        frame: FrameParams<'_>,
        leds: Seq<(u8, u8)>,
        scratch: Seq<Hsv>,
        out: Seq<Rgb>,
    ) -> Seq<Rgb> {
        Seq::new(
            out.len(),
            |i: int|
                if i < scratch.len() {
                    self.pixel(frame, leds, scratch, i)
                } else {
                    out[i]
                },
        )
    }

    /// Whether a slot reacts to key presses.
    pub open spec fn takes_hits(self) -> bool {
        self.primary.takes_hits() || (self.overlay matches Some(overlay) && overlay.takes_hits())
    }

    /// The stack after a press.
    pub open spec fn pressed(
        self,
        capacity: nat,
        leds: Seq<(u8, u8)>,
        led_idx: usize,
        now: u32,
    ) -> StackModel {
        StackModel {
            primary: self.primary.pressed(capacity, leds, led_idx, now),
            overlay: match self.overlay {
                Some(overlay) => Some(overlay.pressed(capacity, leds, led_idx, now)),
                None => None,
            },
        }
    }
}

/// Two slots that accept the same effects. The primary is always present; the
/// overlay is independent of it, and may hold another instance of the same
/// effect.
pub struct EffectStack<const HITS: usize> {
    primary: Effect<HITS>,
    overlay: Option<Effect<HITS>>,
}

impl<const HITS: usize> View for EffectStack<HITS> {
    type V = StackModel;

    open spec fn view(&self) -> StackModel {
        StackModel {
            primary: self.lower()@,
            overlay: match self.upper() {
                Some(effect) => Some(effect@),
                None => None,
            },
        }
    }
}

impl<const HITS: usize> EffectStack<HITS> {
    /// The effect in the primary slot.
    pub closed spec fn lower(&self) -> Effect<HITS> {
        self.primary
    }

    /// The effect in the overlay slot.
    pub closed spec fn upper(&self) -> Option<Effect<HITS>> {
        self.overlay
    }

    /// The invariant of both slots.
    pub open spec fn wf(&self) -> bool {
        self.lower().wf() && (self.upper() matches Some(effect) ==> effect.wf())
    }

    pub fn new(primary: Effect<HITS>, overlay: Option<Effect<HITS>>) -> (stack: Self)
        ensures
            stack.lower() == primary,
            stack.upper() == overlay,
    {
        Self { primary, overlay }
    }

    pub fn primary(&self) -> (effect: &Effect<HITS>)
        ensures
            *effect == self.lower(),
    {
        &self.primary
    }

    pub fn primary_mut(&mut self) -> (effect: &mut Effect<HITS>)
        ensures
            *effect == old(self).lower(),
            final(self).lower() == *final(effect),
            final(self).upper() == old(self).upper(),
    {
        &mut self.primary
    }

    pub fn overlay(&self) -> (effect: Option<&Effect<HITS>>)
        ensures
            match effect {
                Some(effect) => self.upper() == Some(*effect),
                None => self.upper() is None,
            },
    {
        match &self.overlay {
            Some(effect) => Some(effect),
            None => None,
        }
    }

    pub fn overlay_mut(&mut self) -> (effect: Option<&mut Effect<HITS>>)
        ensures
            final(self).lower() == old(self).lower(),
            match effect {
                Some(effect) => {
                    &&& old(self).upper() == Some(*effect)
                    &&& final(self).upper() == Some(*final(effect))
                },
                None => old(self).upper() is None && final(self).upper() is None,
            },
    {
        match &mut self.overlay {
            Some(effect) => Some(effect),
            None => None,
        }
    }

    pub fn set_primary(&mut self, effect: Effect<HITS>)
        ensures
            final(self).lower() == effect,
            final(self).upper() == old(self).upper(),
    {
        self.primary = effect;
    }

    pub fn set_overlay(&mut self, effect: Option<Effect<HITS>>)
        ensures
            final(self).lower() == old(self).lower(),
            final(self).upper() == effect,
    {
        self.overlay = effect;
    }

    /// Renders both slots. The overlay's value is its coverage; its hue and
    /// saturation are composited at the stack's brightness, which keeps sparse
    /// effects sparse without applying brightness twice.
    pub fn tick<L: LedLayout>(
        &mut self,
        layout: &L,
        params: FrameParams<'_>,
        scratch: &mut [Hsv],
        out: &mut [Rgb],
    )
        requires
            old(self).wf(),
            old(self)@.ready(params, layout.leds()),
        ensures
            final(self).wf(),
            final(self)@ == old(self)@.ticked(
                params,
                layout.leds(),
                math::smaller(layout.leds().len() as int, old(scratch)@.len() as int),
            ),
            final(scratch)@ == final(self)@.scratched(params, layout.leds(), old(scratch)@),
            final(out)@ == final(self)@.painted(
                params,
                layout.leds(),
                old(scratch)@,
                old(out)@,
            ),
    {
        let ghost start = scratch@;
        let ghost shown = out@;
        self.primary.tick(layout, params, scratch);
        let ghost base = scratch@;
        proof {
            lemma_painted_len(self.primary@, params, layout.leds(), start);
        }
        convert(scratch, out);
        match &mut self.overlay {
            Some(overlay) => {
                overlay.tick_layer(layout, FrameParams { val: 255, ..params }, scratch);
                proof {
                    lemma_painted_len(
                        overlay@,
                        StackModel::coverage_frame(params),
                        layout.leds(),
                        base,
                    );
                }
                cover(scratch, params.val, out);
            },
            None => {},
        }
        assert(out@ =~= self@.painted(params, layout.leds(), start, shown));
    }

    /// Records a press in every key-reactive slot, and says whether any slot
    /// recorded it.
    pub fn record_hit<L: LedLayout>(&mut self, layout: &L, led_idx: usize, timer_ms: u32) -> (taken:
        bool)
        requires
            old(self).wf(),
            led_idx < layout.leds().len(),
        ensures
            final(self).wf(),
            taken == (HITS > 0 && old(self)@.takes_hits()),
            final(self)@ == old(self)@.pressed(HITS as nat, layout.leds(), led_idx, timer_ms),
    {
        let primary: bool = self.primary.record_hit(layout, led_idx, timer_ms);
        let overlay: bool = match &mut self.overlay {
            Some(effect) => effect.record_hit(layout, led_idx, timer_ms),
            None => false,
        };
        primary || overlay
    }
}

proof fn lemma_painted_len(
    effect: EffectModel,
    frame: FrameParams<'_>,
    leds: Seq<(u8, u8)>,
    out: Seq<Hsv>,
)
    ensures
        effect.painted(frame, leds, out).len() == out.len(),
        effect.layered(frame, leds, out).len() == out.len(),
{
}

/// Converts a frame, as far as both buffers reach.
fn convert(frame: &[Hsv], out: &mut [Rgb])
    ensures
        final(out)@ == Seq::new(
            old(out)@.len(),
            |i: int|
                if i < frame@.len() {
                    color::rgb_of(frame@[i])
                } else {
                    old(out)@[i]
                },
        ),
{
    let ghost shown = out@;
    let len: usize = out.len();
    let mut i: usize = 0;
    while i < len && i < frame.len()
        invariant
            i <= len,
            i <= frame@.len(),
            len == out@.len(),
            len == shown.len(),
            forall|j: int| 0 <= j < i ==> out@[j] == color::rgb_of(frame@[j]),
            forall|j: int| i <= j < len ==> out@[j] == shown[j],
        decreases len - i,
    {
        out[i] = hsv_to_rgb(frame[i]);
        i += 1;
    }
    assert(out@ =~= Seq::new(
        shown.len(),
        |i: int|
            if i < frame@.len() {
                color::rgb_of(frame@[i])
            } else {
                shown[i]
            },
    ));
}

/// Blends a layer over what is shown, as far as both buffers reach.
fn cover(layer: &[Hsv], val: u8, out: &mut [Rgb])
    ensures
        final(out)@ == Seq::new(
            old(out)@.len(),
            |i: int|
                if i < layer@.len() {
                    color::blended(
                        old(out)@[i],
                        color::rgb_of(Hsv { v: val, ..layer@[i] }),
                        layer@[i].v,
                    )
                } else {
                    old(out)@[i]
                },
        ),
{
    let ghost shown = out@;
    let len: usize = out.len();
    let mut i: usize = 0;
    while i < len && i < layer.len()
        invariant
            i <= len,
            i <= layer@.len(),
            len == out@.len(),
            len == shown.len(),
            forall|j: int|
                0 <= j < i ==> out@[j] == color::blended(
                    shown[j],
                    color::rgb_of(Hsv { v: val, ..layer@[j] }),
                    layer@[j].v,
                ),
            forall|j: int| i <= j < len ==> out@[j] == shown[j],
        decreases len - i,
    {
        let pixel: Hsv = layer[i];
        let tint: Rgb = hsv_to_rgb(Hsv { v: val, ..pixel });
        out[i] = blend_rgb(out[i], tint, pixel.v);
        i += 1;
    }
    assert(out@ =~= Seq::new(
        shown.len(),
        |i: int|
            if i < layer@.len() {
                color::blended(
                    shown[i],
                    color::rgb_of(Hsv { v: val, ..layer@[i] }),
                    layer@[i].v,
                )
            } else {
                shown[i]
            },
    ));
}

/// Where the overlay covers nothing the primary shows unchanged, and where it
/// covers everything nothing of the primary shows.
pub proof fn law_coverage_decides(
    stack: StackModel,
    frame: FrameParams<'_>,
    leds: Seq<(u8, u8)>,
    scratch: Seq<Hsv>,
    i: int,
)
    requires
        stack.overlay is Some,
    ensures
        ({
            let layer = stack.scratched(frame, leds, scratch)[i];
            let base = color::rgb_of(stack.primary.painted(frame, leds, scratch)[i]);
            let pixel = stack.pixel(frame, leds, scratch, i);
            &&& layer.v == 0 ==> pixel == base
            &&& layer.v == 255 ==> pixel == color::rgb_of(Hsv { v: frame.val, ..layer })
        }),
{
    let layer = stack.scratched(frame, leds, scratch)[i];
    let base = color::rgb_of(stack.primary.painted(frame, leds, scratch)[i]);
    color::law_blend_endpoints(base, color::rgb_of(Hsv { v: frame.val, ..layer }));
}

/// An overlay leaves the primary's animation alone: the primary advances as
/// it would without one.
pub proof fn law_the_slots_are_independent(
    stack: StackModel,
    frame: FrameParams<'_>,
    leds: Seq<(u8, u8)>,
    drawn: int,
)
    ensures
        stack.ticked(frame, leds, drawn).primary == (StackModel {
            overlay: None,
            ..stack
        }).ticked(frame, leds, drawn).primary,
{
}

/// Without brightness every effect is dark on the whole board.
pub proof fn law_no_brightness_is_dark(
    effect: EffectModel,
    frame: FrameParams<'_>,
    leds: Seq<(u8, u8)>,
    out: Seq<Hsv>,
    i: int,
)
    requires
        frame.val == 0,
        0 <= i < leds.len(),
        i < out.len(),
    ensures
        effect.painted(frame, leds, out)[i].v == 0,
{
    assert forall|x: u8, sat: u8|
        (#[trigger] palette::color_at(frame.palette@, x, sat, 0)).v == 0 by {
        palette::law_no_brightness_is_dark(frame.palette@, x, sat);
    }
    assert forall|value: int| #[trigger] math::scaled255(value, 0) == 0 by {
        assert(value * 0 == 0);
    }
    match effect {
        EffectModel::Sparkle(m) => {
            let light = sparkle::twinkle(i, m.time(frame.timer_ms, frame.speed));
            assert(0 * (1 + math::eased(light)) == 0);
        },
        EffectModel::Rain(m, _) => {
            rain::law_no_brightness_is_dark(m, frame, leds[i]);
        },
        EffectModel::Reactive(m) => {
            let level = m.level(frame, leds[i], m.hits.len() as int);
            assert(0 * (1 + 64 + 6 * level) == 0);
        },
        EffectModel::Comet(m) => {
            if m.lit_flight(frame.timer_ms) is Some {
                let (leg, elapsed) = m.lit_flight(frame.timer_ms)->0;
                let path = m.drawn_path(frame.timer_ms);
                let (coverage, _) = m.strongest(path, leds[i], path.len() - 1);
                assert(math::scaled255(
                    math::scaled255(coverage, m.brightness(leg, elapsed)),
                    0,
                ) == 0);
            }
        },
        _ => {},
    }
}

/// Without brightness both slots are black on the whole board.
pub proof fn law_a_stack_without_brightness_is_black(
    stack: StackModel,
    frame: FrameParams<'_>,
    leds: Seq<(u8, u8)>,
    scratch: Seq<Hsv>,
    i: int,
)
    requires
        frame.val == 0,
        0 <= i < leds.len(),
        i < scratch.len(),
    ensures
        stack.pixel(frame, leds, scratch, i) == (Rgb { r: 0, g: 0, b: 0 }),
{
    law_no_brightness_is_dark(stack.primary, frame, leds, scratch, i);
    color::law_no_value_is_black(stack.primary.painted(frame, leds, scratch)[i]);
    if stack.overlay is Some {
        let layer = stack.scratched(frame, leds, scratch)[i];
        let tint = Hsv { v: frame.val, ..layer };
        color::law_no_value_is_black(tint);
        color::law_blend_with_itself(Rgb { r: 0, g: 0, b: 0 }, layer.v);
    }
}

/// A layer is the effect's own frame, and leaves the same state behind, for
/// every effect but Reactive, whose dim wash it leaves out.
pub proof fn law_only_reactive_layers_differ(
    effect: EffectModel,
    frame: FrameParams<'_>,
    leds: Seq<(u8, u8)>,
    out: Seq<Hsv>,
)
    requires
        effect.index() != 6,
    ensures
        effect.layered(frame, leds, out) == effect.painted(frame, leds, out),
        forall|drawn: int|
            (#[trigger] effect.ticked(frame, leds, drawn)).layered(frame, leds, out)
                == effect.ticked(frame, leds, drawn).painted(frame, leds, out),
{
}

/// A fresh key-reactive effect is idle, and frames keep an idle effect idle.
pub proof fn law_idle_effects_stay_idle(
    effect: EffectModel,
    capacity: nat,
    index: u8,
    seed: u64,
    frame: FrameParams<'_>,
    leds: Seq<(u8, u8)>,
    drawn: int,
)
    ensures
        6 <= index < 12 ==> EffectModel::fresh(capacity, index, seed)->0.idle(),
        effect.idle() ==> effect.ticked(frame, leds, drawn).idle(),
{
    if effect.idle() {
        match effect {
            EffectModel::Reactive(m) => {
                assert forall|k: int| 0 <= k < m.hits.len() implies !(#[trigger] m.ticked(
                    frame,
                ).hits[k]).active by {
                    assert(!m.hits[k].active);
                }
            },
            EffectModel::Crosshair(m) => {
                assert forall|k: int| 0 <= k < m.hits.len() implies !(#[trigger] m.ticked(
                    frame,
                    drawn,
                ).hits[k]).active by {
                    assert(!m.hits[k].active);
                }
            },
            EffectModel::Tracer(m) => {
                assert forall|k: int| 0 <= k < m.segments.len() implies !(#[trigger] m.ticked(
                    frame,
                ).segments[k]).active by {
                    assert(!m.segments[k].active);
                }
            },
            EffectModel::Keyfall(m) => {
                assert forall|k: int| 0 <= k < m.hits.len() implies !(#[trigger] m.ticked(
                    frame,
                ).hits[k]).active by {
                    assert(!m.hits[k].active);
                }
            },
            EffectModel::Shockwave(m) => {
                assert forall|k: int| 0 <= k < m.hits.len() implies !(#[trigger] m.ticked(
                    frame,
                ).hits[k]).active by {
                    assert(!m.hits[k].active);
                }
            },
            _ => {},
        }
    }
}

/// The layer of an idle effect is transparent everywhere.
pub proof fn law_an_idle_layer_is_transparent(
    effect: EffectModel,
    frame: FrameParams<'_>,
    leds: Seq<(u8, u8)>,
    out: Seq<Hsv>,
)
    requires
        effect.idle(),
    ensures
        ({
            let drawn = math::smaller(leds.len() as int, out.len() as int);
            effect.ticked(frame, leds, drawn).layered(frame, leds, out) == Seq::new(
                out.len(),
                |i: int| color::black(),
            )
        }),
{
    let drawn = math::smaller(leds.len() as int, out.len() as int);
    match effect {
        EffectModel::Reactive(m) => {
            assert forall|k: int| 0 <= k < m.hits.len() implies #[trigger] m.amplitude(frame, k)
                == 0 by {
                assert(!m.hits[k].active);
            }
            reactive::law_an_idle_layer_is_transparent(m, frame, leds, out.len());
        },
        EffectModel::Crosshair(m) => {
            assert forall|k: int| #[trigger] m.shown(k) implies m.age(frame, k) >= m.params.span(
                frame.speed,
            ) by {
                assert(!m.hits[k].active);
            }
            crosshair::law_idle_and_expired_are_black(m, frame, leds, out.len());
        },
        EffectModel::Tracer(m) => {
            tracer::law_expired_is_transparent(m, frame, leds, out.len());
        },
        EffectModel::Keyfall(m) => {
            keyfall::law_expired_is_transparent(m, frame, leds, out.len());
        },
        EffectModel::Shockwave(m) => {
            shockwave::law_expired_is_transparent(m, frame, leds, out.len());
        },
        EffectModel::Comet(m) => {
            comet::law_an_idle_comet_is_black(m, frame, leds, out.len());
        },
        _ => {},
    }
}

/// An overlay that reacts to keys and holds no press leaves the primary's
/// frame as it is, and stays idle: every pixel is the primary's own.
pub proof fn law_an_idle_overlay_leaves_the_primary(
    stack: StackModel,
    frame: FrameParams<'_>,
    leds: Seq<(u8, u8)>,
    scratch: Seq<Hsv>,
    out: Seq<Rgb>,
)
    requires
        stack.overlay matches Some(overlay) && overlay.idle(),
    ensures
        ({
            let drawn = math::smaller(leds.len() as int, scratch.len() as int);
            let alone = StackModel { overlay: None, ..stack };
            let after = stack.ticked(frame, leds, drawn);
            &&& after.painted(frame, leds, scratch, out) == alone.ticked(
                frame,
                leds,
                drawn,
            ).painted(frame, leds, scratch, out)
            &&& forall|i: int|
                0 <= i < out.len() && i < scratch.len() ==> #[trigger] after.painted(
                    frame,
                    leds,
                    scratch,
                    out,
                )[i] == color::rgb_of(after.primary.painted(frame, leds, scratch)[i])
            &&& after.overlay matches Some(overlay) && overlay.idle()
        }),
{
    let drawn = math::smaller(leds.len() as int, scratch.len() as int);
    let alone = StackModel { overlay: None, ..stack };
    let after = stack.ticked(frame, leds, drawn);
    let base = after.primary.painted(frame, leds, scratch);
    let overlay = stack.overlay->0;
    lemma_painted_len(after.primary, frame, leds, scratch);
    law_an_idle_layer_is_transparent(overlay, StackModel::coverage_frame(frame), leds, base);
    law_idle_effects_stay_idle(
        overlay,
        0,
        0,
        0,
        StackModel::coverage_frame(frame),
        leds,
        drawn,
    );
    assert(after.scratched(frame, leds, scratch) == Seq::new(
        scratch.len(),
        |i: int| color::black(),
    ));
    assert forall|i: int| 0 <= i < out.len() && i < scratch.len() implies after.pixel(
        frame,
        leds,
        scratch,
        i,
    ) == color::rgb_of(base[i]) by {
        law_coverage_decides(after, frame, leds, scratch, i);
    }
    assert(after.painted(frame, leds, scratch, out) =~= alone.ticked(
        frame,
        leds,
        drawn,
    ).painted(frame, leds, scratch, out));
}

/// The cycle goes up by one and starts over after the twelfth effect; going
/// back undoes it.
pub proof fn law_the_cycle_goes_round(index: u8)
    requires
        index < 12,
    ensures
        following(index) == (index + 1) % 12,
        preceding(index) == (index + 11) % 12,
{
}

/// A fresh effect starts from the initial state of its kind, tuned to its
/// defaults; those that place things at random draw from the start of the
/// seed's sequence, each on a stream of its own.
pub proof fn law_fresh_effects_start_over(capacity: nat, seed: u64)
    ensures
        EffectModel::fresh(capacity, 0, seed) == Some(EffectModel::Gradient),
        EffectModel::fresh(capacity, 1, seed) == Some(EffectModel::Flow(PhaseClock::fresh())),
        EffectModel::fresh(capacity, 2, seed) == Some(EffectModel::Vortex(PhaseClock::fresh())),
        EffectModel::fresh(capacity, 3, seed) == Some(EffectModel::Sparkle(PhaseClock::fresh())),
        EffectModel::fresh(capacity, 4, seed) == Some(
            EffectModel::Ripple(
                RippleModel::fresh(),
                Pcg32 { seed, stream: 0xA02B_DBF7_BB3C_0A7F, position: 0 },
            ),
        ),
        EffectModel::fresh(capacity, 5, seed) == Some(
            EffectModel::Rain(
                RainModel::fresh(rain::rain_defaults()),
                Pcg32 { seed, stream: 0x5851_F42D_4C95_7F2D, position: 0 },
            ),
        ),
        EffectModel::fresh(capacity, 6, seed) == Some(
            EffectModel::Reactive(ReactiveModel::fresh(capacity)),
        ),
        EffectModel::fresh(capacity, 7, seed) == Some(
            EffectModel::Crosshair(
                CrosshairModel::fresh(capacity, crosshair::crosshair_defaults()),
            ),
        ),
        EffectModel::fresh(capacity, 8, seed) == Some(
            EffectModel::Tracer(TracerModel::fresh(capacity)),
        ),
        EffectModel::fresh(capacity, 9, seed) == Some(
            EffectModel::Keyfall(KeyfallModel::fresh(capacity, keyfall::keyfall_defaults())),
        ),
        EffectModel::fresh(capacity, 10, seed) == Some(
            EffectModel::Shockwave(ShockwaveModel::fresh(capacity)),
        ),
        EffectModel::fresh(capacity, 11, seed) == Some(
            EffectModel::Comet(CometModel::fresh(comet::comet_defaults())),
        ),
{
}

/// The initial states hold nothing: no press, no leg, no drop in flight and no
/// droplet, with the ring at its start and the speed at its nominal pace.
pub proof fn law_initial_states_are_empty(capacity: nat, k: int)
    ensures
        0 <= k < capacity ==> {
            &&& !ReactiveModel::fresh(capacity).hits[k].active
            &&& !CrosshairModel::fresh(capacity, crosshair::crosshair_defaults()).hits[k].active
            &&& !TracerModel::fresh(capacity).segments[k].active
            &&& !KeyfallModel::fresh(capacity, keyfall::keyfall_defaults()).hits[k].active
            &&& !ShockwaveModel::fresh(capacity).hits[k].active
        },
        ReactiveModel::fresh(capacity).hits.len() == capacity,
        CrosshairModel::fresh(capacity, crosshair::crosshair_defaults()).hits.len() == capacity,
        TracerModel::fresh(capacity).segments.len() == capacity,
        KeyfallModel::fresh(capacity, keyfall::keyfall_defaults()).hits.len() == capacity,
        ShockwaveModel::fresh(capacity).hits.len() == capacity,
        ReactiveModel::fresh(capacity).next == 0,
        TracerModel::fresh(capacity).next == 0 && TracerModel::fresh(capacity).last is None
            && TracerModel::fresh(capacity).color_step == 0,
        KeyfallModel::fresh(capacity, keyfall::keyfall_defaults()).next == 0
            && KeyfallModel::fresh(capacity, keyfall::keyfall_defaults()).color_step == 0,
        ShockwaveModel::fresh(capacity).next == 0 && ShockwaveModel::fresh(capacity).color_step
            == 0,
        CometModel::fresh(comet::comet_defaults()).legs.len() == 0,
        CometModel::fresh(comet::comet_defaults()).last_speed == 128,
        CometModel::fresh(comet::comet_defaults()).color_step == 0,
        0 <= k < 32 ==> !RainModel::fresh(rain::rain_defaults()).drops[k].active,
        RainModel::fresh(rain::rain_defaults()).drops.len() == 32,
        !RainModel::fresh(rain::rain_defaults()).initialized,
        0 <= k < 3 ==> RippleModel::fresh().drops[k].amplitude == 0,
        RippleModel::fresh().wf() && !RippleModel::fresh().initialized,
{
}

/// The effects that react to keys are the last six, and a press reaches each of
/// them as a press of the key at that LED's place, at its time. The others are
/// left as they are.
pub proof fn law_a_press_reaches_the_effect(
    effect: EffectModel,
    capacity: nat,
    leds: Seq<(u8, u8)>,
    led_idx: usize,
    now: u32,
)
    ensures
        ({
            let (x, y) = (leds[led_idx as int].0, leds[led_idx as int].1);
            let after = effect.pressed(capacity, leds, led_idx, now);
            &&& effect.takes_hits() <==> effect.index() > 5
            &&& !effect.takes_hits() ==> after == effect
            &&& effect matches EffectModel::Reactive(m) ==> after == EffectModel::Reactive(
                m.pressed(x, y, now),
            )
            &&& effect matches EffectModel::Crosshair(m) ==> after == EffectModel::Crosshair(
                m.pressed(led_idx, x, y, now),
            )
            &&& effect matches EffectModel::Tracer(m) ==> after == EffectModel::Tracer(
                m.pressed(x, y, now),
            )
            &&& effect matches EffectModel::Keyfall(m) ==> after == EffectModel::Keyfall(
                m.pressed(leds, x, y, now),
            )
            &&& effect matches EffectModel::Shockwave(m) ==> after == EffectModel::Shockwave(
                m.pressed(leds, x, y, now),
            )
            &&& effect matches EffectModel::Comet(m) ==> after == EffectModel::Comet(
                m.pressed(capacity as int, x, y, now),
            )
        }),
{
}

/// An effect renders its own frame and advances its own state: those on the
/// slowed clock read it, those that place things at random use the generator's
/// next bytes and move it on by as many as they used.
pub proof fn law_an_effect_advances_its_own_state(
    effect: EffectModel,
    frame: FrameParams<'_>,
    leds: Seq<(u8, u8)>,
    drawn: int,
)
    ensures
        ({
            let after = effect.ticked(frame, leds, drawn);
            let (now, speed) = (frame.timer_ms, frame.speed);
            &&& effect is Gradient ==> after == effect
            &&& effect matches EffectModel::Flow(m) ==> after == EffectModel::Flow(
                m.advanced(now, speed),
            )
            &&& effect matches EffectModel::Vortex(m) ==> after == EffectModel::Vortex(
                m.advanced(now, speed),
            )
            &&& effect matches EffectModel::Sparkle(m) ==> after == EffectModel::Sparkle(
                m.advanced(now, speed),
            )
            &&& effect matches EffectModel::Ripple(m, rng) ==> {
                &&& after matches EffectModel::Ripple(next, moved)
                &&& next == m.rippled(frame, leds, (rng.word() % 256) as u8)
                &&& m.spawns(now) ==> moved == rng.advanced(1)
                &&& !m.spawns(now) ==> moved == rng
            }
            &&& effect matches EffectModel::Rain(m, rng) ==> {
                &&& after matches EffectModel::Rain(next, moved)
                &&& next == m.rained(frame, rng.bytes(160))
                &&& moved == rng.advanced(m.refilled(frame, rng.bytes(160)).used)
            }
            &&& effect matches EffectModel::Reactive(m) ==> after == EffectModel::Reactive(
                m.ticked(frame),
            )
            &&& effect matches EffectModel::Crosshair(m) ==> after == EffectModel::Crosshair(
                m.ticked(frame, drawn),
            )
            &&& effect matches EffectModel::Tracer(m) ==> after == EffectModel::Tracer(
                m.ticked(frame),
            )
            &&& effect matches EffectModel::Keyfall(m) ==> after == EffectModel::Keyfall(
                m.ticked(frame),
            )
            &&& effect matches EffectModel::Shockwave(m) ==> after == EffectModel::Shockwave(
                m.ticked(frame),
            )
            &&& effect matches EffectModel::Comet(m) ==> after == EffectModel::Comet(
                m.ticked(frame),
            )
        }),
{
}

/// A rendered frame fills the whole buffer. The effects that react to keys,
/// but for Reactive, start from black; the others leave what lies beyond the
/// board as it was.
pub proof fn law_an_effect_renders_its_own_frame(
    effect: EffectModel,
    frame: FrameParams<'_>,
    leds: Seq<(u8, u8)>,
    out: Seq<Hsv>,
    i: int,
)
    requires
        0 <= i < out.len(),
    ensures
        ({
            let shown = effect.painted(frame, leds, out);
            let lit = i < leds.len();
            &&& shown.len() == out.len()
            &&& !lit && effect.index() <= 6 ==> shown[i] == out[i]
            &&& !lit && effect.index() > 6 ==> shown[i] == (Hsv { h: 0, s: 0, v: 0 })
            &&& lit && effect is Gradient ==> shown[i] == gradient::pixel(frame, leds, leds[i])
            &&& lit ==> (effect matches EffectModel::Flow(m) ==> shown[i] == flow::pixel(
                m,
                frame,
                leds[i],
            ))
            &&& lit ==> (effect matches EffectModel::Vortex(m) ==> shown[i] == vortex::pixel(
                m,
                frame,
                leds[i],
            ))
            &&& lit ==> (effect matches EffectModel::Sparkle(m) ==> shown[i] == sparkle::pixel(
                m,
                frame,
                i,
            ))
            &&& lit ==> (effect matches EffectModel::Ripple(m, _) ==> shown[i] == m.pixel(
                frame,
                leds[i],
            ))
            &&& lit ==> (effect matches EffectModel::Rain(m, _) ==> shown[i] == m.pixel(
                frame,
                leds[i],
            ))
            &&& lit ==> (effect matches EffectModel::Reactive(m) ==> shown[i] == m.pixel(
                frame,
                leds[i],
                false,
            ))
            &&& effect matches EffectModel::Crosshair(m) ==> shown == m.painted(
                frame,
                leds,
                out.len(),
            )
            &&& lit ==> (effect matches EffectModel::Tracer(m) ==> shown[i] == m.pixel(
                frame,
                leds[i],
            ))
            &&& lit ==> (effect matches EffectModel::Keyfall(m) ==> shown[i] == m.pixel(
                frame,
                leds[i],
            ))
            &&& lit ==> (effect matches EffectModel::Shockwave(m) ==> shown[i] == m.pixel(
                frame,
                leds[i],
            ))
            &&& effect matches EffectModel::Comet(m) ==> shown == m.painted(
                frame,
                leds,
                out.len(),
            )
        }),
{
}

/// Retuning replaces the tuning of the effect that it is for, and nothing
/// else; every other effect is left as it is.
pub proof fn law_retuning_is_for_its_effect(
    effect: EffectModel,
    rains: RainParams,
    crosses: CrosshairParams,
    falls: KeyfallParams,
    comets: CometParams,
)
    ensures
        effect matches EffectModel::Rain(m, rng) ==> effect.with_rain_params(rains)
            == EffectModel::Rain(RainModel { params: rains, ..m }, rng),
        effect !is Rain ==> effect.with_rain_params(rains) == effect,
        effect matches EffectModel::Crosshair(m) ==> effect.with_crosshair_params(crosses)
            == EffectModel::Crosshair(CrosshairModel { params: crosses, ..m }),
        effect !is Crosshair ==> effect.with_crosshair_params(crosses) == effect,
        effect matches EffectModel::Keyfall(m) ==> effect.with_keyfall_params(falls)
            == EffectModel::Keyfall(KeyfallModel { params: falls, ..m }),
        effect !is Keyfall ==> effect.with_keyfall_params(falls) == effect,
        effect matches EffectModel::Comet(m) ==> effect.with_comet_params(comets)
            == EffectModel::Comet(CometModel { params: comets, ..m }),
        effect !is Comet ==> effect.with_comet_params(comets) == effect,
{
}

/// A stack shows its primary, and over it the overlay: rendered at full
/// brightness, so that its value is how much it covers, in its own hue and
/// saturation at the brightness of the frame. A press reaches both slots, and
/// a frame advances both.
pub proof fn law_a_stack_lays_the_overlay_on_top(
    stack: StackModel,
    overlay: EffectModel,
    frame: FrameParams<'_>,
    leds: Seq<(u8, u8)>,
    scratch: Seq<Hsv>,
    out: Seq<Rgb>,
    i: int,
)
    requires
        stack.overlay == Some(overlay),
        0 <= i < out.len(),
    ensures
        ({
            let full = FrameParams { val: 255, ..frame };
            let base = stack.primary.painted(frame, leds, scratch);
            let layer = overlay.layered(full, leds, base)[i];
            let shown = stack.painted(frame, leds, scratch, out);
            &&& shown.len() == out.len()
            &&& i >= scratch.len() ==> shown[i] == out[i]
            &&& i < scratch.len() ==> shown[i] == color::blended(
                color::rgb_of(base[i]),
                color::rgb_of(Hsv { h: layer.h, s: layer.s, v: frame.val }),
                layer.v,
            )
        }),
{
}

/// A stack without an overlay shows its primary.
pub proof fn law_a_stack_alone_is_its_primary(
    primary: EffectModel,
    frame: FrameParams<'_>,
    leds: Seq<(u8, u8)>,
    scratch: Seq<Hsv>,
    out: Seq<Rgb>,
    i: int,
)
    requires
        0 <= i < out.len(),
        i < scratch.len(),
    ensures
        (StackModel { primary, overlay: None }).painted(frame, leds, scratch, out)[i]
            == color::rgb_of(primary.painted(frame, leds, scratch)[i]),
{
}

/// A press reaches both slots of a stack, and a frame advances both, the
/// overlay at full brightness. The stack takes a press when a slot does.
pub proof fn law_both_slots_live(
    stack: StackModel,
    overlay: EffectModel,
    capacity: nat,
    frame: FrameParams<'_>,
    leds: Seq<(u8, u8)>,
    drawn: int,
    led_idx: usize,
    now: u32,
)
    requires
        stack.overlay == Some(overlay),
    ensures
        stack.pressed(capacity, leds, led_idx, now).primary == stack.primary.pressed(
            capacity,
            leds,
            led_idx,
            now,
        ),
        stack.pressed(capacity, leds, led_idx, now).overlay == Some(
            overlay.pressed(capacity, leds, led_idx, now),
        ),
        stack.ticked(frame, leds, drawn).primary == stack.primary.ticked(frame, leds, drawn),
        stack.ticked(frame, leds, drawn).overlay == Some(
            overlay.ticked(FrameParams { val: 255, ..frame }, leds, drawn),
        ),
        stack.takes_hits() <==> stack.primary.takes_hits() || overlay.takes_hits(),
        (StackModel { overlay: None, ..stack }).takes_hits() <==> stack.primary.takes_hits(),
{
}

/// Every index has its name: twelve effects in stable order, and the indices
/// that are given for some of them point at their names.
pub proof fn law_every_index_has_its_name()
    ensures
        Effect::<0>::NAMES@ == seq![
            "Gradient",
            "Flow",
            "Vortex",
            "Sparkle",
            "Ripple",
            "Rain",
            "Reactive",
            "Crosshair",
            "Tracer",
            "Keyfall",
            "Shockwave",
            "Comet",
        ],
        Effect::<0>::NAMES[Effect::<0>::FLOW_INDEX as int] == "Flow",
        Effect::<0>::NAMES[Effect::<0>::RAIN_INDEX as int] == "Rain",
        Effect::<0>::NAMES[Effect::<0>::CROSSHAIR_INDEX as int] == "Crosshair",
        Effect::<0>::NAMES[Effect::<0>::TRACER_INDEX as int] == "Tracer",
        Effect::<0>::NAMES[Effect::<0>::KEYFALL_INDEX as int] == "Keyfall",
        Effect::<0>::NAMES[Effect::<0>::SHOCKWAVE_INDEX as int] == "Shockwave",
        Effect::<0>::NAMES[Effect::<0>::COMET_INDEX as int] == "Comet",
        Effect::<0>::LEGACY_STORM_INDEX == 7,
{
}

} // verus!
