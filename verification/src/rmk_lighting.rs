//! The effects as a source for a keyboard's lighting engine.
//!
//! A board instantiates [`PaletteFxSource`] with its LED layout and LED count.
//! The source claims the RGB mode, palette, value and speed actions, so that
//! keys drive the effects, and renders one frame per tick.
//!
//! Key hits arrive through a [`HitQueue`] that the board owns: an event task
//! records LED indices, and the source timestamps them in its own clock when
//! it drains them on the next tick.
use vstd::prelude::*;

use crate::color;
use crate::color::{hsv_to_rgb, Hsv, Rgb};
use crate::effects::cycle;
use crate::effects::cycle::EffectModel;
use crate::effects::{rain, shockwave};
use crate::effects::{Effect, FlowState, FrameParams, RainParams};
use crate::layout::LedLayout;
use crate::math;
use crate::palette::{Palette, BUILTIN_PALETTES, BUILTIN_PALETTE_NAMES, PALETTE_COUNT};

verus! {

/// A position without a place in the topology counts as the origin.
pub open spec fn placed(position: Option<(i32, i32)>) -> (int, int) {
    match position {
        Some((x, y)) => (x as int, y as int),
        None => (0, 0),
    }
}

/// One axis of the placed positions.
pub open spec fn axis(positions: Seq<Option<(i32, i32)>>, vertical: bool) -> Seq<int> {
    Seq::new(
        positions.len(),
        |i: int|
            if vertical {
                placed(positions[i]).1
            } else {
                placed(positions[i]).0
            },
    )
}

/// The lowest of the first `n` values, at most `i32::MAX`.
pub open spec fn lowest(values: Seq<int>, n: int) -> int
    decreases n,
{
    if n <= 0 {
        i32::MAX as int
    } else {
        math::smaller(lowest(values, n - 1), values[n - 1])
    }
}

/// The highest of the first `n` values, at least `i32::MIN`.
pub open spec fn highest(values: Seq<int>, n: int) -> int
    decreases n,
{
    if n <= 0 {
        i32::MIN as int
    } else {
        math::larger(highest(values, n - 1), values[n - 1])
    }
}

/// Width of the range that the values of one axis span.
pub open spec fn breadth(values: Seq<int>) -> int {
    highest(values, values.len() as int) - lowest(values, values.len() as int)
}

/// The extent of the board that is mapped to the whole grid: the wider of the
/// two axes.
pub open spec fn extent(positions: Seq<Option<(i32, i32)>>) -> int {
    math::larger(
        math::larger(breadth(axis(positions, false)), breadth(axis(positions, true))),
        1,
    )
}

/// One coordinate on the 0..=255 grid.
pub open spec fn gridded(values: Seq<int>, i: int, extent: int) -> int {
    (values[i] - lowest(values, values.len() as int)) * 255 / extent
}

/// Positions normalized to the 0..=255 grid, with one scale for both axes.
pub open spec fn normalized(positions: Seq<Option<(i32, i32)>>) -> Seq<(u8, u8)> {
    Seq::new(
        positions.len(),
        |i: int|
            (
                gridded(axis(positions, false), i, extent(positions)) as u8,
                gridded(axis(positions, true), i, extent(positions)) as u8,
            ),
    )
}

proof fn lemma_bounds(values: Seq<int>, n: int, k: int)
    requires
        0 <= k < n <= values.len(),
        forall|i: int| 0 <= i < values.len() ==> i32::MIN <= #[trigger] values[i] <= i32::MAX,
    ensures
        i32::MIN <= lowest(values, n) <= values[k] <= highest(values, n) <= i32::MAX,
    decreases n,
{
    assert(i32::MIN <= values[n - 1] <= i32::MAX);
    if k < n - 1 {
        lemma_bounds(values, n - 1, k);
    } else if n > 1 {
        lemma_bounds(values, n - 1, 0);
    } else {
        assert(lowest(values, 0) == i32::MAX && highest(values, 0) == i32::MIN);
    }
}

proof fn lemma_gridded(run: int, extent: int)
    requires
        0 <= run <= extent,
        1 <= extent,
    ensures
        0 <= run * 255 / extent <= 255,
{
    assert(0 <= run * 255 / extent <= 255) by (nonlinear_arith)
        requires
            0 <= run <= extent,
            1 <= extent,
    ;
}

/// A layout derived from a lighting topology. Each slot takes its effective
/// position: that of its emitter, else the centre of its key.
pub struct TopologyLayout<const N: usize> {
    positions: [(u8, u8); N],
}

fn place(position: Option<(i32, i32)>) -> (at: (i32, i32))
    ensures
        (at.0 as int, at.1 as int) == placed(position),
{
    match position {
        Some(at) => at,
        None => (0, 0),
    }
}

impl<const N: usize> TopologyLayout<N> {
    /// Normalizes the effective positions of the slots, in slot order.
    pub fn new(topology: &[Option<(i32, i32)>; N]) -> (layout: Self)
        requires
            N > 0,
        ensures
            layout.leds() == normalized(topology@),
    {
        let ghost xs = axis(topology@, false);
        let ghost ys = axis(topology@, true);
        let mut min_x: i32 = i32::MAX;
        let mut min_y: i32 = i32::MAX;
        let mut max_x: i32 = i32::MIN;
        let mut max_y: i32 = i32::MIN;
        let mut slot: usize = 0;
        while slot < N
            invariant
                slot <= N,
                xs == axis(topology@, false),
                ys == axis(topology@, true),
                min_x == lowest(xs, slot as int),
                min_y == lowest(ys, slot as int),
                max_x == highest(xs, slot as int),
                max_y == highest(ys, slot as int),
            decreases N - slot,
        {
            let (x, y) = place(topology[slot]);
            if x < min_x {
                min_x = x;
            }
            if y < min_y {
                min_y = y;
            }
            if x > max_x {
                max_x = x;
            }
            if y > max_y {
                max_y = y;
            }
            slot += 1;
        }
        let width: i64 = max_x as i64 - min_x as i64;
        let height: i64 = max_y as i64 - min_y as i64;
        let wider: i64 = if width >= height {
            width
        } else {
            height
        };
        let span: i64 = if wider >= 1 {
            wider
        } else {
            1
        };
        let mut positions: [(u8, u8); N] = [(0, 0);N];
        let mut slot: usize = 0;
        while slot < N
            invariant
                slot <= N,
                xs == axis(topology@, false),
                ys == axis(topology@, true),
                span == extent(topology@),
                min_x == lowest(xs, N as int),
                min_y == lowest(ys, N as int),
                max_x == highest(xs, N as int),
                max_y == highest(ys, N as int),
                forall|j: int| 0 <= j < slot ==> positions@[j] == normalized(topology@)[j],
            decreases N - slot,
        {
            let (x, y) = place(topology[slot]);
            proof {
                lemma_bounds(xs, N as int, slot as int);
                lemma_bounds(ys, N as int, slot as int);
                lemma_gridded(x - min_x, span as int);
                lemma_gridded(y - min_y, span as int);
            }
            positions[slot] = (
                ((x as i64 - min_x as i64) * 255 / span) as u8,
                ((y as i64 - min_y as i64) * 255 / span) as u8,
            );
            slot += 1;
        }
        assert(positions@ =~= normalized(topology@));
        Self { positions }
    }
}

impl<const N: usize> LedLayout for TopologyLayout<N> {
    closed spec fn leds(&self) -> Seq<(u8, u8)> {
        self.positions@
    }

    fn count(&self) -> (n: usize) {
        N
    }

    fn position(&self, index: usize) -> (at: (u8, u8)) {
        self.positions[index]
    }
}

/// Both axes share one scale: equal distances on the board stay equal on the
/// grid, whichever way they run.
pub proof fn law_the_grid_is_isotropic(positions: Seq<Option<(i32, i32)>>, i: int, j: int)
    requires
        0 <= i < positions.len(),
        0 <= j < positions.len(),
        ({
            let n = positions.len() as int;
            let (xs, ys) = (axis(positions, false), axis(positions, true));
            xs[i] - lowest(xs, n) == ys[j] - lowest(ys, n)
        }),
    ensures
        normalized(positions)[i].0 == normalized(positions)[j].1,
{
}

/// The grid keeps the order of the positions, its left and top edges are in
/// use, and so is the far edge of the wider axis, unless all positions
/// coincide.
pub proof fn law_the_grid_spans_the_board(
    positions: Seq<Option<(i32, i32)>>,
    i: int,
    j: int,
    vertical: bool,
)
    requires
        0 <= i < positions.len(),
        0 <= j < positions.len(),
    ensures
        ({
            let values = axis(positions, vertical);
            let n = values.len() as int;
            let size = extent(positions);
            &&& values[i] <= values[j] ==> gridded(values, i, size) <= gridded(values, j, size)
            &&& values[i] == lowest(values, n) ==> gridded(values, i, size) == 0
            &&& values[i] == highest(values, n) && breadth(values) == size ==> gridded(
                values,
                i,
                size,
            ) == 255
            &&& 0 <= gridded(values, i, size) <= 255
        }),
{
    let values = axis(positions, vertical);
    let n = values.len() as int;
    let size = extent(positions);
    lemma_bounds(values, n, i);
    lemma_bounds(values, n, j);
    let low = lowest(values, n);
    let (a, b) = (values[i] - low, values[j] - low);
    lemma_gridded(a, size);
    if a <= b {
        assert(a * 255 / size <= b * 255 / size) by (nonlinear_arith)
            requires
                a <= b,
                1 <= size,
        ;
    }
    if a == 0 {
        assert(0int / size == 0) by (nonlinear_arith)
            requires
                1 <= size,
        ;
    }
    if a == size {
        assert(size * 255 / size == 255) by (nonlinear_arith)
            requires
                1 <= size,
        ;
    }
}

/// A bounded `heapless::Deque` of LED indices, behind a box so that its
/// capacity is a value.
#[verifier::external_body]
pub struct HitDeque {
    deque: Box<heapless::deque::DequeView<u8>>,
}

/// The indices that a deque holds, front first.
pub uninterp spec fn queued(deque: &HitDeque) -> Seq<u8>;

/// The capacity that a deque was made with.
pub uninterp spec fn room(deque: &HitDeque) -> int;

/// `heapless::Deque::new`. Trusted: the deque is empty and has room for
/// `HITS` items. A deque without room does not build.
#[verifier::external_body]
fn deque_new<const HITS: usize>() -> (deque: HitDeque)
    requires
        HITS > 0,
    ensures
        queued(&deque) == Seq::<u8>::empty(),
        room(&deque) == HITS,
{
    HitDeque { deque: Box::new(heapless::Deque::<u8, HITS>::new()) }
}

/// `push_back` of `heapless::Deque`. Trusted: it appends exactly when the
/// deque holds fewer items than it has room for, and says so.
#[verifier::external_body]
fn deque_push_back(deque: &mut HitDeque, item: u8) -> (ok: bool)
    ensures
        ok == (queued(old(deque)).len() < room(old(deque))),
        queued(final(deque)) == (if ok {
            queued(old(deque)).push(item)
        } else {
            queued(old(deque))
        }),
        room(final(deque)) == room(old(deque)),
{
    deque.deque.push_back(item).is_ok()
}

/// `pop_front` of `heapless::Deque`. Trusted: it takes the front item, or
/// says that there is none.
#[verifier::external_body]
fn deque_pop_front(deque: &mut HitDeque) -> (item: Option<u8>)
    ensures
        match item {
            Some(item) => {
                &&& queued(old(deque)).len() > 0
                &&& item == queued(old(deque))[0]
                &&& queued(final(deque)) == queued(old(deque)).skip(1)
            },
            None => queued(old(deque)).len() == 0 && queued(final(deque)) == queued(old(deque)),
        },
        room(final(deque)) == room(old(deque)),
{
    deque.deque.pop_front()
}

/// Pending key hits. `HITS` bounds how many presses that have not been drained
/// are remembered between frames.
pub struct HitQueue<const HITS: usize> {
    hits: HitDeque,
}

impl<const HITS: usize> View for HitQueue<HITS> {
    type V = Seq<u8>;

    /// The pending LED indices, oldest first.
    closed spec fn view(&self) -> Seq<u8> {
        queued(&self.hits)
    }
}

impl<const HITS: usize> HitQueue<HITS> {
    /// The queue never holds more than `HITS` presses.
    pub closed spec fn wf(&self) -> bool {
        room(&self.hits) == HITS && queued(&self.hits).len() <= HITS
    }

    pub fn new() -> (queue: Self)
        requires
            HITS > 0,
        ensures
            queue.wf(),
            queue@ == Seq::<u8>::empty(),
    {
        Self { hits: deque_new::<HITS>() }
    }

    /// Records a key press. Returns whether it was queued, so that callers can
    /// skip requesting a render otherwise: a full queue drops it.
    pub fn record(&mut self, led_idx: u8) -> (ok: bool)
        requires
            old(self).wf(),
        ensures
            final(self).wf(),
            ok == (old(self)@.len() < HITS),
            final(self)@ == (if ok {
                old(self)@.push(led_idx)
            } else {
                old(self)@
            }),
    {
        deque_push_back(&mut self.hits, led_idx)
    }

    /// Takes the oldest pending press.
    pub fn take(&mut self) -> (led_idx: Option<u8>)
        requires
            old(self).wf(),
        ensures
            final(self).wf(),
            match led_idx {
                Some(led_idx) => {
                    &&& old(self)@.len() > 0
                    &&& led_idx == old(self)@[0]
                    &&& final(self)@ == old(self)@.skip(1)
                },
                None => old(self)@.len() == 0 && final(self)@ == old(self)@,
            },
    {
        deque_pop_front(&mut self.hits)
    }
}

/// Most parameters that a board can restore at construction.
pub const MAX_INITIAL_PARAMS: usize = 8;

/// Runtime tuning of a [`PaletteFxSource`].
#[derive(Copy, Clone, Debug)]
pub struct PaletteFxConfig {
    /// Whether the source starts enabled. A disabled one remembers
    /// `initial_val` as the value that toggling restores.
    pub initial_enabled: bool,
    /// Initial brightness.
    pub initial_val: u8,
    /// Brightness floor of the value-down key.
    pub min_val: u8,
    /// Brightness step of the value keys.
    pub val_step: u8,
    /// Initial animation speed.
    pub initial_speed: u8,
    /// Speed step of the speed keys.
    pub speed_step: u8,
    /// Index into [`BUILTIN_PALETTES`] to start on.
    pub initial_palette: usize,
    /// Index into [`Effect::NAMES`] to boot into. Out-of-range values fall
    /// back to Flow.
    pub initial_effect: u8,
    /// Parameter values for `initial_effect`, in index order, as restored from
    /// storage. Each is applied through the bounds check of a host set, so
    /// that a record written with other bounds contributes only the values
    /// that are still valid.
    pub initial_params: [u8; MAX_INITIAL_PARAMS],
    /// Valid entries of `initial_params`.
    pub initial_param_len: u8,
    /// Frame cadence in milliseconds.
    pub frame_interval_ms: u64,
}

impl Default for PaletteFxConfig {
    fn default() -> (config: Self)
        ensures
            config.initial_enabled,
            config.initial_val == 255,
            config.min_val == 8,
            config.val_step == 16,
            config.initial_speed == 128,
            config.speed_step == 16,
            config.initial_palette == 0,
            config.initial_effect == Effect::<1>::FLOW_INDEX,
            config.initial_params@ == Seq::new(8, |i: int| 0u8),
            config.initial_param_len == 0,
            config.frame_interval_ms == 40,
    {
        let initial_params: [u8; 8] = [0;8];
        assert(initial_params@ =~= Seq::new(8, |i: int| 0u8));
        Self {
            initial_enabled: true,
            initial_val: 255,
            min_val: 8,
            val_step: 16,
            initial_speed: 128,
            speed_step: 16,
            initial_palette: 0,
            initial_effect: Effect::<1>::FLOW_INDEX,
            initial_params,
            initial_param_len: 0,
            frame_interval_ms: 40,
        }
    }
}

/// Number of effects, which sizes the parameter table.
pub const EFFECT_COUNT: usize = 12;

/// The row of the parameter table that Rain uses.
pub const RAIN_ROW: usize = 5;

/// A light key.
#[derive(Copy, Clone, Debug, PartialEq, Eq, Structural)]
pub enum LightAction {
    RgbTog,
    RgbModeForward,
    RgbModeReverse,
    RgbHui,
    RgbHud,
    RgbVai,
    RgbVad,
    RgbSpi,
    RgbSpd,
    /// Any key that the effects do not claim.
    Other,
}

/// The selection that a host reads and sets.
#[derive(Copy, Clone, Debug, PartialEq, Eq, Structural)]
pub struct ExtensionState {
    pub effect: u8,
    pub palette: u8,
    pub value: u8,
    pub speed: u8,
}

/// Name and bounds of one parameter.
#[derive(Copy, Clone, Debug)]
pub struct ExtensionParamSpec {
    pub name: &'static str,
    pub min: u8,
    pub max: u8,
    pub default: u8,
}

/// What the source advertises to a host.
pub struct ExtensionDescriptor {
    /// Effect names, in index order.
    pub effects: Vec<&'static str>,
    /// Palette names, in index order.
    pub palettes: Vec<&'static str>,
    /// Parameters of each effect, indexed like `effects`.
    pub params: Vec<Vec<ExtensionParamSpec>>,
}

impl ExtensionDescriptor {
    /// Parameters of the effect at `effect`, or `None` when out of range.
    pub fn effect_params(&self, effect: u8) -> (specs: Option<&Vec<ExtensionParamSpec>>)
        ensures
            match specs {
                Some(specs) => effect < self.params@.len() && *specs == self.params@[effect as int],
                None => effect >= self.params@.len(),
            },
    {
        if (effect as usize) < self.params.len() {
            Some(&self.params[effect as usize])
        } else {
            None
        }
    }
}

/// One rendered LED, and when it may change next.
#[derive(Copy, Clone, Debug, PartialEq, Eq, Structural)]
pub struct EffectSample {
    pub color: Rgb,
    pub next_change_ms: Option<u64>,
}

/// What the source contributes to an LED: every LED is fully covered.
#[derive(Copy, Clone, Debug, PartialEq, Eq, Structural)]
pub enum Contribution {
    Opaque(EffectSample),
}

/// Rain parameters after a restored record: each value that is within its
/// bounds is applied, in order, and the others are left out.
pub open spec fn restored(params: RainParams, values: Seq<u8>, n: int) -> RainParams
    decreases n,
{
    if n <= 0 {
        params
    } else {
        let earlier = restored(params, values, n - 1);
        if RainParams::accepts(n - 1, values[n - 1]) {
            earlier.with_param(n - 1, values[n - 1])
        } else {
            earlier
        }
    }
}

/// Parameters of the rain as they are advertised.
pub open spec fn rain_spec(spec: ExtensionParamSpec, index: int) -> bool {
    &&& spec.name == RainParams::NAMES[index]
    &&& spec.min == RainParams::MINS[index]
    &&& spec.max == RainParams::MAXES[index]
    &&& spec.default == RainParams::DEFAULTS[index]
}

/// What a [`PaletteFxSource`] holds.
pub struct SourceModel {
    pub config: PaletteFxConfig,
    pub leds: Seq<(u8, u8)>,
    pub effect: EffectModel,
    pub palette_idx: usize,
    pub val: u8,
    /// The brightness that toggling restores.
    pub last_nonzero_val: u8,
    pub speed: u8,
    /// Rain parameters of each effect, which survive cycling away and back.
    pub rain_params: Seq<RainParams>,
    pub frame: Seq<Hsv>,
    pub last_now_ms: u64,
}

impl SourceModel {
    /// There is a brightness to restore, and a running rain is tuned as the
    /// table says.
    pub open spec fn wf(self) -> bool {
        &&& self.last_nonzero_val > 0
        &&& self.rain_params.len() == EFFECT_COUNT
        &&& self.effect matches EffectModel::Rain(m, _) ==> m.params == self.rain_params[RAIN_ROW as int]
    }

    /// A fresh source over `lights` LEDs.
    pub open spec fn fresh(
        capacity: nat,
        lights: nat,
        leds: Seq<(u8, u8)>,
        config: PaletteFxConfig,
    ) -> SourceModel {
        let rows = Seq::new(
            EFFECT_COUNT as nat,
            |i: int|
                if i == RAIN_ROW && config.initial_effect == RAIN_ROW {
                    restored(
                        rain::rain_defaults(),
                        config.initial_params@,
                        math::smaller(config.initial_param_len as int, 8),
                    )
                } else {
                    rain::rain_defaults()
                },
        );
        let booted = match EffectModel::fresh(capacity, config.initial_effect, 0) {
            Some(effect) => effect,
            None => EffectModel::fresh(capacity, Effect::<1>::FLOW_INDEX, 0)->0,
        };
        SourceModel {
            config,
            leds,
            effect: booted.with_rain_params(rows[booted.index() as int]),
            palette_idx: config.initial_palette,
            val: if config.initial_enabled {
                config.initial_val
            } else {
                0
            },
            last_nonzero_val: if config.initial_val == 0 {
                math::larger(config.min_val as int, 1) as u8
            } else {
                config.initial_val
            },
            speed: config.initial_speed,
            rain_params: rows,
            frame: Seq::new(lights, |i: int| color::black()),
            last_now_ms: 0,
        }
    }

    /// Seed of an effect that is switched to.
    pub open spec fn seed(self) -> u64 {
        0xDEAD_C0DE_CAFE_F00Du64 ^ self.last_now_ms
    }

    /// The source switched to a fresh effect, tuned as the table says.
    pub open spec fn switched(self, capacity: nat, index: u8) -> SourceModel {
        let effect = EffectModel::fresh(capacity, index, self.seed())->0;
        SourceModel {
            effect: effect.with_rain_params(self.rain_params[effect.index() as int]),
            ..self
        }
    }

    /// What a tick at `now_ms` renders with.
    pub open spec fn frame_params(self, now_ms: u64) -> FrameParams<'static> {
        FrameParams {
            palette: &BUILTIN_PALETTES[self.palette_idx as int],
            speed: self.speed,
            sat: 255,
            val: self.val,
            timer_ms: (now_ms % 0x1_0000_0000) as u32,
        }
    }

    /// The effect after the first `n` pending hits, in the clock of a tick at
    /// `now_ms`.
    pub open spec fn hit(self, capacity: nat, hits: Seq<u8>, now_ms: u64, n: int) -> EffectModel
        decreases n,
    {
        if n <= 0 {
            self.effect
        } else {
            self.hit(capacity, hits, now_ms, n - 1).pressed(
                capacity,
                self.leds,
                hits[n - 1] as usize,
                (now_ms % 0x1_0000_0000) as u32,
            )
        }
    }

    /// Whether a tick can render: the palette exists, every pending hit names
    /// an LED, and the effect can render on this board.
    pub open spec fn ready(self, capacity: nat, hits: Seq<u8>, now_ms: u64) -> bool {
        &&& self.palette_idx < PALETTE_COUNT
        &&& forall|i: int| 0 <= i < hits.len() ==> #[trigger] hits[i] < self.leds.len()
        &&& self.hit(capacity, hits, now_ms, hits.len() as int).ready(
            self.frame_params(now_ms),
            self.leds,
        )
    }

    /// The source after a tick at `now_ms` that found `hits` pending.
    pub open spec fn ticked(self, capacity: nat, hits: Seq<u8>, now_ms: u64) -> SourceModel {
        let params = self.frame_params(now_ms);
        let effect = self.hit(capacity, hits, now_ms, hits.len() as int).ticked(
            params,
            self.leds,
            math::smaller(self.leds.len() as int, self.frame.len() as int),
        );
        SourceModel {
            effect,
            frame: effect.painted(params, self.leds, self.frame),
            last_now_ms: now_ms,
            ..self
        }
    }

    /// The source after a light key.
    pub open spec fn acted(self, capacity: nat, action: LightAction) -> SourceModel {
        match action {
            LightAction::RgbTog => if self.val == 0 {
                SourceModel { val: self.last_nonzero_val, ..self }
            } else {
                SourceModel { val: 0, last_nonzero_val: self.val, ..self }
            },
            LightAction::RgbModeForward => self.switched(
                capacity,
                cycle::following(self.effect.index()),
            ),
            LightAction::RgbModeReverse => self.switched(
                capacity,
                cycle::preceding(self.effect.index()),
            ),
            LightAction::RgbHui => SourceModel {
                palette_idx: ((self.palette_idx + 1) % PALETTE_COUNT as int) as usize,
                ..self
            },
            LightAction::RgbHud => SourceModel {
                palette_idx: ((self.palette_idx + PALETTE_COUNT - 1) % PALETTE_COUNT as int) as usize,
                ..self
            },
            LightAction::RgbVai => {
                let val = math::smaller(self.val + self.config.val_step, 255);
                SourceModel {
                    val: val as u8,
                    last_nonzero_val: math::larger(
                        val,
                        math::larger(self.config.min_val as int, 1),
                    ) as u8,
                    ..self
                }
            },
            LightAction::RgbVad => {
                let val = math::larger(
                    math::larger(self.val - self.config.val_step, 0),
                    self.config.min_val as int,
                );
                SourceModel {
                    val: val as u8,
                    last_nonzero_val: if val != 0 {
                        val as u8
                    } else {
                        self.last_nonzero_val
                    },
                    ..self
                }
            },
            LightAction::RgbSpi => SourceModel {
                speed: math::smaller(self.speed + self.config.speed_step, 255) as u8,
                ..self
            },
            LightAction::RgbSpd => SourceModel {
                speed: math::larger(self.speed - self.config.speed_step, 0) as u8,
                ..self
            },
            LightAction::Other => self,
        }
    }

    /// The selection as a host reads it.
    pub open spec fn selection(self) -> ExtensionState {
        ExtensionState {
            effect: self.effect.index(),
            palette: (self.palette_idx % 256) as u8,
            value: self.val,
            speed: self.speed,
        }
    }

    /// Whether a host may set this selection.
    pub open spec fn selectable(state: ExtensionState) -> bool {
        state.palette < PALETTE_COUNT && state.effect < EFFECT_COUNT
    }

    /// The source after a host has set a selection. Selecting the effect that
    /// is already active keeps its animation.
    pub open spec fn selected(self, capacity: nat, state: ExtensionState) -> SourceModel {
        let found = if state.effect == self.effect.index() {
            self
        } else {
            self.switched(capacity, state.effect)
        };
        SourceModel {
            palette_idx: state.palette as usize,
            val: state.value,
            last_nonzero_val: if state.value != 0 {
                state.value
            } else {
                self.last_nonzero_val
            },
            speed: state.speed,
            ..found
        }
    }

    /// The source after a host has set a parameter of an effect: its row of
    /// the table, and the effect itself while it is active.
    pub open spec fn retuned(self, effect: u8, index: u8, value: u8) -> SourceModel {
        let params = self.rain_params[effect as int].with_param(index as int, value);
        SourceModel {
            rain_params: self.rain_params.update(effect as int, params),
            effect: if effect == self.effect.index() {
                self.effect.with_rain_params(params)
            } else {
                self.effect
            },
            ..self
        }
    }
}

/// A source that runs the effects over all `N` LEDs.
pub struct PaletteFxSource<L: LedLayout, const N: usize, const HITS: usize> {
    layout: L,
    config: PaletteFxConfig,
    effect: Effect<HITS>,
    palette_idx: usize,
    val: u8,
    last_nonzero_val: u8,
    speed: u8,
    rain_params: [RainParams; EFFECT_COUNT],
    frame: [Hsv; N],
    last_now_ms: u64,
}

impl<L: LedLayout, const N: usize, const HITS: usize> View for PaletteFxSource<L, N, HITS> {
    type V = SourceModel;

    closed spec fn view(&self) -> SourceModel {
        SourceModel {
            config: self.config,
            leds: self.layout.leds(),
            effect: self.effect@,
            palette_idx: self.palette_idx,
            val: self.val,
            last_nonzero_val: self.last_nonzero_val,
            speed: self.speed,
            rain_params: self.rain_params@,
            frame: self.frame@,
            last_now_ms: self.last_now_ms,
        }
    }
}

impl<L: LedLayout, const N: usize, const HITS: usize> PaletteFxSource<L, N, HITS> {
    /// The invariant of the source and of its effect.
    pub closed spec fn wf(&self) -> bool {
        self.effect.wf() && self@.wf()
    }

    /// Whatever calls produced a source, its model meets its invariant.
    pub proof fn law_a_source_keeps_its_invariant(&self)
        requires
            self.wf(),
        ensures
            self@.wf(),
            self@.frame.len() == N,
    {
    }

    /// A source that renders on `layout`.
    pub fn new(layout: L, config: PaletteFxConfig) -> (source: Self)
        ensures
            source.wf(),
            source@ == SourceModel::fresh(HITS as nat, N as nat, layout.leds(), config),
    {
        let ghost model = SourceModel::fresh(HITS as nat, N as nat, layout.leds(), config);
        let effect: Effect<HITS> = match Effect::from_index(config.initial_effect, 0) {
            Some(effect) => effect,
            None => Effect::Flow(FlowState::new()),
        };
        let last_nonzero_val: u8 = if config.initial_val == 0 {
            if config.min_val < 1 {
                1
            } else {
                config.min_val
            }
        } else {
            config.initial_val
        };
        let mut rain_params: [RainParams; EFFECT_COUNT] = [RainParams::default();EFFECT_COUNT];
        if Effect::<HITS>::uses_rain_params(config.initial_effect) {
            rain_params[RAIN_ROW] = restore(&config.initial_params, config.initial_param_len);
        }
        assert(rain_params@ =~= model.rain_params);
        let mut source = Self {
            layout,
            config,
            effect,
            palette_idx: config.initial_palette,
            val: if config.initial_enabled {
                config.initial_val
            } else {
                0
            },
            last_nonzero_val,
            speed: config.initial_speed,
            rain_params,
            frame: [Hsv::default();N],
            last_now_ms: 0,
        };
        assert(source@.frame =~= model.frame);
        source.sync_effect_params();
        source
    }

    /// Pushes the stored tuning of the active effect into its state. Called
    /// after every switch, which hands back default-tuned state.
    fn sync_effect_params(&mut self)
        requires
            old(self).effect.wf(),
            old(self)@.last_nonzero_val > 0,
            old(self)@.rain_params.len() == EFFECT_COUNT,
        ensures
            final(self).wf(),
            final(self)@ == (SourceModel {
                effect: old(self)@.effect.with_rain_params(
                    old(self)@.rain_params[old(self)@.effect.index() as int],
                ),
                ..old(self)@
            }),
    {
        let index: usize = self.effect.index() as usize;
        let params: RainParams = self.rain_params[index];
        self.effect.set_rain_params(params);
    }

    fn ripple_seed(&self) -> (seed: u64)
        ensures
            seed == self@.seed(),
    {
        0xDEAD_C0DE_CAFE_F00D ^ self.last_now_ms
    }

    /// Hands the pending hits to the effect, stamped with the time of this
    /// frame.
    fn drain(&mut self, hits: &mut HitQueue<HITS>, now_ms: u64)
        requires
            old(self).wf(),
            old(hits).wf(),
            forall|i: int|
                0 <= i < old(hits)@.len() ==> #[trigger] old(hits)@[i] < old(self)@.leds.len(),
        ensures
            final(self).wf(),
            final(hits).wf(),
            final(hits)@ == Seq::<u8>::empty(),
            final(self)@ == (SourceModel {
                effect: old(self)@.hit(
                    HITS as nat,
                    old(hits)@,
                    now_ms,
                    old(hits)@.len() as int,
                ),
                ..old(self)@
            }),
    {
        let ghost begin = self@;
        let ghost pending = hits@;
        let ghost mut n: int = 0;
        let timer_ms: u32 = (now_ms % 0x1_0000_0000) as u32;
        loop
            invariant
                self.wf(),
                hits.wf(),
                0 <= n <= pending.len(),
                hits@ == pending.skip(n),
                timer_ms == now_ms % 0x1_0000_0000,
                forall|i: int| 0 <= i < pending.len() ==> #[trigger] pending[i] < begin.leds.len(),
                self@ == (SourceModel {
                    effect: begin.hit(HITS as nat, pending, now_ms, n),
                    ..begin
                }),
            ensures
                n == pending.len(),
            decreases pending.len() - n,
        {
            match hits.take() {
                Some(led) => {
                    assert(led == pending[n]);
                    assert(pending.skip(n).skip(1) =~= pending.skip(n + 1));
                    self.effect.record_hit(&self.layout, led as usize, timer_ms);
                    proof {
                        n = n + 1;
                    }
                },
                None => {
                    break ;
                },
            }
        }
        assert(pending.skip(n) =~= Seq::<u8>::empty());
    }

    /// Renders one frame.
    pub fn tick_frame(&mut self, hits: &mut HitQueue<HITS>, now_ms: u64)
        requires
            old(self).wf(),
            old(hits).wf(),
            old(self)@.ready(HITS as nat, old(hits)@, now_ms),
        ensures
            final(self).wf(),
            final(hits).wf(),
            final(hits)@ == Seq::<u8>::empty(),
            final(self)@ == old(self)@.ticked(HITS as nat, old(hits)@, now_ms),
    {
        let ghost begin = self@;
        let ghost pending = hits@;
        self.drain(hits, now_ms);
        self.last_now_ms = now_ms;
        let colors: Palette = BUILTIN_PALETTES[self.palette_idx];
        let params = FrameParams {
            palette: &colors,
            speed: self.speed,
            sat: 255,
            val: self.val,
            timer_ms: (now_ms % 0x1_0000_0000) as u32,
        };
        assert(params == begin.frame_params(now_ms));
        self.effect.tick(&self.layout, params, &mut self.frame);
    }

    /// Number of LEDs that the source covers.
    pub fn len(&self) -> (n: usize)
        ensures
            n == N,
    {
        N
    }

    /// The LED slot of a contribution.
    pub fn slot(&self, index: usize) -> (slot: u16)
        ensures
            slot == index % 65536,
    {
        (index % 65536) as u16
    }

    /// The contribution to one LED. Asking for the first LED renders the
    /// frame.
    pub fn contribution(&mut self, index: usize, hits: &mut HitQueue<HITS>, now_ms: u64) -> (c:
        Contribution)
        requires
            old(self).wf(),
            old(hits).wf(),
            index < N,
            now_ms + old(self)@.config.frame_interval_ms <= u64::MAX,
            index == 0 ==> old(self)@.ready(HITS as nat, old(hits)@, now_ms),
        ensures
            final(self).wf(),
            final(hits).wf(),
            final(self)@ == (if index == 0 {
                old(self)@.ticked(HITS as nat, old(hits)@, now_ms)
            } else {
                old(self)@
            }),
            final(hits)@ == (if index == 0 {
                Seq::<u8>::empty()
            } else {
                old(hits)@
            }),
            c == Contribution::Opaque(
                EffectSample {
                    color: color::rgb_of(final(self)@.frame[index as int]),
                    next_change_ms: Some(
                        (now_ms + old(self)@.config.frame_interval_ms) as u64,
                    ),
                },
            ),
    {
        if index == 0 {
            self.tick_frame(hits, now_ms);
        }
        Contribution::Opaque(
            EffectSample {
                color: hsv_to_rgb(self.frame[index]),
                next_change_ms: Some(now_ms + self.config.frame_interval_ms),
            },
        )
    }

    /// Handles a light key, and says whether the effects claim it.
    pub fn handle_light_action(&mut self, action: LightAction) -> (claimed: bool)
        requires
            old(self).wf(),
            action == LightAction::RgbHui ==> old(self)@.palette_idx < usize::MAX,
            action == LightAction::RgbHud ==> old(self)@.palette_idx <= usize::MAX - PALETTE_COUNT,
        ensures
            final(self).wf(),
            claimed == (action != LightAction::Other),
            final(self)@ == old(self)@.acted(HITS as nat, action),
    {
        match action {
            LightAction::RgbTog => {
                if self.val == 0 {
                    self.val = self.last_nonzero_val;
                } else {
                    self.last_nonzero_val = self.val;
                    self.val = 0;
                }
            },
            LightAction::RgbModeForward => {
                let seed: u64 = self.ripple_seed();
                self.effect.next(seed);
                self.sync_effect_params();
            },
            LightAction::RgbModeReverse => {
                let seed: u64 = self.ripple_seed();
                self.effect.prev(seed);
                self.sync_effect_params();
            },
            LightAction::RgbHui => {
                self.palette_idx = (self.palette_idx + 1) % PALETTE_COUNT;
            },
            LightAction::RgbHud => {
                self.palette_idx = (self.palette_idx + PALETTE_COUNT - 1) % PALETTE_COUNT;
            },
            LightAction::RgbVai => {
                self.val = self.val.saturating_add(self.config.val_step);
                let floor: u8 = if self.config.min_val < 1 {
                    1
                } else {
                    self.config.min_val
                };
                self.last_nonzero_val = if self.val >= floor {
                    self.val
                } else {
                    floor
                };
            },
            LightAction::RgbVad => {
                let dimmed: u8 = self.val.saturating_sub(self.config.val_step);
                self.val = if dimmed >= self.config.min_val {
                    dimmed
                } else {
                    self.config.min_val
                };
                if self.val != 0 {
                    self.last_nonzero_val = self.val;
                }
            },
            LightAction::RgbSpi => {
                self.speed = self.speed.saturating_add(self.config.speed_step);
            },
            LightAction::RgbSpd => {
                self.speed = self.speed.saturating_sub(self.config.speed_step);
            },
            LightAction::Other => {
                return false;
            },
        }
        true
    }

    /// What the source advertises: the effects, the palettes, and one row of
    /// parameters per effect, of which only that of Rain is not empty.
    pub fn extension_descriptor(&self) -> (descriptor: ExtensionDescriptor)
        ensures
            descriptor.effects@ == Effect::<HITS>::NAMES@,
            descriptor.palettes@ == BUILTIN_PALETTE_NAMES@,
            descriptor.params@.len() == descriptor.effects@.len(),
            forall|i: int|
                0 <= i < EFFECT_COUNT ==> (#[trigger] descriptor.params@[i])@.len() == if i == RAIN_ROW {
                    RainParams::COUNT as nat
                } else {
                    0
                },
            forall|k: int|
                0 <= k < RainParams::COUNT ==> rain_spec(#[trigger] descriptor.params@[RAIN_ROW as int]@[k], k),
    {
        ExtensionDescriptor {
            effects: effect_names::<HITS>(),
            palettes: palette_names(),
            params: param_rows(),
        }
    }

    /// The current selection.
    pub fn extension_state(&self) -> (state: ExtensionState)
        ensures
            state == self@.selection(),
    {
        ExtensionState {
            effect: self.effect.index(),
            palette: (self.palette_idx % 256) as u8,
            value: self.val,
            speed: self.speed,
        }
    }

    /// Sets the selection. An unknown palette or effect is declined, and
    /// changes nothing.
    pub fn apply_extension_state(&mut self, state: ExtensionState) -> (ok: bool)
        requires
            old(self).wf(),
        ensures
            final(self).wf(),
            ok == SourceModel::selectable(state),
            final(self)@ == (if ok {
                old(self)@.selected(HITS as nat, state)
            } else {
                old(self)@
            }),
    {
        if (state.palette as usize) >= PALETTE_COUNT {
            return false;
        }
        if state.effect != self.effect.index() {
            let seed: u64 = self.ripple_seed();
            match Effect::from_index(state.effect, seed) {
                Some(effect) => {
                    self.effect = effect;
                    self.sync_effect_params();
                },
                None => {
                    return false;
                },
            }
        }
        self.palette_idx = state.palette as usize;
        self.val = state.value;
        if state.value != 0 {
            self.last_nonzero_val = state.value;
        }
        self.speed = state.speed;
        true
    }

    /// One parameter of an effect, or `None` where there is none.
    pub fn extension_param(&self, effect: u8, index: u8) -> (value: Option<u8>)
        ensures
            value == (if effect == Effect::<HITS>::RAIN_INDEX && index < RainParams::COUNT {
                Some(self@.rain_params[RAIN_ROW as int].param(index as int))
            } else {
                None
            }),
    {
        if !Effect::<HITS>::uses_rain_params(effect) {
            return None;
        }
        self.rain_params[effect as usize].get(index)
    }

    /// Sets one parameter of an effect. An unknown parameter or a value out of
    /// its bounds is declined, and changes nothing.
    pub fn apply_extension_param(&mut self, effect: u8, index: u8, value: u8) -> (ok: bool)
        requires
            old(self).wf(),
        ensures
            final(self).wf(),
            ok == (effect == Effect::<HITS>::RAIN_INDEX && RainParams::accepts(
                index as int,
                value,
            )),
            final(self)@ == (if ok {
                old(self)@.retuned(effect, index, value)
            } else {
                old(self)@
            }),
    {
        if !Effect::<HITS>::uses_rain_params(effect) {
            return false;
        }
        let mut params: RainParams = self.rain_params[effect as usize];
        if !params.set(index, value) {
            return false;
        }
        self.rain_params[effect as usize] = params;
        if effect == self.effect.index() {
            self.effect.set_rain_params(params);
        }
        true
    }

    /// The last rendered frame.
    pub fn frame(&self) -> (frame: [Hsv; N])
        ensures
            frame@ == self@.frame,
    {
        self.frame
    }

    /// Whether a tick at `now_ms` spawns a droplet, for which the layout needs
    /// an LED.
    pub fn needs_led(&self, now_ms: u64) -> (r: bool)
        requires
            self.wf(),
        ensures
            r == self@.effect.needs_led((now_ms % 0x1_0000_0000) as u32),
    {
        self.effect.needs_led((now_ms % 0x1_0000_0000) as u32)
    }

    /// The selected index into [`BUILTIN_PALETTES`].
    pub fn palette_index(&self) -> (index: usize)
        ensures
            index == self@.palette_idx,
    {
        self.palette_idx
    }

    /// The parameter table, indexed like [`Effect::NAMES`].
    pub fn rain_params(&self) -> (rows: [RainParams; EFFECT_COUNT])
        ensures
            rows@ == self@.rain_params,
    {
        self.rain_params
    }

    /// The tuning of the running rain, or `None` while another effect runs.
    pub fn running_rain_params(&self) -> (params: Option<RainParams>)
        ensures
            params == match self@.effect {
                EffectModel::Rain(m, _) => Some(m.params),
                _ => None,
            },
    {
        self.effect.rain_params()
    }
}

/// Rain parameters restored from a record of which `len` entries are valid.
fn restore(values: &[u8; MAX_INITIAL_PARAMS], len: u8) -> (params: RainParams)
    ensures
        params == restored(rain::rain_defaults(), values@, math::smaller(len as int, 8)),
{
    let mut params: RainParams = RainParams::default();
    let mut index: usize = 0;
    while index < MAX_INITIAL_PARAMS && index < len as usize
        invariant
            index <= MAX_INITIAL_PARAMS,
            index <= len,
            params == restored(rain::rain_defaults(), values@, index as int),
        decreases MAX_INITIAL_PARAMS - index,
    {
        params.set(index as u8, values[index]);
        index += 1;
    }
    params
}

fn effect_names<const HITS: usize>() -> (names: Vec<&'static str>)
    ensures
        names@ == Effect::<HITS>::NAMES@,
{
    let mut names: Vec<&'static str> = Vec::new();
    let mut i: usize = 0;
    while i < EFFECT_COUNT
        invariant
            i <= EFFECT_COUNT,
            names@ == Effect::<HITS>::NAMES@.take(i as int),
        decreases EFFECT_COUNT - i,
    {
        names.push(Effect::<HITS>::NAMES[i]);
        assert(names@ =~= Effect::<HITS>::NAMES@.take(i + 1));
        i += 1;
    }
    assert(names@ =~= Effect::<HITS>::NAMES@);
    names
}

fn palette_names() -> (names: Vec<&'static str>)
    ensures
        names@ == BUILTIN_PALETTE_NAMES@,
{
    let mut names: Vec<&'static str> = Vec::new();
    let mut i: usize = 0;
    while i < PALETTE_COUNT
        invariant
            i <= PALETTE_COUNT,
            names@ == BUILTIN_PALETTE_NAMES@.take(i as int),
        decreases PALETTE_COUNT - i,
    {
        names.push(BUILTIN_PALETTE_NAMES[i]);
        assert(names@ =~= BUILTIN_PALETTE_NAMES@.take(i + 1));
        i += 1;
    }
    assert(names@ =~= BUILTIN_PALETTE_NAMES@);
    names
}

fn rain_param_specs() -> (specs: Vec<ExtensionParamSpec>)
    ensures
        specs@.len() == RainParams::COUNT,
        forall|k: int| 0 <= k < RainParams::COUNT ==> rain_spec(#[trigger] specs@[k], k),
{
    let mut specs: Vec<ExtensionParamSpec> = Vec::new();
    let mut i: usize = 0;
    while i < RainParams::COUNT as usize
        invariant
            i <= RainParams::COUNT,
            specs@.len() == i,
            forall|k: int| 0 <= k < i ==> rain_spec(#[trigger] specs@[k], k),
        decreases RainParams::COUNT - i,
    {
        specs.push(
            ExtensionParamSpec {
                name: RainParams::NAMES[i],
                min: RainParams::MINS[i],
                max: RainParams::MAXES[i],
                default: RainParams::DEFAULTS[i],
            },
        );
        i += 1;
    }
    specs
}

fn param_rows() -> (rows: Vec<Vec<ExtensionParamSpec>>)
    ensures
        rows@.len() == EFFECT_COUNT,
        forall|i: int|
            0 <= i < EFFECT_COUNT ==> (#[trigger] rows@[i])@.len() == if i == RAIN_ROW {
                RainParams::COUNT as nat
            } else {
                0
            },
        forall|k: int| 0 <= k < RainParams::COUNT ==> rain_spec(#[trigger] rows@[RAIN_ROW as int]@[k], k),
{
    let mut rows: Vec<Vec<ExtensionParamSpec>> = Vec::new();
    let mut i: usize = 0;
    while i < EFFECT_COUNT
        invariant
            i <= EFFECT_COUNT,
            rows@.len() == i,
            forall|j: int|
                0 <= j < i ==> (#[trigger] rows@[j])@.len() == if j == RAIN_ROW {
                    RainParams::COUNT as nat
                } else {
                    0
                },
            i > RAIN_ROW ==> forall|k: int|
                0 <= k < RainParams::COUNT ==> rain_spec(#[trigger] rows@[RAIN_ROW as int]@[k], k),
        decreases EFFECT_COUNT - i,
    {
        if i == RAIN_ROW {
            rows.push(rain_param_specs());
        } else {
            rows.push(Vec::new());
        }
        i += 1;
    }
    rows
}

/// Toggling twice restores the brightness: off and on again, or on and off
/// again. Nothing else of the selection changes.
pub proof fn law_toggling_twice_restores(source: SourceModel, capacity: nat)
    requires
        source.wf(),
    ensures
        ({
            let once = source.acted(capacity, LightAction::RgbTog);
            let twice = once.acted(capacity, LightAction::RgbTog);
            &&& once.val == 0 <==> source.val != 0
            &&& once.selection() == (ExtensionState { value: once.val, ..source.selection() })
            &&& twice.selection() == source.selection()
            &&& twice.effect == source.effect
            &&& twice.wf()
        }),
{
}

/// A source that boots disabled toggles on at the configured brightness.
pub proof fn law_a_disabled_source_toggles_on(
    capacity: nat,
    lights: nat,
    leds: Seq<(u8, u8)>,
    config: PaletteFxConfig,
)
    requires
        !config.initial_enabled,
        config.initial_val != 0,
    ensures
        SourceModel::fresh(capacity, lights, leds, config).val == 0,
        SourceModel::fresh(capacity, lights, leds, config).acted(
            capacity,
            LightAction::RgbTog,
        ).val == config.initial_val,
{
}

/// Hits do not change whether a tick needs an LED: a source is ready when its
/// palette exists, every pending hit names an LED, and a droplet that is due
/// has one to fall on.
pub proof fn law_when_a_source_is_ready(
    source: SourceModel,
    capacity: nat,
    hits: Seq<u8>,
    now_ms: u64,
)
    requires
        source.palette_idx < PALETTE_COUNT,
        forall|i: int| 0 <= i < hits.len() ==> #[trigger] hits[i] < source.leds.len(),
        source.effect.needs_led((now_ms % 0x1_0000_0000) as u32) ==> source.leds.len() > 0,
    ensures
        source.ready(capacity, hits, now_ms),
{
    lemma_hits_need_no_led(source, capacity, hits, now_ms, hits.len() as int);
}

proof fn lemma_hits_need_no_led(
    source: SourceModel,
    capacity: nat,
    hits: Seq<u8>,
    now_ms: u64,
    n: int,
)
    ensures
        forall|now: u32|
            #[trigger] source.hit(capacity, hits, now_ms, n).needs_led(now)
                == source.effect.needs_led(now),
    decreases n,
{
    if n > 0 {
        lemma_hits_need_no_led(source, capacity, hits, now_ms, n - 1);
        assert forall|now: u32| #[trigger]
            source.hit(capacity, hits, now_ms, n).needs_led(now) == source.effect.needs_led(
                now,
            ) by {
            assert(source.hit(capacity, hits, now_ms, n - 1).needs_led(now)
                == source.effect.needs_led(now));
        }
    }
}

/// Light keys and selections keep the invariant: there is always a brightness
/// to restore.
pub proof fn law_a_brightness_is_always_remembered(
    source: SourceModel,
    capacity: nat,
    action: LightAction,
    state: ExtensionState,
)
    requires
        source.wf(),
    ensures
        source.acted(capacity, action).last_nonzero_val > 0,
        source.selected(capacity, state).last_nonzero_val > 0,
{
}

/// Parameters survive switching: no light key and no selection changes the
/// table, and a switch to Rain hands it the stored values.
pub proof fn law_parameters_survive_switching(
    source: SourceModel,
    capacity: nat,
    action: LightAction,
    state: ExtensionState,
)
    requires
        source.wf(),
        SourceModel::selectable(state),
    ensures
        source.acted(capacity, action).rain_params == source.rain_params,
        source.selected(capacity, state).rain_params == source.rain_params,
        source.selected(capacity, state).effect matches EffectModel::Rain(m, _) ==> m.params
            == source.rain_params[RAIN_ROW as int],
{
}

/// A parameter that was set reads back, from the table and, while Rain runs,
/// from the running effect; every other parameter keeps its value.
pub proof fn law_parameter_sets_read_back(source: SourceModel, index: u8, value: u8, other: int)
    requires
        source.wf(),
        RainParams::accepts(index as int, value),
        0 <= other < RainParams::COUNT,
        other != index,
    ensures
        ({
            let after = source.retuned(RAIN_ROW as u8, index, value);
            &&& after.rain_params[RAIN_ROW as int].param(index as int) == value
            &&& after.rain_params[RAIN_ROW as int].param(other) == source.rain_params[RAIN_ROW as int].param(other)
            &&& after.effect matches EffectModel::Rain(m, _) ==> m.params == after.rain_params[RAIN_ROW as int]
        }),
{
}

/// Sending the selection that is already active again changes nothing of the
/// animation.
pub proof fn law_reselecting_keeps_the_animation(
    source: SourceModel,
    capacity: nat,
    state: ExtensionState,
)
    requires
        state.effect == source.effect.index(),
    ensures
        source.selected(capacity, state).effect == source.effect,
        source.selected(capacity, state).frame == source.frame,
{
}

/// A selection that was set reads back.
pub proof fn law_selections_read_back(source: SourceModel, capacity: nat, state: ExtensionState)
    requires
        SourceModel::selectable(state),
    ensures
        source.selected(capacity, state).selection() == state,
{
}

/// An effect that does not exist boots Flow; any other boots as configured.
pub proof fn law_boot_effect(
    capacity: nat,
    lights: nat,
    leds: Seq<(u8, u8)>,
    config: PaletteFxConfig,
)
    ensures
        SourceModel::fresh(capacity, lights, leds, config).effect.index() == (
        if config.initial_effect < EFFECT_COUNT {
            config.initial_effect
        } else {
            Effect::<1>::FLOW_INDEX
        }),
{
}

/// A record none of whose values is within its bounds restores the defaults.
pub proof fn law_an_invalid_record_restores_nothing(params: RainParams, values: Seq<u8>, n: int)
    requires
        forall|k: int| 0 <= k < n ==> !RainParams::accepts(k, #[trigger] values[k]),
    ensures
        restored(params, values, n) == params,
    decreases n,
{
    if n > 0 {
        law_an_invalid_record_restores_nothing(params, values, n - 1);
        assert(!RainParams::accepts(n - 1, values[n - 1]));
    }
}

/// Dimming stops at the configured floor, and brightening at full.
pub proof fn law_brightness_stays_in_range(source: SourceModel, capacity: nat)
    ensures
        source.acted(capacity, LightAction::RgbVad).val >= source.config.min_val,
        source.acted(capacity, LightAction::RgbVai).val >= source.val,
        source.acted(capacity, LightAction::RgbSpi).speed >= source.speed,
        source.acted(capacity, LightAction::RgbSpd).speed <= source.speed,
{
}

/// The two palette keys undo each other, and always select a palette that
/// exists.
pub proof fn law_palette_keys_cancel(source: SourceModel, capacity: nat)
    requires
        source.palette_idx < PALETTE_COUNT,
    ensures
        ({
            let (up, down) = (LightAction::RgbHui, LightAction::RgbHud);
            &&& source.acted(capacity, up).acted(capacity, down) == source
            &&& source.acted(capacity, down).acted(capacity, up) == source
            &&& source.acted(capacity, up).palette_idx < PALETTE_COUNT
            &&& source.acted(capacity, down).palette_idx < PALETTE_COUNT
        }),
{
}

/// The two mode keys undo each other's choice of effect.
pub proof fn law_mode_keys_cancel(source: SourceModel, capacity: nat)
    ensures
        ({
            let (next, previous) = (LightAction::RgbModeForward, LightAction::RgbModeReverse);
            let index = source.effect.index();
            &&& source.acted(capacity, next).acted(capacity, previous).effect.index() == index
            &&& source.acted(capacity, previous).acted(capacity, next).effect.index() == index
        }),
{
}

/// A queue holds at most as many hits as it was sized for.
pub proof fn law_the_queue_is_bounded<const HITS: usize>(queue: HitQueue<HITS>)
    requires
        queue.wf(),
    ensures
        queue@.len() <= HITS,
{
}

/// A source that is toggled off renders a dark frame.
pub proof fn law_a_source_that_is_off_is_dark(
    source: SourceModel,
    capacity: nat,
    hits: Seq<u8>,
    now_ms: u64,
    i: int,
)
    requires
        source.val == 0,
        0 <= i < source.leds.len(),
        i < source.frame.len(),
    ensures
        source.ticked(capacity, hits, now_ms).frame[i].v == 0,
{
    cycle::law_no_brightness_is_dark(
        source.ticked(capacity, hits, now_ms).effect,
        source.frame_params(now_ms),
        source.leds,
        source.frame,
        i,
    );
}

/// Every pending hit is recorded, in order: after one more hit the effect is
/// what a press of that LED's key at the tick's time makes of the effect before
/// it.
pub proof fn law_every_hit_is_recorded(
    source: SourceModel,
    capacity: nat,
    hits: Seq<u8>,
    now_ms: u64,
    n: int,
)
    requires
        0 <= n < hits.len(),
    ensures
        source.hit(capacity, hits, now_ms, 0) == source.effect,
        source.hit(capacity, hits, now_ms, n + 1) == source.hit(
            capacity,
            hits,
            now_ms,
            n,
        ).pressed(
            capacity,
            source.leds,
            hits[n] as usize,
            (now_ms % 0x1_0000_0000) as u32,
        ),
{
}

/// Hits drained in one go or in two leave the same effect: none is lost where
/// they are split.
pub proof fn law_hits_drain_in_any_batches(
    source: SourceModel,
    capacity: nat,
    early: Seq<u8>,
    late: Seq<u8>,
    now_ms: u64,
)
    ensures
        ({
            let halfway = SourceModel {
                effect: source.hit(capacity, early, now_ms, early.len() as int),
                ..source
            };
            source.hit(capacity, early + late, now_ms, (early + late).len() as int)
                == halfway.hit(capacity, late, now_ms, late.len() as int)
        }),
{
    lemma_first_batch(source, capacity, early, late, now_ms, early.len() as int);
    lemma_second_batch(source, capacity, early, late, now_ms, late.len() as int);
}

proof fn lemma_first_batch(
    source: SourceModel,
    capacity: nat,
    early: Seq<u8>,
    late: Seq<u8>,
    now_ms: u64,
    n: int,
)
    requires
        n <= early.len(),
    ensures
        source.hit(capacity, early + late, now_ms, n) == source.hit(capacity, early, now_ms, n),
    decreases n,
{
    if n > 0 {
        lemma_first_batch(source, capacity, early, late, now_ms, n - 1);
    }
}

proof fn lemma_second_batch(
    source: SourceModel,
    capacity: nat,
    early: Seq<u8>,
    late: Seq<u8>,
    now_ms: u64,
    n: int,
)
    requires
        0 <= n <= late.len(),
    ensures
        ({
            let halfway = SourceModel {
                effect: source.hit(capacity, early, now_ms, early.len() as int),
                ..source
            };
            source.hit(capacity, early + late, now_ms, early.len() + n) == halfway.hit(
                capacity,
                late,
                now_ms,
                n,
            )
        }),
    decreases n,
{
    if n > 0 {
        lemma_second_batch(source, capacity, early, late, now_ms, n - 1);
        assert((early + late)[early.len() + n - 1] == late[n - 1]);
    } else {
        lemma_first_batch(source, capacity, early, late, now_ms, early.len() as int);
    }
}

/// How far an effect has stepped through the palette, if it has room for
/// presses in colors of their own.
pub open spec fn stepped(effect: EffectModel) -> Option<int> {
    match effect {
        EffectModel::Tracer(m) => if 0 <= m.next < m.segments.len() {
            Some(m.color_step as int)
        } else {
            None
        },
        EffectModel::Keyfall(m) => if 0 <= m.next < m.hits.len() {
            Some(m.color_step as int)
        } else {
            None
        },
        EffectModel::Shockwave(m) => if 0 <= m.next < m.hits.len() {
            Some(m.color_step as int)
        } else {
            None
        },
        EffectModel::Comet(m) => Some(m.color_step as int),
        _ => None,
    }
}

/// Each hit moves the color on: after `n` of them the effects that step through
/// the palette are `n` steps of 29 further.
pub proof fn law_every_hit_steps_the_color(
    source: SourceModel,
    capacity: nat,
    hits: Seq<u8>,
    now_ms: u64,
    n: int,
)
    requires
        0 <= n <= hits.len(),
        capacity > 0,
    ensures
        stepped(source.effect) matches Some(step) ==> stepped(
            source.hit(capacity, hits, now_ms, n),
        ) == Some((step + 29 * n) % 256),
    decreases n,
{
    if n > 0 {
        law_every_hit_steps_the_color(source, capacity, hits, now_ms, n - 1);
        let before = source.hit(capacity, hits, now_ms, n - 1);
        let now = (now_ms % 0x1_0000_0000) as u32;
        lemma_one_step(before, capacity, source.leds, hits[n - 1] as usize, now);
        if let Some(step) = stepped(source.effect) {
            lemma_steps(step, n);
        }
    } else {
        assert(source.hit(capacity, hits, now_ms, n) == source.effect);
        if let Some(step) = stepped(source.effect) {
            assert((step + 29 * 0) % 256 == step);
        }
    }
}

proof fn lemma_steps(step: int, n: int)
    ensures
        ((step + 29 * (n - 1)) % 256 + 29) % 256 == (step + 29 * n) % 256,
{
}

proof fn lemma_one_step(
    effect: EffectModel,
    capacity: nat,
    leds: Seq<(u8, u8)>,
    led_idx: usize,
    now: u32,
)
    requires
        capacity > 0,
    ensures
        stepped(effect) matches Some(step) ==> stepped(
            effect.pressed(capacity, leds, led_idx, now),
        ) == Some((step + 29) % 256),
{
    let after = effect.pressed(capacity, leds, led_idx, now);
    let (x, y) = leds[led_idx as int];
    match effect {
        EffectModel::Tracer(m) => {
            assert(after == EffectModel::Tracer(m.pressed(x, y, now)));
        },
        EffectModel::Keyfall(m) => {
            assert(after == EffectModel::Keyfall(m.pressed(leds, x, y, now)));
        },
        EffectModel::Shockwave(m) => {
            assert(after == EffectModel::Shockwave(m.pressed(leds, x, y, now)));
        },
        EffectModel::Comet(m) => {
            assert(after == EffectModel::Comet(m.pressed(capacity as int, x, y, now)));
        },
        _ => {},
    }
}

/// All pending hits start their rings: a Shockwave with room for them holds,
/// once they are drained, one lit ring for each, around its own key, stamped
/// with the tick's time, in consecutive slots from the one to be written next.
pub proof fn law_every_hit_starts_its_ring(
    source: SourceModel,
    capacity: nat,
    hits: Seq<u8>,
    now_ms: u64,
    n: int,
    i: int,
)
    requires
        source.effect matches EffectModel::Shockwave(m) && 0 <= m.next < m.hits.len() && n
            <= m.hits.len(),
        0 <= i < n <= hits.len(),
    ensures
        ({
            let before = source.effect->Shockwave_0;
            let after = source.hit(capacity, hits, now_ms, n);
            let size = before.hits.len() as int;
            let slot = if before.next + i < size {
                before.next + i
            } else {
                before.next + i - size
            };
            let at = source.leds[hits[i] as int];
            &&& after matches EffectModel::Shockwave(m)
            &&& m.hits.len() == size
            &&& m.hits[slot].active
            &&& (m.hits[slot].x, m.hits[slot].y) == (at.0, at.1)
            &&& m.hits[slot].spawn_ms == now_ms % 0x1_0000_0000
            &&& m.next == if before.next + n < size {
                before.next + n
            } else {
                before.next + n - size
            }
        }),
    decreases n,
{
    let before = source.effect->Shockwave_0;
    if n > 1 {
        law_every_hit_starts_its_ring(
            source,
            capacity,
            hits,
            now_ms,
            n - 1,
            if i < n - 1 {
                i
            } else {
                0
            },
        );
    } else {
        assert(source.hit(capacity, hits, now_ms, 0) == source.effect);
    }
}

/// All pending hits glow: a Reactive with room for them holds, once they are
/// drained, each press at its own key and the tick's time, in consecutive slots
/// from the one to be written next.
pub proof fn law_every_hit_glows(
    source: SourceModel,
    capacity: nat,
    hits: Seq<u8>,
    now_ms: u64,
    n: int,
    i: int,
)
    requires
        source.effect matches EffectModel::Reactive(m) && 0 <= m.next < m.hits.len() && n
            <= m.hits.len(),
        0 <= i < n <= hits.len(),
    ensures
        ({
            let before = source.effect->Reactive_0;
            let after = source.hit(capacity, hits, now_ms, n);
            let size = before.hits.len() as int;
            let slot = if before.next + i < size {
                before.next + i
            } else {
                before.next + i - size
            };
            let at = source.leds[hits[i] as int];
            &&& after matches EffectModel::Reactive(m)
            &&& m.hits.len() == size
            &&& m.hits[slot].active
            &&& (m.hits[slot].x, m.hits[slot].y) == (at.0, at.1)
            &&& m.hits[slot].spawn_ms == now_ms % 0x1_0000_0000
            &&& m.next == if before.next + n < size {
                before.next + n
            } else {
                before.next + n - size
            }
        }),
    decreases n,
{
    if n > 1 {
        law_every_hit_glows(
            source,
            capacity,
            hits,
            now_ms,
            n - 1,
            if i < n - 1 {
                i
            } else {
                0
            },
        );
    } else {
        assert(source.hit(capacity, hits, now_ms, 0) == source.effect);
    }
}

/// All pending hits are crossed: a Crosshair remembers, once they are drained,
/// the last of them first, each with its LED, its place and the tick's time.
pub proof fn law_every_hit_is_crossed(
    source: SourceModel,
    capacity: nat,
    hits: Seq<u8>,
    now_ms: u64,
    n: int,
    i: int,
)
    requires
        source.effect is Crosshair,
        n <= source.effect->Crosshair_0.hits.len(),
        0 <= i < n <= hits.len(),
    ensures
        ({
            let before = source.effect->Crosshair_0;
            let at = source.leds[hits[i] as int];
            &&& source.hit(capacity, hits, now_ms, n) matches EffectModel::Crosshair(m)
            &&& m.hits.len() == before.hits.len()
            &&& m.hits[n - 1 - i].active
            &&& m.hits[n - 1 - i].led_idx == hits[i]
            &&& (m.hits[n - 1 - i].x, m.hits[n - 1 - i].y) == (at.0, at.1)
            &&& m.hits[n - 1 - i].spawn_ms == now_ms % 0x1_0000_0000
        }),
    decreases n,
{
    if n > 1 {
        law_every_hit_is_crossed(
            source,
            capacity,
            hits,
            now_ms,
            n - 1,
            if i < n - 1 {
                i
            } else {
                0
            },
        );
        let earlier = source.hit(capacity, hits, now_ms, n - 1)->Crosshair_0;
        let latest = source.hit(capacity, hits, now_ms, n)->Crosshair_0;
        if i < n - 1 {
            assert(latest.hits[n - 2 - i + 1] == earlier.hits[n - 2 - i]);
        }
    } else {
        assert(source.hit(capacity, hits, now_ms, 0) == source.effect);
    }
}

/// A tick renders what all pending hits have made of the effect, with the
/// selected palette, speed and brightness at full saturation, in the low half
/// of the clock. It changes the effect, the frame and the noted time, and
/// nothing of the selection.
pub proof fn law_a_tick_renders_the_selection(
    source: SourceModel,
    capacity: nat,
    hits: Seq<u8>,
    now_ms: u64,
)
    ensures
        ({
            let after = source.ticked(capacity, hits, now_ms);
            let params = FrameParams {
                palette: &BUILTIN_PALETTES[source.palette_idx as int],
                speed: source.speed,
                sat: 255,
                val: source.val,
                timer_ms: (now_ms % 0x1_0000_0000) as u32,
            };
            let drawn = if source.leds.len() <= source.frame.len() {
                source.leds.len() as int
            } else {
                source.frame.len() as int
            };
            &&& after.effect == source.hit(
                capacity,
                hits,
                now_ms,
                hits.len() as int,
            ).ticked(params, source.leds, drawn)
            &&& after.frame == after.effect.painted(params, source.leds, source.frame)
            &&& after.last_now_ms == now_ms
            &&& after == (SourceModel {
                effect: after.effect,
                frame: after.frame,
                last_now_ms: now_ms,
                ..source
            })
        }),
{
}

/// Each light key does its one thing. Toggling goes dark and remembers the
/// brightness, or brings it back; the palette keys go round the four palettes;
/// the value keys move by the step, down to the floor and up to full, and what
/// they leave is what toggling restores; the speed keys move by their step
/// between nothing and full; and any other key changes nothing.
pub proof fn law_each_light_key_does_its_one_thing(source: SourceModel, capacity: nat)
    requires
        source.palette_idx < 4,
    ensures
        ({
            let floor = source.config.min_val;
            let toggled = source.acted(capacity, LightAction::RgbTog);
            let up = source.acted(capacity, LightAction::RgbHui);
            let down = source.acted(capacity, LightAction::RgbHud);
            let brighter = source.acted(capacity, LightAction::RgbVai);
            let darker = source.acted(capacity, LightAction::RgbVad);
            let faster = source.acted(capacity, LightAction::RgbSpi);
            let slower = source.acted(capacity, LightAction::RgbSpd);
            &&& source.val == 0 ==> toggled == (SourceModel {
                val: source.last_nonzero_val,
                ..source
            })
            &&& source.val != 0 ==> toggled == (SourceModel {
                val: 0,
                last_nonzero_val: source.val,
                ..source
            })
            &&& up == (SourceModel { palette_idx: up.palette_idx, ..source })
            &&& source.palette_idx < 3 ==> up.palette_idx == source.palette_idx + 1
            &&& source.palette_idx == 3 ==> up.palette_idx == 0
            &&& down == (SourceModel { palette_idx: down.palette_idx, ..source })
            &&& source.palette_idx > 0 ==> down.palette_idx == source.palette_idx - 1
            &&& source.palette_idx == 0 ==> down.palette_idx == 3
            &&& brighter == (SourceModel {
                val: brighter.val,
                last_nonzero_val: brighter.last_nonzero_val,
                ..source
            })
            &&& source.val + source.config.val_step <= 255 ==> brighter.val == source.val
                + source.config.val_step
            &&& source.val + source.config.val_step > 255 ==> brighter.val == 255
            &&& brighter.val >= floor && brighter.val > 0 ==> brighter.last_nonzero_val
                == brighter.val
            &&& brighter.val < floor ==> brighter.last_nonzero_val == floor
            &&& brighter.val == 0 && floor == 0 ==> brighter.last_nonzero_val == 1
            &&& darker == (SourceModel {
                val: darker.val,
                last_nonzero_val: darker.last_nonzero_val,
                ..source
            })
            &&& source.val - source.config.val_step >= floor ==> darker.val == source.val
                - source.config.val_step
            &&& source.val - source.config.val_step < floor ==> darker.val == floor
            &&& darker.val > 0 ==> darker.last_nonzero_val == darker.val
            &&& darker.val == 0 ==> darker.last_nonzero_val == source.last_nonzero_val
            &&& faster == (SourceModel { speed: faster.speed, ..source })
            &&& source.speed + source.config.speed_step <= 255 ==> faster.speed == source.speed
                + source.config.speed_step
            &&& source.speed + source.config.speed_step > 255 ==> faster.speed == 255
            &&& slower == (SourceModel { speed: slower.speed, ..source })
            &&& source.speed >= source.config.speed_step ==> slower.speed == source.speed
                - source.config.speed_step
            &&& source.speed < source.config.speed_step ==> slower.speed == 0
            &&& source.acted(capacity, LightAction::Other) == source
        }),
{
}

/// The mode keys switch to the neighbouring effect, fresh, seeded by the time
/// of the last frame and tuned as the table says. Nothing else changes.
pub proof fn law_the_mode_keys_switch_to_a_fresh_effect(source: SourceModel, capacity: nat)
    ensures
        ({
            let next = source.acted(capacity, LightAction::RgbModeForward);
            let previous = source.acted(capacity, LightAction::RgbModeReverse);
            let index = source.effect.index();
            let seed = 0xDEAD_C0DE_CAFE_F00Du64 ^ source.last_now_ms;
            let after = ((index + 1) % 12) as u8;
            let before = ((index + 11) % 12) as u8;
            let on = EffectModel::fresh(capacity, after, seed)->0;
            let back = EffectModel::fresh(capacity, before, seed)->0;
            &&& next == (SourceModel { effect: next.effect, ..source })
            &&& previous == (SourceModel { effect: previous.effect, ..source })
            &&& next.effect == on.with_rain_params(source.rain_params[after as int])
            &&& previous.effect == back.with_rain_params(source.rain_params[before as int])
        }),
{
}

/// A selection sets effect, palette, brightness and speed, and the brightness
/// that toggling restores unless it is dark. An effect that is not active yet
/// starts fresh, tuned as the table says. Nothing else changes.
pub proof fn law_a_selection_sets_what_it_names(
    source: SourceModel,
    capacity: nat,
    state: ExtensionState,
)
    requires
        state.palette < 4,
        state.effect < 12,
    ensures
        ({
            let after = source.selected(capacity, state);
            let seed = 0xDEAD_C0DE_CAFE_F00Du64 ^ source.last_now_ms;
            let fresh = EffectModel::fresh(capacity, state.effect, seed)->0;
            &&& SourceModel::selectable(state)
            &&& after.palette_idx == state.palette && after.val == state.value && after.speed
                == state.speed
            &&& state.value > 0 ==> after.last_nonzero_val == state.value
            &&& state.value == 0 ==> after.last_nonzero_val == source.last_nonzero_val
            &&& state.effect != source.effect.index() ==> after.effect == fresh.with_rain_params(
                source.rain_params[state.effect as int],
            )
            &&& after == (SourceModel {
                effect: after.effect,
                palette_idx: after.palette_idx,
                val: after.val,
                last_nonzero_val: after.last_nonzero_val,
                speed: after.speed,
                ..source
            })
        }),
        forall|other: ExtensionState|
            #![trigger SourceModel::selectable(other)]
            other.palette >= 4 || other.effect >= 12 ==> !SourceModel::selectable(other),
{
}

/// Setting a parameter changes its row of the table, and the effect where it
/// is the one that is running; every other row, and all else, stays.
pub proof fn law_a_parameter_changes_its_row(
    source: SourceModel,
    effect: u8,
    index: u8,
    value: u8,
    row: int,
)
    requires
        source.rain_params.len() == 12,
        effect < 12,
        0 <= row < 12,
        row != effect,
    ensures
        ({
            let after = source.retuned(effect, index, value);
            let tuned = source.rain_params[effect as int].with_param(index as int, value);
            &&& after.rain_params[effect as int] == tuned
            &&& after.rain_params[row] == source.rain_params[row]
            &&& effect == source.effect.index() ==> after.effect == source.effect.with_rain_params(
                tuned,
            )
            &&& effect != source.effect.index() ==> after.effect == source.effect
            &&& after == (SourceModel {
                effect: after.effect,
                rain_params: after.rain_params,
                ..source
            })
        }),
{
}

/// A source boots as it is configured: dark where it is not enabled, with the
/// configured brightness to restore, or the floor, one at least, where that is
/// none. Every LED is black, every row of the table is at its defaults but for
/// that of a Rain that boots with a record, and the clock starts at 0.
pub proof fn law_a_source_boots_as_configured(
    capacity: nat,
    lights: nat,
    leds: Seq<(u8, u8)>,
    config: PaletteFxConfig,
    i: int,
    row: int,
)
    requires
        0 <= row < 12,
    ensures
        ({
            let source = SourceModel::fresh(capacity, lights, leds, config);
            let record = if config.initial_param_len < 8 {
                config.initial_param_len as int
            } else {
                8
            };
            &&& source.config == config && source.leds == leds
            &&& config.initial_enabled ==> source.val == config.initial_val
            &&& !config.initial_enabled ==> source.val == 0
            &&& config.initial_val > 0 ==> source.last_nonzero_val == config.initial_val
            &&& config.initial_val == 0 && config.min_val > 0 ==> source.last_nonzero_val
                == config.min_val
            &&& config.initial_val == 0 && config.min_val == 0 ==> source.last_nonzero_val == 1
            &&& source.speed == config.initial_speed && source.palette_idx
                == config.initial_palette
            &&& source.frame.len() == lights
            &&& 0 <= i < lights ==> source.frame[i] == (Hsv { h: 0, s: 0, v: 0 })
            &&& source.last_now_ms == 0
            &&& source.rain_params.len() == 12
            &&& row != 5 || config.initial_effect != 5 ==> source.rain_params[row]
                == rain::rain_defaults()
            &&& config.initial_effect == 5 ==> source.rain_params[5] == restored(
                rain::rain_defaults(),
                config.initial_params@,
                record,
            )
            &&& config.initial_effect < 12 ==> source.effect == EffectModel::fresh(
                capacity,
                config.initial_effect,
                0,
            )->0.with_rain_params(source.rain_params[config.initial_effect as int])
            &&& config.initial_effect >= 12 ==> source.effect == EffectModel::fresh(
                capacity,
                1,
                0,
            )->0
        }),
{
}

/// A restored record sets each parameter it holds a valid value for, and
/// leaves every other one as it was.
pub proof fn law_a_record_restores_what_is_valid(
    params: RainParams,
    values: Seq<u8>,
    n: int,
    k: int,
)
    requires
        0 <= k < 5,
        0 <= n,
    ensures
        k < n && RainParams::accepts(k, values[k]) ==> restored(params, values, n).param(k)
            == values[k],
        k >= n || !RainParams::accepts(k, values[k]) ==> restored(params, values, n).param(k)
            == params.param(k),
    decreases n,
{
    if n > 0 {
        law_a_record_restores_what_is_valid(params, values, n - 1, k);
    }
}

/// The bounds of an axis are its own: no position lies outside them, and each
/// is a position's.
pub proof fn law_an_axis_is_bounded_by_its_positions(values: Seq<int>, n: int, k: int)
    requires
        0 <= k < n <= values.len(),
        forall|i: int| 0 <= i < values.len() ==> i32::MIN <= #[trigger] values[i] <= i32::MAX,
    ensures
        lowest(values, n) <= values[k] <= highest(values, n),
        exists|i: int| 0 <= i < n && #[trigger] values[i] == lowest(values, n),
        exists|i: int| 0 <= i < n && #[trigger] values[i] == highest(values, n),
    decreases n,
{
    lemma_bounds(values, n, k);
    assert(i32::MIN <= values[n - 1] <= i32::MAX);
    if n > 1 {
        law_an_axis_is_bounded_by_its_positions(
            values,
            n - 1,
            if k < n - 1 {
                k
            } else {
                0
            },
        );
        if lowest(values, n) != values[n - 1] {
            let i = choose|i: int|
                0 <= i < n - 1 && #[trigger] values[i] == lowest(values, n - 1);
            assert(values[i] == lowest(values, n));
        }
        if highest(values, n) != values[n - 1] {
            let i = choose|i: int|
                0 <= i < n - 1 && #[trigger] values[i] == highest(values, n - 1);
            assert(values[i] == highest(values, n));
        }
    } else {
        assert(lowest(values, 0) == i32::MAX && highest(values, 0) == i32::MIN);
        assert(values[0] == lowest(values, 1) && values[0] == highest(values, 1));
    }
}

/// The grid is in proportion to the board: a position is as many 255ths of the
/// wider axis's extent from the left, and from the top, rounded down. A slot
/// without a place sits at the origin.
pub proof fn law_the_grid_is_in_proportion(positions: Seq<Option<(i32, i32)>>, i: int)
    requires
        0 <= i < positions.len(),
    ensures
        ({
            let n = positions.len() as int;
            let (xs, ys) = (axis(positions, false), axis(positions, true));
            let (wide, tall) = (
                highest(xs, n) - lowest(xs, n),
                highest(ys, n) - lowest(ys, n),
            );
            let size = extent(positions);
            let (x, y) = normalized(positions)[i];
            &&& size >= wide && size >= tall && size >= 1
            &&& size == wide || size == tall || size == 1
            &&& x * size <= (xs[i] - lowest(xs, n)) * 255 < x * size + size
            &&& y * size <= (ys[i] - lowest(ys, n)) * 255 < y * size + size
            &&& positions[i] matches Some((px, py)) ==> xs[i] == px && ys[i] == py
            &&& positions[i] is None ==> xs[i] == 0 && ys[i] == 0
            &&& normalized(positions).len() == n && xs.len() == n && ys.len() == n
        }),
{
    let (xs, ys) = (axis(positions, false), axis(positions, true));
    let n = positions.len() as int;
    let size = extent(positions);
    law_the_grid_spans_the_board(positions, i, i, false);
    law_the_grid_spans_the_board(positions, i, i, true);
    math::lemma_quotient((xs[i] - lowest(xs, n)) * 255, size);
    math::lemma_quotient((ys[i] - lowest(ys, n)) * 255, size);
}

/// Every key that was pressed since the last frame is lit in this one: with
/// Shockwave running and room for all pending hits, the LED of each wears a
/// color of the palette at the full brightness of the source.
pub proof fn law_every_hit_shows_in_the_frame(
    source: SourceModel,
    capacity: nat,
    hits: Seq<u8>,
    now_ms: u64,
    i: int,
)
    requires
        source.effect matches EffectModel::Shockwave(m) && 0 <= m.next < m.hits.len() && hits.len()
            <= m.hits.len(),
        0 <= i < hits.len(),
        hits[i] < source.leds.len(),
        hits[i] < source.frame.len(),
    ensures
        exists|position: u8|
            source.ticked(capacity, hits, now_ms).frame[hits[i] as int]
                == #[trigger] crate::palette::color_at(
                BUILTIN_PALETTES[source.palette_idx as int]@,
                position,
                255,
                source.val,
            ),
{
    let n = hits.len() as int;
    law_every_hit_starts_its_ring(source, capacity, hits, now_ms, n, i);
    let before = source.effect->Shockwave_0;
    let pressed = source.hit(capacity, hits, now_ms, n)->Shockwave_0;
    let params = source.frame_params(now_ms);
    let after = pressed.ticked(params);
    let size = before.hits.len() as int;
    let slot = if before.next + i < size {
        before.next + i
    } else {
        before.next + i - size
    };
    let led = source.leds[hits[i] as int];
    let ring = after.hits[slot];
    shockwave::law_rings_live_their_time(pressed, params, slot);
    shockwave::law_rings_live_their_time(after, params, slot);
    crate::effects::law_lifetimes_shrink_with_speed(900, params.speed);
    crate::effects::law_shares_follow_the_clock(
        0,
        0,
        crate::effects::lifetime(900, params.speed),
    );
    assert(math::ticks_since(params.timer_ms, pressed.hits[slot].spawn_ms) == 0);
    assert(after.live(params, slot) && after.share(params, slot) == 0);
    assert((ring.x, ring.y) == (led.0, led.1));
    shockwave::law_a_ring_starts_on_the_key(ring);
    assert(shockwave::wave_light(ring, led, 0) == 255);
    shockwave::law_the_strongest_ring_shows(after, params, led, size, slot);
    let (light, position) = after.strongest(params, led, size);
    shockwave::law_light_is_a_byte(after, params, led, size);
    assert(light == 255);
    math::law_scale255_endpoints(source.val as int);
    assert(source.ticked(capacity, hits, now_ms).effect == EffectModel::Shockwave(after));
    assert(source.ticked(capacity, hits, now_ms).frame[hits[i] as int]
        == crate::palette::color_at(
        BUILTIN_PALETTES[source.palette_idx as int]@,
        position,
        255,
        source.val,
    ));
}

/// What is advertised of a rain parameter is what is accepted: its name, its
/// bounds and its default are those of the parameter itself.
pub proof fn law_advertised_bounds_are_enforced(spec: ExtensionParamSpec, index: int, value: u8)
    requires
        0 <= index < 5,
        rain_spec(spec, index),
    ensures
        RainParams::accepts(index, value) <==> spec.min <= value <= spec.max,
        spec.name == RainParams::NAMES[index],
        spec.default == rain::rain_defaults().param(index),
        spec.min <= spec.default <= spec.max,
{
}

} // verus!
