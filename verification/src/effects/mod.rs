//! The effects. Each writes one [`Hsv`](crate::color::Hsv) per LED into the
//! caller's frame buffer.
use vstd::prelude::*;

use crate::color::Hsv;
use crate::math;
use crate::palette::Palette;

pub mod comet;
pub mod crosshair;
pub mod cycle;
pub mod flow;
pub mod gradient;
pub mod keyfall;
pub mod phase;
pub mod rain;
pub mod reactive;
pub mod ripple;
pub mod shockwave;
pub mod sparkle;
pub mod tracer;
pub mod vortex;

pub use crate::bytes::Pcg32;
pub use comet::{CometParams, CometState};
pub use crosshair::{CrosshairMotion, CrosshairParams, CrosshairState};
pub use cycle::{Effect, EffectStack};
pub use flow::FlowState;
pub use gradient::gradient;
pub use keyfall::{KeyfallGravity, KeyfallParams, KeyfallState};
pub use rain::{RainParams, RainState};
pub use reactive::{Hit, ReactiveState};
pub use ripple::RippleState;
pub use shockwave::ShockwaveState;
pub use sparkle::SparkleState;
pub use tracer::TracerState;
pub use vortex::VortexState;

verus! {

/// Parameters shared by every effect.
#[derive(Copy, Clone, Debug)]
pub struct FrameParams<'p> {
    pub palette: &'p Palette,
    /// 0..=255; 128 is every effect's nominal pace.
    pub speed: u8,
    /// Global saturation scale. 255 leaves the palette unmodified.
    pub sat: u8,
    /// Global brightness scale. 255 is full brightness.
    pub val: u8,
    /// Millisecond counter, wrapping every ~49 days. Normally monotonic, but
    /// a renderer that shares an animation clock with another node re-anchors
    /// to it, so this can step backward. Effects that carry timestamps between
    /// frames cope with that; see [`clock_rewound`].
    pub timer_ms: u32,
}

/// A backward step larger than this is a re-anchored clock rather than
/// transport jitter.
pub const CLOCK_REWIND_MS: u32 = 2_000;

/// Whether going from `last_ms` to `now_ms` stepped backward by more than
/// jitter. Half of the counter's range counts as forward, so an ordinary wrap
/// is no rewind.
pub open spec fn rewound(last_ms: u32, now_ms: u32) -> bool {
    CLOCK_REWIND_MS < math::ticks_since(last_ms, now_ms) < 0x7fff_ffff
}

/// Whether the animation clock jumped backward between `last_ms` and `now_ms`
/// by enough to invalidate timestamps taken against it.
pub fn clock_rewound(last_ms: u32, now_ms: u32) -> (r: bool)
    ensures
        r == rewound(last_ms, now_ms),
{
    let back: u32 = last_ms.wrapping_sub(now_ms);
    back > CLOCK_REWIND_MS && back < u32::MAX / 2
}

/// The clock `age` milliseconds before `now`.
pub open spec fn before(now: u32, age: int) -> u32 {
    ((now - age) % 0x1_0000_0000) as u32
}

/// The clock `delay` milliseconds after `then`.
pub open spec fn after(then: u32, delay: int) -> u32 {
    ((then + delay) % 0x1_0000_0000) as u32
}

/// Whether a deadline has been reached; half of the clock's range counts as
/// the past.
pub open spec fn is_due(deadline: u32, now: u32) -> bool {
    math::ticks_since(now, deadline) < 0x7fff_ffff
}

/// See [`is_due`].
pub fn due(deadline: u32, now: u32) -> (r: bool)
    ensures
        r == is_due(deadline, now),
{
    now.wrapping_sub(deadline) < u32::MAX / 2
}

/// Palette position of a key press at `(x, y)`: every press moves on by the
/// effect's color step.
pub open spec fn key_color(x: u8, y: u8, step: u8) -> u8 {
    ((x + y as int / 2 + step) % 256) as u8
}

/// See [`key_color`].
pub fn press_color(x: u8, y: u8, step: u8) -> (position: u8)
    ensures
        position == key_color(x, y, step),
{
    ((x as u32 + y as u32 / 2 + step as u32) % 256) as u8
}

/// A memory of the `capacity` newest items, newest first, after `item`.
pub open spec fn remembered<T>(items: Seq<T>, item: T, capacity: int) -> Seq<T> {
    (seq![item] + items).take(math::smaller(items.len() as int + 1, capacity))
}

/// Slot of a ring of `n` that holds the item recorded `back` items before the
/// newest, when `next` is the slot to be written next.
pub open spec fn ring_slot(next: int, back: int, n: int) -> int {
    if next > back {
        next - 1 - back
    } else {
        next + n - 1 - back
    }
}

/// The slot after `slot` in a ring of `n`.
pub open spec fn ring_next(slot: int, n: int) -> int {
    if slot + 1 < n {
        slot + 1
    } else {
        0
    }
}

/// See [`ring_next`].
pub fn next_slot(slot: usize, n: usize) -> (r: usize)
    requires
        slot < n,
    ensures
        r == ring_next(slot as int, n as int),
        r < n,
{
    if slot + 1 < n {
        slot + 1
    } else {
        0
    }
}

/// A lifetime of `base` milliseconds under the shared speed control: 128
/// preserves it, and the range runs from half as long again at 0 to about
/// half at 255.
pub open spec fn lifetime(base: int, speed: u8) -> int {
    math::larger(base * (384 - speed) / 256, 1)
}

/// See [`lifetime`].
pub fn lifetime_ms(base: u32, speed: u8) -> (ms: u32)
    requires
        base <= 10_000,
    ensures
        ms == lifetime(base as int, speed),
        1 <= ms <= 15_000,
{
    proof {
        math::lemma_product_bound(base as int, 10_000, 384 - speed as int, 384);
    }
    let ms: u32 = base * (384 - speed as u32) / 256;
    if ms < 1 {
        1
    } else {
        ms
    }
}

/// Share of a lifetime of `span` that is over after `elapsed`, out of 255.
pub open spec fn share(elapsed: int, span: int) -> int {
    elapsed * 255 / span
}

/// See [`share`].
pub fn progress(elapsed: u32, span: u32) -> (r: u8)
    requires
        elapsed < span,
    ensures
        r == share(elapsed as int, span as int),
        r < 255,
{
    assert(0 <= elapsed * 255 / (span as int) < 255) by (nonlinear_arith)
        requires
            0 <= elapsed < span,
    ;
    (elapsed as u64 * 255 / span as u64) as u8
}

/// Writes `color` into every pixel.
pub fn fill(out: &mut [Hsv], color: Hsv)
    ensures
        final(out)@ == Seq::new(old(out)@.len(), |i: int| color),
{
    let len: usize = out.len();
    let mut i: usize = 0;
    while i < len
        invariant
            i <= len,
            len == out@.len(),
            len == old(out)@.len(),
            forall|j: int| 0 <= j < i ==> out@[j] == color,
        decreases len - i,
    {
        out[i] = color;
        i += 1;
    }
    assert(out@ =~= Seq::new(old(out)@.len(), |i: int| color));
}

/// Advancing the clock by less than half its range is no rewind, also across
/// the wrap.
pub proof fn law_advancing_is_no_rewind(last_ms: u32, step: int)
    requires
        0 <= step <= 0x8000_0000,
    ensures
        !rewound(last_ms, ((last_ms + step) % 0x1_0000_0000) as u32),
{
}

/// Stepping the clock back is a rewind exactly when the step exceeds the
/// jitter allowance, as long as it stays under half the counter's range.
pub proof fn law_stepping_back_is_a_rewind(last_ms: u32, step: int)
    requires
        0 <= step < 0x7fff_ffff,
    ensures
        rewound(last_ms, ((last_ms - step) % 0x1_0000_0000) as u32) <==> step > CLOCK_REWIND_MS,
{
}

/// Speed 128 keeps a lifetime as it is, and a higher speed never lengthens
/// it.
pub proof fn law_speed_paces_a_lifetime(base: int, speed: u8, faster: u8)
    requires
        1 <= base,
        speed <= faster,
    ensures
        lifetime(base, 128) == base,
        lifetime(base, faster) <= lifetime(base, speed),
{
    assert(base * 256 / 256 == base);
    assert(base * (384 - faster) <= base * (384 - speed)) by (nonlinear_arith)
        requires
            1 <= base,
            speed <= faster,
    ;
}

/// A memory keeps the newest items in their order: the newest is first, and
/// everything else moves back by one until it falls off the end.
pub proof fn law_memory_keeps_the_newest<T>(items: Seq<T>, item: T, capacity: int)
    requires
        1 <= capacity,
        items.len() <= capacity,
    ensures
        remembered(items, item, capacity)[0] == item,
        remembered(items, item, capacity).len() == math::smaller(items.len() as int + 1, capacity),
        forall|k: int|
            0 <= k < items.len() && k + 1 < capacity ==> remembered(items, item, capacity)[k + 1]
                == #[trigger] items[k],
{
}

/// Deadlines and ages are told on the same clock: a deadline set `ms` ahead is
/// reached `ms` later, and the time `ms` ago is `ms` ago.
pub proof fn law_deadlines_lie_ahead(now: u32, ms: int)
    requires
        0 <= ms < 0x1_0000_0000,
    ensures
        math::ticks_since(after(now, ms), now) == ms,
        math::ticks_since(now, before(now, ms)) == ms,
        before(after(now, ms), ms) == now,
{
}

/// A deadline is due from its own time on, for half of the clock's range.
pub proof fn law_a_deadline_falls_due(deadline: u32, ms: int)
    requires
        0 <= ms < 0x1_0000_0000,
    ensures
        is_due(deadline, after(deadline, ms)) <==> ms < 0x7fff_ffff,
{
}

/// A clock was rewound when it stepped back by more than two seconds and less
/// than half of its range.
pub proof fn law_two_seconds_back_is_a_rewind(last_ms: u32, ms: int)
    requires
        0 <= ms < 0x1_0000_0000,
    ensures
        rewound(last_ms, before(last_ms, ms)) <==> 2_000 < ms < 0x7fff_ffff,
{
}

/// A press wears the color of its place on the board, one palette step for
/// each step to the right and for every two steps down, and moves on with the
/// effect's color step.
pub proof fn law_press_colors_follow_the_board(x: u8, y: u8, step: u8)
    ensures
        (x + y as int / 2 + step - key_color(x, y, step)) % 256 == 0,
        x < 255 ==> key_color((x + 1) as u8, y, step) == math::byte_sum(
            key_color(x, y, step) as int,
            1,
        ),
        y < 254 ==> key_color(x, (y + 2) as u8, step) == math::byte_sum(
            key_color(x, y, step) as int,
            1,
        ),
        key_color(x, y, math::byte_sum(step as int, 29)) == math::byte_sum(
            key_color(x, y, step) as int,
            29,
        ),
{
    let place = x + y as int / 2;
    lemma_turns(place + step, 1);
    lemma_turns(place + step, 29);
    lemma_turns(step as int + 29, place);
    assert((y + 2) as int / 2 == y as int / 2 + 1);
}

/// Whole turns of 256 do not matter to what comes after them.
proof fn lemma_turns(a: int, b: int)
    ensures
        (a % 256 + b) % 256 == (a + b) % 256,
        (a - a % 256) % 256 == 0,
{
}

/// A ring is walked slot by slot and starts over at its end, and counting back
/// from the slot to be written next finds the slots in the opposite order.
pub proof fn law_a_ring_goes_round(slot: int, back: int, n: int)
    requires
        0 <= slot < n,
        0 <= back < n,
    ensures
        0 <= ring_next(slot, n) < n,
        ring_next(slot, n) == slot + 1 || slot + 1 == n && ring_next(slot, n) == 0,
        0 <= ring_slot(slot, back, n) < n,
        ring_slot(slot, back, n) + 1 + back == slot || ring_slot(slot, back, n) + 1 + back == slot
            + n,
        ring_slot(ring_next(slot, n), 0, n) == slot,
{
}

/// A lifetime keeps `384 - speed` parts out of 256 of its nominal length,
/// rounded down, and is never shorter than a millisecond.
pub proof fn law_lifetimes_shrink_with_speed(base: int, speed: u8)
    requires
        1 <= base,
    ensures
        1 <= lifetime(base, speed),
        base * (384 - speed) >= 256 ==> 256 * lifetime(base, speed) <= base * (384 - speed) < 256
            * lifetime(base, speed) + 256,
        base * (384 - speed) < 256 ==> lifetime(base, speed) == 1,
{
}

/// The share of a lifetime that is over starts at 0, never falls, stays below
/// 255 until the end, and is in proportion to the time that has passed.
pub proof fn law_shares_follow_the_clock(elapsed: int, later: int, span: int)
    requires
        0 <= elapsed <= later < span,
    ensures
        share(0, span) == 0,
        0 <= share(elapsed, span) <= share(later, span) < 255,
        share(elapsed, span) * span <= elapsed * 255 < share(elapsed, span) * span + span,
{
    math::lemma_quotient(elapsed * 255, span);
    math::lemma_quotient(later * 255, span);
    math::lemma_quotient_is(0, span, 0);
    let (a, b) = (share(elapsed, span), share(later, span));
    assert(0 <= a <= b < 255) by (nonlinear_arith)
        requires
            0 <= elapsed <= later < span,
            a * span <= elapsed * 255 < a * span + span,
            b * span <= later * 255 < b * span + span,
    ;
}

} // verus!
