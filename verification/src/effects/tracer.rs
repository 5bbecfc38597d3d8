//! TRACER: fading nodes and segments that connect consecutive key presses.
use vstd::prelude::*;

use super::{lifetime_ms, next_slot, press_color, progress, FrameParams};
use crate::color;
use crate::color::Hsv;
use crate::layout::LedLayout;
use crate::math;
use crate::math::{scale255, soft_edge, sqrt16};
use crate::palette;
use crate::palette::interp_color;

verus! {

/// Lifetime of a segment at the nominal pace.
pub const BASE_DURATION_MS: u32 = 850;

/// Longest pause between two presses that are still connected.
pub const MAX_CONNECT_GAP_MS: u32 = 700;

/// Half-width of a line.
pub const LINE_HALF_WIDTH: u8 = 4;

/// Radius of a node.
pub const NODE_RADIUS: u8 = 6;

/// Brightness of a line, between nodes at full brightness.
pub const LINE_PEAK: u8 = 184;

/// One segment of the typing path. A disconnected press is a segment of no
/// length, so that the first key still appears as a node.
#[derive(Copy, Clone, Debug, PartialEq, Eq, Structural)]
pub struct Segment {
    pub from_x: u8,
    pub from_y: u8,
    pub to_x: u8,
    pub to_y: u8,
    pub spawn_ms: u32,
    pub palette_pos: u8,
    pub active: bool,
}

/// A slot that holds no segment.
pub open spec fn empty_segment() -> Segment {
    Segment {
        from_x: 0,
        from_y: 0,
        to_x: 0,
        to_y: 0,
        spawn_ms: 0,
        palette_pos: 0,
        active: false,
    }
}

/// The press that the next one may be connected to.
#[derive(Copy, Clone, Debug, PartialEq, Eq, Structural)]
pub struct LastHit {
    pub x: u8,
    pub y: u8,
    pub spawn_ms: u32,
}

/// Lifetime of a segment at `speed`.
pub open spec fn span(speed: u8) -> int {
    super::lifetime(BASE_DURATION_MS as int, speed)
}

/// See [`span`].
pub fn duration_ms(speed: u8) -> (ms: u32)
    ensures
        ms == span(speed),
        1 <= ms,
{
    lifetime_ms(BASE_DURATION_MS, speed)
}

/// A position on the half-scale grid that segments are drawn on.
pub open spec fn halved(x: u8, y: u8) -> (int, int) {
    (x as int / 2, y as int / 2)
}

/// Coverage of `p` by a node of `radius` around `c`, on the half-scale grid.
pub open spec fn node(p: (int, int), c: (int, int), radius: int) -> int {
    let dx = math::distance(p.0, c.0);
    let dy = math::distance(p.1, c.1);
    math::edge_falloff(math::root(dx * dx + dy * dy), radius)
}

/// Coverage of `p` by a line of half-width `width` from `a` to `b`, on the
/// half-scale grid. It ends in nodes and reaches beyond neither of them.
pub open spec fn line(p: (int, int), a: (int, int), b: (int, int), width: int) -> int {
    let v = (b.0 - a.0, b.1 - a.1);
    let w = (p.0 - a.0, p.1 - a.1);
    let length = v.0 * v.0 + v.1 * v.1;
    let along = w.0 * v.0 + w.1 * v.1;
    if length == 0 {
        node(p, a, math::larger(width, 1))
    } else if along <= 0 {
        node(p, a, width)
    } else if along >= length {
        node(p, b, width)
    } else {
        let aside = math::distance(w.0 * v.1, w.1 * v.0);
        math::edge_falloff(aside / math::larger(math::root(length), 1), width)
    }
}

/// Coverage of the LED at `led` by a segment: by either of its nodes, or by
/// the dimmer line between them.
pub open spec fn shape(segment: Segment, led: (u8, u8)) -> int {
    let p = halved(led.0, led.1);
    let a = halved(segment.from_x, segment.from_y);
    let b = halved(segment.to_x, segment.to_y);
    math::larger(
        math::larger(node(p, b, NODE_RADIUS as int), node(p, a, NODE_RADIUS as int)),
        math::scaled255(line(p, a, b, LINE_HALF_WIDTH as int), LINE_PEAK as int),
    )
}

proof fn lemma_signed_product(a: int, b: int)
    requires
        -127 <= a <= 127,
        -127 <= b <= 127,
    ensures
        -16129 <= a * b <= 16129,
{
    assert(-16129 <= a * b <= 16129) by (nonlinear_arith)
        requires
            -127 <= a <= 127,
            -127 <= b <= 127,
    ;
}

fn point_coverage_half(x: i32, y: i32, cx: i32, cy: i32, radius: u8) -> (r: u8)
    requires
        0 <= x <= 127,
        0 <= y <= 127,
        0 <= cx <= 127,
        0 <= cy <= 127,
    ensures
        r == node((x as int, y as int), (cx as int, cy as int), radius as int),
{
    let dx: i32 = if x >= cx {
        x - cx
    } else {
        cx - x
    };
    let dy: i32 = if y >= cy {
        y - cy
    } else {
        cy - y
    };
    proof {
        math::lemma_product_bound(dx as int, 127, dx as int, 127);
        math::lemma_product_bound(dy as int, 127, dy as int, 127);
    }
    soft_edge(sqrt16((dx * dx + dy * dy) as u16) as u32, radius as u32)
}

fn segment_coverage(px: i32, py: i32, ax: i32, ay: i32, bx: i32, by: i32, width: u8) -> (r: u8)
    requires
        0 <= px <= 127,
        0 <= py <= 127,
        0 <= ax <= 127,
        0 <= ay <= 127,
        0 <= bx <= 127,
        0 <= by <= 127,
    ensures
        r == line(
            (px as int, py as int),
            (ax as int, ay as int),
            (bx as int, by as int),
            width as int,
        ),
{
    let vx: i32 = bx - ax;
    let vy: i32 = by - ay;
    let wx: i32 = px - ax;
    let wy: i32 = py - ay;
    proof {
        lemma_signed_product(vx as int, vx as int);
        lemma_signed_product(vy as int, vy as int);
        lemma_signed_product(wx as int, vx as int);
        lemma_signed_product(wy as int, vy as int);
        lemma_signed_product(wx as int, vy as int);
        lemma_signed_product(wy as int, vx as int);
        assert(0 <= vx * vx) by (nonlinear_arith);
        assert(0 <= vy * vy) by (nonlinear_arith);
    }
    let length: i32 = vx * vx + vy * vy;
    let along: i32 = wx * vx + wy * vy;
    if length == 0 {
        let radius: u8 = if width < 1 {
            1
        } else {
            width
        };
        return point_coverage_half(px, py, ax, ay, radius);
    }
    if along <= 0 {
        return point_coverage_half(px, py, ax, ay, width);
    }
    if along >= length {
        return point_coverage_half(px, py, bx, by, width);
    }
    let root: u8 = sqrt16(length as u16);
    let divisor: u32 = if root < 1 {
        1
    } else {
        root as u32
    };
    let right_hand: i32 = wx * vy;
    let left_hand: i32 = wy * vx;
    let aside: u32 = if right_hand >= left_hand {
        (right_hand - left_hand) as u32
    } else {
        (left_hand - right_hand) as u32
    };
    assert(aside as int / (divisor as int) <= aside) by (nonlinear_arith)
        requires
            divisor >= 1,
    ;
    soft_edge(aside / divisor, width as u32)
}

fn segment_value(segment: Segment, led: (u8, u8)) -> (r: u8)
    ensures
        r == shape(segment, led),
{
    let px: i32 = (led.0 / 2) as i32;
    let py: i32 = (led.1 / 2) as i32;
    let ax: i32 = (segment.from_x / 2) as i32;
    let ay: i32 = (segment.from_y / 2) as i32;
    let bx: i32 = (segment.to_x / 2) as i32;
    let by: i32 = (segment.to_y / 2) as i32;
    let to_node: u8 = point_coverage_half(px, py, bx, by, NODE_RADIUS);
    let from_node: u8 = point_coverage_half(px, py, ax, ay, NODE_RADIUS);
    let stroke: u8 = scale255(
        segment_coverage(px, py, ax, ay, bx, by, LINE_HALF_WIDTH),
        LINE_PEAK,
    );
    let nodes: u8 = if to_node >= from_node {
        to_node
    } else {
        from_node
    };
    if nodes >= stroke {
        nodes
    } else {
        stroke
    }
}

/// What a [`TracerState`] holds.
pub struct TracerModel {
    /// The remembered segments, by ring slot.
    pub segments: Seq<Segment>,
    /// The slot to be written next.
    pub next: int,
    pub last: Option<LastHit>,
    pub color_step: u8,
}

impl TracerModel {
    /// The state that a new effect with room for `capacity` segments starts
    /// in.
    pub open spec fn fresh(capacity: nat) -> TracerModel {
        TracerModel {
            segments: Seq::new(capacity, |k: int| empty_segment()),
            next: 0,
            last: None,
            color_step: 0,
        }
    }

    /// Where a press of the key at `(x, y)` is connected to: the press before
    /// it, unless that is too long ago.
    pub open spec fn connected(self, x: u8, y: u8, now: u32) -> (u8, u8) {
        match self.last {
            Some(last) => if math::ticks_since(now, last.spawn_ms) <= MAX_CONNECT_GAP_MS {
                (last.x, last.y)
            } else {
                (x, y)
            },
            None => (x, y),
        }
    }

    /// The segment that a press of the key at `(x, y)` draws.
    pub open spec fn drawn(self, x: u8, y: u8, now: u32) -> Segment {
        let (from_x, from_y) = self.connected(x, y, now);
        Segment {
            from_x,
            from_y,
            to_x: x,
            to_y: y,
            spawn_ms: now,
            palette_pos: super::key_color(x, y, self.color_step),
            active: true,
        }
    }

    /// The state after a press.
    pub open spec fn pressed(self, x: u8, y: u8, now: u32) -> TracerModel {
        if self.segments.len() == 0 {
            self
        } else {
            TracerModel {
                segments: self.segments.update(self.next, self.drawn(x, y, now)),
                next: super::ring_next(self.next, self.segments.len() as int),
                last: Some(LastHit { x, y, spawn_ms: now }),
                color_step: math::byte_sum(self.color_step as int, 29),
            }
        }
    }

    /// How long slot `k` has been running.
    pub open spec fn age(self, frame: FrameParams<'_>, k: int) -> int {
        math::ticks_since(frame.timer_ms, self.segments[k].spawn_ms)
    }

    /// Whether slot `k` is lit in a frame.
    pub open spec fn live(self, frame: FrameParams<'_>, k: int) -> bool {
        self.segments[k].active && self.age(frame, k) < span(frame.speed)
    }

    /// Share of its lifetime that slot `k` has behind it.
    pub open spec fn share(self, frame: FrameParams<'_>, k: int) -> int {
        super::share(self.age(frame, k), span(frame.speed))
    }

    /// Whether every active slot is lit in a frame, with its share in
    /// `shares`.
    pub open spec fn measured(self, frame: FrameParams<'_>, shares: Seq<u8>) -> bool {
        forall|k: int|
            #![trigger shares[k]]
            0 <= k < self.segments.len() && self.segments[k].active ==> self.live(frame, k)
                && shares[k] == self.share(frame, k)
    }

    /// The state after a frame: what has outlived its time goes out for good.
    pub open spec fn ticked(self, frame: FrameParams<'_>) -> TracerModel {
        TracerModel {
            segments: Seq::new(
                self.segments.len(),
                |k: int| Segment { active: self.live(frame, k), ..self.segments[k] },
            ),
            ..self
        }
    }

    /// Strongest light on the LED at `led` from the first `n` slots, and the
    /// palette position of the first slot that gives it.
    pub open spec fn strongest(self, frame: FrameParams<'_>, led: (u8, u8), n: int) -> (int, u8)
        decreases n,
    {
        if n <= 0 {
            (0, 0)
        } else {
            let rest = self.strongest(frame, led, n - 1);
            let light = math::scaled255(
                shape(self.segments[n - 1], led),
                255 - self.share(frame, n - 1),
            );
            if self.live(frame, n - 1) && light > rest.0 {
                (light, self.segments[n - 1].palette_pos)
            } else {
                rest
            }
        }
    }

    /// The color of the LED at `led`.
    pub open spec fn pixel(self, frame: FrameParams<'_>, led: (u8, u8)) -> Hsv {
        let (light, position) = self.strongest(frame, led, self.segments.len() as int);
        if light == 0 {
            color::black()
        } else {
            palette::color_at(
                frame.palette@,
                position,
                frame.sat,
                math::scaled255(light, frame.val as int) as u8,
            )
        }
    }

    /// The frame: black, but for what is lit.
    pub open spec fn painted(self, frame: FrameParams<'_>, leds: Seq<(u8, u8)>, len: nat) -> Seq<
        Hsv,
    > {
        Seq::new(
            len,
            |i: int|
                if i < leds.len() {
                    self.pixel(frame, leds[i])
                } else {
                    color::black()
                },
        )
    }
}

/// Ring of the `N` most recent segments of the typing path.
pub struct TracerState<const N: usize> {
    segments: [Segment; N],
    next: usize,
    last: Option<LastHit>,
    color_step: u8,
}

impl<const N: usize> View for TracerState<N> {
    type V = TracerModel;

    closed spec fn view(&self) -> TracerModel {
        TracerModel {
            segments: self.segments@,
            next: self.next as int,
            last: self.last,
            color_step: self.color_step,
        }
    }
}

impl<const N: usize> Default for TracerState<N> {
    fn default() -> (state: Self)
        ensures
            state.wf(),
            state@ == TracerModel::fresh(N as nat),
    {
        Self::new()
    }
}

impl<const N: usize> TracerState<N> {
    /// The write cursor is in range.
    pub closed spec fn wf(&self) -> bool {
        N > 0 ==> self.next < N
    }

    pub fn new() -> (state: Self)
        ensures
            state.wf(),
            state@ == TracerModel::fresh(N as nat),
    {
        let state = Self {
            segments: [Segment {
                from_x: 0,
                from_y: 0,
                to_x: 0,
                to_y: 0,
                spawn_ms: 0,
                palette_pos: 0,
                active: false,
            };N],
            next: 0,
            last: None,
            color_step: 0,
        };
        assert(state@.segments =~= TracerModel::fresh(N as nat).segments);
        state
    }

    /// Records a press of the key at `(x, y)`.
    pub fn record_hit(&mut self, x: u8, y: u8, timer_ms: u32)
        requires
            old(self).wf(),
        ensures
            final(self).wf(),
            final(self)@ == old(self)@.pressed(x, y, timer_ms),
    {
        if N == 0 {
            return ;
        }
        let (from_x, from_y): (u8, u8) = match self.last {
            Some(last) => if timer_ms.wrapping_sub(last.spawn_ms) <= MAX_CONNECT_GAP_MS {
                (last.x, last.y)
            } else {
                (x, y)
            },
            None => (x, y),
        };
        let slot: usize = self.next;
        self.segments[slot] = Segment {
            from_x,
            from_y,
            to_x: x,
            to_y: y,
            spawn_ms: timer_ms,
            palette_pos: press_color(x, y, self.color_step),
            active: true,
        };
        self.next = next_slot(slot, N);
        self.last = Some(LastHit { x, y, spawn_ms: timer_ms });
        self.color_step = self.color_step.wrapping_add(29);
    }

    /// Puts out what has outlived its time, and measures the rest.
    fn expire(&mut self, frame: FrameParams<'_>) -> (shares: [u8; N])
        requires
            old(self).wf(),
        ensures
            final(self).wf(),
            final(self)@ == old(self)@.ticked(frame),
            final(self)@.measured(frame, shares@),
    {
        let ghost begin = self@;
        let duration: u32 = duration_ms(frame.speed);
        let mut shares: [u8; N] = [0;N];
        let mut slot: usize = 0;
        while slot < N
            invariant
                self.wf(),
                slot <= N,
                begin.segments.len() == N,
                duration == span(frame.speed),
                self@ == (TracerModel { segments: self@.segments, ..begin }),
                forall|k: int|
                    0 <= k < slot ==> #[trigger] self@.segments[k] == begin.ticked(frame).segments[k],
                forall|k: int| slot <= k < N ==> #[trigger] self@.segments[k] == begin.segments[k],
                forall|k: int|
                    0 <= k < slot && begin.live(frame, k) ==> #[trigger] shares@[k] == begin.share(
                        frame,
                        k,
                    ),
            decreases N - slot,
        {
            let hit: Segment = self.segments[slot];
            assert(hit == self@.segments[slot as int]);
            if hit.active {
                let elapsed: u32 = frame.timer_ms.wrapping_sub(hit.spawn_ms);
                if elapsed >= duration {
                    self.segments[slot] = Segment { active: false, ..hit };
                } else {
                    shares[slot] = progress(elapsed, duration);
                }
            }
            slot += 1;
        }
        assert(self@.segments =~= begin.ticked(frame).segments);
        assert forall|k: int|
            #![trigger shares@[k]]
            0 <= k < N && self@.segments[k].active implies self@.live(frame, k) && shares@[k]
            == self@.share(frame, k) by {
            assert(begin.live(frame, k));
        }
        shares
    }

    /// The color of one LED.
    fn led(&self, frame: FrameParams<'_>, shares: &[u8; N], led: (u8, u8)) -> (color: Hsv)
        requires
            self.wf(),
            self@.measured(frame, shares@),
        ensures
            color == self@.pixel(frame, led),
    {
        let ghost model = self@;
        let mut light: u8 = 0;
        let mut position: u8 = 0;
        let mut slot: usize = 0;
        while slot < N
            invariant
                self.wf(),
                model == self@,
                model.segments.len() == N,
                slot <= N,
                model.measured(frame, shares@),
                (light as int, position) == model.strongest(frame, led, slot as int),
            decreases N - slot,
        {
            let hit: Segment = self.segments[slot];
            let share: u8 = shares[slot];
            assert(hit == model.segments[slot as int]);
            if hit.active {
                assert(share == model.share(frame, slot as int) && model.live(frame, slot as int));
                let value: u8 = scale255(segment_value(hit, led), 255 - share);
                if value > light {
                    light = value;
                    position = hit.palette_pos;
                }
            }
            slot += 1;
        }
        if light == 0 {
            return Hsv::default();
        }
        interp_color(frame.palette, position, frame.sat, scale255(light, frame.val))
    }

    fn render<L: LedLayout>(&mut self, layout: &L, frame: FrameParams<'_>, out: &mut [Hsv])
        requires
            old(self).wf(),
        ensures
            final(self).wf(),
            final(self)@ == old(self)@.ticked(frame),
            final(out)@ == final(self)@.painted(frame, layout.leds(), old(out)@.len()),
    {
        super::fill(out, Hsv::default());
        let shares: [u8; N] = self.expire(frame);
        let ghost model = self@;
        let count: usize = layout.count();
        let len: usize = out.len();
        let mut i: usize = 0;
        while i < len && i < count
            invariant
                self.wf(),
                model == self@,
                i <= len,
                i <= count,
                len == out@.len(),
                count == layout.leds().len(),
                model.measured(frame, shares@),
                forall|j: int| 0 <= j < i ==> out@[j] == model.pixel(frame, layout.leds()[j]),
                forall|j: int| i <= j < len ==> out@[j] == color::black(),
            decreases len - i,
        {
            out[i] = self.led(frame, &shares, layout.position(i));
            i += 1;
        }
        assert(out@ =~= model.painted(frame, layout.leds(), len as nat));
    }

    /// Renders over black.
    pub fn tick<L: LedLayout>(&mut self, layout: &L, frame: FrameParams<'_>, out: &mut [Hsv])
        requires
            old(self).wf(),
        ensures
            final(self).wf(),
            final(self)@ == old(self)@.ticked(frame),
            final(out)@ == final(self)@.painted(frame, layout.leds(), old(out)@.len()),
    {
        self.render(layout, frame, out);
    }

    /// Renders as a layer: black is transparent.
    pub fn tick_layer<L: LedLayout>(&mut self, layout: &L, frame: FrameParams<'_>, out: &mut [Hsv])
        requires
            old(self).wf(),
        ensures
            final(self).wf(),
            final(self)@ == old(self)@.ticked(frame),
            final(out)@ == final(self)@.painted(frame, layout.leds(), old(out)@.len()),
    {
        self.render(layout, frame, out);
    }
}

/// Two presses are connected exactly when the pause between them is no longer
/// than the gap; a longer one starts a new constellation at the key.
pub proof fn law_a_long_pause_disconnects(
    model: TracerModel,
    first: (u8, u8),
    at: u32,
    second: (u8, u8),
    now: u32,
)
    requires
        model.segments.len() > 0,
    ensures
        ({
            let next = model.pressed(first.0, first.1, at).drawn(second.0, second.1, now);
            let connected = math::ticks_since(now, at) <= MAX_CONNECT_GAP_MS;
            (next.from_x, next.from_y) == if connected {
                first
            } else {
                second
            }
        }),
{
}

/// Both ends of a segment are nodes at full brightness.
pub proof fn law_both_ends_are_nodes(segment: Segment)
    ensures
        shape(segment, (segment.from_x, segment.from_y)) == 255,
        shape(segment, (segment.to_x, segment.to_y)) == 255,
{
    assert(math::is_root(0, 0));
    math::law_root_is_unique(0, 0);
    assert(math::edge_falloff(0, NODE_RADIUS as int) == 255);
    lemma_shape_range(segment, (segment.from_x, segment.from_y));
    lemma_shape_range(segment, (segment.to_x, segment.to_y));
    let a = halved(segment.from_x, segment.from_y);
    let b = halved(segment.to_x, segment.to_y);
    assert(node(a, a, NODE_RADIUS as int) == 255);
    assert(node(b, b, NODE_RADIUS as int) == 255);
}

proof fn lemma_square_sum(a: int, b: int)
    ensures
        0 <= a * a + b * b,
{
    assert(0 <= a * a + b * b) by (nonlinear_arith);
}

proof fn lemma_node_range(p: (int, int), c: (int, int), radius: int)
    requires
        0 <= radius,
    ensures
        0 <= node(p, c, radius) <= 255,
{
    let dx = math::distance(p.0, c.0);
    let dy = math::distance(p.1, c.1);
    lemma_square_sum(dx, dy);
    math::law_root_exists(dx * dx + dy * dy);
    math::law_edge_falloff_range(math::root(dx * dx + dy * dy), radius);
}

proof fn lemma_shape_range(segment: Segment, led: (u8, u8))
    ensures
        0 <= shape(segment, led) <= 255,
{
    let p = halved(led.0, led.1);
    let a = halved(segment.from_x, segment.from_y);
    let b = halved(segment.to_x, segment.to_y);
    lemma_node_range(p, a, NODE_RADIUS as int);
    lemma_node_range(p, b, NODE_RADIUS as int);
    lemma_node_range(p, a, LINE_HALF_WIDTH as int);
    lemma_node_range(p, b, LINE_HALF_WIDTH as int);
    let v = (b.0 - a.0, b.1 - a.1);
    let w = (p.0 - a.0, p.1 - a.1);
    let length = v.0 * v.0 + v.1 * v.1;
    lemma_square_sum(v.0, v.1);
    math::law_root_exists(length);
    let divisor = math::larger(math::root(length), 1);
    let aside = math::distance(w.0 * v.1, w.1 * v.0);
    assert(0 <= aside / divisor) by (nonlinear_arith)
        requires
            0 <= aside,
            1 <= divisor,
    ;
    math::law_edge_falloff_range(aside / divisor, LINE_HALF_WIDTH as int);
}

/// Once every lifetime is over the whole frame is black, and stays so.
pub proof fn law_expired_is_transparent(
    model: TracerModel,
    frame: FrameParams<'_>,
    leds: Seq<(u8, u8)>,
    len: nat,
)
    requires
        forall|k: int|
            0 <= k < model.segments.len() && (#[trigger] model.segments[k]).active ==> model.age(frame, k)
                >= span(frame.speed),
    ensures
        model.ticked(frame).painted(frame, leds, len) == Seq::new(len, |i: int| color::black()),
        forall|k: int|
            0 <= k < model.segments.len() ==> !(#[trigger] model.ticked(frame).segments[k]).active,
{
    let after = model.ticked(frame);
    assert forall|k: int| 0 <= k < model.segments.len() implies !(#[trigger] after.segments[k]).active by {
        assert(model.segments[k].active ==> model.age(frame, k) >= span(frame.speed));
    }
    assert forall|i: int| 0 <= i < len && i < leds.len() implies after.pixel(frame, leds[i])
        == color::black() by {
        lemma_dark(after, frame, leds[i], after.segments.len() as int);
    }
    assert(after.painted(frame, leds, len) =~= Seq::new(len, |i: int| color::black()));
}

proof fn lemma_dark(model: TracerModel, frame: FrameParams<'_>, led: (u8, u8), n: int)
    requires
        n <= model.segments.len(),
        forall|k: int| 0 <= k < model.segments.len() ==> !(#[trigger] model.segments[k]).active,
    ensures
        model.strongest(frame, led, n) == (0int, 0u8),
    decreases n,
{
    if n > 0 {
        lemma_dark(model, frame, led, n - 1);
        assert(!model.segments[n - 1].active);
    }
}

/// A node is round: how much of it an LED gets depends on its distance from
/// the centre alone, rounded down, and beyond the radius there is nothing.
pub proof fn law_a_node_is_round(p: (int, int), c: (int, int), radius: int, away: int)
    requires
        0 <= radius,
        0 <= away,
        away * away <= (p.0 - c.0) * (p.0 - c.0) + (p.1 - c.1) * (p.1 - c.1) < (away + 1) * (away
            + 1),
    ensures
        node(p, c, radius) == math::edge_falloff(away, radius),
        node(p, c, radius) > 0 <==> away <= radius,
        node((p.1, p.0), (c.1, c.0), radius) == node(p, c, radius),
{
    let dx = math::distance(p.0, c.0);
    let dy = math::distance(p.1, c.1);
    lemma_squares(p.0, c.0);
    lemma_squares(p.1, c.1);
    math::law_root_is(dx * dx + dy * dy, away);
    math::law_edge_falloff_range(away, radius);
}

/// A distance squares like the difference.
proof fn lemma_squares(a: int, b: int)
    ensures
        math::distance(a, b) * math::distance(a, b) == (a - b) * (a - b),
{
    assert((a - b) * (a - b) == (b - a) * (b - a)) by (nonlinear_arith);
}

/// A line is straight and narrow: of the points beside it, those are lit whose
/// distance from it is within its half-width. That distance is the area that
/// the point spans with the line, over the line's length, both rounded down.
pub proof fn law_a_line_is_straight(
    p: (int, int),
    a: (int, int),
    b: (int, int),
    width: int,
    length: int,
)
    requires
        0 <= width,
        1 <= length,
        length * length <= (b.0 - a.0) * (b.0 - a.0) + (b.1 - a.1) * (b.1 - a.1) < (length + 1) * (
        length + 1),
        0 < (p.0 - a.0) * (b.0 - a.0) + (p.1 - a.1) * (b.1 - a.1) < (b.0 - a.0) * (b.0 - a.0) + (b.1
            - a.1) * (b.1 - a.1),
    ensures
        ({
            let area = (p.0 - a.0) * (b.1 - a.1) - (p.1 - a.1) * (b.0 - a.0);
            let off = if area >= 0 {
                area
            } else {
                -area
            };
            &&& line(p, a, b, width) == math::edge_falloff(off / length, width)
            &&& line(p, a, b, width) > 0 <==> off < (width + 1) * length
        }),
{
    let v = (b.0 - a.0, b.1 - a.1);
    let w = (p.0 - a.0, p.1 - a.1);
    math::law_root_is(v.0 * v.0 + v.1 * v.1, length);
    let off = math::distance(w.0 * v.1, w.1 * v.0);
    math::lemma_quotient(off, length);
    let q = off / length;
    assert(0 <= q) by (nonlinear_arith)
        requires
            0 <= off < q * length + length,
            1 <= length,
    ;
    math::law_edge_falloff_range(q, width);
    assert(q <= width <==> off < (width + 1) * length) by (nonlinear_arith)
        requires
            q * length <= off < q * length + length,
            1 <= length,
    ;
}

/// Before its start and past its end a line is the glow of that end, and a
/// line of no length is the glow of its one point, at least one wide.
pub proof fn law_a_line_ends_in_its_ends(p: (int, int), a: (int, int), b: (int, int), width: int)
    requires
        0 <= width,
    ensures
        ({
            let along = (p.0 - a.0) * (b.0 - a.0) + (p.1 - a.1) * (b.1 - a.1);
            let length = (b.0 - a.0) * (b.0 - a.0) + (b.1 - a.1) * (b.1 - a.1);
            &&& a != b && along <= 0 ==> line(p, a, b, width) == node(p, a, width)
            &&& a != b && along >= length ==> line(p, a, b, width) == node(p, b, width)
            &&& 1 <= width ==> line(p, a, a, width) == node(p, a, width)
            &&& line(p, a, a, 0) == node(p, a, 1)
        }),
{
    let v = (b.0 - a.0, b.1 - a.1);
    assert(v.0 * v.0 >= 0) by (nonlinear_arith);
    assert(v.1 * v.1 >= 0) by (nonlinear_arith);
    assert(v.0 != 0 ==> v.0 * v.0 > 0) by (nonlinear_arith);
    assert(v.1 != 0 ==> v.1 * v.1 > 0) by (nonlinear_arith);
}

/// A line looks the same with its axes swapped and wherever on the grid it is.
pub proof fn law_a_line_favours_no_axis(
    p: (int, int),
    a: (int, int),
    b: (int, int),
    width: int,
    by: (int, int),
)
    ensures
        line((p.1, p.0), (a.1, a.0), (b.1, b.0), width) == line(p, a, b, width),
        line(
            (p.0 + by.0, p.1 + by.1),
            (a.0 + by.0, a.1 + by.1),
            (b.0 + by.0, b.1 + by.1),
            width,
        ) == line(p, a, b, width),
{
}

/// A segment is two nodes of radius 6 and a line of half-width 4 between them,
/// on a grid of half the board's resolution; the line shines at 184 parts of
/// 255, and where they overlap the strongest shows.
pub proof fn law_a_segment_is_two_nodes_and_a_line(segment: Segment, led: (u8, u8))
    ensures
        ({
            let p = (led.0 as int / 2, led.1 as int / 2);
            let a = (segment.from_x as int / 2, segment.from_y as int / 2);
            let b = (segment.to_x as int / 2, segment.to_y as int / 2);
            let light = shape(segment, led);
            let stroke = math::scaled255(line(p, a, b, 4), 184);
            &&& light >= node(p, a, 6)
            &&& light >= node(p, b, 6)
            &&& light >= stroke
            &&& light == node(p, a, 6) || light == node(p, b, 6) || light == stroke
        }),
{
}

/// A press draws one segment, to its own key, in the next slot of the ring; it
/// starts at the press's time in the color of its key and step. Every other
/// segment stays, and the color moves on by 29.
pub proof fn law_a_press_draws_one_segment(model: TracerModel, x: u8, y: u8, now: u32, k: int)
    requires
        model.segments.len() > 0,
        0 <= model.next < model.segments.len(),
        0 <= k < model.segments.len(),
    ensures
        ({
            let after = model.pressed(x, y, now);
            let drawn = after.segments[model.next];
            &&& after.segments.len() == model.segments.len()
            &&& drawn.active && drawn.spawn_ms == now && (drawn.to_x, drawn.to_y) == (x, y)
            &&& drawn.palette_pos == super::key_color(x, y, model.color_step)
            &&& model.last is None ==> (drawn.from_x, drawn.from_y) == (x, y)
            &&& k != model.next ==> after.segments[k] == model.segments[k]
            &&& after.next == super::ring_next(model.next, model.segments.len() as int)
            &&& after.last == Some(LastHit { x, y, spawn_ms: now })
            &&& after.color_step == math::byte_sum(model.color_step as int, 29)
        }),
{
}

/// A press is connected to the one before it up to 700 milliseconds later, and
/// starts anew from then on.
pub proof fn law_presses_connect_within_the_gap(
    model: TracerModel,
    last: LastHit,
    x: u8,
    y: u8,
    now: u32,
)
    requires
        model.last == Some(last),
    ensures
        ({
            let drawn = model.drawn(x, y, now);
            (drawn.from_x, drawn.from_y) == if math::ticks_since(now, last.spawn_ms) <= 700 {
                (last.x, last.y)
            } else {
                (x, y)
            }
        }),
{
}

/// A segment is lit from its press until its lifetime of 850 milliseconds,
/// paced by the speed, is over; a frame puts out what is not lit and changes
/// nothing else.
pub proof fn law_segments_live_their_time(model: TracerModel, frame: FrameParams<'_>, k: int)
    requires
        0 <= k < model.segments.len(),
    ensures
        ({
            let elapsed = math::ticks_since(frame.timer_ms, model.segments[k].spawn_ms);
            let after = model.ticked(frame);
            let lit = model.segments[k].active && elapsed < super::lifetime(850, frame.speed);
            &&& model.live(frame, k) == lit
            &&& after.segments.len() == model.segments.len()
            &&& after.segments[k] == (Segment { active: lit, ..model.segments[k] })
            &&& after.next == model.next && after.last == model.last && after.color_step
                == model.color_step
            &&& model.share(frame, k) == super::share(elapsed, super::lifetime(850, frame.speed))
        }),
{
}

/// An LED shows the segment that lights it most, and of several equal ones the
/// one in the first slot: every lit segment's light, dimmed by its age, is no
/// more than what shows, and what shows is one of them.
pub proof fn law_the_strongest_segment_shows(
    model: TracerModel,
    frame: FrameParams<'_>,
    led: (u8, u8),
    n: int,
    k: int,
)
    requires
        0 <= k < n <= model.segments.len(),
        model.live(frame, k),
    ensures
        ({
            let (light, position) = model.strongest(frame, led, n);
            let own = math::scaled255(
                shape(model.segments[k], led),
                255 - model.share(frame, k),
            );
            &&& own <= light
            &&& own == light && light > 0 && (forall|j: int|
                0 <= j < k && model.live(frame, j) ==> math::scaled255(
                    shape(#[trigger] model.segments[j], led),
                    255 - model.share(frame, j),
                ) < light) ==> position == model.segments[k].palette_pos
        }),
{
    lemma_strongest(model, frame, led, n);
    let (light, position) = model.strongest(frame, led, n);
    let own = dimmed(model, frame, led, k);
    assert(own <= light);
    if own == light && light > 0 && (forall|j: int|
        0 <= j < k && model.live(frame, j) ==> math::scaled255(
            shape(#[trigger] model.segments[j], led),
            255 - model.share(frame, j),
        ) < light) {
        let m = choose|m: int|
            {
                &&& 0 <= m < n
                &&& model.live(frame, m)
                &&& #[trigger] dimmed(model, frame, led, m) == light
                &&& position == model.segments[m].palette_pos
                &&& forall|j: int|
                    0 <= j < m && model.live(frame, j) ==> #[trigger] dimmed(model, frame, led, j)
                        < light
            };
        assert(m == k) by {
            if m < k {
                assert(math::scaled255(
                    shape(model.segments[m], led),
                    255 - model.share(frame, m),
                ) < light);
            }
        }
    }
}

/// The light of a segment, dimmed by its age.
spec fn dimmed(model: TracerModel, frame: FrameParams<'_>, led: (u8, u8), k: int) -> int {
    math::scaled255(shape(model.segments[k], led), 255 - model.share(frame, k))
}

proof fn lemma_strongest(model: TracerModel, frame: FrameParams<'_>, led: (u8, u8), n: int)
    requires
        0 <= n <= model.segments.len(),
    ensures
        ({
            let (light, position) = model.strongest(frame, led, n);
            &&& 0 <= light
            &&& forall|k: int|
                0 <= k < n && model.live(frame, k) ==> #[trigger] dimmed(model, frame, led, k)
                    <= light
            &&& light > 0 ==> exists|k: int|
                {
                    &&& 0 <= k < n
                    &&& model.live(frame, k)
                    &&& #[trigger] dimmed(model, frame, led, k) == light
                    &&& position == model.segments[k].palette_pos
                    &&& forall|j: int|
                        0 <= j < k && model.live(frame, j) ==> #[trigger] dimmed(
                            model,
                            frame,
                            led,
                            j,
                        ) < light
                }
        }),
    decreases n,
{
    if n > 0 {
        lemma_strongest(model, frame, led, n - 1);
        let rest = model.strongest(frame, led, n - 1);
        let own = dimmed(model, frame, led, n - 1);
        if model.live(frame, n - 1) && own > rest.0 {
            assert(forall|j: int|
                0 <= j < n - 1 && model.live(frame, j) ==> #[trigger] dimmed(model, frame, led, j)
                    < own);
        } else if rest.0 > 0 {
            let k = choose|k: int|
                {
                    &&& 0 <= k < n - 1
                    &&& model.live(frame, k)
                    &&& #[trigger] dimmed(model, frame, led, k) == rest.0
                    &&& rest.1 == model.segments[k].palette_pos
                    &&& forall|j: int|
                        0 <= j < k && model.live(frame, j) ==> #[trigger] dimmed(
                            model,
                            frame,
                            led,
                            j,
                        ) < rest.0
                };
            assert(dimmed(model, frame, led, k) == rest.0);
        }
    }
}

/// Whatever shows on an LED comes from a lit segment.
pub proof fn law_light_comes_from_a_lit_segment(
    model: TracerModel,
    frame: FrameParams<'_>,
    led: (u8, u8),
    n: int,
)
    requires
        0 <= n <= model.segments.len(),
        model.strongest(frame, led, n).0 > 0,
    ensures
        exists|k: int|
            {
                &&& 0 <= k < n
                &&& model.live(frame, k)
                &&& math::scaled255(
                    shape(#[trigger] model.segments[k], led),
                    255 - model.share(frame, k),
                ) == model.strongest(frame, led, n).0
                &&& model.segments[k].palette_pos == model.strongest(frame, led, n).1
            },
{
    lemma_strongest(model, frame, led, n);
    let light = model.strongest(frame, led, n);
    let k = choose|k: int|
        {
            &&& 0 <= k < n
            &&& model.live(frame, k)
            &&& #[trigger] dimmed(model, frame, led, k) == light.0
            &&& light.1 == model.segments[k].palette_pos
            &&& forall|j: int|
                0 <= j < k && model.live(frame, j) ==> #[trigger] dimmed(model, frame, led, j)
                    < light.0
        };
    assert(dimmed(model, frame, led, k) == light.0);
    assert(model.segments[k].palette_pos == light.1);
}

/// A frame colors each LED of the board by what shows there, in the palette
/// and at the saturation and brightness of the frame; what is unlit, and what
/// lies beyond the board, is black.
pub proof fn law_the_frame_shows_the_path(
    model: TracerModel,
    frame: FrameParams<'_>,
    leds: Seq<(u8, u8)>,
    len: nat,
    i: int,
)
    requires
        0 <= i < len,
    ensures
        ({
            let out = model.painted(frame, leds, len);
            &&& out.len() == len
            &&& i >= leds.len() ==> out[i] == (Hsv { h: 0, s: 0, v: 0 })
            &&& i < leds.len() ==> {
                let (light, position) = model.strongest(
                    frame,
                    leds[i],
                    model.segments.len() as int,
                );
                &&& light == 0 ==> out[i] == (Hsv { h: 0, s: 0, v: 0 })
                &&& light != 0 ==> out[i] == palette::color_at(
                    frame.palette@,
                    position,
                    frame.sat,
                    math::scaled255(light, frame.val as int) as u8,
                )
            }
        }),
{
}

} // verus!
