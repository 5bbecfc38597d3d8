//! Fixed-point helpers shared by the effects.
//!
//! Bytes stand for fractions throughout: 255 is one. [`scale8`] and
//! [`scale16by8`] follow the convention that scaling by 255 changes nothing.
use vstd::prelude::*;

verus! {

/// Milliseconds from `then` to `now` on the wrapping 32-bit clock.
pub open spec fn ticks_since(now: u32, then: u32) -> int {
    (now - then) % 0x1_0000_0000
}

/// `a + b` on bytes that wrap.
pub open spec fn byte_sum(a: int, b: int) -> u8 {
    ((a + b) % 256) as u8
}

/// Division that rounds toward zero.
pub open spec fn quot(a: int, b: int) -> int {
    if a >= 0 {
        a / b
    } else {
        -((-a) / b)
    }
}

/// The larger of two integers.
pub open spec fn larger(a: int, b: int) -> int {
    if a >= b {
        a
    } else {
        b
    }
}

/// The smaller of two integers.
pub open spec fn smaller(a: int, b: int) -> int {
    if a <= b {
        a
    } else {
        b
    }
}

/// `x` moved to the nearest end of `lo..=hi` when it lies outside.
pub open spec fn clamped(x: int, lo: int, hi: int) -> int {
    if x < lo {
        lo
    } else if x > hi {
        hi
    } else {
        x
    }
}

/// Distance between two integers.
pub open spec fn distance(a: int, b: int) -> int {
    if a >= b {
        a - b
    } else {
        b - a
    }
}

/// Whether `r` is the square root of `n`, rounded down.
pub open spec fn is_root(n: int, r: int) -> bool {
    &&& 0 <= r
    &&& r * r <= n
    &&& n < (r + 1) * (r + 1)
}

/// The square root of `n`, rounded down.
pub open spec fn root(n: int) -> int {
    choose|r: int| is_root(n, r)
}

/// Every natural number has a rounded-down square root.
pub proof fn law_root_exists(n: int)
    requires
        0 <= n,
    ensures
        is_root(n, root(n)),
    decreases n,
{
    if n == 0 {
        assert(is_root(0, 0));
    } else {
        law_root_exists(n - 1);
        let r = root(n - 1);
        if n < (r + 1) * (r + 1) {
            assert(is_root(n, r));
        } else {
            assert(n < (r + 2) * (r + 2)) by (nonlinear_arith)
                requires
                    n - 1 < (r + 1) * (r + 1),
                    0 <= r,
            ;
            assert(is_root(n, r + 1));
        }
    }
}

/// A number has one rounded-down square root: whatever passes
/// [`is_root`] is [`root`].
pub proof fn law_root_is_unique(n: int, r: int)
    requires
        is_root(n, r),
    ensures
        root(n) == r,
{
    let s = root(n);
    assert(is_root(n, s));
    if s < r {
        assert((s + 1) * (s + 1) <= r * r) by (nonlinear_arith)
            requires
                0 <= s < r,
        ;
    } else if r < s {
        assert((r + 1) * (r + 1) <= s * s) by (nonlinear_arith)
            requires
                0 <= r < s,
        ;
    }
}

/// The rounded-down square root never decreases.
pub proof fn law_root_is_monotone(m: int, n: int, r: int, s: int)
    requires
        is_root(m, r),
        is_root(n, s),
        m <= n,
    ensures
        r <= s,
{
    if s < r {
        assert((s + 1) * (s + 1) <= r * r) by (nonlinear_arith)
            requires
                0 <= s < r,
        ;
    }
}

/// Integer square root, rounded down.
pub fn isqrt(n: u64) -> (r: u64)
    ensures
        is_root(n as int, r as int),
        r == root(n as int),
        r < 0x1_0000_0000,
{
    let mut lo: u64 = 0;
    let mut hi: u64 = 0x1_0000_0000;
    assert(n < hi * hi) by (nonlinear_arith)
        requires
            n <= u64::MAX,
            hi == 0x1_0000_0000,
    ;
    while lo + 1 < hi
        invariant
            lo < hi <= 0x1_0000_0000,
            lo * lo <= n < hi * hi,
        decreases hi - lo,
    {
        let mid: u64 = lo + (hi - lo) / 2;
        assert(mid * mid <= u64::MAX) by (nonlinear_arith)
            requires
                mid < 0x1_0000_0000,
        ;
        if mid * mid <= n {
            lo = mid;
        } else {
            hi = mid;
        }
    }
    proof {
        law_root_is_unique(n as int, lo as int);
    }
    lo
}

/// Integer square root of a 16-bit number, rounded down.
pub fn sqrt16(n: u16) -> (r: u8)
    ensures
        is_root(n as int, r as int),
        r == root(n as int),
{
    let r: u64 = isqrt(n as u64);
    assert(r < 256) by (nonlinear_arith)
        requires
            r * r <= n,
            n < 65536,
    ;
    r as u8
}

/// `value * scale / 255`, rounded to the nearest byte.
pub open spec fn scaled255(value: int, scale: int) -> int {
    (value * scale + 127) / 255
}

/// Multiplies two 0..=255 fractions; both endpoints are exact.
pub fn scale255(value: u8, scale: u8) -> (r: u8)
    ensures
        r == scaled255(value as int, scale as int),
{
    proof {
        lemma_product_bound(value as int, 255, scale as int, 255);
    }
    ((value as u32 * scale as u32 + 127) / 255) as u8
}

/// A product of bounded factors is bounded by the product of the bounds.
pub proof fn lemma_product_bound(a: int, a_max: int, b: int, b_max: int)
    requires
        0 <= a <= a_max,
        0 <= b <= b_max,
    ensures
        0 <= a * b <= a_max * b_max,
{
    assert(0 <= a * b <= a_max * b_max) by (nonlinear_arith)
        requires
            0 <= a <= a_max,
            0 <= b <= b_max,
    ;
}

/// Scaling by 255 changes nothing and scaling by 0 leaves nothing.
pub proof fn law_scale255_endpoints(value: int)
    ensures
        scaled255(value, 255) == value,
        scaled255(value, 0) == 0,
        scaled255(255, value) == value,
        scaled255(0, value) == 0,
{
}

/// Scaling a fraction by a fraction never brightens it.
pub proof fn law_scale255_shrinks(value: int, scale: int)
    requires
        0 <= value <= 255,
        0 <= scale <= 255,
    ensures
        0 <= scaled255(value, scale) <= value,
        scaled255(value, scale) <= scale,
{
    assert(0 <= value * scale) by (nonlinear_arith)
        requires
            0 <= value,
            0 <= scale,
    ;
    assert(value * scale <= value * 255) by (nonlinear_arith)
        requires
            0 <= value,
            scale <= 255,
    ;
    assert(value * scale <= 255 * scale) by (nonlinear_arith)
        requires
            value <= 255,
            0 <= scale,
    ;
}

/// A brighter value or a larger scale never gives a darker product.
pub proof fn law_scale255_is_monotone(value: int, other: int, scale: int)
    requires
        0 <= value <= other,
        0 <= scale,
    ensures
        scaled255(value, scale) <= scaled255(other, scale),
        scaled255(scale, value) <= scaled255(scale, other),
{
    assert(value * scale <= other * scale) by (nonlinear_arith)
        requires
            value <= other,
            0 <= scale,
    ;
    assert(value * scale == scale * value) by (nonlinear_arith);
    assert(other * scale == scale * other) by (nonlinear_arith);
}

/// `value * (1 + scale) / 256`.
pub open spec fn scaled8(value: int, scale: int) -> int {
    value * (1 + scale) / 256
}

/// Scales a byte by a fraction; 255 leaves it as it is.
pub fn scale8(value: u8, scale: u8) -> (r: u8)
    ensures
        r == scaled8(value as int, scale as int),
        r <= value,
{
    assert(0 <= value * (1 + scale) <= value * 256) by (nonlinear_arith)
        requires
            0 <= value,
            0 <= scale <= 255,
    ;
    proof {
        lemma_product_bound(value as int, 255, 1 + scale as int, 256);
    }
    (value as u32 * (1 + scale as u32) / 256) as u8
}

/// Scales a 16-bit number by a fraction; 255 leaves it as it is.
pub fn scale16by8(value: u16, scale: u8) -> (r: u16)
    ensures
        r == scaled8(value as int, scale as int),
        r <= value,
{
    assert(0 <= value * (1 + scale) <= value * 256) by (nonlinear_arith)
        requires
            0 <= value,
            0 <= scale <= 255,
    ;
    proof {
        lemma_product_bound(value as int, 65535, 1 + scale as int, 256);
    }
    (value as u32 * (1 + scale as u32) / 256) as u16
}

/// Scaling a brighter value or by a larger fraction never gives less.
pub proof fn law_scale8_is_monotone(value: int, other: int, scale: int, larger_scale: int)
    requires
        0 <= value <= other,
        0 <= scale <= larger_scale,
    ensures
        scaled8(value, scale) <= scaled8(other, larger_scale),
{
    assert(value * (1 + scale) <= other * (1 + larger_scale)) by (nonlinear_arith)
        requires
            0 <= value <= other,
            0 <= scale <= larger_scale,
    ;
}

/// Distance between two bytes.
pub fn abs_diff(a: u8, b: u8) -> (r: u8)
    ensures
        r == distance(a as int, b as int),
{
    if a > b {
        a - b
    } else {
        b - a
    }
}

/// Half the distance between two bytes, rounded down.
pub fn abs_half_diff(a: u8, b: u8) -> (r: u8)
    ensures
        r == distance(a as int, b as int) / 2,
        r <= 127,
{
    abs_diff(a, b) / 2
}

/// Falloff of a soft edge: 255 at `distance` 0, shrinking in even steps to
/// the last distance inside `radius`, and 0 beyond it.
pub open spec fn edge_falloff(distance: int, radius: int) -> int {
    if distance > radius {
        0
    } else {
        255 - distance * 255 / (radius + 1)
    }
}

/// See [`edge_falloff`].
pub fn soft_edge(distance: u32, radius: u32) -> (r: u8)
    requires
        distance * 255 <= u32::MAX || distance > radius,
        radius < u32::MAX,
    ensures
        r == edge_falloff(distance as int, radius as int),
        distance <= radius ==> r > 0,
{
    if distance > radius {
        0
    } else {
        proof {
            lemma_edge_share(distance as int, radius as int);
        }
        (255 - distance * 255 / (radius + 1)) as u8
    }
}

/// Inside the radius less than the whole of the edge has fallen off.
proof fn lemma_edge_share(distance: int, radius: int)
    requires
        0 <= distance <= radius,
    ensures
        0 <= distance * 255 / (radius + 1) < 255,
{
    assert(0 <= distance * 255 / (radius + 1) < 255) by (nonlinear_arith)
        requires
            0 <= distance <= radius,
    ;
}

/// An edge is a fraction, lit exactly inside its radius and full at its centre.
pub proof fn law_edge_falloff_range(distance: int, radius: int)
    requires
        0 <= distance,
        0 <= radius,
    ensures
        0 <= edge_falloff(distance, radius) <= 255,
        edge_falloff(distance, radius) > 0 <==> distance <= radius,
        edge_falloff(0, radius) == 255,
{
    if distance <= radius {
        lemma_edge_share(distance, radius);
    }
    assert(0int / (radius + 1) == 0) by (nonlinear_arith)
        requires
            0 <= radius,
    ;
}

/// Moving away from the centre never brightens an edge.
pub proof fn law_edge_falloff_is_monotone(near: int, far: int, radius: int)
    requires
        0 <= near <= far,
        0 <= radius,
    ensures
        edge_falloff(far, radius) <= edge_falloff(near, radius),
{
    law_edge_falloff_range(near, radius);
    if far <= radius {
        assert(near * 255 / (radius + 1) <= far * 255 / (radius + 1)) by (nonlinear_arith)
            requires
                0 <= near <= far,
                0 <= radius,
        ;
    }
}

/// Smoothed ramp from 0 to 255: half slope at both ends, one and a half in
/// the middle.
pub open spec fn eased(i: int) -> int {
    if i < 64 {
        i / 2
    } else if i > 191 {
        255 - (255 - i) / 2
    } else {
        (i - 64) + (i - 64) / 2 + 32
    }
}

/// See [`eased`].
pub fn ease8_in_out_approx(i: u8) -> (r: u8)
    ensures
        r == eased(i as int),
{
    if i < 64 {
        i / 2
    } else if i > 191 {
        255 - (255 - i) / 2
    } else {
        (i - 64) + (i - 64) / 2 + 32
    }
}

/// The rising quarter of a sine wave in four straight pieces, `within`
/// sixteenths into piece `section`.
pub open spec fn wave_piece(section: int, within: int) -> int {
    if section == 0 {
        49 * within / 16
    } else if section == 1 {
        49 + 41 * within / 16
    } else if section == 2 {
        90 + 27 * within / 16
    } else {
        117 + 10 * within / 16
    }
}

/// The first half of a sine wave over `0..128`, peaking at 127.
pub open spec fn half_wave(phase: int) -> int {
    if phase < 64 {
        wave_piece(phase / 16, phase % 16)
    } else {
        wave_piece((127 - phase) / 16, (127 - phase) % 16 + 1)
    }
}

fn wave_height(section: u8, within: u8) -> (height: u8)
    requires
        section <= 3,
        within <= 16,
    ensures
        height == wave_piece(section as int, within as int),
        height <= 127,
{
    if section == 0 {
        (49 * (within as u16) / 16) as u8
    } else if section == 1 {
        49 + (41 * (within as u16) / 16) as u8
    } else if section == 2 {
        90 + (27 * (within as u16) / 16) as u8
    } else {
        117 + (10 * (within as u16) / 16) as u8
    }
}

/// A sine wave over a full turn of 256, between 1 and 255 around 128.
pub open spec fn sine(theta: int) -> int {
    if theta < 128 {
        128 + half_wave(theta)
    } else {
        128 - half_wave(theta - 128)
    }
}

/// See [`sine`].
pub fn sin8(theta: u8) -> (r: u8)
    ensures
        r == sine(theta as int),
        1 <= r,
{
    let phase: u8 = if theta < 128 {
        theta
    } else {
        theta - 128
    };
    let height: u8 = if phase < 64 {
        wave_height(phase / 16, phase % 16)
    } else {
        wave_height((127 - phase) / 16, (127 - phase) % 16 + 1)
    };
    if theta < 128 {
        128 + height
    } else {
        128 - height
    }
}

/// Cosine: [`sine`] a quarter turn ahead.
pub open spec fn cosine(theta: int) -> int {
    sine(if theta < 192 {
        theta + 64
    } else {
        theta - 192
    })
}

/// See [`cosine`].
pub fn cos8(theta: u8) -> (r: u8)
    ensures
        r == cosine(theta as int),
        1 <= r,
{
    let ahead: u8 = if theta < 192 {
        theta + 64
    } else {
        theta - 192
    };
    sin8(ahead)
}

/// Low byte of a word.
pub fn low_byte(word: u32) -> (b: u8)
    ensures
        b == word % 256,
{
    (word % 256) as u8
}

/// A quotient by a positive divisor, as the bounds that determine it.
pub proof fn lemma_quotient(a: int, d: int)
    requires
        1 <= d,
    ensures
        (a / d) * d <= a < (a / d) * d + d,
{
    vstd::arithmetic::div_mod::lemma_fundamental_div_mod(a, d);
    assert(d * (a / d) == (a / d) * d) by (nonlinear_arith);
}

/// Only one number lies within the bounds of a quotient.
pub proof fn lemma_quotient_is(a: int, d: int, q: int)
    requires
        1 <= d,
        q * d <= a < q * d + d,
    ensures
        a / d == q,
{
    lemma_quotient(a, d);
    let other = a / d;
    assert(other == q) by (nonlinear_arith)
        requires
            1 <= d,
            q * d <= a < q * d + d,
            other * d <= a < other * d + d,
    ;
}

/// Going on from `then` for as long as it has been leads to `now`, on a clock
/// that wraps after 2^32 milliseconds.
pub proof fn law_ticks_lead_to_now(now: u32, then: u32)
    ensures
        0 <= ticks_since(now, then) < 0x1_0000_0000,
        then + ticks_since(now, then) == now || then + ticks_since(now, then) == now + 0x1_0000_0000,
        then <= now ==> ticks_since(now, then) == now - then,
{
}

/// Byte sums differ from plain sums by whole turns of 256.
pub proof fn law_byte_sums_wrap(a: int, b: int)
    requires
        0 <= a <= 255,
        0 <= b <= 255,
    ensures
        byte_sum(a, b) == a + b || byte_sum(a, b) == a + b - 256,
{
}

/// What division that rounds toward zero leaves over is smaller than the
/// divisor and lies on the dividend's side of zero.
pub proof fn law_quot_rounds_toward_zero(a: int, b: int)
    requires
        1 <= b,
    ensures
        a >= 0 ==> 0 <= a - quot(a, b) * b < b,
        a <= 0 ==> -b < a - quot(a, b) * b <= 0,
        quot(-a, b) == -quot(a, b),
{
    lemma_quotient(a, b);
    lemma_quotient(-a, b);
    let q = (-a) / b;
    assert((-q) * b == -(q * b)) by (nonlinear_arith);
    if a == 0 {
        assert(0int / b == 0) by (nonlinear_arith)
            requires
                1 <= b,
        ;
    }
}

/// The larger of two is one of them and the other does not exceed it; the
/// smaller is the one that is left.
pub proof fn law_larger_and_smaller(a: int, b: int)
    ensures
        a <= larger(a, b) && b <= larger(a, b),
        smaller(a, b) <= a && smaller(a, b) <= b,
        larger(a, b) == a && smaller(a, b) == b || larger(a, b) == b && smaller(a, b) == a,
{
}

/// Clamping stays in range, keeps what is already there, and otherwise ends on
/// the side that the value came from.
pub proof fn law_clamping_is_nearest(x: int, lo: int, hi: int)
    requires
        lo <= hi,
    ensures
        lo <= clamped(x, lo, hi) <= hi,
        lo <= x <= hi ==> clamped(x, lo, hi) == x,
        x < lo ==> clamped(x, lo, hi) == lo,
        hi < x ==> clamped(x, lo, hi) == hi,
{
}

/// A distance is never negative, is the same both ways, and leads from one
/// number to the other.
pub proof fn law_distances_are_symmetric(a: int, b: int)
    ensures
        0 <= distance(a, b) == distance(b, a),
        a + distance(a, b) == b || b + distance(a, b) == a,
{
}

/// The square root, rounded down, squares to no more than the number, and the
/// next number squares to more.
pub proof fn law_root_squares_back(n: int)
    requires
        0 <= n,
    ensures
        0 <= root(n),
        root(n) * root(n) <= n < (root(n) + 1) * (root(n) + 1),
{
    law_root_exists(n);
}

/// Whatever squares to no more than a number, while the next number squares to
/// more, is its root.
pub proof fn law_root_is(n: int, r: int)
    requires
        0 <= r,
        r * r <= n < (r + 1) * (r + 1),
    ensures
        root(n) == r,
{
    law_root_is_unique(n, r);
}

/// The product of two fractions is the byte nearest to the exact one, and the
/// order of the factors does not matter.
pub proof fn law_scale255_is_nearest(value: int, scale: int)
    ensures
        -127 <= value * scale - 255 * scaled255(value, scale) <= 127,
        scaled255(value, scale) == scaled255(scale, value),
{
    assert(value * scale == scale * value) by (nonlinear_arith);
}

/// Scaling by `scale` keeps `1 + scale` parts out of 256, rounded down:
/// everything at 255.
pub proof fn law_scale8_keeps_a_share(value: int, scale: int)
    requires
        0 <= value,
        0 <= scale <= 255,
    ensures
        256 * scaled8(value, scale) <= value * (1 + scale) < 256 * scaled8(value, scale) + 256,
        0 <= scaled8(value, scale) <= value,
        scaled8(value, 255) == value,
{
    assert(0 <= value * (1 + scale) <= value * 256) by (nonlinear_arith)
        requires
            0 <= value,
            0 <= scale <= 255,
    ;
}

/// A soft edge loses light in proportion to the distance: 255 parts over one
/// step more than the radius, rounded down.
pub proof fn law_edge_falls_off_evenly(distance: int, radius: int)
    requires
        0 <= distance <= radius,
    ensures
        ({
            let lost = 255 - edge_falloff(distance, radius);
            lost * (radius + 1) <= distance * 255 < lost * (radius + 1) + radius + 1
        }),
{
    lemma_quotient(distance * 255, radius + 1);
}

/// The smoothed ramp runs from 0 to 255 without ever falling, at half slope
/// over its outer quarters and at one and a half between them.
pub proof fn law_the_ramp_is_smooth(i: int, j: int)
    requires
        0 <= i <= j <= 255,
    ensures
        eased(0) == 0,
        eased(255) == 255,
        0 <= eased(i) <= eased(j) <= 255,
        i < 64 ==> i - 1 <= 2 * eased(i) <= i,
        i > 191 ==> 255 - i - 1 <= 2 * (255 - eased(i)) <= 255 - i,
        64 <= i <= 191 ==> 3 * (i - 64) - 1 <= 2 * (eased(i) - 32) <= 3 * (i - 64),
{
}

/// A half wave rises over its first quarter, comes down as it went up, and
/// passes its knots exactly.
pub proof fn law_half_waves_are_mirrored(phase: int, later: int)
    requires
        0 <= phase <= later <= 64,
    ensures
        0 <= half_wave(phase) <= half_wave(later) <= 127,
        1 <= phase ==> half_wave(128 - phase) == half_wave(phase),
        half_wave(0) == 0,
        half_wave(16) == 49,
        half_wave(32) == 90,
        half_wave(48) == 117,
        half_wave(64) == 127,
        phase < 16 ==> 49 * phase - 15 <= 16 * half_wave(phase) <= 49 * phase,
        16 <= phase < 32 ==> 41 * (phase - 16) - 15 <= 16 * (half_wave(phase) - 49) <= 41 * (phase
            - 16),
        32 <= phase < 48 ==> 27 * (phase - 32) - 15 <= 16 * (half_wave(phase) - 90) <= 27 * (phase
            - 32),
        48 <= phase < 64 ==> 10 * (phase - 48) - 15 <= 16 * (half_wave(phase) - 117) <= 10 * (phase
            - 48),
{
    lemma_quarter(phase);
    lemma_quarter(later);
}

/// The pieces of a quarter, and the mirrored ones.
proof fn lemma_quarter(phase: int)
    requires
        0 <= phase <= 64,
    ensures
        phase < 16 ==> half_wave(phase) == 49 * phase / 16,
        16 <= phase < 32 ==> half_wave(phase) == 49 + 41 * (phase - 16) / 16,
        32 <= phase < 48 ==> half_wave(phase) == 90 + 27 * (phase - 32) / 16,
        48 <= phase <= 64 ==> half_wave(phase) == 117 + 10 * (phase - 48) / 16,
        1 <= phase ==> half_wave(128 - phase) == half_wave(phase),
{
    if phase < 64 {
        let (section, within) = (phase / 16, phase % 16);
        assert(phase == 16 * section + within);
    }
    if 1 <= phase {
        let back = 127 - (128 - phase);
        assert(back == phase - 1);
        assert(back / 16 == (phase - 1) / 16 && back % 16 + 1 == (phase - 1) % 16 + 1);
    }
}

/// A sine wave is its half wave, up and then down around 128; a cosine is the
/// sine a quarter turn on.
pub proof fn law_waves_swing_around_the_middle(theta: int)
    requires
        0 <= theta < 128,
    ensures
        sine(theta) == 128 + half_wave(theta),
        sine(theta) + sine(theta + 128) == 256,
        cosine(theta) == sine(theta + 64),
        cosine(theta + 128) == sine((theta + 192) % 256),
{
    let ahead = if theta + 128 < 192 {
        theta + 128 + 64
    } else {
        theta + 128 - 192
    };
    assert((theta + 192) % 256 == ahead);
    assert(theta + 128 - 128 == theta);
}

} // verus!
