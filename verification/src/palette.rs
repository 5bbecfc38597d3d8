//! Palettes: sixteen packed colors that effects sweep through.
use vstd::prelude::*;

use crate::color::Hsv;
use crate::math;
use crate::math::{abs_diff, scale8};

verus! {

/// Sixteen colors. Each is packed as value (4 bits), saturation (4 bits) and
/// hue (8 bits), from the highest bit down.
pub type Palette = [u16; 16];

/// Warm ambers over a dark floor.
pub const AMBER: [u16; 16] = [
    0x4F0E, 0x5F0F, 0x6F10, 0x7F11, 0x8F12, 0x9F13, 0xAF14, 0xBF15, 0xCF16, 0xDF17, 0xEF18, 0xFE19,
    0xFD1A, 0xFC1B, 0xFA1C, 0xF81D,
];

/// Saturated hues all the way round the wheel.
pub const CARNIVAL: [u16; 16] = [
    0xFF00, 0xFF0C, 0xFF18, 0xFF24, 0xFF30, 0xFF40, 0xFF52, 0xFF64, 0xFF76, 0xFF88, 0xFF9A, 0xFFAC,
    0xFFBE, 0xFFD0, 0xFFE2, 0xFFF4,
];

/// Terminal greens that whiten toward the bright end.
pub const PHOSPHOR: [u16; 16] = [
    0x3F58, 0x4F58, 0x5F57, 0x6F57, 0x7F56, 0x8F56, 0x9F56, 0xAF55, 0xBF55, 0xCF55, 0xDE54, 0xEC54,
    0xFA54, 0xF853, 0xF653, 0xF453,
];

/// Heat: violet through red and yellow to white.
pub const THERMAL: [u16; 16] = [
    0x5FBE, 0x6FC6, 0x7FD0, 0x8FDA, 0x9FE4, 0xAFEE, 0xBFF8, 0xCF02, 0xDF0A, 0xEF12, 0xFF1A, 0xFF22,
    0xFD2A, 0xFA2C, 0xF72D, 0xF42E,
];

/// Number of built-in palettes.
pub const PALETTE_COUNT: usize = 4;

/// The palettes that the palette keys cycle through.
pub const BUILTIN_PALETTES: [[u16; 16]; PALETTE_COUNT] = [AMBER, CARNIVAL, PHOSPHOR, THERMAL];

/// Display names of [`BUILTIN_PALETTES`], in the same order.
pub const BUILTIN_PALETTE_NAMES: [&'static str; PALETTE_COUNT] = ["Amber", "Carnival", "Phosphor", "Thermal"];

/// One packed color.
pub open spec fn unpacked(entry: u16) -> Hsv {
    Hsv {
        h: (entry % 256) as u8,
        s: (entry as int / 256 % 16 * 17) as u8,
        v: (entry as int / 4096 * 17) as u8,
    }
}

fn unpack(entry: u16) -> (color: Hsv)
    ensures
        color == unpacked(entry),
{
    Hsv {
        h: (entry % 256) as u8,
        s: (entry / 256 % 16 * 17) as u8,
        v: (entry / 4096 * 17) as u8,
    }
}

/// From `a` toward `b` by the fraction `frac`.
pub open spec fn mixed(a: int, b: int, frac: int) -> int {
    if b > a {
        a + math::scaled8(b - a, frac)
    } else {
        a - math::scaled8(a - b, frac)
    }
}

fn mix(a: u8, b: u8, frac: u8) -> (m: u8)
    ensures
        m == mixed(a as int, b as int, frac as int),
{
    if b > a {
        a + scale8(b - a, frac)
    } else {
        a - scale8(a - b, frac)
    }
}

/// [`mixed`] for hues: goes the short way round the wheel.
pub open spec fn mixed_hue(a: int, b: int, frac: int) -> int {
    if math::distance(a, b) >= 128 {
        (mixed((a + 128) % 256, (b + 128) % 256, frac) + 128) % 256
    } else {
        mixed(a, b, frac)
    }
}

fn mix_hue(a: u8, b: u8, frac: u8) -> (m: u8)
    ensures
        m == mixed_hue(a as int, b as int, frac as int),
{
    if abs_diff(a, b) >= 128 {
        mix(a.wrapping_add(128), b.wrapping_add(128), frac).wrapping_add(128)
    } else {
        mix(a, b, frac)
    }
}

/// Palette coordinate of position `x`: the ends of the range hold the first
/// and last color, and every 16 steps between them reach the next color.
pub open spec fn palette_coordinate(x: int) -> int {
    if x <= 8 {
        0
    } else if x < 247 {
        x - 8
    } else {
        239
    }
}

/// The palette's color at `x`, its saturation and value scaled by `sat` and
/// `val`.
pub open spec fn color_at(palette: Seq<u16>, x: u8, sat: u8, val: u8) -> Hsv {
    let at = palette_coordinate(x as int);
    let frac = at % 16 * 16;
    let a = unpacked(palette[at / 16]);
    let b = unpacked(palette[at / 16 + 1]);
    Hsv {
        h: mixed_hue(a.h as int, b.h as int, frac) as u8,
        s: math::scaled8(mixed(a.s as int, b.s as int, frac), sat as int) as u8,
        v: math::scaled8(mixed(a.v as int, b.v as int, frac), val as int) as u8,
    }
}

/// Interpolates `palette` at `x`; see [`color_at`].
pub fn interp_color(palette: &Palette, x: u8, sat: u8, val: u8) -> (color: Hsv)
    ensures
        color == color_at(palette@, x, sat, val),
{
    let at: u8 = if x <= 8 {
        0
    } else if x < 247 {
        x - 8
    } else {
        239
    };
    let index: usize = (at / 16) as usize;
    let frac: u8 = at % 16 * 16;
    let a: Hsv = unpack(palette[index]);
    let b: Hsv = unpack(palette[index + 1]);
    Hsv {
        h: mix_hue(a.h, b.h, frac),
        s: scale8(mix(a.s, b.s, frac), sat),
        v: scale8(mix(a.v, b.v, frac), val),
    }
}

proof fn lemma_mixed(a: int, b: int, frac: int)
    requires
        0 <= a <= 255,
        0 <= b <= 255,
        0 <= frac <= 255,
    ensures
        0 <= mixed(a, b, frac) <= 255,
        mixed(a, b, 0) == a,
{
    let apart = math::distance(a, b);
    assert(0 <= apart * (1 + frac) <= apart * 256) by (nonlinear_arith)
        requires
            0 <= apart,
            0 <= frac <= 255,
    ;
    assert(apart * 1 / 256 == 0);
}

/// Without brightness a palette color has no value.
pub proof fn law_no_brightness_is_dark(palette: Seq<u16>, x: u8, sat: u8)
    ensures
        color_at(palette, x, sat, 0).v == 0,
{
    let at = palette_coordinate(x as int);
    lemma_mixed(
        unpacked(palette[at / 16]).v as int,
        unpacked(palette[at / 16 + 1]).v as int,
        at % 16 * 16,
    );
}

proof fn lemma_mixed_hue(a: int, b: int)
    requires
        0 <= a <= 255,
        0 <= b <= 255,
    ensures
        mixed_hue(a, b, 0) == a,
{
    lemma_mixed(a, b, 0);
    lemma_mixed((a + 128) % 256, (b + 128) % 256, 0);
    assert(((a + 128) % 256 + 128) % 256 == a);
}

proof fn lemma_full_scale(a: int, b: int)
    requires
        0 <= a <= 255,
        0 <= b <= 255,
    ensures
        math::scaled8(mixed(a, b, 0), 255) == a,
{
    lemma_mixed(a, b, 0);
    assert(a * 256 / 256 == a);
}

/// At full saturation and brightness every sixteenth position shows a color
/// of the palette exactly.
pub proof fn law_full_scales_show_the_palette(palette: Seq<u16>, k: int)
    requires
        0 <= k < 15,
    ensures
        color_at(palette, (8 + 16 * k) as u8, 255, 255) == unpacked(palette[k]),
{
    let x = (8 + 16 * k) as u8;
    assert(palette_coordinate(x as int) == 16 * k);
    let (a, b) = (unpacked(palette[k]), unpacked(palette[k + 1]));
    lemma_mixed_hue(a.h as int, b.h as int);
    lemma_full_scale(a.s as int, b.s as int);
    lemma_full_scale(a.v as int, b.v as int);
}

/// A packed color is its value and saturation, both in steps of 17, and its
/// hue, in this order from the highest bits down.
pub proof fn law_packed_colors_read_back(entry: u16)
    ensures
        unpacked(entry).v % 17 == 0,
        unpacked(entry).s % 17 == 0,
        entry == 4096 * (unpacked(entry).v / 17) + 256 * (unpacked(entry).s / 17) + unpacked(
            entry,
        ).h,
{
    let e = entry as int;
    assert(e == 4096 * (e / 4096) + 256 * (e / 256 % 16) + e % 256);
}

/// Mixing goes from the first color toward the second, by `1 + frac` parts out
/// of 256 of the way, and never past it.
pub proof fn law_mixing_moves_toward(a: int, b: int, frac: int)
    requires
        0 <= a <= 255,
        0 <= b <= 255,
        0 <= frac <= 255,
    ensures
        a <= b ==> a <= mixed(a, b, frac) <= b,
        b <= a ==> b <= mixed(a, b, frac) <= a,
        ({
            let moved = math::distance(a, mixed(a, b, frac));
            256 * moved <= math::distance(a, b) * (1 + frac) < 256 * moved + 256
        }),
{
    math::law_scale8_keeps_a_share(math::distance(a, b), frac);
}

/// Hues mix the short way round the wheel: past 255 or past 0 where that is
/// nearer.
pub proof fn law_hues_mix_the_short_way(a: int, b: int, frac: int)
    requires
        0 <= a <= 255,
        0 <= b <= 255,
        0 <= frac <= 255,
    ensures
        -128 < b - a < 128 ==> mixed_hue(a, b, frac) == mixed(a, b, frac),
        b - a >= 128 ==> mixed_hue(a, b, frac) == (a + 256 - math::scaled8(a + 256 - b, frac))
            % 256,
        a - b >= 128 ==> mixed_hue(a, b, frac) == (a + math::scaled8(b + 256 - a, frac)) % 256,
        0 <= mixed_hue(a, b, frac) <= 255,
{
    law_mixing_moves_toward(a, b, frac);
    if b - a >= 128 {
        assert((a + 128) % 256 == a + 128 && (b + 128) % 256 == b - 128);
    }
    if a - b >= 128 {
        assert((a + 128) % 256 == a - 128 && (b + 128) % 256 == b + 128);
        math::law_scale8_keeps_a_share(b + 256 - a, frac);
    }
}

/// Between two palette colors, `j` sixteenths of the way from color `k` to the
/// next, hue, saturation and value are mixed by that share, and saturation and
/// value are then scaled.
pub proof fn law_positions_sweep_the_palette(palette: Seq<u16>, k: int, j: int, sat: u8, val: u8)
    requires
        0 <= k < 15,
        0 <= j < 16,
    ensures
        ({
            let color = color_at(palette, (8 + 16 * k + j) as u8, sat, val);
            let (a, b) = (unpacked(palette[k]), unpacked(palette[k + 1]));
            &&& color.h == mixed_hue(a.h as int, b.h as int, 16 * j)
            &&& color.s == math::scaled8(mixed(a.s as int, b.s as int, 16 * j), sat as int)
            &&& color.v == math::scaled8(mixed(a.v as int, b.v as int, 16 * j), val as int)
        }),
{
    let x = (8 + 16 * k + j) as u8;
    assert(palette_coordinate(x as int) == 16 * k + j);
    assert((16 * k + j) / 16 == k && (16 * k + j) % 16 == j);
    let (a, b) = (unpacked(palette[k]), unpacked(palette[k + 1]));
    law_hues_mix_the_short_way(a.h as int, b.h as int, 16 * j);
    law_mixing_moves_toward(a.s as int, b.s as int, 16 * j);
    law_mixing_moves_toward(a.v as int, b.v as int, 16 * j);
    math::law_scale8_keeps_a_share(mixed(a.s as int, b.s as int, 16 * j), sat as int);
    math::law_scale8_keeps_a_share(mixed(a.v as int, b.v as int, 16 * j), val as int);
}

/// The outermost positions hold the colors at both ends of the sweep.
pub proof fn law_the_ends_of_the_palette_hold(palette: Seq<u16>, x: u8, sat: u8, val: u8)
    ensures
        x <= 8 ==> color_at(palette, x, sat, val) == color_at(palette, 8, sat, val),
        x >= 247 ==> color_at(palette, x, sat, val) == color_at(palette, 247, sat, val),
{
}

} // verus!
