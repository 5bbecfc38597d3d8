//! Color types and the HSV to RGB conversion.
//!
//! Hue sweeps a full turn over 0..=255, so each 60 degree sector is 43 wide;
//! saturation and value are ordinary 0..=255 fractions.
use vstd::prelude::*;

use crate::math;

verus! {

/// 8-bit HSV triple.
#[derive(Copy, Clone, Debug, PartialEq, Eq, Structural)]
pub struct Hsv {
    pub h: u8,
    pub s: u8,
    pub v: u8,
}

/// The black every sparse effect leaves unlit LEDs at.
pub open spec fn black() -> Hsv {
    Hsv { h: 0, s: 0, v: 0 }
}

impl Hsv {
    pub fn new(h: u8, s: u8, v: u8) -> (color: Self)
        ensures
            color == (Hsv { h, s, v }),
    {
        Self { h, s, v }
    }
}

impl Default for Hsv {
    fn default() -> (color: Self)
        ensures
            color == black(),
    {
        Self { h: 0, s: 0, v: 0 }
    }
}

/// 8-bit RGB triple.
#[derive(Copy, Clone, Debug, PartialEq, Eq, Structural)]
pub struct Rgb {
    pub r: u8,
    pub g: u8,
    pub b: u8,
}

impl Rgb {
    pub fn new(r: u8, g: u8, b: u8) -> (color: Self)
        ensures
            color == (Rgb { r, g, b }),
    {
        Self { r, g, b }
    }
}

impl Default for Rgb {
    fn default() -> (color: Self)
        ensures
            color == (Rgb { r: 0, g: 0, b: 0 }),
    {
        Self { r: 0, g: 0, b: 0 }
    }
}

/// One channel of a blend: the weighted mean, rounded to the nearest byte.
pub open spec fn blended_channel(base: int, overlay: int, alpha: int) -> int {
    (base * (255 - alpha) + overlay * alpha + 127) / 255
}

/// `overlay` over `base` with coverage `alpha`.
pub open spec fn blended(base: Rgb, overlay: Rgb, alpha: u8) -> Rgb {
    Rgb {
        r: blended_channel(base.r as int, overlay.r as int, alpha as int) as u8,
        g: blended_channel(base.g as int, overlay.g as int, alpha as int) as u8,
        b: blended_channel(base.b as int, overlay.b as int, alpha as int) as u8,
    }
}

/// A blended channel lies between its two sources.
pub proof fn law_blend_stays_between(base: int, overlay: int, alpha: int)
    requires
        0 <= alpha <= 255,
    ensures
        base <= overlay ==> base <= blended_channel(base, overlay, alpha) <= overlay,
        overlay <= base ==> overlay <= blended_channel(base, overlay, alpha) <= base,
{
    let rest = 255 - alpha;
    assert(base * rest + overlay * alpha == base * 255 + (overlay - base) * alpha) by (nonlinear_arith)
        requires
            rest == 255 - alpha,
    ;
    assert(base <= overlay ==> 0 <= (overlay - base) * alpha <= (overlay - base) * 255) by (nonlinear_arith)
        requires
            0 <= alpha <= 255,
    ;
    assert(overlay <= base ==> (overlay - base) * 255 <= (overlay - base) * alpha <= 0) by (nonlinear_arith)
        requires
            0 <= alpha <= 255,
    ;
}

/// The endpoints of a blend are exact: no coverage leaves the base, full
/// coverage leaves the overlay.
pub proof fn law_blend_endpoints(base: Rgb, overlay: Rgb)
    ensures
        blended(base, overlay, 0) == base,
        blended(base, overlay, 255) == overlay,
{
}

/// Blending a color with itself changes nothing.
pub proof fn law_blend_with_itself(color: Rgb, alpha: u8)
    ensures
        blended(color, color, alpha) == color,
{
    law_blend_stays_between(color.r as int, color.r as int, alpha as int);
    law_blend_stays_between(color.g as int, color.g as int, alpha as int);
    law_blend_stays_between(color.b as int, color.b as int, alpha as int);
}

fn blend_channel(base: u8, overlay: u8, alpha: u8) -> (channel: u8)
    ensures
        channel == blended_channel(base as int, overlay as int, alpha as int),
{
    proof {
        law_blend_stays_between(base as int, overlay as int, alpha as int);
        math::lemma_product_bound(base as int, 255, 255 - alpha as int, 255);
        math::lemma_product_bound(overlay as int, 255, alpha as int, 255);
    }
    ((base as u32 * (255 - alpha as u32) + overlay as u32 * alpha as u32 + 127) / 255) as u8
}

/// Alpha-composes `overlay` over `base` with straight 0..=255 coverage.
pub fn blend_rgb(base: Rgb, overlay: Rgb, alpha: u8) -> (color: Rgb)
    ensures
        color == blended(base, overlay, alpha),
        alpha == 0 ==> color == base,
        alpha == 255 ==> color == overlay,
{
    proof {
        law_blend_endpoints(base, overlay);
    }
    Rgb::new(
        blend_channel(base.r, overlay.r, alpha),
        blend_channel(base.g, overlay.g, alpha),
        blend_channel(base.b, overlay.b, alpha),
    )
}

/// How far `hue` is into its sector, in steps of 6 from 0 to 252.
pub open spec fn sector_ramp(hue: int) -> int {
    hue % 43 * 6
}

/// The channel that a saturation of `share` out of 255 dims.
pub open spec fn dimmed(v: int, share: int) -> int {
    v * (255 - share) / 256
}

/// The RGB color of `hsv` on the six-sector spectrum: inside each sector one
/// channel holds at the value, one at the floor, and the third ramps.
pub open spec fn rgb_of(hsv: Hsv) -> Rgb {
    let (h, s, v) = (hsv.h as int, hsv.s as int, hsv.v as int);
    let ramp = sector_ramp(h);
    let floor = dimmed(v, s) as u8;
    let falling = dimmed(v, s * ramp / 256) as u8;
    let rising = dimmed(v, s * (255 - ramp) / 256) as u8;
    if h / 43 == 0 {
        Rgb { r: hsv.v, g: rising, b: floor }
    } else if h / 43 == 1 {
        Rgb { r: falling, g: hsv.v, b: floor }
    } else if h / 43 == 2 {
        Rgb { r: floor, g: hsv.v, b: rising }
    } else if h / 43 == 3 {
        Rgb { r: floor, g: falling, b: hsv.v }
    } else if h / 43 == 4 {
        Rgb { r: rising, g: floor, b: hsv.v }
    } else {
        Rgb { r: hsv.v, g: floor, b: falling }
    }
}

proof fn lemma_dimmed(v: int, share: int)
    requires
        0 <= v <= 255,
        0 <= share <= 255,
    ensures
        0 <= v * (255 - share) <= 65025,
        0 <= dimmed(v, share) <= v,
{
    math::lemma_product_bound(v, 255, 255 - share, 255);
    assert(v * (255 - share) <= v * 255) by (nonlinear_arith)
        requires
            0 <= v,
            0 <= share,
    ;
}

proof fn lemma_share(s: int, ramp: int)
    requires
        0 <= s <= 255,
        0 <= ramp <= 255,
    ensures
        0 <= s * ramp <= 65025,
        0 <= s * ramp / 256 <= 255,
{
    math::lemma_product_bound(s, 255, ramp, 255);
}

/// No channel exceeds the value, and one of them equals it.
pub proof fn law_value_is_the_brightest_channel(hsv: Hsv)
    ensures
        rgb_of(hsv).r <= hsv.v,
        rgb_of(hsv).g <= hsv.v,
        rgb_of(hsv).b <= hsv.v,
        rgb_of(hsv).r == hsv.v || rgb_of(hsv).g == hsv.v || rgb_of(hsv).b == hsv.v,
{
    let (h, s, v) = (hsv.h as int, hsv.s as int, hsv.v as int);
    let ramp = sector_ramp(h);
    lemma_dimmed(v, s);
    lemma_share(s, ramp);
    lemma_share(s, 255 - ramp);
    lemma_dimmed(v, s * ramp / 256);
    lemma_dimmed(v, s * (255 - ramp) / 256);
}

/// A color without value is black whatever its hue and saturation.
pub proof fn law_no_value_is_black(hsv: Hsv)
    requires
        hsv.v == 0,
    ensures
        rgb_of(hsv) == (Rgb { r: 0, g: 0, b: 0 }),
{
    law_value_is_the_brightest_channel(hsv);
}

/// Integer HSV to RGB conversion; see [`rgb_of`].
pub fn hsv_to_rgb(hsv: Hsv) -> (color: Rgb)
    ensures
        color == rgb_of(hsv),
{
    let h: u32 = hsv.h as u32;
    let s: u32 = hsv.s as u32;
    let v: u32 = hsv.v as u32;

    let sector: u32 = h / 43;
    let remainder: u32 = (h % 43) * 6;
    proof {
        lemma_dimmed(v as int, s as int);
        lemma_share(s as int, remainder as int);
        lemma_share(s as int, 255 - remainder as int);
        lemma_dimmed(v as int, s * remainder / 256);
        lemma_dimmed(v as int, s * (255 - remainder) / 256);
    }
    let p: u32 = v * (255 - s) / 256;
    let q: u32 = v * (255 - s * remainder / 256) / 256;
    let t: u32 = v * (255 - s * (255 - remainder) / 256) / 256;

    match sector {
        0 => Rgb::new(v as u8, t as u8, p as u8),
        1 => Rgb::new(q as u8, v as u8, p as u8),
        2 => Rgb::new(p as u8, v as u8, t as u8),
        3 => Rgb::new(p as u8, q as u8, v as u8),
        4 => Rgb::new(t as u8, p as u8, v as u8),
        _ => Rgb::new(v as u8, p as u8, q as u8),
    }
}

/// Each channel of a blend is the byte nearest to the mean of the two sources'
/// own channels, weighted by the coverage.
pub proof fn law_blends_are_weighted_means(base: Rgb, overlay: Rgb, alpha: u8)
    ensures
        ({
            let color = blended(base, overlay, alpha);
            let rest = 255 - alpha;
            &&& -127 <= base.r * rest + overlay.r * alpha - 255 * color.r <= 127
            &&& -127 <= base.g * rest + overlay.g * alpha - 255 * color.g <= 127
            &&& -127 <= base.b * rest + overlay.b * alpha - 255 * color.b <= 127
        }),
{
    law_blend_stays_between(base.r as int, overlay.r as int, alpha as int);
    law_blend_stays_between(base.g as int, overlay.g as int, alpha as int);
    law_blend_stays_between(base.b as int, overlay.b as int, alpha as int);
}

/// The hue decides which channel is the brightest and which is at the floor.
/// Red leads from 215 over 0 to 42, green from 43 to 128 and blue from 129 to
/// 214; the channel that trails is blue below 86, red from there to 171 and
/// green above.
pub proof fn law_hue_picks_the_channels(hsv: Hsv)
    ensures
        ({
            let (h, color) = (hsv.h, rgb_of(hsv));
            let lead = if h < 43 || h >= 215 {
                color.r
            } else if h < 129 {
                color.g
            } else {
                color.b
            };
            let floor = if h < 86 {
                color.b
            } else if h < 172 {
                color.r
            } else {
                color.g
            };
            &&& lead == hsv.v
            &&& 256 * floor <= hsv.v * (255 - hsv.s) < 256 * floor + 256
            &&& floor <= color.r && floor <= color.g && floor <= color.b
        }),
{
    let (h, s, v) = (hsv.h as int, hsv.s as int, hsv.v as int);
    let ramp = sector_ramp(h);
    lemma_dimmed(v, s);
    lemma_share(s, ramp);
    lemma_share(s, 255 - ramp);
    lemma_dimmed(v, s * ramp / 256);
    lemma_dimmed(v, s * (255 - ramp) / 256);
    lemma_less_dimmed(v, s * ramp / 256, s, ramp);
    lemma_less_dimmed(v, s * (255 - ramp) / 256, s, 255 - ramp);
}

proof fn lemma_less_dimmed(v: int, share: int, s: int, ramp: int)
    requires
        0 <= v <= 255,
        0 <= s <= 255,
        0 <= ramp <= 255,
        share == s * ramp / 256,
    ensures
        dimmed(v, s) <= dimmed(v, share),
{
    assert(s * ramp <= s * 256) by (nonlinear_arith)
        requires
            0 <= s,
            ramp <= 255,
    ;
    assert(v * (255 - s) <= v * (255 - share)) by (nonlinear_arith)
        requires
            0 <= v,
            share <= s,
    ;
}

/// Between two hues of one sector only the third channel changes, and always
/// the same way: green rises from red to yellow, red falls from there to green,
/// blue rises to cyan, green falls to blue, red rises to magenta, and blue
/// falls back to red.
pub proof fn law_the_spectrum_turns_one_way(hsv: Hsv, later: u8)
    requires
        hsv.h <= later,
        hsv.h / 43 == later / 43,
    ensures
        ({
            let a = rgb_of(hsv);
            let b = rgb_of(Hsv { h: later, ..hsv });
            let h = hsv.h;
            &&& h < 43 ==> a.r == b.r && a.g <= b.g && a.b == b.b
            &&& 43 <= h < 86 ==> a.r >= b.r && a.g == b.g && a.b == b.b
            &&& 86 <= h < 129 ==> a.r == b.r && a.g == b.g && a.b <= b.b
            &&& 129 <= h < 172 ==> a.r == b.r && a.g >= b.g && a.b == b.b
            &&& 172 <= h < 215 ==> a.r <= b.r && a.g == b.g && a.b == b.b
            &&& 215 <= h ==> a.r == b.r && a.g == b.g && a.b >= b.b
        }),
{
    let (s, v) = (hsv.s as int, hsv.v as int);
    let near = sector_ramp(hsv.h as int);
    let far = sector_ramp(later as int);
    assert(near <= far);
    assert(hsv.h % 43 <= later % 43);
    lemma_share(s, near);
    lemma_share(s, far);
    lemma_share(s, 255 - near);
    lemma_share(s, 255 - far);
    assert(s * near <= s * far) by (nonlinear_arith)
        requires
            0 <= s,
            near <= far,
    ;
    assert(s * (255 - far) <= s * (255 - near)) by (nonlinear_arith)
        requires
            0 <= s,
            near <= far,
    ;
    lemma_dims_more(v, s * near / 256, s * far / 256);
    lemma_dims_more(v, s * (255 - far) / 256, s * (255 - near) / 256);
}

proof fn lemma_dims_more(v: int, share: int, more: int)
    requires
        0 <= v <= 255,
        0 <= share <= more <= 255,
    ensures
        0 <= dimmed(v, more) <= dimmed(v, share) <= 255,
{
    lemma_dimmed(v, share);
    lemma_dimmed(v, more);
    assert(v * (255 - more) <= v * (255 - share)) by (nonlinear_arith)
        requires
            0 <= v,
            share <= more,
    ;
}

/// The third channel covers its sector evenly: `k` hues into a sector, the
/// saturation acts on it by `6 * k` parts out of 256 where it falls, and by
/// what is left of 255 where it rises.
pub proof fn law_the_third_channel_ramps(hsv: Hsv)
    ensures
        ({
            let color = rgb_of(hsv);
            let sector = hsv.h as int / 43;
            let k = hsv.h as int - 43 * sector;
            let third = if sector == 1 || sector == 4 {
                color.r
            } else if sector == 0 || sector == 3 {
                color.g
            } else {
                color.b
            };
            let parts = if sector == 1 || sector == 3 || sector == 5 {
                6 * k
            } else {
                255 - 6 * k
            };
            let share = hsv.s * parts / 256;
            256 * third <= hsv.v * (255 - share) < 256 * third + 256
        }),
{
    let (h, s, v) = (hsv.h as int, hsv.s as int, hsv.v as int);
    let ramp = sector_ramp(h);
    lemma_share(s, ramp);
    lemma_share(s, 255 - ramp);
    lemma_dimmed(v, s * ramp / 256);
    lemma_dimmed(v, s * (255 - ramp) / 256);
}

/// A third of a turn passes each channel on to the next: red becomes green,
/// green becomes blue and blue becomes red.
pub proof fn law_a_third_of_a_turn_rotates_the_channels(hsv: Hsv)
    requires
        hsv.h <= 169,
    ensures
        ({
            let a = rgb_of(hsv);
            let b = rgb_of(Hsv { h: (hsv.h + 86) as u8, ..hsv });
            b.g == a.r && b.b == a.g && b.r == a.b
        }),
{
    let h = hsv.h as int;
    assert((h + 86) / 43 == h / 43 + 2);
    assert((h + 86) % 43 == h % 43);
}

/// Without saturation every hue is the same gray: one channel at the value and
/// none more than one below it.
pub proof fn law_no_saturation_is_gray(hsv: Hsv)
    requires
        hsv.s == 0,
    ensures
        rgb_of(hsv).r + 1 >= hsv.v && rgb_of(hsv).g + 1 >= hsv.v && rgb_of(hsv).b + 1 >= hsv.v,
{
    let ramp = sector_ramp(hsv.h as int);
    assert(0 * ramp / 256 == 0 && 0 * (255 - ramp) / 256 == 0);
}

} // verus!
