//! GRADIENT: the palette from the top row to the bottom row, standing still.
use vstd::prelude::*;

use super::FrameParams;
use crate::color::Hsv;
use crate::layout::LedLayout;
use crate::math;
use crate::palette;
use crate::palette::interp_color;

verus! {

/// A board is taken to be at least this tall.
pub const MIN_HEIGHT: u8 = 64;

/// Height of the board: the lowest of the first `n` LEDs.
pub open spec fn height(leds: Seq<(u8, u8)>, n: int) -> int
    decreases n,
{
    if n <= 0 {
        MIN_HEIGHT as int
    } else {
        math::larger(height(leds, n - 1), leds[n - 1].1 as int)
    }
}

/// Palette position of a row.
pub open spec fn row_level(y: int, height: int) -> int {
    255 - y * 255 / height
}

/// The color of the LED at `led` on the board `leds`.
pub open spec fn pixel(frame: FrameParams<'_>, leds: Seq<(u8, u8)>, led: (u8, u8)) -> Hsv {
    palette::color_at(
        frame.palette@,
        row_level(led.1 as int, height(leds, leds.len() as int)) as u8,
        frame.sat,
        frame.val,
    )
}

/// The frame. Pixels beyond the layout keep what they held.
pub open spec fn painted(frame: FrameParams<'_>, leds: Seq<(u8, u8)>, out: Seq<Hsv>) -> Seq<Hsv> {
    Seq::new(
        out.len(),
        |i: int|
            if i < leds.len() {
                pixel(frame, leds, leds[i])
            } else {
                out[i]
            },
    )
}

proof fn lemma_height(leds: Seq<(u8, u8)>, n: int, k: int)
    requires
        0 <= n <= leds.len(),
    ensures
        MIN_HEIGHT <= height(leds, n) <= 255,
        0 <= k < n ==> leds[k].1 <= height(leds, n),
    decreases n,
{
    if n > 0 {
        lemma_height(leds, n - 1, k);
    }
}

fn board_height<L: LedLayout>(layout: &L) -> (r: u8)
    ensures
        r == height(layout.leds(), layout.leds().len() as int),
{
    let count: usize = layout.count();
    let mut found: u8 = MIN_HEIGHT;
    let mut i: usize = 0;
    while i < count
        invariant
            i <= count,
            count == layout.leds().len(),
            found == height(layout.leds(), i as int),
        decreases count - i,
    {
        let (_, y) = layout.position(i);
        if y > found {
            found = y;
        }
        i += 1;
    }
    found
}

/// Renders the gradient.
pub fn gradient<L: LedLayout>(layout: &L, params: FrameParams<'_>, out: &mut [Hsv])
    ensures
        final(out)@ == painted(params, layout.leds(), old(out)@),
{
    let tall: u8 = board_height(layout);
    let count: usize = layout.count();
    let len: usize = out.len();
    let ghost start = out@;
    let mut i: usize = 0;
    while i < len && i < count
        invariant
            i <= len,
            i <= count,
            len == out@.len(),
            len == start.len(),
            count == layout.leds().len(),
            tall == height(layout.leds(), count as int),
            forall|j: int|
                0 <= j < i ==> out@[j] == pixel(params, layout.leds(), layout.leds()[j]),
            forall|j: int| i <= j < len ==> out@[j] == start[j],
        decreases len - i,
    {
        let (_, y) = layout.position(i);
        proof {
            lemma_height(layout.leds(), count as int, i as int);
            lemma_row(y as int, tall as int);
        }
        let level: u8 = (255 - y as u32 * 255 / tall as u32) as u8;
        out[i] = interp_color(params.palette, level, params.sat, params.val);
        i += 1;
    }
    assert(out@ =~= painted(params, layout.leds(), start));
}

proof fn lemma_row(y: int, tall: int)
    requires
        0 <= y <= tall,
        1 <= tall,
    ensures
        0 <= y * 255 / tall <= 255,
        y == tall ==> y * 255 / tall == 255,
        y == 0 ==> y * 255 / tall == 0,
{
    assert(0 <= y * 255 / tall <= 255) by (nonlinear_arith)
        requires
            0 <= y <= tall,
            1 <= tall,
    ;
    if y == tall {
        assert(tall * 255 / tall == 255) by (nonlinear_arith)
            requires
                1 <= tall,
        ;
    }
    if y == 0 {
        assert(0int / tall == 0) by (nonlinear_arith)
            requires
                1 <= tall,
        ;
    }
}

/// The top of the board wears the end of the palette, and the bottom row its
/// beginning.
pub proof fn law_the_gradient_spans_the_palette(tall: int)
    requires
        MIN_HEIGHT <= tall,
    ensures
        row_level(0, tall) == 255,
        row_level(tall, tall) == 0,
{
    lemma_row(0, tall);
    lemma_row(tall, tall);
}

/// The board is as tall as its lowest LED, and at least 64: no LED lies lower,
/// and one lies there unless all lie higher than that.
pub proof fn law_the_board_ends_at_its_lowest_led(leds: Seq<(u8, u8)>, n: int, k: int)
    requires
        0 <= k < n <= leds.len(),
    ensures
        64 <= height(leds, n) <= 255,
        leds[k].1 <= height(leds, n),
        height(leds, n) == 64 || exists|j: int|
            0 <= j < n && (#[trigger] leds[j]).1 == height(leds, n),
    decreases n,
{
    lemma_height(leds, n, k);
    if n > 1 {
        law_the_board_ends_at_its_lowest_led(leds, n - 1, 0);
        let before = height(leds, n - 1);
        if height(leds, n) == before && before != 64 {
            let j = choose|j: int| 0 <= j < n - 1 && (#[trigger] leds[j]).1 == before;
            assert(leds[j].1 == height(leds, n));
        } else if height(leds, n) != before {
            assert(leds[n - 1].1 == height(leds, n));
        }
    } else {
        assert(height(leds, 0) == 64);
        assert(leds[0].1 <= height(leds, n));
    }
}

/// The palette runs up the board: a row loses 255ths of the palette in
/// proportion to its distance from the top, rounded down, and a lower row never
/// wears a later color.
pub proof fn law_rows_follow_the_palette(y: int, lower: int, tall: int)
    requires
        0 <= y <= lower <= tall,
        1 <= tall,
    ensures
        ({
            let lost = 255 - row_level(y, tall);
            lost * tall <= y * 255 < lost * tall + tall
        }),
        0 <= row_level(lower, tall) <= row_level(y, tall) <= 255,
{
    math::lemma_quotient(y * 255, tall);
    math::lemma_quotient(lower * 255, tall);
    lemma_row(y, tall);
    lemma_row(lower, tall);
    let (a, b) = (y * 255 / tall, lower * 255 / tall);
    assert(a <= b) by (nonlinear_arith)
        requires
            y <= lower,
            1 <= tall,
            a * tall <= y * 255,
            lower * 255 < b * tall + tall,
    ;
}

/// A row is one color: LEDs of the same height look alike, in the palette's
/// color for that height at the saturation and brightness of the frame.
pub proof fn law_a_row_is_one_color(
    frame: FrameParams<'_>,
    leds: Seq<(u8, u8)>,
    a: u8,
    b: u8,
    y: u8,
)
    ensures
        pixel(frame, leds, (a, y)) == pixel(frame, leds, (b, y)),
        pixel(frame, leds, (a, y)) == palette::color_at(
            frame.palette@,
            row_level(y as int, height(leds, leds.len() as int)) as u8,
            frame.sat,
            frame.val,
        ),
{
}

} // verus!
