use rmk_palettefx::color::Hsv;
use rmk_palettefx::effects::shockwave::duration_ms;
use rmk_palettefx::effects::{FrameParams, ShockwaveState};
use rmk_palettefx::layout::SliceLayout;
use rmk_palettefx::palette::CARNIVAL;

const POSITIONS: &[(u8, u8)] = &[(128, 128), (248, 128), (248, 248)];

fn frame(timer_ms: u32) -> FrameParams<'static> {
    FrameParams {
        palette: &CARNIVAL,
        speed: 128,
        sat: 255,
        val: 255,
        timer_ms,
    }
}

#[test]
fn ring_moves_away_from_the_pressed_key() {
    let layout = SliceLayout::new(POSITIONS);
    let mut state = ShockwaveState::<4>::new();
    let mut out = [Hsv::default(); 3];
    state.record_hit(&layout, 128, 128, 0);

    state.tick(&layout, frame(0), &mut out);
    assert_ne!(out[0].v, 0);
    assert_eq!(out[1].v, 0);

    // The second LED is 60 units away and the diagonal LED is 84 units
    // away in the effect's half-distance grid.
    let at_radius_60 = duration_ms(128) * 60 / 84;
    state.tick(&layout, frame(at_radius_60), &mut out);
    assert_eq!(out[0].v, 0);
    assert_ne!(out[1].v, 0);
    assert_eq!(out[2].v, 0);
}

#[test]
fn expired_ring_is_transparent() {
    let layout = SliceLayout::new(POSITIONS);
    let mut state = ShockwaveState::<1>::new();
    let mut out = [Hsv::default(); 3];
    state.record_hit(&layout, 128, 128, 0);
    state.tick(&layout, frame(duration_ms(128)), &mut out);
    assert!(out.iter().all(|pixel| *pixel == Hsv::default()));
}

#[test]
fn a_ring_starts_on_the_key() {
    let layout = SliceLayout::new(POSITIONS);
    let mut state = ShockwaveState::<2>::new();
    let mut out = [Hsv::new(1, 2, 3); 4];
    state.record_hit(&layout, 128, 128, 0);
    state.tick(&layout, frame(0), &mut out);
    // Palette position 192.
    assert_eq!(out[0], Hsv::new(181, 255, 255));
    assert_eq!(out[2], Hsv::default());
    assert_eq!(out[3], Hsv::default(), "beyond the layout");
}

#[test]
fn every_press_moves_on_along_the_palette() {
    const TWO: &[(u8, u8)] = &[(0, 0), (255, 255)];
    let layout = SliceLayout::new(TWO);
    let mut state = ShockwaveState::<2>::new();
    let mut out = [Hsv::default(); 2];
    state.record_hit(&layout, 0, 0, 0);
    state.record_hit(&layout, 255, 255, 0);
    state.tick(&layout, frame(0), &mut out);
    // Palette positions 0 and 155.
    assert_eq!(out[0], Hsv::new(0, 255, 255));
    assert_eq!(out[1], Hsv::new(139, 255, 255));
}

#[test]
fn shockwave_lifetimes_follow_the_speed() {
    assert_eq!(duration_ms(128), 900);
    assert_eq!(duration_ms(0), 1350);
    assert_eq!(duration_ms(255), 453);
}
