use rmk_palettefx::color::Hsv;
use rmk_palettefx::effects::keyfall::{duration_ms, TRAVEL_END};
use rmk_palettefx::effects::{FrameParams, KeyfallGravity, KeyfallParams, KeyfallState};
use rmk_palettefx::layout::SliceLayout;
use rmk_palettefx::palette::CARNIVAL;

const POSITIONS: &[(u8, u8)] = &[(100, 10), (100, 100), (160, 100), (100, 0)];

fn frame(timer_ms: u32) -> FrameParams<'static> {
    FrameParams {
        palette: &CARNIVAL,
        speed: 128,
        sat: 255,
        val: 255,
        timer_ms,
    }
}

fn head_at_edge() -> u32 {
    duration_ms(128) * (TRAVEL_END as u32 + 2) / 255
}

fn tuned<const N: usize>(gravity: KeyfallGravity) -> KeyfallState<N> {
    KeyfallState::with_params(KeyfallParams {
        gravity: gravity as u8,
    })
}

#[test]
fn streak_falls_below_the_key_without_spreading_sideways_or_upward() {
    let layout = SliceLayout::new(POSITIONS);
    let mut state = KeyfallState::<4>::new();
    let mut out = [Hsv::default(); 4];
    state.record_hit(&layout, 100, 10, 0);

    state.tick(&layout, frame(head_at_edge()), &mut out);
    assert_ne!(out[1].v, 0);
    assert_eq!(out[2].v, 0);
    assert_eq!(out[3].v, 0);
}

#[test]
fn expired_streak_is_transparent() {
    let layout = SliceLayout::new(POSITIONS);
    let mut state = KeyfallState::<1>::new();
    let mut out = [Hsv::default(); 4];
    state.record_hit(&layout, 100, 10, 0);
    state.tick(&layout, frame(duration_ms(128)), &mut out);
    assert!(out.iter().all(|pixel| *pixel == Hsv::default()));
}

#[test]
fn each_gravity_carries_the_streak_to_its_own_edge() {
    // A plus sign around the centre: one neighbour per direction.
    const CROSS: &[(u8, u8)] = &[(128, 128), (128, 255), (128, 0), (0, 128), (255, 128)];
    let layout = SliceLayout::new(CROSS);

    for (gravity, lit) in [
        (KeyfallGravity::Down, 1),
        (KeyfallGravity::Up, 2),
        (KeyfallGravity::Left, 3),
        (KeyfallGravity::Right, 4),
    ] {
        let mut state = tuned::<1>(gravity);
        let mut out = [Hsv::default(); 5];
        state.record_hit(&layout, 128, 128, 0);
        state.tick(&layout, frame(head_at_edge()), &mut out);

        assert_ne!(out[lit].v, 0, "{gravity:?} never reached its neighbour");
        for (index, pixel) in out.iter().enumerate().skip(1) {
            if index != lit {
                assert_eq!(pixel.v, 0, "{gravity:?} lit LED {index}");
            }
        }
    }
}

#[test]
fn streaks_keep_the_gravity_they_launched_with() {
    const COLUMN_AND_ROW: &[(u8, u8)] = &[(128, 128), (128, 255), (255, 128)];
    let layout = SliceLayout::new(COLUMN_AND_ROW);
    let mut state = KeyfallState::<2>::new();
    let mut out = [Hsv::default(); 3];

    state.record_hit(&layout, 128, 128, 0);
    state.set_params(KeyfallParams {
        gravity: KeyfallGravity::Right as u8,
    });
    state.record_hit(&layout, 128, 128, 0);

    state.tick(&layout, frame(head_at_edge()), &mut out);
    assert_ne!(out[1].v, 0, "the downward streak stopped falling");
    assert_ne!(out[2].v, 0, "the rightward streak never launched");
}

#[test]
fn keyfall_out_of_range_parameters_are_declined_without_mutating() {
    let mut params = KeyfallParams::default();
    assert!(!params.set(0, KeyfallParams::GRAVITY_MAX + 1));
    assert!(!params.set(KeyfallParams::COUNT, 0));
    assert_eq!(params, KeyfallParams::default());
    assert_eq!(params.get(KeyfallParams::COUNT), None);

    assert!(params.set(0, KeyfallGravity::Left as u8));
    assert_eq!(params.get(0), Some(KeyfallGravity::Left as u8));
    assert_eq!(params.direction(), KeyfallGravity::Left);
}

#[test]
fn the_default_gravity_is_still_down() {
    assert_eq!(KeyfallParams::default().direction(), KeyfallGravity::Down);
    assert_eq!(KeyfallState::<1>::new().params(), KeyfallParams::default());
    assert_eq!(KeyfallParams::DEFAULTS, [KeyfallParams::default().gravity]);
}

#[test]
fn a_streak_starts_on_its_key() {
    let layout = SliceLayout::new(POSITIONS);
    let mut state = KeyfallState::<2>::new();
    let mut out = [Hsv::new(1, 2, 3); 5];
    state.record_hit(&layout, 100, 10, 0);
    state.tick(&layout, frame(0), &mut out);
    // Palette position 105.
    assert_eq!(out[0], Hsv::new(83, 255, 255));
    assert_eq!(out[1], Hsv::default());
    assert_eq!(out[4], Hsv::default(), "beyond the layout");
}

#[test]
fn each_gravity_projects_its_own_axis() {
    assert_eq!(KeyfallGravity::Down.project(10, 20), (20, 10));
    assert_eq!(KeyfallGravity::Up.project(10, 20), (235, 10));
    assert_eq!(KeyfallGravity::Right.project(10, 20), (10, 20));
    assert_eq!(KeyfallGravity::Left.project(10, 20), (245, 20));
    assert_eq!(KeyfallGravity::from_byte(200), KeyfallGravity::Down);
}

#[test]
fn a_ring_of_streaks_forgets_the_oldest() {
    let layout = SliceLayout::new(POSITIONS);
    let mut state = KeyfallState::<1>::new();
    let mut out = [Hsv::default(); 4];
    state.record_hit(&layout, 100, 10, 0);
    state.record_hit(&layout, 160, 100, 0);
    state.tick(&layout, frame(0), &mut out);
    assert_eq!(out[0].v, 0);
    assert_eq!(out[2].v, 255);
    let mut none = KeyfallState::<0>::new();
    none.record_hit(&layout, 100, 10, 0);
    none.tick(&layout, frame(0), &mut out);
    assert!(out.iter().all(|pixel| *pixel == Hsv::default()));
}

#[test]
fn keyfall_lifetimes_follow_the_speed() {
    assert_eq!(duration_ms(128), 760);
    assert_eq!(duration_ms(0), 1140);
    assert_eq!(duration_ms(255), 382);
}
