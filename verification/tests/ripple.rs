use rmk_palettefx::color::Hsv;
use rmk_palettefx::effects::ripple::{radial_distance, ripple_amplitude};
use rmk_palettefx::effects::{FrameParams, Pcg32, RippleState};
use rmk_palettefx::layout::SliceLayout;
use rmk_palettefx::palette::CARNIVAL;

const POS: &[(u8, u8)] = &[(0, 0), (128, 128), (255, 255)];

fn params(timer_ms: u32) -> FrameParams<'static> {
    FrameParams {
        palette: &CARNIVAL,
        speed: 128,
        sat: 255,
        val: 255,
        timer_ms,
    }
}

fn airborne(state: &RippleState) -> usize {
    state.droplets().iter().filter(|d| d.amplitude != 0).count()
}

fn spawns_while_ticking(
    state: &mut RippleState,
    layout: &SliceLayout<'_>,
    times: impl Iterator<Item = u32>,
) -> usize {
    let mut out = [Hsv::default(); 3];
    let mut tail = state.next_slot();
    let mut spawns = 0;
    for t in times {
        state.tick(layout, params(t), || 0, &mut out);
        if state.next_slot() != tail {
            spawns += 1;
            tail = state.next_slot();
        }
    }
    spawns
}

#[test]
fn spawning_comes_back_after_the_clock_jumps_backward() {
    let layout = SliceLayout::new(POS);
    let mut out = [Hsv::default(); 3];
    let mut state = RippleState::new();

    // An hour of central uptime, replicated to the peripheral.
    const UPTIME_MS: u32 = 60 * 60 * 1000;
    state.tick(&layout, params(UPTIME_MS), || 0, &mut out);
    assert_eq!(airborne(&state), 1, "the first tick should spawn a drop");

    // The central reboots; the shared clock restarts from its uptime.
    let spawns = spawns_while_ticking(&mut state, &layout, (0..2_000).step_by(40));
    assert!(
        spawns > 0,
        "ripple never spawned again after the clock moved back"
    );
}

#[test]
fn droplet_amplitudes_rise_and_end() {
    assert_eq!(ripple_amplitude(255), 0);
    let peak = (0..=255u8).map(ripple_amplitude).max().unwrap();
    assert!(peak > 100 && peak <= 192);
}

#[test]
fn a_generator_and_its_byte_place_a_droplet_alike() {
    let layout = SliceLayout::new(POS);
    let mut a = [Hsv::default(); 3];
    let mut b = [Hsv::default(); 3];
    let mut rng = Pcg32::new(9, 1);
    let mut twin = Pcg32::new(9, 1);
    let mut first = RippleState::new();
    let mut second = RippleState::new();
    for t in (0..6_000).step_by(40) {
        first.tick_with_rng(&mut rng, &layout, params(t), &mut a);
        second.tick(&layout, params(t), || twin.next_u32() as u8, &mut b);
        assert_eq!(a, b);
    }
    assert_eq!(rng, twin);
    assert!(rng.position > 0);
}

#[test]
fn distances_are_taken_on_the_half_grid() {
    assert_eq!(radial_distance(128, 128, 248, 128), 60);
    assert_eq!(radial_distance(128, 128, 248, 248), 84);
    assert_eq!(radial_distance(7, 9, 7, 9), 0);
}

#[test]
fn a_droplet_takes_one_byte_and_a_quiet_frame_none() {
    let layout = SliceLayout::new(POS);
    let mut out = [Hsv::default(); 3];
    let mut state = RippleState::new();
    let mut draws = 0;
    assert!(state.spawn_due(0));
    state.tick(
        &layout,
        params(0),
        || {
            draws += 1;
            1
        },
        &mut out,
    );
    assert_eq!(draws, 1);
    assert!(!state.spawn_due(40));
    state.tick(
        &layout,
        params(40),
        || {
            draws += 1;
            1
        },
        &mut out,
    );
    assert_eq!(draws, 1);
    assert!(state.spawn_due(1_000));
    let droplet = state.droplets()[0];
    assert_eq!((droplet.x, droplet.y), POS[1]);
}
