use rmk_palettefx::color::Hsv;
use rmk_palettefx::effects::comet::scaled_ms;
use rmk_palettefx::effects::{CometParams, CometState, FrameParams};
use rmk_palettefx::layout::SliceLayout;
use rmk_palettefx::palette::CARNIVAL;

const ROW: &[(u8, u8)] = &[
    (0, 128),
    (64, 128),
    (128, 128),
    (160, 128),
    (192, 128),
    (255, 128),
];

fn frame(timer_ms: u32) -> FrameParams<'static> {
    FrameParams {
        palette: &CARNIVAL,
        speed: 128,
        sat: 255,
        val: 255,
        timer_ms,
    }
}

fn full_board_travel() -> u32 {
    scaled_ms(CometParams::default().lag, 128)
}

fn tuned<const N: usize>(params: CometParams) -> CometState<N> {
    CometState::with_params(params)
}

#[test]
fn the_comet_arrives_a_lag_after_the_key_it_chases() {
    let layout = SliceLayout::new(ROW);
    let mut state = CometState::<8>::new();
    let mut out = [Hsv::default(); 6];

    state.record_hit(0, 128, 0);
    state.record_hit(255, 128, 0);

    state.tick(&layout, frame(0), &mut out);
    assert_ne!(out[0].v, 0, "the comet left before it was launched");
    assert_eq!(out[5].v, 0, "the comet reached the far key instantly");

    state.tick(&layout, frame(full_board_travel()), &mut out);
    assert_ne!(out[5].v, 0, "the comet never arrived");
}

#[test]
fn a_short_hop_lands_while_a_full_board_flight_is_still_travelling() {
    let layout = SliceLayout::new(ROW);
    let sample = full_board_travel() * 3 / 4;

    let mut near = CometState::<8>::new();
    let mut out = [Hsv::default(); 6];
    near.record_hit(128, 128, 0);
    near.record_hit(192, 128, 0);
    near.tick(&layout, frame(sample), &mut out);
    assert_ne!(out[4].v, 0, "a short hop was still under way");

    let mut far = CometState::<8>::new();
    far.record_hit(0, 128, 0);
    far.record_hit(255, 128, 0);
    far.tick(&layout, frame(sample), &mut out);
    assert_eq!(out[5].v, 0, "a full-board flight arrived early");
}

#[test]
fn pace_decides_whether_a_short_hop_gets_a_short_flight() {
    let layout = SliceLayout::new(ROW);
    let early = full_board_travel() / 4;
    let still_at_origin = |pace| {
        // No trail: it runs back to the key the hop set off from, which is
        // the very LED this reads.
        let mut state = tuned::<8>(CometParams {
            pace,
            trail: 0,
            ..CometParams::default()
        });
        let mut out = [Hsv::default(); 6];
        state.record_hit(128, 128, 0);
        state.record_hit(192, 128, 0);
        state.tick(&layout, frame(early), &mut out);
        out[2].v
    };

    assert_ne!(
        still_at_origin(CometParams::PACE_MIN),
        0,
        "an unpaced short hop left too quickly"
    );
    assert_eq!(
        still_at_origin(CometParams::PACE_MAX),
        0,
        "a paced short hop had not got going"
    );
}

#[test]
fn momentum_swings_the_comet_wide_of_a_target_it_is_redirected_onto() {
    let layout = SliceLayout::new(ROW);
    let redirect = full_board_travel() / 2;

    let mut overshoot = false;
    let mut inertialess = false;
    for (momentum, reached) in [
        (CometParams::MOMENTUM_MAX, &mut overshoot),
        (CometParams::MOMENTUM_MIN, &mut inertialess),
    ] {
        let params = CometParams {
            momentum,
            ..CometParams::default()
        };
        let mut state = tuned::<8>(params);
        let mut out = [Hsv::default(); 6];
        state.record_hit(0, 128, 0);
        // Aimed past index 3, then pulled back onto index 2 mid-flight.
        state.record_hit(192, 128, 0);
        state.record_hit(128, 128, redirect);

        for step in 0..=full_board_travel() / 10 {
            state.tick(&layout, frame(redirect + step * 10), &mut out);
            *reached |= out[3].v != 0;
        }
    }

    assert!(
        overshoot,
        "momentum never carried the comet past its target"
    );
    assert!(
        !inertialess,
        "a comet with no momentum still overshot its target"
    );
}

#[test]
fn the_trail_lights_the_path_the_comet_came_from() {
    let layout = SliceLayout::new(ROW);
    let mut state = CometState::<8>::new();
    let mut out = [Hsv::default(); 6];

    state.record_hit(0, 128, 0);
    state.record_hit(128, 128, 0);
    state.tick(&layout, frame(full_board_travel()), &mut out);

    assert_ne!(out[2].v, 0, "the head is not at the key it flew to");
    assert_ne!(out[1].v, 0, "nothing was left along the path");
    assert!(
        out[1].v < out[2].v,
        "the trail is not dimmer than the head it trails"
    );
    assert_eq!(out[4].v, 0, "the trail ran out ahead of the comet");
}

#[test]
fn a_zero_trail_leaves_only_the_head() {
    let layout = SliceLayout::new(ROW);
    let mut state = tuned::<8>(CometParams {
        trail: 0,
        ..CometParams::default()
    });
    let mut out = [Hsv::default(); 6];

    state.record_hit(0, 128, 0);
    state.record_hit(128, 128, 0);
    state.tick(&layout, frame(full_board_travel()), &mut out);

    assert_ne!(out[2].v, 0);
    assert_eq!(out[1].v, 0, "a disabled trail still lit the path");
}

#[test]
fn a_press_after_the_fade_starts_over_at_the_key() {
    let layout = SliceLayout::new(ROW);
    let mut state = CometState::<8>::new();
    let mut out = [Hsv::default(); 6];

    state.record_hit(0, 128, 0);
    let long_after = full_board_travel() + scaled_ms(CometParams::default().linger, 128) + 1_000;
    state.tick(&layout, frame(long_after), &mut out);
    assert!(
        out.iter().all(|pixel| *pixel == Hsv::default()),
        "the comet never faded out"
    );

    state.record_hit(255, 128, long_after);
    state.tick(&layout, frame(long_after), &mut out);
    assert_ne!(out[5].v, 0, "the restarted comet is not at the key");
    assert_eq!(out[0].v, 0, "the restarted comet flew in from the old key");
}

#[test]
fn a_rewound_clock_drops_the_flight_instead_of_stranding_it() {
    let layout = SliceLayout::new(ROW);
    let mut state = CometState::<8>::new();
    let mut out = [Hsv::default(); 6];

    state.record_hit(0, 128, 100_000);
    state.tick(&layout, frame(100_000), &mut out);
    assert_ne!(out[0].v, 0);

    state.tick(&layout, frame(10), &mut out);
    assert!(out.iter().all(|pixel| *pixel == Hsv::default()));

    state.record_hit(255, 128, 10);
    state.tick(&layout, frame(10), &mut out);
    assert_ne!(out[5].v, 0, "the comet never recovered from the rewind");
}

#[test]
fn comet_out_of_range_parameters_are_declined_without_mutating() {
    let mut params = CometParams::default();
    assert!(!params.set(0, CometParams::LAG_MIN - 1));
    assert!(!params.set(3, CometParams::TRAIL_MAX + 1));
    assert!(!params.set(CometParams::COUNT, 0));
    assert_eq!(params, CometParams::default());
    assert_eq!(params.get(CometParams::COUNT), None);

    assert!(params.set(2, CometParams::MOMENTUM_UNIT));
    assert_eq!(params.get(2), Some(CometParams::MOMENTUM_UNIT));
    assert_eq!(CometState::<1>::new().params(), CometParams::default());
    assert_eq!(CometParams::DEFAULTS[0], CometParams::default().lag);
}

#[test]
fn a_ring_with_no_legs_ignores_presses() {
    let layout = SliceLayout::new(ROW);
    let mut state = CometState::<0>::new();
    let mut out = [Hsv::default(); 6];
    state.record_hit(0, 128, 0);
    state.tick(&layout, frame(0), &mut out);
    assert!(out.iter().all(|pixel| *pixel == Hsv::default()));
}

#[test]
fn durations_scale_with_speed() {
    assert_eq!(scaled_ms(32, 128), 320);
    assert_eq!(scaled_ms(32, 0), 480);
    assert_eq!(scaled_ms(32, 255), 161);
    assert_eq!(scaled_ms(0, 128), 1);
}

#[test]
fn the_head_is_drawn_in_the_color_of_its_press() {
    let layout = SliceLayout::new(ROW);
    let mut state = CometState::<2>::new();
    let mut out = [Hsv::new(1, 2, 3); 7];
    state.record_hit(0, 128, 0);
    state.tick(&layout, frame(0), &mut out);
    // Palette position 64, full coverage: saturation loses twice the excess
    // over the core threshold.
    assert_eq!(out[0], Hsv::new(42, 125, 255));
    assert_eq!(out[6], Hsv::default(), "beyond the layout");
}

#[test]
fn every_comet_parameter_reads_back_alone() {
    for index in 0..CometParams::COUNT {
        let mut params = CometParams::default();
        assert_eq!(
            params.get(index),
            Some(CometParams::DEFAULTS[index as usize])
        );
        assert!(params.set(index, CometParams::MAXES[index as usize]));
        for other in 0..CometParams::COUNT {
            let wanted = if other == index {
                CometParams::MAXES[other as usize]
            } else {
                CometParams::DEFAULTS[other as usize]
            };
            assert_eq!(params.get(other), Some(wanted));
        }
    }
}

#[test]
fn earlier_frames_leave_no_mark_on_a_flight() {
    let layout = SliceLayout::new(ROW);
    let mut rendered = CometState::<4>::new();
    let mut quiet = CometState::<4>::new();
    let mut a = [Hsv::default(); 6];
    let mut b = [Hsv::default(); 6];
    for state in [&mut rendered, &mut quiet] {
        state.record_hit(0, 128, 0);
        state.record_hit(255, 128, 0);
    }
    for t in 0..100 {
        rendered.tick(&layout, frame(t), &mut a);
    }
    rendered.tick(&layout, frame(150), &mut a);
    quiet.tick(&layout, frame(150), &mut b);
    assert_eq!(a, b);
}

#[test]
fn retuning_leaves_the_leg_in_flight_alone() {
    let layout = SliceLayout::new(ROW);
    let mut plain = CometState::<4>::new();
    let mut retuned = CometState::<4>::new();
    let mut a = [Hsv::default(); 6];
    let mut b = [Hsv::default(); 6];
    for state in [&mut plain, &mut retuned] {
        state.record_hit(0, 128, 0);
        state.record_hit(255, 128, 0);
    }
    retuned.set_params(CometParams {
        lag: CometParams::LAG_MAX,
        pace: 0,
        ..CometParams::default()
    });
    plain.tick(&layout, frame(200), &mut a);
    retuned.tick(&layout, frame(200), &mut b);
    assert_eq!(a, b);
}

#[test]
fn a_flight_at_zero_pace_takes_the_lag_whatever_the_distance() {
    let layout = SliceLayout::new(ROW);
    let mut state = tuned::<2>(CometParams {
        pace: 0,
        trail: 0,
        ..CometParams::default()
    });
    let mut out = [Hsv::default(); 6];
    state.record_hit(128, 128, 0);
    state.record_hit(192, 128, 0);
    state.tick(&layout, frame(full_board_travel() / 2), &mut out);
    assert_eq!(out[4].v, 0);
    state.tick(&layout, frame(full_board_travel()), &mut out);
    assert_eq!(out[4].v, 255);
}

#[test]
fn a_comet_dims_over_its_linger_time() {
    let layout = SliceLayout::new(ROW);
    let mut state = CometState::<2>::new();
    let mut out = [Hsv::default(); 6];
    state.record_hit(0, 128, 0);
    // A hop of no distance takes 70 ms at this pace; then half of the linger
    // time.
    state.tick(&layout, frame(70 + 400), &mut out);
    assert_eq!(out[0].v, 128);
    state.tick(&layout, frame(70 + 799), &mut out);
    assert_eq!(out[0].v, 1);
    state.tick(&layout, frame(70 + 800), &mut out);
    assert_eq!(out[0], Hsv::default());
}

#[test]
fn the_lag_bounds_a_flight_across_the_diagonal() {
    const DIAGONAL: &[(u8, u8)] = &[(0, 0), (255, 255)];
    let layout = SliceLayout::new(DIAGONAL);
    for pace in [0, 200, CometParams::PACE_MAX] {
        let mut state = tuned::<2>(CometParams {
            pace,
            trail: 0,
            ..CometParams::default()
        });
        let mut out = [Hsv::default(); 2];
        state.record_hit(0, 0, 0);
        state.record_hit(255, 255, 0);
        state.tick(&layout, frame(full_board_travel() / 2), &mut out);
        assert_eq!(out[1].v, 0);
        state.tick(&layout, frame(full_board_travel()), &mut out);
        assert_eq!(out[1].v, 255, "the flight at pace {pace} outlasted the lag");
    }
}

#[test]
fn frames_among_presses_leave_no_mark_on_a_flight() {
    let layout = SliceLayout::new(ROW);
    let mut rendered = CometState::<4>::new();
    let mut quiet = CometState::<4>::new();
    let mut a = [Hsv::default(); 6];
    let mut b = [Hsv::default(); 6];
    for (x, t) in [(0, 0), (255, 30), (64, 160), (192, 300)] {
        for early in 0..20 {
            rendered.tick(&layout, frame(t + early / 2), &mut a);
        }
        rendered.record_hit(x, 128, t + 10);
        quiet.record_hit(x, 128, t + 10);
    }
    for t in (310..1_400).step_by(15) {
        rendered.tick(&layout, frame(t), &mut a);
        quiet.tick(&layout, frame(t), &mut b);
        assert_eq!(a, b);
    }
}
