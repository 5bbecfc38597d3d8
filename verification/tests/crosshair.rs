use rmk_palettefx::color::Hsv;
use rmk_palettefx::effects::{CrosshairMotion, CrosshairParams, CrosshairState, FrameParams};
use rmk_palettefx::layout::SliceLayout;
use rmk_palettefx::palette::CARNIVAL;

const CROSS: &[(u8, u8)] = &[
    (0, 128),
    (64, 128),
    (128, 128),
    (192, 128),
    (255, 128),
    (128, 0),
    (128, 64),
    (128, 192),
    (128, 255),
    (20, 20),
];

fn frame(timer_ms: u32) -> FrameParams<'static> {
    FrameParams {
        palette: &CARNIVAL,
        speed: 128,
        sat: 220,
        val: 255,
        timer_ms,
    }
}

fn state_with(motion: CrosshairMotion, active_crosses: u8) -> CrosshairState<4> {
    CrosshairState::with_params(CrosshairParams {
        motion: motion as u8,
        duration: 20,
        arm_half_width: 0,
        pulse_width: 40,
        active_crosses,
        ..CrosshairParams::default()
    })
}

#[test]
fn parameter_metadata_matches_defaults_and_rejects_invalid_values() {
    let mut params = CrosshairParams::default();
    assert_eq!(CrosshairParams::COUNT, 7);
    for i in 0..CrosshairParams::COUNT {
        assert_eq!(params.get(i), Some(CrosshairParams::DEFAULTS[i as usize]));
        assert!(CrosshairParams::DEFAULTS[i as usize] >= CrosshairParams::MINS[i as usize]);
        assert!(CrosshairParams::DEFAULTS[i as usize] <= CrosshairParams::MAXES[i as usize]);
    }
    assert_eq!(params.get(CrosshairParams::COUNT), None);
    assert!(!params.set(CrosshairParams::COUNT, 0));
    assert!(!params.set(0, CrosshairParams::MOTION_MAX + 1));
    assert!(!params.set(1, CrosshairParams::DURATION_MIN - 1));
    assert_eq!(params, CrosshairParams::default());
    assert!(params.set(0, CrosshairMotion::Inward as u8));
    assert_eq!(params.motion, CrosshairMotion::Inward as u8);
}

#[test]
fn one_active_cross_truncates_the_previous_hit_immediately() {
    let layout = SliceLayout::new(CROSS);
    let mut state = state_with(CrosshairMotion::Flash, 1);
    let mut out = [Hsv::default(); CROSS.len()];
    state.record_hit(0, 0, 128, 0);
    state.record_hit(9, 20, 20, 20);
    state.tick(&layout, frame(20), &mut out);
    assert_eq!(
        out[1],
        Hsv::default(),
        "the older horizontal arm was not truncated"
    );
    assert_eq!(out[9].h, CrosshairParams::default().key_hue);
    assert!(out[9].v > 0);
}

#[test]
fn exact_key_has_distinct_hue_and_wins_an_overlap() {
    let layout = SliceLayout::new(CROSS);
    let mut state = state_with(CrosshairMotion::Outward, 2);
    let mut out = [Hsv::default(); CROSS.len()];
    state.record_hit(0, 0, 128, 0);
    state.record_hit(2, 128, 128, 0);
    // While moving, the newer hit's own pulse has left its centre, while
    // the older hit's rightward arm is crossing that centre.
    state.tick(&layout, frame(50), &mut out);
    assert_eq!(out[2].h, state.params().key_hue);
    assert_eq!(out[1].h, state.params().arm_hue);
    assert!(out[2].v > 0 && out[1].v > 0);
}

#[test]
fn inward_and_outward_move_in_opposite_directions() {
    let layout = SliceLayout::new(CROSS);
    let mut out = [Hsv::default(); CROSS.len()];

    let build = |motion: CrosshairMotion| {
        CrosshairState::<4>::with_params(CrosshairParams {
            motion: motion as u8,
            duration: CrosshairParams::default().duration,
            arm_half_width: 0,
            pulse_width: 40,
            active_crosses: 1,
            ..CrosshairParams::default()
        })
    };

    let mut inward = build(CrosshairMotion::Inward);
    inward.record_hit(2, 128, 128, 0);
    inward.tick(&layout, frame(1), &mut out); // pulse is still near the edge
    let inward_edge_early = out[0].v;
    let inward_center_early = out[2].v;
    inward.tick(&layout, frame(100), &mut out); // pulse has reached the key
    assert!(inward_edge_early > inward_center_early);
    assert!(out[2].v > out[0].v);

    let mut outward = build(CrosshairMotion::Outward);
    outward.record_hit(2, 128, 128, 0);
    outward.tick(&layout, frame(1), &mut out);
    let outward_edge_early = out[0].v;
    let outward_center_early = out[2].v;
    outward.tick(&layout, frame(100), &mut out);
    assert!(outward_center_early > outward_edge_early);
    assert!(out[0].v > out[2].v);
}

#[test]
fn idle_and_expired_frames_are_black_in_both_render_modes() {
    let layout = SliceLayout::new(CROSS);
    let mut state = state_with(CrosshairMotion::Flash, 1);
    let mut out = [Hsv::new(1, 2, 3); CROSS.len()];
    state.tick(&layout, frame(0), &mut out);
    assert!(out.iter().all(|pixel| *pixel == Hsv::default()));
    state.record_hit(2, 128, 128, 0);
    state.tick_layer(&layout, frame(200), &mut out);
    assert!(out.iter().all(|pixel| *pixel == Hsv::default()));
}

#[test]
fn zero_hit_capacity_is_a_noop_without_panicking() {
    let layout = SliceLayout::new(CROSS);
    let mut state = CrosshairState::<0>::new();
    let mut out = [Hsv::new(1, 2, 3); CROSS.len()];
    state.record_hit(2, 128, 128, 0);
    state.tick(&layout, frame(0), &mut out);
    assert!(out.iter().all(|pixel| *pixel == Hsv::default()));
}

#[test]
fn timer_wrap_is_forward_progress_and_large_backward_jump_expires() {
    let layout = SliceLayout::new(CROSS);
    let mut state = state_with(CrosshairMotion::Flash, 1);
    let mut out = [Hsv::default(); CROSS.len()];
    state.record_hit(2, 128, 128, u32::MAX - 20);
    state.tick(&layout, frame(10), &mut out);
    assert!(
        out[2].v > 0,
        "a short wrapping elapsed time must remain active"
    );

    state.record_hit(2, 128, 128, 50_000);
    state.tick(&layout, frame(100), &mut out);
    assert!(out.iter().all(|pixel| *pixel == Hsv::default()));
}

#[test]
fn global_speed_shortens_the_configured_base_duration() {
    let layout = SliceLayout::new(CROSS);
    let mut slow = state_with(CrosshairMotion::Flash, 1);
    let mut fast = state_with(CrosshairMotion::Flash, 1);
    let mut slow_out = [Hsv::default(); CROSS.len()];
    let mut fast_out = [Hsv::default(); CROSS.len()];
    slow.record_hit(2, 128, 128, 0);
    fast.record_hit(2, 128, 128, 0);

    slow.tick(
        &layout,
        FrameParams {
            speed: 0,
            timer_ms: 150,
            ..frame(0)
        },
        &mut slow_out,
    );
    fast.tick(
        &layout,
        FrameParams {
            speed: 255,
            timer_ms: 150,
            ..frame(0)
        },
        &mut fast_out,
    );
    assert!(slow_out[2].v > 0);
    assert_eq!(fast_out[2], Hsv::default());
}

#[test]
fn fastest_moving_pulses_reach_their_destination_at_25_fps() {
    let layout = SliceLayout::new(CROSS);
    let mut out = [Hsv::default(); CROSS.len()];
    let fast_frame = |timer_ms| FrameParams {
        speed: 255,
        timer_ms,
        ..frame(0)
    };
    let build = |motion: CrosshairMotion| {
        CrosshairState::<4>::with_params(CrosshairParams {
            motion: motion as u8,
            arm_half_width: 0,
            pulse_width: 40,
            active_crosses: 1,
            ..CrosshairParams::default()
        })
    };

    let mut inward = build(CrosshairMotion::Inward);
    inward.record_hit(2, 128, 128, 0);
    inward.tick(&layout, fast_frame(0), &mut out);
    assert!(out[0].v > 0, "inward pulse did not start at the edge");
    inward.tick(&layout, fast_frame(40), &mut out);
    assert!(out[2].v > 0, "inward pulse skipped the pressed key");

    let mut outward = build(CrosshairMotion::Outward);
    outward.record_hit(2, 128, 128, 0);
    outward.tick(&layout, fast_frame(0), &mut out);
    assert!(out[2].v > 0, "outward pulse did not start at the key");
    outward.tick(&layout, fast_frame(40), &mut out);
    assert!(out[0].v > 0, "outward pulse skipped the board edge");
}

#[test]
fn a_flash_fades_linearly() {
    let layout = SliceLayout::new(CROSS);
    let mut state = CrosshairState::<4>::new();
    let mut out = [Hsv::new(1, 2, 3); CROSS.len()];
    state.record_hit(2, 128, 128, 0);
    state.tick(&layout, frame(0), &mut out);
    assert_eq!(out[2], Hsv::new(16, 220, 255));
    assert_eq!(out[0], Hsv::new(172, 220, 255));
    assert_eq!(out[9], Hsv::default());
    state.tick(&layout, frame(80), &mut out);
    assert_eq!(out[2], Hsv::new(16, 220, 128));
    assert_eq!(out[8], Hsv::new(172, 220, 128));
}

#[test]
fn a_collapse_goes_dark_from_its_edges() {
    let layout = SliceLayout::new(CROSS);
    let mut state = state_with(CrosshairMotion::Collapse, 1);
    let mut out = [Hsv::default(); CROSS.len()];
    state.record_hit(2, 128, 128, 0);
    state.tick(&layout, frame(100), &mut out);
    assert_eq!(out[0].v, 0);
    assert_eq!(out[4].v, 0);
    assert_eq!(out[2].v, 128);
}

#[test]
fn inward_streaks_mirror_outward_ones() {
    const ARM: &[(u8, u8)] = &[(0, 0), (51, 0), (102, 0), (153, 0), (204, 0), (255, 0)];
    let layout = SliceLayout::new(ARM);
    let mut inward = state_with(CrosshairMotion::Inward, 1);
    let mut outward = state_with(CrosshairMotion::Outward, 1);
    let mut a = [Hsv::default(); 6];
    let mut b = [Hsv::default(); 6];
    // A press on the board edge: its one long arm spans the whole grid.
    inward.record_hit(9, 0, 0, 0);
    outward.record_hit(9, 0, 0, 0);
    for t in (0..200).step_by(20) {
        inward.tick(&layout, frame(t), &mut a);
        outward.tick(&layout, frame(t), &mut b);
        for i in 1..6 {
            if i != 5 {
                assert_eq!(a[i], b[5 - i]);
            }
        }
    }
}

#[test]
fn an_older_press_comes_back_when_more_crosses_are_allowed() {
    let layout = SliceLayout::new(CROSS);
    let mut state = state_with(CrosshairMotion::Flash, 1);
    let mut out = [Hsv::default(); CROSS.len()];
    state.record_hit(0, 0, 128, 0);
    state.record_hit(9, 20, 20, 20);
    state.tick(&layout, frame(20), &mut out);
    assert_eq!(out[1], Hsv::default());
    state.set_params(CrosshairParams {
        active_crosses: 2,
        ..state.params()
    });
    state.tick(&layout, frame(20), &mut out);
    assert!(out[1].v > 0);
}

#[test]
fn crosshair_lifetimes_follow_the_speed() {
    let params = CrosshairParams::default();
    assert_eq!(params.duration_ms(128), 160);
    assert_eq!(params.duration_ms(0), 240);
    assert_eq!(params.duration_ms(255), 80);
    let short = CrosshairParams {
        duration: 0,
        ..params
    };
    assert_eq!(short.duration_ms(128), 40);
}

#[test]
fn only_as_many_crosses_show_as_are_active() {
    let layout = SliceLayout::new(CROSS);
    for active in 1..=6u8 {
        let mut all = state_with(CrosshairMotion::Flash, active);
        let mut newest = state_with(CrosshairMotion::Flash, active);
        let kept = (active as usize).min(4);
        for led in 0..8usize {
            let (x, y) = CROSS[led];
            all.record_hit(led, x, y, led as u32);
            if led >= 8 - kept {
                newest.record_hit(led, x, y, led as u32);
            }
        }
        let mut a = [Hsv::default(); CROSS.len()];
        let mut b = [Hsv::default(); CROSS.len()];
        all.tick(&layout, frame(20), &mut a);
        newest.tick(&layout, frame(20), &mut b);
        assert_eq!(a, b);
    }
}
