use rmk_palettefx::color::Hsv;
use rmk_palettefx::effects::{FrameParams, Pcg32, RainParams, RainState};
use rmk_palettefx::layout::SliceLayout;
use rmk_palettefx::palette::CARNIVAL;

fn params(timer_ms: u32, speed: u8) -> FrameParams<'static> {
    FrameParams {
        palette: &CARNIVAL,
        speed,
        sat: 255,
        val: 255,
        timer_ms,
    }
}

// A single column of LEDs; the RNG always returns 0 so the drop's
// column is x=0, aligned with every LED.
const COLUMN: &[(u8, u8)] = &[(0, 0), (0, 64), (0, 128), (0, 192), (0, 255)];

fn lit(frame: &[Hsv]) -> usize {
    frame.iter().filter(|h| h.v != 0).count()
}

fn board_positions() -> [(u8, u8); 80] {
    let mut positions = [(0u8, 0u8); 80];
    for (i, p) in positions.iter_mut().enumerate() {
        let col = (i % 20) as u32;
        let row = (i / 20) as u32;
        *p = ((col * 255 / 19) as u8, (row * 255 / 5) as u8);
    }
    positions
}

fn dense() -> RainParams {
    RainParams {
        drops: 28,
        spawn_interval: 5,
        trail_len: 161,
        ..RainParams::default()
    }
}

fn walking_entropy() -> impl FnMut() -> u8 {
    let mut entropy = 7u8;
    move || {
        entropy = entropy.wrapping_mul(37).wrapping_add(11);
        entropy
    }
}

#[test]
fn drop_sweeps_down_its_column_with_a_trail() {
    let layout = SliceLayout::new(COLUMN);
    // One drop, so the sweep is this drop's and not the primed population's.
    let mut state = RainState::with_single_drop(0, 0);
    let mut out = [Hsv::default(); 5];

    // The head enters at the top, so the first row lights straight away
    // while the rest of the column is still dark.
    state.tick(&layout, params(0, 128), || 0, &mut out);
    assert!(out[0].v > 0, "the head should enter at the top row");
    assert_eq!(lit(&out), 1);

    // Mid-fall the head is further down and a trail follows it. The window
    // covers the slowest fall rate a drop can draw, not just the nominal.
    let mut saw_partial = false;
    for t in (100..8000).step_by(100) {
        state.tick(&layout, params(t, 128), || 0, &mut out);
        let n = lit(&out);
        if n > 1 && n < COLUMN.len() {
            saw_partial = true;
        }
    }
    assert!(saw_partial, "expected a partial trail at some point");
}

#[test]
fn head_is_brighter_than_trail() {
    let layout = SliceLayout::new(COLUMN);
    let mut state = RainState::with_single_drop(0, 0);
    let mut out = [Hsv::default(); 5];

    // Walk time until at least two LEDs are lit, then check ordering:
    // the lower (later-reached) LED is the head and must be brighter.
    for t in (0..5000).step_by(50) {
        state.tick(&layout, params(t, 128), || 0, &mut out);
        let first = (0..out.len()).find(|&i| out[i].v != 0);
        let last = (0..out.len()).rev().find(|&i| out[i].v != 0);
        if let (Some(tail), Some(head)) = (first, last) {
            if head != tail {
                assert!(out[head].v > out[tail].v);
                return;
            }
        }
    }
    panic!("drop never lit two LEDs");
}

#[test]
fn defaults_match_the_previously_hardcoded_tuning() {
    let params = RainParams::default();
    assert_eq!(params.drops, 6);
    assert_eq!(params.spawn_interval_ms(), 300);
    assert_eq!(params.trail_len, 128);
    assert_eq!(params.column_half_width, 14);
    assert_eq!(RainState::new().params(), params);
    assert_eq!(
        RainParams::DEFAULTS,
        [
            params.drops,
            params.spawn_interval,
            params.trail_len,
            params.column_half_width,
            params.rain_hue
        ]
    );
}

#[test]
fn rain_out_of_range_parameters_are_declined_without_mutating() {
    let mut params = RainParams::default();
    assert!(!params.set(0, RainParams::DROPS_MAX + 1));
    assert!(!params.set(2, RainParams::TRAIL_LEN_MIN - 1));
    assert!(!params.set(3, RainParams::COLUMN_HALF_WIDTH_MAX + 1));
    assert!(!params.set(RainParams::COUNT, 1));
    assert_eq!(params, RainParams::default());
    assert_eq!(params.get(RainParams::COUNT), None);

    assert!(params.set(2, RainParams::TRAIL_LEN_MIN));
    assert_eq!(params.get(2), Some(RainParams::TRAIL_LEN_MIN));
}

fn peak_lit<const N: usize>(
    state: &mut RainState,
    layout: &SliceLayout<'_>,
    mut rng: impl FnMut() -> u8,
) -> usize {
    let mut out = [Hsv::default(); N];
    let mut peak = 0;
    for t in (0..8000).step_by(20) {
        state.tick(layout, params(t, 128), &mut rng, &mut out);
        peak = peak.max(lit(&out));
    }
    peak
}

#[test]
fn trail_length_parameter_changes_how_much_of_a_column_glows() {
    let layout = SliceLayout::new(COLUMN);

    let mut short = RainState::with_single_drop(0, 0);
    short.set_params(RainParams {
        trail_len: RainParams::TRAIL_LEN_MIN,
        ..RainParams::default()
    });
    // The LEDs are 64 grid units apart, so a 16-unit trail never spans
    // two of them.
    assert_eq!(peak_lit::<5>(&mut short, &layout, || 0), 1);

    let mut long = RainState::with_single_drop(0, 0);
    long.set_params(RainParams {
        trail_len: RainParams::TRAIL_LEN_MAX,
        ..RainParams::default()
    });
    assert!(peak_lit::<5>(&mut long, &layout, || 0) > 1);
}

#[test]
fn a_cadence_finer_than_the_tick_still_fills_every_slot() {
    const POS: &[(u8, u8)] = &[(0, 0)];
    let layout = SliceLayout::new(POS);
    let mut out = [Hsv::default(); 1];

    let mut state = RainState::with_params(RainParams {
        drops: RainParams::DROPS_MAX,
        spawn_interval: 1, // 10 ms, far below the 40 ms frame interval
        ..RainParams::default()
    });

    // Two 40 ms frames: eight spawns are owed, so a once-per-tick spawner
    // would have managed two.
    state.tick(&layout, params(0, 128), || 0, &mut out);
    state.tick(&layout, params(40, 128), || 0, &mut out);
    state.tick(&layout, params(80, 128), || 0, &mut out);
    assert!(
        state.active_drop_count() >= 8,
        "expected the backlog to be spawned, got {}",
        state.active_drop_count()
    );

    // The ceiling still holds.
    for t in (120..4000).step_by(40) {
        state.tick(&layout, params(t, 128), || 0, &mut out);
        assert!(state.active_drop_count() <= RainParams::DROPS_MAX as usize);
    }
}

#[test]
fn dense_rain_holds_a_steady_population_across_the_board() {
    let positions = board_positions();
    let layout = SliceLayout::new(&positions);
    let mut out = [Hsv::default(); 80];

    let mut state = RainState::with_params(dense());
    let mut rng = walking_entropy();

    let (mut lowest, mut highest) = (usize::MAX, 0usize);
    for step in 0..200u32 {
        state.tick(
            &layout,
            FrameParams {
                palette: &CARNIVAL,
                speed: 221,
                sat: 255,
                val: 255,
                timer_ms: step * 100,
            },
            &mut rng,
            &mut out,
        );
        // Skip the first couple of seconds so this measures the sustained
        // pattern, not the ramp.
        if step >= 20 {
            let lit = out.iter().filter(|h| h.v > 0).count();
            lowest = lowest.min(lit);
            highest = highest.max(lit);
        }
    }

    // Steady rain keeps the trough within a factor of two of the peak.
    assert!(
        lowest * 2 > highest,
        "population swung between {lowest} and {highest} lit LEDs"
    );
}

#[test]
fn rain_comes_back_after_the_clock_jumps_backward() {
    let positions = board_positions();
    let layout = SliceLayout::new(&positions);
    let mut out = [Hsv::default(); 80];

    let mut state = RainState::with_params(dense());
    let mut rng = walking_entropy();

    // An hour of central uptime, replicated to the peripheral.
    const UPTIME_MS: u32 = 60 * 60 * 1000;
    for step in 0..50u32 {
        state.tick(
            &layout,
            params(UPTIME_MS + step * 40, 128),
            &mut rng,
            &mut out,
        );
    }
    assert!(lit(&out) > 0, "the board should be raining before the jump");

    // The central reboots; the shared clock restarts from its uptime.
    let mut peak = 0;
    for step in 0..50u32 {
        state.tick(&layout, params(step * 40, 128), &mut rng, &mut out);
        peak = peak.max(lit(&out));
    }
    assert!(
        peak > 0,
        "the rain never returned after the clock moved back"
    );
}

#[test]
fn spawn_jitter_stays_proportional_to_the_cadence() {
    let fast = RainParams {
        spawn_interval: 1,
        ..RainParams::default()
    };
    assert_eq!(fast.spawn_delay_ms(0), 10);
    assert!(
        fast.spawn_delay_ms(255) <= 15,
        "jitter must not swamp 10 ms"
    );

    let slow = RainParams {
        spawn_interval: 100,
        ..RainParams::default()
    };
    assert_eq!(slow.spawn_delay_ms(0), 1000);
    assert!(
        slow.spawn_delay_ms(255) > 1200,
        "a slow cadence still needs real spread"
    );
}

#[test]
fn drop_count_parameter_bounds_concurrent_drops() {
    // One LED per drop column, far enough apart that a drop lights only
    // its own.
    const ROW: &[(u8, u8)] = &[
        (0, 128),
        (32, 128),
        (64, 128),
        (96, 128),
        (128, 128),
        (160, 128),
        (192, 128),
        (224, 128),
    ];
    let layout = SliceLayout::new(ROW);
    // Every other byte walks the columns and the rest are zero, so that the
    // drops spread over the row and the cadence stays short: the drop count is
    // the only limit on how many are in flight.
    let column_walk = || {
        let mut draws = 0u32;
        move || {
            draws += 1;
            if draws % 2 == 1 {
                (draws / 2 % 8) as u8 * 32
            } else {
                0
            }
        }
    };

    let mut sparse = RainState::new();
    sparse.set_params(RainParams {
        drops: RainParams::DROPS_MIN,
        spawn_interval: 1,
        ..RainParams::default()
    });
    let sparse_peak = peak_lit::<8>(&mut sparse, &layout, column_walk());

    let mut dense = RainState::new();
    dense.set_params(RainParams {
        drops: RainParams::DROPS_MAX,
        spawn_interval: 1,
        ..RainParams::default()
    });
    let dense_peak = peak_lit::<8>(&mut dense, &layout, column_walk());

    assert_eq!(sparse_peak, 1);
    assert!(
        dense_peak > sparse_peak,
        "eight drops lit {dense_peak} LEDs, one drop lit {sparse_peak}"
    );
}

#[test]
fn leds_off_the_drop_column_stay_dark() {
    const OFF_COLUMN: &[(u8, u8)] = &[(200, 0), (200, 128), (200, 255)];
    let layout = SliceLayout::new(OFF_COLUMN);
    let mut state = RainState::new();
    let mut out = [Hsv::default(); 3];

    for t in (0..5000).step_by(50) {
        state.tick(&layout, params(t, 128), || 0, &mut out);
        assert_eq!(lit(&out), 0);
    }
}

#[test]
fn a_drop_head_has_the_rain_hue_at_full_brightness() {
    let layout = SliceLayout::new(COLUMN);
    let mut state = RainState::with_single_drop(0, 0);
    let mut out = [Hsv::new(1, 2, 3); 6];
    state.tick(&layout, params(0, 128), || 0, &mut out);
    assert_eq!(out[0], Hsv::new(172, 255, 255));
    assert_eq!(out[1], Hsv::new(172, 255, 0));
    assert_eq!(out[5], Hsv::new(1, 2, 3), "beyond the layout");
}

#[test]
fn every_rain_parameter_reads_back_alone() {
    for index in 0..RainParams::COUNT {
        let mut params = RainParams::default();
        assert!(params.set(index, RainParams::MAXES[index as usize]));
        for other in 0..RainParams::COUNT {
            let wanted = if other == index {
                RainParams::MAXES[other as usize]
            } else {
                RainParams::DEFAULTS[other as usize]
            };
            assert_eq!(params.get(other), Some(wanted));
        }
    }
}

#[test]
fn lowering_the_drop_count_only_drains_the_surplus() {
    let positions = board_positions();
    let layout = SliceLayout::new(&positions);
    let mut out = [Hsv::default(); 80];
    let mut state = RainState::with_params(dense());
    let mut rng = walking_entropy();
    state.tick(&layout, params(0, 128), &mut rng, &mut out);
    let full = state.active_drop_count();
    assert!(full > 20);
    state.set_params(RainParams { drops: 1, ..dense() });
    let mut last = full;
    for step in 1..400u32 {
        state.tick(&layout, params(step * 40, 128), &mut rng, &mut out);
        let now = state.active_drop_count();
        assert!(now <= last.max(1));
        last = now;
    }
    assert_eq!(last, 1);
}

#[test]
fn a_generator_and_its_bytes_rain_alike() {
    let positions = board_positions();
    let layout = SliceLayout::new(&positions);
    let mut by_rng = [Hsv::default(); 80];
    let mut by_bytes = [Hsv::default(); 80];
    let mut rng = Pcg32::new(3, 5);
    let mut twin = Pcg32::new(3, 5);
    let mut first = RainState::with_params(dense());
    let mut second = RainState::with_params(dense());
    for step in 0..20u32 {
        first.tick_with_rng(&mut rng, &layout, params(step * 40, 128), &mut by_rng);
        second.tick(
            &layout,
            params(step * 40, 128),
            || twin.next_u32() as u8,
            &mut by_bytes,
        );
        assert_eq!(by_rng, by_bytes);
    }
    assert_eq!(rng, twin);
}
