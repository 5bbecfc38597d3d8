use rmk_palettefx::color::hsv_to_rgb;
use rmk_palettefx::effects::{Effect, RainParams};
use rmk_palettefx::layout::{LedLayout, SliceLayout};
use rmk_palettefx::rmk_lighting::{
    Contribution, EffectSample, ExtensionState, HitQueue, LightAction, PaletteFxConfig,
    PaletteFxSource, TopologyLayout, MAX_INITIAL_PARAMS,
};

const POSITIONS: &[(u8, u8)] = &[(128, 128)];

fn reactive() -> PaletteFxSource<SliceLayout<'static>, 1, 1> {
    PaletteFxSource::new(
        SliceLayout::new(POSITIONS),
        PaletteFxConfig {
            initial_val: 255,
            initial_effect: 6,
            ..PaletteFxConfig::default()
        },
    )
}

#[test]
fn queued_hits_are_timestamped_in_the_render_clock_domain() {
    let mut no_hits: HitQueue<1> = HitQueue::new();
    let mut baseline = reactive();
    baseline.tick_frame(&mut no_hits, 60_000);

    let mut hits: HitQueue<1> = HitQueue::new();
    let mut hit = reactive();
    assert!(hits.record(0));
    hit.tick_frame(&mut hits, 60_000);

    assert_ne!(hit.frame(), baseline.frame());
}

#[test]
fn rgb_toggle_turns_effects_off_and_restores_the_previous_value() {
    let mut source = reactive();

    assert!(source.handle_light_action(LightAction::RgbTog));
    assert_eq!(source.extension_state().value, 0);

    assert!(source.handle_light_action(LightAction::RgbTog));
    assert_eq!(source.extension_state().value, 255);
}

#[test]
fn advertised_parameter_rows_match_the_effects_that_use_them() {
    let source = reactive();
    let descriptor = source.extension_descriptor();
    assert_eq!(descriptor.params.len(), descriptor.effects.len());
    for effect in 0..descriptor.effects.len() as u8 {
        let specs = descriptor.effect_params(effect).unwrap();
        assert_eq!(
            !specs.is_empty(),
            Effect::<1>::uses_rain_params(effect),
            "effect {effect} parameter row disagrees with its state"
        );
    }
    assert!(descriptor
        .effect_params(descriptor.effects.len() as u8)
        .is_none());
}

#[test]
fn rain_parameters_default_to_the_tuned_values() {
    let source = reactive();
    let descriptor = source.extension_descriptor();
    let effect = Effect::<1>::RAIN_INDEX;
    let specs = descriptor.effect_params(effect).unwrap();
    assert_eq!(specs.len(), RainParams::COUNT as usize);
    for (index, spec) in specs.iter().enumerate() {
        assert_eq!(spec.name, RainParams::NAMES[index]);
        assert_eq!(spec.min, RainParams::MINS[index]);
        assert_eq!(spec.max, RainParams::MAXES[index]);
        assert_eq!(spec.default, RainParams::DEFAULTS[index]);
        assert_eq!(
            source.extension_param(effect, index as u8),
            Some(spec.default)
        );
    }
}

#[test]
fn parameter_sets_round_trip_and_survive_effect_switching() {
    let mut source = reactive();
    let rain = Effect::<1>::RAIN_INDEX;

    assert!(source.apply_extension_param(rain, 2, 200));
    assert_eq!(source.extension_param(rain, 2), Some(200));

    // All the way around: the freshly built rain must be retuned from the
    // stored values.
    for _ in 0..Effect::<1>::NAMES.len() {
        assert!(source.handle_light_action(LightAction::RgbModeForward));
    }
    assert!(source.apply_extension_state(ExtensionState {
        effect: rain,
        palette: 0,
        value: 255,
        speed: 128,
    }));
    assert_eq!(source.extension_param(rain, 2), Some(200));
    assert_eq!(
        source.running_rain_params(),
        Some(source.rain_params()[rain as usize])
    );
}

#[test]
fn out_of_range_and_unknown_parameters_are_declined_unchanged() {
    let mut source = reactive();
    let rain = Effect::<1>::RAIN_INDEX;
    let before = source.rain_params();

    for (effect, index, value) in [
        (rain, 0, RainParams::DROPS_MAX + 1),
        (rain, RainParams::COUNT, 1),
        (0, 0, 1),
        (Effect::<1>::NAMES.len() as u8, 0, 1),
    ] {
        assert!(
            !source.apply_extension_param(effect, index, value),
            "effect {effect} index {index} value {value} should be declined"
        );
    }
    assert_eq!(source.rain_params(), before);
    assert_eq!(source.extension_param(0, 0), None);
}

#[test]
fn parameter_sets_change_what_the_active_effect_renders() {
    const WIDE: &[(u8, u8)] = &[(0, 128)];
    let mut no_hits: HitQueue<1> = HitQueue::new();
    let build = || -> PaletteFxSource<SliceLayout<'static>, 1, 1> {
        PaletteFxSource::new(
            SliceLayout::new(WIDE),
            PaletteFxConfig {
                initial_effect: Effect::<1>::RAIN_INDEX,
                ..PaletteFxConfig::default()
            },
        )
    };

    let mut narrow = build();
    let mut wide = build();
    assert!(wide.apply_extension_param(
        Effect::<1>::RAIN_INDEX,
        3,
        RainParams::COLUMN_HALF_WIDTH_MAX,
    ));

    let mut differed = false;
    for t in (0..8000).step_by(40) {
        narrow.tick_frame(&mut no_hits, t);
        wide.tick_frame(&mut no_hits, t);
        differed |= narrow.frame() != wide.frame();
    }
    assert!(differed, "column width never changed the rendered frame");
}

#[test]
fn disabled_initial_state_toggles_on_at_the_configured_value() {
    let mut source: PaletteFxSource<SliceLayout<'static>, 1, 1> = PaletteFxSource::new(
        SliceLayout::new(POSITIONS),
        PaletteFxConfig {
            initial_enabled: false,
            initial_val: 128,
            ..PaletteFxConfig::default()
        },
    );

    assert_eq!(source.extension_state().value, 0);
    assert!(source.handle_light_action(LightAction::RgbTog));
    assert_eq!(source.extension_state().value, 128);
}

#[test]
fn restored_parameters_are_applied_and_individually_bounds_checked() {
    let boot = |initial_param_len, params: [u8; MAX_INITIAL_PARAMS]| {
        let source: PaletteFxSource<SliceLayout<'static>, 1, 1> = PaletteFxSource::new(
            SliceLayout::new(POSITIONS),
            PaletteFxConfig {
                initial_effect: Effect::<1>::RAIN_INDEX,
                initial_params: params,
                initial_param_len,
                ..PaletteFxConfig::default()
            },
        );
        source
            .running_rain_params()
            .expect("Rain carries rain params")
    };

    let mut wanted = RainParams::default();
    assert!(wanted.set(0, 3));
    assert!(wanted.set(2, 200));
    assert_eq!(boot(4, [3, 30, 200, 14, 0, 0, 0, 0]), wanted);

    // Zero is below the minimum of every parameter in these records.
    assert_eq!(boot(0, [0; MAX_INITIAL_PARAMS]), RainParams::default());
    assert_eq!(boot(4, [0; MAX_INITIAL_PARAMS]), RainParams::default());

    // Only the out-of-range entry is dropped; the valid one still lands.
    let mut partial = RainParams::default();
    assert!(partial.set(0, 2));
    assert_eq!(boot(2, [2, 0, 0, 0, 0, 0, 0, 0]), partial);
}

#[test]
fn the_configured_initial_effect_is_what_boots() {
    let boot = |initial_effect| {
        let source: PaletteFxSource<SliceLayout<'static>, 1, 1> = PaletteFxSource::new(
            SliceLayout::new(POSITIONS),
            PaletteFxConfig {
                initial_effect,
                ..PaletteFxConfig::default()
            },
        );
        source.extension_state().effect
    };

    assert_eq!(
        boot(Effect::<1>::LEGACY_STORM_INDEX),
        Effect::<1>::LEGACY_STORM_INDEX
    );
    assert_eq!(boot(Effect::<1>::RAIN_INDEX), Effect::<1>::RAIN_INDEX);
    assert_eq!(
        boot(Effect::<1>::NAMES.len() as u8),
        Effect::<1>::FLOW_INDEX
    );
}

#[test]
fn hits_come_out_in_the_order_they_went_in_and_a_full_queue_drops() {
    let mut hits: HitQueue<2> = HitQueue::new();
    assert_eq!(hits.take(), None);
    assert!(hits.record(7));
    assert!(hits.record(3));
    assert!(!hits.record(9));
    assert_eq!(hits.take(), Some(7));
    assert!(hits.record(5));
    assert_eq!(hits.take(), Some(3));
    assert_eq!(hits.take(), Some(5));
    assert_eq!(hits.take(), None);
}

#[test]
fn a_topology_is_scaled_alike_on_both_axes() {
    let layout = TopologyLayout::new(&[Some((10, 0)), Some((110, 50)), None]);
    assert_eq!(layout.count(), 3);
    assert_eq!(layout.position(0), (23, 0));
    assert_eq!(layout.position(1), (255, 115));
    assert_eq!(layout.position(2), (0, 0));
    let point = TopologyLayout::new(&[Some((-5, 7))]);
    assert_eq!(point.position(0), (0, 0));
    let wide = TopologyLayout::new(&[Some((i32::MIN, 0)), Some((i32::MAX, 0))]);
    assert_eq!(wide.position(1), (255, 0));
}

#[test]
fn light_keys_step_and_stop() {
    let mut source = reactive();
    for _ in 0..40 {
        assert!(source.handle_light_action(LightAction::RgbVad));
        assert!(source.handle_light_action(LightAction::RgbSpd));
    }
    assert_eq!(source.extension_state().value, 8);
    assert_eq!(source.extension_state().speed, 0);
    assert!(source.handle_light_action(LightAction::RgbVai));
    assert!(source.handle_light_action(LightAction::RgbSpi));
    assert_eq!(source.extension_state().value, 24);
    assert_eq!(source.extension_state().speed, 16);
    for _ in 0..40 {
        assert!(source.handle_light_action(LightAction::RgbVai));
        assert!(source.handle_light_action(LightAction::RgbSpi));
    }
    assert_eq!(source.extension_state().value, 255);
    assert_eq!(source.extension_state().speed, 255);
    assert!(!source.handle_light_action(LightAction::Other));
}

#[test]
fn palette_and_mode_keys_undo_each_other() {
    let mut source = reactive();
    let before = source.extension_state();
    assert!(source.handle_light_action(LightAction::RgbHud));
    assert_eq!(source.extension_state().palette, 3);
    assert!(source.handle_light_action(LightAction::RgbHui));
    assert!(source.handle_light_action(LightAction::RgbModeForward));
    assert_eq!(source.extension_state().effect, 7);
    assert!(source.handle_light_action(LightAction::RgbModeReverse));
    assert_eq!(source.extension_state(), before);
    assert_eq!(source.palette_index(), 0);
}

#[test]
fn selections_read_back_and_unknown_ones_are_declined() {
    let mut source = reactive();
    let wanted = ExtensionState {
        effect: 11,
        palette: 2,
        value: 40,
        speed: 9,
    };
    assert!(source.apply_extension_state(wanted));
    assert_eq!(source.extension_state(), wanted);
    for declined in [
        ExtensionState {
            effect: 12,
            ..wanted
        },
        ExtensionState {
            palette: 4,
            ..wanted
        },
    ] {
        assert!(!source.apply_extension_state(declined));
        assert_eq!(source.extension_state(), wanted);
    }
    // Off by selection, and on again at the remembered brightness.
    assert!(source.apply_extension_state(ExtensionState { value: 0, ..wanted }));
    assert!(source.handle_light_action(LightAction::RgbTog));
    assert_eq!(source.extension_state().value, 40);
}

#[test]
fn reselecting_the_active_effect_keeps_its_animation() {
    let mut no_hits: HitQueue<1> = HitQueue::new();
    let mut hits: HitQueue<1> = HitQueue::new();
    let mut source = reactive();
    let mut fresh = reactive();
    assert!(hits.record(0));
    source.tick_frame(&mut hits, 1_000);
    let state = source.extension_state();
    assert!(source.apply_extension_state(state));
    source.tick_frame(&mut no_hits, 1_040);
    fresh.tick_frame(&mut no_hits, 1_040);
    assert_ne!(source.frame(), fresh.frame());
}

#[test]
fn the_first_contribution_renders_the_frame() {
    let mut no_hits: HitQueue<1> = HitQueue::new();
    let mut source = reactive();
    let mut twin = reactive();
    twin.tick_frame(&mut no_hits, 500);
    let contribution = source.contribution(0, &mut no_hits, 500);
    assert_eq!(
        contribution,
        Contribution::Opaque(EffectSample {
            color: hsv_to_rgb(twin.frame()[0]),
            next_change_ms: Some(540),
        })
    );
    assert_eq!(source.len(), 1);
    assert_eq!(source.slot(0), 0);
    assert_eq!(source.slot(65_537), 1);
}

#[test]
fn a_dark_board_still_remembers_a_brightness() {
    let mut source: PaletteFxSource<SliceLayout<'static>, 1, 1> = PaletteFxSource::new(
        SliceLayout::new(POSITIONS),
        PaletteFxConfig {
            initial_val: 0,
            min_val: 0,
            ..PaletteFxConfig::default()
        },
    );
    assert!(source.handle_light_action(LightAction::RgbTog));
    assert_eq!(source.extension_state().value, 1);
}

#[test]
fn a_source_that_is_off_renders_a_dark_frame() {
    let mut no_hits: HitQueue<1> = HitQueue::new();
    let mut source = reactive();
    source.tick_frame(&mut no_hits, 40);
    assert_ne!(source.frame()[0].v, 0);
    assert!(source.handle_light_action(LightAction::RgbTog));
    source.tick_frame(&mut no_hits, 80);
    assert_eq!(source.frame()[0].v, 0);
}

#[test]
fn toggling_changes_nothing_but_the_brightness() {
    let mut source = reactive();
    let before = source.extension_state();
    assert!(source.handle_light_action(LightAction::RgbTog));
    assert_eq!(
        source.extension_state(),
        ExtensionState { value: 0, ..before }
    );
    assert!(source.handle_light_action(LightAction::RgbTog));
    assert_eq!(source.extension_state(), before);
    assert!(!source.needs_led(0));
}
