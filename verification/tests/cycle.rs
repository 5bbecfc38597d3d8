use rmk_palettefx::color::{hsv_to_rgb, Hsv, Rgb};
use rmk_palettefx::effects::{
    CometParams, CrosshairParams, Effect, EffectStack, FrameParams, KeyfallParams, RainParams,
};
use rmk_palettefx::layout::SliceLayout;
use rmk_palettefx::palette::CARNIVAL;

fn params(timer_ms: u32) -> FrameParams<'static> {
    FrameParams {
        palette: &CARNIVAL,
        speed: 128,
        sat: 255,
        val: 255,
        timer_ms,
    }
}

#[test]
fn new_effects_append_without_renumbering_existing_effects() {
    assert_eq!(
        Effect::<1>::NAMES[Effect::<1>::CROSSHAIR_INDEX as usize],
        "Crosshair"
    );
    assert_eq!(
        Effect::<1>::NAMES[Effect::<1>::TRACER_INDEX as usize],
        "Tracer"
    );
    assert_eq!(
        Effect::<1>::NAMES[Effect::<1>::KEYFALL_INDEX as usize],
        "Keyfall"
    );
    assert_eq!(
        Effect::<1>::NAMES[Effect::<1>::SHOCKWAVE_INDEX as usize],
        "Shockwave"
    );
    for index in 0..Effect::<1>::NAMES.len() as u8 {
        assert_eq!(Effect::<1>::from_index(index, 1).unwrap().index(), index);
    }
}

#[test]
fn every_typing_reactive_effect_accepts_key_hits() {
    const LEDS: &[(u8, u8)] = &[(128, 128)];
    let layout = SliceLayout::new(LEDS);
    for index in [
        6,
        Effect::<1>::CROSSHAIR_INDEX,
        Effect::<1>::TRACER_INDEX,
        Effect::<1>::KEYFALL_INDEX,
        Effect::<1>::SHOCKWAVE_INDEX,
    ] {
        let mut effect = Effect::<1>::from_index(index, 1).unwrap();
        assert!(
            effect.record_hit(&layout, 0, 0),
            "effect {index} ignored a hit"
        );
    }
}

#[test]
fn reactive_blends_over_dark_rain_background() {
    // x=200: the Rain RNG under this seed never places a drop close
    // enough to this column during the frames we sample.
    const LEDS: &[(u8, u8)] = &[(200, 128)];
    let layout = SliceLayout::new(LEDS);
    let mut scratch = [Hsv::default(); 1];
    let mut quiet_out = [Rgb::default(); 1];
    let mut hit_out = [Rgb::default(); 1];

    let build = || -> EffectStack<8> {
        EffectStack::new(
            Effect::<8>::from_index(Effect::<8>::RAIN_INDEX, 1).unwrap(),
            Some(Effect::<8>::from_index(6, 2).unwrap()),
        )
    };
    let mut quiet = build();
    let mut hit = build();
    assert!(hit.record_hit(&layout, 0, 0));

    let mut hit_lit = false;
    for t in (0..2000).step_by(50) {
        quiet.tick(&layout, params(t), &mut scratch, &mut quiet_out);
        assert_eq!(
            quiet_out[0],
            Rgb::default(),
            "idle overlay at t={t} must stay transparent"
        );
        hit.tick(&layout, params(t), &mut scratch, &mut hit_out);
        hit_lit |= hit_out[0] != quiet_out[0];
    }
    assert!(hit_lit, "key hit never changed its LED");
}

#[test]
fn any_effect_can_fill_either_slot() {
    const LEDS: &[(u8, u8)] = &[(128, 128)];
    let layout = SliceLayout::new(LEDS);
    let mut scratch = [Hsv::default(); 1];
    let mut out = [Rgb::default(); 1];

    for primary in 0..Effect::<1>::NAMES.len() as u8 {
        for overlay in 0..Effect::<1>::NAMES.len() as u8 {
            let mut stack: EffectStack<1> = EffectStack::new(
                Effect::<1>::from_index(primary, 1).unwrap(),
                Some(Effect::<1>::from_index(overlay, 2).unwrap()),
            );
            stack.tick(&layout, params(100), &mut scratch, &mut out);
        }
    }
}

#[test]
fn the_cycle_visits_every_effect_and_comes_back() {
    let mut effect = Effect::<1>::from_index(0, 1).unwrap();
    for index in 0..Effect::<1>::NAMES.len() as u8 {
        assert_eq!(effect.index(), index);
        effect.next(1);
    }
    assert_eq!(effect.index(), 0);
    for index in (0..Effect::<1>::NAMES.len() as u8).rev() {
        effect.prev(1);
        assert_eq!(effect.index(), index);
    }
    assert!(Effect::<1>::from_index(Effect::<1>::NAMES.len() as u8, 1).is_none());
}

#[test]
fn only_key_reactive_effects_record_hits() {
    const LEDS: &[(u8, u8)] = &[(128, 128)];
    let layout = SliceLayout::new(LEDS);
    for index in 0..Effect::<1>::NAMES.len() as u8 {
        let mut effect = Effect::<1>::from_index(index, 1).unwrap();
        assert_eq!(effect.record_hit(&layout, 0, 0), index >= 6);
        assert_eq!(effect.index(), index);
    }
}

#[test]
fn tunings_reach_only_the_effect_they_belong_to() {
    for index in 0..Effect::<1>::NAMES.len() as u8 {
        let mut effect = Effect::<1>::from_index(index, 1).unwrap();
        let rain = RainParams {
            drops: 9,
            ..RainParams::default()
        };
        let cross = CrosshairParams {
            motion: 2,
            ..CrosshairParams::default()
        };
        let fall = KeyfallParams { gravity: 3 };
        let comet = CometParams {
            lag: 99,
            ..CometParams::default()
        };
        effect.set_rain_params(rain);
        effect.set_crosshair_params(cross);
        effect.set_keyfall_params(fall);
        effect.set_comet_params(comet);
        let (r, c, k, m) = (
            Effect::<1>::uses_rain_params(index),
            Effect::<1>::uses_crosshair_params(index),
            Effect::<1>::uses_keyfall_params(index),
            Effect::<1>::uses_comet_params(index),
        );
        assert_eq!(effect.rain_params(), r.then_some(rain));
        assert_eq!(effect.crosshair_params(), c.then_some(cross));
        assert_eq!(effect.keyfall_params(), k.then_some(fall));
        assert_eq!(effect.comet_params(), m.then_some(comet));
    }
}

#[test]
fn coverage_decides_between_the_slots() {
    const LEDS: &[(u8, u8)] = &[(0, 0), (255, 255)];
    let layout = SliceLayout::new(LEDS);
    let mut scratch = [Hsv::default(); 2];
    let mut plain = [Rgb::default(); 3];
    let mut layered = [Rgb::new(1, 2, 3); 3];

    let mut primary: EffectStack<1> = EffectStack::new(Effect::Gradient, None);
    primary.tick(&layout, params(0), &mut scratch, &mut plain);
    let mut both: EffectStack<1> = EffectStack::new(
        Effect::Gradient,
        Effect::<1>::from_index(Effect::<1>::CROSSHAIR_INDEX, 1),
    );
    assert!(both.record_hit(&layout, 0, 0));
    both.tick(
        &layout,
        FrameParams {
            val: 100,
            ..params(0)
        },
        &mut scratch,
        &mut layered,
    );
    // The pressed key is fully covered, at the stack's brightness; the other
    // corner is not covered at all.
    assert_eq!(layered[0], hsv_to_rgb(Hsv::new(16, 255, 100)));
    assert_eq!(layered[2], Rgb::new(1, 2, 3), "beyond the scratch buffer");
    let mut dim: EffectStack<1> = EffectStack::new(Effect::Gradient, None);
    dim.tick(
        &layout,
        FrameParams {
            val: 100,
            ..params(0)
        },
        &mut scratch,
        &mut plain,
    );
    assert_eq!(layered[1], plain[1]);
    assert!(dim.overlay().is_none());
    dim.set_overlay(Some(Effect::Gradient));
    dim.overlay_mut().unwrap().next(1);
    assert_eq!(dim.overlay().unwrap().index(), 1);
    dim.primary_mut().prev(1);
    assert_eq!(dim.primary().index(), Effect::<1>::COMET_INDEX);
    dim.set_primary(Effect::Gradient);
    assert_eq!(dim.primary().index(), 0);
}

#[test]
fn without_brightness_every_effect_is_dark() {
    const LEDS: &[(u8, u8)] = &[(0, 0), (128, 128), (255, 255)];
    let layout = SliceLayout::new(LEDS);
    for index in 0..Effect::<2>::NAMES.len() as u8 {
        let mut effect = Effect::<2>::from_index(index, 1).unwrap();
        effect.record_hit(&layout, 1, 0);
        for t in (0..400).step_by(40) {
            let mut out = [Hsv::new(1, 2, 3); 3];
            let dark = FrameParams {
                val: 0,
                ..params(t)
            };
            effect.tick(&layout, dark, &mut out);
            assert!(out.iter().all(|pixel| pixel.v == 0), "effect {index} at {t}");
        }
    }
}

#[test]
fn a_memory_without_room_records_no_hit() {
    const LEDS: &[(u8, u8)] = &[(128, 128)];
    let layout = SliceLayout::new(LEDS);
    for index in 0..Effect::<0>::NAMES.len() as u8 {
        let mut effect = Effect::<0>::from_index(index, 1).unwrap();
        assert!(!effect.record_hit(&layout, 0, 0));
    }
    let mut stack: EffectStack<0> = EffectStack::new(
        Effect::<0>::from_index(Effect::<0>::TRACER_INDEX, 1).unwrap(),
        Effect::<0>::from_index(6, 1),
    );
    assert!(!stack.record_hit(&layout, 0, 0));
}

#[test]
fn idle_overlays_leave_the_primary_as_it_is() {
    const LEDS: &[(u8, u8)] = &[(0, 0), (128, 128), (255, 255)];
    let layout = SliceLayout::new(LEDS);
    for overlay in 6..Effect::<2>::NAMES.len() as u8 {
        let mut scratch = [Hsv::default(); 3];
        let mut alone_out = [Rgb::default(); 3];
        let mut both_out = [Rgb::default(); 3];
        let mut alone: EffectStack<2> =
            EffectStack::new(Effect::<2>::from_index(1, 1).unwrap(), None);
        let mut both: EffectStack<2> = EffectStack::new(
            Effect::<2>::from_index(1, 1).unwrap(),
            Effect::<2>::from_index(overlay, 1),
        );
        for t in (0..400).step_by(40) {
            alone.tick(&layout, params(t), &mut scratch, &mut alone_out);
            both.tick(&layout, params(t), &mut scratch, &mut both_out);
            assert_eq!(alone_out, both_out, "overlay {overlay} at {t}");
        }
    }
}

#[test]
fn only_the_layer_of_reactive_differs_from_its_frame() {
    const LEDS: &[(u8, u8)] = &[(0, 0), (128, 128), (255, 255)];
    let layout = SliceLayout::new(LEDS);
    for index in 0..Effect::<2>::NAMES.len() as u8 {
        let mut framed = Effect::<2>::from_index(index, 1).unwrap();
        let mut layered = Effect::<2>::from_index(index, 1).unwrap();
        framed.record_hit(&layout, 1, 0);
        layered.record_hit(&layout, 1, 0);
        let mut a = [Hsv::default(); 3];
        let mut b = [Hsv::default(); 3];
        framed.tick(&layout, params(20), &mut a);
        layered.tick_layer(&layout, params(20), &mut b);
        assert_eq!(a == b, index != 6, "effect {index}");
    }
}

#[test]
fn only_a_droplet_that_is_due_needs_an_led() {
    const NONE: &[(u8, u8)] = &[];
    let layout = SliceLayout::new(NONE);
    let mut out = [Hsv::default(); 1];
    for index in 0..Effect::<1>::NAMES.len() as u8 {
        let mut effect = Effect::<1>::from_index(index, 1).unwrap();
        assert_eq!(effect.needs_led(0), index == 4);
        if index != 4 {
            effect.tick(&layout, params(0), &mut out);
        }
    }
}
