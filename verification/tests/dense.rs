use rmk_palettefx::color::Hsv;
use rmk_palettefx::effects::phase::PhaseClock;
use rmk_palettefx::effects::{
    clock_rewound, gradient, FlowState, FrameParams, ReactiveState, SparkleState, VortexState,
};
use rmk_palettefx::layout::{LedLayout, SliceLayout};
use rmk_palettefx::palette::{interp_color, BUILTIN_PALETTES, BUILTIN_PALETTE_NAMES, CARNIVAL};

const LEDS: &[(u8, u8)] = &[(128, 128), (0, 0), (255, 255)];

fn frame(timer_ms: u32) -> FrameParams<'static> {
    FrameParams {
        palette: &CARNIVAL,
        speed: 128,
        sat: 255,
        val: 255,
        timer_ms,
    }
}

#[test]
fn a_palette_is_swept_from_its_first_color_to_its_last() {
    assert_eq!(interp_color(&CARNIVAL, 0, 255, 255), Hsv::new(0, 255, 255));
    assert_eq!(interp_color(&CARNIVAL, 8, 255, 255), Hsv::new(0, 255, 255));
    assert_eq!(interp_color(&CARNIVAL, 24, 255, 255), Hsv::new(12, 255, 255));
    assert_eq!(interp_color(&CARNIVAL, 128, 255, 255), Hsv::new(109, 255, 255));
    assert_eq!(interp_color(&CARNIVAL, 128, 127, 0), Hsv::new(109, 127, 0));
    assert_eq!(interp_color(&CARNIVAL, 255, 255, 255), Hsv::new(242, 255, 255));
    assert_eq!(BUILTIN_PALETTES.len(), BUILTIN_PALETTE_NAMES.len());
}

#[test]
fn a_layout_reads_its_slice() {
    let layout = SliceLayout::new(LEDS);
    assert_eq!(layout.count(), 3);
    assert_eq!(layout.position(2), (255, 255));
}

#[test]
fn the_gradient_runs_from_top_to_bottom() {
    let layout = SliceLayout::new(LEDS);
    let mut out = [Hsv::new(1, 2, 3); 4];
    gradient(&layout, frame(0), &mut out);
    assert_eq!(out[1], Hsv::new(242, 255, 255));
    assert_eq!(out[2], Hsv::new(0, 255, 255));
    assert_eq!(out[3], Hsv::new(1, 2, 3), "beyond the layout");
}

#[test]
fn the_drifting_effects_rest_in_the_middle_at_the_start() {
    let layout = SliceLayout::new(LEDS);
    let mut out = [Hsv::default(); 3];
    FlowState::new().tick(&layout, frame(0), &mut out);
    assert_eq!(out[0], Hsv::new(109, 255, 255));
    VortexState::new().tick(&layout, frame(0), &mut out);
    assert_eq!(out[0], Hsv::new(109, 255, 255));
    SparkleState::new().tick(&layout, frame(0), &mut out);
    assert_eq!(out[0], Hsv::new(109, 255, 128));
}

#[test]
fn the_drifting_effects_move() {
    let layout = SliceLayout::new(LEDS);
    let mut flow = FlowState::new();
    let mut vortex = VortexState::new();
    let mut sparkle = SparkleState::new();
    let mut before = [Hsv::default(); 3];
    let mut after = [Hsv::default(); 3];
    flow.tick(&layout, frame(0), &mut before);
    flow.tick(&layout, frame(500), &mut after);
    assert_ne!(before, after);
    vortex.tick(&layout, frame(0), &mut before);
    vortex.tick(&layout, frame(500), &mut after);
    assert_ne!(before, after);
    sparkle.tick(&layout, frame(0), &mut before);
    sparkle.tick(&layout, frame(500), &mut after);
    assert_ne!(before, after);
}

#[test]
fn the_slowed_clock_does_not_jump_at_the_wrap() {
    let mut clock = PhaseClock::new();
    assert_eq!(clock.read(0, 128), 0);
    assert_eq!(clock.read(256, 128), 17);
    let before = clock.read(65_535, 128);
    let after = clock.read(65_536, 128);
    assert_eq!(before, 4_351);
    assert_eq!(after, 4_352);
}

#[test]
fn a_clock_that_steps_back_past_jitter_was_rewound() {
    assert!(!clock_rewound(5_000, 5_040));
    assert!(!clock_rewound(5_000, 3_000));
    assert!(clock_rewound(5_000, 2_999));
    assert!(!clock_rewound(u32::MAX, 5));
}

#[test]
fn a_pressed_key_glows_over_a_dim_wash() {
    let layout = SliceLayout::new(LEDS);
    let mut state = ReactiveState::<2>::new();
    let mut out = [Hsv::new(1, 2, 3); 4];
    state.tick(&layout, frame(0), &mut out);
    assert_eq!(out[0], Hsv::new(0, 255, 64));
    assert_eq!(out[3], Hsv::new(1, 2, 3), "beyond the layout");
    state.record_hit(128, 128, 0);
    state.tick(&layout, frame(0), &mut out);
    assert_eq!(out[0], Hsv::new(242, 255, 255));
    assert_eq!(out[1], Hsv::new(0, 255, 64));
}

#[test]
fn an_idle_layer_is_transparent() {
    let layout = SliceLayout::new(LEDS);
    let mut state = ReactiveState::<2>::new();
    let mut out = [Hsv::new(1, 2, 3); 4];
    state.tick_layer(&layout, frame(0), &mut out);
    assert!(out.iter().all(|pixel| *pixel == Hsv::default()));
    state.record_hit(128, 128, 0);
    state.tick_layer(&layout, frame(0), &mut out);
    assert_eq!(out[0], Hsv::new(242, 255, 255));
    assert_eq!(out[1], Hsv::default());
    // 255 of the slowed time is over after 451 ms at this speed.
    state.tick_layer(&layout, frame(451), &mut out);
    assert_eq!(out[0], Hsv::default());
}
