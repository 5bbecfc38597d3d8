use rmk_palettefx::color::Hsv;
use rmk_palettefx::effects::tracer::{duration_ms, MAX_CONNECT_GAP_MS};
use rmk_palettefx::effects::{FrameParams, TracerState};
use rmk_palettefx::layout::SliceLayout;
use rmk_palettefx::palette::CARNIVAL;

const POSITIONS: &[(u8, u8)] = &[(0, 128), (128, 128), (255, 128), (128, 220)];

fn frame(timer_ms: u32) -> FrameParams<'static> {
    FrameParams {
        palette: &CARNIVAL,
        speed: 128,
        sat: 255,
        val: 255,
        timer_ms,
    }
}

#[test]
fn consecutive_keys_are_connected_without_lighting_off_path_keys() {
    let layout = SliceLayout::new(POSITIONS);
    let mut state = TracerState::<4>::new();
    let mut out = [Hsv::default(); 4];
    state.record_hit(0, 128, 0);
    state.record_hit(255, 128, 10);
    state.tick(&layout, frame(10), &mut out);

    assert_ne!(out[0].v, 0);
    assert_ne!(out[1].v, 0);
    assert_ne!(out[2].v, 0);
    assert_eq!(out[3].v, 0);
}

#[test]
fn a_long_pause_starts_a_new_constellation() {
    let layout = SliceLayout::new(POSITIONS);
    let mut state = TracerState::<4>::new();
    let mut out = [Hsv::default(); 4];
    state.record_hit(0, 128, 0);
    let second = MAX_CONNECT_GAP_MS + 1;
    state.record_hit(255, 128, second);
    state.tick(&layout, frame(second), &mut out);

    assert_eq!(out[1].v, 0);
    assert_ne!(out[2].v, 0);
}

#[test]
fn expired_segments_are_transparent() {
    let layout = SliceLayout::new(POSITIONS);
    let mut state = TracerState::<1>::new();
    let mut out = [Hsv::default(); 4];
    state.record_hit(0, 128, 0);
    state.tick(&layout, frame(duration_ms(128)), &mut out);
    assert!(out.iter().all(|pixel| *pixel == Hsv::default()));
}

#[test]
fn both_ends_of_a_segment_are_bright_nodes() {
    let layout = SliceLayout::new(POSITIONS);
    let mut state = TracerState::<4>::new();
    let mut out = [Hsv::new(1, 2, 3); 5];
    state.record_hit(0, 128, 0);
    state.record_hit(255, 128, 0);
    state.tick(&layout, frame(0), &mut out);
    assert_eq!(out[0].v, 255);
    assert_eq!(out[1].v, 184, "the line between the nodes is dimmer");
    assert_eq!(out[2].v, 255);
    assert_eq!(out[4], Hsv::default(), "beyond the layout");
}

#[test]
fn the_longest_connected_pause_is_the_gap() {
    let layout = SliceLayout::new(POSITIONS);
    let mut state = TracerState::<4>::new();
    let mut out = [Hsv::default(); 4];
    state.record_hit(0, 128, 0);
    state.record_hit(255, 128, MAX_CONNECT_GAP_MS);
    state.tick(&layout, frame(MAX_CONNECT_GAP_MS), &mut out);
    assert_eq!(out[1].v, 184);
}

#[test]
fn tracer_lifetimes_follow_the_speed() {
    assert_eq!(duration_ms(128), 850);
    assert_eq!(duration_ms(0), 1275);
    assert_eq!(duration_ms(255), 428);
}
