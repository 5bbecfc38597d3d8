use rmk_palettefx::color::{blend_rgb, hsv_to_rgb, Hsv, Rgb};

#[test]
fn rgb_blend_preserves_exact_endpoints() {
    let base = Rgb::new(10, 20, 30);
    let overlay = Rgb::new(200, 150, 100);
    assert_eq!(blend_rgb(base, overlay, 0), base);
    assert_eq!(blend_rgb(base, overlay, 255), overlay);
}

#[test]
fn a_blend_rounds_to_the_nearest_step() {
    let base = Rgb::new(10, 20, 30);
    let overlay = Rgb::new(200, 150, 100);
    assert_eq!(blend_rgb(base, overlay, 128), Rgb::new(105, 85, 65));
    assert_eq!(blend_rgb(base, base, 77), base);
}

#[test]
fn the_value_is_the_brightest_channel() {
    for h in 0..=255u8 {
        for (s, v) in [(0, 0), (0, 200), (255, 255), (128, 90)] {
            let rgb = hsv_to_rgb(Hsv::new(h, s, v));
            assert_eq!(rgb.r.max(rgb.g).max(rgb.b), v);
        }
    }
    assert_eq!(hsv_to_rgb(Hsv::new(99, 200, 0)), Rgb::default());
    assert_eq!(hsv_to_rgb(Hsv::new(99, 0, 7)), Rgb::new(6, 7, 6));
    assert_eq!(hsv_to_rgb(Hsv::new(0, 255, 255)), Rgb::new(255, 0, 0));
}
