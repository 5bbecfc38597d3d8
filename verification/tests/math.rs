use rmk_palettefx::math::{
    abs_diff, abs_half_diff, cos8, ease8_in_out_approx, isqrt, low_byte, scale16by8, scale255,
    scale8, sin8, soft_edge, sqrt16,
};

#[test]
fn square_roots_round_down() {
    let cases: [(u64, u64); 7] = [
        (0, 0),
        (1, 1),
        (3, 1),
        (4, 2),
        (65_535, 255),
        (1 << 32, 1 << 16),
        (u64::MAX, 4_294_967_295),
    ];
    for (n, root) in cases {
        assert_eq!(isqrt(n), root);
    }
    assert_eq!(sqrt16(7_056), 84);
    assert_eq!(sqrt16(7_055), 83);
}

#[test]
fn fractions_keep_their_endpoints() {
    for value in 0..=255u8 {
        assert_eq!(scale255(value, 255), value);
        assert_eq!(scale255(value, 0), 0);
        assert_eq!(scale8(value, 255), value);
    }
    assert_eq!(scale255(100, 128), 50);
    assert_eq!(scale255(1, 127), 0);
    assert_eq!(scale8(100, 127), 50);
    assert_eq!(scale8(255, 0), 0);
    assert_eq!(scale16by8(1_000, 32), 128);
    assert_eq!(scale16by8(65_535, 255), 65_535);
}

#[test]
fn soft_edges_shrink_to_their_radius() {
    assert_eq!(soft_edge(0, 10), 255);
    assert_eq!(soft_edge(10, 10), 24);
    assert_eq!(soft_edge(11, 10), 0);
    assert_eq!(soft_edge(0, 0), 255);
    assert_eq!(soft_edge(1, 0), 0);
    for distance in 0..20 {
        assert!(soft_edge(distance + 1, 12) <= soft_edge(distance, 12));
    }
}

#[test]
fn distances_are_absolute() {
    assert_eq!(abs_diff(3, 10), 7);
    assert_eq!(abs_diff(10, 3), 7);
    assert_eq!(abs_half_diff(0, 255), 127);
    assert_eq!(low_byte(0x1234_56ab), 0xab);
}

#[test]
fn waves_turn_in_quarters() {
    assert_eq!(sin8(0), 128);
    assert_eq!(sin8(64), 255);
    assert_eq!(sin8(128), 128);
    assert_eq!(sin8(192), 1);
    assert_eq!(sin8(16), 177);
    assert_eq!(cos8(0), 255);
    assert_eq!(cos8(128), 1);
    for theta in 0..=255u8 {
        assert_eq!(cos8(theta), sin8(theta.wrapping_add(64)));
    }
}

#[test]
fn easing_is_steep_in_the_middle() {
    let cases = [(0, 0), (63, 31), (64, 32), (128, 128), (191, 222), (192, 224), (255, 255)];
    for (i, eased) in cases {
        assert_eq!(ease8_in_out_approx(i), eased);
    }
}
