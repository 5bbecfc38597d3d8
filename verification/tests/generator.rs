use rand_core::Rng;
use rmk_palettefx::effects::Pcg32;

#[test]
fn the_generator_yields_the_reference_sequence() {
    let mut rng = Pcg32::new(42, 54);
    for word in [
        0xa15c02b7u32,
        0x7b47f409,
        0xba1d3330,
        0x83d2f293,
        0xbfa4784b,
        0xcbed606e,
    ] {
        assert_eq!(rng.next_u32(), word);
    }
    assert_eq!(rng.position, 6);
}

#[test]
fn seed_and_stream_both_select_the_sequence() {
    for (seed, stream) in [(0, 1), (1, 0), (u64::MAX, 3), (7, 0xA02B_DBF7_BB3C_0A7F)] {
        let mut rng = Pcg32::new(seed, stream);
        let mut outside = rand_pcg::Pcg32::new(seed, stream);
        for _ in 0..50 {
            assert_eq!(rng.next_u32(), outside.next_u32());
        }
    }
}
