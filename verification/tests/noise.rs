use roguelike::noise::tile_color_noise;

#[test]
fn tile_color_noise_deterministic() {
    let a = tile_color_noise(100, 100, 100, 10, 20, 2);
    let b = tile_color_noise(100, 100, 100, 10, 20, 2);
    assert_eq!(a, b);
}

#[test]
fn tile_color_noise_in_range() {
    for x in -5..5 {
        for y in -5..5 {
            let (r, g, b) = tile_color_noise(100, 100, 100, x, y, 2);
            assert!((98..=102).contains(&r), "r={r} out of ±2 range for ({x},{y})");
            assert!((98..=102).contains(&g), "g={g} out of ±2 range for ({x},{y})");
            assert!((98..=102).contains(&b), "b={b} out of ±2 range for ({x},{y})");
        }
    }
}

#[test]
fn tile_color_noise_clamps_at_boundaries() {
    // Near 0: should not underflow
    let (r, _, _) = tile_color_noise(0, 128, 255, 5, 5, 2);
    assert!(r <= 2, "r={r} should be clamped near 0");
    // Near 255: should not overflow
    let (_, _, b) = tile_color_noise(0, 128, 255, 5, 5, 2);
    assert!(b >= 253, "b={b} should be clamped near 255");
}

#[test]
fn tile_color_noise_different_positions_vary() {
    let a = tile_color_noise(100, 100, 100, 0, 0, 2);
    let b = tile_color_noise(100, 100, 100, 50, 50, 2);
    // Very unlikely all 3 channels are identical for different positions
    assert!(a != b, "Different positions should typically produce different noise");
}

#[test]
fn tile_color_noise_zero_range_is_identity() {
    let (r, g, b) = tile_color_noise(100, 150, 200, 42, 99, 0);
    assert_eq!(r, 100);
    assert_eq!(g, 150);
    assert_eq!(b, 200);
}
