use termfire::noise::{gradient_hash, octave_factor};

#[test]
fn hash_is_deterministic() {
    for ix in 0..16u64 {
        for iy in 0..16u64 {
            assert_eq!(gradient_hash(ix, iy), gradient_hash(ix, iy));
        }
    }
}

#[test]
fn hash_matches_mixing_pipeline() {
    // The mixing pipeline written out longhand, checked on a few points.
    fn reference(ix: u64, iy: u64) -> u64 {
        let mut a = ix;
        let mut b = iy;
        a = a.wrapping_mul(3284157443);
        b ^= (a << 32) | (a >> 32);
        b = b.wrapping_mul(1911520717);
        a ^= (b << 32) | (b >> 32);
        a.wrapping_mul(2048419325)
    }
    for &(ix, iy) in &[(0u64, 0u64), (1, 0), (0, 1), (12, 34), (u64::MAX, 7)] {
        assert_eq!(gradient_hash(ix, iy), reference(ix, iy));
    }
}

#[test]
fn hash_of_origin_is_zero() {
    assert_eq!(gradient_hash(0, 0), 0);
}

#[test]
fn hash_yields_unit_gradient() {
    // Turning the hash into an angle and then (cos, sin) gives a unit
    // vector at every lattice point tried.
    for ix in 0..8u64 {
        for iy in 0..8u64 {
            let h = gradient_hash(ix, iy);
            let angle = (h as f64 / ((u64::MAX as f64) + 1.0)) * std::f64::consts::PI;
            let (gx, gy) = (angle.cos(), angle.sin());
            assert!((gx * gx + gy * gy - 1.0).abs() < 1e-9);
        }
    }
}

#[test]
fn octave_factors_double() {
    assert_eq!(octave_factor(1), 1);
    assert_eq!(octave_factor(2), 2);
    assert_eq!(octave_factor(3), 4);
    assert_eq!(octave_factor(10), 512);
    assert_eq!(octave_factor(32), 0x8000_0000);
}
