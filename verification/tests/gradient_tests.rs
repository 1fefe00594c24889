use termfire::gradient::{mix_rgb, Rgb, SCALAR_UNIT};

#[test]
fn map_bottom_yields_first_point() {
    let g: Vec<Rgb> = vec![(10, 20, 30), (200, 100, 50), (0, 0, 0)];
    assert_eq!(mix_rgb(0, &g), (10, 20, 30));
}

#[test]
fn map_top_yields_last_point() {
    let g: Vec<Rgb> = vec![(10, 20, 30), (200, 100, 50), (7, 8, 9)];
    assert_eq!(mix_rgb(SCALAR_UNIT, &g), (7, 8, 9));
}

#[test]
fn map_single_point_is_constant() {
    let g: Vec<Rgb> = vec![(42, 43, 44)];
    assert_eq!(mix_rgb(0, &g), (42, 43, 44));
    assert_eq!(mix_rgb(SCALAR_UNIT / 2, &g), (42, 43, 44));
    assert_eq!(mix_rgb(SCALAR_UNIT, &g), (42, 43, 44));
    assert_eq!(mix_rgb(123_456, &g), (42, 43, 44));
}

#[test]
fn map_midpoint_of_two_points_is_exact() {
    let g: Vec<Rgb> = vec![(0, 0, 0), (100, 100, 100)];
    assert_eq!(mix_rgb(SCALAR_UNIT / 2, &g), (50, 50, 50));
}

#[test]
fn map_truncates_toward_zero() {
    // One third of the way from 0 to 100 is 33.333..., truncated to 33.
    let g: Vec<Rgb> = vec![(0, 0, 0), (100, 100, 100)];
    assert_eq!(mix_rgb(SCALAR_UNIT / 3, &g), (33, 33, 33));
}

#[test]
fn map_descending_ramp() {
    // A ramp that falls from 200 to 100: halfway is exactly 150.
    let g: Vec<Rgb> = vec![(200, 200, 200), (100, 100, 100)];
    assert_eq!(mix_rgb(SCALAR_UNIT / 2, &g), (150, 150, 150));
}

#[test]
fn map_selects_correct_segment() {
    // Three points; n = 0.75 lands halfway through the second segment.
    let g: Vec<Rgb> = vec![(0, 0, 0), (100, 100, 100), (200, 200, 200)];
    assert_eq!(mix_rgb(3 * SCALAR_UNIT / 4, &g), (150, 150, 150));
}
