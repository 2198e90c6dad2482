use ski_tiles::densify::{densify, LIFT_STEP_MM};

#[test]
fn empty_line_stays_empty() {
    assert!(densify(&vec![], &vec![], LIFT_STEP_MM).is_empty());
}

#[test]
fn single_point_line_is_kept() {
    assert_eq!(densify(&vec![(5, 7)], &vec![], LIFT_STEP_MM), vec![(5, 7)]);
}

#[test]
fn long_stretch_is_cut_into_equal_pieces() {
    let out = densify(&vec![(0, 0), (900, 300)], &vec![12_000], LIFT_STEP_MM);
    assert_eq!(out, vec![(0, 0), (300, 100), (600, 200), (900, 300)]);
}

#[test]
fn short_stretches_are_left_alone() {
    let out = densify(&vec![(0, 0), (100, 0), (200, 0)], &vec![4_000, 5_000], LIFT_STEP_MM);
    assert_eq!(out, vec![(0, 0), (100, 0), (200, 0)]);
}

#[test]
fn twice_the_step_gets_a_midpoint() {
    let out = densify(&vec![(0, 0), (100, 50)], &vec![10_000], LIFT_STEP_MM);
    assert_eq!(out, vec![(0, 0), (50, 25), (100, 50)]);
}

#[test]
fn interpolation_rounds_toward_the_start() {
    let out = densify(&vec![(0, 0), (-10, -10)], &vec![12_000], LIFT_STEP_MM);
    assert_eq!(out, vec![(0, 0), (-3, -3), (-6, -6), (-10, -10)]);
}
