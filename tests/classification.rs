use ski_tiles::classify::{classify, geo_window, path_length, speed_samples, step_color};
use ski_tiles::color::{
    downhill_color, stretch_color, uphill_color, Rgba, COL_BLACK, COL_DARK_GREEN, COL_LIFT_ACCESS,
    COL_LIGHT_GREEN, COL_UDARK_RED, COL_ULIGHT_GREEN,
};
use ski_tiles::geo::TrackPoint;
use ski_tiles::gradient::{descent_rate, descent_rates, smooth, smoothed_gradient};
use ski_tiles::lift_index::{LiftIndex, LiftSample};
use ski_tiles::score::{
    gradient_points, is_lift_access, lift_score, parallel_points, proximity_points,
    sinuosity_points, stability_points, LIFT_THRESHOLD, POINT,
};
use ski_tiles::segments::{coalesce, color_runs, Run};

fn pt(lat_e7: i64, lon_e7: i64, ele_mm: i64, time_ms: Option<i64>) -> TrackPoint {
    TrackPoint { lat_e7, lon_e7, ele_mm, time_ms }
}

#[test]
fn downhill_bands() {
    assert_eq!(downhill_color(-30_000), COL_LIGHT_GREEN);
    assert_eq!(downhill_color(-70_000), COL_LIGHT_GREEN);
    assert_eq!(downhill_color(-70_001), COL_DARK_GREEN);
    assert_eq!(downhill_color(-450_001), COL_BLACK);
}

#[test]
fn uphill_bands() {
    assert_eq!(uphill_color(0), COL_ULIGHT_GREEN);
    assert_eq!(uphill_color(450_000), COL_UDARK_RED);
    assert_eq!(uphill_color(450_001), COL_BLACK);
}

#[test]
fn lift_access_takes_precedence() {
    assert_eq!(stretch_color(true, -400_000), COL_LIFT_ACCESS);
    assert_eq!(stretch_color(false, -30_000), COL_LIGHT_GREEN);
    assert_eq!(stretch_color(false, 30_000), COL_ULIGHT_GREEN);
}

#[test]
fn packed_color_channels() {
    let c = Rgba::from_packed(0x48B7_48FF);
    assert_eq!(c, Rgba { r: 0x48, g: 0xB7, b: 0x48, a: 0xFF });
    assert_eq!(c.packed(), 0x48B7_48FF);
    assert_eq!(Rgba::from_packed(COL_LIFT_ACCESS).a, 0x60);
}

#[test]
fn descent_rate_values() {
    assert_eq!(descent_rate(-3_000, 100_000), -30_000);
    assert_eq!(descent_rate(5_000, 0), 0);
    assert_eq!(descent_rate(1, 3), 333_333);
    assert_eq!(descent_rate(-1, 3), -333_333);
}

#[test]
fn rates_start_at_zero() {
    let r = descent_rates(&vec![1_000, 997_000 - 996_000, 0], &vec![100_000, 0]);
    assert_eq!(r, vec![0, 0, 0]);
    let r = descent_rates(&vec![1_000_000, 997_000], &vec![100_000]);
    assert_eq!(r, vec![0, -30_000]);
}

#[test]
fn smoothing_width_one_is_identity() {
    let rates = vec![5, -7, 100, 0, 3];
    assert_eq!(smooth(&rates, 0), rates);
}

#[test]
fn smoothing_shrinks_window_at_ends() {
    assert_eq!(smooth(&vec![0, -30_000], 2), vec![-15_000, -15_000]);
    let out = smooth(&vec![10, 20, 30, 40, 50, 60], 2);
    assert_eq!(out, vec![20, 25, 30, 40, 45, 50]);
}

#[test]
fn smoothing_stays_within_min_and_max() {
    let rates = vec![-9, 4, 17, -3, 8, 2, -1];
    for half in 0..5 {
        for v in smooth(&rates, half) {
            assert!(-9 <= v && v <= 17);
        }
    }
}

#[test]
fn smoothed_gradient_of_two_points() {
    assert_eq!(smoothed_gradient(&vec![1_000_000, 997_000], &vec![100_000]), vec![-15_000, -15_000]);
}

#[test]
fn runs_split_on_colour_change() {
    assert_eq!(color_runs(&vec![]), vec![]);
    assert_eq!(
        color_runs(&vec![1, 1, 2, 2, 2, 1]),
        vec![
            Run { start: 0, end: 2, color: 1 },
            Run { start: 2, end: 5, color: 2 },
            Run { start: 5, end: 6, color: 1 },
        ]
    );
}

#[test]
fn short_tracks_give_no_segments() {
    assert!(coalesce(&vec![], &vec![]).is_empty());
    assert!(coalesce(&vec![pt(0, 0, 0, None)], &vec![]).is_empty());
}

#[test]
fn segments_chain_at_shared_points() {
    let points: Vec<TrackPoint> = (0..5).map(|i| pt(i * 100, 0, 0, None)).collect();
    let segs = coalesce(&points, &vec![7, 7, 9, 7]);
    assert_eq!(segs.len(), 3);
    assert_eq!(segs[0].points, points[0..3].to_vec());
    assert_eq!(segs[0].color, 7);
    assert_eq!(segs[1].points, points[2..4].to_vec());
    assert_eq!(segs[1].color, 9);
    assert_eq!(segs[2].points, points[3..5].to_vec());
    for w in segs.windows(2) {
        assert!(w[0].points.len() >= 2);
        assert_eq!(w[0].points.last(), w[1].points.first());
    }
}

#[test]
fn proximity_decays_linearly() {
    assert_eq!(proximity_points(None), 0);
    assert_eq!(proximity_points(Some(0)), 55 * POINT);
    assert_eq!(proximity_points(Some(2_499)), 55 * POINT);
    assert_eq!(proximity_points(Some(2_500)), 55 * POINT);
    assert_eq!(proximity_points(Some(6_250)), 55 * POINT / 2);
    assert_eq!(proximity_points(Some(10_000)), 0);
}

#[test]
fn parallelism_bands() {
    assert_eq!(parallel_points(1_000, 0, Some((2_000, 0))), 30 * POINT);
    assert_eq!(parallel_points(1_000, 0, Some((-2_000, 0))), 30 * POINT);
    assert_eq!(parallel_points(1_000, 0, Some((0, 2_000))), -20 * POINT);
    // cos = 0.9: between 0.85 and 0.95
    assert_eq!(parallel_points(900, 436, Some((1_000, 0))), 15 * POINT);
    // cos = 0.6
    assert_eq!(parallel_points(600, 800, Some((1_000, 0))), 0);
    assert_eq!(parallel_points(1_000, 0, None), -20 * POINT);
    // a direction of 0.1 m or less is not used
    assert_eq!(parallel_points(100, 0, Some((1_000, 0))), -20 * POINT);
}

#[test]
fn stability_bands() {
    assert_eq!(stability_points(&vec![]), 0);
    assert_eq!(stability_points(&vec![5_000, 5_000, 5_000]), 15 * POINT);
    assert_eq!(stability_points(&vec![50, 50]), 0);
    // mean 5000, standard deviation 2000: cv = 0.4
    assert_eq!(stability_points(&vec![3_000, 7_000]), 5 * POINT);
    // cv = 0.6
    assert_eq!(stability_points(&vec![2_000, 8_000]), 0);
}

#[test]
fn sinuosity_bands() {
    assert_eq!(sinuosity_points(0, 0), 10 * POINT);
    assert_eq!(sinuosity_points(109, 100), 10 * POINT);
    assert_eq!(sinuosity_points(110, 100), 5 * POINT);
    assert_eq!(sinuosity_points(125, 100), 0);
}

#[test]
fn gradient_bonus_and_penalty() {
    assert_eq!(gradient_points(0), 0);
    assert_eq!(gradient_points(100_000), 10 * POINT as i128);
    assert_eq!(gradient_points(300_000), 20 * POINT as i128);
    assert_eq!(gradient_points(-30_000), -6 * POINT as i128);
}

#[test]
fn ideal_lift_step_scores_high() {
    let s = lift_score(Some(0), 1_000, 0, Some((2_000, 0)), &vec![5_000, 5_000, 5_000], 100_000, 100_000, 0);
    assert_eq!(s, 110 * POINT as i128);
    assert!(s >= 95 * POINT as i128);
    assert!(is_lift_access(s));
    assert!(!is_lift_access(LIFT_THRESHOLD as i128 - 1));
}

#[test]
fn window_bounds_are_clamped() {
    assert_eq!(geo_window(0, 3), (0, 3));
    assert_eq!(geo_window(10, 30), (6, 15));
    assert_eq!(geo_window(28, 30), (24, 30));
}

#[test]
fn window_measurements() {
    let points = vec![
        pt(0, 0, 0, Some(0)),
        pt(0, 0, 0, Some(1_000)),
        pt(0, 0, 0, Some(1_050)),
        pt(0, 0, 0, None),
    ];
    let steps = vec![4_000, 10, 7];
    assert_eq!(path_length(&steps, 0, 3), 4_017);
    assert_eq!(speed_samples(&points, &steps, 0, 3), vec![4_000]);
}

#[test]
fn step_color_without_lift() {
    let points = vec![pt(0, 0, 1_000_000, None), pt(9_000, 0, 997_000, None)];
    let c = step_color(&points, &vec![100_000], &vec![100_000], &vec![1_000_000, 1_000_000], -15_000, 0, None, None);
    assert_eq!(c, COL_LIGHT_GREEN);
}

#[test]
fn step_color_on_lift() {
    let points = vec![pt(0, 0, 1_000_000, None), pt(9_000, 0, 1_010_000, None)];
    let c = step_color(
        &points,
        &vec![100_000],
        &vec![100_000],
        &vec![1_000_000, 1_000_000],
        100_000,
        0,
        Some(0),
        Some((0, 5_000)),
    );
    assert_eq!(c, COL_LIFT_ACCESS);
}

#[test]
fn gentle_descent_is_one_light_green_segment() {
    let index = LiftIndex::new();
    let points = vec![pt(460_000_000, 70_000_000, 1_000_000, None), pt(460_009_000, 70_000_000, 997_000, None)];
    let segs = classify(&index, &points, &vec![100_000], &vec![100_000], &vec![694_658, 694_658]);
    assert_eq!(segs.len(), 1);
    assert_eq!(segs[0].color, COL_LIGHT_GREEN);
    assert_eq!(segs[0].points, points);
}

#[test]
fn lone_point_track_is_dropped() {
    let index = LiftIndex::new();
    let segs = classify(&index, &vec![pt(0, 0, 0, None)], &vec![], &vec![], &vec![1_000_000]);
    assert!(segs.is_empty());
}

#[test]
fn track_along_lift_is_lift_access() {
    let mut index = LiftIndex::new();
    let lift: Vec<LiftSample> = (0..=40)
        .map(|k| LiftSample { lat_e7: k * 450, lon_e7: 0, cos_e6: 1_000_000 })
        .collect();
    index.add_path(lift);
    let points: Vec<TrackPoint> = (0..6).map(|k| pt(k * 2_700, 0, 1_000_000 + k * 6_000, Some(k * 10_000))).collect();
    let steps = vec![30_000; 5];
    let chords: Vec<u64> = (0..5)
        .map(|i| {
            let (lo, hi) = geo_window(i, 6);
            ((hi - 1 - lo) * 30_000) as u64
        })
        .collect();
    let segs = classify(&index, &points, &steps, &chords, &vec![1_000_000; 6]);
    assert_eq!(segs.len(), 1);
    assert_eq!(segs[0].color, COL_LIFT_ACCESS);
    assert_eq!(segs[0].points.len(), 6);
}

#[test]
fn stability_over_a_long_window() {
    let steady = vec![4_000u64; 1_000];
    assert_eq!(stability_points(&steady), 15 * POINT);
    let mut mixed = vec![3_000u64; 500];
    mixed.extend(vec![7_000u64; 500]);
    assert_eq!(stability_points(&mixed), 5 * POINT);
}

#[test]
fn path_length_over_a_long_window() {
    let steps = vec![1_000u64; 100];
    assert_eq!(path_length(&steps, 10, 60), 50_000);
}
