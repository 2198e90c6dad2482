use ski_tiles::geo::TrackPoint;
use ski_tiles::lift_index::{LiftIndex, LiftSample};
use ski_tiles::planar::{cell_of, dist_to_segment, east_mm, isqrt, north_mm, segment_vector};
use ski_tiles::tiles::{
    bucket, has_ink, padded_range, ranges_of, stroke_width_tenths, tile_of_key, TileRange,
};
use std::collections::BTreeSet;

fn tile_coords(lat_e7: i64, lon_e7: i64, zoom: u8) -> (i64, i64) {
    let lat = lat_e7 as f64 / 1e7;
    let lon = lon_e7 as f64 / 1e7;
    let n = 2f64.powi(zoom as i32);
    let x = (lon + 180.0) / 360.0 * n;
    let y = (1.0 - lat.to_radians().tan().asinh() / std::f64::consts::PI) / 2.0 * n;
    ((x * 1e6).floor() as i64, (y * 1e6).floor() as i64)
}

fn key(x: u64, y: u64) -> u64 {
    x * 0x1_0000_0000 + y
}

#[test]
fn stroke_width_by_zoom() {
    assert_eq!(stroke_width_tenths(6), 32);
    assert_eq!(stroke_width_tenths(9), 32);
    assert_eq!(stroke_width_tenths(10), 40);
    assert_eq!(stroke_width_tenths(19), 72);
    assert_eq!(stroke_width_tenths(30), 80);
}

#[test]
fn blank_tile_is_not_kept() {
    assert!(!has_ink(&vec![0u8; 512 * 512 * 4]));
    assert!(!has_ink(&[]));
    let mut faint = vec![0u8; 16];
    faint[7] = 10;
    assert!(!has_ink(&faint));
    faint[11] = 11;
    assert!(has_ink(&faint));
    // only alpha bytes count
    assert!(!has_ink(&[255, 255, 255, 0]));
}

#[test]
fn padded_range_floors_the_widened_box() {
    let r = padded_range(&vec![2_300_000, 2_900_000], &vec![5_000_000, 5_100_000]);
    assert_eq!(r, TileRange { x0: 1, x1: 3, y0: 4, y1: 5 });
    let r = padded_range(&vec![100_000], &vec![0]);
    assert_eq!(r, TileRange { x0: -1, x1: 0, y0: -1, y1: 0 });
}

#[test]
fn bucket_drops_negative_tiles_and_lists_once() {
    let ranges = vec![TileRange { x0: -1, x1: 0, y0: -1, y1: 1 }, TileRange { x0: 0, x1: 0, y0: 1, y1: 1 }];
    let m = bucket(&ranges);
    assert_eq!(m.len(), 2);
    assert_eq!(m[&key(0, 0)], vec![0]);
    assert_eq!(m[&key(0, 1)], vec![0, 1]);
}

#[test]
fn bucket_keys_decode() {
    assert_eq!(tile_of_key(key(17_000, 11_500)), (17_000, 11_500));
    assert_eq!(tile_of_key(0), (0, 0));
}

#[test]
fn empty_bucket() {
    assert!(bucket(&vec![]).is_empty());
}

#[test]
fn gentle_descent_lands_on_padded_tiles() {
    let zoom = 15u8;
    let a = TrackPoint { lat_e7: 460_000_000, lon_e7: 70_000_000, ele_mm: 1_000_000, time_ms: None };
    let b = TrackPoint { lat_e7: 460_009_000, lon_e7: 70_000_000, ele_mm: 997_000, time_ms: None };
    let (ax, ay) = tile_coords(a.lat_e7, a.lon_e7, zoom);
    let (bx, by) = tile_coords(b.lat_e7, b.lon_e7, zoom);
    let ranges = ranges_of(&vec![vec![ax, bx]], &vec![vec![ay, by]]);
    let m = bucket(&ranges);
    let fx = [ax as f64 / 1e6, bx as f64 / 1e6];
    let fy = [ay as f64 / 1e6, by as f64 / 1e6];
    let x0 = (fx[0].min(fx[1]) - 0.5).floor() as u64;
    let x1 = (fx[0].max(fx[1]) + 0.5).floor() as u64;
    let y0 = (fy[0].min(fy[1]) - 0.5).floor() as u64;
    let y1 = (fy[0].max(fy[1]) + 0.5).floor() as u64;
    let mut want = BTreeSet::new();
    for x in x0..=x1 {
        for y in y0..=y1 {
            want.insert(key(x, y));
        }
    }
    let got: BTreeSet<u64> = m.keys().copied().collect();
    assert_eq!(got, want);
    for v in m.values() {
        assert_eq!(v, &vec![0]);
    }
}

#[test]
fn grid_cells_floor() {
    assert_eq!(cell_of(0), 0);
    assert_eq!(cell_of(49_999), 0);
    assert_eq!(cell_of(50_000), 1);
    assert_eq!(cell_of(-1), -1);
    assert_eq!(cell_of(-50_000), -1);
    assert_eq!(cell_of(-50_001), -2);
}

#[test]
fn local_projection() {
    assert_eq!(north_mm(900), 9_999);
    assert_eq!(north_mm(-900), -9_999);
    assert_eq!(east_mm(10_000, 1_000_000), 111_111);
    assert_eq!(east_mm(10_000, 500_000), 55_555);
    assert_eq!(segment_vector(0, 0, 1_000_000, 900, 10_000), (111_111, 9_999));
}

#[test]
fn integer_square_root() {
    assert_eq!(isqrt(0), 0);
    assert_eq!(isqrt(99), 9);
    assert_eq!(isqrt(100), 10);
    assert_eq!(isqrt(0xFFFF_FFFF), 65_535);
}

#[test]
fn distance_to_segment_cases() {
    // perpendicular foot inside the segment
    assert_eq!(dist_to_segment(0, 0, 1_000_000, 900, -10_000, 900, 10_000), 9_999);
    // clamped to the nearer end
    assert_eq!(dist_to_segment(0, 0, 1_000_000, 900, 10_000, 900, 20_000), 111_560);
    // degenerate segment
    assert_eq!(dist_to_segment(0, 0, 1_000_000, 900, 0, 900, 0), 9_999);
}

fn lift_line() -> Vec<LiftSample> {
    (0..=40).map(|k| LiftSample { lat_e7: 460_000_000 + k * 450, lon_e7: 70_000_000, cos_e6: 694_658 }).collect()
}

#[test]
fn query_near_lift_stops_under_five_metres() {
    let mut index = LiftIndex::new();
    index.add_path(lift_line());
    assert_eq!(index.len(), 1);
    // the step 1350..1800 is 2.2 m away and ends the scan before the step
    // that holds the point
    let (d, v) = index.nearest(460_002_000, 70_000_000, 694_658);
    assert_eq!(d, Some(2_222));
    assert_eq!(v, Some((0, 4_999)));
}

#[test]
fn query_near_sample_is_finite() {
    let mut index = LiftIndex::new();
    index.add_path(lift_line());
    // just under one grid cell east and north of the last sample
    let (d, v) = index.nearest(460_018_000 + 49_999, 70_000_000 + 49_999, 694_658);
    assert!(d.is_some());
    assert!(v.is_some());
}

#[test]
fn query_far_from_lifts_is_none() {
    let mut index = LiftIndex::new();
    index.add_path(lift_line());
    assert_eq!(index.nearest(470_000_000, 70_000_000, 680_000), (None, None));
    assert_eq!(LiftIndex::new().nearest(0, 0, 1_000_000), (None, None));
}

#[test]
fn empty_lift_line_is_ignored() {
    let mut index = LiftIndex::new();
    index.add_path(vec![]);
    assert_eq!(index.len(), 0);
}

#[test]
fn single_sample_lift_has_no_step() {
    let mut index = LiftIndex::new();
    index.add_path(vec![LiftSample { lat_e7: 0, lon_e7: 0, cos_e6: 1_000_000 }]);
    assert_eq!(index.nearest(0, 0, 1_000_000), (None, None));
}

#[test]
fn adding_a_lift_leaves_far_cells_alone() {
    let mut index = LiftIndex::new();
    index.add_path(vec![LiftSample { lat_e7: 0, lon_e7: 0, cos_e6: 1_000_000 }, LiftSample { lat_e7: 450, lon_e7: 0, cos_e6: 1_000_000 }]);
    index.add_path(lift_line());
    assert_eq!(index.len(), 2);
    // a query near the first lift finds it, and is not drawn to the second
    let (d, _) = index.nearest(100, 0, 1_000_000);
    assert_eq!(d, Some(0));
    // two cells away from every sample of either lift: nothing
    assert_eq!(index.nearest(100_000, 100_000, 1_000_000), (None, None));
    assert_eq!(index.nearest(460_018_000 + 100_000, 70_000_000, 694_658), (None, None));
}
