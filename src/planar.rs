use crate::geo::{MAX_LAT_E7, MAX_LON_E7, valid_position};
use crate::gradient::{div_trunc, div_trunc_wide, floor_div, lemma_div_trunc_bounds, lemma_floor_div_bound};
use vstd::prelude::*;

verus! {

/// Side of a spatial grid cell: 0.005 degree, in units of 1e-7 degree.
pub const GRID_CELL_E7: i64 = 50_000;

/// Cosine scale of a latitude: `cos(lat) * 1e6`, rounded, in `0 ..= 1e6`.
pub const COS_SCALE: i64 = 1_000_000;

/// Largest magnitude of a projected offset, in millimetres.
pub const MAX_OFFSET_MM: i64 = 0x10_0000_0000;

/// Grid cell of a coordinate: `floor(v / cell)`.
pub open spec fn cell_spec(v: int) -> int {
    v / (GRID_CELL_E7 as int)
}

/// Local equirectangular projection (111111 m per degree of latitude):
/// northward millimetres of a latitude difference.
pub open spec fn north_mm_spec(dlat_e7: int) -> int {
    div_trunc(dlat_e7 * 111_111, 10_000)
}

/// Eastward millimetres of a longitude difference at a latitude whose
/// cosine scale is `cos_e6`.
pub open spec fn east_mm_spec(dlon_e7: int, cos_e6: int) -> int {
    div_trunc(dlon_e7 * 111_111 * cos_e6, 10_000_000_000)
}

/// Point of the segment from `(ax, ay)` to `(bx, by)` closest to the
/// origin: the clamped parametric projection, its coordinates rounded toward
/// the start point.
pub open spec fn closest_on_segment(ax: int, ay: int, bx: int, by: int) -> (int, int) {
    let dx = bx - ax;
    let dy = by - ay;
    let len2 = dx * dx + dy * dy;
    let num = -(ax * dx + ay * dy);
    if len2 == 0 || num <= 0 {
        (ax, ay)
    } else if num >= len2 {
        (bx, by)
    } else {
        (ax + div_trunc(dx * num, len2), ay + div_trunc(dy * num, len2))
    }
}

/// `r` is the integer square root of `n`.
pub open spec fn is_floor_sqrt(n: int, r: int) -> bool {
    r >= 0 && r * r <= n < (r + 1) * (r + 1)
}

pub fn cell_of(v: i64) -> (c: i64)
    requires
        -MAX_LON_E7 <= v <= MAX_LON_E7,
    ensures
        c == cell_spec(v as int),
        -40_000 <= c <= 40_000,
{
    proof {
        lemma_floor_div_bound(v as int, GRID_CELL_E7 as int, 40_000);
    }
    floor_div(v, GRID_CELL_E7)
}

pub fn north_mm(dlat_e7: i64) -> (y: i64)
    requires
        -2 * MAX_LAT_E7 <= dlat_e7 <= 2 * MAX_LAT_E7,
    ensures
        y == north_mm_spec(dlat_e7 as int),
        -MAX_OFFSET_MM <= y <= MAX_OFFSET_MM,
{
    let x = dlat_e7 as i128 * 111_111;
    proof {
        let a = dlat_e7 as int;
        lemma_div_trunc_bounds(a * 111_111, 10_000, -MAX_OFFSET_MM as int, MAX_OFFSET_MM as int);
    }
    div_trunc_wide(x, 10_000) as i64
}

pub fn east_mm(dlon_e7: i64, cos_e6: i64) -> (x: i64)
    requires
        -2 * MAX_LON_E7 <= dlon_e7 <= 2 * MAX_LON_E7,
        0 <= cos_e6 <= COS_SCALE,
    ensures
        x == east_mm_spec(dlon_e7 as int, cos_e6 as int),
        -MAX_OFFSET_MM <= x <= MAX_OFFSET_MM,
{
    let a = dlon_e7 as i128 * 111_111;
    assert(-400_000_000_000_000 <= a <= 400_000_000_000_000);
    assert(-400_000_000_000_000_000_000 <= a * (cos_e6 as i128) <= 400_000_000_000_000_000_000)
        by (nonlinear_arith)
        requires
            -400_000_000_000_000 <= a <= 400_000_000_000_000,
            0 <= cos_e6 <= 1_000_000,
    ;
    let p = a * cos_e6 as i128;
    proof {
        lemma_div_trunc_bounds(
            p as int,
            10_000_000_000,
            -MAX_OFFSET_MM as int,
            MAX_OFFSET_MM as int,
        );
    }
    div_trunc_wide(p, 10_000_000_000) as i64
}

/// Integer square root.
pub fn isqrt(n: u128) -> (r: u64)
    requires
        n < 0x1_0000_0000_0000_0000_0000,
    ensures
        is_floor_sqrt(n as int, r as int),
{
    let mut lo: u128 = 0;
    let mut hi: u128 = 0x100_0000_0000;
    assert(hi * hi == 0x1_0000_0000_0000_0000_0000);
    while hi - lo > 1
        invariant
            lo < hi <= 0x100_0000_0000,
            lo * lo <= n < hi * hi,
        decreases hi - lo,
    {
        let mid = lo + (hi - lo) / 2;
        assert(mid * mid <= 0x1_0000_0000_0000_0000_0000) by (nonlinear_arith)
            requires
                mid <= 0x100_0000_0000,
        ;
        if mid * mid <= n {
            lo = mid;
        } else {
            hi = mid;
        }
    }
    assert(hi == lo + 1);
    lo as u64
}

/// Squared distance (mm^2) from the query point to the segment from
/// `(lat1, lon1)` to `(lat2, lon2)`, all projected around the query.
pub open spec fn segment_dist_sq_spec(
    q_lat: int,
    q_lon: int,
    cos_e6: int,
    lat1: int,
    lon1: int,
    lat2: int,
    lon2: int,
) -> int {
    let c = closest_on_segment(
        east_mm_spec(lon1 - q_lon, cos_e6),
        north_mm_spec(lat1 - q_lat),
        east_mm_spec(lon2 - q_lon, cos_e6),
        north_mm_spec(lat2 - q_lat),
    );
    c.0 * c.0 + c.1 * c.1
}

proof fn lemma_step_toward(d: int, num: int, len2: int, m: int)
    requires
        0 < num < len2,
        -m <= d <= m,
    ensures
        -m <= div_trunc(d * num, len2) <= m,
{
    assert(len2 * (-m) <= d * num <= len2 * m) by (nonlinear_arith)
        requires
            0 < num < len2,
            -m <= d <= m,
    ;
    lemma_div_trunc_bounds(d * num, len2, -m, m);
}

/// Distance in millimetres, rounded down, from the query point to a
/// segment, in the local projection around the query whose cosine scale
/// is `cos_e6`.
pub fn dist_to_segment(
    q_lat: i64,
    q_lon: i64,
    cos_e6: i64,
    lat1: i64,
    lon1: i64,
    lat2: i64,
    lon2: i64,
) -> (d: u64)
    requires
        valid_position(q_lat as int, q_lon as int),
        valid_position(lat1 as int, lon1 as int),
        valid_position(lat2 as int, lon2 as int),
        0 <= cos_e6 <= COS_SCALE,
    ensures
        is_floor_sqrt(
            segment_dist_sq_spec(
                q_lat as int,
                q_lon as int,
                cos_e6 as int,
                lat1 as int,
                lon1 as int,
                lat2 as int,
                lon2 as int,
            ),
            d as int,
        ),
{
    let ax = east_mm(lon1 - q_lon, cos_e6) as i128;
    let ay = north_mm(lat1 - q_lat) as i128;
    let bx = east_mm(lon2 - q_lon, cos_e6) as i128;
    let by = north_mm(lat2 - q_lat) as i128;
    let ghost m = MAX_OFFSET_MM as int;
    assert(m * m == 0x100_0000_0000_0000_0000);
    let dx = bx - ax;
    let dy = by - ay;
    assert(0 <= dx * dx <= 4 * (m * m) && 0 <= dy * dy <= 4 * (m * m)) by (nonlinear_arith)
        requires
            -2 * m <= dx <= 2 * m,
            -2 * m <= dy <= 2 * m,
    ;
    assert(-2 * (m * m) <= ax * dx <= 2 * (m * m) && -2 * (m * m) <= ay * dy <= 2 * (m * m))
        by (nonlinear_arith)
        requires
            -2 * m <= dx <= 2 * m,
            -2 * m <= dy <= 2 * m,
            -m <= ax <= m,
            -m <= ay <= m,
    ;
    let len2 = dx * dx + dy * dy;
    let num = -(ax * dx + ay * dy);
    let (cx, cy): (i128, i128) = if len2 == 0 || num <= 0 {
        (ax, ay)
    } else if num >= len2 {
        (bx, by)
    } else {
        assert(-(2 * m) * (4 * (m * m)) <= dx * num <= (2 * m) * (4 * (m * m))
            && -(2 * m) * (4 * (m * m)) <= dy * num <= (2 * m) * (4 * (m * m)))
            by (nonlinear_arith)
            requires
                -2 * m <= dx <= 2 * m,
                -2 * m <= dy <= 2 * m,
                0 < num <= 4 * (m * m),
        ;
        proof {
            lemma_step_toward(dx as int, num as int, len2 as int, 2 * m);
            lemma_step_toward(dy as int, num as int, len2 as int, 2 * m);
        }
        (ax + div_trunc_wide(dx * num, len2), ay + div_trunc_wide(dy * num, len2))
    };
    assert(0 <= cx * cx <= 9 * (m * m) && 0 <= cy * cy <= 9 * (m * m)) by (nonlinear_arith)
        requires
            -3 * m <= cx <= 3 * m,
            -3 * m <= cy <= 3 * m,
    ;
    let cx2 = cx * cx;
    let cy2 = cy * cy;
    isqrt((cx2 + cy2) as u128)
}

/// Direction of the segment from `(lat1, lon1)` to `(lat2, lon2)` as
/// (east, north) millimetres, projected at the first point's cosine scale.
pub fn segment_vector(lat1: i64, lon1: i64, cos1_e6: i64, lat2: i64, lon2: i64) -> (v: (
    i64,
    i64,
))
    requires
        valid_position(lat1 as int, lon1 as int),
        valid_position(lat2 as int, lon2 as int),
        0 <= cos1_e6 <= COS_SCALE,
    ensures
        v.0 == east_mm_spec(lon2 - lon1, cos1_e6 as int),
        v.1 == north_mm_spec(lat2 - lat1),
        -MAX_OFFSET_MM <= v.0 <= MAX_OFFSET_MM,
        -MAX_OFFSET_MM <= v.1 <= MAX_OFFSET_MM,
{
    (east_mm(lon2 - lon1, cos1_e6), north_mm(lat2 - lat1))
}

} // verus!
