use vstd::prelude::*;

verus! {

/// Scores are kept in units of 1/30000 of a point, which makes every
/// weight and the linear proximity decay exact.
pub const POINT: i64 = 30_000;

/// A step scores as lift access from 55 points on.
pub const LIFT_THRESHOLD: i64 = 55 * POINT;

/// Largest magnitude of a vector component, in millimetres, for which the
/// alignment between two directions is computed.
pub const MAX_COMPONENT_MM: i64 = 0x2000_0000;

/// Largest speed sample, in millimetres per second (over 1000 km/s).
pub const MAX_SPEED_MM_S: u64 = 0x100_0000_0000;

/// Largest number of samples (or steps) in one measuring window: with at
/// most this many speeds below `MAX_SPEED_MM_S`, the sums of squares that
/// the coefficient of variation needs stay within 128 bits.
pub const MAX_SPEED_SAMPLES: usize = 0x10_0000;

/// Proximity: 55 points within 2.5 m of a lift, decaying linearly to 0 at
/// 10 m; no lift in reach gives 0.
pub open spec fn proximity_points_spec(dist_mm: Option<u64>) -> int {
    match dist_mm {
        None => 0,
        Some(d) => if d < 2_500 {
            55 * POINT
        } else if d < 10_000 {
            220 * (10_000 - d)
        } else {
            0
        },
    }
}

pub open spec fn dot(ux: int, uy: int, lx: int, ly: int) -> int {
    ux * lx + uy * ly
}

pub open spec fn norm_sq(x: int, y: int) -> int {
    x * x + y * y
}

/// Both directions are longer than 0.1 m (in millimetres, squared).
pub open spec fn directions_usable(ux: int, uy: int, lx: int, ly: int) -> bool {
    norm_sq(ux, uy) > 10_000 && norm_sq(lx, ly) > 10_000
}

/// Alignment with the lift, by the absolute cosine `c` of the angle between
/// the two directions: +30 if c > 0.95, +15 if c > 0.85, -20 if c < 0.5.
/// Without a usable lift direction `c` counts as 0.
pub open spec fn parallel_points_spec(ux: int, uy: int, lift: Option<(i64, i64)>) -> int {
    match lift {
        None => -20 * POINT,
        Some((lx, ly)) => {
            let lx = lx as int;
            let ly = ly as int;
            if !directions_usable(ux, uy, lx, ly) {
                -20 * POINT
            } else {
                let d2 = dot(ux, uy, lx, ly) * dot(ux, uy, lx, ly);
                let m = norm_sq(ux, uy) * norm_sq(lx, ly);
                if 400 * d2 > 361 * m {
                    30 * POINT
                } else if 400 * d2 > 289 * m {
                    15 * POINT
                } else if 4 * d2 < m {
                    -20 * POINT
                } else {
                    0
                }
            }
        },
    }
}

pub open spec fn sum_u64(s: Seq<u64>) -> int
    decreases s.len(),
{
    if s.len() == 0 {
        0
    } else {
        sum_u64(s.drop_last()) + s.last()
    }
}

pub open spec fn sum_sq_u64(s: Seq<u64>) -> int
    decreases s.len(),
{
    if s.len() == 0 {
        0
    } else {
        sum_sq_u64(s.drop_last()) + s.last() * s.last()
    }
}

/// Speed stability by the coefficient of variation `cv` of the speeds
/// (population standard deviation over mean): +15 if cv < 0.30, +5 if
/// cv < 0.50. No samples, or a mean of at most 0.1 m/s, counts as cv = 1.
/// With `n` samples of sum `s` and sum of squares `q`, `cv^2` is
/// `(n q - s^2) / s^2`.
pub open spec fn stability_points_spec(speeds: Seq<u64>) -> int {
    let n = speeds.len() as int;
    let s = sum_u64(speeds);
    let q = sum_sq_u64(speeds);
    if n == 0 || s <= 100 * n {
        0
    } else if 100 * (n * q - s * s) < 9 * (s * s) {
        15 * POINT
    } else if 4 * (n * q - s * s) < s * s {
        5 * POINT
    } else {
        0
    }
}

/// Straightness by the sinuosity (path length over straight distance):
/// +10 below 1.10, +5 below 1.25; a zero straight distance counts as 1.
pub open spec fn sinuosity_points_spec(path_mm: int, direct_mm: int) -> int {
    if direct_mm == 0 || 100 * path_mm < 110 * direct_mm {
        10 * POINT
    } else if 100 * path_mm < 125 * direct_mm {
        5 * POINT
    } else {
        0
    }
}

/// Gradient `g` (parts per million): uphill adds `min(100 g, 20)` points,
/// downhill adds `200 g` (a penalty).
pub open spec fn gradient_points_spec(g: int) -> int {
    if g >= 0 {
        if 3 * g < 20 * POINT {
            3 * g
        } else {
            20 * POINT
        }
    } else {
        6 * g
    }
}

pub open spec fn lift_score_spec(
    dist_mm: Option<u64>,
    ux: int,
    uy: int,
    lift: Option<(i64, i64)>,
    speeds: Seq<u64>,
    path_mm: int,
    direct_mm: int,
    g: int,
) -> int {
    proximity_points_spec(dist_mm) + parallel_points_spec(ux, uy, lift) + stability_points_spec(
        speeds,
    ) + sinuosity_points_spec(path_mm, direct_mm) + gradient_points_spec(g)
}

pub fn proximity_points(dist_mm: Option<u64>) -> (p: i64)
    ensures
        p == proximity_points_spec(dist_mm),
{
    match dist_mm {
        None => 0,
        Some(d) => if d < 2_500 {
            55 * POINT
        } else if d < 10_000 {
            220 * (10_000 - d as i64)
        } else {
            0
        },
    }
}

pub fn parallel_points(ux: i64, uy: i64, lift: Option<(i64, i64)>) -> (p: i64)
    requires
        -MAX_COMPONENT_MM <= ux <= MAX_COMPONENT_MM,
        -MAX_COMPONENT_MM <= uy <= MAX_COMPONENT_MM,
        match lift {
            None => true,
            Some((lx, ly)) => -MAX_COMPONENT_MM <= lx <= MAX_COMPONENT_MM && -MAX_COMPONENT_MM
                <= ly <= MAX_COMPONENT_MM,
        },
    ensures
        p == parallel_points_spec(ux as int, uy as int, lift),
{
    match lift {
        None => -20 * POINT,
        Some((lx, ly)) => {
            let (ux, uy, lx, ly) = (ux as i128, uy as i128, lx as i128, ly as i128);
            let ghost c = MAX_COMPONENT_MM as int;
            assert(c * c == 0x400000000000000);
            assert(0 <= ux * ux <= c * c && 0 <= uy * uy <= c * c) by (nonlinear_arith)
                requires -c <= ux <= c, -c <= uy <= c;
            assert(0 <= lx * lx <= c * c && 0 <= ly * ly <= c * c) by (nonlinear_arith)
                requires -c <= lx <= c, -c <= ly <= c;
            let nu = ux * ux + uy * uy;
            let nl = lx * lx + ly * ly;
            if nu <= 10_000 || nl <= 10_000 {
                return -20 * POINT;
            }
            assert(-(c * c) <= ux * lx <= c * c && -(c * c) <= uy * ly <= c * c)
                by (nonlinear_arith)
                requires -c <= ux <= c, -c <= lx <= c, -c <= uy <= c, -c <= ly <= c;
            let d = ux * lx + uy * ly;
            let ghost b = 2 * 0x400000000000000int;
            assert(b * b == 0x400000000000000000000000000000int) by (nonlinear_arith)
                requires b == 0x800000000000000int;
            assert(0 <= d * d <= b * b) by (nonlinear_arith)
                requires -b <= d <= b;
            assert(0 <= nu * nl <= b * b) by (nonlinear_arith)
                requires 0 <= nu <= b, 0 <= nl <= b;
            let d2 = d * d;
            let m = nu * nl;
            if 400 * d2 > 361 * m {
                30 * POINT
            } else if 400 * d2 > 289 * m {
                15 * POINT
            } else if 4 * d2 < m {
                -20 * POINT
            } else {
                0
            }
        },
    }
}

pub fn stability_points(speeds: &Vec<u64>) -> (p: i64)
    requires
        speeds.len() <= MAX_SPEED_SAMPLES,
        forall|i: int| 0 <= i < speeds.len() ==> #[trigger] speeds[i] <= MAX_SPEED_MM_S,
    ensures
        p == stability_points_spec(speeds@),
{
    let n = speeds.len();
    let mut s: u128 = 0;
    let mut q: u128 = 0;
    let mut i: usize = 0;
    while i < n
        invariant
            n == speeds.len(),
            n <= MAX_SPEED_SAMPLES,
            forall|k: int| 0 <= k < speeds.len() ==> #[trigger] speeds[k] <= MAX_SPEED_MM_S,
            i <= n,
            s == sum_u64(speeds@.subrange(0, i as int)),
            q == sum_sq_u64(speeds@.subrange(0, i as int)),
            s <= i * MAX_SPEED_MM_S,
            q <= i * (MAX_SPEED_MM_S * MAX_SPEED_MM_S),
        decreases n - i,
    {
        let v = speeds[i] as u128;
        assert(speeds@.subrange(0, i + 1).drop_last() == speeds@.subrange(0, i as int));
        assert(v * v <= MAX_SPEED_MM_S * MAX_SPEED_MM_S) by (nonlinear_arith)
            requires v <= MAX_SPEED_MM_S;
        proof {
            let ghost m = MAX_SPEED_MM_S as int;
            assert(q + v * v <= (i + 1) * (m * m)) by (nonlinear_arith)
                requires q <= i * (m * m), v * v <= m * m, i >= 0;
            let ghost cap = MAX_SPEED_SAMPLES as int;
            assert(q + v * v <= cap * (m * m)) by (nonlinear_arith)
                requires q + v * v <= (i + 1) * (m * m), i + 1 <= cap, m >= 0;
        }
        s = s + v;
        q = q + v * v;
        i = i + 1;
    }
    assert(speeds@.subrange(0, n as int) == speeds@);
    if n == 0 || s <= 100 * (n as u128) {
        return 0;
    }
    let nn = n as u128;
    let ghost cap = MAX_SPEED_SAMPLES as int;
    let ghost m = MAX_SPEED_MM_S as int;
    assert(nn * q <= cap * (cap * (m * m))) by (nonlinear_arith)
        requires nn <= cap, q <= nn * (m * m), q >= 0, m >= 0;
    assert(s <= cap * m) by (nonlinear_arith)
        requires s <= nn * m, nn <= cap, m >= 0;
    assert(s * s <= (cap * m) * (cap * m)) by (nonlinear_arith)
        requires s <= cap * m, s >= 0;
    assert(cap * (cap * (m * m)) == 0x1000000000000000000000000000000) by (nonlinear_arith)
        requires cap == 0x10_0000, m == 0x100_0000_0000;
    assert((cap * m) * (cap * m) == 0x1000000000000000000000000000000) by (nonlinear_arith)
        requires cap == 0x10_0000, m == 0x100_0000_0000;
    let nq = nn * q;
    let ss = s * s;
    // The thresholds of the spec function, with n q moved to one side.
    if 100 * nq < 109 * ss {
        15 * POINT
    } else if 4 * nq < 5 * ss {
        5 * POINT
    } else {
        0
    }
}

pub fn sinuosity_points(path_mm: u64, direct_mm: u64) -> (p: i64)
    ensures
        p == sinuosity_points_spec(path_mm as int, direct_mm as int),
{
    let path = path_mm as u128;
    let direct = direct_mm as u128;
    if direct == 0 || 100 * path < 110 * direct {
        10 * POINT
    } else if 100 * path < 125 * direct {
        5 * POINT
    } else {
        0
    }
}

pub fn gradient_points(gradient_ppm: i64) -> (p: i128)
    ensures
        p == gradient_points_spec(gradient_ppm as int),
{
    let g = gradient_ppm as i128;
    if g >= 0 {
        if 3 * g < 20 * POINT as i128 {
            3 * g
        } else {
            20 * POINT as i128
        }
    } else {
        6 * g
    }
}

/// Weighted lift-access score of one step.
/// `dist_mm`: distance to the nearest lift (`None`: no lift in reach);
/// `(ux, uy)`: the step's own displacement (east, north) in millimetres;
/// `lift`: direction of the nearest lift segment, if any; `speeds`: speed
/// samples of the window in mm/s; `path_mm` and `direct_mm`: path length
/// and straight distance over the window; `gradient_ppm`: smoothed gradient.
pub fn lift_score(
    dist_mm: Option<u64>,
    ux: i64,
    uy: i64,
    lift: Option<(i64, i64)>,
    speeds: &Vec<u64>,
    path_mm: u64,
    direct_mm: u64,
    gradient_ppm: i64,
) -> (score: i128)
    requires
        -MAX_COMPONENT_MM <= ux <= MAX_COMPONENT_MM,
        -MAX_COMPONENT_MM <= uy <= MAX_COMPONENT_MM,
        match lift {
            None => true,
            Some((lx, ly)) => -MAX_COMPONENT_MM <= lx <= MAX_COMPONENT_MM && -MAX_COMPONENT_MM
                <= ly <= MAX_COMPONENT_MM,
        },
        speeds.len() <= MAX_SPEED_SAMPLES,
        forall|i: int| 0 <= i < speeds.len() ==> #[trigger] speeds[i] <= MAX_SPEED_MM_S,
    ensures
        score == lift_score_spec(
            dist_mm,
            ux as int,
            uy as int,
            lift,
            speeds@,
            path_mm as int,
            direct_mm as int,
            gradient_ppm as int,
        ),
{
    let a = proximity_points(dist_mm) as i128;
    let b = parallel_points(ux, uy, lift) as i128;
    let c = stability_points(speeds) as i128;
    let d = sinuosity_points(path_mm, direct_mm) as i128;
    let e = gradient_points(gradient_ppm);
    a + b + c + d + e
}

/// A step is lift access when its score reaches the threshold.
pub fn is_lift_access(score: i128) -> (b: bool)
    ensures
        b == (score >= LIFT_THRESHOLD),
{
    score >= LIFT_THRESHOLD as i128
}

/// A step right on a lift line (distance 0), moving exactly along it
/// (absolute cosine 1), at perfectly steady speed (cv 0), in a straight line
/// (sinuosity 1) and on flat ground (gradient 0) scores at least 95 points
/// and is lift access.
pub proof fn lemma_ideal_lift_step(
    ux: int,
    uy: int,
    lx: i64,
    ly: i64,
    speeds: Seq<u64>,
    path_mm: int,
)
    requires
        directions_usable(ux, uy, lx as int, ly as int),
        dot(ux, uy, lx as int, ly as int) * dot(ux, uy, lx as int, ly as int) == norm_sq(ux, uy)
            * norm_sq(lx as int, ly as int),
        speeds.len() > 0,
        sum_u64(speeds) > 100 * speeds.len(),
        speeds.len() * sum_sq_u64(speeds) == sum_u64(speeds) * sum_u64(speeds),
        path_mm > 0,
    ensures
        lift_score_spec(Some(0u64), ux, uy, Some((lx, ly)), speeds, path_mm, path_mm, 0) >= 95
            * POINT,
        lift_score_spec(Some(0u64), ux, uy, Some((lx, ly)), speeds, path_mm, path_mm, 0)
            >= LIFT_THRESHOLD,
{
    let m = norm_sq(ux, uy) * norm_sq(lx as int, ly as int);
    assert(m > 0) by (nonlinear_arith)
        requires
            norm_sq(ux, uy) > 10_000,
            norm_sq(lx as int, ly as int) > 10_000,
            m == norm_sq(ux, uy) * norm_sq(lx as int, ly as int),
    ;
    assert(parallel_points_spec(ux, uy, Some((lx, ly))) == 30 * POINT);
    let s = sum_u64(speeds);
    assert(s * s > 0) by (nonlinear_arith)
        requires
            s > 100 * speeds.len(),
            speeds.len() > 0,
    ;
    assert(stability_points_spec(speeds) == 15 * POINT);
    assert(sinuosity_points_spec(path_mm, path_mm) == 10 * POINT);
}

} // verus!
