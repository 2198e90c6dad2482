use crate::color::{stretch_color, stretch_color_spec};
use crate::geo::{valid_position, TrackPoint};
use crate::gradient::{descent_rates_spec, smoothed_at, smoothed_gradient, GRADIENT_HALF_WINDOW, MAX_ELEVATION_MM};
use crate::lift_index::LiftIndex;
use crate::planar::{east_mm, east_mm_spec, north_mm, north_mm_spec, COS_SCALE};
use crate::score::{
    is_lift_access, lift_score, lift_score_spec, sum_u64, LIFT_THRESHOLD, MAX_COMPONENT_MM,
    MAX_SPEED_MM_S, MAX_SPEED_SAMPLES,
};
use crate::segments::{coalesce, runs_of, segments_of_runs, Run, Segment};
use vstd::prelude::*;

verus! {

/// Half-width of the window over which sinuosity and speed stability are
/// measured (nine points).
pub const GEO_HALF_WINDOW: usize = 4;

/// Longest ground distance between two consecutive points, in millimetres;
/// no great-circle distance on Earth (at most about 2e10 mm) exceeds it.
pub const MAX_STEP_MM: u64 = 0x10_0000_0000;

/// Shortest time between two fixes that yields a speed sample, in ms.
pub const MIN_SPEED_INTERVAL_MS: i64 = 100;

/// First point of the window of step `i`.
pub open spec fn geo_lo(i: int) -> int {
    if i < GEO_HALF_WINDOW {
        0
    } else {
        i - GEO_HALF_WINDOW
    }
}

/// One past the last point of the window of step `i`, in a track of `n`.
pub open spec fn geo_hi(i: int, n: int) -> int {
    if i + GEO_HALF_WINDOW + 1 < n {
        i + GEO_HALF_WINDOW + 1
    } else {
        n
    }
}

/// Speed (mm/s, rounded down) of step `k`, when both fixes have a time and
/// are more than 100 ms apart.
pub open spec fn speed_of(points: Seq<TrackPoint>, steps: Seq<u64>, k: int) -> Option<u64> {
    match (points[k].time_ms, points[k + 1].time_ms) {
        (Some(a), Some(b)) => if b - a > MIN_SPEED_INTERVAL_MS {
            Some((steps[k] * 1000 / (b - a)) as u64)
        } else {
            None
        },
        _ => None,
    }
}

/// Speed samples of steps `lo .. hi`, in order.
pub open spec fn speeds_of(points: Seq<TrackPoint>, steps: Seq<u64>, lo: int, hi: int) -> Seq<u64>
    decreases hi - lo,
{
    if hi <= lo {
        Seq::empty()
    } else {
        let rest = speeds_of(points, steps, lo, hi - 1);
        match speed_of(points, steps, hi - 1) {
            Some(v) => rest.push(v),
            None => rest,
        }
    }
}

/// A direction whose components are small enough to be compared; a
/// longer one counts as no direction.
pub open spec fn comparable(v: (i64, i64)) -> bool {
    -MAX_COMPONENT_MM <= v.0 <= MAX_COMPONENT_MM && -MAX_COMPONENT_MM <= v.1 <= MAX_COMPONENT_MM
}

/// Displacement (east, north) in millimetres of step `i`, projected at
/// the cosine scale of its first point.
pub open spec fn step_vector(points: Seq<TrackPoint>, cos: Seq<i64>, i: int) -> (int, int) {
    (
        east_mm_spec(points[i + 1].lon_e7 - points[i].lon_e7, cos[i] as int),
        north_mm_spec(points[i + 1].lat_e7 - points[i].lat_e7),
    )
}

/// Smoothed gradient of point `i`.
pub open spec fn gradient_of(points: Seq<TrackPoint>, steps: Seq<u64>, i: int) -> int {
    smoothed_at(
        Seq::new(
            points.len(),
            |k: int| descent_rates_spec(points.map_values(|p: TrackPoint| p.ele_mm), steps, k) as i64,
        ),
        GRADIENT_HALF_WINDOW as int,
        i,
    )
}

/// Colour of step `i` given the lift query's answer `(dist, dir)` at
/// point `i` and the point's smoothed gradient `g`.
pub open spec fn step_color_spec(
    points: Seq<TrackPoint>,
    steps: Seq<u64>,
    chords: Seq<u64>,
    cos: Seq<i64>,
    g: int,
    i: int,
    dist: Option<u64>,
    dir: Option<(i64, i64)>,
) -> u32 {
    let n = points.len() as int;
    let lo = geo_lo(i);
    let hi = geo_hi(i, n);
    let u = step_vector(points, cos, i);
    let u_ok = -MAX_COMPONENT_MM <= u.0 <= MAX_COMPONENT_MM && -MAX_COMPONENT_MM <= u.1
        <= MAX_COMPONENT_MM;
    let lift = match dir {
        Some(v) => if u_ok && comparable(v) {
            Some(v)
        } else {
            None
        },
        None => None,
    };
    let score = lift_score_spec(
        dist,
        if u_ok { u.0 } else { 0 },
        if u_ok { u.1 } else { 0 },
        lift,
        speeds_of(points, steps, lo, hi - 1),
        sum_u64(steps.subrange(lo, hi - 1)),
        chords[i] as int,
        g,
    );
    stretch_color_spec(score >= LIFT_THRESHOLD, g)
}

/// `(dist, dir)` is what the lift index may answer for a query at point `i`.
pub open spec fn lift_answer_ok(
    index: LiftIndex,
    points: Seq<TrackPoint>,
    cos: Seq<i64>,
    i: int,
    dist: Option<u64>,
    dir: Option<(i64, i64)>,
) -> bool {
    let lat = points[i].lat_e7 as int;
    let lon = points[i].lon_e7 as int;
    &&& dist.is_some() == dir.is_some()
    &&& dist.is_some() <==> index.has_candidate_segment(lat, lon)
    &&& dist matches Some(d) ==> index.is_answer(lat, lon, cos[i] as int, d, dir.unwrap())
}

/// The inputs of a track: valid positions and elevations, one ground
/// distance (`steps`) and one window straight distance (`chords`) per
/// step, and one cosine scale per point.
pub open spec fn track_inputs_ok(
    points: Seq<TrackPoint>,
    steps: Seq<u64>,
    chords: Seq<u64>,
    cos: Seq<i64>,
) -> bool {
    &&& (points.len() == 0 && steps.len() == 0) || steps.len() + 1 == points.len()
    &&& chords.len() == steps.len()
    &&& cos.len() == points.len()
    &&& forall|i: int|
        0 <= i < points.len() ==> valid_position(
            (#[trigger] points[i]).lat_e7 as int,
            points[i].lon_e7 as int,
        ) && -MAX_ELEVATION_MM <= points[i].ele_mm <= MAX_ELEVATION_MM
    &&& forall|i: int| 0 <= i < steps.len() ==> #[trigger] steps[i] <= MAX_STEP_MM
    &&& forall|i: int| 0 <= i < cos.len() ==> 0 <= #[trigger] cos[i] <= COS_SCALE
}

/// `c` is the colour of step `i` for some answer that the lift index may
/// give at point `i`.
pub open spec fn step_color_ok(
    index: LiftIndex,
    points: Seq<TrackPoint>,
    steps: Seq<u64>,
    chords: Seq<u64>,
    cos: Seq<i64>,
    i: int,
    c: u32,
) -> bool {
    exists|dist: Option<u64>, dir: Option<(i64, i64)>|
        #[trigger] lift_answer_ok(index, points, cos, i, dist, dir) && c == step_color_spec(
            points,
            steps,
            chords,
            cos,
            gradient_of(points, steps, i),
            i,
            dist,
            dir,
        )
}

/// `colors` holds one colour per step, each as `step_color_ok` says.
pub open spec fn step_colors_ok(
    index: LiftIndex,
    points: Seq<TrackPoint>,
    steps: Seq<u64>,
    chords: Seq<u64>,
    cos: Seq<i64>,
    colors: Seq<u32>,
) -> bool {
    &&& colors.len() == steps.len()
    &&& forall|i: int|
        0 <= i < colors.len() ==> #[trigger] step_color_ok(index, points, steps, chords, cos, i, colors[i])
}

/// Bounds of the measuring window of step `i` in a track of `n` points:
/// up to four points on either side, clamped at the ends.
pub fn geo_window(i: usize, n: usize) -> (w: (usize, usize))
    requires
        i < n,
    ensures
        w.0 == geo_lo(i as int),
        w.1 == geo_hi(i as int, n as int),
{
    let lo = if i < GEO_HALF_WINDOW {
        0
    } else {
        i - GEO_HALF_WINDOW
    };
    let hi = if GEO_HALF_WINDOW + 1 < n - i {
        i + GEO_HALF_WINDOW + 1
    } else {
        n
    };
    (lo, hi)
}

/// Total ground distance of steps `lo .. e`.
pub fn path_length(steps: &Vec<u64>, lo: usize, e: usize) -> (r: u64)
    requires
        lo <= e <= steps.len(),
        e - lo <= MAX_SPEED_SAMPLES,
        forall|i: int| 0 <= i < steps.len() ==> #[trigger] steps[i] <= MAX_STEP_MM,
    ensures
        r == sum_u64(steps@.subrange(lo as int, e as int)),
{
    let mut r: u64 = 0;
    let mut k: usize = lo;
    while k < e
        invariant
            lo <= k <= e <= steps.len(),
            e - lo <= MAX_SPEED_SAMPLES,
            forall|i: int| 0 <= i < steps.len() ==> #[trigger] steps[i] <= MAX_STEP_MM,
            r == sum_u64(steps@.subrange(lo as int, k as int)),
            r <= (k - lo) * MAX_STEP_MM,
        decreases e - k,
    {
        assert(steps@.subrange(lo as int, k + 1).drop_last() == steps@.subrange(lo as int, k as int));
        r = r + steps[k];
        k = k + 1;
    }
    r
}

/// Speed samples of steps `lo .. e`, in order.
pub fn speed_samples(points: &Vec<TrackPoint>, steps: &Vec<u64>, lo: usize, e: usize) -> (v: Vec<u64>)
    requires
        lo <= e <= steps.len(),
        steps.len() < points.len(),
        forall|i: int| 0 <= i < steps.len() ==> #[trigger] steps[i] <= MAX_STEP_MM,
    ensures
        v@ == speeds_of(points@, steps@, lo as int, e as int),
        v.len() <= e - lo,
        forall|j: int| 0 <= j < v.len() ==> #[trigger] v[j] <= MAX_SPEED_MM_S,
{
    let mut v: Vec<u64> = Vec::new();
    let mut k: usize = lo;
    while k < e
        invariant
            lo <= k <= e <= steps.len(),
            steps.len() < points.len(),
            forall|i: int| 0 <= i < steps.len() ==> #[trigger] steps[i] <= MAX_STEP_MM,
            v@ == speeds_of(points@, steps@, lo as int, k as int),
            v.len() <= k - lo,
            forall|j: int| 0 <= j < v.len() ==> #[trigger] v[j] <= MAX_SPEED_MM_S,
        decreases e - k,
    {
        match (points[k].time_ms, points[k + 1].time_ms) {
            (Some(a), Some(b)) => {
                let dt = b as i128 - a as i128;
                if dt > MIN_SPEED_INTERVAL_MS as i128 {
                    let x = steps[k] as u128 * 1000;
                    let sp = x / (dt as u128);
                    proof {
                        vstd::arithmetic::div_mod::lemma_div_is_ordered_by_denominator(
                            x as int,
                            100,
                            dt as int,
                        );
                    }
                    v.push(sp as u64);
                }
            },
            _ => {},
        }
        k = k + 1;
    }
    v
}

/// Colour of step `i` from the lift query's answer `(dist, dir)` at its
/// first point and that point's smoothed gradient `g`.
pub fn step_color(
    points: &Vec<TrackPoint>,
    steps: &Vec<u64>,
    chords: &Vec<u64>,
    cos: &Vec<i64>,
    g: i64,
    i: usize,
    dist: Option<u64>,
    dir: Option<(i64, i64)>,
) -> (c: u32)
    requires
        track_inputs_ok(points@, steps@, chords@, cos@),
        i < steps.len(),
    ensures
        c == step_color_spec(points@, steps@, chords@, cos@, g as int, i as int, dist, dir),
{
    let n = points.len();
    let (lo, hi) = geo_window(i, n);
    let p = points[i];
    let q = points[i + 1];
    assert(valid_position(points@[i as int].lat_e7 as int, points@[i as int].lon_e7 as int));
    assert(valid_position(points@[i + 1].lat_e7 as int, points@[i + 1].lon_e7 as int));
    let ux = east_mm(q.lon_e7 - p.lon_e7, cos[i]);
    let uy = north_mm(q.lat_e7 - p.lat_e7);
    let u_ok = -MAX_COMPONENT_MM <= ux && ux <= MAX_COMPONENT_MM && -MAX_COMPONENT_MM <= uy && uy
        <= MAX_COMPONENT_MM;
    let lift = match dir {
        Some(v) => if u_ok && -MAX_COMPONENT_MM <= v.0 && v.0 <= MAX_COMPONENT_MM
            && -MAX_COMPONENT_MM <= v.1 && v.1 <= MAX_COMPONENT_MM {
            Some(v)
        } else {
            None
        },
        None => None,
    };
    let (ux, uy) = if u_ok {
        (ux, uy)
    } else {
        (0, 0)
    };
    let speeds = speed_samples(points, steps, lo, hi - 1);
    let path = path_length(steps, lo, hi - 1);
    let score = lift_score(dist, ux, uy, lift, &speeds, path, chords[i], g);
    stretch_color(is_lift_access(score), g)
}

/// Elevations of the points, in order.
fn elevations_of(points: &Vec<TrackPoint>) -> (e: Vec<i64>)
    ensures
        e@ == points@.map_values(|p: TrackPoint| p.ele_mm),
{
    let mut e: Vec<i64> = Vec::with_capacity(points.len());
    let mut k: usize = 0;
    while k < points.len()
        invariant
            k <= points.len(),
            e@ == points@.subrange(0, k as int).map_values(|p: TrackPoint| p.ele_mm),
        decreases points.len() - k,
    {
        e.push(points[k].ele_mm);
        k = k + 1;
        assert(e@ =~= points@.subrange(0, k as int).map_values(|p: TrackPoint| p.ele_mm));
    }
    assert(points@.subrange(0, k as int) == points@);
    e
}

/// Colour of every step of a track, querying the lift index at the first
/// point of each step.
pub fn step_colors(
    index: &LiftIndex,
    points: &Vec<TrackPoint>,
    steps: &Vec<u64>,
    chords: &Vec<u64>,
    cos: &Vec<i64>,
) -> (colors: Vec<u32>)
    requires
        index.wf(),
        track_inputs_ok(points@, steps@, chords@, cos@),
    ensures
        step_colors_ok(*index, points@, steps@, chords@, cos@, colors@),
{
    let mut colors: Vec<u32> = Vec::with_capacity(steps.len());
    if points.len() == 0 {
        return colors;
    }
    let elevations = elevations_of(points);
    proof {
        assert forall|i: int| 0 <= i < elevations.len() implies -MAX_ELEVATION_MM
            <= #[trigger] elevations[i] <= MAX_ELEVATION_MM by {
            assert(elevations[i] == points@[i].ele_mm);
        }
    }
    let g = smoothed_gradient(&elevations, steps);
    let mut i: usize = 0;
    while i < steps.len()
        invariant
            index.wf(),
            track_inputs_ok(points@, steps@, chords@, cos@),
            steps.len() + 1 == points.len(),
            elevations@ == points@.map_values(|p: TrackPoint| p.ele_mm),
            g.len() == points.len(),
            forall|k: int|
                0 <= k < g.len() ==> g[k] == smoothed_at(
                    Seq::new(
                        elevations.len() as nat,
                        |j: int| descent_rates_spec(elevations@, steps@, j) as i64,
                    ),
                    GRADIENT_HALF_WINDOW as int,
                    k,
                ),
            i <= steps.len(),
            colors.len() == i,
            forall|k: int|
                0 <= k < i ==> #[trigger] step_color_ok(
                    *index,
                    points@,
                    steps@,
                    chords@,
                    cos@,
                    k,
                    colors@[k],
                ),
        decreases steps.len() - i,
    {
        let p = points[i];
        assert(valid_position(points@[i as int].lat_e7 as int, points@[i as int].lon_e7 as int));
        let (dist, dir) = index.nearest(p.lat_e7, p.lon_e7, cos[i]);
        let c = step_color(points, steps, chords, cos, g[i], i, dist, dir);
        proof {
            assert(g[i as int] == gradient_of(points@, steps@, i as int));
            assert(lift_answer_ok(*index, points@, cos@, i as int, dist, dir));
        }
        let ghost before = colors@;
        colors.push(c);
        proof {
            assert forall|k: int| 0 <= k < i + 1 implies #[trigger] step_color_ok(
                *index,
                points@,
                steps@,
                chords@,
                cos@,
                k,
                colors@[k],
            ) by {
                if k < i {
                    assert(colors@[k] == before[k]);
                }
            }
        }
        i = i + 1;
    }
    colors
}

/// Classifies every step of a track and cuts it into one-colour segments.
/// `steps[i]` is the great-circle distance (mm) from point `i` to `i + 1`,
/// `chords[i]` the great-circle distance between the ends of step `i`'s
/// window (see `geo_window`), `cos[i]` the cosine scale of point `i`.
pub fn classify(
    index: &LiftIndex,
    points: &Vec<TrackPoint>,
    steps: &Vec<u64>,
    chords: &Vec<u64>,
    cos: &Vec<i64>,
) -> (segs: Vec<Segment>)
    requires
        index.wf(),
        track_inputs_ok(points@, steps@, chords@, cos@),
    ensures
        exists|colors: Seq<u32>, runs: Seq<Run>|
            #[trigger] step_colors_ok(*index, points@, steps@, chords@, cos@, colors)
                && #[trigger] runs_of(colors, runs) && segments_of_runs(points@, runs, segs@),
        points.len() < 2 ==> segs.len() == 0,
        forall|k: int| 0 <= k < segs.len() ==> (#[trigger] segs[k]).points.len() >= 2,
        forall|k: int|
            0 <= k < segs.len() - 1 ==> (#[trigger] segs[k]).points@.last()
                == segs[k + 1].points@[0],
{
    let colors = step_colors(index, points, steps, chords, cos);
    let segs = coalesce(points, &colors);
    let ghost runs = choose|runs: Seq<Run>| runs_of(colors@, runs) && segments_of_runs(points@, runs, segs@);
    assert(step_colors_ok(*index, points@, steps@, chords@, cos@, colors@) && runs_of(colors@, runs)
        && segments_of_runs(points@, runs, segs@));
    segs
}

} // verus!
