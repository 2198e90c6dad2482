use crate::geo::{valid_position, MAX_LON_E7};
use crate::planar::{
    cell_of, cell_spec, dist_to_segment, east_mm_spec, is_floor_sqrt, north_mm_spec,
    segment_dist_sq_spec, segment_vector, COS_SCALE, GRID_CELL_E7,
};
use crate::buckets::{append_once, appended_once, increasing_upto, list_of, listed};
use std::collections::HashMap;
use vstd::arithmetic::div_mod::{
    lemma_fundamental_div_mod, lemma_fundamental_div_mod_converse, lemma_mod_bound,
};
use vstd::prelude::*;

verus! {

broadcast use vstd::std_specs::hash::group_hash_axioms;

/// One sample of a lift line, with the cosine scale of its latitude
/// (`cos(lat) * 1e6`).
#[derive(Clone, Copy, Debug, PartialEq, Eq, Structural)]
pub struct LiftSample {
    pub lat_e7: i64,
    pub lon_e7: i64,
    pub cos_e6: i64,
}

pub open spec fn valid_sample(s: LiftSample) -> bool {
    valid_position(s.lat_e7 as int, s.lon_e7 as int) && 0 <= s.cos_e6 <= COS_SCALE
}

/// Key of grid cell `(gx, gy)` in the hash map.
pub open spec fn cell_key(gx: int, gy: int) -> u64 {
    ((gx + 100_000) * 1_000_000 + (gy + 100_000)) as u64
}

/// Lift `l` is listed in the cell of sample `s` and in its 8 neighbours.
pub open spec fn covers(grid: Map<u64, Vec<usize>>, s: LiftSample, l: usize) -> bool {
    forall|dx: int, dy: int|
        -1 <= dx <= 1 && -1 <= dy <= 1 ==> #[trigger] listed(
            grid,
            cell_key(cell_spec(s.lat_e7 as int) + dx, cell_spec(s.lon_e7 as int) + dy),
            l,
        )
}

/// Every list holds lift numbers below `n`, in strictly increasing order
/// (so without duplicates).
pub open spec fn lists_ok(grid: Map<u64, Vec<usize>>, n: int) -> bool {
    forall|k: u64|
        #[trigger] grid.contains_key(k) ==> {
            &&& forall|a: int| 0 <= a < grid[k]@.len() ==> #[trigger] grid[k]@[a] < n
            &&& forall|a: int, b: int|
                0 <= a < b < grid[k]@.len() ==> #[trigger] grid[k]@[a] < #[trigger] grid[k]@[b]
        }
}

/// `g2` lists everything that `g1` lists.
pub open spec fn grows(g1: Map<u64, Vec<usize>>, g2: Map<u64, Vec<usize>>) -> bool {
    forall|k: u64, l: usize| #[trigger] listed(g1, k, l) ==> #[trigger] listed(g2, k, l)
}

/// Approximate nearest-segment lookup over lift lines. Each sample lists
/// its lift in its own grid cell and the 8 around it; a query reads its own
/// cell only.
pub struct LiftIndex {
    lifts: Vec<Vec<LiftSample>>,
    grid: HashMap<u64, Vec<usize>>,
}

fn key_of(gx: i64, gy: i64) -> (k: u64)
    requires
        -40_001 <= gx <= 40_001,
        -40_001 <= gy <= 40_001,
    ensures
        k == cell_key(gx as int, gy as int),
{
    ((gx + 100_000) * 1_000_000 + (gy + 100_000)) as u64
}

proof fn lemma_covers_grow(g1: Map<u64, Vec<usize>>, g2: Map<u64, Vec<usize>>, s: LiftSample, l: usize)
    requires
        covers(g1, s, l),
        grows(g1, g2),
    ensures
        covers(g2, s, l),
{
    assert forall|dx: int, dy: int| -1 <= dx <= 1 && -1 <= dy <= 1 implies #[trigger] listed(
        g2,
        cell_key(cell_spec(s.lat_e7 as int) + dx, cell_spec(s.lon_e7 as int) + dy),
        l,
    ) by {
        assert(listed(
            g1,
            cell_key(cell_spec(s.lat_e7 as int) + dx, cell_spec(s.lon_e7 as int) + dy),
            l,
        ));
    }
}

/// The cell of sample `s` is the cell of `(lat_e7, lon_e7)` or one of
/// its 8 neighbours.
pub open spec fn adjacent_cell(s: LiftSample, lat_e7: int, lon_e7: int) -> bool {
    &&& -1 <= cell_spec(lat_e7) - cell_spec(s.lat_e7 as int) <= 1
    &&& -1 <= cell_spec(lon_e7) - cell_spec(s.lon_e7 as int) <= 1
}

/// Some sample of `samples` lies in the cell of `(lat_e7, lon_e7)` or in
/// one of its 8 neighbours.
pub open spec fn near_samples(samples: Seq<LiftSample>, lat_e7: int, lon_e7: int) -> bool {
    exists|j: int| 0 <= j < samples.len() && #[trigger] adjacent_cell(samples[j], lat_e7, lon_e7)
}

/// Key of the `p`-th (sample, neighbour) pair: sample `p / 9` and the
/// neighbour `p % 9` of its cell, row by row.
spec fn nb_key(samples: Seq<LiftSample>, p: int) -> u64 {
    let s = samples[p / 9];
    let u = p % 9;
    cell_key(cell_spec(s.lat_e7 as int) + u / 3 - 1, cell_spec(s.lon_e7 as int) + u % 3 - 1)
}

/// Key `k` is among the first `n` (sample, neighbour) keys.
spec fn touched(samples: Seq<LiftSample>, n: int, k: u64) -> bool {
    exists|p: int| 0 <= p < n && #[trigger] nb_key(samples, p) == k
}

/// The lists of `g` are those of `g0`, with `l` appended to the lists of
/// the keys among the first `n` (sample, neighbour) keys.
spec fn grid_after(g0: Map<u64, Vec<usize>>, g: Map<u64, Vec<usize>>, samples: Seq<LiftSample>, n: int, l: usize) -> bool {
    forall|k: u64|
        #[trigger] list_of(g, k) == if touched(samples, n, k) {
            list_of(g0, k).push(l)
        } else {
            list_of(g0, k)
        }
}

proof fn lemma_touch_step(
    samples: Seq<LiftSample>,
    n: int,
    g0: Map<u64, Vec<usize>>,
    g1: Map<u64, Vec<usize>>,
    g2: Map<u64, Vec<usize>>,
    l: usize,
)
    requires
        0 <= n,
        grid_after(g0, g1, samples, n, l),
        forall|k: u64, a: int| 0 <= a < list_of(g0, k).len() ==> #[trigger] list_of(g0, k)[a] < l,
        g2.contains_key(nb_key(samples, n)),
        g2[nb_key(samples, n)]@ == appended_once(list_of(g1, nb_key(samples, n)), l),
        forall|k2: u64| k2 != nb_key(samples, n) ==> #[trigger] list_of(g2, k2) == list_of(g1, k2),
    ensures
        grid_after(g0, g2, samples, n + 1, l),
{
    let k = nb_key(samples, n);
    assert forall|k2: u64| #[trigger] list_of(g2, k2) == if touched(samples, n + 1, k2) {
        list_of(g0, k2).push(l)
    } else {
        list_of(g0, k2)
    } by {
        if k2 != k {
            assert(list_of(g1, k2) == list_of(g2, k2));
            if touched(samples, n + 1, k2) {
                let p = choose|p: int| 0 <= p < n + 1 && #[trigger] nb_key(samples, p) == k2;
                assert(p != n);
                assert(touched(samples, n, k2));
            }
            if touched(samples, n, k2) {
                let p = choose|p: int| 0 <= p < n && #[trigger] nb_key(samples, p) == k2;
                assert(touched(samples, n + 1, k2));
            }
        } else {
            assert(touched(samples, n + 1, k));
            assert(list_of(g2, k) == g2[k]@);
            if touched(samples, n, k) {
                assert(list_of(g1, k) == list_of(g0, k).push(l));
            } else {
                let s0 = list_of(g0, k);
                assert(list_of(g1, k) == s0);
                if s0.len() > 0 {
                    assert(s0[s0.len() - 1] < l);
                }
            }
        }
    }
}

/// Keys of two cells in the range of the grid are equal only for the same
/// cell.
proof fn lemma_cell_key_injective(x1: int, y1: int, x2: int, y2: int)
    requires
        -40_001 <= x1 <= 40_001,
        -40_001 <= y1 <= 40_001,
        -40_001 <= x2 <= 40_001,
        -40_001 <= y2 <= 40_001,
        cell_key(x1, y1) == cell_key(x2, y2),
    ensures
        x1 == x2 && y1 == y2,
{
    let v1 = (x1 + 100_000) * 1_000_000 + (y1 + 100_000);
    let v2 = (x2 + 100_000) * 1_000_000 + (y2 + 100_000);
    assert(0 <= v1 < 0x1_0000_0000_0000_0000) by (nonlinear_arith)
        requires -40_001 <= x1 <= 40_001, -40_001 <= y1 <= 40_001, v1 == (x1 + 100_000) * 1_000_000 + (y1 + 100_000);
    assert(0 <= v2 < 0x1_0000_0000_0000_0000) by (nonlinear_arith)
        requires -40_001 <= x2 <= 40_001, -40_001 <= y2 <= 40_001, v2 == (x2 + 100_000) * 1_000_000 + (y2 + 100_000);
    assert(v1 == v2);
    lemma_fundamental_div_mod_converse(v1, 1_000_000, x1 + 100_000, y1 + 100_000);
    lemma_fundamental_div_mod_converse(v2, 1_000_000, x2 + 100_000, y2 + 100_000);
}

proof fn lemma_cell_range(v: int)
    requires
        -(MAX_LON_E7 as int) <= v <= MAX_LON_E7,
    ensures
        -36_000 <= cell_spec(v) <= 36_000,
{
    let c = GRID_CELL_E7 as int;
    lemma_fundamental_div_mod(v, c);
    lemma_mod_bound(v, c);
    let q = v / c;
    assert(-36_000 <= q <= 36_000) by (nonlinear_arith)
        requires
            v == c * q + v % c,
            0 <= v % c < c,
            c == 50_000,
            -1_800_000_000 <= v <= 1_800_000_000,
    ;
}

/// For a valid query point, its cell's key is among the keys of all
/// `9 * n` (sample, neighbour) pairs exactly when a sample is near it.
proof fn lemma_touched_iff_near(samples: Seq<LiftSample>, lat_e7: int, lon_e7: int)
    requires
        forall|j: int| 0 <= j < samples.len() ==> valid_sample(#[trigger] samples[j]),
        valid_position(lat_e7, lon_e7),
    ensures
        touched(samples, 9 * (samples.len() as int), cell_key(cell_spec(lat_e7), cell_spec(lon_e7)))
            == near_samples(samples, lat_e7, lon_e7),
{
    let n = samples.len() as int;
    let k = cell_key(cell_spec(lat_e7), cell_spec(lon_e7));
    lemma_cell_range(lat_e7);
    lemma_cell_range(lon_e7);
    if near_samples(samples, lat_e7, lon_e7) {
        let j = choose|j: int| 0 <= j < samples.len() && #[trigger] adjacent_cell(samples[j], lat_e7, lon_e7);
        let s = samples[j];
        let dx = cell_spec(lat_e7) - cell_spec(s.lat_e7 as int);
        let dy = cell_spec(lon_e7) - cell_spec(s.lon_e7 as int);
        let u = (dx + 1) * 3 + (dy + 1);
        let p = 9 * j + u;
        lemma_fundamental_div_mod_converse(p, 9, j, u);
        lemma_fundamental_div_mod_converse(u, 3, dx + 1, dy + 1);
        assert(nb_key(samples, p) == k);
        assert(touched(samples, 9 * n, k));
    }
    if touched(samples, 9 * n, k) {
        let p = choose|p: int| 0 <= p < 9 * n && #[trigger] nb_key(samples, p) == k;
        let j = p / 9;
        let u = p % 9;
        lemma_fundamental_div_mod(p, 9);
        lemma_mod_bound(p, 9);
        assert(0 <= j < n) by (nonlinear_arith)
            requires p == 9 * j + u, 0 <= u < 9, 0 <= p < 9 * n;
        lemma_fundamental_div_mod(u, 3);
        lemma_mod_bound(u, 3);
        assert(0 <= u / 3 < 3) by (nonlinear_arith)
            requires u == 3 * (u / 3) + u % 3, 0 <= u % 3 < 3, 0 <= u < 9;
        let s = samples[j];
        assert(valid_sample(samples[j]));
        lemma_cell_range(s.lat_e7 as int);
        lemma_cell_range(s.lon_e7 as int);
        lemma_cell_key_injective(
            cell_spec(s.lat_e7 as int) + u / 3 - 1,
            cell_spec(s.lon_e7 as int) + u % 3 - 1,
            cell_spec(lat_e7),
            cell_spec(lon_e7),
        );
        assert(adjacent_cell(samples[j], lat_e7, lon_e7));
    }
}

impl LiftIndex {
    pub closed spec fn lift_count(&self) -> nat {
        self.lifts@.len()
    }

    /// Samples of lift `l`.
    pub closed spec fn samples(&self, l: int) -> Seq<LiftSample> {
        self.lifts@[l]@
    }

    /// Lifts listed in the cell of the point `(lat_e7, lon_e7)`.
    pub closed spec fn candidates(&self, lat_e7: int, lon_e7: int) -> Seq<usize> {
        list_of(self.grid@, cell_key(cell_spec(lat_e7), cell_spec(lon_e7)))
    }

    pub closed spec fn wf(&self) -> bool {
        &&& lists_ok(self.grid@, self.lifts@.len() as int)
        &&& self.lifts@.len() <= usize::MAX
        &&& forall|l: int, j: int|
            0 <= l < self.lifts@.len() && 0 <= j < self.lifts@[l]@.len() ==> valid_sample(
                #[trigger] self.lifts@[l]@[j],
            ) && covers(self.grid@, self.lifts@[l]@[j], l as usize)
    }

    /// Some lift listed in the query's cell has at least one segment.
    pub open spec fn has_candidate_segment(&self, lat_e7: int, lon_e7: int) -> bool {
        exists|t: int|
            0 <= t < self.candidates(lat_e7, lon_e7).len() && #[trigger] self.samples(
                self.candidates(lat_e7, lon_e7)[t] as int,
            ).len() >= 2
    }

    /// Step `i` of the `t`-th lift listed in the query's cell exists.
    pub open spec fn is_candidate_segment(&self, lat_e7: int, lon_e7: int, t: int, i: int) -> bool {
        &&& 0 <= t < self.candidates(lat_e7, lon_e7).len()
        &&& 0 <= i < self.samples(self.candidates(lat_e7, lon_e7)[t] as int).len() - 1
    }

    /// Squared distance from the query to step `i` of lift `l`.
    pub open spec fn seg_dist_sq(&self, lat_e7: int, lon_e7: int, cos_e6: int, l: int, i: int) -> int {
        let s = self.samples(l);
        segment_dist_sq_spec(
            lat_e7,
            lon_e7,
            cos_e6,
            s[i].lat_e7 as int,
            s[i].lon_e7 as int,
            s[i + 1].lat_e7 as int,
            s[i + 1].lon_e7 as int,
        )
    }

    /// `v` is the direction of step `i` of lift `l`, in millimetres.
    pub open spec fn is_seg_vector(&self, l: int, i: int, v: (i64, i64)) -> bool {
        let s = self.samples(l);
        &&& v.0 == east_mm_spec(s[i + 1].lon_e7 - s[i].lon_e7, s[i].cos_e6 as int)
        &&& v.1 == north_mm_spec(s[i + 1].lat_e7 - s[i].lat_e7)
    }

    /// The answer `(d, v)` of a query: `d` is the distance (rounded down,
    /// in mm) to a step of a lift listed in the query's cell and `v` that
    /// step's direction; `d` is below 5 m or the smallest such distance.
    pub open spec fn is_answer(&self, lat_e7: int, lon_e7: int, cos_e6: int, d: u64, v: (i64, i64)) -> bool {
        &&& exists|t: int, i: int|
            #[trigger] self.is_candidate_segment(lat_e7, lon_e7, t, i) && is_floor_sqrt(
                self.seg_dist_sq(lat_e7, lon_e7, cos_e6, self.candidates(lat_e7, lon_e7)[t] as int, i),
                d as int,
            ) && self.is_seg_vector(self.candidates(lat_e7, lon_e7)[t] as int, i, v)
        &&& d < 5_000 || forall|t: int, i: int|
            #[trigger] self.is_candidate_segment(lat_e7, lon_e7, t, i) ==> d * d
                <= self.seg_dist_sq(
                lat_e7,
                lon_e7,
                cos_e6,
                self.candidates(lat_e7, lon_e7)[t] as int,
                i,
            )
    }

    /// Distance and direction of the nearest lift step among the lifts
    /// listed in the query's own cell, stopping at the first one closer
    /// than 5 m. `cos_e6` is the cosine scale of the query's latitude.
    /// `(None, None)` when no listed lift has a step.
    pub fn nearest(&self, lat_e7: i64, lon_e7: i64, cos_e6: i64) -> (r: (Option<u64>, Option<(i64, i64)>))
        requires
            self.wf(),
            valid_position(lat_e7 as int, lon_e7 as int),
            0 <= cos_e6 <= COS_SCALE,
        ensures
            r.0.is_some() == r.1.is_some(),
            r.0.is_some() <==> self.has_candidate_segment(lat_e7 as int, lon_e7 as int),
            r.0 matches Some(d) ==> self.is_answer(
                lat_e7 as int,
                lon_e7 as int,
                cos_e6 as int,
                d,
                r.1.unwrap(),
            ),
    {
        let ghost (qa, qo, qc) = (lat_e7 as int, lon_e7 as int, cos_e6 as int);
        let k = key_of(cell_of(lat_e7), cell_of(lon_e7));
        let ids = match self.grid.get(&k) {
            Some(ids) => ids,
            None => {
                assert(self.candidates(qa, qo).len() == 0);
                return (None, None);
            },
        };
        let ghost cands = self.candidates(qa, qo);
        assert(ids@ == cands);
        let mut best: Option<u64> = None;
        let mut dir: Option<(i64, i64)> = None;
        let ghost mut bt: int = 0;
        let ghost mut bi: int = 0;
        let mut t: usize = 0;
        while t < ids.len()
            invariant
                self.wf(),
                valid_position(qa, qo),
                0 <= qc <= COS_SCALE,
                qa == lat_e7,
                qo == lon_e7,
                qc == cos_e6,
                ids@ == cands,
                cands == self.candidates(qa, qo),
                self.grid@.contains_key(k),
                self.grid@[k]@ == cands,
                t <= ids.len(),
                best.is_some() == dir.is_some(),
                best.is_none() ==> forall|t2: int|
                    0 <= t2 < t ==> #[trigger] self.samples(cands[t2] as int).len() < 2,
                best matches Some(d) ==> {
                    &&& self.is_candidate_segment(qa, qo, bt, bi)
                    &&& is_floor_sqrt(self.seg_dist_sq(qa, qo, qc, cands[bt] as int, bi), d as int)
                    &&& self.is_seg_vector(cands[bt] as int, bi, dir.unwrap())
                    &&& d >= 5_000
                    &&& forall|t2: int, i2: int|
                        0 <= t2 < t && #[trigger] self.is_candidate_segment(qa, qo, t2, i2) ==> d * d
                            <= self.seg_dist_sq(qa, qo, qc, cands[t2] as int, i2)
                },
            decreases ids.len() - t,
        {
            let l = ids[t];
            assert(self.grid@[k]@[t as int] < self.lifts@.len());
            let lift = &self.lifts[l];
            assert(lift@ == self.samples(l as int));
            let mut i: usize = 0;
            while i + 1 < lift.len()
                invariant
                    self.wf(),
                    valid_position(qa, qo),
                    0 <= qc <= COS_SCALE,
                    qa == lat_e7,
                    qo == lon_e7,
                    qc == cos_e6,
                    ids@ == cands,
                    cands == self.candidates(qa, qo),
                    t < ids.len(),
                    l == cands[t as int],
                    l < self.lifts@.len(),
                    lift@ == self.samples(l as int),
                    i == 0 || i < lift.len(),
                    best.is_some() == dir.is_some(),
                    best.is_none() ==> i == 0 && forall|t2: int|
                        0 <= t2 < t ==> #[trigger] self.samples(cands[t2] as int).len() < 2,
                    best matches Some(d) ==> {
                        &&& self.is_candidate_segment(qa, qo, bt, bi)
                        &&& is_floor_sqrt(self.seg_dist_sq(qa, qo, qc, cands[bt] as int, bi), d as int)
                        &&& self.is_seg_vector(cands[bt] as int, bi, dir.unwrap())
                        &&& d >= 5_000
                        &&& forall|t2: int, i2: int|
                            ((0 <= t2 < t) || (t2 == t && i2 < i)) && #[trigger] self.is_candidate_segment(
                                qa,
                                qo,
                                t2,
                                i2,
                            ) ==> d * d <= self.seg_dist_sq(qa, qo, qc, cands[t2] as int, i2)
                    },
                decreases lift.len() - i,
            {
                let p1 = lift[i];
                let p2 = lift[i + 1];
                proof {
                    assert(valid_sample(self.lifts@[l as int]@[i as int]));
                    assert(valid_sample(self.lifts@[l as int]@[i + 1]));
                }
                let d = dist_to_segment(
                    lat_e7,
                    lon_e7,
                    cos_e6,
                    p1.lat_e7,
                    p1.lon_e7,
                    p2.lat_e7,
                    p2.lon_e7,
                );
                assert(self.is_candidate_segment(qa, qo, t as int, i as int));
                let better = match best {
                    None => true,
                    Some(b) => d < b,
                };
                if better {
                    proof {
                        if let Some(b) = best {
                            assert forall|t2: int, i2: int|
                                ((0 <= t2 < t) || (t2 == t && i2 < i + 1))
                                    && #[trigger] self.is_candidate_segment(qa, qo, t2, i2) implies d * d
                                <= self.seg_dist_sq(qa, qo, qc, cands[t2] as int, i2) by {
                                if t2 < t || i2 < i {
                                    assert(b * b <= self.seg_dist_sq(qa, qo, qc, cands[t2] as int, i2));
                                    assert(d * d <= b * b) by (nonlinear_arith)
                                        requires d < b, d >= 0;
                                }
                            }
                        }
                    }
                    best = Some(d);
                    dir = Some(segment_vector(p1.lat_e7, p1.lon_e7, p1.cos_e6, p2.lat_e7, p2.lon_e7));
                    proof {
                        bt = t as int;
                        bi = i as int;
                    }
                    if d < 5_000 {
                        return (best, dir);
                    }
                } else {
                    proof {
                        let b = best.unwrap();
                        assert forall|t2: int, i2: int|
                            ((0 <= t2 < t) || (t2 == t && i2 < i + 1))
                                && #[trigger] self.is_candidate_segment(qa, qo, t2, i2) implies b * b
                            <= self.seg_dist_sq(qa, qo, qc, cands[t2] as int, i2) by {
                            if t2 == t && i2 == i {
                                assert(b * b <= d * d) by (nonlinear_arith)
                                    requires b <= d, b >= 0;
                            }
                        }
                    }
                }
                i = i + 1;
            }
            proof {
                if best.is_none() {
                    assert(self.samples(cands[t as int] as int).len() < 2);
                }
            }
            t = t + 1;
        }
        proof {
            if best.is_none() {
                assert(!self.has_candidate_segment(qa, qo));
            }
        }
        (best, dir)
    }

    pub fn new() -> (idx: LiftIndex)
        ensures
            idx.wf(),
            idx.lift_count() == 0,
            forall|a: int, b: int| #[trigger] idx.candidates(a, b).len() == 0,
    {
        LiftIndex { lifts: Vec::new(), grid: HashMap::new() }
    }

    /// Adds one lift line (already densified); an empty line is ignored.
    /// The new lift gets the next number and is appended, once, to the
    /// list of each cell within one cell of one of its samples; no other
    /// list changes.
    pub fn add_path(&mut self, samples: Vec<LiftSample>)
        requires
            old(self).wf(),
            old(self).lift_count() < usize::MAX,
            forall|j: int| 0 <= j < samples.len() ==> valid_sample(#[trigger] samples[j]),
        ensures
            final(self).wf(),
            samples.len() == 0 ==> final(self).lift_count() == old(self).lift_count(),
            samples.len() == 0 ==> forall|a: int, b: int|
                #[trigger] final(self).candidates(a, b) == old(self).candidates(a, b),
            samples.len() > 0 ==> final(self).lift_count() == old(self).lift_count() + 1
                && final(self).samples(old(self).lift_count() as int) == samples@,
            samples.len() > 0 ==> forall|a: int, b: int|
                valid_position(a, b) ==> #[trigger] final(self).candidates(a, b) == if near_samples(
                    samples@,
                    a,
                    b,
                ) {
                    old(self).candidates(a, b).push(old(self).lift_count() as usize)
                } else {
                    old(self).candidates(a, b)
                },
            forall|l: int|
                0 <= l < old(self).lift_count() ==> #[trigger] final(self).samples(l) == old(
                    self,
                ).samples(l),
    {
        if samples.len() == 0 {
            return;
        }
        let idx = self.lifts.len();
        let ghost lifts0 = self.lifts@;
        let ghost g_start = self.grid@;
        proof {
            assert forall|k: u64, a: int| 0 <= a < list_of(g_start, k).len() implies #[trigger] list_of(
                g_start,
                k,
            )[a] < idx by {
                assert(g_start.contains_key(k));
            }
            assert(grid_after(g_start, self.grid@, samples@, 0, idx));
        }
        let mut j: usize = 0;
        while j < samples.len()
            invariant
                idx == self.lifts.len(),
                self.lifts@ == lifts0,
                idx < usize::MAX,
                forall|q: int| 0 <= q < samples.len() ==> valid_sample(#[trigger] samples[q]),
                j <= samples.len(),
                lists_ok(self.grid@, idx + 1),
                forall|k: u64, a: int|
                    0 <= a < list_of(g_start, k).len() ==> #[trigger] list_of(g_start, k)[a] < idx,
                grid_after(g_start, self.grid@, samples@, 9 * j, idx),
                forall|l: int, q: int|
                    0 <= l < self.lifts@.len() && 0 <= q < self.lifts@[l]@.len() ==> valid_sample(
                        #[trigger] self.lifts@[l]@[q],
                    ) && covers(self.grid@, self.lifts@[l]@[q], l as usize),
                forall|q: int| 0 <= q < j ==> covers(self.grid@, #[trigger] samples@[q], idx),
            decreases samples.len() - j,
        {
            let smp = samples[j];
            let gx = cell_of(smp.lat_e7);
            let gy = cell_of(smp.lon_e7);
            let mut t: i64 = 0;
            while t < 9
                invariant
                    idx == self.lifts.len(),
                    self.lifts@ == lifts0,
                    j < samples.len(),
                    smp == samples@[j as int],
                    -40_000 <= gx <= 40_000,
                    -40_000 <= gy <= 40_000,
                    gx == cell_spec(smp.lat_e7 as int),
                    gy == cell_spec(smp.lon_e7 as int),
                    0 <= t <= 9,
                    lists_ok(self.grid@, idx + 1),
                    forall|k: u64, a: int|
                        0 <= a < list_of(g_start, k).len() ==> #[trigger] list_of(g_start, k)[a] < idx,
                    grid_after(g_start, self.grid@, samples@, 9 * j + t, idx),
                    forall|l: int, q: int|
                        0 <= l < self.lifts@.len() && 0 <= q < self.lifts@[l]@.len() ==> valid_sample(
                            #[trigger] self.lifts@[l]@[q],
                        ) && covers(self.grid@, self.lifts@[l]@[q], l as usize),
                    forall|q: int| 0 <= q < j ==> covers(self.grid@, #[trigger] samples@[q], idx),
                    forall|u: int|
                        0 <= u < t ==> #[trigger] listed(
                            self.grid@,
                            cell_key(gx + u / 3 - 1, gy + u % 3 - 1),
                            idx,
                        ),
                decreases 9 - t,
            {
                let k = key_of(gx + t / 3 - 1, gy + t % 3 - 1);
                let ghost g0 = self.grid@;
                proof {
                    lemma_fundamental_div_mod_converse(9 * j + t, 9, j as int, t as int);
                    assert(k == nb_key(samples@, 9 * j + t));
                    assert(g0.contains_key(k) ==> increasing_upto(list_of(g0, k), idx));
                }
                append_once(&mut self.grid, k, idx);
                proof {
                    lemma_touch_step(samples@, 9 * j + t, g_start, g0, self.grid@, idx);
                    assert forall|k2: u64| #[trigger] self.grid@.contains_key(k2) implies {
                        &&& forall|a: int| 0 <= a < self.grid@[k2]@.len() ==> #[trigger] self.grid@[k2]@[a] < idx + 1
                        &&& forall|a: int, b: int|
                            0 <= a < b < self.grid@[k2]@.len() ==> #[trigger] self.grid@[k2]@[a] < #[trigger] self.grid@[k2]@[b]
                    } by {
                        if k2 != k {
                            assert(self.grid@.remove(k).contains_key(k2));
                            assert(g0.contains_key(k2));
                            assert(self.grid@[k2] == self.grid@.remove(k)[k2]);
                        }
                    }
                    assert forall|l: int, q: int|
                        0 <= l < self.lifts@.len() && 0 <= q < self.lifts@[l]@.len() implies valid_sample(
                            #[trigger] self.lifts@[l]@[q],
                        ) && covers(self.grid@, self.lifts@[l]@[q], l as usize) by {
                        lemma_covers_grow(g0, self.grid@, self.lifts@[l]@[q], l as usize);
                    }
                    assert forall|q: int| 0 <= q < j implies covers(
                        self.grid@,
                        #[trigger] samples@[q],
                        idx,
                    ) by {
                        lemma_covers_grow(g0, self.grid@, samples@[q], idx);
                    }
                    assert forall|u: int| 0 <= u < t + 1 implies #[trigger] listed(
                        self.grid@,
                        cell_key(gx + u / 3 - 1, gy + u % 3 - 1),
                        idx,
                    ) by {
                        if u < t {
                            assert(listed(g0, cell_key(gx + u / 3 - 1, gy + u % 3 - 1), idx));
                        }
                    }
                }
                t = t + 1;
            }
            proof {
                assert forall|dx: int, dy: int| -1 <= dx <= 1 && -1 <= dy <= 1 implies #[trigger] listed(
                    self.grid@,
                    cell_key(cell_spec(smp.lat_e7 as int) + dx, cell_spec(smp.lon_e7 as int) + dy),
                    idx,
                ) by {
                    let u = (dx + 1) * 3 + (dy + 1);
                    assert(u / 3 == dx + 1 && u % 3 == dy + 1);
                    assert(listed(self.grid@, cell_key(gx + u / 3 - 1, gy + u % 3 - 1), idx));
                }
                assert(covers(self.grid@, samples@[j as int], idx));
                assert(9 * j + 9 == 9 * (j + 1));
            }
            j = j + 1;
        }
        self.lifts.push(samples);
        proof {
            assert forall|l: int, q: int|
                0 <= l < self.lifts@.len() && 0 <= q < self.lifts@[l]@.len() implies valid_sample(
                    #[trigger] self.lifts@[l]@[q],
                ) && covers(self.grid@, self.lifts@[l]@[q], l as usize) by {
                if l < idx {
                    assert(self.lifts@[l] == lifts0[l]);
                } else {
                    assert(self.lifts@[l]@ == samples@);
                    assert(covers(self.grid@, samples@[q], idx));
                }
            }
            let sv = self.lifts@[idx as int]@;
            assert forall|a: int, b: int| valid_position(a, b) implies #[trigger] self.candidates(a, b)
                == if near_samples(sv, a, b) {
                list_of(g_start, cell_key(cell_spec(a), cell_spec(b))).push(idx)
            } else {
                list_of(g_start, cell_key(cell_spec(a), cell_spec(b)))
            } by {
                lemma_touched_iff_near(sv, a, b);
                assert(list_of(self.grid@, cell_key(cell_spec(a), cell_spec(b))) == self.candidates(a, b));
            }
        }
    }

    pub fn len(&self) -> (n: usize)
        ensures
            n == self.lift_count(),
    {
        self.lifts.len()
    }
}

/// Every lift listed in a cell is one that was added, each listed once
/// and in increasing order.
pub proof fn lemma_candidates_are_lifts(idx: &LiftIndex, lat_e7: int, lon_e7: int)
    requires
        idx.wf(),
    ensures
        forall|t: int|
            0 <= t < idx.candidates(lat_e7, lon_e7).len() ==> #[trigger] idx.candidates(
                lat_e7,
                lon_e7,
            )[t] < idx.lift_count(),
        forall|a: int, b: int|
            0 <= a < b < idx.candidates(lat_e7, lon_e7).len() ==> #[trigger] idx.candidates(
                lat_e7,
                lon_e7,
            )[a] < #[trigger] idx.candidates(lat_e7, lon_e7)[b],
{
    let k = cell_key(cell_spec(lat_e7), cell_spec(lon_e7));
    if idx.grid@.contains_key(k) {
        assert(idx.candidates(lat_e7, lon_e7) == idx.grid@[k]@);
    }
}

proof fn lemma_cells_adjacent(a: int, b: int)
    requires
        -(GRID_CELL_E7 as int) < a - b < GRID_CELL_E7 as int,
    ensures
        -1 <= cell_spec(a) - cell_spec(b) <= 1,
{
    let c = GRID_CELL_E7 as int;
    lemma_fundamental_div_mod(a, c);
    lemma_fundamental_div_mod(b, c);
    lemma_mod_bound(a, c);
    lemma_mod_bound(b, c);
    let qa = a / c;
    let qb = b / c;
    assert(-1 <= qa - qb <= 1) by (nonlinear_arith)
        requires
            a == c * qa + a % c,
            b == c * qb + b % c,
            0 <= a % c < c,
            0 <= b % c < c,
            -c < a - b < c,
            c > 0,
    ;
}

/// A query point less than one grid cell away (in latitude and in
/// longitude) from a sample of a lift that has at least one step always
/// finds a lift step, so `nearest` returns a finite distance.
pub proof fn lemma_query_near_sample_finds_lift(idx: &LiftIndex, l: int, j: int, lat_e7: int, lon_e7: int)
    requires
        idx.wf(),
        0 <= l < idx.lift_count(),
        idx.samples(l).len() >= 2,
        0 <= j < idx.samples(l).len(),
        -(GRID_CELL_E7 as int) < lat_e7 - idx.samples(l)[j].lat_e7 < GRID_CELL_E7 as int,
        -(GRID_CELL_E7 as int) < lon_e7 - idx.samples(l)[j].lon_e7 < GRID_CELL_E7 as int,
    ensures
        idx.has_candidate_segment(lat_e7, lon_e7),
{
    let s = idx.samples(l)[j];
    assert(valid_sample(idx.lifts@[l]@[j]) && covers(idx.grid@, idx.lifts@[l]@[j], l as usize));
    lemma_cells_adjacent(lat_e7, s.lat_e7 as int);
    lemma_cells_adjacent(lon_e7, s.lon_e7 as int);
    let dx = cell_spec(lat_e7) - cell_spec(s.lat_e7 as int);
    let dy = cell_spec(lon_e7) - cell_spec(s.lon_e7 as int);
    assert(listed(
        idx.grid@,
        cell_key(cell_spec(s.lat_e7 as int) + dx, cell_spec(s.lon_e7 as int) + dy),
        l as usize,
    ));
    let cands = idx.candidates(lat_e7, lon_e7);
    assert(cands.contains(l as usize));
    let t = choose|t: int| 0 <= t < cands.len() && cands[t] == l as usize;
    assert(idx.samples(cands[t] as int).len() >= 2);
}

} // verus!
