use vstd::arithmetic::div_mod::{lemma_fundamental_div_mod_converse};
use vstd::prelude::*;
use crate::gradient::{floor_div, lemma_floor_div_bound};
use crate::buckets::{append_once, increasing_upto, list_of, listed};
use std::collections::HashMap;

verus! {

broadcast use vstd::std_specs::hash::group_hash_axioms;

/// Fractional tile coordinates are held in millionths of a tile.
pub const TILE_UNIT: i64 = 1_000_000;

/// A segment is registered on every tile within half a tile of its
/// bounding box.
pub const TILE_PADDING: i64 = 500_000;

/// Side of a tile image, in pixels.
pub const TILE_PIXELS: u32 = 512;

/// A pixel counts as drawn when its alpha is above this value.
pub const ALPHA_THRESHOLD: u8 = 10;

/// Largest tile coordinate handled (zoom levels up to 30).
pub const MAX_TILE_COORD: i64 = 0x4000_0000;

/// Inclusive range of tile indices.
#[derive(Clone, Copy, Debug, PartialEq, Eq, Structural)]
pub struct TileRange {
    pub x0: i64,
    pub x1: i64,
    pub y0: i64,
    pub y1: i64,
}

pub open spec fn seq_min(s: Seq<i64>) -> int
    decreases s.len(),
{
    if s.len() <= 1 {
        if s.len() == 0 { 0 } else { s[0] as int }
    } else {
        let m = seq_min(s.drop_last());
        if s.last() < m { s.last() as int } else { m }
    }
}

pub open spec fn seq_max(s: Seq<i64>) -> int
    decreases s.len(),
{
    if s.len() <= 1 {
        if s.len() == 0 { 0 } else { s[0] as int }
    } else {
        let m = seq_max(s.drop_last());
        if s.last() > m { s.last() as int } else { m }
    }
}

/// `floor(v / TILE_UNIT)`.
pub open spec fn tile_floor(v: int) -> int {
    v / (TILE_UNIT as int)
}

/// Tiles that a segment with projected coordinates `xs`, `ys` (millionths
/// of a tile) may touch: its bounding box widened by half a tile, floored.
pub open spec fn padded_range_spec(xs: Seq<i64>, ys: Seq<i64>) -> TileRange {
    TileRange {
        x0: tile_floor(seq_min(xs) - TILE_PADDING) as i64,
        x1: tile_floor(seq_max(xs) + TILE_PADDING) as i64,
        y0: tile_floor(seq_min(ys) - TILE_PADDING) as i64,
        y1: tile_floor(seq_max(ys) + TILE_PADDING) as i64,
    }
}

/// Projected coordinate within the range a zoom level up to 30 can give.
pub open spec fn coord_ok(v: i64) -> bool {
    -MAX_TILE_COORD * TILE_UNIT <= v <= MAX_TILE_COORD * TILE_UNIT
}

fn floor_div_unit(v: i64) -> (q: i64)
    requires
        -2 * MAX_TILE_COORD * TILE_UNIT <= v <= 2 * MAX_TILE_COORD * TILE_UNIT,
    ensures
        q == tile_floor(v as int),
        -2 * MAX_TILE_COORD <= q <= 2 * MAX_TILE_COORD,
{
    proof {
        lemma_floor_div_bound(v as int, TILE_UNIT as int, 2 * MAX_TILE_COORD as int);
    }
    floor_div(v, TILE_UNIT)
}

/// The padded tile range of a segment's projected points.
pub fn padded_range(xs: &Vec<i64>, ys: &Vec<i64>) -> (r: TileRange)
    requires
        xs.len() > 0,
        ys.len() > 0,
        forall|i: int| 0 <= i < xs.len() ==> coord_ok(#[trigger] xs[i]),
        forall|i: int| 0 <= i < ys.len() ==> coord_ok(#[trigger] ys[i]),
    ensures
        r == padded_range_spec(xs@, ys@),
        range_ok(r),
{
    let (x_lo, x_hi) = min_max(xs);
    let (y_lo, y_hi) = min_max(ys);
    TileRange {
        x0: floor_div_unit(x_lo - TILE_PADDING),
        x1: floor_div_unit(x_hi + TILE_PADDING),
        y0: floor_div_unit(y_lo - TILE_PADDING),
        y1: floor_div_unit(y_hi + TILE_PADDING),
    }
}

fn min_max(v: &Vec<i64>) -> (r: (i64, i64))
    requires
        v.len() > 0,
        forall|i: int| 0 <= i < v.len() ==> coord_ok(#[trigger] v[i]),
    ensures
        r.0 == seq_min(v@),
        r.1 == seq_max(v@),
        coord_ok(r.0),
        coord_ok(r.1),
{
    let mut lo = v[0];
    let mut hi = v[0];
    let mut k: usize = 1;
    assert(v@.subrange(0, 1).drop_last().len() == 0);
    while k < v.len()
        invariant
            1 <= k <= v.len(),
            forall|i: int| 0 <= i < v.len() ==> coord_ok(#[trigger] v[i]),
            lo == seq_min(v@.subrange(0, k as int)),
            hi == seq_max(v@.subrange(0, k as int)),
            coord_ok(lo),
            coord_ok(hi),
        decreases v.len() - k,
    {
        assert(v@.subrange(0, k + 1).drop_last() == v@.subrange(0, k as int));
        if v[k] < lo {
            lo = v[k];
        }
        if v[k] > hi {
            hi = v[k];
        }
        k = k + 1;
    }
    assert(v@.subrange(0, k as int) == v@);
    (lo, hi)
}

/// Stroke width in tenths of a pixel:
/// `clamp(floor((zoom - 10) / 2) + 5, 4, 10) * 0.8`.
pub open spec fn stroke_width_tenths_spec(zoom: int) -> int {
    let base = (zoom - 10) / 2 + 5;
    let w = if base < 4 { 4 } else if base > 10 { 10 } else { base };
    w * 8
}

pub fn stroke_width_tenths(zoom: u8) -> (w: u32)
    ensures
        w == stroke_width_tenths_spec(zoom as int),
{
    let base: i32 = if zoom >= 10 {
        (zoom as i32 - 10) / 2 + 5
    } else {
        5 - (11 - zoom as i32) / 2
    };
    proof {
        let z = zoom as int;
        if z < 10 {
            let q = (11 - z) / 2;
            lemma_fundamental_div_mod_converse(z - 10, 2, -q, (z - 10) + 2 * q);
        }
    }
    let w = if base < 4 {
        4
    } else if base > 10 {
        10
    } else {
        base
    };
    (w * 8) as u32
}

/// Some pixel of an RGBA canvas has alpha above the threshold.
pub open spec fn has_ink_spec(rgba: Seq<u8>) -> bool {
    exists|p: int| 0 <= p && 4 * p + 3 < rgba.len() && #[trigger] rgba[4 * p + 3] > ALPHA_THRESHOLD
}

/// Whether a rendered tile is worth writing: some pixel of the RGBA bytes
/// has alpha above 10.
pub fn has_ink(rgba: &[u8]) -> (b: bool)
    ensures
        b == has_ink_spec(rgba@),
{
    let n = rgba.len();
    let mut p: usize = 0;
    while p < n / 4
        invariant
            n == rgba@.len(),
            p <= n / 4,
            forall|q: int| 0 <= q < p ==> #[trigger] rgba@[4 * q + 3] <= ALPHA_THRESHOLD,
        decreases n / 4 - p,
    {
        if rgba[4 * p + 3] > ALPHA_THRESHOLD {
            return true;
        }
        p = p + 1;
    }
    proof {
        assert forall|q: int| 0 <= q && 4 * q + 3 < rgba@.len() implies #[trigger] rgba@[4 * q + 3]
            <= ALPHA_THRESHOLD by {
            assert(q < n / 4);
        }
    }
    false
}

/// A canvas on which nothing rose above the alpha threshold (in particular
/// one that no segment touched, all transparent) is not kept.
pub proof fn lemma_faint_canvas_not_kept(rgba: Seq<u8>)
    requires
        forall|i: int| 0 <= i < rgba.len() ==> #[trigger] rgba[i] <= ALPHA_THRESHOLD,
    ensures
        !has_ink_spec(rgba),
{
}

/// Key of tile `(x, y)` in a bucket map.
pub open spec fn tile_key(x: int, y: int) -> u64 {
    (x * 0x1_0000_0000 + y) as u64
}

pub open spec fn key_x(k: u64) -> int {
    k as int / 0x1_0000_0000
}

pub open spec fn key_y(k: u64) -> int {
    k as int % 0x1_0000_0000
}

/// Tile `(x, y)` has non-negative indices and lies in range `r`.
pub open spec fn in_range(r: TileRange, x: int, y: int) -> bool {
    0 <= x && 0 <= y && r.x0 <= x <= r.x1 && r.y0 <= y <= r.y1
}

/// A range as `padded_range` gives for coordinates that satisfy `coord_ok`.
pub open spec fn range_ok(r: TileRange) -> bool {
    &&& -2 * MAX_TILE_COORD <= r.x0 && r.x1 <= 2 * MAX_TILE_COORD
    &&& -2 * MAX_TILE_COORD <= r.y0 && r.y1 <= 2 * MAX_TILE_COORD
}

/// Every list of `m` is non-empty, strictly increasing, and names only
/// segments below `n` whose range holds the tile of its key.
pub open spec fn buckets_sound(m: Map<u64, Vec<usize>>, ranges: Seq<TileRange>, n: int) -> bool {
    forall|k: u64|
        #[trigger] m.contains_key(k) ==> {
            &&& m[k]@.len() > 0
            &&& forall|a: int|
                0 <= a < m[k]@.len() ==> #[trigger] m[k]@[a] < n && m[k]@[a] < ranges.len()
                    && in_range(ranges[m[k]@[a] as int], key_x(k), key_y(k))
            &&& forall|a: int, b: int|
                0 <= a < b < m[k]@.len() ==> #[trigger] m[k]@[a] < #[trigger] m[k]@[b]
        }
}

proof fn lemma_tile_key(x: int, y: int)
    requires
        0 <= x <= 2 * MAX_TILE_COORD,
        0 <= y <= 2 * MAX_TILE_COORD,
    ensures
        key_x(tile_key(x, y)) == x,
        key_y(tile_key(x, y)) == y,
{
    assert(0 <= x * 0x1_0000_0000 + y <= u64::MAX) by (nonlinear_arith)
        requires
            0 <= x <= 2 * MAX_TILE_COORD,
            0 <= y <= 2 * MAX_TILE_COORD,
    ;
    lemma_fundamental_div_mod_converse(x * 0x1_0000_0000 + y, 0x1_0000_0000, x, y);
}

/// Tile indices `(x, y)` of a bucket key.
pub fn tile_of_key(k: u64) -> (t: (u32, u32))
    ensures
        t.0 == key_x(k),
        t.1 == key_y(k),
{
    ((k / 0x1_0000_0000) as u32, (k % 0x1_0000_0000) as u32)
}

fn add_to_tile(
    m: &mut HashMap<u64, Vec<usize>>,
    ranges: &Vec<TileRange>,
    x: i64,
    y: i64,
    i: usize,
)
    requires
        buckets_sound(old(m)@, ranges@, i + 1),
        i < ranges.len(),
        0 <= x <= 2 * MAX_TILE_COORD,
        0 <= y <= 2 * MAX_TILE_COORD,
        in_range(ranges@[i as int], x as int, y as int),
    ensures
        buckets_sound(final(m)@, ranges@, i + 1),
        forall|k: u64, j: usize| #[trigger] listed(old(m)@, k, j) ==> #[trigger] listed(final(m)@, k, j),
        listed(final(m)@, tile_key(x as int, y as int), i),
{
    let k = (x as u64) * 0x1_0000_0000 + (y as u64);
    proof {
        lemma_tile_key(x as int, y as int);
        assert(k == tile_key(x as int, y as int));
    }
    let ghost g0 = m@;
    proof {
        if g0.contains_key(k) {
            assert(increasing_upto(list_of(g0, k), i));
        }
    }
    append_once(m, k, i);
    proof {
        assert forall|k2: u64| #[trigger] m@.contains_key(k2) implies {
            &&& m@[k2]@.len() > 0
            &&& forall|a: int|
                0 <= a < m@[k2]@.len() ==> #[trigger] m@[k2]@[a] < i + 1 && m@[k2]@[a] < ranges@.len()
                    && in_range(ranges@[m@[k2]@[a] as int], key_x(k2), key_y(k2))
            &&& forall|a: int, b: int|
                0 <= a < b < m@[k2]@.len() ==> #[trigger] m@[k2]@[a] < #[trigger] m@[k2]@[b]
        } by {
            if k2 != k {
                assert(m@.remove(k).contains_key(k2));
                assert(g0.contains_key(k2));
                assert(m@[k2] == m@.remove(k)[k2]);
            } else {
                let s0 = list_of(g0, k);
                assert forall|a: int| 0 <= a < m@[k]@.len() implies #[trigger] m@[k]@[a] < i + 1
                    && m@[k]@[a] < ranges@.len() && in_range(ranges@[m@[k]@[a] as int], key_x(k), key_y(k)) by {
                    if a < s0.len() {
                        assert(g0.contains_key(k));
                        assert(m@[k]@[a] == g0[k]@[a]);
                    }
                }
            }
        }
    }
}

/// Groups segments by the tiles they may touch: `ranges[i]` is the padded
/// tile range of segment `i`, and tiles with a negative index are left out.
/// Each tile lists its segments once, in increasing order; a tile that no
/// segment reaches has no entry.
pub fn bucket(ranges: &Vec<TileRange>) -> (m: HashMap<u64, Vec<usize>>)
    requires
        forall|i: int| 0 <= i < ranges.len() ==> range_ok(#[trigger] ranges[i]),
    ensures
        buckets_sound(m@, ranges@, ranges.len() as int),
        forall|i: int, x: int, y: int|
            0 <= i < ranges.len() && #[trigger] in_range(ranges[i], x, y) ==> #[trigger] listed(
                m@,
                tile_key(x, y),
                i as usize,
            ),
{
    let mut m: HashMap<u64, Vec<usize>> = HashMap::new();
    let n = ranges.len();
    let mut i: usize = 0;
    while i < n
        invariant
            n == ranges.len(),
            forall|q: int| 0 <= q < ranges.len() ==> range_ok(#[trigger] ranges[q]),
            i <= n,
            buckets_sound(m@, ranges@, i as int),
            forall|q: int, x: int, y: int|
                0 <= q < i && #[trigger] in_range(ranges[q], x, y) ==> #[trigger] listed(
                    m@,
                    tile_key(x, y),
                    q as usize,
                ),
        decreases n - i,
    {
        let r = ranges[i];
        assert(range_ok(r));
        let x_start: i64 = if r.x0 < 0 {
            0
        } else {
            r.x0
        };
        let y_start: i64 = if r.y0 < 0 {
            0
        } else {
            r.y0
        };
        let mut tx: i64 = x_start;
        while tx <= r.x1
            invariant
                n == ranges.len(),
                forall|q: int| 0 <= q < ranges.len() ==> range_ok(#[trigger] ranges[q]),
                i < n,
                r == ranges[i as int],
                range_ok(r),
                x_start <= tx <= r.x1 + 1 || (tx == x_start && x_start > r.x1),
                x_start == if r.x0 < 0 { 0 } else { r.x0 },
                y_start == if r.y0 < 0 { 0 } else { r.y0 },
                buckets_sound(m@, ranges@, i + 1),
                forall|q: int, x: int, y: int|
                    0 <= q < i && #[trigger] in_range(ranges[q], x, y) ==> #[trigger] listed(
                        m@,
                        tile_key(x, y),
                        q as usize,
                    ),
                forall|x: int, y: int|
                    x < tx && #[trigger] in_range(r, x, y) ==> #[trigger] listed(m@, tile_key(x, y), i),
            decreases r.x1 + 1 - tx,
        {
            let mut ty: i64 = y_start;
            while ty <= r.y1
                invariant
                    n == ranges.len(),
                    forall|q: int| 0 <= q < ranges.len() ==> range_ok(#[trigger] ranges[q]),
                    i < n,
                    r == ranges[i as int],
                    range_ok(r),
                    x_start <= tx <= r.x1,
                    0 <= x_start,
                    x_start == if r.x0 < 0 { 0 } else { r.x0 },
                    y_start == if r.y0 < 0 { 0 } else { r.y0 },
                    y_start <= ty <= r.y1 + 1 || (ty == y_start && y_start > r.y1),
                    buckets_sound(m@, ranges@, i + 1),
                    forall|q: int, x: int, y: int|
                        0 <= q < i && #[trigger] in_range(ranges[q], x, y) ==> #[trigger] listed(
                            m@,
                            tile_key(x, y),
                            q as usize,
                        ),
                    forall|x: int, y: int|
                        (x < tx || (x == tx && y < ty)) && #[trigger] in_range(r, x, y)
                            ==> #[trigger] listed(m@, tile_key(x, y), i),
                decreases r.y1 + 1 - ty,
            {
                let ghost g0 = m@;
                add_to_tile(&mut m, ranges, tx, ty, i);
                proof {
                    assert forall|q: int, x: int, y: int|
                        0 <= q < i && #[trigger] in_range(ranges[q], x, y) implies #[trigger] listed(
                            m@,
                            tile_key(x, y),
                            q as usize,
                        ) by {
                        assert(listed(g0, tile_key(x, y), q as usize));
                    }
                    assert forall|x: int, y: int|
                        (x < tx || (x == tx && y < ty + 1)) && #[trigger] in_range(r, x, y)
                            implies #[trigger] listed(m@, tile_key(x, y), i) by {
                        if x < tx || y < ty {
                            assert(listed(g0, tile_key(x, y), i));
                        }
                    }
                }
                ty = ty + 1;
            }
            tx = tx + 1;
        }
        i = i + 1;
    }
    m
}

/// Padded tile range of every segment, from its projected points.
pub fn ranges_of(xs: &Vec<Vec<i64>>, ys: &Vec<Vec<i64>>) -> (r: Vec<TileRange>)
    requires
        xs.len() == ys.len(),
        forall|i: int| 0 <= i < xs.len() ==> (#[trigger] xs[i]).len() > 0 && ys[i].len() > 0,
        forall|i: int, j: int|
            0 <= i < xs.len() && 0 <= j < xs[i].len() ==> coord_ok(#[trigger] xs[i]@[j]),
        forall|i: int, j: int|
            0 <= i < ys.len() && 0 <= j < ys[i].len() ==> coord_ok(#[trigger] ys[i]@[j]),
    ensures
        r.len() == xs.len(),
        forall|i: int|
            0 <= i < r.len() ==> #[trigger] r[i] == padded_range_spec(xs[i]@, ys[i]@) && range_ok(
                r[i],
            ),
{
    let mut r: Vec<TileRange> = Vec::with_capacity(xs.len());
    let mut i: usize = 0;
    while i < xs.len()
        invariant
            xs.len() == ys.len(),
            forall|q: int| 0 <= q < xs.len() ==> (#[trigger] xs[q]).len() > 0 && ys[q].len() > 0,
            forall|q: int, j: int|
                0 <= q < xs.len() && 0 <= j < xs[q].len() ==> coord_ok(#[trigger] xs[q]@[j]),
            forall|q: int, j: int|
                0 <= q < ys.len() && 0 <= j < ys[q].len() ==> coord_ok(#[trigger] ys[q]@[j]),
            i <= xs.len(),
            r.len() == i,
            forall|q: int|
                0 <= q < i ==> #[trigger] r[q] == padded_range_spec(xs[q]@, ys[q]@) && range_ok(r[q]),
        decreases xs.len() - i,
    {
        assert(xs[i as int].len() > 0);
        let t = padded_range(&xs[i], &ys[i]);
        r.push(t);
        i = i + 1;
    }
    r
}

} // verus!
