use crate::geo::valid_position;
use crate::gradient::{div_trunc, div_trunc_wide, lemma_div_trunc_bounds};
use vstd::prelude::*;

verus! {

/// Longest spacing of the samples of a lift line, in millimetres.
pub const LIFT_STEP_MM: u64 = 5_000;

/// Number of equal pieces a stretch of `dist_mm` is cut into so that none
/// is longer than `step_mm`: `ceil(dist / step)`, or 1 for a short stretch.
pub open spec fn pieces(dist_mm: int, step_mm: int) -> int {
    if dist_mm > step_mm {
        (dist_mm - 1) / step_mm + 1
    } else {
        1
    }
}

/// Coordinate at fraction `s / num` of the way from `a` to `b`, rounded
/// toward `a`.
pub open spec fn lerp(a: int, b: int, s: int, num: int) -> int {
    a + div_trunc((b - a) * s, num)
}

/// Points `1 ..= num` of the stretch from `a` to `b` cut into `num` pieces
/// (the last one is `b` itself).
pub open spec fn stretch(a: (i64, i64), b: (i64, i64), num: int) -> Seq<(i64, i64)> {
    Seq::new(
        num as nat,
        |s: int|
            (
                lerp(a.0 as int, b.0 as int, s + 1, num) as i64,
                lerp(a.1 as int, b.1 as int, s + 1, num) as i64,
            ),
    )
}

/// The first `k + 1` raw points with every stretch between them filled in.
pub open spec fn densified(raw: Seq<(i64, i64)>, dists: Seq<u64>, step_mm: int, k: int) -> Seq<(i64, i64)>
    decreases k,
{
    if k <= 0 {
        seq![raw[0]]
    } else {
        densified(raw, dists, step_mm, k - 1) + stretch(
            raw[k - 1],
            raw[k],
            pieces(dists[k - 1] as int, step_mm),
        )
    }
}

proof fn lemma_lerp_between(a: int, b: int, s: int, num: int)
    requires
        0 <= s <= num,
        num > 0,
    ensures
        (a <= b ==> a <= lerp(a, b, s, num) <= b),
        (b <= a ==> b <= lerp(a, b, s, num) <= a),
        s == num ==> lerp(a, b, s, num) == b,
{
    let m = b - a;
    if m >= 0 {
        assert(num * 0 <= m * s <= num * m) by (nonlinear_arith)
            requires
                0 <= s <= num,
                m >= 0,
        ;
        lemma_div_trunc_bounds(m * s, num, 0, m);
    } else {
        assert(num * m <= m * s <= num * 0) by (nonlinear_arith)
            requires
                0 <= s <= num,
                m < 0,
        ;
        lemma_div_trunc_bounds(m * s, num, m, 0);
    }
    if s == num {
        assert(m * s == num * m) by (nonlinear_arith)
            requires
                s == num,
        ;
        lemma_div_trunc_bounds(m * s, num, m, m);
    }
}

/// Fills in every stretch of a lift line so that consecutive samples are
/// at most `step_mm` apart. `dists[i]` is the ground distance from
/// `raw[i]` to `raw[i + 1]`; points are (latitude, longitude) in 1e-7
/// degree. Every raw point is kept; an empty line stays empty.
pub fn densify(raw: &Vec<(i64, i64)>, dists: &Vec<u64>, step_mm: u64) -> (out: Vec<(i64, i64)>)
    requires
        raw.len() == 0 || dists.len() + 1 == raw.len(),
        step_mm > 0,
        forall|i: int| 0 <= i < raw.len() ==> valid_position(#[trigger] raw[i].0 as int, raw[i].1 as int),
    ensures
        raw.len() == 0 ==> out.len() == 0,
        raw.len() > 0 ==> out@ == densified(raw@, dists@, step_mm as int, dists.len() as int),
        forall|i: int| 0 <= i < out.len() ==> valid_position(#[trigger] out[i].0 as int, out[i].1 as int),
{
    let mut out: Vec<(i64, i64)> = Vec::new();
    if raw.len() == 0 {
        return out;
    }
    out.push(raw[0]);
    let mut k: usize = 0;
    while k < dists.len()
        invariant
            dists.len() + 1 == raw.len(),
            step_mm > 0,
            forall|i: int| 0 <= i < raw.len() ==> valid_position(#[trigger] raw[i].0 as int, raw[i].1 as int),
            k <= dists.len(),
            out@ == densified(raw@, dists@, step_mm as int, k as int),
            forall|i: int| 0 <= i < out.len() ==> valid_position(#[trigger] out[i].0 as int, out[i].1 as int),
        decreases dists.len() - k,
    {
        let a = raw[k];
        let b = raw[k + 1];
        assert(valid_position(raw[k as int].0 as int, raw[k as int].1 as int));
        assert(valid_position(raw[k + 1].0 as int, raw[k + 1].1 as int));
        let d = dists[k];
        let num: u64 = if d > step_mm {
            proof {
                vstd::arithmetic::div_mod::lemma_div_is_ordered_by_denominator(
                    (d - 1) as int,
                    1,
                    step_mm as int,
                );
            }
            (d - 1) / step_mm + 1
        } else {
            1
        };
        assert(num == pieces(d as int, step_mm as int));
        assert(num >= 1);
        let ghost base = out@;
        let ghost part = stretch(a, b, num as int);
        let mut s: u128 = 1;
        while s <= num as u128
            invariant
                1 <= s <= num as int + 1,
                num >= 1,
                valid_position(a.0 as int, a.1 as int),
                valid_position(b.0 as int, b.1 as int),
                part == stretch(a, b, num as int),
                out@ == base + part.subrange(0, s - 1),
                forall|i: int| 0 <= i < out.len() ==> valid_position(#[trigger] out[i].0 as int, out[i].1 as int),
            decreases num as int + 1 - s,
        {
            proof {
                lemma_lerp_between(a.0 as int, b.0 as int, s as int, num as int);
                lemma_lerp_between(a.1 as int, b.1 as int, s as int, num as int);
            }
            let dlat = b.0 as i128 - a.0 as i128;
            let dlon = b.1 as i128 - a.1 as i128;
            assert(-4_000_000_000 * 0x1_0000_0000_0000_0000 <= dlat * (s as i128) <= 4_000_000_000 * 0x1_0000_0000_0000_0000)
                by (nonlinear_arith)
                requires
                    -4_000_000_000 <= dlat <= 4_000_000_000,
                    0 <= s < 0x1_0000_0000_0000_0000,
            ;
            assert(-4_000_000_000 * 0x1_0000_0000_0000_0000 <= dlon * (s as i128) <= 4_000_000_000 * 0x1_0000_0000_0000_0000)
                by (nonlinear_arith)
                requires
                    -4_000_000_000 <= dlon <= 4_000_000_000,
                    0 <= s < 0x1_0000_0000_0000_0000,
            ;
            let lat = a.0 as i128 + div_trunc_wide(dlat * (s as i128), num as i128);
            let lon = a.1 as i128 + div_trunc_wide(dlon * (s as i128), num as i128);
            let p = (lat as i64, lon as i64);
            assert(p == part[s - 1]);
            out.push(p);
            assert(out@ =~= base + part.subrange(0, s as int));
            s = s + 1;
        }
        assert(part.subrange(0, num as int) == part);
        k = k + 1;
    }
    out
}

} // verus!
