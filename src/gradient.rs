use vstd::arithmetic::div_mod::{
    lemma_fundamental_div_mod, lemma_fundamental_div_mod_converse, lemma_mod_pos_bound,
};
use vstd::prelude::*;

verus! {

/// Quotient rounded toward zero, for a positive divisor.
pub open spec fn div_trunc(a: int, b: int) -> int {
    if a >= 0 {
        a / b
    } else {
        -((-a) / b)
    }
}

/// Signed elevation change per horizontal millimetre, in parts per
/// million; a zero horizontal distance gives 0.
pub open spec fn descent_rate_spec(rise_mm: int, run_mm: int) -> int {
    if run_mm == 0 {
        0
    } else {
        div_trunc(rise_mm * 1_000_000, run_mm)
    }
}

/// Largest magnitude of an elevation, in millimetres.
pub const MAX_ELEVATION_MM: i64 = 1_000_000_000;

/// Sum of `s[lo..hi]`.
pub open spec fn seq_sum(s: Seq<i64>, lo: int, hi: int) -> int
    decreases hi - lo,
{
    if hi <= lo {
        0
    } else {
        seq_sum(s, lo, hi - 1) + s[hi - 1]
    }
}

/// First index of the centred window of half-width `half` around `i`.
pub open spec fn window_start(i: int, half: int) -> int {
    if i < half {
        0
    } else {
        i - half
    }
}

/// One past the last index of that window, clamped at `n`.
pub open spec fn window_end(i: int, half: int, n: int) -> int {
    if i + half + 1 < n {
        i + half + 1
    } else {
        n
    }
}

/// Centred moving average at `i`, the window shrinking near the ends.
pub open spec fn smoothed_at(s: Seq<i64>, half: int, i: int) -> int {
    let lo = window_start(i, half);
    let hi = window_end(i, half, s.len() as int);
    div_trunc(seq_sum(s, lo, hi), hi - lo)
}

/// Rates of a track: 0 for the first point, then the rate of each step
/// from the previous point.
pub open spec fn descent_rates_spec(elevations: Seq<i64>, steps: Seq<u64>, i: int) -> int {
    if i == 0 {
        0
    } else {
        descent_rate_spec(elevations[i] - elevations[i - 1], steps[i - 1] as int)
    }
}

pub proof fn lemma_div_trunc_bounds(sum: int, cnt: int, a: int, b: int)
    requires
        cnt > 0,
        cnt * a <= sum <= cnt * b,
    ensures
        a <= div_trunc(sum, cnt) <= b,
{
    let x = if sum >= 0 { sum } else { -sum };
    lemma_fundamental_div_mod(x, cnt);
    lemma_mod_pos_bound(x, cnt);
    let q = x / cnt;
    let r = x % cnt;
    assert(x == cnt * q + r);
    if sum >= 0 {
        assert(a <= q) by (nonlinear_arith)
            requires
                x == cnt * q + r,
                0 <= r < cnt,
                cnt * a <= x,
        ;
        assert(q <= b) by (nonlinear_arith)
            requires
                x == cnt * q + r,
                0 <= r < cnt,
                x <= cnt * b,
        ;
    } else {
        assert(q <= -a) by (nonlinear_arith)
            requires
                x == cnt * q + r,
                0 <= r < cnt,
                cnt * a <= sum,
                x == -sum,
        ;
        assert(-b <= q) by (nonlinear_arith)
            requires
                x == cnt * q + r,
                0 <= r < cnt,
                sum <= cnt * b,
                x == -sum,
        ;
    }
}

pub proof fn lemma_sum_bounds(s: Seq<i64>, lo: int, hi: int, a: int, b: int)
    requires
        0 <= lo <= hi <= s.len(),
        forall|j: int| lo <= j < hi ==> a <= #[trigger] s[j] <= b,
    ensures
        (hi - lo) * a <= seq_sum(s, lo, hi) <= (hi - lo) * b,
    decreases hi - lo,
{
    if hi > lo {
        lemma_sum_bounds(s, lo, hi - 1, a, b);
        assert(a <= s[hi - 1] <= b);
        assert((hi - lo) * a == (hi - 1 - lo) * a + a) by (nonlinear_arith);
        assert((hi - lo) * b == (hi - 1 - lo) * b + b) by (nonlinear_arith);
    } else {
        assert(hi - lo == 0);
        assert((hi - lo) * a == 0) by (nonlinear_arith)
            requires
                hi - lo == 0,
        ;
        assert((hi - lo) * b == 0) by (nonlinear_arith)
            requires
                hi - lo == 0,
        ;
    }
}

/// Rate of one step: `rise_mm` of elevation over `run_mm` of ground.
pub fn descent_rate(rise_mm: i64, run_mm: u64) -> (r: i64)
    requires
        -2 * MAX_ELEVATION_MM <= rise_mm <= 2 * MAX_ELEVATION_MM,
    ensures
        r == descent_rate_spec(rise_mm as int, run_mm as int),
{
    if run_mm == 0 {
        0
    } else if rise_mm >= 0 {
        let q = (rise_mm as u128 * 1_000_000) / (run_mm as u128);
        assert(q <= rise_mm as u128 * 1_000_000) by {
            vstd::arithmetic::div_mod::lemma_div_is_ordered_by_denominator(
                rise_mm as int * 1_000_000, 1, run_mm as int);
        }
        q as i64
    } else {
        let q = ((-rise_mm) as u128 * 1_000_000) / (run_mm as u128);
        assert(q <= (-rise_mm) as u128 * 1_000_000) by {
            vstd::arithmetic::div_mod::lemma_div_is_ordered_by_denominator(
                (-rise_mm) as int * 1_000_000, 1, run_mm as int);
        }
        -(q as i64)
    }
}

/// Half-width of the gradient smoothing window (a window of five points).
pub const GRADIENT_HALF_WINDOW: usize = 2;

/// Quotient of `x` by a positive `d`, rounded toward zero.
pub(crate) fn div_trunc_wide(x: i128, d: i128) -> (q: i128)
    requires
        d > 0,
        x > i128::MIN,
    ensures
        q == div_trunc(x as int, d as int),
{
    if x >= 0 {
        x / d
    } else {
        -((-x) / d)
    }
}

/// `floor(v / d)` for a positive `d`.
pub(crate) fn floor_div(v: i64, d: i64) -> (q: i64)
    requires
        0 < d <= 0x4000_0000_0000_0000,
        -0x4000_0000_0000_0000 <= v,
    ensures
        q == v as int / d as int,
{
    if v >= 0 {
        let q = v / d;
        proof {
            lemma_fundamental_div_mod(v as int, d as int);
            lemma_mod_pos_bound(v as int, d as int);
        }
        q
    } else {
        let m = -v;
        let n = (m - 1) + d;
        let big_q = n / d;
        proof {
            lemma_fundamental_div_mod(n as int, d as int);
            lemma_mod_pos_bound(n as int, d as int);
            let bq = big_q as int;
            let di = d as int;
            assert((-bq) * di == -(di * bq)) by (nonlinear_arith);
            lemma_fundamental_div_mod_converse(
                v as int,
                d as int,
                -(big_q as int),
                d - 1 - (n as int % d as int),
            );
        }
        -big_q
    }
}

/// A quotient by a positive `d` of a value within `m * d` of zero lies
/// within `m` of zero.
pub proof fn lemma_floor_div_bound(v: int, d: int, m: int)
    requires
        d > 0,
        -m * d <= v <= m * d,
    ensures
        -m <= v / d <= m,
{
    lemma_fundamental_div_mod(v, d);
    vstd::arithmetic::div_mod::lemma_mod_bound(v, d);
    let q = v / d;
    assert(-m <= q <= m) by (nonlinear_arith)
        requires
            v == d * q + v % d,
            0 <= v % d < d,
            -m * d <= v <= m * d,
            d > 0,
    ;
}

/// Instantaneous rate of every point: 0 for the first, then each step's
/// rate from its predecessor. `steps[i]` is the ground distance from point
/// `i` to point `i + 1`.
pub fn descent_rates(elevations: &Vec<i64>, steps: &Vec<u64>) -> (rates: Vec<i64>)
    requires
        elevations.len() == steps.len() + 1,
        forall|i: int|
            0 <= i < elevations.len() ==> -MAX_ELEVATION_MM <= #[trigger] elevations[i]
                <= MAX_ELEVATION_MM,
    ensures
        rates.len() == elevations.len(),
        forall|i: int|
            0 <= i < rates.len() ==> rates[i] == descent_rates_spec(elevations@, steps@, i),
{
    let mut rates: Vec<i64> = Vec::with_capacity(elevations.len());
    rates.push(0);
    let mut i: usize = 0;
    while i < steps.len()
        invariant
            elevations.len() == steps.len() + 1,
            forall|k: int|
                0 <= k < elevations.len() ==> -MAX_ELEVATION_MM <= #[trigger] elevations[k]
                    <= MAX_ELEVATION_MM,
            i <= steps.len(),
            rates.len() == i + 1,
            forall|k: int|
                0 <= k < rates.len() ==> rates[k] == descent_rates_spec(elevations@, steps@, k),
        decreases steps.len() - i,
    {
        let e0 = elevations[i];
        let e1 = elevations[i + 1];
        let r = descent_rate(e1 - e0, steps[i]);
        rates.push(r);
        i = i + 1;
    }
    rates
}

/// Centred moving average of half-width `half`; near the ends the window
/// shrinks instead of wrapping or padding.
pub fn smooth(rates: &Vec<i64>, half: usize) -> (out: Vec<i64>)
    ensures
        out.len() == rates.len(),
        forall|i: int| 0 <= i < out.len() ==> out[i] == smoothed_at(rates@, half as int, i),
{
    let n = rates.len();
    let mut out: Vec<i64> = Vec::with_capacity(n);
    let mut i: usize = 0;
    while i < n
        invariant
            n == rates.len(),
            i <= n,
            out.len() == i,
            forall|k: int| 0 <= k < i ==> out[k] == smoothed_at(rates@, half as int, k),
        decreases n - i,
    {
        let lo: usize = if i < half {
            0
        } else {
            i - half
        };
        let hi: usize = if half < n - i - 1 {
            i + half + 1
        } else {
            n
        };
        assert(lo == window_start(i as int, half as int));
        assert(hi == window_end(i as int, half as int, n as int));
        let mut sum: i128 = 0;
        let mut j: usize = lo;
        while j < hi
            invariant
                n == rates.len(),
                lo <= j <= hi <= n,
                sum == seq_sum(rates@, lo as int, j as int),
            decreases hi - j,
        {
            proof {
                lemma_sum_bounds(rates@, lo as int, j as int, i64::MIN as int, i64::MAX as int);
                let c = j - lo;
                assert(c * (i64::MIN as int) >= -0x8000_0000_0000_0000_0000_0000_0000_0000 + 0x8000_0000_0000_0000)
                    by (nonlinear_arith)
                    requires
                        0 <= c <= 0xffff_ffff_ffff_fffe,
                ;
                assert(c * (i64::MAX as int) <= 0x7fff_ffff_ffff_ffff_ffff_ffff_ffff_ffff - 0x1_0000_0000_0000_0000)
                    by (nonlinear_arith)
                    requires
                        0 <= c <= 0xffff_ffff_ffff_fffe,
                ;
            }
            sum = sum + rates[j] as i128;
            j = j + 1;
        }
        proof {
            lemma_sum_bounds(rates@, lo as int, hi as int, i64::MIN as int, i64::MAX as int);
            let c = hi - lo;
            assert(c * (i64::MIN as int) >= -0x8000_0000_0000_0000_0000_0000_0000_0000 + 0x8000_0000_0000_0000)
                by (nonlinear_arith)
                requires
                    0 <= c < 0x1_0000_0000_0000_0000,
            ;
            lemma_div_trunc_bounds(sum as int, (hi - lo) as int, i64::MIN as int, i64::MAX as int);
        }
        let q = div_trunc_wide(sum, (hi - lo) as i128);
        out.push(q as i64);
        i = i + 1;
    }
    out
}

/// Smoothed gradient of a track, one value per point.
pub fn smoothed_gradient(elevations: &Vec<i64>, steps: &Vec<u64>) -> (g: Vec<i64>)
    requires
        elevations.len() == steps.len() + 1,
        forall|i: int|
            0 <= i < elevations.len() ==> -MAX_ELEVATION_MM <= #[trigger] elevations[i]
                <= MAX_ELEVATION_MM,
    ensures
        g.len() == elevations.len(),
        forall|i: int|
            0 <= i < g.len() ==> g[i] == smoothed_at(
                Seq::new(elevations.len() as nat, |k: int| descent_rates_spec(elevations@, steps@, k) as i64),
                GRADIENT_HALF_WINDOW as int,
                i,
            ),
{
    let rates = descent_rates(elevations, steps);
    let ghost want = Seq::new(elevations.len() as nat, |k: int| descent_rates_spec(elevations@, steps@, k) as i64);
    assert(rates@ =~= want);
    smooth(&rates, GRADIENT_HALF_WINDOW)
}

/// Smoothing with a window of one point leaves every value as it was.
pub proof fn lemma_smoothing_width_one_is_identity(s: Seq<i64>, i: int)
    requires
        0 <= i < s.len(),
    ensures
        smoothed_at(s, 0, i) == s[i],
{
    assert(window_start(i, 0) == i);
    assert(window_end(i, 0, s.len() as int) == i + 1);
    assert(seq_sum(s, i, i + 1) == seq_sum(s, i, i) + s[i]);
    assert(s[i] as int / 1 == s[i]);
    assert((-s[i]) as int / 1 == -s[i]);
}

/// Every smoothed value lies between any lower and upper bound of the raw
/// rates, in particular between their minimum and maximum.
pub proof fn lemma_smoothing_bounded(s: Seq<i64>, half: int, i: int, lo_bound: int, hi_bound: int)
    requires
        half >= 0,
        0 <= i < s.len(),
        forall|j: int| 0 <= j < s.len() ==> lo_bound <= #[trigger] s[j] <= hi_bound,
    ensures
        lo_bound <= smoothed_at(s, half, i) <= hi_bound,
{
    let lo = window_start(i, half);
    let hi = window_end(i, half, s.len() as int);
    lemma_sum_bounds(s, lo, hi, lo_bound, hi_bound);
    lemma_div_trunc_bounds(seq_sum(s, lo, hi), hi - lo, lo_bound, hi_bound);
}

} // verus!
