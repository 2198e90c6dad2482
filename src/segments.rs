use crate::geo::TrackPoint;
use vstd::prelude::*;

verus! {

/// A maximal run of consecutive steps sharing one colour: steps
/// `start .. end`, that is points `start ..= end` of the track.
#[derive(Clone, Copy, Debug, PartialEq, Eq, Structural)]
pub struct Run {
    pub start: usize,
    pub end: usize,
    pub color: u32,
}

/// A stretch of a track drawn in one colour.
#[derive(Clone, Debug)]
pub struct Segment {
    pub points: Vec<TrackPoint>,
    pub color: u32,
}

/// `runs` splits the step colours `colors` into maximal one-colour runs,
/// in order and without gaps.
pub open spec fn runs_of(colors: Seq<u32>, runs: Seq<Run>) -> bool {
    &&& (colors.len() == 0 <==> runs.len() == 0)
    &&& runs.len() > 0 ==> runs[0].start == 0 && runs.last().end == colors.len()
    &&& forall|k: int| 0 <= k < runs.len() ==> #[trigger] runs[k].start < runs[k].end
    &&& forall|k: int| 0 <= k < runs.len() ==> #[trigger] runs[k].end <= colors.len()
    &&& forall|k: int| 0 <= k < runs.len() - 1 ==> #[trigger] runs[k].end == runs[k + 1].start
    &&& forall|k: int| 0 <= k < runs.len() - 1 ==> #[trigger] runs[k].color != runs[k + 1].color
    &&& forall|k: int, j: int|
        0 <= k < runs.len() && runs[k].start <= j < runs[k].end ==> #[trigger] colors[j]
            == #[trigger] runs[k].color
}

/// Segment `k` holds exactly the points of run `k`, in its colour.
pub open spec fn segments_of_runs(points: Seq<TrackPoint>, runs: Seq<Run>, segs: Seq<Segment>) -> bool {
    &&& segs.len() == runs.len()
    &&& forall|k: int|
        0 <= k < segs.len() ==> (#[trigger] segs[k]).points@ == points.subrange(
            runs[k].start as int,
            runs[k].end + 1,
        ) && segs[k].color == runs[k].color
}

/// Splits the colours of the steps of a track into maximal runs.
pub fn color_runs(colors: &Vec<u32>) -> (runs: Vec<Run>)
    ensures
        runs_of(colors@, runs@),
{
    let mut runs: Vec<Run> = Vec::new();
    let n = colors.len();
    if n == 0 {
        return runs;
    }
    let mut start: usize = 0;
    let mut cur: u32 = colors[0];
    let mut j: usize = 1;
    while j < n
        invariant
            n == colors.len(),
            0 <= start < j <= n,
            cur == colors[start as int],
            forall|t: int| start <= t < j ==> colors[t] == cur,
            runs.len() == 0 ==> start == 0,
            runs.len() > 0 ==> runs[0].start == 0 && runs@.last().end == start
                && runs@.last().color != cur,
            forall|k: int| 0 <= k < runs.len() ==> #[trigger] runs[k].start < runs[k].end,
            forall|k: int| 0 <= k < runs.len() ==> #[trigger] runs[k].end <= start,
            forall|k: int|
                0 <= k < runs.len() - 1 ==> #[trigger] runs[k].end == runs[k + 1].start,
            forall|k: int|
                0 <= k < runs.len() - 1 ==> #[trigger] runs[k].color != runs[k + 1].color,
            forall|k: int, t: int|
                0 <= k < runs.len() && runs[k].start <= t < runs[k].end ==> #[trigger] colors[t]
                    == #[trigger] runs[k].color,
        decreases n - j,
    {
        if colors[j] != cur {
            runs.push(Run { start, end: j, color: cur });
            start = j;
            cur = colors[j];
        }
        j = j + 1;
    }
    runs.push(Run { start, end: n, color: cur });
    runs
}

/// Copies the points of each run into a segment of its colour.
pub fn segments_from_runs(points: &Vec<TrackPoint>, runs: &Vec<Run>) -> (segs: Vec<Segment>)
    requires
        forall|k: int|
            0 <= k < runs.len() ==> #[trigger] runs[k].start <= runs[k].end && runs[k].end
                < points.len(),
    ensures
        segments_of_runs(points@, runs@, segs@),
{
    let mut segs: Vec<Segment> = Vec::with_capacity(runs.len());
    let mut k: usize = 0;
    while k < runs.len()
        invariant
            k <= runs.len(),
            forall|q: int|
                0 <= q < runs.len() ==> #[trigger] runs[q].start <= runs[q].end && runs[q].end
                    < points.len(),
            segs.len() == k,
            forall|q: int|
                0 <= q < k ==> (#[trigger] segs[q]).points@ == points@.subrange(
                    runs[q].start as int,
                    runs[q].end + 1,
                ) && segs[q].color == runs[q].color,
        decreases runs.len() - k,
    {
        let run = runs[k];
        let mut pts: Vec<TrackPoint> = Vec::with_capacity(run.end - run.start + 1);
        let mut i: usize = run.start;
        while i <= run.end
            invariant
                run.start <= i <= run.end + 1,
                run.end < points.len(),
                pts@ == points@.subrange(run.start as int, i as int),
            decreases run.end + 1 - i,
        {
            pts.push(points[i]);
            i = i + 1;
        }
        segs.push(Segment { points: pts, color: run.color });
        k = k + 1;
    }
    segs
}

/// Cuts a track into one-colour segments, `colors[i]` being the colour of
/// the step from point `i` to point `i + 1`. A new segment starts at the
/// point where the previous one ends, so the chain stays continuous.
pub fn coalesce(points: &Vec<TrackPoint>, colors: &Vec<u32>) -> (segs: Vec<Segment>)
    requires
        colors.len() + 1 == points.len() || (points.len() == 0 && colors.len() == 0),
    ensures
        exists|runs: Seq<Run>| runs_of(colors@, runs) && segments_of_runs(points@, runs, segs@),
        points.len() < 2 ==> segs.len() == 0,
        forall|k: int| 0 <= k < segs.len() ==> (#[trigger] segs[k]).points.len() >= 2,
        forall|k: int|
            0 <= k < segs.len() - 1 ==> (#[trigger] segs[k]).points@.last()
                == segs[k + 1].points@[0],
        segs.len() > 0 ==> segs[0].points@[0] == points@[0] && segs@.last().points@.last()
            == points@.last(),
{
    let runs = color_runs(colors);
    let segs = segments_from_runs(points, &runs);
    assert forall|k: int| 0 <= k < segs.len() implies (#[trigger] segs[k]).points.len() >= 2 by {
        assert(runs[k].start < runs[k].end);
        assert(segs[k].points@ == points@.subrange(runs[k].start as int, runs[k].end + 1));
    }
    assert forall|k: int| 0 <= k < segs.len() - 1 implies (#[trigger] segs[k]).points@.last()
        == segs[k + 1].points@[0] by {
        assert(runs[k].end == runs[k + 1].start);
        assert(segs[k].points@ == points@.subrange(runs[k].start as int, runs[k].end + 1));
        assert(segs[k + 1].points@ == points@.subrange(
            runs[k + 1].start as int,
            runs[k + 1].end + 1,
        ));
        assert(runs[k].start < runs[k].end);
        assert(runs[k + 1].start < runs[k + 1].end);
    }
    if segs.len() > 0 {
        let ghost last = (segs.len() - 1) as int;
        assert(segs[0].points@ == points@.subrange(runs[0].start as int, runs[0].end + 1));
        assert(segs[last].points@ == points@.subrange(
            runs[last].start as int,
            runs[last].end + 1,
        ));
        assert(runs[last].start < runs[last].end);
        assert(runs[0].start < runs[0].end);
    }
    segs
}

} // verus!
