use vstd::prelude::*;

verus! {

/// Where a time falls in a history of pose sample times.
#[derive(Debug, Clone, Copy, PartialEq, Eq, Structural)]
pub enum PoseBracket {
    /// At or outside the sampled span: the sample at this index is used as is.
    At(usize),
    /// Strictly inside the span, between samples `prev` and `prev + 1`:
    /// `elapsed` time units after sample `prev`, out of `span` (> 0) between the two.
    Between { prev: usize, elapsed: u64, span: u64 },
}

/// What deskewing a batch needs: the bracket of the reference (latest point)
/// time and the bracket of each point's capture time, in point order.
#[derive(Debug, Clone)]
pub struct DeskewPlan {
    pub reference_time: u64,
    pub reference: PoseBracket,
    pub points: Vec<PoseBracket>,
}

/// Sample times are strictly increasing.
pub open spec fn strictly_increasing(times: Seq<u64>) -> bool {
    forall|i: int| 0 < i < times.len() ==> times[i - 1] < #[trigger] times[i]
}

/// `b` is the bracket of time `t` in the non-empty `times`: clamped to the
/// first or the last sample outside the span, else the pair around `t`
/// found by scanning forward for the first later sample.
pub open spec fn brackets(times: Seq<u64>, t: u64, b: PoseBracket) -> bool {
    let n = times.len();
    if t <= times[0] {
        b == PoseBracket::At(0)
    } else if t >= times[n - 1] {
        b == PoseBracket::At((n - 1) as usize)
    } else {
        match b {
            PoseBracket::At(_) => false,
            PoseBracket::Between { prev, elapsed, span } => {
                &&& prev + 1 < n
                &&& forall|j: int| 0 < j <= prev ==> #[trigger] times[j] <= t
                &&& t < times[prev + 1]
                &&& times[prev as int] <= t
                &&& elapsed == t - times[prev as int]
                &&& span == times[prev + 1] - times[prev as int]
                &&& span > 0
            },
        }
    }
}

/// The largest of the non-empty `ts`.
pub open spec fn is_max_of(ts: Seq<u64>, m: u64) -> bool {
    &&& exists|i: int| 0 <= i < ts.len() && ts[i] == m
    &&& forall|i: int| 0 <= i < ts.len() ==> #[trigger] ts[i] <= m
}

/// Whether the sample times are strictly increasing.
pub fn pose_times_valid(times: &Vec<u64>) -> (r: bool)
    ensures
        r == strictly_increasing(times@),
{
    let mut i: usize = 1;
    while i < times.len()
        invariant
            1 <= i,
            forall|k: int| 0 < k < i && k < times.len() ==> times@[k - 1] < #[trigger] times@[k],
        decreases times.len() - i,
    {
        if times[i - 1] >= times[i] {
            return false;
        }
        i = i + 1;
    }
    true
}

/// The bracket of time `t` in the sample times; `None` when there is no
/// sample.
pub fn locate_pose(times: &Vec<u64>, t: u64) -> (r: Option<PoseBracket>)
    ensures
        r is None <==> times.len() == 0,
        r matches Some(b) ==> brackets(times@, t, b),
{
    let n = times.len();
    if n == 0 {
        return None;
    }
    if t <= times[0] {
        return Some(PoseBracket::At(0));
    }
    if t >= times[n - 1] {
        return Some(PoseBracket::At(n - 1));
    }
    let mut j: usize = 1;
    while times[j] <= t
        invariant
            1 <= j < n,
            n == times.len(),
            times@[n - 1] > t,
            forall|k: int| 0 < k < j ==> #[trigger] times@[k] <= t,
        decreases n - j,
    {
        j = j + 1;
    }
    let prev = j - 1;
    Some(PoseBracket::Between { prev, elapsed: t - times[prev], span: times[j] - times[prev] })
}

/// The latest of the capture times; `None` for none.
pub fn scan_end_time(point_times: &Vec<u64>) -> (r: Option<u64>)
    ensures
        r is None <==> point_times.len() == 0,
        r matches Some(m) ==> is_max_of(point_times@, m),
{
    if point_times.len() == 0 {
        return None;
    }
    let mut m = point_times[0];
    let mut i: usize = 1;
    while i < point_times.len()
        invariant
            1 <= i <= point_times.len(),
            exists|k: int| 0 <= k < i && point_times@[k] == m,
            forall|k: int| 0 <= k < i ==> #[trigger] point_times@[k] <= m,
        decreases point_times.len() - i,
    {
        if point_times[i] > m {
            m = point_times[i];
        }
        i = i + 1;
    }
    Some(m)
}

/// Plans the deskew of a batch whose points were captured at `point_times`,
/// against pose samples taken at `pose_times`. There is nothing to do (and
/// `None` comes back) for an empty batch, fewer than two samples, or sample
/// times that are not strictly increasing.
pub fn deskew_plan(point_times: &Vec<u64>, pose_times: &Vec<u64>) -> (r: Option<DeskewPlan>)
    ensures
        r is None <==> (point_times.len() == 0 || pose_times.len() < 2 || !strictly_increasing(
            pose_times@,
        )),
        r matches Some(plan) ==> {
            &&& is_max_of(point_times@, plan.reference_time)
            &&& brackets(pose_times@, plan.reference_time, plan.reference)
            &&& plan.points@.len() == point_times@.len()
            &&& forall|i: int|
                0 <= i < point_times@.len() ==> brackets(
                    pose_times@,
                    point_times@[i],
                    #[trigger] plan.points@[i],
                )
        },
{
    if pose_times.len() < 2 || !pose_times_valid(pose_times) {
        return None;
    }
    let reference_time = match scan_end_time(point_times) {
        Some(m) => m,
        None => {
            return None;
        },
    };
    let reference = match locate_pose(pose_times, reference_time) {
        Some(b) => b,
        None => {
            return None;
        },
    };
    let mut points: Vec<PoseBracket> = Vec::new();
    let mut i: usize = 0;
    while i < point_times.len()
        invariant
            i <= point_times.len(),
            pose_times.len() >= 2,
            points@.len() == i,
            forall|k: int|
                0 <= k < i ==> brackets(pose_times@, point_times@[k], #[trigger] points@[k]),
        decreases point_times.len() - i,
    {
        match locate_pose(pose_times, point_times[i]) {
            Some(b) => points.push(b),
            None => {
                return None;
            },
        }
        i = i + 1;
    }
    Some(DeskewPlan { reference_time, reference, points })
}

} // verus!
