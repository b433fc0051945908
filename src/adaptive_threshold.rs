use vstd::prelude::*;

verus! {

/// Self-tuning correspondence-distance threshold. Residuals are the
/// discrepancy between the predicted and the optimised motion of a scan, in
/// the library's length unit. Only residuals above `min_motion_th` count;
/// the threshold is their root mean square, never below `min_motion_th`,
/// and `initial_threshold` until a residual has counted.
pub struct AdaptiveThreshold {
    pub min_motion_th: u64,
    pub initial_threshold: u64,
    /// Sum of the squares of the counted residuals (saturating).
    pub model_sse: u128,
    /// Number of counted residuals (saturating).
    pub num_samples: u64,
}

/// `r` is the integer square root of `n`.
pub open spec fn is_isqrt(n: int, r: int) -> bool {
    0 <= r && r * r <= n < (r + 1) * (r + 1)
}

pub open spec fn max_of(a: int, b: int) -> int {
    if a >= b {
        a
    } else {
        b
    }
}

/// The integer square root of a non-negative `n`.
pub open spec fn isqrt_of(n: int) -> int {
    choose|r: int| is_isqrt(n, r)
}

proof fn lemma_isqrt_unique(n: int, a: int, b: int)
    requires
        is_isqrt(n, a),
        is_isqrt(n, b),
    ensures
        a == b,
{
    if a < b {
        assert((a + 1) * (a + 1) <= b * b) by (nonlinear_arith)
            requires
                0 <= a < b,
        ;
    } else if b < a {
        assert((b + 1) * (b + 1) <= a * a) by (nonlinear_arith)
            requires
                0 <= b < a,
        ;
    }
}

/// The state after recording one residual.
pub open spec fn recorded(t: AdaptiveThreshold, model_deviation: u32) -> AdaptiveThreshold {
    if model_deviation <= t.min_motion_th {
        t
    } else {
        AdaptiveThreshold {
            model_sse: t.model_sse.saturating_add((model_deviation * model_deviation) as u128),
            num_samples: t.num_samples.saturating_add(1),
            ..t
        }
    }
}

/// The state after recording `deviations` in order.
pub open spec fn recorded_all(t: AdaptiveThreshold, deviations: Seq<u32>) -> AdaptiveThreshold
    decreases deviations.len(),
{
    if deviations.len() == 0 {
        t
    } else {
        recorded(recorded_all(t, deviations.drop_last()), deviations.last())
    }
}

/// The threshold that a state gives.
pub open spec fn threshold(t: AdaptiveThreshold) -> int {
    let sigma = if t.num_samples == 0 {
        t.initial_threshold as int
    } else {
        isqrt_of((t.model_sse as int) / (t.num_samples as int))
    };
    max_of(sigma, t.min_motion_th as int)
}

/// Integer square root, by bisection.
pub fn isqrt(n: u128) -> (r: u64)
    ensures
        is_isqrt(n as int, r as int),
{
    let mut lo: u128 = 0;
    let mut hi: u128 = 0x1_0000_0000_0000_0000;
    assert(n < hi * hi) by (nonlinear_arith)
        requires
            n <= 0xffff_ffff_ffff_ffff_ffff_ffff_ffff_ffff,
            hi == 0x1_0000_0000_0000_0000,
    ;
    while hi - lo > 1
        invariant
            lo < hi <= 0x1_0000_0000_0000_0000,
            lo * lo <= n,
            n < hi * hi,
        decreases hi - lo,
    {
        let mid = lo + (hi - lo) / 2;
        assert(mid * mid <= 0xffff_ffff_ffff_fffe_0000_0000_0000_0001) by (nonlinear_arith)
            requires
                mid < 0x1_0000_0000_0000_0000,
        ;
        if mid * mid <= n {
            lo = mid;
        } else {
            hi = mid;
        }
    }
    assert(hi == lo + 1);
    lo as u64
}

impl AdaptiveThreshold {
    pub fn new(min_motion_th: u64, initial_threshold: u64) -> (r: AdaptiveThreshold)
        ensures
            r.min_motion_th == min_motion_th,
            r.initial_threshold == initial_threshold,
            r.model_sse == 0,
            r.num_samples == 0,
    {
        AdaptiveThreshold { min_motion_th, initial_threshold, model_sse: 0, num_samples: 0 }
    }

    /// Records the residual of one scan.
    pub fn update(&mut self, model_deviation: u32)
        ensures
            *final(self) == recorded(*old(self), model_deviation),
    {
        if (model_deviation as u64) > self.min_motion_th {
            let d = model_deviation as u128;
            assert(d * d <= 0xffff_fffe_0000_0001) by (nonlinear_arith)
                requires
                    d <= 0xffff_ffff,
            ;
            self.model_sse = self.model_sse.saturating_add(d * d);
            self.num_samples = self.num_samples.saturating_add(1);
        }
    }

    /// The threshold for the next scan.
    pub fn current_threshold(&self) -> (r: u64)
        ensures
            r == threshold(*self),
            r >= self.min_motion_th,
    {
        let sigma = if self.num_samples == 0 {
            self.initial_threshold
        } else {
            let m = self.model_sse / (self.num_samples as u128);
            let r = isqrt(m);
            proof {
                let c = isqrt_of(m as int);
                assert(is_isqrt(m as int, c));
                lemma_isqrt_unique(m as int, r as int, c);
            }
            r
        };
        if sigma >= self.min_motion_th {
            sigma
        } else {
            self.min_motion_th
        }
    }
}

/// Whatever residuals are recorded, the threshold never falls below
/// `min_motion_th`, which recording leaves unchanged.
pub proof fn lemma_threshold_floor(t: AdaptiveThreshold, deviations: Seq<u32>)
    ensures
        recorded_all(t, deviations).min_motion_th == t.min_motion_th,
        threshold(recorded_all(t, deviations)) >= t.min_motion_th,
    decreases deviations.len(),
{
    if deviations.len() > 0 {
        lemma_threshold_floor(t, deviations.drop_last());
    }
}

} // verus!
