use vstd::prelude::*;
use crate::preprocessing::{abs, frames, frame_count, frame_of, valid_samples, FULL_SCALE};

verus! {

/// Length of an analysis frame, in samples.
pub const WINDOW: usize = 2048;
/// Distance between the starts of consecutive frames, in samples.
pub const HOP: usize = 512;
/// Highest fundamental frequency searched, in Hz.
pub const MAX_F0: u32 = 800;
/// Lowest fundamental frequency searched, in Hz.
pub const MIN_F0: u32 = 80;

/// Estimates the fundamental frequency of each frame by autocorrelation.
/// Frequencies are given in millihertz.
pub struct PitchExtractor {
    pub sample_rate: u32,
}

/// `sum_{i < k} s[i] * s[i + lag]`
pub open spec fn corr(s: Seq<i32>, lag: int, k: int) -> int
    decreases k,
{
    if k <= 0 { 0 } else { corr(s, lag, k - 1) + s[k - 1] * s[k - 1 + lag] }
}

/// The autocorrelation sum at `lag` over all overlapping samples.
pub open spec fn corr_at(s: Seq<i32>, lag: int) -> int {
    corr(s, lag, s.len() - lag)
}

/// The autocorrelation at `lag` divided by its number of terms, rounded toward zero.
pub open spec fn corr_norm(s: Seq<i32>, lag: int) -> int {
    let c = corr_at(s, lag);
    let n = s.len() - lag;
    if c >= 0 { c / n } else { -((-c) / n) }
}

/// The normalized autocorrelation at `a` exceeds the one at `b`
/// (each sum divided by its number of terms).
pub open spec fn corr_gt(s: Seq<i32>, a: int, b: int) -> bool {
    corr_at(s, a) * (s.len() - b) > corr_at(s, b) * (s.len() - a)
}

/// `lag` is the first lag in `[lo, hi)` with the largest normalized autocorrelation;
/// `lo` when the range is empty.
pub open spec fn is_best_lag(s: Seq<i32>, lo: int, hi: int, lag: int) -> bool {
    if hi <= lo {
        lag == lo
    } else {
        &&& lo <= lag < hi
        &&& forall|k: int| lo <= k < hi ==> !corr_gt(s, k, lag)
        &&& forall|k: int| lo <= k < lag ==> corr_gt(s, lag, k)
    }
}

/// Smallest lag searched: the period of `MAX_F0`, at least one sample.
pub open spec fn min_lag(sample_rate: int) -> int {
    if sample_rate / (MAX_F0 as int) >= 1 { sample_rate / (MAX_F0 as int) } else { 1 }
}

/// End (exclusive) of the lags searched: the period of `MIN_F0`, clipped to half the frame.
pub open spec fn max_lag(sample_rate: int, frame_len: int) -> int {
    if sample_rate / (MIN_F0 as int) <= frame_len / 2 {
        sample_rate / (MIN_F0 as int)
    } else {
        frame_len / 2
    }
}

/// `f0` is the estimate, in millihertz, for the frame `s`.
pub open spec fn is_f0_of(sample_rate: int, s: Seq<i32>, f0: int) -> bool {
    exists|lag: int|
        is_best_lag(s, min_lag(sample_rate), max_lag(sample_rate, s.len() as int), lag)
            && f0 == sample_rate * 1000 / lag
}

proof fn lemma_ratio_trans(a: int, na: int, b: int, nb: int, c: int, nc: int)
    requires
        na > 0,
        nb > 0,
        nc > 0,
        a * nb <= b * na,
        b * nc < c * nb,
    ensures
        a * nc < c * na,
{
    assert(a * nb * nc <= b * na * nc) by (nonlinear_arith)
        requires a * nb <= b * na, nc > 0;
    assert(b * nc * na < c * nb * na) by (nonlinear_arith)
        requires b * nc < c * nb, na > 0;
    assert(a * nc * nb < c * na * nb) by (nonlinear_arith)
        requires a * nb * nc <= b * na * nc, b * nc * na < c * nb * na;
    assert(a * nc < c * na) by (nonlinear_arith)
        requires a * nc * nb < c * na * nb, nb > 0;
}

/// The scan picks one lag only: two lags that both meet `is_best_lag` over the same
/// range are equal, so `is_f0_of` fixes the estimate of a frame.
pub proof fn lemma_best_lag_unique(s: Seq<i32>, lo: int, hi: int, a: int, b: int)
    requires
        is_best_lag(s, lo, hi, a),
        is_best_lag(s, lo, hi, b),
    ensures
        a == b,
{
    if lo < hi {
        if a < b {
            assert(corr_gt(s, b, a));
            assert(!corr_gt(s, b, a));
        } else if b < a {
            assert(corr_gt(s, a, b));
            assert(!corr_gt(s, a, b));
        }
    }
}

impl PitchExtractor {
    pub fn new(sample_rate: u32) -> (r: Self)
        ensures
            r.sample_rate == sample_rate,
    {
        PitchExtractor { sample_rate }
    }

    /// The autocorrelation sum of `signal` at `lag`, not divided by its number of terms.
    pub fn autocorrelation_sum(signal: &Vec<i32>, lag: usize) -> (r: i64)
        requires
            lag <= signal.len() <= WINDOW,
            valid_samples(signal@),
        ensures
            r == corr_at(signal@, lag as int),
            abs(r as int) <= (signal.len() - lag) * (FULL_SCALE * FULL_SCALE),
    {
        let n = signal.len() - lag;
        let mut acc: i64 = 0;
        let mut i: usize = 0;
        while i < n
            invariant
                i <= n == signal.len() - lag,
                signal.len() <= WINDOW,
                valid_samples(signal@),
                acc == corr(signal@, lag as int, i as int),
                abs(acc as int) <= i * (FULL_SCALE * FULL_SCALE),
            decreases n - i,
        {
            let x = signal[i] as i64;
            let y = signal[i + lag] as i64;
            assert(abs((x * y) as int) <= FULL_SCALE * FULL_SCALE) by (nonlinear_arith)
                requires abs(x as int) <= FULL_SCALE, abs(y as int) <= FULL_SCALE;
            let ghost p: int = x * y;
            let ghost a: int = acc as int;
            assert(abs(a + p) <= (i + 1) * (FULL_SCALE * FULL_SCALE)) by (nonlinear_arith)
                requires abs(a) <= i * (FULL_SCALE * FULL_SCALE), abs(p) <= FULL_SCALE * FULL_SCALE;
            assert((i + 1) * (FULL_SCALE * FULL_SCALE) <= (WINDOW + 1) * (FULL_SCALE * FULL_SCALE)) by (nonlinear_arith)
                requires i + 1 <= WINDOW + 1;
            assert(corr(signal@, lag as int, i + 1) == a + p);
            acc = acc + x * y;
            i = i + 1;
        }
        acc
    }

    /// The lag-normalized autocorrelation of `signal` at `lag`: the sum of products
    /// divided by its number of terms, rounded toward zero.
    pub fn autocorrelation_at_lag(signal: &Vec<i32>, lag: usize) -> (r: i64)
        requires
            lag < signal.len() <= WINDOW,
            valid_samples(signal@),
        ensures
            r == corr_norm(signal@, lag as int),
    {
        let c = Self::autocorrelation_sum(signal, lag);
        let n = (signal.len() - lag) as i64;
        assert((signal.len() - lag) * (FULL_SCALE * FULL_SCALE) <= WINDOW * (FULL_SCALE * FULL_SCALE))
            by (nonlinear_arith)
            requires signal.len() - lag <= WINDOW;
        if c >= 0 {
            c / n
        } else {
            -((-c) / n)
        }
    }

    /// The lag in `[lo, hi)` with the largest normalized autocorrelation; see `is_best_lag`.
    pub fn best_lag(signal: &Vec<i32>, lo: usize, hi: usize) -> (r: usize)
        requires
            lo >= 1,
            hi <= signal.len() / 2,
            signal.len() <= WINDOW,
            valid_samples(signal@),
        ensures
            is_best_lag(signal@, lo as int, hi as int, r as int),
    {
        let len = signal.len();
        let ghost s = signal@;
        if hi <= lo {
            return lo;
        }
        let mut best: usize = lo;
        let mut best_c: i64 = Self::autocorrelation_sum(signal, lo);
        let mut best_n: i64 = (len - lo) as i64;
        proof {
            assert((len - lo) * (FULL_SCALE * FULL_SCALE) <= len * (FULL_SCALE * FULL_SCALE)) by (nonlinear_arith)
                requires lo <= len;
        }
        let mut lag: usize = lo + 1;
        while lag < hi
            invariant
                s == signal@,
                len == signal.len() <= WINDOW,
                valid_samples(s),
                1 <= lo < hi <= len / 2,
                lo <= best < lag <= hi,
                best_c == corr_at(s, best as int),
                best_n == len - best,
                forall|k: int| lo <= k < lag ==> !corr_gt(s, k, best as int),
                forall|k: int| lo <= k < best ==> corr_gt(s, best as int, k),
                abs(best_c as int) <= len * (FULL_SCALE * FULL_SCALE),
                1 <= best_n <= len,
            decreases hi - lag,
        {
            let c = Self::autocorrelation_sum(signal, lag);
            let n = (len - lag) as i64;
            assert((len - lag) * (FULL_SCALE * FULL_SCALE) <= len * (FULL_SCALE * FULL_SCALE)) by (nonlinear_arith)
                requires lag <= len;
            assert(abs(c * best_n) <= WINDOW * WINDOW * (FULL_SCALE * FULL_SCALE)) by (nonlinear_arith)
                requires
                    abs(c as int) <= len * (FULL_SCALE * FULL_SCALE),
                    1 <= best_n <= len, len <= WINDOW;
            assert(abs(best_c * n) <= WINDOW * WINDOW * (FULL_SCALE * FULL_SCALE)) by (nonlinear_arith)
                requires
                    abs(best_c as int) <= len * (FULL_SCALE * FULL_SCALE),
                    1 <= n <= len <= WINDOW;
            let ghost old_best = best;
            if (c as i128) * (best_n as i128) > (best_c as i128) * (n as i128) {
                proof {
                    assert(corr_gt(s, lag as int, old_best as int));
                    assert forall|k: int| lo <= k < lag + 1 implies !corr_gt(s, k, lag as int) by {
                        if k < lag {
                            assert(!corr_gt(s, k, old_best as int));
                            lemma_ratio_trans(
                                corr_at(s, k), len - k,
                                best_c as int, best_n as int,
                                c as int, n as int,
                            );
                        }
                    }
                    assert forall|k: int| lo <= k < lag implies corr_gt(s, lag as int, k) by {
                        assert(!corr_gt(s, k, old_best as int));
                        lemma_ratio_trans(
                            corr_at(s, k), len - k,
                            best_c as int, best_n as int,
                            c as int, n as int,
                        );
                    }
                }
                best = lag;
                best_c = c;
                best_n = n;
            } else {
                proof {
                    assert(!corr_gt(s, lag as int, best as int));
                }
            }
            lag = lag + 1;
        }
        best
    }

    /// The fundamental frequency, in millihertz, of one frame.
    pub fn autocorrelation_pitch(&self, frame: &Vec<i32>) -> (r: u64)
        requires
            frame.len() <= WINDOW,
            valid_samples(frame@),
        ensures
            is_f0_of(self.sample_rate as int, frame@, r as int),
    {
        let by_max = self.sample_rate / MAX_F0;
        let lo: usize = if by_max >= 1 { by_max as usize } else { 1 };
        let by_min = (self.sample_rate / MIN_F0) as usize;
        let hi: usize = if by_min <= frame.len() / 2 { by_min } else { frame.len() / 2 };
        let lag = Self::best_lag(frame, lo, hi);
        let ghost g = lag as int;
        assert(is_best_lag(frame@, min_lag(self.sample_rate as int),
            max_lag(self.sample_rate as int, frame.len() as int), g));
        assert(lag >= 1);
        (self.sample_rate as u64) * 1000 / (lag as u64)
    }

    /// One estimate, in millihertz, for each frame of `WINDOW` samples whose start is a
    /// multiple of `HOP` inside the buffer.
    pub fn extract_f0(&self, samples: &Vec<i32>) -> (r: Vec<u64>)
        requires
            valid_samples(samples@),
        ensures
            frame_count(samples.len() as int, HOP as int, r.len() as int),
            forall|k: int|
                0 <= k < r.len() ==> is_f0_of(
                    self.sample_rate as int,
                    frame_of(samples@, k * HOP, WINDOW as int),
                    #[trigger] r[k] as int,
                ),
    {
        let fs = frames(samples, WINDOW, HOP);
        let mut r: Vec<u64> = Vec::new();
        let mut k: usize = 0;
        while k < fs.len()
            invariant
                k <= fs.len(),
                r.len() == k,
                frame_count(samples.len() as int, HOP as int, fs.len() as int),
                valid_samples(samples@),
                forall|j: int| 0 <= j < fs.len() ==> #[trigger] fs[j]@ == frame_of(samples@, j * HOP, WINDOW as int),
                forall|j: int|
                    0 <= j < k ==> is_f0_of(
                        self.sample_rate as int,
                        frame_of(samples@, j * HOP, WINDOW as int),
                        #[trigger] r[j] as int,
                    ),
            decreases fs.len() - k,
        {
            let ghost f = fs[k as int]@;
            assert(f == frame_of(samples@, k * HOP, WINDOW as int));
            assert(k * HOP <= (fs.len() - 1) * HOP) by (nonlinear_arith)
                requires k <= fs.len() - 1;
            assert(k * HOP < samples.len());
            assert forall|i: int| 0 <= i < f.len() implies abs(f[i] as int) <= FULL_SCALE by {
                assert(f[i] == samples@[k * HOP + i]);
            }
            let e = self.autocorrelation_pitch(&fs[k]);
            r.push(e);
            k = k + 1;
        }
        r
    }
}

} // verus!
