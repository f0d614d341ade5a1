use vstd::prelude::*;

verus! {

/// Most spectrum bins a descriptor accepts, so that its sums fit in 128 bits.
pub const MAX_BINS: usize = 1_048_576;

/// Descriptors of a magnitude spectrum of `fft_size` bins taken at `sample_rate` Hz.
/// Magnitudes are fixed-point integers; frequencies are given in millihertz.
pub struct SpectralAnalyzer {
    pub sample_rate: u32,
    pub fft_size: usize,
}

/// `sum_i s[i]`
pub open spec fn mag_sum(s: Seq<u32>) -> int
    decreases s.len(),
{
    if s.len() == 0 { 0 } else { mag_sum(s.drop_last()) + s.last() }
}

/// `sum_i i * s[i]`
pub open spec fn weighted_sum(s: Seq<u32>) -> int
    decreases s.len(),
{
    if s.len() == 0 { 0 } else { weighted_sum(s.drop_last()) + (s.len() - 1) * s.last() }
}

/// `sum_i s[i]^2`
pub open spec fn energy(s: Seq<u32>) -> int
    decreases s.len(),
{
    if s.len() == 0 { 0 } else { energy(s.drop_last()) + s.last() * s.last() }
}

/// `sum_i max(curr[i] - prev[i], 0)^2` over the first `k` bins.
pub open spec fn rise_energy(prev: Seq<u32>, curr: Seq<u32>, k: int) -> int
    decreases k,
{
    if k <= 0 {
        0
    } else {
        let d = curr[k - 1] - prev[k - 1];
        rise_energy(prev, curr, k - 1) + if d > 0 { d * d } else { 0 }
    }
}

/// The frequency of `bin`, in millihertz.
pub open spec fn bin_millihertz(bin: int, sample_rate: int, fft_size: int) -> int {
    bin * sample_rate * 1000 / fft_size
}

/// The energy of the bins up to and including `k` reaches the share `ppm`, in millionths,
/// of the total.
pub open spec fn reaches(s: Seq<u32>, ppm: int, k: int) -> bool {
    energy(s.take(k + 1)) * 1_000_000 >= ppm * energy(s)
}

proof fn lemma_sum_bounds(s: Seq<u32>)
    ensures
        0 <= mag_sum(s) <= s.len() * 0x1_0000_0000,
        0 <= weighted_sum(s) <= s.len() * s.len() * 0x1_0000_0000,
        0 <= energy(s) <= s.len() * 0x1_0000_0000 * 0x1_0000_0000,
    decreases s.len(),
{
    if s.len() > 0 {
        let t = s.drop_last();
        lemma_sum_bounds(t);
        let n = s.len() as int;
        let x = s.last() as int;
        assert((n - 1) * x <= (2 * n - 1) * 0x1_0000_0000) by (nonlinear_arith)
            requires 0 <= x < 0x1_0000_0000, n >= 1;
        assert((n - 1) * (n - 1) * 0x1_0000_0000 + (2 * n - 1) * 0x1_0000_0000 == n * n * 0x1_0000_0000)
            by (nonlinear_arith);
        assert(0 <= x * x <= 0x1_0000_0000 * 0x1_0000_0000) by (nonlinear_arith)
            requires 0 <= x < 0x1_0000_0000;
        assert((n - 1) * 0x1_0000_0000 * 0x1_0000_0000 + 0x1_0000_0000 * 0x1_0000_0000 == n * 0x1_0000_0000
            * 0x1_0000_0000) by (nonlinear_arith);
        assert(0 <= (n - 1) * x) by (nonlinear_arith)
            requires 0 <= x, n >= 1;
    }
}

proof fn lemma_rise_bound(prev: Seq<u32>, curr: Seq<u32>, k: int)
    requires
        0 <= k <= prev.len(),
        k <= curr.len(),
    ensures
        0 <= rise_energy(prev, curr, k) <= k * 0x1_0000_0000 * 0x1_0000_0000,
    decreases k,
{
    if k > 0 {
        lemma_rise_bound(prev, curr, k - 1);
        let d = curr[k - 1] - prev[k - 1];
        if d > 0 {
            assert(d * d <= 0x1_0000_0000 * 0x1_0000_0000) by (nonlinear_arith)
                requires 0 < d < 0x1_0000_0000;
        }
        assert((k - 1) * 0x1_0000_0000 * 0x1_0000_0000 + 0x1_0000_0000 * 0x1_0000_0000 == k * 0x1_0000_0000
            * 0x1_0000_0000) by (nonlinear_arith);
    }
}

/// The integer square root: the largest `r` with `r * r <= x`.
pub fn isqrt(x: u128) -> (r: u64)
    requires
        x < 1_267_650_600_228_229_401_496_703_205_376,
    ensures
        r * r <= x < (r + 1) * (r + 1),
{
    let mut lo: u128 = 0;
    let mut hi: u128 = 1_125_899_906_842_624;
    assert(hi * hi == 1_267_650_600_228_229_401_496_703_205_376);
    while hi - lo > 1
        invariant
            lo < hi <= 1_125_899_906_842_624,
            lo * lo <= x < hi * hi,
        decreases hi - lo,
    {
        let mid = lo + (hi - lo) / 2;
        assert(mid * mid <= 1_125_899_906_842_624 * 1_125_899_906_842_624) by (nonlinear_arith)
            requires mid <= 1_125_899_906_842_624;
        if mid * mid <= x {
            lo = mid;
        } else {
            hi = mid;
        }
    }
    lo as u64
}

impl SpectralAnalyzer {
    pub fn new(sample_rate: u32, fft_size: usize) -> (r: Self)
        ensures
            r.sample_rate == sample_rate,
            r.fft_size == fft_size,
    {
        SpectralAnalyzer { sample_rate, fft_size }
    }

    /// The frequency of `bin`, in millihertz.
    pub fn bin_frequency(&self, bin: usize) -> (r: u128)
        requires
            self.fft_size > 0,
            bin <= MAX_BINS,
        ensures
            r == bin_millihertz(bin as int, self.sample_rate as int, self.fft_size as int),
    {
        assert((bin as int) * (self.sample_rate as int) * 1000 <= MAX_BINS * 0x1_0000_0000 * 1000)
            by (nonlinear_arith)
            requires bin <= MAX_BINS, self.sample_rate < 0x1_0000_0000;
        (bin as u128) * (self.sample_rate as u128) * 1000 / (self.fft_size as u128)
    }

    /// The magnitude-weighted mean frequency, in millihertz; 0 when all magnitudes are 0.
    pub fn spectral_centroid(&self, spectrum: &Vec<u32>) -> (r: u128)
        requires
            self.fft_size > 0,
            spectrum.len() <= MAX_BINS,
        ensures
            mag_sum(spectrum@) == 0 ==> r == 0,
            mag_sum(spectrum@) > 0 ==> r == weighted_sum(spectrum@) * self.sample_rate * 1000 / (
            self.fft_size * mag_sum(spectrum@)),
    {
        let ghost s = spectrum@;
        let mut m: u128 = 0;
        let mut w: u128 = 0;
        let mut i: usize = 0;
        while i < spectrum.len()
            invariant
                s == spectrum@,
                i <= spectrum.len() <= MAX_BINS,
                m == mag_sum(s.take(i as int)),
                w == weighted_sum(s.take(i as int)),
            decreases spectrum.len() - i,
        {
            proof {
                assert(s.take(i + 1).drop_last() == s.take(i as int));
                lemma_sum_bounds(s.take(i + 1));
                assert((i + 1) * (i + 1) * 0x1_0000_0000 <= MAX_BINS * MAX_BINS * 0x1_0000_0000)
                    by (nonlinear_arith)
                    requires i + 1 <= MAX_BINS;
            }
            m = m + spectrum[i] as u128;
            w = w + (i as u128) * (spectrum[i] as u128);
            i = i + 1;
        }
        proof {
            assert(s.take(s.len() as int) == s);
            lemma_sum_bounds(s);
            let n = s.len() as int;
            assert(n * n * 0x1_0000_0000 <= MAX_BINS * MAX_BINS * 0x1_0000_0000) by (nonlinear_arith)
                requires 0 <= n <= MAX_BINS;
            assert(w * self.sample_rate * 1000 <= MAX_BINS * MAX_BINS * 0x1_0000_0000 * 0x1_0000_0000 * 1000)
                by (nonlinear_arith)
                requires
                    w <= MAX_BINS * MAX_BINS * 0x1_0000_0000,
                    self.sample_rate < 0x1_0000_0000;
            assert((self.fft_size as int) * m <= 0x1_0000_0000_0000_0000 * MAX_BINS * 0x1_0000_0000)
                by (nonlinear_arith)
                requires
                    m <= MAX_BINS * 0x1_0000_0000,
                    self.fft_size < 0x1_0000_0000_0000_0000;
        }
        if m == 0 {
            0
        } else {
            assert((self.fft_size as int) * m > 0) by (nonlinear_arith)
                requires self.fft_size > 0, m > 0;
            w * (self.sample_rate as u128) * 1000 / ((self.fft_size as u128) * m)
        }
    }

    /// The frequency, in millihertz, of the first bin at which the cumulative energy
    /// reaches the share `percentile` of the total energy, given in millionths (850_000 for 85%);
    /// the Nyquist frequency if none does.
    pub fn spectral_rolloff(&self, spectrum: &Vec<u32>, percentile: u32) -> (r: u128)
        requires
            self.fft_size > 0,
            spectrum.len() <= MAX_BINS,
        ensures
            (forall|k: int| 0 <= k < spectrum.len() ==> !reaches(spectrum@, percentile as int, k))
                ==> r == (self.sample_rate as int) * 1000 / 2,
            forall|k: int|
                0 <= k < spectrum.len() && reaches(spectrum@, percentile as int, k) && (forall|j: int|
                    0 <= j < k ==> !reaches(spectrum@, percentile as int, j)) ==> r == bin_millihertz(
                    k,
                    self.sample_rate as int,
                    self.fft_size as int,
                ),
    {
        let ghost s = spectrum@;
        let mut total: u128 = 0;
        let mut i: usize = 0;
        while i < spectrum.len()
            invariant
                s == spectrum@,
                i <= spectrum.len() <= MAX_BINS,
                total == energy(s.take(i as int)),
            decreases spectrum.len() - i,
        {
            proof {
                assert(s.take(i + 1).drop_last() == s.take(i as int));
                lemma_sum_bounds(s.take(i + 1));
                assert((i + 1) * 0x1_0000_0000 * 0x1_0000_0000 <= MAX_BINS * 0x1_0000_0000 * 0x1_0000_0000)
                    by (nonlinear_arith)
                    requires i + 1 <= MAX_BINS;
            }
            let x = spectrum[i] as u128;
            total = total + x * x;
            i = i + 1;
        }
        proof {
            assert(s.take(s.len() as int) == s);
            lemma_sum_bounds(s);
            let n = s.len() as int;
            assert(n * 0x1_0000_0000 * 0x1_0000_0000 <= MAX_BINS * 0x1_0000_0000 * 0x1_0000_0000)
                by (nonlinear_arith)
                requires 0 <= n <= MAX_BINS;
            assert(total * percentile <= MAX_BINS * 0x1_0000_0000 * 0x1_0000_0000 * 0x1_0000_0000)
                by (nonlinear_arith)
                requires
                    total <= MAX_BINS * 0x1_0000_0000 * 0x1_0000_0000,
                    percentile < 0x1_0000_0000;
        }
        let threshold = total * (percentile as u128);
        let mut cumulative: u128 = 0;
        let mut k: usize = 0;
        while k < spectrum.len()
            invariant
                s == spectrum@,
                k <= spectrum.len() <= MAX_BINS,
                self.fft_size > 0,
                cumulative == energy(s.take(k as int)),
                threshold == percentile * energy(s),
                forall|j: int| 0 <= j < k ==> !reaches(s, percentile as int, j),
            decreases spectrum.len() - k,
        {
            proof {
                assert(s.take(k + 1).drop_last() == s.take(k as int));
                lemma_sum_bounds(s.take(k + 1));
                assert((k + 1) * 0x1_0000_0000 * 0x1_0000_0000 <= MAX_BINS * 0x1_0000_0000 * 0x1_0000_0000)
                    by (nonlinear_arith)
                    requires k + 1 <= MAX_BINS;
            }
            let x = spectrum[k] as u128;
            cumulative = cumulative + x * x;
            if cumulative * 1_000_000 >= threshold {
                assert(reaches(s, percentile as int, k as int));
                return self.bin_frequency(k);
            }
            k = k + 1;
        }
        (self.sample_rate as u128) * 1000 / 2
    }

    /// The half-wave rectified flux: the integer square root of the summed squares of
    /// the magnitude increases from `prev_spectrum` to `curr_spectrum`, over the bins
    /// that both hold.
    pub fn spectral_flux(prev_spectrum: &Vec<u32>, curr_spectrum: &Vec<u32>) -> (r: u64)
        requires
            prev_spectrum.len() <= MAX_BINS,
        ensures
            ({
                let n = if prev_spectrum.len() < curr_spectrum.len() {
                    prev_spectrum.len() as int
                } else {
                    curr_spectrum.len() as int
                };
                let e = rise_energy(prev_spectrum@, curr_spectrum@, n);
                r * r <= e < (r + 1) * (r + 1)
            }),
    {
        let n = if prev_spectrum.len() < curr_spectrum.len() {
            prev_spectrum.len()
        } else {
            curr_spectrum.len()
        };
        let mut acc: u128 = 0;
        let mut i: usize = 0;
        while i < n
            invariant
                i <= n <= prev_spectrum.len() <= MAX_BINS,
                n <= curr_spectrum.len(),
                acc == rise_energy(prev_spectrum@, curr_spectrum@, i as int),
            decreases n - i,
        {
            proof {
                lemma_rise_bound(prev_spectrum@, curr_spectrum@, i + 1);
                assert((i + 1) * 0x1_0000_0000 * 0x1_0000_0000 <= MAX_BINS * 0x1_0000_0000 * 0x1_0000_0000)
                    by (nonlinear_arith)
                    requires i + 1 <= MAX_BINS;
            }
            let p = prev_spectrum[i];
            let c = curr_spectrum[i];
            if c > p {
                let d = (c - p) as u128;
                acc = acc + d * d;
            }
            i = i + 1;
        }
        proof {
            lemma_rise_bound(prev_spectrum@, curr_spectrum@, n as int);
            assert(n * 0x1_0000_0000 * 0x1_0000_0000 <= MAX_BINS * 0x1_0000_0000 * 0x1_0000_0000)
                by (nonlinear_arith)
                requires n <= MAX_BINS;
            assert(MAX_BINS * 0x1_0000_0000 * 0x1_0000_0000 < 1_267_650_600_228_229_401_496_703_205_376);
        }
        isqrt(acc)
    }
}

} // verus!
