use vstd::prelude::*;
use crate::preprocessing::{frames, frames_of};
use crate::spectral::MAX_BINS;

verus! {

/// Lowest frequency, in Hz, whose energy counts toward a pitch class (exclusive).
pub const MIN_CHROMA_HZ: u64 = 80;
/// Highest frequency, in Hz, whose energy counts toward a pitch class (exclusive).
pub const MAX_CHROMA_HZ: u64 = 2000;

/// Frames the signal for chroma analysis and decides which spectrum bins count
/// toward which pitch class.
pub struct ChromagramExtractor {
    pub sample_rate: u32,
    pub fft_size: usize,
}

/// The frequency of `bin`, `bin * sample_rate / fft_size`, lies strictly between
/// `MIN_CHROMA_HZ` and `MAX_CHROMA_HZ`.
pub open spec fn bin_in_band(bin: int, sample_rate: int, fft_size: int) -> bool {
    &&& bin * sample_rate > MIN_CHROMA_HZ * fft_size
    &&& bin * sample_rate < MAX_CHROMA_HZ * fft_size
}

/// The pitch class of a MIDI note number, 0 for C.
pub open spec fn pitch_class_of(midi: int) -> int {
    midi % 12
}

/// A chroma value of `CHROMA_UNIT` stands for the whole in-band energy of a frame.
pub const CHROMA_UNIT: u64 = 1_000_000;

/// The bin `k` lies in band and its note has pitch class `c`.
pub open spec fn bin_counts_for(ex: ChromagramExtractor, midis: Seq<i64>, k: int, c: int) -> bool {
    bin_in_band(k, ex.sample_rate as int, ex.fft_size as int) && pitch_class_of(midis[k] as int) == c
}

/// The magnitudes of the first `k` bins that count toward pitch class `c`, summed.
pub open spec fn class_energy_upto(
    ex: ChromagramExtractor,
    mags: Seq<u32>,
    midis: Seq<i64>,
    c: int,
    k: int,
) -> int
    decreases k,
{
    if k <= 0 {
        0
    } else {
        class_energy_upto(ex, mags, midis, c, k - 1) + if bin_counts_for(ex, midis, k - 1, c) {
            mags[k - 1] as int
        } else {
            0
        }
    }
}

/// The magnitudes of the first `k` bins that lie in band, summed.
pub open spec fn band_energy_upto(ex: ChromagramExtractor, mags: Seq<u32>, k: int) -> int
    decreases k,
{
    if k <= 0 {
        0
    } else {
        band_energy_upto(ex, mags, k - 1) + if bin_in_band(
            k - 1,
            ex.sample_rate as int,
            ex.fft_size as int,
        ) {
            mags[k - 1] as int
        } else {
            0
        }
    }
}

/// The in-band energy that falls on pitch class `c`.
pub open spec fn class_energy(ex: ChromagramExtractor, mags: Seq<u32>, midis: Seq<i64>, c: int) -> int {
    class_energy_upto(ex, mags, midis, c, mags.len() as int)
}

/// The in-band energy of all pitch classes together.
pub open spec fn band_energy(ex: ChromagramExtractor, mags: Seq<u32>, midis: Seq<i64>) -> int {
    band_energy_upto(ex, mags, mags.len() as int)
}

/// The energies of pitch classes `0` to `c - 1` after `k` bins, summed.
pub open spec fn classes_below(ex: ChromagramExtractor, mags: Seq<u32>, midis: Seq<i64>, c: int, k: int) -> int
    decreases c,
{
    if c <= 0 { 0 } else { classes_below(ex, mags, midis, c - 1, k) + class_energy_upto(ex, mags, midis, c - 1, k) }
}

/// `r[0] + ... + r[c - 1]`
pub open spec fn prefix_sum(r: Seq<u64>, c: int) -> int
    decreases c,
{
    if c <= 0 { 0 } else { prefix_sum(r, c - 1) + r[c - 1] }
}

/// The twelve chroma values summed.
pub open spec fn sum12(r: Seq<u64>) -> int {
    prefix_sum(r, 12)
}

proof fn lemma_classes_step(ex: ChromagramExtractor, mags: Seq<u32>, midis: Seq<i64>, c: int, k: int)
    requires
        0 <= c <= 12,
        1 <= k <= mags.len(),
        k <= midis.len(),
    ensures
        classes_below(ex, mags, midis, c, k) == classes_below(ex, mags, midis, c, k - 1) + if bin_in_band(
            k - 1,
            ex.sample_rate as int,
            ex.fft_size as int,
        ) && pitch_class_of(midis[k - 1] as int) < c {
            mags[k - 1] as int
        } else {
            0
        },
    decreases c,
{
    if c > 0 {
        lemma_classes_step(ex, mags, midis, c - 1, k);
    }
}

proof fn lemma_band_is_sum_of_classes(ex: ChromagramExtractor, mags: Seq<u32>, midis: Seq<i64>, k: int)
    requires
        0 <= k <= mags.len(),
        k <= midis.len(),
    ensures
        band_energy_upto(ex, mags, k) == classes_below(ex, mags, midis, 12, k),
    decreases k,
{
    if k > 0 {
        lemma_band_is_sum_of_classes(ex, mags, midis, k - 1);
        lemma_classes_step(ex, mags, midis, 12, k);
    } else {
        lemma_classes_zero(ex, mags, midis, 12);
    }
}

proof fn lemma_classes_zero(ex: ChromagramExtractor, mags: Seq<u32>, midis: Seq<i64>, c: int)
    requires
        0 <= c,
    ensures
        classes_below(ex, mags, midis, c, 0) == 0,
    decreases c,
{
    if c > 0 {
        lemma_classes_zero(ex, mags, midis, c - 1);
    }
}

impl ChromagramExtractor {
    pub fn new(sample_rate: u32, fft_size: usize) -> (r: Self)
        ensures
            r.sample_rate == sample_rate,
            r.fft_size == fft_size,
    {
        ChromagramExtractor { sample_rate, fft_size }
    }

    /// Distance between the starts of consecutive frames: a quarter of the FFT size.
    pub fn hop_size(&self) -> (r: usize)
        ensures
            r == self.fft_size / 4,
    {
        self.fft_size / 4
    }

    /// Number of spectrum bins examined: those below the Nyquist frequency.
    pub fn bin_count(&self) -> (r: usize)
        ensures
            r == self.fft_size / 2,
    {
        self.fft_size / 2
    }

    /// Frames of `fft_size` samples whose starts are a quarter of that apart.
    pub fn frames(&self, samples: &Vec<i32>) -> (r: Vec<Vec<i32>>)
        requires
            self.fft_size >= 4,
        ensures
            frames_of(samples@, self.fft_size as int, (self.fft_size / 4) as int, r@),
    {
        frames(samples, self.fft_size, self.hop_size())
    }

    /// Whether the energy of `bin` counts toward a pitch class.
    pub fn in_band(&self, bin: usize) -> (r: bool)
        ensures
            r == bin_in_band(bin as int, self.sample_rate as int, self.fft_size as int),
    {
        proof {
            let b = bin as int;
            let n = self.fft_size as int;
            let r = self.sample_rate as int;
            assert(b * r <= 0x1_0000_0000_0000_0000 * 0x1_0000_0000) by (nonlinear_arith)
                requires 0 <= b < 0x1_0000_0000_0000_0000, 0 <= r < 0x1_0000_0000;
            assert(80 * n <= 2000 * 0x1_0000_0000_0000_0000 && 2000 * n <= 2000 * 0x1_0000_0000_0000_0000) by (nonlinear_arith)
                requires 0 <= n < 0x1_0000_0000_0000_0000;
        }
        let f = (bin as u128) * (self.sample_rate as u128);
        let lo = (MIN_CHROMA_HZ as u128) * (self.fft_size as u128);
        let hi = (MAX_CHROMA_HZ as u128) * (self.fft_size as u128);
        f > lo && f < hi
    }

    /// The pitch class, 0 to 11 with 0 for C, of a MIDI note number.
    pub fn pitch_class(midi: i64) -> (r: usize)
        ensures
            r == pitch_class_of(midi as int),
            r < 12,
    {
        if midi >= 0 {
            ((midi as u64) % 12) as usize
        } else {
            let a: u128 = (0 - (midi as i128)) as u128;
            let m: u128 = a % 12;
            proof {
                let x = midi as int;
                let am = (-x) % 12;
                assert(am == 0 ==> x % 12 == 0) by (nonlinear_arith)
                    requires am == (-x) % 12, x < 0;
                assert(am != 0 ==> x % 12 == 12 - am) by (nonlinear_arith)
                    requires am == (-x) % 12, x < 0;
            }
            if m == 0 { 0 } else { (12 - m) as usize }
        }
    }

    /// Sums the in-band magnitudes by pitch class and scales the 12 sums to shares of
    /// `CHROMA_UNIT`, rounded down; all zero when no in-band energy exists.
    pub fn chroma_vector(&self, magnitudes: &Vec<u32>, midi_of_bin: &Vec<i64>) -> (r: Vec<u64>)
        requires
            magnitudes.len() == midi_of_bin.len(),
            magnitudes.len() <= MAX_BINS,
        ensures
            r.len() == 12,
            band_energy(*self, magnitudes@, midi_of_bin@) == 0 ==> forall|c: int|
                0 <= c < 12 ==> r[c] == 0,
            band_energy(*self, magnitudes@, midi_of_bin@) > 0 ==> forall|c: int|
                0 <= c < 12 ==> r[c] == class_energy(*self, magnitudes@, midi_of_bin@, c)
                    * CHROMA_UNIT / band_energy(*self, magnitudes@, midi_of_bin@),
            band_energy(*self, magnitudes@, midi_of_bin@) > 0 ==> CHROMA_UNIT - 12 < sum12(r@)
                <= CHROMA_UNIT,
    {
        let ghost ex = *self;
        let ghost mags = magnitudes@;
        let ghost midis = midi_of_bin@;
        let mut e: Vec<u128> = vec![0, 0, 0, 0, 0, 0, 0, 0, 0, 0, 0, 0];
        let mut band: u128 = 0;
        let mut k: usize = 0;
        while k < magnitudes.len()
            invariant
                ex == *self,
                mags == magnitudes@,
                midis == midi_of_bin@,
                magnitudes.len() == midi_of_bin.len() <= MAX_BINS,
                k <= magnitudes.len(),
                e.len() == 12,
                band == band_energy_upto(ex, mags, k as int),
                band <= k * 0x1_0000_0000,
                forall|c: int| 0 <= c < 12 ==> #[trigger] e[c] == class_energy_upto(ex, mags, midis, c, k as int),
                forall|c: int| 0 <= c < 12 ==> #[trigger] e[c] <= k * 0x1_0000_0000,
            decreases magnitudes.len() - k,
        {
            if self.in_band(k) {
                let c = Self::pitch_class(midi_of_bin[k]);
                let m = magnitudes[k] as u128;
                e.set(c, e[c] + m);
                band = band + m;
            }
            k = k + 1;
        }
        let mut r: Vec<u64> = Vec::new();
        if band == 0 {
            r = vec![0, 0, 0, 0, 0, 0, 0, 0, 0, 0, 0, 0];
            return r;
        }
        proof {
            lemma_band_is_sum_of_classes(ex, mags, midis, mags.len() as int);
        }
        let mut c: usize = 0;
        while c < 12
            invariant
                ex == *self,
                mags == magnitudes@,
                midis == midi_of_bin@,
                k == magnitudes.len(),
                e.len() == 12,
                0 < band,
                band == band_energy_upto(ex, mags, k as int),
                band == classes_below(ex, mags, midis, 12, k as int),
                band <= MAX_BINS * 0x1_0000_0000,
                forall|j: int| 0 <= j < 12 ==> #[trigger] e[j] == class_energy_upto(ex, mags, midis, j, k as int),
                c <= 12,
                r.len() == c,
                forall|j: int| 0 <= j < c ==> #[trigger] r[j] == (e[j] as int) * CHROMA_UNIT / (band as int),
                prefix_sum(r@, c as int) * band <= CHROMA_UNIT * classes_below(ex, mags, midis, c as int, k as int),
                c > 0 ==> (prefix_sum(r@, c as int) + c) * band > CHROMA_UNIT * classes_below(ex, mags, midis, c as int, k as int),
            decreases 12 - c,
        {
            proof {
                lemma_class_le_band(ex, mags, midis, c as int, k as int);
            }
            let ghost ec = e[c as int] as int;
            let ghost b = band as int;
            assert(ec * CHROMA_UNIT <= b * CHROMA_UNIT) by (nonlinear_arith)
                requires 0 <= ec <= b;
            assert(ec * CHROMA_UNIT / b <= CHROMA_UNIT) by (nonlinear_arith)
                requires ec * CHROMA_UNIT <= b * CHROMA_UNIT, b > 0;
            let q = e[c] * (CHROMA_UNIT as u128) / band;
            let ghost p = prefix_sum(r@, c as int);
            let ghost cb = classes_below(ex, mags, midis, c as int, k as int);
            let ghost old_r = r@;
            r.push(q as u64);
            proof {
                let qi = q as int;
                assert(qi * b <= ec * CHROMA_UNIT < (qi + 1) * b) by (nonlinear_arith)
                    requires qi == ec * CHROMA_UNIT / b, b > 0;
                lemma_prefix_sum_push(r@, c as int);
                lemma_prefix_sum_ext(r@, old_r, c as int);
                assert(prefix_sum(r@, c + 1) == p + qi);
                assert(classes_below(ex, mags, midis, c + 1, k as int) == cb + ec);
                assert((p + qi) * b <= CHROMA_UNIT * (cb + ec)) by (nonlinear_arith)
                    requires p * b <= CHROMA_UNIT * cb, qi * b <= ec * CHROMA_UNIT;
                if c > 0 {
                    assert((p + qi + c + 1) * b > CHROMA_UNIT * (cb + ec)) by (nonlinear_arith)
                        requires (p + c) * b > CHROMA_UNIT * cb, ec * CHROMA_UNIT < (qi + 1) * b;
                } else {
                    assert((p + qi + c + 1) * b > CHROMA_UNIT * (cb + ec)) by (nonlinear_arith)
                        requires p == 0, cb == 0, c == 0, ec * CHROMA_UNIT < (qi + 1) * b;
                }
            }
            c = c + 1;
        }
        proof {
            let b = band as int;
            let t = prefix_sum(r@, 12);
            assert(t <= CHROMA_UNIT) by (nonlinear_arith)
                requires t * b <= CHROMA_UNIT * b, b > 0;
            assert(t + 12 > CHROMA_UNIT) by (nonlinear_arith)
                requires (t + 12) * b > CHROMA_UNIT * b, b > 0;
        }
        r
    }
}

proof fn lemma_prefix_sum_push(r: Seq<u64>, c: int)
    requires
        0 <= c,
        r.len() == c + 1,
    ensures
        prefix_sum(r, c + 1) == prefix_sum(r, c) + r[c],
{
}

proof fn lemma_prefix_sum_ext(r: Seq<u64>, t: Seq<u64>, c: int)
    requires
        0 <= c <= r.len(),
        c <= t.len(),
        forall|j: int| 0 <= j < c ==> r[j] == t[j],
    ensures
        prefix_sum(r, c) == prefix_sum(t, c),
    decreases c,
{
    if c > 0 {
        lemma_prefix_sum_ext(r, t, c - 1);
    }
}

proof fn lemma_class_le_band(ex: ChromagramExtractor, mags: Seq<u32>, midis: Seq<i64>, c: int, k: int)
    requires
        0 <= c < 12,
        0 <= k,
    ensures
        class_energy_upto(ex, mags, midis, c, k) <= classes_below(ex, mags, midis, 12, k),
        0 <= class_energy_upto(ex, mags, midis, c, k),
{
    lemma_classes_nonneg(ex, mags, midis, 12, k);
    lemma_class_nonneg(ex, mags, midis, c, k);
    lemma_classes_split(ex, mags, midis, c, 12, k);
}

proof fn lemma_class_nonneg(ex: ChromagramExtractor, mags: Seq<u32>, midis: Seq<i64>, c: int, k: int)
    ensures
        0 <= class_energy_upto(ex, mags, midis, c, k),
    decreases k,
{
    if k > 0 {
        lemma_class_nonneg(ex, mags, midis, c, k - 1);
    }
}

proof fn lemma_classes_nonneg(ex: ChromagramExtractor, mags: Seq<u32>, midis: Seq<i64>, c: int, k: int)
    ensures
        0 <= classes_below(ex, mags, midis, c, k),
    decreases c,
{
    if c > 0 {
        lemma_classes_nonneg(ex, mags, midis, c - 1, k);
        lemma_class_nonneg(ex, mags, midis, c - 1, k);
    }
}

proof fn lemma_classes_split(ex: ChromagramExtractor, mags: Seq<u32>, midis: Seq<i64>, c: int, d: int, k: int)
    requires
        0 <= c < d,
    ensures
        classes_below(ex, mags, midis, d, k) >= class_energy_upto(ex, mags, midis, c, k),
    decreases d,
{
    lemma_class_nonneg(ex, mags, midis, d - 1, k);
    lemma_classes_nonneg(ex, mags, midis, d - 1, k);
    if c < d - 1 {
        lemma_classes_split(ex, mags, midis, c, d - 1, k);
    }
}

} // verus!
