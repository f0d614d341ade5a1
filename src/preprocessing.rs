use vstd::prelude::*;

verus! {

/// Magnitude that stands for an amplitude of 1.0: samples are fixed-point values
/// with 23 fractional bits, so a valid sample lies in `[-FULL_SCALE, FULL_SCALE]`.
pub const FULL_SCALE: i32 = 8_388_608;

pub open spec fn abs(x: int) -> int {
    if x < 0 { -x } else { x }
}

/// Every sample lies within full scale.
pub open spec fn valid_samples(s: Seq<i32>) -> bool {
    forall|i: int| 0 <= i < s.len() ==> abs(s[i] as int) <= FULL_SCALE
}

/// The largest absolute sample value, 0 for an empty buffer.
pub open spec fn max_abs(s: Seq<i32>) -> int
    decreases s.len(),
{
    if s.len() == 0 {
        0
    } else {
        let m = max_abs(s.drop_last());
        let a = abs(s.last() as int);
        if a > m { a } else { m }
    }
}

/// The sum of all samples.
pub open spec fn sum(s: Seq<i32>) -> int
    decreases s.len(),
{
    if s.len() == 0 { 0 } else { sum(s.drop_last()) + s.last() as int }
}

/// `x` scaled by `FULL_SCALE / m`, rounded toward zero.
pub open spec fn scaled(x: int, m: int) -> int {
    if x >= 0 { x * FULL_SCALE / m } else { -((-x) * FULL_SCALE / m) }
}

/// The samples of `s` from `start` on, at most `w` of them.
pub open spec fn frame_of(s: Seq<i32>, start: int, w: int) -> Seq<i32> {
    s.subrange(start, if start + w < s.len() { start + w } else { s.len() as int })
}

/// `count` is the number of starts `0, hop, 2*hop, ...` that lie below `n`.
pub open spec fn frame_count(n: int, hop: int, count: int) -> bool {
    &&& (n == 0 ==> count == 0)
    &&& (n > 0 ==> (count - 1) * hop < n <= count * hop)
}

/// `r` holds, in order, the frames of length `w` of `s` that start at `0, hop, 2*hop, ...`
/// while the start lies inside `s`; the last ones may be shorter than `w`.
pub open spec fn frames_of(s: Seq<i32>, w: int, hop: int, r: Seq<Vec<i32>>) -> bool {
    &&& frame_count(s.len() as int, hop, r.len() as int)
    &&& forall|k: int| 0 <= k < r.len() ==> #[trigger] r[k]@ == frame_of(s, k * hop, w)
}

proof fn lemma_max_abs_bounds(s: Seq<i32>)
    ensures
        forall|i: int| 0 <= i < s.len() ==> abs(s[i] as int) <= max_abs(s),
        max_abs(s) >= 0,
        s.len() > 0 ==> exists|i: int| 0 <= i < s.len() && abs(s[i] as int) == max_abs(s),
    decreases s.len(),
{
    if s.len() > 0 {
        let t = s.drop_last();
        lemma_max_abs_bounds(t);
        assert forall|i: int| 0 <= i < s.len() implies abs(s[i] as int) <= max_abs(s) by {
            if i < t.len() {
                assert(s[i] == t[i]);
            }
        }
        if abs(s.last() as int) <= max_abs(t) && t.len() > 0 {
            let j = choose|j: int| 0 <= j < t.len() && abs(t[j] as int) == max_abs(t);
            assert(s[j] == t[j]);
        } else {
            assert(abs(s[s.len() - 1] as int) == max_abs(s));
        }
    }
}

proof fn lemma_sum_shift(s: Seq<i32>, r: Seq<i32>, c: int)
    requires
        r.len() == s.len(),
        forall|i: int| 0 <= i < s.len() ==> r[i] == s[i] - c,
    ensures
        sum(r) == sum(s) - s.len() * c,
    decreases s.len(),
{
    if s.len() > 0 {
        lemma_sum_shift(s.drop_last(), r.drop_last(), c);
        assert(sum(r) == sum(r.drop_last()) + r.last());
        assert(sum(s) == sum(s.drop_last()) + s.last());
        assert(r.last() == s.last() - c);
        let n = s.len() as int;
        assert(n * c == (n - 1) * c + c) by (nonlinear_arith);
    } else {
        assert(0 * c == 0);
    }
}

proof fn lemma_max_abs_attains(s: Seq<i32>, i: int)
    requires
        0 <= i < s.len(),
        forall|k: int| 0 <= k < s.len() ==> abs(s[k] as int) <= abs(s[i] as int),
    ensures
        max_abs(s) == abs(s[i] as int),
{
    lemma_max_abs_bounds(s);
}

/// Copies the samples from `start` on, at most `w` of them.
fn copy_frame(samples: &Vec<i32>, start: usize, w: usize) -> (r: Vec<i32>)
    requires
        start < samples.len(),
    ensures
        r@ == frame_of(samples@, start as int, w as int),
{
    let end: usize = if w < samples.len() - start { start + w } else { samples.len() };
    let mut r: Vec<i32> = Vec::new();
    let mut i: usize = start;
    while i < end
        invariant
            start <= i <= end <= samples.len(),
            r@ == samples@.subrange(start as int, i as int),
        decreases end - i,
    {
        r.push(samples[i]);
        i = i + 1;
    }
    r
}

/// Cuts the samples into frames of `window` samples whose starts are `hop` apart.
pub fn frames(samples: &Vec<i32>, window: usize, hop: usize) -> (r: Vec<Vec<i32>>)
    requires
        hop > 0,
    ensures
        frames_of(samples@, window as int, hop as int, r@),
{
    let n = samples.len();
    let mut r: Vec<Vec<i32>> = Vec::new();
    if n == 0 {
        return r;
    }
    let mut start: usize = 0;
    assert(r.len() * hop == 0) by (nonlinear_arith)
        requires r.len() == 0;
    loop
        invariant
            n == samples.len() > 0,
            hop > 0,
            start < n,
            start == r.len() * hop,
            forall|k: int|
                0 <= k < r.len() ==> #[trigger] r[k]@ == frame_of(samples@, k * hop, window as int),
        decreases n - start,
    {
        let f = copy_frame(samples, start, window);
        r.push(f);
        proof {
            assert(r[r.len() - 1]@ == frame_of(samples@, (r.len() - 1) * hop, window as int));
        }
        if hop >= n - start {
            proof {
                assert((r.len() - 1) * hop == start);
                assert(r.len() * hop == start + hop) by (nonlinear_arith)
                    requires (r.len() - 1) * hop == start;
            }
            return r;
        }
        proof {
            assert(r.len() * hop == start + hop) by (nonlinear_arith)
                requires (r.len() - 1) * hop == start;
        }
        start = start + hop;
    }
}

/// Conditioning of a sample buffer before analysis.
pub struct AudioPreprocessor;

impl AudioPreprocessor {
    /// Scales the samples so that the largest absolute value becomes exactly full scale.
    /// A buffer whose samples are all zero comes back unchanged.
    pub fn normalize(samples: &Vec<i32>) -> (r: Vec<i32>)
        requires
            valid_samples(samples@),
        ensures
            r.len() == samples.len(),
            max_abs(samples@) == 0 ==> r@ == samples@,
            max_abs(samples@) > 0 ==> forall|i: int|
                0 <= i < r.len() ==> r[i] == scaled(samples[i] as int, max_abs(samples@)),
            max_abs(samples@) > 0 ==> max_abs(r@) == FULL_SCALE,
            valid_samples(r@),
    {
        let n = samples.len();
        let mut m: i64 = 0;
        let mut i: usize = 0;
        while i < n
            invariant
                i <= n == samples.len(),
                m == max_abs(samples@.take(i as int)),
                0 <= m <= FULL_SCALE,
                valid_samples(samples@),
            decreases n - i,
        {
            let x = samples[i] as i64;
            let a: i64 = if x < 0 { -x } else { x };
            proof {
                assert(samples@.take(i + 1).drop_last() == samples@.take(i as int));
            }
            if a > m {
                m = a;
            }
            i = i + 1;
        }
        proof {
            assert(samples@.take(n as int) == samples@);
            lemma_max_abs_bounds(samples@);
        }
        if m == 0 {
            return samples.clone();
        }
        let mut r: Vec<i32> = Vec::new();
        let mut j: usize = 0;
        while j < n
            invariant
                j <= n == samples.len(),
                r.len() == j,
                m == max_abs(samples@) > 0,
                valid_samples(samples@),
                forall|k: int| 0 <= k < samples.len() ==> abs(samples[k] as int) <= m,
                forall|k: int| 0 <= k < j ==> r[k] == scaled(samples[k] as int, m as int),
                forall|k: int| 0 <= k < j ==> abs(r[k] as int) <= FULL_SCALE,
            decreases n - j,
        {
            let x = samples[j] as i64;
            let a: i64 = if x < 0 { -x } else { x };
            assert(a <= m);
            assert((a as int) * 8_388_608 / (m as int) <= 8_388_608) by (nonlinear_arith)
                requires a <= m, m > 0, a >= 0;
            let q: i64 = a * 8_388_608 / m;
            let y: i64 = if x >= 0 { q } else { -q };
            r.push(y as i32);
            j = j + 1;
        }
        proof {
            let mi = choose|k: int| 0 <= k < samples.len() && abs(samples[k] as int) == max_abs(samples@);
            let am = abs(samples[mi] as int);
            assert(am * FULL_SCALE / am == FULL_SCALE) by (nonlinear_arith)
                requires am > 0;
            assert(abs(r[mi] as int) == FULL_SCALE);
            lemma_max_abs_bounds(r@);
            lemma_max_abs_attains(r@, mi);
        }
        r
    }

    /// Partitions the samples into consecutive chunks of `window_size`; the last chunk
    /// may be shorter and is kept.
    pub fn apply_window(samples: &Vec<i32>, window_size: usize) -> (r: Vec<Vec<i32>>)
        requires
            window_size > 0,
        ensures
            frames_of(samples@, window_size as int, window_size as int, r@),
    {
        frames(samples, window_size, window_size)
    }

    /// Subtracts the mean of the samples, rounded down, from every sample; the result then
    /// sums to a value in `[0, len)`, a mean of less than one unit.
    pub fn remove_dc_offset(samples: &Vec<i32>) -> (r: Vec<i32>)
        requires
            samples.len() > 0,
            valid_samples(samples@),
        ensures
            r.len() == samples.len(),
            forall|i: int|
                0 <= i < r.len() ==> r[i] == samples[i] - sum(samples@) / (samples.len() as int),
            0 <= sum(r@) < samples.len(),
            abs(sum(r@)) * 100_000 <= FULL_SCALE * samples.len(),
    {
        let n = samples.len();
        let mut total: i128 = 0;
        let mut i: usize = 0;
        while i < n
            invariant
                i <= n == samples.len(),
                total == sum(samples@.take(i as int)),
                abs(total as int) <= i * FULL_SCALE,
                valid_samples(samples@),
            decreases n - i,
        {
            proof {
                assert(samples@.take(i + 1).drop_last() == samples@.take(i as int));
            }
            total = total + samples[i] as i128;
            i = i + 1;
        }
        proof {
            assert(samples@.take(n as int) == samples@);
        }
        let nn = n as i128;
        let mean: i128 = if total >= 0 {
            total / nn
        } else {
            -((-total + nn - 1) / nn)
        };
        proof {
            let t = total as int;
            let d = n as int;
            if t < 0 {
                assert(-((-t + d - 1) / d) == t / d) by (nonlinear_arith)
                    requires t < 0, d > 0;
            }
            assert(abs(t / d) <= FULL_SCALE) by (nonlinear_arith)
                requires abs(t) <= d * FULL_SCALE, d > 0;
        }
        let mut r: Vec<i32> = Vec::new();
        let mut j: usize = 0;
        while j < n
            invariant
                j <= n == samples.len(),
                r.len() == j,
                mean == sum(samples@) / (n as int),
                abs(mean as int) <= FULL_SCALE,
                valid_samples(samples@),
                forall|k: int| 0 <= k < j ==> r[k] == samples[k] - mean,
            decreases n - j,
        {
            r.push((samples[j] as i128 - mean) as i32);
            j = j + 1;
        }
        proof {
            lemma_sum_shift(samples@, r@, mean as int);
            let t = sum(samples@);
            let d = n as int;
            assert(0 <= t - d * (t / d) < d) by (nonlinear_arith)
                requires d > 0;
            let z = sum(r@);
            assert(z * 100_000 <= FULL_SCALE * d) by (nonlinear_arith)
                requires 0 <= z < d;
        }
        r
    }
}

} // verus!
