use vstd::prelude::*;
use crate::raag_db::{Note, Raag, RaagDatabase, Ratio};

verus! {

/// Fixed-point unit of a scale degree: a degree of `UNIT` is the tonic itself.
pub const UNIT: u64 = 1_000_000;
/// How far, in thousandths, a degree may lie from a note's ratio and still count as
/// that note (about 34 cents).
pub const TOLERANCE: u64 = 20;
/// Percentage of voiced degrees that the best raag must cover to be reported.
pub const MIN_COVERAGE: u64 = 60;

/// Infers the tonic and matches scale-degree profiles against a knowledge base.
pub struct RaagClassifier {
    pub database: RaagDatabase,
}

/// How often `v` occurs in `s`.
pub open spec fn occurrences(s: Seq<i32>, v: i32) -> nat
    decreases s.len(),
{
    if s.len() == 0 {
        0
    } else {
        occurrences(s.drop_last(), v) + if s.last() == v { 1nat } else { 0nat }
    }
}

/// `v` is the most frequent value of `s`, the lowest one among equally frequent values.
pub open spec fn is_mode(s: Seq<i32>, v: i32) -> bool {
    &&& occurrences(s, v) > 0
    &&& forall|t: i32| occurrences(s, t) <= occurrences(s, v)
    &&& forall|t: i32| occurrences(s, t) == occurrences(s, v) ==> v <= t
}

/// Lowest pitch, in millihertz, that counts toward the tonic (exclusive).
pub const MIN_TONIC_MHZ: u64 = 80_000;
/// Highest pitch, in millihertz, that counts toward the tonic (exclusive).
pub const MAX_TONIC_MHZ: u64 = 2_000_000;

/// The estimates of `s` that lie strictly between `MIN_TONIC_MHZ` and `MAX_TONIC_MHZ`,
/// in order.
pub open spec fn in_tonic_range(s: Seq<u64>) -> Seq<u64>
    decreases s.len(),
{
    if s.len() == 0 {
        Seq::empty()
    } else {
        let f = s.last();
        if MIN_TONIC_MHZ < f < MAX_TONIC_MHZ {
            in_tonic_range(s.drop_last()).push(f)
        } else {
            in_tonic_range(s.drop_last())
        }
    }
}

/// The degree of `f` against `tonic`, in units of `1 / UNIT`; 0 for an unvoiced frame.
pub open spec fn degree_of(f: int, tonic: int) -> int {
    if f > 0 { f * UNIT / tonic } else { 0 }
}

/// A pitch equal to the tonic has exactly the unit degree.
pub proof fn lemma_tonic_has_unit_degree(f: int)
    requires
        f > 0,
    ensures
        degree_of(f, f) == UNIT,
{
    assert(f * UNIT / f == UNIT) by (nonlinear_arith)
        requires f > 0;
}

/// The MIDI number of A4, the tonic when no estimate lies in range.
pub const A4_SEMITONE: i32 = 69;

/// The scale degree of each pitch of a contour against `tonic`.
pub open spec fn degrees_of(contour: Seq<u64>, tonic: int) -> Seq<u64> {
    Seq::new(contour.len(), |i: int| degree_of(contour[i] as int, tonic) as u64)
}

/// Halves a degree until it lies below two octaves' worth of the unit.
pub open spec fn fold_down(d: nat) -> nat
    decreases d,
{
    if d >= 2 * UNIT { fold_down(d / 2) } else { d }
}

/// Doubles a positive degree until it reaches the unit.
pub open spec fn fold_up(d: nat) -> nat
    decreases if d < UNIT { UNIT - d } else { 0 },
{
    if 0 < d < UNIT { fold_up(2 * d) } else { d }
}

/// A voiced degree moved by whole octaves into `[UNIT, 2 * UNIT)`.
pub open spec fn fold(d: nat) -> nat {
    fold_up(fold_down(d))
}

/// The degree `d` lies within `TOLERANCE` thousandths of the ratio `q`.
pub open spec fn near(d: int, q: Ratio) -> bool {
    &&& d * q.den * 1000 >= q.num * UNIT * (1000 - TOLERANCE)
    &&& d * q.den * 1000 <= q.num * UNIT * (1000 + TOLERANCE)
}

pub open spec fn near_any(d: int, notes: Seq<Note>) -> bool {
    exists|i: int| 0 <= i < notes.len() && near(d, #[trigger] notes[i].frequency_ratio)
}

/// Some note of the raag (its scales, vadi, samvadi or a phrase) lies near `d`.
pub open spec fn covers(r: Raag, d: int) -> bool {
    ||| near_any(d, r.aroha@)
    ||| near_any(d, r.avaroha@)
    ||| near(d, r.vadi.frequency_ratio)
    ||| near(d, r.samvadi.frequency_ratio)
    ||| exists|p: int|
        0 <= p < r.characteristic_phrases.len()
            && near_any(d, #[trigger] r.characteristic_phrases[p].notes@)
}

/// The number of voiced degrees.
pub open spec fn voiced(degrees: Seq<u64>) -> nat
    decreases degrees.len(),
{
    if degrees.len() == 0 {
        0
    } else {
        voiced(degrees.drop_last()) + if degrees.last() > 0 { 1nat } else { 0nat }
    }
}

/// The number of voiced degrees that, folded into one octave, the raag covers.
pub open spec fn score(r: Raag, degrees: Seq<u64>) -> nat
    decreases degrees.len(),
{
    if degrees.len() == 0 {
        0
    } else {
        score(r, degrees.drop_last()) + if degrees.last() > 0 && covers(
            r,
            fold(degrees.last() as nat) as int,
        ) {
            1nat
        } else {
            0nat
        }
    }
}

/// Raag `i` is reported: it covers at least `MIN_COVERAGE` percent of the voiced
/// degrees, and strictly more of them than any other raag.
pub open spec fn is_winner(raags: Seq<Raag>, degrees: Seq<u64>, i: int) -> bool {
    &&& 0 <= i < raags.len()
    &&& voiced(degrees) > 0
    &&& score(raags[i], degrees) * 100 >= MIN_COVERAGE * voiced(degrees)
    &&& forall|j: int|
        0 <= j < raags.len() && j != i ==> score(raags[j], degrees) < score(raags[i], degrees)
}

proof fn lemma_occurrences_pos(s: Seq<i32>, v: i32)
    requires
        occurrences(s, v) > 0,
    ensures
        exists|j: int| 0 <= j < s.len() && s[j] == v,
    decreases s.len(),
{
    if s.last() != v {
        lemma_occurrences_pos(s.drop_last(), v);
        let j = choose|j: int| 0 <= j < s.len() - 1 && s.drop_last()[j] == v;
        assert(s[j] == v);
    }
}

proof fn lemma_voiced_le(s: Seq<u64>)
    ensures
        voiced(s) <= s.len(),
    decreases s.len(),
{
    if s.len() > 0 {
        lemma_voiced_le(s.drop_last());
    }
}

proof fn lemma_score_le(r: Raag, s: Seq<u64>)
    ensures
        score(r, s) <= voiced(s),
    decreases s.len(),
{
    if s.len() > 0 {
        lemma_score_le(r, s.drop_last());
    }
}

proof fn lemma_occurrences_two(s: Seq<i32>, v: i32, t: i32)
    requires
        v != t,
    ensures
        occurrences(s, v) + occurrences(s, t) <= s.len(),
    decreases s.len(),
{
    if s.len() > 0 {
        lemma_occurrences_two(s.drop_last(), v, t);
    }
}

/// A pitch contour dominated by one semitone, occurring in more than half of the
/// in-range estimates, has that semitone as its tonic.
pub proof fn lemma_dominant_semitone_is_tonic(semitones: Seq<i32>, v: i32, r: i32)
    requires
        occurrences(semitones, v) * 2 > semitones.len(),
        is_mode(semitones, r),
    ensures
        r == v,
{
    if r != v {
        lemma_occurrences_two(semitones, v, r);
        assert(occurrences(semitones, v) <= occurrences(semitones, r));
    }
}

/// How often `v` occurs in `s`.
fn count_of(s: &Vec<i32>, v: i32) -> (r: usize)
    ensures
        r == occurrences(s@, v),
{
    let mut c: usize = 0;
    let mut i: usize = 0;
    while i < s.len()
        invariant
            i <= s.len(),
            c == occurrences(s@.take(i as int), v),
            c <= i,
        decreases s.len() - i,
    {
        proof {
            assert(s@.take(i + 1).drop_last() == s@.take(i as int));
        }
        if s[i] == v {
            c = c + 1;
        }
        i = i + 1;
    }
    assert(s@.take(s.len() as int) == s@);
    c
}

/// Whether the ratio `q` lies near the degree `d`.
fn is_near(d: u64, q: Ratio) -> (r: bool)
    requires
        d < 2 * UNIT,
    ensures
        r == near(d as int, q),
{
    assert((d as int) * (q.den as int) <= 2 * UNIT * 0x1_0000_0000) by (nonlinear_arith)
        requires d < 2 * UNIT, q.den < 0x1_0000_0000;
    assert((q.num as int) * UNIT * 980 <= UNIT * 0x1_0000_0000 * 1020 && (q.num as int) * UNIT * 1020 <= UNIT * 0x1_0000_0000 * 1020) by (nonlinear_arith)
        requires q.num < 0x1_0000_0000;
    let lhs = (d as u128) * (q.den as u128) * 1000;
    let base = (q.num as u128) * (UNIT as u128);
    lhs >= base * ((1000 - TOLERANCE) as u128) && lhs <= base * ((1000 + TOLERANCE) as u128)
}

fn near_any_exec(d: u64, notes: &Vec<Note>) -> (r: bool)
    requires
        d < 2 * UNIT,
    ensures
        r == near_any(d as int, notes@),
{
    let mut i: usize = 0;
    while i < notes.len()
        invariant
            i <= notes.len(),
            d < 2 * UNIT,
            forall|k: int| 0 <= k < i ==> !near(d as int, #[trigger] notes@[k].frequency_ratio),
        decreases notes.len() - i,
    {
        if is_near(d, notes[i].frequency_ratio) {
            return true;
        }
        i = i + 1;
    }
    false
}

/// Whether some note of `r` lies near the degree `d`.
pub fn raag_covers(r: &Raag, d: u64) -> (b: bool)
    requires
        d < 2 * UNIT,
    ensures
        b == covers(*r, d as int),
{
    if near_any_exec(d, &r.aroha) || near_any_exec(d, &r.avaroha) || is_near(d, r.vadi.frequency_ratio)
        || is_near(d, r.samvadi.frequency_ratio) {
        return true;
    }
    let mut p: usize = 0;
    while p < r.characteristic_phrases.len()
        invariant
            p <= r.characteristic_phrases.len(),
            d < 2 * UNIT,
            forall|k: int|
                0 <= k < p ==> !near_any(d as int, #[trigger] r.characteristic_phrases@[k].notes@),
        decreases r.characteristic_phrases.len() - p,
    {
        if near_any_exec(d, &r.characteristic_phrases[p].notes) {
            return true;
        }
        p = p + 1;
    }
    false
}

/// Moves a voiced degree by whole octaves into `[UNIT, 2 * UNIT)`.
pub fn fold_octave(d: u64) -> (r: u64)
    requires
        d > 0,
    ensures
        r == fold(d as nat),
        UNIT <= r < 2 * UNIT,
{
    let mut x = d;
    while x >= 2 * UNIT
        invariant
            fold_down(x as nat) == fold_down(d as nat),
            x > 0,
        decreases x,
    {
        x = x / 2;
    }
    assert(fold_down(d as nat) == x);
    while x < UNIT
        invariant
            fold_up(x as nat) == fold(d as nat),
            0 < x < 2 * UNIT,
        decreases 2 * UNIT - x,
    {
        x = x * 2;
    }
    x
}

impl RaagClassifier {
    /// A classifier over the database of common raags.
    pub fn new() -> (r: Self)
        ensures
            r.database.well_formed(),
            r.database.raags.len() == 1,
            r.database.raags[0].name@ == "Yaman"@,
    {
        RaagClassifier { database: RaagDatabase::new() }
    }

    /// A classifier over the given database.
    pub fn with_database(database: RaagDatabase) -> (r: Self)
        ensures
            r.database == database,
    {
        RaagClassifier { database }
    }

    /// The tonic semitone (MIDI number): the most frequent in-range semitone, the lowest
    /// on a tie, or A4 (69) when there is none.
    pub fn tonic_semitone(semitones: &Vec<i32>) -> (r: i32)
        ensures
            semitones.len() == 0 ==> r == A4_SEMITONE,
            semitones.len() > 0 ==> is_mode(semitones@, r),
    {
        match Self::estimate_tonic(semitones) {
            Some(s) => s,
            None => A4_SEMITONE,
        }
    }

    /// The raag matched by a pitch contour, in millihertz, against the tonic `tonic`,
    /// also in millihertz: the contour's scale degrees matched as `find_best_raag_match`
    /// does.
    pub fn classify_with_tonic(&self, pitch_contour: &Vec<u64>, tonic: u64) -> (r: Option<String>)
        requires
            tonic > 0,
            forall|i: int| 0 <= i < pitch_contour.len() ==> pitch_contour[i] * UNIT <= u64::MAX,
        ensures
            r.is_some() <==> exists|i: int|
                is_winner(self.database.raags@, degrees_of(pitch_contour@, tonic as int), i),
            r.is_some() ==> exists|i: int|
                is_winner(self.database.raags@, degrees_of(pitch_contour@, tonic as int), i)
                    && r.unwrap()@ == self.database.raags@[i].name@,
    {
        let degrees = Self::analyze_scale_degrees(pitch_contour, tonic);
        assert(degrees@ =~= degrees_of(pitch_contour@, tonic as int));
        self.find_best_raag_match(&degrees)
    }

    /// The pitch estimates, in millihertz, that count toward the tonic.
    pub fn tonic_candidates(pitch_contour: &Vec<u64>) -> (r: Vec<u64>)
        ensures
            r@ == in_tonic_range(pitch_contour@),
    {
        let mut r: Vec<u64> = Vec::new();
        let mut i: usize = 0;
        while i < pitch_contour.len()
            invariant
                i <= pitch_contour.len(),
                r@ == in_tonic_range(pitch_contour@.take(i as int)),
            decreases pitch_contour.len() - i,
        {
            proof {
                assert(pitch_contour@.take(i + 1).drop_last() == pitch_contour@.take(i as int));
            }
            let f = pitch_contour[i];
            if MIN_TONIC_MHZ < f && f < MAX_TONIC_MHZ {
                r.push(f);
            }
            i = i + 1;
        }
        assert(pitch_contour@.take(pitch_contour.len() as int) == pitch_contour@);
        r
    }

    /// The most frequent semitone among the in-range pitch estimates, the lowest one
    /// on a tie; `None` when there is none, in which case A4 serves as the tonic.
    pub fn estimate_tonic(semitones: &Vec<i32>) -> (r: Option<i32>)
        ensures
            r.is_none() <==> semitones.len() == 0,
            r.is_some() ==> is_mode(semitones@, r.unwrap()),
    {
        let n = semitones.len();
        if n == 0 {
            return None;
        }
        let mut best_v = semitones[0];
        let mut best_c = count_of(semitones, best_v);
        let mut i: usize = 1;
        while i < n
            invariant
                n == semitones.len() > 0,
                1 <= i <= n,
                best_c == occurrences(semitones@, best_v),
                exists|j: int| 0 <= j < n && semitones@[j] == best_v,
                forall|j: int|
                    0 <= j < i ==> occurrences(semitones@, #[trigger] semitones@[j]) <= best_c,
                forall|j: int|
                    0 <= j < i && occurrences(semitones@, #[trigger] semitones@[j]) == best_c
                        ==> best_v <= semitones@[j],
            decreases n - i,
        {
            let v = semitones[i];
            let c = count_of(semitones, v);
            if c > best_c || (c == best_c && v < best_v) {
                best_v = v;
                best_c = c;
            }
            i = i + 1;
        }
        proof {
            let s = semitones@;
            assert forall|t: i32| occurrences(s, t) <= occurrences(s, best_v) by {
                if occurrences(s, t) > 0 {
                    lemma_occurrences_pos(s, t);
                    let j = choose|j: int| 0 <= j < s.len() && s[j] == t;
                    assert(occurrences(s, s[j]) <= best_c);
                }
            }
            assert forall|t: i32| occurrences(s, t) == occurrences(s, best_v) implies best_v <= t by {
                let j0 = choose|j: int| 0 <= j < n && s[j] == best_v;
                assert(occurrences(s, s[j0]) > 0) by {
                    let j1 = j0;
                    lemma_occurrences_in(s, j1);
                }
                lemma_occurrences_pos(s, t);
                let j = choose|j: int| 0 <= j < s.len() && s[j] == t;
                assert(occurrences(s, s[j]) == best_c);
            }
            let j0 = choose|j: int| 0 <= j < n && s[j] == best_v;
            lemma_occurrences_in(s, j0);
        }
        Some(best_v)
    }

    /// Each pitch, in millihertz, as a ratio to the tonic in units of `1 / UNIT`;
    /// 0 for an unvoiced frame.
    pub fn analyze_scale_degrees(pitch_contour: &Vec<u64>, tonic: u64) -> (r: Vec<u64>)
        requires
            tonic > 0,
            forall|i: int| 0 <= i < pitch_contour.len() ==> pitch_contour[i] * UNIT <= u64::MAX,
        ensures
            r.len() == pitch_contour.len(),
            forall|i: int|
                0 <= i < r.len() ==> r[i] == degree_of(pitch_contour[i] as int, tonic as int),
            (forall|i: int| 0 <= i < pitch_contour.len() ==> pitch_contour[i] == tonic) ==> forall|
                i: int,
            |
                0 <= i < r.len() ==> r[i] == UNIT,
    {
        let mut r: Vec<u64> = Vec::new();
        let mut i: usize = 0;
        while i < pitch_contour.len()
            invariant
                i <= pitch_contour.len(),
                r.len() == i,
                tonic > 0,
                forall|k: int| 0 <= k < pitch_contour.len() ==> pitch_contour[k] * UNIT <= u64::MAX,
                forall|k: int|
                    0 <= k < i ==> r[k] == degree_of(pitch_contour[k] as int, tonic as int),
            decreases pitch_contour.len() - i,
        {
            let f = pitch_contour[i];
            let d: u64 = if f > 0 {
                assert((f as int) * UNIT / (tonic as int) <= (f as int) * UNIT) by (nonlinear_arith)
                    requires tonic > 0, f >= 0;
                f * UNIT / tonic
            } else {
                0
            };
            r.push(d);
            i = i + 1;
        }
        proof {
            if forall|k: int| 0 <= k < pitch_contour.len() ==> pitch_contour[k] == tonic {
                assert forall|k: int| 0 <= k < r.len() implies r[k] == UNIT by {
                    lemma_tonic_has_unit_degree(tonic as int);
                }
            }
        }
        r
    }

    /// The number of voiced degrees that, folded into one octave, `r` covers.
    pub fn raag_score(r: &Raag, degrees: &Vec<u64>) -> (c: u64)
        ensures
            c == score(*r, degrees@),
    {
        let mut c: u64 = 0;
        let mut i: usize = 0;
        while i < degrees.len()
            invariant
                i <= degrees.len(),
                c == score(*r, degrees@.take(i as int)),
                c <= i,
            decreases degrees.len() - i,
        {
            proof {
                assert(degrees@.take(i + 1).drop_last() == degrees@.take(i as int));
                lemma_score_le(*r, degrees@.take(i as int));
            }
            let d = degrees[i];
            if d > 0 {
                let f = fold_octave(d);
                if raag_covers(r, f) {
                    c = c + 1;
                }
            }
            i = i + 1;
        }
        assert(degrees@.take(degrees.len() as int) == degrees@);
        c
    }

    /// The number of voiced degrees.
    pub fn voiced_count(degrees: &Vec<u64>) -> (c: u64)
        ensures
            c == voiced(degrees@),
    {
        let mut c: u64 = 0;
        let mut i: usize = 0;
        while i < degrees.len()
            invariant
                i <= degrees.len(),
                c == voiced(degrees@.take(i as int)),
                c <= i,
            decreases degrees.len() - i,
        {
            proof {
                assert(degrees@.take(i + 1).drop_last() == degrees@.take(i as int));
                lemma_voiced_le(degrees@.take(i as int));
            }
            if degrees[i] > 0 {
                c = c + 1;
            }
            i = i + 1;
        }
        assert(degrees@.take(degrees.len() as int) == degrees@);
        c
    }

    /// The name of the raag whose notes cover the scale degrees best, when it covers
    /// enough of them and clearly more than any other raag; `None` otherwise.
    pub fn find_best_raag_match(&self, scale_degrees: &Vec<u64>) -> (r: Option<String>)
        ensures
            r.is_some() <==> exists|i: int|
                is_winner(self.database.raags@, scale_degrees@, i),
            r.is_some() ==> exists|i: int|
                is_winner(self.database.raags@, scale_degrees@, i)
                    && r.unwrap()@ == self.database.raags@[i].name@,
            self.database.raags.len() == 0 ==> r.is_none(),
    {
        let raags = self.database.get_raags();
        let ghost rs = raags@;
        let ghost ds = scale_degrees@;
        let n = raags.len();
        if n == 0 {
            return None;
        }
        let v = Self::voiced_count(scale_degrees);
        proof {
            lemma_voiced_le(ds);
        }
        let mut best: usize = 0;
        let mut best_s = Self::raag_score(&raags[0], scale_degrees);
        let mut unique = true;
        let mut j: usize = 1;
        while j < n
            invariant
                rs == raags@,
                ds == scale_degrees@,
                n == rs.len() > 0,
                1 <= j <= n,
                best < j,
                best_s == score(rs[best as int], ds),
                forall|k: int| 0 <= k < j ==> score(#[trigger] rs[k], ds) <= best_s,
                unique <==> forall|k: int|
                    0 <= k < j && k != best ==> score(#[trigger] rs[k], ds) < best_s,
            decreases n - j,
        {
            let s = Self::raag_score(&raags[j], scale_degrees);
            assert(s == score(rs[j as int], ds));
            if s > best_s {
                best = j;
                best_s = s;
                unique = true;
            } else if s == best_s {
                unique = false;
            }
            j = j + 1;
        }
        proof {
            lemma_score_le(rs[best as int], ds);
        }
        if v > 0 && unique && (best_s as u128) * 100 >= (MIN_COVERAGE as u128) * (v as u128) {
            assert(is_winner(rs, ds, best as int));
            Some(raags[best].name.clone())
        } else {
            proof {
                assert forall|i: int| !is_winner(rs, ds, i) by {
                    if is_winner(rs, ds, i) {
                        if i != best {
                            assert(score(rs[best as int], ds) < score(rs[i], ds));
                        } else if !unique {
                            let k = choose|k: int|
                                0 <= k < n && k != best && !(score(#[trigger] rs[k], ds) < best_s);
                            assert(score(rs[k], ds) < score(rs[i], ds));
                        }
                    }
                }
            }
            None
        }
    }
}

proof fn lemma_occurrences_in(s: Seq<i32>, j: int)
    requires
        0 <= j < s.len(),
    ensures
        occurrences(s, s[j]) > 0,
    decreases s.len(),
{
    if j < s.len() - 1 {
        lemma_occurrences_in(s.drop_last(), j);
    }
}

} // verus!
