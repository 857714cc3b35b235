//! Counterpoint generation by depth-first search with a backtracking budget.
use vstd::prelude::*;
use vstd::relations::sorted_by;
use vstd::seq_lib::group_to_multiset_ensures;
use vstd::string::StringExecFns;
use crate::arith::{abs_int, abs_i32, diff_ok, signum_i32};
use crate::exceptions::CounterpointError;
use crate::interval::{consonant_class, interval_class, OCTAVE};
use crate::rules::{
    consonant_check, moves_in_parallel, trunc_rem12, free_of_parallels, parallel_step, octave_step,
    free_of_consecutive_octaves,
};
use crate::sorting::{note_le, sort_notes};

verus! {

/// The five species of counterpoint.
#[derive(Debug, Clone, Copy, PartialEq, Eq, Structural)]
pub enum Species {
    First,
    Second,
    Third,
    Fourth,
    Fifth,
}

/// An inclusive range of pitches that a voice may use.
#[derive(Debug, Clone, Copy)]
pub struct VoiceRange {
    pub low: i32,
    pub high: i32,
}

impl VoiceRange {
    /// `n` lies in the range.
    pub open spec fn holds(self, n: int) -> bool {
        self.low <= n <= self.high
    }

    /// The range `l..=h`.
    pub fn new(l: i32, h: i32) -> (r: Self)
        ensures
            r.low == l,
            r.high == h,
    {
        VoiceRange { low: l, high: h }
    }

    /// `n` lies in the range.
    pub fn contains(&self, n: i32) -> (r: bool)
        ensures
            r == self.holds(n as int),
    {
        n >= self.low && n <= self.high
    }
}

/// A scale: a tonic and the intervals (in semitones) of its degrees above the tonic.
#[derive(Debug, Clone)]
pub struct Scale {
    pub tonic: i32,
    pub intervals: Vec<i32>,
}

/// Lowest pitch that `Scale::notes_in_range` can produce.
pub open spec fn lowest_scale_note() -> int {
    -23
}

/// Highest pitch that `Scale::notes_in_range` can produce.
pub open spec fn highest_scale_note() -> int {
    119
}

/// The scale notes of octave `o` (pitch `12 * o + pc` for each pitch class `pc`,
/// in the order of the pitch classes) that lie in `range`.
pub open spec fn octave_notes(pcs: Seq<i32>, range: VoiceRange, o: int) -> Seq<i32>
    decreases pcs.len(),
{
    if pcs.len() == 0 {
        seq![]
    } else {
        let rest = octave_notes(pcs.drop_last(), range, o);
        let n = o * 12 + pcs.last();
        if range.holds(n) { rest.push(n as i32) } else { rest }
    }
}

/// The scale notes in `range` of the octaves -1 up to `o - 1`, octave by octave.
pub open spec fn notes_below_octave(pcs: Seq<i32>, range: VoiceRange, o: int) -> Seq<i32>
    decreases o + 1,
{
    if o <= -1 {
        seq![]
    } else {
        notes_below_octave(pcs, range, o - 1) + octave_notes(pcs, range, o - 1)
    }
}

/// The scale notes in `range` of the octaves -1 to 9, before sorting.
pub open spec fn scale_notes(pcs: Seq<i32>, range: VoiceRange) -> Seq<i32> {
    notes_below_octave(pcs, range, 10)
}

/// The candidate notes for a voice: the scale notes in `range`, in increasing order.
pub open spec fn candidate_notes(pcs: Seq<i32>, range: VoiceRange) -> Seq<i32> {
    scale_notes(pcs, range).sort_by(|a: i32, b: i32| note_le(a, b))
}

impl Scale {
    /// `tonic + interval` is an `i32` for every interval of the scale.
    pub open spec fn fits(&self) -> bool {
        forall|i: int| 0 <= i < self.intervals@.len() ==>
            i32::MIN <= self.tonic + #[trigger] self.intervals@[i] <= i32::MAX
    }

    /// The pitch class of each degree: `(tonic + interval) % 12`, with Rust's sign-keeping `%`.
    pub open spec fn spec_pitch_classes(&self) -> Seq<i32> {
        self.intervals@.map_values(|i: i32| trunc_rem12(self.tonic + i) as i32)
    }

    /// The major scale on `t`.
    pub fn major(t: i32) -> (r: Self)
        ensures
            r.tonic == t,
            r.intervals@ == seq![0i32, 2, 4, 5, 7, 9, 11],
    {
        Scale { tonic: t, intervals: vec![0, 2, 4, 5, 7, 9, 11] }
    }

    /// The natural minor scale on `t`.
    pub fn minor(t: i32) -> (r: Self)
        ensures
            r.tonic == t,
            r.intervals@ == seq![0i32, 2, 3, 5, 7, 8, 10],
    {
        Scale { tonic: t, intervals: vec![0, 2, 3, 5, 7, 8, 10] }
    }

    /// The pitch class of each degree of the scale.
    pub fn pitch_classes(&self) -> (r: Vec<i32>)
        requires
            self.fits(),
        ensures
            r@ == self.spec_pitch_classes(),
            forall|i: int| 0 <= i < r@.len() ==> -12 < #[trigger] r@[i] < 12,
    {
        let mut r: Vec<i32> = Vec::new();
        let mut i: usize = 0;
        while i < self.intervals.len()
            invariant
                self.fits(),
                0 <= i <= self.intervals@.len(),
                r@ == self.spec_pitch_classes().take(i as int),
                forall|j: int| 0 <= j < r@.len() ==> -12 < #[trigger] r@[j] < 12,
            decreases self.intervals.len() - i,
        {
            let pc = (self.tonic + self.intervals[i]) % OCTAVE;
            r.push(pc);
            assert(self.spec_pitch_classes().take(i + 1) =~= self.spec_pitch_classes().take(i as int).push(pc));
            i = i + 1;
        }
        assert(self.spec_pitch_classes().take(i as int) =~= self.spec_pitch_classes());
        r
    }

    /// The notes of the scale in `range` (octaves -1 to 9), in increasing order.
    pub fn notes_in_range(&self, range: &VoiceRange) -> (ns: Vec<i32>)
        requires
            self.fits(),
        ensures
            ns@ == candidate_notes(self.spec_pitch_classes(), *range),
            sorted_by(ns@, |a: i32, b: i32| note_le(a, b)),
            forall|i: int| 0 <= i < ns@.len() ==> range.holds(#[trigger] ns@[i] as int)
                && lowest_scale_note() <= ns@[i] <= highest_scale_note(),
    {
        let pcs = self.pitch_classes();
        let mut ns: Vec<i32> = Vec::new();
        let mut o: i32 = -1;
        while o < 10
            invariant
                -1 <= o <= 10,
                pcs@ == self.spec_pitch_classes(),
                forall|i: int| 0 <= i < pcs@.len() ==> -12 < #[trigger] pcs@[i] < 12,
                ns@ == notes_below_octave(pcs@, *range, o as int),
                forall|i: int| 0 <= i < ns@.len() ==> range.holds(#[trigger] ns@[i] as int)
                    && lowest_scale_note() <= ns@[i] <= highest_scale_note(),
            decreases 10 - o,
        {
            let ghost before = ns@;
            let mut j: usize = 0;
            while j < pcs.len()
                invariant
                    -1 <= o < 10,
                    0 <= j <= pcs@.len(),
                    forall|i: int| 0 <= i < pcs@.len() ==> -12 < #[trigger] pcs@[i] < 12,
                    ns@ == before + octave_notes(pcs@.take(j as int), *range, o as int),
                    forall|i: int| 0 <= i < ns@.len() ==> range.holds(#[trigger] ns@[i] as int)
                        && lowest_scale_note() <= ns@[i] <= highest_scale_note(),
                decreases pcs.len() - j,
            {
                let n = o * OCTAVE + pcs[j];
                assert(pcs@.take(j + 1).drop_last() =~= pcs@.take(j as int));
                if range.contains(n) {
                    ns.push(n);
                }
                assert(ns@ =~= before + octave_notes(pcs@.take(j + 1), *range, o as int));
                j = j + 1;
            }
            assert(pcs@.take(pcs@.len() as int) =~= pcs@);
            o = o + 1;
        }
        let sorted = sort_notes(&ns);
        proof {
            broadcast use group_to_multiset_ensures;
            assert forall|i: int| 0 <= i < sorted@.len() implies range.holds(#[trigger] sorted@[i] as int)
                && lowest_scale_note() <= sorted@[i] <= highest_scale_note() by {
                assert(sorted@.contains(sorted@[i]));
                assert(ns@.to_multiset().count(sorted@[i]) > 0);
                assert(ns@.contains(sorted@[i]));
            }
        }
        sorted
    }
}

/// The outcome of a generation attempt.
#[derive(Debug, Clone)]
pub struct CounterpointResult {
    pub cantus_firmus: Vec<i32>,
    pub counterpoint: Vec<i32>,
    pub species: Species,
    pub success: bool,
    pub backtrack_count: usize,
}

/// A counterpoint generator: a species, the range of the new voice, its scale,
/// and how many times the search may back up before it gives up.
pub struct CounterpointGenerator {
    pub species: Species,
    pub voice_range: VoiceRange,
    pub scale: Scale,
    pub max_backtracks: usize,
}

/// The counterpoint note `cpn`, written against `cf[cp.len()]` after the notes `cp`,
/// obeys the first-species rules: it lies in the voice range and forms a consonance
/// with the cantus; and, after the first note, it leaps at most an octave, does not
/// reach a fifth by parallel motion, does not follow a unison or octave with another
/// one, and stays below the cantus.
pub open spec fn note_ok(range: VoiceRange, cf: Seq<i32>, cp: Seq<i32>, cpn: int) -> bool {
    let idx = cp.len() as int;
    let cn = cf[idx] as int;
    &&& range.holds(cpn)
    &&& consonant_class(interval_class(cn - cpn))
    &&& idx > 0 ==> {
        let pp = cp[idx - 1] as int;
        let pc = cf[idx - 1] as int;
        &&& abs_int(cpn - pp) <= 12
        &&& !moves_in_parallel(pc, pp, cn, cpn, 7)
        &&& !(interval_class(pc - pp) == 0 && interval_class(cn - cpn) == 0)
        &&& cpn < cn
    }
}

/// Every note of `cp` obeys the rules against the cantus `cf` given the notes before it.
pub open spec fn valid_prefix(range: VoiceRange, cf: Seq<i32>, cp: Seq<i32>) -> bool {
    &&& cp.len() <= cf.len()
    &&& forall|i: int| 0 <= i < cp.len() ==> #[trigger] note_ok(range, cf, cp.take(i), cp[i] as int)
}

/// `cp` is a complete first-species counterpoint to `cf` within `range`.
pub open spec fn is_counterpoint(range: VoiceRange, cf: Seq<i32>, cp: Seq<i32>) -> bool {
    valid_prefix(range, cf, cp) && cp.len() == cf.len()
}

/// `full` extends `cp` with notes drawn from `cands`.
pub open spec fn extends_with(cp: Seq<i32>, full: Seq<i32>, cands: Seq<i32>) -> bool {
    &&& cp.len() <= full.len()
    &&& full.take(cp.len() as int) == cp
    &&& forall|i: int| cp.len() <= i < full.len() ==> cands.contains(#[trigger] full[i])
}

/// The depth-first search that completes `cp`, with `bt` backtracks spent and at most
/// `max` allowed: the success flag, the notes at the end, and the backtracks spent.
/// Candidates are tried in the order of `cands`; each candidate abandoned after a
/// failed deeper search costs one backtrack, and the search stops as soon as more
/// than `max` have been spent.
pub open spec fn search(range: VoiceRange, max: nat, cf: Seq<i32>, cands: Seq<i32>, cp: Seq<i32>, bt: nat) -> (bool, Seq<i32>, nat)
    decreases cf.len() - cp.len(), cands.len() + 1,
{
    if cp.len() >= cf.len() {
        (true, cp, bt)
    } else if bt > max {
        (false, cp, bt)
    } else {
        search_from(range, max, cf, cands, cp, 0, bt)
    }
}

/// The search at the position after `cp`, trying the candidates from index `k` on.
pub open spec fn search_from(range: VoiceRange, max: nat, cf: Seq<i32>, cands: Seq<i32>, cp: Seq<i32>, k: int, bt: nat) -> (bool, Seq<i32>, nat)
    decreases cf.len() - cp.len(), cands.len() - k,
{
    if cp.len() >= cf.len() || k < 0 || k >= cands.len() {
        (false, cp, bt)
    } else if !note_ok(range, cf, cp, cands[k] as int) {
        search_from(range, max, cf, cands, cp, k + 1, bt)
    } else {
        let (ok, full, bt1) = search(range, max, cf, cands, cp.push(cands[k]), bt);
        if ok {
            (true, full, bt1)
        } else if bt1 + 1 > max {
            (false, cp, bt1 + 1)
        } else {
            search_from(range, max, cf, cands, cp, k + 1, bt1 + 1)
        }
    }
}

proof fn lemma_valid_prefix_push(range: VoiceRange, cf: Seq<i32>, cp: Seq<i32>, c: i32)
    requires
        valid_prefix(range, cf, cp),
        cp.len() < cf.len(),
        note_ok(range, cf, cp, c as int),
    ensures
        valid_prefix(range, cf, cp.push(c)),
{
    let q = cp.push(c);
    assert forall|i: int| 0 <= i < q.len() implies #[trigger] note_ok(range, cf, q.take(i), q[i] as int) by {
        if i < cp.len() {
            assert(q.take(i) =~= cp.take(i));
            assert(note_ok(range, cf, cp.take(i), cp[i] as int));
        } else {
            assert(q.take(i) =~= cp);
        }
    }
}

/// What the search guarantees from a valid prefix: a success is a complete
/// counterpoint over the candidates that extends the prefix; a failure leaves the
/// prefix in place; and a failure within the budget means that no counterpoint over
/// the candidates extends the prefix at all.
pub proof fn lemma_search(range: VoiceRange, max: nat, cf: Seq<i32>, cands: Seq<i32>, cp: Seq<i32>, bt: nat)
    requires
        valid_prefix(range, cf, cp),
        bt <= max,
    ensures
        ({
            let (ok, full, bt2) = search(range, max, cf, cands, cp, bt);
            &&& bt <= bt2 <= max + (cf.len() - cp.len())
            &&& ok ==> is_counterpoint(range, cf, full) && extends_with(cp, full, cands) && bt2 <= max
            &&& !ok ==> full == cp
            &&& (!ok && bt2 <= max) ==> forall|other: Seq<i32>| #[trigger] extends_with(cp, other, cands)
                ==> !is_counterpoint(range, cf, other)
        }),
    decreases cf.len() - cp.len(), cands.len() + 1,
{
    if cp.len() >= cf.len() {
        assert(cp.take(cp.len() as int) =~= cp);
    } else {
        lemma_search_from(range, max, cf, cands, cp, 0, bt);
        let (ok, full, bt2) = search(range, max, cf, cands, cp, bt);
        if !ok && bt2 <= max {
            assert forall|other: Seq<i32>| #[trigger] extends_with(cp, other, cands)
                implies !is_counterpoint(range, cf, other) by {
                if is_counterpoint(range, cf, other) {
                    let idx = cp.len() as int;
                    assert(cands.contains(other[idx]));
                    let j = choose|j: int| 0 <= j < cands.len() && cands[j] == other[idx];
                    assert(0 <= j);
                }
            }
        }
    }
}

/// The search from candidate `k` on: as `lemma_search`, where a failure within the
/// budget rules out every counterpoint whose next note is a candidate at index `k` or later.
pub proof fn lemma_search_from(range: VoiceRange, max: nat, cf: Seq<i32>, cands: Seq<i32>, cp: Seq<i32>, k: int, bt: nat)
    requires
        valid_prefix(range, cf, cp),
        cp.len() < cf.len(),
        0 <= k,
        bt <= max,
    ensures
        ({
            let (ok, full, bt2) = search_from(range, max, cf, cands, cp, k, bt);
            &&& bt <= bt2 <= max + (cf.len() - cp.len())
            &&& ok ==> is_counterpoint(range, cf, full) && extends_with(cp, full, cands) && bt2 <= max
            &&& !ok ==> full == cp
            &&& (!ok && bt2 <= max) ==> forall|other: Seq<i32>| #[trigger] extends_with(cp, other, cands)
                && (exists|j: int| k <= j < cands.len() && cands[j] == other[cp.len() as int])
                ==> !is_counterpoint(range, cf, other)
        }),
    decreases cf.len() - cp.len(), cands.len() - k,
{
    let idx = cp.len() as int;
    if k >= cands.len() {
    } else if !note_ok(range, cf, cp, cands[k] as int) {
        lemma_search_from(range, max, cf, cands, cp, k + 1, bt);
        let (ok, full, bt2) = search_from(range, max, cf, cands, cp, k, bt);
        if !ok && bt2 <= max {
            assert forall|other: Seq<i32>| #[trigger] extends_with(cp, other, cands)
                && (exists|j: int| k <= j < cands.len() && cands[j] == other[idx])
                implies !is_counterpoint(range, cf, other) by {
                if is_counterpoint(range, cf, other) {
                    if other[idx] == cands[k] {
                        assert(note_ok(range, cf, other.take(idx), other[idx] as int));
                    } else {
                        let j = choose|j: int| k <= j < cands.len() && cands[j] == other[idx];
                        assert(k + 1 <= j);
                    }
                }
            }
        }
    } else {
        let c = cands[k];
        lemma_valid_prefix_push(range, cf, cp, c);
        lemma_search(range, max, cf, cands, cp.push(c), bt);
        let (ok1, full1, bt1) = search(range, max, cf, cands, cp.push(c), bt);
        if ok1 {
            assert(full1.take(idx) =~= cp) by {
                assert(full1.take(idx + 1) == cp.push(c));
                assert(full1.take(idx) =~= full1.take(idx + 1).take(idx));
            }
            assert forall|i: int| cp.len() <= i < full1.len() implies cands.contains(#[trigger] full1[i]) by {
                if i == idx {
                    assert(full1[i] == full1.take(idx + 1)[i]);
                    assert(cands[k] == full1[i]);
                }
            }
        } else if bt1 + 1 > max {
        } else {
            lemma_search_from(range, max, cf, cands, cp, k + 1, bt1 + 1);
            let (ok, full, bt2) = search_from(range, max, cf, cands, cp, k, bt);
            if !ok && bt2 <= max {
                assert forall|other: Seq<i32>| #[trigger] extends_with(cp, other, cands)
                    && (exists|j: int| k <= j < cands.len() && cands[j] == other[idx])
                    implies !is_counterpoint(range, cf, other) by {
                    if is_counterpoint(range, cf, other) {
                        if other[idx] == c {
                            assert(other.take(idx + 1) =~= cp.push(c));
                            assert(extends_with(cp.push(c), other, cands));
                        } else {
                            let j = choose|j: int| k <= j < cands.len() && cands[j] == other[idx];
                            assert(k + 1 <= j);
                        }
                    }
                }
            }
        }
    }
}

/// `x` comes before `y` in lexicographic order of their notes: they agree up to some
/// position, where `x` has the lower note.
pub open spec fn lex_less(x: Seq<i32>, y: Seq<i32>) -> bool {
    exists|k: int| 0 <= k < x.len() && k < y.len() && x.take(k) == y.take(k) && #[trigger] x[k] < y[k]
}

proof fn lemma_not_lex_less_above(cp: Seq<i32>, other: Seq<i32>, full: Seq<i32>)
    requires
        other.len() > cp.len(),
        full.len() > cp.len(),
        other.take(cp.len() as int) == cp,
        full.take(cp.len() as int) == cp,
        other[cp.len() as int] > full[cp.len() as int],
    ensures
        !lex_less(other, full),
{
    let idx = cp.len() as int;
    if lex_less(other, full) {
        let k = choose|k: int| 0 <= k < other.len() && k < full.len() && other.take(k) == full.take(k) && #[trigger] other[k] < full[k];
        if k < idx {
            assert(other[k] == other.take(idx)[k]);
            assert(full[k] == full.take(idx)[k]);
        } else if k > idx {
            assert(other[idx] == other.take(k)[idx]);
            assert(full[idx] == full.take(k)[idx]);
        }
    }
}

/// With candidates in increasing order, a successful search finds the lexicographically
/// least counterpoint over the candidates that extends the prefix.
pub proof fn lemma_search_least(range: VoiceRange, max: nat, cf: Seq<i32>, cands: Seq<i32>, cp: Seq<i32>, bt: nat)
    requires
        valid_prefix(range, cf, cp),
        bt <= max,
        sorted_by(cands, |a: i32, b: i32| note_le(a, b)),
    ensures
        ({
            let (ok, full, bt2) = search(range, max, cf, cands, cp, bt);
            ok ==> forall|other: Seq<i32>| #[trigger] extends_with(cp, other, cands) && is_counterpoint(range, cf, other)
                ==> !lex_less(other, full)
        }),
    decreases cf.len() - cp.len(), cands.len() + 1,
{
    lemma_search(range, max, cf, cands, cp, bt);
    let (ok, full, bt2) = search(range, max, cf, cands, cp, bt);
    if cp.len() >= cf.len() {
        if ok {
            assert forall|other: Seq<i32>| #[trigger] extends_with(cp, other, cands) && is_counterpoint(range, cf, other)
                implies !lex_less(other, full) by {
                assert(other.take(cp.len() as int) == cp);
                assert(other =~= cp);
                if lex_less(other, full) {
                    let k = choose|k: int| 0 <= k < other.len() && k < full.len() && other.take(k) == full.take(k) && #[trigger] other[k] < full[k];
                }
            }
        }
    } else {
        lemma_search_from_least(range, max, cf, cands, cp, 0, bt);
        if ok {
            assert forall|other: Seq<i32>| #[trigger] extends_with(cp, other, cands) && is_counterpoint(range, cf, other)
                implies !lex_less(other, full) by {
                let idx = cp.len() as int;
                assert(cands.contains(other[idx]));
                let j = choose|j: int| 0 <= j < cands.len() && cands[j] == other[idx];
                assert(0 <= j);
            }
        }
    }
}

/// The search from candidate `k` on: as `lemma_search_least`, for the counterpoints whose
/// next note is a candidate at index `k` or later.
pub proof fn lemma_search_from_least(range: VoiceRange, max: nat, cf: Seq<i32>, cands: Seq<i32>, cp: Seq<i32>, k: int, bt: nat)
    requires
        valid_prefix(range, cf, cp),
        cp.len() < cf.len(),
        0 <= k,
        bt <= max,
        sorted_by(cands, |a: i32, b: i32| note_le(a, b)),
    ensures
        ({
            let (ok, full, bt2) = search_from(range, max, cf, cands, cp, k, bt);
            ok ==> forall|other: Seq<i32>| #[trigger] extends_with(cp, other, cands) && is_counterpoint(range, cf, other)
                && (exists|j: int| k <= j < cands.len() && cands[j] == other[cp.len() as int])
                ==> !lex_less(other, full)
        }),
    decreases cf.len() - cp.len(), cands.len() - k,
{
    let idx = cp.len() as int;
    let leq = |a: i32, b: i32| note_le(a, b);
    lemma_search_from(range, max, cf, cands, cp, k, bt);
    let (ok, full, bt2) = search_from(range, max, cf, cands, cp, k, bt);
    if k >= cands.len() {
    } else if !note_ok(range, cf, cp, cands[k] as int) {
        lemma_search_from_least(range, max, cf, cands, cp, k + 1, bt);
        if ok {
            assert forall|other: Seq<i32>| #[trigger] extends_with(cp, other, cands) && is_counterpoint(range, cf, other)
                && (exists|j: int| k <= j < cands.len() && cands[j] == other[idx])
                implies !lex_less(other, full) by {
                if other[idx] == cands[k] {
                    assert(note_ok(range, cf, other.take(idx), other[idx] as int));
                } else {
                    let j = choose|j: int| k <= j < cands.len() && cands[j] == other[idx];
                    assert(k + 1 <= j);
                }
            }
        }
    } else {
        let c = cands[k];
        lemma_valid_prefix_push(range, cf, cp, c);
        lemma_search(range, max, cf, cands, cp.push(c), bt);
        lemma_search_least(range, max, cf, cands, cp.push(c), bt);
        let (ok1, full1, bt1) = search(range, max, cf, cands, cp.push(c), bt);
        if ok1 {
            assert(full1.take(idx) =~= cp) by {
                assert(full1.take(idx + 1) == cp.push(c));
                assert(full1.take(idx) =~= full1.take(idx + 1).take(idx));
            }
            assert(full1[idx] == c) by {
                assert(full1.take(idx + 1) == cp.push(c));
                assert(full1[idx] == full1.take(idx + 1)[idx]);
            }
            assert forall|other: Seq<i32>| #[trigger] extends_with(cp, other, cands) && is_counterpoint(range, cf, other)
                && (exists|j: int| k <= j < cands.len() && cands[j] == other[idx])
                implies !lex_less(other, full1) by {
                let j = choose|j: int| k <= j < cands.len() && cands[j] == other[idx];
                if j > k {
                    assert(leq(cands[k], cands[j]));
                }
                if other[idx] == c {
                    assert(other.take(idx + 1) =~= cp.push(c));
                    assert(extends_with(cp.push(c), other, cands));
                } else {
                    lemma_not_lex_less_above(cp, other, full1);
                }
            }
        } else if bt1 + 1 > max {
        } else {
            lemma_search_from_least(range, max, cf, cands, cp, k + 1, bt1 + 1);
            if ok {
                assert forall|other: Seq<i32>| #[trigger] extends_with(cp, other, cands) && is_counterpoint(range, cf, other)
                    && (exists|j: int| k <= j < cands.len() && cands[j] == other[idx])
                    implies !lex_less(other, full) by {
                    if other[idx] == c {
                        assert(other.take(idx + 1) =~= cp.push(c));
                        assert(extends_with(cp.push(c), other, cands));
                    } else {
                        let j = choose|j: int| k <= j < cands.len() && cands[j] == other[idx];
                        assert(k + 1 <= j);
                    }
                }
            }
        }
    }
}

/// The arithmetic of the rules cannot overflow for a cantus firmus `cf` against
/// scale notes: every note keeps a margin from the ends of the `i32` range and every
/// melodic step of the cantus is an `i32`.
pub open spec fn cantus_fits(cf: Seq<i32>) -> bool {
    &&& forall|i: int| 0 <= i < cf.len() ==> i32::MIN + 120 <= #[trigger] cf[i] <= i32::MAX - 24
    &&& forall|i: int| 1 <= i < cf.len() ==> diff_ok(#[trigger] cf[i], cf[i - 1])
}

/// Every note of `s` lies between the lowest and the highest scale note.
pub open spec fn within_scale_span(s: Seq<i32>) -> bool {
    forall|i: int| 0 <= i < s.len() ==> lowest_scale_note() <= #[trigger] s[i] <= highest_scale_note()
}

/// The backtracks that the search of `generate` spends on the cantus `cf`.
pub open spec fn generation_backtracks(g: CounterpointGenerator, cf: Seq<i32>) -> nat {
    let cands = candidate_notes(g.scale.spec_pitch_classes(), g.voice_range);
    search(g.voice_range, g.max_backtracks as nat, cf, cands, seq![], 0).2
}

/// The search spends at most the budget plus one backtrack per cantus note, so a
/// budget with `max_backtracks + cf.len() <= usize::MAX` never overflows the counter.
pub proof fn law_generation_backtracks_bound(g: CounterpointGenerator, cf: Seq<i32>)
    ensures
        generation_backtracks(g, cf) <= g.max_backtracks + cf.len(),
{
    let cands = candidate_notes(g.scale.spec_pitch_classes(), g.voice_range);
    let empty = Seq::<i32>::empty();
    assert(valid_prefix(g.voice_range, cf, empty));
    lemma_search(g.voice_range, g.max_backtracks as nat, cf, cands, empty, 0);
}

/// The result of `generate` for a non-empty cantus `cf`: the search over the scale's
/// candidate notes from an empty counterpoint with no backtracks spent.
pub open spec fn generation_outcome(g: CounterpointGenerator, cf: Seq<i32>, res: CounterpointResult) -> bool {
    let cands = candidate_notes(g.scale.spec_pitch_classes(), g.voice_range);
    let (ok, cp, bt) = search(g.voice_range, g.max_backtracks as nat, cf, cands, seq![], 0);
    &&& res.cantus_firmus@ == cf
    &&& res.counterpoint@ == cp
    &&& res.species == g.species
    &&& res.success == ok
    &&& res.backtrack_count == bt
}

impl CounterpointGenerator {
    /// A generator with a budget of 10000 backtracks.
    pub fn new(sp: Species, vr: VoiceRange, sc: Scale) -> (r: Self)
        ensures
            r.species == sp,
            r.voice_range == vr,
            r.scale == sc,
            r.max_backtracks == 10000,
    {
        CounterpointGenerator { species: sp, voice_range: vr, scale: sc, max_backtracks: 10000 }
    }

    /// Writes a first-species counterpoint below the cantus firmus `cf`.
    /// An empty cantus is refused; otherwise the result reports whether the search
    /// succeeded within the backtracking budget, the notes found, and the backtracks spent.
    pub fn generate(&self, cf: &[i32]) -> (r: Result<CounterpointResult, CounterpointError>)
        requires
            self.scale.fits(),
            cantus_fits(cf@),
            cf@.len() > 0 ==> generation_backtracks(*self, cf@) <= usize::MAX,
        ensures
            cf@.len() == 0 ==> (r matches Err(CounterpointError::InvalidInput(m)) && m@ == "empty"@),
            cf@.len() > 0 ==> (r matches Ok(res) && generation_outcome(*self, cf@, res)),
    {
        if cf.len() == 0 {
            return Err(CounterpointError::InvalidInput(String::from_str("empty")));
        }
        let cands = self.scale.notes_in_range(&self.voice_range);
        let mut cp: Vec<i32> = Vec::with_capacity(cf.len());
        let mut bt: usize = 0;
        proof {
            assert(valid_prefix(self.voice_range, cf@, cp@));
        }
        let ok = self.fill(cf, cands.as_slice(), &mut cp, &mut bt);
        let mut cantus: Vec<i32> = Vec::new();
        let mut i: usize = 0;
        while i < cf.len()
            invariant
                0 <= i <= cf.len(),
                cantus@ == cf@.take(i as int),
            decreases cf.len() - i,
        {
            cantus.push(cf[i]);
            assert(cf@.take(i + 1) =~= cf@.take(i as int).push(cf@[i as int]));
            i = i + 1;
        }
        assert(cf@.take(cf.len() as int) =~= cf@);
        Ok(CounterpointResult {
            cantus_firmus: cantus,
            counterpoint: cp,
            species: self.species,
            success: ok,
            backtrack_count: bt,
        })
    }

    fn fill(&self, cf: &[i32], cands: &[i32], cp: &mut Vec<i32>, bt: &mut usize) -> (ok: bool)
        requires
            cantus_fits(cf@),
            within_scale_span(cands@),
            within_scale_span(old(cp)@),
            valid_prefix(self.voice_range, cf@, old(cp)@),
            *old(bt) <= self.max_backtracks,
            search(self.voice_range, self.max_backtracks as nat, cf@, cands@, old(cp)@, *old(bt) as nat).2
                <= usize::MAX,
        ensures
            (ok, final(cp)@, *final(bt) as nat) == search(
                self.voice_range,
                self.max_backtracks as nat,
                cf@,
                cands@,
                old(cp)@,
                *old(bt) as nat,
            ),
        decreases cf@.len() - old(cp)@.len(),
    {
        proof {
            lemma_search(self.voice_range, self.max_backtracks as nat, cf@, cands@, cp@, *bt as nat);
        }
        if cp.len() == cf.len() {
            return true;
        }
        if *bt > self.max_backtracks {
            return false;
        }
        let ghost cp0 = cp@;
        let ghost bt0 = *bt as nat;
        let ghost range = self.voice_range;
        let ghost max = self.max_backtracks as nat;
        let idx = cp.len();
        let cn = cf[idx];
        let mut k: usize = 0;
        while k < cands.len()
            invariant
                cantus_fits(cf@),
                within_scale_span(cands@),
                within_scale_span(cp0),
                valid_prefix(range, cf@, cp0),
                range == self.voice_range,
                max == self.max_backtracks as nat,
                search(range, max, cf@, cands@, cp0, bt0).2 <= usize::MAX,
                cp0.len() < cf@.len(),
                idx == cp0.len(),
                cn == cf@[idx as int],
                cp@ == cp0,
                cp0 == old(cp)@,
                bt0 == *old(bt) as nat,
                0 <= k <= cands.len(),
                *bt <= self.max_backtracks,
                search_from(range, max, cf@, cands@, cp0, k as int, *bt as nat)
                    == search(range, max, cf@, cands@, cp0, bt0),
            decreases cands.len() - k,
        {
            let c = cands[k];
            if !self.valid(cf, cp.as_slice(), cn, c) {
                k = k + 1;
                continue;
            }
            let ghost bt_before = *bt as nat;
            proof {
                lemma_valid_prefix_push(range, cf@, cp0, c);
                lemma_search(range, max, cf@, cands@, cp0.push(c), bt_before);
                let (ok1, full1, bt1) = search(range, max, cf@, cands@, cp0.push(c), bt_before);
                if !ok1 && bt1 + 1 <= max {
                    lemma_search_from(range, max, cf@, cands@, cp0, k + 1, bt1 + 1);
                }
                assert(bt1 + 1 <= usize::MAX || ok1);
            }
            cp.push(c);
            if self.fill(cf, cands, cp, bt) {
                return true;
            }
            cp.pop();
            *bt = *bt + 1;
            if *bt > self.max_backtracks {
                return false;
            }
            k = k + 1;
        }
        false
    }

    fn valid(&self, cf: &[i32], cp: &[i32], cn: i32, cpn: i32) -> (r: bool)
        requires
            cantus_fits(cf@),
            cp@.len() < cf@.len(),
            cn == cf@[cp@.len() as int],
            within_scale_span(cp@),
            lowest_scale_note() <= cpn <= highest_scale_note(),
        ensures
            r == note_ok(self.voice_range, cf@, cp@, cpn as int),
    {
        if !self.voice_range.contains(cpn) {
            return false;
        }
        if !consonant_check(cn, cpn) {
            return false;
        }
        if cp.len() > 0 {
            let pp = cp[cp.len() - 1];
            let pc = cf[cp.len() - 1];
            assert(lowest_scale_note() <= pp <= highest_scale_note());
            assert(diff_ok(cf@[cp@.len() as int], cf@[cp@.len() - 1]));
            if abs_i32(cpn - pp) > 12 {
                return false;
            }
            let pi = abs_i32(pc - pp) % OCTAVE;
            let ci = abs_i32(cn - cpn) % OCTAVE;
            if pi == 7 && ci == 7 {
                let da = signum_i32(cn - pc);
                let db = signum_i32(cpn - pp);
                if da != 0 && da == db {
                    return false;
                }
            }
            if pi == 0 && ci == 0 {
                return false;
            }
            if cpn >= cn {
                return false;
            }
        }
        true
    }
}

/// A complete counterpoint obeys each rule at every beat: it stays in range, every
/// harmonic interval is consonant, no melodic leap exceeds an octave, no fifth is
/// reached by parallel motion, no two consecutive beats are both unisons or octaves,
/// and after the first beat it lies below the cantus.
pub proof fn law_counterpoint_obeys_rules(range: VoiceRange, cf: Seq<i32>, cp: Seq<i32>)
    requires
        is_counterpoint(range, cf, cp),
    ensures
        forall|i: int| 0 <= i < cp.len() ==> range.holds(#[trigger] cp[i] as int),
        forall|i: int| 0 <= i < cp.len() ==> consonant_class(interval_class(cf[i] - #[trigger] cp[i])),
        forall|i: int| 1 <= i < cp.len() ==> abs_int(#[trigger] cp[i] - cp[i - 1]) <= 12,
        forall|i: int| 1 <= i < cp.len() ==> #[trigger] cp[i] < cf[i],
        free_of_parallels(cf, cp, 7),
        free_of_consecutive_octaves(cf, cp),
{
    assert forall|i: int| 0 <= i < cp.len() implies range.holds(#[trigger] cp[i] as int)
        && consonant_class(interval_class(cf[i] - cp[i])) by {
        assert(note_ok(range, cf, cp.take(i), cp[i] as int));
    }
    assert forall|i: int| 1 <= i < cp.len() implies abs_int(#[trigger] cp[i] - cp[i - 1]) <= 12
        && cp[i] < cf[i] && !parallel_step(cf, cp, i, 7) && !octave_step(cf, cp, i) by {
        assert(note_ok(range, cf, cp.take(i), cp[i] as int));
        assert(cp.take(i)[i - 1] == cp[i - 1]);
    }
}

/// What `generate` promises of a non-empty cantus: on success, the counterpoint has
/// one note per cantus note, all of them scale notes in the voice range, it obeys the
/// first-species rules, the budget was kept, and no counterpoint of scale notes in the
/// range comes before it in lexicographic order (it is the lowest one); on failure the counterpoint is empty
/// and either the budget ran out or no such counterpoint exists at all.
pub proof fn law_generation_sound_and_complete(g: CounterpointGenerator, cf: Seq<i32>, res: CounterpointResult)
    requires
        generation_outcome(g, cf, res),
    ensures
        ({
            let cands = candidate_notes(g.scale.spec_pitch_classes(), g.voice_range);
            &&& res.success ==> {
                &&& is_counterpoint(g.voice_range, cf, res.counterpoint@)
                &&& res.counterpoint@.len() == cf.len()
                &&& forall|i: int| 0 <= i < res.counterpoint@.len() ==> cands.contains(#[trigger] res.counterpoint@[i])
                &&& res.backtrack_count <= g.max_backtracks
                &&& forall|other: Seq<i32>|
                    (forall|i: int| 0 <= i < other.len() ==> cands.contains(#[trigger] other[i]))
                    && is_counterpoint(g.voice_range, cf, other) ==> !lex_less(other, res.counterpoint@)
            }
            &&& !res.success ==> {
                &&& res.counterpoint@.len() == 0
                &&& (res.backtrack_count > g.max_backtracks || forall|other: Seq<i32>|
                    (forall|i: int| 0 <= i < other.len() ==> cands.contains(#[trigger] other[i]))
                    ==> !is_counterpoint(g.voice_range, cf, other))
            }
        }),
{
    let cands = candidate_notes(g.scale.spec_pitch_classes(), g.voice_range);
    let empty = Seq::<i32>::empty();
    assert(valid_prefix(g.voice_range, cf, empty));
    lemma_search(g.voice_range, g.max_backtracks as nat, cf, cands, empty, 0);
    crate::sorting::lemma_note_le_total();
    scale_notes(g.scale.spec_pitch_classes(), g.voice_range).lemma_sort_by_ensures(|a: i32, b: i32| note_le(a, b));
    lemma_search_least(g.voice_range, g.max_backtracks as nat, cf, cands, empty, 0);
    if res.success {
        assert forall|other: Seq<i32>|
            (forall|i: int| 0 <= i < other.len() ==> cands.contains(#[trigger] other[i]))
            && is_counterpoint(g.voice_range, cf, other) implies !lex_less(other, res.counterpoint@) by {
            assert(other.take(0) =~= empty);
            assert(extends_with(empty, other, cands));
        }
    }
    if !res.success && res.backtrack_count <= g.max_backtracks {
        assert forall|other: Seq<i32>|
            (forall|i: int| 0 <= i < other.len() ==> cands.contains(#[trigger] other[i]))
            implies !is_counterpoint(g.voice_range, cf, other) by {
            assert(other.take(0) =~= empty);
            assert(extends_with(empty, other, cands));
        }
    }
}

} // verus!
