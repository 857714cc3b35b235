//! Voice-leading analysis of two voices.
use vstd::prelude::*;
use crate::arith::{abs_int, sign, abs_i32, signum_i32, count_upto};
use crate::interval::OCTAVE;
use crate::rules::{
    voices_fit, voices_paired, parallel_step, similar_step, contrary_step, free_of_parallels, octave_step,
    free_of_consecutive_octaves,
};

verus! {

/// Motion statistics of two voices. `quality` (a floating-point summary) is computed
/// from these counts outside the verified library.
#[derive(Debug, Clone, Copy)]
pub struct VoiceLeadingScore {
    pub smoothness: i32,
    pub parallel_fifths: i32,
    pub parallel_octaves: i32,
    pub contrary_motion: i32,
    pub similar_motion: i32,
    pub oblique_motion: i32,
    pub total_intervals: i32,
}

/// Step `i` holds at least one voice (oblique motion).
pub open spec fn oblique_step(a: Seq<i32>, b: Seq<i32>, i: int) -> bool {
    sign(a[i] - a[i - 1]) == 0 || sign(b[i] - b[i - 1]) == 0
}

/// The sum of the melodic leaps of both voices over the steps before beat `n`.
pub open spec fn smoothness_upto(a: Seq<i32>, b: Seq<i32>, n: int) -> int
    decreases n,
{
    if n <= 1 {
        0
    } else {
        smoothness_upto(a, b, n - 1) + abs_int(a[n - 1] - a[n - 2]) + abs_int(b[n - 1] - b[n - 2])
    }
}

/// The sum of the melodic leaps of both voices.
pub open spec fn smoothness(a: Seq<i32>, b: Seq<i32>) -> int {
    smoothness_upto(a, b, a.len() as int)
}

/// The smoothness sum only grows with more steps.
proof fn lemma_smoothness_monotone(a: Seq<i32>, b: Seq<i32>, m: int, n: int)
    requires
        m <= n,
    ensures
        0 <= smoothness_upto(a, b, m) <= smoothness_upto(a, b, n),
    decreases n - m,
{
    if m < n {
        lemma_smoothness_monotone(a, b, m, n - 1);
        if n - 1 >= 1 {
            assert(smoothness_upto(a, b, n) >= smoothness_upto(a, b, n - 1));
        }
    } else {
        lemma_smoothness_nonneg(a, b, n);
    }
}

proof fn lemma_smoothness_nonneg(a: Seq<i32>, b: Seq<i32>, n: int)
    ensures
        0 <= smoothness_upto(a, b, n),
    decreases n,
{
    if n > 1 {
        lemma_smoothness_nonneg(a, b, n - 1);
    }
}

/// Motion statistics of voices `a` and `b`: for voices of equal length with at least
/// two notes, the sum of leaps, the parallel fifths (reached by similar motion), the
/// consecutive unisons or octaves (whatever the motion), and the number of steps in
/// contrary, similar and oblique motion; all zero otherwise.
pub fn analyze_voice_leading(a: &[i32], b: &[i32]) -> (s: VoiceLeadingScore)
    requires
        voices_fit(a@, b@),
        a@.len() <= i32::MAX,
        a@.len() == b@.len() ==> smoothness(a@, b@) <= i32::MAX,
    ensures
        !voices_paired(a@, b@) ==> s == (VoiceLeadingScore {
            smoothness: 0,
            parallel_fifths: 0,
            parallel_octaves: 0,
            contrary_motion: 0,
            similar_motion: 0,
            oblique_motion: 0,
            total_intervals: 0,
        }),
        voices_paired(a@, b@) ==> {
            let n = a@.len() as int;
            &&& s.smoothness == smoothness(a@, b@)
            &&& s.parallel_fifths == count_upto(n, |i: int| i >= 1 && parallel_step(a@, b@, i, 7))
            &&& s.parallel_octaves == count_upto(n, |i: int| i >= 1 && octave_step(a@, b@, i))
            &&& s.contrary_motion == count_upto(n, |i: int| i >= 1 && contrary_step(a@, b@, i))
            &&& s.similar_motion == count_upto(n, |i: int| i >= 1 && similar_step(a@, b@, i))
            &&& s.oblique_motion == count_upto(n, |i: int| i >= 1 && oblique_step(a@, b@, i))
            &&& s.total_intervals == n - 1
        },
        s.contrary_motion + s.similar_motion + s.oblique_motion == s.total_intervals,
{
    let mut s = VoiceLeadingScore {
        smoothness: 0,
        parallel_fifths: 0,
        parallel_octaves: 0,
        contrary_motion: 0,
        similar_motion: 0,
        oblique_motion: 0,
        total_intervals: 0,
    };
    if a.len() != b.len() || a.len() < 2 {
        return s;
    }
    let ghost p5 = |i: int| i >= 1 && parallel_step(a@, b@, i, 7);
    let ghost p8 = |i: int| i >= 1 && octave_step(a@, b@, i);
    let ghost pc = |i: int| i >= 1 && contrary_step(a@, b@, i);
    let ghost ps = |i: int| i >= 1 && similar_step(a@, b@, i);
    let ghost po = |i: int| i >= 1 && oblique_step(a@, b@, i);
    proof {
        reveal_with_fuel(count_upto, 2);
    }
    let mut i: usize = 1;
    while i < a.len()
        invariant
            voices_paired(a@, b@),
            voices_fit(a@, b@),
            a@.len() <= i32::MAX,
            smoothness(a@, b@) <= i32::MAX,
            1 <= i <= a.len(),
            p5 == (|i: int| i >= 1 && parallel_step(a@, b@, i, 7)),
            p8 == (|i: int| i >= 1 && octave_step(a@, b@, i)),
            pc == (|i: int| i >= 1 && contrary_step(a@, b@, i)),
            ps == (|i: int| i >= 1 && similar_step(a@, b@, i)),
            po == (|i: int| i >= 1 && oblique_step(a@, b@, i)),
            s.smoothness == smoothness_upto(a@, b@, i as int),
            s.parallel_fifths == count_upto(i as int, p5),
            s.parallel_octaves == count_upto(i as int, p8),
            s.contrary_motion == count_upto(i as int, pc),
            s.similar_motion == count_upto(i as int, ps),
            s.oblique_motion == count_upto(i as int, po),
            s.total_intervals == i - 1,
            s.parallel_fifths <= s.similar_motion,
            s.parallel_octaves <= s.total_intervals,
            s.contrary_motion + s.similar_motion + s.oblique_motion == s.total_intervals,
        decreases a.len() - i,
    {
        assert(i32::MIN <= a@[i as int] - a@[i - 1] <= i32::MAX);
        assert(i32::MIN <= b@[i as int] - b@[i - 1] <= i32::MAX);
        assert(crate::arith::diff_ok(a@[i as int], b@[i as int]));
        assert(crate::arith::diff_ok(a@[i - 1], b@[i - 1]));
        let ghost before = smoothness_upto(a@, b@, i as int);
        proof {
            lemma_smoothness_monotone(a@, b@, i + 1, a@.len() as int);
            lemma_smoothness_nonneg(a@, b@, i as int);
        }
        let sa = a[i] - a[i - 1];
        let sb = b[i] - b[i - 1];
        let da = signum_i32(sa);
        let db = signum_i32(sb);
        let ci = abs_i32(a[i] - b[i]) % OCTAVE;
        let pi = abs_i32(a[i - 1] - b[i - 1]) % OCTAVE;
        assert(sa != i32::MIN && sb != i32::MIN);
        s.smoothness = s.smoothness + abs_i32(sa) + abs_i32(sb);
        s.total_intervals = s.total_intervals + 1;
        if pi == 0 && ci == 0 {
            s.parallel_octaves = s.parallel_octaves + 1;
        }
        if da != 0 && da == db {
            if pi == 7 && ci == 7 {
                s.parallel_fifths = s.parallel_fifths + 1;
            }
            s.similar_motion = s.similar_motion + 1;
        } else if da == 0 || db == 0 {
            s.oblique_motion = s.oblique_motion + 1;
        } else {
            s.contrary_motion = s.contrary_motion + 1;
        }
        i = i + 1;
    }
    s
}

/// The upper voice dips below the lower voice at some beat that both voices have.
pub fn voices_cross(upper: &[i32], lower: &[i32]) -> (r: bool)
    ensures
        r == exists|i: int| 0 <= i < upper@.len() && i < lower@.len() && #[trigger] upper@[i] < lower@[i],
{
    let mut i: usize = 0;
    while i < upper.len() && i < lower.len()
        invariant
            0 <= i <= upper.len(),
            i <= lower.len(),
            forall|j: int| 0 <= j < i ==> !(#[trigger] upper@[j] < lower@[j]),
        decreases upper.len() - i,
    {
        if upper[i] < lower[i] {
            return true;
        }
        i = i + 1;
    }
    false
}

proof fn lemma_count_zero(n: int, p: spec_fn(int) -> bool)
    ensures
        count_upto(n, p) == 0 <==> forall|i: int| 0 <= i < n ==> !#[trigger] p(i),
    decreases n,
{
    if n > 0 {
        lemma_count_zero(n - 1, p);
        if count_upto(n, p) == 0 {
            assert forall|i: int| 0 <= i < n implies !#[trigger] p(i) by {
                if i < n - 1 {
                    assert(!p(i));
                }
            }
        }
    }
}

/// The analysis counts no parallel fifths exactly when the parallel-fifths rule holds,
/// and no consecutive octaves exactly when the consecutive-octaves rule holds.
pub proof fn law_parallel_count_matches_rule(a: Seq<i32>, b: Seq<i32>)
    requires
        voices_paired(a, b),
    ensures
        (count_upto(a.len() as int, |i: int| i >= 1 && parallel_step(a, b, i, 7)) == 0)
            == free_of_parallels(a, b, 7),
        (count_upto(a.len() as int, |i: int| i >= 1 && octave_step(a, b, i)) == 0)
            == free_of_consecutive_octaves(a, b),
{
    let p = |i: int| i >= 1 && parallel_step(a, b, i, 7);
    lemma_count_zero(a.len() as int, p);
    if free_of_parallels(a, b, 7) {
        assert forall|i: int| 0 <= i < a.len() implies !#[trigger] p(i) by {
            if i >= 1 {
                assert(!parallel_step(a, b, i, 7));
            }
        }
    } else {
        let i = choose|i: int| 1 <= i < a.len() && #[trigger] parallel_step(a, b, i, 7);
        assert(p(i));
    }
    let q = |i: int| i >= 1 && octave_step(a, b, i);
    lemma_count_zero(a.len() as int, q);
    if free_of_consecutive_octaves(a, b) {
        assert forall|i: int| 0 <= i < a.len() implies !#[trigger] q(i) by {
            if i >= 1 {
                assert(!octave_step(a, b, i));
            }
        }
    } else {
        let i = choose|i: int| 1 <= i < a.len() && #[trigger] octave_step(a, b, i);
        assert(q(i));
    }
}

} // verus!
