//! Species counterpoint rules over two voices given as pitch sequences.
use vstd::prelude::*;
use crate::arith::{abs_int, sign, diff_ok, abs_i32, signum_i32, count_upto};
use crate::interval::{interval_class, consonant_class, is_consonant, OCTAVE};

verus! {

/// Two voices move from `(a0, b0)` to `(a1, b1)` in the same direction while
/// both harmonic intervals reduce to the interval class `iv`.
pub open spec fn moves_in_parallel(a0: int, b0: int, a1: int, b1: int, iv: int) -> bool {
    &&& interval_class(a0 - b0) == iv
    &&& interval_class(a1 - b1) == iv
    &&& sign(a1 - a0) != 0
    &&& sign(a1 - a0) == sign(b1 - b0)
}

/// Step `i` (from beat `i - 1` to beat `i`) is a parallel motion in interval class `iv`.
pub open spec fn parallel_step(a: Seq<i32>, b: Seq<i32>, i: int, iv: int) -> bool {
    moves_in_parallel(a[i - 1] as int, b[i - 1] as int, a[i] as int, b[i] as int, iv)
}

/// The two voices have equal length and at least two notes, so that the
/// two-voice rules apply to them.
pub open spec fn voices_paired(a: Seq<i32>, b: Seq<i32>) -> bool {
    a.len() >= 2 && a.len() == b.len()
}

/// No melodic step of `v` leaves the `i32` range.
pub open spec fn steps_fit(v: Seq<i32>) -> bool {
    forall|i: int| 1 <= i < v.len() ==> i32::MIN <= #[trigger] v[i] - v[i - 1] <= i32::MAX
}

/// Every harmonic interval of two voices of equal length is an `i32` whose absolute
/// value is an `i32`.
pub open spec fn pairs_fit(a: Seq<i32>, b: Seq<i32>) -> bool {
    a.len() == b.len() ==> forall|i: int| 0 <= i < a.len() ==> diff_ok(#[trigger] a[i], b[i])
}

/// Every harmonic interval and every melodic step of two voices of equal
/// length is an `i32` (the arithmetic of the two-voice rules cannot overflow).
pub open spec fn voices_fit(a: Seq<i32>, b: Seq<i32>) -> bool {
    a.len() == b.len() ==> {
        &&& pairs_fit(a, b)
        &&& steps_fit(a)
        &&& steps_fit(b)
    }
}

/// Step `i` joins two unisons or octaves (interval class 0 at beat `i - 1` and at
/// beat `i`), whatever the voices do.
pub open spec fn octave_step(a: Seq<i32>, b: Seq<i32>, i: int) -> bool {
    interval_class(a[i - 1] - b[i - 1]) == 0 && interval_class(a[i] - b[i]) == 0
}

/// The voices never sound unisons or octaves on two consecutive beats.
pub open spec fn free_of_consecutive_octaves(a: Seq<i32>, b: Seq<i32>) -> bool {
    !voices_paired(a, b) || forall|i: int| 1 <= i < a.len() ==> !#[trigger] octave_step(a, b, i)
}

/// The voices contain no parallel motion in interval class `iv`.
pub open spec fn free_of_parallels(a: Seq<i32>, b: Seq<i32>, iv: int) -> bool {
    !voices_paired(a, b) || forall|i: int| 1 <= i < a.len() ==> !#[trigger] parallel_step(a, b, i, iv)
}

fn no_parallel(a: &[i32], b: &[i32], iv: i32) -> (r: bool)
    requires
        voices_fit(a@, b@),
    ensures
        r == free_of_parallels(a@, b@, iv as int),
{
    if a.len() < 2 || a.len() != b.len() {
        return true;
    }
    let mut i: usize = 1;
    while i < a.len()
        invariant
            voices_paired(a@, b@),
            voices_fit(a@, b@),
            1 <= i <= a.len(),
            forall|j: int| 1 <= j < i ==> !#[trigger] parallel_step(a@, b@, j, iv as int),
        decreases a.len() - i,
    {
        assert(diff_ok(a@[i - 1], b@[i - 1]) && diff_ok(a@[i as int], b@[i as int]));
        let pi = abs_i32(a[i - 1] - b[i - 1]) % OCTAVE;
        let ci = abs_i32(a[i] - b[i]) % OCTAVE;
        if pi == iv && ci == iv {
            assert(i32::MIN <= a@[i as int] - a@[i - 1] <= i32::MAX);
            assert(i32::MIN <= b@[i as int] - b@[i - 1] <= i32::MAX);
            let da = signum_i32(a[i] - a[i - 1]);
            let db = signum_i32(b[i] - b[i - 1]);
            if da != 0 && da == db {
                assert(parallel_step(a@, b@, i as int, iv as int));
                return false;
            }
        }
        i = i + 1;
    }
    true
}

/// No two consecutive perfect fifths (interval class 7) reached by similar motion.
pub fn no_parallel_fifths(a: &[i32], b: &[i32]) -> (r: bool)
    requires
        voices_fit(a@, b@),
    ensures
        r == free_of_parallels(a@, b@, 7),
{
    no_parallel(a, b, 7)
}

/// No two consecutive unisons or octaves (interval class 0), whatever the motion.
pub fn no_parallel_octaves(a: &[i32], b: &[i32]) -> (r: bool)
    requires
        pairs_fit(a@, b@),
    ensures
        r == free_of_consecutive_octaves(a@, b@),
{
    if a.len() < 2 || a.len() != b.len() {
        return true;
    }
    let mut i: usize = 1;
    while i < a.len()
        invariant
            voices_paired(a@, b@),
            pairs_fit(a@, b@),
            1 <= i <= a.len(),
            forall|j: int| 1 <= j < i ==> !#[trigger] octave_step(a@, b@, j),
        decreases a.len() - i,
    {
        assert(diff_ok(a@[i - 1], b@[i - 1]) && diff_ok(a@[i as int], b@[i as int]));
        let pi = abs_i32(a[i - 1] - b[i - 1]) % OCTAVE;
        let ci = abs_i32(a[i] - b[i]) % OCTAVE;
        if pi == 0 && ci == 0 {
            assert(octave_step(a@, b@, i as int));
            return false;
        }
        i = i + 1;
    }
    true
}

/// Remainder of `x` modulo 12 that keeps the sign of `x` (Rust's `%`).
pub open spec fn trunc_rem12(x: int) -> int {
    if x >= 0 { x % 12 } else { -((-x) % 12) }
}

/// Step `i` of `v` moves from the leading tone of `tonic` to a note other than the tonic
/// (pitch classes taken with Rust's sign-keeping `%`).
pub open spec fn unresolved_leading_tone(v: Seq<i32>, tonic: int, i: int) -> bool {
    trunc_rem12(v[i - 1] as int) == trunc_rem12(tonic + 11) && trunc_rem12(v[i] as int) != trunc_rem12(tonic)
}

/// Every leading tone in `v` resolves to the tonic.
pub fn proper_resolution(v: &[i32], tonic: i32) -> (r: bool)
    requires
        v.len() >= 2 ==> tonic <= i32::MAX - 11,
    ensures
        r == forall|i: int| 1 <= i < v.len() ==> !#[trigger] unresolved_leading_tone(v@, tonic as int, i),
        r == forall|i: int| 1 <= i < v.len() ==> !(trunc_rem12(#[trigger] v@[i - 1] as int) == trunc_rem12(tonic + 11)
            && trunc_rem12(v@[i] as int) != trunc_rem12(tonic as int)),
{
    if v.len() < 2 {
        return true;
    }
    let mut i: usize = 1;
    while i < v.len()
        invariant
            tonic <= i32::MAX - 11,
            1 <= i <= v.len(),
            forall|j: int| 1 <= j < i ==> !#[trigger] unresolved_leading_tone(v@, tonic as int, j),
        decreases v.len() - i,
    {
        let p = v[i - 1] % OCTAVE;
        let c = v[i] % OCTAVE;
        if p == (tonic + 11) % OCTAVE && c != tonic % OCTAVE {
            assert(unresolved_leading_tone(v@, tonic as int, i as int));
            assert(trunc_rem12(v@[i - 1] as int) == trunc_rem12(tonic + 11)
                && trunc_rem12(v@[i as int] as int) != trunc_rem12(tonic as int));
            return false;
        }
        i = i + 1;
    }
    assert forall|j: int| 1 <= j < v.len() implies !(trunc_rem12(#[trigger] v@[j - 1] as int) == trunc_rem12(tonic + 11)
        && trunc_rem12(v@[j] as int) != trunc_rem12(tonic as int)) by {
        assert(!unresolved_leading_tone(v@, tonic as int, j));
    }
    true
}

/// No melodic leap in `v` exceeds an octave (12 semitones).
pub fn max_leap_seventh(v: &[i32]) -> (r: bool)
    requires
        forall|i: int| 1 <= i < v.len() ==> diff_ok(#[trigger] v[i], v[i - 1]),
    ensures
        r == forall|i: int| 1 <= i < v.len() ==> abs_int(#[trigger] v[i] - v[i - 1]) <= 12,
{
    let mut i: usize = 1;
    while i < v.len()
        invariant
            forall|k: int| 1 <= k < v.len() ==> diff_ok(#[trigger] v[k], v[k - 1]),
            1 <= i,
            i <= v.len() || v.len() == 0,
            forall|j: int| 1 <= j < i && j < v.len() ==> abs_int(#[trigger] v[j] - v[j - 1]) <= 12,
        decreases v.len() - i,
    {
        assert(diff_ok(v@[i as int], v@[i - 1]));
        if abs_i32(v[i] - v[i - 1]) > 12 {
            return false;
        }
        i = i + 1;
    }
    true
}

/// The harmonic interval between `a` and `b` is consonant.
pub fn consonant_check(a: i32, b: i32) -> (r: bool)
    requires
        diff_ok(a, b),
    ensures
        r == consonant_class(interval_class(a - b)),
{
    is_consonant(abs_i32(a - b))
}

/// Step `i` moves both voices in the same direction.
pub open spec fn similar_step(a: Seq<i32>, b: Seq<i32>, i: int) -> bool {
    sign(a[i] - a[i - 1]) != 0 && sign(a[i] - a[i - 1]) == sign(b[i] - b[i - 1])
}

/// Step `i` moves both voices, in opposite directions.
pub open spec fn contrary_step(a: Seq<i32>, b: Seq<i32>, i: int) -> bool {
    sign(a[i] - a[i - 1]) != 0 && sign(b[i] - b[i - 1]) != 0 && sign(a[i] - a[i - 1]) != sign(b[i] - b[i - 1])
}

/// Step `i` moves both voices (neither holds its note).
pub open spec fn both_move(a: Seq<i32>, b: Seq<i32>, i: int) -> bool {
    sign(a[i] - a[i - 1]) != 0 && sign(b[i] - b[i - 1]) != 0
}

/// For voices of equal length with at least three notes, the number of steps in
/// similar motion and the number of steps; `None` when the rule does not apply.
/// The voices are independent when the first divided by the second stays within a threshold.
pub fn similar_motion_counts(a: &[i32], b: &[i32]) -> (r: Option<(usize, usize)>)
    requires
        voices_fit(a@, b@),
    ensures
        (a.len() < 3 || a.len() != b.len()) ==> r is None,
        !(a.len() < 3 || a.len() != b.len()) ==> r == Some((
            count_upto(a.len() as int, |i: int| i >= 1 && similar_step(a@, b@, i)) as usize,
            (a.len() - 1) as usize,
        )),
{
    if a.len() < 3 || a.len() != b.len() {
        return None;
    }
    let ghost p = |i: int| i >= 1 && similar_step(a@, b@, i);
    let mut s: usize = 0;
    let mut i: usize = 1;
    proof {
        reveal_with_fuel(count_upto, 2);
    }
    while i < a.len()
        invariant
            voices_paired(a@, b@),
            voices_fit(a@, b@),
            1 <= i <= a.len(),
            p == (|i: int| i >= 1 && similar_step(a@, b@, i)),
            s == count_upto(i as int, p),
            s <= i,
        decreases a.len() - i,
    {
        assert(i32::MIN <= a@[i as int] - a@[i - 1] <= i32::MAX);
        assert(i32::MIN <= b@[i as int] - b@[i - 1] <= i32::MAX);
        let da = signum_i32(a[i] - a[i - 1]);
        let db = signum_i32(b[i] - b[i - 1]);
        if da != 0 && da == db {
            s = s + 1;
        }
        i = i + 1;
    }
    Some((s, a.len() - 1))
}

/// For voices of equal length with at least two notes, the number of steps in
/// contrary motion and the number of steps in which both voices move; `None`
/// when the rule does not apply. The contrary-motion score is the first divided
/// by the second (0 when the second is 0).
pub fn contrary_motion_counts(a: &[i32], b: &[i32]) -> (r: Option<(usize, usize)>)
    requires
        voices_fit(a@, b@),
    ensures
        (a.len() < 2 || a.len() != b.len()) ==> r is None,
        !(a.len() < 2 || a.len() != b.len()) ==> r == Some((
            count_upto(a.len() as int, |i: int| i >= 1 && contrary_step(a@, b@, i)) as usize,
            count_upto(a.len() as int, |i: int| i >= 1 && both_move(a@, b@, i)) as usize,
        )),
{
    if a.len() < 2 || a.len() != b.len() {
        return None;
    }
    let ghost pc = |i: int| i >= 1 && contrary_step(a@, b@, i);
    let ghost pt = |i: int| i >= 1 && both_move(a@, b@, i);
    let mut c: usize = 0;
    let mut t: usize = 0;
    let mut i: usize = 1;
    proof {
        reveal_with_fuel(count_upto, 2);
    }
    while i < a.len()
        invariant
            voices_paired(a@, b@),
            voices_fit(a@, b@),
            1 <= i <= a.len(),
            pc == (|i: int| i >= 1 && contrary_step(a@, b@, i)),
            pt == (|i: int| i >= 1 && both_move(a@, b@, i)),
            c == count_upto(i as int, pc),
            t == count_upto(i as int, pt),
            c <= t <= i,
        decreases a.len() - i,
    {
        assert(i32::MIN <= a@[i as int] - a@[i - 1] <= i32::MAX);
        assert(i32::MIN <= b@[i as int] - b@[i - 1] <= i32::MAX);
        let da = signum_i32(a[i] - a[i - 1]);
        let db = signum_i32(b[i] - b[i - 1]);
        if da != 0 && db != 0 {
            t = t + 1;
            if da != db {
                c = c + 1;
            }
        }
        i = i + 1;
    }
    Some((c, t))
}

/// Every note of `v` lies in `lo..=hi`.
pub fn voice_range_invariant(v: &[i32], lo: i32, hi: i32) -> (r: bool)
    ensures
        r == forall|i: int| 0 <= i < v.len() ==> lo <= #[trigger] v[i] <= hi,
{
    let mut i: usize = 0;
    while i < v.len()
        invariant
            0 <= i <= v.len(),
            forall|j: int| 0 <= j < i ==> lo <= #[trigger] v[j] <= hi,
        decreases v.len() - i,
    {
        if !(v[i] >= lo && v[i] <= hi) {
            return false;
        }
        i = i + 1;
    }
    true
}

/// The parallel-motion and consecutive-octave rules do not depend on which voice is
/// named first.
pub proof fn law_parallels_symmetric(a: Seq<i32>, b: Seq<i32>, iv: int)
    ensures
        free_of_parallels(a, b, iv) == free_of_parallels(b, a, iv),
        free_of_consecutive_octaves(a, b) == free_of_consecutive_octaves(b, a),
{
    assert forall|i: int| 1 <= i < a.len() implies octave_step(a, b, i) == octave_step(b, a, i) by {
        assert(interval_class(a[i - 1] - b[i - 1]) == interval_class(b[i - 1] - a[i - 1]));
        assert(interval_class(a[i] - b[i]) == interval_class(b[i] - a[i]));
    }
    if voices_paired(a, b) {
        assert(forall|i: int| 1 <= i < a.len() ==> #[trigger] octave_step(a, b, i) == octave_step(b, a, i));
    }
    assert forall|i: int| 1 <= i < a.len() implies parallel_step(a, b, i, iv) == parallel_step(b, a, i, iv) by {
        assert(interval_class(a[i - 1] - b[i - 1]) == interval_class(b[i - 1] - a[i - 1]));
        assert(interval_class(a[i] - b[i]) == interval_class(b[i] - a[i]));
    }
    if voices_paired(a, b) {
        assert(forall|i: int| 1 <= i < a.len() ==> #[trigger] parallel_step(a, b, i, iv) == parallel_step(b, a, i, iv));
    }
}

/// Rust's `%` by 12: the remainder keeps the sign of `x`, is smaller than 12 in size, and
/// differs from `x` by a multiple of 12.
pub proof fn law_trunc_rem12(x: int)
    ensures
        x >= 0 ==> 0 <= trunc_rem12(x) < 12,
        x < 0 ==> -12 < trunc_rem12(x) <= 0,
        (x - trunc_rem12(x)) % 12 == 0,
{
}

/// A leading tone resolves only to the tonic: every step of the voice, wherever it stands,
/// from a note with the pitch class of the leading tone (tonic + 11) to a note without the
/// tonic's pitch class is an unresolved leading tone, and no other step is.
pub proof fn law_every_step_checked(v: Seq<i32>, tonic: int)
    ensures
        forall|i: int| 1 <= i < v.len() ==> (#[trigger] unresolved_leading_tone(v, tonic, i) <==> (
            trunc_rem12(v[i - 1] as int) == trunc_rem12(tonic + 11) && trunc_rem12(v[i] as int) != trunc_rem12(tonic))),
        forall|i: int| 1 <= i < v.len() && v[i - 1] as int % 12 == 11 && tonic % 12 == 0 && v[i - 1] >= 0
            && v[i] >= 0 && tonic >= 0 && v[i] as int % 12 != 0 ==> #[trigger] unresolved_leading_tone(v, tonic, i),
{
}

} // verus!
