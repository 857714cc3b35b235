//! Interval arithmetic and pitch-class math.
use vstd::prelude::*;
use crate::arith::{abs_int, abs_i32, rem_euclid_12, diff_ok};

verus! {

/// Semitones in an octave.
pub const OCTAVE: i32 = 12;

/// Interval classes (in semitones, after octave reduction) that count as consonant:
/// unison/octave, minor and major third, fifth, minor and major sixth. The fourth is a
/// dissonance in two-part first species.
pub const CONSONANT_INTERVALS: [i32; 6] = [0, 3, 4, 7, 8, 9];

/// Interval classes that count as perfect consonances: unison/octave and fifth.
pub const PERFECT_INTERVALS: [i32; 2] = [0, 7];

/// Names of the twelve pitch classes, starting at C.
pub const PITCH_NAMES: [&'static str; 12] = ["C", "C#", "D", "D#", "E", "F", "F#", "G", "G#", "A", "A#", "B"];

/// The pitch class of `n`: its Euclidean remainder modulo 12.
pub open spec fn pc_of(n: int) -> int {
    n % 12
}

/// Octave-reduced size of an interval of `s` semitones, whatever its direction.
pub open spec fn interval_class(s: int) -> int {
    abs_int(s) % 12
}

/// Interval classes listed in `CONSONANT_INTERVALS`.
pub open spec fn consonant_class(c: int) -> bool {
    c == 0 || c == 3 || c == 4 || c == 7 || c == 8 || c == 9
}

/// Interval classes listed in `PERFECT_INTERVALS`.
pub open spec fn perfect_class(c: int) -> bool {
    c == 0 || c == 7
}

/// The name of pitch class `pc` (0..12).
pub open spec fn pitch_name_of(pc: int) -> Seq<char> {
    if pc == 0 { "C"@ }
    else if pc == 1 { "C#"@ }
    else if pc == 2 { "D"@ }
    else if pc == 3 { "D#"@ }
    else if pc == 4 { "E"@ }
    else if pc == 5 { "F"@ }
    else if pc == 6 { "F#"@ }
    else if pc == 7 { "G"@ }
    else if pc == 8 { "G#"@ }
    else if pc == 9 { "A"@ }
    else if pc == 10 { "A#"@ }
    else { "B"@ }
}

/// The signed shortest step from `from` to `to` on the pitch-class circle, in -5..=6.
pub open spec fn semitone_step(from: int, to: int) -> int {
    let d = (to - from) % 12;
    if d > 6 { d - 12 } else { d }
}

/// `s` is consonant: its octave-reduced size is in `CONSONANT_INTERVALS`.
pub fn is_consonant(s: i32) -> (r: bool)
    requires
        s != i32::MIN,
    ensures
        r == consonant_class(interval_class(s as int)),
{
    let c = abs_i32(s) % OCTAVE;
    let mut i: usize = 0;
    while i < CONSONANT_INTERVALS.len()
        invariant
            0 <= i <= 6,
            0 <= c < 12,
            c == interval_class(s as int),
            forall|j: int| 0 <= j < i ==> CONSONANT_INTERVALS@[j] != c,
        decreases 6 - i,
    {
        if CONSONANT_INTERVALS[i] == c {
            return true;
        }
        i = i + 1;
    }
    assert(!consonant_class(c as int)) by {
        assert(CONSONANT_INTERVALS@[0] == 0 && CONSONANT_INTERVALS@[1] == 3 && CONSONANT_INTERVALS@[2] == 4
            && CONSONANT_INTERVALS@[3] == 7 && CONSONANT_INTERVALS@[4] == 8 && CONSONANT_INTERVALS@[5] == 9);
    }
    false
}

/// `s` is perfect: its octave-reduced size is in `PERFECT_INTERVALS`.
pub fn is_perfect(s: i32) -> (r: bool)
    requires
        s != i32::MIN,
    ensures
        r == perfect_class(interval_class(s as int)),
{
    let c = abs_i32(s) % OCTAVE;
    let mut i: usize = 0;
    while i < PERFECT_INTERVALS.len()
        invariant
            0 <= i <= 2,
            0 <= c < 12,
            c == interval_class(s as int),
            forall|j: int| 0 <= j < i ==> PERFECT_INTERVALS@[j] != c,
        decreases 2 - i,
    {
        if PERFECT_INTERVALS[i] == c {
            return true;
        }
        i = i + 1;
    }
    assert(!perfect_class(c as int)) by {
        assert(PERFECT_INTERVALS@[0] == 0 && PERFECT_INTERVALS@[1] == 7);
    }
    false
}

/// The name of the pitch class of `n` ("C", "C#", ..., "B").
pub fn pitch_name(n: i32) -> (r: &'static str)
    ensures
        r@ == pitch_name_of(pc_of(n as int)),
{
    let pc = rem_euclid_12(n);
    PITCH_NAMES[pc as usize]
}

/// The pitch class of a note: its Euclidean remainder modulo 12, in 0..12.
pub fn pitch_class(n: i32) -> (r: i32)
    ensures
        r == pc_of(n as int),
        0 <= r < 12,
{
    rem_euclid_12(n)
}

/// The signed shortest step from `from` to `to` on the pitch-class circle, in -5..=6.
pub fn semitone_interval(from: i32, to: i32) -> (r: i32)
    requires
        i32::MIN <= to - from <= i32::MAX,
    ensures
        r == semitone_step(from as int, to as int),
        -5 <= r <= 6,
{
    let d = rem_euclid_12(to - from);
    if d > 6 { d - OCTAVE } else { d }
}

/// The harmonic interval between `a` and `b` is consonant.
pub fn consonant_interval(a: i32, b: i32) -> (r: bool)
    requires
        diff_ok(a, b),
    ensures
        r == consonant_class(interval_class(a - b)),
{
    is_consonant(abs_i32(a - b))
}

/// Octave equivalence: a pitch and the pitch an octave higher share their pitch class,
/// and an interval is classified by its size alone, whatever its direction and however
/// many octaves it spans.
pub proof fn law_octave_equivalence(n: int, s: int)
    ensures
        pc_of(n + 12) == pc_of(n),
        0 <= pc_of(n) < 12,
        interval_class(-s) == interval_class(s),
        s >= 0 ==> interval_class(s + 12) == interval_class(s),
        consonant_class(interval_class(s)) == consonant_class(interval_class(-s)),
        perfect_class(interval_class(s)) ==> consonant_class(interval_class(s)),
{
}

/// The step from `from` to `to` reaches `to`'s pitch class from `from`'s, and is the
/// opposite of the step back except across a tritone.
pub proof fn law_semitone_step(from: int, to: int)
    ensures
        -5 <= semitone_step(from, to) <= 6,
        pc_of(from + semitone_step(from, to)) == pc_of(to),
        semitone_step(from, to) != 6 ==> semitone_step(to, from) == -semitone_step(from, to),
{
}

/// The consonances are the perfect ones (unison or octave, fifth) and the imperfect ones
/// (minor and major thirds and sixths: 3, 4, 8, 9 semitones); the seconds (1, 2), the
/// fourth (5), the tritone (6) and the sevenths (10, 11) are dissonant.
pub proof fn law_consonance_classes(s: int)
    ensures
        perfect_class(interval_class(s)) <==> (interval_class(s) == 0 || interval_class(s) == 7),
        consonant_class(interval_class(s)) <==> (perfect_class(interval_class(s)) || interval_class(s) == 3
            || interval_class(s) == 4 || interval_class(s) == 8 || interval_class(s) == 9),
        !consonant_class(interval_class(s)) <==> (interval_class(s) == 1 || interval_class(s) == 2
            || interval_class(s) == 5 || interval_class(s) == 6 || interval_class(s) == 10 || interval_class(s) == 11),
{
}

} // verus!
