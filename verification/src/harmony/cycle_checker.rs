//! Holonomy of a chord progression around the circle of fifths.
use vstd::prelude::*;
use crate::arith::{abs_int, abs_i32, rem_euclid_12, count_upto};
use crate::interval::semitone_step;
use crate::harmony::tonal_graph::{
    circle_of_fifths_position, classify_direction, direction_of, fifths_position, semitone_interval,
    TransitionDirection,
};

verus! {

/// The kind of a progression, judged from its walk around the circle of fifths.
#[derive(Debug, Clone, Copy, PartialEq, Eq, Structural)]
pub enum ProgressionType {
    Diatonic,
    ModalInterchange,
    Modulation,
    ChromaticMediant,
    Chromatic,
    Unknown,
}

/// The walk of a progression around the circle of fifths. The winding number of the
/// walk is `winding_fifths / 12`.
#[derive(Debug, Clone)]
pub struct HolonomyResult {
    pub holonomy: i32,
    pub winding_fifths: i32,
    pub max_deviation: i32,
    pub progression_type: ProgressionType,
    pub steps: Vec<(i32, i32, TransitionDirection)>,
    pub cumulative: Vec<i32>,
}

impl HolonomyResult {
    /// The walk closes up: its holonomy is 0.
    pub fn is_consistent(&self) -> (r: bool)
        ensures
            r == (self.holonomy == 0),
    {
        self.holonomy == 0
    }
}

/// The roots visited: the roots, then the first root again when `wrap` asks to close a
/// progression of more than one chord.
pub open spec fn progression_path(roots: Seq<i32>, wrap: bool) -> Seq<i32> {
    if wrap && roots.len() > 1 { roots.push(roots[0]) } else { roots }
}

/// The shortest signed move on the circle of fifths from `from` to `to`, in -6..=6.
pub open spec fn fifths_step(from: int, to: int) -> int {
    let d = fifths_position(to) - fifths_position(from);
    if d > 6 { d - 12 } else if d < -6 { d + 12 } else { d }
}

/// The position of the walk after its first `n` moves.
pub open spec fn fifths_walk(path: Seq<i32>, n: int) -> int
    decreases n,
{
    if n <= 0 { 0 } else { fifths_walk(path, n - 1) + fifths_step(path[n - 1] as int, path[n] as int) }
}

/// The farthest the walk strays from its start during its first `n` moves.
pub open spec fn max_excursion(path: Seq<i32>, n: int) -> int
    decreases n,
{
    if n <= 0 {
        0
    } else {
        let m = max_excursion(path, n - 1);
        let d = abs_int(fifths_walk(path, n));
        if m >= d { m } else { d }
    }
}

/// The holonomy of a walk that ends `total` fifths from its start: `7 * total mod 12`
/// as a signed value in -5..=6.
pub open spec fn holonomy_of(total: int) -> int {
    let h = (total * 7) % 12;
    if h > 6 { h - 12 } else { h }
}

/// Move `i` is a mediant move by a third (3 or 4 semitones either way).
pub open spec fn third_mediant(steps: Seq<(i32, i32, TransitionDirection)>, i: int) -> bool {
    &&& steps[i].2 == TransitionDirection::Mediant
    &&& abs_int(semitone_step(steps[i].0 as int, steps[i].1 as int)) == 3
        || abs_int(semitone_step(steps[i].0 as int, steps[i].1 as int)) == 4
}

/// The kind of a progression from its holonomy, its largest excursion, where its walk
/// ends, and how many of its moves are mediant moves by a third. (A winding number
/// `total / 12` of at least one half in size is a walk that ends at least 6 fifths away.)
pub open spec fn progression_kind(hol: int, max_dev: int, total: int, thirds: int) -> ProgressionType {
    if hol == 0 && max_dev <= 2 {
        ProgressionType::Diatonic
    } else if thirds >= 2 && max_dev >= 3 {
        ProgressionType::ChromaticMediant
    } else if hol == 0 && max_dev > 2 {
        ProgressionType::ModalInterchange
    } else if abs_int(total) >= 6 || abs_int(hol) >= 3 {
        ProgressionType::Modulation
    } else if max_dev >= 4 {
        ProgressionType::Chromatic
    } else {
        ProgressionType::Unknown
    }
}

/// Every root movement along the path is an `i32`.
pub open spec fn path_fits(path: Seq<i32>) -> bool {
    forall|i: int| 1 <= i < path.len() ==> i32::MIN <= #[trigger] path[i] - path[i - 1] <= i32::MAX
}

/// The walk of `path` never strays beyond the `i32` range and seven times its final
/// position is an `i32` (the walk's arithmetic cannot overflow).
pub open spec fn walk_fits(path: Seq<i32>) -> bool {
    let m = path.len() - 1;
    max_excursion(path, m) <= i32::MAX && 7 * abs_int(fifths_walk(path, m)) <= i32::MAX
}

proof fn lemma_excursion_monotone(path: Seq<i32>, k: int, m: int)
    requires
        0 <= k <= m,
    ensures
        abs_int(fifths_walk(path, k)) <= max_excursion(path, m),
        max_excursion(path, k) <= max_excursion(path, m),
    decreases m - k,
{
    if k < m {
        lemma_excursion_monotone(path, k, m - 1);
    } else {
        lemma_walk_bounds(path, k);
    }
}

proof fn lemma_walk_bounds(path: Seq<i32>, n: int)
    requires
        n >= 0,
    ensures
        abs_int(fifths_walk(path, n)) <= 6 * n,
        0 <= max_excursion(path, n) <= 6 * n,
        abs_int(fifths_walk(path, n)) <= max_excursion(path, n),
    decreases n,
{
    if n > 0 {
        lemma_walk_bounds(path, n - 1);
    }
}

fn path_of(roots: &[i32], wrap: bool) -> (path: Vec<i32>)
    ensures
        path@ == progression_path(roots@, wrap),
{
    let mut path: Vec<i32> = Vec::new();
    let mut i: usize = 0;
    while i < roots.len()
        invariant
            0 <= i <= roots.len(),
            path@ == roots@.take(i as int),
        decreases roots.len() - i,
    {
        path.push(roots[i]);
        assert(roots@.take(i + 1) =~= roots@.take(i as int).push(roots@[i as int]));
        i = i + 1;
    }
    assert(roots@.take(roots.len() as int) =~= roots@);
    if wrap && path.len() > 1 {
        let first = path[0];
        path.push(first);
    }
    assert(path@ =~= progression_path(roots@, wrap));
    path
}

proof fn lemma_path_breaks(p: Seq<i32>, k: int)
    requires
        1 <= k < p.len(),
        !(i32::MIN <= p[k] - p[k - 1] <= i32::MAX),
    ensures
        !path_fits(p),
{
}

proof fn lemma_walk_breaks(p: Seq<i32>, k: int)
    requires
        0 <= k <= p.len() - 1,
        abs_int(fifths_walk(p, k)) > i32::MAX,
    ensures
        !walk_fits(p),
{
    lemma_excursion_monotone(p, k, p.len() - 1);
}

fn co5_step(from: i32, to: i32) -> (r: i32)
    ensures
        r == fifths_step(from as int, to as int),
        -6 <= r <= 6,
{
    let p1 = circle_of_fifths_position(from);
    let p2 = circle_of_fifths_position(to);
    let mut d = p2 - p1;
    if d > 6 {
        d = d - 12;
    } else if d < -6 {
        d = d + 12;
    }
    d
}

/// Walks the roots (closing the loop when `wrap` is set and there is more than one
/// root) around the circle of fifths, and classifies the progression by the walk.
pub fn compute_holonomy(roots: &[i32], wrap: bool) -> (r: HolonomyResult)
    requires
        roots@.len() > 0,
        path_fits(progression_path(roots@, wrap)),
        walk_fits(progression_path(roots@, wrap)),
    ensures
        ({
            let p = progression_path(roots@, wrap);
            let m = p.len() - 1;
            &&& r.steps@.len() == m
            &&& forall|i: int| 0 <= i < m ==> #[trigger] r.steps@[i] == (p[i], p[i + 1],
                direction_of((p[i + 1] - p[i]) % 12))
            &&& r.cumulative@.len() == m + 1
            &&& forall|i: int| 0 <= i <= m ==> #[trigger] r.cumulative@[i] == fifths_walk(p, i)
            &&& r.winding_fifths == fifths_walk(p, m)
            &&& r.max_deviation == max_excursion(p, m)
            &&& r.holonomy == holonomy_of(fifths_walk(p, m))
            &&& r.progression_type == progression_kind(
                r.holonomy as int,
                r.max_deviation as int,
                r.winding_fifths as int,
                count_upto(m, |i: int| third_mediant(r.steps@, i)) as int,
            )
            &&& (r.progression_type == ProgressionType::Diatonic <==> (r.holonomy == 0 && r.max_deviation <= 2))
        }),
{
    let ghost p = progression_path(roots@, wrap);
    let path = path_of(roots, wrap);
    let mut steps: Vec<(i32, i32, TransitionDirection)> = Vec::new();
    let mut cum: Vec<i32> = Vec::new();
    cum.push(0);
    let mut total: i32 = 0;
    let mut max_dev: i32 = 0;
    let mut k: usize = 1;
    while k < path.len()
        invariant
            path@ == p,
            path_fits(p),
            walk_fits(p),
            1 <= k <= path@.len(),
            steps@.len() == k - 1,
            forall|j: int| 0 <= j < k - 1 ==> #[trigger] steps@[j] == (p[j], p[j + 1],
                direction_of((p[j + 1] - p[j]) % 12)),
            cum@.len() == k,
            forall|j: int| 0 <= j < k ==> #[trigger] cum@[j] == fifths_walk(p, j),
            total == fifths_walk(p, k - 1),
            max_dev == max_excursion(p, k - 1),
        decreases path.len() - k,
    {
        let a = path[k - 1];
        let b = path[k];
        proof {
            lemma_walk_bounds(p, k as int);
            lemma_excursion_monotone(p, k as int, p.len() - 1);
            lemma_excursion_monotone(p, k - 1, p.len() - 1);
        }
        let dir = classify_direction(a, b);
        let s = co5_step(a, b);
        total = total + s;
        cum.push(total);
        let at = abs_i32(total);
        if at > max_dev {
            max_dev = at;
        }
        steps.push((a, b, dir));
        k = k + 1;
    }
    let ghost m = p.len() - 1;
    proof {
        lemma_walk_bounds(p, m);
        lemma_excursion_monotone(p, m, m);
    }
    let mut hol = rem_euclid_12(total * 7);
    if hol > 6 {
        hol = hol - 12;
    }
    let pt = classify_sig(hol, max_dev, total, &steps);
    HolonomyResult {
        holonomy: hol,
        winding_fifths: total,
        max_deviation: max_dev,
        progression_type: pt,
        steps,
        cumulative: cum,
    }
}

fn classify_sig(hol: i32, max_dev: i32, total: i32, steps: &Vec<(i32, i32, TransitionDirection)>) -> (r: ProgressionType)
    requires
        total != i32::MIN,
        hol != i32::MIN,
        forall|i: int| 0 <= i < steps@.len() ==>
            i32::MIN <= (#[trigger] steps@[i]).1 - steps@[i].0 <= i32::MAX,
    ensures
        r == progression_kind(
            hol as int,
            max_dev as int,
            total as int,
            count_upto(steps@.len() as int, |i: int| third_mediant(steps@, i)) as int,
        ),
{
    if hol == 0 && max_dev <= 2 {
        return ProgressionType::Diatonic;
    }
    let ghost pm = |i: int| third_mediant(steps@, i);
    let mut tc: usize = 0;
    let mut i: usize = 0;
    proof {
        reveal_with_fuel(count_upto, 2);
    }
    while i < steps.len()
        invariant
            0 <= i <= steps.len(),
            forall|j: int| 0 <= j < steps@.len() ==>
                i32::MIN <= (#[trigger] steps@[j]).1 - steps@[j].0 <= i32::MAX,
            pm == (|i: int| third_mediant(steps@, i)),
            tc == count_upto(i as int, pm),
            tc <= i,
        decreases steps.len() - i,
    {
        let (a, b, d) = steps[i];
        assert(i32::MIN <= steps@[i as int].1 - steps@[i as int].0 <= i32::MAX);
        let si = abs_i32(semitone_interval(a, b));
        if d == TransitionDirection::Mediant && (si == 3 || si == 4) {
            tc = tc + 1;
        }
        i = i + 1;
    }
    if tc >= 2 && max_dev >= 3 {
        return ProgressionType::ChromaticMediant;
    }
    if hol == 0 && max_dev > 2 {
        return ProgressionType::ModalInterchange;
    }
    if abs_i32(total) >= 6 || abs_i32(hol) >= 3 {
        return ProgressionType::Modulation;
    }
    if max_dev >= 4 {
        return ProgressionType::Chromatic;
    }
    ProgressionType::Unknown
}

/// Whether the holonomy walk of `roots` (closed when `wrap` is set) can be computed
/// without overflow: every root movement and the walk itself stay in range.
pub fn holonomy_fits(roots: &[i32], wrap: bool) -> (r: bool)
    ensures
        r == (path_fits(progression_path(roots@, wrap)) && walk_fits(progression_path(roots@, wrap))),
{
    let ghost p = progression_path(roots@, wrap);
    let path = path_of(roots, wrap);
    if path.len() == 0 {
        return true;
    }
    let mut total: i64 = 0;
    let mut k: usize = 1;
    while k < path.len()
        invariant
            p == progression_path(roots@, wrap),
            path@ == p,
            1 <= k <= path@.len(),
            forall|j: int| 1 <= j < k ==> i32::MIN <= #[trigger] p[j] - p[j - 1] <= i32::MAX,
            max_excursion(p, k - 1) <= i32::MAX,
            total == fifths_walk(p, k - 1),
        decreases path.len() - k,
    {
        let a = path[k - 1];
        let b = path[k];
        let d = (b as i64) - (a as i64);
        if d < i32::MIN as i64 || d > i32::MAX as i64 {
            proof {
                lemma_path_breaks(p, k as int);
            }
            return false;
        }
        proof {
            lemma_walk_bounds(p, k as int);
        }
        let s = co5_step(a, b);
        total = total + s as i64;
        if total > i32::MAX as i64 || total < -(i32::MAX as i64) {
            proof {
                lemma_walk_breaks(p, k as int);
            }
            return false;
        }
        k = k + 1;
    }
    proof {
        lemma_walk_bounds(p, p.len() - 1);
    }
    let t = if total < 0 { -total } else { total };
    7 * t <= i32::MAX as i64
}

/// The kind of the (open) progression of `roots`.
pub fn classify_progression(roots: &[i32]) -> (r: ProgressionType)
    requires
        roots@.len() > 0,
        path_fits(roots@),
        walk_fits(roots@),
    ensures
        r == compute_holonomy_kind(roots@),
        r == ProgressionType::Diatonic <==> (holonomy_of(fifths_walk(roots@, roots@.len() - 1)) == 0
            && max_excursion(roots@, roots@.len() - 1) <= 2),
{
    let h = compute_holonomy(roots, false);
    proof {
        let m = roots@.len() - 1;
        let steps = Seq::new(m as nat, |i: int| (roots@[i], roots@[i + 1], direction_of((roots@[i + 1] - roots@[i]) % 12)));
        assert(h.steps@ =~= steps);
    }
    h.progression_type
}

/// The kind that `compute_holonomy` gives the open progression of `roots`.
pub open spec fn compute_holonomy_kind(roots: Seq<i32>) -> ProgressionType {
    let m = roots.len() - 1;
    let total = fifths_walk(roots, m);
    let steps = Seq::new(m as nat, |i: int| (roots[i], roots[i + 1], direction_of((roots[i + 1] - roots[i]) % 12)));
    progression_kind(holonomy_of(total), max_excursion(roots, m), total, count_upto(m, |i: int| third_mediant(steps, i)) as int)
}

/// The holonomy lies in -5..=6 and vanishes exactly when the walk ends a whole number
/// of turns (a multiple of 12 fifths) from its start.
pub proof fn law_holonomy_zero_iff_whole_turns(total: int)
    ensures
        -5 <= holonomy_of(total) <= 6,
        holonomy_of(total) == 0 <==> total % 12 == 0,
{
    vstd::arithmetic::div_mod::lemma_mul_mod_noop_left(total, 7, 12);
    let t = total % 12;
    assert((total * 7) % 12 == (t * 7) % 12);
    assert(0 <= t < 12);
    if t == 0 {} else if t == 1 {} else if t == 2 {} else if t == 3 {} else if t == 4 {}
    else if t == 5 {} else if t == 6 {} else if t == 7 {} else if t == 8 {} else if t == 9 {}
    else if t == 10 {} else {}
}

/// A move on the circle of fifths goes at most six fifths either way and lands on the
/// position of its target.
pub proof fn law_fifths_step(from: int, to: int)
    ensures
        -6 <= fifths_step(from, to) <= 6,
        (fifths_position(from) + fifths_step(from, to) - fifths_position(to)) % 12 == 0,
{
    assert(0 <= fifths_position(from) < 12 && 0 <= fifths_position(to) < 12);
}

/// How a progression is classified from its holonomy `hol`, its largest excursion
/// `max_dev`, the end `total` of its walk and its number `thirds` of mediant moves by a
/// third: Diatonic exactly for a closed walk (holonomy 0) that strays at most 2 fifths;
/// otherwise ChromaticMediant for at least two mediant thirds with an excursion of at
/// least 3; otherwise ModalInterchange for a closed walk; otherwise Modulation when the
/// walk ends at least 6 fifths away (winding number at least one half) or the holonomy
/// is at least 3 in size; otherwise Chromatic for an excursion of at least 4; otherwise Unknown.
pub proof fn law_progression_kinds(hol: int, max_dev: int, total: int, thirds: int)
    ensures
        ({
            let k = progression_kind(hol, max_dev, total, thirds);
            let closed_near = hol == 0 && max_dev <= 2;
            let mediants = thirds >= 2 && max_dev >= 3;
            let far = total >= 6 || total <= -6 || hol >= 3 || hol <= -3;
            &&& (k == ProgressionType::Diatonic <==> closed_near)
            &&& (k == ProgressionType::ChromaticMediant <==> !closed_near && mediants)
            &&& (k == ProgressionType::ModalInterchange <==> !closed_near && !mediants && hol == 0)
            &&& (k == ProgressionType::Modulation <==> hol != 0 && !mediants && far)
            &&& (k == ProgressionType::Chromatic <==> hol != 0 && !mediants && !far && max_dev >= 4)
            &&& (k == ProgressionType::Unknown <==> hol != 0 && !mediants && !far && max_dev < 4)
        }),
{
}

/// The largest excursion of a walk is the largest distance from the start that the walk
/// reaches after any number of its moves.
pub proof fn law_max_excursion(path: Seq<i32>, m: int)
    requires
        m >= 0,
    ensures
        forall|k: int| 0 <= k <= m ==> abs_int(#[trigger] fifths_walk(path, k)) <= max_excursion(path, m),
        exists|k: int| 0 <= k <= m && max_excursion(path, m) == abs_int(#[trigger] fifths_walk(path, k)),
    decreases m,
{
    if m == 0 {
        assert(max_excursion(path, 0) == abs_int(fifths_walk(path, 0)));
    } else {
        law_max_excursion(path, m - 1);
        assert forall|k: int| 0 <= k <= m implies abs_int(#[trigger] fifths_walk(path, k)) <= max_excursion(path, m) by {
            if k < m {
                assert(abs_int(fifths_walk(path, k)) <= max_excursion(path, m - 1));
            }
        }
        if max_excursion(path, m - 1) >= abs_int(fifths_walk(path, m)) {
            let k = choose|k: int| 0 <= k <= m - 1 && max_excursion(path, m - 1) == abs_int(#[trigger] fifths_walk(path, k));
            assert(max_excursion(path, m) == abs_int(fifths_walk(path, k)));
        } else {
            assert(max_excursion(path, m) == abs_int(fifths_walk(path, m)));
        }
    }
}

/// A progression is classified Diatonic exactly when its walk around the circle of
/// fifths closes up (holonomy 0) and never strays more than 2 fifths from its start.
pub proof fn law_diatonic_walk(roots: Seq<i32>, wrap: bool, r: HolonomyResult)
    requires
        roots.len() > 0,
        r.holonomy == holonomy_of(fifths_walk(progression_path(roots, wrap), progression_path(roots, wrap).len() - 1)),
        r.max_deviation == max_excursion(progression_path(roots, wrap), progression_path(roots, wrap).len() - 1),
        r.progression_type == ProgressionType::Diatonic <==> (r.holonomy == 0 && r.max_deviation <= 2),
    ensures
        ({
            let p = progression_path(roots, wrap);
            let m = p.len() - 1;
            r.progression_type == ProgressionType::Diatonic <==> (
                holonomy_of(fifths_walk(p, m)) == 0 && forall|k: int| 0 <= k <= m ==> -2 <= #[trigger] fifths_walk(p, k) <= 2)
        }),
{
    let p = progression_path(roots, wrap);
    let m = p.len() - 1;
    law_max_excursion(p, m);
    if forall|k: int| 0 <= k <= m ==> -2 <= #[trigger] fifths_walk(p, k) <= 2 {
        let k = choose|k: int| 0 <= k <= m && max_excursion(p, m) == abs_int(#[trigger] fifths_walk(p, k));
        assert(-2 <= fifths_walk(p, k) <= 2);
    }
    if r.max_deviation <= 2 {
        assert forall|k: int| 0 <= k <= m implies -2 <= #[trigger] fifths_walk(p, k) <= 2 by {
            assert(abs_int(fifths_walk(p, k)) <= max_excursion(p, m));
        }
    }
}

} // verus!
