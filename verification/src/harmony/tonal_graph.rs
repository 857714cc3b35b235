//! Pitch-class transitions and the tonal graph of a progression.
use vstd::prelude::*;
use vstd::string::StringExecFns;
use crate::arith::rem_euclid_12;
use crate::interval::{pitch_name_of, semitone_step};
use crate::text::{i32_to_decimal, signed_decimal};

verus! {

/// Names of the twelve pitch classes, starting at C.
pub const PITCH_NAMES: [&'static str; 12] = ["C", "C#", "D", "D#", "E", "F", "F#", "G", "G#", "A", "A#", "B"];

/// The pitch classes in circle-of-fifths order, starting at C.
pub const CIRCLE_OF_FIFTHS: [i32; 12] = [0, 7, 2, 9, 4, 11, 6, 1, 8, 3, 10, 5];

/// The name of pitch class `pc`, or an error for a value outside 0..=11.
pub fn pitch_name_fn(pc: i32) -> (r: Result<&'static str, String>)
    ensures
        0 <= pc <= 11 ==> (r matches Ok(name) && name@ == pitch_name_of(pc as int)),
        !(0 <= pc <= 11) ==> (r matches Err(m) && m@ == "invalid pc: "@ + signed_decimal(pc as int)),
{
    if !(0 <= pc && pc <= 11) {
        let mut m = String::from_str("invalid pc: ");
        let d = i32_to_decimal(pc);
        m.append(d.as_str());
        return Err(m);
    }
    Ok(PITCH_NAMES[pc as usize])
}

/// The position of pitch class `pc` on the circle of fifths (`7 * pc mod 12`), or 0
/// for a value that is not a pitch class.
pub open spec fn fifths_position(pc: int) -> int {
    if 0 <= pc < 12 { (pc * 7) % 12 } else { 0 }
}

/// The circle of fifths and `fifths_position` are inverse to each other on 0..12.
pub proof fn law_circle_of_fifths_inverse(i: int)
    requires
        0 <= i < 12,
    ensures
        0 <= CIRCLE_OF_FIFTHS@[i] < 12,
        fifths_position(CIRCLE_OF_FIFTHS@[i] as int) == i,
        0 <= fifths_position(i) < 12,
        CIRCLE_OF_FIFTHS@[fifths_position(i)] == i,
{
    assert(CIRCLE_OF_FIFTHS@ =~= seq![0i32, 7, 2, 9, 4, 11, 6, 1, 8, 3, 10, 5]);
    if i == 0 {} else if i == 1 {} else if i == 2 {} else if i == 3 {} else if i == 4 {}
    else if i == 5 {} else if i == 6 {} else if i == 7 {} else if i == 8 {} else if i == 9 {}
    else if i == 10 {} else {}
}

/// The position of `pc` on the circle of fifths, 0 when `pc` is not in 0..12.
pub fn circle_of_fifths_position(pc: i32) -> (r: i32)
    ensures
        r == fifths_position(pc as int),
        0 <= r < 12,
{
    let mut i: usize = 0;
    while i < CIRCLE_OF_FIFTHS.len()
        invariant
            0 <= i <= 12,
            forall|j: int| 0 <= j < i ==> CIRCLE_OF_FIFTHS@[j] != pc,
        decreases 12 - i,
    {
        if CIRCLE_OF_FIFTHS[i] == pc {
            proof {
                law_circle_of_fifths_inverse(i as int);
            }
            return i as i32;
        }
        i = i + 1;
    }
    proof {
        if 0 <= pc < 12 {
            law_circle_of_fifths_inverse(pc as int);
            assert(CIRCLE_OF_FIFTHS@[fifths_position(pc as int)] == pc);
        }
    }
    0
}

/// The signed shortest step from `from` to `to` on the pitch-class circle, in -5..=6.
pub fn semitone_interval(from: i32, to: i32) -> (r: i32)
    requires
        i32::MIN <= to - from <= i32::MAX,
    ensures
        r == semitone_step(from as int, to as int),
        -5 <= r <= 6,
{
    let d = rem_euclid_12(to - from);
    if d > 6 { d - 12 } else { d }
}

/// The harmonic function of a root movement.
#[derive(Debug, Clone, Copy, PartialEq, Eq, Hash, Structural)]
pub enum TransitionDirection {
    Dominant,
    Subdominant,
    Resolution,
    Mediant,
    Step,
    Tritone,
    NoMotion,
    Unknown,
}

/// The function of a root movement by `d` semitones upward (mod 12): none (0), to the
/// dominant (7), to the subdominant (5), a falling step resolving (10), a step (2, and
/// the remaining 1 and 11), to a mediant (3, 4, 8, 9), or by a tritone (6).
pub open spec fn direction_of(d: int) -> TransitionDirection {
    if d == 0 { TransitionDirection::NoMotion }
    else if d == 7 { TransitionDirection::Dominant }
    else if d == 5 { TransitionDirection::Subdominant }
    else if d == 10 { TransitionDirection::Resolution }
    else if d == 2 { TransitionDirection::Step }
    else if d == 3 || d == 4 || d == 8 || d == 9 { TransitionDirection::Mediant }
    else if d == 6 { TransitionDirection::Tritone }
    else { TransitionDirection::Step }
}

/// The function of the root movement from `from` to `to`.
pub fn classify_direction(from: i32, to: i32) -> (r: TransitionDirection)
    requires
        i32::MIN <= to - from <= i32::MAX,
    ensures
        r == direction_of((to - from) % 12),
        ({
            let d = (to - from) % 12;
            &&& (r == TransitionDirection::NoMotion <==> d == 0)
            &&& (r == TransitionDirection::Dominant <==> d == 7)
            &&& (r == TransitionDirection::Subdominant <==> d == 5)
            &&& (r == TransitionDirection::Resolution <==> d == 10)
            &&& (r == TransitionDirection::Tritone <==> d == 6)
            &&& (r == TransitionDirection::Mediant <==> (d == 3 || d == 4 || d == 8 || d == 9))
            &&& (r == TransitionDirection::Step <==> (d == 1 || d == 2 || d == 11))
            &&& r != TransitionDirection::Unknown
        }),
{
    let d = rem_euclid_12(to - from);
    if d == 0 {
        TransitionDirection::NoMotion
    } else if d == 7 {
        TransitionDirection::Dominant
    } else if d == 5 {
        TransitionDirection::Subdominant
    } else if d == 10 {
        TransitionDirection::Resolution
    } else if d == 2 {
        TransitionDirection::Step
    } else if d == 3 || d == 4 || d == 8 || d == 9 {
        TransitionDirection::Mediant
    } else if d == 6 {
        TransitionDirection::Tritone
    } else {
        TransitionDirection::Step
    }
}

/// The transitions of `g` with `e` added unless already present.
pub open spec fn with_transition(g: Seq<(i32, i32)>, e: (i32, i32)) -> Seq<(i32, i32)> {
    if g.contains(e) { g } else { g.push(e) }
}

/// The transitions of `g` after adding the root movements of the first `n` roots.
pub open spec fn with_progression(g: Seq<(i32, i32)>, roots: Seq<i32>, n: int) -> Seq<(i32, i32)>
    decreases n,
{
    if n <= 1 { g } else { with_transition(with_progression(g, roots, n - 1), (roots[n - 2], roots[n - 1])) }
}

/// The targets of the transitions of `g` that leave `pc`, in the order they were added.
pub open spec fn targets_from(g: Seq<(i32, i32)>, pc: i32) -> Seq<i32>
    decreases g.len(),
{
    if g.len() == 0 {
        seq![]
    } else {
        let rest = targets_from(g.drop_last(), pc);
        if g.last().0 == pc { rest.push(g.last().1) } else { rest }
    }
}

/// The directed root movements of a progression, each recorded once, in the order they
/// first occur. Weights of the movements are kept by the caller, index by index.
#[derive(Debug, Clone)]
pub struct TonalGraph {
    transitions: Vec<(i32, i32)>,
}

impl View for TonalGraph {
    type V = Seq<(i32, i32)>;

    closed spec fn view(&self) -> Seq<(i32, i32)> {
        self.transitions@
    }
}

impl TonalGraph {
    /// No transition is recorded twice.
    pub closed spec fn wf(&self) -> bool {
        self.transitions@.no_duplicates()
    }

    /// A graph without transitions.
    pub fn new() -> (r: Self)
        ensures
            r@ == Seq::<(i32, i32)>::empty(),
            r.wf(),
    {
        TonalGraph { transitions: Vec::new() }
    }

    /// Records the movement from `from` to `to` and returns its index among the
    /// transitions; a movement already recorded keeps its index.
    pub fn add_transition(&mut self, from: i32, to: i32) -> (r: usize)
        requires
            old(self).wf(),
        ensures
            final(self).wf(),
            final(self)@ == with_transition(old(self)@, (from, to)),
            r < final(self)@.len(),
            final(self)@[r as int] == (from, to),
    {
        let mut p: usize = 0;
        while p < self.transitions.len()
            invariant
                0 <= p <= self.transitions.len(),
                self.transitions@ == old(self).transitions@,
                old(self).wf(),
                forall|q: int| 0 <= q < p ==> self.transitions@[q] != (from, to),
            decreases self.transitions.len() - p,
        {
            if self.transitions[p].0 == from && self.transitions[p].1 == to {
                assert(self.transitions@.contains((from, to)));
                return p;
            }
            p = p + 1;
        }
        assert(!self.transitions@.contains((from, to)));
        self.transitions.push((from, to));
        proof {
            let t = self.transitions@;
            assert forall|a: int, b: int| 0 <= a < t.len() && 0 <= b < t.len() && a != b implies t[a] != t[b] by {
                if a < t.len() - 1 && b < t.len() - 1 {
                    assert(old(self)@.no_duplicates());
                    assert(t[a] == old(self)@[a] && t[b] == old(self)@[b]);
                } else if a == t.len() - 1 {
                    assert(old(self)@[b] != (from, to));
                } else {
                    assert(old(self)@[a] != (from, to));
                }
            }
        }
        p
    }

    /// Records the movement between each pair of consecutive roots, and returns, for
    /// each such pair in order, the index of its transition.
    pub fn build_from_progression(&mut self, roots: &[i32]) -> (r: Vec<usize>)
        requires
            old(self).wf(),
        ensures
            final(self).wf(),
            final(self)@ == with_progression(old(self)@, roots@, roots@.len() as int),
            r@.len() == if roots@.len() == 0 { 0 } else { roots@.len() - 1 },
            forall|i: int| 0 <= i < r@.len() ==> #[trigger] r@[i] < final(self)@.len()
                && final(self)@[r@[i] as int] == (roots@[i], roots@[i + 1]),
    {
        let mut r: Vec<usize> = Vec::new();
        if roots.len() < 2 {
            return r;
        }
        let mut i: usize = 1;
        while i < roots.len()
            invariant
                1 <= i <= roots.len(),
                self.wf(),
                self@ == with_progression(old(self)@, roots@, i as int),
                r@.len() == i - 1,
                forall|j: int| 0 <= j < r@.len() ==> #[trigger] r@[j] < self@.len()
                    && self@[r@[j] as int] == (roots@[j], roots@[j + 1]),
            decreases roots.len() - i,
        {
            let ghost before = self@;
            let idx = self.add_transition(roots[i - 1], roots[i]);
            assert(before.len() <= self@.len());
            assert(forall|j: int| 0 <= j < before.len() ==> self@[j] == before[j]);
            r.push(idx);
            i = i + 1;
        }
        r
    }

    /// The pitch classes reached from `pc`, in the order their transitions were added.
    pub fn neighbors(&self, pc: i32) -> (r: Vec<i32>)
        ensures
            r@ == targets_from(self@, pc),
    {
        let mut r: Vec<i32> = Vec::new();
        let mut i: usize = 0;
        while i < self.transitions.len()
            invariant
                0 <= i <= self.transitions.len(),
                r@ == targets_from(self.transitions@.take(i as int), pc),
            decreases self.transitions.len() - i,
        {
            assert(self.transitions@.take(i + 1).drop_last() =~= self.transitions@.take(i as int));
            if self.transitions[i].0 == pc {
                r.push(self.transitions[i].1);
            }
            i = i + 1;
        }
        assert(self.transitions@.take(self.transitions@.len() as int) =~= self.transitions@);
        r
    }

    /// The index of the movement from `from` to `to` among the transitions, if recorded.
    /// (The weight of a movement is kept by the caller at this index; an unrecorded
    /// movement weighs 0.)
    pub fn position(&self, from: i32, to: i32) -> (r: Option<usize>)
        ensures
            r is None <==> !self@.contains((from, to)),
            r matches Some(p) ==> p < self@.len() && self@[p as int] == (from, to),
    {
        let mut p: usize = 0;
        while p < self.transitions.len()
            invariant
                0 <= p <= self.transitions.len(),
                forall|q: int| 0 <= q < p ==> self.transitions@[q] != (from, to),
            decreases self.transitions.len() - p,
        {
            if self.transitions[p].0 == from && self.transitions[p].1 == to {
                return Some(p);
            }
            p = p + 1;
        }
        None
    }

    /// The recorded movements, in the order they were first recorded.
    pub fn transitions(&self) -> (r: Vec<(i32, i32)>)
        ensures
            r@ == self@,
    {
        let mut r: Vec<(i32, i32)> = Vec::new();
        let mut i: usize = 0;
        while i < self.transitions.len()
            invariant
                0 <= i <= self.transitions.len(),
                r@ == self.transitions@.take(i as int),
            decreases self.transitions.len() - i,
        {
            r.push(self.transitions[i]);
            assert(self.transitions@.take(i + 1) =~= self.transitions@.take(i as int).push(self.transitions@[i as int]));
            i = i + 1;
        }
        assert(self.transitions@.take(self.transitions@.len() as int) =~= self.transitions@);
        r
    }

    /// The number of distinct transitions.
    pub fn edge_count(&self) -> (r: usize)
        ensures
            r == self@.len(),
    {
        self.transitions.len()
    }
}

/// Recording a movement twice records it once: the movement is present afterwards, and
/// adding it again changes nothing.
pub proof fn law_transition_idempotent(g: Seq<(i32, i32)>, e: (i32, i32))
    ensures
        with_transition(g, e).contains(e),
        with_transition(with_transition(g, e), e) == with_transition(g, e),
{
    if !g.contains(e) {
        assert(g.push(e)[g.len() as int] == e);
    }
}

/// The graph of a progression of `n >= 1` roots has at most one transition per movement,
/// and records every movement of the progression.
pub proof fn law_progression_graph(roots: Seq<i32>, n: int)
    requires
        1 <= n <= roots.len(),
    ensures
        with_progression(Seq::empty(), roots, n).len() <= n - 1,
        forall|i: int| 1 <= i < n ==> #[trigger] with_progression(Seq::empty(), roots, n).contains((roots[i - 1], roots[i])),
    decreases n,
{
    if n > 1 {
        law_progression_graph(roots, n - 1);
        let prev = with_progression(Seq::empty(), roots, n - 1);
        let e = (roots[n - 2], roots[n - 1]);
        law_transition_idempotent(prev, e);
        let g = with_progression(Seq::empty(), roots, n);
        assert forall|i: int| 1 <= i < n implies #[trigger] g.contains((roots[i - 1], roots[i])) by {
            if i < n - 1 {
                assert(prev.contains((roots[i - 1], roots[i])));
                let k = choose|k: int| 0 <= k < prev.len() && prev[k] == (roots[i - 1], roots[i]);
                if !prev.contains(e) {
                    assert(g[k] == prev[k]);
                }
            }
        }
    }
}

/// How a root movement by `d` semitones upward (taken mod 12) is classified: no motion
/// for 0, dominant for 7, subdominant for 5, a resolution for 10, a tritone for 6, a
/// mediant for a third up or down (3, 4, 8, 9), a step for a semitone or tone up or a
/// semitone down (1, 2, 11); never unknown. A mediant is exactly a move of a third
/// (3 or 4 semitones) along the shortest way.
pub proof fn law_direction_classes(from: int, to: int)
    ensures
        ({
            let d = (to - from) % 12;
            let r = direction_of(d);
            &&& (r == TransitionDirection::NoMotion <==> d == 0)
            &&& (r == TransitionDirection::Dominant <==> d == 7)
            &&& (r == TransitionDirection::Subdominant <==> d == 5)
            &&& (r == TransitionDirection::Resolution <==> d == 10)
            &&& (r == TransitionDirection::Tritone <==> d == 6)
            &&& (r == TransitionDirection::Mediant <==> (d == 3 || d == 4 || d == 8 || d == 9))
            &&& (r == TransitionDirection::Step <==> (d == 1 || d == 2 || d == 11))
            &&& r != TransitionDirection::Unknown
            &&& (r == TransitionDirection::Mediant <==> (semitone_step(from, to) == 3
                || semitone_step(from, to) == 4 || semitone_step(from, to) == -3 || semitone_step(from, to) == -4))
        }),
{
}

/// The neighbours of a pitch class are exactly the targets of the recorded movements that
/// leave it, each listed once when the movements are recorded once.
pub proof fn law_targets_from(g: Seq<(i32, i32)>, pc: i32)
    ensures
        forall|x: i32| #[trigger] targets_from(g, pc).contains(x) <==> g.contains((pc, x)),
        targets_from(g, pc).len() <= g.len(),
    decreases g.len(),
{
    if g.len() > 0 {
        let h = g.drop_last();
        law_targets_from(h, pc);
        let t = targets_from(g, pc);
        let th = targets_from(h, pc);
        assert forall|x: i32| #[trigger] t.contains(x) <==> g.contains((pc, x)) by {
            if g.contains((pc, x)) {
                let k = choose|k: int| 0 <= k < g.len() && g[k] == (pc, x);
                if k < g.len() - 1 {
                    assert(h[k] == (pc, x));
                    assert(th.contains(x));
                    let j = choose|j: int| 0 <= j < th.len() && th[j] == x;
                    assert(t[j] == x);
                } else {
                    assert(t[t.len() - 1] == x);
                }
            }
            if t.contains(x) {
                let j = choose|j: int| 0 <= j < t.len() && t[j] == x;
                if j < th.len() {
                    assert(th[j] == x);
                    assert(th.contains(x));
                    let k = choose|k: int| 0 <= k < h.len() && h[k] == (pc, x);
                    assert(g[k] == (pc, x));
                } else {
                    assert(g[g.len() - 1] == (pc, x));
                }
            }
        }
    }
}

} // verus!
