//! Laman graphs over the voices of a texture, built by Henneberg steps.
use vstd::prelude::*;
use vstd::relations::sorted_by;
use vstd::seq_lib::group_to_multiset_ensures;
use vstd::string::StringExecFns;
use crate::sorting::{edge_le, sort_edges};
use crate::text::{decimal, usize_to_decimal};

verus! {

/// The multiplier of the linear congruential generator that picks Henneberg edges.
pub const LCG_MULTIPLIER: u64 = 6364136223846793005;

/// One step of the generator: `s * 6364136223846793005 + 1`, wrapping modulo 2^64.
#[verifier::opaque]
pub open spec fn lcg_next(s: u64) -> u64 {
    s.wrapping_mul(LCG_MULTIPLIER).wrapping_add(1)
}

/// The generator state when vertex `k` (for `k >= 2`) is added, starting from `seed`.
pub open spec fn henneberg_state(seed: u64, k: nat) -> u64
    decreases k,
{
    if k <= 2 { seed } else { lcg_next(lcg_next(henneberg_state(seed, (k - 1) as nat))) }
}

/// The random edge added with vertex `k`: two draws `a` and `b` below `k`, smaller end first.
#[verifier::opaque]
pub open spec fn henneberg_pair(seed: u64, k: nat) -> (usize, usize) {
    let s1 = lcg_next(henneberg_state(seed, k));
    let s2 = lcg_next(s1);
    let a = ((s1 >> 33u64) as usize) as int % (k as int);
    let b = ((s2 >> 33u64) as usize) as int % (k as int);
    if a <= b { (a as usize, b as usize) } else { (b as usize, a as usize) }
}

/// The edges of the Henneberg construction on `n` vertices before sorting: the edge
/// (0, 1), then for each vertex `k` from 2 on, its random edge and the edge (0, k).
pub open spec fn henneberg_raw(n: nat, seed: u64) -> Seq<(usize, usize)>
    decreases n,
{
    if n < 2 {
        seq![]
    } else if n == 2 {
        seq![(0usize, 1usize)]
    } else {
        henneberg_raw((n - 1) as nat, seed).push(henneberg_pair(seed, (n - 1) as nat)).push(
            (0usize, (n - 1) as usize),
        )
    }
}

/// `s` with each run of equal consecutive elements reduced to one element.
pub open spec fn dedup_seq<A>(s: Seq<A>) -> Seq<A>
    decreases s.len(),
{
    if s.len() == 0 {
        s
    } else {
        let d = dedup_seq(s.drop_last());
        if s.len() >= 2 && s[s.len() - 2] == s.last() { d } else { d.push(s.last()) }
    }
}

/// The edges that `henneberg_construct(n, seed)` returns: the raw edges, sorted and
/// with duplicates removed.
pub open spec fn henneberg_edges(n: nat, seed: u64) -> Seq<(usize, usize)> {
    dedup_seq(henneberg_raw(n, seed).sort_by(|p: (usize, usize), q: (usize, usize)| edge_le(p, q)))
}

/// The edge from vertex 0 to vertex `k`.
pub open spec fn star_edge(k: int) -> (usize, usize) {
    (0usize, k as usize)
}

/// The strict lexicographic order on edges.
pub open spec fn edge_lt(p: (usize, usize), q: (usize, usize)) -> bool {
    p.0 < q.0 || (p.0 == q.0 && p.1 < q.1)
}

/// Sorted strictly, hence free of duplicates.
pub open spec fn strictly_sorted(s: Seq<(usize, usize)>) -> bool {
    forall|i: int, j: int| 0 <= i < j < s.len() ==> #[trigger] edge_lt(s[i], s[j])
}

/// The raw construction has 2n - 3 edges, each `(a, b)` with `a <= b < n`, and holds
/// the edge (0, k) for every vertex `k` from 1 on.
proof fn lemma_henneberg_raw(n: nat, seed: u64)
    requires
        n >= 2,
        n <= usize::MAX,
    ensures
        henneberg_raw(n, seed).len() == 2 * n - 3,
        forall|i: int| 0 <= i < henneberg_raw(n, seed).len() ==>
            (#[trigger] henneberg_raw(n, seed)[i]).0 <= henneberg_raw(n, seed)[i].1 < n,
        forall|k: int| 1 <= k < n ==> #[trigger] henneberg_raw(n, seed).contains(star_edge(k)),
    decreases n,
{
    let r = henneberg_raw(n, seed);
    if n == 2 {
        assert(r[0] == (0usize, 1usize));
    } else {
        let m = (n - 1) as nat;
        lemma_henneberg_raw(m, seed);
        let prev = henneberg_raw(m, seed);
        let p = henneberg_pair(seed, m);
        assert(p.0 <= p.1 < m) by {
            reveal(henneberg_pair);
        }
        assert(r == prev.push(p).push((0usize, m as usize)));
        assert forall|k: int| 1 <= k < n implies r.contains(star_edge(k)) by {
            if k < m {
                assert(prev.contains(star_edge(k)));
                let j = choose|j: int| 0 <= j < prev.len() && prev[j] == star_edge(k);
                assert(r[j] == prev[j]);
                assert(r[j] == star_edge(k));
            } else {
                assert(r[r.len() - 1] == star_edge(k));
            }
        }
        assert forall|i: int| 0 <= i < r.len() implies (#[trigger] r[i]).0 <= r[i].1 < n by {
            if i < prev.len() {
                assert(r[i] == prev[i]);
            }
        }
    }
}

/// Reducing runs of a sorted sequence gives a strictly sorted sequence, no longer
/// than the input, holding the same elements.
proof fn lemma_dedup_sorted(s: Seq<(usize, usize)>)
    requires
        sorted_by(s, |p: (usize, usize), q: (usize, usize)| edge_le(p, q)),
    ensures
        strictly_sorted(dedup_seq(s)),
        dedup_seq(s).len() <= s.len(),
        forall|x: (usize, usize)| #[trigger] dedup_seq(s).contains(x) <==> s.contains(x),
        s.len() > 0 ==> dedup_seq(s).len() > 0 && dedup_seq(s).last() == s.last(),
    decreases s.len(),
{
    if s.len() > 0 {
        let t = s.drop_last();
        let leq = |p: (usize, usize), q: (usize, usize)| edge_le(p, q);
        assert(sorted_by(t, leq)) by {
            assert forall|i: int, j: int| 0 <= i < j < t.len() implies #[trigger] leq(t[i], t[j]) by {
                assert(leq(s[i], s[j]));
            }
        }
        lemma_dedup_sorted(t);
        let d = dedup_seq(t);
        assert(s =~= t.push(s.last()));
        if s.len() >= 2 && s[s.len() - 2] == s.last() {
            assert forall|x: (usize, usize)| #[trigger] dedup_seq(s).contains(x) <==> s.contains(x) by {
                if s.contains(x) && !t.contains(x) {
                    assert(x == s.last());
                    assert(t.contains(s[s.len() - 2]));
                }
                if t.contains(x) {
                    let j = choose|j: int| 0 <= j < t.len() && t[j] == x;
                    assert(s[j] == x);
                }
            }
        } else {
            let ds = d.push(s.last());
            if t.len() > 0 {
                assert(leq(s[s.len() - 2], s.last()));
                assert(edge_lt(d.last(), s.last()));
            }
            assert forall|i: int, j: int| 0 <= i < j < ds.len() implies #[trigger] edge_lt(ds[i], ds[j]) by {
                if j == ds.len() - 1 && i < d.len() - 1 {
                    assert(edge_lt(d[i], d[d.len() - 1]));
                }
            }
            assert forall|x: (usize, usize)| #[trigger] ds.contains(x) <==> s.contains(x) by {
                if t.contains(x) {
                    let j = choose|j: int| 0 <= j < t.len() && t[j] == x;
                    assert(s[j] == x);
                    assert(d.contains(x));
                    let k = choose|k: int| 0 <= k < d.len() && d[k] == x;
                    assert(ds[k] == x);
                }
                if d.contains(x) {
                    let k = choose|k: int| 0 <= k < d.len() && d[k] == x;
                    assert(ds[k] == x);
                }
                if ds.contains(x) && x != s.last() {
                    let k = choose|k: int| 0 <= k < ds.len() && ds[k] == x;
                    assert(d[k] == x);
                }
                if s.contains(x) && x != s.last() {
                    let k = choose|k: int| 0 <= k < s.len() && s[k] == x;
                    assert(t[k] == x);
                }
                assert(ds[ds.len() - 1] == s.last());
                assert(s[s.len() - 1] == s.last());
            }
        }
    }
}

fn dedup_edges(v: &Vec<(usize, usize)>) -> (r: Vec<(usize, usize)>)
    ensures
        r@ == dedup_seq(v@),
{
    let mut r: Vec<(usize, usize)> = Vec::new();
    let mut i: usize = 0;
    while i < v.len()
        invariant
            0 <= i <= v.len(),
            r@ == dedup_seq(v@.take(i as int)),
        decreases v.len() - i,
    {
        let x = v[i];
        assert(v@.take(i + 1).drop_last() =~= v@.take(i as int));
        if i == 0 || v[i - 1].0 != x.0 || v[i - 1].1 != x.1 {
            r.push(x);
        }
        i = i + 1;
    }
    assert(v@.take(v.len() as int) =~= v@);
    r
}

/// The edges of a Henneberg construction on `n` vertices, with generator seed `seed`,
/// sorted and without duplicates (none when `n < 2`).
pub fn henneberg_construct(n: usize, seed: u64) -> (r: Vec<(usize, usize)>)
    requires
        n <= usize::MAX / 2,
    ensures
        r@ == henneberg_edges(n as nat, seed),
{
    if n < 2 {
        proof {
            broadcast use group_to_multiset_ensures;
            let raw = henneberg_raw(n as nat, seed);
            crate::sorting::lemma_edge_le_total();
            raw.lemma_sort_by_ensures(|p: (usize, usize), q: (usize, usize)| edge_le(p, q));
            assert(raw.sort_by(|p: (usize, usize), q: (usize, usize)| edge_le(p, q)).to_multiset().len() == 0);
        }
        return Vec::new();
    }
    let mut edges: Vec<(usize, usize)> = Vec::new();
    edges.push((0, 1));
    let mut s = seed;
    let mut k: usize = 2;
    assert(edges@ =~= henneberg_raw(2, seed));
    while k < n
        invariant
            2 <= k <= n,
            n <= usize::MAX / 2,
            s == henneberg_state(seed, k as nat),
            edges@ == henneberg_raw(k as nat, seed),
        decreases n - k,
    {
        let ghost s0 = s;
        s = s.wrapping_mul(LCG_MULTIPLIER).wrapping_add(1);
        assert(s == lcg_next(s0)) by {
            reveal(lcg_next);
        }
        let ghost s1 = s;
        let a = ((s >> 33) as usize) % k;
        s = s.wrapping_mul(LCG_MULTIPLIER).wrapping_add(1);
        assert(s == lcg_next(s1)) by {
            reveal(lcg_next);
        }
        let b = ((s >> 33) as usize) % k;
        let lo = if a <= b { a } else { b };
        let hi = if a <= b { b } else { a };
        assert((lo, hi) == henneberg_pair(seed, k as nat)) by {
            reveal(henneberg_pair);
        }
        edges.push((lo, hi));
        edges.push((0, k));
        k = k + 1;
        assert(edges@ =~= henneberg_raw(k as nat, seed));
    }
    proof {
        lemma_henneberg_raw(n as nat, seed);
    }
    edges.truncate(2 * n - 3);
    assert(edges@ =~= henneberg_raw(n as nat, seed));
    let sorted = sort_edges(&edges);
    dedup_edges(&sorted)
}

/// The Henneberg construction on `n >= 2` vertices yields a strictly sorted list of
/// at most 2n - 3 edges, each `(a, b)` with `a <= b < n`, that joins vertex 0 to every
/// other vertex (so the graph is connected).
pub proof fn law_henneberg_shape(n: nat, seed: u64)
    requires
        2 <= n <= usize::MAX,
    ensures
        ({
            let e = henneberg_edges(n, seed);
            &&& strictly_sorted(e)
            &&& e.len() <= 2 * n - 3
            &&& forall|i: int| 0 <= i < e.len() ==> (#[trigger] e[i]).0 <= e[i].1 < n
            &&& forall|k: int| 1 <= k < n ==> #[trigger] e.contains(star_edge(k))
        }),
{
    broadcast use group_to_multiset_ensures;

    let raw = henneberg_raw(n, seed);
    let leq = |p: (usize, usize), q: (usize, usize)| edge_le(p, q);
    lemma_henneberg_raw(n, seed);
    crate::sorting::lemma_edge_le_total();
    raw.lemma_sort_by_ensures(leq);
    let sorted = raw.sort_by(leq);
    lemma_dedup_sorted(sorted);
    let e = dedup_seq(sorted);
    assert(sorted.len() == raw.len()) by {
        assert(sorted.to_multiset().len() == raw.to_multiset().len());
    }
    assert forall|x: (usize, usize)| #[trigger] e.contains(x) <==> raw.contains(x) by {
        assert(raw.contains(x) <==> raw.to_multiset().count(x) > 0);
        assert(sorted.contains(x) <==> sorted.to_multiset().count(x) > 0);
    }
    assert forall|i: int| 0 <= i < e.len() implies (#[trigger] e[i]).0 <= e[i].1 < n by {
        assert(e.contains(e[i]));
        let j = choose|j: int| 0 <= j < raw.len() && raw[j] == e[i];
    }
    assert forall|k: int| 1 <= k < n implies e.contains(star_edge(k)) by {
        assert(raw.contains(star_edge(k)));
    }
}

/// The names of the default constraints, given to the edges of a new graph in turn.
pub const STANDARD_CONSTRAINTS: [&'static str; 5] = [
    "no_parallel_fifths",
    "no_parallel_octaves",
    "proper_resolution",
    "max_leap_seventh",
    "consonant_interval",
];

/// The default constraint given to the edge at position `i` of a new graph.
pub open spec fn default_constraint(i: int) -> Seq<char> {
    let k = i % 5;
    if k == 0 { "no_parallel_fifths"@ }
    else if k == 1 { "no_parallel_octaves"@ }
    else if k == 2 { "proper_resolution"@ }
    else if k == 3 { "max_leap_seventh"@ }
    else { "consonant_interval"@ }
}

/// The texts of a list of names.
pub open spec fn names_of(v: Vec<String>) -> Seq<Seq<char>> {
    v@.map_values(|s: String| s@)
}

/// The number of edges of a minimally rigid (Laman) graph on `n` vertices: 2n - 3.
pub open spec fn laman_edge_count(n: int) -> int {
    2 * n - 3
}

/// A graph whose vertices are voices and whose edges carry named constraints between
/// two voices. `constraints[i]` names the constraints on `edges[i]`.
#[derive(Debug, Clone)]
pub struct CounterpointGraph {
    pub n_voices: usize,
    pub edges: Vec<(usize, usize)>,
    pub constraints: Vec<Vec<String>>,
}

impl CounterpointGraph {
    /// One list of constraint names per edge, and no edge listed twice.
    pub open spec fn wf(&self) -> bool {
        &&& self.edges@.len() == self.constraints@.len()
        &&& self.edges@.no_duplicates()
    }

    /// The names of the constraints on each edge, edge by edge.
    pub open spec fn constraint_names(&self) -> Seq<Seq<Seq<char>>> {
        self.constraints@.map_values(|v: Vec<String>| names_of(v))
    }

    /// The graph of a Henneberg construction on `n` voices (seed 42), each edge
    /// carrying one default constraint, cycling through `STANDARD_CONSTRAINTS`.
    /// Fewer than two voices are refused.
    pub fn new(n: usize) -> (r: Result<Self, String>)
        requires
            n <= usize::MAX / 2,
        ensures
            n < 2 ==> (r matches Err(m) && m@ == "n_voices must be >= 2, got "@ + decimal(n as nat)),
            n >= 2 ==> (r matches Ok(g) && {
                &&& g.n_voices == n
                &&& g.edges@ == henneberg_edges(n as nat, 42)
                &&& g.wf()
                &&& forall|i: int| 0 <= i < g.edges@.len() ==>
                    #[trigger] g.constraint_names()[i] == seq![default_constraint(i)]
            }),
    {
        if n < 2 {
            let mut m = String::from_str("n_voices must be >= 2, got ");
            let d = usize_to_decimal(n);
            m.append(d.as_str());
            return Err(m);
        }
        let edges = henneberg_construct(n, 42);
        proof {
            law_henneberg_shape(n as nat, 42);
            let e = henneberg_edges(n as nat, 42);
            assert forall|i: int, j: int| 0 <= i < e.len() && 0 <= j < e.len() && i != j implies e[i] != e[j] by {
                if i < j {
                    assert(edge_lt(e[i], e[j]));
                } else {
                    assert(edge_lt(e[j], e[i]));
                }
            }
        }
        let mut constraints: Vec<Vec<String>> = Vec::new();
        let mut i: usize = 0;
        while i < edges.len()
            invariant
                0 <= i <= edges.len(),
                constraints@.len() == i,
                forall|j: int| 0 <= j < i ==> (#[trigger] constraints@[j])@.len() == 0,
            decreases edges.len() - i,
        {
            constraints.push(Vec::new());
            i = i + 1;
        }
        let mut g = CounterpointGraph { n_voices: n, edges, constraints };
        g.assign_defaults();
        Ok(g)
    }

    fn assign_defaults(&mut self)
        requires
            old(self).wf(),
            forall|i: int| 0 <= i < old(self).constraints@.len() ==> (#[trigger] old(self).constraints@[i])@.len() == 0,
        ensures
            final(self).n_voices == old(self).n_voices,
            final(self).edges@ == old(self).edges@,
            final(self).wf(),
            forall|i: int| 0 <= i < final(self).edges@.len() ==>
                #[trigger] final(self).constraint_names()[i] == seq![default_constraint(i)],
    {
        let mut i: usize = 0;
        while i < self.edges.len()
            invariant
                self.n_voices == old(self).n_voices,
                self.edges@ == old(self).edges@,
                self.wf(),
                0 <= i <= self.edges.len(),
                forall|j: int| 0 <= j < i ==> #[trigger] self.constraint_names()[j] == seq![default_constraint(j)],
                forall|j: int| i <= j < self.constraints@.len() ==> (#[trigger] self.constraints@[j])@.len() == 0,
            decreases self.edges.len() - i,
        {
            let ghost before = self.constraints@;
            let ghost bn = self.constraint_names();
            let mut names = self.constraints.remove(i);
            proof {
                reveal_strlit("no_parallel_fifths");
                reveal_strlit("no_parallel_octaves");
                reveal_strlit("proper_resolution");
                reveal_strlit("max_leap_seventh");
                reveal_strlit("consonant_interval");
            }
            let name = String::from_str(STANDARD_CONSTRAINTS[i % 5]);
            assert(name@ == default_constraint(i as int));
            names.push(name);
            self.constraints.insert(i, names);
            assert(self.constraints@ =~= before.update(i as int, self.constraints@[i as int]));
            assert(names_of(self.constraints@[i as int]) =~= seq![default_constraint(i as int)]);
            assert(self.constraint_names() =~= bn.update(i as int, seq![default_constraint(i as int)]));
            i = i + 1;
        }
    }

    /// Adds the constraint `name` on the edge between voices `i` and `j` (stored with the
    /// smaller voice first), adding the edge itself when the graph lacks it.
    pub fn add_constraint(&mut self, i: usize, j: usize, name: &str)
        requires
            old(self).wf(),
        ensures
            final(self).wf(),
            final(self).n_voices == old(self).n_voices,
            ({
                let e = if i <= j { (i, j) } else { (j, i) };
                &&& old(self).edges@.contains(e) ==> {
                    &&& final(self).edges@ == old(self).edges@
                    &&& forall|p: int| 0 <= p < old(self).edges@.len() && old(self).edges@[p] == e ==>
                        final(self).constraint_names() == old(self).constraint_names().update(
                            p, old(self).constraint_names()[p].push(name@))
                }
                &&& !old(self).edges@.contains(e) ==> {
                    &&& final(self).edges@ == old(self).edges@.push(e)
                    &&& final(self).constraint_names() == old(self).constraint_names().push(seq![name@])
                }
            }),
    {
        let e = if i <= j { (i, j) } else { (j, i) };
        let mut p: usize = 0;
        while p < self.edges.len() && !(self.edges[p].0 == e.0 && self.edges[p].1 == e.1)
            invariant
                0 <= p <= self.edges.len(),
                forall|q: int| 0 <= q < p ==> self.edges@[q] != e,
            decreases self.edges.len() - p,
        {
            p = p + 1;
        }
        let ghost old_names = self.constraint_names();
        if p == self.edges.len() {
            assert(!self.edges@.contains(e));
            self.edges.push(e);
            self.constraints.push(Vec::new());
            proof {
                assert forall|a: int, b: int| 0 <= a < self.edges@.len() && 0 <= b < self.edges@.len() && a != b
                    implies self.edges@[a] != self.edges@[b] by {
                    if a < old(self).edges@.len() && b < old(self).edges@.len() {
                        assert(old(self).edges@.no_duplicates());
                    }
                }
            }
        }
        let ghost mid_names = self.constraint_names();
        let ghost before = self.constraints@;
        let mut names = self.constraints.remove(p);
        names.push(String::from_str(name));
        self.constraints.insert(p, names);
        proof {
            assert(self.constraints@ =~= before.update(p as int, self.constraints@[p as int]));
            assert(names_of(self.constraints@[p as int]) =~= mid_names[p as int].push(name@));
            assert(self.constraint_names() =~= mid_names.update(p as int, mid_names[p as int].push(name@)));
            if p < old(self).edges@.len() {
                assert forall|q: int| 0 <= q < old(self).edges@.len() && old(self).edges@[q] == e implies q == p by {
                    assert(old(self).edges@.no_duplicates());
                }
            } else {
                assert(names_of(before[p as int]) =~= Seq::<Seq<char>>::empty());
                assert(mid_names =~= old_names.push(seq![]));
                assert(self.constraint_names() =~= old_names.push(seq![name@]));
            }
        }
    }

    /// The graph has exactly 2n - 3 edges for its n voices.
    pub fn verify_rigidity(&self) -> (r: bool)
        requires
            2 <= self.n_voices <= usize::MAX / 2,
        ensures
            r == (self.edges@.len() == laman_edge_count(self.n_voices as int)),
    {
        self.edges.len() == 2 * self.n_voices - 3
    }

    /// 2n - 3, the number of edges of a minimally rigid graph on the graph's n voices.
    pub fn expected_edges(&self) -> (r: usize)
        requires
            2 <= self.n_voices <= usize::MAX / 2,
        ensures
            r == laman_edge_count(self.n_voices as int),
    {
        2 * self.n_voices - 3
    }

    /// The graph has as many edges as a minimally rigid graph on its voices.
    pub fn is_minimally_rigid(&self) -> (r: bool)
        requires
            2 <= self.n_voices <= usize::MAX / 2,
        ensures
            r == (self.edges@.len() == laman_edge_count(self.n_voices as int)),
    {
        self.edges.len() == self.expected_edges()
    }
}

/// `edges` has exactly 2n - 3 edges.
pub fn verify_rigidity(n: usize, edges: &[(usize, usize)]) -> (r: bool)
    requires
        2 <= n <= usize::MAX / 2,
    ensures
        r == (edges@.len() == laman_edge_count(n as int)),
{
    edges.len() == 2 * n - 3
}

/// The default constraints cycle with period five through the five standard names, and
/// consecutive edges get different names.
pub proof fn law_default_constraints_cycle(i: int)
    requires
        0 <= i,
    ensures
        default_constraint(i + 5) == default_constraint(i),
        default_constraint(i) != default_constraint(i + 1),
        default_constraint(0) == "no_parallel_fifths"@,
{
    reveal_strlit("no_parallel_fifths");
    reveal_strlit("no_parallel_octaves");
    reveal_strlit("proper_resolution");
    reveal_strlit("max_leap_seventh");
    reveal_strlit("consonant_interval");
    assert((i + 5) % 5 == i % 5);
    let a = i % 5;
    let b = (i + 1) % 5;
    assert(b == (a + 1) % 5);
    assert("no_parallel_fifths"@.len() != "no_parallel_octaves"@.len() || "no_parallel_fifths"@[3] != "no_parallel_octaves"@[3]);
    assert("no_parallel_fifths"@[0] != "proper_resolution"@[0]);
    assert("no_parallel_fifths"@[0] != "max_leap_seventh"@[0]);
    assert("no_parallel_fifths"@[0] != "consonant_interval"@[0]);
    assert("no_parallel_octaves"@[0] != "proper_resolution"@[0]);
    assert("no_parallel_octaves"@[0] != "max_leap_seventh"@[0]);
    assert("no_parallel_octaves"@[0] != "consonant_interval"@[0]);
    assert("proper_resolution"@[0] != "max_leap_seventh"@[0]);
    assert("proper_resolution"@[0] != "consonant_interval"@[0]);
    assert("max_leap_seventh"@[0] != "consonant_interval"@[0]);
}

} // verus!
