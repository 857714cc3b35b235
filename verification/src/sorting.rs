//! Sorting of note lists and edge lists, proved against `Seq::sort_by`.
use vstd::prelude::*;
use vstd::relations::{sorted_by, total_ordering};
use vstd::seq_lib::group_to_multiset_ensures;

verus! {

/// The usual order on notes.
pub open spec fn note_le(a: i32, b: i32) -> bool {
    a <= b
}

/// The lexicographic order on edges, as `Ord` orders a pair.
pub open spec fn edge_le(p: (usize, usize), q: (usize, usize)) -> bool {
    p.0 < q.0 || (p.0 == q.0 && p.1 <= q.1)
}

/// `note_le` is a total order.
pub proof fn lemma_note_le_total()
    ensures
        total_ordering(|a: i32, b: i32| note_le(a, b)),
{
}

/// `edge_le` is a total order.
pub proof fn lemma_edge_le_total()
    ensures
        total_ordering(|p: (usize, usize), q: (usize, usize)| edge_le(p, q)),
{
}

/// Two sequences sorted by the same total order and holding the same elements
/// are the same sequence.
pub proof fn lemma_sorted_unique<T>(s1: Seq<T>, s2: Seq<T>, leq: spec_fn(T, T) -> bool)
    requires
        total_ordering(leq),
        sorted_by(s1, leq),
        sorted_by(s2, leq),
        s1.to_multiset() == s2.to_multiset(),
    ensures
        s1 == s2,
    decreases s1.len(),
{
    broadcast use group_to_multiset_ensures;

    assert(s1.len() == s2.to_multiset().len());
    if s1.len() > 0 {
        let n = s1.len() - 1;
        let l1 = s1[n as int];
        let l2 = s2[n as int];
        assert(s1.contains(l1));
        assert(s2.to_multiset().count(l1) > 0);
        assert(s2.contains(l1));
        let j = choose|j: int| 0 <= j < s2.len() && s2[j] == l1;
        if j < n {
            assert(leq(s2[j], s2[n as int]));
        }
        assert(leq(l1, l2));
        assert(s2.contains(l2));
        assert(s1.to_multiset().count(l2) > 0);
        assert(s1.contains(l2));
        let k = choose|k: int| 0 <= k < s1.len() && s1[k] == l2;
        if k < n {
            assert(leq(s1[k], s1[n as int]));
        }
        assert(leq(l2, l1));
        assert(l1 == l2);
        let d1 = s1.remove(n as int);
        let d2 = s2.remove(n as int);
        assert(d1.to_multiset() == s1.to_multiset().remove(l1));
        assert(d2.to_multiset() == s2.to_multiset().remove(l2));
        assert(sorted_by(d1, leq));
        assert(sorted_by(d2, leq));
        lemma_sorted_unique(d1, d2, leq);
        assert(s1 =~= d1.push(l1));
        assert(s2 =~= d2.push(l2));
    }
}

/// The notes of `v` in increasing order.
pub fn sort_notes(v: &Vec<i32>) -> (r: Vec<i32>)
    ensures
        r@ == v@.sort_by(|a: i32, b: i32| note_le(a, b)),
        sorted_by(r@, |a: i32, b: i32| note_le(a, b)),
        r@.to_multiset() == v@.to_multiset(),
{
    broadcast use group_to_multiset_ensures;

    let ghost leq = |a: i32, b: i32| note_le(a, b);
    let mut r: Vec<i32> = Vec::new();
    let mut i: usize = 0;
    while i < v.len()
        invariant
            0 <= i <= v.len(),
            leq == (|a: i32, b: i32| note_le(a, b)),
            sorted_by(r@, leq),
            r@.to_multiset() == v@.take(i as int).to_multiset(),
        decreases v.len() - i,
    {
        let x = v[i];
        let mut p: usize = 0;
        while p < r.len() && r[p] <= x
            invariant
                0 <= p <= r.len(),
                forall|j: int| 0 <= j < p ==> r@[j] <= x,
            decreases r.len() - p,
        {
            p = p + 1;
        }
        let ghost old_r = r@;
        r.insert(p, x);
        proof {
            assert(r@.remove(p as int) =~= old_r);
            assert(r@[p as int] == x);
            r@.to_multiset_ensures();
            assert(r@.remove(p as int).to_multiset() =~= r@.to_multiset().remove(r@[p as int]));
            assert(r@.to_multiset().remove(x) == old_r.to_multiset());
            assert(r@.contains(x) && r@.to_multiset().count(x) > 0);
            assert(r@.to_multiset() =~= old_r.to_multiset().insert(x));
            assert(v@.take(i + 1) =~= v@.take(i as int).push(x));
            v@.take(i as int).to_multiset_ensures();
            assert(v@.take(i + 1).to_multiset() =~= v@.take(i as int).to_multiset().insert(x));
            assert forall|a: int, b: int| 0 <= a < b < r@.len() implies #[trigger] leq(r@[a], r@[b]) by {
                if b < p {
                    assert(leq(old_r[a], old_r[b]));
                } else if b == p {
                } else if a < p {
                    assert(old_r[a] <= x);
                    if p < old_r.len() {
                        assert(leq(old_r[p as int], old_r[b - 1]) || p == b - 1);
                    }
                } else if a == p {
                    assert(leq(old_r[p as int], old_r[b - 1]) || p == b - 1);
                } else {
                    assert(leq(old_r[a - 1], old_r[b - 1]));
                }
            }
        }
        i = i + 1;
    }
    proof {
        assert(v@.take(v.len() as int) =~= v@);
        lemma_note_le_total();
        v@.lemma_sort_by_ensures(leq);
        lemma_sorted_unique(r@, v@.sort_by(leq), leq);
    }
    r
}

/// The edges of `v` in lexicographic order.
pub fn sort_edges(v: &Vec<(usize, usize)>) -> (r: Vec<(usize, usize)>)
    ensures
        r@ == v@.sort_by(|p: (usize, usize), q: (usize, usize)| edge_le(p, q)),
        sorted_by(r@, |p: (usize, usize), q: (usize, usize)| edge_le(p, q)),
        r@.to_multiset() == v@.to_multiset(),
{
    broadcast use group_to_multiset_ensures;

    let ghost leq = |p: (usize, usize), q: (usize, usize)| edge_le(p, q);
    let mut r: Vec<(usize, usize)> = Vec::new();
    let mut i: usize = 0;
    while i < v.len()
        invariant
            0 <= i <= v.len(),
            leq == (|p: (usize, usize), q: (usize, usize)| edge_le(p, q)),
            sorted_by(r@, leq),
            r@.to_multiset() == v@.take(i as int).to_multiset(),
        decreases v.len() - i,
    {
        let x = v[i];
        let mut p: usize = 0;
        while p < r.len() && (r[p].0 < x.0 || (r[p].0 == x.0 && r[p].1 <= x.1))
            invariant
                0 <= p <= r.len(),
                forall|j: int| 0 <= j < p ==> edge_le(r@[j], x),
            decreases r.len() - p,
        {
            p = p + 1;
        }
        let ghost old_r = r@;
        r.insert(p, x);
        proof {
            lemma_edge_le_total();
            assert(r@.remove(p as int) =~= old_r);
            assert(r@[p as int] == x);
            r@.to_multiset_ensures();
            assert(r@.remove(p as int).to_multiset() =~= r@.to_multiset().remove(r@[p as int]));
            assert(r@.to_multiset().remove(x) == old_r.to_multiset());
            assert(r@.contains(x) && r@.to_multiset().count(x) > 0);
            assert(r@.to_multiset() =~= old_r.to_multiset().insert(x));
            assert(v@.take(i + 1) =~= v@.take(i as int).push(x));
            v@.take(i as int).to_multiset_ensures();
            assert(v@.take(i + 1).to_multiset() =~= v@.take(i as int).to_multiset().insert(x));
            assert forall|a: int, b: int| 0 <= a < b < r@.len() implies #[trigger] leq(r@[a], r@[b]) by {
                if b < p {
                    assert(leq(old_r[a], old_r[b]));
                } else if b == p {
                } else if a < p {
                    assert(edge_le(old_r[a], x));
                    if p < old_r.len() {
                        assert(!edge_le(old_r[p as int], x));
                        assert(leq(old_r[p as int], old_r[b - 1]) || p == b - 1);
                    }
                } else if a == p {
                    assert(!edge_le(old_r[p as int], x));
                    assert(leq(old_r[p as int], old_r[b - 1]) || p == b - 1);
                } else {
                    assert(leq(old_r[a - 1], old_r[b - 1]));
                }
            }
        }
        i = i + 1;
    }
    proof {
        assert(v@.take(v.len() as int) =~= v@);
        lemma_edge_le_total();
        v@.lemma_sort_by_ensures(leq);
        lemma_sorted_unique(r@, v@.sort_by(leq), leq);
    }
    r
}

} // verus!
