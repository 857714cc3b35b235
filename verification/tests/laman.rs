use counterpoint_engine::laman::{henneberg_construct, verify_rigidity, CounterpointGraph};

#[test]
fn t_construct() {
    let e = henneberg_construct(4, 42);
    assert!(e.len() <= 2 * 4 - 3);
}

#[test]
fn t_new() {
    let g = CounterpointGraph::new(4).unwrap();
    assert_eq!(g.n_voices, 4);
}

#[test]
fn t_min() {
    assert!(CounterpointGraph::new(1).is_err());
}

#[test]
fn t_rigid() {
    assert!(verify_rigidity(3, &[(0, 1), (0, 2), (1, 2)]));
}

fn reference_henneberg(n: usize, seed: u64) -> Vec<(usize, usize)> {
    let mut edges = vec![(0usize, 1usize)];
    let mut s = seed;
    for k in 2..n {
        s = s.wrapping_mul(6364136223846793005).wrapping_add(1);
        let a = (s >> 33) as usize % k;
        s = s.wrapping_mul(6364136223846793005).wrapping_add(1);
        let b = (s >> 33) as usize % k;
        edges.push((a.min(b), a.max(b)));
        edges.push((0, k));
    }
    edges.sort();
    edges.dedup();
    edges
}

#[test]
fn henneberg_matches_generator_and_shape() {
    for n in 2..12 {
        for seed in [0u64, 1, 42, 12345, u64::MAX] {
            let e = henneberg_construct(n, seed);
            assert_eq!(e, reference_henneberg(n, seed));
            assert!(e.len() <= 2 * n - 3);
            for w in e.windows(2) {
                assert!(w[0] < w[1]);
            }
            for &(a, b) in &e {
                assert!(a <= b && b < n);
            }
            for k in 1..n {
                assert!(e.contains(&(0, k)));
            }
        }
    }
    assert!(henneberg_construct(0, 42).is_empty());
    assert!(henneberg_construct(1, 42).is_empty());
    assert_eq!(henneberg_construct(2, 42), vec![(0, 1)]);
}

#[test]
fn new_graph_error_text() {
    assert_eq!(CounterpointGraph::new(1).unwrap_err(), "n_voices must be >= 2, got 1");
    assert_eq!(CounterpointGraph::new(0).unwrap_err(), "n_voices must be >= 2, got 0");
}

#[test]
fn new_graph_default_constraints() {
    let g = CounterpointGraph::new(5).unwrap();
    assert_eq!(g.edges, henneberg_construct(5, 42));
    assert_eq!(g.constraints.len(), g.edges.len());
    let names = ["no_parallel_fifths", "no_parallel_octaves", "proper_resolution", "max_leap_seventh", "consonant_interval"];
    for (i, c) in g.constraints.iter().enumerate() {
        assert_eq!(c, &vec![names[i % 5].to_string()]);
    }
    assert_eq!(g.expected_edges(), 7);
    assert_eq!(g.verify_rigidity(), g.edges.len() == 7);
    assert_eq!(g.is_minimally_rigid(), g.verify_rigidity());
}

#[test]
fn add_constraint_on_new_and_existing_edges() {
    let mut g = CounterpointGraph::new(3).unwrap();
    let before = g.edges.clone();
    g.add_constraint(2, 1, "custom");
    let e = (1usize, 2usize);
    if before.contains(&e) {
        assert_eq!(g.edges, before);
    } else {
        assert_eq!(g.edges.len(), before.len() + 1);
        assert_eq!(g.edges[g.edges.len() - 1], e);
    }
    let p = g.edges.iter().position(|x| *x == e).unwrap();
    assert_eq!(g.constraints[p].last().unwrap(), "custom");
    let len = g.edges.len();
    g.add_constraint(1, 2, "again");
    assert_eq!(g.edges.len(), len);
    assert_eq!(g.constraints[p].last().unwrap(), "again");
    g.add_constraint(0, 7, "far");
    assert_eq!(g.edges.len(), len + 1);
    assert_eq!(g.edges[len], (0, 7));
    assert_eq!(g.constraints[len], vec!["far".to_string()]);
}

#[test]
fn rigidity_counts() {
    assert!(!verify_rigidity(3, &[(0, 1), (0, 2)]));
    assert!(verify_rigidity(2, &[(0, 1)]));
}
