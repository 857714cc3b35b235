use counterpoint_engine::harmony::analyzer::{analyze_progression, parse_roman, parse_roman_in_mode};
use counterpoint_engine::harmony::cycle_checker::{classify_progression, compute_holonomy, holonomy_fits, ProgressionType};
use counterpoint_engine::harmony::tonal_graph::{
    circle_of_fifths_position, classify_direction, pitch_name_fn, semitone_interval, TonalGraph,
    TransitionDirection,
};

#[test]
fn t_parse_i() {
    let c = parse_roman("I", 0, "major");
    assert_eq!(c.root, 0);
    assert!(c.is_diatonic)
}

#[test]
fn t_parse_v() {
    assert_eq!(parse_roman("V", 0, "major").root, 7)
}

#[test]
fn t_analyze() {
    let a = analyze_progression(&["I", "IV", "V", "I"], 0, "major", true);
    assert_eq!(a.chords.len(), 4)
}

#[test]
fn t_holonomy() {
    let r = compute_holonomy(&[0, 5, 7, 0], true);
    assert!(!r.steps.is_empty())
}

#[test]
fn t_winding() {
    let roots = [0, 7, 2, 9, 4, 11, 0];
    let w = if roots.len() < 2 { 0.0 } else { compute_holonomy(&roots, false).winding_fifths as f64 / 12.0 };
    assert!(w >= 0.0)
}

#[test]
fn t_graph() {
    let mut g = TonalGraph::new();
    g.build_from_progression(&[0, 5, 7, 0]);
    assert_eq!(g.edge_count(), 3)
}

#[test]
fn tonal_graph_t_name() {
    assert_eq!(pitch_name_fn(0).unwrap(), "C")
}

#[test]
fn pitch_name_fn_errors() {
    assert_eq!(pitch_name_fn(11).unwrap(), "B");
    assert_eq!(pitch_name_fn(12).unwrap_err(), "invalid pc: 12");
    assert_eq!(pitch_name_fn(-3).unwrap_err(), "invalid pc: -3");
    assert_eq!(pitch_name_fn(i32::MIN).unwrap_err(), "invalid pc: -2147483648");
}

#[test]
fn circle_of_fifths_positions() {
    let expected = [0, 7, 2, 9, 4, 11, 6, 1, 8, 3, 10, 5];
    for pc in 0..12 {
        assert_eq!(circle_of_fifths_position(pc), expected[pc as usize]);
    }
    assert_eq!(circle_of_fifths_position(12), 0);
    assert_eq!(circle_of_fifths_position(-1), 0);
}

#[test]
fn directions() {
    assert_eq!(classify_direction(0, 7), TransitionDirection::Dominant);
    assert_eq!(classify_direction(7, 0), TransitionDirection::Subdominant);
    assert_eq!(classify_direction(2, 0), TransitionDirection::Resolution);
    assert_eq!(classify_direction(0, 4), TransitionDirection::Mediant);
    assert_eq!(classify_direction(0, 6), TransitionDirection::Tritone);
    assert_eq!(classify_direction(0, 12), TransitionDirection::NoMotion);
    assert_eq!(classify_direction(0, 1), TransitionDirection::Step);
    assert_eq!(classify_direction(0, 11), TransitionDirection::Step);
    assert_eq!(semitone_interval(0, 11), -1);
}

#[test]
fn tonal_graph_neighbors_and_indices() {
    let mut g = TonalGraph::new();
    let idx = g.build_from_progression(&[0, 5, 7, 0, 5, 9]);
    assert_eq!(idx, vec![0, 1, 2, 0, 3]);
    assert_eq!(g.edge_count(), 4);
    assert_eq!(g.neighbors(5), vec![7, 9]);
    assert_eq!(g.neighbors(0), vec![5]);
    assert!(g.neighbors(3).is_empty());
    assert_eq!(g.add_transition(7, 0), 2);
    assert_eq!(g.add_transition(9, 0), 4);
    assert_eq!(g.edge_count(), 5);
}

#[test]
fn holonomy_of_cadence() {
    let r = compute_holonomy(&[0, 5, 7, 0], true);
    assert_eq!(r.steps.len(), 4);
    assert_eq!(r.steps[0], (0, 5, TransitionDirection::Subdominant));
    assert_eq!(r.cumulative, vec![0, -1, 1, 0, 0]);
    assert_eq!(r.winding_fifths, 0);
    assert_eq!(r.holonomy, 0);
    assert_eq!(r.max_deviation, 1);
    assert!(r.is_consistent());
    assert_eq!(r.progression_type, ProgressionType::Diatonic);
}

#[test]
fn holonomy_single_root_and_wrap() {
    let r = compute_holonomy(&[4], true);
    assert!(r.steps.is_empty());
    assert_eq!(r.cumulative, vec![0]);
    assert_eq!(classify_progression(&[4]), ProgressionType::Diatonic);
}

#[test]
fn holonomy_around_the_circle() {
    let roots = [0, 7, 2, 9, 4, 11, 6, 1, 8, 3, 10, 5, 0];
    let r = compute_holonomy(&roots, false);
    assert_eq!(r.winding_fifths, 12);
    assert_eq!(r.holonomy, 0);
    assert!(r.is_consistent());
    assert_eq!(r.progression_type, ProgressionType::ModalInterchange);
    let open = compute_holonomy(&[0, 7, 2, 9, 4, 11, 6], false);
    assert_eq!(open.winding_fifths, 6);
    assert_eq!(open.holonomy, 6);
    assert_eq!(open.max_deviation, 6);
    assert_eq!(open.progression_type, ProgressionType::Modulation);
    assert!(!open.is_consistent());
}

#[test]
fn chromatic_mediants() {
    assert_eq!(classify_progression(&[0, 4, 8, 0]), ProgressionType::ChromaticMediant);
}

#[test]
fn parse_roman_accidentals_and_minor() {
    let c = parse_roman("bVII", 0, "major");
    assert_eq!(c.root, 10);
    assert!(!c.is_diatonic);
    assert_eq!(c.quality, "dim");
    let m = parse_roman("III", 9, "minor");
    assert_eq!(m.root, 0);
    assert!(m.is_diatonic);
    assert_eq!(m.key, (9, "minor".to_string()));
    let s = parse_roman("#iv", 0, "major");
    assert_eq!(s.root, 6);
    let bb = parse_roman("bbVI", 0, "major");
    assert_eq!(bb.root, 7);
    assert!(!bb.is_diatonic);
    // a lowercase numeral after 'b' is not read as a flat: the text is no numeral at all
    let lower_b = parse_roman("bvi", 0, "major");
    assert_eq!(lower_b.root, 0);
    assert!(lower_b.is_diatonic);
}

#[test]
fn parse_roman_mode_is_lowercased() {
    let c = parse_roman("VI", 0, "MAJOR");
    assert_eq!(c.root, 9);
    assert_eq!(c.key.1, "major");
    let m = parse_roman("VI", 0, "Minor");
    assert_eq!(m.root, 8);
    assert_eq!(m.implied_key, (0, "minor".to_string()));
}

#[test]
fn parse_secondary_dominant() {
    let c = parse_roman("V/V", 0, "major");
    assert_eq!(c.root, 2);
    assert!(c.is_secondary_dominant);
    assert!(!c.is_diatonic);
    assert_eq!(c.function, "V/V");
    assert_eq!(c.implied_key, (7, "major".to_string()));
    assert_eq!(c.quality, "maj");
    assert_eq!(c.root_name(), "D");
}

#[test]
fn root_name_of_negative_root() {
    let c = parse_roman("I", -1, "major");
    assert_eq!(c.root, -1);
    assert_eq!(c.root_name(), "?");
}

#[test]
fn analysis_notes_modulations() {
    let a = analyze_progression(&["bVII", "I", "V/V", "bIII", "I"], 0, "major", false);
    assert_eq!(a.chords.len(), 5);
    assert_eq!(a.diatonic_count, 2);
    assert_eq!(a.modulations, vec![(2, "Sec dom V/V".to_string()), (3, "Non-diatonic bIII".to_string())]);
    assert!(a.modal_interchanges.is_empty());
    assert_eq!(a.graph.edge_count(), 4);
}

#[test]
fn parse_in_lowercased_mode() {
    let c = parse_roman_in_mode("iii", 0, "major", false);
    assert_eq!(c.root, 4);
    assert!(c.is_diatonic);
    let f = parse_roman_in_mode("bVII", 0, "major", true);
    assert_eq!(f.root, 10);
    assert!(!f.is_diatonic);
    // without an uppercase letter after it, 'b' is no flat
    let g = parse_roman_in_mode("bVII", 0, "major", false);
    assert_eq!(g.root, 0);
    let m = parse_roman_in_mode("VI", 0, "minor", false);
    assert_eq!(m.root, 8);
    assert_eq!(m.key, (0, "minor".to_string()));
}

#[test]
fn accidentals_shift_roots() {
    for s in ["I", "II", "III", "IV", "V", "VI", "VII"] {
        for tonic in [0, 2, 7, 11, 30] {
            let c = parse_roman(s, tonic, "major");
            let f = parse_roman(&format!("b{}", s), tonic, "major");
            let h = parse_roman(&format!("#{}", s), tonic, "major");
            assert!(c.is_diatonic);
            assert_eq!(f.root, (c.root + 11) % 12);
            assert_eq!(h.root, (c.root + 1) % 12);
            assert!(!f.is_diatonic && !h.is_diatonic);
        }
    }
}

#[test]
fn holonomy_fits_checks_overflow() {
    assert!(holonomy_fits(&[0, 5, 7, 0], true));
    assert!(holonomy_fits(&[], false));
    assert!(!holonomy_fits(&[i32::MIN, i32::MAX], false));
    assert!(holonomy_fits(&[i32::MAX, i32::MAX], false));
}
