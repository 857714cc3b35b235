use counterpoint_engine::exceptions::CounterpointError;
use counterpoint_engine::generator::{CounterpointGenerator, Scale, Species, VoiceRange};
use counterpoint_engine::interval::is_consonant;
use counterpoint_engine::rules::{max_leap_seventh, no_parallel_fifths, no_parallel_octaves};

#[test]
fn t_scale() {
    let s = Scale::major(0);
    assert!(s.pitch_classes().contains(&0));
    assert!(!s.pitch_classes().contains(&1));
}

#[test]
fn t_gen() {
    let g = CounterpointGenerator::new(Species::First, VoiceRange::new(48, 72), Scale::major(0));
    let r = g.generate(&[60, 62, 64, 65, 67]).unwrap();
    assert!(r.success);
    assert_eq!(r.counterpoint.len(), 5);
}

#[test]
fn t_empty() {
    let g = CounterpointGenerator::new(Species::First, VoiceRange::new(48, 72), Scale::major(0));
    assert!(g.generate(&[]).is_err());
}

#[test]
fn empty_cantus_error_text() {
    let g = CounterpointGenerator::new(Species::First, VoiceRange::new(48, 72), Scale::major(0));
    match g.generate(&[]) {
        Err(e) => {
            assert!(matches!(e, CounterpointError::InvalidInput(_)));
            assert_eq!(e.message(), "invalid input: empty");
        }
        Ok(_) => panic!("an empty cantus must be refused"),
    }
}

#[test]
fn generated_counterpoint_obeys_rules() {
    let cf = [60, 62, 64, 65, 67, 65, 64, 62, 60];
    let g = CounterpointGenerator::new(Species::First, VoiceRange::new(48, 72), Scale::major(0));
    let r = g.generate(&cf).unwrap();
    assert!(r.success);
    assert_eq!(r.cantus_firmus, cf.to_vec());
    assert_eq!(r.species, Species::First);
    let cp = &r.counterpoint;
    assert_eq!(cp.len(), cf.len());
    for i in 0..cp.len() {
        assert!(g.voice_range.contains(cp[i]));
        assert!(is_consonant(cf[i] - cp[i]));
        assert!(Scale::major(0).pitch_classes().contains(&cp[i].rem_euclid(12)));
        if i > 0 {
            assert!(cp[i] < cf[i]);
        }
    }
    assert!(max_leap_seventh(cp));
    assert!(no_parallel_fifths(&cf, cp));
    assert!(no_parallel_octaves(&cf, cp));
    assert!(r.backtrack_count <= g.max_backtracks);
}

#[test]
fn first_solution_in_candidate_order() {
    // the search tries candidates from the lowest up, so the first note is the lowest
    // consonant scale note in range
    let g = CounterpointGenerator::new(Species::First, VoiceRange::new(48, 72), Scale::major(0));
    let r = g.generate(&[60]).unwrap();
    assert!(r.success);
    assert_eq!(r.counterpoint, vec![48]);
    assert_eq!(r.backtrack_count, 0);
}

#[test]
fn impossible_range_fails_without_budget_exhaustion() {
    // a range above the cantus leaves no note below it after the first beat
    let g = CounterpointGenerator::new(Species::First, VoiceRange::new(72, 84), Scale::major(0));
    let r = g.generate(&[60, 62]).unwrap();
    assert!(!r.success);
    assert!(r.counterpoint.is_empty());
    assert!(r.backtrack_count <= g.max_backtracks);
}

#[test]
fn exhausted_budget_fails() {
    let mut g = CounterpointGenerator::new(Species::First, VoiceRange::new(72, 84), Scale::major(0));
    g.max_backtracks = 0;
    let r = g.generate(&[60, 62]).unwrap();
    assert!(!r.success);
    assert!(r.counterpoint.is_empty());
    assert_eq!(r.backtrack_count, 1);
}

#[test]
fn notes_in_range_sorted_and_in_scale() {
    let s = Scale::minor(9);
    let ns = s.notes_in_range(&VoiceRange::new(57, 69));
    assert_eq!(ns, vec![57, 59, 60, 62, 64, 65, 67, 69]);
    let s2 = Scale { tonic: 11, intervals: vec![0, 1] };
    assert_eq!(s2.pitch_classes(), vec![11, 0]);
    assert_eq!(s2.notes_in_range(&VoiceRange::new(10, 25)), vec![11, 12, 23, 24]);
}

#[test]
fn pitch_classes_keep_sign_of_negative_tonic() {
    let s = Scale::major(-1);
    assert_eq!(s.pitch_classes(), vec![-1, 1, 3, 4, 6, 8, 10]);
}

#[test]
fn voice_range_bounds_inclusive() {
    let r = VoiceRange::new(48, 72);
    assert!(r.contains(48));
    assert!(r.contains(72));
    assert!(!r.contains(47));
    assert!(!r.contains(73));
}

#[test]
fn error_messages() {
    assert_eq!(CounterpointError::ConstraintViolation("x".to_string()).message(), "constraint violation: x");
    assert_eq!(CounterpointError::InvalidInput("y".to_string()).message(), "invalid input: y");
    assert_eq!(CounterpointError::GenerationFailed("z".to_string()).message(), "generation failed: z");
}

#[test]
fn generated_counterpoint_is_lowest() {
    // 55 is the lowest note that fits the first beat; on the second beat 55 itself is a
    // seventh below the cantus, so the next candidate, 57, is taken
    let g = CounterpointGenerator::new(Species::First, VoiceRange::new(55, 65), Scale::major(0));
    let r = g.generate(&[67, 65]).unwrap();
    assert!(r.success);
    assert_eq!(r.counterpoint, vec![55, 57]);
}

#[test]
fn unlimited_budget() {
    let mut g = CounterpointGenerator::new(Species::First, VoiceRange::new(48, 72), Scale::major(0));
    g.max_backtracks = usize::MAX;
    let r = g.generate(&[60, 62, 64, 65, 67]).unwrap();
    assert!(r.success);
    let mut h = CounterpointGenerator::new(Species::First, VoiceRange::new(72, 84), Scale::major(0));
    h.max_backtracks = usize::MAX;
    let f = h.generate(&[60, 62]).unwrap();
    assert!(!f.success);
    assert!(f.counterpoint.is_empty());
}
