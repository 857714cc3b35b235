use counterpoint_engine::rules::{
    consonant_check, contrary_motion_counts, max_leap_seventh, no_parallel_fifths,
    no_parallel_octaves, proper_resolution, similar_motion_counts, voice_range_invariant,
};

#[test]
fn t_par5_ok() {
    assert!(no_parallel_fifths(&[60, 62], &[64, 65]));
}

#[test]
fn t_par5_bad() {
    assert!(!no_parallel_fifths(&[60, 62], &[67, 69]));
}

#[test]
fn t_leap() {
    assert!(max_leap_seventh(&[60, 67, 60]));
    assert!(!max_leap_seventh(&[60, 73]));
}

#[test]
fn t_range() {
    assert!(voice_range_invariant(&[60, 62], 55, 75));
    assert!(!voice_range_invariant(&[60, 80], 55, 75));
}

#[test]
fn t_contrary() {
    let (c, t) = contrary_motion_counts(&[60, 62, 60], &[67, 65, 67]).unwrap();
    let score = if t == 0 { 0.0 } else { c as f64 / t as f64 };
    assert!(score > 0.5);
}

#[test]
fn parallel_octaves_and_unisons() {
    assert!(!no_parallel_octaves(&[60, 62], &[48, 50]));
    assert!(!no_parallel_octaves(&[60, 62], &[60, 62]));
    // consecutive octaves are refused whatever the motion
    assert!(!no_parallel_octaves(&[60, 62], &[72, 50]));
    assert!(!no_parallel_octaves(&[60, 72], &[72, 60]));
    assert!(!no_parallel_octaves(&[60, 60], &[48, 48]));
    assert!(no_parallel_octaves(&[60, 64], &[48, 48]));
    // oblique motion is never parallel
    assert!(no_parallel_fifths(&[60, 60], &[67, 67]));
}

#[test]
fn parallel_rules_skip_mismatched_or_short_voices() {
    assert!(no_parallel_fifths(&[60], &[67]));
    assert!(no_parallel_fifths(&[60, 62, 64], &[67, 69]));
    assert!(no_parallel_octaves(&[], &[]));
}

#[test]
fn parallels_do_not_depend_on_voice_order() {
    let a = [60, 62, 64, 65];
    let b = [67, 69, 71, 72];
    assert_eq!(no_parallel_fifths(&a, &b), no_parallel_fifths(&b, &a));
    assert!(!no_parallel_fifths(&b, &a));
}

#[test]
fn leading_tone_resolution() {
    assert!(proper_resolution(&[71, 72], 0));
    assert!(!proper_resolution(&[71, 74], 0));
    assert!(proper_resolution(&[71], 0));
    assert!(proper_resolution(&[66, 67], 7));
    assert!(!proper_resolution(&[60, 66, 69], 7));
}

#[test]
fn leaps_of_exactly_an_octave_pass() {
    assert!(max_leap_seventh(&[60, 72, 60]));
    assert!(!max_leap_seventh(&[60, 47]));
    assert!(max_leap_seventh(&[]));
}

#[test]
fn consonant_check_values() {
    assert!(consonant_check(60, 64));
    assert!(!consonant_check(60, 62));
    assert!(!consonant_check(55, 60));
    assert!(consonant_check(53, 60));
}

#[test]
fn similar_motion_counts_values() {
    assert_eq!(similar_motion_counts(&[60, 62, 64], &[67, 69, 71]), Some((2, 2)));
    assert_eq!(similar_motion_counts(&[60, 62, 64], &[67, 65, 71]), Some((1, 2)));
    assert_eq!(similar_motion_counts(&[60, 62], &[67, 69]), None);
    assert_eq!(similar_motion_counts(&[60, 62, 64], &[67, 69]), None);
}

#[test]
fn contrary_motion_counts_values() {
    assert_eq!(contrary_motion_counts(&[60, 62, 60], &[67, 65, 67]), Some((2, 2)));
    assert_eq!(contrary_motion_counts(&[60, 60], &[67, 65]), Some((0, 0)));
    assert_eq!(contrary_motion_counts(&[60], &[67]), None);
}
