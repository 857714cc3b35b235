use counterpoint_engine::rules::{no_parallel_fifths, no_parallel_octaves};
use counterpoint_engine::voice_leading::{analyze_voice_leading, voices_cross};

#[test]
fn t_analysis() {
    let s = analyze_voice_leading(&[60, 62, 64, 65], &[67, 65, 67, 69]);
    assert!(s.total_intervals > 0);
}

#[test]
fn t_no_cross() {
    assert!(!voices_cross(&[67, 69], &[60, 62]));
}

#[test]
fn t_cross() {
    assert!(voices_cross(&[60, 62], &[67, 65]));
}

#[test]
fn analysis_counts() {
    let s = analyze_voice_leading(&[60, 62, 64, 65], &[67, 65, 67, 69]);
    assert_eq!(s.total_intervals, 3);
    assert_eq!(s.contrary_motion, 1);
    assert_eq!(s.similar_motion, 2);
    assert_eq!(s.oblique_motion, 0);
    assert_eq!(s.smoothness, 2 + 2 + 1 + 2 + 2 + 2);
    assert_eq!(s.parallel_fifths, 0);
    assert_eq!(s.contrary_motion + s.similar_motion + s.oblique_motion, s.total_intervals);
}

#[test]
fn analysis_parallels_and_oblique() {
    let s = analyze_voice_leading(&[60, 62, 62], &[67, 69, 64]);
    assert_eq!(s.parallel_fifths, 1);
    assert_eq!(s.parallel_octaves, 0);
    assert_eq!(s.similar_motion, 1);
    assert_eq!(s.oblique_motion, 1);
    let o = analyze_voice_leading(&[60, 62], &[48, 50]);
    assert_eq!(o.parallel_octaves, 1);
}

#[test]
fn analysis_of_unpaired_voices_is_empty() {
    let s = analyze_voice_leading(&[60, 62, 64], &[67, 69]);
    assert_eq!(s.total_intervals, 0);
    assert_eq!(s.smoothness, 0);
    let t = analyze_voice_leading(&[60], &[67]);
    assert_eq!(t.total_intervals, 0);
}

#[test]
fn crossing_uses_common_beats_only() {
    assert!(!voices_cross(&[70, 71, 10], &[60, 62]));
    assert!(!voices_cross(&[], &[60]));
    assert!(!voices_cross(&[60], &[60]));
}

#[test]
fn parallel_counts_agree_with_rules() {
    let cases: [(&[i32], &[i32]); 4] = [
        (&[60, 62, 64], &[67, 69, 71]),
        (&[60, 62, 64], &[67, 65, 64]),
        (&[60, 62], &[48, 50]),
        (&[60, 64, 65], &[53, 57, 58]),
    ];
    for (a, b) in cases {
        let s = analyze_voice_leading(a, b);
        assert_eq!(s.parallel_fifths == 0, no_parallel_fifths(a, b));
        assert_eq!(s.parallel_octaves == 0, no_parallel_octaves(a, b));
    }
}
