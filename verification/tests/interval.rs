use counterpoint_engine::interval::{
    consonant_interval, is_consonant, is_perfect, pitch_class, pitch_name, semitone_interval,
};

#[test]
fn t_consonance() {
    assert!(is_consonant(0));
    assert!(is_consonant(7));
    assert!(!is_consonant(6));
}

#[test]
fn t_pc() {
    assert_eq!(pitch_class(60), 0);
    assert_eq!(pitch_class(64), 4);
}

#[test]
fn interval_t_name() {
    assert_eq!(pitch_name(60), "C");
}

#[test]
fn t_interval() {
    assert_eq!(semitone_interval(0, 4), 4);
    assert_eq!(semitone_interval(0, 8), -4);
}

#[test]
fn consonance_ignores_direction_and_octaves() {
    for s in -30..30 {
        assert_eq!(is_consonant(s), is_consonant(-s));
        if s >= 0 {
            assert_eq!(is_consonant(s), is_consonant(s + 12));
        }
    }
    // the perfect fourth is a dissonance in two-part first species
    assert!(!is_consonant(5));
    assert!(!is_consonant(17));
    assert!(!is_consonant(1));
    assert!(!is_consonant(11));
    assert!(is_consonant(19));
    assert!(is_consonant(-16));
}

#[test]
fn perfect_intervals() {
    assert!(is_perfect(0));
    assert!(!is_perfect(5));
    assert!(is_perfect(7));
    assert!(is_perfect(19));
    assert!(is_perfect(-12));
    assert!(!is_perfect(4));
    assert!(!is_perfect(6));
}

#[test]
fn pitch_classes_of_negative_notes() {
    assert_eq!(pitch_class(-1), 11);
    assert_eq!(pitch_class(-12), 0);
    assert_eq!(pitch_class(i32::MIN), 4);
    assert_eq!(pitch_name(-1), "B");
    assert_eq!(pitch_name(61), "C#");
    assert_eq!(pitch_name(71), "B");
    assert_eq!(pitch_class(72), pitch_class(60));
}

#[test]
fn semitone_interval_range_and_tritone() {
    assert_eq!(semitone_interval(0, 6), 6);
    assert_eq!(semitone_interval(6, 0), 6);
    assert_eq!(semitone_interval(0, 7), -5);
    assert_eq!(semitone_interval(7, 0), 5);
    assert_eq!(semitone_interval(60, 48), 0);
    for a in -20..20 {
        for b in -20..20 {
            let d = semitone_interval(a, b);
            assert!((-5..=6).contains(&d));
            assert_eq!(pitch_class(a + d), pitch_class(b));
        }
    }
}

#[test]
fn consonant_interval_symmetric() {
    assert!(consonant_interval(60, 67));
    assert!(consonant_interval(67, 60));
    assert!(!consonant_interval(60, 66));
    assert!(consonant_interval(48, 76));
}
