use counterpoint_engine::tensor_output::{voice_leading_side_state, voices_to_tensor_events, TensorMidiEvent};

#[test]
fn t_roundtrip() {
    let e = TensorMidiEvent::new(42, -42, 100, 200);
    assert_eq!(e, TensorMidiEvent::from_bytes(e.to_bytes()));
}

#[test]
fn t_voices() {
    assert_eq!(voices_to_tensor_events(&[vec![60, 62], vec![67, 65]]).len(), 4);
}

#[test]
fn t_side() {
    assert_eq!(voice_leading_side_state(&[60, 62], 0), 1);
}

#[test]
fn trig_tables_match_floating_point() {
    for k in 0..12i32 {
        let angle = (k as f64) * std::f64::consts::PI / 6.0;
        let e = TensorMidiEvent::from_pitch_interval(0, k, 0, 0);
        assert_eq!(e.cos_int8, (angle.cos() * 60.0) as i8);
        assert_eq!(e.sin_int8, (angle.sin() * 60.0) as i8);
        let f = TensorMidiEvent::from_pitch_interval(0, k + 12 * 5, 0, 0);
        assert_eq!(e, f);
        let g = TensorMidiEvent::from_pitch_interval(0, k - 24, 0, 0);
        assert_eq!(e, g);
    }
}

#[test]
fn state_byte_and_beat() {
    let e = TensorMidiEvent::from_pitch_interval(61, 7, 300, 3);
    assert_eq!(e.state_byte, (3 << 4) | 1);
    assert_eq!(e.beat_k, 44);
    let n = TensorMidiEvent::from_pitch_interval(-1, 0, -1, -1);
    assert_eq!(n.state_byte, (15 << 4) | 11);
    assert_eq!(n.beat_k, 255);
    assert_eq!(n.cos_int8, 60);
    assert_eq!(n.sin_int8, 0);
}

#[test]
fn bytes_round_trip_all_values() {
    for b0 in [0u8, 1, 127, 128, 200, 255] {
        for b1 in [0u8, 42, 128, 255] {
            let bytes = [b0, b1, 7, 9];
            assert_eq!(TensorMidiEvent::from_bytes(bytes).to_bytes(), bytes);
        }
    }
    let e = TensorMidiEvent::new(-128, 127, 0, 255);
    assert_eq!(e.to_bytes(), [128, 127, 0, 255]);
    assert_eq!(TensorMidiEvent::from_bytes(e.to_bytes()), e);
}

#[test]
fn side_states() {
    assert_eq!(voice_leading_side_state(&[71, 72], 1), 3);
    assert_eq!(voice_leading_side_state(&[60, 62], 1), 0);
    assert_eq!(voice_leading_side_state(&[60, 67], 1), 1);
    assert_eq!(voice_leading_side_state(&[60, 66], 1), 2);
    assert_eq!(voice_leading_side_state(&[62, 60], 1), 2);
    assert_eq!(voice_leading_side_state(&[], 0), 1);
}

#[test]
fn tensor_events_order_and_ragged_voices() {
    let events = voices_to_tensor_events(&[vec![48, 50, 52], vec![64], vec![67, 69]]);
    assert_eq!(events.len(), 3 + 1 + 2);
    assert_eq!(events[0], TensorMidiEvent::from_pitch_interval(48, 0, 0, 1));
    assert_eq!(events[1], TensorMidiEvent::from_pitch_interval(64, 4, 0, 1));
    assert_eq!(events[2], TensorMidiEvent::from_pitch_interval(67, 7, 0, 1));
    assert_eq!(events[3], TensorMidiEvent::from_pitch_interval(50, 0, 1, 0));
    assert_eq!(events[4], TensorMidiEvent::from_pitch_interval(69, 7, 1, 0));
    assert_eq!(events[5], TensorMidiEvent::from_pitch_interval(52, 0, 2, 0));
    assert!(voices_to_tensor_events(&[]).is_empty());
}
