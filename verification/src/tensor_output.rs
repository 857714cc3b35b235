//! Tensor-MIDI event encoding: each note becomes four bytes.
use vstd::prelude::*;
use crate::arith::{rem_euclid_12, rem_euclid_256};

verus! {

/// One encoded note: the cosine and sine of its interval angle scaled by 60, its beat
/// (mod 256) and a state byte holding a voice-leading side in the high nibble and the
/// pitch class in the low nibble.
#[derive(Debug, Clone, Copy, PartialEq, Eq, Structural)]
pub struct TensorMidiEvent {
    pub cos_int8: i8,
    pub sin_int8: i8,
    pub beat_k: u8,
    pub state_byte: u8,
}

/// `60 * cos(k * 30°)` for k in 0..12, rounded toward zero as IEEE doubles give it.
pub const COS_TABLE: [i8; 12] = [60, 51, 30, 0, -29, -51, -60, -51, -30, 0, 30, 51];

/// `60 * sin(k * 30°)` for k in 0..12, rounded toward zero as IEEE doubles give it.
pub const SIN_TABLE: [i8; 12] = [0, 29, 51, 60, 51, 29, 0, -29, -51, -60, -51, -30];

/// The event for a note of pitch `pitch` at interval `interval` above the bass, on beat
/// `beat`, with voice-leading side `side`.
pub open spec fn pitch_interval_event(pitch: int, interval: int, beat: int, side: int) -> TensorMidiEvent {
    TensorMidiEvent {
        cos_int8: COS_TABLE@[interval % 12],
        sin_int8: SIN_TABLE@[interval % 12],
        beat_k: (beat % 256) as u8,
        state_byte: ((side % 16) * 16 + pitch % 12) as u8,
    }
}

/// The four bytes of an event: cosine and sine reinterpreted as unsigned, beat, state.
pub open spec fn event_bytes(e: TensorMidiEvent) -> Seq<u8> {
    seq![e.cos_int8 as u8, e.sin_int8 as u8, e.beat_k, e.state_byte]
}

/// The event that four bytes encode.
pub open spec fn event_of_bytes(b: Seq<u8>) -> TensorMidiEvent {
    TensorMidiEvent { cos_int8: b[0] as i8, sin_int8: b[1] as i8, beat_k: b[2], state_byte: b[3] }
}

impl TensorMidiEvent {
    /// The event with the given fields.
    pub fn new(cos: i8, sin: i8, beat: u8, state: u8) -> (r: Self)
        ensures
            r == (TensorMidiEvent { cos_int8: cos, sin_int8: sin, beat_k: beat, state_byte: state }),
    {
        TensorMidiEvent { cos_int8: cos, sin_int8: sin, beat_k: beat, state_byte: state }
    }

    /// The event for a note of pitch `pitch` at interval `interval` above the bass, on
    /// beat `beat`, with voice-leading side `side` (only its low four bits are kept).
    pub fn from_pitch_interval(pitch: i32, interval: i32, beat: i32, side: i32) -> (r: Self)
        ensures
            r == pitch_interval_event(pitch as int, interval as int, beat as int, side as int),
    {
        let k = rem_euclid_12(interval) as usize;
        let cos = COS_TABLE[k];
        let sin = SIN_TABLE[k];
        let lo: i32 = side & 0x0F;
        assert(0 <= lo < 16 && lo as int == side as int % 16) by (bit_vector)
            requires
                lo == side & 0x0F,
        ;
        let pc = rem_euclid_12(pitch);
        let high: u8 = (lo as u8) << 4u8;
        let low: u8 = pc as u8;
        let state: u8 = high | low;
        assert(state == lo * 16 + pc) by (bit_vector)
            requires
                0 <= lo < 16,
                0 <= pc < 12,
                high == (lo as u8) << 4u8,
                low == pc as u8,
                state == high | low,
        ;
        let b = rem_euclid_256(beat) as u8;
        Self::new(cos, sin, b, state)
    }

    /// The four bytes of the event.
    pub fn to_bytes(&self) -> (r: [u8; 4])
        ensures
            r@ == event_bytes(*self),
    {
        let r = [self.cos_int8 as u8, self.sin_int8 as u8, self.beat_k, self.state_byte];
        assert(r@ =~= event_bytes(*self));
        r
    }

    /// The event that four bytes encode.
    pub fn from_bytes(b: [u8; 4]) -> (r: Self)
        ensures
            r == event_of_bytes(b@),
    {
        TensorMidiEvent { cos_int8: b[0] as i8, sin_int8: b[1] as i8, beat_k: b[2], state_byte: b[3] }
    }
}

/// Decoding the bytes of an event gives the event back.
pub proof fn law_bytes_round_trip(e: TensorMidiEvent)
    ensures
        event_of_bytes(event_bytes(e)) == e,
{
    let c = e.cos_int8;
    let s = e.sin_int8;
    assert((c as u8) as i8 == c) by (bit_vector);
    assert((s as u8) as i8 == s) by (bit_vector);
}

/// Encoding the event of four bytes gives the bytes back.
pub proof fn law_event_round_trip(b: Seq<u8>)
    requires
        b.len() == 4,
    ensures
        event_bytes(event_of_bytes(b)) == b,
{
    let x = b[0];
    let y = b[1];
    assert((x as i8) as u8 == x) by (bit_vector);
    assert((y as i8) as u8 == y) by (bit_vector);
    assert(event_bytes(event_of_bytes(b)) =~= b);
}

/// The voice-leading side of beat `beat` of `voice`: 1 on the first beat; 3 for a
/// leading tone (pitch class 11) rising to the tonic (pitch class 0); otherwise, by the
/// upward interval class of the step, 0 for a step of at most two semitones, 1 for a
/// third, fifth or sixth (3, 4, 7, 8, 9), and 2 for anything else.
pub open spec fn side_state(voice: Seq<i32>, beat: int) -> int {
    if beat == 0 {
        1
    } else {
        let prev = voice[beat - 1] as int;
        let curr = voice[beat] as int;
        let leap = (curr - prev) % 12;
        if prev % 12 == 11 && curr % 12 == 0 {
            3
        } else if leap <= 2 {
            0
        } else if leap == 3 || leap == 4 || leap == 7 || leap == 8 || leap == 9 {
            1
        } else {
            2
        }
    }
}

/// The step into `beat` of `voice` (if any) is an `i32`.
pub open spec fn step_fits(voice: Seq<i32>, beat: int) -> bool {
    beat == 0 || (beat < voice.len() && i32::MIN <= voice[beat] - voice[beat - 1] <= i32::MAX)
}

/// The voice-leading side of beat `beat` of `voice`.
pub fn voice_leading_side_state(voice: &[i32], beat: usize) -> (r: i32)
    requires
        step_fits(voice@, beat as int),
    ensures
        r == side_state(voice@, beat as int),
        beat == 0 ==> r == 1,
        beat > 0 ==> {
            let prev = voice@[beat - 1] as int;
            let curr = voice@[beat as int] as int;
            let leap = (curr - prev) % 12;
            &&& (prev % 12 == 11 && curr % 12 == 0) ==> r == 3
            &&& !(prev % 12 == 11 && curr % 12 == 0) ==> {
                &&& (r == 0 <==> (leap == 0 || leap == 1 || leap == 2))
                &&& (r == 1 <==> (leap == 3 || leap == 4 || leap == 7 || leap == 8 || leap == 9))
                &&& (r == 2 <==> (leap == 5 || leap == 6 || leap == 10 || leap == 11))
            }
        },
{
    if beat == 0 {
        return 1;
    }
    let prev = voice[beat - 1];
    let curr = voice[beat];
    let leap = rem_euclid_12(curr - prev);
    if rem_euclid_12(prev) == 11 && rem_euclid_12(curr) == 0 {
        return 3;
    }
    if leap <= 2 {
        0
    } else if leap == 3 || leap == 4 || leap == 7 || leap == 8 || leap == 9 {
        1
    } else {
        2
    }
}

/// The pitches of each voice.
pub open spec fn voice_seqs(voices: Seq<Vec<i32>>) -> Seq<Seq<i32>> {
    voices.map_values(|v: Vec<i32>| v@)
}

/// The event of voice `vi` on beat `beat`: its interval is measured from the bass
/// (voice 0), and is 0 for the bass itself.
pub open spec fn voice_event(vs: Seq<Seq<i32>>, vi: int, beat: int) -> TensorMidiEvent {
    let pitch = vs[vi][beat] as int;
    let interval = if vi == 0 { 0 } else { (pitch - vs[0][beat]) % 12 };
    pitch_interval_event(pitch, interval, beat, side_state(vs[vi], beat))
}

/// The events of voices `0..upto` on beat `beat`, skipping voices that have no note there.
pub open spec fn beat_events(vs: Seq<Seq<i32>>, beat: int, upto: int) -> Seq<TensorMidiEvent>
    decreases upto,
{
    if upto <= 0 {
        seq![]
    } else {
        let prev = beat_events(vs, beat, upto - 1);
        if beat < vs[upto - 1].len() { prev.push(voice_event(vs, upto - 1, beat)) } else { prev }
    }
}

/// The events of the beats `0..nb`, beat by beat.
pub open spec fn events_upto(vs: Seq<Seq<i32>>, nb: int) -> Seq<TensorMidiEvent>
    decreases nb,
{
    if nb <= 0 { seq![] } else { events_upto(vs, nb - 1) + beat_events(vs, nb - 1, vs.len() as int) }
}

/// The events of a texture: beat by beat over the beats of the bass, each voice that
/// has a note on the beat in voice order.
pub open spec fn tensor_events(vs: Seq<Seq<i32>>) -> Seq<TensorMidiEvent> {
    if vs.len() == 0 { seq![] } else { events_upto(vs, vs[0].len() as int) }
}

/// The arithmetic of the encoding cannot overflow: every interval above the bass and
/// every melodic step is an `i32`.
pub open spec fn texture_fits(vs: Seq<Seq<i32>>) -> bool {
    vs.len() > 0 ==> {
        &&& forall|vi: int, beat: int| 0 <= vi < vs.len() && 0 <= beat < vs[0].len() && beat < vs[vi].len() ==> {
            &&& i32::MIN <= #[trigger] vs[vi][beat] - vs[0][beat] <= i32::MAX
            &&& step_fits(vs[vi], beat)
        }
    }
}

/// The events of the voices of a texture (voice 0 being the bass), beat by beat.
pub fn voices_to_tensor_events(voices: &[Vec<i32>]) -> (r: Vec<TensorMidiEvent>)
    requires
        texture_fits(voice_seqs(voices@)),
    ensures
        r@ == tensor_events(voice_seqs(voices@)),
{
    let ghost vs = voice_seqs(voices@);
    if voices.len() == 0 {
        return Vec::new();
    }
    let n = voices[0].len();
    let mut events: Vec<TensorMidiEvent> = Vec::new();
    let mut beat: usize = 0;
    while beat < n
        invariant
            vs == voice_seqs(voices@),
            voices@.len() > 0,
            texture_fits(vs),
            n == vs[0].len(),
            0 <= beat <= n,
            events@ == events_upto(vs, beat as int),
        decreases n - beat,
    {
        let bass = voices[0][beat];
        let ghost before = events@;
        let mut vi: usize = 0;
        while vi < voices.len()
            invariant
                vs == voice_seqs(voices@),
                voices@.len() > 0,
                texture_fits(vs),
                n == vs[0].len(),
                0 <= beat < n,
                bass == vs[0][beat as int],
                0 <= vi <= voices@.len(),
                events@ == before + beat_events(vs, beat as int, vi as int),
            decreases voices.len() - vi,
        {
            let v = &voices[vi];
            assert(v@ == vs[vi as int]);
            if beat < v.len() {
                let pitch = v[beat];
                assert(i32::MIN <= vs[vi as int][beat as int] - vs[0][beat as int] <= i32::MAX);
                let interval = if vi == 0 { 0 } else { rem_euclid_12(pitch - bass) };
                let side = voice_leading_side_state(v.as_slice(), beat);
                let wrapped_beat = beat as i32;
                assert((wrapped_beat as int) % 256 == (beat as int) % 256) by (bit_vector)
                    requires
                        wrapped_beat == beat as i32,
                ;
                let e = TensorMidiEvent::from_pitch_interval(pitch, interval, wrapped_beat, side);
                assert(e == voice_event(vs, vi as int, beat as int)) by {
                    if vi == 0 {
                        assert(0int % 12 == 0);
                    } else {
                        assert(interval as int % 12 == interval);
                    }
                }
                events.push(e);
            }
            assert(events@ =~= before + beat_events(vs, beat as int, vi + 1));
            vi = vi + 1;
        }
        beat = beat + 1;
    }
    events
}

/// The side of a beat after the first: 3 for the leading tone (pitch class 11) rising to
/// the tonic (pitch class 0); otherwise, by the upward interval class of the step, 0 for
/// a unison or a second (0, 1, 2), 1 for a third, fifth or sixth (3, 4, 7, 8, 9), and 2
/// for a fourth, tritone or seventh (5, 6, 10, 11). The first beat has side 1.
pub proof fn law_side_states(voice: Seq<i32>, beat: int)
    requires
        0 <= beat < voice.len(),
    ensures
        beat == 0 ==> side_state(voice, beat) == 1,
        beat > 0 ==> {
            let prev = voice[beat - 1] as int;
            let curr = voice[beat] as int;
            let leap = (curr - prev) % 12;
            let s = side_state(voice, beat);
            &&& (prev % 12 == 11 && curr % 12 == 0) ==> s == 3
            &&& !(prev % 12 == 11 && curr % 12 == 0) ==> {
                &&& (s == 0 <==> (leap == 0 || leap == 1 || leap == 2))
                &&& (s == 1 <==> (leap == 3 || leap == 4 || leap == 7 || leap == 8 || leap == 9))
                &&& (s == 2 <==> (leap == 5 || leap == 6 || leap == 10 || leap == 11))
            }
        },
{
}

/// A rising or falling third, a fifth or a sixth between two notes that are not a leading
/// tone and its tonic is a side-1 step: a major third up (4 semitones) gives 1, and so
/// does its inversion, a minor sixth (8), whatever the starting note.
pub proof fn law_side_of_thirds(prev: i32, step: int)
    requires
        step == 3 || step == 4 || step == 7 || step == 8 || step == 9,
        i32::MIN <= prev + step <= i32::MAX,
        !(prev as int % 12 == 11 && (prev + step) % 12 == 0),
    ensures
        side_state(seq![prev, (prev + step) as i32], 1) == 1,
{
    let v = seq![prev, (prev + step) as i32];
    assert(v[1] - v[0] == step);
}

/// The state byte of an event holds the side's low four bits in its high nibble and the
/// pitch class of the note in its low nibble; the beat byte is the beat mod 256.
pub proof fn law_event_nibbles(pitch: int, interval: int, beat: int, side: int)
    ensures
        ({
            let e = pitch_interval_event(pitch, interval, beat, side);
            &&& e.state_byte / 16 == side % 16
            &&& e.state_byte % 16 == pitch % 12
            &&& e.beat_k == beat % 256
            &&& e.cos_int8 == pitch_interval_event(0, interval + 12, 0, 0).cos_int8
            &&& e.sin_int8 == pitch_interval_event(0, interval - 12, 0, 0).sin_int8
        }),
{
    assert((interval + 12) % 12 == interval % 12);
    assert((interval - 12) % 12 == interval % 12);
}

} // verus!
