use free_piano_midi::decoder::{decode_tracks, initial_tempo, DecodeError};
use free_piano_midi::model::{Division, EventKind, NoteEvent, TrackEvent};

fn on(delta: u32, key: u8) -> TrackEvent {
    TrackEvent { delta, kind: EventKind::NoteOn(key, 100) }
}

fn off(delta: u32, key: u8) -> TrackEvent {
    TrackEvent { delta, kind: EventKind::NoteOff(key) }
}

fn tempo(delta: u32, micros_per_beat: u32) -> TrackEvent {
    TrackEvent { delta, kind: EventKind::Tempo(micros_per_beat) }
}

fn note(code: u8, start: u128, end: u128) -> NoteEvent {
    NoteEvent { code, start, end }
}

#[test]
fn one_beat_at_sixty_bpm() {
    let tracks = vec![vec![on(0, 60), off(480, 60)]];
    let r = decode_tracks(Division::Metrical(480), &tracks, Some(60)).unwrap();
    assert_eq!(r, vec![note(60, 0, 1_000_000)]);
    assert_eq!(r[0].end - r[0].start, 1_000_000);
}

#[test]
fn default_tempo_is_120_bpm() {
    let tracks = vec![vec![TrackEvent { delta: 480, kind: EventKind::Other }, on(0, 60), off(480, 60)]];
    let r = decode_tracks(Division::Metrical(480), &tracks, None).unwrap();
    assert_eq!(r, vec![note(60, 500_000, 1_000_000)]);
}

#[test]
fn tempo_change_mid_track() {
    let tracks = vec![vec![on(480, 60), tempo(0, 1_000_000), off(480, 60), on(0, 62), off(480, 62)]];
    let r = decode_tracks(Division::Metrical(480), &tracks, None).unwrap();
    assert_eq!(r, vec![note(60, 500_000, 2_000_000), note(62, 2_000_000, 3_000_000)]);
}

#[test]
fn tempo_carries_into_later_tracks() {
    let tracks = vec![vec![tempo(0, 250_000)], vec![on(480, 64), off(480, 64)]];
    let r = decode_tracks(Division::Metrical(480), &tracks, None).unwrap();
    assert_eq!(r, vec![note(64, 250_000, 500_000)]);
}

#[test]
fn balanced_pairs_give_one_note_each() {
    let tracks = vec![vec![on(0, 60), off(100, 60), on(20, 64), off(100, 64), on(0, 67), off(5, 67)]];
    let r = decode_tracks(Division::Metrical(96), &tracks, None).unwrap();
    assert_eq!(r.len(), 3);
    assert_eq!(r, vec![note(60, 0, 520_833), note(64, 625_000, 1_145_833), note(67, 1_145_833, 1_171_875)]);
    for n in &r {
        assert!(n.start <= n.end);
    }
}

#[test]
fn trailing_note_on_is_dropped() {
    let tracks = vec![vec![on(0, 60), off(10, 60), on(10, 72)], vec![off(100, 72)]];
    let r = decode_tracks(Division::Metrical(480), &tracks, None).unwrap();
    assert_eq!(r, vec![note(60, 0, 10_416)]);
}

#[test]
fn lone_note_off_is_ignored() {
    let tracks = vec![vec![off(10, 60), on(0, 61), off(480, 61)]];
    let r = decode_tracks(Division::Metrical(480), &tracks, None).unwrap();
    assert_eq!(r, vec![note(61, 10_416, 510_416)]);
}

#[test]
fn repeated_note_on_keeps_the_later_start() {
    let tracks = vec![vec![on(0, 60), on(480, 60), off(480, 60), off(480, 60)]];
    let r = decode_tracks(Division::Metrical(480), &tracks, None).unwrap();
    assert_eq!(r, vec![note(60, 500_000, 1_000_000)]);
}

#[test]
fn zero_velocity_note_on_is_ignored() {
    let tracks = vec![vec![on(0, 60), TrackEvent { delta: 480, kind: EventKind::NoteOn(60, 0) }, off(480, 60)]];
    let r = decode_tracks(Division::Metrical(480), &tracks, None).unwrap();
    assert_eq!(r, vec![note(60, 0, 1_000_000)]);
}

#[test]
fn notes_come_in_note_off_order() {
    let tracks = vec![vec![on(0, 60), on(0, 64), off(480, 64), off(0, 60)]];
    let r = decode_tracks(Division::Metrical(480), &tracks, None).unwrap();
    assert_eq!(r, vec![note(64, 0, 500_000), note(60, 0, 500_000)]);
}

#[test]
fn empty_input_gives_no_notes() {
    let tracks: Vec<Vec<TrackEvent>> = vec![];
    assert_eq!(decode_tracks(Division::Metrical(480), &tracks, None), Ok(vec![]));
    assert_eq!(decode_tracks(Division::Metrical(480), &vec![vec![]], None), Ok(vec![]));
}

#[test]
fn largest_values_do_not_overflow() {
    let tracks = vec![vec![on(u32::MAX, 127), off(u32::MAX, 127)]];
    let r = decode_tracks(Division::Metrical(1), &tracks, Some(1)).unwrap();
    let t = u32::MAX as u128;
    assert_eq!(r, vec![note(127, t * 60_000_000, 2 * t * 60_000_000)]);
}

#[test]
fn timecode_is_rejected() {
    let tracks = vec![vec![on(0, 60), off(480, 60)]];
    assert_eq!(decode_tracks(Division::Timecode, &tracks, None), Err(DecodeError::UnsupportedTiming));
}

#[test]
fn zero_ticks_per_beat_is_rejected() {
    let tracks = vec![vec![on(0, 60), off(480, 60)]];
    assert_eq!(decode_tracks(Division::Metrical(0), &tracks, None), Err(DecodeError::ZeroTicksPerBeat));
}

#[test]
fn zero_bpm_is_rejected() {
    let tracks = vec![vec![on(0, 60), off(480, 60)]];
    assert_eq!(decode_tracks(Division::Metrical(480), &tracks, Some(0)), Err(DecodeError::ZeroBpm));
}

#[test]
fn initial_tempo_values() {
    assert_eq!(initial_tempo(None), Some(500_000));
    assert_eq!(initial_tempo(Some(60)), Some(1_000_000));
    assert_eq!(initial_tempo(Some(7)), Some(8_571_428));
    assert_eq!(initial_tempo(Some(0)), None);
}
