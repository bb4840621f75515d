use free_piano_midi::decoder::{decode, decode_smf, DecodeError};
use free_piano_midi::model::NoteEvent;

fn vlq(mut v: u32) -> Vec<u8> {
    let mut out = vec![(v & 0x7F) as u8];
    v >>= 7;
    while v > 0 {
        out.insert(0, (v & 0x7F) as u8 | 0x80);
        v >>= 7;
    }
    out
}

fn track(events: &[(u32, Vec<u8>)]) -> Vec<u8> {
    let mut data = Vec::new();
    for (delta, bytes) in events {
        data.extend(vlq(*delta));
        data.extend(bytes);
    }
    data.extend([0x00, 0xFF, 0x2F, 0x00]);
    let mut out = b"MTrk".to_vec();
    out.extend((data.len() as u32).to_be_bytes());
    out.extend(data);
    out
}

fn smf(division: [u8; 2], tracks: &[Vec<u8>]) -> Vec<u8> {
    let mut out = b"MThd".to_vec();
    out.extend([0, 0, 0, 6, 0, 1]);
    out.extend((tracks.len() as u16).to_be_bytes());
    out.extend(division);
    for t in tracks {
        out.extend(t);
    }
    out
}

fn on(ch: u8, key: u8) -> Vec<u8> {
    vec![0x90 | ch, key, 100]
}

fn off(ch: u8, key: u8) -> Vec<u8> {
    vec![0x80 | ch, key, 64]
}

fn tempo(micros: u32) -> Vec<u8> {
    let b = micros.to_be_bytes();
    vec![0xFF, 0x51, 0x03, b[1], b[2], b[3]]
}

const TPB_480: [u8; 2] = [0x01, 0xE0];

#[test]
fn decodes_a_file() {
    let bytes = smf(TPB_480, &[track(&[(0, on(0, 60)), (480, off(0, 60)), (0, on(1, 64)), (240, off(1, 64))])]);
    let r = decode(bytes, None).unwrap();
    assert_eq!(r, vec![
        NoteEvent { code: 60, start: 0, end: 500_000 },
        NoteEvent { code: 64, start: 500_000, end: 750_000 },
    ]);
}

#[test]
fn sixty_bpm_gives_one_second_per_beat() {
    let bytes = smf(TPB_480, &[track(&[(0, on(0, 60)), (480, off(0, 60))])]);
    let r = decode(bytes, Some(60)).unwrap();
    assert_eq!(r, vec![NoteEvent { code: 60, start: 0, end: 1_000_000 }]);
}

#[test]
fn tempo_event_in_file() {
    let bytes = smf(TPB_480, &[
        track(&[(0, tempo(1_000_000))]),
        track(&[(480, on(0, 60)), (480, off(0, 60))]),
    ]);
    let r = decode(bytes, None).unwrap();
    assert_eq!(r, vec![NoteEvent { code: 60, start: 1_000_000, end: 2_000_000 }]);
}

#[test]
fn channel_is_ignored_when_pairing() {
    let bytes = smf(TPB_480, &[track(&[(0, on(0, 60)), (480, on(3, 60)), (480, off(5, 60))])]);
    let r = decode(bytes, None).unwrap();
    assert_eq!(r, vec![NoteEvent { code: 60, start: 500_000, end: 1_000_000 }]);
}

#[test]
fn decoding_twice_gives_the_same_notes() {
    let bytes = smf(TPB_480, &[track(&[(0, on(0, 60)), (100, on(0, 62)), (380, off(0, 60)), (7, off(0, 62))])]);
    let a = decode(bytes.clone(), None);
    let b = decode(bytes, None);
    assert!(a.is_some());
    assert_eq!(a, b);
}

#[test]
fn malformed_bytes_are_rejected() {
    assert_eq!(decode_smf(b"not a midi file", None), Err(DecodeError::Malformed));
    assert_eq!(decode(vec![], None), None);
}

#[test]
fn timecode_file_is_rejected() {
    let bytes = smf([0xE7, 0x28], &[track(&[(0, on(0, 60)), (480, off(0, 60))])]);
    assert_eq!(decode_smf(&bytes, None), Err(DecodeError::UnsupportedTiming));
    assert_eq!(decode(bytes, None), None);
}

#[test]
fn zero_division_file_is_rejected() {
    let bytes = smf([0, 0], &[track(&[(0, on(0, 60)), (480, off(0, 60))])]);
    assert_eq!(decode_smf(&bytes, None), Err(DecodeError::ZeroTicksPerBeat));
}
