//! Pairs Note-On and Note-Off events into note intervals, following the tempo map.
use vstd::prelude::*;
use std::collections::HashMap;
use midly::MetaMessage::Tempo;
use midly::MidiMessage::{NoteOff, NoteOn};
use midly::TrackEventKind::{Meta, Midi};
use midly::{Smf, Timing};
use crate::model::{
    decode_notes, enter_track, initial_tempo_of, micros_at, notes_view, run_events, run_tracks,
    start_clock, step, tracks_view, Clock, Division, EventKind, NoteEvent, NoteSpan, TrackEvent,
    DEFAULT_MICROS_PER_BEAT, MICROS_PER_MINUTE,
};

verus! {

broadcast use vstd::std_specs::hash::group_hash_axioms;

/// Largest tick count a track can reach: at most `usize::MAX` events, each at
/// most `u32::MAX` ticks after the previous one.
pub open spec fn tick_bound() -> int {
    0xFFFF_FFFF_FFFF_FFFFint * 0xFFFF_FFFFint
}

/// The state at the start of a track, given what carries over from earlier tracks.
pub open spec fn resume(tempo: int, notes: Seq<NoteSpan>) -> Clock {
    Clock { tempo, ticks: 0, active: Map::empty(), notes }
}

/// The active-note table holds, with exact times, the notes sounding in a state.
pub open spec fn table_matches(table: Map<u8, u128>, c: Clock) -> bool {
    &&& table.dom() == c.active.dom()
    &&& forall|k: u8| #[trigger] table.contains_key(k) ==> table[k] as int == c.active[k]
}

/// Microseconds elapsed at an absolute tick, at a given tempo.
pub fn tick_to_micros(ticks: u128, tempo: u32, ticks_per_beat: u16) -> (r: u128)
    requires
        ticks_per_beat > 0,
        ticks <= tick_bound(),
    ensures
        r as int == micros_at(ticks as int, tempo as int, ticks_per_beat as int),
{
    proof {
        let t = ticks as int;
        let m = tempo as int;
        assert(0 <= t * m <= tick_bound() * 0xFFFF_FFFF) by (nonlinear_arith)
            requires
                0 <= t <= tick_bound(),
                0 <= m <= 0xFFFF_FFFF,
        ;
    }
    ticks * (tempo as u128) / (ticks_per_beat as u128)
}

/// Decodes one track. The tempo carries over into later tracks; the notes
/// closed in the track are appended in the order of their Note-Off.
pub fn decode_track(
    track: &Vec<TrackEvent>,
    ticks_per_beat: u16,
    tempo: &mut u32,
    notes: &mut Vec<NoteEvent>,
)
    requires
        ticks_per_beat > 0,
    ensures
        ({
            let c = run_events(
                resume(*old(tempo) as int, notes_view(old(notes)@)),
                track@,
                ticks_per_beat as int,
            );
            &&& *final(tempo) as int == c.tempo
            &&& notes_view(final(notes)@) == c.notes
        }),
{
    let ghost c0 = resume(*tempo as int, notes_view(notes@));
    let ghost tpb = ticks_per_beat as int;
    let mut ticks: u128 = 0;
    let mut active: HashMap<u8, u128> = HashMap::new();
    let n = track.len();
    let mut i: usize = 0;
    proof {
        assert(track@.take(0) =~= Seq::<TrackEvent>::empty());
        assert(active@.dom() =~= c0.active.dom());
    }
    while i < n
        invariant
            n == track@.len(),
            i <= n,
            ticks_per_beat > 0,
            tpb == ticks_per_beat as int,
            ticks as int <= i as int * 0xFFFF_FFFF,
            ({
                let c = run_events(c0, track@.take(i as int), tpb);
                &&& *tempo as int == c.tempo
                &&& ticks as int == c.ticks
                &&& notes_view(notes@) == c.notes
                &&& table_matches(active@, c)
            }),
        decreases n - i,
    {
        let ghost c = run_events(c0, track@.take(i as int), tpb);
        let e = track[i];
        assert(track@.take(i + 1).drop_last() =~= track@.take(i as int));
        assert(track@.take(i + 1).last() == e);
        let ghost c2 = step(c, e, tpb);
        assert(ticks as int + e.delta as int <= (i + 1) as int * 0xFFFF_FFFF) by (nonlinear_arith)
            requires
                ticks as int <= i as int * 0xFFFF_FFFF,
                e.delta as int <= 0xFFFF_FFFF,
        ;
        ticks = ticks + e.delta as u128;
        assert(ticks as int <= tick_bound()) by (nonlinear_arith)
            requires
                ticks as int <= (i + 1) as int * 0xFFFF_FFFF,
                i < n,
                n <= 0xFFFF_FFFF_FFFF_FFFF,
        ;
        match e.kind {
            EventKind::NoteOn(key, vel) => {
                if vel > 0 {
                    let now = tick_to_micros(ticks, *tempo, ticks_per_beat);
                    active.insert(key, now);
                }
            },
            EventKind::NoteOff(key) => {
                match active.remove(&key) {
                    Some(start) => {
                        let end = tick_to_micros(ticks, *tempo, ticks_per_beat);
                        notes.push(NoteEvent { code: key, start, end });
                        proof {
                            assert(notes_view(notes@) =~= c2.notes);
                        }
                    },
                    None => {},
                }
            },
            EventKind::Tempo(micros_per_beat) => {
                *tempo = micros_per_beat;
            },
            EventKind::Other => {},
        }
        proof {
            assert(active@.dom() =~= c2.active.dom());
        }
        i = i + 1;
    }
    assert(track@.take(n as int) =~= track@);
}

/// Why a file could not be decoded.
#[derive(Clone, Copy, Debug, PartialEq, Eq, Structural)]
pub enum DecodeError {
    /// The bytes are not a Standard MIDI File.
    Malformed,
    /// The header's timing division is frame-based, not metrical.
    UnsupportedTiming,
    /// The header declares zero ticks per beat.
    ZeroTicksPerBeat,
    /// The tempo hint is zero beats per minute.
    ZeroBpm,
}

/// What decoding parsed tracks gives: notes, or the first failure in the
/// order timing mode, ticks per beat, tempo hint.
pub open spec fn decode_result(division: Division, tracks: Seq<Seq<TrackEvent>>, bpm: Option<u32>) -> Result<
    Seq<NoteSpan>,
    DecodeError,
> {
    match division {
        Division::Timecode => Err(DecodeError::UnsupportedTiming),
        Division::Metrical(tpb) => if tpb == 0 {
            Err(DecodeError::ZeroTicksPerBeat)
        } else {
            match initial_tempo_of(bpm) {
                None => Err(DecodeError::ZeroBpm),
                Some(tempo) => Ok(decode_notes(tracks, tempo, tpb as int)),
            }
        },
    }
}

/// The initial tempo in microseconds per beat, from an optional
/// beats-per-minute hint; none for a hint of zero.
pub fn initial_tempo(bpm: Option<u32>) -> (r: Option<u32>)
    ensures
        r matches Some(t) <==> initial_tempo_of(bpm) is Some,
        r matches Some(t) ==> initial_tempo_of(bpm) == Some(t as int),
{
    match bpm {
        None => Some(DEFAULT_MICROS_PER_BEAT),
        Some(b) => if b == 0 {
            None
        } else {
            Some(MICROS_PER_MINUTE / b)
        },
    }
}

/// Decodes parsed tracks, in their order, into the note intervals they close.
pub fn decode_tracks(division: Division, tracks: &Vec<Vec<TrackEvent>>, bpm: Option<u32>) -> (r: Result<
    Vec<NoteEvent>,
    DecodeError,
>)
    ensures
        match decode_result(division, tracks_view(*tracks), bpm) {
            Ok(ns) => r matches Ok(v) && notes_view(v@) == ns,
            Err(e) => r == Err::<Vec<NoteEvent>, DecodeError>(e),
        },
{
    let ticks_per_beat = match division {
        Division::Timecode => return Err(DecodeError::UnsupportedTiming),
        Division::Metrical(t) => t,
    };
    if ticks_per_beat == 0 {
        return Err(DecodeError::ZeroTicksPerBeat);
    }
    let mut tempo = match initial_tempo(bpm) {
        None => return Err(DecodeError::ZeroBpm),
        Some(t) => t,
    };
    let ghost tv = tracks_view(*tracks);
    let ghost c0 = start_clock(tempo as int);
    let ghost tpb = ticks_per_beat as int;
    let mut notes: Vec<NoteEvent> = Vec::new();
    let n = tracks.len();
    let mut j: usize = 0;
    proof {
        assert(tv.take(0) =~= Seq::<Seq<TrackEvent>>::empty());
        assert(notes_view(notes@) =~= Seq::<NoteSpan>::empty());
    }
    while j < n
        invariant
            n == tracks@.len(),
            tv == tracks_view(*tracks),
            j <= n,
            ticks_per_beat > 0,
            tpb == ticks_per_beat as int,
            ({
                let c = run_tracks(c0, tv.take(j as int), tpb);
                &&& tempo as int == c.tempo
                &&& notes_view(notes@) == c.notes
            }),
        decreases n - j,
    {
        let ghost c = run_tracks(c0, tv.take(j as int), tpb);
        assert(tv.take(j + 1).drop_last() =~= tv.take(j as int));
        assert(tv.take(j + 1).last() == tracks[j as int]@);
        assert(enter_track(c) == resume(tempo as int, notes_view(notes@)));
        decode_track(&tracks[j], ticks_per_beat, &mut tempo, &mut notes);
        j = j + 1;
    }
    assert(tv.take(n as int) =~= tv);
    Ok(notes)
}

/// A name for what midly's parser reads from a file's bytes: the timing
/// division and each track's events in file order, or nothing on malformed bytes.
pub uninterp spec fn smf_parse(bytes: Seq<u8>) -> Option<(Division, Seq<Seq<TrackEvent>>)>;

/// Relies on midly::Smf::parse: parses a Standard MIDI File and hands back
/// its header's timing division and its tracks' events; fails on malformed bytes.
#[verifier::external_body]
fn parse_smf(bytes: &[u8]) -> (r: Option<(Division, Vec<Vec<TrackEvent>>)>)
    ensures
        r matches Some(p) <==> smf_parse(bytes@) is Some,
        r matches Some(p) ==> smf_parse(bytes@) == Some((p.0, tracks_view(p.1))),
{
    let smf = Smf::parse(bytes).ok()?;
    let division = match smf.header.timing {
        Timing::Metrical(t) => Division::Metrical(t.into()),
        _ => Division::Timecode,
    };
    Some((division, smf.tracks.iter().map(|t| t.iter().map(|e| TrackEvent { delta: e.delta.into(), kind: match e.kind {
        Midi { message: NoteOn { key, vel }, .. } => EventKind::NoteOn(key.into(), vel.into()),
        Midi { message: NoteOff { key, .. }, .. } => EventKind::NoteOff(key.into()),
        Meta(Tempo(t)) => EventKind::Tempo(t.into()),
        _ => EventKind::Other,
    } }).collect()).collect()))
}

/// What decoding a file's bytes gives: notes, or why there are none.
pub open spec fn decode_bytes_result(bytes: Seq<u8>, bpm: Option<u32>) -> Result<Seq<NoteSpan>, DecodeError> {
    match smf_parse(bytes) {
        None => Err(DecodeError::Malformed),
        Some(p) => decode_result(p.0, p.1, bpm),
    }
}

/// Parses a Standard MIDI File and decodes its tracks into note intervals.
pub fn decode_smf(bytes: &[u8], bpm: Option<u32>) -> (r: Result<Vec<NoteEvent>, DecodeError>)
    ensures
        match decode_bytes_result(bytes@, bpm) {
            Ok(ns) => r matches Ok(v) && notes_view(v@) == ns,
            Err(e) => r == Err::<Vec<NoteEvent>, DecodeError>(e),
        },
{
    match parse_smf(bytes) {
        None => Err(DecodeError::Malformed),
        Some((division, tracks)) => decode_tracks(division, &tracks, bpm),
    }
}

/// Decodes a Standard MIDI File into note intervals; none where the file is
/// malformed, its timing is not metrical, or a zero tempo or division is given.
pub fn decode(bytes: Vec<u8>, bpm: Option<u32>) -> (r: Option<Vec<NoteEvent>>)
    ensures
        match decode_bytes_result(bytes@, bpm) {
            Ok(ns) => r matches Some(v) && notes_view(v@) == ns,
            Err(_) => r is None,
        },
{
    match decode_smf(bytes.as_slice(), bpm) {
        Ok(v) => Some(v),
        Err(_) => None,
    }
}

} // verus!
