//! Plain data of a parsed MIDI file and the mathematical meaning of decoding it.
use vstd::prelude::*;

verus! {

/// Timing division of a MIDI file header.
#[derive(Clone, Copy, Debug, PartialEq, Eq, Structural)]
pub enum Division {
    /// Ticks per quarter-note beat.
    Metrical(u16),
    /// Frame-based timing, which this library does not support.
    Timecode,
}

/// The kind of one track event, as far as decoding cares.
#[derive(Clone, Copy, Debug, PartialEq, Eq, Structural)]
pub enum EventKind {
    /// Channel Note-On with its pitch and velocity. The channel is not kept:
    /// notes are told apart by pitch alone.
    NoteOn(u8, u8),
    /// Channel Note-Off with its pitch.
    NoteOff(u8),
    /// Tempo meta-event, in microseconds per beat.
    Tempo(u32),
    /// Any other event; ignored.
    Other,
}

/// One track event: ticks since the previous event of the track, and its kind.
#[derive(Clone, Copy, Debug, PartialEq, Eq, Structural)]
pub struct TrackEvent {
    pub delta: u32,
    pub kind: EventKind,
}

/// A closed note interval: pitch, and start and end in microseconds.
#[derive(Clone, Copy, Debug, PartialEq, Eq, Structural)]
pub struct NoteEvent {
    pub code: u8,
    pub start: u128,
    pub end: u128,
}

/// Mathematical value of a note interval.
pub ghost struct NoteSpan {
    pub code: u8,
    pub start: int,
    pub end: int,
}

impl View for NoteEvent {
    type V = NoteSpan;

    open spec fn view(&self) -> NoteSpan {
        NoteSpan { code: self.code, start: self.start as int, end: self.end as int }
    }
}

/// The values of a sequence of note events.
pub open spec fn notes_view(v: Seq<NoteEvent>) -> Seq<NoteSpan> {
    v.map_values(|n: NoteEvent| n@)
}

/// The events of each track.
pub open spec fn tracks_view(v: Vec<Vec<TrackEvent>>) -> Seq<Seq<TrackEvent>> {
    v@.map_values(|t: Vec<TrackEvent>| t@)
}

/// Running decode state: tempo (microseconds per beat), ticks since the start
/// of the current track, the notes sounding in it (pitch to start time), and
/// the notes emitted so far.
pub ghost struct Clock {
    pub tempo: int,
    pub ticks: int,
    pub active: Map<u8, int>,
    pub notes: Seq<NoteSpan>,
}

/// Microseconds elapsed at an absolute tick, at a given tempo, truncated.
pub open spec fn micros_at(ticks: int, tempo: int, ticks_per_beat: int) -> int {
    ticks * tempo / ticks_per_beat
}

/// The effect of one event on the decode state. Notes are keyed by pitch
/// alone, a later Note-On replaces the start of a sounding one, and a Note-On
/// of velocity zero is ignored: it does not end a note.
pub open spec fn step(c: Clock, e: TrackEvent, ticks_per_beat: int) -> Clock {
    let ticks = c.ticks + e.delta;
    let now = micros_at(ticks, c.tempo, ticks_per_beat);
    match e.kind {
        EventKind::NoteOn(key, vel) => if vel > 0 {
            Clock { ticks, active: c.active.insert(key, now), ..c }
        } else {
            Clock { ticks, ..c }
        },
        EventKind::NoteOff(key) => if c.active.contains_key(key) {
            Clock {
                ticks,
                active: c.active.remove(key),
                notes: c.notes.push(NoteSpan { code: key, start: c.active[key], end: now }),
                ..c
            }
        } else {
            Clock { ticks, ..c }
        },
        EventKind::Tempo(micros_per_beat) => Clock { ticks, tempo: micros_per_beat as int, ..c },
        EventKind::Other => Clock { ticks, ..c },
    }
}

/// The decode state after a sequence of events, in order.
pub open spec fn run_events(c: Clock, events: Seq<TrackEvent>, ticks_per_beat: int) -> Clock
    decreases events.len(),
{
    if events.len() == 0 {
        c
    } else {
        step(run_events(c, events.drop_last(), ticks_per_beat), events.last(), ticks_per_beat)
    }
}

/// The state at the start of a track: tempo and emitted notes carry over,
/// the tick counter restarts and the notes left sounding are dropped.
pub open spec fn enter_track(c: Clock) -> Clock {
    Clock { ticks: 0, active: Map::empty(), ..c }
}

/// The decode state after whole tracks, processed one after the other.
pub open spec fn run_tracks(c: Clock, tracks: Seq<Seq<TrackEvent>>, ticks_per_beat: int) -> Clock
    decreases tracks.len(),
{
    if tracks.len() == 0 {
        c
    } else {
        run_events(
            enter_track(run_tracks(c, tracks.drop_last(), ticks_per_beat)),
            tracks.last(),
            ticks_per_beat,
        )
    }
}

/// The state before any event, at a given initial tempo.
pub open spec fn start_clock(tempo: int) -> Clock {
    Clock { tempo, ticks: 0, active: Map::empty(), notes: Seq::empty() }
}

/// The notes that a file's tracks decode to, at a given initial tempo.
pub open spec fn decode_notes(tracks: Seq<Seq<TrackEvent>>, tempo: int, ticks_per_beat: int) -> Seq<
    NoteSpan,
> {
    run_tracks(start_clock(tempo), tracks, ticks_per_beat).notes
}

/// Default tempo: 120 beats per minute.
pub const DEFAULT_MICROS_PER_BEAT: u32 = 500_000;

/// Microseconds in one minute.
pub const MICROS_PER_MINUTE: u32 = 60_000_000;

/// The initial tempo in microseconds per beat: from a beats-per-minute hint,
/// or 120 beats per minute without one; none for a hint of zero.
pub open spec fn initial_tempo_of(bpm: Option<u32>) -> Option<int> {
    match bpm {
        None => Some(DEFAULT_MICROS_PER_BEAT as int),
        Some(b) => if b == 0 {
            None
        } else {
            Some(MICROS_PER_MINUTE as int / b as int)
        },
    }
}

} // verus!
