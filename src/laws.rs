//! Properties of decoding that relate several events, tracks or calls.
use vstd::prelude::*;
use vstd::arithmetic::div_mod::lemma_div_is_ordered;
use crate::decoder::decode_bytes_result;
use crate::model::{
    decode_notes, enter_track, micros_at, run_events, run_tracks, start_clock, step, Clock,
    EventKind, NoteSpan, TrackEvent,
};

verus! {

/// Later ticks never map to earlier times at a fixed tempo.
pub proof fn lemma_micros_monotonic(t1: int, t2: int, tempo: int, ticks_per_beat: int)
    requires
        0 <= t1 <= t2,
        tempo >= 0,
        ticks_per_beat > 0,
    ensures
        micros_at(t1, tempo, ticks_per_beat) <= micros_at(t2, tempo, ticks_per_beat),
{
    assert(t1 * tempo <= t2 * tempo) by (nonlinear_arith)
        requires
            0 <= t1 <= t2,
            tempo >= 0,
    ;
    lemma_div_is_ordered(t1 * tempo, t2 * tempo, ticks_per_beat);
}

/// Running a sequence of events and then another is running both in order.
pub proof fn lemma_run_events_append(c: Clock, a: Seq<TrackEvent>, b: Seq<TrackEvent>, ticks_per_beat: int)
    ensures
        run_events(c, a + b, ticks_per_beat) == run_events(
            run_events(c, a, ticks_per_beat),
            b,
            ticks_per_beat,
        ),
    decreases b.len(),
{
    if b.len() == 0 {
        assert(a + b =~= a);
    } else {
        lemma_run_events_append(c, a, b.drop_last(), ticks_per_beat);
        assert((a + b).drop_last() =~= a + b.drop_last());
    }
}

/// A Note-On of positive velocity followed by the Note-Off of its pitch.
pub open spec fn note_pair(key: u8, vel: u8, on_delta: u32, off_delta: u32) -> Seq<TrackEvent> {
    seq![
        TrackEvent { delta: on_delta, kind: EventKind::NoteOn(key, vel) },
        TrackEvent { delta: off_delta, kind: EventKind::NoteOff(key) },
    ]
}

/// A track made of note pairs, one after the other; each pair is
/// (pitch, velocity, ticks before its Note-On, ticks before its Note-Off).
pub open spec fn paired_track(pairs: Seq<(u8, u8, u32, u32)>) -> Seq<TrackEvent>
    decreases pairs.len(),
{
    if pairs.len() == 0 {
        Seq::empty()
    } else {
        let p = pairs.last();
        paired_track(pairs.drop_last()) + note_pair(p.0, p.1, p.2, p.3)
    }
}

proof fn lemma_paired_events(c: Clock, pairs: Seq<(u8, u8, u32, u32)>, ticks_per_beat: int)
    requires
        c.active == Map::<u8, int>::empty(),
        c.tempo >= 0,
        c.ticks >= 0,
        ticks_per_beat > 0,
        forall|i: int| 0 <= i < pairs.len() ==> #[trigger] pairs[i].1 > 0,
    ensures
        ({
            let r = run_events(c, paired_track(pairs), ticks_per_beat);
            &&& r.active == Map::<u8, int>::empty()
            &&& r.tempo == c.tempo
            &&& r.ticks >= 0
            &&& r.notes.len() == c.notes.len() + pairs.len()
            &&& r.notes.take(c.notes.len() as int) == c.notes
            &&& forall|i: int|
                0 <= i < pairs.len() ==> {
                    &&& (#[trigger] r.notes[c.notes.len() + i]).code == pairs[i].0
                    &&& r.notes[c.notes.len() + i].start <= r.notes[c.notes.len() + i].end
                }
        }),
    decreases pairs.len(),
{
    if pairs.len() > 0 {
        let init = pairs.drop_last();
        let p = pairs.last();
        assert forall|i: int| 0 <= i < init.len() implies #[trigger] init[i].1 > 0 by {
            assert(init[i] == pairs[i]);
        }
        lemma_paired_events(c, init, ticks_per_beat);
        let s = run_events(c, paired_track(init), ticks_per_beat);
        let two = note_pair(p.0, p.1, p.2, p.3);
        lemma_run_events_append(c, paired_track(init), two, ticks_per_beat);
        assert(two.drop_last() =~= seq![two[0]]);
        assert(seq![two[0]].drop_last() =~= Seq::<TrackEvent>::empty());
        assert(pairs[pairs.len() - 1].1 > 0);
        let s1 = step(s, two[0], ticks_per_beat);
        let r = step(s1, two[1], ticks_per_beat);
        assert(run_events(s, Seq::<TrackEvent>::empty(), ticks_per_beat) == s);
        assert(run_events(s, seq![two[0]], ticks_per_beat) == s1);
        assert(run_events(s, two, ticks_per_beat) == r);
        lemma_micros_monotonic(s.ticks + p.2, s.ticks + p.2 + p.3, s.tempo, ticks_per_beat);
        assert(r.active =~= Map::<u8, int>::empty());
        assert(r.notes.take(c.notes.len() as int) =~= c.notes) by {
            assert(s.notes.take(c.notes.len() as int) == c.notes);
        }
        assert forall|i: int| 0 <= i < pairs.len() implies {
            &&& (#[trigger] r.notes[c.notes.len() + i]).code == pairs[i].0
            &&& r.notes[c.notes.len() + i].start <= r.notes[c.notes.len() + i].end
        } by {
            if i < init.len() {
                assert(r.notes[c.notes.len() + i] == s.notes[c.notes.len() + i]);
                assert(init[i] == pairs[i]);
            }
        }
    }
}

/// A track of balanced Note-On / Note-Off pairs, each Note-Off right after
/// its Note-On, with no tempo change, decodes to exactly one note per pair,
/// in order, with that pair's pitch and a start no later than its end.
pub proof fn law_balanced_pairs(pairs: Seq<(u8, u8, u32, u32)>, tempo: int, ticks_per_beat: int)
    requires
        tempo >= 0,
        ticks_per_beat > 0,
        forall|i: int| 0 <= i < pairs.len() ==> #[trigger] pairs[i].1 > 0,
    ensures
        ({
            let notes = decode_notes(seq![paired_track(pairs)], tempo, ticks_per_beat);
            &&& notes.len() == pairs.len()
            &&& forall|i: int|
                0 <= i < pairs.len() ==> {
                    &&& (#[trigger] notes[i]).code == pairs[i].0
                    &&& notes[i].start <= notes[i].end
                }
        }),
{
    let tracks = seq![paired_track(pairs)];
    assert(tracks.drop_last() =~= Seq::<Seq<TrackEvent>>::empty());
    let c = enter_track(start_clock(tempo));
    assert(run_tracks(start_clock(tempo), tracks.drop_last(), ticks_per_beat) == start_clock(tempo));
    assert(tracks.last() == paired_track(pairs));
    lemma_paired_events(c, pairs, ticks_per_beat);
    let notes = run_events(c, paired_track(pairs), ticks_per_beat).notes;
    assert(decode_notes(tracks, tempo, ticks_per_beat) == notes);
    assert forall|i: int| 0 <= i < pairs.len() implies {
        &&& (#[trigger] notes[i]).code == pairs[i].0
        &&& notes[i].start <= notes[i].end
    } by {
        assert(c.notes.len() + i == i);
    }
}

/// A track without tempo changes.
pub open spec fn no_tempo_change(events: Seq<TrackEvent>) -> bool {
    forall|i: int| 0 <= i < events.len() ==> !(#[trigger] events[i].kind is Tempo)
}

/// Every sounding note started no later than now, and every note emitted
/// starts no later than it ends.
pub open spec fn times_ordered(c: Clock, ticks_per_beat: int) -> bool {
    &&& c.ticks >= 0
    &&& c.tempo >= 0
    &&& forall|k: u8| #[trigger]
        c.active.contains_key(k) ==> c.active[k] <= micros_at(c.ticks, c.tempo, ticks_per_beat)
    &&& forall|i: int| 0 <= i < c.notes.len() ==> (#[trigger] c.notes[i]).start <= c.notes[i].end
}

proof fn lemma_events_ordered(c: Clock, events: Seq<TrackEvent>, ticks_per_beat: int)
    requires
        ticks_per_beat > 0,
        times_ordered(c, ticks_per_beat),
        no_tempo_change(events),
    ensures
        times_ordered(run_events(c, events, ticks_per_beat), ticks_per_beat),
    decreases events.len(),
{
    if events.len() > 0 {
        let init = events.drop_last();
        assert forall|i: int| 0 <= i < init.len() implies !(#[trigger] init[i].kind is Tempo) by {
            assert(init[i] == events[i]);
        }
        lemma_events_ordered(c, init, ticks_per_beat);
        let s = run_events(c, init, ticks_per_beat);
        let e = events.last();
        assert(!(events[events.len() - 1].kind is Tempo));
        lemma_micros_monotonic(s.ticks, s.ticks + e.delta, s.tempo, ticks_per_beat);
    }
}

proof fn lemma_tracks_ordered(c: Clock, tracks: Seq<Seq<TrackEvent>>, ticks_per_beat: int)
    requires
        ticks_per_beat > 0,
        times_ordered(c, ticks_per_beat),
        forall|j: int| 0 <= j < tracks.len() ==> no_tempo_change(#[trigger] tracks[j]),
    ensures
        times_ordered(run_tracks(c, tracks, ticks_per_beat), ticks_per_beat),
    decreases tracks.len(),
{
    if tracks.len() > 0 {
        let init = tracks.drop_last();
        assert forall|j: int| 0 <= j < init.len() implies no_tempo_change(#[trigger] init[j]) by {
            assert(init[j] == tracks[j]);
        }
        lemma_tracks_ordered(c, init, ticks_per_beat);
        assert(no_tempo_change(tracks[tracks.len() - 1]));
        lemma_events_ordered(enter_track(run_tracks(c, init, ticks_per_beat)), tracks.last(), ticks_per_beat);
    }
}

/// Without tempo changes, every decoded note starts no later than it ends.
/// (A tempo change while a note sounds can end it before its start.)
pub proof fn law_start_not_after_end(tracks: Seq<Seq<TrackEvent>>, tempo: int, ticks_per_beat: int)
    requires
        tempo >= 0,
        ticks_per_beat > 0,
        forall|j: int| 0 <= j < tracks.len() ==> no_tempo_change(#[trigger] tracks[j]),
    ensures
        forall|i: int|
            0 <= i < decode_notes(tracks, tempo, ticks_per_beat).len() ==> (#[trigger] decode_notes(
                tracks,
                tempo,
                ticks_per_beat,
            )[i]).start <= decode_notes(tracks, tempo, ticks_per_beat)[i].end,
{
    lemma_tracks_ordered(start_clock(tempo), tracks, ticks_per_beat);
}

proof fn lemma_tracks_agree_after(
    c: Clock,
    a: Seq<Seq<TrackEvent>>,
    b: Seq<Seq<TrackEvent>>,
    j: int,
    n: int,
    ticks_per_beat: int,
)
    requires
        0 <= j < n <= a.len(),
        a.len() == b.len(),
        forall|i: int| 0 <= i < a.len() && i != j ==> a[i] == b[i],
        enter_track(run_tracks(c, a.take(j + 1), ticks_per_beat)) == enter_track(
            run_tracks(c, b.take(j + 1), ticks_per_beat),
        ),
    ensures
        enter_track(run_tracks(c, a.take(n), ticks_per_beat)) == enter_track(
            run_tracks(c, b.take(n), ticks_per_beat),
        ),
    decreases n,
{
    if n > j + 1 {
        lemma_tracks_agree_after(c, a, b, j, n - 1, ticks_per_beat);
        assert(a.take(n).drop_last() =~= a.take(n - 1));
        assert(b.take(n).drop_last() =~= b.take(n - 1));
        assert(a[n - 1] == b[n - 1]);
    }
}

/// A Note-On left sounding at the end of its track is never emitted: adding
/// one at the end of any track leaves the decoded notes unchanged.
pub proof fn law_open_note_dropped(
    tracks: Seq<Seq<TrackEvent>>,
    j: int,
    key: u8,
    vel: u8,
    delta: u32,
    tempo: int,
    ticks_per_beat: int,
)
    requires
        0 <= j < tracks.len(),
    ensures
        decode_notes(
            tracks.update(j, tracks[j].push(TrackEvent { delta, kind: EventKind::NoteOn(key, vel) })),
            tempo,
            ticks_per_beat,
        ) == decode_notes(tracks, tempo, ticks_per_beat),
{
    let e = TrackEvent { delta, kind: EventKind::NoteOn(key, vel) };
    let a = tracks.update(j, tracks[j].push(e));
    let c = start_clock(tempo);
    assert(a.take(j + 1).drop_last() =~= tracks.take(j + 1).drop_last());
    let x = enter_track(run_tracks(c, tracks.take(j), ticks_per_beat));
    assert(tracks.take(j + 1).drop_last() =~= tracks.take(j));
    assert(a[j].drop_last() =~= tracks[j]);
    assert(run_events(x, a[j], ticks_per_beat) == step(run_events(x, tracks[j], ticks_per_beat), e, ticks_per_beat));
    lemma_tracks_agree_after(c, a, tracks, j, tracks.len() as int, ticks_per_beat);
    assert(a.take(a.len() as int) =~= a);
    assert(tracks.take(tracks.len() as int) =~= tracks);
}

/// A Note-Off for a pitch that is not sounding emits nothing and changes
/// nothing but the tick counter.
pub proof fn law_unmatched_note_off(
    c: Clock,
    events: Seq<TrackEvent>,
    key: u8,
    delta: u32,
    ticks_per_beat: int,
)
    requires
        !run_events(c, events, ticks_per_beat).active.contains_key(key),
    ensures
        ({
            let before = run_events(c, events, ticks_per_beat);
            let after = run_events(
                c,
                events.push(TrackEvent { delta, kind: EventKind::NoteOff(key) }),
                ticks_per_beat,
            );
            after == Clock { ticks: before.ticks + delta, ..before }
        }),
{
    let e = TrackEvent { delta, kind: EventKind::NoteOff(key) };
    assert(events.push(e).drop_last() =~= events);
}

/// Two Note-Ons for one pitch and then its Note-Off emit exactly one note,
/// which starts at the second Note-On: the first is overwritten.
pub proof fn law_repeated_note_on(
    c: Clock,
    events: Seq<TrackEvent>,
    key: u8,
    vel1: u8,
    vel2: u8,
    d1: u32,
    d2: u32,
    d3: u32,
    ticks_per_beat: int,
)
    requires
        vel1 > 0,
        vel2 > 0,
    ensures
        ({
            let before = run_events(c, events, ticks_per_beat);
            let after = run_events(
                c,
                events.push(TrackEvent { delta: d1, kind: EventKind::NoteOn(key, vel1) }).push(
                    TrackEvent { delta: d2, kind: EventKind::NoteOn(key, vel2) },
                ).push(TrackEvent { delta: d3, kind: EventKind::NoteOff(key) }),
                ticks_per_beat,
            );
            &&& after.notes == before.notes.push(
                NoteSpan {
                    code: key,
                    start: micros_at(before.ticks + d1 + d2, before.tempo, ticks_per_beat),
                    end: micros_at(before.ticks + d1 + d2 + d3, before.tempo, ticks_per_beat),
                },
            )
            &&& after.active == before.active.remove(key)
        }),
{
    let e1 = TrackEvent { delta: d1, kind: EventKind::NoteOn(key, vel1) };
    let e2 = TrackEvent { delta: d2, kind: EventKind::NoteOn(key, vel2) };
    let e3 = TrackEvent { delta: d3, kind: EventKind::NoteOff(key) };
    let s1 = events.push(e1);
    let s2 = s1.push(e2);
    assert(s1.drop_last() =~= events);
    assert(s2.drop_last() =~= s1);
    assert(s2.push(e3).drop_last() =~= s2);
    let before = run_events(c, events, ticks_per_beat);
    let r1 = run_events(c, s1, ticks_per_beat);
    let r2 = run_events(c, s2, ticks_per_beat);
    assert(r1 == step(before, e1, ticks_per_beat));
    assert(r2 == step(r1, e2, ticks_per_beat));
    assert(run_events(c, s2.push(e3), ticks_per_beat) == step(r2, e3, ticks_per_beat));
    assert(r2.active =~= before.active.insert(key, micros_at(before.ticks + d1 + d2, before.tempo, ticks_per_beat)));
    assert(r2.active.insert(key, r2.active[key]).remove(key) =~= before.active.remove(key));
}

/// A Note-On is timed at the tempo in force when it comes: the one before a
/// Tempo event, or the Tempo event's own after it, which also stays in force.
pub proof fn law_tempo_change(
    c: Clock,
    events: Seq<TrackEvent>,
    micros_per_beat: u32,
    tempo_delta: u32,
    key: u8,
    vel: u8,
    delta: u32,
    ticks_per_beat: int,
)
    requires
        vel > 0,
    ensures
        ({
            let before = run_events(c, events, ticks_per_beat);
            let on = TrackEvent { delta, kind: EventKind::NoteOn(key, vel) };
            let change = TrackEvent { delta: tempo_delta, kind: EventKind::Tempo(micros_per_beat) };
            let early = run_events(c, events.push(on), ticks_per_beat);
            let late = run_events(c, events.push(change).push(on), ticks_per_beat);
            &&& early.active[key] == micros_at(before.ticks + delta, before.tempo, ticks_per_beat)
            &&& late.active[key] == micros_at(
                before.ticks + tempo_delta + delta,
                micros_per_beat as int,
                ticks_per_beat,
            )
            &&& late.tempo == micros_per_beat as int
        }),
{
    let on = TrackEvent { delta, kind: EventKind::NoteOn(key, vel) };
    let change = TrackEvent { delta: tempo_delta, kind: EventKind::Tempo(micros_per_beat) };
    assert(events.push(on).drop_last() =~= events);
    assert(events.push(change).drop_last() =~= events);
    assert(events.push(change).push(on).drop_last() =~= events.push(change));
    let before = run_events(c, events, ticks_per_beat);
    let mid = run_events(c, events.push(change), ticks_per_beat);
    assert(run_events(c, events.push(on), ticks_per_beat) == step(before, on, ticks_per_beat));
    assert(mid == step(before, change, ticks_per_beat));
    assert(run_events(c, events.push(change).push(on), ticks_per_beat) == step(mid, on, ticks_per_beat));
}

/// Decoding is a function of the bytes and the tempo hint alone: the same
/// input decodes to the same notes, or fails the same way, every time.
pub proof fn law_decode_deterministic(bytes1: Seq<u8>, bytes2: Seq<u8>, bpm: Option<u32>)
    requires
        bytes1 == bytes2,
    ensures
        decode_bytes_result(bytes1, bpm) == decode_bytes_result(bytes2, bpm),
{
}

} // verus!
