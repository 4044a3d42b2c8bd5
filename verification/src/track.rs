use vstd::prelude::*;
use vstd::string::StringExecFns;

use crate::midi::{RawEvent, RawEventKind};
use crate::note::Note;
use crate::track_event::TrackEvent;
use crate::utils;

verus! {

/// The tempo, in beats per minute, that a tempo event carrying the given
/// number of microseconds per beat sets, clamped to the machine range.
pub open spec fn tempo_to_bpm(microseconds_per_beat: nat) -> u16
    recommends
        microseconds_per_beat >= 1,
{
    if 60_000_000nat / microseconds_per_beat > 65535 {
        65535u16
    } else {
        (60_000_000nat / microseconds_per_beat) as u16
    }
}

/// The tempo that holds after a track's events have been walked, starting
/// from `b0`: the last tempo event with a nonzero value wins.
pub open spec fn bpm_after(events: Seq<RawEvent>, b0: u16) -> u16
    decreases events.len(),
{
    if events.len() == 0 {
        b0
    } else {
        match events.last().kind {
            RawEventKind::Tempo { microseconds_per_beat } => if microseconds_per_beat > 0 {
                tempo_to_bpm(microseconds_per_beat as nat)
            } else {
                bpm_after(events.drop_last(), b0)
            },
            _ => bpm_after(events.drop_last(), b0),
        }
    }
}

/// The absolute tick at which the event at index `k` fires: the cumulative
/// delta of the first `k` events, saturating at the machine range.
pub open spec fn tick_after(events: Seq<RawEvent>, k: int) -> nat
    decreases k,
{
    if k <= 0 {
        0
    } else if tick_after(events, k - 1) + events[k - 1].delta <= u32::MAX {
        (tick_after(events, k - 1) + events[k - 1].delta) as nat
    } else {
        u32::MAX as nat
    }
}

/// Whether a note carries the key, the mapped velocity, and the absolute
/// tick of some note-starting event of the track.
pub open spec fn note_sourced(
    events: Seq<RawEvent>,
    n: Note,
    velocity_min: u8,
    velocity_max: u8,
) -> bool {
    exists|k: int|
        0 <= k < events.len() && (#[trigger] events[k]).is_note_on() && n.midi_key == events[
            k
        ].event_key() && n.velocity == mapped_velocity(
            events[k].event_velocity() as nat,
            velocity_min,
            velocity_max,
        ) && n.position_in_tick == tick_after(events, k + 1)
}

/// Being sourced from a note-on reads only a note's key, velocity and tick
/// position, so it survives any change to the other fields.
proof fn lemma_note_sourced_fields(
    events: Seq<RawEvent>,
    a: Note,
    b: Note,
    velocity_min: u8,
    velocity_max: u8,
)
    requires
        note_sourced(events, a, velocity_min, velocity_max),
        b.midi_key == a.midi_key,
        b.velocity == a.velocity,
        b.position_in_tick == a.position_in_tick,
    ensures
        note_sourced(events, b, velocity_min, velocity_max),
{
    let k = choose|k: int|
        0 <= k < events.len() && (#[trigger] events[k]).is_note_on() && a.midi_key == events[
            k
        ].event_key() && a.velocity == mapped_velocity(
            events[k].event_velocity() as nat,
            velocity_min,
            velocity_max,
        ) && a.position_in_tick == tick_after(events, k + 1);
    assert(events[k].is_note_on() && b.midi_key == events[k].event_key() && b.velocity
        == mapped_velocity(events[k].event_velocity() as nat, velocity_min, velocity_max)
        && b.position_in_tick == tick_after(events, k + 1));
}

/// How many events of the track start a note.
pub open spec fn count_note_ons(events: Seq<RawEvent>) -> nat
    decreases events.len(),
{
    if events.len() == 0 {
        0
    } else {
        count_note_ons(events.drop_last()) + if events.last().is_note_on() {
            1nat
        } else {
            0nat
        }
    }
}

/// The dynamics value a raw MIDI velocity maps to: `velocity_min` plus the
/// rounded share of the configured range, a linear mapping.
pub open spec fn mapped_velocity(raw: nat, velocity_min: u8, velocity_max: u8) -> int
    recommends
        velocity_min <= velocity_max,
{
    velocity_min + (raw * (velocity_max - velocity_min) + 63) / 127
}

/// Map a raw MIDI velocity linearly into the configured dynamics range,
/// rounding to the nearest step.
fn map_velocity(raw: u8, velocity_min: u8, velocity_max: u8) -> (r: u8)
    requires
        raw <= 127,
        velocity_min <= velocity_max,
    ensures
        r == mapped_velocity(raw as nat, velocity_min, velocity_max),
        velocity_min <= r <= velocity_max,
{
    let span = (velocity_max - velocity_min) as u32;
    assert(raw * span <= 127 * 255) by (nonlinear_arith)
        requires
            raw <= 127,
            span <= 255,
    ;
    let add = (raw as u32 * span + 63) / 127;
    assert((raw * span + 63) as int / 127 <= span) by (nonlinear_arith)
        requires
            raw <= 127,
            0 <= span,
    ;
    velocity_min + (add as u8)
}

/// One converted track: its notes in start order, and the playback-ordered
/// event list the notation will linearize.
#[derive(Debug, Clone)]
pub struct Track {
    pub notes: Vec<Note>,
    pub events: Vec<TrackEvent>,
}

impl Track {
    /// Every event and every note stays within machine bounds.
    pub open spec fn wf(self) -> bool {
        &&& forall|i: int| 0 <= i < self.events@.len() ==> (#[trigger] self.events@[i]).wf()
        &&& forall|i: int| 0 <= i < self.notes@.len() ==> (#[trigger] self.notes@[i]).wf()
    }

    /// Build one track from its raw MIDI events. Ticks are accumulated and
    /// quantized onto the smallest-unit grid; note-on events open notes and
    /// note-off events (or note-ons with velocity 0) close the most recently
    /// opened note of the same key; tempo events update the shared tempo;
    /// finally, simultaneous or overlapping notes are resolved into chords
    /// or truncations. A note left open at the track's end keeps duration 0.
    pub fn new(
        raw_events: &Vec<RawEvent>,
        ppq: u16,
        bpm: &mut u16,
        velocity_min: u8,
        velocity_max: u8,
    ) -> (r: Track)
        requires
            ppq >= 1,
            velocity_min <= velocity_max,
            forall|k: int| 0 <= k < raw_events@.len() ==> (#[trigger] raw_events@[k]).wf(),
        ensures
            r.wf(),
            *final(bpm) == bpm_after(raw_events@, *old(bpm)),
            r.notes@.len() == count_note_ons(raw_events@),
            (forall|k: int|
                0 <= k < raw_events@.len() ==> !(#[trigger] raw_events@[k]).is_note_on())
                ==> r.notes@.len() == 0,
            r.events@.len() == r.notes@.len(),
            forall|i: int|
                0 <= i < r.notes@.len() ==> velocity_min <= (#[trigger] r.notes@[i]).velocity
                    <= velocity_max,
            forall|j: int|
                0 <= j < r.notes@.len() ==> (#[trigger] r.notes@[j]).position_in_smallest_unit
                    == utils::quantized_sat(r.notes@[j].position_in_tick as nat, ppq as nat),
            forall|a: int, b: int|
                0 <= a < b < r.notes@.len() ==> (#[trigger] r.notes@[a]).position_in_smallest_unit
                    <= (#[trigger] r.notes@[b]).position_in_smallest_unit,
            forall|j: int|
                0 <= j < r.notes@.len() ==> note_sourced(
                    raw_events@,
                    #[trigger] r.notes@[j],
                    velocity_min,
                    velocity_max,
                ),
            r.events@.len() > 0 ==> r.events@[0] is SetNote,
            forall|j: int|
                1 <= j < r.events@.len() ==> ((#[trigger] r.events@[j])
                    == TrackEvent::ConnectChord <==> utils::should_connect_to_chord(
                    r.notes@[j],
                    r.notes@[j - 1],
                )),
            forall|j: int|
                0 <= j < r.events@.len() ==> match #[trigger] r.events@[j] {
                    TrackEvent::SetNote(m) => {
                        &&& m.midi_key == r.notes@[j].midi_key
                        &&& m.velocity == r.notes@[j].velocity
                        &&& m.position_in_tick == r.notes@[j].position_in_tick
                        &&& m.duration_in_tick == r.notes@[j].duration_in_tick
                        &&& m.position_in_smallest_unit == r.notes@[j].position_in_smallest_unit
                        &&& m.duration_in_smallest_unit <= r.notes@[j].duration_in_smallest_unit
                    },
                    TrackEvent::ConnectChord => true,
                },
    {
        let mut notes: Vec<Note> = Vec::new();
        let mut open: Vec<(u8, usize)> = Vec::new();
        let mut cur_tick: u32 = 0;
        let n_events = raw_events.len();

        for e in 0..n_events
            invariant
                n_events == raw_events@.len(),
                ppq >= 1,
                velocity_min <= velocity_max,
                forall|k: int| 0 <= k < raw_events@.len() ==> (#[trigger] raw_events@[k]).wf(),
                *bpm == bpm_after(raw_events@.take(e as int), *old(bpm)),
                forall|j: int|
                    0 <= j < notes@.len() ==> (#[trigger] notes@[j]).position_in_tick
                        <= cur_tick,
                forall|j: int|
                    0 <= j < notes@.len() ==> (#[trigger] notes@[j]).position_in_smallest_unit
                        == utils::quantized_sat(notes@[j].position_in_tick as nat, ppq as nat),
                forall|j: int| 0 <= j < notes@.len() ==> (#[trigger] notes@[j]).wf(),
                forall|j: int|
                    0 <= j < notes@.len() ==> velocity_min <= (#[trigger] notes@[j]).velocity
                        <= velocity_max,
                forall|a: int, b: int|
                    0 <= a < b < notes@.len() ==> (#[trigger] notes@[a]).position_in_tick
                        <= (#[trigger] notes@[b]).position_in_tick,
                forall|j: int| 0 <= j < open@.len() ==> (#[trigger] open@[j]).1 < notes@.len(),
                notes@.len() == count_note_ons(raw_events@.take(e as int)),
                (forall|k: int|
                    0 <= k < e ==> !(#[trigger] raw_events@[k]).is_note_on()) ==> notes@.len()
                    == 0,
                cur_tick == tick_after(raw_events@, e as int),
                forall|j: int|
                    0 <= j < notes@.len() ==> note_sourced(
                        raw_events@,
                        #[trigger] notes@[j],
                        velocity_min,
                        velocity_max,
                    ),
        {
            let ghost notes_pre = notes@;
            let ev = raw_events[e];
            cur_tick = if cur_tick <= u32::MAX - ev.delta {
                cur_tick + ev.delta
            } else {
                u32::MAX
            };
            proof {
                assert(cur_tick == tick_after(raw_events@, e + 1));
            }

            match ev.kind {
                RawEventKind::NoteOn { key, velocity } => {
                    if velocity > 0 {
                        let pos_su = utils::tick_to_smallest_unit(cur_tick, ppq);
                        let note = Note {
                            midi_key: key,
                            velocity: map_velocity(velocity, velocity_min, velocity_max),
                            position_in_tick: cur_tick,
                            duration_in_tick: 0,
                            position_in_smallest_unit: pos_su,
                            duration_in_smallest_unit: 0,
                        };
                        notes.push(note);
                        open.push((key, notes.len() - 1));
                        proof {
                            assert(raw_events@[e as int].is_note_on());
                            assert(note_sourced(
                                raw_events@,
                                note,
                                velocity_min,
                                velocity_max,
                            ));
                        }
                    } else {
                        close_note(&mut notes, &mut open, key, cur_tick, ppq);
                        proof {
                            assert forall|j: int| 0 <= j < notes@.len() implies note_sourced(
                                raw_events@,
                                #[trigger] notes@[j],
                                velocity_min,
                                velocity_max,
                            ) by {
                                lemma_note_sourced_fields(
                                    raw_events@,
                                    notes_pre[j],
                                    notes@[j],
                                    velocity_min,
                                    velocity_max,
                                );
                            }
                        }
                    }
                },
                RawEventKind::NoteOff { key } => {
                    close_note(&mut notes, &mut open, key, cur_tick, ppq);
                    proof {
                        assert forall|j: int| 0 <= j < notes@.len() implies note_sourced(
                            raw_events@,
                            #[trigger] notes@[j],
                            velocity_min,
                            velocity_max,
                        ) by {
                            lemma_note_sourced_fields(
                                raw_events@,
                                notes_pre[j],
                                notes@[j],
                                velocity_min,
                                velocity_max,
                            );
                        }
                    }
                },
                RawEventKind::Tempo { microseconds_per_beat } => {
                    if microseconds_per_beat > 0 {
                        let candidate = 60_000_000u32 / microseconds_per_beat;
                        *bpm = if candidate > 65535 {
                            65535
                        } else {
                            candidate as u16
                        };
                    }
                },
                RawEventKind::Other => {},
            }
            proof {
                assert(raw_events@.take(e + 1).drop_last() =~= raw_events@.take(e as int));
                assert(raw_events@.take(e + 1).last() == raw_events@[e as int]);
            }
        }
        proof {
            assert(raw_events@.take(n_events as int) =~= raw_events@);
            assert forall|a: int, b: int|
                0 <= a < b < notes@.len() implies (#[trigger] notes@[a]).position_in_smallest_unit
                <= (#[trigger] notes@[b]).position_in_smallest_unit by {
                utils::lemma_quantized_sat_le(
                    notes@[a].position_in_tick as nat,
                    notes@[b].position_in_tick as nat,
                    ppq as nat,
                );
            }
        }

        let mut events: Vec<TrackEvent> = Vec::new();
        let n_notes = notes.len();
        for i in 0..n_notes
            invariant
                n_notes == notes@.len(),
                forall|j: int| 0 <= j < notes@.len() ==> (#[trigger] notes@[j]).wf(),
                forall|a: int, b: int|
                    0 <= a < b < notes@.len() ==> (
                    #[trigger] notes@[a]).position_in_smallest_unit
                        <= (#[trigger] notes@[b]).position_in_smallest_unit,
                forall|j: int| 0 <= j < events@.len() ==> (#[trigger] events@[j]).wf(),
                events@.len() == i,
                forall|j: int|
                    0 <= j < events@.len() ==> match #[trigger] events@[j] {
                        TrackEvent::SetNote(m) => i >= 1 && m.position_in_smallest_unit
                            <= notes@[i - 1].position_in_smallest_unit,
                        TrackEvent::ConnectChord => true,
                    },
                events@.len() > 0 ==> events@[0] is SetNote,
                forall|j: int|
                    1 <= j < events@.len() ==> ((#[trigger] events@[j])
                        == TrackEvent::ConnectChord <==> utils::should_connect_to_chord(
                        notes@[j],
                        notes@[j - 1],
                    )),
                forall|j: int|
                    0 <= j < events@.len() ==> match #[trigger] events@[j] {
                        TrackEvent::SetNote(m) => {
                            &&& m.midi_key == notes@[j].midi_key
                            &&& m.velocity == notes@[j].velocity
                            &&& m.position_in_tick == notes@[j].position_in_tick
                            &&& m.duration_in_tick == notes@[j].duration_in_tick
                            &&& m.position_in_smallest_unit == notes@[j].position_in_smallest_unit
                            &&& m.duration_in_smallest_unit <= notes@[j].duration_in_smallest_unit
                        },
                        TrackEvent::ConnectChord => true,
                    },
        {
            if i == 0 {
                events.push(TrackEvent::SetNote(notes[0]));
            } else {
                let current = notes[i];
                let before = notes[i - 1];
                if !utils::try_connect_to_chord(&mut events, &current, &before) {
                    if current.position_in_smallest_unit < before.position_in_smallest_unit
                        + before.duration_in_smallest_unit {
                        utils::cut_previous_notes(&mut events, current.position_in_smallest_unit);
                    }
                    events.push(TrackEvent::SetNote(current));
                }
            }
        }

        Track { notes, events }
    }

    /// Render the track to notation text: its events in playback order,
    /// gaps filled with rest tokens, every duration spelled through the
    /// duration encoder.
    #[verifier::rlimit(60)]
    pub fn to_mml(&self) -> (r: String)
        requires
            self.wf(),
        ensures
            r@ == render_events(self.events@, 0),
    {
        let mut result = String::new();
        let mut cursor: u32 = 0;
        let n = self.events.len();
        let rest_symbol = String::from_str("r");
        proof {
            assert(self.events@.skip(0) =~= self.events@);
            assert(Seq::<char>::empty() + render_events(self.events@, 0) =~= render_events(
                self.events@,
                0,
            ));
        }

        for idx in 0..n
            invariant
                n == self.events@.len(),
                rest_symbol@ == "r"@,
                forall|j: int| 0 <= j < self.events@.len() ==> (#[trigger] self.events@[j]).wf(),
                render_events(self.events@, 0) == result@ + render_events(
                    self.events@.skip(idx as int),
                    cursor as nat,
                ),
        {
            proof {
                assert(self.events@.skip(idx as int).first() == self.events@[idx as int]);
                assert(self.events@.skip(idx as int).drop_first() =~= self.events@.skip(idx + 1));
            }
            let event = self.events[idx];
            match event {
                TrackEvent::ConnectChord => {
                    result.append(":");
                },
                TrackEvent::SetNote(note) => {
                    if note.duration_in_smallest_unit > 0 {
                        if note.position_in_smallest_unit > cursor {
                            let gap = note.position_in_smallest_unit - cursor;
                            let rest_text = utils::get_display_mml(gap, &rest_symbol);
                            result.append(rest_text.as_str());
                        }
                        result.append("o");
                        push_octave_digit(&mut result, note.midi_key);
                        let pitch = utils::midi_key_to_pitch_class(note.midi_key);
                        let body = utils::get_display_mml(note.duration_in_smallest_unit, &pitch);
                        result.append(body.as_str());
                        let end = note.position_in_smallest_unit + note.duration_in_smallest_unit;
                        if end > cursor {
                            cursor = end;
                        }
                    }
                },
            }
        }
        proof {
            assert(self.events@.skip(n as int) =~= Seq::<TrackEvent>::empty());
            assert(result@ + Seq::<char>::empty() =~= result@);
        }
        result
    }

    /// Shift every note's dynamics value up by `diff`, clamping at the top
    /// of the dynamics range; the event list is left as it is.
    pub fn modify_velocity(&mut self, diff: u8)
        ensures
            final(self).notes@.len() == old(self).notes@.len(),
            forall|i: int|
                0 <= i < old(self).notes@.len() ==> final(self).notes@[i] == (Note {
                    velocity: boosted_velocity(old(self).notes@[i].velocity, diff),
                    ..old(self).notes@[i]
                }),
            final(self).events@ == old(self).events@,
    {
        let n = self.notes.len();
        for i in 0..n
            invariant
                n == self.notes@.len() == old(self).notes@.len(),
                self.events@ == old(self).events@,
                forall|j: int|
                    0 <= j < i ==> self.notes@[j] == (Note {
                        velocity: boosted_velocity(old(self).notes@[j].velocity, diff),
                        ..old(self).notes@[j]
                    }),
                forall|j: int| i <= j < n ==> self.notes@[j] == old(self).notes@[j],
        {
            let note = self.notes[i];
            let lifted = note.velocity as u16 + diff as u16;
            let velocity = if lifted > 15 {
                15u8
            } else {
                lifted as u8
            };
            self.notes[i] = Note { velocity, ..note };
        }
    }
}

/// The digit naming the octave a MIDI key lies in, with key 60 in octave 4;
/// keys below 12 are written as octave 0.
pub open spec fn octave_digit(midi_key: u8) -> Seq<char>
    recommends
        midi_key <= 127,
{
    let o = if midi_key >= 12 {
        midi_key as int / 12 - 1
    } else {
        0
    };
    if o == 0 {
        "0"@
    } else if o == 1 {
        "1"@
    } else if o == 2 {
        "2"@
    } else if o == 3 {
        "3"@
    } else if o == 4 {
        "4"@
    } else if o == 5 {
        "5"@
    } else if o == 6 {
        "6"@
    } else if o == 7 {
        "7"@
    } else if o == 8 {
        "8"@
    } else {
        "9"@
    }
}

/// The text one note contributes: its octave marker, then its pitch class
/// repeated through the duration tokens of its encoded length.
pub open spec fn note_text(n: Note) -> Seq<char>
    recommends
        n.duration_in_smallest_unit >= 1,
{
    "o"@ + octave_digit(n.midi_key) + utils::render_segments(
        utils::mml_segments(n.duration_in_smallest_unit as nat),
        utils::spec_pitch_class(n.midi_key),
    )
}

/// The linearization of an event list into notation text, with `cursor` the
/// grid position sounded so far: a gap before a note becomes rest tokens, a
/// zero-length note is passed over, and a chord join becomes `:`.
pub open spec fn render_events(events: Seq<TrackEvent>, cursor: nat) -> Seq<char>
    decreases events.len(),
{
    if events.len() == 0 {
        Seq::empty()
    } else {
        match events.first() {
            TrackEvent::ConnectChord => ":"@ + render_events(events.drop_first(), cursor),
            TrackEvent::SetNote(n) => {
                if n.duration_in_smallest_unit == 0 {
                    render_events(events.drop_first(), cursor)
                } else {
                    let rest_text = if n.position_in_smallest_unit > cursor {
                        utils::render_segments(
                            utils::mml_segments((n.position_in_smallest_unit - cursor) as nat),
                            "r"@,
                        )
                    } else {
                        Seq::<char>::empty()
                    };
                    let end = n.spec_end_in_smallest_unit();
                    let new_cursor: nat = if end > cursor {
                        end as nat
                    } else {
                        cursor
                    };
                    rest_text + note_text(n) + render_events(events.drop_first(), new_cursor)
                }
            },
        }
    }
}

/// Append the octave digit of `midi_key` to `out`.
fn push_octave_digit(out: &mut String, midi_key: u8)
    requires
        midi_key <= 127,
    ensures
        final(out)@ == old(out)@ + octave_digit(midi_key),
{
    let o: u8 = if midi_key >= 12 {
        midi_key / 12 - 1
    } else {
        0
    };
    if o == 0 {
        out.append("0");
    } else if o == 1 {
        out.append("1");
    } else if o == 2 {
        out.append("2");
    } else if o == 3 {
        out.append("3");
    } else if o == 4 {
        out.append("4");
    } else if o == 5 {
        out.append("5");
    } else if o == 6 {
        out.append("6");
    } else if o == 7 {
        out.append("7");
    } else if o == 8 {
        out.append("8");
    } else {
        out.append("9");
    }
}

/// The dynamics value after the normalization shift: `diff` is added and the
/// result clamped to the top of the dynamics range.
pub open spec fn boosted_velocity(v: u8, diff: u8) -> u8 {
    if v + diff > 15 {
        15u8
    } else {
        (v + diff) as u8
    }
}

/// Close the most recently opened note with the given key, if one is open:
/// its raw-tick duration runs to `cur_tick` and is quantized onto the grid,
/// clamped so the note's grid end stays within machine bounds.
fn close_note(
    notes: &mut Vec<Note>,
    open: &mut Vec<(u8, usize)>,
    key: u8,
    cur_tick: u32,
    ppq: u16,
)
    requires
        ppq >= 1,
        forall|j: int|
            0 <= j < old(notes)@.len() ==> (#[trigger] old(notes)@[j]).position_in_tick
                <= cur_tick,
        forall|j: int| 0 <= j < old(notes)@.len() ==> (#[trigger] old(notes)@[j]).wf(),
        forall|j: int|
            0 <= j < old(open)@.len() ==> (#[trigger] old(open)@[j]).1 < old(notes)@.len(),
    ensures
        final(notes)@.len() == old(notes)@.len(),
        forall|j: int|
            0 <= j < final(notes)@.len() ==> {
                let after = #[trigger] final(notes)@[j];
                let prior = old(notes)@[j];
                after.midi_key == prior.midi_key && after.velocity == prior.velocity
                    && after.position_in_tick == prior.position_in_tick
                    && after.position_in_smallest_unit == prior.position_in_smallest_unit
            },
        forall|j: int| 0 <= j < final(notes)@.len() ==> (#[trigger] final(notes)@[j]).wf(),
        forall|j: int|
            0 <= j < final(open)@.len() ==> (#[trigger] final(open)@[j]).1 < final(notes)@.len(),
{
    let mut found: Option<usize> = None;
    let n_open = open.len();
    for j in 0..n_open
        invariant
            n_open == open@.len(),
            match found {
                Some(f) => f < open@.len(),
                None => true,
            },
    {
        if open[j].0 == key {
            found = Some(j);
        }
    }
    if let Some(f) = found {
        let idx = open[f].1;
        let note = notes[idx];
        let duration_in_tick = cur_tick - note.position_in_tick;
        let q = utils::tick_to_smallest_unit(duration_in_tick, ppq);
        let room = u32::MAX - note.position_in_smallest_unit;
        let duration_in_smallest_unit = if q <= room {
            q
        } else {
            room
        };
        notes[idx] = Note { duration_in_tick, duration_in_smallest_unit, ..note };
        open.remove(f);
    }
}

} // verus!
