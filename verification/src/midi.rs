use vstd::prelude::*;

verus! {

/// What one raw MIDI track event carries, reduced to the plain values the
/// transcoding reads: note starts and ends, tempo changes, and everything
/// else collapsed into `Other`.
#[derive(Debug, Clone, Copy, PartialEq, Eq, Structural)]
pub enum RawEventKind {
    NoteOn { key: u8, velocity: u8 },
    NoteOff { key: u8 },
    Tempo { microseconds_per_beat: u32 },
    Other,
}

/// One raw MIDI track event: a tick delta since the previous event of the
/// same track, and what the event carries.
#[derive(Debug, Clone, Copy, PartialEq, Eq, Structural)]
pub struct RawEvent {
    pub delta: u32,
    pub kind: RawEventKind,
}

impl RawEvent {
    /// The bounds the MIDI encoding guarantees: 7-bit keys and velocities,
    /// a 28-bit delta and a 24-bit tempo.
    pub open spec fn wf(self) -> bool {
        &&& self.delta < 0x1000_0000
        &&& match self.kind {
            RawEventKind::NoteOn { key, velocity } => key <= 127 && velocity <= 127,
            RawEventKind::NoteOff { key } => key <= 127,
            RawEventKind::Tempo { microseconds_per_beat } => microseconds_per_beat
                < 0x100_0000,
            RawEventKind::Other => true,
        }
    }

    /// Whether the event starts a note. A `NoteOn` with velocity 0 ends one
    /// instead, by MIDI convention.
    pub open spec fn is_note_on(self) -> bool {
        match self.kind {
            RawEventKind::NoteOn { key: _, velocity } => velocity > 0,
            _ => false,
        }
    }

    /// The MIDI key a note event carries, 0 for the other events.
    pub open spec fn event_key(self) -> u8 {
        match self.kind {
            RawEventKind::NoteOn { key, velocity: _ } => key,
            RawEventKind::NoteOff { key } => key,
            _ => 0,
        }
    }

    /// The raw velocity a note-on carries, 0 for the other events.
    pub open spec fn event_velocity(self) -> u8 {
        match self.kind {
            RawEventKind::NoteOn { key: _, velocity } => velocity,
            _ => 0,
        }
    }
}

#[verifier::external_type_specification]
#[verifier::external_body]
pub struct ExSmf<'a>(midly::Smf<'a>);

#[verifier::external_type_specification]
#[verifier::external_body]
pub struct ExTrackEventKind<'a>(midly::TrackEventKind<'a>);

/// The track lists of a parsed file, each track seen as the sequence of its
/// plain events.
pub open spec fn deep_raw(tracks: Seq<Vec<RawEvent>>) -> Seq<Seq<RawEvent>> {
    tracks.map_values(|v: Vec<RawEvent>| v@)
}

/// Whether midly::Smf::parse accepts the bytes as a standard MIDI file.
/// Parsing reads the bytes alone, so this is a function of them.
pub uninterp spec fn parses_ok(bytes: Seq<u8>) -> bool;

/// The pulses-per-quarter-note value of the parsed header, `None` when the
/// header uses timecode-based timing instead of metrical timing.
pub uninterp spec fn parsed_ppq(bytes: Seq<u8>) -> Option<u16>;

/// The parsed tracks, in file order, each event reduced to the plain values
/// the transcoding reads.
pub uninterp spec fn parsed_tracks(bytes: Seq<u8>) -> Seq<Seq<RawEvent>>;

/// Relies on midly's event model: one track event reduced to plain values.
/// midly stores keys and velocities as 7-bit, deltas as 28-bit and tempos
/// as 24-bit integers (u7, u28, u24), which gives the well-formedness
/// bounds.
#[verifier::external_body]
fn convert_event(delta: u32, ev_kind: &midly::TrackEventKind) -> (r: RawEvent)
    requires
        delta < 0x1000_0000,
    ensures
        r.wf(),
{
    let kind = match *ev_kind {
        midly::TrackEventKind::Midi { message: midly::MidiMessage::NoteOn { key, vel }, .. } => {
            RawEventKind::NoteOn { key: key.as_int(), velocity: vel.as_int() }
        },
        midly::TrackEventKind::Midi { message: midly::MidiMessage::NoteOff { key, .. }, .. } => {
            RawEventKind::NoteOff { key: key.as_int() }
        },
        midly::TrackEventKind::Meta(midly::MetaMessage::Tempo(us)) => {
            RawEventKind::Tempo { microseconds_per_beat: us.as_int() }
        },
        _ => RawEventKind::Other,
    };
    RawEvent { delta, kind }
}

/// Relies on midly::Smf::parse: parses a standard MIDI file from its raw
/// bytes, or reports a malformed file as `None`. The header's metrical
/// timing and the tracks, reduced one for one to plain events by
/// `convert_event`, are handed back; parsing depends on the bytes alone,
/// and midly keeps the file's track order.
#[verifier::external_body]
pub(crate) fn parse_raw(bytes: &Vec<u8>) -> (r: Option<(Option<u16>, Vec<Vec<RawEvent>>)>)
    ensures
        r is Some <==> parses_ok(bytes@),
        r matches Some(p) ==> p.0 == parsed_ppq(bytes@),
        r matches Some(p) ==> deep_raw(p.1@) == parsed_tracks(bytes@),
        r is Some ==> forall|t: int, k: int|
            0 <= t < parsed_tracks(bytes@).len() && 0 <= k < parsed_tracks(bytes@)[t].len()
                ==> (#[trigger] parsed_tracks(bytes@)[t][k]).wf(),
{
    match midly::Smf::parse(bytes) {
        Ok(smf) => {
            let ppq = match smf.header.timing {
                midly::Timing::Metrical(p) => Some(p.as_int()),
                _ => None,
            };
            let tracks = smf
                .tracks
                .iter()
                .map(|t| t.iter().map(|e| convert_event(e.delta.as_int(), &e.kind)).collect())
                .collect();
            Some((ppq, tracks))
        },
        Err(_) => None,
    }
}

} // verus!
