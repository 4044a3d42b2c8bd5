use midi_to_mml::{RawEvent, RawEventKind, Song, SongError, SongOptions, Track, TrackEvent};

fn header(n_tracks: u8) -> Vec<u8> {
    vec![
        0x4D, 0x54, 0x68, 0x64, // MThd
        0x00, 0x00, 0x00, 0x06, // header length
        0x00, if n_tracks == 1 { 0 } else { 1 }, // format
        0x00, n_tracks, // track count
        0x01, 0xE0, // 480 pulses per quarter note
    ]
}

fn track_chunk(events: &[u8]) -> Vec<u8> {
    let mut chunk = vec![0x4D, 0x54, 0x72, 0x6B]; // MTrk
    chunk.extend_from_slice(&(events.len() as u32).to_be_bytes());
    chunk.extend_from_slice(events);
    chunk
}

#[test]
fn test_from_bytes_without_note_on_yields_no_tracks() {
    let mut bytes = header(1);
    bytes.extend(track_chunk(&[0x00, 0xFF, 0x2F, 0x00]));

    let song = Song::from_bytes(bytes, SongOptions::default()).expect("a valid file");
    assert_eq!(song.tracks.len(), 0);
    assert_eq!(song.ppq, 480);
    assert_eq!(song.bpm, 120);
}

#[test]
fn test_from_bytes_rejects_garbage() {
    let result = Song::from_bytes(vec![1, 2, 3, 4], SongOptions::default());
    match result {
        Err(err) => assert_eq!(err, SongError::InvalidMidiData),
        Ok(_) => panic!("garbage bytes must be rejected"),
    }
}

#[test]
fn test_from_bytes_builds_one_note_track() {
    let mut bytes = header(1);
    bytes.extend(track_chunk(&[
        0x00, 0x90, 0x3C, 0x64, // note on, key 60, velocity 100
        0x60, 0x80, 0x3C, 0x00, // 96 ticks later: note off, key 60
        0x00, 0xFF, 0x2F, 0x00, // end of track
    ]));

    let song = Song::from_bytes(bytes, SongOptions::default()).expect("a valid file");
    assert_eq!(song.tracks.len(), 1);
    let track = &song.tracks[0];
    assert_eq!(track.notes.len(), 1);
    let note = track.notes[0];
    assert_eq!(note.midi_key, 60);
    assert_eq!(note.position_in_smallest_unit, 0);
    assert_eq!(note.duration_in_tick, 96);
    // 96 ticks on a 30-tick grid round to 3 smallest units.
    assert_eq!(note.duration_in_smallest_unit, 3);
    // Velocity 100 maps to 12; normalization lifts the loudest note to 15.
    assert_eq!(note.velocity, 15);
    assert_eq!(track.to_mml(), "o4C32.".to_string());
}

#[test]
fn test_from_bytes_reads_metrical_ppq() {
    // 192 pulses per quarter note: one smallest unit is 12 ticks.
    let mut bytes = vec![
        0x4D, 0x54, 0x68, 0x64, 0x00, 0x00, 0x00, 0x06, 0x00, 0x00, 0x00, 0x01, 0x00, 0xC0,
    ];
    bytes.extend(track_chunk(&[
        0x00, 0x90, 0x3C, 0x64, // note on, key 60, velocity 100
        0x18, 0x80, 0x3C, 0x00, // 24 ticks later: note off
        0x00, 0xFF, 0x2F, 0x00,
    ]));

    let song = Song::from_bytes(bytes, SongOptions::default()).expect("a valid file");
    assert_eq!(song.ppq, 192);
    assert_eq!(song.tracks[0].notes[0].duration_in_smallest_unit, 2);
}

#[test]
fn test_from_bytes_rejects_zero_metrical_division() {
    // A parseable header whose metrical division is 0 names a grid no tick
    // can be quantized onto; the file is reported as invalid.
    let mut bytes = vec![
        0x4D, 0x54, 0x68, 0x64, 0x00, 0x00, 0x00, 0x06, 0x00, 0x00, 0x00, 0x01, 0x00, 0x00,
    ];
    bytes.extend(track_chunk(&[0x00, 0xFF, 0x2F, 0x00]));

    let result = Song::from_bytes(bytes, SongOptions::default());
    match result {
        Err(err) => assert_eq!(err, SongError::InvalidMidiData),
        Ok(_) => panic!("a zero metrical division must be rejected"),
    }
}

#[test]
fn test_from_bytes_defaults_ppq_for_timecode_timing() {
    // A header whose division is timecode-based (24 fps, 40 subframes)
    // carries no metrical value, so the default of 480 applies.
    let mut bytes = vec![
        0x4D, 0x54, 0x68, 0x64, 0x00, 0x00, 0x00, 0x06, 0x00, 0x00, 0x00, 0x01, 0xE8, 0x28,
    ];
    bytes.extend(track_chunk(&[0x00, 0xFF, 0x2F, 0x00]));

    let song = Song::from_bytes(bytes, SongOptions::default()).expect("a valid file");
    assert_eq!(song.ppq, 480);
}

#[test]
fn test_from_bytes_reads_tempo() {
    let mut bytes = header(1);
    bytes.extend(track_chunk(&[
        0x00, 0xFF, 0x51, 0x03, 0x0F, 0x42, 0x40, // tempo: 1,000,000 us per beat
        0x00, 0xFF, 0x2F, 0x00,
    ]));

    let song = Song::from_bytes(bytes, SongOptions::default()).expect("a valid file");
    assert_eq!(song.bpm, 60);
    assert_eq!(song.tracks.len(), 0);
}

fn on(delta: u32, key: u8, velocity: u8) -> RawEvent {
    RawEvent { delta, kind: RawEventKind::NoteOn { key, velocity } }
}

fn off(delta: u32, key: u8) -> RawEvent {
    RawEvent { delta, kind: RawEventKind::NoteOff { key } }
}

#[test]
fn test_track_new_chords_simultaneous_notes() {
    let raw = vec![on(0, 60, 100), on(0, 64, 100), off(96, 60), off(0, 64)];
    let mut bpm = 120u16;
    let track = Track::new(&raw, 480, &mut bpm, 0, 15);

    assert_eq!(bpm, 120);
    assert_eq!(track.notes.len(), 2);
    assert_eq!(track.events.len(), 2);
    assert!(matches!(track.events[0], TrackEvent::SetNote(_)));
    assert_eq!(track.events[1], TrackEvent::ConnectChord);
}

#[test]
fn test_track_new_truncates_overlapped_note() {
    // A long note at 0 and a much shorter one entering 8 units later: no
    // chord, so the first note is cut at the second one's start.
    let raw = vec![on(0, 60, 100), on(240, 64, 100), off(30, 64), off(330, 60)];
    let mut bpm = 120u16;
    let track = Track::new(&raw, 480, &mut bpm, 0, 15);

    assert_eq!(track.notes.len(), 2);
    assert_eq!(track.notes[0].duration_in_smallest_unit, 20);
    assert_eq!(track.notes[1].duration_in_smallest_unit, 1);
    assert_eq!(track.events.len(), 2);
    match track.events[0] {
        TrackEvent::SetNote(n) => {
            assert_eq!(n.midi_key, 60);
            assert_eq!(n.duration_in_smallest_unit, 8);
        },
        _ => panic!("first event must be a note"),
    }
    match track.events[1] {
        TrackEvent::SetNote(n) => assert_eq!(n.midi_key, 64),
        _ => panic!("second event must be a note"),
    }
}

#[test]
fn test_modify_note_velocity_reaches_ceiling() {
    let mut bpm = 120u16;
    let quiet = Track::new(&vec![on(0, 60, 40), off(96, 60)], 480, &mut bpm, 0, 15);
    let louder = Track::new(&vec![on(0, 64, 100), off(96, 64)], 480, &mut bpm, 0, 15);
    let mut tracks = vec![quiet, louder];

    midi_to_mml::song::modify_note_velocity(&mut tracks);

    let mut max = 0u8;
    for track in tracks.iter() {
        for note in track.notes.iter() {
            assert!(note.velocity <= 15);
            if note.velocity > max {
                max = note.velocity;
            }
        }
    }
    assert_eq!(max, 15);
    // Velocity 40 maps to 5, velocity 100 to 12; both gain the headroom 3.
    assert_eq!(tracks[0].notes[0].velocity, 8);
    assert_eq!(tracks[1].notes[0].velocity, 15);
}

#[test]
fn test_disabled_normalization_keeps_mapped_velocities() {
    let raw_tracks = vec![vec![on(0, 60, 40), off(96, 60)]];
    let options = SongOptions { auto_boot_velocity: false, velocity_min: 3, velocity_max: 10 };
    let song = Song::from_raw_tracks(480, &raw_tracks, options);
    // Velocity 40 maps linearly into [3, 10]: 3 plus the rounded share
    // (40 * 7 + 63) / 127 = 2, and no normalization shift follows.
    assert_eq!(song.tracks[0].notes[0].velocity, 5);
}

#[test]
fn test_from_raw_tracks_keeps_only_tracks_with_notes() {
    let with_note = vec![on(0, 60, 100), off(96, 60)];
    let silent = vec![RawEvent { delta: 0, kind: RawEventKind::Other }];
    let raw_tracks = vec![silent.clone(), with_note, silent];
    let song = Song::from_raw_tracks(480, &raw_tracks, SongOptions::default());
    assert_eq!(song.tracks.len(), 1);
    assert_eq!(song.tracks[0].notes.len(), 1);
}

#[test]
fn test_to_mml_renders_rest_before_note() {
    // One note of 4 units starting 8 units into the track.
    let raw = vec![on(240, 60, 100), off(120, 60)];
    let mut bpm = 120u16;
    let track = Track::new(&raw, 480, &mut bpm, 0, 15);
    assert_eq!(track.to_mml(), "r8o4C16".to_string());
}

#[test]
fn test_get_ppq_from_smf_reads_metrical_header() {
    let mut bytes = header(1);
    bytes.extend(track_chunk(&[0x00, 0xFF, 0x2F, 0x00]));
    let smf = midly::Smf::parse(&bytes).expect("a valid file");
    assert_eq!(Song::get_ppq_from_smf(&smf), Some(480));
}

#[test]
fn test_default_options() {
    let options = SongOptions::default();
    assert!(options.auto_boot_velocity);
    assert_eq!(options.velocity_min, 0);
    assert_eq!(options.velocity_max, 15);
}
