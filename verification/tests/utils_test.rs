use midi_to_mml::utils::{self, MMLNote};
use midi_to_mml::{Note, TrackEvent};

#[test]
fn test_get_list_of_mml_notes() {
    assert_eq!(
        vec![
            MMLNote { duration_in_smallest_unit: 64, mml_value: 1 },
            MMLNote { duration_in_smallest_unit: 32, mml_value: 2 },
            MMLNote { duration_in_smallest_unit: 16, mml_value: 4 },
            MMLNote { duration_in_smallest_unit: 8, mml_value: 8 },
            MMLNote { duration_in_smallest_unit: 4, mml_value: 16 },
            MMLNote { duration_in_smallest_unit: 2, mml_value: 32 },
            MMLNote { duration_in_smallest_unit: 1, mml_value: 64 },
        ],
        utils::get_list_of_mml_notes(64),
    );

    assert_eq!(
        vec![
            MMLNote { duration_in_smallest_unit: 128, mml_value: 1 },
            MMLNote { duration_in_smallest_unit: 64, mml_value: 2 },
            MMLNote { duration_in_smallest_unit: 32, mml_value: 4 },
            MMLNote { duration_in_smallest_unit: 16, mml_value: 8 },
            MMLNote { duration_in_smallest_unit: 8, mml_value: 16 },
            MMLNote { duration_in_smallest_unit: 4, mml_value: 32 },
            MMLNote { duration_in_smallest_unit: 2, mml_value: 64 },
            MMLNote { duration_in_smallest_unit: 1, mml_value: 128 },
        ],
        utils::get_list_of_mml_notes(128),
    );
}

#[test]
fn test_get_display_mml() {
    let note_class = &"r".to_string();

    assert_eq!(String::from("r64"), utils::get_display_mml(1, note_class));

    assert_eq!(String::from("r32"), utils::get_display_mml(2, note_class));

    assert_eq!(String::from("r8&r64"), utils::get_display_mml(9, note_class));

    assert_eq!(String::from("r1.&r16"), utils::get_display_mml(100, note_class));

    assert_eq!(String::from("r1&r4."), utils::get_display_mml(88, note_class));

    assert_eq!(String::from("r2&r8."), utils::get_display_mml(44, note_class));
}

fn decoded_units(encoded: &str, symbol: char) -> u32 {
    let mut total = 0u32;
    for token in encoded.split('&') {
        let rest = token.strip_prefix(symbol).expect("token starts with the symbol");
        let (digits, dotted) = match rest.strip_suffix('.') {
            Some(d) => (d, true),
            None => (rest, false),
        };
        let value: u32 = digits.parse().expect("token carries a number");
        let units = 64 / value;
        total += units + if dotted { units / 2 } else { 0 };
    }
    total
}

#[test]
fn test_encoded_durations_sum_back() {
    let note_class = "r".to_string();
    for duration in 1..=256u32 {
        let encoded = utils::get_display_mml(duration, &note_class);
        assert_eq!(decoded_units(&encoded, 'r'), duration, "duration {}", duration);
    }
}

fn note_at(position_su: u32, duration_su: u32, duration_tick: u32) -> Note {
    Note {
        midi_key: 60,
        velocity: 10,
        position_in_tick: position_su * 30,
        duration_in_tick: duration_tick,
        position_in_smallest_unit: position_su,
        duration_in_smallest_unit: duration_su,
    }
}

#[test]
fn test_same_position_always_chords() {
    // A drastic duration ratio does not matter when the start offset is 0.
    let before = note_at(4, 100, 3000);
    let current = note_at(4, 1, 30);
    let mut events = vec![TrackEvent::SetNote(before)];
    assert!(utils::try_connect_to_chord(&mut events, &current, &before));
    assert_eq!(events.len(), 2);
    assert_eq!(events[1], TrackEvent::ConnectChord);
}

#[test]
fn test_distant_short_note_does_not_chord() {
    let before = note_at(0, 20, 600);
    let current = note_at(8, 1, 30);
    let mut events = vec![TrackEvent::SetNote(before)];
    assert!(!utils::try_connect_to_chord(&mut events, &current, &before));
    assert_eq!(events.len(), 1);
}

#[test]
fn test_near_equal_notes_chord() {
    let before = note_at(0, 20, 600);
    let current = note_at(1, 18, 540);
    let mut events = vec![TrackEvent::SetNote(before)];
    assert!(utils::try_connect_to_chord(&mut events, &current, &before));
    assert_eq!(events.last(), Some(&TrackEvent::ConnectChord));
}

#[test]
fn test_cut_previous_notes_truncates_overlaps() {
    let long_note = note_at(0, 10, 300);
    let short_note = note_at(2, 1, 30);
    let mut events = vec![
        TrackEvent::SetNote(long_note),
        TrackEvent::SetNote(short_note),
        TrackEvent::ConnectChord,
    ];
    utils::cut_previous_notes(&mut events, 5);

    assert_eq!(events.len(), 3);
    for event in events.iter() {
        if let TrackEvent::SetNote(n) = event {
            assert!(n.position_in_smallest_unit + n.duration_in_smallest_unit <= 5);
        }
    }
    match events[0] {
        TrackEvent::SetNote(n) => assert_eq!(n.duration_in_smallest_unit, 5),
        _ => panic!("first event must stay a note"),
    }
    // A note that already ends by the cutoff is untouched.
    match events[1] {
        TrackEvent::SetNote(n) => assert_eq!(n.duration_in_smallest_unit, 1),
        _ => panic!("second event must stay a note"),
    }
    assert_eq!(events[2], TrackEvent::ConnectChord);
}

#[test]
fn test_midi_key_to_pitch_class() {
    assert_eq!(utils::midi_key_to_pitch_class(60), "C".to_string());
    assert_eq!(utils::midi_key_to_pitch_class(61), "C+".to_string());
    assert_eq!(utils::midi_key_to_pitch_class(0), "C".to_string());
    assert_eq!(utils::midi_key_to_pitch_class(71), "B".to_string());
}

#[test]
fn test_midi_key_to_octave() {
    assert_eq!(utils::midi_key_to_octave(60), 4);
    assert_eq!(utils::midi_key_to_octave(12), 0);
    assert_eq!(utils::midi_key_to_octave(127), 9);
}

#[test]
fn test_tick_to_smallest_unit_rounds_half_up() {
    // With 480 pulses per quarter note, one smallest unit is 30 ticks.
    assert_eq!(utils::tick_to_smallest_unit(480, 480), 16);
    assert_eq!(utils::tick_to_smallest_unit(30, 480), 1);
    assert_eq!(utils::tick_to_smallest_unit(44, 480), 1);
    assert_eq!(utils::tick_to_smallest_unit(45, 480), 2);
    assert_eq!(utils::tick_to_smallest_unit(0, 480), 0);
    assert_eq!(utils::tick_to_smallest_unit(96, 480), 3);
}

#[test]
fn test_mml_note_new() {
    let whole = MMLNote::new(64);
    assert_eq!(whole.duration_in_smallest_unit, 64);
    assert_eq!(whole.mml_value, 1);
    let half = MMLNote::new(32);
    assert_eq!(half.mml_value, 2);
}

#[test]
fn test_get_highest_velocity() {
    let notes = vec![note_at(0, 1, 30), note_at(1, 1, 30)];
    assert_eq!(utils::get_highest_velocity(&notes), 10);
    assert_eq!(utils::get_highest_velocity(&Vec::new()), 0);
}
