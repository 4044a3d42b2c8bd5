use vstd::prelude::*;
use vstd::string::StringExecFns;

use crate::note::Note;
use crate::track_event::TrackEvent;

verus! {

/// Grid resolution: the whole note is divided into 64 smallest units, so the
/// grid resolves down to a sixty-fourth note.
pub const SMALLEST_UNIT: u32 = 64;

/// One rung of the canonical note-length ladder: a length in smallest units
/// paired with the number that names it in the notation (1 = whole note,
/// 2 = half note, ..., 64 = sixty-fourth note).
#[derive(Debug, Clone, Copy, PartialEq, Eq, Structural)]
pub struct MMLNote {
    pub duration_in_smallest_unit: u32,
    pub mml_value: u32,
}

impl MMLNote {
    pub fn new(duration_in_smallest_unit: u32) -> (r: Self)
        requires
            duration_in_smallest_unit >= 1,
        ensures
            r.duration_in_smallest_unit == duration_in_smallest_unit,
            r.mml_value == SMALLEST_UNIT as int / duration_in_smallest_unit as int,
    {
        Self {
            duration_in_smallest_unit,
            mml_value: SMALLEST_UNIT / duration_in_smallest_unit,
        }
    }
}

/// Build the note-length ladder for the given base unit: lengths halve from
/// `smallest_unit` down to 1, and each is paired with `smallest_unit`
/// divided by the length.
pub fn get_list_of_mml_notes(smallest_unit: u32) -> (r: Vec<MMLNote>)
    requires
        smallest_unit >= 1,
    ensures
        r@.len() >= 1,
        r@[0].duration_in_smallest_unit == smallest_unit,
        r@[r@.len() - 1].duration_in_smallest_unit == 1,
        forall|i: int|
            0 <= i < r@.len() ==> r@[i].duration_in_smallest_unit >= 1
                && r@[i].mml_value == smallest_unit as int / r@[i].duration_in_smallest_unit as int,
        forall|i: int|
            1 <= i < r@.len() ==> #[trigger] r@[i].duration_in_smallest_unit
                == r@[i - 1].duration_in_smallest_unit as int / 2,
{
    let mut notes: Vec<MMLNote> = Vec::new();
    let mut su = smallest_unit;

    while su > 1
        invariant
            1 <= su <= smallest_unit,
            notes@.len() == 0 ==> su == smallest_unit,
            notes@.len() >= 1 ==> notes@[0].duration_in_smallest_unit == smallest_unit,
            notes@.len() >= 1 ==> su == notes@[notes@.len() - 1].duration_in_smallest_unit as int
                / 2,
            forall|i: int|
                0 <= i < notes@.len() ==> notes@[i].duration_in_smallest_unit >= 1
                    && notes@[i].mml_value == smallest_unit as int
                    / notes@[i].duration_in_smallest_unit as int,
            forall|i: int|
                1 <= i < notes@.len() ==> #[trigger] notes@[i].duration_in_smallest_unit
                    == notes@[i - 1].duration_in_smallest_unit as int / 2,
        decreases su,
    {
        notes.push(MMLNote { duration_in_smallest_unit: su, mml_value: smallest_unit / su });
        su = su / 2;
    }
    notes.push(MMLNote { duration_in_smallest_unit: su, mml_value: smallest_unit / su });
    notes
}

/// The largest ladder length (in smallest units) that fits into `d`, for the
/// fixed base unit of 64.
pub open spec fn pick_length(d: nat) -> nat
    recommends
        d >= 1,
{
    if d >= 64 {
        64
    } else if d >= 32 {
        32
    } else if d >= 16 {
        16
    } else if d >= 8 {
        8
    } else if d >= 4 {
        4
    } else if d >= 2 {
        2
    } else {
        1
    }
}

/// The greedy decomposition of a duration into ladder lengths, each marked
/// with whether a dot (half-length extension) follows it. A dot is taken
/// whenever the remainder can absorb half of the length just emitted.
pub open spec fn mml_segments(d: nat) -> Seq<(nat, bool)>
    decreases d,
{
    if d == 0 {
        Seq::empty()
    } else {
        let l = pick_length(d);
        let rem = (d - l) as nat;
        let half = l / 2;
        if half >= 1 && rem >= half {
            seq![(l, true)] + mml_segments((rem - half) as nat)
        } else {
            seq![(l, false)] + mml_segments(rem)
        }
    }
}

/// How many smallest units one emitted token stands for, dot included.
pub open spec fn segment_units(s: (nat, bool)) -> nat {
    s.0 + if s.1 {
        s.0 / 2
    } else {
        0nat
    }
}

/// Total number of smallest units a token sequence stands for.
pub open spec fn segments_units(segs: Seq<(nat, bool)>) -> nat
    decreases segs.len(),
{
    if segs.len() == 0 {
        0
    } else {
        segment_units(segs[0]) + segments_units(segs.drop_first())
    }
}

/// Round-trip ladder completeness: the greedy decomposition terminates and
/// the durations implied by its tokens, dots included, sum back exactly to
/// the encoded duration, for every duration.
pub proof fn lemma_mml_segments_units(d: nat)
    ensures
        segments_units(mml_segments(d)) == d,
    decreases d,
{
    if d != 0 {
        let l = pick_length(d);
        let rem = (d - l) as nat;
        let half = l / 2;
        if half >= 1 && rem >= half {
            lemma_mml_segments_units((rem - half) as nat);
            assert(mml_segments(d).drop_first() =~= mml_segments((rem - half) as nat));
        } else {
            lemma_mml_segments_units(rem);
            assert(mml_segments(d).drop_first() =~= mml_segments(rem));
        }
    }
}

/// The digits that name a ladder length in the notation: 64 divided by the
/// length.
pub open spec fn mml_value_digits(l: nat) -> Seq<char> {
    if l == 64 {
        "1"@
    } else if l == 32 {
        "2"@
    } else if l == 16 {
        "4"@
    } else if l == 8 {
        "8"@
    } else if l == 4 {
        "16"@
    } else if l == 2 {
        "32"@
    } else {
        "64"@
    }
}

/// Text of one token: the symbol, the length's notation number, and the
/// optional dot.
pub open spec fn render_segment(s: (nat, bool), symbol: Seq<char>) -> Seq<char> {
    symbol + mml_value_digits(s.0) + if s.1 {
        "."@
    } else {
        Seq::<char>::empty()
    }
}

/// Text of a token sequence: the tokens joined by the tie operator.
pub open spec fn render_segments(segs: Seq<(nat, bool)>, symbol: Seq<char>) -> Seq<char>
    decreases segs.len(),
{
    if segs.len() == 0 {
        Seq::empty()
    } else if segs.len() == 1 {
        render_segment(segs[0], symbol)
    } else {
        render_segment(segs[0], symbol) + "&"@ + render_segments(segs.drop_first(), symbol)
    }
}

/// A positive duration decomposes into at least one token.
proof fn lemma_mml_segments_nonempty(d: nat)
    requires
        d >= 1,
    ensures
        mml_segments(d).len() >= 1,
{
}

/// Exec counterpart of `pick_length`.
fn pick_length_exec(d: u32) -> (r: u32)
    requires
        d >= 1,
    ensures
        r == pick_length(d as nat),
        1 <= r <= d,
{
    if d >= 64 {
        64
    } else if d >= 32 {
        32
    } else if d >= 16 {
        16
    } else if d >= 8 {
        8
    } else if d >= 4 {
        4
    } else if d >= 2 {
        2
    } else {
        1
    }
}

/// Append the notation number of the ladder length `l` to `out`.
fn push_mml_value_digits(out: &mut String, l: u32)
    requires
        1 <= l <= 64,
    ensures
        final(out)@ == old(out)@ + mml_value_digits(l as nat),
{
    if l == 64 {
        out.append("1");
    } else if l == 32 {
        out.append("2");
    } else if l == 16 {
        out.append("4");
    } else if l == 8 {
        out.append("8");
    } else if l == 4 {
        out.append("16");
    } else if l == 2 {
        out.append("32");
    } else {
        out.append("64");
    }
}

/// Encode a positive quantized duration as a chain of note-length tokens for
/// the given symbol, joined by dots and ties, consuming the duration exactly.
pub fn get_display_mml(duration_in_smallest_unit: u32, note_class: &String) -> (r: String)
    requires
        duration_in_smallest_unit >= 1,
    ensures
        r@ == render_segments(
            mml_segments(duration_in_smallest_unit as nat),
            note_class@,
        ),
{
    let mut d = duration_in_smallest_unit;
    let mut result = String::new();

    while d > 0
        invariant
            render_segments(mml_segments(duration_in_smallest_unit as nat), note_class@)
                == result@ + render_segments(mml_segments(d as nat), note_class@),
        decreases d,
    {
        let l = pick_length_exec(d);
        let rem = d - l;
        let half = l / 2;
        let ghost segs = mml_segments(d as nat);

        result.append(note_class.as_str());
        push_mml_value_digits(&mut result, l);

        let dotted: bool = half >= 1 && rem >= half;
        if dotted {
            result.append(".");
            d = rem - half;
        } else {
            d = rem;
        }

        proof {
            assert(segs == seq![(l as nat, dotted)] + mml_segments(d as nat));
            assert(segs.drop_first() =~= mml_segments(d as nat));
            assert(segs[0] == (l as nat, dotted));
            if d > 0 {
                lemma_mml_segments_nonempty(d as nat);
                assert(segs.len() >= 2);
            }
        }
        if d > 0 {
            result.append("&");
        }
    }
    proof {
        assert(mml_segments(0) =~= Seq::<(nat, bool)>::empty());
        assert(render_segments(mml_segments(0), note_class@) =~= Seq::<char>::empty());
        assert(result@ =~= result@ + Seq::<char>::empty());
    }
    result
}

/// Whether the note now being opened joins the chord of the most recently
/// opened note. Notes starting on the same quantized instant always chord;
/// otherwise both the start offset (in raw ticks) and the duration ratio
/// must be small.
pub open spec fn should_connect_to_chord(current: Note, before: Note) -> bool {
    let position_diff = current.position_in_smallest_unit - before.position_in_smallest_unit;
    ||| position_diff < 1
    ||| (position_diff < before.duration_in_tick as int / 5 && current.duration_in_smallest_unit
        > before.duration_in_smallest_unit as int / 5)
}

/// Two notes starting on the same quantized instant always chord, whatever
/// their durations.
pub proof fn lemma_same_position_always_chords(current: Note, before: Note)
    requires
        current.position_in_smallest_unit == before.position_in_smallest_unit,
    ensures
        should_connect_to_chord(current, before),
{
}

/// When a note starts while another is still sounding, it must either be
/// joined with the previous note to form a chord, or the previous note must
/// be cut short, because the notation plays one note or chord at a time.
/// On a chord match a `ConnectChord` event is appended and `true` returned;
/// the caller must then not append a `SetNote` for `current_note`.
pub fn try_connect_to_chord(
    events: &mut Vec<TrackEvent>,
    current_note: &Note,
    before_note: &Note,
) -> (r: bool)
    requires
        current_note.position_in_smallest_unit >= before_note.position_in_smallest_unit,
    ensures
        r == should_connect_to_chord(*current_note, *before_note),
        r ==> final(events)@ == old(events)@.push(TrackEvent::ConnectChord),
        !r ==> final(events)@ == old(events)@,
{
    let position_diff = current_note.position_in_smallest_unit
        - before_note.position_in_smallest_unit;
    let is_same_duration = current_note.duration_in_smallest_unit
        > before_note.duration_in_smallest_unit / 5;
    let is_same_position = position_diff < before_note.duration_in_tick / 5;
    let is_less_than_smallest_unit = position_diff < 1;

    if is_less_than_smallest_unit || is_same_position && is_same_duration {
        events.push(TrackEvent::ConnectChord);
        true
    } else {
        false
    }
}

/// A note truncated so that it no longer sounds past `position` on the
/// smallest-unit grid; a note that ends by `position` is untouched.
pub open spec fn cut_note(n: Note, position: u32) -> Note {
    if n.spec_end_in_smallest_unit() > position {
        Note { duration_in_smallest_unit: (position - n.position_in_smallest_unit) as u32, ..n }
    } else {
        n
    }
}

/// `cut_note` applied under `SetNote`; `ConnectChord` is untouched.
pub open spec fn cut_event(e: TrackEvent, position: u32) -> TrackEvent {
    match e {
        TrackEvent::SetNote(n) => TrackEvent::SetNote(cut_note(n, position)),
        TrackEvent::ConnectChord => TrackEvent::ConnectChord,
    }
}

/// Shrink every already-emitted note that would sound past `position` on the
/// smallest-unit grid so that it ends exactly there. Afterwards no retained
/// note sounds past the start of the note that displaced it.
pub fn cut_previous_notes(events: &mut Vec<TrackEvent>, position: u32)
    requires
        forall|i: int| 0 <= i < old(events)@.len() ==> (#[trigger] old(events)@[i]).wf(),
        forall|i: int|
            0 <= i < old(events)@.len() ==> match #[trigger] old(events)@[i] {
                TrackEvent::SetNote(n) => n.position_in_smallest_unit <= position,
                TrackEvent::ConnectChord => true,
            },
    ensures
        final(events)@.len() == old(events)@.len(),
        forall|i: int|
            0 <= i < old(events)@.len() ==> final(events)@[i] == cut_event(
                old(events)@[i],
                position,
            ),
        forall|i: int|
            0 <= i < final(events)@.len() ==> match #[trigger] final(events)@[i] {
                TrackEvent::SetNote(n) => n.spec_end_in_smallest_unit() <= position,
                TrackEvent::ConnectChord => true,
            },
        forall|i: int| 0 <= i < final(events)@.len() ==> (#[trigger] final(events)@[i]).wf(),
{
    let n = events.len();
    for i in 0..n
        invariant
            events@.len() == n == old(events)@.len(),
            forall|j: int| 0 <= j < n ==> (#[trigger] old(events)@[j]).wf(),
            forall|j: int|
                0 <= j < n ==> match #[trigger] old(events)@[j] {
                    TrackEvent::SetNote(m) => m.position_in_smallest_unit <= position,
                    TrackEvent::ConnectChord => true,
                },
            forall|j: int| 0 <= j < i ==> events@[j] == cut_event(old(events)@[j], position),
            forall|j: int| i <= j < n ==> events@[j] == old(events)@[j],
    {
        let event = events[i];
        if let TrackEvent::SetNote(note) = event {
            let note_end_position = note.position_in_smallest_unit
                + note.duration_in_smallest_unit;

            if note_end_position > position {
                let position_diff: u32 = note_end_position - position;
                let duration = note.duration_in_smallest_unit - position_diff;
                events[i] = TrackEvent::SetNote(
                    Note { duration_in_smallest_unit: duration, ..note },
                );
            }
        }
    }
}

/// The pitch-class names of the twelve chromatic steps, `C` upward, sharps
/// written with `+`.
pub open spec fn spec_pitch_class(midi_key: u8) -> Seq<char> {
    let i = midi_key as int % 12;
    if i == 0 {
        "C"@
    } else if i == 1 {
        "C+"@
    } else if i == 2 {
        "D"@
    } else if i == 3 {
        "D+"@
    } else if i == 4 {
        "E"@
    } else if i == 5 {
        "F"@
    } else if i == 6 {
        "F+"@
    } else if i == 7 {
        "G"@
    } else if i == 8 {
        "G+"@
    } else if i == 9 {
        "A"@
    } else if i == 10 {
        "A+"@
    } else {
        "B"@
    }
}

/// Name of the pitch class of a MIDI key.
pub fn midi_key_to_pitch_class(midi_key: u8) -> (r: String)
    ensures
        r@ == spec_pitch_class(midi_key),
{
    let i = midi_key % 12;
    if i == 0 {
        String::from_str("C")
    } else if i == 1 {
        String::from_str("C+")
    } else if i == 2 {
        String::from_str("D")
    } else if i == 3 {
        String::from_str("D+")
    } else if i == 4 {
        String::from_str("E")
    } else if i == 5 {
        String::from_str("F")
    } else if i == 6 {
        String::from_str("F+")
    } else if i == 7 {
        String::from_str("G")
    } else if i == 8 {
        String::from_str("G+")
    } else if i == 9 {
        String::from_str("A")
    } else if i == 10 {
        String::from_str("A+")
    } else {
        String::from_str("B")
    }
}

/// Octave number of a MIDI key, with key 60 lying in octave 4. Keys below 12
/// have no octave in this numbering and are excluded.
pub fn midi_key_to_octave(midi_key: u8) -> (r: u8)
    requires
        midi_key >= 12,
    ensures
        r == midi_key as int / 12 - 1,
{
    (midi_key / 12) - 1
}

/// The quantization step: `tick` divided by the length of the smallest unit
/// in ticks (`ppq / 16`), rounded half away from zero; written over integers
/// as `(32 * tick + ppq) / (2 * ppq)`.
pub open spec fn quantized(tick: nat, ppq: nat) -> nat
    recommends
        ppq >= 1,
{
    (32 * tick + ppq) / (2 * ppq)
}

/// `quantized`, saturated to the machine range of a grid position.
pub open spec fn quantized_sat(tick: nat, ppq: nat) -> nat
    recommends
        ppq >= 1,
{
    if quantized(tick, ppq) <= u32::MAX {
        quantized(tick, ppq)
    } else {
        u32::MAX as nat
    }
}

/// Quantization is monotone in the tick position.
pub proof fn lemma_quantized_sat_le(t1: nat, t2: nat, ppq: nat)
    requires
        ppq >= 1,
        t1 <= t2,
    ensures
        quantized_sat(t1, ppq) <= quantized_sat(t2, ppq),
{
    vstd::arithmetic::div_mod::lemma_div_is_ordered(
        32 * t1 + ppq as int,
        32 * t2 + ppq as int,
        2 * ppq as int,
    );
}

/// Quantize a tick position or duration onto the smallest-unit grid,
/// rounding half away from zero and saturating at the machine range.
pub fn tick_to_smallest_unit(tick: u32, ppq: u16) -> (r: u32)
    requires
        ppq >= 1,
    ensures
        r == quantized_sat(tick as nat, ppq as nat),
{
    let t = tick as u64;
    let p = ppq as u64;
    let q = (32 * t + p) / (2 * p);
    if q > u32::MAX as u64 {
        u32::MAX
    } else {
        q as u32
    }
}

/// The largest dynamics value over a sequence of notes, 0 when there are
/// none.
pub open spec fn max_velocity(notes: Seq<Note>) -> int
    decreases notes.len(),
{
    if notes.len() == 0 {
        0
    } else if notes.last().velocity >= max_velocity(notes.drop_last()) {
        notes.last().velocity as int
    } else {
        max_velocity(notes.drop_last())
    }
}

/// The largest dynamics value assigned to any note of the list, 0 when the
/// list is empty.
pub fn get_highest_velocity(notes: &Vec<Note>) -> (r: u8)
    ensures
        r == max_velocity(notes@),
{
    let mut max: u8 = 0;
    let n = notes.len();
    for i in 0..n
        invariant
            n == notes@.len(),
            max == max_velocity(notes@.take(i as int)),
    {
        proof {
            assert(notes@.take(i + 1).drop_last() =~= notes@.take(i as int));
            assert(notes@.take(i + 1).last() == notes@[i as int]);
        }
        if notes[i].velocity > max {
            max = notes[i].velocity;
        }
    }
    proof {
        assert(notes@.take(n as int) =~= notes@);
    }
    max
}

/// `max_velocity` bounds every note's dynamics value and, when any note
/// exists, is attained by one of them.
pub proof fn lemma_max_velocity_is_max(notes: Seq<Note>)
    ensures
        forall|i: int| 0 <= i < notes.len() ==> (#[trigger] notes[i]).velocity <= max_velocity(
            notes,
        ),
        notes.len() > 0 ==> exists|i: int|
            0 <= i < notes.len() && (#[trigger] notes[i]).velocity == max_velocity(notes),
    decreases notes.len(),
{
    if notes.len() > 0 {
        lemma_max_velocity_is_max(notes.drop_last());
        assert forall|i: int| 0 <= i < notes.len() implies (#[trigger] notes[i]).velocity
            <= max_velocity(notes) by {
            if i < notes.len() - 1 {
                assert(notes.drop_last()[i] == notes[i]);
            }
        }
        if notes.len() > 1 && notes.last().velocity < max_velocity(notes.drop_last()) {
            let j = choose|j: int|
                0 <= j < notes.drop_last().len() && (#[trigger] notes.drop_last()[j]).velocity
                    == max_velocity(notes.drop_last());
            assert(notes[j].velocity == max_velocity(notes));
        } else {
            assert(notes[notes.len() - 1].velocity == max_velocity(notes));
        }
    }
}

} // verus!
