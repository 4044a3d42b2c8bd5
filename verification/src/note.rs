use vstd::prelude::*;

verus! {

/// A single sounding note, carried both on the raw MIDI tick timeline and on
/// the quantized smallest-unit grid. Chord and overlap decisions mix the two
/// resolutions, so both are kept.
#[derive(Debug, Clone, Copy, PartialEq, Eq, Structural)]
pub struct Note {
    /// MIDI key number, 0 to 127.
    pub midi_key: u8,
    /// Dynamics value after mapping from the raw MIDI velocity.
    pub velocity: u8,
    /// Absolute start position in MIDI ticks.
    pub position_in_tick: u32,
    /// Length in MIDI ticks.
    pub duration_in_tick: u32,
    /// Absolute start position quantized onto the smallest-unit grid.
    pub position_in_smallest_unit: u32,
    /// Length quantized onto the smallest-unit grid.
    pub duration_in_smallest_unit: u32,
}

impl Note {
    /// End of the note on the smallest-unit grid.
    pub open spec fn spec_end_in_smallest_unit(self) -> int {
        self.position_in_smallest_unit + self.duration_in_smallest_unit
    }

    /// The note's grid arithmetic stays within machine bounds and its key is
    /// a valid MIDI key.
    pub open spec fn wf(self) -> bool {
        &&& self.position_in_smallest_unit + self.duration_in_smallest_unit <= u32::MAX
        &&& self.midi_key <= 127
    }
}

} // verus!
