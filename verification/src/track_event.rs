use vstd::prelude::*;

use crate::note::Note;

verus! {

/// One entry of a track's playback-ordered event list. `SetNote` starts a new
/// sounding note (or, in the rendering, a rest before it); `ConnectChord`
/// joins the immediately preceding `SetNote` with a simultaneous chord
/// member instead of starting an independent note.
#[derive(Debug, Clone, Copy, PartialEq, Eq, Structural)]
pub enum TrackEvent {
    SetNote(Note),
    ConnectChord,
}

impl TrackEvent {
    /// Any note carried by the event stays within machine bounds.
    pub open spec fn wf(self) -> bool {
        match self {
            TrackEvent::SetNote(n) => n.wf(),
            TrackEvent::ConnectChord => true,
        }
    }
}

} // verus!
