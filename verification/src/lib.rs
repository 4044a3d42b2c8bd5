//! Transcoding of multi-track MIDI performances into per-track MML
//! ("Music Macro Language") textual scores: tick-to-grid quantization,
//! duration encoding into note-length tokens, chord/overlap resolution,
//! and velocity normalization.

pub mod midi;
pub mod note;
pub mod song;
pub mod track;
pub mod track_event;
pub mod utils;

pub use midi::RawEvent;
pub use midi::RawEventKind;
pub use note::Note;
pub use song::Song;
pub use song::SongError;
pub use song::SongOptions;
pub use track::Track;
pub use track_event::TrackEvent;
