use vstd::prelude::*;

use crate::midi;
use crate::midi::RawEvent;
use crate::note::Note;
use crate::track::{bpm_after, count_note_ons, Track};
use crate::utils;

verus! {

/// Options of the conversion: whether to run the velocity normalization
/// pass, and the dynamics range used when mapping raw velocities.
#[derive(Debug, Clone, Copy, PartialEq, Eq, Structural)]
pub struct SongOptions {
    pub auto_boot_velocity: bool,
    pub velocity_min: u8,
    pub velocity_max: u8,
}

impl Default for SongOptions {
    /// Normalization on, dynamics mapped onto the full 0 to 15 range.
    fn default() -> (r: Self)
        ensures
            r == (SongOptions { auto_boot_velocity: true, velocity_min: 0, velocity_max: 15 }),
    {
        SongOptions { auto_boot_velocity: true, velocity_min: 0, velocity_max: 15 }
    }
}

/// Why a conversion failed: the external parser rejected the bytes as a
/// MIDI file.
#[derive(Debug, Clone, Copy, PartialEq, Eq, Structural)]
pub enum SongError {
    InvalidMidiData,
}

/// The converted song: the file's timing resolution, the tempo that held
/// last, and every track that contributed at least one note.
#[derive(Debug, Clone)]
pub struct Song {
    pub ppq: u16,
    pub bpm: u16,
    pub tracks: Vec<Track>,
}

/// The largest dynamics value over all notes of all tracks, 0 when there is
/// none.
pub open spec fn tracks_max_velocity(tracks: Seq<Track>) -> int
    decreases tracks.len(),
{
    if tracks.len() == 0 {
        0
    } else if utils::max_velocity(tracks.last().notes@) >= tracks_max_velocity(
        tracks.drop_last(),
    ) {
        utils::max_velocity(tracks.last().notes@)
    } else {
        tracks_max_velocity(tracks.drop_last())
    }
}

/// Whether any track holds any note.
pub open spec fn has_note(tracks: Seq<Track>) -> bool {
    exists|t: int| 0 <= t < tracks.len() && (#[trigger] tracks[t]).notes@.len() > 0
}

/// The uniform shift the normalization pass adds: the headroom between the
/// highest assigned dynamics value and the top of the range.
pub open spec fn boost_diff(tracks: Seq<Track>) -> u8 {
    if tracks_max_velocity(tracks) >= 15 {
        0u8
    } else {
        (15 - tracks_max_velocity(tracks)) as u8
    }
}

/// `tracks_max_velocity` bounds every note's dynamics value and, when any
/// note exists, is attained by one of them.
pub proof fn lemma_tracks_max_velocity_is_max(tracks: Seq<Track>)
    ensures
        forall|t: int, i: int|
            0 <= t < tracks.len() && 0 <= i < (#[trigger] tracks[t]).notes@.len()
                ==> (#[trigger] tracks[t].notes@[i]).velocity <= tracks_max_velocity(tracks),
        has_note(tracks) ==> exists|t: int, i: int|
            0 <= t < tracks.len() && 0 <= i < (#[trigger] tracks[t]).notes@.len()
                && (#[trigger] tracks[t].notes@[i]).velocity == tracks_max_velocity(tracks),
    decreases tracks.len(),
{
    if tracks.len() > 0 {
        let prefix = tracks.drop_last();
        lemma_tracks_max_velocity_is_max(prefix);
        utils::lemma_max_velocity_is_max(tracks.last().notes@);
        assert forall|t: int, i: int|
            0 <= t < tracks.len() && 0 <= i < (#[trigger] tracks[t]).notes@.len()
                implies (#[trigger] tracks[t].notes@[i]).velocity <= tracks_max_velocity(
            tracks,
        ) by {
            if t < tracks.len() - 1 {
                assert(prefix[t] == tracks[t]);
            } else {
                assert(tracks[t] == tracks.last());
            }
        }
        if has_note(tracks) {
            let last = tracks.last();
            if utils::max_velocity(last.notes@) >= tracks_max_velocity(prefix)
                && last.notes@.len() > 0 {
                let i = choose|i: int|
                    0 <= i < last.notes@.len() && (#[trigger] last.notes@[i]).velocity
                        == utils::max_velocity(last.notes@);
                assert(tracks[tracks.len() - 1].notes@[i].velocity == tracks_max_velocity(
                    tracks,
                ));
            } else {
                if last.notes@.len() == 0 {
                    let w = choose|t: int|
                        0 <= t < tracks.len() && (#[trigger] tracks[t]).notes@.len() > 0;
                    assert(prefix[w] == tracks[w]);
                    assert(has_note(prefix));
                    assert(tracks_max_velocity(tracks) == tracks_max_velocity(prefix));
                } else {
                    assert(tracks[tracks.len() - 1].notes@.len() > 0);
                    assert(has_note(prefix) || utils::max_velocity(last.notes@)
                        >= tracks_max_velocity(prefix)) by {
                        if utils::max_velocity(last.notes@) < tracks_max_velocity(prefix) {
                            assert(tracks_max_velocity(prefix) > 0);
                            assert(has_note(prefix)) by {
                                lemma_tracks_max_positive_has_note(prefix);
                            }
                        }
                    }
                    assert(has_note(prefix));
                    assert(tracks_max_velocity(tracks) == tracks_max_velocity(prefix));
                }
                let (pt, pi) = choose|t: int, i: int|
                    0 <= t < prefix.len() && 0 <= i < (#[trigger] prefix[t]).notes@.len()
                        && (#[trigger] prefix[t].notes@[i]).velocity == tracks_max_velocity(
                        prefix,
                    );
                assert(prefix[pt] == tracks[pt]);
                assert(tracks[pt].notes@[pi].velocity == tracks_max_velocity(tracks));
            }
        }
    }
}

/// A positive maximum can only come from an existing note.
proof fn lemma_tracks_max_positive_has_note(tracks: Seq<Track>)
    requires
        tracks_max_velocity(tracks) > 0,
    ensures
        has_note(tracks),
    decreases tracks.len(),
{
    if tracks.len() > 0 {
        let prefix = tracks.drop_last();
        if utils::max_velocity(tracks.last().notes@) >= tracks_max_velocity(prefix) {
            assert(utils::max_velocity(tracks.last().notes@) > 0);
            assert(tracks.last().notes@.len() > 0);
            assert(tracks[tracks.len() - 1].notes@.len() > 0);
        } else {
            lemma_tracks_max_positive_has_note(prefix);
            let w = choose|t: int| 0 <= t < prefix.len() && (#[trigger] prefix[t]).notes@.len()
                > 0;
            assert(prefix[w] == tracks[w]);
            assert(tracks[w].notes@.len() > 0);
        }
    }
}

/// Normalize dynamics across all tracks: find the highest assigned value,
/// and shift every note up by the headroom to the top of the range, so that
/// the loudest note lands exactly on 15.
pub fn modify_note_velocity(tracks: &mut Vec<Track>)
    ensures
        final(tracks)@.len() == old(tracks)@.len(),
        forall|t: int|
            0 <= t < old(tracks)@.len() ==> (#[trigger] final(tracks)@[t]).events@ == old(tracks)@[t].events@,
        forall|t: int|
            0 <= t < old(tracks)@.len() ==> (#[trigger] final(tracks)@[t]).notes@.len() == old(tracks)@[t].notes@.len(),
        forall|t: int, i: int|
            0 <= t < old(tracks)@.len() && 0 <= i < old(tracks)@[t].notes@.len()
                ==> (#[trigger] final(tracks)@[t].notes@[i]) == (Note {
                velocity: crate::track::boosted_velocity(
                    old(tracks)@[t].notes@[i].velocity,
                    boost_diff(old(tracks)@),
                ),
                ..old(tracks)@[t].notes@[i]
            }),
        forall|t: int, i: int|
            0 <= t < final(tracks)@.len() && 0 <= i < (#[trigger] final(tracks)@[t]).notes@.len()
                ==> (#[trigger] final(tracks)@[t].notes@[i]).velocity <= 15,
        has_note(old(tracks)@) ==> exists|t: int, i: int|
            0 <= t < final(tracks)@.len() && 0 <= i < (#[trigger] final(tracks)@[t]).notes@.len()
                && (#[trigger] final(tracks)@[t].notes@[i]).velocity == 15,
{
    let mut max: u8 = 0;
    let n = tracks.len();
    for t in 0..n
        invariant
            n == tracks@.len(),
            tracks@ == old(tracks)@,
            max == tracks_max_velocity(tracks@.take(t as int)),
    {
        proof {
            assert(tracks@.take(t + 1).drop_last() =~= tracks@.take(t as int));
            assert(tracks@.take(t + 1).last() == tracks@[t as int]);
        }
        let current_max = utils::get_highest_velocity(&tracks[t].notes);
        if current_max > max {
            max = current_max;
        }
    }
    proof {
        assert(tracks@.take(n as int) =~= tracks@);
    }

    let diff: u8 = if max >= 15 {
        0
    } else {
        15 - max
    };

    for t in 0..n
        invariant
            n == tracks@.len() == old(tracks)@.len(),
            diff == boost_diff(old(tracks)@),
            forall|u: int| t <= u < n ==> tracks@[u] == old(tracks)@[u],
            forall|u: int|
                0 <= u < t ==> (#[trigger] tracks@[u]).events@ == old(tracks)@[u].events@,
            forall|u: int|
                0 <= u < t ==> (#[trigger] tracks@[u]).notes@.len() == old(tracks)@[u].notes@.len(),
            forall|u: int, i: int|
                0 <= u < t && 0 <= i < old(tracks)@[u].notes@.len()
                    ==> (#[trigger] tracks@[u].notes@[i]) == (Note {
                    velocity: crate::track::boosted_velocity(
                        old(tracks)@[u].notes@[i].velocity,
                        boost_diff(old(tracks)@),
                    ),
                    ..old(tracks)@[u].notes@[i]
                }),
    {
        tracks[t].modify_velocity(diff);
    }

    proof {
        if has_note(old(tracks)@) {
            lemma_tracks_max_velocity_is_max(old(tracks)@);
            let (wt, wi) = choose|t: int, i: int|
                0 <= t < old(tracks)@.len() && 0 <= i < (#[trigger] old(tracks)@[t]).notes@.len()
                    && (#[trigger] old(tracks)@[t].notes@[i]).velocity
                    == tracks_max_velocity(old(tracks)@);
            assert(tracks@[wt].notes@[wi].velocity == 15);
        }
    }
}

/// The tempo that holds after all tracks have been walked in order,
/// starting from `b0`: each track starts from the tempo the previous one
/// left behind.
pub open spec fn song_bpm(tracks: Seq<Seq<RawEvent>>, b0: u16) -> u16
    decreases tracks.len(),
{
    if tracks.len() == 0 {
        b0
    } else {
        song_bpm(tracks.drop_first(), bpm_after(tracks.first(), b0))
    }
}

/// Whether no event of any track starts a note.
pub open spec fn no_note_on(tracks: Seq<Seq<RawEvent>>) -> bool {
    forall|t: int, k: int|
        0 <= t < tracks.len() && 0 <= k < tracks[t].len() ==> !(#[trigger] tracks[t][k]).is_note_on()
}

/// The raw tracks that carry at least one note start, in their original
/// order: only these yield a retained track.
pub open spec fn note_bearing(tracks: Seq<Seq<RawEvent>>) -> Seq<Seq<RawEvent>>
    decreases tracks.len(),
{
    if tracks.len() == 0 {
        Seq::empty()
    } else if count_note_ons(tracks.last()) > 0 {
        note_bearing(tracks.drop_last()).push(tracks.last())
    } else {
        note_bearing(tracks.drop_last())
    }
}

/// The timing resolution a parsed header stands for: its metrical value,
/// or the default of 480 when the header uses timecode timing instead. A
/// metrical value of zero is rejected before this applies: no grid can
/// divide by it.
pub open spec fn effective_ppq(header_ppq: Option<u16>) -> u16
    recommends
        header_ppq != Some(0u16),
{
    match header_ppq {
        Some(p) => p,
        None => 480u16,
    }
}

impl Song {
    /// Build a song from already-parsed raw tracks: each track is built in
    /// order, threading the shared tempo; only tracks with at least one
    /// note are retained; and, when enabled, dynamics are normalized so the
    /// loudest note sits at the top of the range.
    pub fn from_raw_tracks(ppq: u16, raw_tracks: &Vec<Vec<RawEvent>>, options: SongOptions) -> (r:
        Song)
        requires
            ppq >= 1,
            options.velocity_min <= options.velocity_max,
            forall|t: int, k: int|
                0 <= t < raw_tracks@.len() && 0 <= k < raw_tracks@[t]@.len()
                    ==> (#[trigger] raw_tracks@[t]@[k]).wf(),
        ensures
            r.ppq == ppq,
            r.bpm == song_bpm(midi::deep_raw(raw_tracks@), 120u16),
            r.tracks@.len() == note_bearing(midi::deep_raw(raw_tracks@)).len(),
            forall|j: int|
                0 <= j < r.tracks@.len() ==> (#[trigger] r.tracks@[j]).notes@.len()
                    == count_note_ons(note_bearing(midi::deep_raw(raw_tracks@))[j]),
            forall|t: int| 0 <= t < r.tracks@.len() ==> (#[trigger] r.tracks@[t]).notes@.len() > 0,
            forall|t: int| 0 <= t < r.tracks@.len() ==> (#[trigger] r.tracks@[t]).wf(),
            no_note_on(midi::deep_raw(raw_tracks@)) ==> r.tracks@.len() == 0,
            options.auto_boot_velocity ==> forall|t: int, i: int|
                0 <= t < r.tracks@.len() && 0 <= i < (#[trigger] r.tracks@[t]).notes@.len()
                    ==> (#[trigger] r.tracks@[t].notes@[i]).velocity <= 15,
            options.auto_boot_velocity && r.tracks@.len() > 0 ==> exists|t: int, i: int|
                0 <= t < r.tracks@.len() && 0 <= i < (#[trigger] r.tracks@[t]).notes@.len()
                    && (#[trigger] r.tracks@[t].notes@[i]).velocity == 15,
            !options.auto_boot_velocity ==> forall|t: int, i: int|
                0 <= t < r.tracks@.len() && 0 <= i < (#[trigger] r.tracks@[t]).notes@.len()
                    ==> options.velocity_min <= (#[trigger] r.tracks@[t].notes@[i]).velocity
                    <= options.velocity_max,
    {
        let ghost mapped = midi::deep_raw(raw_tracks@);
        let mut bpm: u16 = 120;
        let mut tracks: Vec<Track> = Vec::new();
        let n = raw_tracks.len();
        proof {
            assert(mapped.skip(0) =~= mapped);
        }

        for t in 0..n
            invariant
                n == raw_tracks@.len(),
                mapped == midi::deep_raw(raw_tracks@),
                ppq >= 1,
                options.velocity_min <= options.velocity_max,
                forall|a: int, k: int|
                    0 <= a < raw_tracks@.len() && 0 <= k < raw_tracks@[a]@.len()
                        ==> (#[trigger] raw_tracks@[a]@[k]).wf(),
                song_bpm(mapped, 120u16) == song_bpm(mapped.skip(t as int), bpm),
                tracks@.len() == note_bearing(mapped.take(t as int)).len(),
                forall|j: int|
                    0 <= j < tracks@.len() ==> (#[trigger] tracks@[j]).notes@.len()
                        == count_note_ons(note_bearing(mapped.take(t as int))[j]),
                forall|u: int| 0 <= u < tracks@.len() ==> (#[trigger] tracks@[u]).notes@.len() > 0,
                forall|u: int| 0 <= u < tracks@.len() ==> (#[trigger] tracks@[u]).wf(),
                forall|u: int, i: int|
                    0 <= u < tracks@.len() && 0 <= i < (#[trigger] tracks@[u]).notes@.len()
                        ==> options.velocity_min <= (#[trigger] tracks@[u].notes@[i]).velocity
                        <= options.velocity_max,
                (forall|a: int, k: int|
                    0 <= a < t && 0 <= k < mapped[a].len() ==> !(#[trigger] mapped[a][k]).is_note_on())
                    ==> tracks@.len() == 0,
        {
            proof {
                assert(mapped.skip(t as int).first() == raw_tracks@[t as int]@);
                assert(mapped.skip(t as int).drop_first() =~= mapped.skip(t + 1));
                assert(mapped.take(t + 1).drop_last() =~= mapped.take(t as int));
                assert(mapped.take(t + 1).last() == mapped[t as int]);
            }
            let track = Track::new(
                &raw_tracks[t],
                ppq,
                &mut bpm,
                options.velocity_min,
                options.velocity_max,
            );
            if track.notes.len() > 0 {
                tracks.push(track);
            }
        }
        proof {
            assert(mapped.skip(n as int) =~= Seq::<Seq<RawEvent>>::empty());
            assert(mapped.take(n as int) =~= mapped);
        }

        if options.auto_boot_velocity {
            proof {
                if tracks@.len() > 0 {
                    assert(tracks@[0].notes@.len() > 0);
                    assert(has_note(tracks@));
                }
            }
            modify_note_velocity(&mut tracks);
        }

        Song { ppq, bpm, tracks }
    }

    /// Relies on the public `header.timing` field of midly::Smf: the pulses
    /// per quarter note when the header uses metrical timing, `None` for
    /// timecode-based timing.
    #[verifier::external_body]
    pub fn get_ppq_from_smf(smf: &midly::Smf) -> (r: Option<u16>) {
        match smf.header.timing {
            midly::Timing::Metrical(ppq) => Some(ppq.as_int()),
            _ => None,
        }
    }

    /// Convert a standard MIDI file, given as its raw bytes, into a song.
    /// The bytes are handed to the external parser; the files it rejects,
    /// and the degenerate files whose header names a metrical resolution of
    /// zero ticks (no grid can divide by it), are reported as invalid. The
    /// timing resolution is the header's metrical value, with 480 pulses
    /// per quarter note when the header carries timecode timing instead;
    /// everything after parsing is the verified pipeline of
    /// `from_raw_tracks`.
    pub fn from_bytes(bytes: Vec<u8>, options: SongOptions) -> (r: Result<Song, SongError>)
        requires
            options.velocity_min <= options.velocity_max,
        ensures
            r is Ok <==> midi::parses_ok(bytes@) && midi::parsed_ppq(bytes@) != Some(0u16),
            r matches Err(e) ==> e == SongError::InvalidMidiData,
            r matches Ok(song) ==> {
                &&& song.ppq == effective_ppq(midi::parsed_ppq(bytes@))
                &&& song.ppq >= 1
                &&& song.bpm == song_bpm(midi::parsed_tracks(bytes@), 120u16)
                &&& song.tracks@.len() == note_bearing(midi::parsed_tracks(bytes@)).len()
                &&& forall|j: int|
                    0 <= j < song.tracks@.len() ==> (#[trigger] song.tracks@[j]).notes@.len()
                        == count_note_ons(note_bearing(midi::parsed_tracks(bytes@))[j])
                &&& (no_note_on(midi::parsed_tracks(bytes@)) ==> song.tracks@.len() == 0)
                &&& forall|t: int|
                    0 <= t < song.tracks@.len() ==> (#[trigger] song.tracks@[t]).notes@.len() > 0
                &&& forall|t: int|
                    0 <= t < song.tracks@.len() ==> (#[trigger] song.tracks@[t]).wf()
                &&& (options.auto_boot_velocity ==> forall|t: int, i: int|
                    0 <= t < song.tracks@.len() && 0 <= i < (
                    #[trigger] song.tracks@[t]).notes@.len()
                        ==> (#[trigger] song.tracks@[t].notes@[i]).velocity <= 15)
                &&& (options.auto_boot_velocity && song.tracks@.len() > 0 ==> exists|t: int, i: int|
                    0 <= t < song.tracks@.len() && 0 <= i < (
                    #[trigger] song.tracks@[t]).notes@.len()
                        && (#[trigger] song.tracks@[t].notes@[i]).velocity == 15)
                &&& (!options.auto_boot_velocity ==> forall|t: int, i: int|
                    0 <= t < song.tracks@.len() && 0 <= i < (
                    #[trigger] song.tracks@[t]).notes@.len()
                        ==> options.velocity_min <= (
                    #[trigger] song.tracks@[t].notes@[i]).velocity <= options.velocity_max)
            },
    {
        let (header_ppq, raw_tracks) = match midi::parse_raw(&bytes) {
            Some(parsed) => parsed,
            None => {
                return Err(SongError::InvalidMidiData);
            },
        };

        let ppq: u16 = match header_ppq {
            Some(p) => {
                if p == 0 {
                    return Err(SongError::InvalidMidiData);
                }
                p
            },
            None => 480,
        };

        proof {
            assert forall|t: int, k: int|
                0 <= t < raw_tracks@.len() && 0 <= k < raw_tracks@[t]@.len() implies (
            #[trigger] raw_tracks@[t]@[k]).wf() by {
                assert(midi::deep_raw(raw_tracks@)[t] == raw_tracks@[t]@);
                assert(midi::parsed_tracks(bytes@)[t][k].wf());
            }
        }

        Ok(Self::from_raw_tracks(ppq, &raw_tracks, options))
    }
}

} // verus!
