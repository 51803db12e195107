//! A song: its tracks, the notes on them, and who plays each track.

use crate::midi::MidiMessage;
use crate::time::{lemma_span_width, Duration, MAX_NANOS};
use crate::times::{ascending, sort_unstable, table_values};
use vstd::prelude::*;

verus! {

/// Who plays a track.
#[derive(Clone, Copy, Debug, PartialEq, Eq, Structural)]
pub enum PlayerConfig {
    /// Nobody: the track is silent.
    Mute,
    /// The player.
    Auto,
    /// The user.
    Human,
}

/// A note on a track.
#[derive(Clone, Copy, Debug, PartialEq, Eq, Structural)]
pub struct MidiNote {
    pub start: Duration,
    pub duration: Duration,
    pub note: u8,
    pub channel: u8,
    pub track_color_id: usize,
}

/// A track, with its place in the configuration of the song.
#[derive(Debug)]
pub struct MidiTrack {
    pub track_id: usize,
    pub notes: Vec<MidiNote>,
}

/// A message of the song at its time.
#[derive(Clone, Copy, Debug, PartialEq, Eq, Structural)]
pub struct MidiEvent {
    pub channel: u8,
    pub timestamp: Duration,
    pub message: MidiMessage,
    pub track_id: usize,
    pub track_color_id: usize,
}

/// What was read from the file of a song.
#[derive(Debug)]
pub struct MidiFile {
    pub tracks: Vec<MidiTrack>,
}

/// The settings of one track.
#[derive(Clone, Copy, Debug, PartialEq, Eq, Structural)]
pub struct TrackConfig {
    pub player: PlayerConfig,
}

/// The settings of all tracks, by track id.
#[derive(Debug)]
pub struct SongConfig {
    pub tracks: Vec<TrackConfig>,
}

/// A song and its settings.
#[derive(Debug)]
pub struct Song {
    pub file: MidiFile,
    pub config: SongConfig,
}

impl Song {
    /// Every track has its settings.
    pub open spec fn wf(self) -> bool {
        forall|i: int|
            0 <= i < self.file.tracks@.len() ==> (#[trigger] self.file.tracks@[i]).track_id
                < self.config.tracks@.len()
    }

    /// Every one of `events` belongs to a track that has its settings.
    pub open spec fn configures(self, events: Seq<MidiEvent>) -> bool {
        forall|k: int|
            0 <= k < events.len() ==> (#[trigger] events[k]).track_id < self.config.tracks@.len()
    }

    /// Who plays the track with this id.
    pub open spec fn player(self, track_id: usize) -> PlayerConfig {
        self.config.tracks@[track_id as int].player
    }

    /// Note `j` of track `i`.
    pub open spec fn note(self, i: int, j: int) -> MidiNote {
        self.file.tracks@[i].notes@[j]
    }

    /// There is a note `j` on track `i`, and it is for the user to play.
    pub open spec fn human_note(self, i: int, j: int) -> bool {
        &&& 0 <= i < self.file.tracks@.len()
        &&& 0 <= j < self.file.tracks@[i].notes@.len()
        &&& self.player(self.file.tracks@[i].track_id) == PlayerConfig::Human
    }

    /// The times, counted from `leed_in` before the song, at which a note of the user starts.
    pub open spec fn human_times(self, leed_in: nat) -> Set<nat> {
        Set::new(
            |t: nat|
                exists|i: int, j: int| #[trigger]
                    self.human_note(i, j) && self.note(i, j).start@ + leed_in == t,
        )
    }

    /// The times in the song at which a note of the user starts.
    pub open spec fn human_starts(self) -> Set<nat> {
        self.human_times(0)
    }

    /// The starts of the notes of track `i` in nanoseconds, if the track is for the user to play.
    pub open spec fn track_starts(self, i: int) -> Seq<u128> {
        let track = self.file.tracks@[i];
        if self.player(track.track_id) == PlayerConfig::Human {
            Seq::new(track.notes@.len(), |j: int| track.notes@[j].start@ as u128)
        } else {
            Seq::empty()
        }
    }

    /// The starts of the user's notes on the first `n` tracks.
    pub open spec fn starts_of_first(self, n: nat) -> Seq<u128>
        decreases n,
    {
        if n == 0 {
            Seq::empty()
        } else {
            self.starts_of_first((n - 1) as nat) + self.track_starts(n - 1)
        }
    }

    /// The starts of all notes of the user in nanoseconds, track by track, each as often as a
    /// note starts there.
    pub open spec fn human_start_list(self) -> Seq<u128> {
        self.starts_of_first(self.file.tracks@.len())
    }

    /// `table` holds the starts of all notes of the user, each as often as a note starts there,
    /// in ascending order.
    pub open spec fn is_start_table(self, table: Seq<u128>) -> bool {
        &&& ascending(table)
        &&& table.to_multiset() == self.human_start_list().to_multiset()
    }

    /// The start of every note of the user can be counted from `leed_in` before the song.
    pub open spec fn targets_fit(self, leed_in: nat) -> bool {
        forall|i: int, j: int| #[trigger]
            self.human_note(i, j) ==> self.note(i, j).start@ + leed_in <= MAX_NANOS
    }

    /// Some note of the user that starts at `start` is played on one of `keys`.
    pub open spec fn repeats_key(self, start: nat, keys: Set<u8>) -> bool {
        exists|i: int, j: int| #[trigger]
            self.human_note(i, j) && self.note(i, j).start@ == start && keys.contains(
                self.note(i, j).note,
            )
    }

    /// Looks up who plays a track.
    pub(crate) fn exec_player(&self, track_id: usize) -> (player: PlayerConfig)
        requires
            track_id < self.config.tracks@.len(),
        ensures
            player == self.player(track_id),
    {
        self.config.tracks[track_id].player
    }

    /// Tells whether every track has its settings.
    pub fn is_configured(&self) -> (configured: bool)
        ensures
            configured == self.wf(),
    {
        let mut i: usize = 0;
        while i < self.file.tracks.len()
            invariant
                i <= self.file.tracks@.len(),
                forall|k: int|
                    0 <= k < i ==> (#[trigger] self.file.tracks@[k]).track_id
                        < self.config.tracks@.len(),
            decreases self.file.tracks@.len() - i,
        {
            if self.file.tracks[i].track_id >= self.config.tracks.len() {
                return false;
            }
            i = i + 1;
        }
        true
    }

    /// Tells whether every one of `events` belongs to a track that has its settings.
    pub fn is_configured_for(&self, events: &Vec<MidiEvent>) -> (configured: bool)
        ensures
            configured == self.configures(events@),
    {
        let mut k: usize = 0;
        while k < events.len()
            invariant
                k <= events@.len(),
                forall|n: int|
                    0 <= n < k ==> (#[trigger] events@[n]).track_id < self.config.tracks@.len(),
            decreases events@.len() - k,
        {
            if events[k].track_id >= self.config.tracks.len() {
                return false;
            }
            k = k + 1;
        }
        true
    }

    /// Tells whether the start of every note of the user can be counted from `lead_in` before
    /// the song.
    pub fn fits_lead_in(&self, lead_in: Duration) -> (fits: bool)
        requires
            self.wf(),
        ensures
            fits == self.targets_fit(lead_in@),
    {
        let mut i: usize = 0;
        while i < self.file.tracks.len()
            invariant
                self.wf(),
                i <= self.file.tracks@.len(),
                forall|a: int, b: int| #[trigger]
                    self.human_note(a, b) && a < i ==> self.note(a, b).start@ + lead_in@
                        <= MAX_NANOS,
            decreases self.file.tracks@.len() - i,
        {
            let track = &self.file.tracks[i];
            if self.exec_player(track.track_id) == PlayerConfig::Human {
                let mut j: usize = 0;
                while j < track.notes.len()
                    invariant
                        i < self.file.tracks@.len(),
                        track == self.file.tracks@[i as int],
                        self.player(track.track_id) == PlayerConfig::Human,
                        j <= track.notes@.len(),
                        forall|a: int, b: int| #[trigger]
                            self.human_note(a, b) && (a < i || (a == i && b < j)) ==> self.note(
                                a,
                                b,
                            ).start@ + lead_in@ <= MAX_NANOS,
                    decreases track.notes@.len() - j,
                {
                    if track.notes[j].start.checked_add(lead_in).is_none() {
                        proof {
                            assert(self.human_note(i as int, j as int));
                        }
                        return false;
                    }
                    j = j + 1;
                }
            }
            i = i + 1;
        }
        true
    }

    /// The starts of the user's notes in nanoseconds, ascending.
    pub(crate) fn human_note_starts(&self) -> (starts: Vec<u128>)
        requires
            self.wf(),
        ensures
            self.is_start_table(starts@),
    {
        let mut starts: Vec<u128> = Vec::new();
        let mut i: usize = 0;
        while i < self.file.tracks.len()
            invariant
                self.wf(),
                i <= self.file.tracks@.len(),
                starts@ == self.starts_of_first(i as nat),
            decreases self.file.tracks@.len() - i,
        {
            let track = &self.file.tracks[i];
            let ghost before = starts@;
            if self.exec_player(track.track_id) == PlayerConfig::Human {
                let mut j: usize = 0;
                proof {
                    assert(self.track_starts(i as int).take(0) =~= Seq::empty());
                }
                while j < track.notes.len()
                    invariant
                        i < self.file.tracks@.len(),
                        track == self.file.tracks@[i as int],
                        self.player(track.track_id) == PlayerConfig::Human,
                        j <= track.notes@.len(),
                        starts@ =~= before + self.track_starts(i as int).take(j as int),
                    decreases track.notes@.len() - j,
                {
                    starts.push(track.notes[j].start.as_nanos());
                    j = j + 1;
                }
                proof {
                    assert(self.track_starts(i as int).take(j as int) =~= self.track_starts(
                        i as int,
                    ));
                }
            } else {
                proof {
                    assert(before + self.track_starts(i as int) =~= before);
                }
            }
            i = i + 1;
        }
        sort_unstable(&mut starts);
        starts
    }

    /// Tells whether some note of the user that starts at `start` is played on one of `keys`.
    pub(crate) fn exec_repeats_key(
        &self,
        start: u128,
        keys: &std::collections::HashSet<u8>,
    ) -> (repeats: bool)
        requires
            self.wf(),
        ensures
            repeats == self.repeats_key(start as nat, keys@),
    {
        broadcast use vstd::std_specs::hash::group_hash_axioms;

        let mut i: usize = 0;
        while i < self.file.tracks.len()
            invariant
                self.wf(),
                i <= self.file.tracks@.len(),
                forall|a: int, b: int| #[trigger]
                    self.human_note(a, b) && a < i ==> !(self.note(a, b).start@ == start
                        && keys@.contains(self.note(a, b).note)),
            decreases self.file.tracks@.len() - i,
        {
            let track = &self.file.tracks[i];
            if self.exec_player(track.track_id) == PlayerConfig::Human {
                let mut j: usize = 0;
                while j < track.notes.len()
                    invariant
                        i < self.file.tracks@.len(),
                        track == self.file.tracks@[i as int],
                        self.player(track.track_id) == PlayerConfig::Human,
                        j <= track.notes@.len(),
                        forall|a: int, b: int| #[trigger]
                            self.human_note(a, b) && (a < i || (a == i && b < j)) ==> !(self.note(
                                a,
                                b,
                            ).start@ == start && keys@.contains(self.note(a, b).note)),
                    decreases track.notes@.len() - j,
                {
                    let note = track.notes[j];
                    if note.start.as_nanos() == start && keys.contains(&note.note) {
                        proof {
                            assert(self.human_note(i as int, j as int));
                        }
                        return true;
                    }
                    j = j + 1;
                }
            }
            i = i + 1;
        }
        false
    }
}

/// The list of the user's starts holds the times at which a note of the user starts.
pub proof fn lemma_start_list_values(song: Song)
    ensures
        table_values(song.human_start_list()) == song.human_starts(),
{
    let list = song.human_start_list();
    let n = song.file.tracks@.len();
    assert forall|t: nat| table_values(list).contains(t) implies song.human_starts().contains(t) by {
        let k = choose|k: int| 0 <= k < list.len() && list[k] == t;
        lemma_start_is_of_note(song, n, k);
        let (i, j) = choose|i: int, j: int| #[trigger]
            song.human_note(i, j) && song.note(i, j).start@ == list[k];
        assert(song.human_note(i, j) && song.note(i, j).start@ + 0 == t);
    }
    assert forall|t: nat| song.human_starts().contains(t) implies table_values(list).contains(t) by {
        let (i, j) = choose|i: int, j: int| #[trigger]
            song.human_note(i, j) && song.note(i, j).start@ + 0 == t;
        lemma_note_is_listed(song, n, i, j);
    }
    assert(table_values(list) =~= song.human_starts());
}

proof fn lemma_start_is_of_note(song: Song, n: nat, k: int)
    requires
        n <= song.file.tracks@.len(),
        0 <= k < song.starts_of_first(n).len(),
    ensures
        exists|i: int, j: int| #[trigger]
            song.human_note(i, j) && song.note(i, j).start@ == song.starts_of_first(n)[k],
    decreases n,
{
    broadcast use lemma_span_width;

    let earlier = song.starts_of_first((n - 1) as nat);
    if k < earlier.len() {
        lemma_start_is_of_note(song, (n - 1) as nat, k);
        let (i, j) = choose|i: int, j: int| #[trigger]
            song.human_note(i, j) && song.note(i, j).start@ == earlier[k];
        assert(song.human_note(i, j) && song.note(i, j).start@ == song.starts_of_first(n)[k]);
    } else {
        let j = k - earlier.len();
        assert(song.starts_of_first(n)[k] == song.track_starts(n - 1)[j]);
        assert(song.human_note(n - 1, j));
    }
}

proof fn lemma_note_is_listed(song: Song, n: nat, i: int, j: int)
    requires
        song.human_note(i, j),
        i < n <= song.file.tracks@.len(),
    ensures
        table_values(song.starts_of_first(n)).contains(song.note(i, j).start@),
    decreases n,
{
    broadcast use lemma_span_width;

    let start = song.note(i, j).start@;
    let earlier = song.starts_of_first((n - 1) as nat);
    let list = song.starts_of_first(n);
    if i < n - 1 {
        lemma_note_is_listed(song, (n - 1) as nat, i, j);
        let k = choose|k: int| 0 <= k < earlier.len() && earlier[k] == start;
        assert(list[k] == start);
    } else {
        assert(list[earlier.len() + j] == song.track_starts(i)[j]);
        assert(list[earlier.len() + j] == start);
    }
}

/// A song has its settings where every track has an entry among them, and for events where every
/// event is of a track that has one.
pub proof fn law_settings_are_there(song: Song, events: Seq<MidiEvent>)
    ensures
        song.wf() <==> forall|i: int|
            0 <= i < song.file.tracks@.len() ==> (#[trigger] song.file.tracks@[i]).track_id
                < song.config.tracks@.len(),
        song.configures(events) <==> forall|k: int|
            0 <= k < events.len() ==> (#[trigger] events[k]).track_id < song.config.tracks@.len(),
{
}

} // verus!
