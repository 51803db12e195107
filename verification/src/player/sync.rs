//! Picking up the song in the middle.

use super::{program_effects, silent_move, Effect, MidiPlayer, PlayerView};
use crate::keyboard::{exec_guide_velocity, guide_velocity, NoteId};
use crate::midi::MidiMessage;
use crate::play_along::{MidiEventSource, PlayAlongView};
use crate::song::{MidiNote, PlayerConfig, Song};
use crate::time::{lemma_span_of_view, Duration, MAX_NANOS, NANOS_PER_MILLI};
use crate::times::{is_least, least, lemma_least_exists, lemma_least_is};
use crate::wire::low_seven_bits;
use vstd::prelude::*;

verus! {

broadcast use lemma_span_of_view;

/// How far apart the notes may start that are picked up together, in milliseconds.
pub const PICK_UP_WINDOW_MILLIS: u64 = 30;

/// The length of the pick-up window in nanoseconds.
pub open spec fn pick_up_window() -> nat {
    (PICK_UP_WINDOW_MILLIS * NANOS_PER_MILLI) as nat
}

/// A note that can be heard, with the id of its track.
#[derive(Clone, Copy, Debug, PartialEq, Eq, Structural)]
pub struct Cue {
    pub track_id: usize,
    pub note: MidiNote,
}

impl Song {
    /// The notes of track `i`, unless the track is muted.
    pub open spec fn track_cues(self, i: int) -> Seq<Cue> {
        let track = self.file.tracks@[i];
        if self.player(track.track_id) == PlayerConfig::Mute {
            Seq::empty()
        } else {
            Seq::new(
                track.notes@.len(),
                |j: int| Cue { track_id: track.track_id, note: track.notes@[j] },
            )
        }
    }

    /// The notes of the first `n` tracks, without the muted ones.
    pub open spec fn cues_of_first(self, n: nat) -> Seq<Cue>
        decreases n,
    {
        if n == 0 {
            Seq::empty()
        } else {
            self.cues_of_first((n - 1) as nat) + self.track_cues(n - 1)
        }
    }

    /// The notes of the song that can be heard, track by track.
    pub open spec fn cues(self) -> Seq<Cue> {
        self.cues_of_first(self.file.tracks@.len())
    }

    /// There is a note `j` on track `i`, and it can be heard.
    pub open spec fn audible_note(self, i: int, j: int) -> bool {
        &&& 0 <= i < self.file.tracks@.len()
        &&& 0 <= j < self.file.tracks@[i].notes@.len()
        &&& self.player(self.file.tracks@[i].track_id) != PlayerConfig::Mute
    }

    /// Collects the notes of the song that can be heard.
    fn collect_cues(&self) -> (cues: Vec<Cue>)
        requires
            self.wf(),
        ensures
            cues@ == self.cues(),
    {
        let mut cues: Vec<Cue> = Vec::new();
        let mut i: usize = 0;
        while i < self.file.tracks.len()
            invariant
                self.wf(),
                i <= self.file.tracks@.len(),
                cues@ == self.cues_of_first(i as nat),
            decreases self.file.tracks@.len() - i,
        {
            let track = &self.file.tracks[i];
            let ghost before = cues@;
            if self.exec_player(track.track_id) != PlayerConfig::Mute {
                let mut j: usize = 0;
                proof {
                    assert(self.track_cues(i as int).take(0) =~= Seq::empty());
                }
                while j < track.notes.len()
                    invariant
                        i < self.file.tracks@.len(),
                        track == self.file.tracks@[i as int],
                        self.player(track.track_id) != PlayerConfig::Mute,
                        j <= track.notes@.len(),
                        cues@ =~= before + self.track_cues(i as int).take(j as int),
                    decreases track.notes@.len() - j,
                {
                    cues.push(Cue { track_id: track.track_id, note: track.notes[j] });
                    j = j + 1;
                }
                proof {
                    assert(self.track_cues(i as int).take(j as int) =~= self.track_cues(i as int));
                }
            } else {
                proof {
                    assert(before + self.track_cues(i as int) =~= before);
                }
            }
            i = i + 1;
        }
        cues
    }
}

/// The note of `cue` sounds at `time`.
pub open spec fn sounds_at(cue: Cue, time: nat) -> bool {
    cue.note.start@ <= time < cue.note.start@ + cue.note.duration@
}

/// The note of `cue` starts at `start` or within the pick-up window after it.
pub open spec fn picked_up_at(cue: Cue, start: nat) -> bool {
    start <= cue.note.start@ <= start + pick_up_window()
}

/// Those of `cues` that sound at `time`.
pub open spec fn sounding(cues: Seq<Cue>, time: nat) -> Seq<Cue> {
    cues.filter(|cue: Cue| sounds_at(cue, time))
}

/// Those of `cues` that start at `start` or within the pick-up window after it.
pub open spec fn picked_up(cues: Seq<Cue>, start: nat) -> Seq<Cue> {
    cues.filter(|cue: Cue| picked_up_at(cue, start))
}

/// The starts of those of `cues` that are still to come at `time`.
pub open spec fn upcoming(cues: Seq<Cue>, time: nat) -> Set<nat> {
    Set::new(
        |t: nat|
            t >= time && exists|k: int|
                0 <= k < cues.len() && (#[trigger] cues[k]).note.start@ == t,
    )
}

impl PlayerView {
    /// The start of the notes to go on to where nothing sounds now, if there are any.
    pub open spec fn snap_start(self) -> Option<nat> {
        if sounding(self.song.cues(), self.song_time()).len() > 0 {
            None
        } else {
            least(upcoming(self.song.cues(), self.song_time()))
        }
    }

    /// The notes to pick the song up with: those that sound now, or else the next ones.
    pub open spec fn pick_up_cues(self) -> Seq<Cue> {
        match self.snap_start() {
            Some(start) => picked_up(self.song.cues(), start),
            None => sounding(self.song.cues(), self.song_time()),
        }
    }

    /// The ends of the notes that have started, and the times around the notes to go on to, are
    /// times that can be counted.
    pub open spec fn sync_fits(self) -> bool {
        let cues = self.song.cues();
        &&& forall|k: int|
            0 <= k < cues.len() && (#[trigger] cues[k]).note.start@ <= self.song_time()
                ==> cues[k].note.start@ + cues[k].note.duration@ <= MAX_NANOS
        &&& self.snap_start() matches Some(start) ==> {
            &&& start + self.leed_in <= MAX_NANOS
            &&& start + pick_up_window() <= MAX_NANOS
        }
    }

    /// What the note of `cue` sends out: it is struck, in the color of its key.
    pub open spec fn cue_effect(self, cue: Cue) -> Effect {
        Effect::Midi {
            channel: self.output_channel(cue.note.track_color_id, cue.note.channel),
            message: MidiMessage::NoteOn {
                key: cue.note.note % 128,
                vel: guide_velocity(cue.note.note),
            },
        }
    }

    /// What `cues` require of the user: the keys of the user's notes that the user has.
    pub open spec fn cued(self, cues: Seq<Cue>) -> Set<NoteId> {
        Set::new(
            |key: NoteId|
                self.play_along.range.contains(key) && exists|k: int|
                    0 <= k < cues.len() && self.song.player((#[trigger] cues[k]).track_id)
                        == PlayerConfig::Human && cues[k].note.note % 128 == key,
        )
    }

    /// The move of the playback engine to the notes to go on to, where nothing sounds now.
    pub open spec fn snap_effects(self) -> Seq<Effect> {
        match self.snap_start() {
            Some(start) => silent_move(Duration::of(start + self.leed_in)),
            None => Seq::empty(),
        }
    }

    /// What it takes to pick the song up, with the programs of its channels.
    pub open spec fn sync_effects(self, programs: Seq<(u8, u8)>) -> Seq<Effect> {
        seq![Effect::StopAll] + program_effects(programs) + self.snap_effects()
            + self.pick_up_cues().map_values(|cue: Cue| self.cue_effect(cue))
    }

    /// The player after it has picked the song up.
    pub open spec fn synced(self) -> PlayerView {
        PlayerView {
            play_along: PlayAlongView {
                range: self.play_along.range,
                required: self.cued(self.pick_up_cues()),
            },
            ..self
        }
    }
}

/// Collects those of `cues` that sound at `time`.
fn collect_sounding(cues: &Vec<Cue>, time: Duration) -> (found: Vec<Cue>)
    requires
        forall|k: int|
            0 <= k < cues@.len() && (#[trigger] cues@[k]).note.start@ <= time@
                ==> cues@[k].note.start@ + cues@[k].note.duration@ <= MAX_NANOS,
    ensures
        found@ == sounding(cues@, time@),
{
    let mut found: Vec<Cue> = Vec::new();
    let mut k: usize = 0;
    proof {
        reveal(Seq::filter);
    }
    while k < cues.len()
        invariant
            forall|n: int|
                0 <= n < cues@.len() && (#[trigger] cues@[n]).note.start@ <= time@
                    ==> cues@[n].note.start@ + cues@[n].note.duration@ <= MAX_NANOS,
            k <= cues@.len(),
            found@ == sounding(cues@.take(k as int), time@),
        decreases cues@.len() - k,
    {
        proof {
            reveal(Seq::filter);
            assert(cues@.take(k + 1).drop_last() =~= cues@.take(k as int));
        }
        let cue = cues[k];
        if cue.note.start.as_nanos() <= time.as_nanos() && time.as_nanos() < cue.note.start.plus(
            cue.note.duration,
        ).as_nanos() {
            found.push(cue);
        }
        k = k + 1;
    }
    proof {
        assert(cues@.take(k as int) =~= cues@);
    }
    found
}

/// Collects those of `cues` that start at `start` or within the pick-up window after it.
fn collect_picked_up(cues: &Vec<Cue>, start: Duration) -> (found: Vec<Cue>)
    requires
        start@ + pick_up_window() <= MAX_NANOS,
    ensures
        found@ == picked_up(cues@, start@),
{
    let end = start.plus(Duration::from_millis(PICK_UP_WINDOW_MILLIS));
    let mut found: Vec<Cue> = Vec::new();
    let mut k: usize = 0;
    proof {
        reveal(Seq::filter);
    }
    while k < cues.len()
        invariant
            end@ == start@ + pick_up_window(),
            k <= cues@.len(),
            found@ == picked_up(cues@.take(k as int), start@),
        decreases cues@.len() - k,
    {
        proof {
            reveal(Seq::filter);
            assert(cues@.take(k + 1).drop_last() =~= cues@.take(k as int));
        }
        let cue = cues[k];
        if cue.note.start.as_nanos() >= start.as_nanos() && cue.note.start.as_nanos()
            <= end.as_nanos() {
            found.push(cue);
        }
        k = k + 1;
    }
    proof {
        assert(cues@.take(k as int) =~= cues@);
    }
    found
}

/// The earliest start of those of `cues` that are still to come at `time`.
fn earliest_upcoming(cues: &Vec<Cue>, time: Duration) -> (start: Option<Duration>)
    ensures
        start is Some <==> least(upcoming(cues@, time@)) is Some,
        start matches Some(s) ==> least(upcoming(cues@, time@)) == Some(s@),
{
    let ghost times = upcoming(cues@, time@);
    let mut earliest: Option<Duration> = None;
    let mut k: usize = 0;
    while k < cues.len()
        invariant
            k <= cues@.len(),
            earliest is None ==> forall|n: int|
                0 <= n < k ==> (#[trigger] cues@[n]).note.start@ < time@,
            earliest matches Some(e) ==> {
                &&& e@ >= time@
                &&& exists|n: int| 0 <= n < k && (#[trigger] cues@[n]).note.start@ == e@
                &&& forall|n: int|
                    0 <= n < k && (#[trigger] cues@[n]).note.start@ >= time@ ==> e@
                        <= cues@[n].note.start@
            },
        decreases cues@.len() - k,
    {
        let start = cues[k].note.start;
        if start.as_nanos() >= time.as_nanos() {
            let later = match earliest {
                Some(e) => e.as_nanos() <= start.as_nanos(),
                None => false,
            };
            if !later {
                earliest = Some(start);
                proof {
                    assert(cues@[k as int].note.start@ == start@);
                }
            }
        }
        k = k + 1;
    }
    proof {
        match earliest {
            Some(e) => {
                assert(is_least(times, e@));
                lemma_least_is(times, e@);
            },
            None => {
                lemma_least_exists(times);
                assert(times =~= Set::empty());
            },
        }
    }
    earliest
}

impl MidiPlayer {
    /// Picks the song up at the latest reading of the clock: silences the output, sends out the
    /// programs that were looked up for that time, and strikes the notes that sound now. Where
    /// nothing sounds, playback moves on to the next notes and strikes those. What the user has
    /// to play of them is required.
    pub fn sync_state_at_current_time(&mut self, programs: &Vec<(u8, u8)>) -> (effects: Vec<Effect>)
        requires
            old(self).wf(),
            old(self)@.sync_fits(),
        ensures
            final(self).wf(),
            final(self)@ == old(self)@.synced(),
            effects@ == old(self)@.sync_effects(programs@),
    {
        let ghost before = self@;
        let mut effects = self.clear();
        let mut program_changes = self.send_midi_programs_for_timestamp(programs);
        effects.append(&mut program_changes);

        let song_time = self.playback.time.saturating_sub(self.leed_in);
        let cues = self.song.collect_cues();
        let mut picked = collect_sounding(&cues, song_time);
        if picked.len() == 0 {
            if let Some(start) = earliest_upcoming(&cues, song_time) {
                let mut moves = self.set_time_silent(start.plus(self.leed_in));
                effects.append(&mut moves);
                picked = collect_picked_up(&cues, start);
            }
        }
        proof {
            assert(picked@ == before.pick_up_cues());
            assert(effects@ =~= seq![Effect::StopAll] + program_effects(programs@)
                + before.snap_effects());
            lemma_cues_have_settings(before);
        }
        let ghost prologue = effects@;
        let mut k: usize = 0;
        proof {
            assert(before.cued(picked@.take(0)) =~= Set::empty());
        }
        while k < picked.len()
            invariant
                self.wf(),
                k <= picked@.len(),
                forall|n: int|
                    0 <= n < picked@.len() ==> (#[trigger] picked@[n]).track_id
                        < before.song.config.tracks@.len() && before.song.player(picked@[n].track_id)
                        != PlayerConfig::Mute,
                self@ == (PlayerView {
                    play_along: PlayAlongView {
                        range: before.play_along.range,
                        required: before.cued(picked@.take(k as int)),
                    },
                    ..before
                }),
                effects@ =~= prologue + picked@.take(k as int).map_values(
                    |cue: Cue| before.cue_effect(cue),
                ),
            decreases picked@.len() - k,
        {
            let cue = picked[k];
            let ghost earlier = picked@.take(k as int);
            let channel: u8 = self.exec_output_channel(cue.note.track_color_id, cue.note.channel);
            let message = MidiMessage::NoteOn {
                key: low_seven_bits(cue.note.note),
                vel: exec_guide_velocity(cue.note.note),
            };
            match self.song.exec_player(cue.track_id) {
                PlayerConfig::Auto => {
                    effects.push(Effect::Midi { channel, message });
                },
                PlayerConfig::Human => {
                    self.play_along.midi_event(MidiEventSource::File, &message);
                    effects.push(Effect::Midi { channel, message });
                },
                PlayerConfig::Mute => {},
            }
            proof {
                let now = picked@.take(k + 1);
                assert(now =~= earlier.push(cue));
                lemma_cued_push(before, earlier, cue);
                assert(self@.play_along.required =~= before.cued(now));
                assert(self@.play_along =~= (PlayAlongView {
                    range: before.play_along.range,
                    required: before.cued(now),
                }));
            }
            k = k + 1;
        }
        proof {
            assert(picked@.take(k as int) =~= picked@);
        }
        effects
    }

    /// Tells whether [`MidiPlayer::sync_state_at_current_time`] can be called: every time that
    /// it has to work out can be counted.
    pub fn can_sync(&self) -> (can: bool)
        requires
            self.wf(),
        ensures
            can == self@.sync_fits(),
    {
        let song_time = self.playback.time.saturating_sub(self.leed_in);
        let cues = self.song.collect_cues();
        let mut k: usize = 0;
        while k < cues.len()
            invariant
                cues@ == self@.song.cues(),
                song_time@ == self@.song_time(),
                k <= cues@.len(),
                forall|n: int|
                    0 <= n < k && (#[trigger] cues@[n]).note.start@ <= song_time@
                        ==> cues@[n].note.start@ + cues@[n].note.duration@ <= MAX_NANOS,
            decreases cues@.len() - k,
        {
            let note = cues[k].note;
            if note.start.as_nanos() <= song_time.as_nanos() && note.start.checked_add(
                note.duration,
            ).is_none() {
                return false;
            }
            k = k + 1;
        }
        if collect_sounding(&cues, song_time).len() > 0 {
            return true;
        }
        match earliest_upcoming(&cues, song_time) {
            Some(start) => start.checked_add(self.leed_in).is_some() && start.checked_add(
                Duration::from_millis(PICK_UP_WINDOW_MILLIS),
            ).is_some(),
            None => true,
        }
    }
}

/// Each of the cues of the first `n` tracks is a note that can be heard.
pub(crate) proof fn lemma_cue_is_note(song: Song, n: nat, k: int)
    requires
        n <= song.file.tracks@.len(),
        0 <= k < song.cues_of_first(n).len(),
    ensures
        exists|i: int, j: int| #[trigger]
            song.audible_note(i, j) && song.note(i, j) == song.cues_of_first(n)[k].note,
    decreases n,
{
    let earlier = song.cues_of_first((n - 1) as nat);
    if k < earlier.len() {
        lemma_cue_is_note(song, (n - 1) as nat, k);
        let (i, j) = choose|i: int, j: int| #[trigger]
            song.audible_note(i, j) && song.note(i, j) == earlier[k].note;
        assert(song.audible_note(i, j) && song.note(i, j) == song.cues_of_first(n)[k].note);
    } else {
        let j = k - earlier.len();
        assert(song.cues_of_first(n)[k] == song.track_cues(n - 1)[j]);
        assert(song.audible_note(n - 1, j));
    }
}

/// Each note that can be heard, on one of the first `n` tracks, is among their cues.
pub(crate) proof fn lemma_note_is_cue(song: Song, n: nat, i: int, j: int) -> (k: int)
    requires
        song.audible_note(i, j),
        i < n <= song.file.tracks@.len(),
    ensures
        0 <= k < song.cues_of_first(n).len(),
        song.cues_of_first(n)[k].note == song.note(i, j),
    decreases n,
{
    let earlier = song.cues_of_first((n - 1) as nat);
    if i < n - 1 {
        let k = lemma_note_is_cue(song, (n - 1) as nat, i, j);
        assert(song.cues_of_first(n)[k] == earlier[k]);
        k
    } else {
        assert(song.cues_of_first(n)[earlier.len() + j] == song.track_cues(i)[j]);
        earlier.len() + j
    }
}

/// Every note that can be heard belongs to a track that has its settings and is not muted.
proof fn lemma_cue_has_settings(song: Song, n: nat, k: int)
    requires
        song.wf(),
        n <= song.file.tracks@.len(),
        0 <= k < song.cues_of_first(n).len(),
    ensures
        song.cues_of_first(n)[k].track_id < song.config.tracks@.len(),
        song.player(song.cues_of_first(n)[k].track_id) != PlayerConfig::Mute,
    decreases n,
{
    let earlier = song.cues_of_first((n - 1) as nat);
    if k < earlier.len() {
        lemma_cue_has_settings(song, (n - 1) as nat, k);
    } else {
        assert(song.cues_of_first(n)[k] == song.track_cues(n - 1)[k - earlier.len()]);
        assert(song.file.tracks@[n - 1].track_id < song.config.tracks@.len());
    }
}

/// So do the notes that the song is picked up with.
proof fn lemma_cues_have_settings(player: PlayerView)
    requires
        player.song.wf(),
    ensures
        forall|n: int|
            0 <= n < player.pick_up_cues().len() ==> (#[trigger] player.pick_up_cues()[n]).track_id
                < player.song.config.tracks@.len() && player.song.player(
                player.pick_up_cues()[n].track_id,
            ) != PlayerConfig::Mute,
{
    let song = player.song;
    let picked = player.pick_up_cues();
    let cues = song.cues();
    assert forall|n: int| 0 <= n < picked.len() implies (#[trigger] picked[n]).track_id
        < song.config.tracks@.len() && song.player(picked[n].track_id) != PlayerConfig::Mute by {
        match player.snap_start() {
            Some(start) => {
                lemma_filtered_from(cues, |cue: Cue| picked_up_at(cue, start), n);
            },
            None => {
                lemma_filtered_from(cues, |cue: Cue| sounds_at(cue, player.song_time()), n);
            },
        }
        let k = choose|k: int| 0 <= k < cues.len() && cues[k] == picked[n];
        lemma_cue_has_settings(song, song.file.tracks@.len(), k);
    }
}

/// What a filter keeps was there, and meets the filter.
proof fn lemma_filtered_from(cues: Seq<Cue>, pred: spec_fn(Cue) -> bool, n: int)
    requires
        0 <= n < cues.filter(pred).len(),
    ensures
        exists|k: int| 0 <= k < cues.len() && cues[k] == cues.filter(pred)[n],
        pred(cues.filter(pred)[n]),
    decreases cues.len(),
{
    reveal(Seq::filter);
    let earlier = cues.drop_last();
    if n < earlier.filter(pred).len() {
        lemma_filtered_from(earlier, pred, n);
        let k = choose|k: int| 0 <= k < earlier.len() && earlier[k] == earlier.filter(pred)[n];
        assert(cues[k] == cues.filter(pred)[n]);
    } else {
        assert(cues[cues.len() - 1] == cues.filter(pred)[n]);
    }
}

/// One more note requires its key, if it is for the user, besides what was required already.
proof fn lemma_cued_push(player: PlayerView, cues: Seq<Cue>, cue: Cue)
    ensures
        player.cued(cues.push(cue)) == if player.song.player(cue.track_id) == PlayerConfig::Human
            && player.play_along.range.contains(cue.note.note % 128) {
            player.cued(cues).insert(cue.note.note % 128)
        } else {
            player.cued(cues)
        },
{
    let now = cues.push(cue);
    let added = if player.song.player(cue.track_id) == PlayerConfig::Human
        && player.play_along.range.contains(cue.note.note % 128) {
        player.cued(cues).insert(cue.note.note % 128)
    } else {
        player.cued(cues)
    };
    assert forall|key: NoteId| player.cued(now).contains(key) <==> added.contains(key) by {
        if player.cued(now).contains(key) {
            let k = choose|k: int|
                0 <= k < now.len() && player.song.player((#[trigger] now[k]).track_id)
                    == PlayerConfig::Human && now[k].note.note % 128 == key;
            if k < cues.len() {
                assert(cues[k] == now[k]);
            }
        }
        if player.cued(cues).contains(key) {
            let k = choose|k: int|
                0 <= k < cues.len() && player.song.player((#[trigger] cues[k]).track_id)
                    == PlayerConfig::Human && cues[k].note.note % 128 == key;
            assert(now[k] == cues[k]);
        }
        assert(now[cues.len() as int] == cue);
    }
    assert(player.cued(now) =~= added);
}

} // verus!
