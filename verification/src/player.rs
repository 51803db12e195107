//! The player of a song that waits for the user.
//!
//! A [`MidiPlayer`] decides; it does not play. What there is to do is handed out as a list of
//! [`Effect`]s, to be carried out in order. The clock and the event cursor of the song belong to
//! a playback engine, of which the player keeps the latest reading.

use crate::keyboard::KeyboardRange;
use crate::midi::MidiMessage;
use crate::play_along::{MidiEventSource, PlayAlong, PlayAlongView};
use crate::song::{lemma_start_list_values, Song};
use crate::time::{
    lemma_span_of_view, saturating_difference, Duration, MAX_NANOS, NANOS_PER_MILLI, NANOS_PER_SEC,
};
use crate::times::{ascending, lemma_permuted_tables, table_values};
use crate::wire::{low_four_bits, low_seven_bits};
use vstd::prelude::*;

pub mod frame;
pub mod frame_laws;
pub mod laws;
pub mod sync;
pub mod sync_laws;
pub mod terms;

verus! {

broadcast use lemma_span_of_view;

/// The lead-in of a player that is made without one, in seconds.
pub const LEAD_IN_SECS: u64 = 3;

/// A reading of the playback engine.
#[derive(Clone, Copy, Debug, PartialEq, Eq, Structural)]
pub struct PlaybackState {
    /// How far playback has come, counted from the start of the lead-in.
    pub time: Duration,
    /// How long playback takes.
    pub length: Duration,
    /// Playback stands still.
    pub paused: bool,
    /// Playback is over.
    pub finished: bool,
}

/// Something to be done for the player.
#[derive(Clone, Copy, Debug, PartialEq, Eq, Structural)]
pub enum Effect {
    /// Silence the output.
    StopAll,
    /// Send a message to the output.
    Midi { channel: u8, message: MidiMessage },
    /// Move the playback engine to a time.
    SetTime(Duration),
    /// Advance the playback engine by nothing, and drop the events that come of it.
    Settle,
    /// Pause the playback engine.
    Pause,
    /// Let the playback engine go on.
    Resume,
    /// Read the clock, look up the programs for that time, and send them out with
    /// [`MidiPlayer::send_midi_programs_for_timestamp`].
    SendPrograms,
    /// Read the clock, look up the programs for that time, and call
    /// [`MidiPlayer::sync_state_at_current_time`].
    Sync,
    /// Run a frame of this length with [`MidiPlayer::update`].
    Update(Duration),
}

/// What a [`MidiPlayer`] is made of.
#[verifier::ext_equal]
pub struct PlayerView {
    /// The latest reading of the playback engine.
    pub playback: PlaybackState,
    /// The song.
    pub song: Song,
    /// What is required of the user.
    pub play_along: PlayAlongView,
    /// Whether each track color has an output channel of its own.
    pub separate_channels: bool,
    /// How long playback runs before the song starts.
    pub leed_in: nat,
    /// The starts of the user's notes in nanoseconds.
    pub human_note_starts: Seq<u128>,
    /// The same, counted from the start of the lead-in.
    pub human_note_targets: Seq<u128>,
}

impl PlayerView {
    /// Every track of the song has its settings; the start of every note of the user can be
    /// counted from the start of the lead-in; nothing is asked of the user that the instrument
    /// cannot play; and the tables are those of the song.
    pub open spec fn wf(self) -> bool {
        &&& self.song.wf()
        &&& self.song.targets_fit(self.leed_in)
        &&& self.play_along.wf()
        &&& self.song.is_start_table(self.human_note_starts)
        &&& shifted(self.human_note_starts, self.leed_in, self.human_note_targets)
    }

    /// The output channel of a note or an event: one of the sixteen.
    pub open spec fn output_channel(self, track_color_id: usize, channel: u8) -> u8 {
        if self.separate_channels {
            ((track_color_id % 256) as u8) % 16
        } else {
            channel % 16
        }
    }

    /// How far the song has come; nothing as long as the lead-in lasts.
    pub open spec fn song_time(self) -> nat {
        saturating_difference(self.playback.time@, self.leed_in)
    }

    /// Nothing is required any more.
    pub open spec fn cleared(self) -> PlayerView {
        PlayerView { play_along: self.play_along.cleared(), ..self }
    }
}

/// `targets` holds the values of `starts`, each moved by `leed_in`, at the same places.
pub open spec fn shifted(starts: Seq<u128>, leed_in: nat, targets: Seq<u128>) -> bool {
    &&& targets.len() == starts.len()
    &&& forall|n: int| 0 <= n < starts.len() ==> #[trigger] targets[n] == starts[n] + leed_in
}

/// The program changes that set each channel to its program.
pub open spec fn program_effects(programs: Seq<(u8, u8)>) -> Seq<Effect> {
    programs.map_values(
        |entry: (u8, u8)|
            Effect::Midi {
                channel: entry.0 % 16,
                message: MidiMessage::ProgramChange { program: entry.1 % 128 },
            },
    )
}

/// What moves the playback engine to `time` without a sound.
pub open spec fn silent_move(time: Duration) -> Seq<Effect> {
    seq![Effect::SetTime(time), Effect::Settle]
}

/// `time` moved by `delta` milliseconds, kept between zero and the longest span.
pub open spec fn rewound(time: nat, delta: i64) -> nat {
    if delta < 0 {
        saturating_difference(time, (-delta * NANOS_PER_MILLI) as nat)
    } else if time + delta * NANOS_PER_MILLI <= MAX_NANOS {
        (time + delta * NANOS_PER_MILLI) as nat
    } else {
        MAX_NANOS as nat
    }
}

/// `to` lies as many milliseconds after `from` as `delta` tells, before it where `delta` is
/// negative; or at the end of what can be counted, where that does not lie within it.
pub open spec fn moved_by(from: nat, delta: i64, to: nat) -> bool {
    ||| to == from + delta * 1_000_000
    ||| to == 0 && from + delta * 1_000_000 < 0
    ||| to == MAX_NANOS && from + delta * 1_000_000 > MAX_NANOS
}

/// Plays a song together with the user.
#[derive(Debug)]
pub struct MidiPlayer {
    playback: PlaybackState,
    song: Song,
    play_along: PlayAlong,
    separate_channels: bool,
    leed_in: Duration,
    /// The starts of the user's notes in nanoseconds, ascending: collected once, so that no
    /// frame has to go through the whole song.
    human_note_starts: Vec<u128>,
    /// The same, counted from the start of the lead-in.
    human_note_targets: Vec<u128>,
}

impl View for MidiPlayer {
    type V = PlayerView;

    closed spec fn view(&self) -> PlayerView {
        PlayerView {
            playback: self.playback,
            song: self.song,
            play_along: self.play_along@,
            separate_channels: self.separate_channels,
            leed_in: self.leed_in@,
            human_note_starts: self.human_note_starts@,
            human_note_targets: self.human_note_targets@,
        }
    }
}

impl MidiPlayer {
    /// The player is in a state that it can be in.
    pub open spec fn wf(self) -> bool {
        self@.wf()
    }

    /// A player with a lead-in of [`LEAD_IN_SECS`] seconds. `playback` is a reading of an engine
    /// with that lead-in.
    pub fn new(
        song: Song,
        user_keyboard_range: KeyboardRange,
        separate_channels: bool,
        playback: PlaybackState,
    ) -> (made: (MidiPlayer, Vec<Effect>))
        requires
            song.wf(),
            song.targets_fit((LEAD_IN_SECS * NANOS_PER_SEC) as nat),
        ensures
            made.0.wf(),
            made.0@ == (PlayerView {
                playback,
                song,
                play_along: PlayAlongView { range: user_keyboard_range@, required: Set::empty() },
                separate_channels,
                leed_in: (LEAD_IN_SECS * NANOS_PER_SEC) as nat,
                human_note_starts: made.0@.human_note_starts,
                human_note_targets: made.0@.human_note_targets,
            }),
            song.is_start_table(made.0@.human_note_starts),
            shifted(
                made.0@.human_note_starts,
                (LEAD_IN_SECS * NANOS_PER_SEC) as nat,
                made.0@.human_note_targets,
            ),
            made.1@ == seq![Effect::SendPrograms, Effect::Update(Duration::of(0))],
    {
        Self::new_with_lead_in(
            song,
            user_keyboard_range,
            separate_channels,
            Duration::from_secs(LEAD_IN_SECS),
            playback,
        )
    }

    /// A player whose song starts after `lead_in`. `playback` is a reading of an engine with
    /// that lead-in. The effects reset the programs, which clears what earlier songs left over,
    /// and play what is due at once.
    pub fn new_with_lead_in(
        song: Song,
        user_keyboard_range: KeyboardRange,
        separate_channels: bool,
        lead_in: Duration,
        playback: PlaybackState,
    ) -> (made: (MidiPlayer, Vec<Effect>))
        requires
            song.wf(),
            song.targets_fit(lead_in@),
        ensures
            made.0.wf(),
            made.0@ == (PlayerView {
                playback,
                song,
                play_along: PlayAlongView { range: user_keyboard_range@, required: Set::empty() },
                separate_channels,
                leed_in: lead_in@,
                human_note_starts: made.0@.human_note_starts,
                human_note_targets: made.0@.human_note_targets,
            }),
            song.is_start_table(made.0@.human_note_starts),
            shifted(
                made.0@.human_note_starts,
                lead_in@,
                made.0@.human_note_targets,
            ),
            made.1@ == seq![Effect::SendPrograms, Effect::Update(Duration::of(0))],
    {
        let human_note_starts = song.human_note_starts();
        let ghost starts = human_note_starts@;
        proof {
            lemma_start_table(song, starts, lead_in@);
        }
        let lead: u128 = lead_in.as_nanos();
        let mut human_note_targets: Vec<u128> = Vec::new();
        let mut k: usize = 0;
        while k < human_note_starts.len()
            invariant
                human_note_starts@ == starts,
                lead == lead_in@,
                k <= starts.len(),
                human_note_targets@.len() == k,
                forall|n: int| 0 <= n < starts.len() ==> #[trigger] starts[n] + lead <= MAX_NANOS,
                forall|n: int| 0 <= n < k ==> #[trigger] human_note_targets@[n] == starts[n] + lead,
            decreases starts.len() - k,
        {
            human_note_targets.push(human_note_starts[k] + lead);
            k = k + 1;
        }
        let player = MidiPlayer {
            playback,
            song,
            play_along: PlayAlong::new(user_keyboard_range),
            separate_channels,
            leed_in: lead_in,
            human_note_starts,
            human_note_targets,
        };
        let mut effects: Vec<Effect> = Vec::new();
        effects.push(Effect::SendPrograms);
        effects.push(Effect::Update(Duration::zero()));
        proof {
            assert(effects@ =~= seq![Effect::SendPrograms, Effect::Update(Duration::of(0))]);
        }
        (player, effects)
    }

    /// The song.
    pub fn song(&self) -> (song: &Song)
        ensures
            *song == self@.song,
    {
        &self.song
    }

    /// Takes over a reading of the playback engine.
    pub fn observe(&mut self, playback: PlaybackState)
        requires
            old(self).wf(),
        ensures
            final(self).wf(),
            final(self)@ == (PlayerView { playback, ..old(self)@ }),
    {
        self.playback = playback;
    }

    /// Silences the output and requires nothing of the user any more.
    pub fn clear(&mut self) -> (effects: Vec<Effect>)
        requires
            old(self).wf(),
        ensures
            final(self).wf(),
            final(self)@ == old(self)@.cleared(),
            effects@ == seq![Effect::StopAll],
    {
        self.play_along.clear();
        let mut effects: Vec<Effect> = Vec::new();
        effects.push(Effect::StopAll);
        effects
    }

    /// Pauses playback, or lets it go on if it is paused.
    pub fn pause_resume(&mut self) -> (effects: Vec<Effect>)
        requires
            old(self).wf(),
        ensures
            final(self).wf(),
            final(self)@ == old(self)@.cleared(),
            effects@ == if old(self)@.playback.paused {
                seq![Effect::Resume]
            } else {
                seq![Effect::StopAll, Effect::Pause]
            },
    {
        if self.playback.paused {
            self.resume()
        } else {
            self.pause()
        }
    }

    /// Silences the output, requires nothing of the user any more, and pauses playback.
    pub fn pause(&mut self) -> (effects: Vec<Effect>)
        requires
            old(self).wf(),
        ensures
            final(self).wf(),
            final(self)@ == old(self)@.cleared(),
            effects@ == seq![Effect::StopAll, Effect::Pause],
    {
        let mut effects = self.clear();
        effects.push(Effect::Pause);
        effects
    }

    /// Lets playback go on, and requires nothing of the user any more.
    pub fn resume(&mut self) -> (effects: Vec<Effect>)
        requires
            old(self).wf(),
        ensures
            final(self).wf(),
            final(self)@ == old(self)@.cleared(),
            effects@ == seq![Effect::Resume],
    {
        self.play_along.clear();
        let mut effects: Vec<Effect> = Vec::new();
        effects.push(Effect::Resume);
        effects
    }

    /// Sends each channel the program that it has at the time that `programs` were looked up
    /// for: pairs of a channel and its program.
    pub fn send_midi_programs_for_timestamp(&self, programs: &Vec<(u8, u8)>) -> (effects: Vec<
        Effect,
    >)
        ensures
            effects@ == program_effects(programs@),
    {
        let mut effects: Vec<Effect> = Vec::new();
        let mut k: usize = 0;
        while k < programs.len()
            invariant
                k <= programs@.len(),
                effects@ =~= program_effects(programs@.take(k as int)),
            decreases programs@.len() - k,
        {
            let (channel, program) = programs[k];
            effects.push(
                Effect::Midi {
                    channel: low_four_bits(channel),
                    message: MidiMessage::ProgramChange { program: low_seven_bits(program) },
                },
            );
            k = k + 1;
        }
        proof {
            assert(programs@.take(k as int) =~= programs@);
        }
        effects
    }

    /// Moves playback to `time` without a sound.
    pub fn set_time_silent(&self, time: Duration) -> (effects: Vec<Effect>)
        ensures
            effects@ == silent_move(time),
    {
        let mut effects: Vec<Effect> = Vec::new();
        effects.push(Effect::SetTime(time));
        effects.push(Effect::Settle);
        proof {
            assert(effects@ =~= silent_move(time));
        }
        effects
    }

    /// Moves playback by `delta` milliseconds without a sound, no further back than to its
    /// start.
    pub fn rewind_silent(&self, delta: i64) -> (effects: Vec<Effect>)
        requires
            delta > i64::MIN,
        ensures
            effects@ == silent_move(Duration::of(rewound(self@.playback.time@, delta))),
            effects@[0] matches Effect::SetTime(time) && moved_by(
                self@.playback.time@,
                delta,
                time@,
            ),
    {
        let time = self.playback.time;
        let moved = if delta < 0 {
            time.saturating_sub(Duration::from_millis((-delta) as u64))
        } else {
            time.saturating_add(Duration::from_millis(delta as u64))
        };
        self.set_time_silent(moved)
    }

    /// Moves playback to `time` and sounds what is to be heard there.
    pub fn set_time(&self, time: Duration) -> (effects: Vec<Effect>)
        ensures
            effects@ == silent_move(time).push(Effect::Sync),
    {
        let mut effects = self.set_time_silent(time);
        effects.push(Effect::Sync);
        effects
    }

    /// Moves playback by `delta` milliseconds and sounds what is to be heard there.
    pub fn rewind(&self, delta: i64) -> (effects: Vec<Effect>)
        requires
            delta > i64::MIN,
        ensures
            effects@ == silent_move(Duration::of(rewound(self@.playback.time@, delta))).push(
                Effect::Sync,
            ),
            effects@[0] matches Effect::SetTime(time) && moved_by(
                self@.playback.time@,
                delta,
                time@,
            ),
    {
        let mut effects = self.rewind_silent(delta);
        effects.push(Effect::Sync);
        effects
    }

    /// How long playback runs before the song starts.
    pub fn leed_in(&self) -> (leed_in: &Duration)
        ensures
            leed_in@ == self@.leed_in,
    {
        &self.leed_in
    }

    /// How long playback takes.
    pub fn length(&self) -> (length: Duration)
        ensures
            length == self@.playback.length,
    {
        self.playback.length
    }

    /// Tells whether playback is over.
    pub fn is_finished(&self) -> (finished: bool)
        ensures
            finished == self@.playback.finished,
    {
        self.playback.finished
    }

    /// How far playback has come, counted from the start of the lead-in.
    pub fn time(&self) -> (time: Duration)
        ensures
            time == self@.playback.time,
    {
        self.playback.time
    }

    /// Tells whether playback stands still.
    pub fn is_paused(&self) -> (paused: bool)
        ensures
            paused == self@.playback.paused,
    {
        self.playback.paused
    }

    /// What is required of the user.
    pub fn play_along(&self) -> (play_along: &PlayAlong)
        ensures
            play_along@ == self@.play_along,
    {
        &self.play_along
    }

    /// Takes in what the user plays. A key that was required has its guide light switched off.
    pub fn user_midi_event(&mut self, _channel: u8, message: &MidiMessage) -> (effects: Vec<Effect>)
        requires
            old(self).wf(),
        ensures
            final(self).wf(),
            ({
                let (play_along, satisfied) = old(self)@.play_along.receive(
                    MidiEventSource::User,
                    *message,
                );
                &&& final(self)@ == (PlayerView { play_along, ..old(self)@ })
                &&& effects@ == if satisfied {
                    seq![
                        Effect::Midi {
                            channel: 0,
                            message: MidiMessage::NoteOff { key: message.onset()->0, vel: 0 },
                        },
                    ]
                } else {
                    Seq::empty()
                }
            }),
            effects@.len() <= 1,
            effects@.len() == 1 <==> (message matches MidiMessage::NoteOn { key, vel } && *vel != 0
                && old(self)@.play_along.required.contains(*key)),
            message matches MidiMessage::NoteOn { key, .. } ==> {
                effects@.len() == 1 ==> effects@[0] == (Effect::Midi {
                    channel: 0,
                    message: MidiMessage::NoteOff { key: *key, vel: 0 },
                })
            },
    {
        let mut effects: Vec<Effect> = Vec::new();
        match message {
            MidiMessage::NoteOn { key, vel } => {
                let satisfied = self.play_along.midi_event(MidiEventSource::User, message);
                if *vel > 0 && satisfied {
                    effects.push(
                        Effect::Midi {
                            channel: low_four_bits(0),
                            message: MidiMessage::NoteOff { key: *key, vel: 0 },
                        },
                    );
                }
            },
            MidiMessage::NoteOff { .. } => {
                self.play_along.midi_event(MidiEventSource::User, message);
            },
            _ => {},
        }
        effects
    }

    /// The output channel of a note or an event.
    fn exec_output_channel(&self, track_color_id: usize, channel: u8) -> (output: u8)
        ensures
            output == self@.output_channel(track_color_id, channel),
    {
        if self.separate_channels {
            low_four_bits((track_color_id % 256) as u8)
        } else {
            low_four_bits(channel)
        }
    }
}

/// A table of the user's starts holds the times at which a note of the user starts, each of
/// which can be counted from the start of the lead-in.
proof fn lemma_start_table(song: Song, starts: Seq<u128>, leed_in: nat)
    requires
        song.is_start_table(starts),
        song.targets_fit(leed_in),
    ensures
        table_values(starts) == song.human_starts(),
        forall|k: int| 0 <= k < starts.len() ==> #[trigger] starts[k] + leed_in <= MAX_NANOS,
{
    lemma_permuted_tables(starts, song.human_start_list());
    lemma_start_list_values(song);
    assert forall|k: int| 0 <= k < starts.len() implies #[trigger] starts[k] + leed_in
        <= MAX_NANOS by {
        assert(table_values(starts).contains(starts[k] as nat));
        let (i, j) = choose|i: int, j: int| #[trigger]
            song.human_note(i, j) && song.note(i, j).start@ + 0 == starts[k] as nat;
        assert(song.human_note(i, j));
    }
}

/// The tables of a player ascend, and hold the times at which a note of the user starts.
pub(crate) proof fn lemma_tables(player: PlayerView)
    requires
        player.wf(),
    ensures
        table_values(player.human_note_starts) == player.song.human_starts(),
        forall|k: int|
            0 <= k < player.human_note_starts.len() ==> #[trigger] player.human_note_starts[k]
                + player.leed_in <= MAX_NANOS,
        ascending(player.human_note_targets),
        table_values(player.human_note_targets) == player.song.human_times(player.leed_in),
{
    let song = player.song;
    let starts = player.human_note_starts;
    let targets = player.human_note_targets;
    let leed_in = player.leed_in;
    lemma_start_table(song, starts, leed_in);
    assert forall|i: int, j: int| 0 <= i <= j < targets.len() implies targets[i] <= targets[j] by {
        assert(targets[i] == starts[i] + leed_in && targets[j] == starts[j] + leed_in);
    }
    assert forall|t: nat| table_values(targets).contains(t) implies song.human_times(
        leed_in,
    ).contains(t) by {
        let k = choose|k: int| 0 <= k < targets.len() && targets[k] == t;
        assert(targets[k] == starts[k] + leed_in);
        assert(table_values(starts).contains(starts[k] as nat));
        let (i, j) = choose|i: int, j: int| #[trigger]
            song.human_note(i, j) && song.note(i, j).start@ + 0 == starts[k] as nat;
        assert(song.human_note(i, j) && song.note(i, j).start@ + leed_in == t);
    }
    assert forall|t: nat| song.human_times(leed_in).contains(t) implies table_values(
        targets,
    ).contains(t) by {
        let (i, j) = choose|i: int, j: int| #[trigger]
            song.human_note(i, j) && song.note(i, j).start@ + leed_in == t;
        let start = song.note(i, j).start@;
        assert(song.human_note(i, j) && song.note(i, j).start@ + 0 == start);
        assert(song.human_starts().contains(start));
        let k = choose|k: int| 0 <= k < starts.len() && starts[k] == start;
        assert(targets[k] == t);
    }
    assert(table_values(targets) =~= song.human_times(leed_in));
}

} // verus!
