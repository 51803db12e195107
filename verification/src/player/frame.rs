//! One frame of playback.
//!
//! A frame advances the playback engine once or more. [`MidiPlayer::update`] opens it and says
//! how far to advance; [`MidiPlayer::continue_update`] takes in what the engine played and says
//! how far to advance next, or that the frame is over and what it sends out.

use super::{lemma_tables, Effect, MidiPlayer, PlaybackState, PlayerView};
use crate::keyboard::{exec_guide_velocity, guide_velocity, NoteId};
use crate::midi::MidiMessage;
use crate::play_along::{MidiEventSource, PlayAlongView};
use crate::song::{MidiEvent, PlayerConfig, Song};
use crate::time::{Duration, MAX_NANOS, NANOS_PER_MILLI};
use crate::times::{
    first_after, is_least, later_than, least, lemma_least_exists, lemma_least_is,
};
use std::collections::HashSet;
use vstd::prelude::*;

verus! {

broadcast use vstd::std_specs::hash::group_hash_axioms;

/// How far apart the notes of one chord may start, in milliseconds. Chords in recordings of
/// people rarely start at one instant.
pub const CHORD_CLUSTER_WINDOW_MILLIS: u64 = 20;

/// The length of the chord window in nanoseconds.
pub open spec fn chord_window() -> nat {
    (CHORD_CLUSTER_WINDOW_MILLIS * NANOS_PER_MILLI) as nat
}

/// A chord that is being gathered.
#[verifier::ext_equal]
pub struct ChordView {
    /// The last time in the song at which a note of the chord may start.
    pub deadline: nat,
    /// The keys that were struck for the user in this frame.
    pub keys: Set<NoteId>,
}

/// A frame that waits for the playback engine to be advanced.
#[verifier::ext_equal]
pub struct FrameView {
    /// How far to advance the engine.
    pub advance: nat,
    /// What was played in this frame so far.
    pub events: Seq<MidiEvent>,
    /// The chord that is being gathered; none before the first advance.
    pub chord: Option<ChordView>,
}

/// What comes after an advance.
#[verifier::ext_equal]
pub enum StepView {
    /// The engine has to be advanced once more.
    Advance(FrameView),
    /// The frame is over.
    Finished { events: Seq<MidiEvent>, effects: Seq<Effect> },
}

/// `event` strikes a key that is for the user to play.
pub open spec fn human_onset(song: Song, event: MidiEvent) -> bool {
    event.message.onset() is Some && song.player(event.track_id) == PlayerConfig::Human
}

/// The keys that `events` strike on tracks of the user. What the player strikes by itself is
/// not required of the user, and so not among them.
pub open spec fn struck_keys(song: Song, events: Seq<MidiEvent>) -> Set<NoteId> {
    Set::new(
        |key: NoteId|
            exists|k: int|
                0 <= k < events.len() && human_onset(song, #[trigger] events[k])
                    && events[k].message.onset() == Some(key),
    )
}

/// The times of those of `events` that strike a key that is for the user to play.
pub open spec fn onset_times(song: Song, events: Seq<MidiEvent>) -> Set<nat> {
    Set::new(
        |t: nat|
            exists|k: int|
                0 <= k < events.len() && human_onset(song, #[trigger] events[k])
                    && events[k].timestamp@ == t,
    )
}

impl FrameView {
    /// A chord of `song` that is being gathered knows the keys that were struck for the user;
    /// before there is one, nothing was played.
    pub open spec fn wf(self, song: Song) -> bool {
        match self.chord {
            Some(chord) => chord.keys == struck_keys(song, self.events),
            None => self.events.len() == 0,
        }
    }
}

impl PlayerView {
    /// How far a frame of length `delta` advances the engine at first: not beyond the next start
    /// of a note of the user.
    pub open spec fn clamped(self, delta: nat) -> nat {
        match least(later_than(self.song.human_times(self.leed_in), self.playback.time@)) {
            Some(target) if target - self.playback.time@ < delta => (target
                - self.playback.time@) as nat,
            _ => delta,
        }
    }

    /// The chord that `events` open, if one of them strikes a key for the user: it lasts for
    /// the chord window from the first such event.
    pub open spec fn opened_chord(self, events: Seq<MidiEvent>) -> Option<ChordView> {
        match least(onset_times(self.song, events)) {
            Some(anchor) => Some(
                ChordView { deadline: anchor + chord_window(), keys: struck_keys(self.song, events) },
            ),
            None => None,
        }
    }

    /// The end of the chord that `events` open is a time that can be counted.
    pub open spec fn chord_fits(self, events: Seq<MidiEvent>) -> bool {
        self.opened_chord(events) matches Some(chord) ==> chord.deadline <= MAX_NANOS
    }

    /// How far to advance the engine so that it plays the next notes of the chord: to the next
    /// start of a note of the user, if it lies within the chord window and no note that starts
    /// there repeats a key of the chord. A repeated key is a second strike, not a part of it.
    pub open spec fn pull(self, chord: ChordView) -> Option<nat> {
        match least(later_than(self.song.human_starts(), self.song_time())) {
            Some(start) if start <= chord.deadline && !self.song.repeats_key(
                start,
                chord.keys,
            ) => Some((start + self.leed_in - self.playback.time@) as nat),
            _ => None,
        }
    }

    /// The chord to go on gathering after the engine has played `events`, if any.
    pub open spec fn gathered(self, frame: FrameView, events: Seq<MidiEvent>) -> Option<ChordView> {
        match frame.chord {
            None => self.opened_chord(events),
            Some(chord) => if events.len() == 0 {
                None
            } else {
                Some(
                    ChordView {
                        deadline: chord.deadline,
                        keys: chord.keys.union(struck_keys(self.song, events)),
                    },
                )
            },
        }
    }

    /// What `event` sends out. The player's own tracks sound as they are, a muted track does
    /// not. On a track of the user a key that is struck lights its guide, in the color of the
    /// key, if the user has that key; a key that is let go, by a note that stops or one that
    /// starts at velocity zero, leaves its guide on until the user strikes it; everything else
    /// sounds as it is.
    pub open spec fn event_effects(self, event: MidiEvent) -> Seq<Effect> {
        let channel = self.output_channel(event.track_color_id, event.channel);
        match self.song.player(event.track_id) {
            PlayerConfig::Mute => Seq::empty(),
            PlayerConfig::Auto => seq![Effect::Midi { channel, message: event.message }],
            PlayerConfig::Human => match event.message {
                MidiMessage::NoteOn { key, vel } if vel > 0 => if self.play_along.range.contains(
                    key,
                ) {
                    seq![
                        Effect::Midi {
                            channel,
                            message: MidiMessage::NoteOn { key, vel: guide_velocity(key) },
                        },
                    ]
                } else {
                    Seq::empty()
                },
                MidiMessage::NoteOn { .. } => Seq::empty(),
                MidiMessage::NoteOff { .. } => Seq::empty(),
                _ => seq![Effect::Midi { channel, message: event.message }],
            },
        }
    }

    /// What `events` send out, in order.
    pub open spec fn dispatched_effects(self, events: Seq<MidiEvent>) -> Seq<Effect>
        decreases events.len(),
    {
        if events.len() == 0 {
            Seq::empty()
        } else {
            self.dispatched_effects(events.drop_last()) + self.event_effects(events.last())
        }
    }

    /// What `events` require of the user: the keys struck on the user's tracks that the user
    /// has.
    pub open spec fn demanded(self, events: Seq<MidiEvent>) -> Set<NoteId> {
        Set::new(
            |key: NoteId|
                self.play_along.range.contains(key) && exists|k: int|
                    0 <= k < events.len() && human_onset(self.song, #[trigger] events[k])
                        && events[k].message.onset() == Some(key),
        )
    }

    /// The player after `events` were sent out.
    pub open spec fn dispatched(self, events: Seq<MidiEvent>) -> PlayerView {
        PlayerView {
            play_along: PlayAlongView {
                range: self.play_along.range,
                required: self.play_along.required.union(self.demanded(events)),
            },
            ..self
        }
    }

    /// What comes after the engine was advanced for `frame` and played `events`, with its new
    /// reading in place.
    pub open spec fn after_advance(self, frame: FrameView, events: Seq<MidiEvent>) -> (
        PlayerView,
        StepView,
    ) {
        let played = frame.events + events;
        match self.gathered(frame, events) {
            Some(chord) if self.pull(chord) is Some => (
                self,
                StepView::Advance(
                    FrameView {
                        advance: self.pull(chord)->0,
                        events: played,
                        chord: Some(chord),
                    },
                ),
            ),
            _ => (
                self.dispatched(played),
                StepView::Finished { events: played, effects: self.dispatched_effects(played) },
            ),
        }
    }
}

/// A chord that is being gathered.
#[derive(Debug)]
struct Chord {
    deadline: Duration,
    keys: HashSet<NoteId>,
}

impl View for Chord {
    type V = ChordView;

    closed spec fn view(&self) -> ChordView {
        ChordView { deadline: self.deadline@, keys: self.keys@ }
    }
}

/// A frame that waits for the playback engine to be advanced.
#[derive(Debug)]
pub struct Frame {
    advance: Duration,
    events: Vec<MidiEvent>,
    chord: Option<Chord>,
}

impl View for Frame {
    type V = FrameView;

    closed spec fn view(&self) -> FrameView {
        FrameView {
            advance: self.advance@,
            events: self.events@,
            chord: match self.chord {
                Some(chord) => Some(chord@),
                None => None,
            },
        }
    }
}

impl Frame {
    /// How far to advance the playback engine.
    pub fn advance(&self) -> (advance: Duration)
        ensures
            advance@ == self@.advance,
    {
        self.advance
    }
}

/// What comes after an advance.
#[derive(Debug)]
pub enum Step {
    /// The engine has to be advanced once more.
    Advance(Frame),
    /// The frame is over: what was played in it, and what is to be sent out.
    Finished { events: Vec<MidiEvent>, effects: Vec<Effect> },
}

impl View for Step {
    type V = StepView;

    open spec fn view(&self) -> StepView {
        match *self {
            Step::Advance(frame) => StepView::Advance(frame@),
            Step::Finished { events, effects } => StepView::Finished {
                events: events@,
                effects: effects@,
            },
        }
    }
}

/// The key that a message strikes, if it does.
fn exec_onset(message: &MidiMessage) -> (key: Option<NoteId>)
    ensures
        key == message.onset(),
{
    match message {
        MidiMessage::NoteOn { key, vel } if *vel > 0 => Some(*key),
        _ => None,
    }
}

/// Adds the keys that `events` strike on tracks of the user.
fn add_struck_keys(song: &Song, keys: &mut HashSet<NoteId>, events: &Vec<MidiEvent>)
    requires
        song.configures(events@),
    ensures
        final(keys)@ == old(keys)@.union(struck_keys(*song, events@)),
{
    let ghost before = keys@;
    let mut k: usize = 0;
    while k < events.len()
        invariant
            song.configures(events@),
            k <= events@.len(),
            keys@ =~= before.union(struck_keys(*song, events@.take(k as int))),
        decreases events@.len() - k,
    {
        let event = events[k];
        let ghost earlier = events@.take(k as int);
        proof {
            let now = events@.take(k + 1);
            assert(now =~= earlier + seq![event]);
            lemma_struck_keys_add(*song, earlier, seq![event]);
            assert(seq![event][0] == event);
        }
        if let Some(key) = exec_onset(&event.message) {
            if song.exec_player(event.track_id) == PlayerConfig::Human {
                keys.insert(key);
                proof {
                    assert(human_onset(*song, seq![event][0]));
                }
            }
        }
        k = k + 1;
    }
    proof {
        assert(events@.take(k as int) =~= events@);
    }
}

impl MidiPlayer {
    /// Opens a frame of length `delta`. Playback stops exactly at the next start of a note of
    /// the user, so that no frame leaps over notes that follow each other fast.
    pub fn update(&self, delta: Duration) -> (frame: Frame)
        requires
            self.wf(),
        ensures
            frame@ == (FrameView {
                advance: self@.clamped(delta@),
                events: Seq::empty(),
                chord: None,
            }),
            frame@.wf(self@.song),
            self@.song.configures(frame@.events),
    {
        proof {
            lemma_tables(self@);
        }
        let running: u128 = self.playback.time.as_nanos();
        let advance = match first_after(&self.human_note_targets, running) {
            Some(target) => {
                proof {
                    let ghost targets = later_than(
                        self.song.human_times(self.leed_in@),
                        running as nat,
                    );
                    lemma_least_exists(targets);
                }
                if target - running < delta.as_nanos() {
                    Duration::from_nanos(target - running)
                } else {
                    delta
                }
            },
            None => delta,
        };
        Frame { advance, events: Vec::new(), chord: None }
    }

    /// Goes on with a frame after the playback engine was advanced by [`Frame::advance`].
    /// `playback` is the reading of the engine after that, `events` is what it played.
    pub fn continue_update(
        &mut self,
        frame: Frame,
        playback: PlaybackState,
        events: Vec<MidiEvent>,
    ) -> (step: Step)
        requires
            old(self).wf(),
            old(self)@.song.configures(frame@.events),
            old(self)@.song.configures(events@),
            frame@.chord is None ==> old(self)@.chord_fits(events@),
        ensures
            final(self).wf(),
            ({
                let observed = PlayerView { playback, ..old(self)@ };
                (final(self)@, step@) == observed.after_advance(frame@, events@)
            }),
            step matches Step::Advance(next) ==> final(self)@.song.configures(next@.events) && (
            frame@.wf(old(self)@.song) ==> next@.wf(final(self)@.song)),
    {
        self.observe(playback);
        let ghost observed = self@;
        let ghost waiting = frame@;
        let ghost reply = events@;
        let mut played = frame.events;
        let chord = match frame.chord {
            None => self.open_chord(&events),
            Some(chord) => {
                let mut chord = chord;
                if events.len() == 0 {
                    None
                } else {
                    add_struck_keys(&self.song, &mut chord.keys, &events);
                    Some(chord)
                }
            },
        };
        let mut events = events;
        played.append(&mut events);
        proof {
            assert(played@ =~= waiting.events + reply);
            lemma_struck_keys_add(observed.song, waiting.events, reply);
            assert(waiting.events.len() == 0 ==> waiting.events + reply =~= reply);
        }
        if let Some(chord) = chord {
            if let Some(advance) = self.pull_in_chord_siblings(&chord) {
                return Step::Advance(Frame { advance, events: played, chord: Some(chord) });
            }
        }
        let effects = self.dispatch(&played);
        Step::Finished { events: played, effects }
    }

    /// Opens a chord where `events` strike a key for the user.
    fn open_chord(&self, events: &Vec<MidiEvent>) -> (chord: Option<Chord>)
        requires
            self.wf(),
            self@.song.configures(events@),
            self@.chord_fits(events@),
        ensures
            chord is Some <==> self@.opened_chord(events@) is Some,
            chord matches Some(c) ==> Some(c@) == self@.opened_chord(events@),
    {
        let ghost song = self.song;
        let ghost times = onset_times(song, events@);
        let mut anchor: Option<Duration> = None;
        let mut k: usize = 0;
        while k < events.len()
            invariant
                self.wf(),
                song == self.song,
                self@.song.configures(events@),
                k <= events@.len(),
                anchor is None ==> forall|n: int|
                    0 <= n < k ==> !human_onset(song, #[trigger] events@[n]),
                anchor matches Some(a) ==> {
                    &&& exists|n: int|
                        0 <= n < k && human_onset(song, #[trigger] events@[n])
                            && events@[n].timestamp@ == a@
                    &&& forall|n: int|
                        0 <= n < k && human_onset(song, #[trigger] events@[n]) ==> a@
                            <= events@[n].timestamp@
                },
            decreases events@.len() - k,
        {
            let event = events[k];
            if exec_onset(&event.message).is_some() && self.song.exec_player(event.track_id)
                == PlayerConfig::Human {
                let earlier = match anchor {
                    Some(a) => a.as_nanos() <= event.timestamp.as_nanos(),
                    None => false,
                };
                if !earlier {
                    anchor = Some(event.timestamp);
                    proof {
                        assert(human_onset(song, events@[k as int]));
                    }
                }
            }
            k = k + 1;
        }
        match anchor {
            Some(a) => {
                proof {
                    assert(is_least(times, a@));
                    lemma_least_is(times, a@);
                }
                let mut keys: HashSet<NoteId> = HashSet::new();
                add_struck_keys(&self.song, &mut keys, events);
                let window = Duration::from_millis(CHORD_CLUSTER_WINDOW_MILLIS);
                proof {
                    assert(keys@ =~= struck_keys(song, events@));
                }
                Some(Chord { deadline: a.plus(window), keys })
            },
            None => {
                proof {
                    lemma_least_exists(times);
                    assert(times =~= Set::empty());
                }
                None
            },
        }
    }

    /// How far to advance the playback engine to pull in the next notes of the chord, if there
    /// are any.
    ///
    /// The song stands still as soon as the first note of a chord is required. A note of the
    /// chord that starts a little later would then never get its turn, and the user would wait
    /// for it forever. So the chord is played, and required, as a whole.
    fn pull_in_chord_siblings(&self, chord: &Chord) -> (advance: Option<Duration>)
        requires
            self.wf(),
        ensures
            advance is Some <==> self@.pull(chord@) is Some,
            advance matches Some(a) ==> self@.pull(chord@) == Some(a@),
    {
        proof {
            lemma_tables(self@);
        }
        let running = self.playback.time;
        let search_from = running.saturating_sub(self.leed_in);
        match first_after(&self.human_note_starts, search_from.as_nanos()) {
            Some(start) => {
                proof {
                    lemma_least_exists(later_than(self.song.human_starts(), search_from@));
                }
                if start > chord.deadline.as_nanos() || self.song.exec_repeats_key(
                    start,
                    &chord.keys,
                ) {
                    return None;
                }
                let target: u128 = start + self.leed_in.as_nanos();
                Some(Duration::from_nanos(target - running.as_nanos()))
            },
            None => None,
        }
    }

    /// Sends `events` out and takes note of what they require of the user.
    fn dispatch(&mut self, events: &Vec<MidiEvent>) -> (effects: Vec<Effect>)
        requires
            old(self).wf(),
            old(self)@.song.configures(events@),
        ensures
            final(self).wf(),
            final(self)@ == old(self)@.dispatched(events@),
            effects@ == old(self)@.dispatched_effects(events@),
    {
        let ghost before = self@;
        let mut effects: Vec<Effect> = Vec::new();
        let mut k: usize = 0;
        proof {
            assert(before.dispatched(events@.take(0)) =~= before) by {
                assert(before.dispatched(events@.take(0)).play_along.required
                    =~= before.play_along.required);
            }
        }
        while k < events.len()
            invariant
                self.wf(),
                before.song.configures(events@),
                k <= events@.len(),
                self@ == before.dispatched(events@.take(k as int)),
                effects@ == before.dispatched_effects(events@.take(k as int)),
            decreases events@.len() - k,
        {
            let event = events[k];
            let ghost sent = effects@;
            let ghost required = self@.play_along.required;
            let channel: u8 = self.exec_output_channel(event.track_color_id, event.channel);
            match self.song.exec_player(event.track_id) {
                PlayerConfig::Auto => {
                    effects.push(Effect::Midi { channel, message: event.message });
                },
                PlayerConfig::Human => {
                    let needs_led = self.play_along.midi_event(
                        MidiEventSource::File,
                        &event.message,
                    );
                    match event.message {
                        MidiMessage::NoteOn { key, vel } if vel > 0 => {
                            if needs_led {
                                effects.push(
                                    Effect::Midi {
                                        channel,
                                        message: MidiMessage::NoteOn {
                                            key,
                                            vel: exec_guide_velocity(key),
                                        },
                                    },
                                );
                            }
                        },
                        MidiMessage::NoteOn { .. } => {},
                        MidiMessage::NoteOff { .. } => {},
                        other => {
                            effects.push(Effect::Midi { channel, message: other });
                        },
                    }
                },
                PlayerConfig::Mute => {},
            }
            proof {
                let earlier = events@.take(k as int);
                let now = events@.take(k + 1);
                assert(now.drop_last() =~= earlier);
                assert(now.last() == event);
                assert(effects@ =~= sent + before.event_effects(event));
                lemma_demanded_push(before, earlier, event);
                assert(now =~= earlier.push(event));
                assert(self@.play_along.required =~= before.dispatched(now).play_along.required);
                assert(self@ =~= before.dispatched(now));
            }
            k = k + 1;
        }
        proof {
            assert(events@.take(k as int) =~= events@);
        }
        effects
    }

    /// Tells whether [`MidiPlayer::continue_update`] can take in `events` as the first events of
    /// a frame: the end of the chord that they open is a time that can be counted.
    pub fn fits_chord(&self, events: &Vec<MidiEvent>) -> (fits: bool)
        requires
            self.wf(),
            self@.song.configures(events@),
        ensures
            fits == self@.chord_fits(events@),
    {
        let ghost song = self.song;
        let ghost times = onset_times(song, events@);
        let window = Duration::from_millis(CHORD_CLUSTER_WINDOW_MILLIS);
        let mut fits = false;
        let mut found = false;
        let mut k: usize = 0;
        while k < events.len()
            invariant
                self.wf(),
                song == self.song,
                self@.song.configures(events@),
                window@ == chord_window(),
                k <= events@.len(),
                found <==> exists|n: int| 0 <= n < k && human_onset(song, #[trigger] events@[n]),
                fits <==> exists|n: int|
                    0 <= n < k && human_onset(song, #[trigger] events@[n])
                        && events@[n].timestamp@ + chord_window() <= MAX_NANOS,
            decreases events@.len() - k,
        {
            let event = events[k];
            if exec_onset(&event.message).is_some() && self.song.exec_player(event.track_id)
                == PlayerConfig::Human {
                proof {
                    assert(human_onset(song, events@[k as int]));
                }
                found = true;
                if event.timestamp.checked_add(window).is_some() {
                    fits = true;
                }
            }
            k = k + 1;
        }
        proof {
            lemma_least_exists(times);
            if found {
                let n = choose|n: int| 0 <= n < k && human_onset(song, #[trigger] events@[n]);
                assert(times.contains(events@[n].timestamp@));
                let anchor = least(times)->0;
                assert(is_least(times, anchor));
                let m = choose|m: int|
                    0 <= m < events@.len() && human_onset(song, #[trigger] events@[m])
                        && events@[m].timestamp@ == anchor;
                if fits {
                    let f = choose|f: int|
                        0 <= f < k && human_onset(song, #[trigger] events@[f])
                            && events@[f].timestamp@ + chord_window() <= MAX_NANOS;
                    assert(times.contains(events@[f].timestamp@));
                }
            } else {
                assert(times =~= Set::empty());
            }
        }
        fits || !found
    }
}

/// The keys struck by two sequences of events are those struck by either.
pub(crate) proof fn lemma_struck_keys_add(
    song: Song,
    first: Seq<MidiEvent>,
    second: Seq<MidiEvent>,
)
    ensures
        struck_keys(song, first + second) == struck_keys(song, first).union(
            struck_keys(song, second),
        ),
{
    let both = first + second;
    let either = struck_keys(song, first).union(struck_keys(song, second));
    assert forall|key: NoteId| either.contains(key) implies struck_keys(song, both).contains(
        key,
    ) by {
        if struck_keys(song, first).contains(key) {
            let n = choose|n: int|
                0 <= n < first.len() && human_onset(song, #[trigger] first[n])
                    && first[n].message.onset() == Some(key);
            assert(both[n] == first[n]);
        } else {
            let n = choose|n: int|
                0 <= n < second.len() && human_onset(song, #[trigger] second[n])
                    && second[n].message.onset() == Some(key);
            assert(both[first.len() + n] == second[n]);
        }
    }
    assert forall|key: NoteId| struck_keys(song, both).contains(key) implies either.contains(
        key,
    ) by {
        let n = choose|n: int|
            0 <= n < both.len() && human_onset(song, #[trigger] both[n])
                && both[n].message.onset() == Some(key);
        if n < first.len() {
            assert(first[n] == both[n]);
        } else {
            assert(second[n - first.len()] == both[n]);
        }
    }
    assert(struck_keys(song, both) =~= either);
}

/// One more event requires the key that it strikes, if it is for the user, besides what was
/// required already.
proof fn lemma_demanded_push(player: PlayerView, events: Seq<MidiEvent>, event: MidiEvent)
    ensures
        player.demanded(events.push(event)) == if human_onset(player.song, event)
            && player.play_along.range.contains(event.message.onset()->0) {
            player.demanded(events).insert(event.message.onset()->0)
        } else {
            player.demanded(events)
        },
{
    let now = events.push(event);
    let added = if human_onset(player.song, event) && player.play_along.range.contains(
        event.message.onset()->0,
    ) {
        player.demanded(events).insert(event.message.onset()->0)
    } else {
        player.demanded(events)
    };
    assert forall|key: NoteId| player.demanded(now).contains(key) <==> added.contains(key) by {
        if player.demanded(now).contains(key) {
            let k = choose|k: int|
                0 <= k < now.len() && human_onset(player.song, #[trigger] now[k])
                    && now[k].message.onset() == Some(key);
            if k < events.len() {
                assert(events[k] == now[k]);
            }
        }
        if player.demanded(events).contains(key) {
            let k = choose|k: int|
                0 <= k < events.len() && human_onset(player.song, #[trigger] events[k])
                    && events[k].message.onset() == Some(key);
            assert(now[k] == events[k]);
        }
        assert(now[events.len() as int] == event);
    }
    assert(player.demanded(now) =~= added);
}

} // verus!
