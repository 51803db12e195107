//! The notes that the user has yet to play before the song goes on.

use crate::keyboard::{KeyboardRange, NoteId};
use crate::midi::MidiMessage;
use std::collections::HashSet;
use vstd::prelude::*;

verus! {

broadcast use vstd::std_specs::hash::group_hash_axioms;

/// Where a message comes from.
#[derive(Clone, Copy, Debug, PartialEq, Eq, Structural)]
pub enum MidiEventSource {
    /// The song.
    File,
    /// The instrument of the user.
    User,
}

/// What a [`PlayAlong`] is made of.
#[verifier::ext_equal]
pub struct PlayAlongView {
    /// The keys that the user can play.
    pub range: Set<NoteId>,
    /// The keys that the user has yet to strike.
    pub required: Set<NoteId>,
}

impl PlayAlongView {
    /// Nothing is asked of the user that the instrument cannot play.
    pub open spec fn wf(self) -> bool {
        self.required.subset_of(self.range)
    }

    /// A key goes down (`active`) or up. The song asks for a key by striking it, the user
    /// answers by striking it; nothing else changes what is required. Tells whether the key
    /// was asked for, or answered.
    pub open spec fn press(self, source: MidiEventSource, key: NoteId, active: bool) -> (
        PlayAlongView,
        bool,
    ) {
        if !active || !self.range.contains(key) {
            (self, false)
        } else {
            match source {
                MidiEventSource::File => (
                    PlayAlongView { range: self.range, required: self.required.insert(key) },
                    true,
                ),
                MidiEventSource::User => (
                    PlayAlongView { range: self.range, required: self.required.remove(key) },
                    self.required.contains(key),
                ),
            }
        }
    }

    /// A message arrives. Only a note that starts counts as a key that goes down.
    pub open spec fn receive(self, source: MidiEventSource, message: MidiMessage) -> (
        PlayAlongView,
        bool,
    ) {
        match message {
            MidiMessage::NoteOn { key, vel } => self.press(source, key, vel > 0),
            MidiMessage::NoteOff { key, .. } => self.press(source, key, false),
            _ => (self, false),
        }
    }

    /// Nothing is required any more.
    pub open spec fn cleared(self) -> PlayAlongView {
        PlayAlongView { range: self.range, required: Set::empty() }
    }
}

/// Keeps the notes that the song has reached and the user has not played yet.
#[derive(Debug)]
pub struct PlayAlong {
    user_keyboard_range: KeyboardRange,
    required_notes: HashSet<NoteId>,
}

impl View for PlayAlong {
    type V = PlayAlongView;

    closed spec fn view(&self) -> PlayAlongView {
        PlayAlongView { range: self.user_keyboard_range@, required: self.required_notes@ }
    }
}

impl PlayAlong {
    /// Nothing is required yet.
    pub fn new(user_keyboard_range: KeyboardRange) -> (play_along: PlayAlong)
        ensures
            play_along@ == (PlayAlongView { range: user_keyboard_range@, required: Set::empty() }),
    {
        PlayAlong { user_keyboard_range, required_notes: HashSet::new() }
    }

    /// The keys that the user has yet to strike.
    pub fn required_notes(&self) -> (notes: &HashSet<NoteId>)
        ensures
            notes@ == self@.required,
    {
        &self.required_notes
    }

    /// The user's key answers what the song asked for, if it did.
    fn user_press_key(&mut self, note_id: NoteId, active: bool) -> (satisfied: bool)
        requires
            old(self)@.range.contains(note_id),
        ensures
            (final(self)@, satisfied) == old(self)@.press(MidiEventSource::User, note_id, active),
    {
        if active {
            self.required_notes.remove(&note_id)
        } else {
            false
        }
    }

    /// The song asks for a key. That it lets go of one withdraws nothing: only the user's
    /// strike does.
    fn file_press_key(&mut self, note_id: NoteId, active: bool) -> (asked: bool)
        requires
            old(self)@.range.contains(note_id),
        ensures
            (final(self)@, asked) == old(self)@.press(MidiEventSource::File, note_id, active),
    {
        if active {
            self.required_notes.insert(note_id);
            true
        } else {
            false
        }
    }

    /// A key goes down or up; a key that the instrument does not have is ignored.
    fn press_key(&mut self, src: MidiEventSource, note_id: NoteId, active: bool) -> (hit: bool)
        ensures
            (final(self)@, hit) == old(self)@.press(src, note_id, active),
    {
        if !self.user_keyboard_range.contains(note_id) {
            return false;
        }
        match src {
            MidiEventSource::User => self.user_press_key(note_id, active),
            MidiEventSource::File => self.file_press_key(note_id, active),
        }
    }

    /// Takes in a message. Returns `true` where the song asks for a key, and where the user
    /// strikes a key that was asked for.
    pub fn midi_event(&mut self, source: MidiEventSource, message: &MidiMessage) -> (hit: bool)
        ensures
            (final(self)@, hit) == old(self)@.receive(source, *message),
    {
        match message {
            MidiMessage::NoteOn { key, vel } => self.press_key(source, *key, *vel > 0),
            MidiMessage::NoteOff { key, .. } => self.press_key(source, *key, false),
            _ => false,
        }
    }

    /// Requires nothing any more.
    pub fn clear(&mut self)
        ensures
            final(self)@ == old(self)@.cleared(),
    {
        self.required_notes.clear();
    }

    /// Tells whether the user has struck every key that was asked for.
    pub fn are_required_keys_pressed(&self) -> (pressed: bool)
        ensures
            pressed == (self@.required == Set::<NoteId>::empty()),
    {
        proof {
            assert(self@.required.is_empty() <==> self@.required =~= Set::<NoteId>::empty());
        }
        self.required_notes.is_empty()
    }
}

/// Whatever arrives, nothing is asked of the user that the instrument cannot play.
pub proof fn law_required_stays_in_range(
    play_along: PlayAlongView,
    source: MidiEventSource,
    message: MidiMessage,
)
    requires
        play_along.wf(),
    ensures
        play_along.receive(source, message).0.wf(),
        play_along.cleared().wf(),
{
}

/// The song never takes a demand back: not even where it lets go of the key.
pub proof fn law_file_never_withdraws(play_along: PlayAlongView, message: MidiMessage)
    ensures
        play_along.required.subset_of(
            play_along.receive(MidiEventSource::File, message).0.required,
        ),
        message.onset() is None ==> play_along.receive(MidiEventSource::File, message) == (
            play_along,
            false,
        ),
{
}

/// The user meets a demand only by striking the key, and then meets that one alone.
pub proof fn law_user_meets_only_what_is_struck(play_along: PlayAlongView, message: MidiMessage)
    ensures
        ({
            let (after, satisfied) = play_along.receive(MidiEventSource::User, message);
            &&& satisfied <==> (message.onset() matches Some(key) && play_along.required.contains(
                key,
            ) && play_along.range.contains(key))
            &&& satisfied ==> after.required =~= play_along.required.remove(message.onset()->0)
            &&& !satisfied && play_along.wf() ==> after =~= play_along
        }),
{
}

/// A demand that the song makes is met by the user's strike of the same key, once: what was
/// required besides is required still, and a second strike meets nothing.
pub proof fn law_strike_answers_demand(
    play_along: PlayAlongView,
    key: NoteId,
    file_vel: u8,
    user_vel: u8,
)
    requires
        play_along.range.contains(key),
        file_vel > 0,
        user_vel > 0,
    ensures
        ({
            let demand = MidiMessage::NoteOn { key, vel: file_vel };
            let strike = MidiMessage::NoteOn { key, vel: user_vel };
            let (asked, needs_led) = play_along.receive(MidiEventSource::File, demand);
            let (answered, satisfied) = asked.receive(MidiEventSource::User, strike);
            &&& needs_led
            &&& asked.required.contains(key)
            &&& satisfied
            &&& answered.required =~= play_along.required.remove(key)
            &&& answered.receive(MidiEventSource::User, strike) == (answered, false)
        }),
{
    let demand = MidiMessage::NoteOn { key, vel: file_vel };
    let strike = MidiMessage::NoteOn { key, vel: user_vel };
    let asked = play_along.receive(MidiEventSource::File, demand).0;
    let answered = asked.receive(MidiEventSource::User, strike).0;
    assert(answered.receive(MidiEventSource::User, strike).0 =~= answered);
}

/// The play-along after the user has played `messages`.
pub open spec fn after_user(play_along: PlayAlongView, messages: Seq<MidiMessage>) -> PlayAlongView
    decreases messages.len(),
{
    if messages.len() == 0 {
        play_along
    } else {
        after_user(play_along, messages.drop_last()).receive(
            MidiEventSource::User,
            messages.last(),
        ).0
    }
}

/// The keys that `messages` strike.
pub open spec fn strikes(messages: Seq<MidiMessage>) -> Set<NoteId> {
    Set::new(
        |key: NoteId|
            exists|k: int| 0 <= k < messages.len() && (#[trigger] messages[k]).onset() == Some(key),
    )
}

/// The song goes on once every required key was struck, and no earlier: the user may strike
/// them in any order, as often as they like, with wrong keys in between.
pub proof fn law_song_goes_on_when_all_is_struck(
    play_along: PlayAlongView,
    messages: Seq<MidiMessage>,
)
    requires
        play_along.wf(),
    ensures
        after_user(play_along, messages) =~= (PlayAlongView {
            range: play_along.range,
            required: play_along.required.difference(strikes(messages)),
        }),
        after_user(play_along, messages).required =~= Set::empty() <==> play_along.required.subset_of(
            strikes(messages),
        ),
    decreases messages.len(),
{
    let after = after_user(play_along, messages);
    let left = play_along.required.difference(strikes(messages));
    if messages.len() == 0 {
        assert(after.required =~= left);
    } else {
        let earlier = messages.drop_last();
        law_song_goes_on_when_all_is_struck(play_along, earlier);
        assert forall|key: NoteId| strikes(messages).contains(key) <==> (strikes(earlier).contains(
            key,
        ) || messages.last().onset() == Some(key)) by {
            if strikes(earlier).contains(key) {
                let k = choose|k: int|
                    0 <= k < earlier.len() && (#[trigger] earlier[k]).onset() == Some(key);
                assert(messages[k].onset() == Some(key));
            }
            if strikes(messages).contains(key) {
                let k = choose|k: int|
                    0 <= k < messages.len() && (#[trigger] messages[k]).onset() == Some(key);
                if k < earlier.len() {
                    assert(earlier[k].onset() == Some(key));
                }
            }
            assert(messages[messages.len() - 1] == messages.last());
        }
        assert(after.required =~= left);
    }
    if left =~= Set::empty() {
        assert forall|key: NoteId| play_along.required.contains(key) implies strikes(
            messages,
        ).contains(key) by {
            assert(!left.contains(key));
        }
    }
}

/// The song asks for a key by striking it, if the user has it, and for no other key: what was
/// asked for besides stays so.
pub proof fn law_song_asks_for_what_it_strikes(
    play_along: PlayAlongView,
    key: NoteId,
    vel: u8,
    other: NoteId,
)
    ensures
        ({
            let message = MidiMessage::NoteOn { key, vel };
            let (after, asked) = play_along.receive(MidiEventSource::File, message);
            &&& asked <==> vel != 0 && play_along.range.contains(key)
            &&& after.range == play_along.range
            &&& after.required.contains(other) <==> play_along.required.contains(other) || (asked
                && other == key)
        }),
{
}

/// The user answers by striking a key that is asked for, and answers for no other key.
pub proof fn law_user_answers_what_is_struck(
    play_along: PlayAlongView,
    key: NoteId,
    vel: u8,
    other: NoteId,
)
    requires
        play_along.required.subset_of(play_along.range),
    ensures
        ({
            let message = MidiMessage::NoteOn { key, vel };
            let (after, satisfied) = play_along.receive(MidiEventSource::User, message);
            &&& satisfied <==> vel != 0 && play_along.required.contains(key)
            &&& after.range == play_along.range
            &&& after.required.contains(other) <==> play_along.required.contains(other) && !(
            satisfied && other == key)
        }),
{
}

/// A message that starts no note changes nothing, whoever it comes from.
pub proof fn law_other_messages_change_nothing(
    play_along: PlayAlongView,
    source: MidiEventSource,
    message: MidiMessage,
)
    requires
        !(message is NoteOn),
    ensures
        play_along.receive(source, message) == (play_along, false),
{
}

/// Starting over, nothing is asked for, and the user has the keys that they had.
pub proof fn law_starting_over(play_along: PlayAlongView, key: NoteId)
    ensures
        !play_along.cleared().required.contains(key),
        play_along.cleared().range == play_along.range,
{
}

} // verus!
