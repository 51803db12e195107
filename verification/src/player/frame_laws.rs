//! What a frame does, in plain terms.

use super::frame::{human_onset, onset_times, struck_keys, FrameView, StepView};
use super::laws::{
    ends_in, held_back, law_chord_is_required_together, law_frame_never_leaps, observed,
    plays_on_throughout, required_if_owned, Reply,
};
use super::terms::{
    goes_out_on, is_strike_for_user, law_channels_are_kept, note_at, position, strikes_for_user,
    user_note,
};
use super::{Effect, PlayerView};
use crate::keyboard::{guide_velocity, NoteId};
use crate::midi::MidiMessage;
use crate::song::{MidiEvent, PlayerConfig, Song};
use crate::time::MAX_NANOS;
use crate::times::{is_least, later_than, least, lemma_least_exists, lemma_least_is};
use vstd::prelude::*;

verus! {

/// How far a frame advances the engine at first: by its own length, unless a note of the user
/// starts on the way; then to the first such start.
pub proof fn law_frame_stops_at_the_next_note(player: PlayerView, delta: nat)
    ensures
        ({
            let reached = player.playback.time@ + player.clamped(delta);
            &&& player.clamped(delta) <= delta
            &&& forall|i: int, j: int| #[trigger]
                user_note(player.song, i, j) && note_at(player.song, i, j).start@ + player.leed_in
                    > player.playback.time@ ==> reached <= note_at(player.song, i, j).start@
                    + player.leed_in
            &&& player.clamped(delta) < delta ==> reached > player.playback.time@ && exists|
                i: int,
                j: int,
            | #[trigger]
                user_note(player.song, i, j) && note_at(player.song, i, j).start@ + player.leed_in
                    == reached
        }),
{
    law_frame_never_leaps(player, delta);
    let song = player.song;
    let reached = player.playback.time@ + player.clamped(delta);
    assert forall|i: int, j: int| #[trigger]
        user_note(song, i, j) && note_at(song, i, j).start@ + player.leed_in
            > player.playback.time@ implies reached <= note_at(song, i, j).start@
        + player.leed_in by {
        assert(song.human_note(i, j));
    }
    if player.clamped(delta) < delta {
        let (i, j) = choose|i: int, j: int| #[trigger]
            song.human_note(i, j) && song.note(i, j).start@ + player.leed_in == reached;
        assert(user_note(song, i, j));
    }
}

/// A strike in plain terms is a strike.
proof fn lemma_strike(song: Song, event: MidiEvent)
    ensures
        is_strike_for_user(song, event) <==> human_onset(song, event),
        forall|key: NoteId| #[trigger]
            strikes_for_user(song, event, key) <==> human_onset(song, event)
                && event.message.onset() == Some(key),
{
    if human_onset(song, event) {
        assert(strikes_for_user(song, event, event.message.onset()->0));
    }
}

/// The keys that `events` strike for the user, in plain terms.
proof fn lemma_struck(song: Song, events: Seq<MidiEvent>, key: NoteId)
    ensures
        struck_keys(song, events).contains(key) <==> exists|k: int|
            0 <= k < events.len() && strikes_for_user(song, #[trigger] events[k], key),
{
    if struck_keys(song, events).contains(key) {
        let k = choose|k: int|
            0 <= k < events.len() && human_onset(song, #[trigger] events[k])
                && events[k].message.onset() == Some(key);
        lemma_strike(song, events[k]);
        assert(strikes_for_user(song, events[k], key));
    }
    if exists|k: int| 0 <= k < events.len() && strikes_for_user(song, #[trigger] events[k], key) {
        let k = choose|k: int|
            0 <= k < events.len() && strikes_for_user(song, #[trigger] events[k], key);
        lemma_strike(song, events[k]);
    }
}

/// Event `k` is the first of `events`, by its time, that strikes a key for the user.
pub open spec fn is_first_strike(song: Song, events: Seq<MidiEvent>, k: int) -> bool {
    &&& 0 <= k < events.len()
    &&& is_strike_for_user(song, events[k])
    &&& forall|n: int|
        0 <= n < events.len() && is_strike_for_user(song, #[trigger] events[n])
            ==> events[k].timestamp@ <= events[n].timestamp@
}

/// Wherever among the events of the first advance a key is struck for the user, a chord is
/// opened; it lasts for twenty milliseconds from the first such strike, and starts out with the
/// keys that were struck for the user. Where no key is, no chord is opened.
pub proof fn law_any_strike_for_the_user_opens_a_chord(player: PlayerView, events: Seq<MidiEvent>)
    ensures
        player.opened_chord(events) is Some <==> exists|k: int|
            0 <= k < events.len() && is_strike_for_user(player.song, #[trigger] events[k]),
        player.opened_chord(events) matches Some(chord) ==> {
            &&& exists|k: int| #[trigger]
                is_first_strike(player.song, events, k) && chord.deadline == events[k].timestamp@
                    + 20_000_000
            &&& forall|k: int|
                0 <= k < events.len() && is_strike_for_user(player.song, #[trigger] events[k])
                    ==> chord.deadline <= events[k].timestamp@ + 20_000_000
            &&& forall|key: NoteId| #[trigger]
                chord.keys.contains(key) <==> exists|k: int|
                    0 <= k < events.len() && strikes_for_user(
                        player.song,
                        #[trigger] events[k],
                        key,
                    )
        },
{
    let song = player.song;
    let times = onset_times(song, events);
    lemma_least_exists(times);
    assert forall|k: int|
        0 <= k < events.len() && is_strike_for_user(
            song,
            #[trigger] events[k],
        ) implies times.contains(events[k].timestamp@) by {
        lemma_strike(song, events[k]);
    }
    if let Some(anchor) = least(times) {
        assert(is_least(times, anchor));
        let k = choose|k: int|
            0 <= k < events.len() && human_onset(song, #[trigger] events[k])
                && events[k].timestamp@ == anchor;
        lemma_strike(song, events[k]);
        assert(is_first_strike(song, events, k));
        assert forall|key: NoteId| #[trigger]
            player.opened_chord(events)->0.keys.contains(key) <==> exists|k: int|
                0 <= k < events.len() && strikes_for_user(song, #[trigger] events[k], key) by {
            lemma_struck(song, events, key);
        }
    }
}

/// When the chord that events open can be gathered: some strike for the user leaves room for
/// twenty milliseconds after it, or there is no such strike.
pub proof fn law_when_a_chord_can_be_gathered(player: PlayerView, events: Seq<MidiEvent>)
    ensures
        player.chord_fits(events) <==> {
            ||| forall|k: int|
                0 <= k < events.len() ==> !is_strike_for_user(player.song, #[trigger] events[k])
            ||| exists|k: int|
                0 <= k < events.len() && is_strike_for_user(player.song, #[trigger] events[k])
                    && events[k].timestamp@ + 20_000_000 <= MAX_NANOS
        },
{
    law_any_strike_for_the_user_opens_a_chord(player, events);
    if let Some(chord) = player.opened_chord(events) {
        let k = choose|k: int| #[trigger]
            is_first_strike(player.song, events, k) && chord.deadline == events[k].timestamp@
                + 20_000_000;
        assert(is_strike_for_user(player.song, events[k]));
    }
}

/// Note `j` of track `i` is a note of the user that is still ahead, and no other such note starts
/// before it.
pub open spec fn is_next_for_user(player: PlayerView, i: int, j: int) -> bool {
    &&& user_note(player.song, i, j)
    &&& note_at(player.song, i, j).start@ > position(player)
    &&& forall|a: int, b: int| #[trigger]
        user_note(player.song, a, b) && note_at(player.song, a, b).start@ > position(player)
            ==> note_at(player.song, i, j).start@ <= note_at(player.song, a, b).start@
}

/// The chord of a frame lasts until `deadline` once `events` were played: it is opened by the
/// first strike among them, or goes on as it was opened, unless the engine plays nothing.
pub open spec fn chord_lasts_until(
    song: Song,
    frame: FrameView,
    events: Seq<MidiEvent>,
    deadline: nat,
) -> bool {
    match frame.chord {
        None => exists|k: int| #[trigger]
            is_first_strike(song, events, k) && deadline == events[k].timestamp@ + 20_000_000,
        Some(chord) => events.len() > 0 && deadline == chord.deadline,
    }
}

/// `key` is one of the chord of a frame once `events` were played.
pub open spec fn is_in_chord(
    song: Song,
    frame: FrameView,
    events: Seq<MidiEvent>,
    key: NoteId,
) -> bool {
    ||| frame.chord matches Some(chord) && chord.keys.contains(key)
    ||| exists|k: int| 0 <= k < events.len() && strikes_for_user(song, #[trigger] events[k], key)
}

/// Note `j` of track `i` is to be pulled into the chord of a frame once `events` were played: it
/// is the next one of the user, it starts while the chord lasts, and no note of the user that
/// starts with it is played on a key of the chord.
pub open spec fn joins_chord(
    player: PlayerView,
    frame: FrameView,
    events: Seq<MidiEvent>,
    i: int,
    j: int,
) -> bool {
    let start = note_at(player.song, i, j).start@;
    &&& is_next_for_user(player, i, j)
    &&& exists|deadline: nat| #[trigger]
        chord_lasts_until(player.song, frame, events, deadline) && start <= deadline
    &&& forall|a: int, b: int| #[trigger]
        user_note(player.song, a, b) && note_at(player.song, a, b).start@ == start ==> !is_in_chord(
            player.song,
            frame,
            events,
            note_at(player.song, a, b).note,
        )
}

/// The chord that is gathered, in plain terms.
proof fn lemma_gathered(player: PlayerView, frame: FrameView, events: Seq<MidiEvent>)
    ensures
        player.gathered(frame, events) is Some <==> exists|deadline: nat|
            chord_lasts_until(player.song, frame, events, deadline),
        player.gathered(frame, events) matches Some(chord) ==> {
            &&& chord_lasts_until(player.song, frame, events, chord.deadline)
            &&& forall|deadline: nat| #[trigger]
                chord_lasts_until(player.song, frame, events, deadline) ==> deadline
                    == chord.deadline
            &&& forall|key: NoteId| #[trigger]
                chord.keys.contains(key) <==> is_in_chord(player.song, frame, events, key)
        },
{
    let song = player.song;
    assert forall|key: NoteId| #[trigger]
        struck_keys(song, events).contains(key) <==> exists|k: int|
            0 <= k < events.len() && strikes_for_user(song, #[trigger] events[k], key) by {
        lemma_struck(song, events, key);
    }
    match frame.chord {
        None => {
            law_any_strike_for_the_user_opens_a_chord(player, events);
            if player.gathered(frame, events) is None {
                assert forall|deadline: nat| !chord_lasts_until(song, frame, events, deadline) by {
                    if chord_lasts_until(song, frame, events, deadline) {
                        let k = choose|k: int| is_first_strike(song, events, k);
                        assert(is_strike_for_user(song, events[k]));
                    }
                }
            } else {
                let chord = player.gathered(frame, events)->0;
                assert(chord_lasts_until(song, frame, events, chord.deadline));
                let m = choose|m: int| #[trigger]
                    is_first_strike(song, events, m) && chord.deadline == events[m].timestamp@
                        + 20_000_000;
                assert forall|deadline: nat| #[trigger]
                    chord_lasts_until(song, frame, events, deadline) implies deadline
                    == chord.deadline by {
                    let k = choose|k: int| #[trigger]
                        is_first_strike(song, events, k) && deadline == events[k].timestamp@
                            + 20_000_000;
                    assert(is_strike_for_user(song, events[k]));
                    assert(is_strike_for_user(song, events[m]));
                }
            }
        },
        Some(chord) => {
            if events.len() > 0 {
                assert(chord_lasts_until(song, frame, events, chord.deadline));
            }
        },
    }
}

/// What is pulled in, in plain terms.
proof fn lemma_pull(player: PlayerView, frame: FrameView, events: Seq<MidiEvent>)
    ensures
        ({
            let gathered = player.gathered(frame, events);
            let pulls = gathered is Some && player.pull(gathered->0) is Some;
            &&& pulls <==> exists|i: int, j: int| joins_chord(player, frame, events, i, j)
            &&& pulls ==> forall|i: int, j: int| #[trigger]
                joins_chord(player, frame, events, i, j) ==> player.pull(gathered->0)->0
                    + player.playback.time@ == note_at(player.song, i, j).start@ + player.leed_in
        }),
{
    let song = player.song;
    let starts = song.human_starts();
    let ahead = later_than(starts, player.song_time());
    let gathered = player.gathered(frame, events);
    lemma_gathered(player, frame, events);
    lemma_least_exists(ahead);
    assert forall|a: int, b: int| #[trigger]
        user_note(song, a, b) && note_at(song, a, b).start@ > position(
            player,
        ) implies ahead.contains(note_at(song, a, b).start@) by {
        let start = note_at(song, a, b).start@;
        assert(song.human_note(a, b) && song.note(a, b).start@ + 0 == start);
        assert(starts.contains(start));
    }
    assert forall|i: int, j: int| #[trigger] is_next_for_user(player, i, j) implies least(ahead)
        == Some(note_at(song, i, j).start@) by {
        let start = note_at(song, i, j).start@;
        assert(user_note(song, i, j));
        assert forall|t: nat| ahead.contains(t) implies start <= t by {
            let (a, b) = choose|a: int, b: int| #[trigger]
                song.human_note(a, b) && song.note(a, b).start@ + 0 == t;
            assert(user_note(song, a, b));
        }
        assert(is_least(ahead, start));
        lemma_least_is(ahead, start);
    }
    if let Some(chord) = gathered {
        assert forall|i: int, j: int| #[trigger]
            is_next_for_user(player, i, j) implies (song.repeats_key(
            note_at(song, i, j).start@,
            chord.keys,
        ) <==> exists|a: int, b: int| #[trigger]
            user_note(song, a, b) && note_at(song, a, b).start@ == note_at(song, i, j).start@
                && is_in_chord(song, frame, events, note_at(song, a, b).note)) by {
            let start = note_at(song, i, j).start@;
            if song.repeats_key(start, chord.keys) {
                let (a, b) = choose|a: int, b: int| #[trigger]
                    song.human_note(a, b) && song.note(a, b).start@ == start && chord.keys.contains(
                        song.note(a, b).note,
                    );
                assert(user_note(song, a, b));
                assert(is_in_chord(song, frame, events, note_at(song, a, b).note));
            }
            if exists|a: int, b: int| #[trigger]
                user_note(song, a, b) && note_at(song, a, b).start@ == start && is_in_chord(
                    song,
                    frame,
                    events,
                    note_at(song, a, b).note,
                ) {
                let (a, b) = choose|a: int, b: int| #[trigger]
                    user_note(song, a, b) && note_at(song, a, b).start@ == start && is_in_chord(
                        song,
                        frame,
                        events,
                        note_at(song, a, b).note,
                    );
                assert(song.human_note(a, b));
                assert(chord.keys.contains(song.note(a, b).note));
            }
        }
        if player.pull(chord) is Some {
            let start = least(ahead)->0;
            assert(is_least(ahead, start));
            let (i, j) = choose|i: int, j: int| #[trigger]
                song.human_note(i, j) && song.note(i, j).start@ + 0 == start;
            assert(user_note(song, i, j));
            assert(is_next_for_user(player, i, j));
            assert(chord_lasts_until(song, frame, events, chord.deadline));
            assert(joins_chord(player, frame, events, i, j));
        }
    }
    assert forall|i: int, j: int| #[trigger]
        joins_chord(player, frame, events, i, j) implies gathered is Some && player.pull(
        gathered->0,
    ) is Some && player.pull(gathered->0)->0 + player.playback.time@ == note_at(
        song,
        i,
        j,
    ).start@ + player.leed_in by {
        let deadline = choose|deadline: nat| #[trigger]
            chord_lasts_until(song, frame, events, deadline) && note_at(song, i, j).start@
                <= deadline;
        assert(is_next_for_user(player, i, j));
    }
}

/// What comes after an advance, once the new reading is in place. The frame goes on exactly where
/// a note joins the chord: then the engine is advanced to the start of that note, everything
/// played is kept, the chord ends when it did, and has the keys struck so far. Else the frame is
/// over.
pub proof fn law_frame_goes_on_while_notes_join_the_chord(
    player: PlayerView,
    frame: FrameView,
    events: Seq<MidiEvent>,
)
    ensures
        ({
            let (next, step) = player.after_advance(frame, events);
            &&& step is Advance <==> exists|i: int, j: int| joins_chord(player, frame, events, i, j)
            &&& step matches StepView::Advance(more) ==> {
                &&& next == player
                &&& more.events == frame.events + events
                &&& forall|i: int, j: int| #[trigger]
                    joins_chord(player, frame, events, i, j) ==> player.playback.time@
                        + more.advance == note_at(player.song, i, j).start@ + player.leed_in
                &&& more.chord matches Some(chord) && {
                    &&& chord_lasts_until(player.song, frame, events, chord.deadline)
                    &&& forall|key: NoteId| #[trigger]
                        chord.keys.contains(key) <==> is_in_chord(player.song, frame, events, key)
                }
            }
            &&& step matches StepView::Finished { events: all, effects } ==> {
                &&& all == frame.events + events
                &&& next == player.dispatched(all)
                &&& effects == player.dispatched_effects(all)
            }
        }),
{
    lemma_gathered(player, frame, events);
    lemma_pull(player, frame, events);
}

/// A chord is required as a whole. Wherever among the events of its first advance a frame strikes
/// a key for the user, every note of the user that is still ahead, and starts no more than twenty
/// milliseconds after the first of these strikes, is struck in the same frame, and required if the
/// user has its key; unless it is held back by a repeated key.
pub proof fn law_chord_of_any_strike_is_required_together(
    player: PlayerView,
    frame: FrameView,
    replies: Seq<Reply>,
    end: PlayerView,
    events: Seq<MidiEvent>,
    effects: Seq<Effect>,
    k: int,
    i: int,
    j: int,
)
    requires
        frame.wf(player.song),
        frame.chord is None,
        plays_on_throughout(player, frame, replies),
        ends_in(player, frame, replies, end, events, effects),
        is_first_strike(player.song, replies[0].events, k),
        user_note(player.song, i, j),
        position(observed(player, replies[0])) < note_at(player.song, i, j).start@
            <= replies[0].events[k].timestamp@ + 20_000_000,
    ensures
        held_back(end, events, i, j) || required_if_owned(player, end, events, i, j),
{
    let played = replies[0].events;
    law_any_strike_for_the_user_opens_a_chord(player, played);
    assert(is_strike_for_user(player.song, played[k]));
    let m = choose|m: int| #[trigger]
        is_first_strike(player.song, played, m) && player.opened_chord(played)->0.deadline
            == played[m].timestamp@ + 20_000_000;
    assert(is_strike_for_user(player.song, played[m]));
    assert(player.song.human_note(i, j));
    law_chord_is_required_together(player, frame, replies, end, events, effects, i, j);
}

/// Events send out one after the other what each of them sends out by itself.
pub proof fn law_events_are_sent_in_turn(
    player: PlayerView,
    first: Seq<MidiEvent>,
    second: Seq<MidiEvent>,
)
    ensures
        player.dispatched_effects(first + second) == player.dispatched_effects(first)
            + player.dispatched_effects(second),
        player.dispatched_effects(Seq::empty()) == Seq::<Effect>::empty(),
    decreases second.len(),
{
    let sent = player.dispatched_effects(first);
    if second.len() == 0 {
        assert(first + second =~= first);
        assert(sent + player.dispatched_effects(second) =~= sent);
    } else {
        let both = first + second;
        law_events_are_sent_in_turn(player, first, second.drop_last());
        assert(both.drop_last() =~= first + second.drop_last());
        assert(both.last() == second.last());
        let last = player.event_effects(second.last());
        let rest = player.dispatched_effects(second.drop_last());
        assert(sent + rest + last =~= sent + (rest + last));
    }
}

/// What an event sends out by itself. On a track that the player plays it goes out as it is. On
/// a track of the user a strike lights the guide of its key, in the color of the key, if the user
/// has that key; a key that is let go sends nothing, be it by a note that stops or by one that
/// starts at velocity zero; anything else goes out as it is. A muted track sends nothing. All of
/// it goes out on the channel of the event.
pub proof fn law_what_an_event_sends_out(player: PlayerView, event: MidiEvent)
    ensures
        ({
            let sent = player.dispatched_effects(seq![event]);
            let as_it_is = sent.len() == 1 && (sent[0] matches Effect::Midi { channel, message }
                && message == event.message && goes_out_on(
                player,
                event.track_color_id,
                event.channel,
                channel,
            ));
            match player.song.config.tracks@[event.track_id as int].player {
                PlayerConfig::Mute => sent.len() == 0,
                PlayerConfig::Auto => as_it_is,
                PlayerConfig::Human => match event.message {
                    MidiMessage::NoteOn { key, vel } => if vel != 0
                        && player.play_along.range.contains(key) {
                        sent.len() == 1 && (sent[0] matches Effect::Midi {
                            channel,
                            message: MidiMessage::NoteOn { key: lit, vel: light },
                        } && lit == key && light == guide_velocity(key) && goes_out_on(
                            player,
                            event.track_color_id,
                            event.channel,
                            channel,
                        ))
                    } else {
                        sent.len() == 0
                    },
                    MidiMessage::NoteOff { .. } => sent.len() == 0,
                    _ => as_it_is,
                },
            }
        }),
{
    reveal_with_fuel(PlayerView::dispatched_effects, 2);
    law_channels_are_kept(player, event.track_color_id, event.channel);
    assert(seq![event].drop_last() =~= Seq::empty());
    assert(player.dispatched_effects(seq![event]) =~= player.event_effects(event));
}

/// Every message that an event sends out goes out on the event's own channel, if it is one of the
/// sixteen; or, where colors have channels of their own, on the one of its color, if that is.
pub proof fn law_messages_keep_their_channel(player: PlayerView, event: MidiEvent)
    ensures
        forall|n: int|
            0 <= n < player.dispatched_effects(seq![event]).len() ==> (
            #[trigger] player.dispatched_effects(seq![event])[n] matches Effect::Midi {
                channel,
                ..
            } && channel < 16 && (!player.separate_channels && event.channel < 16 ==> channel
                == event.channel) && (player.separate_channels && event.track_color_id < 16
                ==> channel == event.track_color_id)),
{
    law_what_an_event_sends_out(player, event);
    law_channels_are_kept(player, event.track_color_id, event.channel);
}

/// What events ask of the user: once they were sent out, a key is required if it was required
/// before, or if one of them strikes it on a track of the user and the user has it. Nothing else
/// about the player changes.
pub proof fn law_what_events_ask_for(player: PlayerView, events: Seq<MidiEvent>, key: NoteId)
    ensures
        ({
            let after = player.dispatched(events);
            &&& after.play_along.required.contains(key) <==> player.play_along.required.contains(
                key,
            ) || (player.play_along.range.contains(key) && exists|k: int|
                0 <= k < events.len() && strikes_for_user(player.song, #[trigger] events[k], key))
            &&& after.play_along.range == player.play_along.range
            &&& after == (PlayerView { play_along: after.play_along, ..player })
        }),
{
    lemma_struck(player.song, events, key);
    if player.demanded(events).contains(key) {
        assert(struck_keys(player.song, events).contains(key));
    }
    if struck_keys(player.song, events).contains(key) && player.play_along.range.contains(key) {
        assert(player.demanded(events).contains(key));
    }
}

/// Starting over asks for nothing, and leaves everything else as it is.
pub proof fn law_clearing_asks_for_nothing(player: PlayerView, key: NoteId)
    ensures
        !player.cleared().play_along.required.contains(key),
        player.cleared().play_along.range == player.play_along.range,
        player.cleared() == (PlayerView { play_along: player.cleared().play_along, ..player }),
{
}

/// When a song can be played after a lead-in: the start of every note of the user can be counted
/// from the start of the lead-in.
pub proof fn law_when_a_song_can_be_played(song: Song, leed_in: nat)
    ensures
        song.targets_fit(leed_in) <==> forall|i: int, j: int| #[trigger]
            user_note(song, i, j) ==> note_at(song, i, j).start@ + leed_in <= MAX_NANOS,
{
    if song.targets_fit(leed_in) {
        assert forall|i: int, j: int| #[trigger] user_note(song, i, j) implies note_at(
            song,
            i,
            j,
        ).start@ + leed_in <= MAX_NANOS by {
            assert(song.human_note(i, j));
        }
    } else {
        let (i, j) = choose|i: int, j: int| #[trigger]
            song.human_note(i, j) && song.note(i, j).start@ + leed_in > MAX_NANOS;
        assert(user_note(song, i, j));
    }
}

} // verus!
