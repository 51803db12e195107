//! What holds of the player across frames and calls.

use super::frame::{
    human_onset, lemma_struck_keys_add, onset_times, struck_keys, ChordView, FrameView, StepView,
};
use super::sync::{
    lemma_cue_is_note, lemma_note_is_cue, picked_up, picked_up_at, sounding, sounds_at, upcoming,
    Cue,
};
use super::{program_effects, rewound, silent_move, Effect, PlaybackState, PlayerView};
use crate::keyboard::{guide_velocity, NoteId};
use crate::midi::MidiMessage;
use crate::play_along::MidiEventSource;
use crate::song::{MidiEvent, PlayerConfig, Song};
use crate::time::{
    lemma_view_of_span, saturating_difference, Duration, MAX_NANOS, NANOS_PER_MILLI,
};
use crate::times::{is_least, later_than, least, lemma_least_exists, lemma_least_is};
use vstd::prelude::*;

verus! {

/// A frame never advances the engine beyond its own length, nor beyond the start of a note of
/// the user that is still ahead. Where it stops short of its length, it stops exactly at such a
/// start. It stands still only if it is empty.
pub proof fn law_frame_never_leaps(player: PlayerView, delta: nat)
    ensures
        ({
            let advance = player.clamped(delta);
            let reached = player.playback.time@ + advance;
            &&& advance <= delta
            &&& forall|i: int, j: int| #[trigger]
                player.song.human_note(i, j) && player.song.note(i, j).start@ + player.leed_in
                    > player.playback.time@ ==> reached <= player.song.note(i, j).start@
                    + player.leed_in
            &&& advance < delta ==> exists|i: int, j: int| #[trigger]
                player.song.human_note(i, j) && player.song.note(i, j).start@ + player.leed_in
                    == reached
            &&& delta > 0 ==> advance > 0
        }),
{
    let targets = player.song.human_times(player.leed_in);
    let ahead = later_than(targets, player.playback.time@);
    lemma_least_exists(ahead);
    assert forall|i: int, j: int| #[trigger]
        player.song.human_note(i, j) && player.song.note(i, j).start@ + player.leed_in
            > player.playback.time@ implies player.playback.time@ + player.clamped(delta)
        <= player.song.note(i, j).start@ + player.leed_in by {
        let target = player.song.note(i, j).start@ + player.leed_in;
        assert(targets.contains(target));
        assert(ahead.contains(target));
    }
    if player.clamped(delta) < delta {
        let target = least(ahead)->0;
        assert(targets.contains(target));
    }
}

/// A pull moves on, to the very next start of a note of the user, within the chord window, and
/// only where no note that starts there repeats a key.
pub proof fn law_pull_stays_in_chord(player: PlayerView, chord: ChordView)
    ensures
        player.pull(chord) matches Some(advance) ==> {
            let start = (player.playback.time@ + advance - player.leed_in) as nat;
            &&& advance > 0
            &&& player.leed_in <= player.playback.time@ + advance <= chord.deadline
                + player.leed_in
            &&& start > player.song_time()
            &&& exists|i: int, j: int| #[trigger]
                player.song.human_note(i, j) && player.song.note(i, j).start@ == start
            &&& forall|i: int, j: int| #[trigger]
                player.song.human_note(i, j) && player.song.note(i, j).start@ == start
                    ==> !chord.keys.contains(player.song.note(i, j).note)
            &&& forall|i: int, j: int| #[trigger]
                player.song.human_note(i, j) && player.song.note(i, j).start@
                    > player.song_time() ==> start <= player.song.note(i, j).start@
        },
{
    let starts = player.song.human_starts();
    let ahead = later_than(starts, player.song_time());
    lemma_least_exists(ahead);
    if let Some(advance) = player.pull(chord) {
        let start = least(ahead)->0;
        assert(starts.contains(start));
        let (i, j) = choose|i: int, j: int| #[trigger]
            player.song.human_note(i, j) && player.song.note(i, j).start@ + 0 == start;
        assert(player.song.human_note(i, j) && player.song.note(i, j).start@ == start);
        assert forall|i: int, j: int| #[trigger]
            player.song.human_note(i, j) && player.song.note(i, j).start@
                > player.song_time() implies start <= player.song.note(i, j).start@ by {
            let other = player.song.note(i, j).start@;
            assert(player.song.human_note(i, j) && player.song.note(i, j).start@ + 0 == other);
            assert(ahead.contains(other));
        }
    }
}

/// What the playback engine answers to an advance.
pub struct Reply {
    pub playback: PlaybackState,
    pub events: Seq<MidiEvent>,
}

/// Everything that was played in `replies`, in order.
pub open spec fn all_played(replies: Seq<Reply>) -> Seq<MidiEvent>
    decreases replies.len(),
{
    if replies.len() == 0 {
        Seq::empty()
    } else {
        replies[0].events + all_played(replies.skip(1))
    }
}

/// The player with the reading of a reply in place.
pub open spec fn observed(player: PlayerView, reply: Reply) -> PlayerView {
    PlayerView { playback: reply.playback, ..player }
}

/// From `frame` on, the engine answering with `replies`, the frame ends: with the player `end`,
/// with `events` played and `effects` to carry out.
pub open spec fn ends_in(
    player: PlayerView,
    frame: FrameView,
    replies: Seq<Reply>,
    end: PlayerView,
    events: Seq<MidiEvent>,
    effects: Seq<Effect>,
) -> bool
    decreases replies.len(),
{
    &&& replies.len() > 0
    &&& {
        let (next, step) = observed(player, replies[0]).after_advance(frame, replies[0].events);
        match step {
            StepView::Advance(more) => ends_in(
                next,
                more,
                replies.skip(1),
                end,
                events,
                effects,
            ),
            StepView::Finished { events: played, effects: sent } => {
                &&& replies.len() == 1
                &&& end == next
                &&& events == played
                &&& effects == sent
            },
        }
    }
}

/// However often a frame advances the engine, and whatever the engine answers: it hands out all
/// that was played, in order, and sends out and requires what that calls for. What was required
/// stays required.
pub proof fn law_frame_hands_out_what_was_played(
    player: PlayerView,
    frame: FrameView,
    replies: Seq<Reply>,
    end: PlayerView,
    events: Seq<MidiEvent>,
    effects: Seq<Effect>,
)
    requires
        ends_in(player, frame, replies, end, events, effects),
    ensures
        events == frame.events + all_played(replies),
        effects == player.dispatched_effects(events),
        end == (PlayerView {
            playback: replies.last().playback,
            ..player.dispatched(events)
        }),
        player.play_along.required.subset_of(end.play_along.required),
        player.play_along.wf() ==> end.play_along.wf(),
    decreases replies.len(),
{
    let seen = observed(player, replies[0]);
    let (next, step) = seen.after_advance(frame, replies[0].events);
    lemma_dispatch_ignores_reading(player, seen, events);
    match step {
        StepView::Advance(more) => {
            law_frame_hands_out_what_was_played(
                next,
                more,
                replies.skip(1),
                end,
                events,
                effects,
            );
            assert(replies.skip(1).last() == replies.last()) by {
                reveal_with_fuel(ends_in, 2);
            }
            assert(frame.events + replies[0].events + all_played(replies.skip(1)) =~= frame.events
                + (replies[0].events + all_played(replies.skip(1))));
        },
        StepView::Finished { .. } => {
            assert(replies.skip(1) =~= Seq::empty());
            assert(replies[0].events + all_played(replies.skip(1)) =~= replies[0].events);
        },
    }
}

/// Those of the events `song_events` of a song that fall, counted from `leed_in` before the song,
/// after `from` and not after `to`.
pub open spec fn events_between(
    song_events: Seq<MidiEvent>,
    leed_in: nat,
    from: nat,
    to: nat,
) -> Seq<MidiEvent> {
    song_events.filter(|event: MidiEvent| from < event.timestamp@ + leed_in <= to)
}

/// The engine, which stands at `from`, never goes back, and plays in each of `replies` just the
/// events that it passes, in whatever order.
pub open spec fn plays_what_it_passes(
    song_events: Seq<MidiEvent>,
    leed_in: nat,
    from: nat,
    replies: Seq<Reply>,
) -> bool
    decreases replies.len(),
{
    replies.len() > 0 ==> {
        let to = replies[0].playback.time@;
        &&& from <= to
        &&& replies[0].events.to_multiset() == events_between(
            song_events,
            leed_in,
            from,
            to,
        ).to_multiset()
        &&& plays_what_it_passes(song_events, leed_in, to, replies.skip(1))
    }
}

/// Spans that follow each other share no event and leave none out.
pub proof fn law_spans_join(
    song_events: Seq<MidiEvent>,
    leed_in: nat,
    from: nat,
    middle: nat,
    to: nat,
)
    requires
        from <= middle <= to,
    ensures
        events_between(song_events, leed_in, from, to).to_multiset() == events_between(
            song_events,
            leed_in,
            from,
            middle,
        ).to_multiset().add(events_between(song_events, leed_in, middle, to).to_multiset()),
    decreases song_events.len(),
{
    broadcast use vstd::seq_lib::group_to_multiset_ensures;
    broadcast use vstd::multiset::group_multiset_axioms;

    reveal(Seq::filter);
    let whole = events_between(song_events, leed_in, from, to);
    let first = events_between(song_events, leed_in, from, middle);
    let second = events_between(song_events, leed_in, middle, to);
    if song_events.len() > 0 {
        law_spans_join(song_events.drop_last(), leed_in, from, middle, to);
    }
    assert(whole.to_multiset() =~= first.to_multiset().add(second.to_multiset()));
}

/// An engine that plays what it passes has played, over several advances, what lies between its
/// first and its last time.
proof fn lemma_all_played_between(
    song_events: Seq<MidiEvent>,
    leed_in: nat,
    from: nat,
    replies: Seq<Reply>,
)
    requires
        replies.len() > 0,
        plays_what_it_passes(song_events, leed_in, from, replies),
    ensures
        from <= replies.last().playback.time@,
        all_played(replies).to_multiset() == events_between(
            song_events,
            leed_in,
            from,
            replies.last().playback.time@,
        ).to_multiset(),
    decreases replies.len(),
{
    let to = replies[0].playback.time@;
    let rest = replies.skip(1);
    vstd::seq_lib::lemma_multiset_commutative(replies[0].events, all_played(rest));
    if rest.len() > 0 {
        lemma_all_played_between(song_events, leed_in, to, rest);
        law_spans_join(song_events, leed_in, from, to, replies.last().playback.time@);
    } else {
        assert(replies[0].events + all_played(rest) =~= replies[0].events);
    }
}

/// With an engine that plays what it passes, a frame hands out each event of the song between
/// the time at which it was opened and the time at which it ended, whoever plays its track: none
/// is lost, and none is handed out twice.
pub proof fn law_frame_hands_out_its_span(
    player: PlayerView,
    delta: nat,
    song_events: Seq<MidiEvent>,
    replies: Seq<Reply>,
    end: PlayerView,
    events: Seq<MidiEvent>,
    effects: Seq<Effect>,
)
    requires
        plays_what_it_passes(song_events, player.leed_in, player.playback.time@, replies),
        ends_in(
            player,
            FrameView { advance: player.clamped(delta), events: Seq::empty(), chord: None },
            replies,
            end,
            events,
            effects,
        ),
    ensures
        player.playback.time@ <= end.playback.time@,
        events.to_multiset() == events_between(
            song_events,
            player.leed_in,
            player.playback.time@,
            end.playback.time@,
        ).to_multiset(),
{
    let frame = FrameView { advance: player.clamped(delta), events: Seq::empty(), chord: None };
    law_frame_hands_out_what_was_played(player, frame, replies, end, events, effects);
    lemma_all_played_between(song_events, player.leed_in, player.playback.time@, replies);
    assert(frame.events + all_played(replies) =~= all_played(replies));
}

/// What events send out and require does not depend on the reading of the engine.
proof fn lemma_dispatch_ignores_reading(a: PlayerView, b: PlayerView, events: Seq<MidiEvent>)
    requires
        b == (PlayerView { playback: b.playback, ..a }),
    ensures
        a.dispatched_effects(events) == b.dispatched_effects(events),
        a.demanded(events) == b.demanded(events),
    decreases events.len(),
{
    if events.len() > 0 {
        lemma_dispatch_ignores_reading(a, b, events.drop_last());
    }
    assert(a.demanded(events) =~= b.demanded(events));
}

/// What event `k` of `events` sends out is among what all of them send out.
proof fn lemma_dispatched_contains(player: PlayerView, events: Seq<MidiEvent>, k: int, n: int)
    requires
        0 <= k < events.len(),
        0 <= n < player.event_effects(events[k]).len(),
    ensures
        player.dispatched_effects(events).contains(player.event_effects(events[k])[n]),
    decreases events.len(),
{
    let earlier = player.dispatched_effects(events.drop_last());
    let last = player.event_effects(events.last());
    let effect = player.event_effects(events[k])[n];
    if k < events.len() - 1 {
        lemma_dispatched_contains(player, events.drop_last(), k, n);
        let m = choose|m: int| 0 <= m < earlier.len() && earlier[m] == effect;
        assert((earlier + last)[m] == effect);
    } else {
        assert((earlier + last)[earlier.len() + n] == effect);
    }
}

/// A key that the song strikes on a track of the user, and that the user has, is required from
/// then on, and its guide is lit in the color of the key.
pub proof fn law_struck_for_user_is_required_and_lit(
    player: PlayerView,
    events: Seq<MidiEvent>,
    k: int,
)
    requires
        0 <= k < events.len(),
        human_onset(player.song, events[k]),
        player.play_along.range.contains(events[k].message.onset()->0),
    ensures
        ({
            let key = events[k].message.onset()->0;
            &&& player.dispatched(events).play_along.required.contains(key)
            &&& player.dispatched_effects(events).contains(
                Effect::Midi {
                    channel: player.output_channel(events[k].track_color_id, events[k].channel),
                    message: MidiMessage::NoteOn { key, vel: guide_velocity(key) },
                },
            )
        }),
{
    let key = events[k].message.onset()->0;
    assert(player.demanded(events).contains(key));
    lemma_dispatched_contains(player, events, k, 0);
}

/// A key that the song lets go of on a track of the user, by a note that stops or one that starts
/// at velocity zero, leaves its guide lit and its demand in place: only the user's strike ends
/// them.
pub proof fn law_release_keeps_guide_and_demand(player: PlayerView, event: MidiEvent)
    requires
        player.song.player(event.track_id) == PlayerConfig::Human,
        event.message is NoteOff || (event.message matches MidiMessage::NoteOn { key, vel } && vel
            == 0),
    ensures
        player.dispatched_effects(seq![event]) == Seq::<Effect>::empty(),
        player.dispatched(seq![event]).play_along =~= player.play_along,
{
    reveal_with_fuel(PlayerView::dispatched_effects, 2);
    assert(seq![event].drop_last() =~= Seq::empty());
    assert(player.dispatched_effects(seq![event]) =~= Seq::empty());
    assert(player.demanded(seq![event]) =~= Set::empty());
}

/// The tracks that the player plays by itself sound as they are, in order, and ask nothing of
/// the user.
pub proof fn law_own_tracks_sound_as_they_are(player: PlayerView, events: Seq<MidiEvent>)
    requires
        forall|k: int|
            0 <= k < events.len() ==> player.song.player((#[trigger] events[k]).track_id)
                == PlayerConfig::Auto,
    ensures
        player.dispatched_effects(events) == events.map_values(
            |event: MidiEvent|
                Effect::Midi {
                    channel: player.output_channel(event.track_color_id, event.channel),
                    message: event.message,
                },
        ),
        player.dispatched(events).play_along =~= player.play_along,
    decreases events.len(),
{
    let sent = |event: MidiEvent|
        Effect::Midi {
            channel: player.output_channel(event.track_color_id, event.channel),
            message: event.message,
        };
    if events.len() > 0 {
        let earlier = events.drop_last();
        assert forall|k: int| 0 <= k < earlier.len() implies player.song.player(
            (#[trigger] earlier[k]).track_id,
        ) == PlayerConfig::Auto by {
            assert(player.song.player(events[k].track_id) == PlayerConfig::Auto);
        }
        law_own_tracks_sound_as_they_are(player, earlier);
        assert(player.song.player(events[events.len() - 1].track_id) == PlayerConfig::Auto);
    }
    assert(player.dispatched_effects(events) =~= events.map_values(sent));
    assert(player.demanded(events) =~= Set::empty());
}

/// A muted track is not heard, and asks nothing of the user.
pub proof fn law_muted_tracks_are_silent(player: PlayerView, events: Seq<MidiEvent>)
    requires
        forall|k: int|
            0 <= k < events.len() ==> player.song.player((#[trigger] events[k]).track_id)
                == PlayerConfig::Mute,
    ensures
        player.dispatched_effects(events) == Seq::<Effect>::empty(),
        player.dispatched(events).play_along =~= player.play_along,
    decreases events.len(),
{
    if events.len() > 0 {
        let earlier = events.drop_last();
        assert forall|k: int| 0 <= k < earlier.len() implies player.song.player(
            (#[trigger] earlier[k]).track_id,
        ) == PlayerConfig::Mute by {
            assert(player.song.player(events[k].track_id) == PlayerConfig::Mute);
        }
        law_muted_tracks_are_silent(player, earlier);
        assert(player.song.player(events[events.len() - 1].track_id) == PlayerConfig::Mute);
    }
    assert(player.dispatched_effects(events) =~= Seq::empty());
    assert(player.demanded(events) =~= Set::empty());
}

/// The engine does as it was told: its clock moves by `advance`, and it plays every note of the
/// user that starts on the way.
pub open spec fn plays_on(player: PlayerView, advance: nat, reply: Reply) -> bool {
    &&& reply.playback.time@ == player.playback.time@ + advance
    &&& forall|i: int, j: int| #[trigger]
        player.song.human_note(i, j) && player.playback.time@ < player.song.note(i, j).start@
            + player.leed_in <= player.playback.time@ + advance ==> played(
            player,
            reply.events,
            i,
            j,
        )
}

/// Note `j` of track `i` was struck in `events`.
pub open spec fn played(player: PlayerView, events: Seq<MidiEvent>, i: int, j: int) -> bool {
    exists|k: int|
        0 <= k < events.len() && (#[trigger] events[k]).track_id
            == player.song.file.tracks@[i].track_id && events[k].message.onset() == Some(
            player.song.note(i, j).note,
        )
}

/// The engine does as it was told throughout the frame.
pub open spec fn plays_on_throughout(
    player: PlayerView,
    frame: FrameView,
    replies: Seq<Reply>,
) -> bool
    decreases replies.len(),
{
    replies.len() > 0 ==> {
        &&& plays_on(player, frame.advance, replies[0])
        &&& {
            let (next, step) = observed(player, replies[0]).after_advance(frame, replies[0].events);
            step matches StepView::Advance(more) ==> plays_on_throughout(
                next,
                more,
                replies.skip(1),
            )
        }
    }
}

/// The frame stopped short of note `j` of track `i`: a note of the user that starts no later
/// was not reached, and repeats a key that was struck for the user in the frame.
pub open spec fn held_back(
    end: PlayerView,
    events: Seq<MidiEvent>,
    i: int,
    j: int,
) -> bool {
    exists|a: int, b: int| #[trigger]
        end.song.human_note(a, b) && end.song.note(a, b).start@ <= end.song.note(i, j).start@
            && end.playback.time@ < end.song.note(a, b).start@ + end.leed_in && struck_keys(
            end.song,
            events,
        ).contains(end.song.note(a, b).note)
}

/// Where nothing more is pulled in, a note that starts within the chord window is held back.
proof fn lemma_unpulled_is_held_back(
    player: PlayerView,
    chord: ChordView,
    events: Seq<MidiEvent>,
    i: int,
    j: int,
)
    requires
        player.pull(chord) is None,
        chord.keys == struck_keys(player.song, events),
        player.song.human_note(i, j),
        player.song_time() < player.song.note(i, j).start@ <= chord.deadline,
    ensures
        held_back(player.dispatched(events), events, i, j),
{
    let start = player.song.note(i, j).start@;
    let ahead = later_than(player.song.human_starts(), player.song_time());
    lemma_least_exists(ahead);
    assert(player.song.human_note(i, j) && player.song.note(i, j).start@ + 0 == start);
    assert(ahead.contains(start));
    let stop = least(ahead)->0;
    assert(is_least(ahead, stop));
    assert(player.song.repeats_key(stop, chord.keys));
    let (a, b) = choose|a: int, b: int| #[trigger]
        player.song.human_note(a, b) && player.song.note(a, b).start@ == stop
            && chord.keys.contains(player.song.note(a, b).note);
    assert(player.dispatched(events).song.human_note(a, b));
}

/// The notes that an engine plays when a chord is pulled in are required, or held back.
proof fn lemma_chord_is_pulled_in(
    player: PlayerView,
    frame: FrameView,
    replies: Seq<Reply>,
    end: PlayerView,
    events: Seq<MidiEvent>,
    effects: Seq<Effect>,
    i: int,
    j: int,
)
    requires
        frame.wf(player.song),
        frame.chord is Some,
        player.pull(frame.chord->0) == Some(frame.advance),
        plays_on_throughout(player, frame, replies),
        ends_in(player, frame, replies, end, events, effects),
        player.song.human_note(i, j),
        player.song_time() < player.song.note(i, j).start@ <= frame.chord->0.deadline,
    ensures
        held_back(end, events, i, j) || required_if_owned(player, end, events, i, j),
    decreases replies.len(),
{
    let reply = replies[0];
    let seen = observed(player, reply);
    let (next, step) = seen.after_advance(frame, reply.events);
    let here = (player.playback.time@ + frame.advance - player.leed_in) as nat;
    law_pull_stays_in_chord(player, frame.chord->0);
    law_frame_hands_out_what_was_played(player, frame, replies, end, events, effects);
    lemma_struck_keys_add(player.song, frame.events, reply.events);
    assert(seen.song_time() == here);
    let (a, b) = choose|a: int, b: int| #[trigger]
        player.song.human_note(a, b) && player.song.note(a, b).start@ == here;
    assert(played(player, reply.events, a, b));
    if player.song.note(i, j).start@ <= here {
        assert(played(player, reply.events, i, j));
        let k = choose|k: int|
            0 <= k < reply.events.len() && (#[trigger] reply.events[k]).track_id
                == player.song.file.tracks@[i].track_id && reply.events[k].message.onset() == Some(
                player.song.note(i, j).note,
            );
        let at = frame.events.len() + k;
        assert(events[at] == reply.events[k]);
        assert(human_onset(player.song, events[at]));
        assert(played(player, events, i, j));
    } else {
        match step {
            StepView::Advance(more) => {
                lemma_chord_is_pulled_in(next, more, replies.skip(1), end, events, effects, i, j);
            },
            StepView::Finished { .. } => {
                lemma_unpulled_is_held_back(
                    seen,
                    seen.gathered(frame, reply.events)->0,
                    events,
                    i,
                    j,
                );
            },
        }
    }
}

/// Note `j` of track `i` was struck in `events`, and is required at the end if the user has its
/// key.
pub open spec fn required_if_owned(
    player: PlayerView,
    end: PlayerView,
    events: Seq<MidiEvent>,
    i: int,
    j: int,
) -> bool {
    let key = player.song.note(i, j).note;
    &&& played(player, events, i, j)
    &&& player.play_along.range.contains(key) ==> end.play_along.required.contains(key)
}

/// A chord is required as a whole. When the first advance of a frame strikes a key for the user,
/// and the engine plays what it is told, every note of the user that is still ahead and starts
/// within the chord window is struck in the same frame, and required if the user has its key.
/// The one exception is a note at or after a repeated key, which is a new strike and waits for
/// its turn.
pub proof fn law_chord_is_required_together(
    player: PlayerView,
    frame: FrameView,
    replies: Seq<Reply>,
    end: PlayerView,
    events: Seq<MidiEvent>,
    effects: Seq<Effect>,
    i: int,
    j: int,
)
    requires
        frame.wf(player.song),
        frame.chord is None,
        plays_on_throughout(player, frame, replies),
        ends_in(player, frame, replies, end, events, effects),
        player.opened_chord(replies[0].events) is Some,
        player.song.human_note(i, j),
        observed(player, replies[0]).song_time() < player.song.note(i, j).start@
            <= player.opened_chord(replies[0].events)->0.deadline,
    ensures
        held_back(end, events, i, j) || required_if_owned(player, end, events, i, j),
{
    let reply = replies[0];
    let seen = observed(player, reply);
    let (next, step) = seen.after_advance(frame, reply.events);
    assert(frame.events + reply.events =~= reply.events);
    match step {
        StepView::Advance(more) => {
            lemma_chord_is_pulled_in(next, more, replies.skip(1), end, events, effects, i, j);
        },
        StepView::Finished { .. } => {
            lemma_unpulled_is_held_back(seen, seen.opened_chord(reply.events)->0, events, i, j);
        },
    }
}

/// The frame goes on after all of `replies`.
pub open spec fn still_open(player: PlayerView, frame: FrameView, replies: Seq<Reply>) -> bool
    decreases replies.len(),
{
    replies.len() > 0 ==> {
        let (next, step) = observed(player, replies[0]).after_advance(frame, replies[0].events);
        match step {
            StepView::Advance(more) => still_open(next, more, replies.skip(1)),
            StepView::Finished { .. } => false,
        }
    }
}

/// Every pull uses up some of the chord window.
proof fn lemma_pulls_use_up_window(player: PlayerView, frame: FrameView, replies: Seq<Reply>)
    requires
        frame.chord is Some,
        player.pull(frame.chord->0) == Some(frame.advance),
        plays_on_throughout(player, frame, replies),
        still_open(player, frame, replies),
    ensures
        replies.len() + player.song_time() <= frame.chord->0.deadline,
    decreases replies.len(),
{
    law_pull_stays_in_chord(player, frame.chord->0);
    if replies.len() > 0 {
        let seen = observed(player, replies[0]);
        let (next, step) = seen.after_advance(frame, replies[0].events);
        assert(seen.song_time() == player.playback.time@ + frame.advance - player.leed_in);
        lemma_pulls_use_up_window(next, step->Advance_0, replies.skip(1));
    }
}

/// Every frame ends. While the engine plays what it is told, a frame that has opened a chord
/// advances the engine no more often than there are nanoseconds left in the chord window; a
/// frame that has opened none advances it once.
pub proof fn law_frame_ends(player: PlayerView, frame: FrameView, replies: Seq<Reply>)
    requires
        frame.chord is None,
        replies.len() > 0,
        plays_on_throughout(player, frame, replies),
        still_open(player, frame, replies),
    ensures
        player.opened_chord(replies[0].events) matches Some(chord) && replies.len() + observed(
            player,
            replies[0],
        ).song_time() <= chord.deadline + 1,
{
    let seen = observed(player, replies[0]);
    let (next, step) = seen.after_advance(frame, replies[0].events);
    lemma_pulls_use_up_window(next, step->Advance_0, replies.skip(1));
}

/// A frame in which the engine plays nothing, as it does while it is paused, is over at once,
/// sends nothing out and asks nothing of the user.
pub proof fn law_nothing_played_nothing_sent(player: PlayerView, frame: FrameView)
    requires
        frame.wf(player.song),
        frame.chord is None,
    ensures
        ({
            let (after, step) = player.after_advance(frame, Seq::empty());
            &&& after =~= player
            &&& step =~= (StepView::Finished { events: Seq::empty(), effects: Seq::empty() })
        }),
{
    let nothing = Seq::<MidiEvent>::empty();
    assert(frame.events + nothing =~= nothing);
    lemma_least_exists(onset_times(player.song, nothing));
    assert(onset_times(player.song, nothing) =~= Set::empty());
    assert(player.demanded(nothing) =~= Set::empty());
    assert(player.dispatched(nothing).play_along =~= player.play_along);
}

/// A message with its channel that can be put on the wire.
pub open spec fn sendable(effect: Effect) -> bool {
    effect matches Effect::Midi { channel, message } ==> channel < 16 && message.wf()
}

/// Whatever the player sends out can be put on the wire: its own messages always, and those of
/// the song as they came.
pub proof fn law_effects_can_be_sent(
    player: PlayerView,
    events: Seq<MidiEvent>,
    programs: Seq<(u8, u8)>,
)
    requires
        forall|k: int| 0 <= k < events.len() ==> (#[trigger] events[k]).message.wf(),
    ensures
        forall|n: int|
            0 <= n < player.dispatched_effects(events).len() ==> sendable(
                #[trigger] player.dispatched_effects(events)[n],
            ),
        forall|n: int|
            0 <= n < player.sync_effects(programs).len() ==> sendable(
                #[trigger] player.sync_effects(programs)[n],
            ),
    decreases events.len(),
{
    if events.len() > 0 {
        let earlier = events.drop_last();
        assert forall|k: int| 0 <= k < earlier.len() implies (
        #[trigger] earlier[k]).message.wf() by {
            assert(events[k].message.wf());
        }
        law_effects_can_be_sent(player, earlier, programs);
        assert(events[events.len() - 1].message.wf());
        let before = player.dispatched_effects(earlier);
        let last = player.event_effects(events.last());
        assert forall|n: int| 0 <= n < player.dispatched_effects(events).len() implies sendable(
            #[trigger] player.dispatched_effects(events)[n],
        ) by {
            if n < before.len() {
                assert(player.dispatched_effects(events)[n] == before[n]);
            } else {
                assert(player.dispatched_effects(events)[n] == last[n - before.len()]);
            }
        }
    }
}

/// The song is picked up with a note wherever one sounds or is still to come on a track that is
/// not muted. If playback has to move for it, it moves to the start of a note that is struck.
pub proof fn law_sync_finds_a_note(player: PlayerView, k: int)
    requires
        0 <= k < player.song.cues().len(),
        sounds_at(player.song.cues()[k], player.song_time()) || player.song.cues()[k].note.start@
            >= player.song_time(),
    ensures
        player.pick_up_cues().len() > 0,
        player.snap_start() matches Some(start) ==> start >= player.song_time() && exists|n: int|
            0 <= n < player.pick_up_cues().len() && (
            #[trigger] player.pick_up_cues()[n]).note.start@ == start,
{
    let cues = player.song.cues();
    let time = player.song_time();
    let sounding_now = |cue: Cue| sounds_at(cue, time);
    if sounds_at(cues[k], time) {
        cues.lemma_filter_contains(sounding_now, k);
        assert(sounding(cues, time).contains(cues[k]));
    } else if sounding(cues, time).len() == 0 {
        let times = upcoming(cues, time);
        assert(times.contains(cues[k].note.start@));
        lemma_least_exists(times);
        let start = least(times)->0;
        assert(is_least(times, start));
        let n = choose|n: int| 0 <= n < cues.len() && (#[trigger] cues[n]).note.start@ == start;
        let picked_here = |cue: Cue| picked_up_at(cue, start);
        cues.lemma_filter_contains(picked_here, n);
        assert(picked_up(cues, start).contains(cues[n]));
        let m = choose|m: int|
            0 <= m < picked_up(cues, start).len() && picked_up(cues, start)[m] == cues[n];
        assert(player.pick_up_cues()[m].note.start@ == start);
    }
}

/// Every key that is required after the song was picked up is one that the user has, and was
/// struck on the output, so that its guide is lit.
pub proof fn law_sync_lights_what_it_requires(
    player: PlayerView,
    programs: Seq<(u8, u8)>,
    key: NoteId,
)
    requires
        player.synced().play_along.required.contains(key),
    ensures
        player.synced().play_along.wf(),
        exists|n: int|
            0 <= n < player.sync_effects(programs).len() && (
            #[trigger] player.sync_effects(programs)[n] matches Effect::Midi {
                message: MidiMessage::NoteOn { key: lit, vel },
                ..
            } && lit == key && vel > 0),
{
    let picked = player.pick_up_cues();
    let k = choose|k: int|
        0 <= k < picked.len() && player.song.player((#[trigger] picked[k]).track_id)
            == PlayerConfig::Human && picked[k].note.note % 128 == key;
    let prologue = seq![Effect::StopAll] + program_effects(programs) + player.snap_effects();
    let n = prologue.len() + k;
    assert(player.sync_effects(programs)[n] == player.cue_effect(picked[k]));
}

/// Picking the song up a second time at the same reading does the same once more.
pub proof fn law_sync_repeats(player: PlayerView, programs: Seq<(u8, u8)>)
    ensures
        player.synced().synced() =~= player.synced(),
        player.synced().sync_effects(programs) == player.sync_effects(programs),
{
    let again = player.synced();
    assert(again.cued(again.pick_up_cues()) =~= player.cued(player.pick_up_cues()));
    assert(again.pick_up_cues().map_values(|cue: Cue| again.cue_effect(cue))
        =~= player.pick_up_cues().map_values(|cue: Cue| player.cue_effect(cue)));
}

/// Where the playback engine stands after `effects`, if it stood at `time` before them and none
/// of them runs a frame or picks the song up.
pub open spec fn time_after(time: nat, effects: Seq<Effect>) -> nat
    decreases effects.len(),
{
    if effects.len() == 0 {
        time
    } else {
        match effects.last() {
            Effect::SetTime(moved) => moved@,
            _ => time_after(time, effects.drop_last()),
        }
    }
}

/// What comes later moves on from where the engine was moved to before.
proof fn lemma_time_after_add(time: nat, first: Seq<Effect>, second: Seq<Effect>)
    ensures
        time_after(time, first + second) == time_after(time_after(time, first), second),
    decreases second.len(),
{
    if second.len() == 0 {
        assert(first + second =~= first);
    } else {
        assert((first + second).drop_last() =~= first + second.drop_last());
        lemma_time_after_add(time, first, second.drop_last());
    }
}

/// The engine stays where it is as long as nothing moves it.
proof fn lemma_time_stays(time: nat, effects: Seq<Effect>)
    requires
        forall|k: int| 0 <= k < effects.len() ==> !((#[trigger] effects[k]) is SetTime),
    ensures
        time_after(time, effects) == time,
    decreases effects.len(),
{
    if effects.len() > 0 {
        let earlier = effects.drop_last();
        assert forall|k: int| 0 <= k < earlier.len() implies !((#[trigger] earlier[k]) is SetTime) by {
            assert(earlier[k] == effects[k]);
        }
        assert(!(effects[effects.len() - 1] is SetTime));
        lemma_time_stays(time, earlier);
    }
}

/// A silent move leaves the engine where it was to go.
proof fn lemma_time_of_move(from: nat, time: Duration)
    ensures
        time_after(from, silent_move(time)) == time@,
{
    reveal_with_fuel(time_after, 3);
    assert(silent_move(time).drop_last() =~= seq![Effect::SetTime(time)]);
}

/// Picking the song up leaves the engine at the notes to go on to, or else where it was.
proof fn lemma_time_of_sync(player: PlayerView, programs: Seq<(u8, u8)>)
    requires
        player.sync_fits(),
    ensures
        time_after(player.playback.time@, player.sync_effects(programs))
            == match player.snap_start() {
            Some(start) => start + player.leed_in,
            None => player.playback.time@,
        },
{
    broadcast use lemma_view_of_span;

    let time = player.playback.time@;
    let prologue = seq![Effect::StopAll] + program_effects(programs);
    let moves = player.snap_effects();
    let struck = player.pick_up_cues().map_values(|cue: Cue| player.cue_effect(cue));
    lemma_time_after_add(time, prologue + moves, struck);
    lemma_time_after_add(time, prologue, moves);
    lemma_time_stays(time, prologue);
    lemma_time_stays(time_after(time, prologue + moves), struck);
    match player.snap_start() {
        Some(start) => lemma_time_of_move(time, Duration::of(start + player.leed_in)),
        None => {},
    }
}

/// Once the song was picked up, picking it up again leaves playback where it is: it moves to
/// that same time or not at all, and never on from note to note. Nothing stands in the way of
/// that but the end of a note that has started by then and ends beyond what can be counted.
pub proof fn law_sync_stays_where_it_moved(
    player: PlayerView,
    programs: Seq<(u8, u8)>,
    playback: PlaybackState,
    programs_there: Seq<(u8, u8)>,
)
    requires
        player.sync_fits(),
        playback.time@ == time_after(player.playback.time@, player.sync_effects(programs)),
    ensures
        ({
            let moved = PlayerView { playback, ..player.synced() };
            let cues = player.song.cues();
            &&& moved.snap_start() is None || moved.snap_start() == player.snap_start()
            &&& player.snap_start() is Some ==> moved.pick_up_cues().len() > 0
            &&& moved.sync_fits() <==> forall|k: int|
                0 <= k < cues.len() && (#[trigger] cues[k]).note.start@ <= moved.song_time()
                    ==> cues[k].note.start@ + cues[k].note.duration@ <= MAX_NANOS
            &&& moved.sync_fits() ==> time_after(
                playback.time@,
                moved.sync_effects(programs_there),
            ) == playback.time@
        }),
{
    let moved = PlayerView { playback, ..player.synced() };
    let cues = player.song.cues();
    lemma_time_of_sync(player, programs);
    if let Some(start) = player.snap_start() {
        let times = upcoming(cues, player.song_time());
        lemma_least_exists(times);
        assert(is_least(times, start));
        let k = choose|k: int| 0 <= k < cues.len() && (#[trigger] cues[k]).note.start@ == start;
        let times_there = upcoming(cues, start);
        assert(times_there.contains(start));
        lemma_least_is(times_there, start);
        law_sync_finds_a_note(moved, k);
    }
    if moved.sync_fits() {
        lemma_time_of_sync(moved, programs_there);
    }
}

/// Where a seek lands: never before the time that was asked for. Where it lands later, no note
/// that can be heard sounds at the time asked for, playback is at the start of one, and none
/// starts in between.
pub proof fn law_seek_lands_on_the_next_note(
    player: PlayerView,
    time: Duration,
    playback: PlaybackState,
    programs: Seq<(u8, u8)>,
)
    requires
        playback.time@ == time_after(player.playback.time@, silent_move(time)),
        (PlayerView { playback, ..player }).sync_fits(),
    ensures
        ({
            let there = PlayerView { playback, ..player };
            let song = player.song;
            let asked = saturating_difference(time@, player.leed_in);
            let landed = time_after(playback.time@, there.sync_effects(programs));
            &&& landed >= time@
            &&& landed > time@ ==> {
                &&& forall|i: int, j: int| #[trigger]
                    song.audible_note(i, j) ==> !(song.note(i, j).start@ <= asked < song.note(
                        i,
                        j,
                    ).start@ + song.note(i, j).duration@)
                &&& exists|i: int, j: int| #[trigger]
                    song.audible_note(i, j) && song.note(i, j).start@ + player.leed_in == landed
                &&& forall|i: int, j: int| #[trigger]
                    song.audible_note(i, j) && song.note(i, j).start@ >= asked ==> song.note(
                        i,
                        j,
                    ).start@ + player.leed_in >= landed
            }
        }),
{
    let there = PlayerView { playback, ..player };
    let song = player.song;
    let tracks = song.file.tracks@.len();
    let cues = song.cues();
    let asked = there.song_time();
    lemma_time_of_move(player.playback.time@, time);
    lemma_time_of_sync(there, programs);
    if let Some(start) = there.snap_start() {
        let times = upcoming(cues, asked);
        lemma_least_exists(times);
        assert(is_least(times, start));
        let k = choose|k: int| 0 <= k < cues.len() && (#[trigger] cues[k]).note.start@ == start;
        lemma_cue_is_note(song, tracks, k);
        let (i, j) = choose|i: int, j: int| #[trigger]
            song.audible_note(i, j) && song.note(i, j) == cues[k].note;
        assert(song.audible_note(i, j) && song.note(i, j).start@ == start);
        assert forall|i: int, j: int| #[trigger] song.audible_note(i, j) implies !(song.note(
            i,
            j,
        ).start@ <= asked < song.note(i, j).start@ + song.note(i, j).duration@) by {
            let n = lemma_note_is_cue(song, tracks, i, j);
            if sounds_at(cues[n], asked) {
                cues.lemma_filter_contains(|cue: Cue| sounds_at(cue, asked), n);
                assert(sounding(cues, asked).contains(cues[n]));
            }
        }
        assert forall|i: int, j: int| #[trigger]
            song.audible_note(i, j) && song.note(i, j).start@ >= asked implies song.note(
            i,
            j,
        ).start@ >= start by {
            let n = lemma_note_is_cue(song, tracks, i, j);
            assert(cues[n].note.start@ == song.note(i, j).start@);
            assert(times.contains(song.note(i, j).start@));
        }
    }
}

/// The two songs have the same tracks and settings, and the same notes on every track that is
/// not muted.
pub open spec fn differ_in_muted_notes_only(a: Song, b: Song) -> bool {
    &&& b.config.tracks@ == a.config.tracks@
    &&& b.file.tracks@.len() == a.file.tracks@.len()
    &&& forall|i: int|
        0 <= i < a.file.tracks@.len() ==> {
            let track = #[trigger] a.file.tracks@[i];
            &&& b.file.tracks@[i].track_id == track.track_id
            &&& a.player(track.track_id) != PlayerConfig::Mute ==> b.file.tracks@[i].notes@
                == track.notes@
        }
}

/// Songs that differ in muted notes only have the same notes to be heard.
proof fn lemma_same_cues(a: Song, b: Song, n: nat)
    requires
        differ_in_muted_notes_only(a, b),
        n <= a.file.tracks@.len(),
    ensures
        a.cues_of_first(n) == b.cues_of_first(n),
    decreases n,
{
    if n > 0 {
        lemma_same_cues(a, b, (n - 1) as nat);
        assert(a.file.tracks@[n - 1].track_id == b.file.tracks@[n - 1].track_id);
        assert(a.track_cues(n - 1) =~= b.track_cues(n - 1));
    }
}

/// Muted notes do not matter when the song is picked up: they are neither struck nor required,
/// and playback neither moves to them nor stays for them.
pub proof fn law_sync_ignores_muted_notes(a: PlayerView, b: PlayerView, programs: Seq<(u8, u8)>)
    requires
        differ_in_muted_notes_only(a.song, b.song),
        b.playback.time@ == a.playback.time@,
        b.leed_in == a.leed_in,
        b.separate_channels == a.separate_channels,
        b.play_along.range == a.play_along.range,
    ensures
        b.sync_fits() == a.sync_fits(),
        b.sync_effects(programs) == a.sync_effects(programs),
        time_after(b.playback.time@, b.sync_effects(programs)) == time_after(
            a.playback.time@,
            a.sync_effects(programs),
        ),
        b.synced().play_along == a.synced().play_along,
{
    lemma_same_cues(a.song, b.song, a.song.file.tracks@.len());
    let picked = a.pick_up_cues();
    assert(b.pick_up_cues() == picked);
    assert(a.cued(picked) =~= b.cued(picked));
    assert(picked.map_values(|cue: Cue| a.cue_effect(cue)) =~= picked.map_values(
        |cue: Cue| b.cue_effect(cue),
    ));
}

/// `next` plays the same song with the same lead-in, the same channels and the same tables as
/// `player`.
pub open spec fn same_song(player: PlayerView, next: PlayerView) -> bool {
    &&& next.song == player.song
    &&& next.leed_in == player.leed_in
    &&& next.separate_channels == player.separate_channels
    &&& next.human_note_starts == player.human_note_starts
    &&& next.human_note_targets == player.human_note_targets
}

/// Whatever a player goes through, the tables of the user's notes that it was made with stay as
/// they were, and it stays in a state that it can be in.
pub proof fn law_tables_stay(
    player: PlayerView,
    playback: PlaybackState,
    frame: FrameView,
    events: Seq<MidiEvent>,
    message: MidiMessage,
)
    requires
        player.wf(),
    ensures
        ({
            let observed = PlayerView { playback, ..player };
            let (advanced, _) = observed.after_advance(frame, events);
            let (play_along, _) = player.play_along.receive(MidiEventSource::User, message);
            let heard = PlayerView { play_along, ..player };
            &&& same_song(player, observed) && observed.wf()
            &&& same_song(player, advanced) && advanced.wf()
            &&& same_song(player, heard) && heard.wf()
            &&& same_song(player, player.cleared()) && player.cleared().wf()
            &&& same_song(player, player.synced()) && player.synced().wf()
        }),
{
}

/// Going back and forth by the same time leads back, unless the start of playback is in the
/// way.
pub proof fn law_rewind_undone(time: nat, delta: i64)
    requires
        0 <= delta,
        delta * NANOS_PER_MILLI <= time <= MAX_NANOS,
    ensures
        rewound(rewound(time, (-delta) as i64), delta) == time,
{
}

} // verus!
