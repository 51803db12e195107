//! What moving through the song and picking it up do, in plain terms.

use super::sync::{picked_up_at, sounding, sounds_at, upcoming, Cue};
use super::terms::{
    goes_out_on, heard_note, is_note, law_channels_are_kept, lemma_filtered_places, lemma_places, lists,
    note_at, places_of_first, played_by, position, user_note,
};
use super::{program_effects, rewound, silent_move, Effect, PlayerView};
use crate::keyboard::{guide_velocity, NoteId};
use crate::midi::MidiMessage;
use crate::song::{PlayerConfig, Song};
use crate::time::{lemma_view_of_span, Duration, MAX_NANOS};
use crate::times::{is_least, least, lemma_least_exists};
use vstd::prelude::*;

verus! {

/// Going back by so many milliseconds leads to a time that lies just as much earlier, or to the
/// start of playback where there is none; going forward leads to one that lies just as much
/// later, or to the end of all time where that cannot be counted.
pub proof fn law_rewind_goes_as_far_as_it_is_told(time: nat, delta: i64)
    requires
        time <= MAX_NANOS,
    ensures
        delta < 0 && time >= -delta * 1_000_000 ==> rewound(time, delta) + -delta * 1_000_000
            == time,
        delta < 0 && time < -delta * 1_000_000 ==> rewound(time, delta) == 0,
        delta >= 0 && time + delta * 1_000_000 <= MAX_NANOS ==> rewound(time, delta) == time + delta
            * 1_000_000,
        delta >= 0 && time + delta * 1_000_000 > MAX_NANOS ==> rewound(time, delta) == MAX_NANOS,
{
}

/// Two moves from the same time that both can be made in full lead to times that are as far
/// apart as they are.
pub proof fn law_rewinds_are_as_far_apart(time: nat, first: i64, second: i64)
    requires
        0 <= time + first * 1_000_000 <= MAX_NANOS,
        0 <= time + second * 1_000_000 <= MAX_NANOS,
    ensures
        rewound(time, first) - rewound(time, second) == (first - second) * 1_000_000,
{
}

/// A silent move sets the clock, and drops what the engine plays of it. Nothing is sent out.
pub proof fn law_silent_move_is_silent(time: Duration)
    ensures
        silent_move(time).len() == 2,
        silent_move(time)[0] == Effect::SetTime(time),
        silent_move(time)[1] == Effect::Settle,
{
}

/// `effect` sets a channel to a program, both cut to the bits that they have on the wire.
pub open spec fn sets_program(effect: Effect, channel: u8, program: u8) -> bool {
    effect matches Effect::Midi {
        channel: out,
        message: MidiMessage::ProgramChange { program: set },
    } && out < 16 && (channel - out) % 16 == 0 && set < 128 && (program - set) % 128 == 0
}

/// Every channel that has a program is set to it, in turn, and nothing else is sent.
pub proof fn law_every_program_is_sent(programs: Seq<(u8, u8)>)
    ensures
        program_effects(programs).len() == programs.len(),
        forall|k: int|
            0 <= k < programs.len() ==> sets_program(
                #[trigger] program_effects(programs)[k],
                programs[k].0,
                programs[k].1,
            ),
{
}

/// Note `j` of track `i` can be heard, and sounds where playback stands.
pub open spec fn sounds_now(player: PlayerView, i: int, j: int) -> bool {
    let note = note_at(player.song, i, j);
    heard_note(player.song, i, j) && note.start@ <= position(player) < note.start@ + note.duration@
}

/// Some note sounds where playback stands.
pub open spec fn something_sounds(player: PlayerView) -> bool {
    exists|i: int, j: int| sounds_now(player, i, j)
}

/// Note `j` of track `i` can be heard and is still to come, and no other such note starts before
/// it.
pub open spec fn is_next(player: PlayerView, i: int, j: int) -> bool {
    &&& heard_note(player.song, i, j)
    &&& note_at(player.song, i, j).start@ >= position(player)
    &&& forall|a: int, b: int| #[trigger]
        heard_note(player.song, a, b) && note_at(player.song, a, b).start@ >= position(player)
            ==> note_at(player.song, i, j).start@ <= note_at(player.song, a, b).start@
}

/// Playback has to move to where the song is picked up: nothing sounds, and a note is still to
/// come.
pub open spec fn has_to_move(player: PlayerView) -> bool {
    !something_sounds(player) && exists|i: int, j: int| is_next(player, i, j)
}

/// Note `j` of track `i` is one that the song is picked up with: it sounds now; or nothing does,
/// and it starts together with the next note or up to thirty milliseconds after it.
pub open spec fn is_picked_up(player: PlayerView, i: int, j: int) -> bool {
    let start = note_at(player.song, i, j).start@;
    if something_sounds(player) {
        sounds_now(player, i, j)
    } else {
        heard_note(player.song, i, j) && exists|a: int, b: int| #[trigger]
            is_next(player, a, b) && note_at(player.song, a, b).start@ <= start <= note_at(
                player.song,
                a,
                b,
            ).start@ + 30_000_000
    }
}

/// `effect` strikes note `j` of track `i`: on its channel, on its key cut to seven bits, in the
/// color of the key.
pub open spec fn strikes_note(player: PlayerView, effect: Effect, i: int, j: int) -> bool {
    let note = note_at(player.song, i, j);
    effect matches Effect::Midi { channel, message: MidiMessage::NoteOn { key, vel } }
        && goes_out_on(player, note.track_color_id, note.channel, channel) && key < 128 && (
    note.note - key) % 128 == 0 && vel == guide_velocity(note.note)
}

spec fn not_muted() -> spec_fn(PlayerConfig) -> bool {
    |config: PlayerConfig| config != PlayerConfig::Mute
}

spec fn for_the_user() -> spec_fn(PlayerConfig) -> bool {
    |config: PlayerConfig| config == PlayerConfig::Human
}

spec fn cue_at(song: Song) -> spec_fn((int, int)) -> Cue {
    |place: (int, int)|
        Cue {
            track_id: song.file.tracks@[place.0].track_id,
            note: note_at(song, place.0, place.1),
        }
}

/// The cues of a song are its notes that can be heard.
proof fn lemma_cues_are_notes(song: Song, n: nat)
    ensures
        song.cues_of_first(n) == places_of_first(song, not_muted(), n).map_values(cue_at(song)),
    decreases n,
{
    if n > 0 {
        lemma_cues_are_notes(song, (n - 1) as nat);
    }
    assert(song.cues_of_first(n) =~= places_of_first(song, not_muted(), n).map_values(
        cue_at(song),
    ));
}

/// It makes no difference whether notes are chosen before or after they are looked up.
proof fn lemma_filter_of_map(
    places: Seq<(int, int)>,
    look_up: spec_fn((int, int)) -> Cue,
    pred: spec_fn(Cue) -> bool,
    kept: spec_fn((int, int)) -> bool,
)
    requires
        forall|place: (int, int)| #[trigger] kept(place) <==> pred(look_up(place)),
    ensures
        places.map_values(look_up).filter(pred) == places.filter(kept).map_values(look_up),
    decreases places.len(),
{
    reveal(Seq::filter);
    if places.len() > 0 {
        lemma_filter_of_map(places.drop_last(), look_up, pred, kept);
        assert(places.map_values(look_up).drop_last() =~= places.drop_last().map_values(look_up));
        assert(kept(places.last()) <==> pred(look_up(places.last())));
    }
    assert(places.map_values(look_up).filter(pred) =~= places.filter(kept).map_values(look_up));
}

/// The notes of a song that meet `pred`, in order.
proof fn lemma_chosen_cues(
    song: Song,
    pred: spec_fn(Cue) -> bool,
    wanted: spec_fn(int, int) -> bool,
) -> (places: Seq<(int, int)>)
    requires
        forall|i: int, j: int| #[trigger]
            wanted(i, j) <==> heard_note(song, i, j) && pred(cue_at(song)((i, j))),
    ensures
        lists(places, wanted),
        song.cues().filter(pred) == places.map_values(cue_at(song)),
{
    let tracks = song.file.tracks@.len();
    let all = places_of_first(song, not_muted(), tracks);
    let heard = |i: int, j: int| is_note(song, i, j) && i < tracks && not_muted()(played_by(song, i));
    let kept = |place: (int, int)| pred(cue_at(song)(place));
    lemma_cues_are_notes(song, tracks);
    lemma_places(song, not_muted(), tracks);
    lemma_filtered_places(all, heard, kept);
    lemma_filter_of_map(all, cue_at(song), pred, kept);
    let places = all.filter(kept);
    let both = |i: int, j: int| heard(i, j) && kept((i, j));
    assert forall|m: int| 0 <= m < places.len() implies wanted(
        (#[trigger] places[m]).0,
        places[m].1,
    ) by {
        assert(both(places[m].0, places[m].1));
    }
    assert forall|i: int, j: int| #[trigger] wanted(i, j) implies places.contains((i, j)) by {
        assert(both(i, j));
    }
    places
}

/// Whether something sounds, and where to go on to, as the notes of the song tell.
proof fn lemma_snap(player: PlayerView)
    ensures
        something_sounds(player) <==> sounding(player.song.cues(), player.song_time()).len() > 0,
        has_to_move(player) <==> player.snap_start() is Some,
        player.snap_start() matches Some(start) ==> forall|i: int, j: int| #[trigger]
            is_next(player, i, j) ==> note_at(player.song, i, j).start@ == start,
{
    let song = player.song;
    let cues = song.cues();
    let time = player.song_time();
    let now = |i: int, j: int| sounds_now(player, i, j);
    let places = lemma_chosen_cues(song, |cue: Cue| sounds_at(cue, time), now);
    if something_sounds(player) {
        let (i, j) = choose|i: int, j: int| sounds_now(player, i, j);
        assert(now(i, j));
    }
    if places.len() > 0 {
        assert(now(places[0].0, places[0].1));
    }
    let times = upcoming(cues, time);
    let everything = |i: int, j: int| heard_note(song, i, j);
    let all = lemma_chosen_cues(song, |cue: Cue| true, everything);
    lemma_filter_of_all(cues);
    lemma_least_exists(times);
    assert forall|i: int, j: int| #[trigger] heard_note(song, i, j) && note_at(song, i, j).start@
        >= time implies times.contains(note_at(song, i, j).start@) by {
        assert(everything(i, j));
        let m = choose|m: int| 0 <= m < all.len() && all[m] == (i, j);
        assert(cues[m] == cue_at(song)(all[m]));
    }
    assert forall|t: nat| #[trigger] times.contains(t) implies exists|i: int, j: int| #[trigger]
        heard_note(song, i, j) && note_at(song, i, j).start@ == t by {
        let k = choose|k: int| 0 <= k < cues.len() && (#[trigger] cues[k]).note.start@ == t;
        assert(everything(all[k].0, all[k].1));
        assert(cues[k] == cue_at(song)(all[k]));
        assert(heard_note(song, all[k].0, all[k].1));
    }
    if let Some(start) = least(times) {
        assert(is_least(times, start));
        let (i, j) = choose|i: int, j: int| #[trigger]
            heard_note(song, i, j) && note_at(song, i, j).start@ == start;
        assert(is_next(player, i, j));
        assert forall|a: int, b: int| #[trigger] is_next(player, a, b) implies note_at(
            song,
            a,
            b,
        ).start@ == start by {
            assert(times.contains(note_at(song, a, b).start@));
        }
    } else {
        assert forall|i: int, j: int| !is_next(player, i, j) by {
            if is_next(player, i, j) {
                assert(times.contains(note_at(song, i, j).start@));
            }
        }
    }
}

proof fn lemma_filter_of_all(cues: Seq<Cue>)
    ensures
        cues.filter(|cue: Cue| true) == cues,
    decreases cues.len(),
{
    reveal(Seq::filter);
    if cues.len() > 0 {
        lemma_filter_of_all(cues.drop_last());
    }
    assert(cues.filter(|cue: Cue| true) =~= cues);
}

/// The notes that the song is picked up with, in order.
proof fn lemma_picked_up(player: PlayerView) -> (places: Seq<(int, int)>)
    ensures
        lists(places, |i: int, j: int| is_picked_up(player, i, j)),
        player.pick_up_cues() == places.map_values(cue_at(player.song)),
{
    let song = player.song;
    let wanted = |i: int, j: int| is_picked_up(player, i, j);
    lemma_snap(player);
    match player.snap_start() {
        Some(start) => {
            let (a, b) = choose|a: int, b: int| is_next(player, a, b);
            assert(is_next(player, a, b));
            assert forall|i: int, j: int| #[trigger] wanted(i, j) <==> heard_note(song, i, j)
                && picked_up_at(cue_at(song)((i, j)), start) by {
                assert(is_next(player, a, b) && note_at(song, a, b).start@ == start);
            }
            lemma_chosen_cues(song, |cue: Cue| picked_up_at(cue, start), wanted)
        },
        None => {
            let time = player.song_time();
            assert forall|i: int, j: int| #[trigger] wanted(i, j) <==> heard_note(song, i, j)
                && sounds_at(cue_at(song)((i, j)), time) by {
                if sounds_now(player, i, j) {
                    assert(something_sounds(player));
                }
            }
            lemma_chosen_cues(song, |cue: Cue| sounds_at(cue, time), wanted)
        },
    }
}

/// What picking the song up sends out. The output is silenced, then every channel gets its
/// program. Where nothing sounds and a note is still to come, playback moves to the start of the
/// next one. Then every note that the song is picked up with is struck, each once, in the order
/// of the song, and nothing else: `places` lists them.
pub proof fn law_sync_strikes_every_note_that_is_picked_up(
    player: PlayerView,
    programs: Seq<(u8, u8)>,
) -> (places: Seq<(int, int)>)
    requires
        player.sync_fits(),
    ensures
        lists(places, |i: int, j: int| is_picked_up(player, i, j)),
        ({
            let effects = player.sync_effects(programs);
            let moves: int = if has_to_move(player) {
                2
            } else {
                0
            };
            let struck = 1 + programs.len() + moves;
            &&& effects.len() == struck + places.len()
            &&& effects[0] == Effect::StopAll
            &&& forall|k: int|
                0 <= k < programs.len() ==> sets_program(
                    effects[1 + k],
                    (#[trigger] programs[k]).0,
                    programs[k].1,
                )
            &&& has_to_move(player) ==> {
                &&& effects[programs.len() + 1int] matches Effect::SetTime(time) && forall|
                    i: int,
                    j: int,
                | #[trigger]
                    is_next(player, i, j) ==> time@ == note_at(player.song, i, j).start@
                        + player.leed_in
                &&& effects[programs.len() + 2int] == Effect::Settle
            }
            &&& forall|m: int|
                0 <= m < places.len() ==> strikes_note(
                    player,
                    effects[struck + m],
                    (#[trigger] places[m]).0,
                    places[m].1,
                )
        }),
{
    let song = player.song;
    let places = lemma_picked_up(player);
    let picked = player.pick_up_cues();
    let effects = player.sync_effects(programs);
    let struck = 1 + programs.len() + player.snap_effects().len();
    lemma_snap(player);
    lemma_sync_layout(player, programs);
    assert forall|k: int| 0 <= k < programs.len() implies sets_program(
        effects[1 + k],
        (#[trigger] programs[k]).0,
        programs[k].1,
    ) by {
        law_every_program_is_sent(programs);
        assert(effects[1 + k] == program_effects(programs)[k]);
    }
    assert forall|m: int| 0 <= m < places.len() implies strikes_note(
        player,
        effects[struck + m],
        (#[trigger] places[m]).0,
        places[m].1,
    ) by {
        assert(picked[m] == cue_at(song)(places[m]));
        lemma_cue_strikes_note(player, places[m].0, places[m].1);
    }
    if has_to_move(player) {
        lemma_move_goes_to_next(player);
    }
    places
}

/// Where the effects of picking the song up stand.
proof fn lemma_sync_layout(player: PlayerView, programs: Seq<(u8, u8)>)
    ensures
        ({
            let effects = player.sync_effects(programs);
            let moves = player.snap_effects();
            let picked = player.pick_up_cues();
            &&& effects.len() == 1 + programs.len() + moves.len() + picked.len()
            &&& effects[0] == Effect::StopAll
            &&& forall|k: int|
                0 <= k < programs.len() ==> effects[1 + k] == #[trigger] program_effects(
                    programs,
                )[k]
            &&& forall|k: int|
                0 <= k < moves.len() ==> effects[1 + programs.len() + k] == #[trigger] moves[k]
            &&& forall|m: int|
                0 <= m < picked.len() ==> effects[1 + programs.len() + moves.len() + m]
                    == player.cue_effect(#[trigger] picked[m])
        }),
{
}

/// A cue strikes its note.
proof fn lemma_cue_strikes_note(player: PlayerView, i: int, j: int)
    ensures
        strikes_note(player, player.cue_effect(cue_at(player.song)((i, j))), i, j),
{
    let note = note_at(player.song, i, j);
    law_channels_are_kept(player, note.track_color_id, note.channel);
    assert(note.note == 128 * (note.note / 128) + note.note % 128);
}

/// The move goes to the next note.
proof fn lemma_move_goes_to_next(player: PlayerView)
    requires
        player.sync_fits(),
        has_to_move(player),
    ensures
        player.snap_effects().len() == 2,
        player.snap_effects()[0] matches Effect::SetTime(time) && forall|i: int, j: int| #[trigger]
            is_next(player, i, j) ==> time@ == note_at(player.song, i, j).start@ + player.leed_in,
        player.snap_effects()[1] == Effect::Settle,
{
    broadcast use lemma_view_of_span;

    lemma_snap(player);
}

/// Every note that sounds where playback stands is struck when the song is picked up, and where
/// nothing sounds, every note that starts up to thirty milliseconds after the next one.
pub proof fn law_sync_leaves_no_note_out(
    player: PlayerView,
    programs: Seq<(u8, u8)>,
    i: int,
    j: int,
)
    requires
        player.sync_fits(),
        sounds_now(player, i, j) || (!something_sounds(player) && heard_note(player.song, i, j)
            && exists|a: int, b: int| #[trigger]
            is_next(player, a, b) && note_at(player.song, a, b).start@ <= note_at(
                player.song,
                i,
                j,
            ).start@ <= note_at(player.song, a, b).start@ + 30_000_000),
    ensures
        exists|m: int|
            0 <= m < player.sync_effects(programs).len() && strikes_note(
                player,
                #[trigger] player.sync_effects(programs)[m],
                i,
                j,
            ),
        user_note(player.song, i, j) ==> forall|key: NoteId|
            player.play_along.range.contains(key) && key < 128 && (note_at(player.song, i, j).note
                - key) % 128 == 0 ==> player.synced().play_along.required.contains(key),
{
    if sounds_now(player, i, j) {
        assert(something_sounds(player));
    }
    let wanted = |a: int, b: int| is_picked_up(player, a, b);
    let places = law_sync_strikes_every_note_that_is_picked_up(player, programs);
    assert(wanted(i, j));
    let m = choose|m: int| 0 <= m < places.len() && places[m] == (i, j);
    let moves: int = if has_to_move(player) {
        2
    } else {
        0
    };
    assert(strikes_note(
        player,
        player.sync_effects(programs)[1 + programs.len() + moves + m],
        i,
        j,
    ));
    assert forall|key: NoteId|
        user_note(player.song, i, j) && player.play_along.range.contains(key) && key < 128 && (
        note_at(player.song, i, j).note - key) % 128
            == 0 implies player.synced().play_along.required.contains(key) by {
        law_sync_requires_what_is_picked_up(player, key);
        assert(is_picked_up(player, i, j) && user_note(player.song, i, j));
    }
}

/// What is required once the song was picked up: the keys of the user's notes that it is picked
/// up with, as far as the user has them, and nothing of what was required before.
pub proof fn law_sync_requires_what_is_picked_up(player: PlayerView, key: NoteId)
    ensures
        player.synced().play_along.range == player.play_along.range,
        player.synced().play_along.required.contains(key) <==> player.play_along.range.contains(
            key,
        ) && exists|i: int, j: int| #[trigger]
            is_picked_up(player, i, j) && user_note(player.song, i, j) && key < 128 && (note_at(
                player.song,
                i,
                j,
            ).note - key) % 128 == 0,
{
    let song = player.song;
    let picked = player.pick_up_cues();
    let wanted = |i: int, j: int| is_picked_up(player, i, j);
    let places = lemma_picked_up(player);
    if player.synced().play_along.required.contains(key) {
        let k = choose|k: int|
            0 <= k < picked.len() && song.player((#[trigger] picked[k]).track_id)
                == PlayerConfig::Human && picked[k].note.note % 128 == key;
        assert(picked[k] == cue_at(song)(places[k]));
        assert(wanted(places[k].0, places[k].1));
        assert(is_picked_up(player, places[k].0, places[k].1));
        assert(heard_note(song, places[k].0, places[k].1));
    }
    if exists|i: int, j: int| #[trigger]
        is_picked_up(player, i, j) && user_note(song, i, j) && key < 128 && (note_at(
            song,
            i,
            j,
        ).note - key) % 128 == 0 {
        let (i, j) = choose|i: int, j: int| #[trigger]
            is_picked_up(player, i, j) && user_note(song, i, j) && key < 128 && (note_at(
                song,
                i,
                j,
            ).note - key) % 128 == 0;
        assert(wanted(i, j));
        let k = choose|k: int| 0 <= k < places.len() && places[k] == (i, j);
        assert(picked[k] == cue_at(song)(places[k]));
        assert(picked[k].note.note % 128 == key);
    }
}

/// When the song can be picked up: the notes that have started end at times that can be counted,
/// and so do the thirty milliseconds after the next note and the lead-in before it, where
/// playback has to move there.
pub proof fn law_when_the_song_can_be_picked_up(player: PlayerView)
    ensures
        player.sync_fits() <==> {
            &&& forall|i: int, j: int| #[trigger]
                heard_note(player.song, i, j) && note_at(player.song, i, j).start@ <= position(
                    player,
                ) ==> note_at(player.song, i, j).start@ + note_at(player.song, i, j).duration@
                    <= MAX_NANOS
            &&& has_to_move(player) ==> forall|i: int, j: int| #[trigger]
                is_next(player, i, j) ==> {
                    &&& note_at(player.song, i, j).start@ + player.leed_in <= MAX_NANOS
                    &&& note_at(player.song, i, j).start@ + 30_000_000 <= MAX_NANOS
                }
        },
{
    let song = player.song;
    let cues = song.cues();
    let everything = |i: int, j: int| heard_note(song, i, j);
    let all = lemma_chosen_cues(song, |cue: Cue| true, everything);
    lemma_filter_of_all(cues);
    lemma_snap(player);
    let ends_fit = forall|i: int, j: int| #[trigger]
        heard_note(song, i, j) && note_at(song, i, j).start@ <= position(player) ==> note_at(
            song,
            i,
            j,
        ).start@ + note_at(song, i, j).duration@ <= MAX_NANOS;
    if ends_fit {
        assert forall|k: int|
            0 <= k < cues.len() && (#[trigger] cues[k]).note.start@
                <= player.song_time() implies cues[k].note.start@ + cues[k].note.duration@
            <= MAX_NANOS by {
            assert(everything(all[k].0, all[k].1));
            assert(cues[k] == cue_at(song)(all[k]));
            assert(heard_note(song, all[k].0, all[k].1));
        }
    }
    if player.sync_fits() {
        assert forall|i: int, j: int| #[trigger]
            heard_note(song, i, j) && note_at(song, i, j).start@ <= position(
                player,
            ) implies note_at(song, i, j).start@ + note_at(song, i, j).duration@ <= MAX_NANOS by {
            assert(everything(i, j));
            let m = choose|m: int| 0 <= m < all.len() && all[m] == (i, j);
            assert(cues[m] == cue_at(song)(all[m]));
        }
    }
    if has_to_move(player) {
        let (a, b) = choose|a: int, b: int| is_next(player, a, b);
        assert(is_next(player, a, b));
    }
}

/// The tables of a player hold the start of every note of the user, each note once: in
/// ascending order, and moved by the lead-in at the same places of the other table. `places`
/// lists the notes.
pub proof fn law_tables_hold_every_note(player: PlayerView) -> (places: Seq<(int, int)>)
    requires
        player.wf(),
    ensures
        lists(places, |i: int, j: int| user_note(player.song, i, j)),
        player.human_note_starts.to_multiset() == places.map_values(
            |place: (int, int)| note_at(player.song, place.0, place.1).start@ as u128,
        ).to_multiset(),
        player.human_note_targets.len() == player.human_note_starts.len(),
        forall|k: int, n: int|
            0 <= k < n < player.human_note_starts.len() ==> player.human_note_starts[k]
                <= player.human_note_starts[n],
        forall|k: int|
            0 <= k < player.human_note_starts.len() ==> #[trigger] player.human_note_targets[k]
                == player.human_note_starts[k] + player.leed_in,
{
    let song = player.song;
    let tracks = song.file.tracks@.len();
    let places = places_of_first(song, for_the_user(), tracks);
    let found = |i: int, j: int|
        is_note(song, i, j) && i < tracks && for_the_user()(played_by(song, i));
    let wanted = |i: int, j: int| user_note(song, i, j);
    lemma_places(song, for_the_user(), tracks);
    lemma_start_list(song, tracks);
    assert forall|m: int| 0 <= m < places.len() implies wanted(
        (#[trigger] places[m]).0,
        places[m].1,
    ) by {
        assert(found(places[m].0, places[m].1));
    }
    assert forall|i: int, j: int| #[trigger] wanted(i, j) implies places.contains((i, j)) by {
        assert(found(i, j));
    }
    places
}

proof fn lemma_start_list(song: Song, n: nat)
    ensures
        song.starts_of_first(n) == places_of_first(song, for_the_user(), n).map_values(
            |place: (int, int)| note_at(song, place.0, place.1).start@ as u128,
        ),
    decreases n,
{
    if n > 0 {
        lemma_start_list(song, (n - 1) as nat);
    }
    assert(song.starts_of_first(n) =~= places_of_first(song, for_the_user(), n).map_values(
        |place: (int, int)| note_at(song, place.0, place.1).start@ as u128,
    ));
}

} // verus!
