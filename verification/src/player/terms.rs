//! The plain terms in which the laws of the player speak of a song.

use super::PlayerView;
use crate::midi::MidiMessage;
use crate::song::{MidiEvent, MidiNote, PlayerConfig, Song};
use vstd::prelude::*;

verus! {

/// Who plays track `i`.
pub open spec fn played_by(song: Song, i: int) -> PlayerConfig {
    song.config.tracks@[song.file.tracks@[i].track_id as int].player
}

/// There is a note `j` on track `i`.
pub open spec fn is_note(song: Song, i: int, j: int) -> bool {
    0 <= i < song.file.tracks@.len() && 0 <= j < song.file.tracks@[i].notes@.len()
}

/// Note `j` of track `i`.
pub open spec fn note_at(song: Song, i: int, j: int) -> MidiNote {
    song.file.tracks@[i].notes@[j]
}

/// Note `j` of track `i` is for the user to play.
pub open spec fn user_note(song: Song, i: int, j: int) -> bool {
    is_note(song, i, j) && played_by(song, i) == PlayerConfig::Human
}

/// Note `j` of track `i` can be heard: its track is not muted.
pub open spec fn heard_note(song: Song, i: int, j: int) -> bool {
    is_note(song, i, j) && played_by(song, i) != PlayerConfig::Mute
}

/// `event` strikes `key` on a track of the user.
pub open spec fn strikes_for_user(song: Song, event: MidiEvent, key: u8) -> bool {
    &&& song.config.tracks@[event.track_id as int].player == PlayerConfig::Human
    &&& event.message matches MidiMessage::NoteOn { key: struck, vel } && struck == key && vel != 0
}

/// `event` strikes some key on a track of the user.
pub open spec fn is_strike_for_user(song: Song, event: MidiEvent) -> bool {
    exists|key: u8| strikes_for_user(song, event, key)
}

/// Where playback stands in the song: as far as it has come since the end of the lead-in.
pub open spec fn position(player: PlayerView) -> nat {
    if player.playback.time@ < player.leed_in {
        0
    } else {
        (player.playback.time@ - player.leed_in) as nat
    }
}

/// `out` is the channel on which a note or an event with this track color and this channel goes
/// out: the number of its color where each color has a channel of its own, else its channel;
/// beyond the sixteenth channel the count starts over.
pub open spec fn goes_out_on(
    player: PlayerView,
    track_color_id: usize,
    channel: u8,
    out: u8,
) -> bool {
    let number: int = if player.separate_channels {
        track_color_id as int
    } else {
        channel as int
    };
    out < 16 && (number - out) % 16 == 0
}

/// What has a channel of the sixteen goes out on just that channel: each channel on its own, or
/// each color, where colors have channels. What lies beyond the sixteenth wraps around.
pub proof fn law_channels_are_kept(player: PlayerView, track_color_id: usize, channel: u8)
    ensures
        ({
            let out = player.output_channel(track_color_id, channel);
            &&& goes_out_on(player, track_color_id, channel, out)
            &&& !player.separate_channels && channel < 16 ==> out == channel
            &&& player.separate_channels && track_color_id < 16 ==> out == track_color_id
        }),
{
    let color = track_color_id as int;
    let low = color % 256;
    assert(low == 16 * (low / 16) + low % 16);
    assert(color == 256 * (color / 256) + low);
    let whole = 16 * (color / 256) + low / 16;
    assert(color - low % 16 == 16 * whole);
    assert((16 * whole) % 16 == 0);
    assert(channel == 16 * (channel / 16) + channel % 16);
}

/// The place `a` comes before the place `b`: on an earlier track, or earlier on the same track.
pub open spec fn comes_before(a: (int, int), b: (int, int)) -> bool {
    a.0 < b.0 || (a.0 == b.0 && a.1 < b.1)
}

/// `places` lists the notes that are `wanted`, each once, in the order of the song: track by
/// track, and on each track as they stand there.
pub open spec fn lists(places: Seq<(int, int)>, wanted: spec_fn(int, int) -> bool) -> bool {
    &&& forall|m: int| 0 <= m < places.len() ==> wanted((#[trigger] places[m]).0, places[m].1)
    &&& forall|m: int, n: int|
        0 <= m < n < places.len() ==> comes_before(#[trigger] places[m], #[trigger] places[n])
    &&& forall|i: int, j: int| #[trigger] wanted(i, j) ==> places.contains((i, j))
}

/// The places of the notes on those of the first `n` tracks whose player is `wanted`.
pub(crate) open spec fn places_of_first(
    song: Song,
    wanted: spec_fn(PlayerConfig) -> bool,
    n: nat,
) -> Seq<(int, int)>
    decreases n,
{
    if n == 0 {
        Seq::empty()
    } else {
        let earlier = places_of_first(song, wanted, (n - 1) as nat);
        if wanted(played_by(song, n - 1)) {
            earlier + Seq::new(song.file.tracks@[n - 1].notes@.len(), |j: int| (n - 1, j))
        } else {
            earlier
        }
    }
}

/// They are all there, in order.
pub(crate) proof fn lemma_places(song: Song, wanted: spec_fn(PlayerConfig) -> bool, n: nat)
    requires
        n <= song.file.tracks@.len(),
    ensures
        lists(
            places_of_first(song, wanted, n),
            |i: int, j: int| is_note(song, i, j) && i < n && wanted(played_by(song, i)),
        ),
    decreases n,
{
    let places = places_of_first(song, wanted, n);
    let here = |i: int, j: int| is_note(song, i, j) && i < n && wanted(played_by(song, i));
    if n > 0 {
        let earlier = places_of_first(song, wanted, (n - 1) as nat);
        let before = |i: int, j: int|
            is_note(song, i, j) && i < n - 1 && wanted(played_by(song, i));
        lemma_places(song, wanted, (n - 1) as nat);
        assert forall|m: int| 0 <= m < earlier.len() implies (#[trigger] earlier[m]).0 < n - 1 by {
            assert(before(earlier[m].0, earlier[m].1));
        }
        assert forall|m: int| 0 <= m < places.len() implies here(
            (#[trigger] places[m]).0,
            places[m].1,
        ) by {
            if m < earlier.len() {
                assert(places[m] == earlier[m]);
                assert(before(earlier[m].0, earlier[m].1));
            }
        }
        assert forall|a: int, b: int| 0 <= a < b < places.len() implies comes_before(
            #[trigger] places[a],
            #[trigger] places[b],
        ) by {
            if b < earlier.len() {
                assert(places[a] == earlier[a] && places[b] == earlier[b]);
            } else if a < earlier.len() {
                assert(places[a] == earlier[a]);
            }
        }
        assert forall|i: int, j: int| #[trigger] here(i, j) implies places.contains((i, j)) by {
            if i < n - 1 {
                assert(before(i, j));
                let m = choose|m: int| 0 <= m < earlier.len() && earlier[m] == (i, j);
                assert(places[m] == (i, j));
            } else {
                assert(places[earlier.len() + j] == (i, j));
            }
        }
    }
}

/// What is left of a list after a filter lists what meets the filter.
pub(crate) proof fn lemma_filtered_places(
    places: Seq<(int, int)>,
    wanted: spec_fn(int, int) -> bool,
    kept: spec_fn((int, int)) -> bool,
)
    requires
        lists(places, wanted),
    ensures
        lists(places.filter(kept), |i: int, j: int| wanted(i, j) && kept((i, j))),
{
    let left = places.filter(kept);
    let both = |i: int, j: int| wanted(i, j) && kept((i, j));
    lemma_filter_keeps_order(places, kept);
    assert forall|m: int| 0 <= m < left.len() implies both((#[trigger] left[m]).0, left[m].1) by {
        places.lemma_filter_pred(kept, m);
        let n = choose|n: int| 0 <= n < places.len() && places[n] == left[m];
        assert(wanted(places[n].0, places[n].1));
    }
    assert forall|i: int, j: int| #[trigger] both(i, j) implies left.contains((i, j)) by {
        assert(wanted(i, j));
        let n = choose|n: int| 0 <= n < places.len() && places[n] == (i, j);
        places.lemma_filter_contains(kept, n);
    }
}

/// A filter leaves things in their order, and adds none.
proof fn lemma_filter_keeps_order(places: Seq<(int, int)>, kept: spec_fn((int, int)) -> bool)
    requires
        forall|m: int, n: int|
            0 <= m < n < places.len() ==> comes_before(#[trigger] places[m], #[trigger] places[n]),
    ensures
        ({
            let left = places.filter(kept);
            &&& forall|m: int, n: int|
                0 <= m < n < left.len() ==> comes_before(#[trigger] left[m], #[trigger] left[n])
            &&& forall|m: int|
                0 <= m < left.len() ==> exists|n: int|
                    0 <= n < places.len() && places[n] == #[trigger] left[m]
        }),
    decreases places.len(),
{
    reveal(Seq::filter);
    let left = places.filter(kept);
    if places.len() > 0 {
        let shorter = places.drop_last();
        let rest = shorter.filter(kept);
        assert forall|m: int, n: int| 0 <= m < n < shorter.len() implies comes_before(
            #[trigger] shorter[m],
            #[trigger] shorter[n],
        ) by {
            assert(shorter[m] == places[m] && shorter[n] == places[n]);
        }
        lemma_filter_keeps_order(shorter, kept);
        assert forall|m: int| 0 <= m < left.len() implies exists|n: int|
            0 <= n < places.len() && places[n] == #[trigger] left[m] by {
            if m < rest.len() {
                let n = choose|n: int| 0 <= n < shorter.len() && shorter[n] == rest[m];
                assert(places[n] == left[m]);
            } else {
                assert(places[places.len() - 1] == left[m]);
            }
        }
        assert forall|m: int, n: int| 0 <= m < n < left.len() implies comes_before(
            #[trigger] left[m],
            #[trigger] left[n],
        ) by {
            if n < rest.len() {
                assert(left[m] == rest[m] && left[n] == rest[n]);
            } else {
                assert(left[m] == rest[m]);
                let k = choose|k: int| 0 <= k < shorter.len() && shorter[k] == rest[m];
                assert(places[k] == left[m] && places[places.len() - 1] == left[n]);
            }
        }
    }
}

} // verus!
