use neothesia::bt_bridge::BtBridgeHandle;
use neothesia::keyboard::KeyboardRange;
use neothesia::midi::MidiMessage;
use neothesia::player::frame::{Frame, Step};
use neothesia::player::{Effect, MidiPlayer, PlaybackState};
use neothesia::song::{
    MidiEvent, MidiFile, MidiNote, MidiTrack, PlayerConfig, Song, SongConfig, TrackConfig,
};
use neothesia::time::Duration;
use std::collections::HashSet;

fn ms(millis: u64) -> Duration {
    Duration::from_millis(millis)
}

fn at(millis: u64) -> PlaybackState {
    PlaybackState { time: ms(millis), length: ms(60_000), paused: false, finished: false }
}

fn note(start: u64, duration: u64, note: u8) -> MidiNote {
    MidiNote { start: ms(start), duration: ms(duration), note, channel: 2, track_color_id: 17 }
}

fn song(tracks: Vec<(PlayerConfig, Vec<MidiNote>)>) -> Song {
    let config = SongConfig {
        tracks: tracks.iter().map(|(player, _)| TrackConfig { player: *player }).collect(),
    };
    let file = MidiFile {
        tracks: tracks
            .into_iter()
            .enumerate()
            .map(|(track_id, (_, notes))| MidiTrack { track_id, notes })
            .collect(),
    };
    Song { file, config }
}

fn range() -> KeyboardRange {
    KeyboardRange::new((21u8..=108).collect())
}

fn player(song: Song) -> MidiPlayer {
    let (player, effects) = MidiPlayer::new_with_lead_in(song, range(), false, ms(1_000), at(0));
    assert_eq!(effects, vec![Effect::SendPrograms, Effect::Update(Duration::zero())]);
    player
}

fn event(track_id: usize, timestamp: u64, message: MidiMessage) -> MidiEvent {
    MidiEvent { channel: 2, timestamp: ms(timestamp), message, track_id, track_color_id: 17 }
}

fn on(key: u8) -> MidiMessage {
    MidiMessage::NoteOn { key, vel: 64 }
}

fn midi(channel: u8, message: MidiMessage) -> Effect {
    Effect::Midi { channel, message }
}

fn lit(channel: u8, key: u8, vel: u8) -> Effect {
    midi(channel, MidiMessage::NoteOn { key, vel })
}

fn required(player: &MidiPlayer) -> HashSet<u8> {
    player.play_along().required_notes().clone()
}

fn next(step: Step) -> Frame {
    match step {
        Step::Advance(frame) => frame,
        Step::Finished { .. } => panic!("the frame is over"),
    }
}

fn finished(step: Step) -> (Vec<MidiEvent>, Vec<Effect>) {
    match step {
        Step::Finished { events, effects } => (events, effects),
        Step::Advance(_) => panic!("the frame goes on"),
    }
}

#[test]
fn the_default_lead_in_is_three_seconds() {
    let song = song(vec![(PlayerConfig::Human, vec![note(0, 100, 60)])]);
    let (player, effects) = MidiPlayer::new(song, range(), false, at(0));
    assert_eq!(*player.leed_in(), Duration::from_secs(3));
    assert_eq!(effects, vec![Effect::SendPrograms, Effect::Update(Duration::zero())]);
    assert_eq!(player.update(Duration::from_secs(10)).advance(), Duration::from_secs(3));
}

#[test]
fn a_frame_stops_at_the_next_note_of_the_user() {
    let mut player = player(song(vec![
        (PlayerConfig::Auto, vec![note(10, 5, 50)]),
        (PlayerConfig::Human, vec![note(700, 5, 60), note(200, 5, 61)]),
        (PlayerConfig::Human, vec![note(500, 5, 62), note(200, 5, 63)]),
    ]));
    player.observe(at(1_000));
    assert_eq!(player.update(ms(16)).advance(), ms(16));
    assert_eq!(player.update(ms(1_000)).advance(), ms(200));
    player.observe(at(1_200));
    assert_eq!(player.update(ms(1_000)).advance(), ms(300));
    player.observe(at(1_500));
    assert_eq!(player.update(ms(1_000)).advance(), ms(200));
    player.observe(at(1_700));
    assert_eq!(player.update(ms(1_000)).advance(), ms(1_000));
}

#[test]
fn a_frame_without_notes_of_the_user_runs_its_length() {
    let mut player = player(song(vec![(PlayerConfig::Auto, vec![note(0, 100, 60)])]));
    let frame = player.update(ms(2_000));
    assert_eq!(frame.advance(), ms(2_000));
    let played = vec![event(0, 0, on(60)), event(0, 100, MidiMessage::NoteOff { key: 60, vel: 0 })];
    let (events, effects) = finished(player.continue_update(frame, at(2_000), played.clone()));
    assert_eq!(events, played);
    assert_eq!(
        effects,
        vec![midi(2, on(60)), midi(2, MidiMessage::NoteOff { key: 60, vel: 0 })]
    );
    assert!(required(&player).is_empty());
    assert_eq!(player.time(), ms(2_000));
}

#[test]
fn a_chord_is_pulled_in_as_a_whole() {
    let mut player = player(song(vec![(
        PlayerConfig::Human,
        vec![note(0, 500, 60), note(7, 500, 64), note(20, 500, 67), note(21, 500, 72)],
    )]));
    let frame = player.update(ms(5_000));
    assert_eq!(frame.advance(), ms(1_000));
    let frame = next(player.continue_update(frame, at(1_000), vec![event(0, 0, on(60))]));
    assert_eq!(frame.advance(), ms(7));
    assert!(required(&player).is_empty());
    let frame = next(player.continue_update(frame, at(1_007), vec![event(0, 7, on(64))]));
    assert_eq!(frame.advance(), ms(13));
    let (events, effects) =
        finished(player.continue_update(frame, at(1_020), vec![event(0, 20, on(67))]));
    assert_eq!(
        events,
        vec![event(0, 0, on(60)), event(0, 7, on(64)), event(0, 20, on(67))]
    );
    assert_eq!(effects, vec![lit(2, 60, 80), lit(2, 64, 80), lit(2, 67, 80)]);
    assert_eq!(required(&player), HashSet::from([60, 64, 67]));
}

#[test]
fn a_repeated_key_is_not_part_of_the_chord() {
    let mut player = player(song(vec![(
        PlayerConfig::Human,
        vec![note(0, 5, 60), note(10, 5, 60), note(15, 5, 64)],
    )]));
    let frame = player.update(ms(5_000));
    let (events, _) =
        finished(player.continue_update(frame, at(1_000), vec![event(0, 0, on(60))]));
    assert_eq!(events.len(), 1);
    assert_eq!(required(&player), HashSet::from([60]));
}

#[test]
fn a_key_struck_by_another_track_leaves_the_chord_whole() {
    let song = song(vec![
        (PlayerConfig::Human, vec![note(100, 500, 60), note(110, 500, 64)]),
        (PlayerConfig::Auto, vec![note(100, 500, 64)]),
    ]);
    let (mut player, _) =
        MidiPlayer::new_with_lead_in(song, range(), false, Duration::zero(), at(0));
    let frame = player.update(ms(5_000));
    assert_eq!(frame.advance(), ms(100));
    let played = vec![event(0, 100, on(60)), event(1, 100, on(64))];
    let frame = next(player.continue_update(frame, at(100), played));
    assert_eq!(frame.advance(), ms(10));
    let (_, effects) =
        finished(player.continue_update(frame, at(110), vec![event(0, 110, on(64))]));
    assert_eq!(effects, vec![lit(2, 60, 80), midi(2, on(64)), lit(2, 64, 80)]);
    assert_eq!(required(&player), HashSet::from([60, 64]));
}

#[test]
fn notes_that_start_together_stop_the_frame_once() {
    let mut player = player(song(vec![
        (PlayerConfig::Human, vec![note(300, 5, 60), note(100, 5, 61), note(100, 5, 62)]),
        (PlayerConfig::Human, vec![note(100, 5, 63)]),
    ]));
    assert_eq!(player.update(ms(9_000)).advance(), ms(1_100));
    player.observe(at(1_100));
    assert_eq!(player.update(ms(9_000)).advance(), ms(200));
    player.observe(at(1_300));
    assert_eq!(player.update(ms(9_000)).advance(), ms(9_000));
}

#[test]
fn the_stops_of_a_song_outlast_what_happens_to_the_player() {
    let mut player = player(song(vec![(
        PlayerConfig::Human,
        vec![note(300, 5, 60), note(100, 5, 61)],
    )]));
    player.user_midi_event(0, &on(61));
    player.pause();
    player.resume();
    player.observe(at(1_200));
    player.sync_state_at_current_time(&vec![]);
    player.clear();
    player.observe(at(0));
    assert_eq!(player.update(ms(9_000)).advance(), ms(1_100));
    player.observe(at(1_100));
    assert_eq!(player.update(ms(9_000)).advance(), ms(200));
}

#[test]
fn an_empty_answer_ends_the_frame() {
    let mut player = player(song(vec![(
        PlayerConfig::Human,
        vec![note(0, 500, 60), note(7, 500, 64)],
    )]));
    let frame = player.update(ms(5_000));
    let frame = next(player.continue_update(frame, at(1_000), vec![event(0, 0, on(60))]));
    let (events, effects) = finished(player.continue_update(frame, at(1_000), vec![]));
    assert_eq!(events, vec![event(0, 0, on(60))]);
    assert_eq!(effects, vec![lit(2, 60, 80)]);
}

#[test]
fn the_first_strike_opens_the_chord() {
    let mut player = player(song(vec![(
        PlayerConfig::Human,
        vec![note(0, 5, 60), note(15, 5, 61), note(40, 5, 62)],
    )]));
    player.observe(at(1_010));
    let frame = player.update(ms(5));
    let played = vec![event(0, 15, on(61)), event(0, 0, on(60))];
    let (_, effects) = finished(player.continue_update(frame, at(1_015), played));
    assert_eq!(effects, vec![lit(2, 61, 120), lit(2, 60, 80)]);
}

#[test]
fn tracks_of_the_user_light_guides() {
    let mut player = player(song(vec![(PlayerConfig::Human, vec![]), (PlayerConfig::Mute, vec![])]));
    let frame = player.update(ms(16));
    let played = vec![
        event(0, 0, on(61)),
        event(0, 0, on(110)),
        event(0, 1, MidiMessage::NoteOff { key: 61, vel: 3 }),
        event(0, 1, MidiMessage::NoteOn { key: 61, vel: 0 }),
        event(0, 1, MidiMessage::Controller { controller: 64, value: 127 }),
        event(1, 1, on(62)),
    ];
    let (_, effects) = finished(player.continue_update(frame, at(16), played));
    assert_eq!(
        effects,
        vec![
            lit(2, 61, 120),
            midi(2, MidiMessage::Controller { controller: 64, value: 127 }),
        ]
    );
    assert_eq!(required(&player), HashSet::from([61]));
}

#[test]
fn track_colors_can_have_channels_of_their_own() {
    let song = song(vec![(PlayerConfig::Auto, vec![])]);
    let (mut player, _) =
        MidiPlayer::new_with_lead_in(song, range(), true, Duration::zero(), at(0));
    let frame = player.update(ms(16));
    let mut odd = event(0, 0, on(60));
    odd.track_color_id = 256 + 35;
    let (_, effects) =
        finished(player.continue_update(frame, at(16), vec![event(0, 0, on(60)), odd]));
    assert_eq!(effects, vec![midi(1, on(60)), midi(3, on(60))]);
}

#[test]
fn channels_beyond_the_sixteenth_wrap_around() {
    let mut player = player(song(vec![(PlayerConfig::Auto, vec![])]));
    let frame = player.update(ms(16));
    let mut odd = event(0, 0, on(60));
    odd.channel = 18;
    let (_, effects) = finished(player.continue_update(frame, at(16), vec![odd]));
    assert_eq!(effects, vec![midi(2, on(60))]);
}

#[test]
fn the_strike_of_the_user_switches_the_guide_off() {
    let mut player = player(song(vec![(PlayerConfig::Human, vec![])]));
    let frame = player.update(ms(16));
    finished(player.continue_update(frame, at(16), vec![event(0, 0, on(60))]));
    assert!(player.user_midi_event(3, &MidiMessage::NoteOn { key: 60, vel: 0 }).is_empty());
    assert!(player.user_midi_event(3, &MidiMessage::NoteOff { key: 60, vel: 1 }).is_empty());
    assert!(player.user_midi_event(3, &on(61)).is_empty());
    assert!(player.user_midi_event(3, &MidiMessage::ProgramChange { program: 60 }).is_empty());
    assert_eq!(required(&player), HashSet::from([60]));
    assert_eq!(
        player.user_midi_event(3, &on(60)),
        vec![midi(0, MidiMessage::NoteOff { key: 60, vel: 0 })]
    );
    assert!(player.play_along().are_required_keys_pressed());
    assert!(player.user_midi_event(3, &on(60)).is_empty());
}

#[test]
fn programs_are_cut_to_their_widths() {
    let player = player(song(vec![]));
    assert_eq!(
        player.send_midi_programs_for_timestamp(&vec![(0, 5), (18, 200)]),
        vec![
            midi(0, MidiMessage::ProgramChange { program: 5 }),
            midi(2, MidiMessage::ProgramChange { program: 72 }),
        ]
    );
}

#[test]
fn pausing_and_going_on() {
    let mut player = player(song(vec![(PlayerConfig::Human, vec![])]));
    let frame = player.update(ms(16));
    finished(player.continue_update(frame, at(16), vec![event(0, 0, on(60))]));
    assert!(!player.is_paused());
    assert_eq!(player.pause_resume(), vec![Effect::StopAll, Effect::Pause]);
    assert!(required(&player).is_empty());
    let mut paused = at(16);
    paused.paused = true;
    player.observe(paused);
    assert!(player.is_paused());
    assert_eq!(player.pause_resume(), vec![Effect::Resume]);
    assert_eq!(player.pause(), vec![Effect::StopAll, Effect::Pause]);
    assert_eq!(player.resume(), vec![Effect::Resume]);
    assert_eq!(player.clear(), vec![Effect::StopAll]);
}

#[test]
fn moving_through_the_song() {
    let mut player = player(song(vec![]));
    player.observe(at(1_500));
    assert_eq!(player.set_time_silent(ms(7)), vec![Effect::SetTime(ms(7)), Effect::Settle]);
    assert_eq!(
        player.set_time(ms(7)),
        vec![Effect::SetTime(ms(7)), Effect::Settle, Effect::Sync]
    );
    assert_eq!(player.rewind_silent(-500), vec![Effect::SetTime(ms(1_000)), Effect::Settle]);
    assert_eq!(player.rewind_silent(500), vec![Effect::SetTime(ms(2_000)), Effect::Settle]);
    assert_eq!(player.rewind_silent(0), vec![Effect::SetTime(ms(1_500)), Effect::Settle]);
    assert_eq!(
        player.rewind(-5_000),
        vec![Effect::SetTime(Duration::zero()), Effect::Settle, Effect::Sync]
    );
}

#[test]
fn readings_of_the_engine() {
    let mut player = player(song(vec![]));
    player.observe(PlaybackState {
        time: ms(5),
        length: ms(9),
        paused: true,
        finished: true,
    });
    assert_eq!(player.time(), ms(5));
    assert_eq!(player.length(), ms(9));
    assert!(player.is_paused());
    assert!(player.is_finished());
    assert_eq!(*player.leed_in(), ms(1_000));
    assert!(player.song().file.tracks.is_empty());
}

#[test]
fn notes_that_sound_now_are_picked_up() {
    let mut player = player(song(vec![
        (PlayerConfig::Human, vec![note(0, 100, 61), note(50, 50, 62), note(101, 5, 63)]),
        (PlayerConfig::Auto, vec![note(90, 20, 70)]),
        (PlayerConfig::Mute, vec![note(90, 20, 71)]),
    ]));
    player.observe(at(1_099));
    assert!(player.can_sync());
    assert_eq!(
        player.sync_state_at_current_time(&vec![(1, 2)]),
        vec![
            Effect::StopAll,
            midi(1, MidiMessage::ProgramChange { program: 2 }),
            lit(2, 61, 120),
            lit(2, 62, 80),
            lit(2, 70, 120),
        ]
    );
    assert_eq!(required(&player), HashSet::from([61, 62]));
}

#[test]
fn silence_is_skipped_when_the_song_is_picked_up() {
    let mut player = player(song(vec![
        (PlayerConfig::Human, vec![note(0, 100, 60), note(200, 5, 62), note(230, 5, 64)]),
        (PlayerConfig::Auto, vec![note(231, 5, 65), note(201, 5, 66), note(90, 9, 67)]),
        (PlayerConfig::Mute, vec![note(150, 20, 71)]),
    ]));
    player.observe(at(1_100));
    assert_eq!(
        player.sync_state_at_current_time(&vec![]),
        vec![
            Effect::StopAll,
            Effect::SetTime(ms(1_200)),
            Effect::Settle,
            lit(2, 62, 80),
            lit(2, 64, 80),
            lit(2, 66, 120),
        ]
    );
    assert_eq!(required(&player), HashSet::from([62, 64]));
}

#[test]
fn a_note_without_length_is_still_to_come() {
    let mut player = player(song(vec![(PlayerConfig::Human, vec![note(100, 0, 60)])]));
    player.observe(at(1_100));
    assert_eq!(
        player.sync_state_at_current_time(&vec![]),
        vec![Effect::StopAll, Effect::SetTime(ms(1_100)), Effect::Settle, lit(2, 60, 80)]
    );
}

#[test]
fn the_lead_in_counts_as_the_start_of_the_song() {
    let mut player = player(song(vec![(PlayerConfig::Human, vec![note(0, 10, 60)])]));
    player.observe(at(400));
    assert_eq!(
        player.sync_state_at_current_time(&vec![]),
        vec![Effect::StopAll, lit(2, 60, 80)]
    );
}

#[test]
fn nothing_is_picked_up_after_the_last_note() {
    let mut player = player(song(vec![(PlayerConfig::Human, vec![note(0, 10, 60)])]));
    player.observe(at(5_000));
    assert_eq!(player.sync_state_at_current_time(&vec![]), vec![Effect::StopAll]);
    assert!(required(&player).is_empty());
}

#[test]
fn notes_beyond_seven_bits_are_cut() {
    let mut player = player(song(vec![(PlayerConfig::Human, vec![note(0, 10, 188)])]));
    player.observe(at(1_000));
    assert_eq!(
        player.sync_state_at_current_time(&vec![]),
        vec![Effect::StopAll, lit(2, 60, 120)]
    );
    assert_eq!(required(&player), HashSet::from([60]));
}

#[test]
fn times_that_cannot_be_counted_are_told() {
    let far = Duration::from_secs(u64::MAX);
    let mut late = note(0, 10, 60);
    late.start = far;
    let late_song = song(vec![(PlayerConfig::Human, vec![late])]);
    assert!(late_song.is_configured());
    assert!(late_song.fits_lead_in(Duration::zero()));
    assert!(!late_song.fits_lead_in(ms(1_000)));

    let mut player = player(song(vec![(PlayerConfig::Auto, vec![late])]));
    assert!(!player.can_sync());
    player.observe(at(0));
    let mut events = vec![event(0, 0, on(60))];
    assert!(player.fits_chord(&events));
    assert!(player.song().is_configured_for(&events));
    events[0].track_id = 1;
    assert!(!player.song().is_configured_for(&events));
}

#[test]
fn a_chord_at_the_end_of_time_is_told() {
    let mut late = event(0, 0, on(60));
    late.timestamp = Duration::new(u64::MAX, 999_999_999);
    let player = player(song(vec![(PlayerConfig::Human, vec![])]));
    assert!(!player.fits_chord(&vec![late]));
    assert!(player.fits_chord(&vec![late, event(0, 0, on(61))]));
    assert!(player.fits_chord(&vec![]));
}

#[test]
fn a_track_without_settings_is_told() {
    let mut broken = song(vec![(PlayerConfig::Human, vec![])]);
    broken.file.tracks[0].track_id = 1;
    assert!(!broken.is_configured());
}

#[test]
fn picking_the_song_up_twice_does_the_same_twice() {
    let mut player = player(song(vec![(PlayerConfig::Human, vec![note(200, 5, 62)])]));
    player.observe(at(1_100));
    let first = player.sync_state_at_current_time(&vec![(0, 1)]);
    let second = player.sync_state_at_current_time(&vec![(0, 1)]);
    assert_eq!(first, second);
    assert_eq!(required(&player), HashSet::from([62]));
}

#[test]
fn picking_the_song_up_where_it_moved_to_stays_there() {
    let mut player = player(song(vec![(
        PlayerConfig::Human,
        vec![note(200, 5, 62), note(400, 0, 65)],
    )]));
    player.observe(at(1_100));
    let effects = player.sync_state_at_current_time(&vec![]);
    assert_eq!(effects[1], Effect::SetTime(ms(1_200)));
    player.observe(at(1_200));
    assert_eq!(
        player.sync_state_at_current_time(&vec![]),
        vec![Effect::StopAll, lit(2, 62, 80)]
    );
    player.observe(at(1_300));
    let effects = player.sync_state_at_current_time(&vec![]);
    assert_eq!(effects[1], Effect::SetTime(ms(1_400)));
    player.observe(at(1_400));
    assert_eq!(player.sync_state_at_current_time(&vec![]), effects);
}

#[test]
fn muted_notes_do_not_matter_when_the_song_is_picked_up() {
    let with_muted = |muted: Vec<MidiNote>| {
        player(song(vec![
            (PlayerConfig::Mute, muted),
            (PlayerConfig::Human, vec![note(200, 50, 62)]),
            (PlayerConfig::Auto, vec![note(210, 50, 65)]),
        ]))
    };
    let mut silent = with_muted(vec![]);
    let mut crowded =
        with_muted(vec![note(0, 900, 70), note(150, 5, 71), note(200, 50, 72), note(205, 0, 73)]);
    for time in [0, 1_000, 1_149, 1_150, 1_200, 1_230, 1_300] {
        silent.observe(at(time));
        crowded.observe(at(time));
        let effects = silent.sync_state_at_current_time(&vec![(0, 1)]);
        assert_eq!(crowded.sync_state_at_current_time(&vec![(0, 1)]), effects);
        assert_eq!(required(&crowded), required(&silent));
    }
}

#[test]
fn a_seek_lands_on_the_next_note() {
    let landed = |time: u64| {
        let mut player = player(song(vec![
            (PlayerConfig::Auto, vec![note(300, 100, 60), note(500, 100, 64)]),
            (PlayerConfig::Mute, vec![note(450, 10, 67)]),
        ]));
        let mut now = ms(0);
        for effect in player.set_time(ms(time)) {
            match effect {
                Effect::SetTime(moved) => now = moved,
                Effect::Settle => {}
                Effect::Sync => {
                    player.observe(PlaybackState { time: now, ..at(0) });
                    for effect in player.sync_state_at_current_time(&vec![]) {
                        if let Effect::SetTime(moved) = effect {
                            now = moved;
                        }
                    }
                }
                _ => panic!("not part of a seek"),
            }
        }
        now
    };
    assert_eq!(landed(0), ms(1_300));
    assert_eq!(landed(1_200), ms(1_300));
    assert_eq!(landed(1_300), ms(1_300));
    assert_eq!(landed(1_399), ms(1_399));
    assert_eq!(landed(1_400), ms(1_500));
    assert_eq!(landed(1_600), ms(1_600));
}

#[test]
fn a_frame_hands_out_the_events_of_its_span() {
    let mut player = player(song(vec![
        (PlayerConfig::Human, vec![note(0, 5, 60), note(10, 5, 64)]),
        (PlayerConfig::Auto, vec![note(4, 5, 50)]),
        (PlayerConfig::Mute, vec![note(6, 5, 51)]),
    ]));
    let all = vec![
        event(0, 0, on(60)),
        event(1, 4, on(50)),
        event(2, 6, on(51)),
        event(0, 10, on(64)),
        event(1, 30, on(52)),
    ];
    let between = |from: Duration, to: Duration| -> Vec<MidiEvent> {
        let time = |event: &MidiEvent| event.timestamp.plus(ms(1_000)).as_nanos();
        all.iter()
            .filter(|event| from.as_nanos() < time(event) && time(event) <= to.as_nanos())
            .copied()
            .collect()
    };
    let mut now = ms(900);
    player.observe(PlaybackState { time: now, ..at(0) });
    let mut frame = player.update(ms(500));
    let (events, _) = loop {
        let from = now;
        now = now.plus(frame.advance());
        let played = between(from, now);
        match player.continue_update(frame, PlaybackState { time: now, ..at(0) }, played) {
            Step::Advance(next) => frame = next,
            Step::Finished { events, effects } => break (events, effects),
        }
    };
    assert_eq!(now, ms(1_010));
    assert_eq!(events, all[..4].to_vec());
}

#[test]
fn going_back_and_forth_leads_back() {
    let mut player = player(song(vec![]));
    player.observe(at(1_500));
    assert_eq!(player.rewind_silent(-300)[0], Effect::SetTime(ms(1_200)));
    player.observe(at(1_200));
    assert_eq!(player.rewind_silent(300)[0], Effect::SetTime(ms(1_500)));
}

#[test]
fn what_the_player_sends_can_be_put_on_the_wire() {
    let mut player = player(song(vec![(PlayerConfig::Human, vec![note(0, 10, 250)])]));
    player.observe(at(1_000));
    let handle = BtBridgeHandle { stream: Some(()) };
    let mut bytes: Vec<u8> = Vec::new();
    for effect in player.sync_state_at_current_time(&vec![(255, 255)]) {
        if let Effect::Midi { channel, message } = effect {
            assert!(channel < 16);
            bytes.extend(handle.send_midi(channel, message).unwrap());
        }
    }
    assert_eq!(bytes, vec![0xCF, 127, 0x92, 122, 120]);
}

#[test]
fn a_paused_engine_plays_nothing() {
    let mut player = player(song(vec![(PlayerConfig::Human, vec![note(0, 10, 60)])]));
    let frame = player.update(ms(16));
    let mut paused = at(0);
    paused.paused = true;
    let (events, effects) = finished(player.continue_update(frame, paused, vec![]));
    assert!(events.is_empty());
    assert!(effects.is_empty());
    assert!(required(&player).is_empty());
}
