use neothesia::keyboard::KeyboardRange;
use neothesia::midi::MidiMessage;
use neothesia::play_along::{MidiEventSource, PlayAlong};
use std::collections::HashSet;

fn grand() -> PlayAlong {
    PlayAlong::new(KeyboardRange::new((21u8..=108).collect()))
}

fn on(key: u8) -> MidiMessage {
    MidiMessage::NoteOn { key, vel: 64 }
}

fn required(play_along: &PlayAlong) -> HashSet<u8> {
    play_along.required_notes().clone()
}

#[test]
fn nothing_is_required_at_first() {
    let play_along = grand();
    assert!(play_along.are_required_keys_pressed());
    assert!(play_along.required_notes().is_empty());
}

#[test]
fn a_strike_answers_a_demand_once() {
    let mut play_along = grand();
    assert!(play_along.midi_event(MidiEventSource::File, &on(60)));
    assert!(play_along.midi_event(MidiEventSource::File, &on(64)));
    assert!(!play_along.are_required_keys_pressed());
    assert!(play_along.midi_event(MidiEventSource::User, &on(60)));
    assert!(!play_along.midi_event(MidiEventSource::User, &on(60)));
    assert_eq!(required(&play_along), HashSet::from([64]));
    assert!(play_along.midi_event(MidiEventSource::User, &on(64)));
    assert!(play_along.are_required_keys_pressed());
}

#[test]
fn the_song_never_withdraws_a_demand() {
    let mut play_along = grand();
    play_along.midi_event(MidiEventSource::File, &on(60));
    assert!(!play_along.midi_event(MidiEventSource::File, &MidiMessage::NoteOff { key: 60, vel: 0 }));
    assert!(!play_along.midi_event(MidiEventSource::File, &MidiMessage::NoteOn { key: 60, vel: 0 }));
    assert_eq!(required(&play_along), HashSet::from([60]));
}

#[test]
fn letting_go_answers_nothing() {
    let mut play_along = grand();
    play_along.midi_event(MidiEventSource::File, &on(60));
    assert!(!play_along.midi_event(MidiEventSource::User, &MidiMessage::NoteOff { key: 60, vel: 9 }));
    assert!(!play_along.midi_event(MidiEventSource::User, &MidiMessage::NoteOn { key: 60, vel: 0 }));
    assert!(!play_along.midi_event(MidiEventSource::User, &MidiMessage::Aftertouch { key: 60, vel: 9 }));
    assert_eq!(required(&play_along), HashSet::from([60]));
}

#[test]
fn keys_out_of_range_are_not_required() {
    let mut play_along = grand();
    assert!(!play_along.midi_event(MidiEventSource::File, &on(20)));
    assert!(!play_along.midi_event(MidiEventSource::File, &on(109)));
    assert!(play_along.are_required_keys_pressed());
}

#[test]
fn other_messages_are_ignored() {
    let mut play_along = grand();
    assert!(!play_along.midi_event(MidiEventSource::File, &MidiMessage::ProgramChange { program: 60 }));
    assert!(play_along.are_required_keys_pressed());
}

#[test]
fn clearing_requires_nothing() {
    let mut play_along = grand();
    play_along.midi_event(MidiEventSource::File, &on(60));
    play_along.clear();
    assert!(play_along.are_required_keys_pressed());
    assert!(!play_along.midi_event(MidiEventSource::User, &on(60)));
}

#[test]
fn the_song_goes_on_once_everything_was_struck() {
    let mut play_along = grand();
    for key in [60, 64, 67] {
        play_along.midi_event(MidiEventSource::File, &on(key));
    }
    for key in [67, 61, 60, 60] {
        play_along.midi_event(MidiEventSource::User, &on(key));
        assert!(!play_along.are_required_keys_pressed());
    }
    play_along.midi_event(MidiEventSource::User, &on(64));
    assert!(play_along.are_required_keys_pressed());
}
