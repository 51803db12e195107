use neothesia::midi::MidiMessage;
use neothesia::stream::{process_midi_stream, MidiInput};

fn process(bytes: &[u8]) -> (Vec<MidiInput>, Vec<u8>) {
    let mut acc = bytes.to_vec();
    let inputs = process_midi_stream(&mut acc);
    (inputs, acc)
}

fn input(channel: u8, message: MidiMessage) -> MidiInput {
    MidiInput { channel, message }
}

#[test]
fn every_kind_of_message_is_parsed() {
    let bytes = [
        0x80, 60, 1, 0x91, 61, 2, 0xA2, 62, 3, 0xB3, 7, 100, 0xC4, 5, 0xD5, 6, 0xEF, 0x01, 0x40,
    ];
    let (inputs, rest) = process(&bytes);
    assert_eq!(
        inputs,
        vec![
            input(0, MidiMessage::NoteOff { key: 60, vel: 1 }),
            input(1, MidiMessage::NoteOn { key: 61, vel: 2 }),
            input(2, MidiMessage::Aftertouch { key: 62, vel: 3 }),
            input(3, MidiMessage::Controller { controller: 7, value: 100 }),
            input(4, MidiMessage::ProgramChange { program: 5 }),
            input(5, MidiMessage::ChannelAftertouch { vel: 6 }),
            input(15, MidiMessage::PitchBend { bend: 0x2001 }),
        ]
    );
    assert!(rest.is_empty());
}

#[test]
fn a_note_on_without_velocity_is_a_note_off() {
    let (inputs, rest) = process(&[0x93, 60, 0]);
    assert_eq!(inputs, vec![input(3, MidiMessage::NoteOff { key: 60, vel: 0 })]);
    assert!(rest.is_empty());
}

#[test]
fn stray_data_bytes_are_skipped() {
    let (inputs, rest) = process(&[1, 2, 3, 0x90, 60, 64, 5]);
    assert_eq!(inputs, vec![input(0, MidiMessage::NoteOn { key: 60, vel: 64 })]);
    assert!(rest.is_empty());
}

#[test]
fn system_messages_deliver_nothing() {
    let (inputs, rest) = process(&[0xF8, 0xF0, 1, 2, 0xF7, 0xFE, 0xF6, 0xF1, 0xC0, 9]);
    assert_eq!(inputs, vec![input(0, MidiMessage::ProgramChange { program: 9 })]);
    assert!(rest.is_empty());
}

#[test]
fn a_status_byte_in_place_of_data_spoils_its_frame() {
    let (inputs, rest) = process(&[0x90, 60, 0x91, 61, 62, 0xC0, 0x80, 0xC1, 3]);
    assert_eq!(inputs, vec![input(1, MidiMessage::ProgramChange { program: 3 })]);
    assert!(rest.is_empty());
}

#[test]
fn an_incomplete_message_waits() {
    assert_eq!(process(&[]), (vec![], vec![]));
    assert_eq!(process(&[0x90]), (vec![], vec![0x90]));
    assert_eq!(process(&[5, 0xE1, 60]), (vec![], vec![0xE1, 60]));
    assert_eq!(process(&[0xC7]), (vec![], vec![0xC7]));
}

#[test]
fn cutting_the_stream_up_makes_no_difference() {
    let bytes = [7, 0x90, 60, 64, 0xF8, 0xC1, 9, 0x80, 0x81, 3, 0xE0, 1, 2, 0xB0];
    let whole = process(&bytes);
    for cut in 0..=bytes.len() {
        let mut acc = bytes[..cut].to_vec();
        let mut inputs = process_midi_stream(&mut acc);
        acc.extend_from_slice(&bytes[cut..]);
        inputs.extend(process_midi_stream(&mut acc));
        assert_eq!((inputs, acc), whole);
    }
}
