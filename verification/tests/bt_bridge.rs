use neothesia::bt_bridge::{
    BridgeAction, BridgeEvent, BtBridgeHandle, BtBridgeService, BRIDGE_PORT,
};
use neothesia::midi::MidiMessage;
use neothesia::stream::{process_midi_stream, MidiInput};
use neothesia::time::Duration;

fn connected() -> BtBridgeHandle<&'static str> {
    BtBridgeHandle { stream: Some("socket") }
}

fn sent(channel: u8, message: MidiMessage) -> Vec<u8> {
    connected().send_midi(channel, message).unwrap()
}

#[test]
fn every_kind_of_message_is_written() {
    assert_eq!(sent(0, MidiMessage::NoteOff { key: 60, vel: 1 }), vec![0x80, 60, 1]);
    assert_eq!(sent(1, MidiMessage::NoteOn { key: 61, vel: 2 }), vec![0x91, 61, 2]);
    assert_eq!(sent(2, MidiMessage::Aftertouch { key: 62, vel: 3 }), vec![0xA2, 62, 3]);
    assert_eq!(sent(3, MidiMessage::Controller { controller: 7, value: 100 }), vec![0xB3, 7, 100]);
    assert_eq!(sent(4, MidiMessage::ProgramChange { program: 5 }), vec![0xC4, 5]);
    assert_eq!(sent(5, MidiMessage::ChannelAftertouch { vel: 6 }), vec![0xD5, 6]);
    assert_eq!(sent(15, MidiMessage::PitchBend { bend: 0x2001 }), vec![0xEF, 0x01, 0x40]);
}

#[test]
fn nothing_is_written_without_a_connection() {
    let handle: BtBridgeHandle<&'static str> = BtBridgeHandle { stream: None };
    assert_eq!(handle.send_midi(0, MidiMessage::NoteOn { key: 60, vel: 1 }), None);
    assert_eq!(handle.stop_all(), None);
}

#[test]
fn stop_all_lets_go_of_every_channel() {
    let writes = connected().stop_all().unwrap();
    let expected: Vec<Vec<u8>> = (0u8..16).map(|ch| vec![0xB0 + ch, 123, 0]).collect();
    assert_eq!(writes, expected);
    let mut acc: Vec<u8> = writes.concat();
    let inputs = process_midi_stream(&mut acc);
    assert_eq!(inputs.len(), 16);
    assert_eq!(
        inputs[9],
        MidiInput { channel: 9, message: MidiMessage::Controller { controller: 123, value: 0 } }
    );
    assert!(acc.is_empty());
}

#[test]
fn what_is_written_is_received() {
    let messages = [
        MidiMessage::NoteOn { key: 127, vel: 127 },
        MidiMessage::NoteOff { key: 0, vel: 0 },
        MidiMessage::PitchBend { bend: 0x3FFF },
        MidiMessage::PitchBend { bend: 0 },
    ];
    for message in messages {
        for channel in 0u8..16 {
            let mut acc = sent(channel, message);
            assert_eq!(process_midi_stream(&mut acc), vec![MidiInput { channel, message }]);
            assert!(acc.is_empty());
        }
    }
}

#[test]
fn a_connection_from_start_to_end() {
    let (mut service, action) = BtBridgeService::<&'static str>::start();
    assert_eq!(action, BridgeAction::Accept);
    assert!(service.handle().stream.is_none());

    let (inputs, action) = service.step(BridgeEvent::AcceptFailed);
    assert!(inputs.is_empty());
    assert_eq!(action, BridgeAction::AcceptAfter(Duration::from_millis(500)));

    let (inputs, action) = service.step(BridgeEvent::Accepted { writer: Some("socket") });
    assert!(inputs.is_empty());
    assert_eq!(action, BridgeAction::Read);
    assert_eq!(service.handle().stream, Some("socket"));

    let (inputs, action) = service.step(BridgeEvent::Received(vec![0x90, 60]));
    assert!(inputs.is_empty());
    assert_eq!(action, BridgeAction::Read);
    let (inputs, _) = service.step(BridgeEvent::Received(vec![64, 0x80]));
    assert_eq!(
        inputs,
        vec![MidiInput { channel: 0, message: MidiMessage::NoteOn { key: 60, vel: 64 } }]
    );

    let (inputs, action) = service.step(BridgeEvent::Received(vec![]));
    assert!(inputs.is_empty());
    assert_eq!(action, BridgeAction::Accept);
    assert!(service.handle().stream.is_none());

    let (_, action) = service.step(BridgeEvent::Accepted { writer: None });
    assert_eq!(action, BridgeAction::Read);
    assert!(service.handle().stream.is_none());
    let (inputs, _) = service.step(BridgeEvent::Received(vec![60, 64]));
    assert!(inputs.is_empty());
    let (_, action) = service.step(BridgeEvent::ReadFailed);
    assert_eq!(action, BridgeAction::Accept);
}

#[test]
fn the_port_of_the_bridge() {
    assert_eq!(BRIDGE_PORT, 48888);
}
