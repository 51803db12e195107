//! Channel voice messages and their form on the wire.

use vstd::prelude::*;

verus! {

/// A channel voice message. Every field but `bend` holds seven bits, `bend` fourteen.
#[derive(Clone, Copy, Debug, PartialEq, Eq, Structural)]
pub enum MidiMessage {
    /// Stop playing a key.
    NoteOff { key: u8, vel: u8 },
    /// Start playing a key; with a velocity of zero, stop playing it.
    NoteOn { key: u8, vel: u8 },
    /// Change the pressure on a key that is down.
    Aftertouch { key: u8, vel: u8 },
    /// Set a controller.
    Controller { controller: u8, value: u8 },
    /// Select the instrument of a channel.
    ProgramChange { program: u8 },
    /// Change the pressure on a whole channel.
    ChannelAftertouch { vel: u8 },
    /// Bend the pitch of a channel; 0x2000 is no bend.
    PitchBend { bend: u16 },
}

impl MidiMessage {
    /// Every field fits into the bits it has on the wire.
    pub open spec fn wf(self) -> bool {
        match self {
            MidiMessage::NoteOff { key, vel } => key < 0x80 && vel < 0x80,
            MidiMessage::NoteOn { key, vel } => key < 0x80 && vel < 0x80,
            MidiMessage::Aftertouch { key, vel } => key < 0x80 && vel < 0x80,
            MidiMessage::Controller { controller, value } => controller < 0x80 && value < 0x80,
            MidiMessage::ProgramChange { program } => program < 0x80,
            MidiMessage::ChannelAftertouch { vel } => vel < 0x80,
            MidiMessage::PitchBend { bend } => bend < 0x4000,
        }
    }

    /// The key that this message starts to play, if it does.
    pub open spec fn onset(self) -> Option<u8> {
        match self {
            MidiMessage::NoteOn { key, vel } if vel > 0 => Some(key),
            _ => None,
        }
    }
}

/// The message that `raw` starts with, with its channel: a status byte from 0x80 to 0xEF and
/// as many data bytes below 0x80 as the status calls for. What follows them is not read.
pub open spec fn decode(raw: Seq<u8>) -> Option<(u8, MidiMessage)> {
    if raw.len() == 0 {
        None
    } else if 0xC0 <= raw[0] < 0xE0 {
        if raw.len() >= 2 && raw[1] < 0x80 {
            let message = if raw[0] < 0xD0 {
                MidiMessage::ProgramChange { program: raw[1] }
            } else {
                MidiMessage::ChannelAftertouch { vel: raw[1] }
            };
            Some((raw[0] % 16, message))
        } else {
            None
        }
    } else if 0x80 <= raw[0] < 0xF0 && raw.len() >= 3 && raw[1] < 0x80 && raw[2] < 0x80 {
        let message = if raw[0] < 0x90 {
            MidiMessage::NoteOff { key: raw[1], vel: raw[2] }
        } else if raw[0] < 0xA0 {
            MidiMessage::NoteOn { key: raw[1], vel: raw[2] }
        } else if raw[0] < 0xB0 {
            MidiMessage::Aftertouch { key: raw[1], vel: raw[2] }
        } else if raw[0] < 0xC0 {
            MidiMessage::Controller { controller: raw[1], value: raw[2] }
        } else {
            MidiMessage::PitchBend { bend: (raw[2] * 128 + raw[1]) as u16 }
        };
        Some((raw[0] % 16, message))
    } else {
        None
    }
}

/// The bytes of `message` on `channel`: the status byte, then the data bytes. A pitch bend goes
/// out low byte first.
pub open spec fn encode(channel: u8, message: MidiMessage) -> Seq<u8> {
    match message {
        MidiMessage::NoteOff { key, vel } => seq![(0x80 + channel) as u8, key, vel],
        MidiMessage::NoteOn { key, vel } => seq![(0x90 + channel) as u8, key, vel],
        MidiMessage::Aftertouch { key, vel } => seq![(0xA0 + channel) as u8, key, vel],
        MidiMessage::Controller { controller, value } => seq![
            (0xB0 + channel) as u8,
            controller,
            value,
        ],
        MidiMessage::ProgramChange { program } => seq![(0xC0 + channel) as u8, program],
        MidiMessage::ChannelAftertouch { vel } => seq![(0xD0 + channel) as u8, vel],
        MidiMessage::PitchBend { bend } => seq![
            (0xE0 + channel) as u8,
            (bend % 128) as u8,
            (bend / 128) as u8,
        ],
    }
}

/// A key starts to play by a note that starts with some velocity, and in no other way.
pub proof fn law_only_a_note_with_velocity_starts_a_key(message: MidiMessage, key: u8)
    ensures
        message.onset() == Some(key) <==> exists|vel: u8|
            vel != 0 && message == (MidiMessage::NoteOn { key, vel }),
{
    if message.onset() == Some(key) {
        assert(message is NoteOn && message == (MidiMessage::NoteOn {
            key,
            vel: message->NoteOn_vel,
        }));
    }
}

/// What a message looks like on the wire. The first byte tells its kind in the upper four bits,
/// counted from eight in the order of the kinds, and its channel in the lower four; the others
/// hold its fields in order, seven bits each, a bend with its low bits first.
pub proof fn law_written_bytes(channel: u8, message: MidiMessage)
    requires
        channel < 16,
        message.wf(),
    ensures
        ({
            let bytes = encode(channel, message);
            &&& bytes[0] % 16 == channel
            &&& forall|k: int| 1 <= k < bytes.len() ==> #[trigger] bytes[k] < 0x80
            &&& match message {
                MidiMessage::NoteOff { key, vel } => bytes.len() == 3 && bytes[0] / 16 == 8
                    && bytes[1] == key && bytes[2] == vel,
                MidiMessage::NoteOn { key, vel } => bytes.len() == 3 && bytes[0] / 16 == 9
                    && bytes[1] == key && bytes[2] == vel,
                MidiMessage::Aftertouch { key, vel } => bytes.len() == 3 && bytes[0] / 16 == 10
                    && bytes[1] == key && bytes[2] == vel,
                MidiMessage::Controller { controller, value } => bytes.len() == 3 && bytes[0] / 16
                    == 11 && bytes[1] == controller && bytes[2] == value,
                MidiMessage::ProgramChange { program } => bytes.len() == 2 && bytes[0] / 16 == 12
                    && bytes[1] == program,
                MidiMessage::ChannelAftertouch { vel } => bytes.len() == 2 && bytes[0] / 16 == 13
                    && bytes[1] == vel,
                MidiMessage::PitchBend { bend } => bytes.len() == 3 && bytes[0] / 16 == 14
                    && bytes[1] + 128 * bytes[2] == bend,
            }
        }),
{
}

/// The well formed messages are just those that bytes can stand for.
pub proof fn law_well_formed_is_what_can_arrive(message: MidiMessage)
    ensures
        message.wf() <==> exists|raw: Seq<u8>| decode(raw) == Some((0u8, message)),
{
    if message.wf() {
        assert(decode(encode(0, message)) == Some((0u8, message)));
    }
}

} // verus!
