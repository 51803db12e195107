//! The `midly` crate, which reads and writes MIDI bytes and cuts integers to the MIDI widths.

use crate::midi::MidiMessage::{
    Aftertouch, ChannelAftertouch, Controller, NoteOff, NoteOn, PitchBend, ProgramChange,
};
use crate::midi::{decode, encode, MidiMessage};
use midly::live::LiveEvent;
use midly::num::{u4, u7};
use midly::MidiMessage::{
    Aftertouch as LiveAftertouch, ChannelAftertouch as LiveChannelAftertouch,
    Controller as LiveController, NoteOff as LiveNoteOff, NoteOn as LiveNoteOn,
    PitchBend as LivePitchBend, ProgramChange as LiveProgramChange,
};
use vstd::prelude::*;

verus! {

/// Calls `midly::live::LiveEvent::parse`. Claimed of it: it yields a channel voice message
/// exactly where [`decode`] does, and the same one; a system message and a parse error both
/// come out as `None`.
#[verifier::external_body]
pub(crate) fn parse_live(raw: &[u8]) -> (parsed: Option<(u8, MidiMessage)>)
    ensures
        parsed == decode(raw@),
{
    let Ok(LiveEvent::Midi { channel, message }) = LiveEvent::parse(raw) else { return None };
    let message = match message {
        LiveNoteOff { key, vel } => NoteOff { key: key.as_int(), vel: vel.as_int() },
        LiveNoteOn { key, vel } => NoteOn { key: key.as_int(), vel: vel.as_int() },
        LiveAftertouch { key, vel } => Aftertouch { key: key.as_int(), vel: vel.as_int() },
        LiveController { controller, value } => Controller { controller: controller.as_int(), value: value.as_int() },
        LiveProgramChange { program } => ProgramChange { program: program.as_int() },
        LiveChannelAftertouch { vel } => ChannelAftertouch { vel: vel.as_int() },
        LivePitchBend { bend } => PitchBend { bend: bend.0.as_int() },
    };
    Some((channel.as_int(), message))
}

/// Calls `midly::live::LiveEvent::write` on a channel voice message, with a byte vector as the
/// output. Claimed of it: it succeeds, and appends the bytes of [`encode`].
#[verifier::external_body]
pub(crate) fn write_live(channel: u8, message: MidiMessage, out: &mut Vec<u8>) -> (ok: bool)
    requires
        channel < 16,
        message.wf(),
    ensures
        ok,
        final(out)@ == old(out)@ + encode(channel, message),
{
    let message = match message {
        NoteOff { key, vel } => LiveNoteOff { key: key.into(), vel: vel.into() },
        NoteOn { key, vel } => LiveNoteOn { key: key.into(), vel: vel.into() },
        Aftertouch { key, vel } => LiveAftertouch { key: key.into(), vel: vel.into() },
        Controller { controller, value } => LiveController { controller: controller.into(), value: value.into() },
        ProgramChange { program } => LiveProgramChange { program: program.into() },
        ChannelAftertouch { vel } => LiveChannelAftertouch { vel: vel.into() },
        PitchBend { bend } => LivePitchBend { bend: midly::PitchBend(bend.into()) },
    };
    LiveEvent::Midi { channel: u4::new(channel), message }.write(out).is_ok()
}

/// Calls `midly::num::u4::new`. Claimed of it: it keeps the low four bits.
#[verifier::external_body]
pub(crate) fn low_four_bits(raw: u8) -> (bits: u8)
    ensures
        bits == raw % 16,
{
    u4::new(raw).as_int()
}

/// Calls `midly::num::u7::new`. Claimed of it: it keeps the low seven bits.
#[verifier::external_body]
pub(crate) fn low_seven_bits(raw: u8) -> (bits: u8)
    ensures
        bits == raw % 128,
{
    u7::new(raw).as_int()
}

} // verus!
