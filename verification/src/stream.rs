//! Cutting a byte stream into channel voice messages.

use crate::midi::{decode, encode, MidiMessage};
use crate::wire::parse_live;
use vstd::prelude::*;

verus! {

/// A message that came in from the instrument.
#[derive(Clone, Copy, Debug, PartialEq, Eq, Structural)]
pub struct MidiInput {
    pub channel: u8,
    pub message: MidiMessage,
}

/// The number of bytes that a message with this status byte takes up in the stream.
pub open spec fn frame_len(status: u8) -> nat {
    if status >= 0xF0 {
        1
    } else if 0xC0 <= status < 0xE0 {
        2
    } else {
        3
    }
}

/// `message`, with a note that starts at velocity zero turned into a note that stops.
pub open spec fn release_silent(message: MidiMessage) -> MidiMessage {
    match message {
        MidiMessage::NoteOn { key, vel } if vel == 0 => MidiMessage::NoteOff { key, vel },
        _ => message,
    }
}

/// What one frame delivers: its message, or nothing where it holds none.
pub open spec fn frame_inputs(frame: Seq<u8>) -> Seq<MidiInput> {
    match decode(frame) {
        Some((channel, message)) => seq![MidiInput { channel, message: release_silent(message) }],
        None => Seq::empty(),
    }
}

/// What a stream of bytes delivers, and the bytes at its end that wait for more. Data bytes
/// outside of a frame are skipped; a status byte opens a frame of [`frame_len`] bytes.
pub open spec fn stream_inputs(bytes: Seq<u8>) -> (Seq<MidiInput>, Seq<u8>)
    decreases bytes.len(),
{
    if bytes.len() == 0 {
        (Seq::empty(), bytes)
    } else if bytes[0] < 0x80 {
        stream_inputs(bytes.skip(1))
    } else if bytes.len() < frame_len(bytes[0]) {
        (Seq::empty(), bytes)
    } else {
        let len = frame_len(bytes[0]) as int;
        let (inputs, rest) = stream_inputs(bytes.skip(len));
        (frame_inputs(bytes.take(len)) + inputs, rest)
    }
}

fn exec_frame_len(status: u8) -> (len: usize)
    ensures
        len == frame_len(status),
{
    if status >= 0xF0 {
        1
    } else if 0xC0 <= status && status < 0xE0 {
        2
    } else {
        3
    }
}

/// Turns a note that starts at velocity zero into a note that stops.
fn exec_release_silent(message: MidiMessage) -> (released: MidiMessage)
    ensures
        released == release_silent(message),
{
    match message {
        MidiMessage::NoteOn { key, vel } if vel == 0 => MidiMessage::NoteOff { key, vel },
        _ => message,
    }
}

/// Takes every whole message off the front of `acc` and returns what they deliver, in order.
/// What stays in `acc` is the start of a message of which more bytes have to come.
pub fn process_midi_stream(acc: &mut Vec<u8>) -> (inputs: Vec<MidiInput>)
    ensures
        (inputs@, final(acc)@) == stream_inputs(old(acc)@),
{
    let mut inputs: Vec<MidiInput> = Vec::new();
    let mut pos: usize = 0;
    let ghost bytes = acc@;
    proof {
        assert(bytes.skip(0) =~= bytes);
    }
    loop
        invariant
            acc@ == bytes,
            pos <= bytes.len(),
            inputs@ + stream_inputs(bytes.skip(pos as int)).0 == stream_inputs(bytes).0,
            stream_inputs(bytes.skip(pos as int)).1 == stream_inputs(bytes).1,
        ensures
            acc@ == bytes,
            pos <= bytes.len(),
            stream_inputs(bytes).0 == inputs@,
            stream_inputs(bytes).1 == bytes.skip(pos as int),
        decreases bytes.len() - pos,
    {
        let ghost ahead = bytes.skip(pos as int);
        if pos == acc.len() {
            break;
        }
        let status: u8 = acc[pos];
        if status < 0x80 {
            proof {
                assert(ahead.skip(1) =~= bytes.skip(pos + 1));
            }
            pos = pos + 1;
            continue;
        }
        let len: usize = exec_frame_len(status);
        if acc.len() - pos < len {
            break;
        }
        let frame = vstd::slice::slice_subrange(acc.as_slice(), pos, pos + len);
        let ghost before = inputs@;
        proof {
            assert(frame@ =~= ahead.take(len as int));
            assert(ahead.skip(len as int) =~= bytes.skip(pos + len));
        }
        if let Some((channel, message)) = parse_live(frame) {
            inputs.push(MidiInput { channel, message: exec_release_silent(message) });
        }
        proof {
            assert(inputs@ =~= before + frame_inputs(frame@));
            assert(inputs@ + stream_inputs(bytes.skip(pos + len)).0 =~= before + stream_inputs(
                ahead,
            ).0);
        }
        pos = pos + len;
    }
    let rest = acc.split_off(pos);
    *acc = rest;
    proof {
        assert(acc@ =~= bytes.skip(pos as int));
    }
    inputs
}

/// It makes no difference how a stream is cut up: handing on `first`, then what is left over
/// followed by `second`, delivers what both together deliver and leaves the same bytes waiting.
pub proof fn law_chunking(first: Seq<u8>, second: Seq<u8>)
    ensures
        ({
            let (inputs, rest) = stream_inputs(first);
            let (more, left) = stream_inputs(rest + second);
            stream_inputs(first + second) == (inputs + more, left)
        }),
    decreases first.len(),
{
    let whole = first + second;
    if first.len() == 0 {
        assert(whole =~= second);
        assert(first + second =~= second);
        assert(Seq::<MidiInput>::empty() + stream_inputs(second).0 =~= stream_inputs(second).0);
    } else if first[0] < 0x80 {
        law_chunking(first.skip(1), second);
        assert(whole.skip(1) =~= first.skip(1) + second);
    } else if first.len() < frame_len(first[0]) {
        assert(Seq::<MidiInput>::empty() + stream_inputs(whole).0 =~= stream_inputs(whole).0);
    } else {
        let len = frame_len(first[0]) as int;
        law_chunking(first.skip(len), second);
        assert(whole.skip(len) =~= first.skip(len) + second);
        assert(whole.take(len) =~= first.take(len));
        let (inputs, rest) = stream_inputs(first.skip(len));
        let (more, left) = stream_inputs(rest + second);
        assert(frame_inputs(first.take(len)) + (inputs + more) =~= frame_inputs(first.take(len))
            + inputs + more);
    }
}

/// What waits for more bytes is the start of one message: a status byte, and fewer bytes than
/// its frame takes.
pub proof fn law_leftover_is_incomplete(bytes: Seq<u8>)
    ensures
        ({
            let rest = stream_inputs(bytes).1;
            rest.len() == 0 || (rest[0] >= 0x80 && rest.len() < frame_len(rest[0]))
        }),
    decreases bytes.len(),
{
    if bytes.len() == 0 {
    } else if bytes[0] < 0x80 {
        law_leftover_is_incomplete(bytes.skip(1));
    } else if bytes.len() >= frame_len(bytes[0]) {
        law_leftover_is_incomplete(bytes.skip(frame_len(bytes[0]) as int));
    }
}

/// A message that is written out parses back as itself.
pub proof fn law_encode_decode(channel: u8, message: MidiMessage)
    requires
        channel < 16,
        message.wf(),
    ensures
        decode(encode(channel, message)) == Some((channel, message)),
{
}

/// A stream that starts with a message that was written out delivers that message on its
/// channel first (a note started at velocity zero as a note stopped), then what the rest of
/// the stream delivers.
pub proof fn law_written_message_is_received(channel: u8, message: MidiMessage, tail: Seq<u8>)
    requires
        channel < 16,
        message.wf(),
    ensures
        ({
            let (more, left) = stream_inputs(tail);
            stream_inputs(encode(channel, message) + tail) == (
                seq![MidiInput { channel, message: release_silent(message) }] + more,
                left,
            )
        }),
{
    let bytes = encode(channel, message);
    law_encode_decode(channel, message);
    let len = frame_len(bytes[0]) as int;
    assert(len == bytes.len());
    assert((bytes + tail).take(len) =~= bytes);
    assert((bytes + tail).skip(len) =~= tail);
}

/// Every message that a stream delivers is well formed, on one of the sixteen channels, and
/// never a note started at velocity zero.
pub proof fn law_delivered_messages(bytes: Seq<u8>, i: int)
    requires
        0 <= i < stream_inputs(bytes).0.len(),
    ensures
        ({
            let input = stream_inputs(bytes).0[i];
            &&& input.channel < 16
            &&& input.message.wf()
            &&& !(input.message matches MidiMessage::NoteOn { key, vel } && vel == 0)
        }),
    decreases bytes.len(),
{
    if bytes.len() == 0 {
    } else if bytes[0] < 0x80 {
        law_delivered_messages(bytes.skip(1), i);
    } else if bytes.len() >= frame_len(bytes[0]) {
        let len = frame_len(bytes[0]) as int;
        let first = frame_inputs(bytes.take(len));
        if i >= first.len() {
            law_delivered_messages(bytes.skip(len), i - first.len());
        }
    }
}

/// A stream without bytes delivers nothing and leaves nothing waiting.
pub proof fn law_nothing_comes_of_nothing()
    ensures
        stream_inputs(Seq::empty()) == (Seq::<MidiInput>::empty(), Seq::<u8>::empty()),
{
}

/// A byte that belongs to no channel message takes nothing away from what follows: neither a
/// data byte outside of a message nor a system byte, of which instruments send some all the
/// time.
pub proof fn law_stray_byte_takes_nothing_away(byte: u8, tail: Seq<u8>)
    requires
        byte < 0x80 || byte >= 0xF0,
    ensures
        stream_inputs(seq![byte] + tail) == stream_inputs(tail),
{
    let bytes = seq![byte] + tail;
    assert(bytes.skip(1) =~= tail);
    if byte >= 0xF0 {
        assert(bytes.take(1) =~= seq![byte]);
        assert(frame_inputs(bytes.take(1)) + stream_inputs(tail).0 =~= stream_inputs(tail).0);
    }
}

/// A stray byte between two stretches of whole messages takes nothing away from either.
pub proof fn law_stray_byte_in_between(first: Seq<u8>, byte: u8, second: Seq<u8>)
    requires
        byte < 0x80 || byte >= 0xF0,
        stream_inputs(first).1.len() == 0,
    ensures
        stream_inputs(first + seq![byte] + second) == (
            stream_inputs(first).0 + stream_inputs(second).0,
            stream_inputs(second).1,
        ),
{
    let tail = seq![byte] + second;
    law_chunking(first, tail);
    assert(stream_inputs(first).1 + tail =~= tail);
    assert(first + seq![byte] + second =~= first + tail);
    law_stray_byte_takes_nothing_away(byte, second);
}

/// Three bytes that make up a channel message deliver it, before what follows them delivers. The
/// message is on the channel that the status byte tells, with the data bytes as its fields in
/// order; a note that starts at velocity zero is delivered as one that stops.
pub proof fn law_three_bytes_deliver_their_message(
    kind: int,
    channel: u8,
    first: u8,
    second: u8,
    status: u8,
    tail: Seq<u8>,
)
    requires
        8 <= kind <= 11 || kind == 14,
        channel < 16,
        status == 16 * kind + channel,
        first < 0x80,
        second < 0x80,
    ensures
        ({
            let (inputs, left) = stream_inputs(seq![status, first, second] + tail);
            &&& inputs.len() == stream_inputs(tail).0.len() + 1
            &&& inputs.skip(1) == stream_inputs(tail).0
            &&& left == stream_inputs(tail).1
            &&& inputs[0].channel == channel
            &&& match inputs[0].message {
                MidiMessage::NoteOff { key, vel } => (kind == 8 || (kind == 9 && second == 0))
                    && key == first && vel == second,
                MidiMessage::NoteOn { key, vel } => kind == 9 && second != 0 && key == first && vel
                    == second,
                MidiMessage::Aftertouch { key, vel } => kind == 10 && key == first && vel == second,
                MidiMessage::Controller { controller, value } => kind == 11 && controller == first
                    && value == second,
                MidiMessage::PitchBend { bend } => kind == 14 && bend == first + 128 * second,
                _ => false,
            }
        }),
{
    let bytes = seq![status, first, second] + tail;
    assert(bytes.skip(3) =~= tail);
    assert(bytes.take(3) =~= seq![status, first, second]);
    let (inputs, _) = stream_inputs(bytes);
    assert(inputs =~= frame_inputs(bytes.take(3)) + stream_inputs(tail).0);
    assert(inputs.skip(1) =~= stream_inputs(tail).0);
}

/// Two bytes that make up a channel message deliver it, before what follows them delivers.
pub proof fn law_two_bytes_deliver_their_message(
    kind: int,
    channel: u8,
    data: u8,
    status: u8,
    tail: Seq<u8>,
)
    requires
        kind == 12 || kind == 13,
        channel < 16,
        status == 16 * kind + channel,
        data < 0x80,
    ensures
        ({
            let (inputs, left) = stream_inputs(seq![status, data] + tail);
            &&& inputs.len() == stream_inputs(tail).0.len() + 1
            &&& inputs.skip(1) == stream_inputs(tail).0
            &&& left == stream_inputs(tail).1
            &&& inputs[0].channel == channel
            &&& match inputs[0].message {
                MidiMessage::ProgramChange { program } => kind == 12 && program == data,
                MidiMessage::ChannelAftertouch { vel } => kind == 13 && vel == data,
                _ => false,
            }
        }),
{
    let bytes = seq![status, data] + tail;
    assert(bytes.skip(2) =~= tail);
    assert(bytes.take(2) =~= seq![status, data]);
    let (inputs, _) = stream_inputs(bytes);
    assert(inputs =~= frame_inputs(bytes.take(2)) + stream_inputs(tail).0);
    assert(inputs.skip(1) =~= stream_inputs(tail).0);
}

/// A channel message with a status byte in place of a data byte is dropped, as long as it is,
/// and nothing else with it.
pub proof fn law_spoiled_message_is_dropped(status: u8, first: u8, second: u8, tail: Seq<u8>)
    ensures
        (0x80 <= status < 0xC0 || 0xE0 <= status < 0xF0) && (first >= 0x80 || second >= 0x80)
            ==> stream_inputs(seq![status, first, second] + tail) == stream_inputs(tail),
        0xC0 <= status < 0xE0 && first >= 0x80 ==> stream_inputs(seq![status, first] + tail)
            == stream_inputs(tail),
{
    let three = seq![status, first, second] + tail;
    let two = seq![status, first] + tail;
    let none = Seq::<MidiInput>::empty();
    assert(none + stream_inputs(tail).0 =~= stream_inputs(tail).0);
    assert(three.skip(3) =~= tail && three.take(3) =~= seq![status, first, second]);
    assert(two.skip(2) =~= tail && two.take(2) =~= seq![status, first]);
}

/// The start of a channel message delivers nothing and waits as it is: of three bytes the first
/// one or two, of two bytes the first, whatever the second byte is.
pub proof fn law_started_message_waits(status: u8, first: u8)
    requires
        0x80 <= status < 0xF0,
    ensures
        stream_inputs(seq![status]) == (Seq::<MidiInput>::empty(), seq![status]),
        !(0xC0 <= status < 0xE0) ==> stream_inputs(seq![status, first]) == (
            Seq::<MidiInput>::empty(),
            seq![status, first],
        ),
{
}

} // verus!
