//! The link to an instrument that is reached through a helper process over TCP.
//!
//! A [`BtBridgeService`] decides what to do with the connection; the socket, the thread and the
//! helper process are the host's. `S` is the host's writing end of a connection.

use crate::midi::{encode, MidiMessage};
use crate::stream::{
    law_chunking, law_written_message_is_received, process_midi_stream, stream_inputs, MidiInput,
};
use crate::time::{lemma_span_of_view, Duration, NANOS_PER_MILLI};
use crate::wire::write_live;
use vstd::prelude::*;

verus! {

/// The port on which the helper process connects.
pub const BRIDGE_PORT: u16 = 48888;

/// How long to wait after a connection could not be accepted, in milliseconds.
pub const ACCEPT_RETRY_MILLIS: u64 = 500;

/// The controller that lets go of every key of a channel.
pub const ALL_NOTES_OFF: u8 = 123;

/// The message that lets go of every key of a channel.
pub open spec fn all_notes_off() -> MidiMessage {
    MidiMessage::Controller { controller: ALL_NOTES_OFF, value: 0 }
}

/// The sending side of the bridge: the writing end of the connection, if there is one.
#[derive(Debug)]
pub struct BtBridgeHandle<S> {
    pub stream: Option<S>,
}

impl<S> BtBridgeHandle<S> {
    /// The bytes to write for `message` on `channel`; `None` where there is no connection to
    /// write to.
    pub fn send_midi(&self, channel: u8, message: MidiMessage) -> (bytes: Option<Vec<u8>>)
        requires
            channel < 16,
            message.wf(),
        ensures
            bytes is Some <==> self.stream is Some,
            bytes matches Some(b) ==> b@ == encode(channel, message),
    {
        let mut buf: Vec<u8> = Vec::with_capacity(8);
        let written = write_live(channel, message, &mut buf);
        proof {
            assert(Seq::<u8>::empty() + encode(channel, message) =~= encode(channel, message));
        }
        if written && self.stream.is_some() {
            Some(buf)
        } else {
            None
        }
    }

    /// The writes that let go of every key, one for each channel; `None` where there is no
    /// connection to write to.
    pub fn stop_all(&self) -> (writes: Option<Vec<Vec<u8>>>)
        ensures
            writes is Some <==> self.stream is Some,
            writes matches Some(w) ==> w.len() == 16 && forall|channel: int|
                0 <= channel < 16 ==> (#[trigger] w@[channel])@ == encode(
                    channel as u8,
                    all_notes_off(),
                ),
    {
        if self.stream.is_none() {
            return None;
        }
        let message = MidiMessage::Controller { controller: ALL_NOTES_OFF, value: 0 };
        let mut writes: Vec<Vec<u8>> = Vec::new();
        let mut channel: u8 = 0;
        while channel < 16
            invariant
                self.stream is Some,
                message == all_notes_off(),
                channel <= 16,
                writes@.len() == channel,
                forall|c: int|
                    0 <= c < channel ==> (#[trigger] writes@[c])@ == encode(
                        c as u8,
                        all_notes_off(),
                    ),
            decreases 16 - channel,
        {
            if let Some(buf) = self.send_midi(channel, message) {
                writes.push(buf);
            }
            channel = channel + 1;
        }
        Some(writes)
    }
}

/// What happened to the connection.
#[derive(Debug)]
pub enum BridgeEvent<S> {
    /// A connection was accepted, with its writing end if one could be had.
    Accepted { writer: Option<S> },
    /// A connection could not be accepted.
    AcceptFailed,
    /// A read returned these bytes; none at all where the other side has closed the connection.
    Received(Vec<u8>),
    /// A read failed.
    ReadFailed,
}

/// What to do next.
#[derive(Clone, Copy, Debug, PartialEq, Eq, Structural)]
pub enum BridgeAction {
    /// Accept the next connection.
    Accept,
    /// Wait for so long, then accept the next connection.
    AcceptAfter(Duration),
    /// Read from the connection.
    Read,
}

/// What a [`BtBridgeService`] is made of.
#[verifier::ext_equal]
pub struct BridgeView<S> {
    /// The writing end of the connection, if there is one.
    pub stream: Option<S>,
    /// The bytes that were received and not delivered yet; `None` where there is no connection.
    pub pending: Option<Seq<u8>>,
}

impl<S> BridgeView<S> {
    /// Without a connection there is nothing to write to.
    pub open spec fn wf(self) -> bool {
        self.pending is None ==> self.stream is None
    }

    /// `event` can happen: connections are accepted one after the other, and reads need one.
    pub open spec fn expects(self, event: BridgeEvent<S>) -> bool {
        match event {
            BridgeEvent::Accepted { .. } => self.pending is None,
            BridgeEvent::AcceptFailed => self.pending is None,
            BridgeEvent::Received(_) => self.pending is Some,
            BridgeEvent::ReadFailed => self.pending is Some,
        }
    }

    /// The connection is gone.
    pub open spec fn closed(self) -> BridgeView<S> {
        BridgeView { stream: None, pending: None }
    }

    /// What follows from `event`: the state after it, the messages to deliver, and what to do
    /// next. A connection that was closed or failed makes room for the next one.
    pub open spec fn step(self, event: BridgeEvent<S>) -> (
        BridgeView<S>,
        Seq<MidiInput>,
        BridgeAction,
    ) {
        match event {
            BridgeEvent::Accepted { writer } => (
                BridgeView {
                    stream: if writer is Some {
                        writer
                    } else {
                        self.stream
                    },
                    pending: Some(Seq::empty()),
                },
                Seq::empty(),
                BridgeAction::Read,
            ),
            BridgeEvent::AcceptFailed => (
                self,
                Seq::empty(),
                BridgeAction::AcceptAfter(
                    Duration::of((ACCEPT_RETRY_MILLIS * NANOS_PER_MILLI) as nat),
                ),
            ),
            BridgeEvent::Received(bytes) => if bytes@.len() == 0 {
                (self.closed(), Seq::empty(), BridgeAction::Accept)
            } else {
                let (inputs, rest) = stream_inputs(self.pending->0 + bytes@);
                (
                    BridgeView { stream: self.stream, pending: Some(rest) },
                    inputs,
                    BridgeAction::Read,
                )
            },
            BridgeEvent::ReadFailed => (self.closed(), Seq::empty(), BridgeAction::Accept),
        }
    }
}

/// Runs the bridge.
#[derive(Debug)]
pub struct BtBridgeService<S> {
    handle: BtBridgeHandle<S>,
    midi_acc: Option<Vec<u8>>,
}

impl<S> View for BtBridgeService<S> {
    type V = BridgeView<S>;

    closed spec fn view(&self) -> BridgeView<S> {
        BridgeView {
            stream: self.handle.stream,
            pending: match self.midi_acc {
                Some(acc) => Some(acc@),
                None => None,
            },
        }
    }
}

impl<S> BtBridgeService<S> {
    /// A bridge without a connection, and what to do first.
    pub fn start() -> (started: (BtBridgeService<S>, BridgeAction))
        ensures
            started.0@ == (BridgeView::<S> { stream: None, pending: None }),
            started.1 == BridgeAction::Accept,
    {
        (
            BtBridgeService { handle: BtBridgeHandle { stream: None }, midi_acc: None },
            BridgeAction::Accept,
        )
    }

    /// The sending side.
    pub fn handle(&self) -> (handle: &BtBridgeHandle<S>)
        ensures
            handle.stream == self@.stream,
    {
        &self.handle
    }

    /// Takes in what happened to the connection. Returns the messages to deliver, in order, and
    /// what to do next.
    pub fn step(&mut self, event: BridgeEvent<S>) -> (next: (Vec<MidiInput>, BridgeAction))
        requires
            old(self)@.expects(event),
        ensures
            (final(self)@, next.0@, next.1) == old(self)@.step(event),
    {
        broadcast use lemma_span_of_view;

        match event {
            BridgeEvent::Accepted { writer } => {
                if writer.is_some() {
                    self.handle.stream = writer;
                }
                self.midi_acc = Some(Vec::new());
                (Vec::new(), BridgeAction::Read)
            },
            BridgeEvent::AcceptFailed => (
                Vec::new(),
                BridgeAction::AcceptAfter(Duration::from_millis(ACCEPT_RETRY_MILLIS)),
            ),
            BridgeEvent::Received(bytes) => {
                let mut bytes = bytes;
                let acc = self.midi_acc.take();
                match acc {
                    Some(acc) if bytes.len() > 0 => {
                        let mut acc = acc;
                        acc.append(&mut bytes);
                        let inputs = process_midi_stream(&mut acc);
                        self.midi_acc = Some(acc);
                        (inputs, BridgeAction::Read)
                    },
                    _ => {
                        self.handle.stream = None;
                        (Vec::new(), BridgeAction::Accept)
                    },
                }
            },
            BridgeEvent::ReadFailed => {
                self.handle.stream = None;
                self.midi_acc = None;
                (Vec::new(), BridgeAction::Accept)
            },
        }
    }
}

/// Whatever happens, there is nothing to write to without a connection; and once a connection
/// is closed or has failed, nothing is written until the next one.
pub proof fn law_no_connection_no_stream<S>(bridge: BridgeView<S>, event: BridgeEvent<S>)
    requires
        bridge.wf(),
        bridge.expects(event),
    ensures
        ({
            let (next, inputs, action) = bridge.step(event);
            &&& next.wf()
            &&& action == BridgeAction::Read <==> next.pending is Some
            &&& action != BridgeAction::Read ==> next.stream is None && inputs.len() == 0
        }),
{
}

/// The bytes of several reads, one after the other.
pub open spec fn received(reads: Seq<Vec<u8>>) -> Seq<u8>
    decreases reads.len(),
{
    if reads.len() == 0 {
        Seq::empty()
    } else {
        received(reads.drop_last()) + reads.last()@
    }
}

/// The bridge after several reads, and what it delivers for them.
pub open spec fn after_reads<S>(bridge: BridgeView<S>, reads: Seq<Vec<u8>>) -> (
    BridgeView<S>,
    Seq<MidiInput>,
)
    decreases reads.len(),
{
    if reads.len() == 0 {
        (bridge, Seq::empty())
    } else {
        let (before, inputs) = after_reads(bridge, reads.drop_last());
        let (next, more, _) = before.step(BridgeEvent::Received(reads.last()));
        (next, inputs + more)
    }
}

/// A connection delivers the messages of what it receives as a whole, however the bytes are cut
/// into reads.
pub proof fn law_connection_delivers_stream<S>(bridge: BridgeView<S>, reads: Seq<Vec<u8>>)
    requires
        bridge.pending == Some(Seq::<u8>::empty()),
        forall|k: int| 0 <= k < reads.len() ==> (#[trigger] reads[k])@.len() > 0,
    ensures
        ({
            let (inputs, rest) = stream_inputs(received(reads));
            after_reads(bridge, reads) == (
                BridgeView { stream: bridge.stream, pending: Some(rest) },
                inputs,
            )
        }),
    decreases reads.len(),
{
    if reads.len() > 0 {
        let earlier = reads.drop_last();
        assert forall|k: int| 0 <= k < earlier.len() implies (#[trigger] earlier[k])@.len() > 0 by {
            assert(reads[k]@.len() > 0);
        }
        law_connection_delivers_stream(bridge, earlier);
        law_chunking(received(earlier), reads.last()@);
        assert(reads[reads.len() - 1]@.len() > 0);
    }
}

/// The bytes of [`BtBridgeHandle::stop_all`] for the channels from `channel` on.
pub open spec fn stop_bytes(channel: int) -> Seq<u8>
    decreases 16 - channel,
{
    if channel < 0 || channel >= 16 {
        Seq::empty()
    } else {
        encode(channel as u8, all_notes_off()) + stop_bytes(channel + 1)
    }
}

/// The other side of [`BtBridgeHandle::stop_all`] receives, from `channel` on, one message for
/// each channel in turn, and nothing is left over.
pub proof fn law_stop_all_is_received(channel: int)
    requires
        0 <= channel <= 16,
    ensures
        stream_inputs(stop_bytes(channel)) == (
            Seq::new(
                (16 - channel) as nat,
                |k: int| MidiInput { channel: (channel + k) as u8, message: all_notes_off() },
            ),
            Seq::<u8>::empty(),
        ),
    decreases 16 - channel,
{
    let expected = Seq::new(
        (16 - channel) as nat,
        |k: int| MidiInput { channel: (channel + k) as u8, message: all_notes_off() },
    );
    if channel < 16 {
        law_stop_all_is_received(channel + 1);
        law_written_message_is_received(channel as u8, all_notes_off(), stop_bytes(channel + 1));
    }
    assert(stream_inputs(stop_bytes(channel)).0 =~= expected);
}

/// A new connection starts afresh: nothing of what an earlier one left over waits, nothing is
/// delivered, and what is sent goes to its writing end.
pub proof fn law_connection_starts_afresh<S>(bridge: BridgeView<S>, writer: Option<S>)
    requires
        bridge.stream is None,
    ensures
        ({
            let (next, inputs, action) = bridge.step(BridgeEvent::Accepted { writer });
            &&& next.stream == writer
            &&& next.pending == Some(Seq::<u8>::empty())
            &&& inputs.len() == 0
            &&& action == BridgeAction::Read
        }),
{
}

/// A connection that could not be accepted changes nothing; half a second later the next one is
/// accepted.
pub proof fn law_failed_accept_is_tried_again<S>(bridge: BridgeView<S>)
    ensures
        ({
            let (next, inputs, action) = bridge.step(BridgeEvent::AcceptFailed);
            &&& next == bridge
            &&& inputs.len() == 0
            &&& action matches BridgeAction::AcceptAfter(delay) && delay@ == 500_000_000
        }),
{
    broadcast use crate::time::lemma_view_of_span;

}

/// A connection goes on as long as its reads return bytes: the bytes are added to those that
/// wait, and where to send to stays as it was.
pub proof fn law_read_goes_on<S>(bridge: BridgeView<S>, bytes: Vec<u8>)
    requires
        bridge.pending is Some,
        bytes@.len() > 0,
    ensures
        ({
            let (next, inputs, action) = bridge.step(BridgeEvent::Received(bytes));
            &&& next.stream == bridge.stream
            &&& next.pending is Some
            &&& (inputs, next.pending->0) == stream_inputs(bridge.pending->0 + bytes@)
            &&& action == BridgeAction::Read
        }),
{
}

/// A connection that ends, by a read without bytes or one that fails, leaves nothing to send to
/// and nothing that waits, and makes room for the next one at once.
pub proof fn law_ended_connection_leaves_nothing<S>(
    bridge: BridgeView<S>,
    event: BridgeEvent<S>,
)
    requires
        event is ReadFailed || (event matches BridgeEvent::Received(bytes) && bytes@.len() == 0),
    ensures
        ({
            let (next, inputs, action) = bridge.step(event);
            &&& next.stream is None
            &&& next.pending is None
            &&& inputs.len() == 0
            &&& action == BridgeAction::Accept
        }),
{
}

/// What lets go of every key of a channel: controller 123, set to zero.
pub proof fn law_bytes_that_let_go(channel: u8)
    requires
        channel < 16,
    ensures
        ({
            let bytes = encode(channel, all_notes_off());
            &&& bytes.len() == 3
            &&& bytes[0] == 176 + channel
            &&& bytes[1] == 123
            &&& bytes[2] == 0
        }),
{
}

/// Without a connection, any attempt to accept one can be taken in; with one, any read.
pub proof fn law_what_can_happen_is_expected<S>(bridge: BridgeView<S>, event: BridgeEvent<S>)
    ensures
        bridge.expects(event) <==> (bridge.pending is Some <==> event is Received
            || event is ReadFailed),
{
}

} // verus!
