//! The life of the link as a state machine: what to do, and where to go,
//! on each thing that can happen to the connection. The caller performs the
//! action and reports what happened next.

use vstd::prelude::*;
use crate::codec::{decode, encode, spec_decode, spec_encode, DecodeError, Envelope, MuxedMessage};
use crate::heartbeat::{
    check_pong, next_sequence, ping_bytes, ping_payload, pong_verdict, spec_next_sequence,
    PongError,
};

verus! {

/// Seconds after which a send that has not finished counts as failed.
pub const SEND_TIMEOUT_SEC: u64 = 10;

/// Seconds to wait after a failed attempt to connect.
pub const RECONNECT_DELAY_SEC: u64 = 1;

/// Where the link stands.
#[derive(Clone, Copy, Debug, PartialEq, Eq, Structural)]
pub enum LinkState {
    /// No stream; one is being established.
    Connecting,
    /// A stream is up. `num_pings` is the sequence number of the probe that
    /// is sent next and acknowledged next.
    Active { num_pings: u32 },
    /// The stream is being given up.
    Closing,
}

/// A frame that arrived on the stream.
#[derive(Clone, Debug, PartialEq, Eq)]
pub enum Frame {
    /// A data frame.
    Binary(Vec<u8>),
    /// The acknowledgement of a probe.
    Pong(Vec<u8>),
    /// The other side closes the stream.
    Close,
    /// Any other frame.
    Other,
}

/// A `Frame` with its bytes as a sequence.
pub enum FrameView {
    Binary(Seq<u8>),
    Pong(Seq<u8>),
    Close,
    Other,
}

impl View for Frame {
    type V = FrameView;

    open spec fn view(&self) -> FrameView {
        match self {
            Frame::Binary(b) => FrameView::Binary(b@),
            Frame::Pong(b) => FrameView::Pong(b@),
            Frame::Close => FrameView::Close,
            Frame::Other => FrameView::Other,
        }
    }
}

/// What happened to the link.
#[derive(Clone, Debug, PartialEq, Eq)]
pub enum LinkEvent {
    /// The attempt to connect failed.
    ConnectFailed,
    /// The attempt to connect succeeded.
    Connected,
    /// The probe interval has passed, this long after the link was started.
    Tick { elapsed_micros: u128 },
    /// The local service has a response to send.
    ServerResponse(Vec<u8>),
    /// The local client has a request to send.
    ClientRequest(Vec<u8>),
    /// One of the two outbound queues was closed.
    QueueClosed,
    /// A send failed or ran out of time.
    SendFailed,
    /// A frame arrived.
    Inbound(Frame),
    /// The stream ended or reported an error.
    StreamEnded,
    /// The stream has been given up.
    StreamDropped,
}

/// A `LinkEvent` with its bytes as sequences.
pub enum EventView {
    ConnectFailed,
    Connected,
    Tick { elapsed_micros: u128 },
    ServerResponse(Seq<u8>),
    ClientRequest(Seq<u8>),
    QueueClosed,
    SendFailed,
    Inbound(FrameView),
    StreamEnded,
    StreamDropped,
}

impl View for LinkEvent {
    type V = EventView;

    open spec fn view(&self) -> EventView {
        match self {
            LinkEvent::ConnectFailed => EventView::ConnectFailed,
            LinkEvent::Connected => EventView::Connected,
            LinkEvent::Tick { elapsed_micros } => EventView::Tick {
                elapsed_micros: *elapsed_micros,
            },
            LinkEvent::ServerResponse(b) => EventView::ServerResponse(b@),
            LinkEvent::ClientRequest(b) => EventView::ClientRequest(b@),
            LinkEvent::QueueClosed => EventView::QueueClosed,
            LinkEvent::SendFailed => EventView::SendFailed,
            LinkEvent::Inbound(f) => EventView::Inbound(f@),
            LinkEvent::StreamEnded => EventView::StreamEnded,
            LinkEvent::StreamDropped => EventView::StreamDropped,
        }
    }
}

/// What the caller does next.
#[derive(Clone, Debug, PartialEq, Eq)]
pub enum LinkAction {
    /// Nothing: await the next event.
    Wait,
    /// Try to establish the stream.
    Connect,
    /// Wait out the reconnect delay, then try to establish the stream.
    SleepThenConnect,
    /// Send these bytes as a probe, within the send timeout.
    SendPing(Vec<u8>),
    /// Send these bytes as a data frame, within the send timeout.
    SendBinary(Vec<u8>),
    /// Hand this message to the local service.
    ToServer(Vec<u8>),
    /// Hand this message to the local client.
    ToClient(Vec<u8>),
    /// The acknowledgement was faulty: note it and await the next event.
    DiscardPong(PongError),
    /// The data frame was faulty: note it and await the next event.
    DiscardFrame(DecodeError),
    /// Give up the stream.
    DropStream,
}

/// A `LinkAction` with its bytes as sequences.
pub enum ActionView {
    Wait,
    Connect,
    SleepThenConnect,
    SendPing(Seq<u8>),
    SendBinary(Seq<u8>),
    ToServer(Seq<u8>),
    ToClient(Seq<u8>),
    DiscardPong(PongError),
    DiscardFrame(DecodeError),
    DropStream,
}

impl View for LinkAction {
    type V = ActionView;

    open spec fn view(&self) -> ActionView {
        match self {
            LinkAction::Wait => ActionView::Wait,
            LinkAction::Connect => ActionView::Connect,
            LinkAction::SleepThenConnect => ActionView::SleepThenConnect,
            LinkAction::SendPing(b) => ActionView::SendPing(b@),
            LinkAction::SendBinary(b) => ActionView::SendBinary(b@),
            LinkAction::ToServer(b) => ActionView::ToServer(b@),
            LinkAction::ToClient(b) => ActionView::ToClient(b@),
            LinkAction::DiscardPong(e) => ActionView::DiscardPong(*e),
            LinkAction::DiscardFrame(e) => ActionView::DiscardFrame(*e),
            LinkAction::DropStream => ActionView::DropStream,
        }
    }
}

/// What an arrived frame leads to while the stream is up.
pub open spec fn on_frame(num_pings: u32, frame: FrameView) -> (LinkState, ActionView) {
    match frame {
        FrameView::Close => (LinkState::Closing, ActionView::DropStream),
        FrameView::Pong(payload) => match pong_verdict(payload, num_pings) {
            Ok(_) => (
                LinkState::Active { num_pings: spec_next_sequence(num_pings) },
                ActionView::Wait,
            ),
            Err(e) => (LinkState::Active { num_pings }, ActionView::DiscardPong(e)),
        },
        FrameView::Binary(bytes) => match spec_decode(bytes) {
            Ok(Envelope::Child(body)) => (LinkState::Active { num_pings }, ActionView::ToServer(body)),
            Ok(Envelope::Parent(body)) => (
                LinkState::Active { num_pings },
                ActionView::ToClient(body),
            ),
            Err(e) => (LinkState::Active { num_pings }, ActionView::DiscardFrame(e)),
        },
        FrameView::Other => (LinkState::Active { num_pings }, ActionView::Wait),
    }
}

/// The next state and the action to take, for each state and event.
///
/// While connecting, a failure leads to another attempt after the delay, for
/// ever; success starts the probes at zero. While the stream is up, what is
/// queued is sent under its side's tag, a tick sends the next probe, and a
/// closed queue, a failed send, a close frame or the end of the stream give
/// the stream up. Once the stream is given up, whatever happens next leads
/// back to connecting.
pub open spec fn spec_step(state: LinkState, event: EventView) -> (LinkState, ActionView) {
    match state {
        LinkState::Connecting => match event {
            EventView::ConnectFailed => (LinkState::Connecting, ActionView::SleepThenConnect),
            EventView::Connected => (LinkState::Active { num_pings: 0 }, ActionView::Wait),
            _ => (LinkState::Connecting, ActionView::Wait),
        },
        LinkState::Closing => (LinkState::Connecting, ActionView::Connect),
        LinkState::Active { num_pings } => match event {
            EventView::Tick { elapsed_micros } => (
                state,
                ActionView::SendPing(ping_bytes(num_pings, elapsed_micros)),
            ),
            EventView::ServerResponse(body) => (
                state,
                ActionView::SendBinary(spec_encode(Envelope::Child(body))),
            ),
            EventView::ClientRequest(body) => (
                state,
                ActionView::SendBinary(spec_encode(Envelope::Parent(body))),
            ),
            EventView::Inbound(frame) => on_frame(num_pings, frame),
            EventView::QueueClosed | EventView::SendFailed | EventView::StreamEnded => (
                LinkState::Closing,
                ActionView::DropStream,
            ),
            EventView::StreamDropped => (LinkState::Connecting, ActionView::Connect),
            EventView::ConnectFailed | EventView::Connected => (state, ActionView::Wait),
        },
    }
}

/// Handles a frame that arrived while the stream is up.
pub fn handle_frame(num_pings: u32, frame: Frame) -> (r: (LinkState, LinkAction))
    ensures
        (r.0, r.1@) == on_frame(num_pings, frame@),
{
    match frame {
        Frame::Close => (LinkState::Closing, LinkAction::DropStream),
        Frame::Pong(payload) => match check_pong(payload.as_slice(), num_pings) {
            Ok(_) => (LinkState::Active { num_pings: next_sequence(num_pings) }, LinkAction::Wait),
            Err(e) => (LinkState::Active { num_pings }, LinkAction::DiscardPong(e)),
        },
        Frame::Binary(bytes) => match decode(bytes.as_slice()) {
            Ok(MuxedMessage::Child(body)) => (
                LinkState::Active { num_pings },
                LinkAction::ToServer(body),
            ),
            Ok(MuxedMessage::Parent(body)) => (
                LinkState::Active { num_pings },
                LinkAction::ToClient(body),
            ),
            Err(e) => (LinkState::Active { num_pings }, LinkAction::DiscardFrame(e)),
        },
        Frame::Other => (LinkState::Active { num_pings }, LinkAction::Wait),
    }
}

/// Decides what follows from `event` in `state`.
pub fn step(state: LinkState, event: LinkEvent) -> (r: (LinkState, LinkAction))
    ensures
        (r.0, r.1@) == spec_step(state, event@),
{
    match state {
        LinkState::Connecting => match event {
            LinkEvent::ConnectFailed => (LinkState::Connecting, LinkAction::SleepThenConnect),
            LinkEvent::Connected => (LinkState::Active { num_pings: 0 }, LinkAction::Wait),
            _ => (LinkState::Connecting, LinkAction::Wait),
        },
        LinkState::Closing => (LinkState::Connecting, LinkAction::Connect),
        LinkState::Active { num_pings } => match event {
            LinkEvent::Tick { elapsed_micros } => (
                state,
                LinkAction::SendPing(ping_payload(num_pings, elapsed_micros)),
            ),
            LinkEvent::ServerResponse(body) => {
                let message = MuxedMessage::Child(body);
                (state, LinkAction::SendBinary(encode(&message)))
            },
            LinkEvent::ClientRequest(body) => {
                let message = MuxedMessage::Parent(body);
                (state, LinkAction::SendBinary(encode(&message)))
            },
            LinkEvent::Inbound(frame) => handle_frame(num_pings, frame),
            LinkEvent::QueueClosed => (LinkState::Closing, LinkAction::DropStream),
            LinkEvent::SendFailed => (LinkState::Closing, LinkAction::DropStream),
            LinkEvent::StreamEnded => (LinkState::Closing, LinkAction::DropStream),
            LinkEvent::StreamDropped => (LinkState::Connecting, LinkAction::Connect),
            LinkEvent::ConnectFailed => (state, LinkAction::Wait),
            LinkEvent::Connected => (state, LinkAction::Wait),
        },
    }
}

/// The state after each event of `events`, first to last.
pub open spec fn state_after(state: LinkState, events: Seq<EventView>) -> LinkState
    decreases events.len(),
{
    if events.len() == 0 {
        state
    } else {
        spec_step(state_after(state, events.drop_last()), events.last()).0
    }
}

/// The link never gives up: however often connecting fails, it is still
/// connecting, and the next step is another attempt after the delay.
pub proof fn lemma_never_gives_up(events: Seq<EventView>)
    requires
        forall|i: int| 0 <= i < events.len() ==> events[i] == EventView::ConnectFailed,
    ensures
        state_after(LinkState::Connecting, events) == LinkState::Connecting,
        spec_step(state_after(LinkState::Connecting, events), EventView::ConnectFailed) == (
            LinkState::Connecting,
            ActionView::SleepThenConnect,
        ),
    decreases events.len(),
{
    if events.len() > 0 {
        lemma_never_gives_up(events.drop_last());
    }
}

/// Giving the stream up is no end: whatever happens next, the link is
/// connecting again.
pub proof fn lemma_closing_reconnects(event: EventView)
    ensures
        spec_step(LinkState::Closing, event) == (LinkState::Connecting, ActionView::Connect),
{
}

/// A framed message that arrives while the stream is up reaches the side
/// its tag names, unchanged, and leaves the state as it was.
pub proof fn lemma_routed_by_tag(num_pings: u32, message: Envelope)
    ensures
        spec_step(
            LinkState::Active { num_pings },
            EventView::Inbound(FrameView::Binary(spec_encode(message))),
        ) == (
            LinkState::Active { num_pings },
            match message {
                Envelope::Child(body) => ActionView::ToServer(body),
                Envelope::Parent(body) => ActionView::ToClient(body),
            },
        ),
{
    crate::codec::lemma_decode_encode(message);
}

/// While the stream is up the probe count moves only when the probe just
/// sent is acknowledged, and then by one.
pub proof fn lemma_count_moves_on_ack(num_pings: u32, event: EventView)
    ensures
        match spec_step(LinkState::Active { num_pings }, event).0 {
            LinkState::Active { num_pings: after } => after == num_pings || (after
                == spec_next_sequence(num_pings) && exists|elapsed: u128|
                event == EventView::Inbound(
                    FrameView::Pong(#[trigger] ping_bytes(num_pings, elapsed)),
                )),
            _ => true,
        },
{
    match event {
        EventView::Inbound(FrameView::Pong(payload)) => {
            crate::heartbeat::lemma_accepted_are_pings(payload, num_pings);
            if pong_verdict(payload, num_pings).is_ok() {
                let elapsed = choose|elapsed: u128|
                    payload == #[trigger] ping_bytes(num_pings, elapsed);
                assert(event == EventView::Inbound(
                    FrameView::Pong(ping_bytes(num_pings, elapsed)),
                ));
            }
        },
        _ => {},
    }
}

} // verus!
