//! The WebSocket protocol, seen from a client.

pub mod builder;
pub mod frame;
pub mod handshake;
pub mod message;
pub mod ops;
pub mod parsed_addr;
pub mod reassembly;
pub mod split;
pub mod step;
pub mod text;
pub mod utf8;
pub mod wire;

use vstd::prelude::*;

use crate::error::WebSocketError;
use crate::secure::TlsProtocol;
use crate::websocket::builder::WebSocketBuilder;
use crate::websocket::frame::Frame;
use crate::websocket::handshake::HandshakeResponse;
use crate::websocket::message::{Fragmentation, Message};
use crate::websocket::ops::{CloseOutcome, ClosePayload, ClosingFrames};
use crate::websocket::reassembly::ReassemblyView;
use crate::websocket::split::read::WebSocketReadHalf;
use crate::websocket::split::write::{WebSocketWriteHalf, WriteView};
use crate::websocket::step::{MessageStep, Step};

verus! {

/// Manages the WebSocket connection; used to send data and receive data.
///
/// # Splitting
///
/// To facilitate simultaneous reads and writes, the `WebSocket` can be split
/// into a [read half](WebSocketReadHalf) and a [write half](WebSocketWriteHalf).
/// The read half allows frames to be received, while the write half
/// allows frames to be sent.
///
/// If the read half receives a Ping or Close frame, it needs to send a
/// Pong or echo the Close frame and close the WebSocket, respectively.
/// The write half is notified of these events, but it cannot act on them
/// unless it is flushed. Events can be explicitly
/// [`flush`](WebSocketWriteHalf::flush_events())ed, but sending a frame will also flush events. If
/// frames are not being sent frequently, consider explicitly flushing events.
///
/// Flushing is done automatically if you are using the `WebSocket` type by itself.
pub struct WebSocket<Si> {
    /// The two halves, and what was received.
    inner: FlushingWs<Si>,
    accepted_subprotocol: Option<String>,
    handshake_response_headers: Option<Vec<(String, String)>>,
}

/// The two halves of a connection. What the read half receives is handed out once the write half
/// has answered the events that came with it.
pub struct FlushingWs<Si> {
    pub read: WebSocketReadHalf,
    pub write: WebSocketWriteHalf<Si>,
    /// What was received and is to be handed out after the flush.
    pub received_message: Option<Received>,
}

/// What a stream of messages has come to.
#[derive(Debug, PartialEq, Eq)]
pub enum Received {
    /// A message.
    Message(Message),
    /// The end of the stream.
    End,
}

/// What happened while a message is being received.
#[derive(Debug)]
pub enum ReceiveEvent {
    /// A message was asked for.
    Begin,
    /// The read half was asked for a message.
    ReadPolled(MessageStep),
    /// The write half has answered the events of the read half, or failed to.
    Flushed(Result<(), WebSocketError>),
}

/// What to do next while a message is being received.
#[derive(Debug)]
pub enum ReceiveAction {
    /// Ask the read half for a message.
    PollRead,
    /// Make the write half answer the events of the read half.
    FlushEvents,
    /// The answer.
    Return(MessageStep),
}

/// What to do next while a message is being received, and what is held back then, given what is held
/// back and what happened.
pub open spec fn receiving(held: Option<Received>, event: ReceiveEvent) -> (
    ReceiveAction,
    Option<Received>,
) {
    match event {
        ReceiveEvent::Begin => if held is None {
            (ReceiveAction::PollRead, held)
        } else {
            (ReceiveAction::FlushEvents, held)
        },
        ReceiveEvent::ReadPolled(Step::Pending) => (ReceiveAction::FlushEvents, held),
        ReceiveEvent::ReadPolled(Step::Ready(Some(Ok(message)))) => (
            ReceiveAction::FlushEvents,
            Some(Received::Message(message)),
        ),
        ReceiveEvent::ReadPolled(Step::Ready(None)) => (
            ReceiveAction::FlushEvents,
            Some(Received::End),
        ),
        ReceiveEvent::ReadPolled(Step::Ready(Some(Err(error)))) => (
            ReceiveAction::Return(Step::Ready(Some(Err(error)))),
            held,
        ),
        ReceiveEvent::Flushed(Err(error)) => (
            ReceiveAction::Return(Step::Ready(Some(Err(error)))),
            held,
        ),
        ReceiveEvent::Flushed(Ok(())) => (
            ReceiveAction::Return(
                match held {
                    Some(Received::Message(message)) => Step::Ready(Some(Ok(message))),
                    Some(Received::End) => Step::Ready(None),
                    None => Step::Pending,
                },
            ),
            None,
        ),
    }
}

impl<Si> FlushingWs<Si> {
    /// Receives a message: the read half is asked for one unless there is one at hand, and before
    /// it is handed out the write half answers the events of the read half. It does so, too, where
    /// there is no message yet, and at the end.
    pub fn poll_next(&mut self, event: ReceiveEvent) -> (r: ReceiveAction)
        ensures
            final(self).read == old(self).read,
            final(self).write == old(self).write,
            (r, final(self).received_message) == receiving(old(self).received_message, event),
            match event {
                ReceiveEvent::Begin => {
                    &&& r == if old(self).received_message is None {
                        ReceiveAction::PollRead
                    } else {
                        ReceiveAction::FlushEvents
                    }
                    &&& final(self).received_message == old(self).received_message
                },
                ReceiveEvent::ReadPolled(Step::Pending) => {
                    &&& r == ReceiveAction::FlushEvents
                    &&& final(self).received_message == old(self).received_message
                },
                ReceiveEvent::ReadPolled(Step::Ready(Some(Ok(message)))) => {
                    &&& r == ReceiveAction::FlushEvents
                    &&& final(self).received_message == Some(Received::Message(message))
                },
                ReceiveEvent::ReadPolled(Step::Ready(Some(Err(error)))) => {
                    &&& r == ReceiveAction::Return(Step::Ready(Some(Err(error))))
                    &&& final(self).received_message == old(self).received_message
                },
                ReceiveEvent::ReadPolled(Step::Ready(None)) => {
                    &&& r == ReceiveAction::FlushEvents
                    &&& final(self).received_message == Some(Received::End)
                },
                ReceiveEvent::Flushed(Err(error)) => {
                    &&& r == ReceiveAction::Return(Step::Ready(Some(Err(error))))
                    &&& final(self).received_message == old(self).received_message
                },
                ReceiveEvent::Flushed(Ok(())) => {
                    &&& r == ReceiveAction::Return(
                        match old(self).received_message {
                            Some(Received::Message(message)) => Step::Ready(Some(Ok(message))),
                            Some(Received::End) => Step::Ready(None),
                            None => Step::Pending,
                        },
                    )
                    &&& final(self).received_message is None
                },
            },
    {
        match event {
            ReceiveEvent::Begin => if self.received_message.is_none() {
                ReceiveAction::PollRead
            } else {
                ReceiveAction::FlushEvents
            },
            ReceiveEvent::ReadPolled(Step::Pending) => ReceiveAction::FlushEvents,
            ReceiveEvent::ReadPolled(Step::Ready(Some(Ok(message)))) => {
                self.received_message = Some(Received::Message(message));
                ReceiveAction::FlushEvents
            },
            ReceiveEvent::ReadPolled(Step::Ready(Some(Err(error)))) => ReceiveAction::Return(
                Step::Ready(Some(Err(error))),
            ),
            ReceiveEvent::ReadPolled(Step::Ready(None)) => {
                self.received_message = Some(Received::End);
                ReceiveAction::FlushEvents
            },
            ReceiveEvent::Flushed(Err(error)) => ReceiveAction::Return(
                Step::Ready(Some(Err(error))),
            ),
            ReceiveEvent::Flushed(Ok(())) => ReceiveAction::Return(
                match self.received_message.take() {
                    Some(Received::Message(message)) => Step::Ready(Some(Ok(message))),
                    Some(Received::End) => Step::Ready(None),
                    None => Step::Pending,
                },
            ),
        }
    }
}

impl<Si> WebSocket<Si> {
    /// The two halves, and what was received.
    pub closed spec fn halves(&self) -> FlushingWs<Si> {
        self.inner
    }

    /// Where the read half stands.
    pub open spec fn reading(&self) -> ReassemblyView {
        self.halves().read.state()
    }

    /// The state of the write half.
    pub open spec fn writing(&self) -> WriteView {
        self.halves().write.state()
    }

    /// The sink that frames are handed to.
    pub open spec fn sink(&self) -> Si {
        self.halves().write.frames().wrapped()
    }

    /// What was received and is to be handed out after the flush.
    pub open spec fn held(&self) -> Option<Received> {
        self.halves().received_message
    }

    /// The subprotocol that the server has chosen.
    pub closed spec fn subprotocol(&self) -> Option<String> {
        self.accepted_subprotocol
    }

    /// The headers of the server's response.
    pub closed spec fn response_headers(&self) -> Option<Vec<(String, String)>> {
        self.handshake_response_headers
    }

    /// Access the two halves.
    pub fn inner_mut(&mut self) -> (r: &mut FlushingWs<Si>)
        ensures
            *r == old(self).halves(),
            final(self).halves() == *final(r),
            final(self).subprotocol() == old(self).subprotocol(),
            final(self).response_headers() == old(self).response_headers(),
    {
        &mut self.inner
    }

    /// Splits the WebSocket into a read half and a write half, which can be used separately.
    /// [Accepted subprotocol](WebSocket::accepted_subprotocol())
    /// and [handshake response headers](WebSocket::handshake_response_headers()) data
    /// will be lost.
    pub fn split(self) -> (r: (WebSocketReadHalf, WebSocketWriteHalf<Si>))
        ensures
            r.0 == self.halves().read,
            r.1 == self.halves().write,
    {
        (self.inner.read, self.inner.write)
    }

    /// Joins together a split read half and write half to reconstruct a WebSocket.
    pub fn join(read_half: WebSocketReadHalf, write_half: WebSocketWriteHalf<Si>) -> (r: Self)
        ensures
            r.halves().read == read_half,
            r.halves().write == write_half,
            r.held() is None,
            r.subprotocol() is None,
            r.response_headers() is None,
    {
        WebSocket {
            inner: FlushingWs { read: read_half, write: write_half, received_message: None },
            accepted_subprotocol: None,
            handshake_response_headers: None,
        }
    }

    /// Keeps what the server's response says.
    pub fn record_response(&mut self, response: &HandshakeResponse)
        ensures
            final(self).halves() == old(self).halves(),
            ops::optional_text(final(self).subprotocol()) == response@.subprotocol(),
            final(self).response_headers() matches Some(headers)
                && handshake::header_views(headers@) == handshake::text_header_views(
                response@.headers,
            ),
    {
        self.accepted_subprotocol = response.subprotocol();
        self.handshake_response_headers = Some(response.text_headers());
    }

    /// Returns the subprotocol that was accepted by the server during the handshake,
    /// if any. This data will be lost if the WebSocket is [`split`](WebSocket::split()).
    pub fn accepted_subprotocol(&self) -> (r: &Option<String>)
        ensures
            *r == self.subprotocol(),
    {
        &self.accepted_subprotocol
    }

    /// Returns the headers that were returned by the server during the handshake.
    /// This data will be lost if the WebSocket is [`split`](WebSocket::split()).
    pub fn handshake_response_headers(&self) -> (r: &Option<Vec<(String, String)>>)
        ensures
            *r == self.response_headers(),
    {
        &self.handshake_response_headers
    }

    /// Closes the connection, once the close frame was sent, catching all messages that the server
    /// still sends.
    pub fn close_catching(self) -> (r: ClosingFrames)
        ensures
            r.state() == self.reading(),
            r.echo() is None,
    {
        ClosingFrames::new(self.inner.read)
    }

    /// Waits for the server's close frame, once the client's was sent: what to make of the next
    /// frame, or of the end of the frames. As long as there is no outcome the waiting goes on, and
    /// data that the server sent is lost.
    pub fn await_close(item: Option<Frame>) -> (r: Option<Result<CloseOutcome, WebSocketError>>)
        ensures
            match item {
                None => r == Some(Ok::<CloseOutcome, WebSocketError>(CloseOutcome::Abrupt)),
                Some(Frame::Close { payload }) => r matches Some(result) && ops::closes_with(
                    result,
                    ops::normal_closure(ops::close_body(payload), Some(ops::missing_payload())),
                ),
                Some(_) => r is None,
            },
    {
        ops::await_close(item, Some(ClosePayload::missing()))
    }
}

impl WebSocket<()> {
    /// Constructs a [`WebSocketBuilder`], which can be used to customize
    /// the WebSocket handshake.
    pub fn builder() -> (r: WebSocketBuilder)
        ensures
            r@.fragmentation == Fragmentation::Disabled,
            r@.headers.len() == 0,
            r@.subprotocols.len() == 0,
            !r.tls().accept_invalid_certs,
            !r.tls().accept_invalid_hostnames,
            r.tls().root_certificates@.len() == 0,
            !r.tls().disable_built_in_roots,
            r.tls().identity is None,
            r.tls().max_protocol_version is None,
            r.tls().min_protocol_version == Some(TlsProtocol::Tlsv10),
            r.tls().use_sni,
    {
        WebSocketBuilder::new()
    }
}

/// What the read half hands out is handed on, once and as it is, but not before the events that came
/// with it are answered; a flush that fails is told, and what was received is kept for the next
/// time. Nothing is read while something is held back.
pub proof fn law_messages_are_handed_out_after_the_flush(message: Message, error: WebSocketError)
    ensures
        ({
            let begun = receiving(None, ReceiveEvent::Begin);
            let read = receiving(
                begun.1,
                ReceiveEvent::ReadPolled(Step::Ready(Some(Ok(message)))),
            );
            let failed = receiving(read.1, ReceiveEvent::Flushed(Err(error)));
            let again = receiving(failed.1, ReceiveEvent::Begin);
            let done = receiving(again.1, ReceiveEvent::Flushed(Ok(())));
            &&& begun.0 == ReceiveAction::PollRead
            &&& read.0 == ReceiveAction::FlushEvents
            &&& failed.0 == ReceiveAction::Return(Step::Ready(Some(Err(error))))
            &&& again.0 == ReceiveAction::FlushEvents
            &&& done.0 == ReceiveAction::Return(Step::Ready(Some(Ok(message))))
            &&& done.1 is None
            &&& receiving(read.1, ReceiveEvent::Flushed(Ok(()))) == done
        }),
{
}

/// The end of the messages is handed on after the flush, too; where there is no message yet the
/// events are answered all the same; and an error of the read half is told at once.
pub proof fn law_events_are_answered_while_receiving(error: WebSocketError)
    ensures
        ({
            let ended = receiving(None, ReceiveEvent::ReadPolled(Step::Ready(None)));
            let waiting = receiving(None, ReceiveEvent::ReadPolled(Step::Pending));
            let failed = receiving(None, ReceiveEvent::ReadPolled(Step::Ready(Some(Err(error)))));
            &&& ended.0 == ReceiveAction::FlushEvents
            &&& receiving(ended.1, ReceiveEvent::Flushed(Ok(()))).0 == ReceiveAction::Return(
                Step::Ready(None),
            )
            &&& waiting.0 == ReceiveAction::FlushEvents
            &&& receiving(waiting.1, ReceiveEvent::Flushed(Ok(()))).0 == ReceiveAction::Return(
                Step::Pending,
            )
            &&& failed.0 == ReceiveAction::Return(Step::Ready(Some(Err(error))))
        }),
{
}

} // verus!
