//! Operations on web sockets: closing the websocket, and pinging the peer.

use vstd::prelude::*;

use crate::error::{InvalidFrameReason, WebSocketError};
use crate::websocket::frame::{Frame, FrameView};
use crate::websocket::message::IncompleteMessage;
use crate::websocket::reassembly;
use crate::websocket::reassembly::{Reassembly, ReassemblyView};
use crate::websocket::split::read::WebSocketReadHalf;
use crate::websocket::step;
use crate::websocket::step::{MessageStep, Step};

verus! {

/// The contents of a `Ping`/`Pong` frame
#[derive(Debug, PartialEq, Eq)]
pub struct PingPayload {
    /// Optional application data contained in a `Ping`.
    pub payload: Option<Vec<u8>>,
}

/// How a WebSocket connection was closed.
#[derive(Debug, PartialEq, Eq)]
pub enum CloseOutcome {
    /// The WebSocket connection was closed normally.
    Normal(Option<ClosePayload>),
    /// The server took too long to reply with a `Close` frame,
    /// or took too long to shut down the TCP connection,
    /// so the client acted first.
    TimeOut,
    /// Abrupt closure of the connection without any echoed `Close` frame.
    Abrupt,
}

impl CloseOutcome {
    /// Unwrap the outcome of a normal closure.
    pub fn unwrap(self) -> (r: Option<ClosePayload>)
        requires
            self is Normal,
        ensures
            self == CloseOutcome::Normal(r),
    {
        match self {
            CloseOutcome::Normal(p) => p,
            _ => None,
        }
    }
}

/// The body of a close frame, consisting of a status code
/// hinting at the reason why the connection is being closed,
/// and a reason message meant to be read by the developers of
/// the application communicating.
#[derive(Debug, PartialEq, Eq)]
pub struct ClosePayload {
    /// The closing status for this payload.
    pub status: Status,
    /// Reason given for closing the connection.
    pub reason: Option<String>,
}

/// The body of a close frame as a mathematical value.
#[verifier::ext_equal]
pub struct ClosePayloadView {
    pub status: Status,
    pub reason: Option<Seq<char>>,
}

/// An optional string as a mathematical value.
pub open spec fn optional_text(text: Option<String>) -> Option<Seq<char>> {
    match text {
        Some(text) => Some(text@),
        None => None,
    }
}

impl View for ClosePayload {
    type V = ClosePayloadView;

    open spec fn view(&self) -> ClosePayloadView {
        ClosePayloadView { status: self.status, reason: optional_text(self.reason) }
    }
}

/// Status codes observable during the closing of a WebSocket connection.
///
/// This enum can not be used in combination with any other API of this crate
/// to cause an active WebSocket connection to enter an invalid state.
#[derive(Debug, Clone, Copy, PartialEq, Eq, Structural)]
pub enum Status {
    /// The purpose of the websocket has been fulfilled.
    ///
    /// WebSocket status code 1000
    NormalClosure,
    /// An endpoint is leaving the connection,
    /// such as a browser navigating away or a web server shutting down.
    ///
    /// WebSocket status code 1001
    GoingAway,
    /// An endpoint is terminating the connection due to a protocol error.
    ///
    /// WebSocket status code 1002
    ProtocolError,
    /// An endpoint has received data of a type it doesn't understand.
    ///
    /// WebSocket status code 1003
    UnacceptableData,
    /// No actual status code is present.
    ///
    /// # Oddities
    ///
    /// This status code is never sent by a peer, but is generated instead
    /// from the library itself to indicate what's on the label.
    ///
    /// This status code can not be sent manually.
    ///
    /// WebSocket status code 1005
    MissingStatusCode,
    /// Indicates that the connection was shut down abnormally,
    /// for example, if no `Close` frames were exchanged
    ///
    /// This status code may not be sent by a peer.
    ///
    /// This status code can not be sent manually.
    ///
    /// WebSocket status code 1006
    AbnormalShutdown,
    /// An endpoint received data that was inconsistent with the
    /// type of the message.
    ///
    /// WebSocket status code 1007
    InvalidData,
    /// An endpoint has received data within a message that violates its policy.
    ///
    /// WebSocket status code 1008
    PolicyViolation,
    /// An endpoint has received a message that was too big.
    ///
    /// WebSocket status code 1009
    MessageTooLarge,
    /// The client is terminating the connection because it
    /// expected the server to negotiate one or more extensions, but the server didn't.
    ///
    /// The list of extensions that are needed should appear in the `reason` part of the Close
    /// frame.
    ///
    /// WebSocket status code 1010
    InsufficientExtensions,
    /// The server is terminating the connection because it encountered
    /// an unexpected condition that prevented it from fulfilling the request.
    ///
    /// WebSocket status code 1011
    ServerError,
    /// This status code is designated for use in
    /// applications expecting a status code to indicate that the
    /// connection was closed due to a failure to perform a TLS handshake.
    ///
    /// This status code may never be observed, as its purpose is fulfilled
    /// by the [`WebSocketError::TlsConnectionError`] error.
    ///
    /// This status code can not be sent manually.
    ///
    /// WebSocket status code 1015
    TlsFailure,
    /// Status codes in the range `3000..=3999` are reserved for use by
    /// libraries, frameworks, and applications.  These status codes are
    /// registered directly with IANA.
    RegisteredStatus(u16),
    /// Status codes in the range `4000..=4999` are reserved for private use.
    PrivateStatus(u16),
}

impl Status {
    /// The status with the given code, if there is one.
    pub open spec fn of_code(code: u16) -> Option<Status> {
        if code == 1000 {
            Some(Status::NormalClosure)
        } else if code == 1001 {
            Some(Status::GoingAway)
        } else if code == 1002 {
            Some(Status::ProtocolError)
        } else if code == 1003 {
            Some(Status::UnacceptableData)
        } else if code == 1005 {
            Some(Status::MissingStatusCode)
        } else if code == 1006 {
            Some(Status::AbnormalShutdown)
        } else if code == 1007 {
            Some(Status::InvalidData)
        } else if code == 1008 {
            Some(Status::PolicyViolation)
        } else if code == 1009 {
            Some(Status::MessageTooLarge)
        } else if code == 1010 {
            Some(Status::InsufficientExtensions)
        } else if code == 1011 {
            Some(Status::ServerError)
        } else if code == 1015 {
            Some(Status::TlsFailure)
        } else if 3000 <= code <= 3999 {
            Some(Status::RegisteredStatus(code))
        } else if 4000 <= code <= 4999 {
            Some(Status::PrivateStatus(code))
        } else {
            None
        }
    }

    /// The code of the status.
    pub open spec fn code(self) -> u16 {
        match self {
            Status::NormalClosure => 1000,
            Status::GoingAway => 1001,
            Status::ProtocolError => 1002,
            Status::UnacceptableData => 1003,
            Status::MissingStatusCode => 1005,
            Status::AbnormalShutdown => 1006,
            Status::InvalidData => 1007,
            Status::PolicyViolation => 1008,
            Status::MessageTooLarge => 1009,
            Status::InsufficientExtensions => 1010,
            Status::ServerError => 1011,
            Status::TlsFailure => 1015,
            Status::RegisteredStatus(v) => v,
            Status::PrivateStatus(v) => v,
        }
    }

    /// Whether the status may be sent. Three are only ever made up by an endpoint for itself, and a
    /// number outside its range is the code of no registered or private status.
    pub open spec fn may_be_sent(self) -> bool {
        match self {
            Status::MissingStatusCode => false,
            Status::AbnormalShutdown => false,
            Status::TlsFailure => false,
            Status::RegisteredStatus(v) => 3000 <= v <= 3999,
            Status::PrivateStatus(v) => 4000 <= v <= 4999,
            _ => true,
        }
    }

    /// If the status code can be sent through the WebSocket.
    pub fn sendable(&self) -> (r: bool)
        ensures
            r == self.may_be_sent(),
    {
        match self {
            Status::MissingStatusCode => false,
            Status::AbnormalShutdown => false,
            Status::TlsFailure => false,
            Status::RegisteredStatus(v) => 3000 <= *v && *v <= 3999,
            Status::PrivateStatus(v) => 4000 <= *v && *v <= 4999,
            _ => true,
        }
    }
}

impl TryFrom<u16> for Status {
    type Error = WebSocketError;

    fn try_from(value: u16) -> (r: Result<Self, WebSocketError>) {
        if value < 1000 {
            Err(WebSocketError::InvalidFrame(InvalidFrameReason::BadCloseCode))
        } else if value == 1000 {
            Ok(Status::NormalClosure)
        } else if value == 1001 {
            Ok(Status::GoingAway)
        } else if value == 1002 {
            Ok(Status::ProtocolError)
        } else if value == 1003 {
            Ok(Status::UnacceptableData)
        } else if value == 1005 {
            Ok(Status::MissingStatusCode)
        } else if value == 1006 {
            Ok(Status::AbnormalShutdown)
        } else if value == 1007 {
            Ok(Status::InvalidData)
        } else if value == 1008 {
            Ok(Status::PolicyViolation)
        } else if value == 1009 {
            Ok(Status::MessageTooLarge)
        } else if value == 1010 {
            Ok(Status::InsufficientExtensions)
        } else if value == 1011 {
            Ok(Status::ServerError)
        } else if value == 1015 {
            Ok(Status::TlsFailure)
        } else if 3000 <= value && value <= 3999 {
            Ok(Status::RegisteredStatus(value))
        } else if 4000 <= value && value <= 4999 {
            Ok(Status::PrivateStatus(value))
        } else {
            Err(WebSocketError::InvalidFrame(InvalidFrameReason::BadCloseCode))
        }
    }
}

impl vstd::std_specs::convert::TryFromSpecImpl<u16> for Status {
    open spec fn obeys_try_from_spec() -> bool {
        true
    }

    open spec fn try_from_spec(value: u16) -> Result<Self, WebSocketError> {
        match Status::of_code(value) {
            Some(status) => Ok(status),
            None => Err(WebSocketError::InvalidFrame(InvalidFrameReason::BadCloseCode)),
        }
    }
}

impl From<Status> for u16 {
    fn from(status: Status) -> (r: u16) {
        match status {
            Status::NormalClosure => 1000,
            Status::GoingAway => 1001,
            Status::ProtocolError => 1002,
            Status::UnacceptableData => 1003,
            Status::MissingStatusCode => 1005,
            Status::AbnormalShutdown => 1006,
            Status::InvalidData => 1007,
            Status::PolicyViolation => 1008,
            Status::MessageTooLarge => 1009,
            Status::InsufficientExtensions => 1010,
            Status::ServerError => 1011,
            Status::TlsFailure => 1015,
            Status::RegisteredStatus(v) => v,
            Status::PrivateStatus(v) => v,
        }
    }
}

impl vstd::std_specs::convert::FromSpecImpl<Status> for u16 {
    open spec fn obeys_from_spec() -> bool {
        true
    }

    open spec fn from_spec(status: Status) -> u16 {
        status.code()
    }
}

/// The body that a received close frame stands for: an empty reason is none, and the code has to
/// be that of a status.
pub open spec fn received_payload(code: u16, reason: Seq<char>) -> Result<
    ClosePayloadView,
    WebSocketError,
> {
    match Status::of_code(code) {
        Some(status) => Ok(
            ClosePayloadView {
                status,
                reason: if reason.len() == 0 {
                    None
                } else {
                    Some(reason)
                },
            },
        ),
        None => Err(WebSocketError::InvalidFrame(InvalidFrameReason::BadCloseCode)),
    }
}

/// The body of a close frame that holds nothing.
pub open spec fn missing_payload() -> ClosePayloadView {
    ClosePayloadView { status: Status::MissingStatusCode, reason: None }
}

impl ClosePayload {
    /// Interprets what a received close frame holds.
    pub fn received(code: u16, reason: String) -> (r: Result<ClosePayload, WebSocketError>)
        ensures
            match received_payload(code, reason@) {
                Ok(payload) => r matches Ok(p) && p@ == payload,
                Err(error) => r == Err::<ClosePayload, WebSocketError>(error),
            },
    {
        match Status::try_from(code) {
            Ok(status) => {
                let reason: Option<String> = if reason.as_str().is_empty() {
                    None
                } else {
                    Some(reason)
                };
                Ok(ClosePayload { status, reason })
            },
            Err(error) => Err(error),
        }
    }

    /// What a received close frame amounts to if it holds nothing.
    pub fn missing() -> (r: ClosePayload)
        ensures
            r@ == missing_payload(),
    {
        ClosePayload { status: Status::MissingStatusCode, reason: None }
    }
}

/// The frame that closes a connection with the given body, or why there is none.
pub open spec fn close_frame_view(payload: Option<ClosePayloadView>) -> Result<
    FrameView,
    WebSocketError,
> {
    match payload {
        None => Ok(FrameView::Close { payload: None }),
        Some(ClosePayloadView { status, reason }) => if !status.may_be_sent() {
            Err(WebSocketError::BadStatus)
        } else {
            Ok(
                FrameView::Close {
                    payload: Some(
                        (
                            status.code(),
                            match reason {
                                Some(reason) => reason,
                                None => Seq::empty(),
                            },
                        ),
                    ),
                },
            )
        },
    }
}

/// The view of an optional body of a close frame.
pub open spec fn optional_payload(payload: Option<ClosePayload>) -> Option<ClosePayloadView> {
    match payload {
        Some(payload) => Some(payload@),
        None => None,
    }
}

/// The frame that closes a connection with the given body. A status that may not be sent is
/// refused.
pub fn close_frame(payload: Option<ClosePayload>) -> (r: Result<Frame, WebSocketError>)
    ensures
        match close_frame_view(optional_payload(payload)) {
            Ok(frame) => r matches Ok(f) && f@ == frame,
            Err(error) => r == Err::<Frame, WebSocketError>(error),
        },
{
    match payload {
        None => Ok(Frame::Close { payload: None }),
        Some(payload) => {
            if !payload.status.sendable() {
                return Err(WebSocketError::BadStatus);
            }
            let reason: String = match payload.reason {
                Some(reason) => reason,
                None => String::new(),
            };
            let code: u16 = u16::from(payload.status);
            Ok(Frame::Close { payload: Some((code, reason)) })
        },
    }
}

/// Close a WebSocket while also catching the last frames sent by the server!
/// This is the data loss proof alternative to closing it at once.
#[derive(Debug)]
pub struct ClosingFrames {
    /// Part of a message that has not fully been received yet, and whether the rest of a message
    /// is being skipped.
    reassembly: Reassembly,
    /// If the server has echoed a `Close` frame, this field is `Some`, `None` otherwise
    complete: Option<ClosePayload>,
}

/// The body that an echoed close frame stands for. One that holds nothing is read as one with the
/// status for that.
pub open spec fn echoed_payload(payload: Option<(u16, Seq<char>)>) -> Result<
    ClosePayloadView,
    WebSocketError,
> {
    match payload {
        Some((code, reason)) => received_payload(code, reason),
        None => Ok(missing_payload()),
    }
}

/// A pair of a code and a reason as a mathematical value.
pub open spec fn close_body(payload: Option<(u16, String)>) -> Option<(u16, Seq<char>)> {
    match payload {
        Some((code, reason)) => Some((code, reason@)),
        None => None,
    }
}

/// The outcome of waiting for the echo, given the body of the close frame that came, and what one
/// that holds nothing amounts to.
pub open spec fn normal_closure(
    payload: Option<(u16, Seq<char>)>,
    empty: Option<ClosePayloadView>,
) -> Result<Option<ClosePayloadView>, WebSocketError> {
    match payload {
        None => Ok(empty),
        Some((code, reason)) => match received_payload(code, reason) {
            Ok(payload) => Ok(Some(payload)),
            Err(error) => Err(error),
        },
    }
}

/// Whether a result says that the connection was closed normally with the given body, or failed
/// with the given error.
pub open spec fn closes_with(
    result: Result<CloseOutcome, WebSocketError>,
    closure: Result<Option<ClosePayloadView>, WebSocketError>,
) -> bool {
    match closure {
        Ok(payload) => result matches Ok(CloseOutcome::Normal(p)) && optional_payload(p) == payload,
        Err(error) => result == Err::<CloseOutcome, WebSocketError>(error),
    }
}

/// What the server has echoed after a frame, and where the connection stands then: data counts until
/// a close frame is echoed, and nothing after it.
pub open spec fn catching(
    echo: Option<ClosePayloadView>,
    state: ReassemblyView,
    frame: FrameView,
) -> (Option<ClosePayloadView>, ReassemblyView) {
    match (echo, frame) {
        (Some(_), _) => (echo, state),
        (None, FrameView::Close { payload }) => match echoed_payload(payload) {
            Ok(payload) => (Some(payload), state),
            Err(_) => (None, state),
        },
        (None, frame) => (None, state.after(frame)),
    }
}

impl ClosingFrames {
    /// Where the connection stands between two data frames.
    pub closed spec fn state(&self) -> ReassemblyView {
        self.reassembly@
    }

    /// What the server has echoed.
    pub closed spec fn echo(&self) -> Option<ClosePayloadView> {
        optional_payload(self.complete)
    }

    /// Starts to wait for the echo, with the read half of the connection.
    pub fn new(read: WebSocketReadHalf) -> (r: Self)
        ensures
            r.state() == read.state(),
            r.echo() is None,
    {
        let (partial_message, recovering) = read.into_parts();
        ClosingFrames { reassembly: Reassembly { partial_message, recovering }, complete: None }
    }

    /// If the WebSocket has been closed, this method returns
    /// any leftover parts from the last data message, if it was not received in full.
    pub fn remainder(&mut self) -> (r: Option<IncompleteMessage>)
        ensures
            final(self).echo() == old(self).echo(),
            if old(self).echo() is Some {
                &&& reassembly::partial_view(r) == old(self).state().partial
                &&& final(self).state() == (ReassemblyView { partial: None, ..old(self).state() })
            } else {
                &&& r is None
                &&& final(self).state() == old(self).state()
            },
    {
        if self.complete.is_none() {
            return None;
        }
        self.reassembly.partial_message.take()
    }

    /// Whether the server has echoed the `Close` frame, so that nothing will follow.
    pub fn is_complete(&self) -> (r: bool)
        ensures
            r == self.echo() is Some,
    {
        self.complete.is_some()
    }

    /// Whether a frame may come next.
    pub fn accepts(&self, frame: &Frame) -> (r: bool)
        ensures
            r == self.state().accepts(frame@),
    {
        self.reassembly.accepts(frame)
    }

    /// Receives a frame from the server. Its messages are handed out until it closes the
    /// connection; pings and pongs are passed over.
    pub fn on_frame(&mut self, frame: Frame) -> (r: MessageStep)
        requires
            old(self).state().accepts(frame@),
        ensures
            (final(self).echo(), final(self).state()) == catching(
                old(self).echo(),
                old(self).state(),
                frame@,
            ),
            match (old(self).echo(), frame@) {
                (Some(_), _) => {
                    &&& r == MessageStep::Ready(None)
                    &&& final(self).state() == old(self).state()
                    &&& final(self).echo() == old(self).echo()
                },
                (None, FrameView::Close { payload }) => {
                    &&& final(self).state() == old(self).state()
                    &&& match echoed_payload(payload) {
                        Ok(payload) => {
                            &&& r == MessageStep::Ready(None)
                            &&& final(self).echo() == Some(payload)
                        },
                        Err(error) => {
                            &&& r == MessageStep::Ready(Some(Err(error)))
                            &&& final(self).echo() is None
                        },
                    }
                },
                (None, frame) => {
                    &&& step::reports(r, old(self).state().outcome(frame))
                    &&& final(self).state() == old(self).state().after(frame)
                    &&& final(self).echo() is None
                },
            },
    {
        if self.complete.is_some() {
            return Step::Ready(None);
        }
        match frame {
            Frame::Close { payload: None } => {
                self.complete = Some(ClosePayload::missing());
                Step::Ready(None)
            },
            Frame::Close { payload: Some((status, reason)) } => {
                match ClosePayload::received(status, reason) {
                    Ok(payload) => {
                        self.complete = Some(payload);
                        Step::Ready(None)
                    },
                    Err(error) => Step::Ready(Some(Err(error))),
                }
            },
            frame => self.reassembly.push(frame).report(),
        }
    }

    /// The outcome of closing, if the server has already echoed the `Close` frame. Otherwise it has
    /// to be waited for.
    pub fn close(self) -> (r: Option<CloseOutcome>)
        ensures
            match self.echo() {
                Some(payload) => r matches Some(CloseOutcome::Normal(Some(p))) && p@ == payload,
                None => r is None,
            },
    {
        match self.complete {
            Some(payload) => Some(CloseOutcome::Normal(Some(payload))),
            None => None,
        }
    }

    /// Waits until the server echoes the `Close` frame and closes the TCP connection: what to make
    /// of the next frame, or of the end of the frames. As long as there is no outcome the waiting
    /// goes on, and data that the server sent is lost.
    pub fn await_echo(item: Option<Frame>) -> (r: Option<Result<CloseOutcome, WebSocketError>>)
        ensures
            match item {
                None => r == Some(Ok::<CloseOutcome, WebSocketError>(CloseOutcome::Abrupt)),
                Some(Frame::Close { payload }) => r matches Some(result) && closes_with(
                    result,
                    normal_closure(close_body(payload), None),
                ),
                Some(_) => r is None,
            },
    {
        await_close(item, None)
    }
}

/// What to make of the next frame, or of the end of the frames, while waiting for the server to
/// close the connection. A close frame that holds nothing amounts to `empty`.
pub fn await_close(item: Option<Frame>, empty: Option<ClosePayload>) -> (r: Option<
    Result<CloseOutcome, WebSocketError>,
>)
    ensures
        match item {
            None => r == Some(Ok::<CloseOutcome, WebSocketError>(CloseOutcome::Abrupt)),
            Some(Frame::Close { payload }) => r matches Some(result) && closes_with(
                result,
                normal_closure(close_body(payload), optional_payload(empty)),
            ),
            Some(_) => r is None,
        },
{
    match item {
        None => Some(Ok(CloseOutcome::Abrupt)),
        Some(Frame::Close { payload: None }) => Some(Ok(CloseOutcome::Normal(empty))),
        Some(Frame::Close { payload: Some((status, reason)) }) => {
            match ClosePayload::received(status, reason) {
                Ok(payload) => Some(Ok(CloseOutcome::Normal(Some(payload)))),
                Err(error) => Some(Err(error)),
            }
        },
        Some(_) => None,
    }
}

/// A connection that the client closes with a body, and whose server echoes the close frame as it
/// is, is closed normally, and the outcome tells the body. An empty reason is told as none.
pub proof fn law_echoed_close_is_normal(payload: ClosePayloadView, empty: Option<ClosePayloadView>)
    requires
        payload.status.may_be_sent(),
    ensures
        close_frame_view(Some(payload)) matches Ok(FrameView::Close { payload: body })
            && normal_closure(body, empty) == Ok::<Option<ClosePayloadView>, WebSocketError>(
            Some(
                ClosePayloadView {
                    status: payload.status,
                    reason: if payload.reason == Some(Seq::<char>::empty()) {
                        None
                    } else {
                        payload.reason
                    },
                },
            ),
        ),
{
    law_close_payload_survives(payload);
}

/// No close frame carries a code that an endpoint may not send: neither one of the three that are
/// only made up locally nor one that stands for no status, whatever status the frame is made with.
/// Every other status is refused.
pub proof fn law_only_sendable_codes_are_sent(payload: ClosePayloadView)
    ensures
        close_frame_view(Some(payload)) matches Ok(frame) ==> (frame matches FrameView::Close {
            payload: Some((code, _)),
        } && code != 1005 && code != 1006 && code != 1015 && Status::of_code(code) == Some(
            payload.status,
        )),
        close_frame_view(Some(payload)) is Err <==> (Status::of_code(payload.status.code()) != Some(
            payload.status,
        ) || payload.status.code() == 1005 || payload.status.code() == 1006
            || payload.status.code() == 1015),
{
}

/// A status is recovered from its code; for the two ranges, as long as the code is in its range.
pub proof fn law_status_from_its_code(status: Status)
    requires
        status matches Status::RegisteredStatus(v) ==> 3000 <= v <= 3999,
        status matches Status::PrivateStatus(v) ==> 4000 <= v <= 4999,
    ensures
        Status::of_code(status.code()) == Some(status),
{
}

/// A code that stands for a status is the code of that status, and no other code stands for it.
pub proof fn law_code_of_its_status(code: u16)
    ensures
        Status::of_code(code) matches Some(status) ==> status.code() == code,
{
}

/// What a peer reads from a close frame is what the frame was made of, with an empty reason read
/// as none.
pub proof fn law_close_payload_survives(payload: ClosePayloadView)
    requires
        payload.status.may_be_sent(),
    ensures
        close_frame_view(Some(payload)) matches Ok(FrameView::Close { payload: Some((code, reason)) })
            && (received_payload(code, reason) matches Ok(read) && {
            &&& read.status == payload.status
            &&& read.reason == if payload.reason == Some(Seq::<char>::empty()) {
                None
            } else {
                payload.reason
            }
        }),
{
    if let Some(reason) = payload.reason {
        assert(reason.len() == 0 ==> reason =~= Seq::empty());
    }
}

/// The codes that are assigned: those from 1000 to 1011, but for 1004, stand for the first eleven
/// statuses in their order, 1015 for the one that follows, and each code of the two ranges for a
/// status of its own. No other code stands for anything.
pub proof fn law_codes_are_assigned(code: u16)
    ensures
        code < 1000 || code == 1004 || 1012 <= code <= 1014 || 1016 <= code <= 2999 || code >= 5000
            <==> Status::of_code(code) is None,
        Status::of_code(code) == Some(Status::NormalClosure) <==> code == 1000,
        Status::of_code(code) == Some(Status::GoingAway) <==> code == 1001,
        Status::of_code(code) == Some(Status::ProtocolError) <==> code == 1002,
        Status::of_code(code) == Some(Status::UnacceptableData) <==> code == 1003,
        Status::of_code(code) == Some(Status::MissingStatusCode) <==> code == 1005,
        Status::of_code(code) == Some(Status::AbnormalShutdown) <==> code == 1006,
        Status::of_code(code) == Some(Status::InvalidData) <==> code == 1007,
        Status::of_code(code) == Some(Status::PolicyViolation) <==> code == 1008,
        Status::of_code(code) == Some(Status::MessageTooLarge) <==> code == 1009,
        Status::of_code(code) == Some(Status::InsufficientExtensions) <==> code == 1010,
        Status::of_code(code) == Some(Status::ServerError) <==> code == 1011,
        Status::of_code(code) == Some(Status::TlsFailure) <==> code == 1015,
        Status::of_code(code) == Some(Status::RegisteredStatus(code)) <==> 3000 <= code <= 3999,
        Status::of_code(code) == Some(Status::PrivateStatus(code)) <==> 4000 <= code <= 4999,
{
}

/// A code that may be sent is one of an assigned status, other than 1005, 1006 and 1015.
pub proof fn law_which_statuses_may_be_sent(code: u16)
    ensures
        Status::of_code(code) matches Some(status) ==> (status.may_be_sent() <==> code != 1005
            && code != 1006 && code != 1015),
        Status::RegisteredStatus(code).may_be_sent() <==> 3000 <= code <= 3999,
        Status::PrivateStatus(code).may_be_sent() <==> 4000 <= code <= 4999,
        Status::RegisteredStatus(code).code() == code,
        Status::PrivateStatus(code).code() == code,
{
}

/// A close frame tells the code of its status and the reason, which is empty where none is given;
/// and nothing at all if it has no body.
pub proof fn law_close_frame_holds_its_body(status: Status, reason: Seq<char>)
    requires
        status.may_be_sent(),
    ensures
        close_frame_view(Some(ClosePayloadView { status, reason: Some(reason) })) == Ok::<
            FrameView,
            WebSocketError,
        >(FrameView::Close { payload: Some((status.code(), reason)) }),
        close_frame_view(Some(ClosePayloadView { status, reason: None })) == Ok::<
            FrameView,
            WebSocketError,
        >(FrameView::Close { payload: Some((status.code(), Seq::empty())) }),
        close_frame_view(None) == Ok::<FrameView, WebSocketError>(
            FrameView::Close { payload: None },
        ),
{
}

/// What is read from a received close frame: the status of its code, and the reason unless it is
/// empty. A code that stands for no status is an error.
pub proof fn law_received_body_is_kept(code: u16, reason: Seq<char>)
    ensures
        Status::of_code(code) is None ==> received_payload(code, reason) == Err::<
            ClosePayloadView,
            WebSocketError,
        >(WebSocketError::InvalidFrame(InvalidFrameReason::BadCloseCode)),
        Status::of_code(code) matches Some(status) ==> (received_payload(code, reason) matches Ok(
            read,
        ) && read.status == status && (reason.len() > 0 ==> read.reason == Some(reason)) && (
        reason.len() == 0 ==> read.reason is None)),
{
}

/// Waiting for the peer to close the connection ends with what its close frame tells. One that tells
/// nothing is read as a missing status where the messages are caught, and as `empty` otherwise.
pub proof fn law_close_frame_of_the_peer_decides(
    code: u16,
    reason: Seq<char>,
    empty: Option<ClosePayloadView>,
)
    ensures
        echoed_payload(Some((code, reason))) == received_payload(code, reason),
        echoed_payload(None) matches Ok(read) && read.status == Status::MissingStatusCode
            && read.reason is None,
        normal_closure(None, empty) == Ok::<Option<ClosePayloadView>, WebSocketError>(empty),
        match received_payload(code, reason) {
            Ok(read) => normal_closure(Some((code, reason)), empty) == Ok::<
                Option<ClosePayloadView>,
                WebSocketError,
            >(Some(read)),
            Err(error) => normal_closure(Some((code, reason)), empty) == Err::<
                Option<ClosePayloadView>,
                WebSocketError,
            >(error),
        },
        missing_payload().status == Status::MissingStatusCode && missing_payload().reason is None,
{
}

/// A result that tells of a closure tells all of it: the status and the reason, or that there was no
/// body, or the error.
pub proof fn law_closures_are_told(
    result: Result<CloseOutcome, WebSocketError>,
    status: Status,
    reason: Option<Seq<char>>,
    error: WebSocketError,
)
    ensures
        closes_with(result, Ok(None)) <==> result == Ok::<CloseOutcome, WebSocketError>(
            CloseOutcome::Normal(None),
        ),
        closes_with(result, Ok(Some(ClosePayloadView { status, reason }))) <==> (result matches Ok(
            CloseOutcome::Normal(Some(payload)),
        ) && payload.status == status && optional_text(payload.reason) == reason),
        closes_with(result, Err(error)) <==> result == Err::<CloseOutcome, WebSocketError>(error),
{
}

/// Nothing is left out of the views of optional values.
pub proof fn law_optional_values_are_seen(
    text: Option<String>,
    payload: Option<ClosePayload>,
    body: Option<(u16, String)>,
)
    ensures
        match text {
            Some(text) => optional_text(Some(text)) == Some(text@),
            None => optional_text(None) is None,
        },
        match payload {
            Some(p) => optional_payload(payload) matches Some(view) && view.status == p.status
                && view.reason == optional_text(p.reason),
            None => optional_payload(None) is None,
        },
        match body {
            Some((code, reason)) => close_body(body) == Some((code, reason@)),
            None => close_body(None) is None,
        },
{
}

/// While a connection is being closed all that the server sends is received as before, up to its
/// close frame; that frame tells the body of the echo; and nothing that follows is received.
pub proof fn law_messages_are_caught_until_the_echo(
    state: ReassemblyView,
    frame: FrameView,
    status: Status,
    reason: Seq<char>,
    echo: ClosePayloadView,
)
    requires
        status matches Status::RegisteredStatus(v) ==> 3000 <= v <= 3999,
        status matches Status::PrivateStatus(v) ==> 4000 <= v <= 4999,
        reason.len() > 0,
    ensures
        !(frame is Close) ==> catching(None, state, frame) == (
            None::<ClosePayloadView>,
            state.after(frame),
        ),
        catching(None, state, FrameView::Close { payload: Some((status.code(), reason)) }) == (
            Some(ClosePayloadView { status, reason: Some(reason) }),
            state,
        ),
        catching(None, state, FrameView::Close { payload: None }) == (
            Some(ClosePayloadView { status: Status::MissingStatusCode, reason: None }),
            state,
        ),
        catching(Some(echo), state, frame) == (Some(echo), state),
{
    law_status_from_its_code(status);
}

} // verus!
