//! Frames, and the codec that puts them on the wire and takes them off it.

use rand_chacha::ChaCha20Rng;
use tokio_util::bytes::BytesMut;
use vstd::prelude::*;
use vstd::utf8::*;

use crate::boundary;
use crate::error::{InvalidFrameReason, WebSocketError, WsReadError, WsWriteError};
use crate::websocket::text;
use crate::websocket::wire;
use crate::websocket::wire::{Front, ReadFront, Refusal};

verus! {

/// Data which is sent and received through the WebSocket connection.
///
/// # Fragmentation
///
/// Frames can be fragments of a larger message. `continuation` signifies that the frame is a
/// continuation frame in the message, and `fin` signifies that the frame is the final frame in the
/// message.
///
/// If the message contains only one frame, the single frame has `continuation` set to `false` and
/// `fin` set to `true`. If the message contains more than one frame, the first frame has
/// `continuation` set to `false` and `fin` set to `false`, all other frames except the last frame
/// have `continuation` set to `true` and `fin` set to `false`, and the last frame has
/// `continuation` set to `true` and `fin` set to `true`.
#[allow(inconsistent_fields)]
#[derive(Debug, Clone, PartialEq, Eq)]
pub enum Frame {
    /// A Text frame
    Text {
        /// The payload for the Text frame
        payload: Vec<u8>,
        /// Whether the Text frame is a continuation frame in the message
        continuation: bool,
        /// Whether the Text frame is the final frame in the message
        fin: bool,
    },
    /// A Binary frame
    Binary {
        /// The payload for the Binary frame
        payload: Vec<u8>,
        /// Whether the Binary frame is a continuation frame in the message
        continuation: bool,
        /// Whether the Binary frame is the final frame in the message
        fin: bool,
    },
    /// A Close frame
    Close {
        /// The payload for the Close frame
        payload: Option<(u16, String)>,
    },
    /// A Ping frame
    Ping {
        /// The payload for the Ping frame
        payload: Option<Vec<u8>>,
    },
    /// A Pong frame
    Pong {
        /// The payload for the Pong frame
        payload: Option<Vec<u8>>,
    },
}

/// The kinds of frames.
#[derive(Debug, Clone, Copy, PartialEq, Eq, Structural)]
pub enum FrameType {
    Text,
    Binary,
    Control,
}

impl Default for FrameType {
    fn default() -> (r: Self)
        ensures
            r == FrameType::Control,
    {
        FrameType::Control
    }
}

/// A frame as a mathematical value.
#[allow(inconsistent_fields)]
#[verifier::ext_equal]
pub enum FrameView {
    Text { payload: Seq<u8>, continuation: bool, fin: bool },
    Binary { payload: Seq<u8>, continuation: bool, fin: bool },
    Close { payload: Option<(u16, Seq<char>)> },
    Ping { payload: Option<Seq<u8>> },
    Pong { payload: Option<Seq<u8>> },
}

/// The bytes of an optional payload, as a mathematical value.
pub open spec fn optional_bytes(payload: Option<Vec<u8>>) -> Option<Seq<u8>> {
    match payload {
        Some(bytes) => Some(bytes@),
        None => None,
    }
}

impl View for Frame {
    type V = FrameView;

    open spec fn view(&self) -> FrameView {
        match *self {
            Frame::Text { payload, continuation, fin } => FrameView::Text {
                payload: payload@,
                continuation,
                fin,
            },
            Frame::Binary { payload, continuation, fin } => FrameView::Binary {
                payload: payload@,
                continuation,
                fin,
            },
            Frame::Close { payload: Some((status, reason)) } => FrameView::Close {
                payload: Some((status, reason@)),
            },
            Frame::Close { payload: None } => FrameView::Close { payload: None },
            Frame::Ping { payload } => FrameView::Ping { payload: optional_bytes(payload) },
            Frame::Pong { payload } => FrameView::Pong { payload: optional_bytes(payload) },
        }
    }
}

/// The views of a run of frames.
pub open spec fn frame_views(frames: Seq<Frame>) -> Seq<FrameView> {
    Seq::new(frames.len(), |i: int| frames[i]@)
}

/// The data frames of a run, without the control frames between them.
pub open spec fn data_only(frames: Seq<FrameView>) -> Seq<FrameView>
    decreases frames.len(),
{
    if frames.len() == 0 {
        Seq::empty()
    } else if frames.last().is_control() {
        data_only(frames.drop_last())
    } else {
        data_only(frames.drop_last()).push(frames.last())
    }
}

/// The data frames of two runs are those of the first followed by those of the second.
pub proof fn lemma_data_only_concat(first: Seq<FrameView>, second: Seq<FrameView>)
    ensures
        data_only(first + second) == data_only(first) + data_only(second),
    decreases second.len(),
{
    let all = first + second;
    if second.len() == 0 {
        assert(all =~= first);
        assert(data_only(first) + Seq::<FrameView>::empty() =~= data_only(first));
    } else {
        lemma_data_only_concat(first, second.drop_last());
        assert(all.drop_last() =~= first + second.drop_last());
        assert(all.last() == second.last());
        assert(data_only(all) =~= data_only(first) + data_only(second));
    }
}

impl FrameView {
    pub open spec fn is_control(self) -> bool {
        self is Close || self is Ping || self is Pong
    }

    pub open spec fn frame_type(self) -> FrameType {
        match self {
            FrameView::Text { .. } => FrameType::Text,
            FrameView::Binary { .. } => FrameType::Binary,
            _ => FrameType::Control,
        }
    }

    /// Whether the frame carries on a message that an earlier frame has opened.
    pub open spec fn is_continuation(self) -> bool {
        match self {
            FrameView::Text { continuation, .. } => continuation,
            FrameView::Binary { continuation, .. } => continuation,
            _ => false,
        }
    }

    /// Whether the frame is the last of its message. A control frame always is.
    pub open spec fn is_final(self) -> bool {
        match self {
            FrameView::Text { fin, .. } => fin,
            FrameView::Binary { fin, .. } => fin,
            _ => true,
        }
    }

    /// The opcode on the wire. Continuation frames share one, whatever their message is made of.
    pub open spec fn opcode(self) -> u8 {
        match self {
            FrameView::Text { continuation, .. } => if continuation {
                0x0
            } else {
                0x1
            },
            FrameView::Binary { continuation, .. } => if continuation {
                0x0
            } else {
                0x2
            },
            FrameView::Close { .. } => 0x8,
            FrameView::Ping { .. } => 0x9,
            FrameView::Pong { .. } => 0xA,
        }
    }

    /// The first byte on the wire: the opcode, with the top bit set on a final frame.
    pub open spec fn first_byte(self) -> u8 {
        (self.opcode() + if self.is_final() {
            128int
        } else {
            0
        }) as u8
    }

    /// The payload on the wire, before it is masked. That of a Close frame is its status on two
    /// bytes and the reason.
    pub open spec fn body(self) -> Seq<u8> {
        match self {
            FrameView::Text { payload, .. } => payload,
            FrameView::Binary { payload, .. } => payload,
            FrameView::Close { payload: Some((status, reason)) } => wire::be_bytes(status as nat, 2)
                + encode_utf8(reason),
            FrameView::Close { payload: None } => Seq::empty(),
            FrameView::Ping { payload: Some(bytes) } => bytes,
            FrameView::Ping { payload: None } => Seq::empty(),
            FrameView::Pong { payload: Some(bytes) } => bytes,
            FrameView::Pong { payload: None } => Seq::empty(),
        }
    }

    /// Whether no payload is written as `None`, and not as an empty one. Only such frames can be
    /// told apart on the wire.
    pub open spec fn is_canonical(self) -> bool {
        match self {
            FrameView::Ping { payload: Some(bytes) } => bytes.len() > 0,
            FrameView::Pong { payload: Some(bytes) } => bytes.len() > 0,
            _ => true,
        }
    }
}

/// The payload of a Ping or a Pong frame that has the given bytes on the wire.
pub open spec fn ping_payload(bytes: Seq<u8>) -> Option<Seq<u8>> {
    if bytes.len() == 0 {
        None
    } else {
        Some(bytes)
    }
}

/// The frame that a header and a payload stand for, or what is wrong with it.
/// `open` is the type of the message that is being continued, if there is one.
pub open spec fn received_frame(
    open: Option<FrameType>,
    fin: bool,
    opcode: u8,
    payload: Seq<u8>,
) -> Result<FrameView, InvalidFrameReason> {
    if opcode == 0x0 {
        match open {
            Some(FrameType::Text) => Ok(FrameView::Text { payload, continuation: true, fin }),
            Some(FrameType::Binary) => Ok(FrameView::Binary { payload, continuation: true, fin }),
            _ => Err(InvalidFrameReason::FalseContinuation),
        }
    } else if opcode == 0x1 {
        Ok(FrameView::Text { payload, continuation: false, fin })
    } else if opcode == 0x2 {
        Ok(FrameView::Binary { payload, continuation: false, fin })
    } else if opcode < 0x8 {
        Err(InvalidFrameReason::ReservedDataOpcode)
    } else if opcode == 0x8 {
        if payload.len() == 0 {
            Ok(FrameView::Close { payload: None })
        } else if payload.len() == 1 {
            Err(InvalidFrameReason::BadCloseFramePayload)
        } else if valid_utf8(payload.skip(2)) {
            Ok(
                FrameView::Close {
                    payload: Some(
                        (wire::be_value(payload.take(2)) as u16, decode_utf8(payload.skip(2))),
                    ),
                },
            )
        } else {
            Err(InvalidFrameReason::BadUtf8)
        }
    } else if opcode == 0x9 {
        Ok(FrameView::Ping { payload: ping_payload(payload) })
    } else if opcode == 0xA {
        Ok(FrameView::Pong { payload: ping_payload(payload) })
    } else {
        Err(InvalidFrameReason::ReservedControlOpcode)
    }
}

/// The type of the message that is being continued once a frame has been received: an unfinished
/// data frame opens a message, and a final continuation frame ends it. Control frames may come in
/// between and change nothing.
pub open spec fn open_after(open: Option<FrameType>, fin: bool, opcode: u8) -> Option<FrameType> {
    if opcode == 0x0 && fin && (open == Some(FrameType::Text) || open == Some(FrameType::Binary)) {
        None
    } else if opcode == 0x1 && !fin {
        Some(FrameType::Text)
    } else if opcode == 0x2 && !fin {
        Some(FrameType::Binary)
    } else {
        open
    }
}

/// The error for bytes that are refused.
pub open spec fn refusal_error(refusal: Refusal) -> WebSocketError {
    match refusal {
        Refusal::Masked => WebSocketError::ReceivedMaskedFrame,
        Refusal::TooLarge => WebSocketError::PayloadTooLarge,
    }
}

/// Encodes and decodes WebSocket frames for a framed transport.
#[derive(Debug)]
pub struct WsFrameCodec {
    /// The type of the message that continuation frames belong to.
    last_frame_type: Option<FrameType>,
    /// Where the masking keys come from.
    rng: ChaCha20Rng,
}

impl WsFrameCodec {
    /// The type of the message that the next continuation frame belongs to.
    pub closed spec fn open_message(&self) -> Option<FrameType> {
        self.last_frame_type
    }

    /// The source of masking keys.
    pub closed spec fn generator(&self) -> ChaCha20Rng {
        self.rng
    }

    /// Create a WebSocket frame codec.
    pub fn new() -> (codec: Self)
        ensures
            codec.open_message() is None,
    {
        WsFrameCodec { last_frame_type: None, rng: boundary::rng_from_entropy() }
    }

    /// Takes the first frame off the front of a buffer.
    ///
    /// `None` is returned, and nothing is taken, as long as the frame is not there as a whole.
    /// Nor is anything taken where the bytes are refused. A frame that is there as a whole is
    /// taken off even if it turns out to be invalid.
    pub fn decode(&mut self, src: &mut BytesMut) -> (r: Result<Option<Frame>, WsReadError>)
        ensures
            final(self).generator() == old(self).generator(),
            match wire::front(boundary::buffered(*old(src))) {
                Front::Incomplete => {
                    &&& r == Ok::<Option<Frame>, WsReadError>(None)
                    &&& boundary::buffered(*final(src)) == boundary::buffered(*old(src))
                    &&& final(self).open_message() == old(self).open_message()
                },
                Front::Refused(refusal) => {
                    &&& r == Err::<Option<Frame>, WsReadError>(WsReadError(refusal_error(refusal)))
                    &&& boundary::buffered(*final(src)) == boundary::buffered(*old(src))
                    &&& final(self).open_message() == old(self).open_message()
                },
                Front::Whole { fin, opcode, payload, size } => {
                    &&& boundary::buffered(*final(src)) == boundary::buffered(*old(src)).skip(
                        size as int,
                    )
                    &&& final(self).open_message() == open_after(
                        old(self).open_message(),
                        fin,
                        opcode,
                    )
                    &&& match received_frame(old(self).open_message(), fin, opcode, payload) {
                        Ok(frame) => r matches Ok(Some(f)) && f@ == frame,
                        Err(reason) => r == Err::<Option<Frame>, WsReadError>(
                            WsReadError(WebSocketError::InvalidFrame(reason)),
                        ),
                    }
                },
            },
            decoded(old(self).open_message(), boundary::buffered(*old(src))) == match r {
                Ok(Some(frame)) => seq![frame@] + decoded(
                    final(self).open_message(),
                    boundary::buffered(*final(src)),
                ),
                _ => Seq::empty(),
            },
    {
        proof {
            reveal_with_fuel(decoded, 1);
        }
        match wire::read_front(boundary::buffer_bytes(src)) {
            ReadFront::Incomplete => Ok(None),
            ReadFront::Masked => Err(WsReadError(WebSocketError::ReceivedMaskedFrame)),
            ReadFront::TooLarge => Err(WsReadError(WebSocketError::PayloadTooLarge)),
            ReadFront::BadSpecifier => Err(
                WsReadError(WebSocketError::InvalidFrame(InvalidFrameReason::BadPayloadLength)),
            ),
            ReadFront::Whole { fin, opcode, payload, size } => {
                let _ = boundary::buffer_split_to(src, size);
                match self.receive(fin, opcode, payload) {
                    Ok(frame) => Ok(Some(frame)),
                    Err(reason) => Err(WsReadError(WebSocketError::InvalidFrame(reason))),
                }
            },
        }
    }

    /// Makes a frame of a header and a payload, and keeps track of the message that is open.
    fn receive(&mut self, fin: bool, opcode: u8, payload: Vec<u8>) -> (r: Result<
        Frame,
        InvalidFrameReason,
    >)
        requires
            opcode < 16,
        ensures
            final(self).generator() == old(self).generator(),
            final(self).open_message() == open_after(old(self).open_message(), fin, opcode),
            match received_frame(old(self).open_message(), fin, opcode, payload@) {
                Ok(frame) => r matches Ok(f) && f@ == frame,
                Err(reason) => r == Err::<Frame, InvalidFrameReason>(reason),
            },
    {
        if opcode == 0x0 {
            match self.last_frame_type {
                Some(FrameType::Text) => {
                    if fin {
                        self.last_frame_type = None;
                    }
                    Ok(Frame::Text { payload, continuation: true, fin })
                },
                Some(FrameType::Binary) => {
                    if fin {
                        self.last_frame_type = None;
                    }
                    Ok(Frame::Binary { payload, continuation: true, fin })
                },
                _ => Err(InvalidFrameReason::FalseContinuation),
            }
        } else if opcode == 0x1 {
            if !fin {
                self.last_frame_type = Some(FrameType::Text);
            }
            Ok(Frame::Text { payload, continuation: false, fin })
        } else if opcode == 0x2 {
            if !fin {
                self.last_frame_type = Some(FrameType::Binary);
            }
            Ok(Frame::Binary { payload, continuation: false, fin })
        } else if opcode < 0x8 {
            Err(InvalidFrameReason::ReservedDataOpcode)
        } else if opcode == 0x8 {
            receive_close(payload)
        } else if opcode == 0x9 {
            Ok(Frame::Ping { payload: non_empty(payload) })
        } else if opcode == 0xA {
            Ok(Frame::Pong { payload: non_empty(payload) })
        } else {
            Err(InvalidFrameReason::ReservedControlOpcode)
        }
    }

    /// Appends a frame to a buffer, masked with a random key.
    pub fn encode(&mut self, item: Frame, dst: &mut BytesMut) -> (r: Result<(), WsWriteError>)
        ensures
            final(self).open_message() == old(self).open_message(),
            match encoding_error(item@, boundary::buffered(*old(dst)).len()) {
                None => {
                    &&& r is Ok
                    &&& exists|key: Seq<u8>|
                        key.len() == 4 && boundary::buffered(*final(dst)) == boundary::buffered(
                            *old(dst),
                        ) + #[trigger] wire::client_frame(item@.first_byte(), item@.body(), key)
                    &&& exists|key: Seq<u8>|
                        key.len() == 4 && boundary::buffered(*final(dst)) == boundary::buffered(
                            *old(dst),
                        ) + #[trigger] sent_by_client(item@, key)
                },
                Some(error) => {
                    &&& r == Err::<(), WsWriteError>(WsWriteError(error))
                    &&& boundary::buffered(*final(dst)) == boundary::buffered(*old(dst))
                },
            },
    {
        let mut key: Vec<u8> = vec![0, 0, 0, 0];
        boundary::rng_fill_bytes(&mut self.rng, &mut key);
        encode_with_key(item, &key, dst)
    }
}

/// Why a frame cannot be appended to a buffer of `buffered` bytes, if it cannot: a control frame
/// holds at most 125 bytes, and no buffer holds more than `usize::MAX`. A header takes up to 14.
pub open spec fn encoding_error(frame: FrameView, buffered: nat) -> Option<WebSocketError> {
    if frame.is_control() && frame.body().len() > 125 {
        Some(WebSocketError::ControlFrameTooLarge)
    } else if buffered + 14 + frame.body().len() > usize::MAX {
        Some(WebSocketError::PayloadTooLarge)
    } else {
        None
    }
}

/// The bytes that a client sends for a frame, masked with the given key.
pub open spec fn sent_by_client(frame: FrameView, key: Seq<u8>) -> Seq<u8> {
    wire::client_frame(frame.first_byte(), frame.body(), key)
}

/// Appends a frame to a buffer, masked with the given key.
pub fn encode_with_key(item: Frame, key: &Vec<u8>, dst: &mut BytesMut) -> (r: Result<
    (),
    WsWriteError,
>)
    requires
        key@.len() == 4,
    ensures
        match encoding_error(item@, boundary::buffered(*old(dst)).len()) {
            None => {
                &&& r is Ok
                &&& boundary::buffered(*final(dst)) == boundary::buffered(*old(dst))
                    + wire::client_frame(item@.first_byte(), item@.body(), key@)
                &&& boundary::buffered(*final(dst)) == boundary::buffered(*old(dst))
                    + sent_by_client(item@, key@)
            },
            Some(error) => {
                &&& r == Err::<(), WsWriteError>(WsWriteError(error))
                &&& boundary::buffered(*final(dst)) == boundary::buffered(*old(dst))
            },
        },
{
    let ghost before = boundary::buffered(*dst);
    let is_control: bool = item.is_control();
    let first: u8 = item.opcode() + item.fin();
    let mut payload: Vec<u8> = item.into_body();
    let ghost body = payload@;
    if is_control && payload.len() > 125 {
        return Err(WsWriteError(WebSocketError::ControlFrameTooLarge));
    }
    let room: usize = usize::MAX - boundary::buffer_bytes(dst).len();
    if room < 14 || room - 14 < payload.len() {
        return Err(WsWriteError(WebSocketError::PayloadTooLarge));
    }
    let mut header: Vec<u8> = Vec::new();
    header.push(first);
    if payload.len() <= 125 {
        header.push(payload.len() as u8 + 0b10000000u8);
    } else if payload.len() < 65535 {
        header.push(126u8 + 0b10000000u8);
        wire::push_be(&mut header, payload.len() as u64, 2);
    } else {
        header.push(127u8 + 0b10000000u8);
        wire::push_be(&mut header, payload.len() as u64, 8);
    }
    proof {
        wire::lemma_length_field(body.len(), true);
        assert(header@ =~= seq![first] + wire::length_field(body.len(), true));
    }
    boundary::buffer_extend(dst, header.as_slice());
    wire::mask(&mut payload, key);
    boundary::buffer_extend(dst, key.as_slice());
    boundary::buffer_extend(dst, payload.as_slice());
    assert(boundary::buffered(*dst) =~= before + wire::client_frame(first, body, key@));
    Ok(())
}

/// Makes a Close frame of a payload: a status code on two bytes and a reason, or nothing.
fn receive_close(payload: Vec<u8>) -> (r: Result<Frame, InvalidFrameReason>)
    ensures
        match received_frame(None, true, 0x8, payload@) {
            Ok(frame) => r matches Ok(f) && f@ == frame,
            Err(reason) => r == Err::<Frame, InvalidFrameReason>(reason),
        },
{
    if payload.len() == 0 {
        return Ok(Frame::Close { payload: None });
    }
    if payload.len() < 2 {
        return Err(InvalidFrameReason::BadCloseFramePayload);
    }
    let code: u64 = wire::read_be(payload.as_slice(), 0, 2);
    proof {
        let two = payload@.take(2);
        assert(payload@.subrange(0, 2) =~= two);
        assert(two.drop_last().drop_last() =~= Seq::empty());
        reveal_with_fuel(wire::be_value, 3);
        assert(code < 65536);
    }
    let status: u16 = code as u16;
    let mut payload: Vec<u8> = payload;
    let ghost whole = payload@;
    let reason: Vec<u8> = payload.split_off(2);
    assert(reason@ =~= whole.skip(2));
    match boundary::string_from_utf8(reason) {
        Some(reason) => Ok(Frame::Close { payload: Some((status, reason)) }),
        None => Err(InvalidFrameReason::BadUtf8),
    }
}

/// The payload of a Ping or a Pong frame: none where there are no bytes.
fn non_empty(payload: Vec<u8>) -> (r: Option<Vec<u8>>)
    ensures
        optional_bytes(r) == ping_payload(payload@),
{
    if payload.len() == 0 {
        None
    } else {
        Some(payload)
    }
}

impl Frame {
    /// The bytes that stand for the frame on the wire, before they are masked.
    fn into_body(self) -> (body: Vec<u8>)
        ensures
            body@ == self@.body(),
    {
        match self {
            Frame::Text { payload, .. } => payload,
            Frame::Binary { payload, .. } => payload,
            Frame::Close { payload: Some((status, reason)) } => {
                let mut body: Vec<u8> = Vec::new();
                wire::push_be(&mut body, status as u64, 2);
                let mut reason: Vec<u8> = text::into_bytes(reason);
                body.append(&mut reason);
                assert(body@ =~= self@.body());
                body
            },
            Frame::Close { payload: None } => Vec::new(),
            Frame::Ping { payload: Some(payload) } => payload,
            Frame::Ping { payload: None } => Vec::new(),
            Frame::Pong { payload: Some(payload) } => payload,
            Frame::Pong { payload: None } => Vec::new(),
        }
    }

    /// Constructs a Text frame from the given payload.
    /// `continuation` will be `false` and `fin` will be `true`.
    /// This can be modified by chaining [`Frame::set_continuation()`] or [`Frame::set_fin()`].
    pub fn text(payload: String) -> (r: Self)
        ensures
            r@ == (FrameView::Text {
                payload: encode_utf8(payload@),
                continuation: false,
                fin: true,
            }),
    {
        Frame::Text { payload: text::into_bytes(payload), continuation: false, fin: true }
    }

    /// Returns whether the frame is a Text frame.
    pub fn is_text(&self) -> (r: bool)
        ensures
            r == (self is Text),
    {
        self.as_text().is_some()
    }

    /// Attempts to interpret the frame as a Text frame,
    /// returning a reference to the underlying data if it is,
    /// and None otherwise.
    pub fn as_text(&self) -> (r: Option<(&[u8], &bool, &bool)>)
        ensures
            match (*self, r) {
                (Frame::Text { payload, continuation, fin }, Some((p, c, f))) => p@ == payload@
                    && *c == continuation && *f == fin,
                (Frame::Text { .. }, None) => false,
                (_, r) => r is None,
            },
    {
        match self {
            Frame::Text { payload, continuation, fin } => Some(
                (payload.as_slice(), continuation, fin),
            ),
            _ => None,
        }
    }

    /// Attempts to interpret the frame as a Text frame,
    /// returning a mutable reference to the underlying data if it is,
    /// and None otherwise.
    pub fn as_text_mut(&mut self) -> (r: Option<(&mut Vec<u8>, &mut bool, &mut bool)>)
        ensures
            match r {
                Some((p, c, f)) => {
                    &&& *old(self) == (Frame::Text { payload: *p, continuation: *c, fin: *f })
                    &&& *final(self) == (Frame::Text {
                        payload: *final(p),
                        continuation: *final(c),
                        fin: *final(f),
                    })
                },
                None => !(*old(self) is Text) && *final(self) == *old(self),
            },
    {
        match self {
            Frame::Text { payload, continuation, fin } => Some((payload, continuation, fin)),
            _ => None,
        }
    }

    /// Attempts to interpret the frame as a Text frame,
    /// consuming and returning the underlying data if it is,
    /// and returning None otherwise.
    pub fn into_text(self) -> (r: Option<(Vec<u8>, bool, bool)>)
        ensures
            match self {
                Frame::Text { payload, continuation, fin } => r == Some(
                    (payload, continuation, fin),
                ),
                _ => r is None,
            },
    {
        match self {
            Frame::Text { payload, continuation, fin } => Some((payload, continuation, fin)),
            _ => None,
        }
    }

    /// Constructs a Binary frame from the given payload.
    /// `continuation` will be `false` and `fin` will be `true`.
    /// This can be modified by chaining [`Frame::set_continuation()`] or [`Frame::set_fin()`].
    pub fn binary(payload: Vec<u8>) -> (r: Self)
        ensures
            r@ == (FrameView::Binary {
                payload: payload@,
                continuation: false,
                fin: true,
            }),
    {
        Frame::Binary { payload: payload, continuation: false, fin: true }
    }

    /// Returns whether the frame is a Binary frame.
    pub fn is_binary(&self) -> (r: bool)
        ensures
            r == (self is Binary),
    {
        self.as_binary().is_some()
    }

    /// Attempts to interpret the frame as a Binary frame,
    /// returning a reference to the underlying data if it is,
    /// and None otherwise.
    pub fn as_binary(&self) -> (r: Option<(&Vec<u8>, &bool, &bool)>)
        ensures
            match (*self, r) {
                (Frame::Binary { payload, continuation, fin }, Some((p, c, f))) => p@ == payload@
                    && *c == continuation && *f == fin,
                (Frame::Binary { .. }, None) => false,
                (_, r) => r is None,
            },
    {
        match self {
            Frame::Binary { payload, continuation, fin } => Some(
                (payload, continuation, fin),
            ),
            _ => None,
        }
    }

    /// Attempts to interpret the frame as a Binary frame,
    /// returning a mutable reference to the underlying data if it is,
    /// and None otherwise.
    pub fn as_binary_mut(&mut self) -> (r: Option<(&mut Vec<u8>, &mut bool, &mut bool)>)
        ensures
            match r {
                Some((p, c, f)) => {
                    &&& *old(self) == (Frame::Binary { payload: *p, continuation: *c, fin: *f })
                    &&& *final(self) == (Frame::Binary {
                        payload: *final(p),
                        continuation: *final(c),
                        fin: *final(f),
                    })
                },
                None => !(*old(self) is Binary) && *final(self) == *old(self),
            },
    {
        match self {
            Frame::Binary { payload, continuation, fin } => Some((payload, continuation, fin)),
            _ => None,
        }
    }

    /// Attempts to interpret the frame as a Binary frame,
    /// consuming and returning the underlying data if it is,
    /// and returning None otherwise.
    pub fn into_binary(self) -> (r: Option<(Vec<u8>, bool, bool)>)
        ensures
            match self {
                Frame::Binary { payload, continuation, fin } => r == Some(
                    (payload, continuation, fin),
                ),
                _ => r is None,
            },
    {
        match self {
            Frame::Binary { payload, continuation, fin } => Some((payload, continuation, fin)),
            _ => None,
        }
    }

    /// Constructs a Close frame from the given payload.
    pub fn close(payload: Option<(u16, String)>) -> (r: Self)
        ensures
            r == (Frame::Close { payload }),
    {
        Frame::Close { payload }
    }

    /// Returns whether the frame is a Close frame.
    pub fn is_close(&self) -> (r: bool)
        ensures
            r == (self is Close),
    {
        match self {
            Frame::Close { .. } => true,
            _ => false,
        }
    }

    /// Attempts to interpret the frame as a Close frame,
    /// returning a reference to its payload if it is one and has a payload,
    /// and None otherwise.
    pub fn as_close(&self) -> (r: Option<&(u16, String)>)
        ensures
            match (*self, r) {
                (Frame::Close { payload: Some(payload) }, Some(p)) => *p == payload,
                (Frame::Close { payload: Some(_) }, None) => false,
                (_, r) => r is None,
            },
    {
        match self {
            Frame::Close { payload: Some(payload) } => Some(payload),
            _ => None,
        }
    }

    /// Attempts to interpret the frame as a Close frame,
    /// returning a mutable reference to its payload if it is one and has a payload,
    /// and None otherwise.
    pub fn as_close_mut(&mut self) -> (r: Option<&mut (u16, String)>)
        ensures
            match r {
                Some(p) => {
                    &&& *old(self) == (Frame::Close { payload: Some(*p) })
                    &&& *final(self) == (Frame::Close { payload: Some(*final(p)) })
                },
                None => !(*old(self) matches Frame::Close { payload: Some(_) }) && *final(self)
                    == *old(self),
            },
    {
        match self {
            Frame::Close { payload: Some(payload) } => Some(payload),
            _ => None,
        }
    }

    /// Attempts to interpret the frame as a Close frame,
    /// consuming it and returning its payload if it is one and has a payload,
    /// and returning None otherwise.
    pub fn into_close(self) -> (r: Option<(u16, String)>)
        ensures
            match self {
                Frame::Close { payload } => r == payload,
                _ => r is None,
            },
    {
        match self {
            Frame::Close { payload } => payload,
            _ => None,
        }
    }

    /// Constructs a Ping frame from the given payload.
    pub fn ping(payload: Option<Vec<u8>>) -> (r: Self)
        ensures
            r == (Frame::Ping { payload }),
    {
        Frame::Ping { payload }
    }

    /// Returns whether the frame is a Ping frame.
    pub fn is_ping(&self) -> (r: bool)
        ensures
            r == (self is Ping),
    {
        match self {
            Frame::Ping { .. } => true,
            _ => false,
        }
    }

    /// Attempts to interpret the frame as a Ping frame,
    /// returning a reference to its payload if it is one and has a payload,
    /// and None otherwise.
    pub fn as_ping(&self) -> (r: Option<&Vec<u8>>)
        ensures
            match (*self, r) {
                (Frame::Ping { payload: Some(payload) }, Some(p)) => *p == payload,
                (Frame::Ping { payload: Some(_) }, None) => false,
                (_, r) => r is None,
            },
    {
        match self {
            Frame::Ping { payload: Some(payload) } => Some(payload),
            _ => None,
        }
    }

    /// Attempts to interpret the frame as a Ping frame,
    /// returning a mutable reference to its payload if it is one and has a payload,
    /// and None otherwise.
    pub fn as_ping_mut(&mut self) -> (r: Option<&mut Vec<u8>>)
        ensures
            match r {
                Some(p) => {
                    &&& *old(self) == (Frame::Ping { payload: Some(*p) })
                    &&& *final(self) == (Frame::Ping { payload: Some(*final(p)) })
                },
                None => !(*old(self) matches Frame::Ping { payload: Some(_) }) && *final(self)
                    == *old(self),
            },
    {
        match self {
            Frame::Ping { payload: Some(payload) } => Some(payload),
            _ => None,
        }
    }

    /// Attempts to interpret the frame as a Ping frame,
    /// consuming it and returning its payload if it is one and has a payload,
    /// and returning None otherwise.
    pub fn into_ping(self) -> (r: Option<Vec<u8>>)
        ensures
            match self {
                Frame::Ping { payload } => r == payload,
                _ => r is None,
            },
    {
        match self {
            Frame::Ping { payload } => payload,
            _ => None,
        }
    }

    /// Constructs a Pong frame from the given payload.
    pub fn pong(payload: Option<Vec<u8>>) -> (r: Self)
        ensures
            r == (Frame::Pong { payload }),
    {
        Frame::Pong { payload }
    }

    /// Returns whether the frame is a Pong frame.
    pub fn is_pong(&self) -> (r: bool)
        ensures
            r == (self is Pong),
    {
        match self {
            Frame::Pong { .. } => true,
            _ => false,
        }
    }

    /// Attempts to interpret the frame as a Pong frame,
    /// returning a reference to its payload if it is one and has a payload,
    /// and None otherwise.
    pub fn as_pong(&self) -> (r: Option<&Vec<u8>>)
        ensures
            match (*self, r) {
                (Frame::Pong { payload: Some(payload) }, Some(p)) => *p == payload,
                (Frame::Pong { payload: Some(_) }, None) => false,
                (_, r) => r is None,
            },
    {
        match self {
            Frame::Pong { payload: Some(payload) } => Some(payload),
            _ => None,
        }
    }

    /// Attempts to interpret the frame as a Pong frame,
    /// returning a mutable reference to its payload if it is one and has a payload,
    /// and None otherwise.
    pub fn as_pong_mut(&mut self) -> (r: Option<&mut Vec<u8>>)
        ensures
            match r {
                Some(p) => {
                    &&& *old(self) == (Frame::Pong { payload: Some(*p) })
                    &&& *final(self) == (Frame::Pong { payload: Some(*final(p)) })
                },
                None => !(*old(self) matches Frame::Pong { payload: Some(_) }) && *final(self)
                    == *old(self),
            },
    {
        match self {
            Frame::Pong { payload: Some(payload) } => Some(payload),
            _ => None,
        }
    }

    /// Attempts to interpret the frame as a Pong frame,
    /// consuming it and returning its payload if it is one and has a payload,
    /// and returning None otherwise.
    pub fn into_pong(self) -> (r: Option<Vec<u8>>)
        ensures
            match self {
                Frame::Pong { payload } => r == payload,
                _ => r is None,
            },
    {
        match self {
            Frame::Pong { payload } => payload,
            _ => None,
        }
    }

    /// Modifies the frame to set `continuation` to the desired value.
    /// If the frame is not a Text or Binary frame, no operation is performed.
    pub fn set_continuation(self, continuation: bool) -> (r: Self)
        ensures
            r == match self {
                Frame::Text { payload, fin, .. } => Frame::Text { payload, continuation, fin },
                Frame::Binary { payload, fin, .. } => Frame::Binary { payload, continuation, fin },
                frame => frame,
            },
    {
        match self {
            Frame::Text { payload, fin, .. } => Frame::Text { payload, continuation, fin },
            Frame::Binary { payload, fin, .. } => Frame::Binary { payload, continuation, fin },
            frame => frame,
        }
    }

    /// Modifies the frame to set `fin` to the desired value.
    /// If the frame is not a Text or Binary frame, no operation is performed.
    pub fn set_fin(self, fin: bool) -> (r: Self)
        ensures
            r == match self {
                Frame::Text { payload, continuation, .. } => Frame::Text {
                    payload,
                    continuation,
                    fin,
                },
                Frame::Binary { payload, continuation, .. } => Frame::Binary {
                    payload,
                    continuation,
                    fin,
                },
                frame => frame,
            },
    {
        match self {
            Frame::Text { payload, continuation, .. } => Frame::Text { payload, continuation, fin },
            Frame::Binary { payload, continuation, .. } => Frame::Binary {
                payload,
                continuation,
                fin,
            },
            frame => frame,
        }
    }

    /// Whether the frame is a control frame.
    pub fn is_control(&self) -> (r: bool)
        ensures
            r == self@.is_control(),
    {
        match self {
            Frame::Text { .. } | Frame::Binary { .. } => false,
            _ => true,
        }
    }

    /// The opcode of the frame.
    pub fn opcode(&self) -> (r: u8)
        ensures
            r == self@.opcode(),
            r <= 0xA,
    {
        match self {
            Frame::Text { continuation, .. } => if *continuation {
                0x0
            } else {
                0x1
            },
            Frame::Binary { continuation, .. } => if *continuation {
                0x0
            } else {
                0x2
            },
            Frame::Close { .. } => 0x8,
            Frame::Ping { .. } => 0x9,
            Frame::Pong { .. } => 0xA,
        }
    }

    /// The top bit of the frame's first byte: set if the frame is final.
    pub fn fin(&self) -> (r: u8)
        ensures
            r == if self@.is_final() {
                128int
            } else {
                0
            },
    {
        let fin: bool = match self {
            Frame::Text { fin, .. } => *fin,
            Frame::Binary { fin, .. } => *fin,
            _ => true,
        };
        if fin {
            0b10000000
        } else {
            0
        }
    }

    /// The kind of the frame.
    pub fn frame_type(&self) -> (r: FrameType)
        ensures
            r == self@.frame_type(),
    {
        match self {
            Frame::Text { .. } => FrameType::Text,
            Frame::Binary { .. } => FrameType::Binary,
            _ => FrameType::Control,
        }
    }
}

/// The first byte of a frame tells the flag and the opcode.
proof fn lemma_first_byte(frame: FrameView)
    ensures
        frame.first_byte() >= 128 <==> frame.is_final(),
        frame.first_byte() % 16 == frame.opcode(),
{
}

/// The body of a Close frame with a payload tells the status and the reason.
proof fn lemma_close_body(status: u16, reason: Seq<char>)
    ensures
        ({
            let body = wire::be_bytes(status as nat, 2) + encode_utf8(reason);
            &&& body.len() >= 2
            &&& wire::be_value(body.take(2)) as u16 == status
            &&& valid_utf8(body.skip(2))
            &&& decode_utf8(body.skip(2)) == reason
        }),
{
    let body = wire::be_bytes(status as nat, 2) + encode_utf8(reason);
    assert(wire::pow256(2) == 65536) by {
        reveal_with_fuel(wire::pow256, 3);
    }
    wire::law_be_bytes_read_back(status as nat, 2);
    assert(body.take(2) =~= wire::be_bytes(status as nat, 2));
    assert(body.skip(2) =~= encode_utf8(reason));
    encode_utf8_valid_utf8(reason);
    encode_utf8_decode_utf8(reason);
}

/// A frame is what its own flag, opcode and body stand for.
proof fn lemma_received_back(frame: FrameView, open: Option<FrameType>)
    requires
        frame.is_canonical(),
        frame.is_continuation() ==> open == Some(frame.frame_type()),
    ensures
        received_frame(open, frame.is_final(), frame.opcode(), frame.body()) == Ok::<
            FrameView,
            InvalidFrameReason,
        >(frame),
{
    if let FrameView::Close { payload: Some((status, reason)) } = frame {
        lemma_close_body(status, reason);
    }
}

/// What a server sends is what is decoded: the bytes of a frame, followed by anything at all, are
/// read as that frame, and what follows is left for the next read. A continuation frame needs the
/// message that it continues to be open.
pub proof fn law_decode_gives_back_the_frame(
    frame: FrameView,
    open: Option<FrameType>,
    rest: Seq<u8>,
)
    requires
        frame.body().len() <= wire::MAX_PAYLOAD_SIZE,
        frame.is_canonical(),
        frame.is_continuation() ==> open == Some(frame.frame_type()),
    ensures
        ({
            let sent = wire::server_frame(frame.first_byte(), frame.body());
            wire::front(sent + rest) matches Front::Whole { fin, opcode, payload, size } && {
                &&& size == sent.len()
                &&& fin == frame.is_final()
                &&& opcode == frame.opcode()
                &&& (sent + rest).skip(size as int) == rest
                &&& received_frame(open, fin, opcode, payload) == Ok::<
                    FrameView,
                    InvalidFrameReason,
                >(frame)
            }
        }),
{
    let sent = wire::server_frame(frame.first_byte(), frame.body());
    lemma_first_byte(frame);
    lemma_received_back(frame, open);
    wire::law_server_frame_read_back(frame.first_byte(), frame.body(), rest);
    assert((sent + rest).skip(sent.len() as int) =~= rest);
}

/// The frames that are decoded from a buffer until it holds no whole frame any more, or one that
/// is refused or invalid. `open` is the type of the message that is being continued.
#[verifier::opaque]
pub open spec fn decoded(open: Option<FrameType>, bytes: Seq<u8>) -> Seq<FrameView>
    decreases bytes.len(),
{
    match wire::front(bytes) {
        Front::Whole { fin, opcode, payload, size } => match received_frame(
            open,
            fin,
            opcode,
            payload,
        ) {
            Ok(frame) => seq![frame] + decoded(
                open_after(open, fin, opcode),
                bytes.skip(size as int),
            ),
            Err(_) => Seq::empty(),
        },
        _ => Seq::empty(),
    }
}

/// What is left once all those frames are decoded: the type of the message that is being
/// continued, and the bytes that are still in the buffer.
#[verifier::opaque]
pub open spec fn left_over(open: Option<FrameType>, bytes: Seq<u8>) -> (
    Option<FrameType>,
    Seq<u8>,
)
    decreases bytes.len(),
{
    match wire::front(bytes) {
        Front::Whole { fin, opcode, payload, size } => match received_frame(
            open,
            fin,
            opcode,
            payload,
        ) {
            Ok(_) => left_over(open_after(open, fin, opcode), bytes.skip(size as int)),
            Err(_) => (open, bytes),
        },
        _ => (open, bytes),
    }
}

/// It does not matter how the bytes of a stream arrive: decoding what has arrived, and going on
/// with what is left when more has arrived, gives the frames that decoding all at once gives.
pub proof fn law_stream_may_be_cut_anywhere(
    open: Option<FrameType>,
    first: Seq<u8>,
    second: Seq<u8>,
)
    ensures
        decoded(open, first + second) == decoded(open, first) + decoded(
            left_over(open, first).0,
            left_over(open, first).1 + second,
        ),
    decreases first.len(),
{
    reveal_with_fuel(decoded, 1);
    reveal_with_fuel(left_over, 1);
    let all = first + second;
    if let Front::Whole { fin, opcode, payload, size } = wire::front(first) {
        if let Ok(frame) = received_frame(open, fin, opcode, payload) {
            wire::law_front_is_stable(first, second);
            assert(all.skip(size as int) =~= first.skip(size as int) + second);
            law_stream_may_be_cut_anywhere(
                open_after(open, fin, opcode),
                first.skip(size as int),
                second,
            );
            let later = open_after(open, fin, opcode);
            let rest = first.skip(size as int);
            let tail = decoded(left_over(later, rest).0, left_over(later, rest).1 + second);
            assert(seq![frame] + (decoded(later, rest) + tail) =~= (seq![frame] + decoded(
                later,
                rest,
            )) + tail);
        } else {
            assert(Seq::<FrameView>::empty() + decoded(open, all) =~= decoded(open, all));
        }
    } else {
        assert(Seq::<FrameView>::empty() + decoded(open, all) =~= decoded(open, all));
    }
}

/// The bytes that a server sends for a run of frames.
pub open spec fn sent_by_server(frames: Seq<FrameView>) -> Seq<u8>
    decreases frames.len(),
{
    if frames.len() == 0 {
        Seq::empty()
    } else {
        wire::server_frame(frames[0].first_byte(), frames[0].body()) + sent_by_server(
            frames.skip(1),
        )
    }
}

/// Whether a run of frames can be told from its bytes: each is canonical and not too large, and
/// continuation frames are of the type of the message that is open.
pub open spec fn readable(open: Option<FrameType>, frames: Seq<FrameView>) -> bool
    decreases frames.len(),
{
    frames.len() > 0 ==> {
        let frame = frames[0];
        &&& frame.is_canonical()
        &&& frame.body().len() <= wire::MAX_PAYLOAD_SIZE
        &&& frame.is_continuation() ==> open == Some(frame.frame_type())
        &&& readable(open_after(open, frame.is_final(), frame.opcode()), frames.skip(1))
    }
}

/// The first frame of a stream is decoded first, and what follows it next.
proof fn lemma_decoded_first(frame: FrameView, open: Option<FrameType>, rest: Seq<u8>)
    requires
        frame.body().len() <= wire::MAX_PAYLOAD_SIZE,
        frame.is_canonical(),
        frame.is_continuation() ==> open == Some(frame.frame_type()),
    ensures
        decoded(open, wire::server_frame(frame.first_byte(), frame.body()) + rest) == seq![frame]
            + decoded(open_after(open, frame.is_final(), frame.opcode()), rest),
{
    reveal_with_fuel(decoded, 1);
    law_decode_gives_back_the_frame(frame, open, rest);
}

/// Nothing is decoded from nothing.
proof fn lemma_decoded_nothing(open: Option<FrameType>)
    ensures
        decoded(open, Seq::empty()) == Seq::<FrameView>::empty(),
{
    reveal_with_fuel(decoded, 1);
}

/// What a server sends is what is decoded, frame by frame, over the whole of a stream.
pub proof fn law_stream_is_read_back(open: Option<FrameType>, frames: Seq<FrameView>)
    requires
        readable(open, frames),
    ensures
        decoded(open, sent_by_server(frames)) == frames,
    decreases frames.len(),
{
    if frames.len() > 0 {
        let frame = frames[0];
        lemma_decoded_first(frame, open, sent_by_server(frames.skip(1)));
        law_stream_is_read_back(
            open_after(open, frame.is_final(), frame.opcode()),
            frames.skip(1),
        );
        assert(seq![frame] + frames.skip(1) =~= frames);
    } else {
        lemma_decoded_nothing(open);
        assert(frames =~= Seq::empty());
    }
}

/// The first byte of a frame tells all that is not in its payload, but for the type of the message
/// that is continued: the flag of a final frame, and one of six opcodes.
pub proof fn law_first_byte_tells_the_frame(payload: Seq<u8>, continuation: bool, fin: bool)
    ensures
        ({
            let flag: int = if fin {
                128
            } else {
                0
            };
            let text = FrameView::Text { payload, continuation, fin };
            let binary = FrameView::Binary { payload, continuation, fin };
            &&& text.first_byte() == flag + if continuation {
                0int
            } else {
                1
            }
            &&& binary.first_byte() == flag + if continuation {
                0int
            } else {
                2
            }
            &&& text.body() == payload
            &&& binary.body() == payload
        }),
        forall|payload: Option<(u16, Seq<char>)>|
            #[trigger] (FrameView::Close { payload }).first_byte() == 128 + 8,
        forall|payload: Option<Seq<u8>>|
            #[trigger] (FrameView::Ping { payload }).first_byte() == 128 + 9,
        forall|payload: Option<Seq<u8>>|
            #[trigger] (FrameView::Pong { payload }).first_byte() == 128 + 10,
{
}

/// What control frames hold: a ping and a pong their bytes, and a close frame its status on two
/// bytes, followed by the reason in UTF-8; each of them nothing if there is no payload.
pub proof fn law_control_frames_hold_their_payload(
    bytes: Seq<u8>,
    status: u16,
    reason: Seq<char>,
)
    ensures
        (FrameView::Ping { payload: Some(bytes) }).body() == bytes,
        (FrameView::Pong { payload: Some(bytes) }).body() == bytes,
        (FrameView::Ping { payload: None }).body().len() == 0,
        (FrameView::Pong { payload: None }).body().len() == 0,
        (FrameView::Close { payload: None }).body().len() == 0,
        ({
            let body = (FrameView::Close { payload: Some((status, reason)) }).body();
            &&& body.len() >= 2
            &&& body[0] * 256 + body[1] == status
            &&& body.skip(2) == encode_utf8(reason)
        }),
{
    let body = (FrameView::Close { payload: Some((status, reason)) }).body();
    assert(wire::pow256(2) == 65536) by {
        reveal_with_fuel(wire::pow256, 3);
    }
    wire::law_be_bytes_read_back(status as nat, 2);
    wire::lemma_be_value_of_two(wire::be_bytes(status as nat, 2));
    assert(body.skip(2) =~= encode_utf8(reason));
}

/// A data frame that is received keeps its payload and its flag. One that opens a message tells the
/// type itself; one that continues a message has the type of the message that is open, and is
/// refused where none is.
pub proof fn law_data_is_received_as_sent(open: Option<FrameType>, fin: bool, payload: Seq<u8>)
    ensures
        received_frame(open, fin, 1, payload) == Ok::<FrameView, InvalidFrameReason>(
            FrameView::Text { payload, continuation: false, fin },
        ),
        received_frame(open, fin, 2, payload) == Ok::<FrameView, InvalidFrameReason>(
            FrameView::Binary { payload, continuation: false, fin },
        ),
        open == Some(FrameType::Text) ==> received_frame(open, fin, 0, payload) == Ok::<
            FrameView,
            InvalidFrameReason,
        >(FrameView::Text { payload, continuation: true, fin }),
        open == Some(FrameType::Binary) ==> received_frame(open, fin, 0, payload) == Ok::<
            FrameView,
            InvalidFrameReason,
        >(FrameView::Binary { payload, continuation: true, fin }),
        open is None ==> received_frame(open, fin, 0, payload) == Err::<
            FrameView,
            InvalidFrameReason,
        >(InvalidFrameReason::FalseContinuation),
{
}

/// A control frame that is received holds the bytes that came, whatever message is open: a ping and
/// a pong as they are, and a close frame as a status, most significant byte first, and a reason,
/// which has to be UTF-8. A single byte is no status.
pub proof fn law_control_frames_are_received_as_sent(
    open: Option<FrameType>,
    fin: bool,
    payload: Seq<u8>,
)
    ensures
        payload.len() > 0 ==> received_frame(open, fin, 9, payload) == Ok::<
            FrameView,
            InvalidFrameReason,
        >(FrameView::Ping { payload: Some(payload) }),
        payload.len() > 0 ==> received_frame(open, fin, 10, payload) == Ok::<
            FrameView,
            InvalidFrameReason,
        >(FrameView::Pong { payload: Some(payload) }),
        payload.len() == 0 ==> received_frame(open, fin, 9, payload) == Ok::<
            FrameView,
            InvalidFrameReason,
        >(FrameView::Ping { payload: None }),
        payload.len() == 0 ==> received_frame(open, fin, 10, payload) == Ok::<
            FrameView,
            InvalidFrameReason,
        >(FrameView::Pong { payload: None }),
        payload.len() == 0 ==> received_frame(open, fin, 8, payload) == Ok::<
            FrameView,
            InvalidFrameReason,
        >(FrameView::Close { payload: None }),
        payload.len() == 1 ==> received_frame(open, fin, 8, payload) == Err::<
            FrameView,
            InvalidFrameReason,
        >(InvalidFrameReason::BadCloseFramePayload),
        payload.len() >= 2 && !valid_utf8(payload.skip(2)) ==> received_frame(open, fin, 8, payload)
            == Err::<FrameView, InvalidFrameReason>(InvalidFrameReason::BadUtf8),
        payload.len() >= 2 && valid_utf8(payload.skip(2)) ==> (received_frame(
            open,
            fin,
            8,
            payload,
        ) matches Ok(FrameView::Close { payload: Some((status, reason)) }) && status == payload[0]
            * 256 + payload[1] && reason == decode_utf8(payload.skip(2))),
{
    if payload.len() >= 2 {
        wire::lemma_be_value_of_two(payload.take(2));
    }
}

/// No other opcode than the six is received: those below eight are reserved for data, and the others
/// for control.
pub proof fn law_reserved_opcodes_are_refused(
    open: Option<FrameType>,
    fin: bool,
    opcode: u8,
    payload: Seq<u8>,
)
    ensures
        3 <= opcode <= 7 ==> received_frame(open, fin, opcode, payload) == Err::<
            FrameView,
            InvalidFrameReason,
        >(InvalidFrameReason::ReservedDataOpcode),
        opcode >= 11 ==> received_frame(open, fin, opcode, payload) == Err::<
            FrameView,
            InvalidFrameReason,
        >(InvalidFrameReason::ReservedControlOpcode),
{
}

/// A message is open from its first frame to its last: a frame that leaves its message unfinished
/// is continued in its own type, control frames and further continuations change nothing, and once
/// the last continuation has come there is nothing to continue. A message of one frame opens none.
pub proof fn law_continuations_follow_their_message(
    open: Option<FrameType>,
    opcode: u8,
    fin: bool,
    payload: Seq<u8>,
)
    ensures
        received_frame(open_after(open, false, 1), fin, 0, payload) == Ok::<
            FrameView,
            InvalidFrameReason,
        >(FrameView::Text { payload, continuation: true, fin }),
        received_frame(open_after(open, false, 2), fin, 0, payload) == Ok::<
            FrameView,
            InvalidFrameReason,
        >(FrameView::Binary { payload, continuation: true, fin }),
        opcode >= 3 ==> open_after(open, fin, opcode) == open,
        open_after(open, false, 0) == open,
        open is Some && open != Some(FrameType::Control) ==> received_frame(
            open_after(open, true, 0),
            fin,
            0,
            payload,
        ) == Err::<FrameView, InvalidFrameReason>(InvalidFrameReason::FalseContinuation),
        open_after(open, true, 1) == open,
        open_after(open, true, 2) == open,
{
}

/// Control frames of up to 125 bytes are sent, and no larger ones; data frames of any size are, as
/// far as there is room for them and the largest header.
pub proof fn law_only_control_frames_are_limited(frame: FrameView, buffered: nat)
    ensures
        encoding_error(frame, buffered) == Some(WebSocketError::ControlFrameTooLarge) <==> (
        frame is Close || frame is Ping || frame is Pong) && frame.body().len() > 125,
        encoding_error(frame, buffered) is None ==> buffered + frame.body().len() + 14 <= usize::MAX,
        buffered + frame.body().len() + 14 <= usize::MAX && (frame is Text || frame is Binary
            || frame.body().len() <= 125) ==> encoding_error(frame, buffered) is None,
        encoding_error(frame, buffered) matches Some(error) ==> error
            == WebSocketError::ControlFrameTooLarge || error == WebSocketError::PayloadTooLarge,
{
}

/// What a frame is can be told from it: data has its type and its two flags, and anything else is
/// control, final and no continuation.
pub proof fn law_kinds_of_frames(frame: FrameView)
    ensures
        match frame {
            FrameView::Text { continuation, fin, .. } => {
                &&& frame.frame_type() == FrameType::Text
                &&& !frame.is_control()
                &&& frame.is_continuation() == continuation
                &&& frame.is_final() == fin
            },
            FrameView::Binary { continuation, fin, .. } => {
                &&& frame.frame_type() == FrameType::Binary
                &&& !frame.is_control()
                &&& frame.is_continuation() == continuation
                &&& frame.is_final() == fin
            },
            _ => {
                &&& frame.frame_type() == FrameType::Control
                &&& frame.is_control()
                &&& !frame.is_continuation()
                &&& frame.is_final()
            },
        },
{
}

/// Nothing of a frame is left out of its view, and no frame is left out of the views of a run.
pub proof fn law_every_frame_is_seen(frame: Frame, frames: Seq<Frame>)
    ensures
        match (frame, frame@) {
            (
                Frame::Text { payload, continuation, fin },
                FrameView::Text { payload: p, continuation: c, fin: f },
            ) => p == payload@ && c == continuation && f == fin,
            (
                Frame::Binary { payload, continuation, fin },
                FrameView::Binary { payload: p, continuation: c, fin: f },
            ) => p == payload@ && c == continuation && f == fin,
            (
                Frame::Close { payload: Some((status, reason)) },
                FrameView::Close { payload: Some((s, r)) },
            ) => s == status && r == reason@,
            (Frame::Close { payload: None }, FrameView::Close { payload: None }) => true,
            (Frame::Ping { payload: Some(bytes) }, FrameView::Ping { payload: Some(b) }) => b
                == bytes@,
            (Frame::Ping { payload: None }, FrameView::Ping { payload: None }) => true,
            (Frame::Pong { payload: Some(bytes) }, FrameView::Pong { payload: Some(b) }) => b
                == bytes@,
            (Frame::Pong { payload: None }, FrameView::Pong { payload: None }) => true,
            _ => false,
        },
        frame_views(frames).len() == frames.len(),
        forall|i: int| 0 <= i < frames.len() ==> #[trigger] frame_views(frames)[i] == frames[i]@,
{
}

/// Bytes that are refused have an error of their own: one for a mask flag, one for a payload that is
/// too large.
pub proof fn law_refusals_are_told(refusal: Refusal)
    ensures
        refusal is Masked <==> refusal_error(refusal) == WebSocketError::ReceivedMaskedFrame,
        refusal is TooLarge <==> refusal_error(refusal) == WebSocketError::PayloadTooLarge,
{
}

/// What a client sends is what a peer reads. The peer takes off the header, and combines each byte
/// of the payload by exclusive or with the byte of the key whose turn it is: the flag, the opcode and
/// the bytes that it gets stand for the very frame. A continuation frame needs the message that it
/// continues to be open.
pub proof fn law_peer_reads_what_was_sent(
    frame: FrameView,
    key: Seq<u8>,
    open: Option<FrameType>,
)
    requires
        key.len() == 4,
        frame.is_canonical(),
        frame.is_continuation() ==> open == Some(frame.frame_type()),
    ensures
        ({
            let sent = sent_by_client(frame, key);
            let start = sent.len() - frame.body().len();
            let read = Seq::new(
                frame.body().len(),
                |i: int| sent[start + i] ^ sent[start - 4 + i % 4],
            );
            received_frame(open, sent[0] >= 128, sent[0] % 16, read) == Ok::<
                FrameView,
                InvalidFrameReason,
            >(frame)
        }),
{
    let sent = sent_by_client(frame, key);
    let start = sent.len() - frame.body().len();
    let read = Seq::new(frame.body().len(), |i: int| sent[start + i] ^ sent[start - 4 + i % 4]);
    wire::law_sent_bytes_unmask(frame.first_byte(), frame.body(), key);
    assert(read =~= frame.body());
    assert(sent[0] == frame.first_byte());
    lemma_first_byte(frame);
    lemma_received_back(frame, open);
}

} // verus!
