//! Websocket messages are the logical unit that developers interact with.

use vstd::prelude::*;
use vstd::utf8::*;

use crate::websocket::frame;
use crate::websocket::frame::{Frame, FrameType, FrameView};
use crate::websocket::text;

verus! {

/// A message is a logical unit of data, and usually carries an entire meaning by itself.
/// Over the wire, it can be split into frames.
///
/// For more information about fragmentation visit the [`Fragmentation`] strategy enum.
#[derive(Debug, PartialEq, Eq)]
pub enum Message {
    /// A UTF-8 formatted string message.
    Text(String),
    /// A binary message, with no restrictions on formatting.
    Binary(Vec<u8>),
}

/// A message as a mathematical value.
#[verifier::ext_equal]
pub enum MessageView {
    Text(Seq<char>),
    Binary(Seq<u8>),
}

impl View for Message {
    type V = MessageView;

    open spec fn view(&self) -> MessageView {
        match *self {
            Message::Text(text) => MessageView::Text(text@),
            Message::Binary(bytes) => MessageView::Binary(bytes@),
        }
    }
}

impl MessageView {
    /// The application data of the message.
    pub open spec fn bytes(self) -> Seq<u8> {
        match self {
            MessageView::Text(text) => encode_utf8(text),
            MessageView::Binary(bytes) => bytes,
        }
    }

    /// The type of the frames that the message travels in.
    pub open spec fn frame_type(self) -> FrameType {
        match self {
            MessageView::Text(_) => FrameType::Text,
            MessageView::Binary(_) => FrameType::Binary,
        }
    }
}

/// A data frame of the given type.
pub open spec fn data_frame(
    frame_type: FrameType,
    payload: Seq<u8>,
    continuation: bool,
    fin: bool,
) -> FrameView {
    if frame_type == FrameType::Text {
        FrameView::Text { payload, continuation, fin }
    } else {
        FrameView::Binary { payload, continuation, fin }
    }
}

impl Message {
    /// Try to interpret this message as a text message, returning `None` if it is not.
    pub fn as_text(self) -> (r: Option<String>)
        ensures
            match self {
                Message::Text(text) => r == Some(text),
                Message::Binary(_) => r is None,
            },
    {
        match self {
            Message::Text(text) => Some(text),
            _ => None,
        }
    }

    /// Try to interpret this message as a binary message, returning `None` if it is not.
    pub fn as_binary(self) -> (r: Option<Vec<u8>>)
        ensures
            match self {
                Message::Binary(bytes) => r == Some(bytes),
                Message::Text(_) => r is None,
            },
    {
        match self {
            Message::Binary(bytes) => Some(bytes),
            _ => None,
        }
    }

    /// Returns the length of the stored application data in bytes
    pub fn len(&self) -> (r: usize)
        ensures
            r == self@.bytes().len(),
    {
        match self {
            Message::Text(string) => string.as_str().as_bytes().len(),
            Message::Binary(buf) => buf.len(),
        }
    }

    /// The application data of the message.
    fn into_bytes(self) -> (r: Vec<u8>)
        ensures
            r@ == self@.bytes(),
    {
        match self {
            Message::Text(text) => text::into_bytes(text),
            Message::Binary(bytes) => bytes,
        }
    }

    /// The type of the frames that the message travels in.
    fn frame_type(&self) -> (r: FrameType)
        ensures
            r == self@.frame_type(),
    {
        match self {
            Message::Text(_) => FrameType::Text,
            Message::Binary(_) => FrameType::Binary,
        }
    }
}

/// A list of fragmentation strategies provided by the library with the common purpose
/// of splitting up an already available whole [`Message`] into frames
#[derive(Debug, Clone, Copy, PartialEq, Eq, Structural)]
pub enum Fragmentation {
    /// This is the strategy to use when you're sure you won't be tripping the server's upper limit
    /// on frame size.
    Disabled,
    /// This strategy is appropriate for simple splitting of messages based on a length threshold
    /// and a maximum frame size which the library will try to fill as many frames with.
    WithThreshold {
        /// The message size threshold from which on the algorithm will kick into effect.
        /// This value is independent of the `max_frame_size` below.
        threshold: usize,
        /// Once the above threshold is reached, this is the frame size the splitting algorithm
        /// will target.
        max_frame_size: usize,
    },
}

/// How many pieces of at most `max` bytes `len` bytes make.
pub open spec fn piece_count(len: nat, max: nat) -> nat {
    ((len + max - 1) / max as int) as nat
}

/// Where the piece of the given number starts, or the end of the data once there is no such piece.
pub open spec fn piece_start(len: nat, max: nat, i: int) -> int {
    if i * max < len {
        i * max
    } else {
        len as int
    }
}

/// The frames of a message that is cut into pieces of `max` bytes. All are full but the last,
/// which takes what remains and alone is final; all but the first are continuations.
pub open spec fn pieces(message: MessageView, max: nat) -> Seq<FrameView> {
    let bytes = message.bytes();
    let count = piece_count(bytes.len(), max);
    Seq::new(
        count,
        |i: int|
            data_frame(
                message.frame_type(),
                bytes.subrange(
                    piece_start(bytes.len(), max, i),
                    piece_start(bytes.len(), max, i + 1),
                ),
                i > 0,
                i == count - 1,
            ),
    )
}

impl Fragmentation {
    /// The frame size that a message of `len` bytes is cut to, if it is cut.
    pub open spec fn frame_size(self, len: nat) -> Option<nat> {
        match self {
            Fragmentation::Disabled => None,
            Fragmentation::WithThreshold { threshold, max_frame_size } => if threshold > len {
                None
            } else {
                Some(max_frame_size as nat)
            },
        }
    }

    /// Whether a message of `len` bytes can be brought into frames. One that is to be cut into
    /// frames of no bytes cannot.
    pub open spec fn can_carry(self, len: nat) -> bool {
        self.frame_size(len) != Some(0nat)
    }

    /// The frames that a message is sent in.
    pub open spec fn frames(self, message: MessageView) -> Seq<FrameView> {
        match self.frame_size(message.bytes().len()) {
            None => seq![data_frame(message.frame_type(), message.bytes(), false, true)],
            Some(max) => pieces(message, max),
        }
    }

    /// Whether [`Fragmentation::fragment`] can bring the message into frames.
    pub fn can_fragment(&self, message: &Message) -> (r: bool)
        ensures
            r == self.can_carry(message@.bytes().len()),
    {
        match self {
            Fragmentation::Disabled => true,
            Fragmentation::WithThreshold { threshold, max_frame_size } => *threshold > message.len()
                || *max_frame_size != 0,
        }
    }

    /// Fragment a message in accordance to the selected parameters.
    pub fn fragment(&self, message: Message) -> (frames: Vec<Frame>)
        requires
            self.can_carry(message@.bytes().len()),
        ensures
            frame::frame_views(frames@) == self.frames(message@),
    {
        let frame_type: FrameType = message.frame_type();
        let len: usize = message.len();
        let max: usize = match self {
            Fragmentation::Disabled => {
                return whole(frame_type, message.into_bytes());
            },
            Fragmentation::WithThreshold { threshold, max_frame_size } => {
                if *threshold > len {
                    return whole(frame_type, message.into_bytes());
                }
                *max_frame_size
            },
        };
        let ghost view = message@;
        let bytes: Vec<u8> = message.into_bytes();
        let ghost count = piece_count(len as nat, max as nat);
        let mut frames: Vec<Frame> = Vec::new();
        let mut start: usize = 0;
        while start < len
            invariant
                max > 0,
                len == bytes@.len(),
                bytes@ == view.bytes(),
                frame_type == view.frame_type(),
                count == piece_count(len as nat, max as nat),
                start == piece_start(len as nat, max as nat, frames@.len() as int),
                frames@.len() <= count,
                forall|i: int|
                    0 <= i < frames@.len() ==> (#[trigger] frames@[i])@ == pieces(
                        view,
                        max as nat,
                    )[i],
            decreases len - start,
        {
            let end: usize = if len - start > max {
                start + max
            } else {
                len
            };
            proof {
                lemma_piece_bounds(len as nat, max as nat, frames@.len() as int);
            }
            let payload: Vec<u8> = vstd::slice::slice_to_vec(
                vstd::slice::slice_subrange(bytes.as_slice(), start, end),
            );
            frames.push(make_data_frame(frame_type, payload, start > 0, end == len));
            start = end;
        }
        proof {
            lemma_piece_count(len as nat, max as nat, frames@.len() as int);
            assert(frame::frame_views(frames@) =~= pieces(view, max as nat));
        }
        frames
    }
}

/// A message as a single frame.
fn whole(frame_type: FrameType, payload: Vec<u8>) -> (frames: Vec<Frame>)
    ensures
        frame::frame_views(frames@) == seq![data_frame(frame_type, payload@, false, true)],
{
    let mut frames: Vec<Frame> = Vec::new();
    frames.push(make_data_frame(frame_type, payload, false, true));
    assert(frame::frame_views(frames@) =~= seq![data_frame(frame_type, payload@, false, true)]);
    frames
}

/// A data frame of the given type.
fn make_data_frame(frame_type: FrameType, payload: Vec<u8>, continuation: bool, fin: bool) -> (r:
    Frame)
    ensures
        r@ == data_frame(frame_type, payload@, continuation, fin),
{
    match frame_type {
        FrameType::Text => Frame::Text { payload, continuation, fin },
        _ => Frame::Binary { payload, continuation, fin },
    }
}

/// A piece starts where the one before it ends, and is full or reaches the end of the data.
proof fn lemma_piece_bounds(len: nat, max: nat, i: int)
    requires
        max > 0,
        i >= 0,
        piece_start(len, max, i) < len,
    ensures
        piece_start(len, max, i) == i * max,
        i < piece_count(len, max),
        piece_start(len, max, i + 1) == if len - i * max > max {
            i * max + max
        } else {
            len as int
        },
        i > 0 <==> piece_start(len, max, i) > 0,
        i == piece_count(len, max) - 1 <==> piece_start(len, max, i + 1) == len,
{
    assert((i + 1) * max == i * max + max) by (nonlinear_arith);
    assert(i > 0 ==> i * max > 0) by (nonlinear_arith)
        requires
            max > 0,
    ;
    assert(i == 0 ==> i * max == 0) by (nonlinear_arith);
    let n = piece_count(len, max) as int;
    let top = len + max - 1;
    vstd::arithmetic::div_mod::lemma_fundamental_div_mod(top, max as int);
    vstd::arithmetic::div_mod::lemma_div_pos_is_pos(top, max as int);
    vstd::arithmetic::div_mod::lemma_mod_bound(top, max as int);
    assert(max * n == n * max) by (nonlinear_arith);
    assert(n * max >= len && n * max - max < len);
    assert(i < n) by (nonlinear_arith)
        requires
            i * max < len,
            n * max >= len,
            max > 0,
    ;
    assert(i == n - 1 ==> i * max == n * max - max) by (nonlinear_arith);
    assert(i < n - 1 ==> (i + 1) * max <= n * max - max) by (nonlinear_arith)
        requires
            max > 0,
    ;
}

/// The data is used up after `piece_count` pieces, and not before.
proof fn lemma_piece_count(len: nat, max: nat, i: int)
    requires
        max > 0,
        0 <= i <= piece_count(len, max),
        piece_start(len, max, i) >= len,
    ensures
        i == piece_count(len, max),
{
    let n = piece_count(len, max) as int;
    let top = len + max - 1;
    vstd::arithmetic::div_mod::lemma_fundamental_div_mod(top, max as int);
    vstd::arithmetic::div_mod::lemma_div_pos_is_pos(top, max as int);
    vstd::arithmetic::div_mod::lemma_mod_bound(top, max as int);
    assert(max * n == n * max) by (nonlinear_arith);
    assert(i >= n) by (nonlinear_arith)
        requires
            i * max >= len,
            n * max - max < len,
            max > 0,
    ;
}

/// A message fragment is a part of a message.
///
/// Message fragments map one-to-one to data frames,
/// although the same is not true about the
/// application data in those frames
#[derive(Debug, PartialEq, Eq)]
pub enum MessageFragment {
    /// A UTF-8 formatted string message.
    ///
    /// # Split UTF-8
    ///
    /// In the websocket protocol, peers are allowed to split UTF-8 scalars across frame
    /// boundaries.
    ///
    /// When such a frame with split unicode scalars is received, the bytes of the scalar at the
    /// end of the frame are staggered and appear at the start of the next frame, in order to keep
    /// string correctness guarantees.
    Text(String),
    /// A binary message, with no restrictions on formatting.
    Binary(Vec<u8>),
}

impl View for MessageFragment {
    type V = MessageView;

    open spec fn view(&self) -> MessageView {
        match *self {
            MessageFragment::Text(text) => MessageView::Text(text@),
            MessageFragment::Binary(bytes) => MessageView::Binary(bytes@),
        }
    }
}

/// A message in the middle of reconstruction.
#[derive(Debug, PartialEq, Eq)]
pub enum IncompleteMessage {
    Text(Vec<u8>),
    Binary(Vec<u8>),
}

impl View for IncompleteMessage {
    type V = (FrameType, Seq<u8>);

    open spec fn view(&self) -> (FrameType, Seq<u8>) {
        match *self {
            IncompleteMessage::Text(bytes) => (FrameType::Text, bytes@),
            IncompleteMessage::Binary(bytes) => (FrameType::Binary, bytes@),
        }
    }
}

/// The payloads of a run of frames, one after the other.
pub open spec fn joined(frames: Seq<FrameView>) -> Seq<u8>
    decreases frames.len(),
{
    if frames.len() == 0 {
        Seq::empty()
    } else {
        joined(frames.drop_last()) + frames.last().body()
    }
}

/// The first `i` frames of a message that is cut into pieces hold the data up to the next piece.
pub proof fn lemma_joined_pieces(message: MessageView, max: nat, i: int)
    requires
        max > 0,
        0 <= i <= pieces(message, max).len(),
    ensures
        joined(pieces(message, max).take(i)) == message.bytes().take(
            piece_start(message.bytes().len(), max, i),
        ),
        i == pieces(message, max).len() ==> piece_start(message.bytes().len(), max, i)
            == message.bytes().len(),
        0 <= piece_start(message.bytes().len(), max, i) <= message.bytes().len(),
    decreases i,
{
    let bytes = message.bytes();
    let len = bytes.len();
    let all = pieces(message, max);
    if i == 0 {
        assert(0 * max == 0) by (nonlinear_arith);
        assert(all.take(0) =~= Seq::empty());
        assert(bytes.take(piece_start(len, max, 0)) =~= Seq::empty());
        if all.len() == 0 && len > 0 {
            lemma_piece_bounds(len, max, 0);
        }
    } else {
        lemma_joined_pieces(message, max, i - 1);
        let before = piece_start(len, max, i - 1);
        if before >= len {
            lemma_piece_count(len, max, i - 1);
        }
        lemma_piece_bounds(len, max, i - 1);
        let after = piece_start(len, max, i);
        assert(all.take(i).drop_last() =~= all.take(i - 1));
        assert(all.take(i).last() == all[i - 1]);
        assert(bytes.take(before) + bytes.subrange(before, after) =~= bytes.take(after));
    }
}

/// No byte of a message is lost, added or moved when it is fragmented: the payloads of its frames,
/// one after the other, are its application data. The one message that is sent in no frame at all
/// is the empty one, where even that is to be cut.
pub proof fn law_fragments_hold_the_message(strategy: Fragmentation, message: MessageView)
    requires
        strategy.can_carry(message.bytes().len()),
    ensures
        joined(strategy.frames(message)) == message.bytes(),
        strategy.frames(message).len() == 0 <==> message.bytes().len() == 0
            && strategy.frame_size(0) is Some,
{
    let frames = strategy.frames(message);
    match strategy.frame_size(message.bytes().len()) {
        None => {
            assert(frames.drop_last() =~= Seq::empty());
            assert(joined(frames.drop_last()) =~= Seq::empty());
        },
        Some(max) => {
            lemma_joined_pieces(message, max, frames.len() as int);
            assert(frames.take(frames.len() as int) =~= frames);
            assert(message.bytes().take(message.bytes().len() as int) =~= message.bytes());
            if message.bytes().len() > 0 {
                assert(0 * max == 0) by (nonlinear_arith);
                lemma_piece_bounds(message.bytes().len(), max, 0);
            } else {
                assert((max - 1) / max as int == 0) by (nonlinear_arith)
                    requires
                        max > 0,
                ;
            }
        },
    }
}

/// The frames of a message are flagged as fragments are: only the first is not a continuation, and
/// only the last is final. All have the message's type, and none holds more than the strategy's
/// frame size.
pub proof fn law_fragments_are_flagged(strategy: Fragmentation, message: MessageView, i: int)
    requires
        strategy.can_carry(message.bytes().len()),
        0 <= i < strategy.frames(message).len(),
    ensures
        ({
            let frames = strategy.frames(message);
            &&& frames[i].frame_type() == message.frame_type()
            &&& frames[i].is_continuation() <==> i > 0
            &&& frames[i].is_final() <==> i == frames.len() - 1
            &&& strategy.frame_size(message.bytes().len()) matches Some(max) ==> {
                &&& 0 < frames[i].body().len() <= max
                &&& i < frames.len() - 1 ==> frames[i].body().len() == max
            }
        }),
{
    if let Some(max) = strategy.frame_size(message.bytes().len()) {
        let len = message.bytes().len();
        if piece_start(len, max, i) >= len {
            lemma_piece_count(len, max, i);
        }
        lemma_piece_bounds(len, max, i);
    }
}

/// A message travels as what it holds: text in its UTF-8 encoding and in text frames, bytes as they
/// are and in binary frames.
pub proof fn law_messages_travel_as_they_are(
    text: Seq<char>,
    bytes: Seq<u8>,
    continuation: bool,
    fin: bool,
)
    ensures
        MessageView::Text(text).bytes() == encode_utf8(text),
        MessageView::Text(text).frame_type() == FrameType::Text,
        MessageView::Binary(bytes).bytes() == bytes,
        MessageView::Binary(bytes).frame_type() == FrameType::Binary,
        data_frame(FrameType::Text, bytes, continuation, fin) == (FrameView::Text {
            payload: bytes,
            continuation,
            fin,
        }),
        data_frame(FrameType::Binary, bytes, continuation, fin) == (FrameView::Binary {
            payload: bytes,
            continuation,
            fin,
        }),
{
}

/// Nothing of a message is left out of its view, nor of a fragment or of a message that has not
/// fully been received.
pub proof fn law_every_message_is_seen(
    message: Message,
    fragment: MessageFragment,
    incomplete: IncompleteMessage,
)
    ensures
        match message {
            Message::Text(text) => message@ == MessageView::Text(text@),
            Message::Binary(bytes) => message@ == MessageView::Binary(bytes@),
        },
        match fragment {
            MessageFragment::Text(text) => fragment@ == MessageView::Text(text@),
            MessageFragment::Binary(bytes) => fragment@ == MessageView::Binary(bytes@),
        },
        match incomplete {
            IncompleteMessage::Text(bytes) => incomplete@ == (FrameType::Text, bytes@),
            IncompleteMessage::Binary(bytes) => incomplete@ == (FrameType::Binary, bytes@),
        },
{
}

/// A message below the threshold is sent in one frame, and so is any where messages are not cut.
pub proof fn law_small_messages_are_sent_whole(
    threshold: usize,
    max_frame_size: usize,
    message: MessageView,
)
    ensures
        ({
            let whole = seq![
                match message {
                    MessageView::Text(text) => FrameView::Text {
                        payload: encode_utf8(text),
                        continuation: false,
                        fin: true,
                    },
                    MessageView::Binary(bytes) => FrameView::Binary {
                        payload: bytes,
                        continuation: false,
                        fin: true,
                    },
                },
            ];
            &&& Fragmentation::Disabled.frames(message) == whole
            &&& message.bytes().len() < threshold ==> (Fragmentation::WithThreshold {
                threshold,
                max_frame_size,
            }).frames(message) == whole
        }),
        Fragmentation::Disabled.can_carry(message.bytes().len()),
        (Fragmentation::WithThreshold { threshold, max_frame_size }).can_carry(
            message.bytes().len(),
        ) <==> message.bytes().len() < threshold || max_frame_size > 0,
{
}

/// From the threshold on a message is cut at the multiples of the frame size: each frame takes up
/// where the one before it has ended, is filled as long as there is enough left, and there are as
/// many frames as it takes.
pub proof fn law_large_messages_are_cut_evenly(
    threshold: usize,
    max_frame_size: usize,
    message: MessageView,
)
    requires
        threshold <= message.bytes().len(),
        max_frame_size > 0,
    ensures
        ({
            let bytes = message.bytes();
            let frames = (Fragmentation::WithThreshold { threshold, max_frame_size }).frames(message);
            &&& frames.len() * max_frame_size >= bytes.len()
            &&& frames.len() > 0 ==> (frames.len() - 1) * max_frame_size < bytes.len()
            &&& forall|i: int|
                0 <= i < frames.len() ==> (#[trigger] frames[i]).body() == bytes.subrange(
                    i * max_frame_size,
                    if (i + 1) * max_frame_size < bytes.len() {
                        (i + 1) * max_frame_size
                    } else {
                        bytes.len() as int
                    },
                )
        }),
{
    let bytes = message.bytes();
    let len = bytes.len();
    let max = max_frame_size as nat;
    let frames = (Fragmentation::WithThreshold { threshold, max_frame_size }).frames(message);
    let n = frames.len() as int;
    lemma_joined_pieces(message, max, n);
    if n > 0 {
        if piece_start(len, max, n - 1) >= len {
            lemma_piece_count(len, max, n - 1);
        }
    }
    assert forall|i: int| 0 <= i < n implies (#[trigger] frames[i]).body() == bytes.subrange(
        i * max_frame_size,
        if (i + 1) * max_frame_size < len {
            (i + 1) * max_frame_size
        } else {
            len as int
        },
    ) by {
        if piece_start(len, max, i) >= len {
            lemma_piece_count(len, max, i);
        }
    }
}

} // verus!
