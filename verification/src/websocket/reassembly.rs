//! Messages put together again from the frames that they arrive in.

use vstd::prelude::*;
use vstd::utf8::*;

use crate::boundary;
use crate::websocket::frame;
use crate::websocket::frame::{Frame, FrameType, FrameView};
use crate::websocket::message;
use crate::websocket::message::{Fragmentation, IncompleteMessage, Message, MessageView};
use crate::websocket::split::read;
use crate::websocket::split::read::FragmentedView;
use crate::websocket::utf8;
use crate::websocket::wire;

verus! {

/// Where a connection stands between two data frames.
#[derive(Debug, PartialEq, Eq)]
pub struct Reassembly {
    /// Part of a message that has not fully been received yet.
    pub partial_message: Option<IncompleteMessage>,
    /// If the connection is in the middle of receiving a message that nobody is reading any more.
    pub recovering: bool,
}

/// The same as a mathematical value.
#[verifier::ext_equal]
pub struct ReassemblyView {
    /// The type and the data of the message that has not fully been received yet.
    pub partial: Option<(FrameType, Seq<u8>)>,
    /// Whether the rest of a message is being skipped.
    pub recovering: bool,
}

/// The view of an optional message in the middle of reconstruction.
pub open spec fn partial_view(partial: Option<IncompleteMessage>) -> Option<(FrameType, Seq<u8>)> {
    match partial {
        Some(message) => Some(message@),
        None => None,
    }
}

impl View for Reassembly {
    type V = ReassemblyView;

    open spec fn view(&self) -> ReassemblyView {
        ReassemblyView {
            partial: partial_view(self.partial_message),
            recovering: self.recovering,
        }
    }
}

/// What a data frame completes.
#[verifier::ext_equal]
pub enum Outcome {
    /// The message goes on, or the frame was skipped.
    Nothing,
    /// The message is complete.
    Complete(MessageView),
    /// The message is complete, but it is a text message that is not UTF-8.
    BadUtf8,
}

/// What a data frame completes, as an executable value.
#[derive(Debug, PartialEq, Eq)]
pub enum Assembled {
    /// The message goes on, or the frame was skipped.
    Nothing,
    /// The message is complete.
    Complete(Message),
    /// The message is complete, but it is a text message that is not UTF-8.
    BadUtf8,
}

impl View for Assembled {
    type V = Outcome;

    open spec fn view(&self) -> Outcome {
        match *self {
            Assembled::Nothing => Outcome::Nothing,
            Assembled::Complete(message) => Outcome::Complete(message@),
            Assembled::BadUtf8 => Outcome::BadUtf8,
        }
    }
}

impl ReassemblyView {
    /// Between two messages.
    pub open spec fn fresh() -> ReassemblyView {
        ReassemblyView { partial: None, recovering: false }
    }

    /// Whether a data frame belongs to the rest of a message that nobody is reading any more:
    /// whatever leaves its message unfinished, and whatever continues one.
    pub open spec fn skips(self, frame: FrameView) -> bool {
        self.recovering && !frame.is_control() && (!frame.is_final() || frame.is_continuation())
    }

    /// Whether a frame may come next. A continuation frame carries on the message that is open, if
    /// it is of its type, and any other data frame opens one where none is open. Control frames
    /// and frames that are skipped may always come.
    pub open spec fn accepts(self, frame: FrameView) -> bool {
        ||| frame.is_control()
        ||| self.skips(frame)
        ||| match self.partial {
            Some((frame_type, _)) => frame.is_continuation() && frame_type == frame.frame_type(),
            None => !frame.is_continuation(),
        }
    }

    /// All data of the current message, once a frame has been received.
    pub open spec fn gathered(self, frame: FrameView) -> Seq<u8> {
        match self.partial {
            Some((_, bytes)) => bytes + frame.body(),
            None => frame.body(),
        }
    }

    /// Where the connection stands after a frame. A final data frame ends whatever is going on.
    pub open spec fn after(self, frame: FrameView) -> ReassemblyView {
        if frame.is_control() {
            self
        } else if frame.is_final() {
            ReassemblyView::fresh()
        } else if self.skips(frame) {
            self
        } else {
            ReassemblyView {
                partial: Some((frame.frame_type(), self.gathered(frame))),
                recovering: self.recovering,
            }
        }
    }

    /// What a frame completes.
    pub open spec fn outcome(self, frame: FrameView) -> Outcome {
        if frame.is_control() || self.skips(frame) || !frame.is_final() {
            Outcome::Nothing
        } else if frame.frame_type() == FrameType::Binary {
            Outcome::Complete(MessageView::Binary(self.gathered(frame)))
        } else if valid_utf8(self.gathered(frame)) {
            Outcome::Complete(MessageView::Text(decode_utf8(self.gathered(frame))))
        } else {
            Outcome::BadUtf8
        }
    }

    /// Where the connection stands once its current message is not read in fragments any more. The
    /// rest of a message that is not finished is skipped.
    pub open spec fn abandoned(self, finished: bool) -> ReassemblyView {
        ReassemblyView { recovering: self.recovering || !finished, ..self }
    }

    /// Where the connection stands after a run of frames.
    pub open spec fn after_all(self, frames: Seq<FrameView>) -> ReassemblyView
        decreases frames.len(),
    {
        if frames.len() == 0 {
            self
        } else {
            self.after_all(frames.drop_last()).after(frames.last())
        }
    }

    /// Whether the frames of a run may come one after the other.
    pub open spec fn accepts_all(self, frames: Seq<FrameView>) -> bool {
        forall|i: int|
            0 <= i < frames.len() ==> self.after_all(frames.take(i)).accepts(#[trigger] frames[i])
    }

    /// What the given frame of a run completes.
    pub open spec fn outcome_at(self, frames: Seq<FrameView>, i: int) -> Outcome {
        self.after_all(frames.take(i)).outcome(frames[i])
    }
}

impl Reassembly {
    /// Between two messages.
    pub fn new() -> (r: Self)
        ensures
            r@ == ReassemblyView::fresh(),
    {
        Reassembly { partial_message: None, recovering: false }
    }

    /// Whether a frame may come next.
    pub fn accepts(&self, frame: &Frame) -> (r: bool)
        ensures
            r == self@.accepts(frame@),
    {
        match frame {
            Frame::Text { continuation, fin, .. } => {
                if self.recovering && (!*fin || *continuation) {
                    return true;
                }
                match &self.partial_message {
                    Some(IncompleteMessage::Text(_)) => *continuation,
                    Some(IncompleteMessage::Binary(_)) => false,
                    None => !*continuation,
                }
            },
            Frame::Binary { continuation, fin, .. } => {
                if self.recovering && (!*fin || *continuation) {
                    return true;
                }
                match &self.partial_message {
                    Some(IncompleteMessage::Binary(_)) => *continuation,
                    Some(IncompleteMessage::Text(_)) => false,
                    None => !*continuation,
                }
            },
            _ => true,
        }
    }

    /// Receives a frame. Control frames are none of its business, and change nothing.
    pub fn push(&mut self, frame: Frame) -> (r: Assembled)
        requires
            old(self)@.accepts(frame@),
        ensures
            final(self)@ == old(self)@.after(frame@),
            r@ == old(self)@.outcome(frame@),
    {
        let ghost before = self@;
        match frame {
            Frame::Text { payload, continuation, fin } => {
                if self.skip(continuation, fin) {
                    return Assembled::Nothing;
                }
                let complete: Vec<u8> = match self.partial_message.take() {
                    Some(IncompleteMessage::Text(prev)) => concat(prev, payload),
                    Some(IncompleteMessage::Binary(prev)) => prev,
                    None => payload,
                };
                assert(complete@ == before.gathered(frame@));
                if fin {
                    match boundary::string_from_utf8(complete) {
                        Some(text) => Assembled::Complete(Message::Text(text)),
                        None => Assembled::BadUtf8,
                    }
                } else {
                    self.partial_message = Some(IncompleteMessage::Text(complete));
                    Assembled::Nothing
                }
            },
            Frame::Binary { payload, continuation, fin } => {
                if self.skip(continuation, fin) {
                    return Assembled::Nothing;
                }
                let complete: Vec<u8> = match self.partial_message.take() {
                    Some(IncompleteMessage::Binary(prev)) => concat(prev, payload),
                    Some(IncompleteMessage::Text(prev)) => prev,
                    None => payload,
                };
                assert(complete@ == before.gathered(frame@));
                if fin {
                    Assembled::Complete(Message::Binary(complete))
                } else {
                    self.partial_message = Some(IncompleteMessage::Binary(complete));
                    Assembled::Nothing
                }
            },
            _ => Assembled::Nothing,
        }
    }

    /// Skips a data frame with the given flags, if the rest of a message is being skipped. A final
    /// frame puts an end to that.
    pub fn skip(&mut self, continuation: bool, fin: bool) -> (skipped: bool)
        ensures
            skipped == (old(self).recovering && (!fin || continuation)),
            final(self).recovering == (old(self).recovering && !fin),
            final(self).partial_message == if skipped && fin {
                None
            } else {
                old(self).partial_message
            },
    {
        if !self.recovering {
            return false;
        }
        if !fin {
            return true;
        }
        self.recovering = false;
        if continuation {
            self.partial_message = None;
        }
        continuation
    }
}

/// One run of bytes followed by another.
pub(crate) fn concat(first: Vec<u8>, second: Vec<u8>) -> (r: Vec<u8>)
    ensures
        r@ == first@ + second@,
{
    let mut first: Vec<u8> = first;
    let mut second: Vec<u8> = second;
    first.append(&mut second);
    first
}

/// After the first frames of a message that is cut into pieces, their data is at hand.
proof fn lemma_after_pieces(message: MessageView, max: nat, i: int)
    requires
        max > 0,
        0 <= i < message::pieces(message, max).len(),
    ensures
        ReassemblyView::fresh().after_all(message::pieces(message, max).take(i))
            == (ReassemblyView {
            partial: if i == 0 {
                None
            } else {
                Some(
                    (message.frame_type(), message::joined(message::pieces(message, max).take(i))),
                )
            },
            recovering: false,
        }),
    decreases i,
{
    let all = message::pieces(message, max);
    if i > 0 {
        lemma_after_pieces(message, max, i - 1);
        assert(all.take(i).drop_last() =~= all.take(i - 1));
        assert(all.take(i).last() == all[i - 1]);
        if i == 1 {
            assert(all.take(0) =~= Seq::empty());
            assert(message::joined(all.take(0)) + all[0].body() =~= all[0].body());
        }
    } else {
        assert(all.take(0) =~= Seq::empty());
    }
}

/// A message that was fragmented is put together again: its frames are accepted one after the
/// other, none completes anything before the last, and the last completes the very message.
pub proof fn law_fragments_are_reassembled(strategy: Fragmentation, message: MessageView)
    requires
        strategy.can_carry(message.bytes().len()),
    ensures
        ({
            let frames = strategy.frames(message);
            let fresh = ReassemblyView::fresh();
            &&& fresh.accepts_all(frames)
            &&& forall|i: int|
                0 <= i < frames.len() - 1 ==> #[trigger] fresh.outcome_at(frames, i)
                    == Outcome::Nothing
            &&& frames.len() > 0 ==> fresh.outcome_at(frames, frames.len() - 1)
                == Outcome::Complete(message)
            &&& fresh.after_all(frames) == fresh
        }),
{
    let frames = strategy.frames(message);
    let fresh = ReassemblyView::fresh();
    let bytes = message.bytes();
    if let MessageView::Text(text) = message {
        encode_utf8_valid_utf8(text);
        encode_utf8_decode_utf8(text);
    }
    match strategy.frame_size(bytes.len()) {
        None => {
            assert(frames.take(0) =~= Seq::empty());
            assert(frames.drop_last() =~= Seq::empty());
            assert(fresh.after_all(frames.take(0)) == fresh);
        },
        Some(max) => {
            let n = frames.len() as int;
            assert forall|i: int| 0 <= i < n implies fresh.after_all(frames.take(i)).accepts(
                #[trigger] frames[i],
            ) by {
                lemma_after_pieces(message, max, i);
            }
            assert forall|i: int| 0 <= i < n - 1 implies #[trigger] fresh.outcome_at(frames, i)
                == Outcome::Nothing by {
                lemma_after_pieces(message, max, i);
            }
            if n > 0 {
                lemma_after_pieces(message, max, n - 1);
                message::lemma_joined_pieces(message, max, n);
                assert(frames.take(n) =~= frames);
                assert(frames.drop_last() =~= frames.take(n - 1));
                assert(bytes.take(bytes.len() as int) =~= bytes);
                let before = fresh.after_all(frames.take(n - 1));
                if n == 1 {
                    assert(message::joined(frames.take(0)) + frames[0].body() =~= frames[0].body());
                }
                assert(before.gathered(frames[n - 1]) == bytes);
            }
        },
    }
}

/// The frames from the given one on, of a message that is sent in fragments, are readable.
proof fn lemma_fragments_are_readable(strategy: Fragmentation, message: MessageView, i: int)
    requires
        strategy.can_carry(message.bytes().len()),
        0 <= i <= strategy.frames(message).len(),
        forall|j: int|
            0 <= j < strategy.frames(message).len() ==> (#[trigger] strategy.frames(
                message,
            )[j]).body().len() <= wire::MAX_PAYLOAD_SIZE,
    ensures
        frame::readable(
            if i == 0 || i == strategy.frames(message).len() {
                None
            } else {
                Some(message.frame_type())
            },
            strategy.frames(message).skip(i),
        ),
    decreases strategy.frames(message).len() - i,
{
    let frames = strategy.frames(message);
    if i < frames.len() {
        message::law_fragments_are_flagged(strategy, message, i);
        lemma_fragments_are_readable(strategy, message, i + 1);
        assert(frames.skip(i).skip(1) =~= frames.skip(i + 1));
        assert(frames.skip(i)[0] == frames[i]);
    }
}

/// A message survives the wire: fragmented by one side, sent frame by frame, decoded and put
/// together by the other, it is the message again, as long as no frame is larger than what is
/// accepted.
pub proof fn law_message_survives_the_wire(strategy: Fragmentation, message: MessageView)
    requires
        strategy.can_carry(message.bytes().len()),
        strategy.frames(message).len() > 0,
        forall|j: int|
            0 <= j < strategy.frames(message).len() ==> (#[trigger] strategy.frames(
                message,
            )[j]).body().len() <= wire::MAX_PAYLOAD_SIZE,
    ensures
        ({
            let read = frame::decoded(None, frame::sent_by_server(strategy.frames(message)));
            let fresh = ReassemblyView::fresh();
            &&& fresh.accepts_all(read)
            &&& fresh.outcome_at(read, read.len() - 1) == Outcome::Complete(message)
            &&& fresh.after_all(read) == fresh
        }),
{
    let frames = strategy.frames(message);
    lemma_fragments_are_readable(strategy, message, 0);
    assert(frames.skip(0) =~= frames);
    frame::law_stream_is_read_back(None, frames);
    law_fragments_are_reassembled(strategy, message);
}

/// The rest of a message that nobody is reading any more is lost, and nothing else: while its
/// frames come in nothing is completed, and its final frame leaves the connection between two
/// messages.
pub proof fn law_rest_of_the_message_is_lost(state: ReassemblyView, frames: Seq<FrameView>)
    requires
        state.recovering,
        forall|i: int|
            0 <= i < frames.len() ==> (#[trigger] frames[i]).is_control()
                || frames[i].is_continuation() && (frames[i].is_final() <==> i == frames.len() - 1),
    ensures
        state.accepts_all(frames),
        forall|i: int|
            0 <= i < frames.len() ==> #[trigger] state.outcome_at(frames, i) == Outcome::Nothing,
        state.after_all(frames) == if frames.len() > 0 && !frames.last().is_control() {
            ReassemblyView::fresh()
        } else {
            state
        },
{
    let n = frames.len() as int;
    assert forall|i: int| 0 <= i < n implies state.after_all(#[trigger] frames.take(i)) == state by {
        lemma_still_skipping(state, frames, i);
    }
    assert forall|i: int| 0 <= i < n implies state.after_all(frames.take(i)).accepts(
        #[trigger] frames[i],
    ) by {
        assert(state.after_all(frames.take(i)) == state);
    }
    assert forall|i: int| 0 <= i < n implies #[trigger] state.outcome_at(frames, i)
        == Outcome::Nothing by {
        assert(state.after_all(frames.take(i)) == state);
    }
    if n > 0 {
        assert(frames.drop_last() =~= frames.take(n - 1));
        assert(state.after_all(frames.take(n - 1)) == state);
    }
}

proof fn lemma_still_skipping(state: ReassemblyView, frames: Seq<FrameView>, i: int)
    requires
        state.recovering,
        0 <= i < frames.len(),
        forall|j: int|
            0 <= j < frames.len() ==> (#[trigger] frames[j]).is_control()
                || frames[j].is_continuation() && (frames[j].is_final() <==> j == frames.len() - 1),
    ensures
        state.after_all(frames.take(i)) == state,
    decreases i,
{
    if i > 0 {
        lemma_still_skipping(state, frames, i - 1);
        assert(frames.take(i).drop_last() =~= frames.take(i - 1));
        assert(frames.take(i).last() == frames[i - 1]);
    }
}

/// Control frames may come at any time, in the middle of a message, too: they are accepted, they
/// complete nothing, and neither the frame layer nor the reassembly is disturbed by them.
pub proof fn law_control_frames_do_not_disturb(
    open: Option<FrameType>,
    state: ReassemblyView,
    frame: FrameView,
)
    requires
        frame.is_control(),
    ensures
        state.accepts(frame),
        state.after(frame) == state,
        state.outcome(frame) == Outcome::Nothing,
        frame::open_after(open, frame.is_final(), frame.opcode()) == open,
{
}

/// A run of frames leaves the reassembly where its data frames alone leave it.
pub proof fn law_only_data_frames_count(state: ReassemblyView, frames: Seq<FrameView>)
    ensures
        state.after_all(frames) == state.after_all(frame::data_only(frames)),
    decreases frames.len(),
{
    if frames.len() > 0 {
        law_only_data_frames_count(state, frames.drop_last());
        if !frames.last().is_control() {
            let data = frame::data_only(frames);
            assert(data.drop_last() =~= frame::data_only(frames.drop_last()));
        }
    }
}

/// Whether the frame layer and the reassembly agree on the message that is open. While the rest of
/// a message is being skipped only what was kept of it has to agree.
pub open spec fn in_step(open: Option<FrameType>, state: ReassemblyView) -> bool {
    match state.partial {
        Some((frame_type, _)) => open == Some(frame_type),
        None => state.recovering || open is None,
    }
}

/// The frame layer hands out only frames that the reassembly accepts, as long as the peer starts
/// no message in the middle of another; and the two stay in step.
pub proof fn law_decoded_frames_are_accepted(
    open: Option<FrameType>,
    state: ReassemblyView,
    fin: bool,
    opcode: u8,
    payload: Seq<u8>,
)
    requires
        in_step(open, state),
        opcode == 0x1 || opcode == 0x2 ==> open is None,
    ensures
        frame::received_frame(open, fin, opcode, payload) matches Ok(frame) ==> {
            &&& state.accepts(frame)
            &&& in_step(frame::open_after(open, fin, opcode), state.after(frame))
        },
        frame::received_frame(open, fin, opcode, payload) is Err ==> frame::open_after(
            open,
            fin,
            opcode,
        ) == open,
{
}

/// Bytes that come in any number of frames, cut anywhere, are put together to one message, by the
/// last frame and not before.
pub proof fn law_binary_frames_make_one_message(payloads: Seq<Seq<u8>>)
    requires
        payloads.len() > 0,
    ensures
        ({
            let fresh = ReassemblyView::fresh();
            let frames = read::binary_frames(payloads);
            &&& fresh.accepts_all(frames)
            &&& forall|i: int|
                0 <= i < payloads.len() - 1 ==> #[trigger] fresh.outcome_at(frames, i)
                    == Outcome::Nothing
            &&& fresh.outcome_at(frames, payloads.len() - 1) == Outcome::Complete(
                MessageView::Binary(read::flattened(payloads)),
            )
            &&& fresh.after_all(frames) == fresh
        }),
{
    let fresh = ReassemblyView::fresh();
    let frames = read::binary_frames(payloads);
    let n = payloads.len() as int;
    assert forall|i: int| 0 <= i < n implies fresh.after_all(frames.take(i)).accepts(
        #[trigger] frames[i],
    ) by {
        lemma_gathered_frames(frames, payloads, FrameType::Binary, i);
    }
    assert forall|i: int| 0 <= i < n - 1 implies #[trigger] fresh.outcome_at(frames, i)
        == Outcome::Nothing by {
        lemma_gathered_frames(frames, payloads, FrameType::Binary, i);
    }
    lemma_gathered_frames(frames, payloads, FrameType::Binary, n - 1);
    lemma_gathered_all(frames, payloads, FrameType::Binary);
}

/// Text that comes in any number of frames, cut anywhere, even within a code point, is put together
/// to one message, by the last frame and not before; and if it is not UTF-8 that is reported then.
pub proof fn law_text_frames_make_one_message(payloads: Seq<Seq<u8>>)
    requires
        payloads.len() > 0,
    ensures
        ({
            let fresh = ReassemblyView::fresh();
            let frames = read::text_frames(payloads);
            let bytes = read::flattened(payloads);
            &&& fresh.accepts_all(frames)
            &&& forall|i: int|
                0 <= i < payloads.len() - 1 ==> #[trigger] fresh.outcome_at(frames, i)
                    == Outcome::Nothing
            &&& fresh.outcome_at(frames, payloads.len() - 1) == if valid_utf8(bytes) {
                Outcome::Complete(MessageView::Text(decode_utf8(bytes)))
            } else {
                Outcome::BadUtf8
            }
            &&& fresh.after_all(frames) == fresh
        }),
{
    let fresh = ReassemblyView::fresh();
    let frames = read::text_frames(payloads);
    let n = payloads.len() as int;
    assert forall|i: int| 0 <= i < n implies fresh.after_all(frames.take(i)).accepts(
        #[trigger] frames[i],
    ) by {
        lemma_gathered_frames(frames, payloads, FrameType::Text, i);
    }
    assert forall|i: int| 0 <= i < n - 1 implies #[trigger] fresh.outcome_at(frames, i)
        == Outcome::Nothing by {
        lemma_gathered_frames(frames, payloads, FrameType::Text, i);
    }
    lemma_gathered_frames(frames, payloads, FrameType::Text, n - 1);
    lemma_gathered_all(frames, payloads, FrameType::Text);
}

/// Whether frames are those of one message of the given type with the given payloads.
spec fn are_frames_of(
    frames: Seq<FrameView>,
    payloads: Seq<Seq<u8>>,
    frame_type: FrameType,
) -> bool {
    &&& frames.len() == payloads.len()
    &&& forall|i: int|
        0 <= i < frames.len() ==> {
            &&& !(#[trigger] frames[i]).is_control()
            &&& frames[i].frame_type() == frame_type
            &&& frames[i].body() == payloads[i]
            &&& frames[i].is_continuation() == (i > 0)
            &&& frames[i].is_final() == (i == frames.len() - 1)
        }
}

/// After some frames of a message their payloads are at hand.
proof fn lemma_gathered_frames(
    frames: Seq<FrameView>,
    payloads: Seq<Seq<u8>>,
    frame_type: FrameType,
    i: int,
)
    requires
        are_frames_of(frames, payloads, frame_type),
        0 <= i < frames.len(),
    ensures
        ReassemblyView::fresh().after_all(frames.take(i)) == (ReassemblyView {
            partial: if i == 0 {
                None
            } else {
                Some((frame_type, read::flattened(payloads.take(i))))
            },
            recovering: false,
        }),
    decreases i,
{
    if i == 0 {
        assert(frames.take(0) =~= Seq::empty());
    } else {
        lemma_gathered_frames(frames, payloads, frame_type, i - 1);
        assert(frames.take(i).drop_last() =~= frames.take(i - 1));
        assert(frames.take(i).last() == frames[i - 1]);
        assert(payloads.take(i).drop_last() =~= payloads.take(i - 1));
        assert(payloads.take(i).last() == payloads[i - 1]);
        if i == 1 {
            assert(payloads.take(0) =~= Seq::empty());
            assert(read::flattened(payloads.take(0)) + payloads[0] =~= payloads[0]);
        }
    }
}

/// The last frame of a message completes its payloads, and nothing is left.
proof fn lemma_gathered_all(
    frames: Seq<FrameView>,
    payloads: Seq<Seq<u8>>,
    frame_type: FrameType,
)
    requires
        are_frames_of(frames, payloads, frame_type),
        frames.len() > 0,
    ensures
        ({
            let n = frames.len() as int;
            let fresh = ReassemblyView::fresh();
            &&& fresh.after_all(frames.take(n - 1)).gathered(frames[n - 1]) == read::flattened(
                payloads,
            )
            &&& fresh.after_all(frames) == fresh
        }),
{
    let n = frames.len() as int;
    lemma_gathered_frames(frames, payloads, frame_type, n - 1);
    assert(frames.drop_last() =~= frames.take(n - 1));
    assert(payloads.drop_last() =~= payloads.take(n - 1));
    if n == 1 {
        assert(payloads.take(0) =~= Seq::empty());
        assert(read::flattened(payloads.take(0)) + payloads[0] =~= payloads[0]);
    }
}

/// Which data frames may come: the first of a message where none is open, and a continuation of the
/// same type where one is; and, while the rest of a message is being skipped, anything that leaves
/// a message unfinished or continues one.
pub proof fn law_flags_have_to_fit(
    state: ReassemblyView,
    frame_type: FrameType,
    bytes: Seq<u8>,
    payload: Seq<u8>,
    continuation: bool,
    fin: bool,
)
    requires
        frame_type != FrameType::Control,
    ensures
        ({
            let text = FrameView::Text { payload, continuation, fin };
            let binary = FrameView::Binary { payload, continuation, fin };
            &&& state.recovering && (!fin || continuation) ==> state.accepts(text) && state.accepts(
                binary,
            )
            &&& !state.recovering && state.partial is None ==> (state.accepts(text)
                <==> !continuation) && (state.accepts(binary) <==> !continuation)
            &&& !state.recovering && state.partial == Some((frame_type, bytes)) ==> (state.accepts(
                text,
            ) <==> continuation && frame_type == FrameType::Text) && (state.accepts(binary)
                <==> continuation && frame_type == FrameType::Binary)
        }),
{
}

/// A whole message that comes while the rest of another is being skipped is received, and puts an
/// end to the skipping.
pub proof fn law_whole_message_ends_the_skipping(state: ReassemblyView, payload: Seq<u8>)
    requires
        state.recovering,
        state.partial is None,
    ensures
        ({
            let text = FrameView::Text { payload, continuation: false, fin: true };
            let binary = FrameView::Binary { payload, continuation: false, fin: true };
            &&& state.accepts(text) && state.accepts(binary)
            &&& state.outcome(binary) == Outcome::Complete(MessageView::Binary(payload))
            &&& valid_utf8(payload) ==> state.outcome(text) == Outcome::Complete(
                MessageView::Text(decode_utf8(payload)),
            )
            &&& !valid_utf8(payload) ==> state.outcome(text) == Outcome::BadUtf8
            &&& state.after(text) == ReassemblyView::fresh()
            &&& state.after(binary) == ReassemblyView::fresh()
        }),
{
}

/// While the rest of a message is being skipped nothing else than a whole message is received: a
/// frame that leaves its message unfinished changes nothing, and a final continuation is the end.
pub proof fn law_what_is_skipped(
    state: ReassemblyView,
    payload: Seq<u8>,
    continuation: bool,
    fin: bool,
)
    requires
        state.recovering,
        !fin || continuation,
    ensures
        ({
            let text = FrameView::Text { payload, continuation, fin };
            let binary = FrameView::Binary { payload, continuation, fin };
            &&& state.skips(text) && state.skips(binary)
            &&& state.outcome(text) == Outcome::Nothing
            &&& state.outcome(binary) == Outcome::Nothing
            &&& !fin ==> state.after(text) == state && state.after(binary) == state
            &&& fin ==> state.after(text) == ReassemblyView::fresh() && state.after(binary)
                == ReassemblyView::fresh()
        }),
{
}

/// Nothing of a message that has not fully been received is left out of where the connection stands.
pub proof fn law_partial_message_is_seen(reassembly: Reassembly)
    ensures
        reassembly@.recovering == reassembly.recovering,
        match reassembly.partial_message {
            Some(IncompleteMessage::Text(bytes)) => reassembly@.partial == Some(
                (FrameType::Text, bytes@),
            ),
            Some(IncompleteMessage::Binary(bytes)) => reassembly@.partial == Some(
                (FrameType::Binary, bytes@),
            ),
            None => reassembly@.partial is None,
        },
        partial_view(reassembly.partial_message) == reassembly@.partial,
        ReassemblyView::fresh().partial is None && !ReassemblyView::fresh().recovering,
{
}

/// A message that is not read to its end is lost with all frames that are left of it, and nothing
/// else is: while they come in nothing is handed out, and afterwards the next message can come. One
/// that was read to its end leaves everything as it is.
pub proof fn law_abandoned_message_is_lost(payloads: Seq<Seq<u8>>, count: int)
    requires
        0 < count < payloads.len(),
    ensures
        ({
            let frames = read::binary_frames(payloads);
            let left = frames.skip(count);
            let fresh = ReassemblyView::fresh();
            let reading = FragmentedView::start().after_frames(frames.take(count));
            let state = fresh.abandoned(reading.fin);
            &&& state.accepts_all(left)
            &&& forall|i: int|
                0 <= i < left.len() ==> #[trigger] state.outcome_at(left, i) == Outcome::Nothing
            &&& state.after_all(left) == fresh
        }),
        ({
            let finished = FragmentedView::start().after_frames(read::binary_frames(payloads));
            ReassemblyView::fresh().abandoned(finished.fin) == ReassemblyView::fresh()
        }),
{
    let frames = read::binary_frames(payloads);
    let left = frames.skip(count);
    let fresh = ReassemblyView::fresh();
    let start = FragmentedView::start();
    read::law_binary_is_read_as_sent(payloads);
    assert(!start.after_frames(frames.take(count)).fin);
    assert(frames.take(payloads.len() as int) =~= frames);
    assert(start.after_frames(frames.take(payloads.len() as int)).fin);
    assert forall|i: int| 0 <= i < left.len() implies (#[trigger] left[i]).is_control()
        || left[i].is_continuation() && (left[i].is_final() <==> i == left.len() - 1) by {
        assert(left[i] == frames[count + i]);
    }
    law_rest_of_the_message_is_lost(fresh.abandoned(false), left);
    assert(!left.last().is_control());
}

/// Where a message comes to be read in fragments after some of its frames have been received, what
/// was received is the first fragment, and it does not finish the message. Of a message that is
/// being skipped nothing is handed out.
pub proof fn law_received_part_is_read_first(payloads: Seq<Seq<u8>>, count: int)
    requires
        0 < count < payloads.len(),
    ensures
        ({
            let state = ReassemblyView::fresh().after_all(read::binary_frames(payloads).take(count));
            let start = FragmentedView::start();
            let (fragment, reading, left) = start.taking_partial(state);
            &&& fragment == Some(
                Some(MessageView::Binary(read::flattened(payloads.take(count)))),
            )
            &&& !reading.fin
            &&& reading.staggered.len() == 0
            &&& left == ReassemblyView::fresh()
            &&& start.taking_partial(state.abandoned(false)) == (
                None::<Option<MessageView>>,
                start,
                state.abandoned(false),
            )
            &&& start.taking_partial(ReassemblyView::fresh()).0 is None
        }),
{
    lemma_gathered_frames(read::binary_frames(payloads), payloads, FrameType::Binary, count);
}

/// The same goes for text: what was received is handed out up to its last whole code point, and the
/// bytes behind that are held back for the next frame.
pub proof fn law_received_text_is_read_first(payloads: Seq<Seq<u8>>, count: int)
    requires
        0 < count < payloads.len(),
        valid_utf8(read::flattened(payloads)),
    ensures
        ({
            let state = ReassemblyView::fresh().after_all(read::text_frames(payloads).take(count));
            let received = read::flattened(payloads.take(count));
            let (fragment, reading, left) = FragmentedView::start().taking_partial(state);
            &&& fragment == Some(
                Some(MessageView::Text(decode_utf8(utf8::handed_out(received)))),
            )
            &&& reading.staggered == utf8::held_back(received)
            &&& !reading.fin
            &&& left == ReassemblyView::fresh()
        }),
{
    let received = read::flattened(payloads.take(count));
    let whole = read::flattened(payloads);
    lemma_gathered_frames(read::text_frames(payloads), payloads, FrameType::Text, count);
    read::lemma_flattened_prefix(payloads, count);
    assert(whole.take(received.len() as int) =~= received);
    utf8::law_prefix_of_text(whole, received.len() as int);
    assert(FragmentedView::start().staggered + received =~= received);
}

/// Wherever a connection stands, the rest of its message is skipped once reading was given up before
/// the message was finished, and what was received of it is kept until then. To give up a message
/// that is finished changes nothing.
pub proof fn law_giving_up_skips_the_rest(state: ReassemblyView)
    ensures
        state.abandoned(false).recovering,
        state.abandoned(false).partial == state.partial,
        state.abandoned(true) == state,
{
}

} // verus!
