//! The half of a connection that sends.

use flume::{Receiver, Sender};
use tokio::sync::oneshot;
use vstd::prelude::*;

use crate::batched;
use crate::batched::{Batch, Batched, History, Operation, Prioritized};
use crate::boundary::{ChannelReceiver, ChannelSender};
use crate::error::WebSocketError;
use crate::websocket::frame;
use crate::websocket::frame::{Frame, FrameView};
use crate::websocket::message::{Fragmentation, Message};
use crate::websocket::ops;
use crate::websocket::ops::{ClosePayload, PingPayload};
use crate::websocket::split::read;
use crate::websocket::split::read::{Event, EventView, ReactionView};

verus! {

/// The write half of a WebSocket connection.
/// This half can only send frames.
///
/// The sink of frames is driven from outside: each operation says which frame, if any, has to be
/// handed to it.
pub struct WebSocketWriteHalf<Si> {
    stream: Batched<Si, Frame>,
    fragmentation: Fragmentation,
    /// Event receiver
    receiver: ChannelReceiver<Event>,
    /// A flag that signals that the sink is trying to shut down or already has shut down
    shutdown: bool,
    /// A flag that is raised when we are the first party to send a close frame
    sent_closed: bool,
    /// Send pong wake up handles
    pong_sender: ChannelSender<oneshot::Sender<PingPayload>>,
}

/// The write half as a mathematical value.
#[verifier::ext_equal]
pub struct WriteView {
    /// The frames that wait to be handed to the sink, the next one first.
    pub queue: Seq<FrameView>,
    /// How messages are brought into frames.
    pub fragmentation: Fragmentation,
    /// Whether the sink is trying to shut down or already has shut down.
    pub shutdown: bool,
    /// Whether no close frame will be sent any more.
    pub sent_closed: bool,
}

impl WriteView {
    /// Whether messages are refused.
    pub open spec fn refuses(self) -> bool {
        self.shutdown || self.sent_closed
    }

    /// A half that sends no close frame any more is shut down.
    pub open spec fn well_formed(self) -> bool {
        self.sent_closed ==> self.shutdown
    }

    /// The frame that an event makes the half send, if any: a close frame is not echoed once one
    /// was sent.
    pub open spec fn answer(self, event: EventView) -> Option<FrameView> {
        match event {
            EventView::SendPongFrame(frame) => Some(frame),
            EventView::SendCloseFrameAndShutdown(frame) => if self.sent_closed {
                None
            } else {
                Some(frame)
            },
        }
    }

    /// Whether an event shuts the half down, once its answer is on the way.
    pub open spec fn closes_on(self, event: EventView) -> bool {
        event is SendCloseFrameAndShutdown && !self.sent_closed
    }

    /// The half after a frame was put before all that wait.
    pub open spec fn prioritizing(self, frame: FrameView) -> WriteView {
        WriteView { queue: seq![frame] + self.queue, ..self }
    }
}

/// What happened while it is being found out whether a message can be accepted.
#[derive(Debug)]
pub enum ReadyEvent {
    /// The question was asked.
    Begin,
    /// The sink was closed, or that failed.
    StreamClosed(Result<(), WebSocketError>),
    /// The sink can accept a frame.
    StreamReady,
    /// The sink took the frame that answers an event.
    FrameTaken {
        /// Whether the answer closes the connection.
        closing: bool,
    },
}

/// What to do next to find out whether a message can be accepted.
#[derive(Debug)]
pub enum ReadyAction {
    /// Close the sink.
    CloseStream,
    /// Wait until the sink can accept a frame.
    PollStream,
    /// Hand the sink a frame.
    StartSend {
        /// The frame that answers an event.
        frame: Frame,
        /// Whether the answer closes the connection.
        closing: bool,
    },
    /// The answer to the question.
    Return(Result<(), WebSocketError>),
}

/// What to do next while the events of the read half are being flushed.
#[derive(Debug, PartialEq, Eq)]
pub enum FlushAction {
    /// Send a frame, and go on.
    Send(Frame),
    /// Send a frame, shut down the connection, and go on.
    SendAndDrop(Frame),
    /// Go on with the next event.
    Skip,
    /// There is nothing left to do.
    Done,
}

/// What the flush of an event asks for, as a mathematical value.
#[verifier::ext_equal]
pub enum FlushActionView {
    Send(FrameView),
    SendAndDrop(FrameView),
    Skip,
    Done,
}

impl View for FlushAction {
    type V = FlushActionView;

    open spec fn view(&self) -> FlushActionView {
        match *self {
            FlushAction::Send(frame) => FlushActionView::Send(frame@),
            FlushAction::SendAndDrop(frame) => FlushActionView::SendAndDrop(frame@),
            FlushAction::Skip => FlushActionView::Skip,
            FlushAction::Done => FlushActionView::Done,
        }
    }
}

/// What to do next to send a control frame of one's own.
#[derive(Debug)]
pub enum SendAction<T> {
    /// Send a frame that answers an event, and ask again.
    Answer {
        /// The frame that answers the event.
        frame: Frame,
        /// Whether the connection has to be shut down after it.
        dropping: bool,
        /// What is still to be sent.
        later: T,
    },
    /// An event needs no answer: ask again.
    Skip(T),
    /// Send the frame.
    Send(Frame),
    /// The frame must not be sent.
    Refuse(WebSocketError),
}

/// What happened while the events of the read half are being flushed from a poll.
#[derive(Debug, Clone, Copy, PartialEq, Eq, Structural)]
pub enum PollFlushEvent {
    /// The flush was asked for.
    Begin,
    /// The sink can accept a frame.
    StreamReady,
    /// The sink took the frame that answers an event.
    FrameTaken {
        /// Whether the answer closes the connection.
        closing: bool,
    },
    /// The sink was flushed.
    StreamFlushed,
    /// The sink was closed.
    StreamClosed,
}

/// What to do next while the events of the read half are being flushed from a poll.
#[derive(Debug, PartialEq, Eq)]
pub enum PollFlushAction {
    /// Wait until the sink can accept a frame.
    PollStream,
    /// Hand the sink a frame.
    StartSend {
        /// The frame that answers an event.
        frame: Frame,
        /// Whether the answer closes the connection.
        closing: bool,
    },
    /// Flush the sink.
    FlushStream,
    /// Close the sink.
    CloseStream,
    /// There is nothing left to do.
    Done,
}

/// The view of an optional event.
pub open spec fn optional_event(event: Option<Event>) -> Option<EventView> {
    match event {
        Some(event) => Some(event@),
        None => None,
    }
}

impl WriteView {
    /// What the flush of an event asks for: a half that is shut down ignores what is left.
    pub open spec fn flushing(self, event: Option<EventView>) -> FlushActionView {
        match event {
            None => FlushActionView::Done,
            Some(event) => if self.shutdown {
                FlushActionView::Done
            } else {
                match self.answer(event) {
                    None => FlushActionView::Skip,
                    Some(frame) => if self.closes_on(event) {
                        FlushActionView::SendAndDrop(frame)
                    } else {
                        FlushActionView::Send(frame)
                    },
                }
            },
        }
    }

    /// Whether an action is the one that the next event asks for while it is being found out
    /// whether a message can be accepted, and the half is afterwards as it should be. The answer
    /// to an event goes before all frames that wait.
    pub open spec fn feeds(
        self,
        event: Option<EventView>,
        action: ReadyAction,
        after: WriteView,
    ) -> bool {
        match event {
            None => action == ReadyAction::Return(Ok(())) && after == self,
            Some(event) => match self.answer(event) {
                None => action is PollStream && after == self,
                Some(answer) => if self.queue.len() == 0 {
                    &&& action matches ReadyAction::StartSend { frame, closing }
                    &&& frame@ == answer
                    &&& closing == self.closes_on(event)
                    &&& after == self
                } else {
                    &&& action is PollStream
                    &&& after == (WriteView {
                        shutdown: self.shutdown || self.closes_on(event),
                        ..self.prioritizing(answer)
                    })
                },
            },
        }
    }
}

impl WriteView {
    /// The half once its sink is closed for good.
    pub open spec fn dropped(self) -> WriteView {
        WriteView { shutdown: true, sent_closed: true, ..self }
    }

    /// Whether an action is the one that the next event asks for while a frame of one's own is to
    /// be sent: first all events are flushed, then a half that is closed refuses, and only then
    /// the frame is sent.
    pub open spec fn sends<T>(
        self,
        event: Option<EventView>,
        frame: FrameView,
        later: T,
        action: SendAction<T>,
    ) -> bool {
        match self.flushing(event) {
            FlushActionView::Send(answer) => {
                &&& action matches SendAction::Answer { frame, dropping, later: rest }
                &&& frame@ == answer
                &&& !dropping
                &&& rest == later
            },
            FlushActionView::SendAndDrop(answer) => {
                &&& action matches SendAction::Answer { frame, dropping, later: rest }
                &&& frame@ == answer
                &&& dropping
                &&& rest == later
            },
            FlushActionView::Skip => action == SendAction::Skip(later),
            FlushActionView::Done => if self.refuses() {
                action == SendAction::<T>::Refuse(WebSocketError::WebSocketClosedError)
            } else {
                action matches SendAction::Send(f) && f@ == frame
            },
        }
    }

    /// Whether an action is the one that the next event asks for while the connection is to be
    /// closed: as for any other frame, but that a close frame of the peer needs no echo besides.
    pub open spec fn closes<T>(
        self,
        event: Option<EventView>,
        frame: FrameView,
        later: T,
        action: SendAction<T>,
    ) -> bool {
        match self.flushing(event) {
            FlushActionView::SendAndDrop(_) => action == SendAction::Skip(later),
            _ => self.sends(event, frame, later, action),
        }
    }

    /// All frames that are sent, in order, from when the connection is to be closed by a frame while
    /// the given events wait, and whether it was sent.
    pub open spec fn sent_over_closing(self, events: Seq<EventView>, frame: FrameView) -> (
        Seq<FrameView>,
        bool,
    )
        decreases events.len(),
    {
        let next = if events.len() == 0 {
            None
        } else {
            Some(events[0])
        };
        match self.flushing(next) {
            FlushActionView::Done => if self.refuses() {
                (Seq::empty(), false)
            } else {
                (seq![frame], true)
            },
            FlushActionView::Send(answer) if events.len() > 0 => {
                let (rest, sent) = self.sent_over_closing(events.skip(1), frame);
                (seq![answer] + rest, sent)
            },
            _ if events.len() > 0 => self.sent_over_closing(events.skip(1), frame),
            _ => (Seq::empty(), false),
        }
    }

    /// All frames that are sent, in order, from when a frame of one's own is to be sent while the
    /// given events wait, and whether it was sent.
    pub open spec fn sent_over(self, events: Seq<EventView>, frame: FrameView) -> (
        Seq<FrameView>,
        bool,
    )
        decreases events.len(),
    {
        let next = if events.len() == 0 {
            None
        } else {
            Some(events[0])
        };
        match self.flushing(next) {
            FlushActionView::Done => if self.refuses() {
                (Seq::empty(), false)
            } else {
                (seq![frame], true)
            },
            FlushActionView::Skip if events.len() > 0 => self.sent_over(events.skip(1), frame),
            FlushActionView::Send(answer) if events.len() > 0 => {
                let (rest, sent) = self.sent_over(events.skip(1), frame);
                (seq![answer] + rest, sent)
            },
            FlushActionView::SendAndDrop(answer) if events.len() > 0 => {
                let (rest, sent) = self.dropped().sent_over(events.skip(1), frame);
                (seq![answer] + rest, sent)
            },
            _ => (Seq::empty(), false),
        }
    }

    /// What to do next to find out whether a message can be accepted, and the half then, after
    /// anything but that the sink can accept a frame.
    pub open spec fn getting_ready(self, event: ReadyEvent) -> (ReadyAction, WriteView) {
        match event {
            ReadyEvent::Begin if self.shutdown => (ReadyAction::CloseStream, self),
            ReadyEvent::StreamClosed(Ok(())) => (
                ReadyAction::Return(Err(WebSocketError::WebSocketClosedError)),
                self,
            ),
            ReadyEvent::StreamClosed(Err(error)) => (ReadyAction::Return(Err(error)), self),
            ReadyEvent::FrameTaken { closing } => (
                ReadyAction::PollStream,
                WriteView { shutdown: self.shutdown || closing, ..self },
            ),
            _ => (ReadyAction::PollStream, self),
        }
    }

    /// What a poll does next, and the half then, after anything but that the sink can accept a frame.
    pub open spec fn polling(self, event: PollFlushEvent) -> (PollFlushAction, WriteView) {
        match event {
            PollFlushEvent::Begin if self.sent_closed => (PollFlushAction::Done, self),
            PollFlushEvent::Begin if self.shutdown => (PollFlushAction::CloseStream, self),
            PollFlushEvent::FrameTaken { closing } => (
                PollFlushAction::PollStream,
                WriteView { shutdown: self.shutdown || closing, ..self },
            ),
            PollFlushEvent::StreamFlushed => (PollFlushAction::Done, self),
            PollFlushEvent::StreamClosed => (PollFlushAction::Done, self.dropped()),
            _ => (PollFlushAction::PollStream, self),
        }
    }

    /// What a poll does next, once an event was fed: when none is left a half that is shut down
    /// closes its sink, and any other flushes it.
    pub open spec fn poll_flush_action(self, fed: ReadyAction) -> PollFlushAction {
        match fed {
            ReadyAction::StartSend { frame, closing } => PollFlushAction::StartSend {
                frame,
                closing,
            },
            ReadyAction::Return(_) => if self.shutdown {
                PollFlushAction::CloseStream
            } else {
                PollFlushAction::FlushStream
            },
            _ => PollFlushAction::PollStream,
        }
    }
}

/// The frames of a batch that was accepted, in order.
pub open spec fn batch_views(batch: Batch<Frame>) -> Seq<FrameView> {
    match batch.now {
        Some(first) => seq![first@] + frame::frame_views(batch.later@),
        None => frame::frame_views(batch.later@),
    }
}

impl<Si> WebSocketWriteHalf<Si> {
    /// The state of the half.
    pub closed spec fn state(&self) -> WriteView {
        WriteView {
            queue: frame::frame_views(self.stream.queue()),
            fragmentation: self.fragmentation,
            shutdown: self.shutdown,
            sent_closed: self.sent_closed,
        }
    }

    /// The frame sink and the frames that wait for it.
    pub closed spec fn frames(&self) -> Batched<Si, Frame> {
        self.stream
    }

    /// The two channels to the read half.
    pub closed spec fn channels(&self) -> (Receiver<Event>, Sender<oneshot::Sender<PingPayload>>) {
        (self.receiver.end(), self.pong_sender.end())
    }

    /// The events of the read half that were taken out of the channel, in order.
    pub closed spec fn taken(&self) -> Seq<EventView> {
        read::event_views(self.receiver.taken())
    }

    /// The handles of those who wait for a pong that were passed on to the read half, in order.
    pub closed spec fn passed_on(&self) -> Seq<oneshot::Sender<PingPayload>> {
        self.pong_sender.sent()
    }

    /// The handles that were to be passed on to the read half, in order, whether or not it was still
    /// there.
    pub closed spec fn offered(&self) -> Seq<oneshot::Sender<PingPayload>> {
        self.pong_sender.offered()
    }

    /// Whether there was no event of the read half the last time that one was asked for.
    pub closed spec fn exhausted(&self) -> bool {
        self.receiver.exhausted()
    }

    /// Whether nothing but the next event, if there was one, went through the channels since
    /// `before`, and the sink is the same.
    pub open spec fn took(&self, before: &Self, next: Option<EventView>) -> bool {
        &&& self.channels() == before.channels()
        &&& self.passed_on() == before.passed_on()
        &&& self.offered() == before.offered()
        &&& self.taken() == match next {
            Some(event) => before.taken().push(event),
            None => before.taken(),
        }
        &&& self.frames().wrapped() == before.frames().wrapped()
    }

    /// A write half at the start of a connection.
    pub fn new(
        stream: Batched<Si, Frame>,
        fragmentation: Fragmentation,
        receiver: Receiver<Event>,
        pong_sender: Sender<oneshot::Sender<PingPayload>>,
    ) -> (r: Self)
        ensures
            r.state() == (WriteView {
                queue: frame::frame_views(stream.queue()),
                fragmentation,
                shutdown: false,
                sent_closed: false,
            }),
            r.state().well_formed(),
            r.frames() == stream,
            r.channels() == (receiver, pong_sender),
            r.taken().len() == 0,
            r.passed_on().len() == 0,
            r.offered().len() == 0,
            !r.exhausted(),
    {
        WebSocketWriteHalf {
            stream,
            fragmentation,
            receiver: ChannelReceiver::new(receiver),
            shutdown: false,
            sent_closed: false,
            pong_sender: ChannelSender::new(pong_sender),
        }
    }

    /// Access the frame sink.
    pub fn stream_mut(&mut self) -> (r: &mut Batched<Si, Frame>)
        ensures
            *r == old(self).frames(),
            final(self).frames() == *final(r),
            final(self).state() == (WriteView {
                queue: frame::frame_views(final(r).queue()),
                ..old(self).state()
            }),
            final(self).channels() == old(self).channels(),
            final(self).taken() == old(self).taken(),
            final(self).passed_on() == old(self).passed_on(),
            final(self).offered() == old(self).offered(),
            final(self).exhausted() == old(self).exhausted(),
    {
        &mut self.stream
    }

    /// Whether [`WebSocketWriteHalf::start_send`] can bring the message into frames.
    pub fn can_send(&self, item: &Message) -> (r: bool)
        ensures
            r == (self.state().refuses() || self.state().fragmentation.can_carry(
                item@.bytes().len(),
            )),
    {
        self.shutdown || self.sent_closed || self.fragmentation.can_fragment(item)
    }

    /// Accepts a message: it is brought into frames, of which the first goes to the sink at once
    /// if no other waits before it. The rest goes into the buffer once that has succeeded.
    pub fn start_send(&self, item: Message) -> (r: Result<Batch<Frame>, WebSocketError>)
        requires
            self.state().refuses() || self.state().fragmentation.can_carry(item@.bytes().len()),
        ensures
            if self.state().refuses() {
                r == Err::<Batch<Frame>, WebSocketError>(WebSocketError::WebSocketClosedError)
            } else {
                &&& r matches Ok(batch)
                &&& batch_views(batch) == self.state().fragmentation.frames(item@)
                &&& batch.now is Some <==> self.state().queue.len() == 0
                    && self.state().fragmentation.frames(item@).len() > 0
            },
    {
        if self.shutdown || self.sent_closed {
            return Err(WebSocketError::WebSocketClosedError);
        }
        let frames: Vec<Frame> = self.fragmentation.fragment(item);
        let ghost all = frames@;
        let batch: Batch<Frame> = self.stream.start_send_batch(frames);
        proof {
            if batch.now is Some {
                assert(frame::frame_views(all) =~= seq![all[0]@] + frame::frame_views(all.skip(1)));
            } else {
                assert(all.skip(0) =~= all);
            }
        }
        Ok(batch)
    }

    /// The next event of the read half, if there is one at the moment.
    fn next_event(&mut self) -> (r: Option<Event>)
        ensures
            final(self).took(old(self), optional_event(r)),
            final(self).exhausted() == (r is None),
            final(self).state() == old(self).state(),
            final(self).frames() == old(self).frames(),
    {
        let ghost before = self.receiver.taken();
        let next: Option<Event> = self.receiver.next();
        proof {
            if next is Some {
                let event = next->0;
                assert(read::event_views(before.push(event)) =~= read::event_views(before).push(
                    event@,
                ));
            }
        }
        next
    }

    /// Finds out whether a message can be accepted. A half that is shut down closes its sink and
    /// refuses; any other first answers the events of the read half.
    pub fn poll_ready(&mut self, event: ReadyEvent) -> (r: ReadyAction)
        ensures
            !(event is StreamReady) ==> final(self).took(old(self), None),
            !(event is StreamReady) ==> (r, final(self).state())
                == old(self).state().getting_ready(event),
            old(self).state().well_formed() ==> final(self).state().well_formed(),
            match event {
                ReadyEvent::Begin => {
                    &&& r == if old(self).state().shutdown {
                        ReadyAction::CloseStream
                    } else {
                        ReadyAction::PollStream
                    }
                    &&& final(self).state() == old(self).state()
                },
                ReadyEvent::StreamClosed(result) => {
                    &&& r == ReadyAction::Return(
                        Err(
                            match result {
                                Ok(()) => WebSocketError::WebSocketClosedError,
                                Err(error) => error,
                            },
                        ),
                    )
                    &&& final(self).state() == old(self).state()
                },
                ReadyEvent::StreamReady => exists|next: Option<EventView>|
                    {
                        &&& #[trigger] old(self).state().feeds(next, r, final(self).state())
                        &&& final(self).took(old(self), next)
                        &&& final(self).exhausted() == (next is None)
                    },
                ReadyEvent::FrameTaken { closing } => {
                    &&& r is PollStream
                    &&& final(self).state() == (WriteView {
                        shutdown: old(self).state().shutdown || closing,
                        ..old(self).state()
                    })
                },
            },
    {
        match event {
            ReadyEvent::Begin => if self.shutdown {
                ReadyAction::CloseStream
            } else {
                ReadyAction::PollStream
            },
            ReadyEvent::StreamClosed(Ok(())) => ReadyAction::Return(
                Err(WebSocketError::WebSocketClosedError),
            ),
            ReadyEvent::StreamClosed(Err(error)) => ReadyAction::Return(Err(error)),
            ReadyEvent::StreamReady => {
                let next: Option<Event> = self.next_event();
                self.feed_event(next)
            },
            ReadyEvent::FrameTaken { closing } => {
                if closing {
                    self.shutdown = true;
                }
                ReadyAction::PollStream
            },
        }
    }

    /// Answers an event of the read half, while it is being found out whether a message can be
    /// accepted. Events get priority over other frames.
    pub fn feed_event(&mut self, event: Option<Event>) -> (r: ReadyAction)
        ensures
            old(self).state().feeds(optional_event(event), r, final(self).state()),
            final(self).took(old(self), None),
            final(self).exhausted() == old(self).exhausted(),
            old(self).state().well_formed() ==> final(self).state().well_formed(),
    {
        let (frame, closing): (Frame, bool) = match event {
            None => {
                return ReadyAction::Return(Ok(()));
            },
            Some(Event::SendPongFrame(frame)) => (frame, false),
            Some(Event::SendCloseFrameAndShutdown(frame)) => {
                if self.sent_closed {
                    return ReadyAction::PollStream;
                }
                (frame, true)
            },
        };
        let ghost before = self.stream.queue();
        let ghost answer = frame@;
        match self.stream.start_send_prioritized(Prioritized(frame)) {
            Some(frame) => {
                assert(before =~= Seq::empty());
                assert(self.stream.queue() =~= before);
                ReadyAction::StartSend { frame, closing }
            },
            None => {
                if closing {
                    self.shutdown = true;
                }
                assert(seq![frame].skip(0) =~= seq![frame]);
                assert(frame::frame_views(self.stream.queue()) =~= seq![answer]
                    + frame::frame_views(before));
                ReadyAction::PollStream
            },
        }
    }

    /// Flushes incoming events from the read half. If the read half received a Ping frame,
    /// a Pong frame will be sent. If the read half received a Close frame,
    /// an echoed Close frame will be sent and the WebSocket will close.
    pub fn flush_events(&mut self) -> (r: FlushAction)
        ensures
            final(self).state() == old(self).state(),
            final(self).frames() == old(self).frames(),
            exists|next: Option<EventView>|
                {
                    &&& r@ == #[trigger] old(self).state().flushing(next)
                    &&& final(self).took(old(self), next)
                    &&& final(self).exhausted() == (next is None)
                },
    {
        let next: Option<Event> = self.next_event();
        self.flush_event(next)
    }

    /// What the flush of an event asks for.
    pub fn flush_event(&self, event: Option<Event>) -> (r: FlushAction)
        ensures
            r@ == self.state().flushing(optional_event(event)),
    {
        if self.shutdown {
            return FlushAction::Done;
        }
        match event {
            None => FlushAction::Done,
            Some(Event::SendPongFrame(frame)) => FlushAction::Send(frame),
            Some(Event::SendCloseFrameAndShutdown(frame)) => if self.sent_closed {
                FlushAction::Skip
            } else {
                FlushAction::SendAndDrop(frame)
            },
        }
    }

    /// Flushes incoming events from the read half while something is being received: they are
    /// answered before all frames that wait, and the sink is flushed; or closed, and the half
    /// dropped, if the connection is closing.
    pub fn poll_flush_events(&mut self, event: PollFlushEvent) -> (r: PollFlushAction)
        ensures
            !(event is StreamReady) ==> final(self).took(old(self), None),
            !(event is StreamReady) ==> (r, final(self).state()) == old(self).state().polling(event),
            old(self).state().well_formed() ==> final(self).state().well_formed(),
            match event {
                PollFlushEvent::Begin => {
                    &&& r == if old(self).state().sent_closed {
                        PollFlushAction::Done
                    } else if old(self).state().shutdown {
                        PollFlushAction::CloseStream
                    } else {
                        PollFlushAction::PollStream
                    }
                    &&& final(self).state() == old(self).state()
                },
                PollFlushEvent::StreamReady => exists|next: Option<EventView>, fed: ReadyAction|
                    {
                        &&& #[trigger] old(self).state().feeds(next, fed, final(self).state())
                        &&& r == final(self).state().poll_flush_action(fed)
                        &&& final(self).took(old(self), next)
                        &&& final(self).exhausted() == (next is None)
                    },
                PollFlushEvent::FrameTaken { closing } => {
                    &&& r == PollFlushAction::PollStream
                    &&& final(self).state() == (WriteView {
                        shutdown: old(self).state().shutdown || closing,
                        ..old(self).state()
                    })
                },
                PollFlushEvent::StreamFlushed => {
                    &&& r == PollFlushAction::Done
                    &&& final(self).state() == old(self).state()
                },
                PollFlushEvent::StreamClosed => {
                    &&& r == PollFlushAction::Done
                    &&& final(self).state() == old(self).state().dropped()
                },
            },
    {
        match event {
            PollFlushEvent::Begin => if self.sent_closed {
                PollFlushAction::Done
            } else if self.shutdown {
                PollFlushAction::CloseStream
            } else {
                PollFlushAction::PollStream
            },
            PollFlushEvent::StreamReady => {
                let next: Option<Event> = self.next_event();
                self.poll_flush_event(next)
            },
            PollFlushEvent::FrameTaken { closing } => {
                if closing {
                    self.shutdown = true;
                }
                PollFlushAction::PollStream
            },
            PollFlushEvent::StreamFlushed => PollFlushAction::Done,
            PollFlushEvent::StreamClosed => {
                self.drop();
                PollFlushAction::Done
            },
        }
    }

    /// What a poll does about an event of the read half.
    pub fn poll_flush_event(&mut self, event: Option<Event>) -> (r: PollFlushAction)
        ensures
            final(self).took(old(self), None),
            final(self).exhausted() == old(self).exhausted(),
            old(self).state().well_formed() ==> final(self).state().well_formed(),
            exists|fed: ReadyAction|
                {
                    &&& #[trigger] old(self).state().feeds(
                        optional_event(event),
                        fed,
                        final(self).state(),
                    )
                    &&& r == final(self).state().poll_flush_action(fed)
                },
    {
        let fed: ReadyAction = self.feed_event(event);
        let ghost action = fed;
        assert(old(self).state().feeds(optional_event(event), action, self.state()));
        match fed {
            ReadyAction::StartSend { frame, closing } => PollFlushAction::StartSend {
                frame,
                closing,
            },
            ReadyAction::Return(_) => if self.shutdown {
                PollFlushAction::CloseStream
            } else {
                PollFlushAction::FlushStream
            },
            _ => PollFlushAction::PollStream,
        }
    }

    /// Sends a Ping frame: first the events of the read half are flushed, one with each call, then
    /// a half that is closed refuses, and otherwise the frame is sent. Once it is, the one who
    /// waits for the pong is passed on with [`WebSocketWriteHalf::ping_sent`].
    pub fn send_ping(&mut self, payload: Option<Vec<u8>>) -> (r: SendAction<Option<Vec<u8>>>)
        ensures
            final(self).state() == old(self).state(),
            final(self).frames() == old(self).frames(),
            exists|next: Option<EventView>|
                {
                    &&& #[trigger] old(self).state().sends(
                        next,
                        FrameView::Ping { payload: frame::optional_bytes(payload) },
                        payload,
                        r,
                    )
                    &&& final(self).took(old(self), next)
                    &&& final(self).exhausted() == (next is None)
                },
    {
        let next: Option<Event> = self.next_event();
        self.send_ping_after(next, payload)
    }

    /// What sending a Ping frame comes to, given the next event of the read half.
    pub fn send_ping_after(&self, event: Option<Event>, payload: Option<Vec<u8>>) -> (r: SendAction<
        Option<Vec<u8>>,
    >)
        ensures
            self.state().sends(
                optional_event(event),
                FrameView::Ping { payload: frame::optional_bytes(payload) },
                payload,
                r,
            ),
    {
        match self.flush_event(event) {
            FlushAction::Send(frame) => SendAction::Answer {
                frame,
                dropping: false,
                later: payload,
            },
            FlushAction::SendAndDrop(frame) => SendAction::Answer {
                frame,
                dropping: true,
                later: payload,
            },
            FlushAction::Skip => SendAction::Skip(payload),
            FlushAction::Done => if self.shutdown || self.sent_closed {
                SendAction::Refuse(WebSocketError::WebSocketClosedError)
            } else {
                SendAction::Send(Frame::Ping { payload })
            },
        }
    }

    /// Once a ping is on its way, passes the handle of the one who waits for the pong on to the
    /// read half. If that is gone, nobody will wake up.
    pub fn ping_sent(&mut self, handle: oneshot::Sender<PingPayload>) -> (passed_on: bool)
        ensures
            final(self).state() == old(self).state(),
            final(self).frames() == old(self).frames(),
            final(self).channels() == old(self).channels(),
            final(self).taken() == old(self).taken(),
            final(self).exhausted() == old(self).exhausted(),
            final(self).offered() == old(self).offered().push(handle),
            final(self).passed_on() == if passed_on {
                old(self).passed_on().push(handle)
            } else {
                old(self).passed_on()
            },
    {
        self.pong_sender.offer(handle).is_ok()
    }

    /// Whether the sink is trying to shut down or already has shut down.
    pub fn is_shutdown(&self) -> (r: bool)
        ensures
            r == self.state().shutdown,
    {
        self.shutdown
    }

    /// Starts to close the sink: from now on the half refuses messages.
    pub fn begin_close(&mut self)
        ensures
            final(self).state() == (WriteView { shutdown: true, ..old(self).state() }),
            final(self).frames() == old(self).frames(),
            final(self).took(old(self), None),
            final(self).state().refuses(),
            final(self).state().well_formed(),
    {
        self.shutdown = true;
    }

    /// Closes the connection with the given body. A status that may not be sent is refused. As with
    /// a ping the events of the read half are flushed first, one with each call, then a half that
    /// is closed refuses, and otherwise the frame is sent. A close frame of the peer is not echoed:
    /// the frame that is about to be sent answers it. Once that is sent, the sink is closed and the
    /// half dropped.
    pub fn close(&mut self, payload: Option<ClosePayload>) -> (r: SendAction<Option<ClosePayload>>)
        ensures
            final(self).state() == old(self).state(),
            final(self).frames() == old(self).frames(),
            match ops::close_frame_view(ops::optional_payload(payload)) {
                Ok(frame) => exists|next: Option<EventView>|
                    {
                        &&& #[trigger] old(self).state().closes(next, frame, payload, r)
                        &&& final(self).took(old(self), next)
                        &&& final(self).exhausted() == (next is None)
                    },
                Err(error) => {
                    &&& r == SendAction::<Option<ClosePayload>>::Refuse(error)
                    &&& final(self).took(old(self), None)
                },
            },
    {
        if !has_sendable_status(&payload) {
            return SendAction::Refuse(WebSocketError::BadStatus);
        }
        let next: Option<Event> = self.next_event();
        self.close_after(next, payload)
    }

    /// What closing the connection comes to, given the next event of the read half.
    pub fn close_after(&self, event: Option<Event>, payload: Option<ClosePayload>) -> (r:
        SendAction<Option<ClosePayload>>)
        ensures
            match ops::close_frame_view(ops::optional_payload(payload)) {
                Ok(frame) => self.state().closes(optional_event(event), frame, payload, r),
                Err(error) => r == SendAction::<Option<ClosePayload>>::Refuse(error),
            },
    {
        if !has_sendable_status(&payload) {
            return SendAction::Refuse(WebSocketError::BadStatus);
        }
        match self.flush_event(event) {
            FlushAction::Send(frame) => SendAction::Answer {
                frame,
                dropping: false,
                later: payload,
            },
            FlushAction::SendAndDrop(_) => SendAction::Skip(payload),
            FlushAction::Skip => SendAction::Skip(payload),
            FlushAction::Done => if self.shutdown || self.sent_closed {
                SendAction::Refuse(WebSocketError::WebSocketClosedError)
            } else {
                match ops::close_frame(payload) {
                    Ok(frame) => SendAction::Send(frame),
                    Err(error) => SendAction::Refuse(error),
                }
            },
        }
    }

    /// The channel that the events of the read half come out of.
    pub fn events(&self) -> (r: &Receiver<Event>)
        ensures
            *r == self.channels().0,
    {
        self.receiver.get_ref()
    }

    /// Whether the peer has closed the connection, too, once a close frame was sent: the read half
    /// has told of its close frame, or is gone.
    pub fn is_closed_by_peer(event: &Option<Event>) -> (r: bool)
        ensures
            r == !(optional_event(*event) matches Some(EventView::SendPongFrame(_))),
    {
        match event {
            Some(Event::SendPongFrame(_)) => false,
            _ => true,
        }
    }

    /// Once the sink is closed, makes sure that no second close frame is sent after receiving the
    /// one that the peer echoes.
    pub fn drop(&mut self)
        ensures
            final(self).state() == old(self).state().dropped(),
            final(self).frames() == old(self).frames(),
            final(self).took(old(self), None),
            final(self).state().refuses(),
            final(self).state().well_formed(),
    {
        self.shutdown = true;
        self.sent_closed = true;
    }
}

/// Whether a close frame with the given body may be sent.
fn has_sendable_status(payload: &Option<ClosePayload>) -> (r: bool)
    ensures
        r == ops::close_frame_view(ops::optional_payload(*payload)) is Ok,
{
    match payload {
        Some(payload) => payload.status.sendable(),
        None => true,
    }
}

/// The error of a sink that could not be closed: one in writing is one in shutting down.
pub fn close_error(error: WebSocketError) -> (r: WebSocketError)
    ensures
        r == match error {
            WebSocketError::WriteError(error) => WebSocketError::ShutdownError(error),
            _ => error,
        },
{
    match error {
        WebSocketError::WriteError(error) => WebSocketError::ShutdownError(error),
        error => error,
    }
}

/// A ping that the read half receives makes the write half send a pong with the same payload: when
/// the half is flushed and not shut down, and when a message is about to be sent, in which case the
/// pong is handed to the sink at once or goes before all frames that wait.
pub proof fn law_ping_is_answered(
    payload: Option<Seq<u8>>,
    half: WriteView,
    action: ReadyAction,
    after: WriteView,
)
    ensures
        read::reaction(FrameView::Ping { payload }) matches ReactionView::Notify(event) && {
            let pong = FrameView::Pong { payload };
            &&& !half.shutdown ==> half.flushing(Some(event)) == FlushActionView::Send(pong)
            &&& half.feeds(Some(event), action, after) ==> {
                ||| (action matches ReadyAction::StartSend { frame, closing } && frame@ == pong
                    && !closing && half.queue.len() == 0 && after == half)
                ||| (action is PollStream && after.queue == seq![pong] + half.queue
                    && after.shutdown == half.shutdown)
            }
        },
{
}

/// A close frame that the read half receives makes the write half echo it and shut down, if it has
/// not closed the connection itself. Otherwise nothing is sent: the two close frames have been
/// exchanged.
pub proof fn law_close_is_echoed_once(
    payload: Option<(u16, Seq<char>)>,
    half: WriteView,
    action: ReadyAction,
    after: WriteView,
)
    ensures
        read::reaction(FrameView::Close { payload }) matches ReactionView::Notify(event) && {
            let close = FrameView::Close { payload };
            &&& !half.sent_closed && !half.shutdown ==> half.flushing(Some(event))
                == FlushActionView::SendAndDrop(close)
            &&& !half.sent_closed && half.feeds(Some(event), action, after) ==> {
                ||| (action matches ReadyAction::StartSend { frame, closing } && frame@ == close
                    && closing && half.queue.len() == 0)
                ||| (action is PollStream && after.queue == seq![close] + half.queue
                    && after.shutdown)
            }
            &&& half.sent_closed && half.feeds(Some(event), action, after) ==> action is PollStream
                && after == half
        },
{
}

/// The frames of a run of events.
pub open spec fn event_frames(events: Seq<EventView>) -> Seq<FrameView> {
    Seq::new(
        events.len(),
        |i: int|
            match events[i] {
                EventView::SendPongFrame(frame) => frame,
                EventView::SendCloseFrameAndShutdown(frame) => frame,
            },
    )
}

/// Sending a control frame of one's own flushes the events of the read half first: all pongs that
/// are due are sent, in order, then the frame, and nothing else.
pub proof fn law_events_are_flushed_before_a_send(
    half: WriteView,
    events: Seq<EventView>,
    frame: FrameView,
)
    requires
        !half.refuses(),
        forall|i: int| 0 <= i < events.len() ==> (#[trigger] events[i]) is SendPongFrame,
    ensures
        half.sent_over(events, frame) == (event_frames(events).push(frame), true),
    decreases events.len(),
{
    if events.len() == 0 {
        assert(event_frames(events).push(frame) =~= seq![frame]);
    } else {
        let rest = events.skip(1);
        assert forall|i: int| 0 <= i < rest.len() implies (#[trigger] rest[i]) is SendPongFrame by {
            assert(rest[i] == events[i + 1]);
        }
        law_events_are_flushed_before_a_send(half, rest, frame);
        assert(events[0] is SendPongFrame);
        assert(seq![event_frames(events)[0]] + event_frames(rest).push(frame) =~= event_frames(
            events,
        ).push(frame));
    }
}

/// If a close frame of the peer waits to be echoed while a frame is to be sent that does not close
/// the connection, the echo is the last frame that is sent, and the frame of one's own is refused.
pub proof fn law_nothing_is_sent_after_the_echo(
    half: WriteView,
    events: Seq<EventView>,
    close: int,
    frame: FrameView,
)
    requires
        !half.refuses(),
        0 <= close < events.len(),
        events[close] is SendCloseFrameAndShutdown,
        forall|i: int| 0 <= i < close ==> (#[trigger] events[i]) is SendPongFrame,
    ensures
        half.sent_over(events, frame) == (event_frames(events.take(close + 1)), false),
    decreases events.len(),
{
    let rest = events.skip(1);
    let first = event_frames(events)[0];
    if close == 0 {
        assert(half.dropped().sent_over(rest, frame) == (Seq::<FrameView>::empty(), false));
        assert(seq![first] + Seq::<FrameView>::empty() =~= event_frames(events.take(1)));
    } else {
        assert forall|i: int| 0 <= i < close - 1 implies (#[trigger] rest[i]) is SendPongFrame by {
            assert(rest[i] == events[i + 1]);
        }
        law_nothing_is_sent_after_the_echo(half, rest, close - 1, frame);
        assert(events[0] is SendPongFrame);
        assert(seq![first] + event_frames(rest.take(close)) =~= event_frames(
            events.take(close + 1),
        ));
    }
}

/// The pongs that a run of events asks for.
pub open spec fn pongs_due(events: Seq<EventView>) -> Seq<FrameView>
    decreases events.len(),
{
    if events.len() == 0 {
        Seq::empty()
    } else {
        match events[0] {
            EventView::SendPongFrame(frame) => seq![frame] + pongs_due(events.skip(1)),
            _ => pongs_due(events.skip(1)),
        }
    }
}

/// A half that is not closed yet is closed by one last frame, whatever events wait: all pongs that
/// are due are sent, in order, then the close frame, and nothing else. That goes for a connection
/// that the peer has closed, too.
pub proof fn law_closing_sends_one_last_frame(
    half: WriteView,
    events: Seq<EventView>,
    frame: FrameView,
)
    requires
        !half.refuses(),
    ensures
        half.sent_over_closing(events, frame) == (pongs_due(events).push(frame), true),
    decreases events.len(),
{
    if events.len() == 0 {
        assert(pongs_due(events).push(frame) =~= seq![frame]);
    } else {
        let rest = events.skip(1);
        law_closing_sends_one_last_frame(half, rest, frame);
        if let EventView::SendPongFrame(pong) = events[0] {
            assert(seq![pong] + pongs_due(rest).push(frame) =~= pongs_due(events).push(frame));
        }
    }
}

/// Answers to events never get in between the data: whatever is sent, queued, flushed and answered,
/// the sink gets the data frames in the order in which they were accepted.
pub proof fn law_data_frames_stay_in_order(operations: Seq<Operation<FrameView>>)
    requires
        forall|i: int|
            0 <= i < operations.len() ==> ((#[trigger] operations[i]) matches Operation::Prioritize(
                frame,
            ) ==> frame.is_control()),
    ensures
        frame::data_only(
            (History { sent: Seq::empty(), queue: Seq::empty() }).after_all(operations).order(),
        ) == frame::data_only(batched::accepted(operations)),
    decreases operations.len(),
{
    let start = History::<FrameView> { sent: Seq::empty(), queue: Seq::empty() };
    if operations.len() == 0 {
        assert(start.order() =~= Seq::empty());
    } else {
        let before = operations.drop_last();
        let last = operations.last();
        assert forall|i: int| 0 <= i < before.len() implies ((
        #[trigger] before[i]) matches Operation::Prioritize(frame) ==> frame.is_control()) by {
            assert(before[i] == operations[i]);
        }
        law_data_frames_stay_in_order(before);
        let history = start.after_all(before);
        batched::law_order_after_operation(history, last);
        frame::lemma_data_only_concat(history.sent, history.queue);
        match last {
            Operation::Send(items) => {
                frame::lemma_data_only_concat(history.order(), items);
                frame::lemma_data_only_concat(batched::accepted(before), items);
            },
            Operation::Prioritize(frame) => {
                assert(operations[operations.len() - 1] == last);
                let one = seq![frame];
                assert(one.drop_last() =~= Seq::empty());
                assert(one.last().is_control());
                assert(frame::data_only(one) =~= Seq::empty()) by {
                    reveal_with_fuel(frame::data_only, 2);
                }
                frame::lemma_data_only_concat(history.sent, one);
                frame::lemma_data_only_concat(history.sent + one, history.queue);
                frame::lemma_data_only_concat(batched::accepted(before), one);
                assert(frame::data_only(history.sent) + Seq::<FrameView>::empty()
                    =~= frame::data_only(history.sent));
                assert(frame::data_only(batched::accepted(before)) + Seq::<FrameView>::empty()
                    =~= frame::data_only(batched::accepted(before)));
            },
            Operation::Flush => {
                assert(batched::accepted(before) + Seq::<FrameView>::empty() =~= batched::accepted(
                    before,
                ));
            },
        }
    }
}

/// Once a half refuses messages it goes on to do so, whatever events come in, and it stays
/// well-formed.
pub proof fn law_closed_half_stays_closed(
    half: WriteView,
    event: Option<EventView>,
    action: ReadyAction,
    after: WriteView,
)
    requires
        half.well_formed(),
        half.refuses(),
        half.feeds(event, action, after),
    ensures
        after.refuses(),
        after.well_formed(),
        after.sent_closed == half.sent_closed,
        half.flushing(event) == FlushActionView::Done,
{
}

/// What the frames of an accepted batch are: the one that goes to the sink at once, if there is one,
/// and then all that follow it, in order.
pub proof fn law_batch_holds_its_frames(batch: Batch<Frame>)
    ensures
        match batch.now {
            Some(first) => {
                &&& batch_views(batch).len() == 1 + batch.later@.len()
                &&& batch_views(batch)[0] == first@
                &&& forall|i: int|
                    0 <= i < batch.later@.len() ==> batch_views(batch)[1 + i]
                        == #[trigger] batch.later@[i]@
            },
            None => {
                &&& batch_views(batch).len() == batch.later@.len()
                &&& forall|i: int|
                    0 <= i < batch.later@.len() ==> batch_views(batch)[i]
                        == #[trigger] batch.later@[i]@
            },
        },
{
}

/// A half refuses messages from when it is shut down or has sent its last close frame, and not
/// before. One whose sink is closed for good does, and keeps what it has.
pub proof fn law_when_a_half_refuses(half: WriteView)
    ensures
        half.refuses() <==> half.shutdown || half.sent_closed,
        half.dropped().refuses(),
        half.dropped().well_formed(),
        half.dropped().shutdown && half.dropped().sent_closed,
        half.dropped().queue == half.queue,
        half.dropped().fragmentation == half.fragmentation,
{
}

/// The flush of an event by a half that is not shut down: a pong goes out, and so does the echo of a
/// close frame, as the last frame, unless the half has sent a close frame itself. Without an event,
/// and in a half that is shut down, there is nothing to do.
pub proof fn law_what_a_flush_sends(half: WriteView, frame: FrameView)
    ensures
        half.flushing(None) == FlushActionView::Done,
        half.shutdown ==> half.flushing(Some(EventView::SendPongFrame(frame)))
            == FlushActionView::Done && half.flushing(
            Some(EventView::SendCloseFrameAndShutdown(frame)),
        ) == FlushActionView::Done,
        !half.shutdown ==> half.flushing(Some(EventView::SendPongFrame(frame)))
            == FlushActionView::Send(frame),
        !half.shutdown && !half.sent_closed ==> half.flushing(
            Some(EventView::SendCloseFrameAndShutdown(frame)),
        ) == FlushActionView::SendAndDrop(frame),
        !half.shutdown && half.sent_closed ==> half.flushing(
            Some(EventView::SendCloseFrameAndShutdown(frame)),
        ) == FlushActionView::Skip,
{
}

/// What is fed to the sink before a message: without an event nothing, and the half is ready as it
/// is. The answer to an event is handed over at once if no frame waits, and otherwise goes before
/// all that wait, which stay as they are.
pub proof fn law_what_is_fed_to_the_sink(
    half: WriteView,
    answer: FrameView,
    action: ReadyAction,
    after: WriteView,
)
    ensures
        half.feeds(None, action, after) <==> action == ReadyAction::Return(Ok(())) && after == half,
        half.queue.len() == 0 && half.feeds(
            Some(EventView::SendPongFrame(answer)),
            action,
            after,
        ) ==> (action matches ReadyAction::StartSend { frame, closing } && frame@ == answer
            && !closing) && after == half,
        half.queue.len() == 0 && !half.sent_closed && half.feeds(
            Some(EventView::SendCloseFrameAndShutdown(answer)),
            action,
            after,
        ) ==> (action matches ReadyAction::StartSend { frame, closing } && frame@ == answer
            && closing) && after == half,
        half.queue.len() > 0 && half.feeds(Some(EventView::SendPongFrame(answer)), action, after)
            ==> {
            &&& action is PollStream
            &&& after.queue.len() == half.queue.len() + 1
            &&& after.queue[0] == answer
            &&& after.queue.skip(1) == half.queue
            &&& after.shutdown == half.shutdown
            &&& after.sent_closed == half.sent_closed
            &&& after.fragmentation == half.fragmentation
        },
        half.queue.len() > 0 && !half.sent_closed && half.feeds(
            Some(EventView::SendCloseFrameAndShutdown(answer)),
            action,
            after,
        ) ==> {
            &&& action is PollStream
            &&& after.queue.len() == half.queue.len() + 1
            &&& after.queue[0] == answer
            &&& after.queue.skip(1) == half.queue
            &&& after.shutdown
            &&& after.sent_closed == half.sent_closed
            &&& after.fragmentation == half.fragmentation
        },
{
    assert((seq![answer] + half.queue).skip(1) =~= half.queue);
}

/// A frame of one's own is sent as it is once no event is left, unless the half is closed; and before
/// that each event is answered and what is still to be sent is kept.
pub proof fn law_own_frames_are_sent_last<T>(
    half: WriteView,
    frame: FrameView,
    answer: FrameView,
    later: T,
    action: SendAction<T>,
)
    ensures
        half.sends(None, frame, later, action) && !half.shutdown && !half.sent_closed ==> (
        action matches SendAction::Send(sent) && sent@ == frame),
        half.sends(None, frame, later, action) && (half.shutdown || half.sent_closed) ==> action
            == SendAction::<T>::Refuse(WebSocketError::WebSocketClosedError),
        half.sends(Some(EventView::SendPongFrame(answer)), frame, later, action) && !half.shutdown
            ==> (action matches SendAction::Answer { frame: sent, dropping, later: kept } && sent@
            == answer && !dropping && kept == later),
        half.sends(Some(EventView::SendCloseFrameAndShutdown(answer)), frame, later, action)
            && !half.shutdown && !half.sent_closed ==> (action matches SendAction::Answer {
            frame: sent,
            dropping,
            later: kept,
        } && sent@ == answer && dropping && kept == later),
{
}

/// A half closes like it sends any frame of its own, but that a close frame of the peer is passed
/// over: what is still to be sent is kept, and is the answer.
pub proof fn law_own_close_frame_is_the_answer<T>(
    half: WriteView,
    frame: FrameView,
    answer: FrameView,
    later: T,
    action: SendAction<T>,
)
    ensures
        half.closes(None, frame, later, action) && !half.shutdown && !half.sent_closed ==> (
        action matches SendAction::Send(sent) && sent@ == frame),
        half.closes(None, frame, later, action) && (half.shutdown || half.sent_closed) ==> action
            == SendAction::<T>::Refuse(WebSocketError::WebSocketClosedError),
        half.closes(Some(EventView::SendPongFrame(answer)), frame, later, action) && !half.shutdown
            ==> (action matches SendAction::Answer { frame: sent, dropping, later: kept } && sent@
            == answer && !dropping && kept == later),
        half.closes(Some(EventView::SendCloseFrameAndShutdown(answer)), frame, later, action)
            && !half.shutdown ==> action == SendAction::Skip(later),
{
}

/// A poll hands the sink each answer as it is, goes on while there are events, and then flushes the
/// sink, or closes it if the half is shut down.
pub proof fn law_what_a_poll_does_next(
    half: WriteView,
    frame: Frame,
    closing: bool,
    result: Result<(), WebSocketError>,
)
    ensures
        half.poll_flush_action(ReadyAction::StartSend { frame, closing }) == (
        PollFlushAction::StartSend { frame, closing }),
        half.poll_flush_action(ReadyAction::PollStream) == PollFlushAction::PollStream,
        half.shutdown ==> half.poll_flush_action(ReadyAction::Return(result))
            == PollFlushAction::CloseStream,
        !half.shutdown ==> half.poll_flush_action(ReadyAction::Return(result))
            == PollFlushAction::FlushStream,
{
}

/// A half takes the events of the read half out of the channel one by one: the next goes behind
/// those that were taken before, and nothing else goes through the channels meanwhile.
pub proof fn law_events_are_taken_in_order<Si>(
    half: &WebSocketWriteHalf<Si>,
    before: &WebSocketWriteHalf<Si>,
    event: Event,
)
    ensures
        half.took(before, optional_event(Some(event))) ==> half.taken() == before.taken() + seq![
            event@,
        ],
        half.took(before, optional_event(None)) ==> half.taken() == before.taken(),
        half.took(before, optional_event(Some(event))) || half.took(before, optional_event(None))
            ==> {
            &&& half.channels() == before.channels()
            &&& half.passed_on() == before.passed_on()
            &&& half.offered() == before.offered()
            &&& half.frames().wrapped() == before.frames().wrapped()
        },
{
    assert(before.taken().push(event@) =~= before.taken() + seq![event@]);
}

/// A half that is shut down accepts no message: its sink is closed, and then the connection is told
/// to be closed, or why closing has failed. Any other half waits for its sink.
pub proof fn law_closed_half_is_never_ready(half: WriteView, error: WebSocketError)
    ensures
        half.shutdown ==> half.getting_ready(ReadyEvent::Begin) == (ReadyAction::CloseStream, half),
        !half.shutdown ==> half.getting_ready(ReadyEvent::Begin) == (ReadyAction::PollStream, half),
        half.getting_ready(ReadyEvent::StreamClosed(Ok(()))) == (
            ReadyAction::Return(Err(WebSocketError::WebSocketClosedError)),
            half,
        ),
        half.getting_ready(ReadyEvent::StreamClosed(Err(error))) == (
            ReadyAction::Return(Err(error)),
            half,
        ),
{
}

/// Once its sink has taken a frame a half is shut down if it was before, or if the frame closes the
/// connection, and not otherwise; nothing else about it changes.
pub proof fn law_only_a_closing_frame_shuts_down(half: WriteView, closing: bool)
    ensures
        ({
            let ready = half.getting_ready(ReadyEvent::FrameTaken { closing }).1;
            let polled = half.polling(PollFlushEvent::FrameTaken { closing }).1;
            &&& ready.shutdown <==> half.shutdown || closing
            &&& ready.queue == half.queue
            &&& ready.sent_closed == half.sent_closed
            &&& ready.fragmentation == half.fragmentation
            &&& polled == ready
        }),
{
}

/// A half that has handed the echo of a close frame to its sink is shut down by that, and not by any
/// other answer: the next message is refused, and the next poll closes the sink. Once that is
/// closed, polls have nothing left to do.
pub proof fn law_echo_shuts_the_half_down(
    half: WriteView,
    close: FrameView,
    action: ReadyAction,
    after: WriteView,
)
    requires
        !half.refuses(),
        half.queue.len() == 0,
        half.feeds(Some(EventView::SendCloseFrameAndShutdown(close)), action, after),
    ensures
        action matches ReadyAction::StartSend { frame, closing } && frame@ == close && {
            let (next, shut) = after.getting_ready(ReadyEvent::FrameTaken { closing });
            let (polled, down) = after.polling(PollFlushEvent::FrameTaken { closing });
            let (done, dropped) = down.polling(PollFlushEvent::StreamClosed);
            &&& next is PollStream && polled == PollFlushAction::PollStream
            &&& shut.refuses() && down.refuses()
            &&& shut.getting_ready(ReadyEvent::Begin).0 == ReadyAction::CloseStream
            &&& down.polling(PollFlushEvent::Begin).0 == PollFlushAction::CloseStream
            &&& done == PollFlushAction::Done
            &&& dropped.refuses()
            &&& dropped.polling(PollFlushEvent::Begin) == (PollFlushAction::Done, dropped)
        },
        half.getting_ready(ReadyEvent::FrameTaken { closing: false }).1 == half,
        half.polling(PollFlushEvent::FrameTaken { closing: false }).1 == half,
        half.polling(PollFlushEvent::StreamFlushed) == (PollFlushAction::Done, half),
        half.polling(PollFlushEvent::Begin) == (PollFlushAction::PollStream, half),
{
}

} // verus!
