//! The half of a connection that receives.

use flume::{Receiver, Sender};
use tokio::sync::oneshot;
use vstd::prelude::*;
use vstd::utf8::*;

use crate::boundary::{ChannelReceiver, ChannelSender, Deliveries};
use crate::error::{InvalidFrameReason, WebSocketError};
use crate::websocket::frame;
use crate::websocket::frame::{Frame, FrameType, FrameView};
use crate::websocket::message::{IncompleteMessage, Message, MessageFragment, MessageView};
use crate::websocket::ops::PingPayload;
use crate::websocket::reassembly;
use crate::websocket::reassembly::{Outcome, Reassembly, ReassemblyView};
use crate::websocket::step;
use crate::websocket::step::{MessageStep, Step};
use crate::websocket::utf8;
use crate::websocket::utf8::StaggeredText;

verus! {

/// Events sent from the read half to the write half
#[derive(Debug, PartialEq, Eq)]
pub enum Event {
    /// A ping has to be answered.
    SendPongFrame(Frame),
    /// The peer closes the connection, which has to be echoed.
    SendCloseFrameAndShutdown(Frame),
}

/// An event as a mathematical value.
#[verifier::ext_equal]
pub enum EventView {
    SendPongFrame(FrameView),
    SendCloseFrameAndShutdown(FrameView),
}

impl View for Event {
    type V = EventView;

    open spec fn view(&self) -> EventView {
        match *self {
            Event::SendPongFrame(frame) => EventView::SendPongFrame(frame@),
            Event::SendCloseFrameAndShutdown(frame) => EventView::SendCloseFrameAndShutdown(frame@),
        }
    }
}

/// What the read half does about a frame.
#[derive(Debug, PartialEq, Eq)]
pub enum Reaction {
    /// Tell the write half.
    Notify(Event),
    /// Wake up the tasks that wait for a pong, and hand them the payload.
    WakeUp(Option<Vec<u8>>),
    /// Pass on the data.
    Data(Frame),
}

/// What the read half does about a frame, as a mathematical value.
#[verifier::ext_equal]
pub enum ReactionView {
    Notify(EventView),
    WakeUp(Option<Seq<u8>>),
    Data(FrameView),
}

impl View for Reaction {
    type V = ReactionView;

    open spec fn view(&self) -> ReactionView {
        match *self {
            Reaction::Notify(event) => ReactionView::Notify(event@),
            Reaction::WakeUp(payload) => ReactionView::WakeUp(frame::optional_bytes(payload)),
            Reaction::Data(frame) => ReactionView::Data(frame@),
        }
    }
}

/// What the read half does about a frame: a ping is answered by a pong with the same payload, a
/// close frame is echoed as it is, and a pong wakes up those who wait for it.
pub open spec fn reaction(frame: FrameView) -> ReactionView {
    match frame {
        FrameView::Ping { payload } => ReactionView::Notify(
            EventView::SendPongFrame(FrameView::Pong { payload }),
        ),
        FrameView::Pong { payload } => ReactionView::WakeUp(payload),
        FrameView::Close { payload } => ReactionView::Notify(
            EventView::SendCloseFrameAndShutdown(FrameView::Close { payload }),
        ),
        _ => ReactionView::Data(frame),
    }
}

/// Decides what to do about a frame.
pub fn react(frame: Frame) -> (r: Reaction)
    ensures
        r@ == reaction(frame@),
{
    match frame {
        Frame::Ping { payload } => Reaction::Notify(Event::SendPongFrame(Frame::Pong { payload })),
        Frame::Pong { payload } => Reaction::WakeUp(payload),
        Frame::Close { payload } => Reaction::Notify(
            Event::SendCloseFrameAndShutdown(Frame::Close { payload }),
        ),
        frame => Reaction::Data(frame),
    }
}

/// What a stream hands out after the write half was told of an event: an error if it is gone, and
/// otherwise the end of the stream if the connection is closing.
pub fn notified<T>(closing: bool, delivered: bool) -> (r: Step<Option<Result<T, WebSocketError>>>)
    ensures
        r == if !delivered {
            Step::Ready(Some(Err::<T, WebSocketError>(WebSocketError::ChannelError)))
        } else if closing {
            Step::Ready(None)
        } else {
            Step::Pending
        },
{
    if !delivered {
        Step::Ready(Some(Err(WebSocketError::ChannelError)))
    } else if closing {
        Step::Ready(None)
    } else {
        Step::Pending
    }
}

/// Whether a step is one of the two that follow a control frame which the write half is told of.
pub open spec fn follows_event<T>(
    step: Step<Option<Result<T, WebSocketError>>>,
    frame: FrameView,
) -> bool {
    ||| step == Step::Ready(Some(Err::<T, WebSocketError>(WebSocketError::ChannelError)))
    ||| step == if frame is Close {
        Step::Ready(None)
    } else {
        Step::<Option<Result<T, WebSocketError>>>::Pending
    }
}

/// The payload that those who wait for a pong are handed: none if it is empty.
pub open spec fn pong_payload(payload: Option<Seq<u8>>) -> Option<Seq<u8>> {
    match payload {
        Some(bytes) => frame::ping_payload(bytes),
        None => None,
    }
}

/// The payload that those who wait for a pong are handed.
pub fn ping_payload_of(payload: &Option<Vec<u8>>) -> (r: PingPayload)
    ensures
        frame::optional_bytes(r.payload) == pong_payload(frame::optional_bytes(*payload)),
        match *payload {
            Some(bytes) if bytes@.len() > 0 => r.payload matches Some(copy) && copy@ == bytes@,
            _ => r.payload is None,
        },
{
    match payload {
        Some(bytes) => if bytes.len() == 0 {
            PingPayload { payload: None }
        } else {
            PingPayload { payload: Some(vstd::slice::slice_to_vec(bytes.as_slice())) }
        },
        None => PingPayload { payload: None },
    }
}

/// The views of a run of events.
pub open spec fn event_views(events: Seq<Event>) -> Seq<EventView> {
    Seq::new(events.len(), |i: int| events[i]@)
}

/// What those who wait for a pong are handed, each by its handle.
pub open spec fn delivery_views(deliveries: Seq<(oneshot::Sender<PingPayload>, PingPayload)>) -> Seq<
    (oneshot::Sender<PingPayload>, Option<Seq<u8>>),
> {
    Seq::new(
        deliveries.len(),
        |i: int| (deliveries[i].0, frame::optional_bytes(deliveries[i].1.payload)),
    )
}

/// The same payload handed to each of those who wait, in order.
pub open spec fn wake_ups(
    handles: Seq<oneshot::Sender<PingPayload>>,
    payload: Option<Seq<u8>>,
) -> Seq<(oneshot::Sender<PingPayload>, Option<Seq<u8>>)> {
    Seq::new(handles.len(), |i: int| (handles[i], pong_payload(payload)))
}

/// Whether the events in the channel are those from before and the given one, unless the step says
/// that it could not be put in.
pub open spec fn notifies<T>(
    step: Step<Option<Result<T, WebSocketError>>>,
    before: Seq<EventView>,
    event: EventView,
    after: Seq<EventView>,
) -> bool {
    if step == Step::Ready(Some(Err::<T, WebSocketError>(WebSocketError::ChannelError))) {
        after == before
    } else {
        after == before.push(event)
    }
}

/// The read half of a WebSocket connection.
/// This half can only receive frames.
pub struct WebSocketReadHalf {
    /// The channel to the write half.
    event_sender: ChannelSender<Event>,
    /// A receiver for pong future handles.
    pong_receiver: ChannelReceiver<oneshot::Sender<PingPayload>>,
    /// A list of handles for waking up pong futures.
    pongs: Vec<oneshot::Sender<PingPayload>>,
    /// What pong futures were woken up with.
    deliveries: Deliveries<PingPayload>,
    /// Part of a message that has not fully been received yet, unless the stream is being managed
    /// by a [`FragmentedMessage`]; and whether one was dropped before its message was finished.
    reassembly: Reassembly,
}

impl WebSocketReadHalf {
    /// Where the connection stands between two data frames.
    pub closed spec fn state(&self) -> ReassemblyView {
        self.reassembly@
    }

    /// The handles of those who wait for a pong, as far as they were collected.
    pub closed spec fn waiting(&self) -> Seq<oneshot::Sender<PingPayload>> {
        self.pongs@
    }

    /// The two channels to the write half.
    pub closed spec fn channels(&self) -> (Sender<Event>, Receiver<oneshot::Sender<PingPayload>>) {
        (self.event_sender.end(), self.pong_receiver.end())
    }

    /// The events that the write half was told of, in order.
    pub closed spec fn sent(&self) -> Seq<EventView> {
        event_views(self.event_sender.sent())
    }

    /// The events that the write half was to be told of, in order, whether or not it was still there.
    pub closed spec fn offered(&self) -> Seq<EventView> {
        event_views(self.event_sender.offered())
    }

    /// Whether no more handles came from the write half the last time that they were collected.
    pub closed spec fn exhausted(&self) -> bool {
        self.pong_receiver.exhausted()
    }

    /// All handles that were collected from the write half, in order.
    pub closed spec fn collected(&self) -> Seq<oneshot::Sender<PingPayload>> {
        self.pong_receiver.taken()
    }

    /// What was handed to those who waited for a pong, in order.
    pub closed spec fn woken(&self) -> Seq<(oneshot::Sender<PingPayload>, Option<Seq<u8>>)> {
        delivery_views(self.deliveries.handed())
    }

    /// Whether nothing went through the channels, and nobody was woken up, since `before`.
    pub open spec fn quiet_since(&self, before: &Self) -> bool {
        &&& self.channels() == before.channels()
        &&& self.sent() == before.sent()
        &&& self.offered() == before.offered()
        &&& self.exhausted() == before.exhausted()
        &&& self.collected() == before.collected()
        &&& self.waiting() == before.waiting()
        &&& self.woken() == before.woken()
    }

    /// Those who wait for a pong once the handles collected since `before` are added to the others.
    pub open spec fn waiting_since(&self, before: &Self) -> Seq<oneshot::Sender<PingPayload>> {
        before.waiting() + self.collected().skip(before.collected().len() as int)
    }

    /// A read half at the start of a connection.
    pub fn new(
        event_sender: Sender<Event>,
        pong_receiver: Receiver<oneshot::Sender<PingPayload>>,
    ) -> (r: Self)
        ensures
            r.state() == ReassemblyView::fresh(),
            r.waiting() == Seq::<oneshot::Sender<PingPayload>>::empty(),
            r.channels() == (event_sender, pong_receiver),
            r.sent().len() == 0,
            r.offered().len() == 0,
            !r.exhausted(),
            r.collected().len() == 0,
            r.woken().len() == 0,
    {
        WebSocketReadHalf {
            event_sender: ChannelSender::new(event_sender),
            pong_receiver: ChannelReceiver::new(pong_receiver),
            pongs: Vec::new(),
            deliveries: Deliveries::new(),
            reassembly: Reassembly::new(),
        }
    }

    /// Gives up the half, and keeps what was received of the current message, and whether the rest
    /// of a message is being skipped.
    pub fn into_parts(self) -> (r: (Option<IncompleteMessage>, bool))
        ensures
            reassembly::partial_view(r.0) == self.state().partial,
            r.1 == self.state().recovering,
    {
        (self.reassembly.partial_message, self.reassembly.recovering)
    }

    /// Whether a frame may come next.
    pub fn accepts(&self, frame: &Frame) -> (r: bool)
        ensures
            r == self.state().accepts(frame@),
    {
        self.reassembly.accepts(frame)
    }

    /// Collect pongs sent by the send half of the socket: all handles that come out of the channel
    /// are kept, behind those that were collected before, until there are no more.
    fn collect_pongs(&mut self)
        ensures
            final(self).state() == old(self).state(),
            final(self).channels() == old(self).channels(),
            final(self).sent() == old(self).sent(),
            final(self).offered() == old(self).offered(),
            final(self).exhausted(),
            final(self).woken() == old(self).woken(),
            old(self).collected().is_prefix_of(final(self).collected()),
            final(self).waiting() == final(self).waiting_since(old(self)),
    {
        proof {
            let before = self.collected();
            assert(before.skip(before.len() as int) =~= Seq::empty());
            assert(self.waiting() =~= self.waiting_since(old(self)));
        }
        loop
            invariant
                self.state() == old(self).state(),
                self.channels() == old(self).channels(),
                self.sent() == old(self).sent(),
                self.offered() == old(self).offered(),
                self.woken() == old(self).woken(),
                old(self).collected().is_prefix_of(self.collected()),
                self.waiting() == self.waiting_since(old(self)),
            decreases usize::MAX - self.pongs.len(),
        {
            let ghost before = self.collected();
            let handle: Option<oneshot::Sender<PingPayload>> = self.pong_receiver.next();
            proof {
                if handle is Some {
                    let handle = handle->0;
                    assert(self.collected() == before.push(handle));
                    assert(before.push(handle).skip(old(self).collected().len() as int)
                        =~= before.skip(old(self).collected().len() as int).push(handle));
                    assert(self.waiting_since(old(self)) =~= self.waiting().push(handle));
                    assert(old(self).collected().is_prefix_of(self.collected()));
                }
            }
            if !self.collect_pong(handle) {
                return;
            }
        }
    }

    /// Keeps what came out of the channel for pong future handles: a handle goes behind those that
    /// were collected before, and may be followed by more.
    pub fn collect_pong(&mut self, handle: Option<oneshot::Sender<PingPayload>>) -> (more: bool)
        ensures
            final(self).state() == old(self).state(),
            final(self).channels() == old(self).channels(),
            final(self).sent() == old(self).sent(),
            final(self).offered() == old(self).offered(),
            final(self).exhausted() == old(self).exhausted(),
            final(self).collected() == old(self).collected(),
            final(self).woken() == old(self).woken(),
            match handle {
                Some(handle) => more && final(self).waiting() == old(self).waiting().push(handle),
                None => !more && final(self).waiting() == old(self).waiting(),
            },
    {
        match handle {
            Some(handle) => {
                self.pongs.push(handle);
                true
            },
            None => false,
        }
    }

    /// Tells the write half of an event.
    fn notify<T>(&mut self, event: Event) -> (r: Step<Option<Result<T, WebSocketError>>>)
        ensures
            final(self).state() == old(self).state(),
            final(self).channels() == old(self).channels(),
            final(self).collected() == old(self).collected(),
            final(self).waiting() == old(self).waiting(),
            final(self).woken() == old(self).woken(),
            final(self).exhausted() == old(self).exhausted(),
            final(self).offered() == old(self).offered().push(event@),
            notifies(r, old(self).sent(), event@, final(self).sent()),
            r == Step::Ready(Some(Err::<T, WebSocketError>(WebSocketError::ChannelError))) || r
                == if event@ is SendCloseFrameAndShutdown {
                Step::Ready(None)
            } else {
                Step::<Option<Result<T, WebSocketError>>>::Pending
            },
    {
        let closing: bool = event.closes();
        let ghost before = self.event_sender.sent();
        let ghost offered = self.event_sender.offered();
        let delivered: bool = self.event_sender.offer(event).is_ok();
        assert(delivered ==> event_views(before.push(event)) =~= event_views(before).push(event@));
        assert(event_views(offered.push(event)) =~= event_views(offered).push(event@));
        notified(closing, delivered)
    }

    /// Wake up pong futures by their handles: each is handed the payload, and nobody waits any more.
    fn wake_up_pongs(&mut self, payload: Option<Vec<u8>>)
        ensures
            final(self).state() == old(self).state(),
            final(self).channels() == old(self).channels(),
            final(self).sent() == old(self).sent(),
            final(self).offered() == old(self).offered(),
            final(self).exhausted() == old(self).exhausted(),
            final(self).collected() == old(self).collected(),
            final(self).waiting() == Seq::<oneshot::Sender<PingPayload>>::empty(),
            final(self).woken() == old(self).woken() + wake_ups(
                old(self).waiting(),
                frame::optional_bytes(payload),
            ),
    {
        let ghost waiting = self.waiting();
        let ghost all = wake_ups(waiting, frame::optional_bytes(payload));
        let mut handles: Vec<oneshot::Sender<PingPayload>> = Vec::new();
        handles.append(&mut self.pongs);
        assert(handles@ =~= waiting);
        assert(self.woken() + all.take(0) =~= self.woken());
        for handle in iter: handles
            invariant
                iter.seq() == waiting,
                all == wake_ups(waiting, frame::optional_bytes(payload)),
                self.state() == old(self).state(),
                self.channels() == old(self).channels(),
                self.sent() == old(self).sent(),
                self.offered() == old(self).offered(),
                self.exhausted() == old(self).exhausted(),
                self.collected() == old(self).collected(),
                self.pongs@.len() == 0,
                self.woken() == old(self).woken() + all.take(iter.index()),
        {
            let ghost before = self.woken();
            let _ = self.deliveries.send(handle, ping_payload_of(&payload));
            assert(self.woken() =~= before.push(all[iter.index()]));
            assert(all.take(iter.index() + 1) =~= all.take(iter.index()).push(all[iter.index()]));
            assert(self.woken() =~= old(self).woken() + all.take(iter.index() + 1));
        }
        assert(all.take(all.len() as int) =~= all);
    }

    /// Receives a frame from the peer.
    ///
    /// If the received frame is a Ping frame, an event to send a Pong frame will be queued.
    /// If the received frame is a Close frame, an event to send a Close frame
    /// will be queued and the stream of messages ends. However, events are not
    /// acted upon unless the write half is flushed.
    pub fn on_frame(&mut self, frame: Frame) -> (r: MessageStep)
        requires
            old(self).state().accepts(frame@),
        ensures
            final(self).state() == old(self).state().after(frame@),
            final(self).channels() == old(self).channels(),
            old(self).collected().is_prefix_of(final(self).collected()),
            final(self).exhausted(),
            final(self).offered() == match reaction(frame@) {
                ReactionView::Notify(event) => old(self).offered().push(event),
                _ => old(self).offered(),
            },
            match reaction(frame@) {
                ReactionView::Notify(event) => {
                    &&& follows_event(r, frame@)
                    &&& notifies(r, old(self).sent(), event, final(self).sent())
                    &&& final(self).waiting() == final(self).waiting_since(old(self))
                    &&& final(self).woken() == old(self).woken()
                },
                ReactionView::WakeUp(payload) => {
                    &&& r is Pending
                    &&& final(self).sent() == old(self).sent()
                    &&& final(self).waiting().len() == 0
                    &&& final(self).woken() == old(self).woken() + wake_ups(
                        final(self).waiting_since(old(self)),
                        payload,
                    )
                },
                ReactionView::Data(_) => {
                    &&& step::reports(r, old(self).state().outcome(frame@))
                    &&& final(self).sent() == old(self).sent()
                    &&& final(self).waiting() == final(self).waiting_since(old(self))
                    &&& final(self).woken() == old(self).woken()
                },
            },
            frame@ matches FrameView::Pong { payload: Some(bytes) } ==> (bytes.len() > 0 ==> {
                &&& final(self).woken().len() == old(self).woken().len() + final(self).waiting_since(
                    old(self),
                ).len()
                &&& forall|j: int|
                    old(self).woken().len() <= j < final(self).woken().len() ==> (
                    #[trigger] final(self).woken()[j]).1 == Some(bytes)
            }),
    {
        self.collect_pongs();
        match react(frame) {
            Reaction::Notify(event) => self.notify(event),
            Reaction::WakeUp(payload) => {
                self.wake_up_pongs(payload);
                Step::Pending
            },
            Reaction::Data(frame) => self.reassembly.push(frame).report(),
        }
    }

    /// Receives a [`Message`] over the WebSocket connection: what to return for an item of the
    /// stream of messages, or for its end.
    pub fn receive(item: Option<Result<Message, WebSocketError>>) -> (r: Result<
        Message,
        WebSocketError,
    >)
        ensures
            match item {
                Some(result) => r == result,
                None => r == Err::<Message, WebSocketError>(WebSocketError::WebSocketClosedError),
            },
    {
        match item {
            None => Err(WebSocketError::WebSocketClosedError),
            Some(res) => res,
        }
    }

    /// Receive the next message fragmented as it comes in.
    ///
    /// Useful for large messages where it is more optimal to process it as it
    /// comes in, rather than all at once.
    pub fn receive_fragmented(&mut self) -> (r: FragmentedMessage)
        ensures
            *final(self) == *old(self),
            r@ == FragmentedView::start(),
    {
        FragmentedMessage { data_type: None, staggered_utf8: None, first_arrived: false, fin: false }
    }
}

impl Event {
    /// Whether the event ends the stream of messages.
    fn closes(&self) -> (r: bool)
        ensures
            r == self@ is SendCloseFrameAndShutdown,
    {
        match self {
            Event::SendPongFrame(_) => false,
            Event::SendCloseFrameAndShutdown(_) => true,
        }
    }
}

/// A message that is yielded fragmented, as it is received from the remote peer.
///
/// Useful for large messages where it is more optimal to process it as it
/// comes in, rather than all at once.
///
/// # Data Loss
///
/// When this structure is abandoned, if the message is not finished,
/// the rest of that message's frames are lost.
///
/// If the final frame of a text message ends in the middle of a scalar, the text before it is the
/// last fragment, the message is finished, and the bytes of the scalar are lost. Such a message is
/// an error only where it is received as a whole.
#[derive(Debug)]
pub struct FragmentedMessage {
    /// The expected frame type.
    data_type: Option<FrameType>,
    /// Any UTF-8 bytes staggered as outlined in the documentation of [`MessageFragment::Text`]
    staggered_utf8: Option<Vec<u8>>,
    /// If the first frame of the message has been received.
    first_arrived: bool,
    /// If the message is finished.
    fin: bool,
}

/// A message in the middle of being read in fragments, as a mathematical value.
#[verifier::ext_equal]
pub struct FragmentedView {
    /// The type of the first frame that arrived.
    pub data_type: Option<FrameType>,
    /// The bytes held back for the next fragment.
    pub staggered: Seq<u8>,
    /// Whether a frame has arrived.
    pub first_arrived: bool,
    /// Whether the message is finished.
    pub fin: bool,
}

impl View for FragmentedMessage {
    type V = FragmentedView;

    closed spec fn view(&self) -> FragmentedView {
        FragmentedView {
            data_type: self.data_type,
            staggered: utf8::bytes_or_empty(self.staggered_utf8),
            first_arrived: self.first_arrived,
            fin: self.fin,
        }
    }
}

/// A fragment, or that there is none because the text is not UTF-8.
pub type FragmentOutcome = Option<MessageView>;

impl FragmentedView {
    /// Before the first frame.
    pub open spec fn start() -> FragmentedView {
        FragmentedView {
            data_type: None,
            staggered: Seq::empty(),
            first_arrived: false,
            fin: false,
        }
    }

    /// After a frame arrived of which nothing else is known.
    pub open spec fn arrived(self, frame: FrameView) -> FragmentedView {
        FragmentedView {
            data_type: match self.data_type {
                None => Some(frame.frame_type()),
                Some(frame_type) => Some(frame_type),
            },
            first_arrived: true,
            ..self
        }
    }

    /// After data was read. Text that ends in what belongs to no code point counts as unread: what
    /// was held back is dropped, and the message does not finish with it.
    pub open spec fn after_data(self, frame_type: FrameType, payload: Seq<u8>, fin: bool)
        -> FragmentedView {
        if frame_type == FrameType::Binary {
            FragmentedView { fin, ..self }
        } else if utf8::ends_badly(self.staggered + payload) {
            FragmentedView { staggered: Seq::empty(), ..self }
        } else {
            FragmentedView {
                staggered: utf8::held_back(self.staggered + payload),
                fin,
                ..self
            }
        }
    }

    /// The fragment that data amounts to: bytes as they are, and text with what was held back in
    /// front and what is to be held back taken off the end.
    pub open spec fn fragment(self, frame_type: FrameType, payload: Seq<u8>) -> FragmentOutcome {
        if frame_type == FrameType::Binary {
            Some(MessageView::Binary(payload))
        } else {
            let bytes = self.staggered + payload;
            if !utf8::ends_badly(bytes) && valid_utf8(utf8::handed_out(bytes)) {
                Some(MessageView::Text(decode_utf8(utf8::handed_out(bytes))))
            } else {
                None
            }
        }
    }

    /// What is handed out of what was received of the message before it came to be read in
    /// fragments, and where the message and the connection stand then.
    pub open spec fn taking_partial(self, state: ReassemblyView) -> (
        Option<FragmentOutcome>,
        FragmentedView,
        ReassemblyView,
    ) {
        match state.partial {
            Some((frame_type, bytes)) if !state.recovering => (
                Some(self.fragment(frame_type, bytes)),
                self.after_data(frame_type, bytes, self.fin),
                ReassemblyView { partial: None, ..state },
            ),
            _ => (None, self, state),
        }
    }

    /// After a run of frames, none of them skipped.
    pub open spec fn after_frames(self, frames: Seq<FrameView>) -> FragmentedView
        decreases frames.len(),
    {
        if frames.len() == 0 {
            self
        } else {
            let arrived = self.after_frames(frames.drop_last()).arrived(frames.last());
            if frames.last().is_control() {
                arrived
            } else {
                arrived.after_data(
                    frames.last().frame_type(),
                    frames.last().body(),
                    frames.last().is_final(),
                )
            }
        }
    }

    /// The fragment that the given data frame of a run amounts to.
    pub open spec fn fragment_at(self, frames: Seq<FrameView>, i: int) -> FragmentOutcome {
        self.after_frames(frames.take(i)).fragment(frames[i].frame_type(), frames[i].body())
    }

    /// After a run of payloads of text frames, none of them the last.
    pub open spec fn after_texts(self, payloads: Seq<Seq<u8>>) -> FragmentedView
        decreases payloads.len(),
    {
        if payloads.len() == 0 {
            self
        } else {
            self.after_texts(payloads.drop_last()).after_data(
                FrameType::Text,
                payloads.last(),
                false,
            )
        }
    }

    /// The fragment that the given payload of a run of text frames amounts to.
    pub open spec fn text_at(self, payloads: Seq<Seq<u8>>, i: int) -> FragmentOutcome {
        self.after_texts(payloads.take(i)).fragment(FrameType::Text, payloads[i])
    }
}

/// Whether a result is the one for a fragment.
pub open spec fn yields(
    result: Result<MessageFragment, WebSocketError>,
    fragment: FragmentOutcome,
) -> bool {
    match fragment {
        Some(fragment) => result matches Ok(f) && f@ == fragment,
        None => result == Err::<MessageFragment, WebSocketError>(
            WebSocketError::InvalidFrame(InvalidFrameReason::BadUtf8),
        ),
    }
}

impl FragmentedMessage {
    /// Whether the message is finished, so that no fragment will follow.
    pub fn is_terminated(&self) -> (r: bool)
        ensures
            r == self@.fin,
    {
        self.fin
    }

    /// Makes a fragment of data.
    fn read(&mut self, text: bool, payload: Vec<u8>, fin: bool) -> (r: Result<
        MessageFragment,
        WebSocketError,
    >)
        ensures
            final(self)@ == old(self)@.after_data(
                if text {
                    FrameType::Text
                } else {
                    FrameType::Binary
                },
                payload@,
                fin,
            ),
            yields(
                r,
                old(self)@.fragment(
                    if text {
                        FrameType::Text
                    } else {
                        FrameType::Binary
                    },
                    payload@,
                ),
            ),
            !text ==> final(self)@.fin == fin && r == Ok::<MessageFragment, WebSocketError>(
                MessageFragment::Binary(payload),
            ),
            text && !utf8::ends_badly(old(self)@.staggered + payload@) ==> final(self)@.fin == fin,
            text && utf8::ends_badly(old(self)@.staggered + payload@) ==> final(self)@.fin
                == old(self)@.fin,
    {
        if !text {
            self.fin = fin;
            return Ok(MessageFragment::Binary(payload));
        }
        let ghost staggered = self@.staggered;
        let bytes: Vec<u8> = match self.staggered_utf8.take() {
            Some(staggered) => reassembly::concat(staggered, payload),
            None => payload,
        };
        assert(bytes@ =~= staggered + payload@);
        match utf8::stagger(bytes) {
            StaggeredText::BadEnd => Err(WebSocketError::InvalidFrame(InvalidFrameReason::BadUtf8)),
            StaggeredText::Read { text, held_back } => {
                self.staggered_utf8 = held_back;
                self.fin = fin;
                match text {
                    Some(text) => Ok(MessageFragment::Text(text)),
                    None => Err(WebSocketError::InvalidFrame(InvalidFrameReason::BadUtf8)),
                }
            },
        }
    }

    /// Hands out what was received of the message before it came to be read in fragments, if there
    /// is any. What is left of a message that is being skipped does not count.
    pub fn take_partial(&mut self, half: &mut WebSocketReadHalf) -> (r: Option<
        Result<MessageFragment, WebSocketError>,
    >)
        ensures
            final(half).quiet_since(old(half)),
            ({
                let (fragment, view, state) = old(self)@.taking_partial(old(half).state());
                &&& final(self)@ == view
                &&& final(half).state() == state
                &&& match fragment {
                    Some(fragment) => r matches Some(result) && yields(result, fragment),
                    None => r is None,
                }
            }),
            match old(half).state().partial {
                Some((frame_type, bytes)) if !old(half).state().recovering => {
                    &&& r matches Some(result) && yields(
                        result,
                        old(self)@.fragment(frame_type, bytes),
                    )
                    &&& final(self)@ == old(self)@.after_data(frame_type, bytes, old(self)@.fin)
                    &&& final(half).state() == (ReassemblyView {
                        partial: None,
                        ..old(half).state()
                    })
                },
                _ => {
                    &&& r is None
                    &&& final(self)@ == old(self)@
                    &&& final(half).state() == old(half).state()
                },
            },
    {
        if half.reassembly.recovering {
            return None;
        }
        let fin: bool = self.fin;
        match half.reassembly.partial_message.take() {
            Some(IncompleteMessage::Binary(payload)) => Some(self.read(false, payload, fin)),
            Some(IncompleteMessage::Text(payload)) => Some(self.read(true, payload, fin)),
            None => None,
        }
    }

    /// Receives a frame from the peer.
    pub fn on_frame(&mut self, half: &mut WebSocketReadHalf, frame: Frame) -> (r: Step<
        Option<Result<MessageFragment, WebSocketError>>,
    >)
        ensures
            final(half).channels() == old(half).channels(),
            old(half).collected().is_prefix_of(final(half).collected()),
            !old(half).state().skips(frame@) ==> final(self)@ == old(self)@.after_frames(
                seq![frame@],
            ),
            !old(half).state().skips(frame@) && !frame@.is_control() ==> (r matches Step::Ready(
                Some(result),
            ) && yields(result, old(self)@.fragment_at(seq![frame@], 0))),
            if old(half).state().skips(frame@) {
                &&& r is Pending
                &&& final(self)@ == old(self)@
                &&& final(half).state() == old(half).state().after(frame@)
                &&& final(half).quiet_since(old(half))
            } else {
                match reaction(frame@) {
                    ReactionView::Notify(event) => {
                        &&& follows_event(r, frame@)
                        &&& notifies(r, old(half).sent(), event, final(half).sent())
                        &&& final(half).offered() == old(half).offered().push(event)
                        &&& final(self)@ == old(self)@.arrived(frame@)
                        &&& final(half).state() == old(half).state()
                        &&& final(half).collected() == old(half).collected()
                        &&& final(half).waiting() == old(half).waiting()
                        &&& final(half).woken() == old(half).woken()
                    },
                    ReactionView::WakeUp(payload) => {
                        &&& r is Pending
                        &&& final(self)@ == old(self)@.arrived(frame@)
                        &&& final(half).state() == old(half).state()
                        &&& final(half).sent() == old(half).sent()
                        &&& final(half).offered() == old(half).offered()
                        &&& final(half).exhausted()
                        &&& final(half).waiting().len() == 0
                        &&& final(half).woken() == old(half).woken() + wake_ups(
                            final(half).waiting_since(old(half)),
                            payload,
                        )
                    },
                    ReactionView::Data(_) => {
                        &&& r matches Step::Ready(Some(result)) && yields(
                            result,
                            old(self)@.fragment(frame@.frame_type(), frame@.body()),
                        )
                        &&& final(self)@ == old(self)@.arrived(frame@).after_data(
                            frame@.frame_type(),
                            frame@.body(),
                            frame@.is_final(),
                        )
                        &&& final(half).state() == (ReassemblyView {
                            recovering: false,
                            ..old(half).state()
                        })
                        &&& final(half).quiet_since(old(half))
                        &&& (frame@ matches FrameView::Binary { payload, fin, .. } ==> {
                            &&& r matches Step::Ready(Some(Ok(MessageFragment::Binary(bytes))))
                            &&& bytes@ == payload
                            &&& final(self)@.fin == fin
                        })
                        &&& (frame@ matches FrameView::Text { payload, fin, .. } ==> (
                        final(self)@.fin == if utf8::ends_badly(old(self)@.staggered + payload) {
                            old(self)@.fin
                        } else {
                            fin
                        }))
                    },
                }
            },
            frame@ matches FrameView::Pong { payload: Some(bytes) } ==> (bytes.len() > 0 ==> {
                &&& final(half).woken().len() == old(half).woken().len() + final(half).waiting_since(
                    old(half),
                ).len()
                &&& forall|j: int|
                    old(half).woken().len() <= j < final(half).woken().len() ==> (
                    #[trigger] final(half).woken()[j]).1 == Some(bytes)
            }),
    {
        proof {
            assert(seq![frame@].drop_last() =~= Seq::empty());
            assert(seq![frame@].take(0) =~= Seq::empty());
            reveal_with_fuel(FragmentedView::after_frames, 2);
        }
        let skipped: bool = match &frame {
            Frame::Text { continuation, fin, .. } => half.reassembly.skip(*continuation, *fin),
            Frame::Binary { continuation, fin, .. } => half.reassembly.skip(*continuation, *fin),
            _ => false,
        };
        if skipped {
            return Step::Pending;
        }
        if self.data_type.is_none() {
            self.data_type = Some(frame.frame_type());
        }
        self.first_arrived = true;
        match react(frame) {
            Reaction::Notify(event) => half.notify(event),
            Reaction::WakeUp(payload) => {
                half.collect_pongs();
                half.wake_up_pongs(payload);
                Step::Pending
            },
            Reaction::Data(Frame::Text { payload, fin, .. }) => Step::Ready(
                Some(self.read(true, payload, fin)),
            ),
            Reaction::Data(Frame::Binary { payload, fin, .. }) => Step::Ready(
                Some(self.read(false, payload, fin)),
            ),
            Reaction::Data(_) => Step::Pending,
        }
    }

    /// Stops reading. If the message is not finished, the rest of its frames will be skipped.
    pub fn abandon(self, half: &mut WebSocketReadHalf)
        ensures
            final(half).state() == (ReassemblyView {
                recovering: old(half).state().recovering || !self@.fin,
                ..old(half).state()
            }),
            final(half).state() == old(half).state().abandoned(self@.fin),
            final(half).quiet_since(old(half)),
    {
        if !self.fin {
            half.reassembly.recovering = true;
        }
    }
}

/// A text message whose final frame ends in the middle of a scalar is finished by that frame: the
/// text before the scalar is its last fragment, and the bytes of the scalar are held back for a
/// frame that never comes. Received as a whole, the same data is not UTF-8.
pub proof fn law_cut_off_end_is_lost(text: Seq<u8>, cut: Seq<u8>)
    requires
        valid_utf8(text),
        0 < cut.len() < utf8::started_len(cut[0]),
        forall|i: int| 1 <= i < cut.len() ==> is_continuation_byte(cut[i]),
    ensures
        ({
            let start = FragmentedView::start();
            let after = start.after_data(FrameType::Text, text + cut, true);
            &&& start.fragment(FrameType::Text, text + cut) == Some(
                MessageView::Text(decode_utf8(text)),
            )
            &&& after.fin
            &&& after.staggered == cut
            &&& ReassemblyView::fresh().outcome(
                FrameView::Text { payload: text + cut, continuation: false, fin: true },
            ) == Outcome::BadUtf8
        }),
{
    utf8::lemma_cut_code_point_after_text(text, cut);
    assert(FragmentedView::start().staggered + (text + cut) =~= text + cut);
}

/// All payloads of a run, one after the other.
pub open spec fn flattened(payloads: Seq<Seq<u8>>) -> Seq<u8>
    decreases payloads.len(),
{
    if payloads.len() == 0 {
        Seq::empty()
    } else {
        flattened(payloads.drop_last()) + payloads.last()
    }
}

/// The first `count` text fragments of a run, one after the other.
pub open spec fn text_read(payloads: Seq<Seq<u8>>, count: int) -> Seq<char>
    decreases count,
{
    if count <= 0 {
        Seq::empty()
    } else {
        text_read(payloads, count - 1) + match FragmentedView::start().text_at(payloads, count - 1) {
            Some(MessageView::Text(text)) => text,
            _ => Seq::empty(),
        }
    }
}

/// What the first payloads of a run make is what all of them begin with.
pub proof fn lemma_flattened_prefix(payloads: Seq<Seq<u8>>, i: int)
    requires
        0 <= i <= payloads.len(),
    ensures
        flattened(payloads.take(i)).is_prefix_of(flattened(payloads)),
    decreases payloads.len() - i,
{
    if i == payloads.len() {
        assert(payloads.take(i) =~= payloads);
    } else {
        lemma_flattened_prefix(payloads, i + 1);
        assert(payloads.take(i + 1).drop_last() =~= payloads.take(i));
        let short = flattened(payloads.take(i));
        let long = flattened(payloads.take(i + 1));
        let all = flattened(payloads);
        assert(long == short + payloads[i]);
        assert(all.take(short.len() as int) =~= long.take(short.len() as int));
        assert(long.take(short.len() as int) =~= short);
    }
}

/// Where `out` was handed out of a text and `at_hand` comes next in it, as much of the latter is
/// handed out as there are whole code points, and at the end of the text all of it.
proof fn lemma_next_text(whole: Seq<u8>, out: Seq<u8>, at_hand: Seq<u8>)
    requires
        valid_utf8(whole),
        valid_utf8(out),
        (out + at_hand).is_prefix_of(whole),
    ensures
        !utf8::ends_badly(at_hand),
        valid_utf8(utf8::handed_out(at_hand)),
        utf8::handed_out(at_hand) + utf8::held_back(at_hand) == at_hand,
        valid_utf8(out + utf8::handed_out(at_hand)),
        decode_utf8(out + utf8::handed_out(at_hand)) == decode_utf8(out) + decode_utf8(
            utf8::handed_out(at_hand),
        ),
        out + at_hand == whole ==> utf8::held_back(at_hand).len() == 0,
{
    let cut = out.len() as int;
    let both = out + at_hand;
    let rest = whole.skip(cut);
    assert(whole.take(both.len() as int) =~= both);
    assert(whole.subrange(0, cut) =~= both.take(cut));
    assert(both.take(cut) =~= out);
    assert(whole.subrange(cut, whole.len() as int) =~= rest);
    if !valid_utf8(rest) {
        partial_valid_partial_invalid_utf8(whole, cut);
    }
    assert(rest.take(at_hand.len() as int) =~= both.skip(cut));
    assert(both.skip(cut) =~= at_hand);
    utf8::law_prefix_of_text(rest, at_hand.len() as int);
    utf8::lemma_decode_concat(out, utf8::handed_out(at_hand));
    if both == whole {
        utf8::law_whole_text_is_handed_out(rest);
        assert(rest =~= at_hand);
    }
}

/// After `i` frames the text handed out is that of all bytes but the ones held back.
#[verifier::rlimit(60)]
#[verifier::spinoff_prover]
proof fn lemma_text_so_far(payloads: Seq<Seq<u8>>, i: int)
    requires
        valid_utf8(flattened(payloads)),
        0 <= i <= payloads.len(),
    ensures
        ({
            let view = FragmentedView::start().after_texts(payloads.take(i));
            let bytes = flattened(payloads.take(i));
            let out = bytes.take(bytes.len() - view.staggered.len());
            &&& view.staggered.len() <= bytes.len()
            &&& out + view.staggered == bytes
            &&& valid_utf8(out)
            &&& text_read(payloads, i) == decode_utf8(out)
            &&& i == payloads.len() ==> view.staggered.len() == 0
        }),
        i > 0 ==> FragmentedView::start().text_at(payloads, i - 1) is Some,
    decreases i,
{
    let start = FragmentedView::start();
    if i == 0 {
        assert(payloads.take(0) =~= Seq::empty());
        assert(flattened(payloads.take(0)) =~= Seq::<u8>::empty());
        assert(flattened(payloads.take(0)).take(0) + Seq::<u8>::empty() =~= Seq::<u8>::empty());
    } else {
        lemma_text_so_far(payloads, i - 1);
        lemma_flattened_prefix(payloads, i);
        assert(payloads.take(i).drop_last() =~= payloads.take(i - 1));
        assert(payloads.take(i).last() == payloads[i - 1]);
        let whole = flattened(payloads);
        let before = start.after_texts(payloads.take(i - 1));
        let old_bytes = flattened(payloads.take(i - 1));
        let old_out = old_bytes.take(old_bytes.len() - before.staggered.len());
        let bytes = flattened(payloads.take(i));
        let at_hand = before.staggered + payloads[i - 1];
        assert(bytes =~= old_out + at_hand);
        lemma_next_text(whole, old_out, at_hand);
        let given = utf8::handed_out(at_hand);
        let kept = utf8::held_back(at_hand);
        assert(start.after_texts(payloads.take(i)).staggered == kept);
        assert(old_out + at_hand =~= (old_out + given) + kept);
        assert(bytes.take(bytes.len() - kept.len()) =~= old_out + given);
        if i == payloads.len() {
            assert(payloads.take(i) =~= payloads);
        }
    }
}

/// Text that is read in fragments is the text that was sent, wherever the frames were cut: each
/// frame yields a fragment, even where a scalar is split across two frames or more, nothing is
/// left over at the end, and the fragments one after the other are the text.
pub proof fn law_split_text_is_read_whole(payloads: Seq<Seq<u8>>)
    requires
        valid_utf8(flattened(payloads)),
    ensures
        forall|i: int|
            0 <= i < payloads.len() ==> (#[trigger] FragmentedView::start().text_at(
                payloads,
                i,
            )) is Some,
        text_read(payloads, payloads.len() as int) == decode_utf8(flattened(payloads)),
        FragmentedView::start().after_texts(payloads).staggered.len() == 0,
{
    let n = payloads.len() as int;
    assert forall|i: int| 0 <= i < n implies (#[trigger] FragmentedView::start().text_at(
        payloads,
        i,
    )) is Some by {
        lemma_text_so_far(payloads, i + 1);
    }
    lemma_text_so_far(payloads, n);
    assert(payloads.take(n) =~= payloads);
    let bytes = flattened(payloads);
    assert(bytes.take(bytes.len() as int) =~= bytes);
}

/// A frame finishes a message that is read in fragments exactly if it is final and can be read. Bytes
/// always can; text cannot if, behind what was held back, it ends in what belongs to no code point.
/// Whatever is handed out as a fragment was read.
pub proof fn law_final_frame_finishes_the_message(
    view: FragmentedView,
    frame_type: FrameType,
    payload: Seq<u8>,
    fin: bool,
)
    requires
        !view.fin,
        frame_type != FrameType::Control,
    ensures
        ({
            let after = view.after_data(frame_type, payload, fin);
            &&& frame_type == FrameType::Binary ==> (after.fin <==> fin)
            &&& frame_type == FrameType::Text ==> (after.fin <==> fin && !utf8::ends_badly(
                view.staggered + payload,
            ))
            &&& view.fragment(frame_type, payload) is Some ==> (after.fin <==> fin)
            &&& after.data_type == view.data_type
            &&& after.first_arrived == view.first_arrived
        }),
{
}

/// The frames of a message of bytes that is sent in the given pieces.
pub open spec fn binary_frames(payloads: Seq<Seq<u8>>) -> Seq<FrameView> {
    Seq::new(
        payloads.len(),
        |i: int|
            FrameView::Binary {
                payload: payloads[i],
                continuation: i > 0,
                fin: i == payloads.len() - 1,
            },
    )
}

/// The frames of a message of text whose encoding is sent in the given pieces.
pub open spec fn text_frames(payloads: Seq<Seq<u8>>) -> Seq<FrameView> {
    Seq::new(
        payloads.len(),
        |i: int|
            FrameView::Text {
                payload: payloads[i],
                continuation: i > 0,
                fin: i == payloads.len() - 1,
            },
    )
}

/// The bytes of the fragments that a run of frames amounts to, one after the other.
pub open spec fn bytes_read(frames: Seq<FrameView>, count: int) -> Seq<u8>
    decreases count,
{
    if count <= 0 {
        Seq::empty()
    } else {
        bytes_read(frames, count - 1) + match FragmentedView::start().fragment_at(
            frames,
            count - 1,
        ) {
            Some(MessageView::Binary(bytes)) => bytes,
            _ => Seq::empty(),
        }
    }
}

/// Bytes that are read in fragments are the bytes that were sent: each frame yields its payload, the
/// fragments one after the other are all bytes, and the message is finished after its last frame and
/// not before.
pub proof fn law_binary_is_read_as_sent(payloads: Seq<Seq<u8>>)
    requires
        payloads.len() > 0,
    ensures
        ({
            let start = FragmentedView::start();
            let frames = binary_frames(payloads);
            &&& forall|i: int|
                0 <= i < payloads.len() ==> #[trigger] start.fragment_at(frames, i) == Some(
                    MessageView::Binary(payloads[i]),
                )
            &&& forall|i: int|
                0 <= i <= payloads.len() ==> ((#[trigger] start.after_frames(frames.take(i))).fin
                    <==> i == payloads.len())
            &&& bytes_read(frames, payloads.len() as int) == flattened(payloads)
        }),
{
    let start = FragmentedView::start();
    let frames = binary_frames(payloads);
    let n = payloads.len() as int;
    assert forall|i: int| 0 <= i <= n implies ((#[trigger] start.after_frames(frames.take(i))).fin
        <==> i == n) by {
        if i > 0 {
            assert(frames.take(i).last() == frames[i - 1]);
        } else {
            assert(frames.take(0) =~= Seq::empty());
        }
    }
    lemma_bytes_so_far(payloads, n);
    assert(payloads.take(n) =~= payloads);
}

proof fn lemma_bytes_so_far(payloads: Seq<Seq<u8>>, i: int)
    requires
        0 <= i <= payloads.len(),
    ensures
        bytes_read(binary_frames(payloads), i) == flattened(payloads.take(i)),
    decreases i,
{
    if i > 0 {
        lemma_bytes_so_far(payloads, i - 1);
        assert(payloads.take(i).drop_last() =~= payloads.take(i - 1));
        assert(payloads.take(i).last() == payloads[i - 1]);
    }
}

/// Text that is read in fragments is finished after its last frame and not before, wherever it was
/// cut; and each frame yields the fragment that its payload amounts to.
pub proof fn law_text_is_finished_by_its_last_frame(payloads: Seq<Seq<u8>>)
    requires
        payloads.len() > 0,
        valid_utf8(flattened(payloads)),
    ensures
        ({
            let start = FragmentedView::start();
            let frames = text_frames(payloads);
            &&& forall|i: int|
                0 <= i < payloads.len() ==> #[trigger] start.fragment_at(frames, i)
                    == start.text_at(payloads, i)
            &&& forall|i: int|
                0 <= i <= payloads.len() ==> ((#[trigger] start.after_frames(frames.take(i))).fin
                    <==> i == payloads.len())
        }),
{
    let start = FragmentedView::start();
    let frames = text_frames(payloads);
    let n = payloads.len() as int;
    assert forall|i: int| 0 <= i < n implies #[trigger] start.fragment_at(frames, i)
        == start.text_at(payloads, i) by {
        lemma_text_frames_so_far(payloads, i);
    }
    assert forall|i: int| 0 <= i <= n implies ((#[trigger] start.after_frames(frames.take(i))).fin
        <==> i == n) by {
        lemma_text_frames_so_far(payloads, i);
    }
}

proof fn lemma_text_frames_so_far(payloads: Seq<Seq<u8>>, i: int)
    requires
        valid_utf8(flattened(payloads)),
        0 <= i <= payloads.len(),
        payloads.len() > 0,
    ensures
        ({
            let start = FragmentedView::start();
            let after = start.after_frames(text_frames(payloads).take(i));
            &&& after.staggered == start.after_texts(payloads.take(i)).staggered
            &&& after.fin <==> i == payloads.len()
        }),
    decreases i,
{
    let start = FragmentedView::start();
    let frames = text_frames(payloads);
    if i == 0 {
        assert(frames.take(0) =~= Seq::empty());
        assert(payloads.take(0) =~= Seq::empty());
    } else {
        lemma_text_frames_so_far(payloads, i - 1);
        law_split_text_is_read_whole(payloads);
        assert(start.text_at(payloads, i - 1) is Some);
        assert(frames.take(i).drop_last() =~= frames.take(i - 1));
        assert(frames.take(i).last() == frames[i - 1]);
        assert(payloads.take(i).drop_last() =~= payloads.take(i - 1));
        assert(payloads.take(i).last() == payloads[i - 1]);
    }
}

/// A control frame between two fragments neither finishes the message nor touches what is held
/// back: the fragments are the same with it and without it.
pub proof fn law_control_frames_leave_fragments_alone(
    view: FragmentedView,
    control: FrameView,
    frame_type: FrameType,
    payload: Seq<u8>,
)
    requires
        control.is_control(),
    ensures
        view.arrived(control).fin == view.fin,
        view.arrived(control).staggered == view.staggered,
        view.arrived(control).fragment(frame_type, payload) == view.fragment(frame_type, payload),
        view.arrived(control).first_arrived,
{
}

/// A result that hands out a fragment holds the very bytes or the very text; and any other is the
/// error for text that is not UTF-8.
pub proof fn law_fragments_are_handed_out(
    result: Result<MessageFragment, WebSocketError>,
    bytes: Seq<u8>,
    text: Seq<char>,
)
    ensures
        yields(result, Some(MessageView::Binary(bytes))) <==> (result matches Ok(
            MessageFragment::Binary(read),
        ) && read@ == bytes),
        yields(result, Some(MessageView::Text(text))) <==> (result matches Ok(
            MessageFragment::Text(read),
        ) && read@ == text),
        yields(result, None) <==> result == Err::<MessageFragment, WebSocketError>(
            WebSocketError::InvalidFrame(InvalidFrameReason::BadUtf8),
        ),
{
}

/// Whoever waits for a pong is handed exactly the bytes of the pong that came, whatever they are;
/// and nothing if there are none.
pub proof fn law_pong_hands_over_its_bytes(
    handles: Seq<oneshot::Sender<PingPayload>>,
    bytes: Seq<u8>,
)
    ensures
        reaction(FrameView::Pong { payload: Some(bytes) }) == ReactionView::WakeUp(Some(bytes)),
        reaction(FrameView::Pong { payload: None }) == ReactionView::WakeUp(None),
        wake_ups(handles, Some(bytes)).len() == handles.len(),
        wake_ups(handles, None).len() == handles.len(),
        forall|i: int|
            0 <= i < handles.len() && bytes.len() > 0 ==> #[trigger] wake_ups(
                handles,
                Some(bytes),
            )[i] == (handles[i], Some(bytes)),
        forall|i: int|
            0 <= i < handles.len() && bytes.len() == 0 ==> #[trigger] wake_ups(
                handles,
                Some(bytes),
            )[i] == (handles[i], None::<Seq<u8>>),
        forall|i: int|
            0 <= i < handles.len() ==> #[trigger] wake_ups(handles, None)[i] == (
                handles[i],
                None::<Seq<u8>>,
            ),
        bytes.len() > 0 ==> pong_payload(Some(bytes)) == Some(bytes),
{
}

/// The write half is told of pings and close frames and of nothing else: a ping makes for a pong
/// with its payload, a close frame for its echo. Data is passed on as it is.
pub proof fn law_reactions_keep_what_came(frame: FrameView)
    ensures
        match reaction(frame) {
            ReactionView::Notify(EventView::SendPongFrame(FrameView::Pong { payload })) => frame == (
            FrameView::Ping { payload }),
            ReactionView::Notify(EventView::SendCloseFrameAndShutdown(echo)) => frame is Close
                && echo == frame,
            ReactionView::WakeUp(payload) => frame == (FrameView::Pong { payload }),
            ReactionView::Data(data) => (frame is Text || frame is Binary) && data == frame,
            _ => false,
        },
{
}

/// Where the write half is to be told of an event, the event ends up in the channel as the last one,
/// or else the step is an error. Without an error a close frame ends the stream, and no other does.
pub proof fn law_events_are_told_or_an_error_comes(
    step: MessageStep,
    frame: FrameView,
    before: Seq<EventView>,
    event: EventView,
    after: Seq<EventView>,
)
    requires
        follows_event(step, frame),
        notifies(step, before, event, after),
    ensures
        step matches Step::Ready(Some(result)) ==> result == Err::<Message, WebSocketError>(
            WebSocketError::ChannelError,
        ) && after == before,
        step == MessageStep::Ready(None) ==> frame is Close && after == before + seq![event],
        step is Pending ==> !(frame is Close) && after == before + seq![event],
{
    assert(before.push(event) =~= before + seq![event]);
}

/// The records of a connection tell of every event and of everyone who was woken up, one by one.
pub proof fn law_every_record_is_seen(
    events: Seq<Event>,
    deliveries: Seq<(oneshot::Sender<PingPayload>, PingPayload)>,
)
    ensures
        event_views(events).len() == events.len(),
        forall|i: int| 0 <= i < events.len() ==> #[trigger] event_views(events)[i] == events[i]@,
        delivery_views(deliveries).len() == deliveries.len(),
        forall|i: int|
            0 <= i < deliveries.len() ==> {
                &&& (#[trigger] delivery_views(deliveries)[i]).0 == deliveries[i].0
                &&& match deliveries[i].1.payload {
                    Some(bytes) => delivery_views(deliveries)[i].1 == Some(bytes@),
                    None => delivery_views(deliveries)[i].1 is None,
                }
            },
{
}

/// Those who wait for a pong are those who waited before, followed by all whose handles were
/// collected since, in order.
pub proof fn law_nobody_who_waits_is_forgotten(
    half: &WebSocketReadHalf,
    before: &WebSocketReadHalf,
    more: Seq<oneshot::Sender<PingPayload>>,
)
    requires
        half.collected() == before.collected() + more,
    ensures
        half.waiting_since(before) == before.waiting() + more,
{
    assert((before.collected() + more).skip(before.collected().len() as int) =~= more);
}

/// While a half is quiet no event is told, no handle is collected, nobody is woken up, and everyone
/// goes on waiting.
pub proof fn law_quiet_half_does_nothing(half: &WebSocketReadHalf, before: &WebSocketReadHalf)
    requires
        half.quiet_since(before),
    ensures
        half.channels() == before.channels(),
        half.sent() == before.sent(),
        half.offered() == before.offered(),
        half.exhausted() == before.exhausted(),
        half.collected() == before.collected(),
        half.waiting() == before.waiting(),
        half.woken() == before.woken(),
        half.waiting_since(before) == before.waiting(),
{
    assert(before.collected() + Seq::empty() =~= before.collected());
    law_nobody_who_waits_is_forgotten(half, before, Seq::empty());
    assert(before.waiting() + Seq::empty() =~= before.waiting());
}

} // verus!
