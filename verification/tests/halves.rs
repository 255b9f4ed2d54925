use tokio::sync::oneshot;
use websockets::batched::{Batched, FlushAction as BufferAction, FlushEvent};
use websockets::error::InvalidFrameReason;
use websockets::ops::{ClosePayload, PingPayload, Status};
use websockets::websocket::frame::Frame;
use websockets::websocket::message::{Fragmentation, IncompleteMessage, Message, MessageFragment};
use websockets::websocket::split::read::{
    notified, ping_payload_of, react, Event, FragmentedMessage, Reaction, WebSocketReadHalf,
};
use websockets::websocket::split::write::{
    close_error, FlushAction, PollFlushAction, PollFlushEvent, ReadyAction, ReadyEvent, SendAction,
    WebSocketWriteHalf,
};
use websockets::websocket::step::Step;
use websockets::WebSocketError;

#[test]
fn assert_send_sync()
where
    WebSocketReadHalf: Send + Sync,
    WebSocketWriteHalf<Vec<u8>>: Send + Sync,
{
}

struct Reader {
    half: WebSocketReadHalf,
    events: flume::Receiver<Event>,
    pongs: flume::Sender<oneshot::Sender<PingPayload>>,
}

fn reader() -> Reader {
    let (event_sender, events) = flume::unbounded();
    let (pongs, pong_receiver) = flume::unbounded();
    Reader { half: WebSocketReadHalf::new(event_sender, pong_receiver), events, pongs }
}

fn text(payload: &[u8], continuation: bool, fin: bool) -> Frame {
    Frame::Text { payload: payload.to_vec(), continuation, fin }
}

fn binary(payload: &[u8], continuation: bool, fin: bool) -> Frame {
    Frame::Binary { payload: payload.to_vec(), continuation, fin }
}

fn message(step: Step<Option<Result<Message, WebSocketError>>>) -> Message {
    match step {
        Step::Ready(Some(Ok(message))) => message,
        other => panic!("{:?}", other),
    }
}

fn fragment(step: Step<Option<Result<MessageFragment, WebSocketError>>>) -> MessageFragment {
    match step {
        Step::Ready(Some(Ok(fragment))) => fragment,
        other => panic!("{:?}", other),
    }
}

fn text_fragment(step: Step<Option<Result<MessageFragment, WebSocketError>>>) -> String {
    match fragment(step) {
        MessageFragment::Text(text) => text,
        other => panic!("{:?}", other),
    }
}

#[test]
fn messages_are_received() {
    let mut r = reader();
    assert_eq!(
        message(r.half.on_frame(text(b"foo", false, true))),
        Message::Text("foo".to_string())
    );
    assert!(matches!(r.half.on_frame(binary(&[1], false, false)), Step::Pending));
    assert!(matches!(r.half.on_frame(Frame::pong(None)), Step::Pending));
    assert!(matches!(r.half.on_frame(binary(&[2], true, false)), Step::Pending));
    assert_eq!(message(r.half.on_frame(binary(&[3], true, true))), Message::Binary(vec![1, 2, 3]));
    assert!(matches!(
        r.half.on_frame(text(&[0xc3], false, true)),
        Step::Ready(Some(Err(WebSocketError::InvalidFrame(InvalidFrameReason::BadUtf8))))
    ));
}

#[test]
fn pings_and_closes_are_passed_on() {
    let mut r = reader();
    assert!(matches!(r.half.on_frame(Frame::ping(Some(vec![1, 2]))), Step::Pending));
    assert_eq!(
        r.events.try_recv().unwrap(),
        Event::SendPongFrame(Frame::pong(Some(vec![1, 2])))
    );
    let close = Frame::close(Some((1000, "bye".to_string())));
    assert!(matches!(r.half.on_frame(close.clone()), Step::Ready(None)));
    assert_eq!(r.events.try_recv().unwrap(), Event::SendCloseFrameAndShutdown(close));
}

#[test]
fn a_lost_write_half_is_reported() {
    let mut r = reader();
    drop(r.events);
    assert!(matches!(
        r.half.on_frame(Frame::ping(None)),
        Step::Ready(Some(Err(WebSocketError::ChannelError)))
    ));
    assert!(matches!(
        r.half.on_frame(Frame::close(None)),
        Step::Ready(Some(Err(WebSocketError::ChannelError)))
    ));
}

#[test]
fn pongs_wake_up_all_who_wait() {
    let mut r = reader();
    let (first, mut first_pong) = oneshot::channel();
    let (second, mut second_pong) = oneshot::channel();
    r.pongs.send(first).unwrap();
    r.pongs.send(second).unwrap();
    assert!(matches!(r.half.on_frame(Frame::ping(None)), Step::Pending));
    assert!(first_pong.try_recv().is_err());
    assert!(matches!(r.half.on_frame(Frame::pong(Some(vec![7]))), Step::Pending));
    assert_eq!(first_pong.try_recv().unwrap(), PingPayload { payload: Some(vec![7]) });
    assert_eq!(second_pong.try_recv().unwrap(), PingPayload { payload: Some(vec![7]) });
    let (third, mut third_pong) = oneshot::channel();
    r.pongs.send(third).unwrap();
    assert!(matches!(r.half.on_frame(Frame::pong(Some(vec![]))), Step::Pending));
    assert_eq!(third_pong.try_recv().unwrap(), PingPayload { payload: None });
}

#[test]
fn collected_handles_wake_up_in_a_pong() {
    let mut r = reader();
    let (handle, mut pong) = oneshot::channel();
    assert!(r.half.collect_pong(Some(handle)));
    assert!(!r.half.collect_pong(None));
    assert!(matches!(r.half.on_frame(Frame::pong(Some(vec![3]))), Step::Pending));
    assert_eq!(pong.try_recv().unwrap(), PingPayload { payload: Some(vec![3]) });
}

#[test]
fn reactions_are_exact() {
    assert_eq!(
        react(Frame::ping(None)),
        Reaction::Notify(Event::SendPongFrame(Frame::pong(None)))
    );
    assert_eq!(react(Frame::pong(Some(vec![1]))), Reaction::WakeUp(Some(vec![1])));
    assert_eq!(
        react(Frame::close(None)),
        Reaction::Notify(Event::SendCloseFrameAndShutdown(Frame::close(None)))
    );
    assert_eq!(react(text(b"a", false, true)), Reaction::Data(text(b"a", false, true)));
    assert!(matches!(notified::<Message>(false, true), Step::Pending));
    assert!(matches!(notified::<Message>(true, true), Step::Ready(None)));
    assert!(matches!(
        notified::<Message>(true, false),
        Step::Ready(Some(Err(WebSocketError::ChannelError)))
    ));
    assert_eq!(ping_payload_of(&None), PingPayload { payload: None });
    assert_eq!(ping_payload_of(&Some(vec![])), PingPayload { payload: None });
    assert_eq!(ping_payload_of(&Some(vec![1])), PingPayload { payload: Some(vec![1]) });
}

#[test]
fn the_end_of_the_stream_is_a_closed_websocket() {
    assert!(matches!(
        WebSocketReadHalf::receive(None),
        Err(WebSocketError::WebSocketClosedError)
    ));
    assert_eq!(
        WebSocketReadHalf::receive(Some(Ok(Message::Binary(vec![1])))).unwrap(),
        Message::Binary(vec![1])
    );
    assert!(matches!(
        WebSocketReadHalf::receive(Some(Err(WebSocketError::PayloadTooLarge))),
        Err(WebSocketError::PayloadTooLarge)
    ));
}

#[test]
fn text_is_read_in_fragments_wherever_it_is_cut() {
    let whole = "aé€😀z";
    let bytes = whole.as_bytes();
    for size in 1..=bytes.len() {
        let mut r = reader();
        let mut fragments: FragmentedMessage = r.half.receive_fragmented();
        let chunks: Vec<&[u8]> = bytes.chunks(size).collect();
        let mut read = String::new();
        for (i, chunk) in chunks.iter().enumerate() {
            assert!(!fragments.is_terminated());
            let frame = text(chunk, i > 0, i == chunks.len() - 1);
            read.push_str(&text_fragment(fragments.on_frame(&mut r.half, frame)));
        }
        assert_eq!(read, whole);
        assert!(fragments.is_terminated());
        fragments.abandon(&mut r.half);
        assert_eq!(
            message(r.half.on_frame(text(b"next", false, true))),
            Message::Text("next".to_string())
        );
    }
}

#[test]
fn fragments_start_with_what_was_received() {
    let mut r = reader();
    assert!(matches!(r.half.on_frame(text(&[b'a', 0xc3], false, false)), Step::Pending));
    let mut fragments = r.half.receive_fragmented();
    match fragments.take_partial(&mut r.half) {
        Some(Ok(MessageFragment::Text(text))) => assert_eq!(text, "a"),
        other => panic!("{:?}", other),
    }
    assert!(fragments.take_partial(&mut r.half).is_none());
    assert_eq!(text_fragment(fragments.on_frame(&mut r.half, text(&[0xa9], true, true))), "é");
    assert!(fragments.is_terminated());

    let mut r = reader();
    assert!(matches!(r.half.on_frame(binary(&[1, 2], false, false)), Step::Pending));
    let mut fragments = r.half.receive_fragmented();
    assert!(matches!(
        fragments.take_partial(&mut r.half),
        Some(Ok(MessageFragment::Binary(bytes))) if bytes == vec![1, 2]
    ));
    assert_eq!(
        fragment(fragments.on_frame(&mut r.half, binary(&[3], true, true))),
        MessageFragment::Binary(vec![3])
    );
}

#[test]
fn bad_text_in_fragments_is_reported() {
    let mut r = reader();
    let mut fragments = r.half.receive_fragmented();
    let bad = |step: Step<Option<Result<MessageFragment, WebSocketError>>>| {
        assert!(matches!(
            step,
            Step::Ready(Some(Err(WebSocketError::InvalidFrame(InvalidFrameReason::BadUtf8))))
        ))
    };
    bad(fragments.on_frame(&mut r.half, text(&[b'a', 0x80], false, true)));
    assert!(!fragments.is_terminated());
    bad(fragments.on_frame(&mut r.half, text(&[0xff, b'a'], true, true)));
    assert!(fragments.is_terminated());
}

#[test]
fn a_pong_between_fragments_wakes_up_all_who_wait() {
    let mut r = reader();
    let (handle, mut pong) = oneshot::channel();
    r.pongs.send(handle).unwrap();
    let mut fragments = r.half.receive_fragmented();
    assert!(matches!(
        fragments.on_frame(&mut r.half, Frame::pong(Some(vec![4]))),
        Step::Pending
    ));
    assert_eq!(pong.try_recv().unwrap(), PingPayload { payload: Some(vec![4]) });
}

#[test]
fn control_frames_between_fragments() {
    let mut r = reader();
    let mut fragments = r.half.receive_fragmented();
    assert!(matches!(
        fragments.on_frame(&mut r.half, Frame::ping(Some(vec![1]))),
        Step::Pending
    ));
    assert_eq!(r.events.try_recv().unwrap(), Event::SendPongFrame(Frame::pong(Some(vec![1]))));
    assert!(matches!(fragments.on_frame(&mut r.half, Frame::pong(None)), Step::Pending));
    assert!(matches!(fragments.on_frame(&mut r.half, Frame::close(None)), Step::Ready(None)));
    assert_eq!(
        r.events.try_recv().unwrap(),
        Event::SendCloseFrameAndShutdown(Frame::close(None))
    );
}

#[test]
fn an_abandoned_message_is_skipped() {
    let mut r = reader();
    let mut fragments = r.half.receive_fragmented();
    assert_eq!(text_fragment(fragments.on_frame(&mut r.half, text(b"a", false, false))), "a");
    fragments.abandon(&mut r.half);
    assert!(matches!(r.half.on_frame(text(b"b", true, false)), Step::Pending));
    assert!(matches!(r.half.on_frame(text(b"c", true, true)), Step::Pending));
    assert_eq!(message(r.half.on_frame(binary(&[1], false, true))), Message::Binary(vec![1]));

    let mut fragments = r.half.receive_fragmented();
    assert_eq!(text_fragment(fragments.on_frame(&mut r.half, text(b"d", false, false))), "d");
    fragments.abandon(&mut r.half);
    let mut fragments = r.half.receive_fragmented();
    assert!(matches!(fragments.on_frame(&mut r.half, text(b"e", true, true)), Step::Pending));
    assert!(!fragments.is_terminated());
    assert_eq!(text_fragment(fragments.on_frame(&mut r.half, text(b"f", false, true))), "f");
    assert!(fragments.is_terminated());
}

#[test]
fn the_read_half_gives_up_what_it_has() {
    let mut r = reader();
    assert!(r.half.accepts(&text(b"a", false, false)));
    assert!(!r.half.accepts(&text(b"a", true, false)));
    assert!(matches!(r.half.on_frame(text(b"a", false, false)), Step::Pending));
    assert_eq!(r.half.into_parts(), (Some(IncompleteMessage::Text(b"a".to_vec())), false));
}

struct Writer {
    half: WebSocketWriteHalf<()>,
    events: flume::Sender<Event>,
    pongs: flume::Receiver<oneshot::Sender<PingPayload>>,
}

fn writer(fragmentation: Fragmentation) -> Writer {
    let (events, receiver) = flume::unbounded();
    let (pong_sender, pongs) = flume::unbounded();
    let half =
        WebSocketWriteHalf::new(Batched::new((), 16), fragmentation, receiver, pong_sender);
    Writer { half, events, pongs }
}

fn queue(writer: &mut Writer) -> Vec<Frame> {
    let mut frames = Vec::new();
    while let BufferAction::StartSend(frame) = writer.half.stream_mut().flush(FlushEvent::SinkReady)
    {
        frames.push(frame);
    }
    frames
}

#[test]
fn messages_are_brought_into_frames() {
    let mut w = writer(Fragmentation::WithThreshold { threshold: 2, max_frame_size: 2 });
    let batch = w.half.start_send(Message::Binary(vec![1, 2, 3])).unwrap();
    assert_eq!(batch.now, Some(binary(&[1, 2], false, false)));
    assert_eq!(batch.later, vec![binary(&[3], true, true)]);
    w.half.stream_mut().queue_batch(batch.later);
    let batch = w.half.start_send(Message::Text("x".to_string())).unwrap();
    assert_eq!(batch.now, None);
    assert_eq!(batch.later, vec![text(b"x", false, true)]);
    w.half.stream_mut().queue_batch(batch.later);
    assert_eq!(queue(&mut w), vec![binary(&[3], true, true), text(b"x", false, true)]);
    assert!(w.half.can_send(&Message::Binary(vec![1, 2, 3])));
    let w = writer(Fragmentation::WithThreshold { threshold: 0, max_frame_size: 0 });
    assert!(!w.half.can_send(&Message::Binary(vec![])));
}

#[test]
fn a_closed_half_refuses() {
    let mut w = writer(Fragmentation::WithThreshold { threshold: 0, max_frame_size: 0 });
    w.half.begin_close();
    assert!(w.half.is_shutdown());
    assert!(w.half.can_send(&Message::Binary(vec![])));
    assert!(matches!(
        w.half.start_send(Message::Binary(vec![])),
        Err(WebSocketError::WebSocketClosedError)
    ));
    assert!(matches!(
        w.half.send_ping(None),
        SendAction::Refuse(WebSocketError::WebSocketClosedError)
    ));
    assert!(matches!(
        w.half.close(None),
        SendAction::Refuse(WebSocketError::WebSocketClosedError)
    ));
    assert!(matches!(w.half.poll_ready(ReadyEvent::Begin), ReadyAction::CloseStream));
    assert!(matches!(
        w.half.poll_ready(ReadyEvent::StreamClosed(Ok(()))),
        ReadyAction::Return(Err(WebSocketError::WebSocketClosedError))
    ));
    assert!(matches!(
        w.half.poll_ready(ReadyEvent::StreamClosed(Err(WebSocketError::ChannelError))),
        ReadyAction::Return(Err(WebSocketError::ChannelError))
    ));
}

#[test]
fn events_are_answered_before_anything_else() {
    let mut w = writer(Fragmentation::Disabled);
    w.half.stream_mut().queue_batch(vec![text(b"waits", false, true)]);
    w.events.send(Event::SendPongFrame(Frame::pong(Some(vec![1])))).unwrap();
    assert!(matches!(w.half.poll_ready(ReadyEvent::Begin), ReadyAction::PollStream));
    assert!(matches!(w.half.poll_ready(ReadyEvent::StreamReady), ReadyAction::PollStream));
    assert!(matches!(
        w.half.poll_ready(ReadyEvent::StreamReady),
        ReadyAction::Return(Ok(()))
    ));
    assert_eq!(queue(&mut w), vec![Frame::pong(Some(vec![1])), text(b"waits", false, true)]);
}

#[test]
fn a_close_is_echoed_and_shuts_down() {
    let mut w = writer(Fragmentation::Disabled);
    let close = Frame::close(Some((1000, String::new())));
    match w.half.feed_event(Some(Event::SendCloseFrameAndShutdown(close.clone()))) {
        ReadyAction::StartSend { frame, closing } => {
            assert_eq!(frame, close);
            assert!(closing);
        }
        other => panic!("{:?}", other),
    }
    assert!(!w.half.is_shutdown());
    assert!(matches!(
        w.half.poll_ready(ReadyEvent::FrameTaken { closing: true }),
        ReadyAction::PollStream
    ));
    assert!(w.half.is_shutdown());

    let mut w = writer(Fragmentation::Disabled);
    w.half.stream_mut().queue_batch(vec![text(b"waits", false, true)]);
    assert!(matches!(
        w.half.feed_event(Some(Event::SendCloseFrameAndShutdown(close.clone()))),
        ReadyAction::PollStream
    ));
    assert!(w.half.is_shutdown());
    assert_eq!(queue(&mut w), vec![close.clone(), text(b"waits", false, true)]);

    let mut w = writer(Fragmentation::Disabled);
    w.half.drop();
    assert!(matches!(
        w.half.feed_event(Some(Event::SendCloseFrameAndShutdown(close))),
        ReadyAction::PollStream
    ));
    assert_eq!(queue(&mut w), vec![]);
}

#[test]
fn events_are_flushed() {
    let mut w = writer(Fragmentation::Disabled);
    assert_eq!(w.half.flush_events(), FlushAction::Done);
    w.events.send(Event::SendPongFrame(Frame::pong(None))).unwrap();
    w.events.send(Event::SendCloseFrameAndShutdown(Frame::close(None))).unwrap();
    assert_eq!(w.half.flush_events(), FlushAction::Send(Frame::pong(None)));
    assert_eq!(w.half.flush_events(), FlushAction::SendAndDrop(Frame::close(None)));
    assert_eq!(w.half.flush_events(), FlushAction::Done);
    let mut w = writer(Fragmentation::Disabled);
    w.half.drop();
    assert_eq!(
        w.half.flush_event(Some(Event::SendPongFrame(Frame::pong(None)))),
        FlushAction::Done
    );
}

/// Runs an operation until it is done: all frames that are sent, and how it ends.
fn run<T>(
    w: &mut Writer,
    value: T,
    step: impl Fn(&mut WebSocketWriteHalf<()>, T) -> SendAction<T>,
) -> (Vec<Frame>, Result<(), WebSocketError>) {
    let mut sent = Vec::new();
    let mut value = value;
    loop {
        value = match step(&mut w.half, value) {
            SendAction::Answer { frame, dropping, later } => {
                sent.push(frame);
                if dropping {
                    w.half.drop();
                }
                later
            }
            SendAction::Skip(later) => later,
            SendAction::Send(frame) => {
                sent.push(frame);
                return (sent, Ok(()));
            }
            SendAction::Refuse(error) => return (sent, Err(error)),
        };
    }
}

#[test]
fn a_ping_flushes_events_first() {
    let mut w = writer(Fragmentation::Disabled);
    w.events.send(Event::SendPongFrame(Frame::pong(Some(vec![1])))).unwrap();
    w.events.send(Event::SendPongFrame(Frame::pong(None))).unwrap();
    let (sent, result) = run(&mut w, Some(vec![9]), |half, payload| half.send_ping(payload));
    assert!(result.is_ok());
    assert_eq!(
        sent,
        vec![Frame::pong(Some(vec![1])), Frame::pong(None), Frame::ping(Some(vec![9]))]
    );
    assert_eq!(w.half.flush_events(), FlushAction::Done);
}

#[test]
fn nothing_follows_the_echo() {
    let close = Frame::close(Some((1000, String::new())));
    let mut w = writer(Fragmentation::Disabled);
    w.events.send(Event::SendPongFrame(Frame::pong(None))).unwrap();
    w.events.send(Event::SendCloseFrameAndShutdown(close.clone())).unwrap();
    w.events.send(Event::SendPongFrame(Frame::pong(None))).unwrap();
    let (sent, result) = run(&mut w, None, |half, payload| half.send_ping(payload));
    assert!(matches!(result, Err(WebSocketError::WebSocketClosedError)));
    assert_eq!(sent, vec![Frame::pong(None), close.clone()]);

}

#[test]
fn closing_sends_one_last_frame() {
    let mut w = writer(Fragmentation::Disabled);
    w.events.send(Event::SendPongFrame(Frame::pong(Some(vec![1])))).unwrap();
    w.events.send(Event::SendCloseFrameAndShutdown(Frame::close(None))).unwrap();
    w.events.send(Event::SendPongFrame(Frame::pong(Some(vec![2])))).unwrap();
    let payload = ClosePayload { status: Status::GoingAway, reason: None };
    let (sent, result) = run(&mut w, Some(payload), |half, payload| half.close(payload));
    assert!(result.is_ok());
    assert_eq!(
        sent,
        vec![
            Frame::pong(Some(vec![1])),
            Frame::pong(Some(vec![2])),
            Frame::close(Some((1001, String::new()))),
        ]
    );
}

#[test]
fn sending_depends_on_the_next_event() {
    let w = writer(Fragmentation::Disabled);
    assert!(matches!(
        w.half.send_ping_after(Some(Event::SendPongFrame(Frame::pong(None))), Some(vec![1])),
        SendAction::Answer { frame: Frame::Pong { payload: None }, dropping: false, later: Some(_) }
    ));
    assert!(matches!(
        w.half.send_ping_after(Some(Event::SendCloseFrameAndShutdown(Frame::close(None))), None),
        SendAction::Answer { frame: Frame::Close { payload: None }, dropping: true, later: None }
    ));
    assert!(matches!(
        w.half.close_after(Some(Event::SendCloseFrameAndShutdown(Frame::close(None))), None),
        SendAction::Skip(None)
    ));
    assert!(matches!(
        w.half.close_after(None, None),
        SendAction::Send(Frame::Close { payload: None })
    ));
    let bad = ClosePayload { status: Status::PrivateStatus(3000), reason: None };
    assert!(matches!(
        w.half.close_after(Some(Event::SendPongFrame(Frame::pong(None))), Some(bad)),
        SendAction::Refuse(WebSocketError::BadStatus)
    ));
}

#[test]
fn events_are_flushed_from_a_poll() {
    let mut w = writer(Fragmentation::Disabled);
    w.events.send(Event::SendPongFrame(Frame::pong(None))).unwrap();
    let step = |w: &mut Writer, event: PollFlushEvent| w.half.poll_flush_events(event);
    assert_eq!(step(&mut w, PollFlushEvent::Begin), PollFlushAction::PollStream);
    assert_eq!(
        step(&mut w, PollFlushEvent::StreamReady),
        PollFlushAction::StartSend { frame: Frame::pong(None), closing: false }
    );
    assert_eq!(
        step(&mut w, PollFlushEvent::FrameTaken { closing: false }),
        PollFlushAction::PollStream
    );
    assert_eq!(step(&mut w, PollFlushEvent::StreamReady), PollFlushAction::FlushStream);
    assert_eq!(step(&mut w, PollFlushEvent::StreamFlushed), PollFlushAction::Done);

    w.half.stream_mut().queue_batch(vec![text(b"waits", false, true)]);
    let close = Event::SendCloseFrameAndShutdown(Frame::close(None));
    assert_eq!(w.half.poll_flush_event(Some(close)), PollFlushAction::PollStream);
    assert_eq!(step(&mut w, PollFlushEvent::StreamReady), PollFlushAction::CloseStream);
    assert_eq!(step(&mut w, PollFlushEvent::Begin), PollFlushAction::CloseStream);
    assert_eq!(step(&mut w, PollFlushEvent::StreamClosed), PollFlushAction::Done);
    assert_eq!(step(&mut w, PollFlushEvent::Begin), PollFlushAction::Done);
}

#[test]
fn the_echo_is_awaited() {
    let w = writer(Fragmentation::Disabled);
    w.events.send(Event::SendCloseFrameAndShutdown(Frame::close(None))).unwrap();
    let event = w.half.events().try_recv().ok();
    assert!(WebSocketWriteHalf::<()>::is_closed_by_peer(&event));
    assert!(WebSocketWriteHalf::<()>::is_closed_by_peer(&None));
    let pong = Some(Event::SendPongFrame(Frame::pong(None)));
    assert!(!WebSocketWriteHalf::<()>::is_closed_by_peer(&pong));
}

#[test]
fn a_full_channel_does_not_block() {
    let (event_sender, events) = flume::bounded(0);
    let (_pongs, pong_receiver) = flume::unbounded();
    let mut half = WebSocketReadHalf::new(event_sender, pong_receiver);
    assert!(matches!(
        half.on_frame(Frame::ping(None)),
        Step::Ready(Some(Err(WebSocketError::ChannelError)))
    ));
    assert!(events.try_recv().is_err());
}

#[test]
fn a_cut_off_end_is_lost() {
    let mut r = reader();
    let mut fragments = r.half.receive_fragmented();
    assert_eq!(
        text_fragment(fragments.on_frame(&mut r.half, text(&[b'a', 0xc3], false, true))),
        "a"
    );
    assert!(fragments.is_terminated());
}

#[test]
fn pings_are_sent_and_awaited() {
    let mut w = writer(Fragmentation::Disabled);
    assert!(matches!(
        w.half.send_ping(Some(vec![9])),
        SendAction::Send(Frame::Ping { payload: Some(payload) }) if payload == vec![9]
    ));
    let (handle, mut pong) = oneshot::channel();
    assert!(w.half.ping_sent(handle));
    let handle = w.pongs.try_recv().unwrap();
    handle.send(PingPayload { payload: None }).unwrap();
    assert_eq!(pong.try_recv().unwrap(), PingPayload { payload: None });
}

#[test]
fn closing_needs_a_status_that_may_be_sent() {
    let mut w = writer(Fragmentation::Disabled);
    let payload = ClosePayload { status: Status::GoingAway, reason: Some("x".to_string()) };
    match w.half.close(Some(payload)) {
        SendAction::Send(frame) => {
            assert_eq!(frame, Frame::close(Some((1001, "x".to_string()))))
        }
        other => panic!("{:?}", other),
    }
    w.events.send(Event::SendPongFrame(Frame::pong(None))).unwrap();
    for status in [Status::AbnormalShutdown, Status::RegisteredStatus(1005)] {
        assert!(matches!(
            w.half.close(Some(ClosePayload { status, reason: None })),
            SendAction::Refuse(WebSocketError::BadStatus)
        ));
    }
    assert_eq!(w.half.flush_events(), FlushAction::Send(Frame::pong(None)));
    let error = std::io::Error::from(std::io::ErrorKind::BrokenPipe);
    assert!(matches!(
        close_error(WebSocketError::WriteError(error)),
        WebSocketError::ShutdownError(_)
    ));
    assert!(matches!(close_error(WebSocketError::ChannelError), WebSocketError::ChannelError));
}
