use websockets::batched::{Batched, FlushAction, FlushEvent, Prioritized, ReadyAction};

fn drain(batched: &mut Batched<(), u32>) -> Vec<u32> {
    let mut sent = Vec::new();
    let mut event = FlushEvent::Begin;
    loop {
        event = match batched.flush(event) {
            FlushAction::PollReady => FlushEvent::SinkReady,
            FlushAction::StartSend(item) => {
                sent.push(item);
                FlushEvent::ItemSent
            }
            FlushAction::Done => return sent,
        };
    }
}

#[test]
fn items_go_straight_through_an_empty_buffer() {
    let mut batched: Batched<(), u32> = Batched::new((), 4);
    assert_eq!(batched.poll_ready(), ReadyAction::AskSink);
    assert_eq!(batched.start_send(1), Some(1));
    assert_eq!(batched.start_send_prioritized(Prioritized(2)), Some(2));
    assert_eq!(batched.poll_ready(), ReadyAction::AskSink);
    assert_eq!(drain(&mut batched), vec![]);
}

#[test]
fn batches_keep_their_order() {
    let mut batched: Batched<(), u32> = Batched::new((), 4);
    let batch = batched.start_send_batch(vec![1, 2, 3]);
    assert_eq!(batch.now, Some(1));
    batched.queue_batch(batch.later);
    assert_eq!(batched.poll_ready(), ReadyAction::FlushBuffer);
    assert_eq!(batched.start_send(4), None);
    let batch = batched.start_send_batch(vec![5, 6]);
    assert_eq!(batch.now, None);
    batched.queue_batch(batch.later);
    assert_eq!(batched.start_send_prioritized(Prioritized(0)), None);
    assert_eq!(drain(&mut batched), vec![0, 2, 3, 4, 5, 6]);
    let batch = batched.start_send_batch(vec![]);
    assert_eq!(batch.now, None);
    assert_eq!(batch.later, vec![]);
}

#[test]
fn a_flush_can_stop_and_go_on() {
    let mut batched: Batched<(), u32> = Batched::new((), 4);
    batched.queue_batch(vec![1, 2]);
    assert_eq!(batched.flush(FlushEvent::Begin), FlushAction::PollReady);
    assert_eq!(batched.flush(FlushEvent::SinkReady), FlushAction::StartSend(1));
    assert_eq!(batched.flush(FlushEvent::ItemSent), FlushAction::PollReady);
    assert_eq!(drain(&mut batched), vec![2]);
    assert_eq!(batched.flush(FlushEvent::SinkReady), FlushAction::Done);
    assert_eq!(batched.flush(FlushEvent::ItemSent), FlushAction::Done);
}

#[test]
fn the_capacity_limits_the_buffer() {
    let mut batched: Batched<(), u32> = Batched::new((), 8);
    assert!(batched.capacity() >= 8);
    batched.queue_batch(vec![1, 2]);
    batched.deflate_buffer(0);
    assert!(batched.capacity() >= 2);
    assert!(batched.is_full(2));
    assert!(!batched.is_full(3));
    assert_eq!(drain(&mut batched), vec![1, 2]);
}

#[test]
fn the_wrapped_sink_is_reached() {
    let mut batched: Batched<String, u32> = Batched::new("sink".to_string(), 1);
    assert_eq!(batched.get_ref(), "sink");
    batched.get_mut().push('!');
    assert_eq!(batched.get_ref(), "sink!");
}
