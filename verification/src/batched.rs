//! A useful utility for slowly feeding a vector of items into the wrapped sink.

use std::collections::VecDeque;

use vstd::prelude::*;

use crate::boundary;

verus! {

/// Wraps a sink and buffers it so it can accept a bulk of items in one operation.
///
/// This is useful if you are implementing a wrapper around a sink that
/// for example fragments its item and forwards it to the next sink.
///
/// The wrapped sink is driven from outside: each operation says which item, if any, has to be
/// handed to it.
#[derive(Debug)]
pub struct Batched<Si, Item> {
    sink: Si,
    buf: VecDeque<Item>,
}

/// Add an item to the front of the flush buffer of a [`Batched`] sink.
#[derive(Debug)]
pub struct Prioritized<Item>(pub Item);

/// A batch that was accepted: an item to hand to the wrapped sink at once, and the items to put
/// into the buffer once that has succeeded.
#[derive(Debug)]
pub struct Batch<Item> {
    pub now: Option<Item>,
    pub later: Vec<Item>,
}

/// What happened while the buffer is being flushed.
#[derive(Debug, Clone, Copy, PartialEq, Eq, Structural)]
pub enum FlushEvent {
    /// The flush begins.
    Begin,
    /// The wrapped sink is ready for an item.
    SinkReady,
    /// The wrapped sink took the item.
    ItemSent,
}

/// What to do next while the buffer is being flushed.
#[derive(Debug, PartialEq, Eq)]
pub enum FlushAction<Item> {
    /// Wait until the wrapped sink is ready for an item.
    PollReady,
    /// Hand the item to the wrapped sink.
    StartSend(Item),
    /// The buffer is empty.
    Done,
}

/// How to find out whether an item can be accepted.
#[derive(Debug, Clone, Copy, PartialEq, Eq, Structural)]
pub enum ReadyAction {
    /// Ask the wrapped sink.
    AskSink,
    /// Flush the buffer as far as possible, and see whether there is room in it.
    FlushBuffer,
}

/// The items that are handed to the wrapped sink at once: the first, if nothing waits before it.
pub open spec fn sent_at_once<Item>(queue: Seq<Item>, items: Seq<Item>) -> Seq<Item> {
    if queue.len() == 0 && items.len() > 0 {
        items.take(1)
    } else {
        Seq::empty()
    }
}

/// The item that a run of at most one stands for.
pub open spec fn at_most_one<Item>(items: Seq<Item>) -> Option<Item> {
    if items.len() == 0 {
        None
    } else {
        Some(items[0])
    }
}

/// The run of at most one that an optional item stands for.
pub open spec fn one_or_none<Item>(item: Option<Item>) -> Seq<Item> {
    match item {
        Some(item) => seq![item],
        None => Seq::empty(),
    }
}

impl<Si, Item> Batched<Si, Item> {
    /// The items that wait in the buffer, the next one first.
    pub closed spec fn queue(&self) -> Seq<Item> {
        self.buf@
    }

    /// The wrapped sink.
    pub closed spec fn wrapped(&self) -> Si {
        self.sink
    }

    /// Wrap a sink and give it the ability to accept items in batches.
    pub fn new(sink: Si, starting_size: usize) -> (r: Self)
        ensures
            r.wrapped() == sink,
            r.queue() == Seq::<Item>::empty(),
    {
        let mut buf: VecDeque<Item> = VecDeque::new();
        buf.reserve(starting_size);
        Batched { sink, buf }
    }

    /// Access the wrapped sink immutably.
    pub fn get_ref(&self) -> (r: &Si)
        ensures
            *r == self.wrapped(),
    {
        &self.sink
    }

    /// Access the wrapped sink mutably.
    pub fn get_mut(&mut self) -> (r: &mut Si)
        ensures
            *r == old(self).wrapped(),
            final(self).wrapped() == *final(r),
            final(self).queue() == old(self).queue(),
    {
        &mut self.sink
    }

    /// Deflate the allocation of the buffer to a target size.
    /// The actual capacity after this function is at least the target size or the length of the
    /// buffer, whichever is largest. What waits in the buffer stays.
    pub fn deflate_buffer(&mut self, target_size: usize)
        ensures
            final(self).queue() == old(self).queue(),
            final(self).wrapped() == old(self).wrapped(),
    {
        boundary::deque_shrink_to(&mut self.buf, target_size);
    }

    /// How many items the buffer holds before it has to grow.
    pub fn capacity(&self) -> (r: usize)
        ensures
            r >= self.queue().len(),
    {
        boundary::deque_capacity(&self.buf)
    }

    /// Accepts an item: it is handed to the wrapped sink if nothing waits before it, and else put
    /// at the end of the buffer.
    pub fn start_send(&mut self, item: Item) -> (now: Option<Item>)
        ensures
            now == at_most_one(sent_at_once(old(self).queue(), seq![item])),
            final(self).queue() == old(self).queue() + seq![item].skip(
                sent_at_once(old(self).queue(), seq![item]).len() as int,
            ),
            final(self).wrapped() == old(self).wrapped(),
            match now {
                Some(first) => {
                    &&& old(self).queue().len() == 0
                    &&& first == item
                    &&& final(self).queue().len() == 0
                },
                None => {
                    &&& old(self).queue().len() > 0
                    &&& final(self).queue() == old(self).queue().push(item)
                },
            },
            (History { sent: one_or_none(now), queue: final(self).queue() }) == (History {
                sent: Seq::empty(),
                queue: old(self).queue(),
            }).after(Operation::Send(seq![item])),
    {
        if self.buf.len() == 0 {
            assert(seq![item].skip(1) =~= Seq::empty());
            Some(item)
        } else {
            self.buf.push_back(item);
            assert(seq![item].skip(0) =~= seq![item]);
            None
        }
    }

    /// Accepts an item that goes before all others: it is handed to the wrapped sink if nothing
    /// waits, and else put at the front of the buffer.
    pub fn start_send_prioritized(&mut self, item: Prioritized<Item>) -> (now: Option<Item>)
        ensures
            now == at_most_one(sent_at_once(old(self).queue(), seq![item.0])),
            final(self).queue() == seq![item.0].skip(
                sent_at_once(old(self).queue(), seq![item.0]).len() as int,
            ) + old(self).queue(),
            final(self).wrapped() == old(self).wrapped(),
            match now {
                Some(first) => {
                    &&& old(self).queue().len() == 0
                    &&& first == item.0
                    &&& final(self).queue().len() == 0
                },
                None => {
                    &&& old(self).queue().len() > 0
                    &&& final(self).queue() == seq![item.0] + old(self).queue()
                },
            },
            (History { sent: one_or_none(now), queue: final(self).queue() }) == (History {
                sent: Seq::empty(),
                queue: old(self).queue(),
            }).after(Operation::Prioritize(item.0)),
    {
        if self.buf.len() == 0 {
            assert(seq![item.0].skip(1) =~= Seq::empty());
            Some(item.0)
        } else {
            self.buf.push_front(item.0);
            assert(seq![item.0].skip(0) =~= seq![item.0]);
            None
        }
    }

    /// Accepts a batch: its first item is handed to the wrapped sink if nothing waits before it,
    /// and the rest goes into the buffer with [`Batched::queue_batch`] once that has succeeded.
    pub fn start_send_batch(&self, items: Vec<Item>) -> (r: Batch<Item>)
        ensures
            r.now == at_most_one(sent_at_once(self.queue(), items@)),
            r.later@ == items@.skip(sent_at_once(self.queue(), items@).len() as int),
            match r.now {
                Some(first) => self.queue().len() == 0 && items@ == seq![first] + r.later@,
                None => (self.queue().len() > 0 || items@.len() == 0) && items@ == r.later@,
            },
            (History { sent: one_or_none(r.now), queue: self.queue() + r.later@ }) == (History {
                sent: Seq::empty(),
                queue: self.queue(),
            }).after(Operation::Send(items@)),
    {
        let ghost all = items@;
        let mut items: Vec<Item> = items;
        if self.buf.len() == 0 && items.len() > 0 {
            let first: Item = items.remove(0);
            assert(items@ =~= all.skip(1));
            Batch { now: Some(first), later: items }
        } else {
            assert(all.skip(0) =~= all);
            Batch { now: None, later: items }
        }
    }

    /// Puts the rest of a batch at the end of the buffer.
    pub fn queue_batch(&mut self, items: Vec<Item>)
        ensures
            final(self).queue() == old(self).queue() + items@,
            final(self).wrapped() == old(self).wrapped(),
    {
        for item in iter: items
            invariant
                iter.seq() == items@,
                self.buf@ == old(self).buf@ + items@.take(iter.index()),
                self.sink == old(self).sink,
        {
            self.buf.push_back(item);
            assert(items@.take(iter.index() + 1) =~= items@.take(iter.index()).push(item));
        }
        assert(items@.take(items@.len() as int) =~= items@);
    }

    /// How to find out whether an item can be accepted.
    pub fn poll_ready(&self) -> (r: ReadyAction)
        ensures
            r == if self.queue().len() == 0 {
                ReadyAction::AskSink
            } else {
                ReadyAction::FlushBuffer
            },
    {
        if self.buf.len() == 0 {
            ReadyAction::AskSink
        } else {
            ReadyAction::FlushBuffer
        }
    }

    /// Whether there is no room in a buffer of the given capacity, after it was flushed as far as
    /// possible.
    pub fn is_full(&self, capacity: usize) -> (r: bool)
        ensures
            r == (self.queue().len() >= capacity),
    {
        self.buf.len() >= capacity
    }

    /// Flushes the buffer: the items in it are handed to the wrapped sink in order, each time it
    /// is ready for one, until none is left.
    pub fn flush(&mut self, event: FlushEvent) -> (r: FlushAction<Item>)
        ensures
            final(self).wrapped() == old(self).wrapped(),
            match event {
                FlushEvent::Begin => {
                    &&& r == FlushAction::<Item>::PollReady
                    &&& final(self).queue() == old(self).queue()
                },
                FlushEvent::SinkReady => if old(self).queue().len() == 0 {
                    &&& r == FlushAction::<Item>::Done
                    &&& final(self).queue() == old(self).queue()
                } else {
                    &&& r == FlushAction::StartSend(old(self).queue()[0])
                    &&& final(self).queue() == old(self).queue().skip(1)
                },
                FlushEvent::ItemSent => {
                    &&& r == if old(self).queue().len() == 0 {
                        FlushAction::<Item>::Done
                    } else {
                        FlushAction::<Item>::PollReady
                    }
                    &&& final(self).queue() == old(self).queue()
                },
            },
            event is SinkReady ==> (History {
                sent: match r {
                    FlushAction::StartSend(item) => seq![item],
                    _ => Seq::empty(),
                },
                queue: final(self).queue(),
            }) == (History { sent: Seq::empty(), queue: old(self).queue() }).after(Operation::Flush),
    {
        match event {
            FlushEvent::Begin => FlushAction::PollReady,
            FlushEvent::SinkReady => match self.buf.pop_front() {
                Some(item) => {
                    assert(self.queue() =~= old(self).queue().skip(1));
                    FlushAction::StartSend(item)
                },
                None => FlushAction::Done,
            },
            FlushEvent::ItemSent => if self.buf.len() == 0 {
                FlushAction::Done
            } else {
                FlushAction::PollReady
            },
        }
    }
}

/// An operation on a batched sink, for what it does to the order of items.
pub enum Operation<Item> {
    /// Items are accepted, one or a batch.
    Send(Seq<Item>),
    /// An item is accepted that goes before all others.
    Prioritize(Item),
    /// The wrapped sink is ready while the buffer is being flushed.
    Flush,
}

/// What the wrapped sink was handed so far, and what still waits.
#[verifier::ext_equal]
pub struct History<Item> {
    pub sent: Seq<Item>,
    pub queue: Seq<Item>,
}

impl<Item> History<Item> {
    /// All items in the order in which the wrapped sink gets them, if nothing else is accepted.
    pub open spec fn order(self) -> Seq<Item> {
        self.sent + self.queue
    }

    /// The history after an operation.
    pub open spec fn after(self, operation: Operation<Item>) -> History<Item> {
        match operation {
            Operation::Send(items) => {
                let now = sent_at_once(self.queue, items);
                History { sent: self.sent + now, queue: self.queue + items.skip(now.len() as int) }
            },
            Operation::Prioritize(item) => {
                let now = sent_at_once(self.queue, seq![item]);
                History {
                    sent: self.sent + now,
                    queue: seq![item].skip(now.len() as int) + self.queue,
                }
            },
            Operation::Flush => if self.queue.len() == 0 {
                self
            } else {
                History { sent: self.sent.push(self.queue[0]), queue: self.queue.skip(1) }
            },
        }
    }

    /// The history after a run of operations.
    pub open spec fn after_all(self, operations: Seq<Operation<Item>>) -> History<Item>
        decreases operations.len(),
    {
        if operations.len() == 0 {
            self
        } else {
            self.after_all(operations.drop_last()).after(operations.last())
        }
    }
}

/// All items that a run of operations accepts, in order.
pub open spec fn accepted<Item>(operations: Seq<Operation<Item>>) -> Seq<Item>
    decreases operations.len(),
{
    if operations.len() == 0 {
        Seq::empty()
    } else {
        accepted(operations.drop_last()) + match operations.last() {
            Operation::Send(items) => items,
            Operation::Prioritize(item) => seq![item],
            Operation::Flush => Seq::empty(),
        }
    }
}

/// A flush neither adds nor loses nor moves an item; accepted items come after all others; and a
/// prioritized item comes before all that were not handed to the wrapped sink yet.
pub proof fn law_order_after_operation<Item>(history: History<Item>, operation: Operation<Item>)
    ensures
        history.after(operation).order() == match operation {
            Operation::Send(items) => history.order() + items,
            Operation::Prioritize(item) => history.sent + seq![item] + history.queue,
            Operation::Flush => history.order(),
        },
        history.sent.is_prefix_of(history.after(operation).sent),
{
    let next = history.after(operation);
    match operation {
        Operation::Send(items) => {
            let now = sent_at_once(history.queue, items);
            assert(now + items.skip(now.len() as int) =~= items);
            assert(next.order() =~= history.order() + items);
        },
        Operation::Prioritize(item) => {
            let now = sent_at_once(history.queue, seq![item]);
            assert(now + seq![item].skip(now.len() as int) =~= seq![item]);
            assert(next.order() =~= history.sent + seq![item] + history.queue);
        },
        Operation::Flush => {
            assert(next.order() =~= history.order());
        },
    }
}

/// Without priorities the wrapped sink gets the items in the order in which they were accepted:
/// what it was handed, followed by what still waits, is all that was accepted.
pub proof fn law_first_in_first_out<Item>(operations: Seq<Operation<Item>>)
    requires
        forall|i: int| 0 <= i < operations.len() ==> !((#[trigger] operations[i]) is Prioritize),
    ensures
        (History { sent: Seq::empty(), queue: Seq::empty() }).after_all(operations).order()
            == accepted(operations),
    decreases operations.len(),
{
    let start = History::<Item> { sent: Seq::empty(), queue: Seq::empty() };
    if operations.len() == 0 {
        assert(start.order() =~= Seq::empty());
    } else {
        let before = operations.drop_last();
        assert forall|i: int| 0 <= i < before.len() implies !((#[trigger] before[i]) is Prioritize) by {
            assert(before[i] == operations[i]);
        }
        law_first_in_first_out(before);
        law_order_after_operation(start.after_all(before), operations.last());
        assert(accepted(before) + Seq::<Item>::empty() =~= accepted(before));
    }
}

/// As many flushes as items wait bring all of them to the wrapped sink.
pub proof fn law_flushing_empties_the_queue<Item>(history: History<Item>)
    ensures
        ({
            let flushes = Seq::new(history.queue.len(), |i: int| Operation::<Item>::Flush);
            history.after_all(flushes) == (History {
                sent: history.order(),
                queue: Seq::<Item>::empty(),
            })
        }),
{
    let n = history.queue.len();
    lemma_flushed(history, n);
    assert(history.sent + history.queue.take(n as int) =~= history.order());
    assert(history.queue.skip(n as int) =~= Seq::empty());
}

proof fn lemma_flushed<Item>(history: History<Item>, count: nat)
    requires
        count <= history.queue.len(),
    ensures
        history.after_all(Seq::new(count, |i: int| Operation::<Item>::Flush)) == (History {
            sent: history.sent + history.queue.take(count as int),
            queue: history.queue.skip(count as int),
        }),
    decreases count,
{
    let flushes = Seq::new(count, |i: int| Operation::<Item>::Flush);
    if count == 0 {
        assert(history.sent + history.queue.take(0) =~= history.sent);
        assert(history.queue.skip(0) =~= history.queue);
    } else {
        lemma_flushed(history, (count - 1) as nat);
        assert(flushes.drop_last() =~= Seq::new(
            (count - 1) as nat,
            |i: int| Operation::<Item>::Flush,
        ));
        let before = history.queue.skip(count - 1);
        assert(before.skip(1) =~= history.queue.skip(count as int));
        assert((history.sent + history.queue.take(count - 1)).push(before[0]) =~= history.sent
            + history.queue.take(count as int));
    }
}

/// An accepted item goes to the wrapped sink at once exactly if none waits before it; all others
/// wait. Nothing is lost: what goes at once, followed by the rest, is what was accepted.
pub proof fn law_only_the_first_goes_at_once<Item>(queue: Seq<Item>, items: Seq<Item>)
    ensures
        ({
            let now = sent_at_once(queue, items);
            &&& queue.len() == 0 && items.len() > 0 ==> now.len() == 1 && at_most_one(now) == Some(
                items[0],
            )
            &&& queue.len() > 0 || items.len() == 0 ==> now.len() == 0 && at_most_one(now) is None
            &&& now + items.skip(now.len() as int) == items
        }),
{
    let now = sent_at_once(queue, items);
    assert(now + items.skip(now.len() as int) =~= items);
}

} // verus!
