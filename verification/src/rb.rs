//! A bounded buffer of messages that wakes its consumer.

use crate::notifier::{EventAwaiter, EventNotifier, WaitStep};
use crate::order::{in_place, law_in_order, lemma_follows};
use crate::queue::{
    another_handle, get_message, got, got_at, looks, max_queue_capacity, new_shared_queue, passing,
    send_message, sent, sent_at, shared_capacity, Sender,
};
use crossbeam_queue::ArrayQueue;
use std::io;
use std::sync::Arc;
use std::time::Duration;
use vstd::prelude::*;

verus! {

/// The producers' end of a buffer. Each thread clones a handle of its own.
pub struct RingBuffer<N: EventNotifier> {
    inner: Sender,
    notifier: Arc<N>,
}

/// The consumer's end of a buffer.
pub struct RingConsumer<A: EventAwaiter> {
    inner: Arc<ArrayQueue<String>>,
    awaiter: A,
}

/// What a step of receiving came to.
pub enum Received {
    /// A message.
    Message(String),
    /// The wait is over, and there was no message.
    Nothing,
    /// The wait is not over.
    Waiting(WaitStep),
}

/// What to make of the step of a wait, and of the message that was there after
/// it.
pub open spec fn receipt(step: WaitStep, message: Option<String>) -> Received {
    if step.is_over() {
        match message {
            Some(m) => Received::Message(m),
            None => Received::Nothing,
        }
    } else {
        Received::Waiting(step)
    }
}

impl<N: EventNotifier> Clone for RingBuffer<N> {
    fn clone(&self) -> (other: Self)
        ensures
            other.published() == Seq::<Seq<char>>::empty(),
            other.stream() == self.stream(),
            other.capacity() == self.capacity(),
            other.tries() == 0,
            other.wf(),
            other.wakes_by() == self.wakes_by(),
    {
        RingBuffer {
            inner: Sender::new(another_handle(&self.inner.handle)),
            notifier: self.notifier.clone(),
        }
    }
}

impl<N: EventNotifier> RingBuffer<N> {
    /// The messages that were published through this handle, oldest first.
    pub closed spec fn published(self) -> Seq<Seq<char>> {
        sent(self.inner.handle)
    }

    /// All the messages that are ever published to the buffer, through any
    /// handle, in the order in which they went in.
    pub closed spec fn stream(self) -> Seq<Seq<char>> {
        passing(self.inner.handle)
    }

    /// How many messages the buffer holds at most.
    pub closed spec fn capacity(self) -> nat {
        shared_capacity(self.inner.handle)
    }

    /// How often the buffer was asked to take a message through this handle.
    pub closed spec fn tries(self) -> nat {
        self.inner.tries.count()
    }

    /// The indices in the stream of the messages that were published through
    /// this handle.
    pub closed spec fn places(self) -> Seq<int> {
        sent_at(self.inner.handle)
    }

    /// The messages that were published through this handle stand in the stream
    /// in the order in which they were published.
    pub open spec fn wf(self) -> bool {
        in_place(self.published(), self.places(), self.stream())
    }

    /// Makes a buffer for so many messages, with the consumer's end, which waits
    /// as `awaiter` does. Never fails.
    pub fn new<A: EventAwaiter<Notifier = N>>(awaiter: A, capacity: usize) -> (r: io::Result<
        (RingBuffer<N>, RingConsumer<A>),
    >)
        requires
            0 < capacity <= max_queue_capacity(),
        ensures
            r matches Ok(ends) && {
                &&& ends.0.published() == Seq::<Seq<char>>::empty()
                &&& ends.1.received() == Seq::<Seq<char>>::empty()
                &&& ends.0.wf() && ends.1.wf()
                &&& ends.0.stream() == ends.1.stream()
                &&& ends.0.capacity() == capacity
                &&& ends.1.capacity() == capacity
                &&& ends.0.wakes_by() == awaiter.woken_by()
                &&& ends.1.awaiter() == awaiter
                &&& ends.1.looks() == 0
                &&& ends.0.tries() == 0
            },
    {
        let queue: Arc<ArrayQueue<String>> = new_shared_queue(capacity);
        let notifier: Arc<N> = awaiter.notifier();
        Ok(
            (
                RingBuffer { inner: Sender::new(another_handle(&queue)), notifier },
                RingConsumer { inner: queue, awaiter },
            ),
        )
    }

    /// What wakes the consumer.
    pub closed spec fn wakes_by(self) -> Arc<N> {
        self.notifier
    }

    /// What wakes the consumer.
    pub fn notifier(&self) -> (n: Arc<N>)
        ensures
            n == self.wakes_by(),
    {
        self.notifier.clone()
    }

    /// Publishes a message and wakes the consumer, or hands the message back
    /// where the buffer is full.
    pub fn publish(&mut self, log: String) -> (r: Result<(), String>)
        ensures
            r is Ok ==> final(self).published() == old(self).published().push(log@),
            r matches Err(back) ==> back@ == log@ && final(self).published() == old(
                self,
            ).published(),
            final(self).stream() == old(self).stream(),
            final(self).capacity() == old(self).capacity(),
            old(self).wf() ==> final(self).wf(),
            final(self).wakes_by() == old(self).wakes_by(),
            r is Ok ==> final(self).wakes_by().notified(),
            final(self).tries() == old(self).tries() + 1,
    {
        let ghost before = *self;
        let ghost text = log@;
        match send_message(&mut self.inner, log) {
            Ok(()) => {
                proof {
                    if before.wf() {
                        lemma_follows(
                            before.published(),
                            before.places(),
                            self.places(),
                            before.stream(),
                            text,
                        );
                    }
                }
                self.notifier.notify();
                Ok(())
            },
            Err(returned_log) => Err(returned_log),
        }
    }
}

/// What to make of the step of a wait, and of the message that was there after
/// it.
pub fn received_after(step: WaitStep, message: Option<String>) -> (r: Received)
    ensures
        r == receipt(step, message),
{
    match step {
        WaitStep::Spin => Received::Waiting(step),
        WaitStep::Snooze => Received::Waiting(step),
        _ => match message {
            Some(m) => Received::Message(m),
            None => Received::Nothing,
        },
    }
}

impl<A: EventAwaiter> RingConsumer<A> {
    /// The messages that were received, oldest first.
    pub closed spec fn received(self) -> Seq<Seq<char>> {
        got(self.inner)
    }

    /// All the messages that are ever published to the buffer, in the order in
    /// which they went in.
    pub closed spec fn stream(self) -> Seq<Seq<char>> {
        passing(self.inner)
    }

    /// How many messages the buffer holds at most.
    pub closed spec fn capacity(self) -> nat {
        shared_capacity(self.inner)
    }

    /// How often a message was asked for.
    pub closed spec fn looks(self) -> nat {
        looks(self.inner)
    }

    /// What the consumer waits by.
    pub closed spec fn awaiter(self) -> A {
        self.awaiter
    }

    /// The indices in the stream of the messages that were received.
    pub closed spec fn places(self) -> Seq<int> {
        got_at(self.inner)
    }

    /// The messages that were received stand in the stream in the order in
    /// which they were received.
    pub open spec fn wf(self) -> bool {
        in_place(self.received(), self.places(), self.stream())
    }

    /// Takes a message out, if there is one.
    fn take(&mut self) -> (r: Option<String>)
        ensures
            final(self).received() == (match r {
                Some(m) => old(self).received().push(m@),
                None => old(self).received(),
            }),
            final(self).stream() == old(self).stream(),
            final(self).capacity() == old(self).capacity(),
            final(self).awaiter() == old(self).awaiter(),
            final(self).looks() == old(self).looks() + 1,
            old(self).wf() ==> final(self).wf(),
    {
        let ghost before = *self;
        let r: Option<String> = get_message(&mut self.inner);
        proof {
            if before.wf() && r is Some {
                lemma_follows(
                    before.received(),
                    before.places(),
                    self.places(),
                    before.stream(),
                    r->Some_0@,
                );
            }
        }
        r
    }

    /// Receives a message that is there, or takes one step of a wait that has
    /// lasted for `waited` so far. Where that step ends the wait, the consumer
    /// looks once more.
    pub fn receive(&mut self, timeout: Option<Duration>, waited: Duration) -> (r: io::Result<Received>)
        ensures
            final(self).received() == (match r {
                Ok(Received::Message(m)) => old(self).received().push(m@),
                _ => old(self).received(),
            }),
            r matches Ok(Received::Waiting(step)) ==> !step.is_over() && A::may_answer(
                timeout,
                waited,
                step,
            ),
            r matches Ok(Received::Nothing) ==> exists|step: WaitStep|
                step.is_over() && #[trigger] A::may_answer(timeout, waited, step),
            r matches Err(e) ==> A::may_fail(timeout, waited, e),
            match r {
                Ok(Received::Message(_)) => final(self).looks() == old(self).looks() + 1
                    || final(self).looks() == old(self).looks() + 2,
                Ok(Received::Nothing) => final(self).looks() == old(self).looks() + 2,
                _ => final(self).looks() == old(self).looks() + 1,
            },
            final(self).awaiter().woken_by() == old(self).awaiter().woken_by(),
            r matches Ok(Received::Message(_)) && final(self).looks() == old(self).looks() + 1
                ==> final(self).awaiter() == old(self).awaiter(),
            r is Ok && final(self).looks() == old(self).looks() + 2 ==> exists|step: WaitStep|
                step.is_over() && #[trigger] old(self).awaiter().may_lead(
                    &final(self).awaiter(),
                    timeout,
                    waited,
                    step,
                ),
            r matches Ok(Received::Waiting(step)) ==> old(self).awaiter().may_lead(
                &final(self).awaiter(),
                timeout,
                waited,
                step,
            ),
            final(self).stream() == old(self).stream(),
            final(self).capacity() == old(self).capacity(),
            old(self).wf() ==> final(self).wf(),
    {
        if let Some(msg) = self.take() {
            return Ok(Received::Message(msg));
        }
        match self.awaiter.wait(timeout, waited) {
            Err(e) => Err(e),
            Ok(WaitStep::Spin) => Ok(received_after(WaitStep::Spin, None)),
            Ok(WaitStep::Snooze) => Ok(received_after(WaitStep::Snooze, None)),
            Ok(step) => Ok(received_after(step, self.take())),
        }
    }
}

/// Messages that were published through one handle are received unchanged, and
/// in the order in which they were published: where message `i` and a later
/// message `j` were received, as number `x` and number `y`, `x` comes first.
pub proof fn law_published_in_order<A: EventAwaiter>(
    buffer: RingBuffer<A::Notifier>,
    consumer: RingConsumer<A>,
    i: int,
    j: int,
    x: int,
    y: int,
)
    requires
        buffer.wf(),
        consumer.wf(),
        buffer.stream() == consumer.stream(),
        0 <= i < j < buffer.published().len(),
        0 <= x < consumer.received().len(),
        0 <= y < consumer.received().len(),
        consumer.places()[x] == buffer.places()[i],
        consumer.places()[y] == buffer.places()[j],
    ensures
        consumer.received()[x] == buffer.published()[i],
        consumer.received()[y] == buffer.published()[j],
        x < y,
{
    law_in_order(
        buffer.published(),
        buffer.places(),
        consumer.received(),
        consumer.places(),
        buffer.stream(),
        i,
        j,
        x,
        y,
    );
}

/// A wait that is over gives what was there after it; one that is not over goes
/// on.
pub proof fn law_receipts(step: WaitStep, message: Option<String>)
    ensures
        step == WaitStep::Spin || step == WaitStep::Snooze ==> receipt(step, message)
            == Received::Waiting(step),
        (step == WaitStep::Woken || step == WaitStep::TimedOut) && message is None ==> receipt(
            step,
            message,
        ) == Received::Nothing,
        (step == WaitStep::Woken || step == WaitStep::TimedOut) && message is Some ==> receipt(
            step,
            message,
        ) == Received::Message(message.unwrap()),
{
}

}
