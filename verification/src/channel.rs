//! Bounded channel for log message transmission.
//!
//! The channel holds messages in a fixed-capacity queue. Backpressure holds
//! producers up rather than dropping messages: a message that finds the channel
//! full is handed back, to be pushed again once the consumer has been woken and
//! has made room.

use crate::order::{in_place, law_in_order, lemma_follows};
use crate::queue::{
    another_handle, get_message, got, got_at, looks, max_queue_capacity, new_queue, new_shared_queue,
    passing, pop_message, push_message, queue_capacity, queued, send_message, sent, sent_at,
    shared_capacity, Sender,
};
use crate::wake::{clone_unparker, wake, wakes};
use crossbeam_queue::ArrayQueue;
use crossbeam_utils::sync::Unparker;
use std::sync::Arc;
use vstd::prelude::*;

verus! {

/// A bounded channel for transmitting log messages between producer and
/// consumer, under one owner. [`SharedChannel`] is the one for several threads.
///
/// # Backpressure Behavior
///
/// When the channel is full, a push:
/// 1. Notifies the consumer via `unparker.unpark()`
/// 2. Hands the message back, for the producer to back off and push it again
///
/// No message is ever dropped.
pub struct Channel {
    /// The messages.
    rb: ArrayQueue<String>,
    /// Notifier for waking up the consumer thread.
    ///
    /// Only used when the channel is full and a potentially sleeping consumer
    /// has to make space.
    unparker: Unparker,
}

impl Channel {
    /// The messages in the channel, oldest first.
    pub closed spec fn contents(self) -> Seq<Seq<char>> {
        queued(self.rb)
    }

    /// How many messages the channel holds at most.
    pub closed spec fn capacity(self) -> nat {
        queue_capacity(self.rb)
    }

    /// How often the consumer was woken through this.
    pub closed spec fn wakes(self) -> nat {
        wakes(self.unparker)
    }

    /// The channel holds no more than its capacity.
    pub open spec fn wf(self) -> bool {
        self.contents().len() <= self.capacity()
    }

    /// Creates a new bounded channel with the specified capacity.
    ///
    /// # Parameters
    ///
    /// * `capacity` - Maximum number of messages the channel can hold.
    /// * `unparker` - Handle for waking up the consumer thread when backpressure occurs.
    pub fn new(capacity: usize, unparker: Unparker) -> (c: Channel)
        requires
            0 < capacity <= max_queue_capacity(),
        ensures
            c.contents() == Seq::<Seq<char>>::empty(),
            c.capacity() == capacity,
            c.wakes() == wakes(unparker),
            c.wf(),
    {
        Channel { rb: new_queue(capacity), unparker }
    }

    /// Pushes a log message into the channel, or hands it back where the
    /// channel is full, after waking the consumer.
    pub fn push(&mut self, log: String) -> (r: Result<(), String>)
        requires
            old(self).wf(),
        ensures
            final(self).wf(),
            final(self).capacity() == old(self).capacity(),
            final(self).wakes() == old(self).wakes() + (if r is Err {
                1nat
            } else {
                0
            }),
            r is Ok <==> old(self).contents().len() < old(self).capacity(),
            r is Ok ==> final(self).contents() == old(self).contents().push(log@),
            r matches Err(back) ==> back@ == log@ && final(self).contents() == old(
                self,
            ).contents(),
    {
        match push_message(&mut self.rb, log) {
            Ok(()) => Ok(()),
            Err(returned_log) => {
                wake(&mut self.unparker);
                Err(returned_log)
            },
        }
    }

    /// Pops the oldest message from the channel.
    ///
    /// Immediately returns `None` if no messages are available.
    pub fn pop(&mut self) -> (r: Option<String>)
        requires
            old(self).wf(),
        ensures
            final(self).wf(),
            final(self).capacity() == old(self).capacity(),
            final(self).wakes() == old(self).wakes(),
            r is Some <==> old(self).contents().len() > 0,
            r matches Some(log) ==> log@ == old(self).contents().first() && final(self).contents()
                == old(self).contents().drop_first(),
            r is None ==> final(self).contents() == old(self).contents(),
    {
        pop_message(&mut self.rb)
    }
}

/// The messages in a channel after so many pops.
pub open spec fn popped(contents: Seq<Seq<char>>, n: nat) -> Seq<Seq<char>>
    decreases n,
{
    if n == 0 {
        contents
    } else {
        popped(contents, (n - 1) as nat).drop_first()
    }
}

/// The messages in a channel after these pushes.
pub open spec fn pushed(contents: Seq<Seq<char>>, logs: Seq<Seq<char>>) -> Seq<Seq<char>>
    decreases logs.len(),
{
    if logs.len() == 0 {
        contents
    } else {
        pushed(contents, logs.drop_last()).push(logs.last())
    }
}

/// Messages come out in the order in which they went in: pushed into an empty
/// channel, message `i` is the first one left after `i` pops.
pub proof fn law_first_in_first_out(logs: Seq<Seq<char>>, i: nat)
    requires
        i < logs.len(),
    ensures
        popped(pushed(seq![], logs), i).first() == logs[i as int],
{
    lemma_pushed(seq![], logs);
    lemma_popped(logs, i);
    assert(Seq::<Seq<char>>::empty() + logs =~= logs);
}

proof fn lemma_pushed(contents: Seq<Seq<char>>, logs: Seq<Seq<char>>)
    ensures
        pushed(contents, logs) == contents + logs,
    decreases logs.len(),
{
    if logs.len() > 0 {
        lemma_pushed(contents, logs.drop_last());
        assert(contents + logs =~= (contents + logs.drop_last()).push(logs.last()));
    } else {
        assert(contents + logs =~= contents);
    }
}

proof fn lemma_popped(contents: Seq<Seq<char>>, n: nat)
    requires
        n <= contents.len(),
    ensures
        popped(contents, n) == contents.skip(n as int),
    decreases n,
{
    if n > 0 {
        lemma_popped(contents, (n - 1) as nat);
        assert(contents.skip(n - 1).drop_first() =~= contents.skip(n as int));
    } else {
        assert(contents.skip(0) =~= contents);
    }
}

/// A handle to a bounded, lock-free channel that several threads share. Each
/// thread clones a handle of its own.
///
/// Backpressure is that of [`Channel`].
pub struct SharedChannel {
    rb: Sender,
    unparker: Unparker,
}

impl Clone for SharedChannel {
    fn clone(&self) -> (other: Self)
        ensures
            other.pushed() == Seq::<Seq<char>>::empty(),
            other.popped() == Seq::<Seq<char>>::empty(),
            other.stream() == self.stream(),
            other.capacity() == self.capacity(),
            other.wakes() == 0,
            other.looks() == 0,
            other.tries() == 0,
            other.wf(),
    {
        SharedChannel {
            rb: Sender::new(another_handle(&self.rb.handle)),
            unparker: clone_unparker(&self.unparker),
        }
    }
}

impl SharedChannel {
    /// The messages that were pushed through this handle, oldest first.
    pub closed spec fn pushed(self) -> Seq<Seq<char>> {
        sent(self.rb.handle)
    }

    /// The messages that were popped through this handle, oldest first.
    pub closed spec fn popped(self) -> Seq<Seq<char>> {
        got(self.rb.handle)
    }

    /// All the messages that are ever pushed into the channel, through any
    /// handle, in the order in which they went in.
    pub closed spec fn stream(self) -> Seq<Seq<char>> {
        passing(self.rb.handle)
    }

    /// How many messages the channel holds at most.
    pub closed spec fn capacity(self) -> nat {
        shared_capacity(self.rb.handle)
    }

    /// How often the channel was asked to take a message through this handle.
    pub closed spec fn tries(self) -> nat {
        self.rb.tries.count()
    }

    /// How often a message was asked for through this handle.
    pub closed spec fn looks(self) -> nat {
        looks(self.rb.handle)
    }

    /// How often the consumer was woken through this.
    pub closed spec fn wakes(self) -> nat {
        wakes(self.unparker)
    }

    /// The indices in the stream of the messages that were pushed through this
    /// handle.
    pub closed spec fn pushed_at(self) -> Seq<int> {
        sent_at(self.rb.handle)
    }

    /// The indices in the stream of the messages that were popped through this
    /// handle.
    pub closed spec fn popped_at(self) -> Seq<int> {
        got_at(self.rb.handle)
    }

    /// What went in and what came out through this handle stands in the stream
    /// in that order.
    pub open spec fn wf(self) -> bool {
        &&& in_place(self.pushed(), self.pushed_at(), self.stream())
        &&& in_place(self.popped(), self.popped_at(), self.stream())
    }

    /// A handle to a new channel for so many messages.
    pub fn new(capacity: usize, unparker: Unparker) -> (c: SharedChannel)
        requires
            0 < capacity <= max_queue_capacity(),
        ensures
            c.pushed() == Seq::<Seq<char>>::empty(),
            c.popped() == Seq::<Seq<char>>::empty(),
            c.capacity() == capacity,
            c.wakes() == wakes(unparker),
            c.looks() == 0,
            c.tries() == 0,
            c.wf(),
    {
        SharedChannel { rb: Sender::new(new_shared_queue(capacity)), unparker }
    }

    /// Pushes a log message into the channel, or hands it back where the
    /// channel is full, after waking the consumer.
    pub fn push(&mut self, log: String) -> (r: Result<(), String>)
        ensures
            r is Ok ==> final(self).pushed() == old(self).pushed().push(log@),
            r matches Err(back) ==> back@ == log@ && final(self).pushed() == old(self).pushed(),
            final(self).popped() == old(self).popped(),
            final(self).stream() == old(self).stream(),
            final(self).capacity() == old(self).capacity(),
            final(self).looks() == old(self).looks(),
            final(self).tries() == old(self).tries() + 1,
            final(self).wakes() == old(self).wakes() + (if r is Err {
                1nat
            } else {
                0
            }),
            old(self).wf() ==> final(self).wf(),
    {
        let ghost before = *self;
        let ghost text = log@;
        match send_message(&mut self.rb, log) {
            Ok(()) => {
                proof {
                    if before.wf() {
                        lemma_follows(
                            before.pushed(),
                            before.pushed_at(),
                            self.pushed_at(),
                            before.stream(),
                            text,
                        );
                    }
                }
                Ok(())
            },
            Err(returned_log) => {
                wake(&mut self.unparker);
                Err(returned_log)
            },
        }
    }

    /// Pops a message, if there is one.
    pub fn pop(&mut self) -> (r: Option<String>)
        ensures
            final(self).popped() == (match r {
                Some(log) => old(self).popped().push(log@),
                None => old(self).popped(),
            }),
            final(self).pushed() == old(self).pushed(),
            final(self).stream() == old(self).stream(),
            final(self).capacity() == old(self).capacity(),
            final(self).looks() == old(self).looks() + 1,
            final(self).tries() == old(self).tries(),
            final(self).wakes() == old(self).wakes(),
            old(self).wf() ==> final(self).wf(),
    {
        let ghost before = *self;
        let r: Option<String> = get_message(&mut self.rb.handle);
        proof {
            if before.wf() && r is Some {
                lemma_follows(
                    before.popped(),
                    before.popped_at(),
                    self.popped_at(),
                    before.stream(),
                    r->Some_0@,
                );
            }
        }
        r
    }
}

/// Messages that were pushed through one handle and popped through another are
/// unchanged, and come out in the order in which they were pushed.
pub proof fn law_shared_in_order(
    producer: SharedChannel,
    consumer: SharedChannel,
    i: int,
    j: int,
    x: int,
    y: int,
)
    requires
        producer.wf(),
        consumer.wf(),
        producer.stream() == consumer.stream(),
        0 <= i < j < producer.pushed().len(),
        0 <= x < consumer.popped().len(),
        0 <= y < consumer.popped().len(),
        consumer.popped_at()[x] == producer.pushed_at()[i],
        consumer.popped_at()[y] == producer.pushed_at()[j],
    ensures
        consumer.popped()[x] == producer.pushed()[i],
        consumer.popped()[y] == producer.pushed()[j],
        x < y,
{
    law_in_order(
        producer.pushed(),
        producer.pushed_at(),
        consumer.popped(),
        consumer.popped_at(),
        producer.stream(),
        i,
        j,
        x,
        y,
    );
}

}
