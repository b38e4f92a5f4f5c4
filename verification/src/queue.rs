//! The bounded queue of messages behind the channels.

use crate::attempts::Tries;
use crate::order::follows;
use crossbeam_queue::ArrayQueue;
use std::sync::Arc;
use vstd::prelude::*;

verus! {

/// `crossbeam_queue::ArrayQueue`.
#[verifier::external_type_specification]
#[verifier::external_body]
#[verifier::reject_recursive_types(T)]
pub struct ExArrayQueue<T>(ArrayQueue<T>);

/// The messages in a queue that nobody else can reach, oldest first.
pub uninterp spec fn queued(q: ArrayQueue<String>) -> Seq<Seq<char>>;

/// How many messages a queue holds at most.
pub uninterp spec fn queue_capacity(q: ArrayQueue<String>) -> nat;

/// The messages that were put in through a handle to a shared queue, oldest
/// first, from where the handle was made.
pub uninterp spec fn sent(handle: Arc<ArrayQueue<String>>) -> Seq<Seq<char>>;

/// The messages that were taken out through a handle to a shared queue, oldest
/// first, from where the handle was made.
pub uninterp spec fn got(handle: Arc<ArrayQueue<String>>) -> Seq<Seq<char>>;

/// All the messages that are ever put into the queue behind a handle, through
/// any handle, in the order in which they went in.
pub uninterp spec fn passing(handle: Arc<ArrayQueue<String>>) -> Seq<Seq<char>>;

/// The indices among those of the messages that were put in through a handle,
/// oldest first.
pub uninterp spec fn sent_at(handle: Arc<ArrayQueue<String>>) -> Seq<int>;

/// The indices among those of the messages that were taken out through a
/// handle, oldest first.
pub uninterp spec fn got_at(handle: Arc<ArrayQueue<String>>) -> Seq<int>;

/// How often a message was asked for through a handle.
pub uninterp spec fn looks(handle: Arc<ArrayQueue<String>>) -> nat;

/// How many messages the queue behind a handle holds at most.
pub uninterp spec fn shared_capacity(handle: Arc<ArrayQueue<String>>) -> nat;

/// The largest capacity that a queue can be asked for: one message takes up 32
/// bytes.
pub open spec fn max_queue_capacity() -> int {
    isize::MAX as int / 32
}

/// `ArrayQueue::new` makes an empty queue with a fixed capacity. It panics for
/// a capacity of zero, and where the queue is more than memory can be asked
/// for.
#[verifier::external_body]
pub(crate) fn new_queue(capacity: usize) -> (q: ArrayQueue<String>)
    requires
        0 < capacity <= max_queue_capacity(),
    ensures
        queued(q) == Seq::<Seq<char>>::empty(),
        queue_capacity(q) == capacity,
{
    ArrayQueue::new(capacity)
}

/// `ArrayQueue::push`, on a queue that nobody else can reach: the message goes
/// in at the end, or comes back where the queue is full.
#[verifier::external_body]
pub(crate) fn push_message(q: &mut ArrayQueue<String>, message: String) -> (r: Result<(), String>)
    ensures
        r is Ok <==> queued(*old(q)).len() < queue_capacity(*old(q)),
        r is Ok ==> queued(*final(q)) == queued(*old(q)).push(message@),
        r matches Err(back) ==> back@ == message@ && queued(*final(q)) == queued(*old(q)),
        queue_capacity(*final(q)) == queue_capacity(*old(q)),
{
    q.push(message)
}

/// `ArrayQueue::pop`, on a queue that nobody else can reach: the oldest message
/// comes out.
#[verifier::external_body]
pub(crate) fn pop_message(q: &mut ArrayQueue<String>) -> (r: Option<String>)
    ensures
        r is Some <==> queued(*old(q)).len() > 0,
        r matches Some(message) ==> message@ == queued(*old(q)).first() && queued(*final(q))
            == queued(*old(q)).drop_first(),
        r is None ==> queued(*final(q)) == queued(*old(q)),
        queue_capacity(*final(q)) == queue_capacity(*old(q)),
{
    q.pop()
}

/// `ArrayQueue::new` behind an `Arc`, for a queue of a fixed capacity that
/// several handles reach.
#[verifier::external_body]
pub(crate) fn new_shared_queue(capacity: usize) -> (handle: Arc<ArrayQueue<String>>)
    requires
        0 < capacity <= max_queue_capacity(),
    ensures
        sent(handle) == Seq::<Seq<char>>::empty(),
        got(handle) == Seq::<Seq<char>>::empty(),
        sent_at(handle) == Seq::<int>::empty(),
        got_at(handle) == Seq::<int>::empty(),
        shared_capacity(handle) == capacity,
        looks(handle) == 0,
{
    Arc::new(ArrayQueue::new(capacity))
}

/// `Arc::clone`: another handle to the same queue, through which nothing has
/// gone yet.
#[verifier::external_body]
pub(crate) fn another_handle(handle: &Arc<ArrayQueue<String>>) -> (other: Arc<ArrayQueue<String>>)
    ensures
        sent(other) == Seq::<Seq<char>>::empty(),
        got(other) == Seq::<Seq<char>>::empty(),
        sent_at(other) == Seq::<int>::empty(),
        got_at(other) == Seq::<int>::empty(),
        passing(other) == passing(*handle),
        shared_capacity(other) == shared_capacity(*handle),
        looks(other) == 0,
{
    handle.clone()
}

/// Puts messages into a shared queue.
pub struct Sender {
    pub(crate) handle: Arc<ArrayQueue<String>>,
    /// How often the queue was asked to take a message.
    pub(crate) tries: Tries,
}

impl Sender {
    /// Sends through this handle.
    pub(crate) fn new(handle: Arc<ArrayQueue<String>>) -> (s: Sender)
        ensures
            s.handle == handle,
            s.tries.count() == 0,
    {
        Sender { handle, tries: Tries::none() }
    }
}

/// `ArrayQueue::push` through a handle to a shared queue. The message goes in,
/// behind those that went in through the same handle before, or comes back.
/// Which of the two depends on the other handles, and is left open. Either way
/// the queue was asked once.
#[verifier::external_body]
pub(crate) fn send_message(sender: &mut Sender, message: String) -> (r: Result<(), String>)
    ensures
        r is Ok ==> sent(final(sender).handle) == sent(old(sender).handle).push(message@),
        r matches Err(back) ==> back@ == message@ && sent(final(sender).handle) == sent(
            old(sender).handle,
        ),
        got(final(sender).handle) == got(old(sender).handle),
        got_at(final(sender).handle) == got_at(old(sender).handle),
        passing(final(sender).handle) == passing(old(sender).handle),
        shared_capacity(final(sender).handle) == shared_capacity(old(sender).handle),
        looks(final(sender).handle) == looks(old(sender).handle),
        r is Err ==> sent_at(final(sender).handle) == sent_at(old(sender).handle),
        r is Ok ==> follows(
            sent_at(old(sender).handle),
            sent_at(final(sender).handle),
            passing(old(sender).handle),
            message@,
        ),
        final(sender).tries.count() == old(sender).tries.count() + 1,
{
    sender.handle.push(message)
}

/// `ArrayQueue::pop` through a handle to a shared queue. What comes out went in
/// behind everything that came out through the same handle before. Which
/// message that is, and whether there is one, depends on the other handles, and
/// is left open.
#[verifier::external_body]
pub(crate) fn get_message(handle: &mut Arc<ArrayQueue<String>>) -> (r: Option<String>)
    ensures
        got(*final(handle)) == (match r {
            Some(message) => got(*old(handle)).push(message@),
            None => got(*old(handle)),
        }),
        sent(*final(handle)) == sent(*old(handle)),
        sent_at(*final(handle)) == sent_at(*old(handle)),
        passing(*final(handle)) == passing(*old(handle)),
        shared_capacity(*final(handle)) == shared_capacity(*old(handle)),
        looks(*final(handle)) == looks(*old(handle)) + 1,
        r is None ==> got_at(*final(handle)) == got_at(*old(handle)),
        r matches Some(message) ==> follows(
            got_at(*old(handle)),
            got_at(*final(handle)),
            passing(*old(handle)),
            message@,
        ),
{
    handle.pop()
}

/// A queue may hold as many messages as memory can be asked for slots of 32
/// bytes.
pub proof fn law_max_queue_capacity(n: int)
    ensures
        n <= max_queue_capacity() <==> 32 * n <= isize::MAX,
{
}

}
