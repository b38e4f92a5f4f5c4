//! String pool for log message formatting.
//!
//! A pool of reusable `String` instances, to avoid allocations while messages
//! are formatted. Strings are reused across log messages, with automatic
//! capacity management to prevent unbounded memory growth.

use crossbeam_queue::SegQueue;
use std::sync::Arc;
use vstd::prelude::*;
use vstd::utf8::encode_utf8;

verus! {

/// Maximum capacity for pooled strings. Strings exceeding this size will be
/// shrunk back to this capacity when returned to the pool.
pub const STRING_CAPACITY: usize = 256;

/// `crossbeam_queue::SegQueue`.
#[verifier::external_type_specification]
#[verifier::external_body]
#[verifier::reject_recursive_types(T)]
pub struct ExSegQueue<T>(SegQueue<T>);

/// The strings in a queue that nobody else can reach, oldest first.
pub uninterp spec fn pooled(q: SegQueue<String>) -> Seq<Seq<char>>;

/// `SegQueue::new` makes an empty queue.
#[verifier::external_body]
fn new_queue() -> (q: SegQueue<String>)
    ensures
        pooled(q) == Seq::<Seq<char>>::empty(),
{
    SegQueue::new()
}

/// `SegQueue::push`, on a queue that nobody else can reach: the string goes in
/// at the end.
#[verifier::external_body]
fn push_string(q: &mut SegQueue<String>, s: String)
    ensures
        pooled(*final(q)) == pooled(*old(q)).push(s@),
{
    q.push(s)
}

/// `SegQueue::pop`, on a queue that nobody else can reach: the oldest string
/// comes out.
#[verifier::external_body]
fn pop_string(q: &mut SegQueue<String>) -> (r: Option<String>)
    ensures
        r is Some <==> pooled(*old(q)).len() > 0,
        r matches Some(s) ==> s@ == pooled(*old(q)).first() && pooled(*final(q)) == pooled(
            *old(q),
        ).drop_first(),
        r is None ==> pooled(*final(q)) == pooled(*old(q)),
{
    q.pop()
}

/// `String::with_capacity` makes an empty string. Its capacity is at least the
/// one asked for; how much more the allocator gives is left open.
pub assume_specification[ String::with_capacity ](capacity: usize) -> (s: String)
    requires
        capacity <= isize::MAX,
    ensures
        s@ == Seq::<char>::empty(),
;

/// `String::capacity` returns what the allocator gave. Nothing is claimed of
/// it.
pub assume_specification[ String::capacity ](s: &String) -> usize
;

/// `String::clear` removes all of the string's contents.
pub assume_specification[ String::clear ](s: &mut String)
    ensures
        final(s)@ == Seq::<char>::empty(),
;

/// `String::reserve` makes room for so many bytes more than the string's
/// length, and leaves its contents alone. It panics where the new capacity
/// would be more than memory can be asked for.
pub assume_specification[ String::reserve ](s: &mut String, additional: usize)
    requires
        encode_utf8(old(s)@).len() + additional <= isize::MAX,
    ensures
        final(s)@ == old(s)@,
;

/// `String::shrink_to` gives memory back, and leaves the contents alone.
pub assume_specification[ String::shrink_to ](s: &mut String, min_capacity: usize)
    ensures
        final(s)@ == old(s)@,
;

/// A string from the pool, with room for [`STRING_CAPACITY`] bytes.
fn with_room(s: String) -> (r: String)
    requires
        s@ == Seq::<char>::empty(),
    ensures
        r@ == Seq::<char>::empty(),
{
    let mut s: String = s;
    if s.capacity() < STRING_CAPACITY {
        s.reserve(STRING_CAPACITY);
    }
    s
}

/// A string as it goes back to the pool: cleared, and shrunk where it has grown
/// beyond [`STRING_CAPACITY`].
fn emptied(s: String) -> (r: String)
    ensures
        r@ == Seq::<char>::empty(),
{
    let mut s: String = s;
    s.clear();
    if s.capacity() > STRING_CAPACITY {
        s.shrink_to(STRING_CAPACITY);
    }
    s
}

/// String pool for log message formatting, under one owner. [`SharedPool`] is
/// the one for several threads.
///
/// # Memory Management
///
/// - Strings are created with [`STRING_CAPACITY`] (256 bytes) initial capacity
/// - Returned strings are shrunk if they exceed the target capacity
/// - Strings handed out have at least that capacity
pub struct Pool {
    strings: SegQueue<String>,
}

impl Pool {
    /// How many strings the pool holds.
    pub closed spec fn size(self) -> nat {
        pooled(self.strings).len()
    }

    /// Every string in the pool is empty.
    pub closed spec fn wf(self) -> bool {
        forall|i: int|
            0 <= i < pooled(self.strings).len() ==> #[trigger] pooled(self.strings)[i]
                == Seq::<char>::empty()
    }

    /// An empty pool.
    pub fn new() -> (p: Pool)
        ensures
            p.wf(),
            p.size() == 0,
    {
        Pool { strings: new_queue() }
    }

    /// Retrieves a `String` from the pool or creates a new one if the pool is
    /// empty.
    ///
    /// The string is always empty, and has room for [`STRING_CAPACITY`] bytes.
    pub fn get(&mut self) -> (s: String)
        requires
            old(self).wf(),
        ensures
            final(self).wf(),
            s@ == Seq::<char>::empty(),
            final(self).size() == (if old(self).size() > 0 {
                (old(self).size() - 1) as nat
            } else {
                0
            }),
    {
        match pop_string(&mut self.strings) {
            Some(s) => with_room(s),
            None => String::with_capacity(STRING_CAPACITY),
        }
    }

    /// Returns a `String` to the pool for reuse.
    ///
    /// The string is cleared, and shrunk where it has grown beyond
    /// [`STRING_CAPACITY`].
    pub fn put(&mut self, s: String)
        requires
            old(self).wf(),
        ensures
            final(self).wf(),
            final(self).size() == old(self).size() + 1,
    {
        push_string(&mut self.strings, emptied(s));
    }
}

/// A handle to a lock-free pool of strings that several threads share. Each
/// thread clones a handle of its own.
pub struct SharedPool {
    strings: Arc<SegQueue<String>>,
}

/// The strings that were put back through a handle, oldest first.
pub uninterp spec fn returned(handle: Arc<SegQueue<String>>) -> Seq<Seq<char>>;

/// How often a string was asked for through a handle.
pub uninterp spec fn asked(handle: Arc<SegQueue<String>>) -> nat;

/// `SegQueue::new` behind an `Arc`, for a pool that several handles reach.
#[verifier::external_body]
fn new_shared_pool() -> (pool: SharedPool)
    ensures
        returned(pool.strings) == Seq::<Seq<char>>::empty(),
        asked(pool.strings) == 0,
{
    SharedPool { strings: Arc::new(SegQueue::new()) }
}

/// `Arc::clone`: another handle to the same pool, through which nothing was put
/// back yet.
#[verifier::external_body]
fn another_pool(pool: &SharedPool) -> (other: SharedPool)
    ensures
        returned(other.strings) == Seq::<Seq<char>>::empty(),
        asked(other.strings) == 0,
{
    SharedPool { strings: pool.strings.clone() }
}

/// `SegQueue::push` through a handle to a shared pool: the string goes in.
#[verifier::external_body]
fn put_back(pool: &mut SharedPool, s: String)
    requires
        s@ == Seq::<char>::empty(),
    ensures
        returned(final(pool).strings) == returned(old(pool).strings).push(s@),
        asked(final(pool).strings) == asked(old(pool).strings),
{
    pool.strings.push(s)
}

/// `SegQueue::pop` through a handle to a shared pool. What comes out is empty,
/// since nothing else is ever put in. Whether there is a string depends on the
/// other handles, and is left open.
#[verifier::external_body]
fn take_out(pool: &mut SharedPool) -> (r: Option<String>)
    ensures
        r matches Some(s) ==> s@ == Seq::<char>::empty(),
        returned(final(pool).strings) == returned(old(pool).strings),
        asked(final(pool).strings) == asked(old(pool).strings) + 1,
{
    pool.strings.pop()
}

impl Clone for SharedPool {
    fn clone(&self) -> (other: Self)
        ensures
            other.returned() == 0,
            other.asked() == 0,
    {
        another_pool(self)
    }
}

impl SharedPool {
    /// How many strings were put back through this handle.
    pub closed spec fn returned(self) -> nat {
        returned(self.strings).len()
    }

    /// How often the pool was asked for a string through this handle.
    pub closed spec fn asked(self) -> nat {
        asked(self.strings)
    }

    /// A handle to a new pool.
    pub fn new() -> (p: SharedPool)
        ensures
            p.returned() == 0,
            p.asked() == 0,
    {
        new_shared_pool()
    }

    /// Retrieves a `String` from the pool or creates a new one if the pool is
    /// empty. The string is always empty.
    pub fn get(&mut self) -> (s: String)
        ensures
            s@ == Seq::<char>::empty(),
            final(self).returned() == old(self).returned(),
            final(self).asked() == old(self).asked() + 1,
    {
        match take_out(self) {
            Some(s) => with_room(s),
            None => String::with_capacity(STRING_CAPACITY),
        }
    }

    /// Returns a `String` to the pool for reuse, cleared.
    pub fn put(&mut self, s: String)
        ensures
            final(self).returned() == old(self).returned() + 1,
            final(self).asked() == old(self).asked(),
    {
        put_back(self, emptied(s));
    }
}

}
