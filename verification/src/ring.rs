//! The byte ring buffer between producers and the archiver thread.
//!
//! `nexus_logbuf::queue::mpsc` carries the records: any number of producer
//! handles claim space and commit, one consumer takes what was committed.

use crate::attempts::{Attempts, Tries};
use crate::bytes::zeros;
use crate::order::{follows, in_place, law_comes_out, lemma_follows};
use nexus_logbuf::queue::mpsc::{self, Consumer, Producer};
use std::marker::PhantomData;
use vstd::arithmetic::power2::pow2;
use vstd::prelude::*;

verus! {

/// `nexus_logbuf::queue::mpsc::Producer`.
#[verifier::external_type_specification]
#[verifier::external_body]
pub struct ExProducer(Producer);

/// `nexus_logbuf::queue::mpsc::Consumer`.
#[verifier::external_type_specification]
#[verifier::external_body]
pub struct ExConsumer(Consumer);

/// The records that were committed through a producer handle, oldest first.
pub uninterp spec fn committed(p: Producer) -> Seq<Seq<u8>>;

/// The size in bytes of the ring that a producer handle writes to.
pub uninterp spec fn ring_capacity(p: Producer) -> nat;

/// The records that were taken through a consumer, oldest first.
pub uninterp spec fn taken(c: Consumer) -> Seq<Seq<u8>>;

/// All the records that are ever committed to the ring that a producer handle
/// writes to, through any handle, in the order in which space was claimed for
/// them.
pub uninterp spec fn stream_of(p: Producer) -> Seq<Seq<u8>>;

/// The indices in that stream of the records that were committed through a
/// producer handle, oldest first.
pub uninterp spec fn places(p: Producer) -> Seq<int>;

/// All the records that are ever committed to the ring that a consumer reads,
/// in the order in which space was claimed for them.
pub uninterp spec fn stream_read(c: Consumer) -> Seq<Seq<u8>>;

/// What the records of a ring have in common.
pub trait RecordKind {
    /// The records that may be committed.
    spec fn valid(record: Seq<u8>) -> bool;
}

/// A producer handle of a ring that carries records of one kind.
pub struct RecordProducer<K: RecordKind> {
    inner: Producer,
    attempts: Attempts,
    _kind: PhantomData<K>,
}

/// The consumer of a ring that carries records of one kind.
pub struct RecordConsumer<K: RecordKind> {
    inner: Consumer,
    tries: Tries,
    _kind: PhantomData<K>,
}

/// The largest capacity that a ring can be asked for.
pub open spec fn max_ring_capacity() -> int {
    (isize::MAX as int + 1) / 2
}

/// `nexus_logbuf::queue::mpsc::new` makes a ring whose capacity is rounded up
/// to the next power of two. It panics below 16 bytes, and where the rounded
/// size is more than memory can be asked for.
#[verifier::external_body]
fn new_ring(capacity: usize) -> (ends: (Producer, Consumer))
    requires
        16 <= capacity <= max_ring_capacity(),
    ensures
        committed(ends.0) == Seq::<Seq<u8>>::empty(),
        taken(ends.1) == Seq::<Seq<u8>>::empty(),
        capacity <= ring_capacity(ends.0) < 2 * capacity,
        exists|k: nat| ring_capacity(ends.0) == #[trigger] pow2(k),
        places(ends.0) == Seq::<int>::empty(),
        stream_read(ends.1) == stream_of(ends.0),
{
    mpsc::new(capacity)
}

/// `Producer::clone` makes another handle to the same ring. Nothing was
/// committed through it yet.
#[verifier::external_body]
fn clone_producer(producer: &Producer) -> (other: Producer)
    ensures
        committed(other) == Seq::<Seq<u8>>::empty(),
        ring_capacity(other) == ring_capacity(*producer),
        places(other) == Seq::<int>::empty(),
        stream_of(other) == stream_of(*producer),
{
    producer.clone()
}

/// `Producer::try_claim` for a record of `total` bytes; where space was claimed,
/// `front` is copied to its beginning, `fill` is run once on the rest, which is
/// all zeros, and `WriteClaim::commit` makes the record visible. Where there is
/// no room, nothing is run, and `fill` is handed back. Either way the ring was
/// asked once for that many bytes.
///
/// A ring has no room for a record of its own size or more. Whether there is
/// room for a smaller one depends on how far the consumer has got, and is left
/// open. Space is claimed in order, so that a committed record stands in the
/// ring's stream behind those that were committed through the same handle
/// before.
#[verifier::external_body]
fn try_commit_with<K: RecordKind, F: FnOnce(&mut [u8])>(
    producer: &mut RecordProducer<K>,
    total: usize,
    front: &[u8],
    fill: F,
) -> (r: Result<(), F>)
    requires
        0 < total <= isize::MAX,
        front@.len() <= total,
        forall|x: &mut [u8]|
            x@ == zeros((total - front@.len()) as nat) ==> call_requires(fill, (x,)),
        forall|x: &mut [u8]|
            x@ == zeros((total - front@.len()) as nat) && #[trigger] call_ensures(fill, (x,), ())
                ==> K::valid(front@ + final(x)@),
    ensures
        r matches Err(f) ==> {
            &&& f == fill
            &&& committed(final(producer).inner) == committed(old(producer).inner)
            &&& places(final(producer).inner) == places(old(producer).inner)
        },
        r is Ok ==> exists|x: &mut [u8]|
            {
                &&& x@ == zeros((total - front@.len()) as nat)
                &&& #[trigger] call_ensures(fill, (x,), ())
                &&& final(x)@.len() == x@.len()
                &&& committed(final(producer).inner) == committed(old(producer).inner).push(
                    front@ + final(x)@,
                )
                &&& follows(
                    places(old(producer).inner),
                    places(final(producer).inner),
                    stream_of(old(producer).inner),
                    front@ + final(x)@,
                )
            },
        r is Ok ==> total < ring_capacity(old(producer).inner),
        final(producer).attempts.sizes() == old(producer).attempts.sizes().push(total as nat),
        ring_capacity(final(producer).inner) == ring_capacity(old(producer).inner),
        stream_of(final(producer).inner) == stream_of(old(producer).inner),
{
    match producer.inner.try_claim(total) {
        Ok(mut claim) => {
            let (head, rest) = claim.split_at_mut(front.len());
            head.copy_from_slice(front);
            fill(rest);
            claim.commit();
            Ok(())
        },
        Err(_) => Err(fill),
    }
}

/// `Consumer::try_claim` hands out the next committed record, if there is one;
/// its bytes replace those in `record`, and dropping the claim frees its space.
/// A committed record is never empty, and it is of the ring's kind: nothing
/// else was committed to the ring. Records come in the order in which space was
/// claimed for them, each of them once. Whether the next one is there yet
/// depends on the producers, and is left open.
#[verifier::external_body]
fn take_record<K: RecordKind>(consumer: &mut RecordConsumer<K>, record: &mut Vec<u8>) -> (found:
    bool)
    ensures
        found ==> final(record)@.len() > 0 && K::valid(final(record)@),
        !found ==> final(record)@ == old(record)@,
        taken(final(consumer).inner) == (if found {
            taken(old(consumer).inner).push(final(record)@)
        } else {
            taken(old(consumer).inner)
        }),
        stream_read(final(consumer).inner) == stream_read(old(consumer).inner),
        final(consumer).tries.count() == old(consumer).tries.count() + 1,
        found ==> {
            let next = taken(old(consumer).inner).len() as int;
            next < stream_read(old(consumer).inner).len() && final(record)@ == stream_read(
                old(consumer).inner,
            )[next]
        },
{
    match consumer.inner.try_claim() {
        Some(claim) => {
            record.clear();
            record.extend_from_slice(&claim);
            true
        },
        None => false,
    }
}

/// The capacity of a ring that was asked for `capacity` bytes: the next power
/// of two.
pub open spec fn rounded_capacity(capacity: usize, actual: nat) -> bool {
    capacity <= actual < 2 * capacity && exists|k: nat| actual == #[trigger] pow2(k)
}

/// Makes a ring, with one producer handle and its consumer.
pub fn record_ring<K: RecordKind>(capacity: usize) -> (ends: (
    RecordProducer<K>,
    RecordConsumer<K>,
))
    requires
        16 <= capacity <= max_ring_capacity(),
    ensures
        ends.0.committed() == Seq::<Seq<u8>>::empty(),
        ends.0.asked() == Seq::<nat>::empty(),
        ends.1.taken() == Seq::<Seq<u8>>::empty(),
        ends.1.looks() == 0,
        rounded_capacity(capacity, ends.0.capacity()),
        ends.0.wf(),
        ends.1.wf(),
        ends.0.stream() == ends.1.stream(),
{
    let (producer, consumer) = new_ring(capacity);
    let p: RecordProducer<K> = RecordProducer {
        inner: producer,
        attempts: Attempts::none(),
        _kind: PhantomData,
    };
    let c: RecordConsumer<K> = RecordConsumer {
        inner: consumer,
        tries: Tries::none(),
        _kind: PhantomData,
    };
    assert(c.taken() =~= c.stream().take(0));
    (p, c)
}

impl<K: RecordKind> RecordProducer<K> {
    /// The records that were committed through this handle, oldest first.
    pub closed spec fn committed(self) -> Seq<Seq<u8>> {
        committed(self.inner)
    }

    /// The size in bytes of the ring.
    pub closed spec fn capacity(self) -> nat {
        ring_capacity(self.inner)
    }

    /// All the records that are ever committed to the ring, through any handle,
    /// in the order in which they come out.
    pub closed spec fn stream(self) -> Seq<Seq<u8>> {
        stream_of(self.inner)
    }

    /// The indices in the stream of the records that were committed through
    /// this handle.
    pub closed spec fn places(self) -> Seq<int> {
        places(self.inner)
    }

    /// The sizes in bytes of the records for which the ring was asked for space
    /// through this handle, oldest first.
    pub closed spec fn asked(self) -> Seq<nat> {
        self.attempts.sizes()
    }

    /// The records that were committed through this handle stand in the stream
    /// in the order in which they were committed.
    pub open spec fn wf(self) -> bool {
        in_place(self.committed(), self.places(), self.stream())
    }

    /// The handle is still one to the same ring.
    pub open spec fn same_ring(self, before: Self) -> bool {
        &&& self.capacity() == before.capacity()
        &&& self.stream() == before.stream()
        &&& before.wf() ==> self.wf()
    }

    /// Another handle to the same ring.
    pub fn another(&self) -> (other: RecordProducer<K>)
        ensures
            other.committed() == Seq::<Seq<u8>>::empty(),
            other.asked() == Seq::<nat>::empty(),
            other.capacity() == self.capacity(),
            other.stream() == self.stream(),
            other.wf(),
    {
        RecordProducer {
            inner: clone_producer(&self.inner),
            attempts: Attempts::none(),
            _kind: PhantomData,
        }
    }

    /// Commits a record of `front` and `size` bytes more, which `fill` writes
    /// over zeros, if there is room for it. Otherwise nothing is written, and
    /// `fill` comes back without having been run.
    ///
    /// The ring decides, and is asked for exactly that many bytes, except where
    /// no memory holds that many.
    pub fn commit_with<F: FnOnce(&mut [u8])>(&mut self, front: &[u8], size: usize, fill: F) -> (r:
        Result<(), F>)
        requires
            0 < front@.len() + size,
            forall|x: &mut [u8]| x@ == zeros(size as nat) ==> call_requires(fill, (x,)),
            forall|x: &mut [u8]|
                x@ == zeros(size as nat) && #[trigger] call_ensures(fill, (x,), ()) ==> K::valid(
                    front@ + final(x)@,
                ),
        ensures
            r matches Err(f) ==> f == fill && final(self).committed() == old(self).committed(),
            r is Ok ==> exists|x: &mut [u8]|
                {
                    &&& x@ == zeros(size as nat)
                    &&& #[trigger] call_ensures(fill, (x,), ())
                    &&& final(x)@.len() == size
                    &&& final(self).committed() == old(self).committed().push(front@ + final(x)@)
                },
            r is Ok ==> front@.len() + size < old(self).capacity(),
            front@.len() + size <= isize::MAX ==> final(self).asked() == old(self).asked().push(
                (front@.len() + size) as nat,
            ),
            front@.len() + size > isize::MAX ==> r is Err && final(self).asked() == old(
                self,
            ).asked(),
            final(self).same_ring(*old(self)),
    {
        let limit: usize = isize::MAX as usize;
        if front.len() > limit || size > limit - front.len() {
            return Err(fill);
        }
        let ghost before = *self;
        let r: Result<(), F> = try_commit_with(self, front.len() + size, front, fill);
        proof {
            if before.wf() && r is Ok {
                lemma_follows(
                    before.committed(),
                    before.places(),
                    self.places(),
                    before.stream(),
                    self.committed().last(),
                );
            }
        }
        r
    }
}

impl<K: RecordKind> RecordConsumer<K> {
    /// The records that were taken, oldest first.
    pub closed spec fn taken(self) -> Seq<Seq<u8>> {
        taken(self.inner)
    }

    /// All the records that are ever committed to the ring, in the order in
    /// which they come out.
    pub closed spec fn stream(self) -> Seq<Seq<u8>> {
        stream_read(self.inner)
    }

    /// How often the ring was asked for a record.
    pub closed spec fn looks(self) -> nat {
        self.tries.count()
    }

    /// What was taken is the beginning of the stream.
    pub open spec fn wf(self) -> bool {
        &&& self.taken().len() <= self.stream().len()
        &&& self.taken() == self.stream().take(self.taken().len() as int)
    }

    /// The consumer is still that of the same ring.
    pub open spec fn same_ring(self, before: Self) -> bool {
        &&& self.stream() == before.stream()
        &&& before.wf() ==> self.wf()
    }

    /// Takes the next record, if there is one, into `record`. Returns whether
    /// there was one.
    pub fn take(&mut self, record: &mut Vec<u8>) -> (found: bool)
        ensures
            found ==> final(record)@.len() > 0 && K::valid(final(record)@),
            !found ==> final(record)@ == old(record)@,
            final(self).taken() == (if found {
                old(self).taken().push(final(record)@)
            } else {
                old(self).taken()
            }),
            final(self).looks() == old(self).looks() + 1,
            final(self).same_ring(*old(self)),
    {
        let ghost before = *self;
        let found: bool = take_record(self, record);
        proof {
            if before.wf() && found {
                assert(self.taken() =~= self.stream().take(self.taken().len() as int));
            }
        }
        found
    }
}

/// What a producer handle commits is what the consumer takes: once the consumer
/// has got to the place of a committed record, it has taken that record,
/// unchanged, and it takes the records of one handle in the order in which they
/// were committed.
pub proof fn law_committed_comes_out<K: RecordKind>(
    producer: RecordProducer<K>,
    consumer: RecordConsumer<K>,
    i: int,
    j: int,
)
    requires
        producer.wf(),
        consumer.wf(),
        producer.stream() == consumer.stream(),
        0 <= i <= j < producer.committed().len(),
    ensures
        0 <= producer.places()[i],
        producer.places()[i] < consumer.taken().len() ==> consumer.taken()[producer.places()[i]]
            == producer.committed()[i],
        i < j ==> producer.places()[i] < producer.places()[j],
{
    law_comes_out(
        producer.committed(),
        producer.places(),
        producer.stream(),
        consumer.taken(),
        i,
        j,
    );
}

/// A ring is as large as was asked for or larger, by less than twice, and its
/// size is a power of two.
pub proof fn law_rounded_capacity(capacity: usize, actual: nat)
    ensures
        rounded_capacity(capacity, actual) <==> capacity <= actual && actual < 2 * capacity && (
        exists|k: nat| actual == #[trigger] pow2(k)),
{
}

/// A ring may be as large as the largest power of two that memory can be asked
/// for.
pub proof fn law_max_ring_capacity()
    ensures
        2 * max_ring_capacity() == isize::MAX + 1,
{
}

/// The ring stays the same: its size and all that goes through it.
pub proof fn law_same_ring<K: RecordKind>(
    p: RecordProducer<K>,
    q: RecordProducer<K>,
    c: RecordConsumer<K>,
    d: RecordConsumer<K>,
)
    ensures
        q.same_ring(p) ==> q.capacity() == p.capacity() && q.stream() == p.stream() && (p.wf()
            ==> q.wf()),
        d.same_ring(c) ==> d.stream() == c.stream() && (c.wf() ==> d.wf()),
{
}

}
