//! The ring buffer between the thread that decodes audio and the thread that plays it: the two
//! ends of an `rtrb` ring of bytes.
//!
//! Each end is modelled by the bytes that have gone through it and by the number of slots that it
//! is sure of. The other end works concurrently, so there can be more slots than that. That the
//! bytes taken are the first of the bytes pushed ties two values in different threads, and is not
//! part of the model.

use vstd::prelude::*;

use rtrb::{Consumer, Producer};

verus! {

#[verifier::external_type_specification]
#[verifier::external_body]
#[verifier::reject_recursive_types(T)]
pub struct ExProducer<T>(Producer<T>);

#[verifier::external_type_specification]
#[verifier::external_body]
#[verifier::reject_recursive_types(T)]
pub struct ExConsumer<T>(Consumer<T>);

/// All bytes that were written to a ring.
pub uninterp spec fn pushed(producer: Producer<u8>) -> Seq<u8>;

/// The slots that can surely be written: `Producer::cached_slots`.
pub uninterp spec fn free_slots(producer: Producer<u8>) -> nat;

/// All bytes that were read from a ring.
pub uninterp spec fn taken(consumer: Consumer<u8>) -> Seq<u8>;

/// The slots that can surely be read: `Consumer::cached_slots`.
pub uninterp spec fn full_slots(consumer: Consumer<u8>) -> nat;

/// `RingBuffer::new` makes an empty ring with the given number of slots, all free.
#[verifier::external_body]
pub(crate) fn new_ring(capacity: usize) -> (ends: (Producer<u8>, Consumer<u8>))
    requires
        capacity <= isize::MAX,
    ensures
        pushed(ends.0) == Seq::<u8>::empty(),
        free_slots(ends.0) == capacity,
        taken(ends.1) == Seq::<u8>::empty(),
        full_slots(ends.1) == 0,
{
    rtrb::RingBuffer::new(capacity)
}

/// `Producer::is_abandoned` says whether the consumer is gone, which depends on another thread.
#[verifier::external_body]
pub(crate) fn is_abandoned(producer: &Producer<u8>) -> (yes: bool) {
    producer.is_abandoned()
}

/// `Producer::slots` looks how many slots are free by now, and makes sure of them. How many there
/// are depends on another thread.
#[verifier::external_body]
pub(crate) fn count_free(producer: &mut Producer<u8>) -> (slots: usize)
    ensures
        slots == free_slots(*final(producer)),
        pushed(*final(producer)) == pushed(*old(producer)),
{
    producer.slots()
}

/// `Producer::write_chunk_uninit` and `WriteChunkUninit::fill_from_iter` write all of the bytes
/// in order, or none of them. They write them where there are surely enough free slots.
#[verifier::external_body]
pub(crate) fn push_all(producer: &mut Producer<u8>, bytes: &[u8]) -> (done: bool)
    ensures
        bytes@.len() <= free_slots(*old(producer)) ==> done && free_slots(*final(producer))
            == free_slots(*old(producer)) - bytes@.len(),
        done ==> pushed(*final(producer)) == pushed(*old(producer)) + bytes@,
        !done ==> pushed(*final(producer)) == pushed(*old(producer)),
{
    match producer.write_chunk_uninit(bytes.len()) {
        Ok(chunk) => {
            chunk.fill_from_iter(bytes.iter().copied());
            true
        },
        Err(_) => false,
    }
}

/// `Consumer::slots` looks how many slots are full by now, and makes sure of them. How many there
/// are depends on another thread.
#[verifier::external_body]
pub(crate) fn count_full(consumer: &mut Consumer<u8>) -> (slots: usize)
    ensures
        slots == full_slots(*final(consumer)),
        taken(*final(consumer)) == taken(*old(consumer)),
{
    consumer.slots()
}

/// `Consumer::read_chunk`, `ReadChunk::as_slices` and `ReadChunk::commit_all` read as many bytes
/// as are asked for, in order, or none of them. They read them where surely enough slots are full.
#[verifier::external_body]
pub(crate) fn pop_into(consumer: &mut Consumer<u8>, out: &mut [u8], n: usize) -> (done: bool)
    requires
        n <= old(out)@.len(),
    ensures
        n <= full_slots(*old(consumer)) ==> done && full_slots(*final(consumer)) == full_slots(
            *old(consumer),
        ) - n,
        final(out)@.len() == old(out)@.len(),
        final(out)@.skip(n as int) == old(out)@.skip(n as int),
        done ==> taken(*final(consumer)) == taken(*old(consumer)) + final(out)@.take(n as int),
        !done ==> taken(*final(consumer)) == taken(*old(consumer)) && final(out)@ == old(out)@,
{
    match consumer.read_chunk(n) {
        Ok(chunk) => {
            let (a, b) = chunk.as_slices();
            out[..a.len()].copy_from_slice(a);
            out[a.len()..a.len() + b.len()].copy_from_slice(b);
            chunk.commit_all();
            true
        },
        Err(_) => false,
    }
}

} // verus!
