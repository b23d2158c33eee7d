//! Trusted boundary to the heapless single-producer/single-consumer queues:
//! the byte input channel the decoder drains and the frame output channel it
//! emits on. Each end is owned exclusively by one party; the decoder owns the
//! byte consumer and the message producer, the surrounding firmware owns the
//! other two ends.
use vstd::prelude::*;

use crate::sbus::{Error, SbusFrame};

verus! {

#[verifier::external_type_specification]
#[verifier::external_body]
#[verifier::reject_recursive_types(T)]
pub struct ExConsumer<'a, T>(heapless::spsc::Consumer<'a, T>);

#[verifier::external_type_specification]
#[verifier::external_body]
#[verifier::reject_recursive_types(T)]
pub struct ExProducer<'a, T>(heapless::spsc::Producer<'a, T>);

/// The items sitting in the byte input queue, front first. Each is one byte
/// read by the UART, or the transport error code reported for it.
pub uninterp spec fn byte_contents(rx: heapless::spsc::Consumer<'static, Result<u8, u8>>) -> Seq<
    Result<u8, u8>,
>;

/// The messages sitting in the frame output queue, front first.
pub uninterp spec fn msg_contents(
    tx: heapless::spsc::Producer<'static, Result<SbusFrame, Error>>,
) -> Seq<Result<SbusFrame, Error>>;

/// The fixed capacity of the frame output queue.
pub uninterp spec fn msg_capacity(
    tx: heapless::spsc::Producer<'static, Result<SbusFrame, Error>>,
) -> nat;

/// Relies on heapless::spsc::Consumer::dequeue: removes and returns the item
/// at the front of the queue, or returns None when the queue is empty.
#[verifier::external_body]
pub(crate) fn dequeue_byte(rx: &mut heapless::spsc::Consumer<'static, Result<u8, u8>>) -> (item:
    Option<Result<u8, u8>>)
    ensures
        byte_contents(*old(rx)).len() == 0 ==> item is None && byte_contents(*final(rx))
            == byte_contents(*old(rx)),
        byte_contents(*old(rx)).len() > 0 ==> item == Some(byte_contents(*old(rx))[0])
            && byte_contents(*final(rx)) == byte_contents(*old(rx)).drop_first(),
{
    rx.dequeue()
}

/// Relies on heapless::spsc::Producer::enqueue: appends the item at the back
/// of the queue if there is room, and hands it back when the queue is full.
#[verifier::external_body]
pub(crate) fn enqueue_message(
    tx: &mut heapless::spsc::Producer<'static, Result<SbusFrame, Error>>,
    message: Result<SbusFrame, Error>,
) -> (r: Result<(), Result<SbusFrame, Error>>)
    ensures
        (r is Ok) == (msg_contents(*old(tx)).len() < msg_capacity(*old(tx))),
        r is Ok ==> msg_contents(*final(tx)) == msg_contents(*old(tx)).push(message)
            && msg_capacity(*final(tx)) == msg_capacity(*old(tx)),
        r matches Err(given_back) ==> given_back == message && msg_contents(*final(tx))
            == msg_contents(*old(tx)) && msg_capacity(*final(tx)) == msg_capacity(*old(tx)),
{
    tx.enqueue(message)
}

} // verus!
