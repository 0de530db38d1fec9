//! The relay queue: an unbounded FIFO channel from crossbeam, held behind
//! trusted wrappers.
//!
//! FIFO order holds for one producer-consumer pair with exclusive access,
//! which is what these wrappers provide: every call takes the queue `&mut`,
//! so the contents can be modeled as a sequence, oldest first. When two
//! independent producers share one queue, the relative order of their
//! messages is whatever the arrival order at the queue happened to be; the
//! sequence model records exactly that order and promises nothing more.

use vstd::prelude::*;
use crossbeam_queue::SegQueue;
use crate::events::SynthMsg;

verus! {

#[verifier::external_type_specification]
#[verifier::external_body]
#[verifier::reject_recursive_types(T)]
pub struct ExSegQueue<T>(SegQueue<T>);

/// The messages a queue holds, oldest first.
pub uninterp spec fn queue_contents(q: SegQueue<SynthMsg>) -> Seq<SynthMsg>;

/// Relies on crossbeam_queue::SegQueue::new: a fresh queue is empty.
#[verifier::external_body]
pub(crate) fn new_seg_queue() -> (q: SegQueue<SynthMsg>)
    ensures
        queue_contents(q) == Seq::<SynthMsg>::empty(),
{
    SegQueue::new()
}

/// Relies on crossbeam_queue::SegQueue::push_mut: appends one element at
/// the tail of the queue.
#[verifier::external_body]
pub(crate) fn seg_queue_push(q: &mut SegQueue<SynthMsg>, msg: SynthMsg)
    ensures
        queue_contents(*final(q)) == queue_contents(*old(q)).push(msg),
{
    q.push_mut(msg);
}

/// Relies on crossbeam_queue::SegQueue::pop_mut: removes and returns the
/// element at the head of the queue, oldest first, or returns `None` when
/// the queue is empty.
#[verifier::external_body]
pub(crate) fn seg_queue_pop(q: &mut SegQueue<SynthMsg>) -> (r: Option<SynthMsg>)
    ensures
        match r {
            Some(msg) => queue_contents(*old(q)).len() > 0 && msg == queue_contents(
                *old(q),
            ).first() && queue_contents(*final(q)) == queue_contents(*old(q)).drop_first(),
            None => queue_contents(*old(q)).len() == 0 && queue_contents(*final(q))
                == queue_contents(*old(q)),
        },
{
    q.pop_mut()
}

} // verus!
