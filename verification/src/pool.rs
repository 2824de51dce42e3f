//! The cross-thread half of the recycler: an unbounded queue of fixed-size
//! blocks of counter-cell indices, backed by `crossbeam_queue::SegQueue`.
//!
//! The queue itself is outside code; its contents are named by
//! [`pool_contents`] and every access goes through a wrapper whose contract
//! states, over that name, what the queue's source shows. The wrappers take
//! the queue exclusively (`&mut`), which is what makes the FIFO view exact.

use vstd::prelude::*;

verus! {

/// The pool's backing queue type.
///
/// Relies on `crossbeam_queue::SegQueue`: an unbounded FIFO queue.
#[verifier::external_type_specification]
#[verifier::external_body]
#[verifier::reject_recursive_types(U)]
pub struct ExSegQueue<U>(crossbeam_queue::SegQueue<U>);

/// What the pool holds: its blocks, front of the queue first.
pub uninterp spec fn pool_contents(q: crossbeam_queue::SegQueue<Vec<usize>>) -> Seq<Seq<usize>>;

/// Relies on `crossbeam_queue::SegQueue::new`: creates an empty queue.
#[verifier::external_body]
pub(crate) fn pool_new() -> (q: crossbeam_queue::SegQueue<Vec<usize>>)
    ensures
        pool_contents(q) == Seq::<Seq<usize>>::empty(),
{
    crossbeam_queue::SegQueue::new()
}

/// Relies on `crossbeam_queue::SegQueue::push`: appends one element at the
/// tail of the queue.
#[verifier::external_body]
pub(crate) fn pool_push(q: &mut crossbeam_queue::SegQueue<Vec<usize>>, block: Vec<usize>)
    ensures
        pool_contents(*final(q)) == pool_contents(*old(q)).push(block@),
{
    q.push(block);
}

/// Relies on `crossbeam_queue::SegQueue::pop`: removes and returns the
/// element at the head of the queue, or nothing when the queue is empty.
#[verifier::external_body]
pub(crate) fn pool_pop(q: &mut crossbeam_queue::SegQueue<Vec<usize>>) -> (r: Option<Vec<usize>>)
    ensures
        match r {
            Some(block) => pool_contents(*old(q)).len() > 0 && block@ == pool_contents(
                *old(q),
            ).first() && pool_contents(*final(q)) == pool_contents(*old(q)).drop_first(),
            None => pool_contents(*old(q)).len() == 0 && pool_contents(*final(q)) == pool_contents(
                *old(q),
            ),
        },
{
    q.pop()
}

/// Relies on `crossbeam_queue::SegQueue::len`: the number of elements in the
/// queue, exact while the queue is held exclusively.
#[verifier::external_body]
pub(crate) fn pool_len(q: &crossbeam_queue::SegQueue<Vec<usize>>) -> (n: usize)
    ensures
        n == pool_contents(*q).len(),
{
    q.len()
}

} // verus!
