//! The bounded detector-history window of the lookahead limiter, kept in a
//! `circular_queue::CircularQueue`. Verified code sees the queue through the
//! two names below and the trusted wrappers of the methods it calls.

use vstd::prelude::*;
use circular_queue::CircularQueue;

verus! {

#[verifier::external_type_specification]
#[verifier::external_body]
#[verifier::reject_recursive_types(T)]
pub struct ExCircularQueue<T>(CircularQueue<T>);

/// The values a history window holds, oldest first.
pub uninterp spec fn cq_contents(q: CircularQueue<i64>) -> Seq<i64>;

/// The capacity a history window was created with.
pub uninterp spec fn cq_capacity(q: CircularQueue<i64>) -> nat;

/// Relies on circular_queue::CircularQueue::with_capacity: a fresh queue is
/// empty and remembers the requested capacity.
#[verifier::external_body]
pub fn cq_with_capacity(capacity: usize) -> (q: CircularQueue<i64>)
    ensures
        cq_contents(q) == Seq::<i64>::empty(),
        cq_capacity(q) == capacity as nat,
{
    CircularQueue::with_capacity(capacity)
}

/// Relies on circular_queue::CircularQueue::push: appends the value, and once
/// the capacity is reached overwrites the oldest one; a zero-capacity queue
/// ignores the push. The count never passes the capacity.
#[verifier::external_body]
pub fn cq_push(q: &mut CircularQueue<i64>, x: i64)
    ensures
        cq_capacity(*final(q)) == cq_capacity(*old(q)),
        cq_contents(*final(q)) == if cq_capacity(*old(q)) == 0 {
            cq_contents(*old(q))
        } else if cq_contents(*old(q)).len() < cq_capacity(*old(q)) {
            cq_contents(*old(q)).push(x)
        } else {
            cq_contents(*old(q)).drop_first().push(x)
        },
        cq_contents(*final(q)).len() <= cq_capacity(*final(q)),
{
    q.push(x);
}

/// Relies on circular_queue::CircularQueue::asc_iter: yields the queue's
/// values oldest first.
#[verifier::external_body]
pub fn cq_items(q: &CircularQueue<i64>) -> (r: Vec<i64>)
    ensures
        r@ == cq_contents(*q),
{
    q.asc_iter().copied().collect()
}

} // verus!
