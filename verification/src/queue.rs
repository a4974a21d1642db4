//! Bounded first-in first-out queues of small items.
//!
//! The queue itself is `crossbeam_queue::ArrayQueue`. An item is a tag, an id and
//! a value; who fills a queue decides what they mean.
use crossbeam_queue::ArrayQueue;
use vstd::prelude::*;

verus! {

/// What a queue holds.
pub type Item = (u8, u32, u64);

/// `crossbeam_queue::ArrayQueue`, a bounded queue whose operations take no lock.
#[verifier::external_type_specification]
#[verifier::external_body]
#[verifier::reject_recursive_types(T)]
pub struct ExArrayQueue<T>(ArrayQueue<T>);

/// The items in a queue, the oldest first.
pub uninterp spec fn queued(queue: ArrayQueue<(u8, u32, u64)>) -> Seq<(u8, u32, u64)>;

/// The largest number of items that a queue was made to hold.
pub uninterp spec fn queue_capacity(queue: ArrayQueue<(u8, u32, u64)>) -> nat;

/// `ArrayQueue::new`: an empty queue that holds up to `capacity` items. It panics
/// on a capacity of zero and on one too large to allocate; both are left out.
#[verifier::external_body]
pub(crate) fn queue_new(capacity: usize) -> (r: ArrayQueue<(u8, u32, u64)>)
    requires
        0 < capacity <= 65536,
    ensures
        queued(r) == Seq::<(u8, u32, u64)>::empty(),
        queue_capacity(r) == capacity,
{
    ArrayQueue::new(capacity)
}

/// `ArrayQueue::push`, with nobody else at the queue: the item goes behind those
/// that are there, unless the queue is full; then it comes back and the queue
/// stays as it is.
#[verifier::external_body]
pub(crate) fn queue_push(queue: &mut ArrayQueue<(u8, u32, u64)>, item: (u8, u32, u64)) -> (r: Result<
    (),
    (u8, u32, u64),
>)
    ensures
        queue_capacity(*final(queue)) == queue_capacity(*old(queue)),
        match r {
            Ok(()) => queued(*old(queue)).len() < queue_capacity(*old(queue)) && queued(
                *final(queue),
            ) == queued(*old(queue)).push(item),
            Err(back) => back == item && queued(*old(queue)).len() >= queue_capacity(*old(queue))
                && queued(*final(queue)) == queued(*old(queue)),
        },
{
    queue.push(item)
}

/// `ArrayQueue::force_push`, with nobody else at the queue: the item goes behind
/// those that are there; where the queue is full, the oldest makes room and
/// comes back.
#[verifier::external_body]
pub(crate) fn queue_force_push(
    queue: &mut ArrayQueue<(u8, u32, u64)>,
    item: (u8, u32, u64),
) -> (r: Option<(u8, u32, u64)>)
    ensures
        queue_capacity(*final(queue)) == queue_capacity(*old(queue)),
        match r {
            None => queued(*old(queue)).len() < queue_capacity(*old(queue)) && queued(
                *final(queue),
            ) == queued(*old(queue)).push(item),
            Some(oldest) => queued(*old(queue)).len() >= queue_capacity(*old(queue))
                && queued(*old(queue)).len() > 0 && oldest == queued(*old(queue))[0] && queued(
                *final(queue),
            ) == queued(*old(queue)).skip(1).push(item),
        },
{
    queue.force_push(item)
}

/// `ArrayQueue::pop`, with nobody else at the queue: takes the oldest item, if
/// there is one.
#[verifier::external_body]
pub(crate) fn queue_pop(queue: &mut ArrayQueue<(u8, u32, u64)>) -> (r: Option<(u8, u32, u64)>)
    ensures
        queue_capacity(*final(queue)) == queue_capacity(*old(queue)),
        match r {
            Some(item) => queued(*old(queue)).len() > 0 && item == queued(*old(queue))[0]
                && queued(*final(queue)) == queued(*old(queue)).skip(1),
            None => queued(*old(queue)).len() == 0 && queued(*final(queue)) == queued(
                *old(queue),
            ),
        },
{
    queue.pop()
}

/// Takes every item out of a queue, the oldest first.
pub fn take_all(queue: &mut ArrayQueue<(u8, u32, u64)>) -> (r: Vec<(u8, u32, u64)>)
    ensures
        r@ == queued(*old(queue)),
        queued(*final(queue)).len() == 0,
        queue_capacity(*final(queue)) == queue_capacity(*old(queue)),
{
    let mut r: Vec<(u8, u32, u64)> = Vec::new();
    let ghost all = queued(*queue);
    let ghost mut taken: int = 0;
    proof {
        assert(all.skip(0) =~= all);
        assert(all.take(0) =~= Seq::empty());
    }
    loop
        invariant
            0 <= taken <= all.len(),
            queued(*queue) == all.skip(taken),
            r@ == all.take(taken),
            queue_capacity(*queue) == queue_capacity(*old(queue)),
        ensures
            r@ == all,
            queued(*queue).len() == 0,
            queue_capacity(*queue) == queue_capacity(*old(queue)),
        decreases all.len() - taken,
    {
        match queue_pop(queue) {
            Some(item) => {
                r.push(item);
                proof {
                    assert(all.skip(taken).skip(1) =~= all.skip(taken + 1));
                    assert(all.take(taken + 1) =~= all.take(taken).push(item));
                    taken = taken + 1;
                }
            },
            None => {
                proof {
                    assert(all.take(taken) =~= all);
                }
                break ;
            },
        }
    }
    r
}

} // verus!
