use queues::{IsQueue, Queue};
use vstd::prelude::*;

verus! {

#[verifier::external_type_specification]
#[verifier::external_body]
#[verifier::reject_recursive_types(T)]
pub struct ExQueue<T: Clone>(Queue<T>);

/// The indices that wait in a queue, the oldest first.
pub uninterp spec fn waiting(q: Queue<usize>) -> Seq<usize>;

/// An empty queue, from `Queue::new`.
///
/// Trusted: the new queue holds nothing.
#[verifier::external_body]
pub(crate) fn queue_new() -> (q: Queue<usize>)
    ensures
        waiting(q) == Seq::<usize>::empty(),
{
    Queue::new()
}

/// `IsQueue::add` on a `Queue`.
///
/// Trusted: the value is put behind everything that waits already, and nothing else changes.
/// A `Queue` has no limit, so the call never refuses the value.
#[verifier::external_body]
pub(crate) fn queue_add(q: &mut Queue<usize>, val: usize)
    ensures
        waiting(*final(q)) == waiting(*old(q)).push(val),
{
    let _ = q.add(val);
}

/// `IsQueue::remove` on a `Queue`.
///
/// Trusted: the oldest value leaves the queue and is returned; an empty queue stays empty and
/// gives nothing.
#[verifier::external_body]
pub(crate) fn queue_remove(q: &mut Queue<usize>) -> (r: Option<usize>)
    ensures
        match r {
            Some(v) => waiting(*old(q)).len() > 0 && v == waiting(*old(q))[0] && waiting(*final(q))
                == waiting(*old(q)).drop_first(),
            None => waiting(*old(q)).len() == 0 && waiting(*final(q)) == waiting(*old(q)),
        },
{
    q.remove().ok()
}

/// `IsQueue::size` on a `Queue`.
///
/// Trusted: the number of values that wait.
#[verifier::external_body]
pub(crate) fn queue_size(q: &Queue<usize>) -> (n: usize)
    ensures
        n == waiting(*q).len(),
{
    q.size()
}

} // verus!
