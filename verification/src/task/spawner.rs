use vstd::prelude::*;

use crate::task::Task;
use crossbeam_queue::ArrayQueue;

verus! {

/// Declares crossbeam's bounded lock-free queue so that it can stand in
/// fields and signatures; its inside stays opaque.
#[verifier::external_type_specification]
#[verifier::external_body]
#[verifier::reject_recursive_types(T)]
pub struct ExArrayQueue<T>(ArrayQueue<T>);

/// The tasks a queue holds, front first.
pub uninterp spec fn queue_contents(q: ArrayQueue<Task>) -> Seq<Task>;

/// The fixed capacity a queue was created with. What it holds never
/// exceeds it.
pub uninterp spec fn queue_capacity(q: ArrayQueue<Task>) -> nat;

/// Relies on ArrayQueue::new: an empty queue of the given capacity. It
/// panics on capacity zero and on capacities so large that the stamp
/// arithmetic overflows; those are excluded here.
#[verifier::external_body]
fn queue_new(capacity: usize) -> (q: ArrayQueue<Task>)
    requires
        0 < capacity < 0x1000_0000,
    ensures
        queue_contents(q) == Seq::<Task>::empty(),
        queue_capacity(q) == capacity,
{
    ArrayQueue::new(capacity)
}

/// Relies on ArrayQueue::push: appends at the back, or returns the value
/// as an error exactly when the queue is full.
#[verifier::external_body]
fn queue_push(q: &mut ArrayQueue<Task>, t: Task) -> (r: Result<(), Task>)
    ensures
        queue_capacity(*final(q)) == queue_capacity(*old(q)),
        queue_contents(*old(q)).len() < queue_capacity(*old(q)) ==> r is Ok
            && queue_contents(*final(q)) == queue_contents(*old(q)).push(t),
        queue_contents(*old(q)).len() >= queue_capacity(*old(q)) ==> r is Err && r->Err_0 == t
            && queue_contents(*final(q)) == queue_contents(*old(q)),
        queue_contents(*final(q)).len() <= queue_capacity(*final(q)),
{
    q.push(t)
}

/// Relies on ArrayQueue::pop: removes and returns the front element, or
/// returns nothing exactly when the queue is empty.
#[verifier::external_body]
fn queue_pop(q: &mut ArrayQueue<Task>) -> (r: Option<Task>)
    ensures
        queue_capacity(*final(q)) == queue_capacity(*old(q)),
        queue_contents(*old(q)).len() > 0 ==> r == Some(queue_contents(*old(q))[0])
            && queue_contents(*final(q)) == queue_contents(*old(q)).drop_first(),
        queue_contents(*old(q)).len() == 0 ==> r == None::<Task>
            && queue_contents(*final(q)) == queue_contents(*old(q)),
        queue_contents(*final(q)).len() <= queue_capacity(*final(q)),
{
    q.pop()
}

/// Relies on ArrayQueue::len: how many elements the queue holds, which
/// never exceeds its capacity.
#[verifier::external_body]
fn queue_len(q: &ArrayQueue<Task>) -> (n: usize)
    ensures
        n == queue_contents(*q).len(),
        n <= queue_capacity(*q),
{
    q.len()
}

/// The producer side of the task queue: a bounded FIFO shared by every
/// spawner of deferred work and drained by the executor.
pub struct Spawner {
    queue: ArrayQueue<Task>,
}

impl Spawner {
    /// The queued tasks, front first.
    pub closed spec fn tasks(self) -> Seq<Task> {
        queue_contents(self.queue)
    }

    /// The fixed capacity.
    pub closed spec fn capacity(self) -> nat {
        queue_capacity(self.queue)
    }

    /// An empty queue of the given capacity.
    pub fn new(capacity: usize) -> (s: Spawner)
        requires
            0 < capacity < 0x1000_0000,
        ensures
            s.tasks() == Seq::<Task>::empty(),
            s.capacity() == capacity,
    {
        Spawner { queue: queue_new(capacity) }
    }

    /// Enqueues a task. On a full queue the task is silently dropped and
    /// the queue is unchanged; the queue is never corrupted.
    pub fn add(&mut self, task: Task)
        ensures
            final(self).capacity() == old(self).capacity(),
            old(self).tasks().len() < old(self).capacity()
                ==> final(self).tasks() == old(self).tasks().push(task),
            old(self).tasks().len() >= old(self).capacity()
                ==> final(self).tasks() == old(self).tasks(),
            final(self).tasks().len() <= final(self).capacity(),
    {
        let _ = queue_push(&mut self.queue, task);
    }

    /// Dequeues the front task, if any.
    pub fn pop0(&mut self) -> (r: Option<Task>)
        ensures
            final(self).capacity() == old(self).capacity(),
            old(self).tasks().len() > 0 ==> r == Some(old(self).tasks()[0])
                && final(self).tasks() == old(self).tasks().drop_first(),
            old(self).tasks().len() == 0 ==> r == None::<Task>
                && final(self).tasks() == old(self).tasks(),
            final(self).tasks().len() <= final(self).capacity(),
    {
        queue_pop(&mut self.queue)
    }

    /// How many tasks are queued.
    pub fn len(&self) -> (n: usize)
        ensures
            n == self.tasks().len(),
            n <= self.capacity(),
    {
        queue_len(&self.queue)
    }
}

} // verus!
