pub mod spawner;
pub mod task_loader;

use vstd::prelude::*;

use crate::vga_buffer::{Buffer, BufferView, VGABuffer, spec_write_bytes};

verus! {

use vstd::string::StringSliceAdditionalSpecFns;

/// The statically known kinds of deferred work.
#[derive(Debug, Clone, Copy, PartialEq, Eq, Structural)]
pub enum TaskKind {
    /// Computes a number asynchronously and reports it.
    ExampleTask,
}

/// The lifecycle of a task under the cooperative executor.
#[derive(Debug, Clone, Copy, PartialEq, Eq, Structural)]
pub enum TaskState {
    /// Spawned, not yet polled.
    Pending,
    /// Being driven forward right now.
    Running,
    /// Waiting for its event; will be polled again on the next wake.
    Suspended,
    /// Finished; it will be dropped, never polled again.
    Completed,
}

/// One unit of deferred, possibly suspending work.
#[derive(Debug, Clone, Copy, PartialEq, Eq, Structural)]
pub struct Task {
    pub kind: TaskKind,
    pub state: TaskState,
}

impl Task {
    pub fn new(kind: TaskKind) -> (t: Task)
        ensures
            t.kind == kind,
            t.state == TaskState::Pending,
    {
        Task { kind, state: TaskState::Pending }
    }
}

/// What one poll does: a task that is not yet completed runs to its next
/// stopping point — for the known kinds that is completion, reporting the
/// computed number — and a completed task is left alone.
pub open spec fn spec_poll(t: Task, v: BufferView) -> (Task, BufferView) {
    if t.state == TaskState::Completed {
        (t, v)
    } else {
        (
            Task { state: TaskState::Completed, ..t },
            spec_write_bytes(v, "async number: 42\n".spec_bytes()),
        )
    }
}

/// Drives one task forward until it completes or suspends.
pub fn poll_task(task: &mut Task, buffer: &mut Buffer) -> (done: bool)
    requires
        old(buffer)@.wf(),
    ensures
        final(buffer)@.wf(),
        *final(task) == spec_poll(*old(task), old(buffer)@).0,
        final(buffer)@ == spec_poll(*old(task), old(buffer)@).1,
        done == (final(task).state == TaskState::Completed),
{
    match task.state {
        TaskState::Completed => true,
        _ => {
            buffer.write_string("async number: 42\n");
            task.state = TaskState::Completed;
            true
        },
    }
}

/// What draining the queue once does: each task is popped and polled in
/// spawn order; completed tasks are dropped and the rest are re-armed at
/// the back, keeping their relative order, to wait for the next wake.
pub open spec fn spec_run_queue(tasks: Seq<Task>, v: BufferView) -> (Seq<Task>, BufferView)
    decreases tasks.len(),
{
    if tasks.len() == 0 {
        (Seq::empty(), v)
    } else {
        let polled = spec_poll(tasks[0], v);
        let rest = spec_run_queue(tasks.drop_first(), polled.1);
        if polled.0.state == TaskState::Completed {
            rest
        } else {
            (seq![polled.0] + rest.0, rest.1)
        }
    }
}

/// A drain leaves at most as many tasks re-armed as it found.
pub proof fn lemma_run_queue_len(tasks: Seq<Task>, v: BufferView)
    ensures
        spec_run_queue(tasks, v).0.len() <= tasks.len(),
    decreases tasks.len(),
{
    if tasks.len() > 0 {
        lemma_run_queue_len(tasks.drop_first(), spec_poll(tasks[0], v).1);
    }
}

pub proof fn lemma_run_queue_snoc(tasks: Seq<Task>, t: Task, v: BufferView)
    ensures
        ({
            let prefix = spec_run_queue(tasks, v);
            let polled = spec_poll(t, prefix.1);
            &&& spec_run_queue(tasks.push(t), v).1 == polled.1
            &&& spec_run_queue(tasks.push(t), v).0 == if polled.0.state == TaskState::Completed {
                prefix.0
            } else {
                prefix.0 + seq![polled.0]
            }
        }),
    decreases tasks.len(),
{
    if tasks.len() == 0 {
        assert(tasks.push(t)[0] == t);
        assert(tasks.push(t).drop_first() =~= Seq::<Task>::empty());
        let polled = spec_poll(t, v);
        assert(spec_run_queue(Seq::<Task>::empty(), polled.1) == (Seq::<Task>::empty(), polled.1));
        assert(spec_run_queue(tasks, v) == (Seq::<Task>::empty(), v));
        if polled.0.state != TaskState::Completed {
            assert(spec_run_queue(tasks.push(t), v).0 =~= Seq::<Task>::empty() + seq![polled.0]);
        }
    } else {
        assert(tasks.push(t)[0] == tasks[0]);
        assert(tasks.push(t).drop_first() =~= tasks.drop_first().push(t));
        let polled0 = spec_poll(tasks[0], v);
        lemma_run_queue_snoc(tasks.drop_first(), t, polled0.1);
        let prefix = spec_run_queue(tasks, v);
        let polled = spec_poll(t, prefix.1);
        if polled0.0.state != TaskState::Completed && polled.0.state != TaskState::Completed {
            assert(seq![polled0.0] + (spec_run_queue(tasks.drop_first(), polled0.1).0 + seq![polled.0])
                =~= (seq![polled0.0] + spec_run_queue(tasks.drop_first(), polled0.1).0) + seq![polled.0]);
        }
    }
}

/// Pops and polls every task that was queued when the call began, in FIFO
/// order; tasks that are not yet completed are re-armed at the back for a
/// later wake.
pub fn run_ready_tasks(spawner: &mut spawner::Spawner, buffer: &mut Buffer)
    requires
        old(buffer)@.wf(),
    ensures
        final(buffer)@.wf(),
        final(spawner).capacity() == old(spawner).capacity(),
        final(spawner).tasks() == spec_run_queue(old(spawner).tasks(), old(buffer)@).0,
        final(buffer)@ == spec_run_queue(old(spawner).tasks(), old(buffer)@).1,
{
    let ghost tasks0 = spawner.tasks();
    let n = spawner.len();
    let mut i: usize = 0;
    proof {
        assert(tasks0.take(0) =~= Seq::<Task>::empty());
        assert(tasks0.skip(0) =~= tasks0);
        assert(spec_run_queue(tasks0.take(0), old(buffer)@).0 + tasks0.skip(0) =~= tasks0);
    }
    while i < n
        invariant
            i <= n,
            n == tasks0.len(),
            n <= spawner.capacity(),
            buffer@.wf(),
            spawner.capacity() == old(spawner).capacity(),
            spawner.tasks() == tasks0.skip(i as int) + spec_run_queue(tasks0.take(i as int), old(buffer)@).0,
            buffer@ == spec_run_queue(tasks0.take(i as int), old(buffer)@).1,
        decreases n - i,
    {
        let ghost prefix = spec_run_queue(tasks0.take(i as int), old(buffer)@);
        proof {
            lemma_run_queue_len(tasks0.take(i as int), old(buffer)@);
            assert((tasks0.skip(i as int) + prefix.0)[0] == tasks0[i as int]);
        }
        let popped = spawner.pop0();
        let mut task = match popped {
            Some(t) => t,
            None => {
                proof {
                    assert(false);
                }
                Task::new(TaskKind::ExampleTask)
            },
        };
        proof {
            assert((tasks0.skip(i as int) + prefix.0).drop_first()
                =~= tasks0.skip(i as int + 1) + prefix.0);
        }
        let done = poll_task(&mut task, buffer);
        proof {
            lemma_run_queue_snoc(tasks0.take(i as int), tasks0[i as int], old(buffer)@);
            assert(tasks0.take(i as int).push(tasks0[i as int]) =~= tasks0.take(i as int + 1));
        }
        if !done {
            proof {
                assert(spawner.tasks().len() <= (n - i - 1) + i);
            }
            spawner.add(task);
            proof {
                assert(spawner.tasks()
                    =~= tasks0.skip(i as int + 1) + spec_run_queue(tasks0.take(i as int + 1), old(buffer)@).0);
            }
        } else {
            proof {
                assert(spawner.tasks()
                    =~= tasks0.skip(i as int + 1) + spec_run_queue(tasks0.take(i as int + 1), old(buffer)@).0);
            }
        }
        i = i + 1;
    }
    proof {
        assert(tasks0.take(n as int) =~= tasks0);
        assert(tasks0.skip(n as int) =~= Seq::<Task>::empty());
        assert(spawner.tasks() =~= spec_run_queue(tasks0, old(buffer)@).0);
    }
}

} // verus!
