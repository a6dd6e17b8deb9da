//! Worker lifecycle states, the outcomes a dequeue attempt can observe,
//! and the accounting of the tasks that workers currently hold.

use vstd::multiset::Multiset;
use vstd::prelude::*;

verus! {

broadcast use vstd::multiset::group_multiset_axioms;

/// The life cycle of one worker. It waits for work, runs one claimed task
/// at a time, and ends either by observing the closed and drained queue
/// (`Terminated`) or by dying while a task runs (`Failed`).
#[derive(Clone, Copy, Debug, PartialEq, Eq, Structural)]
pub enum WorkerState {
    /// Blocked on the shared queue, ready to claim the next task.
    Waiting,
    /// Executing the claimed task, with the dequeue lock already released.
    Running { task: u64 },
    /// Exited normally: the queue was closed and fully drained.
    Terminated,
    /// Lost for the rest of the pool's lifetime: the task it ran failed.
    Failed { task: u64 },
}

/// What a worker's dequeue attempt can observe on the shared queue.
#[derive(Clone, Copy, Debug, PartialEq, Eq, Structural)]
pub enum Dequeued {
    /// The oldest pending task, now owned by the claiming worker alone.
    Task(u64),
    /// No task is pending but the queue is still open: keep waiting.
    Empty,
    /// The queue is closed and drained: the worker terminates.
    Disconnected,
}

/// The task a worker is currently running, as a multiset contribution.
pub open spec fn running_contrib(s: WorkerState) -> Multiset<u64> {
    match s {
        WorkerState::Running { task } => Multiset::singleton(task),
        _ => Multiset::empty(),
    }
}

/// The task a worker died on, as a multiset contribution.
pub open spec fn failed_contrib(s: WorkerState) -> Multiset<u64> {
    match s {
        WorkerState::Failed { task } => Multiset::singleton(task),
        _ => Multiset::empty(),
    }
}

/// All tasks currently being run by some worker.
pub open spec fn running_tasks(ws: Seq<WorkerState>) -> Multiset<u64>
    decreases ws.len(),
{
    if ws.len() == 0 {
        Multiset::empty()
    } else {
        running_tasks(ws.drop_last()).add(running_contrib(ws.last()))
    }
}

/// All tasks lost to a worker that failed while running them.
pub open spec fn failed_tasks(ws: Seq<WorkerState>) -> Multiset<u64>
    decreases ws.len(),
{
    if ws.len() == 0 {
        Multiset::empty()
    } else {
        failed_tasks(ws.drop_last()).add(failed_contrib(ws.last()))
    }
}

/// Workers that neither run a task nor died on one hold no tasks at all.
pub proof fn lemma_inactive_workers_hold_nothing(ws: Seq<WorkerState>)
    requires
        forall|i: int| 0 <= i < ws.len() ==> (ws[i] is Waiting || ws[i] is Terminated),
    ensures
        running_tasks(ws) == Multiset::<u64>::empty(),
        failed_tasks(ws) == Multiset::<u64>::empty(),
    decreases ws.len(),
{
    if ws.len() > 0 {
        assert(forall|i: int|
            0 <= i < ws.drop_last().len() ==> (#[trigger] ws.drop_last()[i] == ws[i]));
        lemma_inactive_workers_hold_nothing(ws.drop_last());
        assert(ws.last() == ws[ws.len() - 1]);
        assert(running_tasks(ws) =~= Multiset::<u64>::empty());
        assert(failed_tasks(ws) =~= Multiset::<u64>::empty());
    }
}

/// Changing one worker's state changes the held-task accounting by exactly
/// the difference between that worker's old and new contributions, task by
/// task: the counted form of `lemma_update_worker_contrib`, which is what
/// the pool's transitions consume.
pub proof fn lemma_update_worker_counts(ws: Seq<WorkerState>, i: int, s: WorkerState)
    requires
        0 <= i < ws.len(),
    ensures
        forall|x: u64|
            #![all_triggers]
            running_tasks(ws.update(i, s)).count(x) == running_tasks(ws).count(x)
                + running_contrib(s).count(x) - running_contrib(ws[i]).count(x),
        forall|x: u64|
            #![all_triggers]
            failed_tasks(ws.update(i, s)).count(x) == failed_tasks(ws).count(x) + failed_contrib(
                s,
            ).count(x) - failed_contrib(ws[i]).count(x),
{
    lemma_update_worker_contrib(ws, i, s);
    assert forall|x: u64|
        running_tasks(ws.update(i, s)).count(x) == running_tasks(ws).count(x) + running_contrib(
            s,
        ).count(x) - running_contrib(ws[i]).count(x) by {
        assert(running_tasks(ws.update(i, s)).add(running_contrib(ws[i])).count(x)
            == running_tasks(ws).add(running_contrib(s)).count(x));
    }
    assert forall|x: u64|
        failed_tasks(ws.update(i, s)).count(x) == failed_tasks(ws).count(x) + failed_contrib(
            s,
        ).count(x) - failed_contrib(ws[i]).count(x) by {
        assert(failed_tasks(ws.update(i, s)).add(failed_contrib(ws[i])).count(x) == failed_tasks(
            ws,
        ).add(failed_contrib(s)).count(x));
    }
}

/// Changing one worker's state changes the held-task accounting by exactly
/// the difference between that worker's old and new contributions.
pub proof fn lemma_update_worker_contrib(ws: Seq<WorkerState>, i: int, s: WorkerState)
    requires
        0 <= i < ws.len(),
    ensures
        running_tasks(ws.update(i, s)).add(running_contrib(ws[i]))
            == running_tasks(ws).add(running_contrib(s)),
        failed_tasks(ws.update(i, s)).add(failed_contrib(ws[i]))
            == failed_tasks(ws).add(failed_contrib(s)),
    decreases ws.len(),
{
    let ws2 = ws.update(i, s);
    assert(ws2.len() == ws.len());
    if i == ws.len() - 1 {
        assert(ws2.drop_last() =~= ws.drop_last());
        assert(ws2.last() == s);
        assert(ws.last() == ws[i]);
        assert(running_tasks(ws2).add(running_contrib(ws[i]))
            =~= running_tasks(ws).add(running_contrib(s)));
        assert(failed_tasks(ws2).add(failed_contrib(ws[i]))
            =~= failed_tasks(ws).add(failed_contrib(s)));
    } else {
        let dl = ws.drop_last();
        lemma_update_worker_contrib(dl, i, s);
        assert(ws2.drop_last() =~= dl.update(i, s));
        assert(ws2.last() == ws.last());
        assert(dl[i] == ws[i]);
        assert(running_tasks(ws2) == running_tasks(dl.update(i, s)).add(
            running_contrib(ws.last()),
        ));
        assert(failed_tasks(ws2) == failed_tasks(dl.update(i, s)).add(failed_contrib(ws.last())));
        assert forall|x: u64|
            running_tasks(ws2).add(running_contrib(ws[i])).count(x) == running_tasks(ws).add(
                running_contrib(s),
            ).count(x) by {
            assert(running_tasks(dl.update(i, s)).add(running_contrib(dl[i])).count(x)
                == running_tasks(dl).add(running_contrib(s)).count(x));
        }
        assert forall|x: u64|
            failed_tasks(ws2).add(failed_contrib(ws[i])).count(x) == failed_tasks(ws).add(
                failed_contrib(s),
            ).count(x) by {
            assert(failed_tasks(dl.update(i, s)).add(failed_contrib(dl[i])).count(x)
                == failed_tasks(dl).add(failed_contrib(s)).count(x));
        }
        assert(running_tasks(ws2).add(running_contrib(ws[i]))
            =~= running_tasks(ws).add(running_contrib(s)));
        assert(failed_tasks(ws2).add(failed_contrib(ws[i]))
            =~= failed_tasks(ws).add(failed_contrib(s)));
    }
}

} // verus!
