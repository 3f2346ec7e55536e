//! What a finished run hands back, and the accounting that both policies
//! share: the multiset of task values delivered across all workers.

use vstd::prelude::*;
use vstd::multiset::Multiset;
use vstd::seq_lib::group_to_multiset_ensures;
use crate::message::{
    lemma_log_task_values_push_task, lemma_log_task_values_push_terminate, log_task_values,
    Message,
};

verus! {

/// The most queued items one run accepts; together with [`MAX_LATENCY`] it
/// keeps every reading of the run's virtual clock inside a machine word.
pub const MAX_ITEMS: usize = 1000000;

/// The highest per-call worker latency one run accepts, in clock ticks.
pub const MAX_LATENCY: u64 = 1000000000;

/// Why a run is refused before any message goes out.
#[derive(Clone, Copy, PartialEq, Eq, Structural, Debug)]
pub enum DispatchError {
    /// Fewer than two participating processes, a latency table that does not
    /// match the worker count, or a run too large for the virtual clock.
    PreconditionViolation,
}

/// What one run hands back. Workers are numbered 1 up to one less than the
/// process count — identity 0 is the dispatcher — and the per-worker rows
/// below keep that order: index `k` describes worker `k + 1`.
pub struct RunReport {
    /// Result values in the order the dispatcher collected them.
    pub results: Vec<i64>,
    /// Task payloads in the order they were sent.
    pub sent_values: Vec<i64>,
    /// How many tasks each worker received.
    pub task_counts: Vec<usize>,
    /// How many termination sentinels each worker received.
    pub sentinel_counts: Vec<usize>,
    /// The virtual time at which the last result arrived.
    pub wall_clock: u64,
    /// Each worker's full delivery log, in delivery order.
    pub logs: Ghost<Seq<Seq<Message>>>,
}

/// True iff every latency in the table is within what the virtual clock
/// accepts.
pub fn latencies_ok(latencies: &Vec<u64>) -> (b: bool)
    ensures
        b <==> (forall|k: int| 0 <= k < latencies@.len() ==> latencies@[k] <= MAX_LATENCY),
{
    let mut i: usize = 0;
    while i < latencies.len()
        invariant
            0 <= i <= latencies@.len(),
            forall|k: int| 0 <= k < i ==> latencies@[k] <= MAX_LATENCY,
        decreases latencies@.len() - i,
    {
        if latencies[i] > MAX_LATENCY {
            assert(latencies@[i as int] > MAX_LATENCY);
            return false;
        }
        i = i + 1;
    }
    true
}

/// The multiset of task values delivered across all workers' logs: what the
/// workers received, taken together, with no order and no owner.
pub open spec fn delivered_tasks(logs: Seq<Seq<Message>>) -> Multiset<i64>
    decreases logs.len(),
{
    if logs.len() == 0 {
        Multiset::empty()
    } else {
        delivered_tasks(logs.drop_last()).add(log_task_values(logs.last()).to_multiset())
    }
}

/// Before anything is sent, nothing is delivered.
pub proof fn lemma_delivered_tasks_empty(logs: Seq<Seq<Message>>)
    requires
        forall|k: int| 0 <= k < logs.len() ==> logs[k] == Seq::<Message>::empty(),
    ensures
        delivered_tasks(logs) == Multiset::<i64>::empty(),
    decreases logs.len(),
{
    broadcast use group_to_multiset_ensures;

    if logs.len() > 0 {
        lemma_delivered_tasks_empty(logs.drop_last());
        assert(log_task_values(logs.last()).to_multiset() =~= Multiset::<i64>::empty());
        assert(delivered_tasks(logs) =~= Multiset::<i64>::empty());
    }
}

/// Sending one task to worker `k` adds exactly its value to what is
/// delivered overall.
pub proof fn lemma_delivered_tasks_send(logs: Seq<Seq<Message>>, k: int, v: i64)
    requires
        0 <= k < logs.len(),
    ensures
        delivered_tasks(logs.update(k, logs[k].push(Message::Task(v)))) == delivered_tasks(
            logs,
        ).insert(v),
    decreases logs.len(),
{
    broadcast use group_to_multiset_ensures;

    let logs2 = logs.update(k, logs[k].push(Message::Task(v)));
    lemma_log_task_values_push_task(logs[k], v);
    if k == logs.len() - 1 {
        assert(logs2.drop_last() =~= logs.drop_last());
        assert(delivered_tasks(logs2) =~= delivered_tasks(logs).insert(v));
    } else {
        assert(logs2.drop_last() =~= logs.drop_last().update(k, logs.drop_last()[k].push(
            Message::Task(v),
        )));
        lemma_delivered_tasks_send(logs.drop_last(), k, v);
        assert(logs2.last() == logs.last());
        assert(delivered_tasks(logs2) =~= delivered_tasks(logs).insert(v));
    }
}

/// Sending a sentinel delivers no task value.
pub proof fn lemma_delivered_tasks_terminate(logs: Seq<Seq<Message>>, k: int)
    requires
        0 <= k < logs.len(),
    ensures
        delivered_tasks(logs.update(k, logs[k].push(Message::Terminate))) == delivered_tasks(
            logs,
        ),
    decreases logs.len(),
{
    broadcast use group_to_multiset_ensures;

    let logs2 = logs.update(k, logs[k].push(Message::Terminate));
    lemma_log_task_values_push_terminate(logs[k]);
    if k == logs.len() - 1 {
        assert(logs2.drop_last() =~= logs.drop_last());
        assert(delivered_tasks(logs2) =~= delivered_tasks(logs));
    } else {
        assert(logs2.drop_last() =~= logs.drop_last().update(k, logs.drop_last()[k].push(
            Message::Terminate,
        )));
        lemma_delivered_tasks_terminate(logs.drop_last(), k);
        assert(logs2.last() == logs.last());
        assert(delivered_tasks(logs2) =~= delivered_tasks(logs));
    }
}

} // verus!
