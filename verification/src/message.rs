//! Messages of the dispatch protocol and the shape of a worker's delivery
//! log under it.
//!
//! A tagged message stands in place of an in-band marker value, so no input
//! value can ever be mistaken for the termination sentinel.

use vstd::prelude::*;

verus! {

/// One message from the dispatcher to a worker.
#[derive(Clone, Copy, PartialEq, Eq, Structural, Debug)]
pub enum Message {
    /// One input value to evaluate and answer.
    Task(i64),
    /// The termination sentinel: sent exactly once per worker, after every
    /// task destined for that worker has been accounted for.
    Terminate,
}

/// The input values carried by the task messages of one delivery log, in
/// delivery order.
pub open spec fn log_task_values(log: Seq<Message>) -> Seq<i64>
    decreases log.len(),
{
    if log.len() == 0 {
        Seq::empty()
    } else {
        let rest = log_task_values(log.drop_last());
        match log.last() {
            Message::Task(v) => rest.push(v),
            Message::Terminate => rest,
        }
    }
}

/// A delivery log that holds tasks only: how every log looks until the
/// termination broadcast.
pub open spec fn all_tasks_log(log: Seq<Message>) -> bool {
    forall|t: int| 0 <= t < log.len() ==> log[t] is Task
}

/// The delivery log that the termination protocol owes every worker: tasks
/// only, then the sentinel, exactly once and last — so no task is ever
/// delivered after the sentinel.
pub open spec fn tasks_then_sentinel(log: Seq<Message>) -> bool {
    &&& log.len() >= 1
    &&& log.last() == Message::Terminate
    &&& forall|j: int| 0 <= j < log.len() - 1 ==> log[j] is Task
}

pub proof fn lemma_log_task_values_push_task(log: Seq<Message>, v: i64)
    ensures
        log_task_values(log.push(Message::Task(v))) == log_task_values(log).push(v),
{
    assert(log.push(Message::Task(v)).drop_last() =~= log);
}

pub proof fn lemma_log_task_values_push_terminate(log: Seq<Message>)
    ensures
        log_task_values(log.push(Message::Terminate)) == log_task_values(log),
{
    assert(log.push(Message::Terminate).drop_last() =~= log);
}

} // verus!
