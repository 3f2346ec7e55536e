//! The worker-side task loop: a worker never initiates communication, it
//! answers one result per task and leaves the loop for good at the first
//! termination sentinel.

use vstd::prelude::*;
use crate::message::{log_task_values, tasks_then_sentinel, Message};
use crate::work::{apply_work, work_image, work_of};

verus! {

/// What the worker does with one received message.
#[derive(Clone, Copy, PartialEq, Eq, Structural, Debug)]
pub enum WorkerStep {
    /// Answer this result to the dispatcher and keep looping.
    Reply(i64),
    /// Leave the loop: no further receive, no further send.
    Halt,
}

/// One turn of the task loop: a task is evaluated and answered, the
/// sentinel ends the loop.
pub fn worker_step(worker: usize, msg: Message) -> (s: WorkerStep)
    ensures
        msg matches Message::Task(v) ==> s == WorkerStep::Reply(work_of(v)),
        msg is Terminate ==> s == WorkerStep::Halt,
{
    match msg {
        Message::Task(v) => WorkerStep::Reply(apply_work(v, worker)),
        Message::Terminate => WorkerStep::Halt,
    }
}

/// The results a worker answers over a delivery sequence: one per task
/// before the first sentinel, and nothing from the sentinel on.
pub open spec fn worker_outputs(msgs: Seq<Message>) -> Seq<i64>
    decreases msgs.len(),
{
    if msgs.len() == 0 {
        Seq::empty()
    } else {
        match msgs.first() {
            Message::Terminate => Seq::empty(),
            Message::Task(v) => seq![work_of(v)] + worker_outputs(msgs.drop_first()),
        }
    }
}

/// Runs the whole task loop over one delivery sequence and returns the
/// answered results in order. Processing stops at the first sentinel: a
/// message standing after it is never looked at.
pub fn run_worker(worker: usize, inbox: &Vec<Message>) -> (out: Vec<i64>)
    ensures
        out@ == worker_outputs(inbox@),
{
    let mut out: Vec<i64> = Vec::new();
    let mut i: usize = 0;
    proof {
        assert(inbox@.skip(0) =~= inbox@);
    }
    while i < inbox.len()
        invariant
            0 <= i <= inbox@.len(),
            worker_outputs(inbox@) == out@ + worker_outputs(inbox@.skip(i as int)),
        decreases inbox@.len() - i,
    {
        let m = inbox[i];
        match worker_step(worker, m) {
            WorkerStep::Reply(r) => {
                out.push(r);
                proof {
                    assert(inbox@.skip(i as int).drop_first() =~= inbox@.skip(i as int + 1));
                    assert(worker_outputs(inbox@) =~= out@ + worker_outputs(
                        inbox@.skip(i as int + 1),
                    ));
                }
            },
            WorkerStep::Halt => {
                proof {
                    assert(worker_outputs(inbox@) =~= out@);
                }
                return out;
            },
        }
        i = i + 1;
    }
    proof {
        assert(worker_outputs(inbox@) =~= out@);
    }
    out
}

/// The task values of a log whose first message is a task, split at the
/// front.
proof fn lemma_log_task_values_front(log: Seq<Message>, v: i64)
    requires
        log.len() >= 1,
        log.first() == Message::Task(v),
    ensures
        log_task_values(log) == seq![v] + log_task_values(log.drop_first()),
    decreases log.len(),
{
    if log.len() == 1 {
        assert(log.drop_last() =~= Seq::<Message>::empty());
        assert(log.drop_first() =~= Seq::<Message>::empty());
        assert(log_task_values(log) =~= seq![v] + log_task_values(log.drop_first()));
    } else {
        lemma_log_task_values_front(log.drop_last(), v);
        assert(log.drop_last().drop_first() =~= log.drop_first().drop_last());
        assert(log.drop_first().last() == log.last());
        match log.last() {
            Message::Task(w) => {
                assert(log_task_values(log) =~= seq![v] + log_task_values(log.drop_first()));
            },
            Message::Terminate => {
                assert(log_task_values(log) =~= seq![v] + log_task_values(log.drop_first()));
            },
        }
    }
}

/// The worker side of the termination protocol: against a delivery log that
/// keeps it — tasks only, then one sentinel, last — the worker answers
/// exactly one result per delivered task, in delivery order, and processes
/// nothing after the sentinel.
pub proof fn lemma_worker_keeps_protocol(log: Seq<Message>)
    requires
        tasks_then_sentinel(log),
    ensures
        worker_outputs(log) == work_image(log_task_values(log)),
    decreases log.len(),
{
    if log.len() == 1 {
        assert(log.first() == Message::Terminate);
        assert(log.drop_last() =~= Seq::<Message>::empty());
        assert(log_task_values(Seq::<Message>::empty()) =~= Seq::<i64>::empty());
        assert(log_task_values(log) =~= Seq::<i64>::empty());
        assert(work_image(Seq::<i64>::empty()) =~= Seq::<i64>::empty());
        assert(worker_outputs(log) =~= work_image(log_task_values(log)));
    } else {
        let v = log[0]->Task_0;
        assert(log.first() == Message::Task(v));
        lemma_log_task_values_front(log, v);
        let rest = log.drop_first();
        assert(tasks_then_sentinel(rest));
        lemma_worker_keeps_protocol(rest);
        assert(worker_outputs(log) =~= work_image(log_task_values(log)));
    }
}

} // verus!
