//! The static baseline: every item is assigned up front by round-robin over
//! the worker identities in ascending order, with no progress awareness, no
//! reassignment and no backpressure. The transport buffers per channel, so a
//! worker may hold several unconsumed tasks at once.

use vstd::prelude::*;
use vstd::arithmetic::div_mod::{
    lemma_fundamental_div_mod, lemma_fundamental_div_mod_converse, lemma_mod_bound,
    lemma_small_mod,
};
use vstd::arithmetic::mul::{lemma_mul_nonnegative, lemma_mul_upper_bound};
use vstd::seq_lib::group_to_multiset_ensures;
use crate::message::{
    all_tasks_log, lemma_log_task_values_push_task, lemma_log_task_values_push_terminate,
    log_task_values, tasks_then_sentinel, Message,
};
use crate::queue::WorkQueue;
use crate::report::{
    delivered_tasks, latencies_ok, lemma_delivered_tasks_empty, lemma_delivered_tasks_send,
    lemma_delivered_tasks_terminate, DispatchError, RunReport, MAX_ITEMS, MAX_LATENCY,
};
use crate::work::{apply_work, lemma_work_image_push, work_image};

verus! {

/// How many of `n` items the up-front round-robin hands the `k`-th of `w`
/// workers: the fixed share decided before any worker has done anything.
pub open spec fn rr_count(n: int, w: int, k: int) -> int
    recommends
        w >= 1,
        0 <= k < w,
{
    n / w + if k < n % w {
        1int
    } else {
        0int
    }
}

/// The items the round-robin hands the `k`-th worker, in sending order:
/// those at generation positions `k`, `k + w`, `k + 2w`, and so on.
pub open spec fn rr_items(items: Seq<i64>, w: int, k: int) -> Seq<i64> {
    Seq::new(rr_count(items.len() as int, w, k) as nat, |i: int| items[i * w + k])
}

/// The virtual completion time of the static policy: each worker processes
/// its fixed share back to back from time zero, so the run ends when the
/// most loaded worker finishes. `k` bounds the workers considered.
pub open spec fn static_makespan(n: int, lats: Seq<u64>, k: int) -> int
    decreases k,
{
    if k <= 0 {
        0
    } else {
        let prev = static_makespan(n, lats, k - 1);
        let load = rr_count(n, lats.len() as int, k - 1) * lats[k - 1];
        if load > prev {
            load
        } else {
            prev
        }
    }
}

/// How each worker's fixed share grows as one more item is assigned: only
/// the worker at the wrapping index gains it.
proof fn lemma_rr_count_step(j: int, w: int, k: int)
    requires
        j >= 0,
        w >= 1,
        0 <= k < w,
    ensures
        rr_count(j + 1, w, k) == rr_count(j, w, k) + if k == j % w {
            1int
        } else {
            0int
        },
{
    lemma_fundamental_div_mod(j, w);
    lemma_mod_bound(j, w);
    if j % w == w - 1 {
        assert(j + 1 == (j / w + 1) * w + 0) by (nonlinear_arith)
            requires
                j == w * (j / w) + j % w,
                j % w == w - 1,
        ;
        lemma_fundamental_div_mod_converse(j + 1, w, j / w + 1, 0);
    } else {
        assert(j + 1 == (j / w) * w + (j % w + 1)) by (nonlinear_arith)
            requires
                j == w * (j / w) + j % w,
        ;
        lemma_fundamental_div_mod_converse(j + 1, w, j / w, j % w + 1);
    }
}

/// Static fairness: the up-front round-robin over `n` items and `w` workers
/// hands every worker either the floor or the ceiling of `n / w` items, the
/// ceiling only while the remainder lasts, so two workers' shares never
/// differ by more than one.
pub proof fn lemma_static_fairness(n: int, w: int, a: int, b: int)
    requires
        n >= 0,
        w >= 1,
        0 <= a < w,
        0 <= b < w,
    ensures
        rr_count(n, w, a) == n / w || rr_count(n, w, a) == n / w + 1,
        n % w == 0 ==> rr_count(n, w, a) == n / w,
        rr_count(n, w, a) - rr_count(n, w, b) <= 1,
{
    lemma_mod_bound(n, w);
}

/// Runs the whole static policy over the queue: assigns every item up front
/// by round-robin, broadcasts the sentinel, then collects exactly one result
/// per item. The report pins down every send, every per-worker share, every
/// delivery log and the completion time.
pub fn run_static(q: &WorkQueue, num_procs: usize, latencies: &Vec<u64>) -> (r: RunReport)
    requires
        num_procs >= 2,
        latencies@.len() == num_procs - 1,
        q@.len() <= MAX_ITEMS,
        forall|k: int| 0 <= k < latencies@.len() ==> latencies@[k] <= MAX_LATENCY,
    ensures
        static_report_ok(r, q@, num_procs as int, latencies@),
{
    broadcast use group_to_multiset_ensures;

    let w = num_procs - 1;
    let n = q.len();
    let mut task_counts: Vec<usize> = Vec::new();
    let mut sentinel_counts: Vec<usize> = Vec::new();
    let mut i: usize = 0;
    while i < w
        invariant
            0 <= i <= w,
            task_counts@.len() == i,
            sentinel_counts@.len() == i,
            forall|k: int| 0 <= k < i ==> task_counts@[k] == 0,
            forall|k: int| 0 <= k < i ==> sentinel_counts@[k] == 0,
        decreases w - i,
    {
        task_counts.push(0);
        sentinel_counts.push(0);
        i = i + 1;
    }
    let ghost mut logs: Seq<Seq<Message>> = Seq::new(w as nat, |k: int| Seq::<Message>::empty());
    proof {
        lemma_delivered_tasks_empty(logs);
        lemma_small_mod(0, w as nat);
        assert forall|k: int| 0 <= k < w implies rr_count(0, w as int, k) == 0 by {
            vstd::arithmetic::div_mod::lemma_div_of0(w as int);
        }
        assert(q@.take(0) =~= Seq::<i64>::empty());
        assert forall|k: int| 0 <= k < w implies log_task_values(logs[k]) =~= Seq::new(
            rr_count(0, w as int, k) as nat,
            |t: int| q@[t * w + k],
        ) by {
        }
    }

    // Up-front assignment: one send per item, wrapping over the workers in
    // ascending identity order, waiting for nobody.
    let mut sent_values: Vec<i64> = Vec::new();
    let mut j: usize = 0;
    while j < n
        invariant
            num_procs >= 2,
            w == num_procs - 1,
            n == q@.len(),
            0 <= j <= n,
            task_counts@.len() == w,
            sentinel_counts@.len() == w,
            forall|k: int| 0 <= k < w ==> sentinel_counts@[k] == 0,
            logs.len() == w,
            sent_values@ == q@.take(j as int),
            forall|k: int| 0 <= k < w ==> task_counts@[k] as int == rr_count(
                j as int,
                w as int,
                k,
            ),
            forall|k: int| 0 <= k < w ==> task_counts@[k] <= j,
            forall|k: int| 0 <= k < w ==> all_tasks_log(#[trigger] logs[k]),
            forall|k: int|
                0 <= k < w ==> log_task_values(#[trigger] logs[k]) == Seq::new(
                    rr_count(j as int, w as int, k) as nat,
                    |t: int| q@[t * w + k],
                ),
            delivered_tasks(logs) == sent_values@.to_multiset(),
        decreases n - j,
    {
        broadcast use group_to_multiset_ensures;

        let k = j % w;
        proof {
            lemma_mod_bound(j as int, w as int);
        }
        let v = q.item_at(j);
        sent_values.push(v);
        let c = task_counts[k];
        task_counts[k] = c + 1;
        proof {
            lemma_delivered_tasks_send(logs, k as int, v);
            lemma_log_task_values_push_task(logs[k as int], v);
            lemma_fundamental_div_mod(j as int, w as int);
            assert(c as int * (w as int) + k as int == j as int) by (nonlinear_arith)
                requires
                    c as int == (j as int) / (w as int),
                    k as int == (j as int) % (w as int),
                    j as int == (w as int) * ((j as int) / (w as int)) + (j as int) % (w as int),
            ;
            assert forall|k2: int| 0 <= k2 < w implies rr_count(j as int + 1, w as int, k2)
                == rr_count(j as int, w as int, k2) + if k2 == (j as int) % (w as int) {
                1int
            } else {
                0int
            } by {
                lemma_rr_count_step(j as int, w as int, k2);
            }
            logs = logs.update(k as int, logs[k as int].push(Message::Task(v)));
            assert(log_task_values(logs[k as int]) =~= Seq::new(
                rr_count(j as int + 1, w as int, k as int) as nat,
                |t: int| q@[t * w + k],
            ));
            assert(q@.take(j as int + 1) =~= q@.take(j as int).push(q@[j as int]));
        }
        j = j + 1;
    }
    proof {
        assert(q@.take(n as int) =~= q@);
    }

    // Termination broadcast: exactly one sentinel per worker, after all
    // sends are out.
    let mut k2: usize = 0;
    while k2 < w
        invariant
            w >= 1,
            n == q@.len(),
            0 <= k2 <= w,
            task_counts@.len() == w,
            sentinel_counts@.len() == w,
            logs.len() == w,
            sent_values@ == q@,
            forall|k: int| 0 <= k < w ==> task_counts@[k] as int == rr_count(
                n as int,
                w as int,
                k,
            ),
            forall|k: int| 0 <= k < w ==> task_counts@[k] <= n,
            forall|k: int| 0 <= k < k2 ==> sentinel_counts@[k] == 1,
            forall|k: int| k2 <= k < w ==> sentinel_counts@[k] == 0,
            forall|k: int| 0 <= k < k2 ==> tasks_then_sentinel(#[trigger] logs[k]),
            forall|k: int| k2 <= k < w ==> all_tasks_log(#[trigger] logs[k]),
            forall|k: int|
                0 <= k < w ==> log_task_values(#[trigger] logs[k]) == rr_items(q@, w as int, k),
            delivered_tasks(logs) == q@.to_multiset(),
        decreases w - k2,
    {
        sentinel_counts[k2] = 1;
        proof {
            lemma_delivered_tasks_terminate(logs, k2 as int);
            lemma_log_task_values_push_terminate(logs[k2 as int]);
            logs = logs.update(k2 as int, logs[k2 as int].push(Message::Terminate));
        }
        k2 = k2 + 1;
    }

    // Collection: exactly one blocking receive per item. Each worker answers
    // its share in its own order; this run realises the arrival order that
    // follows the generation positions.
    let mut results: Vec<i64> = Vec::new();
    let mut j2: usize = 0;
    proof {
        assert(results@ =~= work_image(q@.take(0)));
        assert(work_image(q@.take(0)) =~= Seq::<i64>::empty());
    }
    while j2 < n
        invariant
            w >= 1,
            n == q@.len(),
            0 <= j2 <= n,
            results@ == work_image(q@.take(j2 as int)),
        decreases n - j2,
    {
        let v = q.item_at(j2);
        let rk = j2 % w;
        results.push(apply_work(v, rk + 1));
        proof {
            lemma_work_image_push(q@.take(j2 as int), v);
            assert(q@.take(j2 as int + 1) =~= q@.take(j2 as int).push(q@[j2 as int]));
        }
        j2 = j2 + 1;
    }
    proof {
        assert(q@.take(n as int) =~= q@);
    }

    // The completion time: the most loaded worker's share, back to back.
    let mut wall: u64 = 0;
    let mut k3: usize = 0;
    while k3 < w
        invariant
            w == latencies@.len(),
            n == q@.len(),
            n <= MAX_ITEMS,
            0 <= k3 <= w,
            task_counts@.len() == w,
            forall|k: int| 0 <= k < w ==> task_counts@[k] as int == rr_count(
                n as int,
                w as int,
                k,
            ),
            forall|k: int| 0 <= k < w ==> task_counts@[k] <= n,
            forall|k: int| 0 <= k < latencies@.len() ==> latencies@[k] <= MAX_LATENCY,
            wall as int == static_makespan(n as int, latencies@, k3 as int),
            wall as int <= MAX_ITEMS as int * MAX_LATENCY as int,
        decreases w - k3,
    {
        let c3 = task_counts[k3];
        let lat = latencies[k3];
        proof {
            lemma_mul_nonnegative(c3 as int, lat as int);
            lemma_mul_upper_bound(c3 as int, MAX_ITEMS as int, lat as int, MAX_LATENCY as int);
        }
        let load: u64 = (c3 as u64) * lat;
        if load > wall {
            wall = load;
        }
        k3 = k3 + 1;
    }

    RunReport {
        results,
        sent_values,
        task_counts,
        sentinel_counts,
        wall_clock: wall,
        logs: Ghost(logs),
    }
}

/// Everything one static run promises: sends in generation order, the fixed
/// fair share and its delivery log per worker, one sentinel each and last,
/// every item delivered exactly once overall, one result per item, and the
/// completion time of the most loaded worker.
pub open spec fn static_report_ok(
    r: RunReport,
    items: Seq<i64>,
    num_procs: int,
    lats: Seq<u64>,
) -> bool {
    let w = num_procs - 1;
    let n = items.len() as int;
    &&& r.sent_values@ == items
    &&& r.results@ == work_image(items)
    &&& r.results@.to_multiset() == work_image(items).to_multiset()
    &&& r.task_counts@.len() == w
    &&& (forall|k: int| 0 <= k < w ==> r.task_counts@[k] as int == rr_count(n, w, k))
    &&& r.sentinel_counts@.len() == w
    &&& (forall|k: int| 0 <= k < w ==> r.sentinel_counts@[k] == 1)
    &&& r.logs@.len() == w
    &&& (forall|k: int| 0 <= k < w ==> tasks_then_sentinel(#[trigger] r.logs@[k]))
    &&& (forall|k: int| 0 <= k < w ==> log_task_values(#[trigger] r.logs@[k]) == rr_items(
        items,
        w,
        k,
    ))
    &&& delivered_tasks(r.logs@) == items.to_multiset()
    &&& r.wall_clock as int == static_makespan(n, lats, w)
}

/// The static policy behind a run-time check of its preconditions: refused
/// before any messaging when fewer than two processes take part, when the
/// latency table does not match the worker count, or when the run would
/// overrun the virtual clock.
pub fn try_run_static(q: &WorkQueue, num_procs: usize, latencies: &Vec<u64>) -> (r: Result<
    RunReport,
    DispatchError,
>)
    ensures
        r is Ok <==> {
            &&& num_procs >= 2
            &&& latencies@.len() == num_procs - 1
            &&& q@.len() <= MAX_ITEMS
            &&& (forall|k: int| 0 <= k < latencies@.len() ==> latencies@[k] <= MAX_LATENCY)
        },
        r matches Ok(rep) ==> static_report_ok(rep, q@, num_procs as int, latencies@),
        r matches Err(e) ==> e == DispatchError::PreconditionViolation,
{
    if num_procs < 2 {
        return Err(DispatchError::PreconditionViolation);
    }
    if latencies.len() != num_procs - 1 {
        return Err(DispatchError::PreconditionViolation);
    }
    if q.len() > MAX_ITEMS {
        return Err(DispatchError::PreconditionViolation);
    }
    if !latencies_ok(latencies) {
        return Err(DispatchError::PreconditionViolation);
    }
    Ok(run_static(q, num_procs, latencies))
}

} // verus!
