//! The greedy dynamic dispatcher: one task per worker up front, then every
//! finished worker is immediately handed the next queued item — the first
//! ready worker in ascending identity order wins — until the queue drains;
//! a final collection and the termination broadcast close the run.
//!
//! The run is driven over a virtual clock with one latency per worker: a
//! worker handed a task at time `t` has its answer ready at `t` plus its
//! latency. Advancing the clock to the earliest outstanding answer and
//! breaking ties by the lowest identity realises exactly what the spinning
//! probe scan observes on a real transport.

use vstd::prelude::*;
use vstd::multiset::Multiset;
use vstd::seq_lib::group_to_multiset_ensures;
use crate::message::{
    all_tasks_log, lemma_log_task_values_push_task, lemma_log_task_values_push_terminate,
    log_task_values, tasks_then_sentinel, Message,
};
use crate::queue::WorkQueue;
use crate::report::{
    delivered_tasks, latencies_ok, lemma_delivered_tasks_empty, lemma_delivered_tasks_send,
    lemma_delivered_tasks_terminate, DispatchError, RunReport, MAX_ITEMS, MAX_LATENCY,
};
use crate::work::{apply_work, lemma_work_image_id, lemma_work_image_push, work_image};

verus! {

/// The multiset of input values currently assigned and unanswered: one per
/// busy worker.
pub open spec fn in_flight(busy: Seq<bool>, cur: Seq<i64>) -> Multiset<i64>
    decreases busy.len(),
{
    if busy.len() == 0 {
        Multiset::empty()
    } else {
        let rest = in_flight(busy.drop_last(), cur.drop_last());
        if busy.last() {
            rest.insert(cur.last())
        } else {
            rest
        }
    }
}

/// How many workers are busy.
pub open spec fn count_busy(busy: Seq<bool>) -> int
    decreases busy.len(),
{
    if busy.len() == 0 {
        0
    } else {
        count_busy(busy.drop_last()) + if busy.last() {
            1int
        } else {
            0int
        }
    }
}

/// Handing a task to an idle worker puts exactly its value in flight.
proof fn lemma_in_flight_start(busy: Seq<bool>, cur: Seq<i64>, k: int, v: i64)
    requires
        busy.len() == cur.len(),
        0 <= k < busy.len(),
        !busy[k],
    ensures
        in_flight(busy.update(k, true), cur.update(k, v)) == in_flight(busy, cur).insert(v),
    decreases busy.len(),
{
    let b2 = busy.update(k, true);
    let c2 = cur.update(k, v);
    if k == busy.len() - 1 {
        assert(b2.drop_last() =~= busy.drop_last());
        assert(c2.drop_last() =~= cur.drop_last());
        assert(in_flight(b2, c2) =~= in_flight(busy, cur).insert(v));
    } else {
        assert(b2.drop_last() =~= busy.drop_last().update(k, true));
        assert(c2.drop_last() =~= cur.drop_last().update(k, v));
        lemma_in_flight_start(busy.drop_last(), cur.drop_last(), k, v);
        assert(b2.last() == busy.last());
        assert(c2.last() == cur.last());
        assert(in_flight(b2, c2) =~= in_flight(busy, cur).insert(v));
    }
}

/// Receiving a busy worker's answer takes exactly its value out of flight.
proof fn lemma_in_flight_finish(busy: Seq<bool>, cur: Seq<i64>, k: int)
    requires
        busy.len() == cur.len(),
        0 <= k < busy.len(),
        busy[k],
    ensures
        in_flight(busy, cur) == in_flight(busy.update(k, false), cur).insert(cur[k]),
    decreases busy.len(),
{
    let b2 = busy.update(k, false);
    if k == busy.len() - 1 {
        assert(b2.drop_last() =~= busy.drop_last());
        assert(in_flight(busy, cur) =~= in_flight(b2, cur).insert(cur[k]));
    } else {
        assert(b2.drop_last() =~= busy.drop_last().update(k, false));
        lemma_in_flight_finish(busy.drop_last(), cur.drop_last(), k);
        assert(b2.last() == busy.last());
        assert(in_flight(busy, cur) =~= in_flight(b2, cur).insert(cur[k]));
    }
}

/// With every worker idle, nothing is in flight.
proof fn lemma_in_flight_all_idle(busy: Seq<bool>, cur: Seq<i64>)
    requires
        busy.len() == cur.len(),
        forall|k: int| 0 <= k < busy.len() ==> !busy[k],
    ensures
        in_flight(busy, cur) == Multiset::<i64>::empty(),
    decreases busy.len(),
{
    if busy.len() > 0 {
        lemma_in_flight_all_idle(busy.drop_last(), cur.drop_last());
        assert(in_flight(busy, cur) =~= Multiset::<i64>::empty());
    }
}

proof fn lemma_count_busy_bounds(busy: Seq<bool>)
    ensures
        0 <= count_busy(busy) <= busy.len(),
    decreases busy.len(),
{
    if busy.len() > 0 {
        lemma_count_busy_bounds(busy.drop_last());
    }
}

/// Marking a busy worker idle lowers the busy count by one.
proof fn lemma_count_busy_set_false(busy: Seq<bool>, k: int)
    requires
        0 <= k < busy.len(),
        busy[k],
    ensures
        count_busy(busy.update(k, false)) == count_busy(busy) - 1,
    decreases busy.len(),
{
    let b2 = busy.update(k, false);
    if k == busy.len() - 1 {
        assert(b2.drop_last() =~= busy.drop_last());
    } else {
        assert(b2.drop_last() =~= busy.drop_last().update(k, false));
        lemma_count_busy_set_false(busy.drop_last(), k);
        assert(b2.last() == busy.last());
    }
}

/// The probe scan over the virtual clock: among the busy workers, the one
/// whose answer is ready first — the least finish time, and on a tie the
/// lowest identity, exactly the worker a spinning ascending-identity probe
/// loop would find first.
fn find_earliest(busy: &Vec<bool>, fin: &Vec<u64>) -> (r: (bool, usize))
    requires
        busy@.len() == fin@.len(),
    ensures
        !r.0 ==> (forall|k: int| 0 <= k < busy@.len() ==> !busy@[k]),
        r.0 ==> 0 <= r.1 < busy@.len() && busy@[r.1 as int],
        r.0 ==> (forall|k: int|
            0 <= k < busy@.len() && busy@[k] ==> fin@[r.1 as int] <= fin@[k]),
        r.0 ==> (forall|k: int| 0 <= k < r.1 as int && busy@[k] ==> fin@[k] > fin@[r.1 as int]),
{
    let mut found: bool = false;
    let mut best: usize = 0;
    let mut k: usize = 0;
    while k < busy.len()
        invariant
            busy@.len() == fin@.len(),
            0 <= k <= busy@.len(),
            !found ==> (forall|j: int| 0 <= j < k ==> !busy@[j]),
            found ==> 0 <= best < k && busy@[best as int],
            found ==> (forall|j: int| 0 <= j < k && busy@[j] ==> fin@[best as int] <= fin@[j]),
            found ==> (forall|j: int|
                0 <= j < best as int && busy@[j] ==> fin@[j] > fin@[best as int]),
        decreases busy@.len() - k,
    {
        if busy[k] {
            if !found {
                found = true;
                best = k;
            } else if fin[k] < fin[best] {
                best = k;
            }
        }
        k = k + 1;
    }
    (found, best)
}

/// Everything one dynamic run promises: exactly one send per queued item,
/// consumed from the queue's tail; exactly one result per item, and as a
/// multiset exactly the work function's image of the queue; every item
/// delivered to exactly one worker; and for every worker a delivery log of
/// tasks only, closed by exactly one sentinel, last — so no worker is handed
/// anything after its sentinel.
pub open spec fn dynamic_report_ok(r: RunReport, items: Seq<i64>, num_procs: int) -> bool {
    let w = num_procs - 1;
    &&& r.results@.len() == items.len()
    &&& r.results@.to_multiset() == work_image(items).to_multiset()
    &&& r.sent_values@ == items.reverse()
    &&& r.task_counts@.len() == w
    &&& (forall|k: int|
        0 <= k < w ==> log_task_values(#[trigger] r.logs@[k]).len() == r.task_counts@[k] as int)
    &&& r.sentinel_counts@.len() == w
    &&& (forall|k: int| 0 <= k < w ==> r.sentinel_counts@[k] == 1)
    &&& r.logs@.len() == w
    &&& (forall|k: int| 0 <= k < w ==> tasks_then_sentinel(#[trigger] r.logs@[k]))
    &&& delivered_tasks(r.logs@) == items.to_multiset()
    &&& (items.len() == 0 ==> r.wall_clock == 0)
}

/// Runs the whole greedy policy over the queue: initial fan-out in
/// ascending identity order, greedy reassignment to the first ready worker
/// while the queue lasts, one final collection per outstanding task, then
/// the termination broadcast.
pub fn run_dynamic(q: WorkQueue, num_procs: usize, latencies: &Vec<u64>) -> (r: RunReport)
    requires
        num_procs >= 2,
        latencies@.len() == num_procs - 1,
        q@.len() <= MAX_ITEMS,
        forall|k: int| 0 <= k < latencies@.len() ==> latencies@[k] <= MAX_LATENCY,
    ensures
        dynamic_report_ok(r, q@, num_procs as int),
{
    broadcast use group_to_multiset_ensures;

    let ghost items: Seq<i64> = q@;
    let mut pending = q;
    let w = num_procs - 1;

    let mut busy: Vec<bool> = Vec::new();
    let mut cur: Vec<i64> = Vec::new();
    let mut fin: Vec<u64> = Vec::new();
    let mut task_counts: Vec<usize> = Vec::new();
    let mut sentinel_counts: Vec<usize> = Vec::new();
    let mut i: usize = 0;
    while i < w
        invariant
            0 <= i <= w,
            busy@.len() == i,
            cur@.len() == i,
            fin@.len() == i,
            task_counts@.len() == i,
            sentinel_counts@.len() == i,
            forall|j: int| 0 <= j < i ==> !busy@[j],
            forall|j: int| 0 <= j < i ==> task_counts@[j] == 0,
            forall|j: int| 0 <= j < i ==> sentinel_counts@[j] == 0,
        decreases w - i,
    {
        busy.push(false);
        cur.push(0);
        fin.push(0);
        task_counts.push(0);
        sentinel_counts.push(0);
        i = i + 1;
    }
    let ghost mut logs: Seq<Seq<Message>> = Seq::new(w as nat, |k: int| Seq::<Message>::empty());
    let ghost mut completed: Seq<i64> = Seq::empty();
    let mut sent_values: Vec<i64> = Vec::new();
    let mut results: Vec<i64> = Vec::new();
    let mut now: u64 = 0;
    proof {
        lemma_delivered_tasks_empty(logs);
        lemma_in_flight_all_idle(busy@, cur@);
        assert(sent_values@.to_multiset() =~= Multiset::<i64>::empty());
        assert(in_flight(busy@, cur@).add(completed.to_multiset()) =~= sent_values@.to_multiset());
        assert(sent_values@.reverse() =~= Seq::<i64>::empty());
        assert(pending@ + sent_values@.reverse() =~= items);
        assert(results@ =~= work_image(completed));
    }

    // Initial fan-out: one item per worker in ascending identity order,
    // stopping early if the queue runs dry.
    let mut assigned: usize = 0;
    while assigned < w && pending.len() > 0
        invariant
            num_procs >= 2,
            w == num_procs - 1,
            latencies@.len() == w,
            forall|j: int| 0 <= j < latencies@.len() ==> latencies@[j] <= MAX_LATENCY,
            items.len() <= MAX_ITEMS,
            busy@.len() == w,
            cur@.len() == w,
            fin@.len() == w,
            task_counts@.len() == w,
            sentinel_counts@.len() == w,
            logs.len() == w,
            0 <= assigned <= w,
            forall|j: int| 0 <= j < w ==> (busy@[j] <==> j < assigned),
            items.len() == 0 ==> assigned == 0,
            pending@ + sent_values@.reverse() == items,
            sent_values@.len() + pending@.len() == items.len(),
            forall|j: int| 0 <= j < w ==> task_counts@[j] <= sent_values@.len(),
            completed == Seq::<i64>::empty(),
            results@.len() == 0,
            in_flight(busy@, cur@).add(completed.to_multiset()) == sent_values@.to_multiset(),
            results@ == work_image(completed),
            delivered_tasks(logs) == sent_values@.to_multiset(),
            forall|j: int| 0 <= j < w ==> all_tasks_log(#[trigger] logs[j]),
            forall|j: int| 0 <= j < w ==> (#[trigger] logs[j]).len() == task_counts@[j],
            forall|j: int|
                0 <= j < w ==> log_task_values(#[trigger] logs[j]).len() == logs[j].len(),
            forall|j: int| 0 <= j < w ==> sentinel_counts@[j] == 0,
            now == 0,
            forall|j: int| 0 <= j < w && busy@[j] ==> fin@[j] >= now,
            forall|j: int|
                0 <= j < w && busy@[j] ==> fin@[j] as int <= (completed.len() + 1) * (
                MAX_LATENCY as int),
        decreases w - assigned,
    {
        broadcast use group_to_multiset_ensures;

        let ghost busy_pre = busy@;
        let ghost cur_pre = cur@;
        let ghost sent_pre = sent_values@;
        let ghost pending_pre = pending@;
        let ghost logs_pre = logs;
        let v = pending.pop_next();
        let k = assigned;
        busy[k] = true;
        cur[k] = v;
        fin[k] = now + latencies[k];
        sent_values.push(v);
        let tc = task_counts[k];
        task_counts[k] = tc + 1;
        proof {
            assert(pending_pre =~= pending@.push(v));
            lemma_in_flight_start(busy_pre, cur_pre, k as int, v);
            assert(busy@ =~= busy_pre.update(k as int, true));
            assert(cur@ =~= cur_pre.update(k as int, v));
            lemma_delivered_tasks_send(logs_pre, k as int, v);
            lemma_log_task_values_push_task(logs_pre[k as int], v);
            logs = logs_pre.update(k as int, logs_pre[k as int].push(Message::Task(v)));
            assert(sent_values@ =~= sent_pre.push(v));
            assert(sent_values@.reverse() =~= seq![v] + sent_pre.reverse());
            assert(pending@ + sent_values@.reverse() =~= items);
            assert(in_flight(busy@, cur@).add(completed.to_multiset())
                =~= sent_values@.to_multiset());
        }
        assigned = assigned + 1;
    }

    // Greedy reassignment: while items remain, the first worker whose
    // answer is ready — earliest finish, lowest identity on a tie — hands
    // in its result and is immediately given the next item from the tail.
    while pending.len() > 0
        invariant
            num_procs >= 2,
            w == num_procs - 1,
            latencies@.len() == w,
            forall|j: int| 0 <= j < latencies@.len() ==> latencies@[j] <= MAX_LATENCY,
            items.len() <= MAX_ITEMS,
            busy@.len() == w,
            cur@.len() == w,
            fin@.len() == w,
            task_counts@.len() == w,
            sentinel_counts@.len() == w,
            logs.len() == w,
            0 <= assigned <= w,
            forall|j: int| 0 <= j < w ==> (busy@[j] <==> j < assigned),
            items.len() == 0 ==> assigned == 0,
            pending@.len() > 0 ==> assigned == w,
            pending@ + sent_values@.reverse() == items,
            sent_values@.len() + pending@.len() == items.len(),
            forall|j: int| 0 <= j < w ==> task_counts@[j] <= sent_values@.len(),
            completed.len() <= sent_values@.len(),
            items.len() == 0 ==> now == 0,
            in_flight(busy@, cur@).add(completed.to_multiset()) == sent_values@.to_multiset(),
            results@ == work_image(completed),
            results@.len() == completed.len(),
            delivered_tasks(logs) == sent_values@.to_multiset(),
            forall|j: int| 0 <= j < w ==> all_tasks_log(#[trigger] logs[j]),
            forall|j: int| 0 <= j < w ==> (#[trigger] logs[j]).len() == task_counts@[j],
            forall|j: int|
                0 <= j < w ==> log_task_values(#[trigger] logs[j]).len() == logs[j].len(),
            forall|j: int| 0 <= j < w ==> sentinel_counts@[j] == 0,
            forall|j: int| 0 <= j < w && busy@[j] ==> fin@[j] >= now,
            forall|j: int|
                0 <= j < w && busy@[j] ==> fin@[j] as int <= (completed.len() + 1) * (
                MAX_LATENCY as int),
            now as int <= (completed.len() + 1) * (MAX_LATENCY as int),
        decreases pending@.len(),
    {
        broadcast use group_to_multiset_ensures;

        let ghost busy_pre = busy@;
        let ghost cur_pre = cur@;
        let ghost sent_pre = sent_values@;
        let ghost pending_pre = pending@;
        let ghost logs_pre = logs;
        let ghost completed_pre = completed;
        let (found, sel) = find_earliest(&busy, &fin);
        proof {
            assert(found);
        }
        now = fin[sel];
        let v_done = cur[sel];
        let res = apply_work(v_done, sel + 1);
        results.push(res);
        proof {
            completed = completed.push(v_done);
            lemma_work_image_push(completed_pre, v_done);
        }
        let nv = pending.pop_next();
        cur[sel] = nv;
        fin[sel] = now + latencies[sel];
        sent_values.push(nv);
        let tc = task_counts[sel];
        task_counts[sel] = tc + 1;
        proof {
            assert(pending_pre =~= pending@.push(nv));
            let bf = busy_pre.update(sel as int, false);
            lemma_in_flight_finish(busy_pre, cur_pre, sel as int);
            lemma_in_flight_start(bf, cur_pre, sel as int, nv);
            assert(bf.update(sel as int, true) =~= busy_pre);
            assert(busy@ =~= busy_pre);
            assert(cur@ =~= cur_pre.update(sel as int, nv));
            assert(in_flight(busy@, cur@) == in_flight(bf, cur_pre).insert(nv));
            lemma_delivered_tasks_send(logs_pre, sel as int, nv);
            lemma_log_task_values_push_task(logs_pre[sel as int], nv);
            logs = logs_pre.update(sel as int, logs_pre[sel as int].push(Message::Task(nv)));
            assert(sent_values@ =~= sent_pre.push(nv));
            assert(sent_values@.reverse() =~= seq![nv] + sent_pre.reverse());
            assert(pending@ + sent_values@.reverse() =~= items);
            assert(in_flight(busy@, cur@).add(completed.to_multiset())
                =~= sent_values@.to_multiset());
        }
    }

    // Final collection: exactly one receive per worker with a task still in
    // flight, in arrival order.
    loop
        invariant
            num_procs >= 2,
            w == num_procs - 1,
            latencies@.len() == w,
            items.len() <= MAX_ITEMS,
            busy@.len() == w,
            cur@.len() == w,
            fin@.len() == w,
            task_counts@.len() == w,
            sentinel_counts@.len() == w,
            logs.len() == w,
            pending@.len() == 0,
            pending@ + sent_values@.reverse() == items,
            sent_values@.len() + pending@.len() == items.len(),
            completed.len() <= sent_values@.len(),
            items.len() == 0 ==> (forall|j: int| 0 <= j < w ==> !busy@[j]),
            in_flight(busy@, cur@).add(completed.to_multiset()) == sent_values@.to_multiset(),
            results@ == work_image(completed),
            results@.len() == completed.len(),
            delivered_tasks(logs) == sent_values@.to_multiset(),
            forall|j: int| 0 <= j < w ==> all_tasks_log(#[trigger] logs[j]),
            forall|j: int| 0 <= j < w ==> (#[trigger] logs[j]).len() == task_counts@[j],
            forall|j: int|
                0 <= j < w ==> log_task_values(#[trigger] logs[j]).len() == logs[j].len(),
            forall|j: int| 0 <= j < w ==> sentinel_counts@[j] == 0,
            forall|j: int| 0 <= j < w && busy@[j] ==> fin@[j] >= now,
            forall|j: int|
                0 <= j < w && busy@[j] ==> fin@[j] as int <= (completed.len() + 1) * (
                MAX_LATENCY as int),
            now as int <= (completed.len() + 1) * (MAX_LATENCY as int),
            items.len() == 0 ==> now == 0,
        ensures
            forall|j: int| 0 <= j < w ==> !busy@[j],
            busy@.len() == w,
            cur@.len() == w,
            fin@.len() == w,
            task_counts@.len() == w,
            sentinel_counts@.len() == w,
            logs.len() == w,
            pending@.len() == 0,
            pending@ + sent_values@.reverse() == items,
            sent_values@.len() + pending@.len() == items.len(),
            in_flight(busy@, cur@).add(completed.to_multiset()) == sent_values@.to_multiset(),
            results@ == work_image(completed),
            results@.len() == completed.len(),
            delivered_tasks(logs) == sent_values@.to_multiset(),
            forall|j: int| 0 <= j < w ==> all_tasks_log(#[trigger] logs[j]),
            forall|j: int| 0 <= j < w ==> (#[trigger] logs[j]).len() == task_counts@[j],
            forall|j: int|
                0 <= j < w ==> log_task_values(#[trigger] logs[j]).len() == logs[j].len(),
            forall|j: int| 0 <= j < w ==> sentinel_counts@[j] == 0,
            items.len() == 0 ==> now == 0,
        decreases count_busy(busy@),
    {
        broadcast use group_to_multiset_ensures;

        let (found, sel) = find_earliest(&busy, &fin);
        if !found {
            break;
        }
        let ghost busy_pre = busy@;
        let ghost completed_pre = completed;
        now = fin[sel];
        let v_done = cur[sel];
        let res = apply_work(v_done, sel + 1);
        results.push(res);
        busy[sel] = false;
        proof {
            completed = completed.push(v_done);
            lemma_work_image_push(completed_pre, v_done);
            lemma_in_flight_finish(busy_pre, cur@, sel as int);
            lemma_count_busy_set_false(busy_pre, sel as int);
            lemma_count_busy_bounds(busy@);
            assert(busy@ =~= busy_pre.update(sel as int, false));
            assert(in_flight(busy@, cur@).add(completed.to_multiset())
                =~= sent_values@.to_multiset());
            assert(items.len() != 0);
            assert(completed.len() <= sent_values@.len()) by {
                assert(completed.to_multiset().len() == completed.len());
                assert(sent_values@.to_multiset().len() == sent_values@.len());
                assert(in_flight(busy@, cur@).add(completed.to_multiset()).len() == in_flight(
                    busy@,
                    cur@,
                ).len() + completed.to_multiset().len());
            }
        }
    }

    proof {
        lemma_in_flight_all_idle(busy@, cur@);
        assert(completed.to_multiset() =~= sent_values@.to_multiset());
        assert(pending@ + sent_values@.reverse() =~= sent_values@.reverse());
        assert(sent_values@.reverse() == items);
        assert(sent_values@.reverse().reverse() =~= sent_values@);
        assert(sent_values@ == items.reverse());
        sent_values@.lemma_reverse_to_multiset();
        lemma_work_image_id(completed);
        lemma_work_image_id(items);
        assert(results@.to_multiset() == work_image(items).to_multiset());
        assert(completed.to_multiset().len() == completed.len());
        assert(sent_values@.to_multiset().len() == sent_values@.len());
        assert(results@.len() == items.len());
    }

    // Termination broadcast: exactly one sentinel per worker, only after
    // every result is in.
    let mut k2: usize = 0;
    while k2 < w
        invariant
            w >= 1,
            0 <= k2 <= w,
            task_counts@.len() == w,
            sentinel_counts@.len() == w,
            logs.len() == w,
            delivered_tasks(logs) == items.to_multiset(),
            forall|k: int| 0 <= k < k2 ==> sentinel_counts@[k] == 1,
            forall|k: int| k2 <= k < w ==> sentinel_counts@[k] == 0,
            forall|k: int| 0 <= k < k2 ==> tasks_then_sentinel(#[trigger] logs[k]),
            forall|k: int| k2 <= k < w ==> all_tasks_log(#[trigger] logs[k]),
            forall|k: int|
                0 <= k < w ==> log_task_values(#[trigger] logs[k]).len() == task_counts@[k],
        decreases w - k2,
    {
        sentinel_counts[k2] = 1;
        proof {
            lemma_delivered_tasks_terminate(logs, k2 as int);
            lemma_log_task_values_push_terminate(logs[k2 as int]);
            logs = logs.update(k2 as int, logs[k2 as int].push(Message::Terminate));
        }
        k2 = k2 + 1;
    }

    RunReport {
        results,
        sent_values,
        task_counts,
        sentinel_counts,
        wall_clock: now,
        logs: Ghost(logs),
    }
}

/// Value correctness regardless of order: whatever the workers' latencies
/// did to the completion order, a dynamic run and a static run over the same
/// queue collect, as multisets, exactly the same results — the work
/// function's image of the queue.
pub proof fn lemma_policies_agree(
    rd: RunReport,
    rs: RunReport,
    items: Seq<i64>,
    num_procs: int,
    lats: Seq<u64>,
)
    requires
        dynamic_report_ok(rd, items, num_procs),
        crate::static_policy::static_report_ok(rs, items, num_procs, lats),
    ensures
        rd.results@.to_multiset() == work_image(items).to_multiset(),
        rd.results@.to_multiset() == rs.results@.to_multiset(),
{
}

/// The greedy policy behind a run-time check of its preconditions: refused
/// before any messaging when fewer than two processes take part, when the
/// latency table does not match the worker count, or when the run would
/// overrun the virtual clock.
pub fn try_run_dynamic(q: WorkQueue, num_procs: usize, latencies: &Vec<u64>) -> (r: Result<
    RunReport,
    DispatchError,
>)
    ensures
        r is Ok <==> {
            &&& num_procs >= 2
            &&& latencies@.len() == num_procs - 1
            &&& q@.len() <= MAX_ITEMS
            &&& (forall|k: int| 0 <= k < latencies@.len() ==> latencies@[k] <= MAX_LATENCY)
        },
        r matches Ok(rep) ==> dynamic_report_ok(rep, q@, num_procs as int),
        r matches Err(e) ==> e == DispatchError::PreconditionViolation,
{
    if num_procs < 2 {
        return Err(DispatchError::PreconditionViolation);
    }
    if latencies.len() != num_procs - 1 {
        return Err(DispatchError::PreconditionViolation);
    }
    if q.len() > MAX_ITEMS {
        return Err(DispatchError::PreconditionViolation);
    }
    if !latencies_ok(latencies) {
        return Err(DispatchError::PreconditionViolation);
    }
    Ok(run_dynamic(q, num_procs, latencies))
}

} // verus!
