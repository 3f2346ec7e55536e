use optimized_scheduling::dynamic_policy::{run_dynamic, try_run_dynamic};
use optimized_scheduling::queue::WorkQueue;
use optimized_scheduling::report::{DispatchError, MAX_ITEMS, MAX_LATENCY};
use optimized_scheduling::sequence::generate;
use optimized_scheduling::static_policy::{run_static, try_run_static};

fn sorted(v: &[i64]) -> Vec<i64> {
    let mut s = v.to_vec();
    s.sort();
    s
}

#[test]
fn dynamic_issues_every_item_and_every_sentinel() {
    // One item-send per queued item, one sentinel per worker, one result
    // per item, over a range of queue sizes and worker counts.
    for q_size in [0usize, 1, 2, 5, 8] {
        for num_procs in [2usize, 3, 5] {
            let items: Vec<i64> = (0..q_size as i64).collect();
            let latencies = vec![10u64; num_procs - 1];
            let report = run_dynamic(WorkQueue::new(items.clone()), num_procs, &latencies);
            assert_eq!(report.results.len(), q_size);
            assert_eq!(report.sent_values.len(), q_size);
            assert_eq!(report.sentinel_counts, vec![1usize; num_procs - 1]);
            assert_eq!(report.task_counts.iter().sum::<usize>(), q_size);
            assert_eq!(sorted(&report.results), sorted(&items));
        }
    }
}

#[test]
fn dynamic_greedy_favours_the_faster_worker() {
    // Two workers, the first ten times slower than the second: the greedy
    // reassignment hands the fast worker strictly more of the items.
    let items = generate(0, 3, 1);
    assert_eq!(items, vec![0, 1, 2, 3]);
    let latencies = vec![1000u64, 100];
    let report = run_dynamic(WorkQueue::new(items.clone()), 3, &latencies);
    assert_eq!(report.results.len(), 4);
    // Consumption from the queue tail: descending generation order.
    assert_eq!(report.sent_values, vec![3, 2, 1, 0]);
    assert_eq!(report.task_counts, vec![1, 3]);
    assert!(report.task_counts[1] > report.task_counts[0]);
    assert_eq!(report.sentinel_counts, vec![1, 1]);
    // Results arrive in completion order, not generation order.
    assert_eq!(report.results, vec![2, 1, 0, 3]);
    assert_eq!(sorted(&report.results), vec![0, 1, 2, 3]);
    assert_eq!(report.wall_clock, 1000);
}

#[test]
fn dynamic_empty_queue_goes_straight_to_termination() {
    let latencies = vec![7u64, 7];
    let report = run_dynamic(WorkQueue::new(Vec::new()), 3, &latencies);
    assert_eq!(report.results, Vec::<i64>::new());
    assert_eq!(report.sent_values, Vec::<i64>::new());
    assert_eq!(report.task_counts, vec![0, 0]);
    assert_eq!(report.sentinel_counts, vec![1, 1]);
    assert_eq!(report.wall_clock, 0);
}

#[test]
fn dynamic_fewer_items_than_workers() {
    // The fan-out stops early; late workers stay idle yet still get their
    // sentinel.
    let latencies = vec![5u64, 5, 5];
    let report = run_dynamic(WorkQueue::new(vec![7]), 4, &latencies);
    assert_eq!(report.results, vec![7]);
    assert_eq!(report.task_counts, vec![1, 0, 0]);
    assert_eq!(report.sentinel_counts, vec![1, 1, 1]);
    assert_eq!(report.wall_clock, 5);
}

#[test]
fn dynamic_breaks_ties_by_ascending_identity() {
    // Equal latencies: whenever two answers are ready together, the lower
    // identity is served first.
    let latencies = vec![10u64, 10];
    let report = run_dynamic(WorkQueue::new(vec![0, 1, 2, 3]), 3, &latencies);
    assert_eq!(report.results, vec![3, 2, 1, 0]);
    assert_eq!(report.task_counts, vec![2, 2]);
    assert_eq!(report.wall_clock, 20);
}

#[test]
fn try_run_dynamic_rejects_bad_configurations() {
    let latencies = vec![10u64, 10];
    // Fewer than two processes.
    let r = try_run_dynamic(WorkQueue::new(vec![1]), 1, &latencies);
    assert_eq!(r.err(), Some(DispatchError::PreconditionViolation));
    // Latency table not matching the worker count.
    let r = try_run_dynamic(WorkQueue::new(vec![1]), 4, &latencies);
    assert_eq!(r.err(), Some(DispatchError::PreconditionViolation));
    // A latency beyond what the virtual clock accepts.
    let too_slow = vec![MAX_LATENCY + 1, 10];
    let r = try_run_dynamic(WorkQueue::new(vec![1]), 3, &too_slow);
    assert_eq!(r.err(), Some(DispatchError::PreconditionViolation));
    // A queue too large for the virtual clock.
    let r = try_run_dynamic(WorkQueue::new(vec![0; MAX_ITEMS + 1]), 3, &latencies);
    assert_eq!(r.err(), Some(DispatchError::PreconditionViolation));
    // A well-formed configuration is accepted.
    let r = try_run_dynamic(WorkQueue::new(vec![1, 2]), 3, &latencies);
    let report = r.expect("well-formed run");
    assert_eq!(sorted(&report.results), vec![1, 2]);
}

#[test]
fn static_split_is_fixed_and_fair() {
    // The same scenario as the greedy test: the static split ignores the
    // latencies entirely and hands two items to each worker.
    let items = generate(0, 3, 1);
    let latencies = vec![1000u64, 100];
    let report = run_static(&WorkQueue::new(items.clone()), 3, &latencies);
    assert_eq!(report.task_counts, vec![2, 2]);
    assert_eq!(report.sent_values, vec![0, 1, 2, 3]);
    assert_eq!(report.sentinel_counts, vec![1, 1]);
    assert_eq!(report.results, vec![0, 1, 2, 3]);
    // The slow worker's two items decide the completion time.
    assert_eq!(report.wall_clock, 2000);
}

#[test]
fn static_split_differs_by_at_most_one() {
    let latencies3 = vec![1u64, 1];
    let report = run_static(&WorkQueue::new((0..5).collect()), 3, &latencies3);
    assert_eq!(report.task_counts, vec![3, 2]);
    let latencies4 = vec![1u64, 1, 1];
    let report = run_static(&WorkQueue::new((0..7).collect()), 4, &latencies4);
    assert_eq!(report.task_counts, vec![3, 2, 2]);
    for counts in [vec![3usize, 2], vec![3, 2, 2]] {
        let max = *counts.iter().max().unwrap();
        let min = *counts.iter().min().unwrap();
        assert!(max - min <= 1);
    }
}

#[test]
fn static_policy_is_never_faster_than_dynamic_here() {
    // Same inputs, same latencies: the progress-blind split leaves the slow
    // worker loaded, so its completion time is at least the greedy one's.
    let items = generate(0, 3, 1);
    let latencies = vec![1000u64, 100];
    let dynamic = run_dynamic(WorkQueue::new(items.clone()), 3, &latencies);
    let fixed = run_static(&WorkQueue::new(items.clone()), 3, &latencies);
    assert_eq!(dynamic.wall_clock, 1000);
    assert_eq!(fixed.wall_clock, 2000);
    assert!(fixed.wall_clock >= dynamic.wall_clock);
    // Both policies collect the same results, order aside.
    assert_eq!(sorted(&dynamic.results), sorted(&fixed.results));
    assert_eq!(sorted(&dynamic.results), sorted(&items));
}

#[test]
fn try_run_static_rejects_bad_configurations() {
    let latencies = vec![10u64];
    let r = try_run_static(&WorkQueue::new(vec![1]), 1, &latencies);
    assert_eq!(r.err(), Some(DispatchError::PreconditionViolation));
    let r = try_run_static(&WorkQueue::new(vec![1]), 3, &latencies);
    assert_eq!(r.err(), Some(DispatchError::PreconditionViolation));
    let r = try_run_static(&WorkQueue::new(vec![1, 2, 3]), 2, &latencies);
    let report = r.expect("well-formed run");
    assert_eq!(report.task_counts, vec![3]);
    assert_eq!(report.results, vec![1, 2, 3]);
}
