use optimized_scheduling::message::Message;
use optimized_scheduling::queue::WorkQueue;
use optimized_scheduling::worker::{run_worker, worker_step, WorkerStep};

#[test]
fn work_queue_consumes_from_the_tail() {
    let mut q = WorkQueue::new(vec![10, 20, 30]);
    assert_eq!(q.len(), 3);
    assert!(!q.is_empty());
    assert_eq!(q.pop_next(), 30);
    assert_eq!(q.pop_next(), 20);
    assert_eq!(q.pop_next(), 10);
    assert!(q.is_empty());
}

#[test]
fn work_queue_reads_in_place() {
    let q = WorkQueue::new(vec![4, 5, 6]);
    assert_eq!(q.item_at(0), 4);
    assert_eq!(q.item_at(2), 6);
    assert_eq!(q.len(), 3);
}

#[test]
fn worker_answers_tasks_and_halts_on_sentinel() {
    assert_eq!(worker_step(1, Message::Task(5)), WorkerStep::Reply(5));
    assert_eq!(worker_step(2, Message::Task(-3)), WorkerStep::Reply(-3));
    assert_eq!(worker_step(1, Message::Terminate), WorkerStep::Halt);
}

#[test]
fn worker_loop_processes_nothing_after_the_sentinel() {
    let inbox = vec![
        Message::Task(1),
        Message::Task(2),
        Message::Terminate,
        Message::Task(9),
    ];
    // The task after the sentinel is never looked at.
    assert_eq!(run_worker(1, &inbox), vec![1, 2]);
}

#[test]
fn worker_loop_over_protocol_log() {
    let inbox = vec![Message::Task(7), Message::Task(8), Message::Terminate];
    assert_eq!(run_worker(3, &inbox), vec![7, 8]);
    let only_sentinel = vec![Message::Terminate];
    assert_eq!(run_worker(1, &only_sentinel), Vec::<i64>::new());
}
