use sched_sim::manager::{Assignment, Manager};
use sched_sim::metrics::{CompletionReport, MonitorSample};
use sched_sim::task::{Policy, Task, TaskKind};

fn done_report(a: &Assignment) -> CompletionReport {
    CompletionReport::for_task(&a.task, a.worker_id, 0, 0)
}

#[test]
fn new_manager_has_free_workers_and_nothing_queued() {
    let m = Manager::new(8, 1000);
    assert_eq!(m.queued(), (0, 0));
    assert_eq!(m.cpu_percent(), 0);
    assert_eq!(m.busy_workers(), 0);
    assert_eq!(m.completed(), 0);
    for w in 0..8 {
        assert_eq!(m.worker_is_free(w), Some(true));
    }
    assert_eq!(m.worker_is_free(8), None);
    assert!(!m.is_complete());
    assert!(m.is_drained(true));
    assert!(!m.is_drained(false));
}

#[test]
fn enqueue_sorts_by_kind() {
    let mut m = Manager::new(2, 10);
    m.enqueue(Task::new_cpu(0, 0));
    m.enqueue(Task::new_io(1, 0));
    m.enqueue(Task::new_io(2, 0));
    assert_eq!(m.queued(), (1, 2));
    assert!(!m.is_drained(true));
}

#[test]
fn fifo_serves_cpu_first_and_caps_load() {
    let mut m = Manager::new(8, 10);
    for id in 0..3 {
        m.enqueue(Task::new_cpu(id, 0));
    }
    m.enqueue(Task::new_io(10, 0));
    let out = m.dispatch_round(Policy::Fifo);
    // Two CPU tasks fit (70%); the third would make 105% and blocks the round.
    assert_eq!(out.len(), 2);
    assert_eq!(out[0], Assignment { worker_id: 0, task: Task::new_cpu(0, 0) });
    assert_eq!(out[1], Assignment { worker_id: 1, task: Task::new_cpu(1, 0) });
    assert_eq!(m.cpu_percent(), 70);
    assert_eq!(m.busy_workers(), 2);
    assert_eq!(m.queued(), (1, 1));
    assert_eq!(m.worker_is_free(0), Some(false));
    assert_eq!(m.worker_is_free(1), Some(false));
    assert_eq!(m.worker_is_free(2), Some(true));
}

#[test]
fn optimized_serves_io_first() {
    let mut m = Manager::new(8, 10);
    m.enqueue(Task::new_cpu(0, 0));
    m.enqueue(Task::new_cpu(1, 0));
    m.enqueue(Task::new_io(2, 0));
    m.enqueue(Task::new_io(3, 0));
    let out = m.dispatch_round(Policy::Optimized);
    let ids: Vec<u64> = out.iter().map(|a| a.task.id).collect();
    // 10 + 10 + 35 + 35 = 90%: everything fits, IO tasks first.
    assert_eq!(ids, vec![2, 3, 0, 1]);
    assert_eq!(m.cpu_percent(), 90);
    assert_eq!(m.queued(), (0, 0));
}

#[test]
fn io_tasks_fill_all_workers() {
    let mut m = Manager::new(8, 100);
    for id in 0..12 {
        m.enqueue(Task::new_io(id, 0));
    }
    let out = m.dispatch_round(Policy::Fifo);
    assert_eq!(out.len(), 8);
    assert_eq!(m.cpu_percent(), 80);
    assert_eq!(m.queued(), (0, 4));
    // No free worker is left while tasks wait.
    for w in 0..8 {
        assert_eq!(m.worker_is_free(w), Some(false));
    }
    assert_eq!(m.dispatch_round(Policy::Fifo).len(), 0);
}

#[test]
fn fifo_head_of_line_blocks_io() {
    let mut m = Manager::new(8, 100);
    m.enqueue(Task::new_cpu(0, 0));
    m.enqueue(Task::new_cpu(1, 0));
    let first = m.dispatch_round(Policy::Fifo);
    assert_eq!(first.len(), 2);
    m.enqueue(Task::new_cpu(2, 0));
    m.enqueue(Task::new_io(3, 0));
    // 70% + 35% breaks the cap; the waiting IO task is not served past it.
    assert_eq!(m.dispatch_round(Policy::Fifo).len(), 0);
    assert_eq!(m.queued(), (1, 1));
    assert_eq!(m.cpu_percent(), 70);
}

#[test]
fn optimized_serves_io_past_a_blocked_cpu_task() {
    let mut m = Manager::new(8, 100);
    m.enqueue(Task::new_cpu(0, 0));
    m.enqueue(Task::new_cpu(1, 0));
    assert_eq!(m.dispatch_round(Policy::Optimized).len(), 2);
    m.enqueue(Task::new_cpu(2, 0));
    m.enqueue(Task::new_io(3, 0));
    let out = m.dispatch_round(Policy::Optimized);
    assert_eq!(out.len(), 1);
    assert_eq!(out[0].task.id, 3);
    assert_eq!(out[0].worker_id, 2);
    assert_eq!(m.cpu_percent(), 80);
    assert_eq!(m.queued(), (1, 0));
}

#[test]
fn completion_frees_worker_and_load() {
    let mut m = Manager::new(4, 2);
    m.enqueue(Task::new_cpu(0, 0));
    m.enqueue(Task::new_io(1, 0));
    let out = m.dispatch_round(Policy::Fifo);
    assert_eq!(out.len(), 2);
    assert_eq!(m.cpu_percent(), 45);
    assert!(!m.complete(&done_report(&out[0])));
    assert_eq!(m.cpu_percent(), 10);
    assert_eq!(m.busy_workers(), 1);
    assert_eq!(m.worker_is_free(out[0].worker_id), Some(true));
    assert!(m.complete(&done_report(&out[1])));
    assert!(m.is_complete());
    assert_eq!(m.cpu_percent(), 0);
    assert_eq!(m.busy_workers(), 0);
    assert!(m.is_drained(true));
}

#[test]
fn dispatch_then_complete_restores_counters() {
    let mut m = Manager::new(3, 5);
    m.enqueue(Task::new_cpu(0, 0));
    let before = (m.cpu_percent(), m.busy_workers());
    let out = m.dispatch_round(Policy::Optimized);
    assert_eq!(out.len(), 1);
    m.complete(&done_report(&out[0]));
    assert_eq!((m.cpu_percent(), m.busy_workers()), before);
    for w in 0..3 {
        assert_eq!(m.worker_is_free(w), Some(true));
    }
    assert_eq!(m.completed(), 1);
}

#[test]
fn round_robin_position_survives_rounds() {
    let mut m = Manager::new(3, 10);
    m.enqueue(Task::new_io(0, 0));
    let out = m.dispatch_round(Policy::Fifo);
    assert_eq!(out[0].worker_id, 0);
    m.enqueue(Task::new_io(1, 0));
    let out2 = m.dispatch_round(Policy::Fifo);
    // The round starts at worker 0 again; worker 0 is busy, so worker 1 takes it.
    assert_eq!(out2[0].worker_id, 1);
}

#[test]
fn spurious_report_wraps_counters() {
    let mut m = Manager::new(2, 10);
    let r = CompletionReport { task_id: 0, worker_id: 5, kind: TaskKind::Io, arrival_time: 0, start_time: 0, end_time: 0 };
    assert!(!m.complete(&r));
    assert_eq!(m.completed(), 1);
    assert_eq!(m.busy_workers(), usize::MAX);
    assert_eq!(m.cpu_percent(), u32::MAX - 9);
    assert_eq!(m.worker_is_free(0), Some(true));
}

#[test]
fn no_workers_dispatch_nothing() {
    let mut m = Manager::new(0, 1);
    m.enqueue(Task::new_io(0, 0));
    assert!(m.dispatch_round(Policy::Fifo).is_empty());
    assert_eq!(m.queued(), (0, 1));
}

#[test]
fn zero_expected_tasks_is_complete_at_once() {
    let m = Manager::new(8, 0);
    assert!(m.is_complete());
}

#[test]
fn sample_reads_the_counters() {
    let mut m = Manager::new(8, 10);
    m.enqueue(Task::new_cpu(0, 0));
    m.enqueue(Task::new_io(1, 0));
    m.dispatch_round(Policy::Fifo);
    assert_eq!(m.sample(), MonitorSample { cpu_percent: 45, active_workers: 2 });
}

#[test]
fn counters_stay_bounded_over_a_run() {
    let mut m = Manager::new(8, 40);
    let mut running: Vec<Assignment> = Vec::new();
    let mut next_id: u64 = 0;
    for step in 0..200u64 {
        if next_id < 40 {
            let t = if step % 3 == 0 { Task::new_cpu(next_id, step) } else { Task::new_io(next_id, step) };
            m.enqueue(t);
            next_id += 1;
        }
        let policy = if step % 2 == 0 { Policy::Fifo } else { Policy::Optimized };
        for a in m.dispatch_round(policy) {
            running.push(a);
        }
        assert!(m.cpu_percent() <= 100);
        assert!(m.busy_workers() <= 8);
        let load: u32 = running.iter().map(|a| a.task.cpu_percent).sum();
        assert_eq!(m.cpu_percent(), load);
        assert_eq!(m.busy_workers(), running.len());
        if step % 2 == 1 && !running.is_empty() {
            let a = running.remove(0);
            m.complete(&done_report(&a));
        }
    }
    while let Some(a) = running.pop() {
        m.complete(&done_report(&a));
    }
    while !m.is_drained(true) {
        for a in m.dispatch_round(Policy::Fifo) {
            m.complete(&done_report(&a));
        }
    }
    assert!(m.is_complete());
    assert_eq!(m.completed(), 40);
    assert_eq!(m.cpu_percent(), 0);
}
