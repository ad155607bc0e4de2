use sched_sim::metrics::{millis_between, CompletionReport, Metrics, MonitorSample};
use sched_sim::task::{Task, TaskKind};

const MS: u64 = 1_000_000;

fn report(kind: TaskKind, worker: usize, arrival: u64, start: u64, end: u64) -> CompletionReport {
    CompletionReport { task_id: 0, worker_id: worker, kind, arrival_time: arrival, start_time: start, end_time: end }
}

fn sample(cpu: u32, workers: usize) -> MonitorSample {
    MonitorSample { cpu_percent: cpu, active_workers: workers }
}

#[test]
fn new_metrics_are_empty() {
    let m = Metrics::new(5 * MS);
    assert!(m.reports.is_empty());
    assert!(m.samples.is_empty());
    assert_eq!(m.run_start(), 5 * MS);
    assert_eq!(m.run_end(), None);
}

#[test]
fn record_and_add_sample_append() {
    let mut m = Metrics::new(0);
    let r = report(TaskKind::Cpu, 2, 0, MS, 3 * MS);
    m.record(r);
    m.add_sample(sample(35, 1));
    assert_eq!(m.reports, vec![r]);
    assert_eq!(m.samples, vec![sample(35, 1)]);
}

#[test]
fn report_for_task_copies_the_task() {
    let t = Task::new_io(9, 4 * MS);
    let r = CompletionReport::for_task(&t, 6, 5 * MS, 205 * MS);
    assert_eq!(r, CompletionReport { task_id: 9, worker_id: 6, kind: TaskKind::Io, arrival_time: 4 * MS, start_time: 5 * MS, end_time: 205 * MS });
}

#[test]
fn runtime_up_to_now_then_fixed_once_finalized() {
    let mut m = Metrics::new(10 * MS);
    assert_eq!(m.total_runtime_ms(2_510 * MS + 999_999), 2_500);
    m.finalize(1_010 * MS);
    assert_eq!(m.run_end(), Some(1_010 * MS));
    assert_eq!(m.total_runtime_ms(0), 1_000);
    assert_eq!(m.total_runtime_ms(u64::MAX), 1_000);
}

#[test]
fn runtime_before_start_is_zero() {
    let m = Metrics::new(10 * MS);
    assert_eq!(m.total_runtime_ms(MS), 0);
}

#[test]
fn millis_between_truncates_and_saturates() {
    assert_eq!(millis_between(0, 1_999_999), 1);
    assert_eq!(millis_between(5, 4), 0);
    assert_eq!(millis_between(7, 7), 0);
}

#[test]
fn averages_of_nothing_are_zero() {
    let m = Metrics::new(0);
    assert_eq!(m.avg_cpu(), 0);
    assert_eq!(m.avg_active_workers(), 0);
    assert_eq!(m.peak_cpu(), 0);
    assert_eq!(m.avg_wait_ms(), 0);
    assert_eq!(m.avg_turnaround_ms(), 0);
    assert_eq!(m.cpu_count(), 0);
    assert_eq!(m.io_count(), 0);
}

#[test]
fn cpu_average_is_truncated_mean_and_peak_is_max() {
    let mut m = Metrics::new(0);
    m.add_sample(sample(10, 1));
    m.add_sample(sample(35, 2));
    m.add_sample(sample(100, 8));
    assert_eq!(m.avg_cpu(), 48);
    assert_eq!(m.peak_cpu(), 100);
    assert_eq!(m.avg_active_workers(), 3);
    assert!(m.avg_cpu() <= m.peak_cpu() as u64);
}

#[test]
fn large_values_do_not_overflow() {
    let mut m = Metrics::new(0);
    m.add_sample(sample(u32::MAX, usize::MAX));
    m.add_sample(sample(u32::MAX, usize::MAX));
    assert_eq!(m.avg_cpu(), u32::MAX as u64);
    assert_eq!(m.avg_active_workers(), usize::MAX as u64);
    m.record(report(TaskKind::Io, 0, 0, u64::MAX, u64::MAX));
    m.record(report(TaskKind::Io, 0, 0, u64::MAX, u64::MAX));
    assert_eq!(m.avg_wait_ms(), u64::MAX / MS);
}

#[test]
fn kind_counts_partition_the_reports() {
    let mut m = Metrics::new(0);
    m.record(report(TaskKind::Cpu, 0, 0, 0, 0));
    m.record(report(TaskKind::Io, 1, 0, 0, 0));
    m.record(report(TaskKind::Io, 2, 0, 0, 0));
    assert_eq!(m.cpu_count(), 1);
    assert_eq!(m.io_count(), 2);
    assert_eq!(m.cpu_count() + m.io_count(), m.reports.len());
}

#[test]
fn wait_and_turnaround_means() {
    let mut m = Metrics::new(0);
    m.record(report(TaskKind::Cpu, 0, 0, 20 * MS, 220 * MS));
    m.record(report(TaskKind::Io, 1, 10 * MS, 15 * MS + 500_000, 215 * MS));
    m.record(report(TaskKind::Io, 1, 30 * MS, 20 * MS, 230 * MS));
    assert_eq!(m.avg_wait_ms(), (20 + 5 + 0) / 3);
    assert_eq!(m.avg_turnaround_ms(), (220 + 205 + 200) / 3);
    assert!(m.avg_wait_ms() <= m.avg_turnaround_ms());
}

#[test]
fn summary_collects_every_figure() {
    let mut m = Metrics::new(MS);
    m.record(report(TaskKind::Cpu, 0, MS, 2 * MS, 202 * MS));
    m.record(report(TaskKind::Io, 1, 3 * MS, 3 * MS, 203 * MS));
    m.add_sample(sample(45, 2));
    m.add_sample(sample(10, 1));
    m.finalize(301 * MS);
    let s = m.summary(0);
    assert_eq!(s.total, 2);
    assert_eq!(s.cpu_count, 1);
    assert_eq!(s.io_count, 1);
    assert_eq!(s.makespan_ms, 300);
    assert_eq!(s.avg_wait_ms, 0);
    assert_eq!(s.avg_turnaround_ms, 200);
    assert_eq!(s.avg_cpu, 27);
    assert_eq!(s.peak_cpu, 45);
    assert_eq!(s.avg_workers, 1);
}
