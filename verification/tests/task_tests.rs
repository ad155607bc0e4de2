use sched_sim::task::{
    Policy, Task, TaskKind, Workload, WorkloadConfig, CPU_PERCENT, IO_PERCENT, NUM_WORKERS, SEED,
};

#[test]
fn new_cpu_task_carries_cpu_load() {
    let t = Task::new_cpu(7, 1_500);
    assert_eq!(t.id, 7);
    assert_eq!(t.arrival_time, 1_500);
    assert_eq!(t.kind, TaskKind::Cpu);
    assert_eq!(t.cpu_percent, 35);
}

#[test]
fn new_io_task_carries_io_load() {
    let t = Task::new_io(3, 42);
    assert_eq!(t.id, 3);
    assert_eq!(t.arrival_time, 42);
    assert_eq!(t.kind, TaskKind::Io);
    assert_eq!(t.cpu_percent, 10);
}

#[test]
fn draw_decides_the_kind() {
    assert_eq!(Task::from_draw(1, true, 5), Task::new_io(1, 5));
    assert_eq!(Task::from_draw(2, false, 9), Task::new_cpu(2, 9));
}

#[test]
fn kind_costs() {
    assert_eq!(TaskKind::Cpu.cost(), CPU_PERCENT);
    assert_eq!(TaskKind::Io.cost(), IO_PERCENT);
}

#[test]
fn constants_match_the_documented_run() {
    assert_eq!(NUM_WORKERS, 8);
    assert_eq!(SEED, 1);
    assert_eq!(sched_sim::task::TASK_DURATION_MS, 200);
    assert_eq!(sched_sim::task::CPU_CAP_PERCENT, 100);
}

#[test]
fn standard_workload() {
    let c = WorkloadConfig::standard(1);
    assert_eq!(
        c,
        WorkloadConfig { num_tasks: 1000, seed: 1, io_percent: 70, arrival_interval_ms: 20 }
    );
}

#[test]
fn heavy_io_workload_uses_next_seed() {
    let c = WorkloadConfig::heavy_io(1);
    assert_eq!(
        c,
        WorkloadConfig { num_tasks: 1000, seed: 2, io_percent: 80, arrival_interval_ms: 20 }
    );
}

#[test]
fn workload_argument_selection() {
    assert_eq!(Workload::from_arg(Some("80-20")), Workload::Stress);
    assert_eq!(Workload::from_arg(Some("70-30")), Workload::Balanced);
    assert_eq!(Workload::from_arg(Some("80-2")), Workload::Balanced);
    assert_eq!(Workload::from_arg(Some("")), Workload::Balanced);
    assert_eq!(Workload::from_arg(None), Workload::Balanced);
}

#[test]
fn workload_configs_and_labels() {
    assert_eq!(Workload::Balanced.config(), WorkloadConfig::standard(SEED));
    assert_eq!(Workload::Stress.config(), WorkloadConfig::heavy_io(SEED));
    assert_eq!(Workload::Balanced.label(), "70% IO / 30% CPU");
    assert_eq!(Workload::Stress.label(), "80% IO / 20% CPU");
}

#[test]
fn policy_labels() {
    assert_eq!(Policy::Fifo.label(), "FIFO");
    assert_eq!(Policy::Optimized.label(), "Optimized");
}
