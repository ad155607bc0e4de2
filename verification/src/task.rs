use vstd::prelude::*;

verus! {

/// How long a worker is busy with one task, in milliseconds.
pub const TASK_DURATION_MS: u64 = 200;

/// The CPU load, in percent, that one running CPU-bound task puts on the machine.
pub const CPU_PERCENT: u32 = 35;

/// The CPU load, in percent, that one running IO-bound task puts on the machine.
pub const IO_PERCENT: u32 = 10;

/// The CPU load, in percent, above which the manager dispatches nothing.
pub const CPU_CAP_PERCENT: u32 = 100;

/// The seed of both simulations.
pub const SEED: u64 = 1;

/// The number of worker threads.
pub const NUM_WORKERS: usize = 8;

/// Nanoseconds in a millisecond.
pub const NANOS_PER_MILLI: u64 = 1_000_000;

/// The two kinds of task.
#[derive(Debug, Clone, Copy, PartialEq, Eq, Structural)]
pub enum TaskKind {
    Io,
    Cpu,
}

/// The load that a task of this kind puts on the CPU while it runs.
pub open spec fn kind_cost(kind: TaskKind) -> u32 {
    match kind {
        TaskKind::Cpu => CPU_PERCENT,
        TaskKind::Io => IO_PERCENT,
    }
}

impl TaskKind {
    /// The load, in percent, of a running task of this kind.
    pub fn cost(&self) -> (c: u32)
        ensures
            c == kind_cost(*self),
    {
        match self {
            TaskKind::Cpu => CPU_PERCENT,
            TaskKind::Io => IO_PERCENT,
        }
    }
}

/// The two dispatch policies: `Fifo` serves the CPU queue first, `Optimized` the
/// IO queue first.
#[derive(Debug, Clone, Copy, PartialEq, Eq, Structural)]
pub enum Policy {
    Fifo,
    Optimized,
}

impl Policy {
    /// The name under which the policy is shown.
    pub fn label(&self) -> (s: &'static str)
        ensures
            *self == Policy::Fifo ==> s@ == "FIFO"@,
            *self == Policy::Optimized ==> s@ == "Optimized"@,
    {
        match self {
            Policy::Fifo => "FIFO",
            Policy::Optimized => "Optimized",
        }
    }
}

/// A task as the generator hands it to the manager.
#[derive(Debug, Clone, Copy, PartialEq, Eq, Structural)]
pub struct Task {
    pub id: u64,
    /// When the task arrived, in nanoseconds from the run's origin.
    pub arrival_time: u64,
    pub kind: TaskKind,
    pub cpu_percent: u32,
}

impl Task {
    /// A task whose load is the one its kind calls for.
    pub open spec fn wf(self) -> bool {
        self.cpu_percent == kind_cost(self.kind)
    }

    /// A CPU-bound task with the given id that arrived at `now`.
    pub fn new_cpu(id: u64, now: u64) -> (t: Self)
        ensures
            t == (Task { id, arrival_time: now, kind: TaskKind::Cpu, cpu_percent: CPU_PERCENT }),
            t.wf(),
    {
        Task { id, arrival_time: now, kind: TaskKind::Cpu, cpu_percent: CPU_PERCENT }
    }

    /// An IO-bound task with the given id that arrived at `now`.
    pub fn new_io(id: u64, now: u64) -> (t: Self)
        ensures
            t == (Task { id, arrival_time: now, kind: TaskKind::Io, cpu_percent: IO_PERCENT }),
            t.wf(),
    {
        Task { id, arrival_time: now, kind: TaskKind::Io, cpu_percent: IO_PERCENT }
    }

    /// The task that the generator makes of one draw: IO-bound where the draw fell
    /// under the IO fraction, CPU-bound otherwise.
    pub fn from_draw(id: u64, draw_is_io: bool, now: u64) -> (t: Self)
        ensures
            t.id == id,
            t.arrival_time == now,
            t.kind == (if draw_is_io { TaskKind::Io } else { TaskKind::Cpu }),
            t.wf(),
    {
        if draw_is_io {
            Task::new_io(id, now)
        } else {
            Task::new_cpu(id, now)
        }
    }
}

/// The parameters of one generated workload.  The share of IO-bound tasks is kept
/// as a whole percentage.
#[derive(Debug, Clone, Copy, PartialEq, Eq, Structural)]
pub struct WorkloadConfig {
    pub num_tasks: u64,
    pub seed: u64,
    pub io_percent: u32,
    pub arrival_interval_ms: u64,
}

impl WorkloadConfig {
    /// The balanced workload: a thousand tasks, 70% of them IO-bound, one every 20 ms.
    pub fn standard(seed: u64) -> (c: Self)
        ensures
            c == (WorkloadConfig { num_tasks: 1000, seed, io_percent: 70, arrival_interval_ms: 20 }),
    {
        WorkloadConfig { num_tasks: 1000, seed, io_percent: 70, arrival_interval_ms: 20 }
    }

    /// The stress workload: a thousand tasks, 80% of them IO-bound, one every 20 ms,
    /// drawn from the seed after the given one.
    pub fn heavy_io(seed: u64) -> (c: Self)
        requires
            seed < u64::MAX,
        ensures
            c == (WorkloadConfig {
                num_tasks: 1000,
                seed: (seed + 1) as u64,
                io_percent: 80,
                arrival_interval_ms: 20,
            }),
    {
        WorkloadConfig { num_tasks: 1000, seed: seed + 1, io_percent: 80, arrival_interval_ms: 20 }
    }
}

/// The two workloads that the program can run.
#[derive(Debug, Clone, Copy, PartialEq, Eq, Structural)]
pub enum Workload {
    Balanced,
    Stress,
}

impl Workload {
    /// The workload that a command-line argument asks for: `80-20` asks for the
    /// stress run, anything else, or no argument, for the balanced one.
    pub fn from_arg(arg: Option<&str>) -> (w: Self)
        ensures
            w == (match arg {
                Some(a) => if a@ == "80-20"@ { Workload::Stress } else { Workload::Balanced },
                None => Workload::Balanced,
            }),
    {
        match arg {
            Some(a) => {
                let given: String = a.to_owned();
                let stress: String = "80-20".to_owned();
                if given == stress {
                    Workload::Stress
                } else {
                    Workload::Balanced
                }
            },
            None => Workload::Balanced,
        }
    }

    /// The configuration that both simulations of this workload run with.
    pub fn config(&self) -> (c: WorkloadConfig)
        ensures
            *self == Workload::Balanced ==> c == (WorkloadConfig {
                num_tasks: 1000,
                seed: SEED,
                io_percent: 70,
                arrival_interval_ms: 20,
            }),
            *self == Workload::Stress ==> c == (WorkloadConfig {
                num_tasks: 1000,
                seed: (SEED + 1) as u64,
                io_percent: 80,
                arrival_interval_ms: 20,
            }),
    {
        match self {
            Workload::Balanced => WorkloadConfig::standard(SEED),
            Workload::Stress => WorkloadConfig::heavy_io(SEED),
        }
    }

    /// How the workload is described in the run's header.
    pub fn label(&self) -> (s: &'static str)
        ensures
            *self == Workload::Balanced ==> s@ == "70% IO / 30% CPU"@,
            *self == Workload::Stress ==> s@ == "80% IO / 20% CPU"@,
    {
        match self {
            Workload::Balanced => "70% IO / 30% CPU",
            Workload::Stress => "80% IO / 20% CPU",
        }
    }
}

} // verus!
