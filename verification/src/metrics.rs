use vstd::prelude::*;
use crate::task::{Task, TaskKind, NANOS_PER_MILLI};

verus! {

/// What a worker reports when it has finished a task.  Times are in nanoseconds
/// from the run's origin.
#[derive(Debug, Clone, Copy, PartialEq, Eq, Structural)]
pub struct CompletionReport {
    pub task_id: u64,
    pub worker_id: usize,
    pub kind: TaskKind,
    pub arrival_time: u64,
    pub start_time: u64,
    pub end_time: u64,
}

impl CompletionReport {
    /// The report of a worker that ran `task` from `start_time` to `end_time`.
    pub fn for_task(task: &Task, worker_id: usize, start_time: u64, end_time: u64) -> (r: Self)
        ensures
            r == (CompletionReport {
                task_id: task.id,
                worker_id,
                kind: task.kind,
                arrival_time: task.arrival_time,
                start_time,
                end_time,
            }),
    {
        CompletionReport {
            task_id: task.id,
            worker_id,
            kind: task.kind,
            arrival_time: task.arrival_time,
            start_time,
            end_time,
        }
    }
}

/// What the monitor reads off the shared counters at one instant.
#[derive(Debug, Clone, Copy, PartialEq, Eq, Structural)]
pub struct MonitorSample {
    pub cpu_percent: u32,
    pub active_workers: usize,
}

/// Whole milliseconds from `from` to `to`, both in nanoseconds; zero where `to`
/// comes first.
pub open spec fn elapsed_ms(from: u64, to: u64) -> int {
    if from <= to {
        (to - from) / (NANOS_PER_MILLI as int)
    } else {
        0
    }
}

/// The integer mean of `n` values that add up to `sum`; zero where there are none.
pub open spec fn average(sum: int, n: int) -> int {
    if n == 0 {
        0
    } else {
        sum / n
    }
}

/// The number of reports of the given kind.
pub open spec fn count_kind(rs: Seq<CompletionReport>, kind: TaskKind) -> nat
    decreases rs.len(),
{
    if rs.len() == 0 {
        0
    } else {
        count_kind(rs.drop_last(), kind) + (if rs.last().kind == kind { 1nat } else { 0nat })
    }
}

/// The sum of the CPU loads of the samples.
pub open spec fn sum_cpu(ss: Seq<MonitorSample>) -> nat
    decreases ss.len(),
{
    if ss.len() == 0 {
        0
    } else {
        sum_cpu(ss.drop_last()) + ss.last().cpu_percent as nat
    }
}

/// The sum of the active-worker counts of the samples.
pub open spec fn sum_workers(ss: Seq<MonitorSample>) -> nat
    decreases ss.len(),
{
    if ss.len() == 0 {
        0
    } else {
        sum_workers(ss.drop_last()) + ss.last().active_workers as nat
    }
}

/// The highest CPU load of the samples; zero where there are none.
pub open spec fn peak_cpu(ss: Seq<MonitorSample>) -> u32
    decreases ss.len(),
{
    if ss.len() == 0 {
        0
    } else {
        let rest = peak_cpu(ss.drop_last());
        if rest < ss.last().cpu_percent {
            ss.last().cpu_percent
        } else {
            rest
        }
    }
}

/// The sum over the reports of the whole milliseconds each task waited.
pub open spec fn sum_wait(rs: Seq<CompletionReport>) -> nat
    decreases rs.len(),
{
    if rs.len() == 0 {
        0
    } else {
        sum_wait(rs.drop_last()) + elapsed_ms(rs.last().arrival_time, rs.last().start_time) as nat
    }
}

/// The sum over the reports of the whole milliseconds from each arrival to the end
/// of its task.
pub open spec fn sum_turnaround(rs: Seq<CompletionReport>) -> nat
    decreases rs.len(),
{
    if rs.len() == 0 {
        0
    } else {
        sum_turnaround(rs.drop_last()) + elapsed_ms(
            rs.last().arrival_time,
            rs.last().end_time,
        ) as nat
    }
}

/// The run time in milliseconds of a run that started at `start` and ended at
/// `end`, or that is still going at `now`.
pub open spec fn runtime_ms(start: u64, end: Option<u64>, now: u64) -> int {
    match end {
        Some(e) => elapsed_ms(start, e),
        None => elapsed_ms(start, now),
    }
}

/// Whole milliseconds from `from` to `to`.
pub fn millis_between(from: u64, to: u64) -> (ms: u64)
    ensures
        ms == elapsed_ms(from, to),
{
    if from <= to {
        (to - from) / NANOS_PER_MILLI
    } else {
        0
    }
}

/// The figures that the summary of one simulation shows.
#[derive(Debug, Clone, Copy, PartialEq, Eq, Structural)]
pub struct Summary {
    pub total: usize,
    pub cpu_count: usize,
    pub io_count: usize,
    pub makespan_ms: u64,
    pub avg_wait_ms: u64,
    pub avg_turnaround_ms: u64,
    pub avg_cpu: u64,
    pub peak_cpu: u32,
    pub avg_workers: u64,
}

/// The completion reports and monitor samples of one run, and when it started and
/// ended.
pub struct Metrics {
    pub reports: Vec<CompletionReport>,
    pub samples: Vec<MonitorSample>,
    run_start: u64,
    run_end: Option<u64>,
}

/// The abstract state of [`Metrics`]: the reports and samples in the order they
/// came, when the run started, and when it ended if it has.
pub struct MetricsView {
    pub reports: Seq<CompletionReport>,
    pub samples: Seq<MonitorSample>,
    pub start: u64,
    pub end: Option<u64>,
}

impl View for Metrics {
    type V = MetricsView;

    closed spec fn view(&self) -> MetricsView {
        MetricsView {
            reports: self.reports@,
            samples: self.samples@,
            start: self.run_start,
            end: self.run_end,
        }
    }
}

impl Metrics {
    /// Empty metrics of a run that starts at `now`.
    pub fn new(now: u64) -> (m: Self)
        ensures
            m@.reports == Seq::<CompletionReport>::empty(),
            m@.samples == Seq::<MonitorSample>::empty(),
            m@.start == now,
            m@.end == None::<u64>,
    {
        Metrics { reports: Vec::new(), samples: Vec::new(), run_start: now, run_end: None }
    }

    /// When the run started.
    pub fn run_start(&self) -> (t: u64)
        ensures
            t == self@.start,
    {
        self.run_start
    }

    /// When the run ended, once it has.
    pub fn run_end(&self) -> (t: Option<u64>)
        ensures
            t == self@.end,
    {
        self.run_end
    }

    /// Adds a completion report.
    pub fn record(&mut self, report: CompletionReport)
        ensures
            final(self)@.reports == old(self)@.reports.push(report),
            final(self)@.samples == old(self)@.samples,
            final(self)@.start == old(self)@.start,
            final(self)@.end == old(self)@.end,
    {
        self.reports.push(report);
    }

    /// Adds a monitor sample.
    pub fn add_sample(&mut self, sample: MonitorSample)
        ensures
            final(self)@.samples == old(self)@.samples.push(sample),
            final(self)@.reports == old(self)@.reports,
            final(self)@.start == old(self)@.start,
            final(self)@.end == old(self)@.end,
    {
        self.samples.push(sample);
    }

    /// Marks the run as ended at `now`.
    pub fn finalize(&mut self, now: u64)
        ensures
            final(self)@.end == Some(now),
            final(self)@.start == old(self)@.start,
            final(self)@.reports == old(self)@.reports,
            final(self)@.samples == old(self)@.samples,
    {
        self.run_end = Some(now);
    }

    /// The run time in milliseconds: up to the end of the run, or up to `now` while
    /// it has not ended.
    pub fn total_runtime_ms(&self, now: u64) -> (ms: u64)
        ensures
            ms == runtime_ms(self@.start, self@.end, now),
    {
        let end = match self.run_end {
            Some(e) => e,
            None => now,
        };
        millis_between(self.run_start, end)
    }
}


/// The mean of `n` values adding up to `sum`, each at most `m`, is at most `m`.
proof fn lemma_mean_at_most(sum: int, n: int, m: int)
    requires
        0 <= sum <= n * m,
        n > 0,
        m >= 0,
    ensures
        sum / n <= m,
{
    assert(sum / n <= m) by (nonlinear_arith)
        requires
            0 <= sum <= n * m,
            n > 0,
            m >= 0,
    ;
}

/// The sum of the CPU loads of the samples.
fn total_cpu(samples: &Vec<MonitorSample>) -> (t: u128)
    ensures
        t == sum_cpu(samples@),
        t <= samples@.len() * 0xffff_ffffnat,
{
    let mut acc: u128 = 0;
    let mut i: usize = 0;
    while i < samples.len()
        invariant
            i <= samples@.len(),
            acc == sum_cpu(samples@.take(i as int)),
            acc <= i * 0xffff_ffffnat,
        decreases samples@.len() - i,
    {
        assert(samples@.take(i + 1).drop_last() =~= samples@.take(i as int));
        acc = acc + samples[i].cpu_percent as u128;
        i = i + 1;
    }
    assert(samples@.take(i as int) =~= samples@);
    acc
}

/// The sum of the active-worker counts of the samples.
fn total_workers(samples: &Vec<MonitorSample>) -> (t: u128)
    ensures
        t == sum_workers(samples@),
        t <= samples@.len() * 0xffff_ffff_ffff_ffffnat,
{
    let mut acc: u128 = 0;
    let mut i: usize = 0;
    while i < samples.len()
        invariant
            i <= samples@.len(),
            acc == sum_workers(samples@.take(i as int)),
            acc <= i * 0xffff_ffff_ffff_ffffnat,
        decreases samples@.len() - i,
    {
        assert(samples@.take(i + 1).drop_last() =~= samples@.take(i as int));
        acc = acc + samples[i].active_workers as u128;
        i = i + 1;
    }
    assert(samples@.take(i as int) =~= samples@);
    acc
}

/// The sum over the reports of the whole milliseconds each task waited.
fn total_wait(reports: &Vec<CompletionReport>) -> (t: u128)
    ensures
        t == sum_wait(reports@),
        t <= reports@.len() * 0xffff_ffff_ffff_ffffnat,
{
    let mut acc: u128 = 0;
    let mut i: usize = 0;
    while i < reports.len()
        invariant
            i <= reports@.len(),
            acc == sum_wait(reports@.take(i as int)),
            acc <= i * 0xffff_ffff_ffff_ffffnat,
        decreases reports@.len() - i,
    {
        assert(reports@.take(i + 1).drop_last() =~= reports@.take(i as int));
        let r = &reports[i];
        acc = acc + millis_between(r.arrival_time, r.start_time) as u128;
        i = i + 1;
    }
    assert(reports@.take(i as int) =~= reports@);
    acc
}

/// The sum over the reports of the whole milliseconds from arrival to end.
fn total_turnaround(reports: &Vec<CompletionReport>) -> (t: u128)
    ensures
        t == sum_turnaround(reports@),
        t <= reports@.len() * 0xffff_ffff_ffff_ffffnat,
{
    let mut acc: u128 = 0;
    let mut i: usize = 0;
    while i < reports.len()
        invariant
            i <= reports@.len(),
            acc == sum_turnaround(reports@.take(i as int)),
            acc <= i * 0xffff_ffff_ffff_ffffnat,
        decreases reports@.len() - i,
    {
        assert(reports@.take(i + 1).drop_last() =~= reports@.take(i as int));
        let r = &reports[i];
        acc = acc + millis_between(r.arrival_time, r.end_time) as u128;
        i = i + 1;
    }
    assert(reports@.take(i as int) =~= reports@);
    acc
}

/// The integer mean of `n` values adding up to `total`, each at most `m`; zero
/// where there are none.
fn mean(total: u128, n: usize, Ghost(m): Ghost<nat>) -> (a: u64)
    requires
        total <= n * m,
        m <= u64::MAX,
    ensures
        a == average(total as int, n as int),
{
    if n == 0 {
        0
    } else {
        proof {
            lemma_mean_at_most(total as int, n as int, m as int);
        }
        (total / (n as u128)) as u64
    }
}

impl Metrics {
    /// The number of completed CPU-bound tasks.
    pub fn cpu_count(&self) -> (c: usize)
        ensures
            c == count_kind(self@.reports, TaskKind::Cpu),
    {
        self.count_of(TaskKind::Cpu)
    }

    /// The number of completed IO-bound tasks.
    pub fn io_count(&self) -> (c: usize)
        ensures
            c == count_kind(self@.reports, TaskKind::Io),
    {
        self.count_of(TaskKind::Io)
    }

    fn count_of(&self, kind: TaskKind) -> (c: usize)
        ensures
            c == count_kind(self@.reports, kind),
    {
        let mut c: usize = 0;
        let mut i: usize = 0;
        while i < self.reports.len()
            invariant
                i <= self.reports@.len(),
                c == count_kind(self.reports@.take(i as int), kind),
                c <= i,
            decreases self.reports@.len() - i,
        {
            assert(self.reports@.take(i + 1).drop_last() =~= self.reports@.take(i as int));
            if self.reports[i].kind == kind {
                c = c + 1;
            }
            i = i + 1;
        }
        assert(self.reports@.take(i as int) =~= self.reports@);
        c
    }

    /// The mean CPU load over the samples; zero where there are none.
    pub fn avg_cpu(&self) -> (a: u64)
        ensures
            a == average(sum_cpu(self@.samples) as int, self@.samples.len() as int),
    {
        let total = total_cpu(&self.samples);
        mean(total, self.samples.len(), Ghost(0xffff_ffffnat))
    }

    /// The mean number of active workers over the samples; zero where there are none.
    pub fn avg_active_workers(&self) -> (a: u64)
        ensures
            a == average(sum_workers(self@.samples) as int, self@.samples.len() as int),
    {
        let total = total_workers(&self.samples);
        mean(total, self.samples.len(), Ghost(0xffff_ffff_ffff_ffffnat))
    }

    /// The highest CPU load over the samples; zero where there are none.
    pub fn peak_cpu(&self) -> (p: u32)
        ensures
            p == peak_cpu(self@.samples),
    {
        let mut p: u32 = 0;
        let mut i: usize = 0;
        while i < self.samples.len()
            invariant
                i <= self.samples@.len(),
                p == peak_cpu(self.samples@.take(i as int)),
            decreases self.samples@.len() - i,
        {
            assert(self.samples@.take(i + 1).drop_last() =~= self.samples@.take(i as int));
            if p < self.samples[i].cpu_percent {
                p = self.samples[i].cpu_percent;
            }
            i = i + 1;
        }
        assert(self.samples@.take(i as int) =~= self.samples@);
        p
    }

    /// The mean time, in whole milliseconds, that a completed task waited from its
    /// arrival to its start; zero where none has completed.
    pub fn avg_wait_ms(&self) -> (a: u64)
        ensures
            a == average(sum_wait(self@.reports) as int, self@.reports.len() as int),
    {
        let total = total_wait(&self.reports);
        mean(total, self.reports.len(), Ghost(0xffff_ffff_ffff_ffffnat))
    }

    /// The mean time, in whole milliseconds, from a completed task's arrival to its
    /// end; zero where none has completed.
    pub fn avg_turnaround_ms(&self) -> (a: u64)
        ensures
            a == average(sum_turnaround(self@.reports) as int, self@.reports.len() as int),
    {
        let total = total_turnaround(&self.reports);
        mean(total, self.reports.len(), Ghost(0xffff_ffff_ffff_ffffnat))
    }

    /// Every figure of the run's summary, the run time taken up to `now` where the
    /// run has not ended.
    pub fn summary(&self, now: u64) -> (s: Summary)
        ensures
            s.total == self@.reports.len(),
            s.cpu_count == count_kind(self@.reports, TaskKind::Cpu),
            s.io_count == count_kind(self@.reports, TaskKind::Io),
            s.makespan_ms == runtime_ms(self@.start, self@.end, now),
            s.avg_wait_ms == average(sum_wait(self@.reports) as int, self@.reports.len() as int),
            s.avg_turnaround_ms == average(
                sum_turnaround(self@.reports) as int,
                self@.reports.len() as int,
            ),
            s.avg_cpu == average(sum_cpu(self@.samples) as int, self@.samples.len() as int),
            s.peak_cpu == peak_cpu(self@.samples),
            s.avg_workers == average(
                sum_workers(self@.samples) as int,
                self@.samples.len() as int,
            ),
    {
        Summary {
            total: self.reports.len(),
            cpu_count: self.cpu_count(),
            io_count: self.io_count(),
            makespan_ms: self.total_runtime_ms(now),
            avg_wait_ms: self.avg_wait_ms(),
            avg_turnaround_ms: self.avg_turnaround_ms(),
            avg_cpu: self.avg_cpu(),
            peak_cpu: self.peak_cpu(),
            avg_workers: self.avg_active_workers(),
        }
    }
}

/// Every report is of one kind or the other: the CPU-bound and IO-bound counts add
/// up to the number of reports.
pub proof fn lemma_kind_counts_partition(rs: Seq<CompletionReport>)
    ensures
        count_kind(rs, TaskKind::Cpu) + count_kind(rs, TaskKind::Io) == rs.len(),
    decreases rs.len(),
{
    if rs.len() > 0 {
        lemma_kind_counts_partition(rs.drop_last());
    }
}

/// Recording a report adds one to the count of its kind and leaves the count of the
/// other kind as it was.
pub proof fn lemma_record_counts(rs: Seq<CompletionReport>, r: CompletionReport, kind: TaskKind)
    ensures
        count_kind(rs.push(r), kind) == count_kind(rs, kind) + (if r.kind == kind { 1int } else { 0int }),
{
    assert(rs.push(r).drop_last() =~= rs);
}

/// Once the run has ended, its run time no longer depends on when it is asked for,
/// nor on what was recorded since: any two states with the same start and the same
/// end, the end set, give the same run time at any two instants.  `record` and
/// `add_sample` keep the start and the end, so no sequence of them between two
/// reads after `finalize` changes the run time.
pub proof fn lemma_runtime_fixed_once_ended(a: MetricsView, b: MetricsView, now1: u64, now2: u64)
    requires
        a.end is Some,
        b.start == a.start,
        b.end == a.end,
    ensures
        runtime_ms(a.start, a.end, now1) == runtime_ms(b.start, b.end, now2),
        runtime_ms(a.start, a.end, now1) == elapsed_ms(a.start, a.end.unwrap()),
{
}

proof fn lemma_peak_bounds(ss: Seq<MonitorSample>)
    ensures
        sum_cpu(ss) <= ss.len() * peak_cpu(ss),
        forall|i: int| 0 <= i < ss.len() ==> (#[trigger] ss[i]).cpu_percent <= peak_cpu(ss),
    decreases ss.len(),
{
    if ss.len() > 0 {
        let rest = ss.drop_last();
        lemma_peak_bounds(rest);
        let a = peak_cpu(rest) as int;
        let b = peak_cpu(ss) as int;
        let k = rest.len() as int;
        assert(a <= b);
        assert(k * a <= k * b) by (nonlinear_arith)
            requires
                0 <= a <= b,
                k >= 0,
        ;
        assert forall|i: int| 0 <= i < ss.len() implies (#[trigger] ss[i]).cpu_percent <= peak_cpu(ss) by {
            if i < rest.len() {
                assert(rest[i] == ss[i]);
            }
        }
        assert(ss.len() * b == k * b + b) by (nonlinear_arith)
            requires
                ss.len() == k + 1,
        ;
    }
}

/// The mean CPU load never exceeds the peak CPU load.
pub proof fn lemma_avg_cpu_at_most_peak(ss: Seq<MonitorSample>)
    ensures
        average(sum_cpu(ss) as int, ss.len() as int) <= peak_cpu(ss),
{
    lemma_peak_bounds(ss);
    if ss.len() > 0 {
        lemma_mean_at_most(sum_cpu(ss) as int, ss.len() as int, peak_cpu(ss) as int);
    }
}

/// Where every sample is within a cap, so are the peak and the mean CPU load.
pub proof fn lemma_samples_within_cap(ss: Seq<MonitorSample>, cap: u32)
    requires
        forall|i: int| 0 <= i < ss.len() ==> (#[trigger] ss[i]).cpu_percent <= cap,
    ensures
        peak_cpu(ss) <= cap,
        average(sum_cpu(ss) as int, ss.len() as int) <= cap,
    decreases ss.len(),
{
    if ss.len() > 0 {
        let rest = ss.drop_last();
        assert forall|i: int| 0 <= i < rest.len() implies (#[trigger] rest[i]).cpu_percent <= cap by {
            assert(rest[i] == ss[i]);
        }
        lemma_samples_within_cap(rest, cap);
    }
    lemma_avg_cpu_at_most_peak(ss);
}

proof fn lemma_sum_wait_le_turnaround(rs: Seq<CompletionReport>)
    requires
        forall|i: int| 0 <= i < rs.len() ==> (#[trigger] rs[i]).start_time <= rs[i].end_time,
    ensures
        sum_wait(rs) <= sum_turnaround(rs),
    decreases rs.len(),
{
    if rs.len() > 0 {
        let rest = rs.drop_last();
        assert forall|i: int| 0 <= i < rest.len() implies (#[trigger] rest[i]).start_time
            <= rest[i].end_time by {
            assert(rest[i] == rs[i]);
        }
        lemma_sum_wait_le_turnaround(rest);
        let r = rs.last();
        assert(r == rs[rs.len() - 1]);
        if r.arrival_time <= r.start_time {
            vstd::arithmetic::div_mod::lemma_div_is_ordered(
                r.start_time - r.arrival_time,
                r.end_time - r.arrival_time,
                NANOS_PER_MILLI as int,
            );
        }
    }
}

/// Where no task ended before it started, the mean wait is at most the mean
/// turnaround.
pub proof fn lemma_avg_wait_at_most_turnaround(rs: Seq<CompletionReport>)
    requires
        forall|i: int| 0 <= i < rs.len() ==> (#[trigger] rs[i]).start_time <= rs[i].end_time,
    ensures
        average(sum_wait(rs) as int, rs.len() as int) <= average(
            sum_turnaround(rs) as int,
            rs.len() as int,
        ),
{
    lemma_sum_wait_le_turnaround(rs);
    if rs.len() > 0 {
        vstd::arithmetic::div_mod::lemma_div_is_ordered(
            sum_wait(rs) as int,
            sum_turnaround(rs) as int,
            rs.len() as int,
        );
    }
}

} // verus!
