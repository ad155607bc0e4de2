use vstd::prelude::*;
use crate::metrics::{CompletionReport, MonitorSample};
use crate::task::{kind_cost, Policy, Task, TaskKind, CPU_CAP_PERCENT};

verus! {

/// A task handed to a worker.
#[derive(Debug, Clone, Copy, PartialEq, Eq, Structural)]
pub struct Assignment {
    pub worker_id: usize,
    pub task: Task,
}

/// The abstract state of the [`Manager`].
pub struct ManagerView {
    /// The waiting CPU-bound tasks, oldest first.
    pub cpu_queue: Seq<Task>,
    /// The waiting IO-bound tasks, oldest first.
    pub io_queue: Seq<Task>,
    /// For each worker, whether it is free.
    pub worker_free: Seq<bool>,
    /// The worker that the next dispatch round looks at first.
    pub next_worker: usize,
    /// The number of completion reports taken in.
    pub completed: usize,
    /// The number of tasks that the run expects to complete.
    pub expected: usize,
    /// The CPU load of the running tasks, in percent.
    pub cpu_percent: u32,
    /// The number of busy workers.
    pub busy_workers: usize,
    /// For each worker, the task it was last handed and whose completion has not
    /// been taken in yet.
    pub running: Seq<Option<Task>>,
}

impl ManagerView {
    /// Each queue holds tasks of its own kind only, and the next worker to look at
    /// is a worker (or zero, where there are none).
    pub open spec fn wf(self) -> bool {
        &&& forall|i: int| 0 <= i < self.cpu_queue.len() ==> #[trigger] self.cpu_queue[i].kind == TaskKind::Cpu
        &&& forall|i: int| 0 <= i < self.io_queue.len() ==> #[trigger] self.io_queue[i].kind == TaskKind::Io
        &&& (self.next_worker < self.worker_free.len() || (self.worker_free.len() == 0 && self.next_worker == 0))
        &&& self.running.len() == self.worker_free.len()
    }

    /// Every worker is free.
    pub open spec fn all_free(self) -> bool {
        forall|w: int| 0 <= w < self.worker_free.len() ==> #[trigger] self.worker_free[w]
    }

    /// The counters agree with the tasks in flight: a worker is busy exactly when it
    /// holds a task, every task held or waiting carries the load of its kind, the CPU
    /// load is the sum of the loads held and within the cap, and the busy count is
    /// the number of workers that hold a task.
    pub open spec fn in_balance(self) -> bool {
        &&& self.running.len() == self.worker_free.len()
        &&& forall|w: int|
            0 <= w < self.worker_free.len() ==> (#[trigger] self.worker_free[w] <==> self.running[w] is None)
        &&& forall|w: int| 0 <= w < self.running.len() ==> opt_wf(#[trigger] self.running[w])
        &&& forall|i: int| 0 <= i < self.cpu_queue.len() ==> (#[trigger] self.cpu_queue[i]).wf()
        &&& forall|i: int| 0 <= i < self.io_queue.len() ==> (#[trigger] self.io_queue[i]).wf()
        &&& self.cpu_percent == running_load(self.running)
        &&& self.cpu_percent <= CPU_CAP_PERCENT
        &&& self.busy_workers == running_count(self.running)
    }
}

/// A report that comes back from a worker for the task that it holds.
pub open spec fn report_matches(v: ManagerView, report: CompletionReport) -> bool {
    &&& report.worker_id < v.running.len()
    &&& v.running[report.worker_id as int] matches Some(t) && t.kind == report.kind
}

/// The load of a held task, or zero.
pub open spec fn opt_load(o: Option<Task>) -> int {
    match o {
        Some(t) => t.cpu_percent as int,
        None => 0,
    }
}

/// One for a held task, zero for none.
pub open spec fn opt_count(o: Option<Task>) -> int {
    match o {
        Some(_) => 1,
        None => 0,
    }
}

/// A held task carries the load of its kind.
pub open spec fn opt_wf(o: Option<Task>) -> bool {
    match o {
        Some(t) => t.wf(),
        None => true,
    }
}

/// The summed load of the held tasks.
pub open spec fn running_load(r: Seq<Option<Task>>) -> int
    decreases r.len(),
{
    if r.len() == 0 {
        0
    } else {
        running_load(r.drop_last()) + opt_load(r.last())
    }
}

/// The number of workers that hold a task.
pub open spec fn running_count(r: Seq<Option<Task>>) -> int
    decreases r.len(),
{
    if r.len() == 0 {
        0
    } else {
        running_count(r.drop_last()) + opt_count(r.last())
    }
}

/// The held tasks once each assignment has been handed out, in order.
pub open spec fn assign_running(r: Seq<Option<Task>>, out: Seq<Assignment>) -> Seq<Option<Task>>
    decreases out.len(),
{
    if out.len() == 0 {
        r
    } else {
        assign_running(r, out.drop_last()).update(out.last().worker_id as int, Some(out.last().task))
    }
}

proof fn lemma_running_update(r: Seq<Option<Task>>, i: int, x: Option<Task>)
    requires
        0 <= i < r.len(),
    ensures
        running_load(r.update(i, x)) == running_load(r) - opt_load(r[i]) + opt_load(x),
        running_count(r.update(i, x)) == running_count(r) - opt_count(r[i]) + opt_count(x),
    decreases r.len(),
{
    let u = r.update(i, x);
    if i == r.len() - 1 {
        assert(u.drop_last() =~= r.drop_last());
    } else {
        lemma_running_update(r.drop_last(), i, x);
        assert(u.drop_last() =~= r.drop_last().update(i, x));
    }
}

proof fn lemma_running_bounds(r: Seq<Option<Task>>)
    ensures
        0 <= running_count(r) <= r.len(),
        running_load(r) >= 0,
    decreases r.len(),
{
    if r.len() > 0 {
        lemma_running_bounds(r.drop_last());
    }
}

proof fn lemma_none_running(n: nat)
    ensures
        running_load(Seq::new(n, |w: int| None::<Task>)) == 0,
        running_count(Seq::new(n, |w: int| None::<Task>)) == 0,
    decreases n,
{
    if n > 0 {
        lemma_none_running((n - 1) as nat);
        assert(Seq::new(n, |w: int| None::<Task>).drop_last() =~= Seq::new((n - 1) as nat, |w: int| None::<Task>));
    }
}

/// Where the counters agree with the tasks in flight, the CPU load is within the cap
/// and no more workers are busy than there are workers.
pub proof fn lemma_balance_bounds(v: ManagerView)
    requires
        v.in_balance(),
    ensures
        v.cpu_percent <= CPU_CAP_PERCENT,
        v.busy_workers <= v.worker_free.len(),
{
    lemma_running_bounds(v.running);
}

/// The queue that the policy serves first.
pub open spec fn preferred(policy: Policy, cpu_queue: Seq<Task>, io_queue: Seq<Task>) -> Seq<Task> {
    match policy {
        Policy::Fifo => cpu_queue,
        Policy::Optimized => io_queue,
    }
}

/// The queue that the policy serves once the preferred one is empty.
pub open spec fn other(policy: Policy, cpu_queue: Seq<Task>, io_queue: Seq<Task>) -> Seq<Task> {
    match policy {
        Policy::Fifo => io_queue,
        Policy::Optimized => cpu_queue,
    }
}

/// All waiting tasks in the order in which the policy would hand them out.
pub open spec fn pending(policy: Policy, cpu_queue: Seq<Task>, io_queue: Seq<Task>) -> Seq<Task> {
    preferred(policy, cpu_queue, io_queue) + other(policy, cpu_queue, io_queue)
}

/// `b + k`, wrapped around as `usize` arithmetic wraps.
pub open spec fn usize_wrapping_add(b: usize, k: int) -> usize {
    ((b + k) % (usize::MAX + 1)) as usize
}

/// The kind of task that the policy serves first.
pub open spec fn preferred_kind(policy: Policy) -> TaskKind {
    match policy {
        Policy::Fifo => TaskKind::Cpu,
        Policy::Optimized => TaskKind::Io,
    }
}

/// The worker that a round starting at worker `start`, among `n` workers, looks at
/// in its step `i`.
pub open spec fn visit(start: int, n: int, i: int) -> int {
    if start + i < n {
        start + i
    } else {
        start + i - n
    }
}

/// The free workers among the first `i` that a round starting at `start` looks at,
/// in the order in which it looks at them.
pub open spec fn free_visited(free: Seq<bool>, start: int, i: nat) -> Seq<usize>
    decreases i,
{
    if i == 0 {
        Seq::empty()
    } else {
        let prev = free_visited(free, start, (i - 1) as nat);
        let w = visit(start, free.len() as int, i - 1);
        if free[w] {
            prev.push(w as usize)
        } else {
            prev
        }
    }
}

/// The free workers in the order in which a dispatch round looks at them.
pub open spec fn free_in_round_order(v: ManagerView) -> Seq<usize> {
    free_visited(v.worker_free, v.next_worker as int, v.worker_free.len())
}

/// The sum of the loads of the tasks.
pub open spec fn total_cost(ts: Seq<Task>) -> int
    decreases ts.len(),
{
    if ts.len() == 0 {
        0
    } else {
        total_cost(ts.drop_last()) + ts.last().cpu_percent
    }
}

/// The workers' free flags once the given workers have been made busy.
pub open spec fn mark_busy(free: Seq<bool>, ws: Seq<usize>) -> Seq<bool>
    decreases ws.len(),
{
    if ws.len() == 0 {
        free
    } else {
        mark_busy(free, ws.drop_last()).update(ws.last() as int, false)
    }
}

/// What is left of the preferred queue `p` once `d` tasks have been handed out.
pub open spec fn rest_preferred(p: Seq<Task>, d: int) -> Seq<Task> {
    if d <= p.len() {
        p.skip(d)
    } else {
        Seq::empty()
    }
}

/// What is left of the other queue `q` once `d` tasks have been handed out, the
/// preferred queue `p` first.
pub open spec fn rest_other(p: Seq<Task>, q: Seq<Task>, d: int) -> Seq<Task> {
    if d <= p.len() {
        q
    } else {
        q.skip(d - p.len())
    }
}

/// What a dispatch round does, from state `v` under `policy`, handing out `out`
/// and leaving state `f`.  The round looks at every worker once, starting at the
/// round-robin position; each free worker it finds is offered the next waiting task
/// in policy order, which it takes where the CPU load stays within the cap.  Once a
/// task does not fit it stays at the head of its queue, so the round hands out a
/// prefix of the waiting tasks to a prefix of the free workers.
pub open spec fn round_outcome(v: ManagerView, policy: Policy, out: Seq<Assignment>, f: ManagerView) -> bool {
    let order = free_in_round_order(v);
    let waiting = pending(policy, v.cpu_queue, v.io_queue);
    let p = preferred(policy, v.cpu_queue, v.io_queue);
    let q = other(policy, v.cpu_queue, v.io_queue);
    let m = out.len() as int;
    &&& m <= order.len()
    &&& m <= waiting.len()
    &&& (m == 0 || v.cpu_percent + total_cost(waiting.take(m)) <= CPU_CAP_PERCENT)
    &&& (m == order.len() || m == waiting.len() || v.cpu_percent + total_cost(waiting.take(m + 1))
        > CPU_CAP_PERCENT)
    &&& forall|j: int|
        0 <= j < m ==> #[trigger] out[j] == (Assignment { worker_id: order[j], task: waiting[j] })
    &&& f.cpu_percent == v.cpu_percent + total_cost(waiting.take(m))
    &&& f.worker_free == mark_busy(v.worker_free, order.take(m))
    &&& f.busy_workers == usize_wrapping_add(v.busy_workers, m)
    &&& f.running == assign_running(v.running, out)
    &&& preferred(policy, f.cpu_queue, f.io_queue) == rest_preferred(p, m)
    &&& other(policy, f.cpu_queue, f.io_queue) == rest_other(p, q, m)
    &&& f.next_worker == v.next_worker
    &&& f.completed == v.completed
    &&& f.expected == v.expected
}

/// The state after a completion report has been taken in.
pub open spec fn after_completion(v: ManagerView, report: CompletionReport) -> ManagerView {
    ManagerView {
        completed: (v.completed + 1) as usize,
        worker_free: if report.worker_id < v.worker_free.len() {
            v.worker_free.update(report.worker_id as int, true)
        } else {
            v.worker_free
        },
        busy_workers: vstd::wrapping::usize_specs::wrapping_sub(v.busy_workers, 1),
        running: if report.worker_id < v.worker_free.len() {
            v.running.update(report.worker_id as int, None)
        } else {
            v.running
        },
        cpu_percent: vstd::wrapping::u32_specs::wrapping_sub(v.cpu_percent, kind_cost(report.kind)),
        ..v
    }
}

/// The state after an arrived task has been queued.
pub open spec fn after_arrival(v: ManagerView, task: Task) -> ManagerView {
    match task.kind {
        TaskKind::Cpu => ManagerView { cpu_queue: v.cpu_queue.push(task), ..v },
        TaskKind::Io => ManagerView { io_queue: v.io_queue.push(task), ..v },
    }
}

/// The step in which a round over `n` workers, starting at `start`, looks at worker
/// `e`.
pub open spec fn step_of(start: int, n: int, e: int) -> int {
    if e >= start {
        e - start
    } else {
        e + n - start
    }
}

proof fn lemma_visit(start: int, n: int, i: int)
    requires
        0 <= start < n,
        0 <= i < n,
    ensures
        0 <= visit(start, n, i) < n,
        step_of(start, n, visit(start, n, i)) == i,
        (visit(start, n, i) + 1) % n == visit(start, n, i + 1),
        visit(start, n, n) == start,
{
    let x = visit(start, n, i);
    if x + 1 < n {
        vstd::arithmetic::div_mod::lemma_small_mod((x + 1) as nat, n as nat);
    } else {
        vstd::arithmetic::div_mod::lemma_mod_self_0(n);
    }
}

proof fn lemma_free_visited(free: Seq<bool>, start: int, i: nat)
    requires
        0 <= start < free.len(),
        free.len() <= usize::MAX,
        i <= free.len(),
    ensures
        free_visited(free, start, i).len() <= i,
        forall|j: int|
            0 <= j < free_visited(free, start, i).len() ==> {
                let e = #[trigger] free_visited(free, start, i)[j];
                &&& 0 <= e < free.len()
                &&& free[e as int]
                &&& 0 <= step_of(start, free.len() as int, e as int) < i
            },
        forall|j1: int, j2: int|
            0 <= j1 < j2 < free_visited(free, start, i).len() ==> step_of(
                start,
                free.len() as int,
                #[trigger] free_visited(free, start, i)[j1] as int,
            ) < step_of(start, free.len() as int, #[trigger] free_visited(free, start, i)[j2] as int),
    decreases i,
{
    if i > 0 {
        lemma_free_visited(free, start, (i - 1) as nat);
        lemma_visit(start, free.len() as int, i - 1);
        let n = free.len() as int;
        let prev = free_visited(free, start, (i - 1) as nat);
        let cur = free_visited(free, start, i);
        let w = visit(start, n, i - 1);
        assert forall|j: int| 0 <= j < cur.len() implies {
            let e = #[trigger] cur[j];
            &&& 0 <= e < free.len()
            &&& free[e as int]
            &&& 0 <= step_of(start, n, e as int) < i
        } by {
            if j < prev.len() {
                assert(cur[j] == prev[j]);
            } else {
                assert(free[w] && cur == prev.push(w as usize));
                assert(cur[j] as int == w);
            }
        }
        assert forall|j1: int, j2: int|
            0 <= j1 < j2 < cur.len() implies step_of(start, n, #[trigger] cur[j1] as int) < step_of(
            start,
            n,
            #[trigger] cur[j2] as int,
        ) by {
            assert(cur[j1] == prev[j1]);
            if j2 < prev.len() {
                assert(cur[j2] == prev[j2]);
            } else {
                assert(free[w] && cur == prev.push(w as usize));
                assert(cur[j2] as int == w);
            }
        }
    }
}

proof fn lemma_mark_busy(free: Seq<bool>, ws: Seq<usize>)
    requires
        forall|j: int| 0 <= j < ws.len() ==> #[trigger] ws[j] < free.len(),
    ensures
        mark_busy(free, ws).len() == free.len(),
        forall|j: int| 0 <= j < ws.len() ==> !(#[trigger] mark_busy(free, ws)[ws[j] as int]),
        forall|x: int|
            0 <= x < free.len() && (forall|j: int| 0 <= j < ws.len() ==> ws[j] != x) ==> #[trigger] mark_busy(
                free,
                ws,
            )[x] == free[x],
    decreases ws.len(),
{
    if ws.len() > 0 {
        let rest = ws.drop_last();
        assert forall|j: int| 0 <= j < rest.len() implies #[trigger] rest[j] < free.len() by {
            assert(rest[j] == ws[j]);
        }
        lemma_mark_busy(free, rest);
        let mb = mark_busy(free, ws);
        assert forall|j: int| 0 <= j < ws.len() implies !(#[trigger] mb[ws[j] as int]) by {
            if j < ws.len() - 1 {
                assert(rest[j] == ws[j]);
            }
        }
        assert forall|x: int|
            0 <= x < free.len() && (forall|j: int| 0 <= j < ws.len() ==> ws[j] != x) implies #[trigger] mb[x]
            == free[x] by {
            assert(ws[ws.len() - 1] != x);
            assert forall|j: int| 0 <= j < rest.len() implies rest[j] != x by {
                assert(rest[j] == ws[j]);
            }
        }
    }
}

proof fn lemma_rest_step(p: Seq<Task>, q: Seq<Task>, d: int)
    requires
        0 <= d < p.len() + q.len(),
    ensures
        d < p.len() ==> {
            &&& rest_preferred(p, d).len() > 0
            &&& rest_preferred(p, d)[0] == (p + q)[d]
            &&& rest_preferred(p, d).drop_first() == rest_preferred(p, d + 1)
            &&& rest_other(p, q, d + 1) == rest_other(p, q, d)
        },
        d >= p.len() ==> {
            &&& rest_preferred(p, d).len() == 0
            &&& rest_preferred(p, d + 1) == rest_preferred(p, d)
            &&& rest_other(p, q, d).len() > 0
            &&& rest_other(p, q, d)[0] == (p + q)[d]
            &&& rest_other(p, q, d).drop_first() == rest_other(p, q, d + 1)
        },
{
    if d < p.len() {
        assert(rest_preferred(p, d).drop_first() =~= rest_preferred(p, d + 1));
    } else {
        assert(rest_preferred(p, d) =~= Seq::<Task>::empty());
        assert(rest_preferred(p, d + 1) =~= Seq::<Task>::empty());
        assert(rest_other(p, q, d).drop_first() =~= rest_other(p, q, d + 1));
    }
}

proof fn lemma_rest_concat(p: Seq<Task>, q: Seq<Task>, d: int)
    requires
        0 <= d <= p.len() + q.len(),
    ensures
        rest_preferred(p, d) + rest_other(p, q, d) == (p + q).skip(d),
{
    assert(rest_preferred(p, d) + rest_other(p, q, d) =~= (p + q).skip(d));
}

proof fn lemma_total_cost_step(ts: Seq<Task>, d: int)
    requires
        0 <= d < ts.len(),
    ensures
        total_cost(ts.take(d + 1)) == total_cost(ts.take(d)) + ts[d].cpu_percent,
        total_cost(ts.take(d)) >= 0,
{
    assert(ts.take(d + 1).drop_last() =~= ts.take(d));
    lemma_total_cost_nonneg(ts.take(d));
}

proof fn lemma_total_cost_nonneg(ts: Seq<Task>)
    ensures
        total_cost(ts) >= 0,
    decreases ts.len(),
{
    if ts.len() > 0 {
        lemma_total_cost_nonneg(ts.drop_last());
    }
}

proof fn lemma_wrapping_add_one(b: usize, d: int)
    requires
        d >= 0,
    ensures
        vstd::wrapping::usize_specs::wrapping_add(usize_wrapping_add(b, d), 1) == usize_wrapping_add(
            b,
            d + 1,
        ),
{
    let r = usize::MAX + 1;
    let x = (b + d) % r;
    vstd::arithmetic::div_mod::lemma_add_mod_noop(b + d, 1, r);
    vstd::arithmetic::div_mod::lemma_small_mod(1, r as nat);
    if x + 1 < r {
        vstd::arithmetic::div_mod::lemma_small_mod((x + 1) as nat, r as nat);
    } else {
        vstd::arithmetic::div_mod::lemma_mod_self_0(r);
    }
}

/// Takes the next waiting task in policy order off the head of its queue.
fn take_head(policy: Policy, cpu_queue: &mut Vec<Task>, io_queue: &mut Vec<Task>) -> (t: Option<Task>)
    ensures
        preferred(policy, old(cpu_queue)@, old(io_queue)@).len() > 0 ==> {
            &&& t == Some(preferred(policy, old(cpu_queue)@, old(io_queue)@)[0])
            &&& preferred(policy, final(cpu_queue)@, final(io_queue)@) == preferred(
                policy,
                old(cpu_queue)@,
                old(io_queue)@,
            ).drop_first()
            &&& other(policy, final(cpu_queue)@, final(io_queue)@) == other(
                policy,
                old(cpu_queue)@,
                old(io_queue)@,
            )
        },
        preferred(policy, old(cpu_queue)@, old(io_queue)@).len() == 0 && other(
            policy,
            old(cpu_queue)@,
            old(io_queue)@,
        ).len() > 0 ==> {
            &&& t == Some(other(policy, old(cpu_queue)@, old(io_queue)@)[0])
            &&& preferred(policy, final(cpu_queue)@, final(io_queue)@) == preferred(
                policy,
                old(cpu_queue)@,
                old(io_queue)@,
            )
            &&& other(policy, final(cpu_queue)@, final(io_queue)@) == other(
                policy,
                old(cpu_queue)@,
                old(io_queue)@,
            ).drop_first()
        },
        preferred(policy, old(cpu_queue)@, old(io_queue)@).len() == 0 && other(
            policy,
            old(cpu_queue)@,
            old(io_queue)@,
        ).len() == 0 ==> {
            &&& t is None
            &&& final(cpu_queue)@ == old(cpu_queue)@
            &&& final(io_queue)@ == old(io_queue)@
        },
{
    let ghost c0 = cpu_queue@;
    let ghost i0 = io_queue@;
    match policy {
        Policy::Fifo => {
            if !cpu_queue.is_empty() {
                let t = cpu_queue.remove(0);
                assert(cpu_queue@ =~= c0.drop_first());
                Some(t)
            } else if !io_queue.is_empty() {
                let t = io_queue.remove(0);
                assert(io_queue@ =~= i0.drop_first());
                Some(t)
            } else {
                None
            }
        },
        Policy::Optimized => {
            if !io_queue.is_empty() {
                let t = io_queue.remove(0);
                assert(io_queue@ =~= i0.drop_first());
                Some(t)
            } else if !cpu_queue.is_empty() {
                let t = cpu_queue.remove(0);
                assert(cpu_queue@ =~= c0.drop_first());
                Some(t)
            } else {
                None
            }
        },
    }
}

/// Puts a task back at the head of the queue of its kind.
fn put_back(task: Task, cpu_queue: &mut Vec<Task>, io_queue: &mut Vec<Task>)
    ensures
        task.kind == TaskKind::Cpu ==> final(cpu_queue)@ == old(cpu_queue)@.insert(0, task)
            && final(io_queue)@ == old(io_queue)@,
        task.kind == TaskKind::Io ==> final(io_queue)@ == old(io_queue)@.insert(0, task)
            && final(cpu_queue)@ == old(cpu_queue)@,
{
    match task.kind {
        TaskKind::Cpu => cpu_queue.insert(0, task),
        TaskKind::Io => io_queue.insert(0, task),
    }
}

/// The manager's working state; [`Manager`] keeps it well formed.
struct State {
    cpu_queue: Vec<Task>,
    io_queue: Vec<Task>,
    worker_free: Vec<bool>,
    next_worker: usize,
    completed: usize,
    expected: usize,
    cpu_percent: u32,
    busy_workers: usize,
    running: Ghost<Seq<Option<Task>>>,
}

impl View for State {
    type V = ManagerView;

    closed spec fn view(&self) -> ManagerView {
        ManagerView {
            cpu_queue: self.cpu_queue@,
            io_queue: self.io_queue@,
            worker_free: self.worker_free@,
            next_worker: self.next_worker,
            completed: self.completed,
            expected: self.expected,
            cpu_percent: self.cpu_percent,
            busy_workers: self.busy_workers,
            running: self.running@,
        }
    }
}

impl State {
    fn placeholder() -> (s: Self)
        ensures
            s@.wf(),
            s@ == (ManagerView {
                cpu_queue: Seq::<Task>::empty(),
                io_queue: Seq::<Task>::empty(),
                worker_free: Seq::<bool>::empty(),
                next_worker: 0,
                completed: 0,
                expected: 0,
                cpu_percent: 0,
                busy_workers: 0,
                running: Seq::<Option<Task>>::empty(),
            }),
    {
        State {
            cpu_queue: Vec::new(),
            io_queue: Vec::new(),
            worker_free: Vec::new(),
            next_worker: 0,
            completed: 0,
            expected: 0,
            cpu_percent: 0,
            busy_workers: 0,
            running: Ghost(Seq::empty()),
        }
    }

    fn enqueue(&mut self, task: Task)
        requires
            old(self)@.wf(),
        ensures
            final(self)@ == after_arrival(old(self)@, task),
            final(self)@.wf(),
            old(self)@.in_balance() && task.wf() ==> final(self)@.in_balance(),
    {
        let ghost v = self@;
        match task.kind {
            TaskKind::Cpu => self.cpu_queue.push(task),
            TaskKind::Io => self.io_queue.push(task),
        }
        proof {
            if v.in_balance() && task.wf() {
                assert forall|i: int| 0 <= i < self@.cpu_queue.len() implies (#[trigger] self@.cpu_queue[i]).wf() by {
                    if i < v.cpu_queue.len() {
                        assert(self@.cpu_queue[i] == v.cpu_queue[i]);
                    }
                }
                assert forall|i: int| 0 <= i < self@.io_queue.len() implies (#[trigger] self@.io_queue[i]).wf() by {
                    if i < v.io_queue.len() {
                        assert(self@.io_queue[i] == v.io_queue[i]);
                    }
                }
            }
        }
    }

    fn complete(&mut self, report: &CompletionReport)
        requires
            old(self)@.wf(),
            old(self)@.completed < usize::MAX,
        ensures
            final(self)@ == after_completion(old(self)@, *report),
            final(self)@.wf(),
            old(self)@.in_balance() && report_matches(old(self)@, *report) ==> final(self)@.in_balance(),
    {
        let ghost v = self@;
        self.completed = self.completed + 1;
        if report.worker_id < self.worker_free.len() {
            self.worker_free.set(report.worker_id, true);
            proof {
                self.running@ = self.running@.update(report.worker_id as int, None);
            }
        }
        self.busy_workers = self.busy_workers.wrapping_sub(1);
        self.cpu_percent = self.cpu_percent.wrapping_sub(report.kind.cost());
        proof {
            if v.in_balance() && report_matches(v, *report) {
                let w = report.worker_id as int;
                lemma_running_update(v.running, w, None);
                lemma_running_bounds(self.running@);
                assert(opt_wf(v.running[w]));
                assert forall|x: int| 0 <= x < self@.worker_free.len() implies (#[trigger] self@.worker_free[x]
                    <==> self@.running[x] is None) by {
                    if x != w {
                        assert(v.worker_free[x] <==> v.running[x] is None);
                    }
                }
                assert forall|x: int| 0 <= x < self@.running.len() implies opt_wf(#[trigger] self@.running[x]) by {
                    if x != w {
                        assert(opt_wf(v.running[x]));
                    }
                }
            }
        }
    }

    fn dispatch_round(&mut self, policy: Policy) -> (out: Vec<Assignment>)
        requires
            old(self)@.wf(),
        ensures
            final(self)@.wf(),
            round_outcome(old(self)@, policy, out@, final(self)@),
            old(self)@.in_balance() ==> final(self)@.in_balance(),
    {
        let ghost v = self@;
        let ghost p = preferred(policy, v.cpu_queue, v.io_queue);
        let ghost q = other(policy, v.cpu_queue, v.io_queue);
        let ghost waiting = p + q;
        let ghost w0 = v.worker_free;
        let ghost start = v.next_worker as int;
        let ghost cpu0 = v.cpu_percent;
        let ghost busy0 = v.busy_workers;
        let n = self.worker_free.len();
        let mut out: Vec<Assignment> = Vec::new();
        let mut i: usize = 0;
        if n == 0 {
            proof {
                assert(mark_busy(w0, free_visited(w0, start, 0).take(0)) == w0);
                assert(rest_preferred(p, 0) =~= p);
                assert(waiting.take(0) =~= Seq::<Task>::empty());
                assert(((busy0 + 0) % (usize::MAX + 1)) == busy0) by {
                    vstd::arithmetic::div_mod::lemma_small_mod(busy0 as nat, (usize::MAX + 1) as nat);
                }
            }
            return out;
        }
        proof {
            assert(waiting.take(0) =~= Seq::<Task>::empty());
            assert(rest_preferred(p, 0) =~= p);
            assert(free_visited(w0, start, 0).take(0) =~= Seq::<usize>::empty());
            if v.in_balance() {
                assert forall|j: int| 0 <= j < waiting.len() implies (#[trigger] waiting[j]).wf() by {
                    if j < p.len() {
                        assert(waiting[j] == p[j]);
                    } else {
                        assert(waiting[j] == q[j - p.len()]);
                    }
                }
            }
            vstd::arithmetic::div_mod::lemma_small_mod(busy0 as nat, (usize::MAX + 1) as nat);
        }
        while i < n
            invariant
                n == w0.len(),
                0 <= start < n,
                i <= n,
                self.worker_free@.len() == n,
                self.next_worker as int == visit(start, n as int, i as int),
                self.completed == v.completed,
                self.expected == v.expected,
                forall|j: int| 0 <= j < p.len() ==> #[trigger] p[j].kind == preferred_kind(policy),
                forall|j: int| 0 <= j < q.len() ==> #[trigger] q[j].kind != preferred_kind(policy),
                p == preferred(policy, v.cpu_queue, v.io_queue),
                q == other(policy, v.cpu_queue, v.io_queue),
                waiting == p + q,
                out@.len() <= free_visited(w0, start, i as nat).len(),
                out@.len() <= waiting.len(),
                out@.len() == free_visited(w0, start, i as nat).len() || out@.len() == waiting.len()
                    || cpu0 + total_cost(waiting.take(out@.len() + 1int)) > CPU_CAP_PERCENT,
                out@.len() == 0 || cpu0 + total_cost(waiting.take(out@.len() as int)) <= CPU_CAP_PERCENT,
                self.cpu_percent == cpu0 + total_cost(waiting.take(out@.len() as int)),
                forall|j: int|
                    0 <= j < out@.len() ==> #[trigger] out@[j] == (Assignment {
                        worker_id: free_visited(w0, start, i as nat)[j],
                        task: waiting[j],
                    }),
                self.worker_free@ == mark_busy(w0, free_visited(w0, start, i as nat).take(out@.len() as int)),
                self.busy_workers == usize_wrapping_add(busy0, out@.len() as int),
                preferred(policy, self.cpu_queue@, self.io_queue@) == rest_preferred(p, out@.len() as int),
                other(policy, self.cpu_queue@, self.io_queue@) == rest_other(p, q, out@.len() as int),
                self.running@ == assign_running(v.running, out@),
                self.running@.len() == n,
                v.in_balance() ==> forall|j: int| 0 <= j < waiting.len() ==> (#[trigger] waiting[j]).wf(),
                v.in_balance() ==> {
                    &&& forall|w: int|
                        0 <= w < n ==> (#[trigger] self.worker_free@[w] <==> self.running@[w] is None)
                    &&& forall|w: int| 0 <= w < n ==> opt_wf(#[trigger] self.running@[w])
                    &&& self.cpu_percent == running_load(self.running@)
                    &&& self.busy_workers == running_count(self.running@)
                },
            decreases n - i,
        {
            let ghost fv = free_visited(w0, start, i as nat);
            let ghost d = out@.len() as int;
            proof {
                lemma_visit(start, n as int, i as int);
                lemma_free_visited(w0, start, i as nat);
                lemma_free_visited(w0, start, (i + 1) as nat);
                lemma_mark_busy(w0, fv.take(d));
                assert forall|j: int| 0 <= j < fv.take(d).len() implies fv.take(d)[j] != visit(
                    start,
                    n as int,
                    i as int,
                ) by {
                    assert(fv.take(d)[j] == fv[j]);
                }
            }
            let worker_id = self.next_worker;
            self.next_worker = (self.next_worker + 1) % n;
            let ghost fv1 = free_visited(w0, start, (i + 1) as nat);
            if self.worker_free[worker_id] {
                assert(fv1 == fv.push(worker_id));
                let ghost cq = self.cpu_queue@;
                let ghost iq = self.io_queue@;
                let maybe_task = take_head(policy, &mut self.cpu_queue, &mut self.io_queue);
                proof {
                    if d < waiting.len() {
                        lemma_rest_step(p, q, d);
                    }
                    if d == waiting.len() {
                        assert(rest_preferred(p, d) =~= Seq::<Task>::empty());
                        assert(rest_other(p, q, d) =~= Seq::<Task>::empty());
                    }
                }
                match maybe_task {
                    Some(task) => {
                        assert(d < waiting.len());
                        assert(task == waiting[d]);
                        proof {
                            lemma_total_cost_step(waiting, d);
                        }
                        if self.cpu_percent.saturating_add(task.cpu_percent) > CPU_CAP_PERCENT {
                            proof {
                                if d < p.len() {
                                    assert(task.kind == preferred_kind(policy));
                                } else {
                                    assert(q[d - p.len()] == waiting[d]);
                                    assert(task.kind != preferred_kind(policy));
                                }
                            }
                            put_back(task, &mut self.cpu_queue, &mut self.io_queue);
                            proof {
                                assert(preferred(policy, self.cpu_queue@, self.io_queue@) =~= rest_preferred(p, d));
                                assert(other(policy, self.cpu_queue@, self.io_queue@) =~= rest_other(p, q, d));
                                assert(fv1.take(d) =~= fv.take(d));
                            }
                        } else {
                            self.cpu_percent = self.cpu_percent + task.cpu_percent;
                            self.worker_free.set(worker_id, false);
                            proof {
                                lemma_wrapping_add_one(busy0, d);
                                assert(fv1.take(d + 1).drop_last() =~= fv.take(d));
                                assert(d == fv.len());
                            }
                            proof {
                                let r = self.running@;
                                lemma_running_update(r, worker_id as int, Some(task));
                                lemma_running_bounds(r.update(worker_id as int, Some(task)));
                                self.running@ = r.update(worker_id as int, Some(task));
                            }
                            self.busy_workers = self.busy_workers.wrapping_add(1);
                            let ghost out_before = out@;
                            out.push(Assignment { worker_id, task });
                            proof {
                                assert(out@.drop_last() =~= out_before);
                                if v.in_balance() {
                                    assert forall|x: int| 0 <= x < n implies (#[trigger] self.worker_free@[x]
                                        <==> self.running@[x] is None) by {}
                                    assert forall|x: int| 0 <= x < n implies opt_wf(#[trigger] self.running@[x]) by {}
                                }
                                assert forall|j: int| 0 <= j < out@.len() implies #[trigger] out@[j] == (Assignment {
                                    worker_id: fv1[j],
                                    task: waiting[j],
                                }) by {
                                    if j < d {
                                        assert(fv1[j] == fv[j]);
                                    }
                                }
                            }
                        }
                    },
                    None => {
                        proof {
                            assert(fv1.take(d) =~= fv.take(d));
                        }
                    },
                }
            } else {
                assert(fv1 == fv);
            }
            i = i + 1;
        }
        proof {
            lemma_visit(start, n as int, 0);
            let m = out@.len() as int;
            if v.in_balance() {
                assert(waiting.take(0) =~= Seq::<Task>::empty());
                lemma_rest_concat(p, q, m);
                let rest = waiting.skip(m);
                assert forall|j: int| 0 <= j < rest.len() implies (#[trigger] rest[j]).wf() by {
                    assert(rest[j] == waiting[j + m]);
                }
                let rp = rest_preferred(p, m);
                let ro = rest_other(p, q, m);
                assert(rp + ro == rest);
                assert forall|j: int| 0 <= j < rp.len() implies (#[trigger] rp[j]).wf() by {
                    assert(rp[j] == rest[j]);
                }
                assert forall|j: int| 0 <= j < ro.len() implies (#[trigger] ro[j]).wf() by {
                    assert(ro[j] == rest[j + rp.len()]);
                }
                assert(self@.in_balance());
            }
        }
        out
    }
}

/// The laws of a dispatch round, for any well-formed state: the CPU load never
/// rises above the cap when it was within it; the tasks handed out followed by the
/// tasks still waiting are the tasks that were waiting, in policy order (nothing is
/// lost, duplicated or reordered); a free worker is left idle only when nothing
/// waits or the next waiting task would break the cap; a task of the other queue is
/// handed out only once the preferred queue has been emptied; each task goes to a
/// distinct worker that was free and is now busy, and every other worker is as it
/// was.
pub proof fn lemma_round_laws(v: ManagerView, policy: Policy, out: Seq<Assignment>, f: ManagerView)
    requires
        v.wf(),
        v.worker_free.len() <= usize::MAX,
        round_outcome(v, policy, out, f),
    ensures
        v.cpu_percent <= CPU_CAP_PERCENT ==> f.cpu_percent <= CPU_CAP_PERCENT,
        Seq::new(out.len(), |j: int| out[j].task) + pending(policy, f.cpu_queue, f.io_queue)
            == pending(policy, v.cpu_queue, v.io_queue),
        out.len() < free_in_round_order(v).len() ==> pending(policy, f.cpu_queue, f.io_queue).len() == 0
            || f.cpu_percent + pending(policy, f.cpu_queue, f.io_queue)[0].cpu_percent > CPU_CAP_PERCENT,
        forall|j: int|
            0 <= j < out.len() && (#[trigger] out[j]).task.kind != preferred_kind(policy)
                ==> preferred(policy, f.cpu_queue, f.io_queue).len() == 0,
        forall|j: int|
            0 <= j < out.len() ==> {
                let w = (#[trigger] out[j]).worker_id as int;
                &&& 0 <= w < v.worker_free.len()
                &&& v.worker_free[w]
                &&& !f.worker_free[w]
            },
        forall|j1: int, j2: int|
            0 <= j1 < j2 < out.len() ==> (#[trigger] out[j1]).worker_id != (#[trigger] out[j2]).worker_id,
        f.worker_free.len() == v.worker_free.len(),
        forall|w: int|
            0 <= w < v.worker_free.len() && (forall|j: int| 0 <= j < out.len() ==> out[j].worker_id != w)
                ==> #[trigger] f.worker_free[w] == v.worker_free[w],
{
    let order = free_in_round_order(v);
    let waiting = pending(policy, v.cpu_queue, v.io_queue);
    let p = preferred(policy, v.cpu_queue, v.io_queue);
    let q = other(policy, v.cpu_queue, v.io_queue);
    let m = out.len() as int;
    let n = v.worker_free.len();
    lemma_total_cost_nonneg(waiting.take(m));
    lemma_rest_concat(p, q, m);
    assert(Seq::new(out.len(), |j: int| out[j].task) =~= waiting.take(m)) by {
        assert forall|j: int| 0 <= j < m implies out[j].task == waiting[j] by {
            assert(out[j] == (Assignment { worker_id: order[j], task: waiting[j] }));
        }
    }
    assert(waiting.take(m) + waiting.skip(m) =~= waiting);
    if m < order.len() && m < waiting.len() {
        lemma_total_cost_step(waiting, m);
        assert(pending(policy, f.cpu_queue, f.io_queue)[0] == waiting.skip(m)[0]);
    }
    assert forall|j: int|
        0 <= j < out.len() && (#[trigger] out[j]).task.kind != preferred_kind(policy)
            implies preferred(policy, f.cpu_queue, f.io_queue).len() == 0 by {
        assert(out[j] == (Assignment { worker_id: order[j], task: waiting[j] }));
        if j < p.len() {
            assert(waiting[j] == p[j]);
        }
    }
    if n == 0 {
        assert(order.len() == 0);
        assert(f.worker_free == v.worker_free);
    } else {
        lemma_free_visited(v.worker_free, v.next_worker as int, n);
        let taken = order.take(m);
        assert forall|j: int| 0 <= j < taken.len() implies #[trigger] taken[j] < v.worker_free.len() by {
            assert(taken[j] == order[j]);
        }
        lemma_mark_busy(v.worker_free, taken);
        assert forall|j: int| 0 <= j < out.len() implies {
            let w = (#[trigger] out[j]).worker_id as int;
            &&& 0 <= w < v.worker_free.len()
            &&& v.worker_free[w]
            &&& !f.worker_free[w]
        } by {
            assert(out[j] == (Assignment { worker_id: order[j], task: waiting[j] }));
            assert(taken[j] == order[j]);
        }
        assert forall|j1: int, j2: int| 0 <= j1 < j2 < out.len() implies (#[trigger] out[j1]).worker_id
            != (#[trigger] out[j2]).worker_id by {
            assert(out[j1] == (Assignment { worker_id: order[j1], task: waiting[j1] }));
            assert(out[j2] == (Assignment { worker_id: order[j2], task: waiting[j2] }));
        }
        assert forall|w: int|
            0 <= w < v.worker_free.len() && (forall|j: int| 0 <= j < out.len() ==> out[j].worker_id != w)
                implies #[trigger] f.worker_free[w] == v.worker_free[w] by {
            assert forall|j: int| 0 <= j < taken.len() implies taken[j] != w by {
                assert(out[j] == (Assignment { worker_id: order[j], task: waiting[j] }));
                assert(out[j].worker_id != w);
            }
        }
    }
}

/// Queuing is first-in first-out and loses nothing: an arrived task goes to the
/// back of the queue of its kind, which grows by exactly one and keeps every older
/// task in front in its order; the other queue, the workers and every counter
/// stay as they were, and one more task waits in all.
pub proof fn lemma_arrival_appends(v: ManagerView, task: Task)
    ensures
        ({
            let f = after_arrival(v, task);
            let (old_q, new_q, old_r, new_r) = match task.kind {
                TaskKind::Cpu => (v.cpu_queue, f.cpu_queue, v.io_queue, f.io_queue),
                TaskKind::Io => (v.io_queue, f.io_queue, v.cpu_queue, f.cpu_queue),
            };
            &&& new_q.len() == old_q.len() + 1
            &&& new_q[old_q.len() as int] == task
            &&& forall|i: int| 0 <= i < old_q.len() ==> #[trigger] new_q[i] == old_q[i]
            &&& new_r == old_r
            &&& f.cpu_queue.len() + f.io_queue.len() == v.cpu_queue.len() + v.io_queue.len() + 1
            &&& f.worker_free == v.worker_free
            &&& f.running == v.running
            &&& f.next_worker == v.next_worker
            &&& f.completed == v.completed
            &&& f.expected == v.expected
            &&& f.cpu_percent == v.cpu_percent
            &&& f.busy_workers == v.busy_workers
        }),
{
}

/// Taking in a completion report counts exactly one more completion and never
/// changes how many tasks the run expects; the queues and the round-robin position
/// stay as they were.
pub proof fn lemma_completion_counts(v: ManagerView, report: CompletionReport)
    requires
        v.completed < usize::MAX,
    ensures
        after_completion(v, report).completed == v.completed + 1,
        after_completion(v, report).expected == v.expected,
        after_completion(v, report).cpu_queue == v.cpu_queue,
        after_completion(v, report).io_queue == v.io_queue,
        after_completion(v, report).next_worker == v.next_worker,
{
}

/// A completion report gives back what its task held: where the report names a
/// worker and the counters hold at least the task's load and one busy worker, the
/// worker is free again and the load and the busy count go down by exactly that
/// much, without wrapping; the queues and the round-robin position stay as they
/// were.
pub proof fn lemma_completion_releases(v: ManagerView, report: CompletionReport)
    requires
        report.worker_id < v.worker_free.len(),
        v.cpu_percent >= kind_cost(report.kind),
        v.busy_workers >= 1,
        v.completed < usize::MAX,
    ensures
        after_completion(v, report).worker_free[report.worker_id as int],
        after_completion(v, report).cpu_percent == v.cpu_percent - kind_cost(report.kind),
        after_completion(v, report).busy_workers == v.busy_workers - 1,
        after_completion(v, report).completed == v.completed + 1,
        after_completion(v, report).cpu_queue == v.cpu_queue,
        after_completion(v, report).io_queue == v.io_queue,
        after_completion(v, report).next_worker == v.next_worker,
{
}

/// Handing out a single task and then taking in its completion report leaves the
/// CPU load, the busy count and every worker's flag as they were before the round;
/// the task has left the waiting tasks and one more completion is counted.
pub proof fn lemma_dispatch_then_complete_restores(
    v: ManagerView,
    policy: Policy,
    out: Seq<Assignment>,
    f: ManagerView,
    report: CompletionReport,
)
    requires
        v.wf(),
        v.worker_free.len() <= usize::MAX,
        round_outcome(v, policy, out, f),
        out.len() == 1,
        out[0].task.wf(),
        report.worker_id == out[0].worker_id,
        report.kind == out[0].task.kind,
        f.completed < usize::MAX,
    ensures
        after_completion(f, report).cpu_percent == v.cpu_percent,
        after_completion(f, report).busy_workers == v.busy_workers,
        after_completion(f, report).worker_free == v.worker_free,
        after_completion(f, report).completed == v.completed + 1,
        pending(policy, after_completion(f, report).cpu_queue, after_completion(f, report).io_queue)
            == pending(policy, v.cpu_queue, v.io_queue).drop_first(),
{
    lemma_round_laws(v, policy, out, f);
    let order = free_in_round_order(v);
    let waiting = pending(policy, v.cpu_queue, v.io_queue);
    let w = out[0].worker_id as int;
    assert(out[0] == (Assignment { worker_id: order[0], task: waiting[0] }));
    assert(waiting.take(1).drop_last() =~= waiting.take(0));
    assert(waiting.take(0) =~= Seq::<Task>::empty());
    assert(total_cost(waiting.take(0)) == 0);
    assert(waiting.take(1).last() == waiting[0]);
    assert(total_cost(waiting.take(1)) == waiting[0].cpu_percent);
    assert(f.cpu_percent == v.cpu_percent + kind_cost(report.kind));
    assert(order.take(1).drop_last() =~= order.take(0));
    assert(order.take(0) =~= Seq::<usize>::empty());
    assert(f.worker_free == v.worker_free.update(w, false));
    assert(v.worker_free.update(w, false).update(w, true) =~= v.worker_free);
    let r = usize::MAX + 1;
    if v.busy_workers + 1 < r {
        vstd::arithmetic::div_mod::lemma_small_mod((v.busy_workers + 1) as nat, r as nat);
    } else {
        vstd::arithmetic::div_mod::lemma_mod_self_0(r);
    }
    assert(Seq::new(out.len(), |j: int| out[j].task) =~= seq![waiting[0]]);
    assert(pending(policy, f.cpu_queue, f.io_queue) =~= waiting.drop_first());
}

/// The manager's bookkeeping: the two queues of waiting tasks, which workers are
/// free, the round-robin position, the completion count, and the CPU load and busy
/// count that the monitor reads.
pub struct Manager {
    state: State,
}

impl View for Manager {
    type V = ManagerView;

    closed spec fn view(&self) -> ManagerView {
        self.state@
    }
}

impl Manager {
    #[verifier::type_invariant]
    closed spec fn inv(self) -> bool {
        self.state@.wf()
    }

    /// The state of a run with `num_workers` free workers and `num_tasks` tasks to
    /// complete: nothing queued, nothing running.
    pub fn new(num_workers: usize, num_tasks: u64) -> (m: Self)
        ensures
            m@.wf(),
            m@.cpu_queue == Seq::<Task>::empty(),
            m@.io_queue == Seq::<Task>::empty(),
            m@.worker_free == Seq::new(num_workers as nat, |w: int| true),
            m@.next_worker == 0,
            m@.completed == 0,
            m@.expected == num_tasks as usize,
            m@.cpu_percent == 0,
            m@.busy_workers == 0,
            m@.running == Seq::new(num_workers as nat, |w: int| None::<Task>),
            m@.in_balance(),
    {
        let mut worker_free: Vec<bool> = Vec::new();
        let mut w: usize = 0;
        while w < num_workers
            invariant
                w <= num_workers,
                worker_free@ == Seq::new(w as nat, |i: int| true),
            decreases num_workers - w,
        {
            worker_free.push(true);
            w = w + 1;
        }
        let m = Manager {
            state: State {
                cpu_queue: Vec::new(),
                io_queue: Vec::new(),
                worker_free,
                next_worker: 0,
                completed: 0,
                expected: num_tasks as usize,
                cpu_percent: 0,
                busy_workers: 0,
                running: Ghost(Seq::new(num_workers as nat, |w: int| None::<Task>)),
            },
        };
        proof {
            lemma_none_running(num_workers as nat);
        }
        m
    }

    /// Queues an arrived task behind the others of its kind.
    pub fn enqueue(&mut self, task: Task)
        ensures
            final(self)@ == after_arrival(old(self)@, task),
            final(self)@.wf(),
            old(self)@.in_balance() && task.wf() ==> final(self)@.in_balance(),
            task.kind == TaskKind::Cpu ==> final(self)@.cpu_queue == old(self)@.cpu_queue.push(task)
                && final(self)@.io_queue == old(self)@.io_queue,
            task.kind == TaskKind::Io ==> final(self)@.io_queue == old(self)@.io_queue.push(task)
                && final(self)@.cpu_queue == old(self)@.cpu_queue,
            final(self)@.expected == old(self)@.expected,
            final(self)@.completed == old(self)@.completed,
    {
        proof {
            use_type_invariant(&*self);
        }
        let mut st = State::placeholder();
        std::mem::swap(&mut st, &mut self.state);
        st.enqueue(task);
        self.state = st;
    }

    /// Takes in a worker's completion report: one more task completed, the worker
    /// free again, and the task's load and the worker taken off the counters (which
    /// wrap around, as the shared counters do).  Returns whether every expected task
    /// has now completed.
    pub fn complete(&mut self, report: &CompletionReport) -> (done: bool)
        requires
            old(self)@.completed < usize::MAX,
        ensures
            final(self)@ == after_completion(old(self)@, *report),
            final(self)@.wf(),
            old(self)@.in_balance() && report_matches(old(self)@, *report) ==> final(self)@.in_balance(),
            final(self)@.completed == old(self)@.completed + 1,
            final(self)@.expected == old(self)@.expected,
            final(self)@.cpu_queue == old(self)@.cpu_queue,
            final(self)@.io_queue == old(self)@.io_queue,
            done == (old(self)@.completed + 1 >= old(self)@.expected),
    {
        proof {
            use_type_invariant(&*self);
        }
        let mut st = State::placeholder();
        std::mem::swap(&mut st, &mut self.state);
        st.complete(report);
        self.state = st;
        self.state.completed >= self.state.expected
    }

    /// One dispatch round under `policy`: looks at every worker once, from the
    /// round-robin position on, and hands each free one the next waiting task in
    /// policy order while that task fits under the CPU cap.  Returns the tasks handed
    /// out, with their workers, in the order they were handed out.
    pub fn dispatch_round(&mut self, policy: Policy) -> (out: Vec<Assignment>)
        ensures
            final(self)@.wf(),
            round_outcome(old(self)@, policy, out@, final(self)@),
            old(self)@.in_balance() ==> final(self)@.in_balance(),
            final(self)@.expected == old(self)@.expected,
            final(self)@.completed == old(self)@.completed,
            final(self)@.next_worker == old(self)@.next_worker,
            old(self)@.cpu_percent <= CPU_CAP_PERCENT ==> final(self)@.cpu_percent <= CPU_CAP_PERCENT,
            forall|j: int|
                0 <= j < out@.len() && (#[trigger] out@[j]).task.kind != preferred_kind(policy)
                    ==> preferred(policy, final(self)@.cpu_queue, final(self)@.io_queue).len() == 0,
            forall|j: int|
                0 <= j < out@.len() ==> {
                    let w = (#[trigger] out@[j]).worker_id as int;
                    &&& 0 <= w < old(self)@.worker_free.len()
                    &&& old(self)@.worker_free[w]
                    &&& !final(self)@.worker_free[w]
                },
            forall|j1: int, j2: int|
                0 <= j1 < j2 < out@.len() ==> (#[trigger] out@[j1]).worker_id != (#[trigger] out@[j2]).worker_id,
            forall|w: int|
                0 <= w < old(self)@.worker_free.len() && (forall|j: int|
                    0 <= j < out@.len() ==> out@[j].worker_id != w) ==> #[trigger] final(self)@.worker_free[w]
                    == old(self)@.worker_free[w],
            Seq::new(out@.len(), |j: int| out@[j].task) + pending(
                policy,
                final(self)@.cpu_queue,
                final(self)@.io_queue,
            ) == pending(policy, old(self)@.cpu_queue, old(self)@.io_queue),
            out@.len() < free_in_round_order(old(self)@).len() ==> pending(
                policy,
                final(self)@.cpu_queue,
                final(self)@.io_queue,
            ).len() == 0 || final(self)@.cpu_percent + pending(
                policy,
                final(self)@.cpu_queue,
                final(self)@.io_queue,
            )[0].cpu_percent > CPU_CAP_PERCENT,
    {
        proof {
            use_type_invariant(&*self);
        }
        let ghost before = self@;
        assert(before.worker_free.len() == self.state.worker_free.len());
        let mut st = State::placeholder();
        std::mem::swap(&mut st, &mut self.state);
        let out = st.dispatch_round(policy);
        proof {
            lemma_round_laws(old(self)@, policy, out@, st@);
        }
        self.state = st;
        out
    }

    /// Whether every expected task has completed.
    pub fn is_complete(&self) -> (b: bool)
        ensures
            b == (self@.completed >= self@.expected),
    {
        self.state.completed >= self.state.expected
    }

    /// Whether the run is over: the generator has stopped, nothing is queued and
    /// every worker is free.
    pub fn is_drained(&self, generator_done: bool) -> (b: bool)
        ensures
            b == (generator_done && self@.cpu_queue.len() == 0 && self@.io_queue.len() == 0
                && self@.all_free()),
    {
        if !generator_done || !self.state.cpu_queue.is_empty() || !self.state.io_queue.is_empty() {
            return false;
        }
        let mut w: usize = 0;
        while w < self.state.worker_free.len()
            invariant
                w <= self@.worker_free.len(),
                self@.worker_free == self.state.worker_free@,
                forall|v: int| 0 <= v < w ==> #[trigger] self@.worker_free[v],
            decreases self@.worker_free.len() - w,
        {
            if !self.state.worker_free[w] {
                return false;
            }
            w = w + 1;
        }
        true
    }

    /// The CPU load of the running tasks, in percent.
    pub fn cpu_percent(&self) -> (c: u32)
        ensures
            c == self@.cpu_percent,
    {
        self.state.cpu_percent
    }

    /// The number of busy workers.
    pub fn busy_workers(&self) -> (b: usize)
        ensures
            b == self@.busy_workers,
    {
        self.state.busy_workers
    }

    /// What the monitor reads off the counters now.
    pub fn sample(&self) -> (s: MonitorSample)
        ensures
            s == (MonitorSample { cpu_percent: self@.cpu_percent, active_workers: self@.busy_workers }),
    {
        MonitorSample { cpu_percent: self.state.cpu_percent, active_workers: self.state.busy_workers }
    }

    /// The number of completion reports taken in.
    pub fn completed(&self) -> (c: usize)
        ensures
            c == self@.completed,
    {
        self.state.completed
    }

    /// The number of waiting CPU-bound and IO-bound tasks.
    pub fn queued(&self) -> (c: (usize, usize))
        ensures
            c.0 == self@.cpu_queue.len(),
            c.1 == self@.io_queue.len(),
    {
        (self.state.cpu_queue.len(), self.state.io_queue.len())
    }

    /// Whether the given worker is free; `None` where there is no such worker.
    pub fn worker_is_free(&self, worker_id: usize) -> (b: Option<bool>)
        ensures
            b == (if worker_id < self@.worker_free.len() {
                Some(self@.worker_free[worker_id as int])
            } else {
                None
            }),
    {
        if worker_id < self.state.worker_free.len() {
            Some(self.state.worker_free[worker_id])
        } else {
            None
        }
    }
}

} // verus!
