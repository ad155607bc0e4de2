# sched_sim

A simulation of a task manager that hands CPU-bound and IO-bound tasks to a pool
of workers under a CPU cap, with two dispatch policies (CPU queue first, or IO
queue first), and the metrics of a run.

- `src/` is the library, verified with Verus:
  - `task.rs`: task kinds and loads, tasks, policies, workload configurations;
  - `manager.rs`: the manager's queues, workers and counters; dispatch rounds,
    arrivals and completions, with the laws of a round;
  - `metrics.rs`: completion reports, monitor samples, and the run's summary
    figures (counts, means, peak, run time).
- `app/` runs the simulation on threads with channels and sleeps, draws the task
  kinds at random, reads the clock and prints the summaries.
- `tests/` exercises the library on concrete runs.

Times handed to the library are nanoseconds from an origin that the caller picks.
