# claude_pilot

A verified library for planning and supervising coding missions: the
artifacts a planner produces (specification, plan, task breakdown), the
checks a plan must pass before execution, focus tracking while tasks run,
mission locks, the evidence report handed to the planner (in full or cut to a
token budget), and the reports written at the end.

- `src/` is the library, verified with Verus. Public functions state their
  results in `ensures`, except where a result rests on the machine: the
  handler that passes pause and cancel requests through shared atomics
  (`signal.rs`; its decisions on a loaded value are verified functions) and
  the probe of whether a process is running (`lifecycle.rs`; the decision
  on the probe's answer is verified). The public proof functions state the
  laws that relate several functions (for instance that normalising a path
  twice changes nothing, or that normalised task ids are distinct and every
  kept dependency names a task).
- `tests/` runs the library on concrete values.
- `app/` holds what Verus does not see: printing, lock and example files on
  disk, file-system checks, and the floating-point quality figures of the
  evidence and of the task breakdown.
