# execution-policy

Reliability policies for operations that can fail, verified with Verus: retry with
backoff, jitter, delay hints and a retry budget; attempt and total timeouts; circuit
breaking; bounded concurrency; a watchdog on silence; ordered fallback and load balancing
over several targets.

## Layout

- `src/` is the library. It decides and does no I/O. Every function has a contract.
  - `engine` holds the course of a call as a machine of stages: `Arrival`, `Ready`,
    `Running`, `Failed`, `Due`, `Resting`. A step consumes the stage it leaves and takes
    what the world contributed as arguments.
  - `retry`, `breaker`, `concurrency`, `stall`, `fallback`, `router`, `pick`, `meter` and
    `member` hold the rules, each as a plain state with a mathematical model.
  - `double` compares IEEE 754 doubles by their bit patterns, so that ratios and scores
    behave as they do on the machine.
  - `time` and `runtime` hold spans, instants, clocks and random numbers.
- `app/` is the asynchronous front end: it runs operations, waits, reads the clock and
  shares the library's states between callers.
- `tests/` runs the library.

## What is stated

Contracts pin results down: a builder's result equals its argument with one field changed,
a transition's result is a function of the state before. Where a caller's closure decides,
the contract quantifies over its answers; where a clock or a random number does, it says
which reading or which numbers the core gave.

What holds over several calls is stated by the public proof functions whose names begin
with `law_`. Some of them:

- attempts are numbered from one and never exceed the cap;
- no wait reaches past the deadline, and no attempt but the first begins after it;
- a delay hint is a hard lower bound on the next delay;
- retries granted never exceed the burst plus what calls have deposited;
- an open breaker turns calls away until its time is up, and the reported state predicts
  what a call meets;
- permits are conserved, and callers are woken in the order in which they came;
- every member of a router is tried at most once, a permanent error ends the run, and
  round robin stays even;
- calls that meet the same world run alike, and equal seeds pick alike.
