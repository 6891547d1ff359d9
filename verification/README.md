# Durable execution runtime, verified core

A runtime for crash-recoverable agent executions: every LLM call and tool
run is a durable step whose outcome is recorded before the next step
begins, so that a restarted execution answers completed steps from its
history instead of running them again.

- `src/` is the library, checked by Verus: identifiers and hashes, the
  execution and step state machines, the write-ahead log format and its
  recovery, the in-memory execution log, the event-sourced state
  projection and replay decisions, step memoisation, DAG validation and
  levels, worker coordination, tool definitions and argument checks, the
  conversation history, JSON text (quoting, string and number tokens), and
  the decisions of the agent runtime (its loop as a state machine,
  confirmation gates, contract checks, compensation order) and of the
  background worker.
- `app/` is ordinary Rust around it: JSON values (which hold 64-bit
  floats), event stores in memory and on disk, file storage and journal
  files, the replay context that drives the event store, threads (DAG and
  coordinator runs, the thread pool, the worker loop), tool handlers and
  child processes, the agent runtime that drives the library's loop with
  an LLM client, its builder, the SDK mode over stdin and stdout, and the
  clock.
- `tests/` exercises the library from outside.
