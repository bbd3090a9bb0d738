# mesh-supervisor

A distributed process-control and telemetry plane over an [iroh](https://iroh.computer)
(QUIC) peer-to-peer mesh, with its decisions verified in [Verus](https://github.com/verus-lang/verus).

Each node runs a **supervisor** that owns an iroh endpoint and the local child processes.
Other nodes act as **clients** that dial a supervisor by its id and issue control requests,
or as **watchers** that subscribe to the telemetry topic.

## Layout

`src/` is the verified library. It decides, and leaves the doing to its caller: it is handed
what happened, and hands back what to do.

| Module | What it decides |
|---|---|
| `proto` | the control plane's messages and their framing |
| `supervisor` | who may do what, where a request goes, and what the client is told |
| `ratelimit` | which peers are over their rate, and which buckets are dropped |
| `process` | the process table: spawn, exit, restart, stop, signal, input, forget, shutdown |
| `lifecycle` | what holds over the whole life of a process table |
| `store` | the transactions of the store file, and what its contents mean |
| `sandbox` | the steps that a child takes between fork and exec |
| `cgroup` | where control groups are made, how children are capped and counted |
| `telemetry` | signed ticks, their freshness and order, and what a watcher reports |
| `client` | retries, and what a reply means |
| `config`, `cli` | settings, command-line values, requests and rights from flags |
| `id`, `text`, `time` | ids and maps keyed by them, text, spans of time |

`app/` is the program around it: the command line, the endpoint, the store file, the control-group
file system, system calls, and the serialised forms of the messages.

`tests/` runs the library.

## What is proved

Every function of the library states what it returns and changes. Beyond that, among others:

- a message that is written is read, by a codec that reads back (`proto::messages_round_trip`);
- nobody is admitted unless a posture is chosen, and readers can only look
  (`supervisor::nobody_is_admitted_by_default`, `supervisor::only_controllers_change_the_table`);
- a stopped process is not launched again, and once it is down it never runs again, whatever happens
  after the stop (`lifecycle::stopped_stays_down`); a stale one never runs again
  (`lifecycle::stale_is_never_resurrected`), and a crash loop ends at its cap
  (`lifecycle::crash_loops_end_at_the_cap`);
- handles are not reused while a table lives (`lifecycle::handles_are_never_reused`);
- whatever is put, dropped and changed in the store, a load gives exactly the records that are left
  (`store::changes_are_held`, `store::what_is_held_is_loaded`), and the identity survives a restart
  (`store::identity_survives`);
- a child's environment is scrubbed (`lifecycle::environments_are_scrubbed`), and the last step of an
  isolated one hides the store's directory (`sandbox::stores_are_hidden_last`);
- no wait between retries is longer than the longest configured (`client::delays_are_bounded`);
- signed ticks open, forged ones do not, replays are dropped, and a lost tick loses nothing
  (`telemetry::signed_ticks_open`, `telemetry::forged_ticks_are_rejected`,
  `telemetry::replays_are_dropped`, `telemetry::dropped_ticks_lose_nothing`).

What the library takes on trust from other crates stands behind small functions whose doc comments
name the outside function and say what is claimed of it.
