# zqfw

The control plane of an eBPF-driven zero-trust quarantine firewall, written and
verified in Verus. Kernel probes report flows and enforce blocklists; the
library keeps the session table, scores every session with weighted signals,
decides what to isolate and for how long, and prepares the audit trail.

## Layout

| module | what it holds |
|---|---|
| `protocol` | wire structures shared with the probes, and their codes |
| `addr` | IP addresses and their text form |
| `flow` | sessions and the session table |
| `triage` | signals, context, risk and decisions; settings of the optional external model |
| `pipeline` | the supervisor: events, triage ticks, isolation, release, mode changes |
| `mock`, `traffic` | in-process data plane and synthetic traffic |
| `audit`, `metrics` | audit records and the Prometheus page |
| `config` | options, durations, allowlist, interface selection |
| `keyed`, `text` | containers and text building blocks |

`app/` is the daemon around the library: command line, eBPF loading, sockets,
clocks, the audit file and the event loop. The supervisor never touches the
data plane itself; each of its steps takes what was observed and hands back the
actions that the daemon carries out.

## Scores

Risks, thresholds and contributions are fixed-point numbers in units of 1e-18
(`triage::UNIT` stands for one), weights are whole hundredths. A risk is the
weighted mean of the contributions that fired, at most one.

## What is proved

Every function carries a contract over mathematical models of its data. Beside
the contracts, `law_*` proof functions state what holds across functions, among
them:

* an isolated flow is dropped while the plane enforces, and reverting an
  isolation leaves the plane blocking what it blocked before;
* a quarantine ends with its window and not before, and after a reap nothing is
  blocked but what a quarantine that goes on accounts for;
* a session is isolated once, and a source once per window;
* allowlisted sources are never scored or isolated;
* the risk lies between the weakest and the strongest contribution, and a session
  is quarantined exactly when its risk reaches the threshold;
* every plane that packets and blocklist updates can lead to has consistent
  counters.

What is taken on trust is marked in the source: reading the wall clock,
`String::push`, and the `humantime`, `ipnet` and `serde_json` parsers.
