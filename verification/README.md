# event-sorcery

The decision core of an event-sourcing toolkit, written and verified in Verus.

A domain type is event-sourced: its state is a fold over an append-only log of
events, commands are answered with new events, reactors see the events after
they are committed, and side effects are durable jobs. The library in `src/`
holds every decision that is taken along the way, as functions on plain values
with proved contracts. It neither waits nor talks to a database.

| Module                 | What it decides                                              |
| ---------------------- | ------------------------------------------------------------ |
| `entity`, `lifecycle`  | replay, routing of commands, acceptance of their events      |
| `snapshot`             | loading from a snapshot, what compaction may delete          |
| `admission`            | which commands a chain of commands may issue                 |
| `locks`, `store`       | which commands take turns, in bounded memory                 |
| `order`                | that events are dispatched in commit order                   |
| `queries`              | maintenance and enumeration statements, and their results    |
| `busy`, `retry`, `reactor` | which failures are lock conflicts, and when to try again |
| `job`                  | labels, failures and backoff of jobs                         |
| `duration`             | spans of time                                                |

The asynchronous shell in `app/` performs what the library decides: it runs the
statements with sqlx, drives cqrs-es, holds the tokio mutexes, sleeps between
retries and registers jobs with apalis.

Public proof functions named `law_*` state what holds across functions: that a
snapshot and the newer events give what the whole log gives, that compaction
never changes a loaded state, that commands in flight together on one aggregate
share a lock, that an admitted command never waits on its own chain, and so on.
