//! The decision core of an event-sourcing toolkit.
//!
//! A domain type implements [`EventSourced`]. Its state is a fold over its
//! event log ([`Lifecycle`]), commands reach it through a [`Store`], reactors
//! see its events, and jobs carry out its side effects. This crate holds what
//! is decided along the way, as functions on plain values with contracts:
//!
//! - [`entity`] and [`lifecycle`]: replay of events, routing of commands, and
//!   the check that a command's events apply before they are committed.
//! - [`snapshot`]: loading from a snapshot, and what compaction may delete.
//! - [`admission`]: which commands a chain of commands may issue without
//!   waiting on itself.
//! - [`locks`]: the table of per-aggregate locks that makes commands on one
//!   aggregate take turns, in memory bounded by what is in flight.
//! - [`order`]: what that adds up to: events of one aggregate are dispatched in
//!   the order in which they were committed.
//! - [`store`]: dispatch of a command, built on the two.
//! - [`queries`]: maintenance and enumeration statements, and their results.
//! - [`busy`], [`retry`] and [`reactor`]: which failures are transient lock
//!   conflicts, and how a reaction is retried on them.
//! - [`job`]: labels, failures and backoff of durable jobs.
//! - [`duration`]: spans of time.
//!
//! Everything that waits or talks to a database is left to the caller, which
//! performs what these functions decide and hands back what came of it.
pub mod admission;
pub mod busy;
pub mod duration;
pub mod entity;
pub mod job;
pub mod lifecycle;
pub mod locks;
pub mod order;
pub mod queries;
pub mod reactor;
pub mod retry;
pub mod snapshot;
pub mod store;

pub use admission::{Admission, AggregateLockKey, HeldLocks};
pub use busy::{
    is_busy_extended_code, is_retryable_sqlite_busy, ErrorKind, ErrorNode, PersistenceError,
};
pub use duration::Duration;
pub use entity::{CompactionPolicy, DomainError, EventSourced};
pub use job::{
    fail_stop_recovery_timeout, on_terminal_failure, retry_backoff, work, ExponentialBackoff, Job,
    JobError, JobRun, Label, LabelText, WorkerAction, WorkerEvent,
};
pub use lifecycle::{replay, Lifecycle, LifecycleError, Route};
pub use locks::{PerAggregateLocks, Withdrawal};
pub use queries::{
    compact_events, count_aggregates, counted, incremental_vacuum, load_all_ids,
    load_ids_paginated, parsed_ids, vacuum, Bind, CompactionStep, IdRow, LoadAllIdsError,
    Statement,
};
pub use reactor::{IdempotentReactor, Reaction, Reactor, RetryOnBusy};
pub use retry::{
    backoff_delay, retry_schedule, retry_with_backoff, Retry, RetryBaseDelay, RetryMaxDelay,
    RetrySchedule, RetryScheduleError, RetryStep, RETRY_BASE_DELAY_MS, RETRY_MAX_ATTEMPTS,
    RETRY_MAX_DELAY_MS,
};
pub use snapshot::usable_snapshot;
pub use store::{load_entity, CommandTicket, SendError, Store};
