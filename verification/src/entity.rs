//! What a domain type has to provide to be event-sourced.
use vstd::prelude::*;

verus! {

/// Whether old events may be deleted after they are captured in a snapshot.
#[derive(Debug, Clone, Copy, PartialEq, Eq, Structural)]
pub enum CompactionPolicy {
    /// Keep all events indefinitely.
    Retain,
    /// Delete events at or before the current snapshot sequence.
    CompactAfterSnapshot,
}

/// Bounds on the errors of a domain type, which a failed lifecycle stores.
pub trait DomainError: Clone + Send + Sync {

}

impl<T: Clone + Send + Sync> DomainError for T {

}

/// An event-sourced domain type.
///
/// State is a pure function of the event log: [`originate`](Self::originate)
/// gives the first state, [`evolve`](Self::evolve) every later one. Both are
/// described by a specification function, and give the same result whenever
/// they are called on the same values.
pub trait EventSourced: Clone + Send + Sync + Sized + 'static {
    /// Identity of one instance.
    type Id: Clone + Send + Sync;

    /// Facts about an instance, which drive its state.
    type Event;

    /// Instructions, which are answered with events.
    type Command: Send + Sync;

    /// What can go wrong in a command or in applying an event.
    type Error: DomainError;

    /// What command handlers need from outside.
    type Services: Send + Sync;

    /// Whether there is a materialized view, and under which name.
    type Materialized;

    /// Stable name of this type of aggregate in the event store.
    const AGGREGATE_TYPE: &'static str;

    /// The materialized view of this type of aggregate.
    const PROJECTION: Self::Materialized;

    /// To be bumped when the schema of the state or of the events changes.
    const SCHEMA_VERSION: u64;

    /// Whether events that a snapshot covers may be deleted.
    const COMPACTION_POLICY: CompactionPolicy = CompactionPolicy::Retain;

    /// How many commands lie between two snapshots.
    const SNAPSHOT_SIZE: usize = 10;

    /// The state that a genesis event creates; `None` for an event that needs
    /// existing state. To be given by types that are themselves verified; of
    /// others, no more is known than that there is such a state.
    closed spec fn origin(event: Self::Event) -> Option<Self> {
        vstd::pervasive::arbitrary()
    }

    /// The state that follows on `entity` by `event`; `Ok(None)` where the
    /// event does not apply to it. To be given like [`origin`](Self::origin).
    closed spec fn evolution(entity: Self, event: Self::Event) -> Result<
        Option<Self>,
        Self::Error,
    > {
        vstd::pervasive::arbitrary()
    }

    /// Creates initial state from a genesis event.
    fn originate(event: &Self::Event) -> (entity: Option<Self>)
        ensures
            entity == Self::origin(*event),
    ;

    /// Derives new state from an event applied to the current state.
    fn evolve(entity: &Self, event: &Self::Event) -> (evolved: Result<Option<Self>, Self::Error>)
        ensures
            evolved == Self::evolution(*entity, *event),
    ;
}

} // verus!
