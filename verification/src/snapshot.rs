//! Snapshots, and what may be deleted once there is one.
use crate::entity::{CompactionPolicy, EventSourced};
use crate::lifecycle::Lifecycle;
use vstd::prelude::*;

verus! {

/// The snapshot to load an aggregate from, given what reading the stored one
/// gave: nothing where none is stored, an error where it is of another schema.
///
/// An unreadable snapshot is ignored where the event history is always there
/// to rebuild the state from. Where events may be gone, the snapshot is the
/// only durable state, and the error is handed on.
pub fn usable_snapshot<Snapshot, Error>(
    policy: CompactionPolicy,
    stored: Result<Option<Snapshot>, Error>,
) -> (usable: Result<Option<Snapshot>, Error>)
    ensures
        stored is Ok ==> usable == stored,
        stored is Err && policy is Retain ==> usable == Ok::<Option<Snapshot>, Error>(None),
        stored is Err && policy is CompactAfterSnapshot ==> usable == stored,
{
    match stored {
        Ok(snapshot) => Ok(snapshot),
        Err(error) => match policy {
            CompactionPolicy::Retain => Ok(None),
            CompactionPolicy::CompactAfterSnapshot => Err(error),
        },
    }
}

/// The event log of one aggregate: its events, numbered from 1.
pub open spec fn numbered<Event>(events: Seq<Event>) -> Seq<(nat, Event)> {
    Seq::new(events.len(), |i: int| ((i + 1) as nat, events[i]))
}

/// The part of a log after a sequence number. This is what is left of the log
/// after compaction, and also what is applied to a snapshot on load.
pub open spec fn newer<Event>(log: Seq<(nat, Event)>, last_sequence: nat) -> Seq<(nat, Event)> {
    log.filter(|entry: (nat, Event)| entry.0 > last_sequence)
}

/// The events of a log, without their numbers.
pub open spec fn payloads<Event>(log: Seq<(nat, Event)>) -> Seq<Event> {
    log.map_values(|entry: (nat, Event)| entry.1)
}

/// What compaction leaves of a log: all of it where events are retained, else
/// what is newer than the snapshot. Without a snapshot, that is what is newer
/// than sequence number 0.
pub open spec fn compacted<Event>(
    policy: CompactionPolicy,
    log: Seq<(nat, Event)>,
    last_sequence: Option<nat>,
) -> Seq<(nat, Event)> {
    match policy {
        CompactionPolicy::Retain => log,
        CompactionPolicy::CompactAfterSnapshot => match last_sequence {
            Some(last) => newer(log, last),
            None => newer(log, 0),
        },
    }
}

/// Whether compaction leaves every log as it is, with any snapshot.
pub open spec fn never_deletes<Event>(policy: CompactionPolicy) -> bool {
    forall|log: Seq<(nat, Event)>, last_sequence: Option<nat>| #[trigger]
        compacted(policy, log, last_sequence) == log
}

/// The state that a load gives: the snapshot, followed by the newer events.
pub open spec fn loaded<Entity: EventSourced>(
    snapshot: Option<(Lifecycle<Entity>, nat)>,
    log: Seq<(nat, Entity::Event)>,
) -> Lifecycle<Entity> {
    match snapshot {
        Some((state, last_sequence)) => state.followed_by_all(payloads(newer(log, last_sequence))),
        None => Lifecycle::<Entity>::Uninitialized.followed_by_all(payloads(log)),
    }
}

proof fn lemma_newer_of_numbered<Event>(events: Seq<Event>, last_sequence: nat)
    ensures
        newer(numbered(events), last_sequence) == numbered(events).skip(
            if last_sequence <= events.len() {
                last_sequence as int
            } else {
                events.len() as int
            },
        ),
    decreases events.len(),
{
    reveal(Seq::filter);
    let log = numbered(events);
    let from = if last_sequence <= events.len() {
        last_sequence as int
    } else {
        events.len() as int
    };
    if events.len() == 0 {
        assert(newer(log, last_sequence) =~= log.skip(from));
    } else {
        lemma_newer_of_numbered(events.drop_last(), last_sequence);
        assert(log.drop_last() =~= numbered(events.drop_last()));
        if last_sequence < events.len() {
            assert(log.drop_last().skip(from).push(log.last()) =~= log.skip(from));
        } else {
            assert(log.skip(from) =~= Seq::empty());
            assert(log.drop_last().skip((events.len() - 1) as int) =~= Seq::empty());
        }
    }
}

/// Events are numbered from 1, in order and without a gap.
pub proof fn law_log_is_numbered_from_one<Event>(events: Seq<Event>, at: int)
    ensures
        numbered(events).len() == events.len(),
        0 <= at < events.len() ==> numbered(events)[at] == ((at + 1) as nat, events[at]),
        payloads(numbered(events)) == events,
{
    assert(payloads(numbered(events)) =~= events);
}

/// Of a log, what is newer than a sequence number is every event with a larger
/// one, in order.
pub proof fn law_newer_events_keep_their_order<Event>(
    log: Seq<(nat, Event)>,
    entry: (nat, Event),
    last_sequence: nat,
)
    ensures
        newer(Seq::<(nat, Event)>::empty(), last_sequence) == Seq::<(nat, Event)>::empty(),
        entry.0 > last_sequence ==> newer(log.push(entry), last_sequence) == newer(
            log,
            last_sequence,
        ).push(entry),
        entry.0 <= last_sequence ==> newer(log.push(entry), last_sequence) == newer(
            log,
            last_sequence,
        ),
        payloads(log.push(entry)) == payloads(log).push(entry.1),
        payloads(Seq::<(nat, Event)>::empty()) == Seq::<Event>::empty(),
{
    reveal(Seq::filter);
    assert(log.push(entry).drop_last() =~= log);
    assert(payloads(log.push(entry)) =~= payloads(log).push(entry.1));
    assert(payloads(Seq::<(nat, Event)>::empty()) =~= Seq::<Event>::empty());
}

/// A load starts from the snapshot and applies what is newer, or starts from
/// nothing and applies everything where there is no snapshot.
pub proof fn law_load_applies_what_the_snapshot_lacks<Entity: EventSourced>(
    state: Lifecycle<Entity>,
    last_sequence: nat,
    log: Seq<(nat, Entity::Event)>,
)
    ensures
        loaded(Some((state, last_sequence)), log) == state.followed_by_all(
            payloads(newer(log, last_sequence)),
        ),
        loaded(None::<(Lifecycle<Entity>, nat)>, log)
            == Lifecycle::<Entity>::Uninitialized.followed_by_all(payloads(log)),
{
}

/// Loading from a snapshot gives what replaying the whole log gives.
pub proof fn law_snapshot_load_equals_full_replay<Entity: EventSourced>(
    events: Seq<Entity::Event>,
    last_sequence: nat,
)
    requires
        last_sequence <= events.len(),
    ensures
        loaded(
            Some(
                (
                    Lifecycle::<Entity>::Uninitialized.followed_by_all(
                        events.take(last_sequence as int),
                    ),
                    last_sequence,
                ),
            ),
            numbered(events),
        ) == Lifecycle::<Entity>::Uninitialized.followed_by_all(events),
{
    lemma_newer_of_numbered(events, last_sequence);
    let last = last_sequence as int;
    assert(payloads(numbered(events).skip(last)) =~= events.skip(last));
    assert(events.take(last) + events.skip(last) =~= events);
    crate::lifecycle::law_replay_composes(
        Lifecycle::<Entity>::Uninitialized,
        events.take(last),
        events.skip(last),
    );
}

/// Compaction never changes what a load gives, with any snapshot and any log
/// whose sequence numbers are positive.
pub proof fn law_compaction_keeps_the_loaded_state<Entity: EventSourced>(
    policy: CompactionPolicy,
    snapshot: Option<(Lifecycle<Entity>, nat)>,
    log: Seq<(nat, Entity::Event)>,
)
    requires
        forall|i: int| 0 <= i < log.len() ==> (#[trigger] log[i]).0 > 0,
    ensures
        loaded(
            snapshot,
            compacted(
                policy,
                log,
                match snapshot {
                    Some((_, last_sequence)) => Some(last_sequence),
                    None => None,
                },
            ),
        ) == loaded(snapshot, log),
{
    match snapshot {
        Some((_, last_sequence)) => {
            lemma_newer_is_idempotent(log, last_sequence);
        },
        None => {
            lemma_everything_is_newer_than_zero(log);
        },
    }
}

proof fn lemma_everything_is_newer_than_zero<Event>(log: Seq<(nat, Event)>)
    requires
        forall|i: int| 0 <= i < log.len() ==> (#[trigger] log[i]).0 > 0,
    ensures
        newer(log, 0) == log,
    decreases log.len(),
{
    reveal(Seq::filter);
    if log.len() > 0 {
        lemma_everything_is_newer_than_zero(log.drop_last());
        assert(log.drop_last().push(log.last()) =~= log);
    }
}

proof fn lemma_newer_is_idempotent<Event>(log: Seq<(nat, Event)>, last_sequence: nat)
    ensures
        newer(newer(log, last_sequence), last_sequence) == newer(log, last_sequence),
    decreases log.len(),
{
    reveal(Seq::filter);
    if log.len() > 0 {
        let earlier = newer(log.drop_last(), last_sequence);
        lemma_newer_is_idempotent(log.drop_last(), last_sequence);
        if log.last().0 > last_sequence {
            assert(earlier.push(log.last()).drop_last() =~= earlier);
        }
    }
}

/// Nothing is deleted of an aggregate whose events are retained.
pub proof fn law_retained_events_stay<Event>(log: Seq<(nat, Event)>, last_sequence: Option<nat>)
    ensures
        compacted(CompactionPolicy::Retain, log, last_sequence) == log,
{
}

/// Retaining events is the only policy under which compaction never deletes any.
pub proof fn law_only_retained_events_are_never_deleted<Event>(policy: CompactionPolicy)
    ensures
        never_deletes::<Event>(policy) <==> policy is Retain,
{
    if policy is CompactAfterSnapshot {
        let entry: (nat, Event) = (1, vstd::pervasive::arbitrary());
        let log = seq![entry];
        law_compaction_stops_at_the_snapshot(log, 1, entry);
        assert(log[0] == entry);
        assert(compacted(policy, log, Some(1)) != log);
    }
}

/// Compaction deletes the events at or before the snapshot's sequence number,
/// and no others.
pub proof fn law_compaction_stops_at_the_snapshot<Event>(
    log: Seq<(nat, Event)>,
    last_sequence: nat,
    entry: (nat, Event),
)
    ensures
        compacted(CompactionPolicy::CompactAfterSnapshot, log, Some(last_sequence)).contains(entry)
            <==> log.contains(entry) && entry.0 > last_sequence,
    decreases log.len(),
{
    reveal(Seq::filter);
    if log.len() > 0 {
        let earlier = log.drop_last();
        law_compaction_stops_at_the_snapshot(earlier, last_sequence, entry);
        let (kept, before) = (newer(log, last_sequence), newer(earlier, last_sequence));
        if log.contains(entry) {
            let i = choose|i: int| 0 <= i < log.len() && log[i] == entry;
            if i < earlier.len() {
                assert(earlier[i] == entry);
            }
        }
        if earlier.contains(entry) {
            let i = choose|i: int| 0 <= i < earlier.len() && earlier[i] == entry;
            assert(log[i] == entry);
        }
        if before.contains(entry) {
            let i = choose|i: int| 0 <= i < before.len() && before[i] == entry;
            assert(kept[i] == entry);
        }
        if kept.contains(entry) {
            let i = choose|i: int| 0 <= i < kept.len() && kept[i] == entry;
            if i < before.len() {
                assert(before[i] == entry);
            }
        }
        if log.last().0 > last_sequence {
            assert(kept[before.len() as int] == log.last());
        }
    }
}

} // verus!
