use event_sorcery::{
    Admission, AggregateLockKey, CommandTicket, EventSourced, HeldLocks, LifecycleError, SendError,
    Store, Withdrawal,
};
use std::any::TypeId;
use std::collections::HashMap;
use std::sync::{Arc, Mutex};

#[derive(Debug, Clone)]
struct Ledger;

#[derive(Debug, Clone)]
struct OtherLedger;

impl EventSourced for Ledger {
    type Id = u64;
    type Event = ();
    type Command = ();
    type Error = ();
    type Services = ();
    type Materialized = ();

    const AGGREGATE_TYPE: &'static str = "Ledger";
    const PROJECTION: () = ();
    const SCHEMA_VERSION: u64 = 1;

    fn originate(_event: &()) -> Option<Self> {
        Some(Self)
    }

    fn evolve(entity: &Self, _event: &()) -> Result<Option<Self>, ()> {
        Ok(Some(entity.clone()))
    }
}

impl EventSourced for OtherLedger {
    type Id = u64;
    type Event = ();
    type Command = ();
    type Error = ();
    type Services = ();
    type Materialized = ();

    const AGGREGATE_TYPE: &'static str = "OtherLedger";
    const PROJECTION: () = ();
    const SCHEMA_VERSION: u64 = 1;

    fn originate(_event: &()) -> Option<Self> {
        Some(Self)
    }

    fn evolve(entity: &Self, _event: &()) -> Result<Option<Self>, ()> {
        Ok(Some(entity.clone()))
    }
}

fn store<Entity: EventSourced>() -> Store<Entity> {
    Store::new(TypeId::of::<Entity>())
}

fn send<Entity: EventSourced>(
    store: &mut Store<Entity>,
    inherited: Option<&HeldLocks>,
    id: &str,
) -> Result<CommandTicket, SendError<Entity, ()>> {
    store.send(inherited, id.to_string())
}

fn accepted<Entity: EventSourced>(
    store: &mut Store<Entity>,
    inherited: Option<&HeldLocks>,
    id: &str,
) -> CommandTicket {
    match send(store, inherited, id) {
        Ok(ticket) => ticket,
        Err(_) => panic!("{id} must be admitted"),
    }
}

fn assert_rejected_as_reentrant<Entity: EventSourced>(
    result: Result<CommandTicket, SendError<Entity, ()>>,
) {
    assert!(matches!(
        result,
        Err(SendError::UserError(LifecycleError::ReentrantCommand))
    ));
}

#[test]
fn send_serializes_same_aggregate() {
    let mut store = store::<Ledger>();
    let first = accepted(&mut store, None, "1");
    let second = accepted(&mut store, None, "1");
    assert_eq!(first.lock, second.lock);
}

#[test]
fn send_does_not_serialize_different_aggregates() {
    let mut store = store::<Ledger>();
    let first = accepted(&mut store, None, "1");
    let second = accepted(&mut store, None, "2");
    assert_ne!(first.lock, second.lock);
}

#[test]
fn reactor_self_commanding_same_aggregate_fails_fast_instead_of_deadlocking() {
    let mut store = store::<Ledger>();
    let outer = accepted(&mut store, None, "1");
    assert_rejected_as_reentrant(send(&mut store, Some(&outer.held), "1"));
    assert_eq!(store.admitted_commands(), 1);
}

#[test]
fn reactor_commanding_different_aggregate_from_inline_dispatch_succeeds() {
    let mut store = store::<Ledger>();
    let outer = accepted(&mut store, None, "1");
    let nested = accepted(&mut store, Some(&outer.held), "2");
    assert_ne!(outer.lock, nested.lock);
}

#[test]
fn reactor_joining_sibling_sends_to_same_aggregate_queues() {
    let mut store = store::<Ledger>();
    let outer = accepted(&mut store, None, "1");
    let left = accepted(&mut store, Some(&outer.held), "2");
    let right = accepted(&mut store, Some(&outer.held), "2");
    assert_eq!(left.lock, right.lock);
}

#[test]
fn reactor_transitive_cycle_through_second_aggregate_fails_fast() {
    let mut store = store::<Ledger>();
    let outer = accepted(&mut store, None, "1");
    let middle = accepted(&mut store, Some(&outer.held), "2");
    assert_rejected_as_reentrant(send(&mut store, Some(&middle.held), "1"));
    assert_rejected_as_reentrant(send(&mut store, Some(&middle.held), "2"));
}

#[test]
fn reactor_joining_sibling_sends_to_reacted_aggregate_fails_fast() {
    let mut store = store::<Ledger>();
    let outer = accepted(&mut store, None, "1");
    assert_rejected_as_reentrant(send(&mut store, Some(&outer.held), "1"));
    assert_rejected_as_reentrant(send(&mut store, Some(&outer.held), "1"));
}

#[test]
fn reactor_sending_back_to_source_after_cross_aggregate_hop_fails_fast() {
    let mut store = store::<Ledger>();
    let outer = accepted(&mut store, None, "1");
    let hop = accepted(&mut store, Some(&outer.held), "2");
    assert_eq!(store.finish(&hop.id), Withdrawal::LastOne);
    assert_rejected_as_reentrant(send(&mut store, Some(&outer.held), "1"));
    assert_rejected_as_reentrant(send(&mut store, Some(&hop.held), "1"));
}

#[test]
fn reactor_commanding_different_entity_type_with_same_id_string_succeeds() {
    let mut ledgers = store::<Ledger>();
    let mut others = store::<OtherLedger>();
    let outer = accepted(&mut ledgers, None, "1");
    let nested = accepted(&mut others, Some(&outer.held), "1");
    assert_rejected_as_reentrant(send(&mut ledgers, Some(&nested.held), "1"));
    assert_rejected_as_reentrant(send(&mut others, Some(&nested.held), "1"));
}

#[test]
fn command_outside_any_chain_is_admitted_and_queues() {
    let mut store = store::<Ledger>();
    let outer = accepted(&mut store, None, "1");
    let spawned = accepted(&mut store, None, "1");
    assert_eq!(outer.lock, spawned.lock);
}

#[test]
fn send_releases_lock_on_task_cancellation() {
    let mut store = store::<Ledger>();
    let holder = accepted(&mut store, None, "1");
    let waiter = accepted(&mut store, None, "1");
    assert_eq!(store.finish(&waiter.id), Withdrawal::OthersRemain);
    let next = accepted(&mut store, None, "1");
    assert_eq!(next.lock, holder.lock);
    assert_eq!(store.finish(&holder.id), Withdrawal::OthersRemain);
    assert_eq!(store.finish(&next.id), Withdrawal::LastOne);
    assert_eq!(store.finish("1"), Withdrawal::Nothing);
    let fresh = accepted(&mut store, None, "1");
    assert_ne!(fresh.lock, holder.lock);
}

#[test]
fn inherited_keys_are_copied_not_changed() {
    let key = |id: &str| AggregateLockKey::new(TypeId::of::<Ledger>(), id.to_string());
    let held = HeldLocks::only(&key("1"));
    let Admission::Proceed(extended) = Admission::for_inherited_scope(&held, &key("2")) else {
        panic!("another aggregate is admitted");
    };
    assert!(!held.contains(&key("2")));
    assert!(extended.contains(&key("1")));
    assert!(extended.contains(&key("2")));
    assert!(matches!(
        Admission::for_inherited_scope(&extended, &key("2")),
        Admission::Reject
    ));
}

#[test]
fn keys_are_the_same_only_in_both_parts() {
    let key = AggregateLockKey::new(TypeId::of::<Ledger>(), "1".to_string());
    let same = AggregateLockKey::new(TypeId::of::<Ledger>(), "1".to_string());
    let other_id = AggregateLockKey::new(TypeId::of::<Ledger>(), "2".to_string());
    let other_entity = AggregateLockKey::new(TypeId::of::<OtherLedger>(), "1".to_string());
    assert!(key.same_as(&same));
    assert!(key.same_as(&key.duplicate()));
    assert!(!key.same_as(&other_id));
    assert!(!key.same_as(&other_entity));
}

struct Shared {
    store: Store<Ledger>,
    mutexes: HashMap<u64, Arc<tokio::sync::Mutex<()>>>,
    log: Vec<String>,
}

/// Runs one command: it waits for its lock, commits, takes its time, and then
/// dispatches.
async fn command(shared: Arc<Mutex<Shared>>, id: &'static str, label: &'static str, slow: bool) {
    let (ticket, mutex) = {
        let mut shared = shared.lock().unwrap();
        let ticket = accepted(&mut shared.store, None, id);
        let mutex = Arc::clone(shared.mutexes.entry(ticket.lock).or_default());
        (ticket, mutex)
    };
    let guard = mutex.lock_owned().await;
    shared.lock().unwrap().log.push(format!("{label} commits"));
    if slow {
        for _ in 0..50 {
            tokio::task::yield_now().await;
        }
    }
    shared.lock().unwrap().log.push(format!("{label} dispatches"));
    drop(guard);
    assert_ne!(
        shared.lock().unwrap().store.finish(&ticket.id),
        Withdrawal::Nothing
    );
}

fn run_both(first_id: &'static str, second_id: &'static str) -> Vec<String> {
    let shared = Arc::new(Mutex::new(Shared {
        store: store::<Ledger>(),
        mutexes: HashMap::new(),
        log: Vec::new(),
    }));
    let runtime = tokio::runtime::Builder::new_current_thread().build().unwrap();
    runtime.block_on(async {
        let first = tokio::spawn(command(Arc::clone(&shared), first_id, "first", true));
        let second = tokio::spawn(command(Arc::clone(&shared), second_id, "second", false));
        first.await.unwrap();
        second.await.unwrap();
    });
    let log = shared.lock().unwrap().log.clone();
    log
}

#[test]
fn store_send_serializes_same_aggregate_dispatch_in_commit_order() {
    assert_eq!(
        run_both("1", "1"),
        vec![
            "first commits",
            "first dispatches",
            "second commits",
            "second dispatches"
        ]
    );
}

#[test]
fn commands_on_different_aggregates_run_side_by_side() {
    assert_eq!(
        run_both("1", "2"),
        vec![
            "first commits",
            "second commits",
            "second dispatches",
            "first dispatches"
        ]
    );
}
