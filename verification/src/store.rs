//! Command dispatch: what happens to a command before and after it runs.
use crate::admission::{Admission, AggregateLockKey, HeldLocks};
use crate::entity::EventSourced;
use crate::lifecycle::{Lifecycle, LifecycleError};
use crate::locks::{LockState, LockStep, PerAggregateLocks, Withdrawal};
use std::any::TypeId;
use std::marker::PhantomData;
use vstd::prelude::*;

verus! {

/// Why a command or a load failed. `Fault` is what the event store reports.
pub enum SendError<Entity: EventSourced, Fault> {
    /// The aggregate refused.
    UserError(LifecycleError<Entity>),
    /// Another writer committed first.
    AggregateConflict,
    /// The database failed.
    DatabaseConnectionError(Fault),
    /// Stored data could not be read.
    DeserializationError(Fault),
    /// Anything else.
    UnexpectedError(Fault),
}

impl<Entity: EventSourced, Fault> From<LifecycleError<Entity>> for SendError<Entity, Fault> {
    fn from(error: LifecycleError<Entity>) -> (converted: Self) {
        SendError::UserError(error)
    }
}

impl<Entity: EventSourced, Fault> vstd::std_specs::convert::FromSpecImpl<LifecycleError<Entity>>
    for SendError<Entity, Fault> {
    open spec fn obeys_from_spec() -> bool {
        true
    }

    open spec fn from_spec(error: LifecycleError<Entity>) -> Self {
        SendError::UserError(error)
    }
}

/// Whatever a lifecycle failed with is a refusal of the aggregate, with that error
/// in it.
pub proof fn law_lifecycle_errors_are_refusals<Entity: EventSourced, Fault>(
    error: LifecycleError<Entity>,
    converted: SendError<Entity, Fault>,
)
    requires
        call_ensures(
            <SendError<Entity, Fault> as From<LifecycleError<Entity>>>::from,
            (error,),
            converted,
        ),
    ensures
        converted == SendError::<Entity, Fault>::UserError(error),
{
}

/// A command that was admitted: it runs once it is granted the lock, and its
/// nested commands inherit what is held.
#[derive(Debug)]
pub struct CommandTicket {
    /// The aggregate ID.
    pub id: String,
    /// The lock to wait for and to hold until the command is done.
    pub lock: u64,
    /// What nested commands inherit.
    pub held: HeldLocks,
}

/// Type-safe command dispatch for one type of entity.
///
/// A command goes through [`send`](Self::send), which checks it against the
/// chain of commands it was issued from and registers it with the lock of its
/// aggregate. Whoever runs the command waits for that lock, holds it over the
/// whole of load, handling, commit and dispatch, and then reports to
/// [`finish`](Self::finish). Commands are counted in 64 bits, which is the only
/// limit on their number.
pub struct Store<Entity: EventSourced> {
    entity: TypeId,
    locks: PerAggregateLocks,
    marker: PhantomData<Entity>,
}

impl<Entity: EventSourced> View for Store<Entity> {
    type V = LockState;

    closed spec fn view(&self) -> LockState {
        self.locks@
    }
}

impl<Entity: EventSourced> Store<Entity> {
    /// The identity under which this store's aggregates are held.
    pub closed spec fn entity(self) -> TypeId {
        self.entity
    }

    /// A store that is commanding nothing yet. `entity` is the identity of the
    /// entity type.
    pub fn new(entity: TypeId) -> (store: Self)
        ensures
            store.entity() == entity,
            store@ == LockState::initial(),
    {
        Self { entity, locks: PerAggregateLocks::default(), marker: PhantomData }
    }

    /// How many commands were admitted so far.
    pub fn admitted_commands(&self) -> (count: u64)
        ensures
            count == self@.acquired,
    {
        self.locks.acquisitions()
    }

    /// Admits a command to the aggregate `id`, or rejects it because a command
    /// it was issued from is still commanding that aggregate.
    ///
    /// A rejected command leaves the store as it was. An admitted one is
    /// registered with the lock of its aggregate.
    pub fn send<Fault>(&mut self, inherited: Option<&HeldLocks>, id: String) -> (ticket: Result<
        CommandTicket,
        SendError<Entity, Fault>,
    >)
        requires
            crate::admission::admitted(
                crate::admission::inherited_keys(inherited),
                (old(self).entity(), id@),
            ) is Some ==> old(self)@.acquired < u64::MAX,
        ensures
            final(self)@.consistent(),
            final(self).entity() == old(self).entity(),
            match crate::admission::admitted(
                crate::admission::inherited_keys(inherited),
                (old(self).entity(), id@),
            ) {
                None => {
                    &&& ticket == Err::<CommandTicket, SendError<Entity, Fault>>(
                        SendError::UserError(LifecycleError::ReentrantCommand),
                    )
                    &&& final(self)@ == old(self)@
                },
                Some(held) => {
                    &&& ticket is Ok
                    &&& ticket->Ok_0.id@ == id@
                    &&& ticket->Ok_0.held@ == held
                    &&& held.finite()
                    &&& ticket->Ok_0.lock == old(self)@.lock_for(id@)
                    &&& final(self)@ == old(self)@.after(LockStep::Acquire(id@))
                },
            },
            ticket is Err <==> (inherited matches Some(held) && held@.contains(
                (old(self).entity(), id@),
            )),
            ticket matches Err(error) ==> error == SendError::<Entity, Fault>::UserError(
                LifecycleError::ReentrantCommand,
            ) && final(self)@ == old(self)@,
            ticket matches Ok(admitted) ==> {
                &&& admitted.id@ == id@
                &&& admitted.held@ == match inherited {
                    Some(held) => held@.insert((old(self).entity(), id@)),
                    None => set![(old(self).entity(), id@)],
                }
                &&& old(self)@.live.contains_key(id@) ==> admitted.lock == old(self)@.live[id@].0
                &&& !old(self)@.live.contains_key(id@) ==> admitted.lock == old(self)@.acquired
                &&& final(self)@.live.contains_key(id@)
                &&& final(self)@.live[id@].0 == admitted.lock
            },
    {
        proof {
            use_type_invariant(&self.locks);
            crate::locks::law_live_aggregates_have_locks_of_their_own(self.locks);
        }
        let lock_key = AggregateLockKey::new(self.entity, id);
        match Admission::for_command(inherited, &lock_key) {
            Admission::Reject => Err(SendError::from(LifecycleError::ReentrantCommand)),
            Admission::Proceed(held) => {
                let lock: u64 = self.locks.acquire(lock_key.id.as_str());
                Ok(CommandTicket { id: lock_key.id, lock, held })
            },
        }
    }

    /// Ends a command on the aggregate `id`, whether it ran or was cancelled.
    /// Says whether it was the last one in flight on that aggregate, in which
    /// case its lock is not handed out again.
    pub fn finish(&mut self, id: &str) -> (withdrawal: Withdrawal)
        ensures
            final(self)@.consistent(),
            final(self).entity() == old(self).entity(),
            final(self)@ == old(self)@.after(LockStep::Release(id@)),
            withdrawal is Nothing <==> old(self)@.interest(id@) == 0,
            withdrawal is LastOne <==> old(self)@.interest(id@) == 1,
            withdrawal is OthersRemain <==> old(self)@.interest(id@) > 1,
            withdrawal is Nothing <==> !old(self)@.live.contains_key(id@),
            withdrawal is OthersRemain <==> final(self)@.live.contains_key(id@),
    {
        self.locks.release(id)
    }

    /// The current state of an entity, from the lifecycle that the event store
    /// reconstructed, or the error that it reported.
    pub fn load<Fault>(loaded: Result<Lifecycle<Entity>, SendError<Entity, Fault>>) -> (entity:
        Result<Option<Entity>, SendError<Entity, Fault>>)
        ensures
            entity == loaded_entity(loaded),
            match loaded {
                Err(error) => entity == Err::<Option<Entity>, SendError<Entity, Fault>>(error),
                Ok(Lifecycle::Uninitialized) => entity == Ok::<
                    Option<Entity>,
                    SendError<Entity, Fault>,
                >(None),
                Ok(Lifecycle::Live(state)) => entity == Ok::<
                    Option<Entity>,
                    SendError<Entity, Fault>,
                >(Some(state)),
                Ok(Lifecycle::Failed { error, .. }) => entity == Err::<
                    Option<Entity>,
                    SendError<Entity, Fault>,
                >(SendError::UserError(error)),
            },
    {
        load_entity(loaded)
    }
}

/// What a load gives: the error that the event store reported, or else the
/// outcome of the lifecycle that it reconstructed.
pub open spec fn loaded_entity<Entity: EventSourced, Fault>(
    loaded: Result<Lifecycle<Entity>, SendError<Entity, Fault>>,
) -> Result<Option<Entity>, SendError<Entity, Fault>> {
    match loaded {
        Err(error) => Err(error),
        Ok(lifecycle) => match lifecycle.outcome() {
            Ok(entity) => Ok(entity),
            Err(error) => Err(SendError::UserError(error)),
        },
    }
}

/// The current state of an entity, without a store to command it.
pub fn load_entity<Entity: EventSourced, Fault>(
    loaded: Result<Lifecycle<Entity>, SendError<Entity, Fault>>,
) -> (entity: Result<Option<Entity>, SendError<Entity, Fault>>)
    ensures
        entity == loaded_entity(loaded),
        match loaded {
            Err(error) => entity == Err::<Option<Entity>, SendError<Entity, Fault>>(error),
            Ok(Lifecycle::Uninitialized) => entity == Ok::<
                Option<Entity>,
                SendError<Entity, Fault>,
            >(None),
            Ok(Lifecycle::Live(state)) => entity == Ok::<
                Option<Entity>,
                SendError<Entity, Fault>,
            >(Some(state)),
            Ok(Lifecycle::Failed { error, .. }) => entity == Err::<
                Option<Entity>,
                SendError<Entity, Fault>,
            >(SendError::UserError(error)),
        },
{
    match loaded {
        Err(error) => Err(error),
        Ok(lifecycle) => match lifecycle.into_result() {
            Ok(entity) => Ok(entity),
            Err(error) => Err(SendError::from(error)),
        },
    }
}

/// A load succeeds exactly when the event store could read the aggregate and it
/// has not failed. It gives the entity that is live, or nothing where there was
/// no event, and a failed aggregate is answered with its error, of whatever
/// kind, and never with the state it had reached before.
pub proof fn law_failed_aggregates_do_not_load<Entity: EventSourced, Fault>(
    loaded: Result<Lifecycle<Entity>, SendError<Entity, Fault>>,
    entity: Result<Option<Entity>, SendError<Entity, Fault>>,
)
    requires
        call_ensures(load_entity::<Entity, Fault>, (loaded,), entity) || call_ensures(
            Store::<Entity>::load::<Fault>,
            (loaded,),
            entity,
        ),
    ensures
        entity matches Ok(Some(state)) ==> loaded == Ok::<
            Lifecycle<Entity>,
            SendError<Entity, Fault>,
        >(Lifecycle::Live(state)),
        entity matches Ok(None) ==> loaded == Ok::<Lifecycle<Entity>, SendError<Entity, Fault>>(
            Lifecycle::Uninitialized,
        ),
        loaded matches Ok(Lifecycle::Failed { error, .. }) ==> entity == Err::<
            Option<Entity>,
            SendError<Entity, Fault>,
        >(SendError::UserError(error)),
        loaded matches Err(error) ==> entity == Err::<Option<Entity>, SendError<Entity, Fault>>(
            error,
        ),
        entity is Err <==> loaded is Err || (loaded matches Ok(lifecycle) && lifecycle is Failed),
{
}

/// What a load is said to give, told by the state that was reconstructed.
pub proof fn law_loaded_entity_is_the_live_one<Entity: EventSourced, Fault>(
    entity: Entity,
    error: LifecycleError<Entity>,
    last_valid_entity: Option<Entity>,
    reported: SendError<Entity, Fault>,
)
    ensures
        loaded_entity::<Entity, Fault>(Ok(Lifecycle::Live(entity))) == Ok::<
            Option<Entity>,
            SendError<Entity, Fault>,
        >(Some(entity)),
        loaded_entity::<Entity, Fault>(Ok(Lifecycle::Uninitialized)) == Ok::<
            Option<Entity>,
            SendError<Entity, Fault>,
        >(None),
        loaded_entity::<Entity, Fault>(Ok(Lifecycle::Failed { error, last_valid_entity })) == Err::<
            Option<Entity>,
            SendError<Entity, Fault>,
        >(SendError::UserError(error)),
        loaded_entity::<Entity, Fault>(Err(reported)) == Err::<
            Option<Entity>,
            SendError<Entity, Fault>,
        >(reported),
{
}

/// A command on an aggregate that is held is rejected: the command that a ticket
/// was given to passes on its own aggregate, so that a command nested in it, at
/// any depth, is refused that aggregate.
pub proof fn law_ticket_guards_its_own_aggregate(
    inherited: Set<(TypeId, Seq<char>)>,
    key: (TypeId, Seq<char>),
    nested: (TypeId, Seq<char>),
)
    requires
        !inherited.contains(key),
    ensures
        crate::admission::admitted(inherited, key) == Some(inherited.insert(key)),
        crate::admission::admitted(inherited.insert(key), key) is None,
        crate::admission::admitted(inherited.insert(key), nested) is None <==> nested == key
            || inherited.contains(nested),
{
}

/// A command nested in an admitted one is rejected on the aggregate of that one,
/// and leaves the store as it was, whatever the ID and whatever happened to the
/// store in between.
pub proof fn law_nested_send_to_its_own_aggregate_is_rejected<Entity: EventSourced, Fault>(
    outer: &mut Store<Entity>,
    inherited: Option<&HeldLocks>,
    id: String,
    ticket: CommandTicket,
    nested: &mut Store<Entity>,
    nested_id: String,
    answer: Result<CommandTicket, SendError<Entity, Fault>>,
)
    requires
        call_ensures(Store::<Entity>::send::<Fault>, (outer, inherited, id), Ok(ticket)),
        call_ensures(
            Store::<Entity>::send::<Fault>,
            (nested, Some(&ticket.held), nested_id),
            answer,
        ),
        old(nested).entity() == old(outer).entity(),
        nested_id@ == id@,
    ensures
        answer == Err::<CommandTicket, SendError<Entity, Fault>>(
            SendError::UserError(LifecycleError::ReentrantCommand),
        ),
        final(nested)@ == old(nested)@,
{
}

/// A command nested in an admitted one is admitted where neither that one nor
/// any it inherited from commands the aggregate.
pub proof fn law_nested_send_to_another_aggregate_is_admitted<Entity: EventSourced, Fault>(
    outer: &mut Store<Entity>,
    inherited: Option<&HeldLocks>,
    id: String,
    ticket: CommandTicket,
    nested: &mut Store<Entity>,
    nested_id: String,
    answer: Result<CommandTicket, SendError<Entity, Fault>>,
)
    requires
        call_ensures(Store::<Entity>::send::<Fault>, (outer, inherited, id), Ok(ticket)),
        call_ensures(
            Store::<Entity>::send::<Fault>,
            (nested, Some(&ticket.held), nested_id),
            answer,
        ),
        old(nested).entity() != old(outer).entity() || nested_id@ != id@,
        inherited matches Some(held) ==> !held@.contains((old(nested).entity(), nested_id@)),
    ensures
        answer is Ok,
        answer->Ok_0.held@.contains((old(outer).entity(), id@)),
        answer->Ok_0.held@.contains((old(nested).entity(), nested_id@)),
{
}

/// Of two commands that a store admits one after the other, the locks are the
/// same exactly when the aggregates are.
pub proof fn law_two_admitted_commands_share_a_lock_iff_an_aggregate<Entity: EventSourced, Fault>(
    first: &mut Store<Entity>,
    first_inherited: Option<&HeldLocks>,
    first_id: String,
    first_ticket: CommandTicket,
    second: &mut Store<Entity>,
    second_inherited: Option<&HeldLocks>,
    second_id: String,
    second_ticket: CommandTicket,
)
    requires
        call_ensures(
            Store::<Entity>::send::<Fault>,
            (first, first_inherited, first_id),
            Ok(first_ticket),
        ),
        *old(second) == *final(first),
        call_ensures(
            Store::<Entity>::send::<Fault>,
            (second, second_inherited, second_id),
            Ok(second_ticket),
        ),
    ensures
        first_ticket.lock == second_ticket.lock <==> first_id@ == second_id@,
{
    if second_id@ != first_id@ {
        crate::locks::law_consistent_table_keeps_aggregates_apart(
            final(second)@,
            first_id@,
            second_id@,
        );
    }
}

/// Ending a command right after it was admitted leaves the aggregates in flight,
/// their locks and their commands as they were.
pub proof fn law_finish_undoes_send<Entity: EventSourced, Fault>(
    first: &mut Store<Entity>,
    inherited: Option<&HeldLocks>,
    id: String,
    ticket: CommandTicket,
    second: &mut Store<Entity>,
    withdrawn: &str,
    withdrawal: Withdrawal,
)
    requires
        old(first)@.consistent(),
        call_ensures(Store::<Entity>::send::<Fault>, (first, inherited, id), Ok(ticket)),
        *old(second) == *final(first),
        withdrawn@ == id@,
        call_ensures(Store::<Entity>::finish, (second, withdrawn), withdrawal),
    ensures
        final(second)@.live == old(first)@.live,
        withdrawal is OthersRemain <==> old(first)@.live.contains_key(id@),
        withdrawal is LastOne <==> !old(first)@.live.contains_key(id@),
{
    crate::locks::law_release_undoes_acquire(old(first)@, id@);
}

/// A command that is admitted never waits for a lock that the chain of commands
/// it was issued from is holding: it would be a lock of this store, and the
/// aggregate it stands for is another one.
pub proof fn law_admitted_command_never_waits_for_its_own_chain(
    state: LockState,
    held: Set<(TypeId, Seq<char>)>,
    key: (TypeId, Seq<char>),
    ancestor: (TypeId, Seq<char>),
)
    requires
        state.consistent(),
        crate::admission::admitted(held, key) is Some,
        held.contains(ancestor),
        ancestor.0 == key.0,
        state.live.contains_key(ancestor.1),
    ensures
        state.lock_for(key.1) != state.live[ancestor.1].0,
{
    assert(key.1 != ancestor.1);
}

} // verus!
