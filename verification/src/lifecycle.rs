//! The lifecycle of an event-sourced entity: replay and command routing.
use crate::entity::EventSourced;
use vstd::prelude::*;

verus! {

/// Why an aggregate cannot be commanded or reconstructed.
pub enum LifecycleError<Entity: EventSourced> {
    /// An event that does not create the entity came first.
    EventCantOriginate {
        /// The event that came first.
        event: Entity::Event,
    },
    /// An event does not apply to the state it met.
    UnexpectedEvent {
        /// The event that does not apply.
        event: Entity::Event,
    },
    /// The domain failed to handle a command or to apply an event.
    Apply(Entity::Error),
    /// A call up the same chain of awaits is already commanding the aggregate.
    ReentrantCommand,
}

/// The state of an aggregate as its event log tells it.
pub enum Lifecycle<Entity: EventSourced> {
    /// No event yet.
    Uninitialized,
    /// Every event so far applied.
    Live(Entity),
    /// Some event did not apply.
    Failed {
        /// What went wrong first.
        error: LifecycleError<Entity>,
        /// The last state before that, if there was one.
        last_valid_entity: Option<Entity>,
    },
}

/// How a command to an aggregate is handled.
pub enum Route<'a, Entity: EventSourced> {
    /// By `initialize`: there is no state yet.
    Initialize,
    /// By `transition` on the current state.
    Transition(&'a Entity),
    /// Not at all: the stored error is the answer.
    Reject(&'a LifecycleError<Entity>),
}

impl<Entity: EventSourced> Lifecycle<Entity> {
    /// The lifecycle after one more event.
    pub open spec fn followed_by(self, event: Entity::Event) -> Self {
        match self {
            Lifecycle::Uninitialized => match Entity::origin(event) {
                Some(entity) => Lifecycle::Live(entity),
                None => Lifecycle::Failed {
                    error: LifecycleError::EventCantOriginate { event },
                    last_valid_entity: None,
                },
            },
            Lifecycle::Live(entity) => match Entity::evolution(entity, event) {
                Ok(Some(evolved)) => Lifecycle::Live(evolved),
                Ok(None) => Lifecycle::Failed {
                    error: LifecycleError::UnexpectedEvent { event },
                    last_valid_entity: Some(entity),
                },
                Err(error) => Lifecycle::Failed {
                    error: LifecycleError::Apply(error),
                    last_valid_entity: Some(entity),
                },
            },
            Lifecycle::Failed { .. } => self,
        }
    }

    /// The lifecycle after all of `events`, in order.
    pub open spec fn followed_by_all(self, events: Seq<Entity::Event>) -> Self
        decreases events.len(),
    {
        if events.len() == 0 {
            self
        } else {
            self.followed_by_all(events.drop_last()).followed_by(events.last())
        }
    }

    /// What a load of the aggregate gives: the entity if it is live, nothing
    /// if it was never created, and the stored error if it failed.
    pub open spec fn outcome(self) -> Result<Option<Entity>, LifecycleError<Entity>> {
        match self {
            Lifecycle::Uninitialized => Ok(None),
            Lifecycle::Live(entity) => Ok(Some(entity)),
            Lifecycle::Failed { error, .. } => Err(error),
        }
    }

    /// Applies one event. A failed lifecycle stays as it is.
    pub fn apply(&mut self, event: Entity::Event)
        ensures
            *final(self) == old(self).followed_by(event),
            match *old(self) {
                Lifecycle::Uninitialized => match Entity::origin(event) {
                    Some(entity) => *final(self) == Lifecycle::Live(entity),
                    None => *final(self) == Lifecycle::<Entity>::Failed {
                        error: LifecycleError::EventCantOriginate { event },
                        last_valid_entity: None,
                    },
                },
                Lifecycle::Live(entity) => match Entity::evolution(entity, event) {
                    Ok(Some(evolved)) => *final(self) == Lifecycle::Live(evolved),
                    Ok(None) => *final(self) == Lifecycle::Failed {
                        error: LifecycleError::UnexpectedEvent { event },
                        last_valid_entity: Some(entity),
                    },
                    Err(error) => *final(self) == Lifecycle::Failed {
                        error: LifecycleError::Apply(error),
                        last_valid_entity: Some(entity),
                    },
                },
                Lifecycle::Failed { .. } => *final(self) == *old(self),
            },
    {
        let mut before = Lifecycle::Uninitialized;
        std::mem::swap(&mut before, self);
        *self = match before {
            Lifecycle::Uninitialized => match Entity::originate(&event) {
                Some(entity) => Lifecycle::Live(entity),
                None => Lifecycle::Failed {
                    error: LifecycleError::EventCantOriginate { event },
                    last_valid_entity: None,
                },
            },
            Lifecycle::Live(entity) => match Entity::evolve(&entity, &event) {
                Ok(Some(evolved)) => Lifecycle::Live(evolved),
                Ok(None) => Lifecycle::Failed {
                    error: LifecycleError::UnexpectedEvent { event },
                    last_valid_entity: Some(entity),
                },
                Err(error) => Lifecycle::Failed {
                    error: LifecycleError::Apply(error),
                    last_valid_entity: Some(entity),
                },
            },
            failed => failed,
        };
    }

    /// Applies events in order, such as those that are newer than a snapshot.
    pub fn apply_all(&mut self, events: Vec<Entity::Event>)
        ensures
            *final(self) == old(self).followed_by_all(events@),
    {
        let ghost all = events@;
        for event in iter: events
            invariant
                iter.seq() == all,
                *self == old(self).followed_by_all(all.take(iter.index() as int)),
        {
            proof {
                let done = all.take(iter.index() as int);
                let more = all.take(iter.index() as int + 1);
                assert(more.drop_last() =~= done);
                assert(more.last() == event);
            }
            self.apply(event);
        }
        assert(all.take(all.len() as int) =~= all);
    }

    /// Turns a reconstructed lifecycle into the result of a load.
    pub fn into_result(self) -> (result: Result<Option<Entity>, LifecycleError<Entity>>)
        ensures
            result == self.outcome(),
            self is Uninitialized <==> result == Ok::<Option<Entity>, LifecycleError<Entity>>(None),
            self matches Lifecycle::Live(entity) ==> result == Ok::<
                Option<Entity>,
                LifecycleError<Entity>,
            >(Some(entity)),
            self matches Lifecycle::Failed { error, .. } ==> result == Err::<
                Option<Entity>,
                LifecycleError<Entity>,
            >(error),
    {
        match self {
            Lifecycle::Uninitialized => Ok(None),
            Lifecycle::Live(entity) => Ok(Some(entity)),
            Lifecycle::Failed { error, .. } => Err(error),
        }
    }

    /// The way that a command takes in this state of the aggregate.
    pub fn route(&self) -> (route: Route<'_, Entity>)
        ensures
            match *self {
                Lifecycle::Uninitialized => route is Initialize,
                Lifecycle::Live(entity) => route == Route::Transition(&entity),
                Lifecycle::Failed { error, .. } => route == Route::Reject(&error),
            },
    {
        match self {
            Lifecycle::Uninitialized => Route::Initialize,
            Lifecycle::Live(entity) => Route::Transition(entity),
            Lifecycle::Failed { error, .. } => Route::Reject(error),
        }
    }

    /// Answers a command that was routed to the domain and answered there with
    /// `produced`.
    ///
    /// The events go out only if the entity's own event side takes every one
    /// of them. If it does not, the answer is what went wrong first, and there
    /// is nothing to persist. Either way the lifecycle stays as it was before
    /// the command: the events are applied when they are committed.
    pub fn handle(&self, produced: Result<Vec<Entity::Event>, Entity::Error>) -> (answer: Result<
        Vec<Entity::Event>,
        LifecycleError<Entity>,
    >)
        requires
            *self !is Failed,
        ensures
            match produced {
                Err(error) => answer == Err::<Vec<Entity::Event>, LifecycleError<Entity>>(
                    LifecycleError::Apply(error),
                ),
                Ok(events) => match (*self).followed_by_all(events@) {
                    Lifecycle::Failed { error, .. } => answer == Err::<
                        Vec<Entity::Event>,
                        LifecycleError<Entity>,
                    >(error),
                    _ => answer is Ok && answer->Ok_0@ == events@,
                },
            },
    {
        let mut events = match produced {
            Ok(events) => events,
            Err(error) => {
                return Err(LifecycleError::Apply(error));
            },
        };
        let mut scratch: Option<Entity> = None;
        let mut index: usize = 0;
        while index < events.len()
            invariant
                index <= events@.len(),
                *self !is Failed,
                Ok::<Vec<Entity::Event>, Entity::Error>(events) == produced,
                match scratch {
                    Some(entity) => (*self).followed_by_all(events@.take(index as int))
                        == Lifecycle::Live(entity),
                    None => (*self).followed_by_all(events@.take(index as int)) == *self,
                },
            decreases events@.len() - index,
        {
            proof {
                let done = events@.take(index as int);
                let more = events@.take(index as int + 1);
                assert(more.drop_last() =~= done);
                assert(more.last() == events@[index as int]);
                law_failure_is_final((*self).followed_by_all(more), events@.skip(index as int + 1));
                law_replay_composes(*self, more, events@.skip(index as int + 1));
                assert(more + events@.skip(index as int + 1) =~= events@);
            }
            let current: Option<&Entity> = match &scratch {
                Some(entity) => Some(entity),
                None => match self {
                    Lifecycle::Live(entity) => Some(entity),
                    _ => None,
                },
            };
            scratch = match current {
                None => match Entity::originate(&events[index]) {
                    Some(entity) => Some(entity),
                    None => {
                        let event = events.swap_remove(index);
                        return Err(LifecycleError::EventCantOriginate { event });
                    },
                },
                Some(entity) => match Entity::evolve(entity, &events[index]) {
                    Ok(Some(evolved)) => Some(evolved),
                    Ok(None) => {
                        let event = events.swap_remove(index);
                        return Err(LifecycleError::UnexpectedEvent { event });
                    },
                    Err(error) => {
                        return Err(LifecycleError::Apply(error));
                    },
                },
            };
            index = index + 1;
        }
        assert(events@.take(index as int) =~= events@);
        Ok(events)
    }
}

/// Reconstructs an entity from its whole event log.
pub fn replay<Entity: EventSourced>(events: Vec<Entity::Event>) -> (result: Result<
    Option<Entity>,
    LifecycleError<Entity>,
>)
    ensures
        result == Lifecycle::<Entity>::Uninitialized.followed_by_all(events@).outcome(),
        match Lifecycle::<Entity>::Uninitialized.followed_by_all(events@) {
            Lifecycle::Uninitialized => result == Ok::<Option<Entity>, LifecycleError<Entity>>(
                None,
            ),
            Lifecycle::Live(entity) => result == Ok::<Option<Entity>, LifecycleError<Entity>>(
                Some(entity),
            ),
            Lifecycle::Failed { error, .. } => result == Err::<
                Option<Entity>,
                LifecycleError<Entity>,
            >(error),
        },
{
    let mut lifecycle = Lifecycle::Uninitialized;
    lifecycle.apply_all(events);
    lifecycle.into_result()
}

/// An event creates the entity where there is none, if it can; otherwise the
/// aggregate fails, with that event as the cause and no entity to show.
pub proof fn law_first_event_originates_or_fails<Entity: EventSourced>(
    event: Entity::Event,
    next: Lifecycle<Entity>,
)
    requires
        next == Lifecycle::<Entity>::Uninitialized.followed_by(event),
    ensures
        Entity::origin(event) matches Some(entity) ==> next == Lifecycle::Live(entity),
        Entity::origin(event) is None ==> next == (Lifecycle::<Entity>::Failed {
            error: LifecycleError::EventCantOriginate { event },
            last_valid_entity: None,
        }),
{
}

/// An event on a live entity evolves it. One that does not apply, or that the
/// domain fails on, is never skipped: the aggregate fails, with the cause and
/// with the state before the event.
pub proof fn law_later_event_evolves_or_fails<Entity: EventSourced>(
    entity: Entity,
    event: Entity::Event,
    next: Lifecycle<Entity>,
)
    requires
        next == Lifecycle::Live(entity).followed_by(event),
    ensures
        Entity::evolution(entity, event) matches Ok(Some(evolved)) ==> next == Lifecycle::Live(
            evolved,
        ),
        Entity::evolution(entity, event) matches Ok(None) ==> next == (Lifecycle::Failed {
            error: LifecycleError::UnexpectedEvent { event },
            last_valid_entity: Some(entity),
        }),
        Entity::evolution(entity, event) matches Err(error) ==> next == (Lifecycle::Failed {
            error: LifecycleError::Apply(error),
            last_valid_entity: Some(entity),
        }),
{
}

/// Events are applied one by one, in order, and none is left out: no event
/// leaves the lifecycle as it is, and one more event acts on what all before it
/// gave.
pub proof fn law_events_are_applied_one_by_one<Entity: EventSourced>(
    lifecycle: Lifecycle<Entity>,
    events: Seq<Entity::Event>,
    event: Entity::Event,
)
    ensures
        lifecycle.followed_by_all(Seq::empty()) == lifecycle,
        lifecycle.followed_by_all(events.push(event)) == lifecycle.followed_by_all(
            events,
        ).followed_by(event),
{
    assert(events.push(event).drop_last() =~= events);
}

/// A load gives the entity exactly when it is live and nothing exactly when
/// there was no event. A failed aggregate gives its error, whatever the error
/// is and whatever state it had reached before.
pub proof fn law_load_tells_the_three_states_apart<Entity: EventSourced>(
    lifecycle: Lifecycle<Entity>,
    entity: Entity,
)
    ensures
        lifecycle.outcome() == Ok::<Option<Entity>, LifecycleError<Entity>>(Some(entity))
            <==> lifecycle == Lifecycle::Live(entity),
        lifecycle.outcome() == Ok::<Option<Entity>, LifecycleError<Entity>>(None) <==> lifecycle
            == Lifecycle::<Entity>::Uninitialized,
        lifecycle is Failed <==> lifecycle.outcome() is Err,
        lifecycle matches Lifecycle::Failed { error, .. } ==> lifecycle.outcome() == Err::<
            Option<Entity>,
            LifecycleError<Entity>,
        >(error),
{
}

/// What a reconstructed lifecycle is turned into tells which state it was in.
pub proof fn law_result_is_ok_iff_nothing_failed<Entity: EventSourced>(
    lifecycle: Lifecycle<Entity>,
    result: Result<Option<Entity>, LifecycleError<Entity>>,
)
    requires
        call_ensures(Lifecycle::<Entity>::into_result, (lifecycle,), result),
    ensures
        result matches Ok(Some(entity)) ==> lifecycle == Lifecycle::Live(entity),
        result matches Ok(None) ==> lifecycle is Uninitialized,
        result matches Err(error) ==> (lifecycle matches Lifecycle::Failed { error: stored, .. }
            && stored == error),
{
}

/// Where each event in turn gives the next of `states`, the aggregate is live in
/// the last of them.
proof fn lemma_states_in_turn<Entity: EventSourced>(
    lifecycle: Lifecycle<Entity>,
    events: Seq<Entity::Event>,
    states: Seq<Entity>,
    len: int,
)
    requires
        0 <= len <= states.len() <= events.len(),
        lifecycle !is Failed,
        forall|i: int|
            #![trigger events[i]]
            0 <= i < states.len() ==> if i > 0 {
                Entity::evolution(states[i - 1], events[i]) == Ok::<Option<Entity>, Entity::Error>(
                    Some(states[i]),
                )
            } else {
                match lifecycle {
                    Lifecycle::Live(entity) => Entity::evolution(entity, events[0]) == Ok::<
                        Option<Entity>,
                        Entity::Error,
                    >(Some(states[0])),
                    _ => Entity::origin(events[0]) == Some(states[0]),
                }
            },
    ensures
        lifecycle.followed_by_all(events.take(len)) == if len > 0 {
            Lifecycle::Live(states[len - 1])
        } else {
            lifecycle
        },
    decreases len,
{
    if len > 0 {
        lemma_states_in_turn(lifecycle, events, states, len - 1);
        assert(events.take(len).drop_last() =~= events.take(len - 1));
        assert(events.take(len).last() == events[len - 1]);
    }
}

/// Where an event fails on what the events before it gave, it is the failure of
/// the whole, whatever follows.
proof fn lemma_first_failure_decides<Entity: EventSourced>(
    lifecycle: Lifecycle<Entity>,
    events: Seq<Entity::Event>,
    at: int,
)
    requires
        0 <= at < events.len(),
        lifecycle.followed_by_all(events.take(at)).followed_by(events[at]) is Failed,
    ensures
        lifecycle.followed_by_all(events) == lifecycle.followed_by_all(events.take(at)).followed_by(
            events[at],
        ),
{
    let more = events.take(at + 1);
    assert(more.drop_last() =~= events.take(at));
    assert(more.last() == events[at]);
    assert(more + events.skip(at + 1) =~= events);
    law_replay_composes(lifecycle, more, events.skip(at + 1));
    law_failure_is_final(lifecycle.followed_by_all(more), events.skip(at + 1));
}

/// The events of a command are accepted, all of them and unchanged, where each
/// in turn gives a state: the first from what the command met, and every other
/// from the state before it.
pub proof fn law_events_that_apply_in_turn_are_accepted<Entity: EventSourced>(
    lifecycle: &Lifecycle<Entity>,
    events: Vec<Entity::Event>,
    states: Seq<Entity>,
    answer: Result<Vec<Entity::Event>, LifecycleError<Entity>>,
)
    requires
        *lifecycle !is Failed,
        states.len() == events@.len(),
        forall|i: int|
            #![trigger events@[i]]
            0 <= i < states.len() ==> if i > 0 {
                Entity::evolution(states[i - 1], events@[i]) == Ok::<Option<Entity>, Entity::Error>(
                    Some(states[i]),
                )
            } else {
                match *lifecycle {
                    Lifecycle::Live(entity) => Entity::evolution(entity, events@[0]) == Ok::<
                        Option<Entity>,
                        Entity::Error,
                    >(Some(states[0])),
                    _ => Entity::origin(events@[0]) == Some(states[0]),
                }
            },
        call_ensures(Lifecycle::<Entity>::handle, (lifecycle, Ok(events)), answer),
    ensures
        answer matches Ok(accepted) && accepted@ == events@,
{
    lemma_states_in_turn(*lifecycle, events@, states, states.len() as int);
    assert(events@.take(states.len() as int) =~= events@);
}

/// The events of a command are accepted only where each of them in turn gives a
/// state. Gives those states.
pub proof fn law_accepted_events_apply_in_turn<Entity: EventSourced>(
    lifecycle: &Lifecycle<Entity>,
    events: Vec<Entity::Event>,
    answer: Result<Vec<Entity::Event>, LifecycleError<Entity>>,
) -> (states: Seq<Entity>)
    requires
        *lifecycle !is Failed,
        call_ensures(Lifecycle::<Entity>::handle, (lifecycle, Ok(events)), answer),
        answer is Ok,
    ensures
        states.len() == events@.len(),
        forall|i: int|
            #![trigger events@[i]]
            0 <= i < states.len() ==> if i > 0 {
                Entity::evolution(states[i - 1], events@[i]) == Ok::<Option<Entity>, Entity::Error>(
                    Some(states[i]),
                )
            } else {
                match *lifecycle {
                    Lifecycle::Live(entity) => Entity::evolution(entity, events@[0]) == Ok::<
                        Option<Entity>,
                        Entity::Error,
                    >(Some(states[0])),
                    _ => Entity::origin(events@[0]) == Some(states[0]),
                }
            },
{
    let states = Seq::new(
        events@.len(),
        |i: int| (*lifecycle).followed_by_all(events@.take(i + 1))->Live_0,
    );
    assert forall|i: int|
        #![trigger events@[i]]
        0 <= i < states.len() implies if i > 0 {
        Entity::evolution(states[i - 1], events@[i]) == Ok::<Option<Entity>, Entity::Error>(
            Some(states[i]),
        )
    } else {
        match *lifecycle {
            Lifecycle::Live(entity) => Entity::evolution(entity, events@[0]) == Ok::<
                Option<Entity>,
                Entity::Error,
            >(Some(states[0])),
            _ => Entity::origin(events@[0]) == Some(states[0]),
        }
    } by {
        law_success_never_passed_through_failure(*lifecycle, events@, i);
        law_success_never_passed_through_failure(*lifecycle, events@, i + 1);
        law_an_event_ends_the_uninitialized_state(*lifecycle, events@.take(i));
        assert(events@.take(i + 1).drop_last() =~= events@.take(i));
        assert(events@.take(i + 1).last() == events@[i]);
        if i > 0 {
            assert(states[i - 1] == (*lifecycle).followed_by_all(events@.take(i))->Live_0);
        } else {
            assert(events@.take(0) =~= Seq::<Entity::Event>::empty());
        }
    }
    states
}

/// A command is refused with its first event that does not apply, whatever
/// comes after it, and nothing of it is accepted.
pub proof fn law_first_event_that_does_not_apply_refuses_the_command<Entity: EventSourced>(
    lifecycle: &Lifecycle<Entity>,
    events: Vec<Entity::Event>,
    states: Seq<Entity>,
    answer: Result<Vec<Entity::Event>, LifecycleError<Entity>>,
)
    requires
        *lifecycle !is Failed,
        states.len() < events@.len(),
        forall|i: int|
            #![trigger events@[i]]
            0 <= i < states.len() ==> if i > 0 {
                Entity::evolution(states[i - 1], events@[i]) == Ok::<Option<Entity>, Entity::Error>(
                    Some(states[i]),
                )
            } else {
                match *lifecycle {
                    Lifecycle::Live(entity) => Entity::evolution(entity, events@[0]) == Ok::<
                        Option<Entity>,
                        Entity::Error,
                    >(Some(states[0])),
                    _ => Entity::origin(events@[0]) == Some(states[0]),
                }
            },
        call_ensures(Lifecycle::<Entity>::handle, (lifecycle, Ok(events)), answer),
    ensures
        ({
            let event = events@[states.len() as int];
            let met = if states.len() > 0 {
                Some(states.last())
            } else {
                match *lifecycle {
                    Lifecycle::Live(entity) => Some(entity),
                    _ => None,
                }
            };
            match met {
                None => Entity::origin(event) is None ==> answer == Err::<
                    Vec<Entity::Event>,
                    LifecycleError<Entity>,
                >(LifecycleError::EventCantOriginate { event }),
                Some(entity) => match Entity::evolution(entity, event) {
                    Ok(Some(_)) => true,
                    Ok(None) => answer == Err::<Vec<Entity::Event>, LifecycleError<Entity>>(
                        LifecycleError::UnexpectedEvent { event },
                    ),
                    Err(error) => answer == Err::<Vec<Entity::Event>, LifecycleError<Entity>>(
                        LifecycleError::Apply(error),
                    ),
                },
            }
        }),
{
    let at = states.len() as int;
    lemma_states_in_turn(*lifecycle, events@, states, at);
    if (*lifecycle).followed_by_all(events@.take(at)).followed_by(events@[at]) is Failed {
        lemma_first_failure_decides(*lifecycle, events@, at);
    }
}

/// A command that the domain refused is refused with the domain's error.
pub proof fn law_refusal_of_the_domain_is_the_answer<Entity: EventSourced>(
    lifecycle: &Lifecycle<Entity>,
    error: Entity::Error,
    answer: Result<Vec<Entity::Event>, LifecycleError<Entity>>,
)
    requires
        call_ensures(Lifecycle::<Entity>::handle, (lifecycle, Err(error)), answer),
    ensures
        answer == Err::<Vec<Entity::Event>, LifecycleError<Entity>>(LifecycleError::Apply(error)),
{
}

/// A log replays to the last of its states where its first event originates one
/// and every other evolves the one before it. The empty log replays to nothing.
pub proof fn law_log_that_applies_replays_to_its_last_state<Entity: EventSourced>(
    events: Vec<Entity::Event>,
    states: Seq<Entity>,
    result: Result<Option<Entity>, LifecycleError<Entity>>,
)
    requires
        states.len() == events@.len(),
        forall|i: int|
            #![trigger events@[i]]
            0 <= i < states.len() ==> if i > 0 {
                Entity::evolution(states[i - 1], events@[i]) == Ok::<Option<Entity>, Entity::Error>(
                    Some(states[i]),
                )
            } else {
                Entity::origin(events@[0]) == Some(states[0])
            },
        call_ensures(replay::<Entity>, (events,), result),
    ensures
        result == Ok::<Option<Entity>, LifecycleError<Entity>>(
            if states.len() > 0 {
                Some(states.last())
            } else {
                None
            },
        ),
{
    lemma_states_in_turn(
        Lifecycle::<Entity>::Uninitialized,
        events@,
        states,
        states.len() as int,
    );
    assert(events@.take(states.len() as int) =~= events@);
}

/// A log does not replay past its first event that does not apply: that event is
/// the error, whatever state the log had reached and whatever comes after it.
pub proof fn law_first_event_that_does_not_apply_fails_the_replay<Entity: EventSourced>(
    events: Vec<Entity::Event>,
    states: Seq<Entity>,
    result: Result<Option<Entity>, LifecycleError<Entity>>,
)
    requires
        states.len() < events@.len(),
        forall|i: int|
            #![trigger events@[i]]
            0 <= i < states.len() ==> if i > 0 {
                Entity::evolution(states[i - 1], events@[i]) == Ok::<Option<Entity>, Entity::Error>(
                    Some(states[i]),
                )
            } else {
                Entity::origin(events@[0]) == Some(states[0])
            },
        call_ensures(replay::<Entity>, (events,), result),
    ensures
        ({
            let event = events@[states.len() as int];
            if states.len() == 0 {
                Entity::origin(event) is None ==> result == Err::<
                    Option<Entity>,
                    LifecycleError<Entity>,
                >(LifecycleError::EventCantOriginate { event })
            } else {
                match Entity::evolution(states.last(), event) {
                    Ok(Some(_)) => true,
                    Ok(None) => result == Err::<Option<Entity>, LifecycleError<Entity>>(
                        LifecycleError::UnexpectedEvent { event },
                    ),
                    Err(error) => result == Err::<Option<Entity>, LifecycleError<Entity>>(
                        LifecycleError::Apply(error),
                    ),
                }
            }
        }),
{
    let start = Lifecycle::<Entity>::Uninitialized;
    let at = states.len() as int;
    lemma_states_in_turn(start, events@, states, at);
    if start.followed_by_all(events@.take(at)).followed_by(events@[at]) is Failed {
        lemma_first_failure_decides(start, events@, at);
    }
}

/// A failed lifecycle is not revived by further events: it keeps its error.
pub proof fn law_failure_is_final<Entity: EventSourced>(
    lifecycle: Lifecycle<Entity>,
    events: Seq<Entity::Event>,
)
    ensures
        lifecycle is Failed ==> lifecycle.followed_by_all(events) == lifecycle,
    decreases events.len(),
{
    if events.len() > 0 {
        law_failure_is_final(lifecycle, events.drop_last());
    }
}

/// Every state on the way to one that did not fail did not fail either.
pub proof fn law_success_never_passed_through_failure<Entity: EventSourced>(
    lifecycle: Lifecycle<Entity>,
    events: Seq<Entity::Event>,
    len: int,
)
    requires
        0 <= len <= events.len(),
        lifecycle.followed_by_all(events) !is Failed,
    ensures
        lifecycle.followed_by_all(events.take(len)) !is Failed,
{
    law_replay_composes(lifecycle, events.take(len), events.skip(len));
    law_failure_is_final(lifecycle.followed_by_all(events.take(len)), events.skip(len));
    assert(events.take(len) + events.skip(len) =~= events);
}

/// An aggregate never goes back to not existing.
pub proof fn law_an_event_ends_the_uninitialized_state<Entity: EventSourced>(
    lifecycle: Lifecycle<Entity>,
    events: Seq<Entity::Event>,
)
    ensures
        lifecycle.followed_by_all(events) is Uninitialized <==> lifecycle is Uninitialized
            && events.len() == 0,
    decreases events.len(),
{
    if events.len() > 0 {
        law_an_event_ends_the_uninitialized_state(lifecycle, events.drop_last());
    }
}

/// Committing the events that a command was answered with never poisons the
/// aggregate: if the log and the accepted events are replayed, the aggregate
/// loads, and it is live if there is any event at all.
pub proof fn law_accepted_commands_keep_the_aggregate_loadable<Entity: EventSourced>(
    log: Seq<Entity::Event>,
    accepted: Seq<Entity::Event>,
)
    requires
        Lifecycle::<Entity>::Uninitialized.followed_by_all(log).followed_by_all(
            accepted,
        ) !is Failed,
    ensures
        Lifecycle::<Entity>::Uninitialized.followed_by_all(log + accepted).outcome() is Ok,
        log.len() + accepted.len() > 0 ==> Lifecycle::<Entity>::Uninitialized.followed_by_all(
            log + accepted,
        ) is Live,
{
    law_replay_composes(Lifecycle::<Entity>::Uninitialized, log, accepted);
    law_an_event_ends_the_uninitialized_state(Lifecycle::<Entity>::Uninitialized, log + accepted);
}

/// Replay can stop and go on: the state after a log is the state after its
/// later part, applied to the state after its earlier part.
pub proof fn law_replay_composes<Entity: EventSourced>(
    lifecycle: Lifecycle<Entity>,
    earlier: Seq<Entity::Event>,
    later: Seq<Entity::Event>,
)
    ensures
        lifecycle.followed_by_all(earlier + later) == lifecycle.followed_by_all(
            earlier,
        ).followed_by_all(later),
    decreases later.len(),
{
    if later.len() == 0 {
        assert(earlier + later =~= earlier);
    } else {
        law_replay_composes(lifecycle, earlier, later.drop_last());
        assert((earlier + later).drop_last() =~= earlier + later.drop_last());
    }
}

} // verus!
