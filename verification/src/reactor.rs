//! Event reactors and their retries on transient lock conflicts.
use crate::busy::{is_retryable_sqlite_busy, ErrorNode};
use crate::retry::{retry_schedule, retry_with_backoff, Retry, RetryStep, RETRY_MAX_ATTEMPTS};
use std::sync::Arc;
use vstd::prelude::*;

verus! {

/// An event reactor: something that is handed each committed event of the
/// entities it depends on, and may fail.
///
/// Reacting itself is the implementor's asynchronous work. This trait names the
/// types that the decisions around it speak of.
pub trait Reactor {
    /// An event of any supported entity.
    type Event;

    /// Error type for reactor failures.
    type Error;
}

/// A reactor that is shared reacts like the reactor itself.
impl<R: Reactor> Reactor for Arc<R> {
    type Event = R::Event;

    type Error = R::Error;
}

/// Marks a [`Reactor`] whose reaction is safe to run again in full after a
/// transient SQLite lock conflict.
///
/// Implement this only for reactors that perform exclusively SQLite writes,
/// atomically as a whole, with no side effect that would fire twice. This is a
/// declaration, not something the compiler can check.
pub trait IdempotentReactor: Reactor {

}

/// Wraps an [`IdempotentReactor`] to retry on transient SQLite lock conflicts.
pub struct RetryOnBusy<R> {
    /// The reactor that does the work.
    pub inner: R,
}

impl<R: Reactor> Reactor for RetryOnBusy<R> {
    type Event = R::Event;

    type Error = R::Error;
}

/// One event being handed to a [`RetryOnBusy`] reactor, through all its
/// attempts.
pub struct Reaction<Event> {
    event: Event,
    retry: Retry,
}

impl<R: IdempotentReactor> RetryOnBusy<R> {
    /// Takes on an event, with the default budget and schedule ahead of it.
    pub fn react(&self, event: R::Event) -> (reaction: Reaction<R::Event>)
        ensures
            reaction.subject() == event,
            reaction.progress().spent() == 0,
            reaction.progress().budget() == RETRY_MAX_ATTEMPTS,
            reaction.progress().schedule().base().0@ == crate::retry::RETRY_BASE_DELAY_MS
                * crate::duration::NANOS_PER_MILLI,
            reaction.progress().schedule().ceiling().0@ == crate::retry::RETRY_MAX_DELAY_MS
                * crate::duration::NANOS_PER_MILLI,
            reaction.progress().budget() == 10,
            reaction.progress().schedule().base().0@ == 10_000_000,
            reaction.progress().schedule().ceiling().0@ == 1_000_000_000,
    {
        Reaction { event, retry: retry_with_backoff(RETRY_MAX_ATTEMPTS, retry_schedule()) }
    }
}

impl<Event> Reaction<Event> {
    /// The event being reacted to.
    pub closed spec fn subject(self) -> Event {
        self.event
    }

    /// The retries spent and left.
    pub closed spec fn progress(self) -> Retry {
        self.retry
    }

    /// The event to hand to the reactor, the same one on every attempt.
    pub fn event(&self) -> (event: &Event)
        ensures
            *event == self.subject(),
    {
        &self.event
    }

    /// Decides what follows an attempt. A failure comes with the chain of
    /// errors below it, and is retried only if that chain reports a lock
    /// conflict and the budget lasts.
    pub fn step<Error>(&mut self, outcome: Result<(), (Error, ErrorNode)>) -> (step: RetryStep<
        (),
        (Error, ErrorNode),
    >)
        ensures
            final(self).subject() == old(self).subject(),
            final(self).progress().budget() == old(self).progress().budget(),
            final(self).progress().schedule() == old(self).progress().schedule(),
            match outcome {
                Err(failure) if crate::retry::retries_again(
                    old(self).progress().budget(),
                    old(self).progress().spent(),
                    failure.1.chain_reports_busy(),
                ) => {
                    &&& step matches RetryStep::Wait(delay)
                    &&& delay@ == old(self).progress().schedule().delay(
                        old(self).progress().spent(),
                    )
                    &&& final(self).progress().spent() == old(self).progress().spent() + 1
                },
                _ => {
                    &&& step == RetryStep::<(), (Error, ErrorNode)>::Finish(outcome)
                    &&& final(self).progress().spent() == old(self).progress().spent()
                },
            },
            step is Wait <==> (outcome matches Err(failure) && old(self).progress().spent() < old(
                self,
            ).progress().budget() && failure.1.chain_reports_busy()),
            step matches RetryStep::Finish(result) ==> result == outcome,
    {
        let should_retry = |failure: &(Error, ErrorNode)| -> (busy: bool)
            ensures
                busy == failure.1.chain_reports_busy(),
        {
            is_retryable_sqlite_busy(&failure.1)
        };
        self.retry.step(outcome, should_retry)
    }
}

/// An attempt that succeeds ends the reaction, and so does a failure without a
/// lock conflict in its chain, or any once the budget is spent. The outcome is
/// then the one of that attempt, and no retry is spent.
pub proof fn law_reaction_ends_with_the_outcome_of_its_last_attempt<Event, Error>(
    reaction: &mut Reaction<Event>,
    outcome: Result<(), (Error, ErrorNode)>,
    step: RetryStep<(), (Error, ErrorNode)>,
)
    requires
        call_ensures(Reaction::<Event>::step::<Error>, (reaction, outcome), step),
        outcome matches Err(failure) ==> !failure.1.chain_reports_busy() || old(
            reaction,
        ).progress().spent() >= old(reaction).progress().budget(),
    ensures
        step == RetryStep::<(), (Error, ErrorNode)>::Finish(outcome),
        final(reaction).progress().spent() == old(reaction).progress().spent(),
{
}

/// A lock conflict anywhere in the chain of a failure has the same event tried
/// again as long as the budget lasts, and costs one retry.
pub proof fn law_lock_conflict_is_retried_while_the_budget_lasts<Event, Error>(
    reaction: &mut Reaction<Event>,
    error: Error,
    chain: ErrorNode,
    at: int,
    text: String,
    value: int,
    step: RetryStep<(), (Error, ErrorNode)>,
)
    requires
        call_ensures(Reaction::<Event>::step::<Error>, (reaction, Err((error, chain))), step),
        0 <= at < chain.chain().len(),
        chain.chain()[at].kind == crate::busy::ErrorKind::SqlxDatabase(Some(text))
            || chain.chain()[at].kind == crate::busy::ErrorKind::BoxedDatabase(Some(text)),
        crate::busy::result_code(text@) == Some(value),
        value % 256 == 5,
        old(reaction).progress().spent() < old(reaction).progress().budget(),
    ensures
        step is Wait,
        step->Wait_0@ <= old(reaction).progress().schedule().ceiling().0@,
        final(reaction).subject() == old(reaction).subject(),
        final(reaction).progress().spent() == old(reaction).progress().spent() + 1,
        final(reaction).progress().budget() == old(reaction).progress().budget(),
{
    assert(chain.chain()[at].reports_busy());
}

} // verus!
