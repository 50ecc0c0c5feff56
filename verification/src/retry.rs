//! Exponential backoff and the retry decision built on it.
use crate::duration::Duration;
use vstd::prelude::*;

verus! {

/// Number of retries before a retried operation gives up.
pub const RETRY_MAX_ATTEMPTS: u32 = 10;

/// Starting delay of the default retry schedule, in milliseconds.
pub const RETRY_BASE_DELAY_MS: u64 = 10;

/// Delay ceiling of the default retry schedule, in milliseconds.
pub const RETRY_MAX_DELAY_MS: u64 = 1000;

/// The starting delay of an exponential-backoff retry schedule.
#[derive(Clone, Copy, Debug, PartialEq, Eq, Structural)]
pub struct RetryBaseDelay(pub Duration);

/// The delay ceiling of an exponential-backoff retry schedule.
#[derive(Clone, Copy, Debug, PartialEq, Eq, Structural)]
pub struct RetryMaxDelay(pub Duration);

/// The base and max delay of an exponential-backoff retry schedule.
///
/// The two are distinct types, so a call site cannot transpose them. Every
/// schedule has a base delay no longer than its max delay: the only way to
/// make one is [`RetrySchedule::new`].
#[derive(Clone, Copy, Debug, PartialEq, Eq, Structural)]
pub struct RetrySchedule {
    base_delay: RetryBaseDelay,
    max_delay: RetryMaxDelay,
}

/// Error building a [`RetrySchedule`] whose base delay exceeds its max delay.
#[derive(Clone, Copy, Debug, PartialEq, Eq, Structural)]
pub enum RetryScheduleError {
    /// The base delay is longer than the max delay.
    BaseExceedsMax { base: RetryBaseDelay, max: RetryMaxDelay },
}

/// The delay before retry number `attempt` (counted from zero), in
/// nanoseconds: the base delay doubled once per earlier retry, but never more
/// than the max delay.
pub open spec fn doubled(base_delay: nat, max_delay: nat, attempt: nat) -> nat {
    crate::duration::shorter(base_delay * vstd::arithmetic::power2::pow2(attempt), max_delay)
}

impl RetrySchedule {
    #[verifier::type_invariant]
    spec fn ordered(self) -> bool {
        self.base_delay.0@ <= self.max_delay.0@
    }

    /// The starting delay.
    pub closed spec fn base(self) -> RetryBaseDelay {
        self.base_delay
    }

    /// The delay ceiling.
    pub closed spec fn ceiling(self) -> RetryMaxDelay {
        self.max_delay
    }

    /// The delay before retry number `attempt`, in nanoseconds.
    pub open spec fn delay(self, attempt: nat) -> nat {
        doubled(self.base().0@, self.ceiling().0@, attempt)
    }

    /// Rejects a base delay longer than the max delay, which would flatten
    /// every backoff to a single fixed delay.
    pub fn new(base_delay: RetryBaseDelay, max_delay: RetryMaxDelay) -> (schedule: Result<
        Self,
        RetryScheduleError,
    >)
        ensures
            match schedule {
                Ok(schedule) => {
                    &&& base_delay.0@ <= max_delay.0@
                    &&& schedule.base() == base_delay
                    &&& schedule.ceiling() == max_delay
                },
                Err(error) => {
                    &&& base_delay.0@ > max_delay.0@
                    &&& error == RetryScheduleError::BaseExceedsMax {
                        base: base_delay,
                        max: max_delay,
                    }
                },
            },
    {
        if base_delay.0.as_nanos() > max_delay.0.as_nanos() {
            return Err(RetryScheduleError::BaseExceedsMax { base: base_delay, max: max_delay });
        }
        Ok(Self { base_delay, max_delay })
    }

    /// The starting delay.
    pub fn base_delay(&self) -> (delay: RetryBaseDelay)
        ensures
            delay == self.base(),
            self.base().0@ <= self.ceiling().0@,
    {
        proof {
            use_type_invariant(self);
        }
        self.base_delay
    }

    /// The delay ceiling.
    pub fn max_delay(&self) -> (delay: RetryMaxDelay)
        ensures
            delay == self.ceiling(),
            self.base().0@ <= self.ceiling().0@,
    {
        proof {
            use_type_invariant(self);
        }
        self.max_delay
    }
}

/// Default retry schedule: 10ms base delay, doubling, capped at 1s.
pub fn retry_schedule() -> (schedule: RetrySchedule)
    ensures
        schedule.base().0@ == RETRY_BASE_DELAY_MS * crate::duration::NANOS_PER_MILLI,
        schedule.ceiling().0@ == RETRY_MAX_DELAY_MS * crate::duration::NANOS_PER_MILLI,
        schedule.base().0@ == 10_000_000,
        schedule.ceiling().0@ == 1_000_000_000,
{
    RetrySchedule {
        base_delay: RetryBaseDelay(Duration::from_millis(RETRY_BASE_DELAY_MS)),
        max_delay: RetryMaxDelay(Duration::from_millis(RETRY_MAX_DELAY_MS)),
    }
}

/// The exponential backoff delay before retry number `attempt` (counted from
/// zero), for any pair of delays.
///
/// Doubles `base_delay` once per earlier retry and clamps to `max_delay` the
/// moment doubling reaches or exceeds it. A base delay longer than the max
/// delay is clamped as well.
pub fn backoff_between(attempt: u32, base_delay: Duration, max_delay: Duration) -> (delay: Duration)
    ensures
        delay@ == doubled(base_delay@, max_delay@, attempt as nat),
{
    proof {
        vstd::arithmetic::power2::lemma2_to64();
    }
    // Doubling zero stays zero, so skip a loop that could not change anything.
    if base_delay.is_zero() {
        assert(base_delay@ * vstd::arithmetic::power2::pow2(attempt as nat) == 0)
            by (nonlinear_arith)
            requires
                base_delay@ == 0,
        ;
        return base_delay.min(max_delay);
    }
    let max_nanos: u128 = max_delay.as_nanos();
    let mut delay: Duration = base_delay;
    let mut step: u32 = 0;
    while step < attempt
        invariant
            step <= attempt,
            max_nanos == max_delay@,
            max_nanos <= crate::duration::MAX_NANOS,
            delay@ == base_delay@ * vstd::arithmetic::power2::pow2(step as nat),
        decreases attempt - step,
    {
        proof {
            lemma_doubling_step(base_delay@, step as nat, attempt as nat);
        }
        match delay.checked_mul(2) {
            Some(twice) if twice.as_nanos() < max_nanos => {
                delay = twice;
            },
            _ => {
                return max_delay;
            },
        }
        step = step + 1;
    }
    delay.min(max_delay)
}

/// One more doubling is a multiplication by two, and later doublings only add.
proof fn lemma_doubling_step(base_delay: nat, step: nat, attempt: nat)
    requires
        step < attempt,
    ensures
        base_delay * vstd::arithmetic::power2::pow2(step + 1) == (base_delay
            * vstd::arithmetic::power2::pow2(step)) * 2,
        base_delay * vstd::arithmetic::power2::pow2(step + 1) <= base_delay
            * vstd::arithmetic::power2::pow2(attempt),
{
    vstd::arithmetic::power2::lemma_pow2_unfold(step + 1);
    if step + 1 < attempt {
        vstd::arithmetic::power2::lemma_pow2_strictly_increases(step + 1, attempt);
    }
    let here = vstd::arithmetic::power2::pow2(step);
    let next = vstd::arithmetic::power2::pow2(step + 1);
    let last = vstd::arithmetic::power2::pow2(attempt);
    assert(base_delay * next == (base_delay * here) * 2) by (nonlinear_arith)
        requires
            next == 2 * here,
    ;
    assert(base_delay * next <= base_delay * last) by (nonlinear_arith)
        requires
            next <= last,
    ;
}

/// The exponential backoff delay before retry number `attempt` (counted from
/// zero).
pub fn backoff_delay(attempt: u32, schedule: RetrySchedule) -> (delay: Duration)
    ensures
        delay@ == schedule.delay(attempt as nat),
{
    backoff_between(attempt, schedule.base_delay.0, schedule.max_delay.0)
}

/// What to do after one attempt of a retried operation.
pub enum RetryStep<Output, Error> {
    /// Stop, with this as the outcome of the whole retried operation.
    Finish(Result<Output, Error>),
    /// Sleep for this long, then attempt the operation again.
    Wait(Duration),
}

/// Whether an operation that has been retried `attempt` times is retried once
/// more after failing.
pub open spec fn retries_again(max_attempts: nat, attempt: nat, retryable: bool) -> bool {
    attempt < max_attempts && retryable
}

/// A retried operation in progress: its budget, its schedule and the number
/// of retries spent so far.
///
/// Made by [`retry_with_backoff`]. The caller performs the operation and the
/// sleeping. After each attempt it
/// hands the outcome to [`Retry::step`] and does what the answer says.
pub struct Retry {
    max_attempts: u32,
    schedule: RetrySchedule,
    attempt: u32,
}

/// Takes on an operation that is to be retried with exponential backoff: up to
/// `max_attempts` retries, so `max_attempts + 1` attempts at most.
pub fn retry_with_backoff(max_attempts: u32, schedule: RetrySchedule) -> (retry: Retry)
    ensures
        retry.budget() == max_attempts,
        retry.spent() == 0,
        retry.schedule() == schedule,
{
    Retry { max_attempts, schedule, attempt: 0 }
}

impl Retry {
    #[verifier::type_invariant]
    spec fn within_budget(self) -> bool {
        self.attempt <= self.max_attempts
    }

    /// The number of retries allowed.
    pub closed spec fn budget(self) -> nat {
        self.max_attempts as nat
    }

    /// The number of retries spent.
    pub closed spec fn spent(self) -> nat {
        self.attempt as nat
    }

    /// The delays between attempts.
    pub closed spec fn schedule(self) -> RetrySchedule {
        self.schedule
    }

    /// Decides what follows an attempt that ended with `outcome`.
    ///
    /// Success finishes the operation. A failure is retried while the budget
    /// lasts and `should_retry` accepts the error, and finishes the operation
    /// otherwise. `should_retry` is not consulted once the budget is spent.
    pub fn step<Output, Error>(
        &mut self,
        outcome: Result<Output, Error>,
        should_retry: impl Fn(&Error) -> bool,
    ) -> (step: RetryStep<Output, Error>)
        requires
            outcome matches Err(error) ==> should_retry.requires((&error,)),
        ensures
            final(self).budget() == old(self).budget(),
            final(self).schedule() == old(self).schedule(),
            final(self).spent() <= final(self).budget(),
            match step {
                RetryStep::Finish(result) => {
                    &&& result == outcome
                    &&& final(self).spent() == old(self).spent()
                    &&& outcome matches Err(error) ==> {
                        ||| !retries_again(old(self).budget(), old(self).spent(), true)
                        ||| should_retry.ensures((&error,), false)
                    }
                    &&& outcome matches Err(error) ==> {
                        ||| old(self).spent() >= old(self).budget()
                        ||| should_retry.ensures((&error,), false)
                    }
                },
                RetryStep::Wait(delay) => {
                    &&& outcome matches Err(error)
                    &&& should_retry.ensures((&error,), true)
                    &&& retries_again(old(self).budget(), old(self).spent(), true)
                    &&& old(self).spent() < old(self).budget()
                    &&& delay@ == old(self).schedule().delay(old(self).spent())
                    &&& final(self).spent() == old(self).spent() + 1
                },
            },
    {
        proof {
            use_type_invariant(&*self);
        }
        match outcome {
            Ok(output) => RetryStep::Finish(Ok(output)),
            Err(error) => {
                if self.attempt < self.max_attempts && should_retry(&error) {
                    let delay: Duration = backoff_delay(self.attempt, self.schedule);
                    self.attempt = self.attempt + 1;
                    RetryStep::Wait(delay)
                } else {
                    RetryStep::Finish(Err(error))
                }
            },
        }
    }
}

/// The number of attempts a retried operation makes in all, once it has
/// already been retried `attempt` times.
///
/// `retryable` holds, for each attempt in turn, whether it fails with an error
/// that is accepted for a retry.
pub open spec fn attempts_made(max_attempts: nat, attempt: nat, retryable: Seq<bool>) -> nat
    decreases retryable.len() - attempt,
{
    if attempt < retryable.len() && retries_again(
        max_attempts,
        attempt,
        retryable[attempt as int],
    ) {
        attempts_made(max_attempts, attempt + 1, retryable)
    } else {
        attempt + 1
    }
}

/// An operation with a budget of `max_attempts` retries is attempted at most
/// `max_attempts + 1` times, every attempt but the last fails with a retryable
/// error, and the last either does not or spends the budget.
pub proof fn law_attempts_stay_within_budget(max_attempts: nat, retryable: Seq<bool>)
    requires
        retryable.len() > max_attempts,
    ensures
        1 <= attempts_made(max_attempts, 0, retryable) <= max_attempts + 1,
        forall|i: int|
            0 <= i < attempts_made(max_attempts, 0, retryable) - 1 ==> #[trigger] retryable[i],
        attempts_made(max_attempts, 0, retryable) <= max_attempts ==> !retryable[attempts_made(
            max_attempts,
            0,
            retryable,
        ) - 1],
{
    lemma_attempts_from(max_attempts, 0, retryable);
}

proof fn lemma_attempts_from(max_attempts: nat, attempt: nat, retryable: Seq<bool>)
    requires
        retryable.len() > max_attempts,
        attempt <= max_attempts,
    ensures
        attempt + 1 <= attempts_made(max_attempts, attempt, retryable) <= max_attempts + 1,
        forall|i: int|
            attempt <= i < attempts_made(max_attempts, attempt, retryable) - 1
                ==> #[trigger] retryable[i],
        attempts_made(max_attempts, attempt, retryable) <= max_attempts
            ==> !retryable[attempts_made(max_attempts, attempt, retryable) - 1],
    decreases max_attempts - attempt,
{
    if retries_again(max_attempts, attempt, retryable[attempt as int]) {
        lemma_attempts_from(max_attempts, attempt + 1, retryable);
    }
}

/// An operation that keeps failing with retryable errors is attempted exactly
/// `max_attempts + 1` times.
pub proof fn law_persistent_failure_spends_the_budget(max_attempts: nat, retryable: Seq<bool>)
    requires
        retryable.len() > max_attempts,
        forall|i: int| 0 <= i < max_attempts ==> #[trigger] retryable[i],
    ensures
        attempts_made(max_attempts, 0, retryable) == max_attempts + 1,
{
    law_attempts_stay_within_budget(max_attempts, retryable);
}

/// An operation whose first attempt succeeds, or fails with an error that is
/// not retryable, is attempted once.
pub proof fn law_settled_first_attempt_is_the_only_one(max_attempts: nat, retryable: Seq<bool>)
    requires
        retryable.len() > 0,
        !retryable[0],
    ensures
        attempts_made(max_attempts, 0, retryable) == 1,
{
}

/// The time slept over the first `retries` retries on a schedule, in
/// nanoseconds.
pub open spec fn total_wait(schedule: RetrySchedule, retries: nat) -> nat
    decreases retries,
{
    if retries == 0 {
        0
    } else {
        total_wait(schedule, (retries - 1) as nat) + schedule.delay((retries - 1) as nat)
    }
}

/// Spending the whole default budget on the default schedule sleeps for
/// 4.27 seconds in all.
pub proof fn law_default_retry_budget(schedule: RetrySchedule)
    requires
        schedule.base().0@ == RETRY_BASE_DELAY_MS * crate::duration::NANOS_PER_MILLI,
        schedule.ceiling().0@ == RETRY_MAX_DELAY_MS * crate::duration::NANOS_PER_MILLI,
    ensures
        total_wait(schedule, RETRY_MAX_ATTEMPTS as nat) == 4270 * crate::duration::NANOS_PER_MILLI,
{
    vstd::arithmetic::power2::lemma2_to64();
    assert(schedule.delay(0) == 10_000_000);
    assert(schedule.delay(1) == 20_000_000);
    assert(schedule.delay(2) == 40_000_000);
    assert(schedule.delay(3) == 80_000_000);
    assert(schedule.delay(4) == 160_000_000);
    assert(schedule.delay(5) == 320_000_000);
    assert(schedule.delay(6) == 640_000_000);
    assert(schedule.delay(7) == 1_000_000_000);
    assert(schedule.delay(8) == 1_000_000_000);
    assert(schedule.delay(9) == 1_000_000_000);
    reveal_with_fuel(total_wait, 11);
}

/// How long a caller is blocked by a retried operation whose attempts take up to
/// `attempt_time` each: by the attempts and by the sleeps between them.
pub open spec fn blocked_for(
    schedule: RetrySchedule,
    max_attempts: nat,
    retryable: Seq<bool>,
    attempt_time: nat,
) -> nat {
    let attempts = attempts_made(max_attempts, 0, retryable);
    attempts * attempt_time + total_wait(schedule, (attempts - 1) as nat)
}

/// On the default budget and schedule a caller is blocked for at most 4.27
/// seconds of sleep and eleven attempts, whatever the attempts come to.
pub proof fn law_default_retry_blocks_for_a_bounded_time(
    schedule: RetrySchedule,
    retryable: Seq<bool>,
    attempt_time: nat,
)
    requires
        schedule.base().0@ == RETRY_BASE_DELAY_MS * crate::duration::NANOS_PER_MILLI,
        schedule.ceiling().0@ == RETRY_MAX_DELAY_MS * crate::duration::NANOS_PER_MILLI,
        retryable.len() > RETRY_MAX_ATTEMPTS,
    ensures
        blocked_for(schedule, RETRY_MAX_ATTEMPTS as nat, retryable, attempt_time) <= 4270
            * crate::duration::NANOS_PER_MILLI + 11 * attempt_time,
{
    let attempts = attempts_made(RETRY_MAX_ATTEMPTS as nat, 0, retryable);
    law_attempts_stay_within_budget(RETRY_MAX_ATTEMPTS as nat, retryable);
    law_default_retry_budget(schedule);
    lemma_wait_grows(schedule, (attempts - 1) as nat, RETRY_MAX_ATTEMPTS as nat);
    assert(attempts * attempt_time <= 11 * attempt_time) by (nonlinear_arith)
        requires
            attempts <= 11,
    ;
}

proof fn lemma_wait_grows(schedule: RetrySchedule, fewer: nat, more: nat)
    requires
        fewer <= more,
    ensures
        total_wait(schedule, fewer) <= total_wait(schedule, more),
    decreases more,
{
    if fewer < more {
        lemma_wait_grows(schedule, fewer, (more - 1) as nat);
    }
}

/// However long a retried operation fails, it sleeps at most once per retry
/// and never longer than the max delay at a time.
pub proof fn law_total_wait_is_bounded(schedule: RetrySchedule, retries: nat)
    ensures
        total_wait(schedule, retries) <= retries * schedule.ceiling().0@,
    decreases retries,
{
    if retries > 0 {
        let fewer = (retries - 1) as nat;
        law_total_wait_is_bounded(schedule, fewer);
        let ceiling = schedule.ceiling().0@;
        assert(fewer * ceiling + ceiling == retries * ceiling) by (nonlinear_arith)
            requires
                retries == fewer + 1,
        ;
    }
}

/// A delay is the base delay doubled once per earlier retry as long as that is no
/// more than the max delay, and the max delay from then on.
pub proof fn law_delay_is_the_doubled_base_or_the_ceiling(
    base_delay: nat,
    max_delay: nat,
    attempt: nat,
)
    ensures
        base_delay * vstd::arithmetic::power2::pow2(attempt) <= max_delay ==> doubled(
            base_delay,
            max_delay,
            attempt,
        ) == base_delay * vstd::arithmetic::power2::pow2(attempt),
        base_delay * vstd::arithmetic::power2::pow2(attempt) > max_delay ==> doubled(
            base_delay,
            max_delay,
            attempt,
        ) == max_delay,
{
}

/// The delays of a schedule run from its base delay to its max delay.
pub proof fn law_schedule_doubles_its_own_delays(schedule: RetrySchedule, attempt: nat)
    ensures
        schedule.base().0@ * vstd::arithmetic::power2::pow2(attempt) <= schedule.ceiling().0@
            ==> schedule.delay(attempt) == schedule.base().0@ * vstd::arithmetic::power2::pow2(
            attempt,
        ),
        schedule.base().0@ * vstd::arithmetic::power2::pow2(attempt) > schedule.ceiling().0@
            ==> schedule.delay(attempt) == schedule.ceiling().0@,
{
}

/// The first delay is the shorter of the two delays. Each later one is twice the
/// one before it, or the max delay where that is less.
pub proof fn law_next_delay_is_twice_the_one_before(
    attempt: u32,
    base_delay: Duration,
    max_delay: Duration,
    delay: Duration,
    next: Duration,
)
    requires
        attempt < u32::MAX,
        call_ensures(backoff_between, (attempt, base_delay, max_delay), delay),
        call_ensures(backoff_between, ((attempt + 1) as u32, base_delay, max_delay), next),
    ensures
        attempt == 0 && base_delay@ <= max_delay@ ==> delay@ == base_delay@,
        attempt == 0 && base_delay@ > max_delay@ ==> delay@ == max_delay@,
        2 * delay@ <= max_delay@ ==> next@ == 2 * delay@,
        2 * delay@ > max_delay@ ==> next@ == max_delay@,
{
    vstd::arithmetic::power2::lemma2_to64();
    lemma_doubling_step(base_delay@, attempt as nat, attempt as nat + 1);
    let power = vstd::arithmetic::power2::pow2(attempt as nat);
    assert(power == 1 ==> base_delay@ * power == base_delay@) by (nonlinear_arith);
}

/// The delays of a schedule that was built are those between its two delays.
pub proof fn law_schedule_delays_between_its_bounds(
    base_delay: RetryBaseDelay,
    max_delay: RetryMaxDelay,
    schedule: RetrySchedule,
    attempt: u32,
    delay: Duration,
    between: Duration,
)
    requires
        call_ensures(RetrySchedule::new, (base_delay, max_delay), Ok(schedule)),
        call_ensures(backoff_delay, (attempt, schedule), delay),
        call_ensures(backoff_between, (attempt, base_delay.0, max_delay.0), between),
    ensures
        delay@ == between@,
        base_delay.0@ <= max_delay.0@,
        base_delay.0@ <= delay@ <= max_delay.0@,
{
    vstd::arithmetic::power2::lemma2_to64();
    law_delays_never_shrink(base_delay.0@, max_delay.0@, 0, attempt as nat);
}

/// A failure is retried exactly when it is retryable and the budget lasts.
pub proof fn law_retry_needs_budget_and_a_retryable_error(
    max_attempts: nat,
    attempt: nat,
    retryable: bool,
)
    ensures
        retries_again(max_attempts, attempt, retryable) <==> attempt < max_attempts && retryable,
{
}

/// The time slept is the sum of the delays.
pub proof fn law_total_wait_adds_up_the_delays(schedule: RetrySchedule, retries: nat)
    ensures
        total_wait(schedule, 0) == 0,
        total_wait(schedule, retries + 1) == total_wait(schedule, retries) + schedule.delay(
            retries,
        ),
{
}

/// Delays never shrink from one retry to the next.
pub proof fn law_delays_never_shrink(
    base_delay: nat,
    max_delay: nat,
    earlier: nat,
    later: nat,
)
    requires
        earlier <= later,
    ensures
        doubled(base_delay, max_delay, earlier) <= doubled(base_delay, max_delay, later),
{
    if earlier < later {
        vstd::arithmetic::power2::lemma_pow2_strictly_increases(earlier, later);
    }
    let before = vstd::arithmetic::power2::pow2(earlier);
    let after = vstd::arithmetic::power2::pow2(later);
    assert(base_delay * before <= base_delay * after) by (nonlinear_arith)
        requires
            before <= after,
    ;
}

/// A delay is at most the max delay, and exactly the base delay doubled once
/// per earlier retry while that is no more than the max delay. In particular
/// the first delay of a schedule is its base delay.
pub proof fn law_delay_doubles_up_to_the_ceiling(schedule: RetrySchedule, attempt: nat)
    ensures
        schedule.delay(attempt) <= schedule.ceiling().0@,
        schedule.base().0@ <= schedule.ceiling().0@ ==> schedule.delay(0) == schedule.base().0@,
        schedule.delay(attempt + 1) == crate::duration::shorter(
            2 * schedule.delay(attempt),
            schedule.ceiling().0@,
        ),
{
    vstd::arithmetic::power2::lemma2_to64();
    lemma_doubling_step(schedule.base().0@, attempt, attempt + 1);
}

} // verus!
