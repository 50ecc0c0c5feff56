use event_sorcery::retry::backoff_between;
use event_sorcery::{
    backoff_delay, retry_schedule, retry_with_backoff, Duration, ErrorKind, ErrorNode,
    IdempotentReactor, Reactor, RetryBaseDelay, RetryMaxDelay, RetryOnBusy, RetrySchedule,
    RetryScheduleError, RetryStep, RETRY_MAX_ATTEMPTS,
};
use std::time::Duration as Std;

fn schedule(base: Duration, max: Duration) -> RetrySchedule {
    RetrySchedule::new(RetryBaseDelay(base), RetryMaxDelay(max)).unwrap()
}

fn millis(millis: u64) -> Duration {
    Duration::from_millis(millis)
}

#[derive(Debug, PartialEq, Eq)]
enum SyntheticError {
    Retryable,
    Permanent,
}

fn is_synthetic_retryable(error: &SyntheticError) -> bool {
    matches!(error, SyntheticError::Retryable)
}

const TEST_MAX_ATTEMPTS: u32 = 3;

fn test_schedule() -> RetrySchedule {
    schedule(millis(1), millis(5))
}

/// Runs attempts to the end, without sleeping. Gives the outcome, the number
/// of attempts and the delays asked for.
fn run(
    max_attempts: u32,
    schedule: RetrySchedule,
    mut attempt: impl FnMut(u32) -> Result<u32, SyntheticError>,
) -> (Result<u32, SyntheticError>, u32, Vec<Duration>) {
    let mut retry = retry_with_backoff(max_attempts, schedule);
    let mut calls = 0;
    let mut delays = Vec::new();
    loop {
        let outcome = attempt(calls);
        calls += 1;
        match retry.step(outcome, is_synthetic_retryable) {
            RetryStep::Finish(result) => return (result, calls, delays),
            RetryStep::Wait(delay) => delays.push(delay),
        }
    }
}

#[test]
fn retry_with_backoff_succeeds_on_first_attempt() {
    let (result, calls, delays) = run(TEST_MAX_ATTEMPTS, test_schedule(), |_| Ok(42));
    assert_eq!(result.unwrap(), 42);
    assert_eq!(calls, 1);
    assert!(delays.is_empty());
}

#[test]
fn retry_with_backoff_retries_then_succeeds() {
    let (result, calls, delays) = run(TEST_MAX_ATTEMPTS, test_schedule(), |attempt| {
        if attempt < 2 {
            Err(SyntheticError::Retryable)
        } else {
            Ok(42)
        }
    });
    assert_eq!(result.unwrap(), 42);
    assert_eq!(calls, 3);
    assert_eq!(delays, vec![millis(1), millis(2)]);
}

#[test]
fn retry_with_backoff_stops_immediately_on_non_retryable_error() {
    let (result, calls, _) = run(TEST_MAX_ATTEMPTS, test_schedule(), |_| {
        Err(SyntheticError::Permanent)
    });
    assert_eq!(result.unwrap_err(), SyntheticError::Permanent);
    assert_eq!(calls, 1);
}

#[test]
fn retry_with_backoff_exhausts_budget_and_returns_err() {
    let (result, calls, delays) = run(TEST_MAX_ATTEMPTS, test_schedule(), |_| {
        Err(SyntheticError::Retryable)
    });
    assert_eq!(result.unwrap_err(), SyntheticError::Retryable);
    assert_eq!(calls, TEST_MAX_ATTEMPTS + 1);
    assert_eq!(delays, vec![millis(1), millis(2), millis(4)]);
}

#[test]
fn retry_with_backoff_caps_delay_without_overflow_at_high_attempt_counts() {
    const HIGH_MAX_ATTEMPTS: u32 = 70;
    let (result, calls, delays) = run(HIGH_MAX_ATTEMPTS, schedule(millis(1), millis(1)), |_| {
        Err(SyntheticError::Retryable)
    });
    assert_eq!(result.unwrap_err(), SyntheticError::Retryable);
    assert_eq!(calls, HIGH_MAX_ATTEMPTS + 1);
    assert!(delays.iter().all(|delay| *delay == millis(1)));
}

#[test]
fn a_budget_of_no_retries_makes_one_attempt() {
    let (result, calls, _) = run(0, test_schedule(), |_| Err(SyntheticError::Retryable));
    assert_eq!(result.unwrap_err(), SyntheticError::Retryable);
    assert_eq!(calls, 1);
}

#[test]
fn a_permanent_error_ends_retries_under_way() {
    let (result, calls, _) = run(TEST_MAX_ATTEMPTS, test_schedule(), |attempt| {
        if attempt == 0 {
            Err(SyntheticError::Retryable)
        } else {
            Err(SyntheticError::Permanent)
        }
    });
    assert_eq!(result.unwrap_err(), SyntheticError::Permanent);
    assert_eq!(calls, 2);
}

#[test]
fn default_budget_sleeps_for_about_four_seconds() {
    let (_, calls, delays) = run(RETRY_MAX_ATTEMPTS, retry_schedule(), |_| {
        Err(SyntheticError::Retryable)
    });
    assert_eq!(calls, 11);
    let expected: Vec<Duration> = [10, 20, 40, 80, 160, 320, 640, 1000, 1000, 1000]
        .into_iter()
        .map(millis)
        .collect();
    assert_eq!(delays, expected);
    let total: u128 = delays.iter().map(Duration::as_nanos).sum();
    assert_eq!(total, 4_270_000_000);
}

#[test]
fn backoff_delay_applies_base_and_max_by_role() {
    let schedule = schedule(millis(10), millis(1000));
    assert_eq!(backoff_delay(0, schedule), millis(10));
    assert_eq!(backoff_delay(6, schedule), millis(640));
    assert_eq!(backoff_delay(7, schedule), millis(1000));
}

#[test]
fn backoff_delay_clamps_base_delay_exceeding_max_delay() {
    assert_eq!(backoff_between(0, millis(1000), millis(10)), millis(10));
    assert_eq!(backoff_between(3, millis(1000), millis(10)), millis(10));
}

#[test]
fn retry_schedule_new_rejects_base_exceeding_max() {
    let error =
        RetrySchedule::new(RetryBaseDelay(millis(1000)), RetryMaxDelay(millis(10))).unwrap_err();
    assert!(matches!(
        error,
        RetryScheduleError::BaseExceedsMax { base, max }
        if base == RetryBaseDelay(millis(1000)) && max == RetryMaxDelay(millis(10))
    ));
}

#[test]
fn retry_schedule_new_accepts_base_equal_max() {
    let schedule = RetrySchedule::new(RetryBaseDelay(millis(5)), RetryMaxDelay(millis(5))).unwrap();
    assert_eq!(schedule.base_delay(), RetryBaseDelay(millis(5)));
    assert_eq!(schedule.max_delay(), RetryMaxDelay(millis(5)));
}

#[test]
fn retry_schedule_new_accepts_base_less_than_max() {
    RetrySchedule::new(RetryBaseDelay(millis(1)), RetryMaxDelay(millis(5))).unwrap();
}

#[test]
fn backoff_delay_saturates_to_max_on_duration_overflow() {
    let schedule = schedule(Duration::from_secs(1), Duration::longest());
    assert_eq!(backoff_delay(70, schedule), Duration::longest());
}

#[test]
fn backoff_delay_is_bounded_for_zero_base_delay() {
    let schedule = schedule(Duration::zero(), Duration::from_secs(1));
    assert_eq!(backoff_delay(1_000_000, schedule), Duration::zero());
    assert_eq!(backoff_delay(u32::MAX, schedule), Duration::zero());
}

#[test]
fn spans_behave_like_the_standard_ones() {
    assert_eq!(Duration::longest().as_nanos(), Std::MAX.as_nanos());
    assert_eq!(Duration::longest().as_secs(), Std::MAX.as_secs());
    assert_eq!(Duration::longest().subsec_nanos(), Std::MAX.subsec_nanos());
    assert_eq!(Duration::zero().as_nanos(), Std::ZERO.as_nanos());
    assert!(Duration::zero().is_zero());
    assert!(!Duration::new(0, 1).is_zero());
    for (secs, nanos) in [(0, 0), (1, 1), (7, 999_999_999), (u64::MAX, 0), (u64::MAX / 3, 5)] {
        let (ours, theirs) = (Duration::new(secs, nanos), Std::new(secs, nanos));
        assert_eq!(ours.as_nanos(), theirs.as_nanos());
        assert_eq!(ours.as_secs(), theirs.as_secs());
        assert_eq!(ours.subsec_nanos(), theirs.subsec_nanos());
        for factor in [0, 1, 2, 3, 1000, u32::MAX] {
            assert_eq!(
                ours.checked_mul(factor).map(|span| span.as_nanos()),
                theirs.checked_mul(factor).map(|span| span.as_nanos())
            );
        }
    }
    assert_eq!(millis(1500).as_secs(), 1);
    assert_eq!(millis(1500).subsec_nanos(), 500_000_000);
    assert_eq!(millis(3).min(millis(2)), millis(2));
}

struct FlakyReactor;

impl Reactor for FlakyReactor {
    type Event = (String, u32);
    type Error = &'static str;
}

impl IdempotentReactor for FlakyReactor {}

fn busy(code: &str) -> ErrorNode {
    ErrorNode {
        kind: ErrorKind::Opaque,
        source: Some(Box::new(ErrorNode {
            kind: ErrorKind::SqlxDatabase(Some(code.to_string())),
            source: None,
        })),
    }
}

fn permanent() -> ErrorNode {
    ErrorNode {
        kind: ErrorKind::Opaque,
        source: None,
    }
}

/// Two lock conflicts with `busy_code`, then success. Every attempt gets the
/// very event that was dispatched.
fn retry_on_busy_retries_then_succeeds(busy_code: &str) {
    let wrapped = RetryOnBusy {
        inner: FlakyReactor,
    };
    let mut reaction = wrapped.react(("id-1".to_string(), 42));
    let mut received = Vec::new();
    let mut remaining_busy_failures = 2;
    loop {
        received.push(reaction.event().clone());
        let outcome = if remaining_busy_failures > 0 {
            remaining_busy_failures -= 1;
            Err(("busy", busy(busy_code)))
        } else {
            Ok(())
        };
        match reaction.step(outcome) {
            RetryStep::Wait(_) => {}
            RetryStep::Finish(result) => {
                assert!(result.is_ok());
                break;
            }
        }
    }
    assert_eq!(received, vec![("id-1".to_string(), 42); 3]);
}

#[test]
fn retry_on_busy_retries_busy_classified_error_then_succeeds() {
    retry_on_busy_retries_then_succeeds("5");
}

#[test]
fn retry_on_busy_retries_busy_snapshot_classified_error_then_succeeds() {
    retry_on_busy_retries_then_succeeds("517");
}

#[test]
fn retry_on_busy_does_not_retry_non_busy_error() {
    let wrapped = RetryOnBusy {
        inner: FlakyReactor,
    };
    let mut reaction = wrapped.react(("id-1".to_string(), 42));
    match reaction.step(Err(("permanent", permanent()))) {
        RetryStep::Finish(Err((error, _))) => assert_eq!(error, "permanent"),
        _ => panic!("a permanent failure is not retried"),
    }
}

#[test]
fn retry_on_busy_gives_up_after_the_default_budget() {
    let wrapped = RetryOnBusy {
        inner: FlakyReactor,
    };
    let mut reaction = wrapped.react(("id-1".to_string(), 42));
    for retry in 0..RETRY_MAX_ATTEMPTS {
        match reaction.step(Err(("busy", busy("5")))) {
            RetryStep::Wait(delay) => assert_eq!(delay, backoff_delay(retry, retry_schedule())),
            RetryStep::Finish(_) => panic!("the budget is not spent yet"),
        }
    }
    assert!(matches!(
        reaction.step(Err(("busy", busy("5")))),
        RetryStep::Finish(Err(("busy", _)))
    ));
}
