use event_sorcery::job::build_poll_config;
use event_sorcery::{
    fail_stop_recovery_timeout, on_terminal_failure, retry_backoff, work, Duration,
    ExponentialBackoff, Job, JobError, Label, WorkerAction, WorkerEvent,
};
use std::borrow::Cow;
use std::cell::Cell;
use std::convert::Infallible;

enum SendEmail {
    Welcome { address: String },
    Reminder { address: String },
}

impl Job for SendEmail {
    type Input = ();
    type Output = ();
    type Error = Infallible;

    const WORKER_NAME: &'static str = "send-email";
    const KIND: &'static str = "send-email";

    fn label(&self) -> Label {
        match self {
            Self::Welcome { address } => Label::new(format!("welcome:{address}")),
            Self::Reminder { address } => Label::new(format!("reminder:{address}")),
        }
    }
}

struct Failing;

impl Job for Failing {
    type Input = ();
    type Output = u8;
    type Error = &'static str;

    const WORKER_NAME: &'static str = "failing";
    const KIND: &'static str = "failing-kind";
    const TERMINAL_FAILURE_MSG: &'static str = "gave up";

    fn label(&self) -> Label {
        Label::new("failing:1")
    }
}

struct Counting {
    tries: Cell<u32>,
}

impl Counting {
    fn try_once(&self) -> Result<(), &'static str> {
        self.tries.set(self.tries.get() + 1);
        Err("full")
    }
}

impl Job for Counting {
    type Input = ();
    type Output = ();
    type Error = &'static str;

    const WORKER_NAME: &'static str = "counting";
    const KIND: &'static str = "counting";

    fn label(&self) -> Label {
        Label::new(format!("counting:{}", self.tries.get()))
    }
}

#[test]
fn label_reflects_variant_and_renders_via_display() {
    let welcome = SendEmail::Welcome {
        address: "a@example.com".to_string(),
    };
    let reminder = SendEmail::Reminder {
        address: "b@example.com".to_string(),
    };

    assert_eq!(welcome.label().to_string(), "welcome:a@example.com");
    assert_eq!(reminder.label().to_string(), "reminder:b@example.com");
}

#[test]
fn labels_are_made_of_owned_and_borrowed_text() {
    assert_eq!(Label::new("x").as_str(), "x");
    assert_eq!(Label::new("x".to_string()).as_str(), "x");
    assert_eq!(Label::new("x").clone().as_str(), "x");
    assert_eq!(Label::new(&"x".to_string()).as_str(), "x");
    assert_eq!(Label::new("x".to_string().as_mut_str()).as_str(), "x");
    assert_eq!(Label::new("x".to_string().into_boxed_str()).as_str(), "x");
    assert_eq!(Label::new(Cow::Borrowed("x")).as_str(), "x");
    assert_eq!(Label::new(Cow::Owned("x".to_string())).as_str(), "x");
}

#[test]
fn label_of_one_character_is_that_character() {
    assert_eq!(Label::new('x').as_str(), "x");
    assert_eq!(Label::new('\u{1f4e7}').as_str(), "\u{1f4e7}");
}

#[test]
fn terminal_failure_message_has_a_default() {
    assert_eq!(SendEmail::TERMINAL_FAILURE_MSG, "Job failed after retries");
    assert_eq!(Failing::TERMINAL_FAILURE_MSG, "gave up");
}

#[test]
fn failure_is_reported_under_the_label_of_the_job() {
    let outcome: Result<u8, &str> = Err("no mail server");
    let error = work(&Failing).finish(outcome).unwrap_err();
    assert_eq!(error.message("no mail server"), "failing:1: no mail server");
    match error {
        JobError::Failed { label, source } => {
            assert_eq!(label.as_str(), "failing:1");
            assert_eq!(source, "no mail server");
        }
        JobError::Injected => panic!("nothing was injected"),
    }
}

#[test]
fn success_is_handed_on() {
    let outcome: Result<u8, &str> = Ok(7);
    assert!(matches!(work(&Failing).finish(outcome), Ok(7)));
}

#[test]
fn failure_is_reported_under_the_label_from_before_the_run() {
    let job = Counting { tries: Cell::new(0) };
    let run = work(&job);
    assert_eq!(run.label().as_str(), "counting:0");
    let error = run.finish(job.try_once()).unwrap_err();
    assert_eq!(error.message("full"), "counting:0: full");
    assert_eq!(job.label().as_str(), "counting:1");
}

#[test]
fn injected_failure_says_so() {
    let error: JobError<&str> = JobError::Injected;
    assert_eq!(error.message("ignored"), "injected terminal job failure");
}

#[test]
fn only_an_error_stops_the_worker() {
    assert_eq!(
        on_terminal_failure(WorkerEvent::Error),
        WorkerAction::NotifyAndStop
    );
    assert_eq!(
        on_terminal_failure(WorkerEvent::Other),
        WorkerAction::Continue
    );
}

#[test]
fn retry_backoff_doubles_from_one_second_to_half_a_minute() {
    let mut backoff = retry_backoff();
    let delays: Vec<u64> = (0..8).map(|_| backoff.next_backoff().as_secs()).collect();
    assert_eq!(delays, vec![1, 2, 4, 8, 16, 30, 30, 30]);
}

#[test]
fn backoff_doubles_all_the_way_to_its_ceiling() {
    let mut backoff = ExponentialBackoff::new(Duration::from_secs(1), Duration::longest());
    let delays: Vec<Duration> = (0..70).map(|_| backoff.next_backoff()).collect();
    for (given, delay) in delays.iter().enumerate().take(64) {
        assert_eq!(*delay, Duration::from_secs(1 << given));
    }
    assert!(delays[64..].iter().all(|delay| *delay == Duration::longest()));

    let mut longest = ExponentialBackoff::new(Duration::longest(), Duration::longest());
    longest.next_backoff();
    assert_eq!(longest.next_backoff(), Duration::longest());
}

#[test]
fn backoff_from_the_shortest_span_goes_on_doubling() {
    let mut backoff = ExponentialBackoff::new(Duration::new(0, 1), Duration::longest());
    let delays: Vec<u128> = (0..40).map(|_| backoff.next_backoff().as_nanos()).collect();
    assert_eq!(delays[31], 1 << 31);
    assert_eq!(delays[32], 1 << 32);
    assert_eq!(delays[33], 1 << 33);
    assert_eq!(delays[39], 1 << 39);
}

#[test]
fn backoff_below_its_base_stays_at_the_ceiling() {
    let mut backoff = ExponentialBackoff::new(Duration::from_secs(9), Duration::from_secs(2));
    assert_eq!(backoff.next_backoff(), Duration::from_secs(2));
    assert_eq!(backoff.next_backoff(), Duration::from_secs(2));
}

#[test]
fn cloned_backoff_goes_on_by_itself() {
    let mut backoff = retry_backoff();
    backoff.next_backoff();
    let mut copy = backoff.clone();
    assert_eq!(copy.next_backoff(), Duration::from_secs(2));
    assert_eq!(copy.next_backoff(), Duration::from_secs(4));
    assert_eq!(backoff.next_backoff(), Duration::from_secs(2));
}

#[test]
fn breaker_recovers_after_a_year() {
    assert_eq!(fail_stop_recovery_timeout().as_secs(), 60 * 60 * 24 * 365);
}

#[test]
fn queues_are_polled_ten_times_a_second_at_first() {
    let config = build_poll_config();
    assert_eq!(config.interval, Duration::from_millis(100));
    assert_eq!(config.backoff, Duration::from_secs(1));
}
