//! Durable, retryable jobs for the side effects of commands.
use crate::duration::Duration;
use crate::retry::backoff_between;
use std::borrow::Cow;
use vstd::prelude::*;
use vstd::string::*;

verus! {

/// Text that a label can be made of.
pub trait LabelText: Sized {
    /// The characters of the text.
    spec fn chars(self) -> Seq<char>;

    /// The text as an owned string.
    fn into_text(self) -> (text: String)
        ensures
            text@ == self.chars(),
    ;
}

impl LabelText for String {
    open spec fn chars(self) -> Seq<char> {
        self@
    }

    fn into_text(self) -> (text: String) {
        self
    }
}

impl LabelText for &str {
    open spec fn chars(self) -> Seq<char> {
        self@
    }

    fn into_text(self) -> (text: String) {
        self.to_owned()
    }
}

impl LabelText for &String {
    open spec fn chars(self) -> Seq<char> {
        self@
    }

    fn into_text(self) -> (text: String) {
        self.clone()
    }
}

impl LabelText for Box<str> {
    open spec fn chars(self) -> Seq<char> {
        (*self)@
    }

    fn into_text(self) -> (text: String) {
        (*self).to_owned()
    }
}

impl LabelText for &mut str {
    open spec fn chars(self) -> Seq<char> {
        (*self)@
    }

    fn into_text(self) -> (text: String)
        ensures
            text@ == (*old(self))@,
    {
        (*self).to_owned()
    }
}

/// The string of one character, as `String::from` gives it for a `char`.
pub assume_specification[ <String as From<char>>::from ](c: char) -> (text: String)
    ensures
        text@ == seq![c],
;

impl LabelText for char {
    open spec fn chars(self) -> Seq<char> {
        seq![self]
    }

    fn into_text(self) -> (text: String) {
        String::from(self)
    }
}

impl LabelText for Cow<'_, str> {
    open spec fn chars(self) -> Seq<char> {
        match self {
            Cow::Borrowed(text) => text@,
            Cow::Owned(text) => text@,
        }
    }

    fn into_text(self) -> (text: String) {
        match self {
            Cow::Borrowed(text) => text.to_owned(),
            Cow::Owned(text) => text,
        }
    }
}

/// Of whatever type a text is, it gives a label all of its characters.
pub proof fn law_label_text_is_the_whole_text(
    owned: String,
    borrowed: &str,
    boxed: Box<str>,
    c: char,
)
    ensures
        LabelText::chars(owned) == owned@,
        LabelText::chars(&owned) == owned@,
        LabelText::chars(borrowed) == borrowed@,
        LabelText::chars(boxed) == (*boxed)@,
        LabelText::chars(c) == seq![c],
        LabelText::chars(Cow::<str>::Borrowed(borrowed)) == borrowed@,
        LabelText::chars(Cow::<str>::Owned(owned)) == owned@,
{
}

/// Human-readable identifier of a job instance, viewed as its characters.
#[derive(Debug)]
pub struct Label {
    text: String,
}

impl View for Label {
    type V = Seq<char>;

    closed spec fn view(&self) -> Seq<char> {
        self.text@
    }
}

impl Clone for Label {
    fn clone(&self) -> (copy: Self)
        ensures
            copy@ == self@,
    {
        Self { text: self.text.clone() }
    }
}

impl Label {
    /// Wraps a text as a label.
    pub fn new(label: impl LabelText) -> (wrapped: Self)
        ensures
            wrapped@ == label.chars(),
    {
        Self { text: label.into_text() }
    }

    /// The text of the label.
    pub fn as_str(&self) -> (text: &str)
        ensures
            text@ == self@,
    {
        self.text.as_str()
    }

    /// The label as it is shown: its text, as it is.
    pub fn to_string(&self) -> (text: String)
        ensures
            text@ == self@,
    {
        self.text.clone()
    }
}

/// A durable, retryable unit of side-effecting work.
pub trait Job: Sized + Send + 'static {
    /// What the job is performed against.
    type Input: Send + Sync + 'static;

    /// What a job that succeeds produces.
    type Output: Send + 'static;

    /// What a job that fails reports.
    type Error: Send + Sync + 'static;

    /// What the names of this job's workers begin with.
    const WORKER_NAME: &'static str;

    /// Stable identifier of this kind of job.
    const KIND: &'static str;

    /// Logged when retries are exhausted.
    const TERMINAL_FAILURE_MSG: &'static str = "Job failed after retries";

    /// Human-readable label of this instance.
    fn label(&self) -> Label;
}

/// Why a worker gives up on a job. `Source` is what the job reported.
#[derive(Debug)]
pub enum JobError<Source> {
    /// The job itself failed.
    Failed {
        /// Label of the failed job instance.
        label: Label,
        /// What it reported.
        source: Source,
    },
    /// A failure that was injected on purpose.
    Injected,
}

impl<Source> JobError<Source> {
    /// The error as it is shown, where `source` is what the job reported, as
    /// that is shown.
    pub fn message(&self, source: &str) -> (text: String)
        ensures
            match *self {
                JobError::Failed { label, .. } => text@ == label@ + ": "@ + source@,
                JobError::Injected => text@ == "injected terminal job failure"@,
            },
    {
        match self {
            JobError::Failed { label, .. } => {
                let mut text = label.to_string();
                text.append(": ");
                text.append(source);
                text
            },
            JobError::Injected => "injected terminal job failure".to_owned(),
        }
    }
}

/// A job that a worker has taken on. Its label was taken before it ran, so it
/// does not show what running it changes.
#[derive(Debug)]
pub struct JobRun {
    label: Label,
}

/// Takes on a job: takes its label, before it is performed.
pub fn work<J: Job>(job: &J) -> (run: JobRun)
    ensures
        call_ensures(J::label, (job,), run.taken()),
{
    JobRun { label: job.label() }
}

impl JobRun {
    /// The label that was taken.
    pub closed spec fn taken(self) -> Label {
        self.label
    }

    /// The label that was taken.
    pub fn label(&self) -> (label: &Label)
        ensures
            *label == self.taken(),
    {
        &self.label
    }

    /// Hands on the outcome of the job once it was performed, a failure under
    /// the label that was taken.
    pub fn finish<Output, Source>(self, outcome: Result<Output, Source>) -> (result: Result<
        Output,
        JobError<Source>,
    >)
        ensures
            result == match outcome {
                Ok(output) => Ok(output),
                Err(source) => Err(JobError::Failed { label: self.taken(), source }),
            },
    {
        match outcome {
            Ok(output) => Ok(output),
            Err(source) => Err(JobError::Failed { label: self.label, source }),
        }
    }
}

/// What a worker reports.
#[derive(Debug, Clone, Copy, PartialEq, Eq, Structural)]
pub enum WorkerEvent {
    /// A job failed, and its retries are exhausted.
    Error,
    /// Anything else.
    Other,
}

/// What is done about a worker's report.
#[derive(Debug, Clone, Copy, PartialEq, Eq, Structural)]
pub enum WorkerAction {
    /// Log the error, wake the supervisor, and stop the worker.
    NotifyAndStop,
    /// Nothing.
    Continue,
}

/// Stops the worker on a terminal failure, and on nothing else.
pub fn on_terminal_failure(event: WorkerEvent) -> (action: WorkerAction)
    ensures
        action is NotifyAndStop <==> event is Error,
{
    match event {
        WorkerEvent::Error => WorkerAction::NotifyAndStop,
        WorkerEvent::Other => WorkerAction::Continue,
    }
}

/// Circuit-breaker recovery timeout, in seconds: a year, so that a tripped
/// breaker in effect stays open until the supervisor restarts.
pub const FAIL_STOP_RECOVERY_TIMEOUT_SECS: u64 = 60 * 60 * 24 * 365;

/// First delay between two runs of a job, in seconds.
pub const RETRY_BACKOFF_BASE_SECS: u64 = 1;

/// Longest delay between two runs of a job, in seconds.
pub const RETRY_BACKOFF_MAX_SECS: u64 = 30;

/// How long an idle worker waits between two looks at the queue, in
/// milliseconds.
pub const POLL_INTERVAL_MS: u64 = 100;

/// What the wait between two looks at the queue grows to at most, in seconds.
pub const POLL_BACKOFF_SECS: u64 = 1;

/// Circuit-breaker recovery timeout.
pub fn fail_stop_recovery_timeout() -> (timeout: Duration)
    ensures
        timeout@ == 31_536_000 * crate::duration::NANOS_PER_SEC,
{
    Duration::from_secs(FAIL_STOP_RECOVERY_TIMEOUT_SECS)
}

/// How the queue of a type of job is polled.
#[derive(Debug, Clone, Copy)]
pub struct PollConfig {
    /// The wait between two looks at the queue.
    pub interval: Duration,
    /// What the wait grows to at most.
    pub backoff: Duration,
}

/// The polling of every job queue.
pub fn build_poll_config() -> (config: PollConfig)
    ensures
        config.interval@ == POLL_INTERVAL_MS * crate::duration::NANOS_PER_MILLI,
        config.backoff@ == POLL_BACKOFF_SECS * crate::duration::NANOS_PER_SEC,
        config.interval@ == 100_000_000,
        config.backoff@ == 1_000_000_000,
{
    PollConfig {
        interval: Duration::from_millis(POLL_INTERVAL_MS),
        backoff: Duration::from_secs(POLL_BACKOFF_SECS),
    }
}

/// Exponential backoff between the runs of a job.
#[derive(Debug)]
pub struct ExponentialBackoff {
    base: Duration,
    max: Duration,
    iteration: u32,
}

impl Clone for ExponentialBackoff {
    fn clone(&self) -> (copy: Self)
        ensures
            copy == *self,
    {
        Self { base: self.base, max: self.max, iteration: self.iteration }
    }
}

impl ExponentialBackoff {
    /// The first delay, in nanoseconds.
    pub closed spec fn base(self) -> nat {
        self.base@
    }

    /// The longest delay, in nanoseconds.
    pub closed spec fn ceiling(self) -> nat {
        self.max@
    }

    /// The number of delays given so far, at most [`u32::MAX`].
    pub closed spec fn given(self) -> nat {
        self.iteration as nat
    }

    /// A backoff that starts at `base` and doubles up to `max`.
    pub fn new(base: Duration, max: Duration) -> (backoff: Self)
        ensures
            backoff.base() == base@,
            backoff.ceiling() == max@,
            backoff.given() == 0,
    {
        Self { base, max, iteration: 0 }
    }

    /// The delay before the next run: the base doubled once per delay given so
    /// far, but never more than the ceiling.
    pub fn next_backoff(&mut self) -> (delay: Duration)
        ensures
            delay@ == crate::retry::doubled(
                old(self).base(),
                old(self).ceiling(),
                old(self).given(),
            ),
            final(self).base() == old(self).base(),
            final(self).ceiling() == old(self).ceiling(),
            final(self).given() == crate::duration::shorter(
                old(self).given() + 1,
                u32::MAX as nat,
            ),
    {
        let delay = backoff_between(self.iteration, self.base, self.max);
        self.iteration = self.iteration.saturating_add(1);
        delay
    }
}

/// Retry backoff of job execution: from a second, doubling, up to half a
/// minute.
pub fn retry_backoff() -> (backoff: ExponentialBackoff)
    ensures
        backoff.base() == RETRY_BACKOFF_BASE_SECS * crate::duration::NANOS_PER_SEC,
        backoff.ceiling() == RETRY_BACKOFF_MAX_SECS * crate::duration::NANOS_PER_SEC,
        backoff.base() == 1_000_000_000,
        backoff.ceiling() == 30_000_000_000,
        backoff.given() == 0,
{
    ExponentialBackoff::new(
        Duration::from_secs(RETRY_BACKOFF_BASE_SECS),
        Duration::from_secs(RETRY_BACKOFF_MAX_SECS),
    )
}

/// Of two delays that a backoff gives one after the other, the second is twice
/// the first, or the ceiling where that is less, until so many delays were given
/// that their count has run out. A new backoff gives its base first.
pub proof fn law_backoff_gives_twice_the_delay_before(
    first: &mut ExponentialBackoff,
    delay: Duration,
    second: &mut ExponentialBackoff,
    next: Duration,
)
    requires
        call_ensures(ExponentialBackoff::next_backoff, (first,), delay),
        *old(second) == *final(first),
        call_ensures(ExponentialBackoff::next_backoff, (second,), next),
        old(first).given() < u32::MAX,
    ensures
        2 * delay@ <= old(first).ceiling() ==> next@ == 2 * delay@,
        2 * delay@ > old(first).ceiling() ==> next@ == old(first).ceiling(),
        old(first).given() == 0 && old(first).base() <= old(first).ceiling() ==> delay@ == old(
            first,
        ).base(),
{
    law_backoff_doubles_from_the_base_to_the_ceiling(
        old(first).base(),
        old(first).ceiling(),
        old(first).given(),
    );
}

/// The first delay is the base, unless the ceiling is lower. Each delay after it
/// is twice the one before, up to the ceiling, and none is longer than that.
pub proof fn law_backoff_doubles_from_the_base_to_the_ceiling(base: nat, max: nat, given: nat)
    ensures
        crate::retry::doubled(base, max, 0) == crate::duration::shorter(base, max),
        crate::retry::doubled(base, max, given + 1) == crate::duration::shorter(
            2 * crate::retry::doubled(base, max, given),
            max,
        ),
        crate::retry::doubled(base, max, given) <= max,
{
    let (power, next) = (
        vstd::arithmetic::power2::pow2(given),
        vstd::arithmetic::power2::pow2(given + 1),
    );
    vstd::arithmetic::power2::lemma2_to64();
    vstd::arithmetic::power2::lemma_pow2_unfold(given + 1);
    assert(base * next == 2 * (base * power)) by (nonlinear_arith)
        requires
            next == 2 * power,
    ;
}

} // verus!
