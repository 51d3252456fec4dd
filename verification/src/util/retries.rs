//! Retry behaviour as data: what to do after a failure is decided by the
//! error itself.

use crate::text::{decimal, decimal_text};
use std::marker::PhantomData;
use vstd::prelude::*;
use vstd::string::*;

verus! {

/// What to do after a failed attempt.
#[derive(Clone, Copy, Debug, PartialEq, Eq, Structural)]
pub enum RetryPolicy {
    /// Give up now.
    Break,
    /// Wait this many milliseconds, then try again.
    Delay(u64),
}

/// How loudly a retry is reported.
#[derive(Clone, Copy, Debug, PartialEq, Eq, Structural)]
pub enum Level {
    Error,
    Warn,
    Info,
    Debug,
    Trace,
}

/// An error type that says how failed attempts are retried.
pub trait Retryable: Sized {
    /// How many times an attempt is made again, at most.
    spec fn retry_limit() -> u32;

    /// The first delay of the doubling schedule, in milliseconds.
    spec fn initial_delay() -> u64;

    /// The level at which retries are reported, if they are.
    spec fn report_level() -> Option<Level>;

    /// What this error asks for; `None` asks for the doubling schedule.
    spec fn policy(&self) -> Option<RetryPolicy>;

    /// Return the maximum number of retries.
    fn max_retries() -> (limit: u32)
        ensures
            limit == Self::retry_limit(),
    ;

    /// Return the default initial delay, in milliseconds.
    fn default_initial_delay() -> (delay: u64)
        ensures
            delay == Self::initial_delay(),
    ;

    /// Return the log level for this error type (an empty value indicates
    /// that no logging will be done).
    fn log_level() -> (level: Option<Level>)
        ensures
            level == Self::report_level(),
    ;

    /// Return a retry policy for the given error value.
    ///
    /// An empty value represents the default.
    fn custom_retry_policy(&self) -> (policy: Option<RetryPolicy>)
        ensures
            policy == self.policy(),
    ;
}

/// Twice a delay, or the longest delay there is where twice does not fit.
pub open spec fn doubled(delay: u64) -> u64 {
    if delay * 2 <= u64::MAX {
        (delay * 2) as u64
    } else {
        u64::MAX
    }
}

/// The schedule of delays for errors of type `E`: each error decides for
/// itself, and those that do not are given delays that double.
pub struct ErrorBackoff<E> {
    delay: u64,
    _error: PhantomData<E>,
}

impl<E: Retryable> ErrorBackoff<E> {
    /// The next delay of the doubling schedule, in milliseconds.
    pub closed spec fn next_delay(&self) -> u64 {
        self.delay
    }

    /// A schedule at its beginning.
    pub fn new() -> (backoff: ErrorBackoff<E>)
        ensures
            backoff.next_delay() == E::initial_delay(),
    {
        ErrorBackoff { delay: E::default_initial_delay(), _error: PhantomData }
    }

    /// Decides what follows the failure `error`. An error with a policy of
    /// its own leaves the doubling schedule where it is.
    pub fn delay(&mut self, attempt: u32, error: &E) -> (policy: RetryPolicy)
        ensures
            match error.policy() {
                Some(own) => policy == own && final(self).next_delay() == old(self).next_delay(),
                None => {
                    &&& policy == RetryPolicy::Delay(old(self).next_delay())
                    &&& final(self).next_delay() == doubled(old(self).next_delay())
                },
            },
    {
        match error.custom_retry_policy() {
            Some(own) => own,
            None => {
                let previous = self.delay;
                self.delay = if previous <= u64::MAX / 2 {
                    previous * 2
                } else {
                    u64::MAX
                };
                RetryPolicy::Delay(previous)
            },
        }
    }
}

/// The line that reports a retry.
pub open spec fn retry_message(attempts: u32, delay: Seq<char>, error: Seq<char>) -> Seq<char> {
    "Retry "@ + decimal_text(attempts as nat) + "; waiting "@ + delay + " after error: "@ + error
}

/// A line waiting to be logged.
pub struct LogFuture {
    level: Option<Level>,
    message: Option<String>,
}

impl LogFuture {
    /// The line and its level, where there is a line still to be logged.
    pub closed spec fn pending(&self) -> Option<(Level, Seq<char>)> {
        match (self.level, self.message) {
            (Some(level), Some(message)) => Some((level, message@)),
            _ => None,
        }
    }

    /// Hands out the line to log, once.
    pub fn poll(&mut self) -> (line: Option<(Level, String)>)
        ensures
            final(self).pending() is None,
            match line {
                Some((level, message)) => old(self).pending() == Some((level, message@)),
                None => old(self).pending() is None,
            },
    {
        match self.level {
            Some(level) => {
                let message = self.message.take();
                match message {
                    Some(text) => Some((level, text)),
                    None => None,
                }
            },
            None => None,
        }
    }
}

/// Reports each retry at a fixed level, or not at all.
pub struct LogOnRetry {
    pub level: Option<Level>,
}

impl LogOnRetry {
    /// Prepares the report of a retry. `next_delay` and `previous_error`
    /// are the delay and the error as they are to appear in the line; with
    /// no delay there is no further attempt and nothing to report.
    pub fn on_retry(&mut self, attempts: u32, next_delay: Option<&str>, previous_error: &str) -> (log:
        LogFuture)
        ensures
            final(self).level == old(self).level,
            log.pending() == (match (old(self).level, next_delay) {
                (Some(level), Some(delay)) => Some(
                    (level, retry_message(attempts, delay@, previous_error@)),
                ),
                _ => None,
            }),
    {
        match next_delay {
            Some(delay) => {
                let message = if self.level.is_none() {
                    None
                } else {
                    let mut text = String::from_str("Retry ");
                    text.append(decimal(attempts as u64).as_str());
                    text.append("; waiting ");
                    text.append(delay);
                    text.append(" after error: ");
                    text.append(previous_error);
                    Some(text)
                };
                LogFuture { level: self.level, message }
            },
            None => LogFuture { level: None, message: None },
        }
    }
}

} // verus!
