//! Observation of the requests a client makes.

use std::time::Duration;
use vstd::prelude::*;
use vstd::string::*;

verus! {

/// The service a request goes to.
#[derive(Clone, Copy, Debug, PartialEq, Eq, Structural)]
#[non_exhaustive]
pub enum Surface {
    Cdx,
    Content,
}

/// The stage of a request that an event reports.
#[derive(Clone, Copy, Debug, PartialEq, Eq, Structural)]
#[non_exhaustive]
pub enum Phase {
    Start,
    Complete,
    Error,
}

/// A coarse classification of what went wrong with a request.
#[derive(Clone, Copy, Debug, PartialEq, Eq, Structural)]
#[non_exhaustive]
pub enum ErrorClass {
    Timeout,
    Connect,
    Tls,
    Protocol,
    Decode,
    /// The service refuses the site or query. Unlike a decoding failure this
    /// will not go away: a long-running tool should not ask again.
    Blocked,
    Http,
    Other,
}

/// An observation made around one request.
///
/// Events are cheap to make and are handed to observers by reference:
/// an observer copies out what it needs.
#[derive(Debug, PartialEq)]
#[non_exhaustive]
pub struct Event {
    pub surface: Surface,
    pub phase: Phase,
    pub method: &'static str,
    pub url: String,
    pub status: Option<u16>,
    pub elapsed: Option<Duration>,
    pub error: Option<ErrorClass>,
    /// Room for more, as pairs of a name and a value. Empty for now.
    pub extras: &'static [(&'static str, &'static str)],
}

/// An [`Event`] with its texts as sequences of characters.
pub struct EventView {
    pub surface: Surface,
    pub phase: Phase,
    pub method: Seq<char>,
    pub url: Seq<char>,
    pub status: Option<u16>,
    pub elapsed: Option<Duration>,
    pub error: Option<ErrorClass>,
}

impl View for Event {
    type V = EventView;

    open spec fn view(&self) -> EventView {
        EventView {
            surface: self.surface,
            phase: self.phase,
            method: self.method@,
            url: self.url@,
            status: self.status,
            elapsed: self.elapsed,
            error: self.error,
        }
    }
}

impl Clone for Event {
    fn clone(&self) -> (copy: Event)
        ensures
            copy == *self,
    {
        Event {
            surface: self.surface,
            phase: self.phase,
            method: self.method,
            url: self.url.clone(),
            status: self.status,
            elapsed: self.elapsed,
            error: self.error,
            extras: self.extras,
        }
    }
}

/// The event that opens a request.
pub open spec fn start_event(surface: Surface, method: Seq<char>, url: Seq<char>) -> EventView {
    EventView {
        surface,
        phase: Phase::Start,
        method,
        url,
        status: None,
        elapsed: None,
        error: None,
    }
}

/// The event that reports a response.
pub open spec fn complete_event(
    surface: Surface,
    method: Seq<char>,
    url: Seq<char>,
    status: u16,
    elapsed: Duration,
) -> EventView {
    EventView {
        surface,
        phase: Phase::Complete,
        method,
        url,
        status: Some(status),
        elapsed: Some(elapsed),
        error: None,
    }
}

/// The event that reports a failure.
pub open spec fn error_event(
    surface: Surface,
    method: Seq<char>,
    url: Seq<char>,
    status: Option<u16>,
    elapsed: Option<Duration>,
    error: ErrorClass,
) -> EventView {
    EventView { surface, phase: Phase::Error, method, url, status, elapsed, error: Some(error) }
}

impl Event {
    /// Reports that a request is about to be sent.
    pub fn start(surface: Surface, method: &'static str, url: String) -> (event: Event)
        ensures
            event@ == start_event(surface, method@, url@),
            event.extras@.len() == 0,
    {
        Event {
            surface,
            phase: Phase::Start,
            method,
            url,
            status: None,
            elapsed: None,
            error: None,
            extras: &[],
        }
    }

    /// Reports that a response arrived, with its status and the time it
    /// took.
    pub fn complete(
        surface: Surface,
        method: &'static str,
        url: String,
        status: u16,
        elapsed: Duration,
    ) -> (event: Event)
        ensures
            event@ == complete_event(surface, method@, url@, status, elapsed),
            event.extras@.len() == 0,
    {
        Event {
            surface,
            phase: Phase::Complete,
            method,
            url,
            status: Some(status),
            elapsed: Some(elapsed),
            error: None,
            extras: &[],
        }
    }

    /// Reports that a request failed.
    pub fn error(
        surface: Surface,
        method: &'static str,
        url: String,
        status: Option<u16>,
        elapsed: Option<Duration>,
        error: ErrorClass,
    ) -> (event: Event)
        ensures
            event@ == error_event(surface, method@, url@, status, elapsed, error),
            event.extras@.len() == 0,
    {
        Event {
            surface,
            phase: Phase::Error,
            method,
            url,
            status,
            elapsed,
            error: Some(error),
            extras: &[],
        }
    }
}

/// Receives the events of the requests a client makes.
///
/// Implementations must be fast and must not block. For heavier work, put
/// the event in a queue and handle it elsewhere.
pub trait Observer: Send + Sync {
    fn on_event(&self, event: &Event);
}

} // verus!
