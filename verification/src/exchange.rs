//! Requests and replies as plain values.
//!
//! The clients of this crate send nothing themselves. They say what is to be
//! done next as a list of [`Action`]s, and are told what came of it: the
//! head of a response or a [`Failure`], then the body where they ask for it.

use crate::util::observe::{start_event, ErrorClass, Event, EventView, Surface};
use vstd::prelude::*;
use vstd::string::*;

verus! {

/// The two kinds of request the clients make.
#[derive(Clone, Copy, Debug, PartialEq, Eq, Structural)]
pub enum Method {
    Get,
    Head,
}

/// The name of a method as it goes over the wire.
pub open spec fn method_name(method: Method) -> Seq<char> {
    match method {
        Method::Get => "GET"@,
        Method::Head => "HEAD"@,
    }
}

impl Method {
    /// The name of the method as it goes over the wire.
    pub fn name(&self) -> (name: &'static str)
        ensures
            name@ == method_name(*self),
    {
        match self {
            Method::Get => "GET",
            Method::Head => "HEAD",
        }
    }
}

/// The text of an optional string.
pub open spec fn text_of(value: Option<String>) -> Option<Seq<char>> {
    match value {
        Some(text) => Some(text@),
        None => None,
    }
}

/// A request to send. Redirects are never followed.
#[derive(Debug, PartialEq, Eq)]
pub struct Request {
    pub method: Method,
    pub url: String,
    /// The `User-Agent` header to send, if any.
    pub user_agent: Option<String>,
}

/// A [`Request`] with its texts as sequences of characters.
pub struct RequestView {
    pub method: Method,
    pub url: Seq<char>,
    pub user_agent: Option<Seq<char>>,
}

impl View for Request {
    type V = RequestView;

    open spec fn view(&self) -> RequestView {
        RequestView { method: self.method, url: self.url@, user_agent: text_of(self.user_agent) }
    }
}

/// What is known of a request that got no response.
#[derive(Clone, Copy, Debug, PartialEq, Eq, Structural)]
pub struct Failure {
    /// The request ran out of time.
    pub timeout: bool,
    /// No connection could be made.
    pub connect: bool,
}

/// The class of a failure: a timeout first, then a failed connection, then
/// anything else.
pub open spec fn failure_class(failure: Failure) -> ErrorClass {
    if failure.timeout {
        ErrorClass::Timeout
    } else if failure.connect {
        ErrorClass::Connect
    } else {
        ErrorClass::Other
    }
}

impl Failure {
    /// The class under which observers hear of this failure.
    pub fn class(&self) -> (class: ErrorClass)
        ensures
            class == failure_class(*self),
    {
        if self.timeout {
            ErrorClass::Timeout
        } else if self.connect {
            ErrorClass::Connect
        } else {
            ErrorClass::Other
        }
    }
}

/// The head of a response: its status and, where the header is there and
/// is text, its `Location`.
#[derive(Debug, PartialEq, Eq)]
pub struct ResponseHead {
    pub status: u16,
    pub location: Option<String>,
}

/// One thing for the caller to do.
#[derive(Debug, PartialEq)]
pub enum Action {
    /// Wait for the pacing hook of this surface.
    Pace(Surface),
    /// Hand this event to the observer.
    Notify(Event),
    /// Send this request, and report the head of the response or the
    /// failure.
    Send(Request),
    /// Read the body of the response, and report it or the failure.
    ReadBody,
}

/// An [`Action`] with its texts as sequences of characters.
pub enum ActionView {
    Pace(Surface),
    Notify(EventView),
    Send(RequestView),
    ReadBody,
}

impl View for Action {
    type V = ActionView;

    open spec fn view(&self) -> ActionView {
        match self {
            Action::Pace(surface) => ActionView::Pace(*surface),
            Action::Notify(event) => ActionView::Notify(event@),
            Action::Send(request) => ActionView::Send(request@),
            Action::ReadBody => ActionView::ReadBody,
        }
    }
}

/// The actions of a list, each by its view.
pub open spec fn action_views(actions: Seq<Action>) -> Seq<ActionView> {
    Seq::new(actions.len(), |i: int| actions[i]@)
}

/// Waiting for the pacing hook, where there is one.
pub open spec fn pace_step(paced: bool, surface: Surface) -> Seq<ActionView> {
    if paced {
        seq![ActionView::Pace(surface)]
    } else {
        Seq::empty()
    }
}

/// Telling the observer, where there is one.
pub open spec fn notify_step(observed: bool, event: EventView) -> Seq<ActionView> {
    if observed {
        seq![ActionView::Notify(event)]
    } else {
        Seq::empty()
    }
}

/// What opens a request: the pacing hook and the start event, in this
/// order or the other, then the request itself.
pub open spec fn opening(
    paced: bool,
    observed: bool,
    pace_first: bool,
    surface: Surface,
    request: RequestView,
) -> Seq<ActionView> {
    let event = start_event(surface, method_name(request.method), request.url);
    (if pace_first {
        pace_step(paced, surface) + notify_step(observed, event)
    } else {
        notify_step(observed, event) + pace_step(paced, surface)
    }) + seq![ActionView::Send(request)]
}

/// Pushing an action onto a list pushes its view onto the views.
pub proof fn lemma_push_action(before: Seq<Action>, action: Action)
    ensures
        action_views(before.push(action)) == action_views(before).push(action@),
{
    assert(action_views(before.push(action)) =~= action_views(before).push(action@));
}

/// Appends the wait for the pacing hook, where there is one.
pub fn push_pace(actions: &mut Vec<Action>, paced: bool, surface: Surface)
    ensures
        action_views(final(actions)@) == action_views(old(actions)@) + pace_step(paced, surface),
{
    if paced {
        proof {
            lemma_push_action(actions@, Action::Pace(surface));
        }
        actions.push(Action::Pace(surface));
    }
    proof {
        assert(action_views(actions@) =~= action_views(old(actions)@) + pace_step(paced, surface));
    }
}

/// Appends the event for the observer, where there is one.
pub fn push_notify(actions: &mut Vec<Action>, observed: bool, event: Event)
    ensures
        action_views(final(actions)@) == action_views(old(actions)@) + notify_step(
            observed,
            event@,
        ),
{
    if observed {
        proof {
            lemma_push_action(actions@, Action::Notify(event));
        }
        actions.push(Action::Notify(event));
    }
    proof {
        assert(action_views(actions@) =~= action_views(old(actions)@) + notify_step(
            observed,
            event@,
        ));
    }
}

/// Appends what opens a request.
pub fn push_opening(
    actions: &mut Vec<Action>,
    paced: bool,
    observed: bool,
    pace_first: bool,
    surface: Surface,
    request: Request,
)
    ensures
        action_views(final(actions)@) == action_views(old(actions)@) + opening(
            paced,
            observed,
            pace_first,
            surface,
            request@,
        ),
{
    let event = Event::start(surface, request.method.name(), request.url.clone());
    if pace_first {
        push_pace(actions, paced, surface);
        push_notify(actions, observed, event);
    } else {
        push_notify(actions, observed, event);
        push_pace(actions, paced, surface);
    }
    proof {
        lemma_push_action(actions@, Action::Send(request));
    }
    actions.push(Action::Send(request));
    proof {
        assert(action_views(actions@) =~= action_views(old(actions)@) + opening(
            paced,
            observed,
            pace_first,
            surface,
            request@,
        ));
    }
}

} // verus!
