//! The content client: fetching captures and resolving redirects.
//!
//! A capture listed with status 302 has the digest of the small page that
//! the Wayback Machine stored for the redirect, not of what the redirect
//! leads to. To resolve it, the client asks for the head of the capture,
//! reads where it points, and guesses the stored page from that. Only when
//! the guess does not have the expected digest is the page itself fetched.
//! Then the head of the capture pointed to gives the final address.

use crate::digest::{compute_digest, digest_of};
use crate::exchange::{
    action_views, lemma_push_action, method_name, notify_step, opening, push_notify, push_opening,
    text_of, Action, ActionView, Failure, Method, Request, RequestView, ResponseHead,
    failure_class,
};
use crate::item::{archive_url_parts, capture_url, Item, UrlInfo, SECURE_ARCHIVE_PREFIX};
use crate::text::{join2, same_text, utf8_text};
use crate::util::observe::{complete_event, error_event, ErrorClass, Event, EventView, Surface};
use crate::util::redirect::{guess_redirect_content, redirect_page};
use crate::util::retries::{Level, RetryPolicy, Retryable};
use crate::util::timestamp_text;
use std::time::Duration;
use vstd::prelude::*;
use vstd::string::*;
use vstd::utf8::*;

verus! {

/// How often a failed download is tried again, at most.
pub const MAX_RETRIES: u32 = 7;

/// The first delay between attempts, in milliseconds.
pub const RETRY_INITIAL_DELAY: u64 = 250;

/// The delay after a `502 Bad Gateway`, in milliseconds.
pub const BAD_GATEWAY_DELAY: u64 = 30_000;

/// How long an idle connection is kept alive, in milliseconds.
pub const TCP_KEEPALIVE: u64 = 20_000;

/// How long a request may take unless told otherwise, in milliseconds.
pub const DEFAULT_REQUEST_TIMEOUT: u64 = 10_000;

/// The status of a redirect.
pub const FOUND: u16 = 302;

/// The status of a response that has what was asked for.
pub const OK: u16 = 200;

/// The status that the service gives when it is overloaded.
pub const BAD_GATEWAY: u16 = 502;

/// What can go wrong with a request for content.
#[derive(Debug, PartialEq, Eq)]
pub enum Error {
    /// Reading or writing failed.
    Io,
    /// The request got no response.
    Client(Failure),
    /// A redirect without a usable `Location`.
    UnexpectedRedirect(Option<String>),
    /// A redirect to something that is not the address of a capture.
    UnexpectedRedirectUrl(String),
    UnexpectedStatus(u16),
    InvalidUtf8,
}

/// An [`Error`] with its texts as sequences of characters.
pub enum ErrorView {
    Io,
    Client(Failure),
    UnexpectedRedirect(Option<Seq<char>>),
    UnexpectedRedirectUrl(Seq<char>),
    UnexpectedStatus(u16),
    InvalidUtf8,
}

impl View for Error {
    type V = ErrorView;

    open spec fn view(&self) -> ErrorView {
        match self {
            Error::Io => ErrorView::Io,
            Error::Client(failure) => ErrorView::Client(*failure),
            Error::UnexpectedRedirect(location) => ErrorView::UnexpectedRedirect(
                text_of(*location),
            ),
            Error::UnexpectedRedirectUrl(location) => ErrorView::UnexpectedRedirectUrl(location@),
            Error::UnexpectedStatus(status) => ErrorView::UnexpectedStatus(*status),
            Error::InvalidUtf8 => ErrorView::InvalidUtf8,
        }
    }
}

/// What an error asks of the retry schedule: failures of transport and of
/// reading take the doubling schedule, a `502` waits half a minute, and
/// anything else ends the attempts.
pub open spec fn retry_policy_of(error: ErrorView) -> Option<RetryPolicy> {
    match error {
        ErrorView::Io => None,
        ErrorView::Client(_) => None,
        ErrorView::UnexpectedStatus(status) => if status == BAD_GATEWAY {
            Some(RetryPolicy::Delay(BAD_GATEWAY_DELAY))
        } else {
            Some(RetryPolicy::Break)
        },
        _ => Some(RetryPolicy::Break),
    }
}

impl Retryable for Error {
    open spec fn retry_limit() -> u32 {
        MAX_RETRIES
    }

    open spec fn initial_delay() -> u64 {
        RETRY_INITIAL_DELAY
    }

    open spec fn report_level() -> Option<Level> {
        Some(Level::Warn)
    }

    open spec fn policy(&self) -> Option<RetryPolicy> {
        retry_policy_of(self@)
    }

    fn max_retries() -> (limit: u32) {
        MAX_RETRIES
    }

    fn default_initial_delay() -> (delay: u64) {
        RETRY_INITIAL_DELAY
    }

    fn log_level() -> (level: Option<Level>) {
        Some(Level::Warn)
    }

    fn custom_retry_policy(&self) -> (policy: Option<RetryPolicy>) {
        match self {
            Error::Io => None,
            Error::Client(_) => None,
            Error::UnexpectedStatus(status) => if *status == BAD_GATEWAY {
                Some(RetryPolicy::Delay(BAD_GATEWAY_DELAY))
            } else {
                Some(RetryPolicy::Break)
            },
            _ => Some(RetryPolicy::Break),
        }
    }
}

/// A redirect, resolved: where it finally leads, and the page stored for
/// the redirect itself.
#[derive(Debug, PartialEq, Eq)]
pub struct RedirectResolution {
    /// The address the redirect finally leads to.
    pub url: String,
    /// The time of capture of what it leads to, as 14 digits.
    pub timestamp: String,
    /// The page stored for the redirect.
    pub content: Vec<u8>,
    /// Whether the page is the usual one, which was guessed, not fetched.
    pub valid_initial_content: bool,
    /// Whether the page has the digest that was expected.
    pub valid_digest: bool,
}

/// The content client: what it was set up with.
#[derive(Clone, Copy, Debug, PartialEq, Eq, Structural)]
pub struct Downloader {
    /// How long one request may take, in milliseconds.
    pub request_timeout: u64,
    /// Whether a pacing hook is waited for before each request.
    pub paced: bool,
    /// Whether an observer is told of each request.
    pub observed: bool,
}

/// The address from which a capture is fetched.
pub open spec fn content_url(url: Seq<char>, timestamp: Seq<char>, original: bool) -> Seq<char> {
    capture_url(SECURE_ARCHIVE_PREFIX@, timestamp, original, url)
}

/// A request that carries no `User-Agent`.
pub open spec fn plain_request(method: Method, url: Seq<char>) -> RequestView {
    RequestView { method, url, user_agent: None }
}

/// What the observer hears of the reply to a request whose response should
/// have the status `accepted`.
pub open spec fn head_event(
    method: Method,
    url: Seq<char>,
    reply: Result<ResponseHead, Failure>,
    accepted: u16,
    elapsed: Duration,
) -> EventView {
    match reply {
        Err(failure) => error_event(
            Surface::Content,
            method_name(method),
            url,
            None,
            Some(elapsed),
            failure_class(failure),
        ),
        Ok(head) => if head.status == accepted {
            complete_event(Surface::Content, method_name(method), url, head.status, elapsed)
        } else {
            error_event(
                Surface::Content,
                method_name(method),
                url,
                Some(head.status),
                Some(elapsed),
                ErrorClass::Http,
            )
        },
    }
}

/// Why the reply to a request for content is turned down, if it is: there
/// was no response, or its status is not 200.
pub open spec fn content_refusal(reply: Result<ResponseHead, Failure>) -> Option<ErrorView> {
    match reply {
        Err(failure) => Some(ErrorView::Client(failure)),
        Ok(head) => if head.status != OK {
            Some(ErrorView::UnexpectedStatus(head.status))
        } else {
            None
        },
    }
}

/// Why the reply to a request for the head of a redirect is turned down,
/// if it is: there was no response, its status is not 302, it has no
/// `Location`, or the `Location` is not the address of a capture.
pub open spec fn redirect_refusal(reply: Result<ResponseHead, Failure>) -> Option<ErrorView> {
    match reply {
        Err(failure) => Some(ErrorView::Client(failure)),
        Ok(head) => if head.status != FOUND {
            Some(ErrorView::UnexpectedStatus(head.status))
        } else {
            match head.location {
                None => Some(ErrorView::UnexpectedRedirect(None)),
                Some(location) => if archive_url_parts(location@) is None {
                    Some(ErrorView::UnexpectedRedirectUrl(location@))
                } else {
                    None
                },
            }
        },
    }
}

/// The bytes of the page that is guessed for a redirect to `url`.
pub open spec fn guessed_page(url: Seq<char>) -> Seq<u8> {
    encode_utf8(redirect_page(url))
}

/// The head of a redirect has been asked for.
#[derive(Debug, PartialEq, Eq)]
pub struct AwaitingRedirect {
    pub client: Downloader,
    /// The address that was asked.
    pub url: String,
    /// The digest listed for the redirect.
    pub expected_digest: String,
}

/// The page stored for a redirect has been asked for.
#[derive(Debug, PartialEq, Eq)]
pub struct AwaitingContent {
    pub client: Downloader,
    /// The address that was asked.
    pub url: String,
    /// Where the redirect points.
    pub info: UrlInfo,
    pub expected_digest: String,
}

/// The page stored for a redirect is being read.
#[derive(Debug, PartialEq, Eq)]
pub struct AwaitingBody {
    pub client: Downloader,
    pub info: UrlInfo,
    pub expected_digest: String,
}

/// The page stored for a redirect is known.
#[derive(Debug, PartialEq, Eq)]
pub struct InitialContent {
    pub client: Downloader,
    /// Where the redirect points.
    pub info: UrlInfo,
    /// The page stored for the redirect.
    pub content: Vec<u8>,
    /// Whether the page was guessed.
    pub valid_initial_content: bool,
    /// Whether the page has the expected digest.
    pub valid_digest: bool,
}

/// The head of the capture that a redirect points to has been asked for.
#[derive(Debug, PartialEq, Eq)]
pub struct AwaitingTarget {
    pub client: Downloader,
    /// The address that was asked.
    pub url: String,
    pub content: Vec<u8>,
    pub valid_initial_content: bool,
    pub valid_digest: bool,
}

/// A capture has been asked for.
#[derive(Debug, PartialEq, Eq)]
pub struct AwaitingDownload {
    pub client: Downloader,
    /// The address that was asked.
    pub url: String,
}

/// A capture is being read.
#[derive(Debug, PartialEq, Eq)]
pub struct AwaitingPayload {
}

/// What follows the reply to the first request for a redirect.
#[derive(Debug, PartialEq)]
pub enum RedirectStep {
    /// The resolution has failed.
    Failed(Vec<Action>, Error),
    /// The guess has the expected digest: the stored page is known.
    Found(Vec<Action>, InitialContent),
    /// The guess was wrong, and the stored page has been asked for.
    FetchContent(Vec<Action>, AwaitingContent),
}

/// What follows the head of the response that brings a redirect's page.
#[derive(Debug, PartialEq)]
pub enum ContentStep {
    Failed(Vec<Action>, Error),
    ReadBody(Vec<Action>, AwaitingBody),
}

/// What follows the head of the response that brings a capture.
#[derive(Debug, PartialEq)]
pub enum DownloadStep {
    Failed(Vec<Action>, Error),
    ReadBody(Vec<Action>, AwaitingPayload),
}

/// Tells the observer of the reply to a request for the head of a redirect
/// and reads where the redirect points.
fn accept_redirect(
    client: &Downloader,
    url: &str,
    reply: Result<ResponseHead, Failure>,
    elapsed: Duration,
    actions: &mut Vec<Action>,
) -> (target: Result<UrlInfo, Error>)
    ensures
        action_views(final(actions)@) == action_views(old(actions)@) + notify_step(
            client.observed,
            head_event(Method::Head, url@, reply, FOUND, elapsed),
        ),
        match target {
            Ok(info) => redirect_refusal(reply) is None && archive_url_parts(
                reply->Ok_0.location->0@,
            ) == Some(info@),
            Err(error) => redirect_refusal(reply) == Some(error@),
        },
{
    match reply {
        Err(failure) => {
            push_notify(
                actions,
                client.observed,
                Event::error(
                    Surface::Content,
                    Method::Head.name(),
                    String::from_str(url),
                    None,
                    Some(elapsed),
                    failure.class(),
                ),
            );
            Err(Error::Client(failure))
        },
        Ok(head) => {
            if head.status != FOUND {
                push_notify(
                    actions,
                    client.observed,
                    Event::error(
                        Surface::Content,
                        Method::Head.name(),
                        String::from_str(url),
                        Some(head.status),
                        Some(elapsed),
                        ErrorClass::Http,
                    ),
                );
                return Err(Error::UnexpectedStatus(head.status));
            }
            push_notify(
                actions,
                client.observed,
                Event::complete(
                    Surface::Content,
                    Method::Head.name(),
                    String::from_str(url),
                    FOUND,
                    elapsed,
                ),
            );
            match head.location {
                None => Err(Error::UnexpectedRedirect(None)),
                Some(location) => match UrlInfo::parse(location.as_str()) {
                    Ok(info) => Ok(info),
                    Err(_) => Err(Error::UnexpectedRedirectUrl(location)),
                },
            }
        },
    }
}

/// Tells the observer of the reply to a request for content and decides
/// whether the body is to be read.
fn accept_content(
    client: &Downloader,
    url: &str,
    reply: Result<ResponseHead, Failure>,
    elapsed: Duration,
    actions: &mut Vec<Action>,
) -> (accepted: Result<(), Error>)
    ensures
        action_views(final(actions)@) == action_views(old(actions)@) + notify_step(
            client.observed,
            head_event(Method::Get, url@, reply, OK, elapsed),
        ),
        match accepted {
            Ok(_) => content_refusal(reply) is None,
            Err(error) => content_refusal(reply) == Some(error@),
        },
{
    match reply {
        Err(failure) => {
            push_notify(
                actions,
                client.observed,
                Event::error(
                    Surface::Content,
                    Method::Get.name(),
                    String::from_str(url),
                    None,
                    Some(elapsed),
                    failure.class(),
                ),
            );
            Err(Error::Client(failure))
        },
        Ok(head) => {
            if head.status != OK {
                push_notify(
                    actions,
                    client.observed,
                    Event::error(
                        Surface::Content,
                        Method::Get.name(),
                        String::from_str(url),
                        Some(head.status),
                        Some(elapsed),
                        ErrorClass::Http,
                    ),
                );
                return Err(Error::UnexpectedStatus(head.status));
            }
            push_notify(
                actions,
                client.observed,
                Event::complete(
                    Surface::Content,
                    Method::Get.name(),
                    String::from_str(url),
                    OK,
                    elapsed,
                ),
            );
            Ok(())
        },
    }
}

impl Downloader {
    /// A client without pacing hook or observer.
    pub fn new(request_timeout: u64) -> (client: Downloader)
        ensures
            client == (Downloader { request_timeout, paced: false, observed: false }),
    {
        Downloader { request_timeout, paced: false, observed: false }
    }

    /// The same client, waiting for a pacing hook before each request.
    pub fn with_pacer(self) -> (client: Downloader)
        ensures
            client == (Downloader { paced: true, ..self }),
    {
        Downloader { paced: true, ..self }
    }

    /// The same client, telling an observer of each request.
    pub fn with_observer(self) -> (client: Downloader)
        ensures
            client == (Downloader { observed: true, ..self }),
    {
        Downloader { observed: true, ..self }
    }

    /// The address from which a capture is fetched: in the unmodified form
    /// for `original`, else framed.
    pub fn wayback_url(url: &str, timestamp: &str, original: bool) -> (address: String)
        ensures
            address@ == content_url(url@, timestamp@, original),
    {
        let mut address = join2(SECURE_ARCHIVE_PREFIX, timestamp);
        address.append(
            if original {
                "id_"
            } else {
                "if_"
            },
        );
        address.append("/");
        address.append(url);
        address
    }

    /// Begins to resolve a redirect: asks for the head of the unmodified
    /// capture.
    pub fn resolve_redirect(&self, url: &str, timestamp: &str, expected_digest: &str) -> (begun: (
        Vec<Action>,
        AwaitingRedirect,
    ))
        ensures
            action_views(begun.0@) == opening(
                self.paced,
                self.observed,
                true,
                Surface::Content,
                plain_request(Method::Head, content_url(url@, timestamp@, true)),
            ),
            begun.1.client == *self,
            begun.1.url@ == content_url(url@, timestamp@, true),
            begun.1.expected_digest@ == expected_digest@,
    {
        let address = Downloader::wayback_url(url, timestamp, true);
        let mut actions: Vec<Action> = Vec::new();
        assert(action_views(actions@) =~= Seq::<ActionView>::empty());
        push_opening(
            &mut actions,
            self.paced,
            self.observed,
            true,
            Surface::Content,
            Request { method: Method::Head, url: address.clone(), user_agent: None },
        );
        (
            actions,
            AwaitingRedirect {
                client: *self,
                url: address,
                expected_digest: String::from_str(expected_digest),
            },
        )
    }

    /// Begins to fetch a capture.
    pub fn download(&self, url: &str, timestamp: &str, original: bool) -> (begun: (
        Vec<Action>,
        AwaitingDownload,
    ))
        ensures
            action_views(begun.0@) == opening(
                self.paced,
                self.observed,
                true,
                Surface::Content,
                plain_request(Method::Get, content_url(url@, timestamp@, original)),
            ),
            begun.1.client == *self,
            begun.1.url@ == content_url(url@, timestamp@, original),
    {
        let address = Downloader::wayback_url(url, timestamp, original);
        let mut actions: Vec<Action> = Vec::new();
        assert(action_views(actions@) =~= Seq::<ActionView>::empty());
        push_opening(
            &mut actions,
            self.paced,
            self.observed,
            true,
            Surface::Content,
            Request { method: Method::Get, url: address.clone(), user_agent: None },
        );
        (actions, AwaitingDownload { client: *self, url: address })
    }

    /// Begins to fetch the unmodified capture that an item describes.
    pub fn download_item(&self, item: &Item) -> (begun: (Vec<Action>, AwaitingDownload))
        ensures
            action_views(begun.0@) == opening(
                self.paced,
                self.observed,
                true,
                Surface::Content,
                plain_request(
                    Method::Get,
                    content_url(item.url@, timestamp_text(item.archived_at), true),
                ),
            ),
            begun.1.client == *self,
            begun.1.url@ == content_url(item.url@, timestamp_text(item.archived_at), true),
    {
        self.download(item.url.as_str(), item.timestamp().as_str(), true)
    }
}

impl Default for Downloader {
    fn default() -> (client: Downloader)
        ensures
            client == (Downloader {
                request_timeout: DEFAULT_REQUEST_TIMEOUT,
                paced: false,
                observed: false,
            }),
    {
        Downloader::new(DEFAULT_REQUEST_TIMEOUT)
    }
}

impl AwaitingRedirect {
    /// Takes the reply to the request for the head of the redirect. After a
    /// redirect to the address of a capture, the usual page for that
    /// address is tried: if it has the expected digest it is the content,
    /// and otherwise the stored page is asked for.
    pub fn receive(self, reply: Result<ResponseHead, Failure>, elapsed: Duration) -> (step:
        RedirectStep)
        ensures
            match step {
                RedirectStep::Failed(actions, error) => {
                    &&& redirect_refusal(reply) == Some(error@)
                    &&& action_views(actions@) == notify_step(
                        self.client.observed,
                        head_event(Method::Head, self.url@, reply, FOUND, elapsed),
                    )
                },
                RedirectStep::Found(actions, found) => {
                    &&& redirect_refusal(reply) is None
                    &&& archive_url_parts(reply->Ok_0.location->0@) == Some(found.info@)
                    &&& digest_of(guessed_page(found.info.url@)) == self.expected_digest@
                    &&& action_views(actions@) == notify_step(
                        self.client.observed,
                        head_event(Method::Head, self.url@, reply, FOUND, elapsed),
                    )
                    &&& found.client == self.client
                    &&& found.content@ == guessed_page(found.info.url@)
                    &&& found.valid_initial_content
                    &&& found.valid_digest
                },
                RedirectStep::FetchContent(actions, next) => {
                    &&& redirect_refusal(reply) is None
                    &&& archive_url_parts(reply->Ok_0.location->0@) == Some(next.info@)
                    &&& digest_of(guessed_page(next.info.url@)) != self.expected_digest@
                    &&& action_views(actions@) == notify_step(
                        self.client.observed,
                        head_event(Method::Head, self.url@, reply, FOUND, elapsed),
                    ) + opening(
                        self.client.paced,
                        self.client.observed,
                        true,
                        Surface::Content,
                        plain_request(Method::Get, self.url@),
                    )
                    &&& next.client == self.client
                    &&& next.url@ == self.url@
                    &&& next.expected_digest@ == self.expected_digest@
                },
            },
    {
        let mut actions: Vec<Action> = Vec::new();
        assert(action_views(actions@) =~= Seq::<ActionView>::empty());
        let info = match accept_redirect(
            &self.client,
            self.url.as_str(),
            reply,
            elapsed,
            &mut actions,
        ) {
            Ok(info) => info,
            Err(error) => {
                return RedirectStep::Failed(actions, error);
            },
        };
        let guess = guess_redirect_content(info.url.as_str());
        let guess_digest = compute_digest(guess.as_str().as_bytes());
        if same_text(guess_digest.as_str(), self.expected_digest.as_str()) {
            let content = guess.as_str().as_bytes_vec();
            RedirectStep::Found(
                actions,
                InitialContent {
                    client: self.client,
                    info,
                    content,
                    valid_initial_content: true,
                    valid_digest: true,
                },
            )
        } else {
            push_opening(
                &mut actions,
                self.client.paced,
                self.client.observed,
                true,
                Surface::Content,
                Request { method: Method::Get, url: self.url.clone(), user_agent: None },
            );
            RedirectStep::FetchContent(
                actions,
                AwaitingContent {
                    client: self.client,
                    url: self.url,
                    info,
                    expected_digest: self.expected_digest,
                },
            )
        }
    }
}

impl AwaitingContent {
    /// Takes the head of the response that brings the stored page. Only
    /// status 200 is accepted.
    pub fn receive(self, reply: Result<ResponseHead, Failure>, elapsed: Duration) -> (step:
        ContentStep)
        ensures
            match step {
                ContentStep::Failed(actions, error) => {
                    &&& content_refusal(reply) == Some(error@)
                    &&& action_views(actions@) == notify_step(
                        self.client.observed,
                        head_event(Method::Get, self.url@, reply, OK, elapsed),
                    )
                },
                ContentStep::ReadBody(actions, next) => {
                    &&& content_refusal(reply) is None
                    &&& action_views(actions@) == notify_step(
                        self.client.observed,
                        head_event(Method::Get, self.url@, reply, OK, elapsed),
                    ).push(ActionView::ReadBody)
                    &&& next.client == self.client
                    &&& next.info == self.info
                    &&& next.expected_digest == self.expected_digest
                },
            },
    {
        let mut actions: Vec<Action> = Vec::new();
        assert(action_views(actions@) =~= Seq::<ActionView>::empty());
        match accept_content(&self.client, self.url.as_str(), reply, elapsed, &mut actions) {
            Ok(_) => {
                proof {
                    lemma_push_action(actions@, Action::ReadBody);
                }
                actions.push(Action::ReadBody);
                ContentStep::ReadBody(
                    actions,
                    AwaitingBody {
                        client: self.client,
                        info: self.info,
                        expected_digest: self.expected_digest,
                    },
                )
            },
            Err(error) => ContentStep::Failed(actions, error),
        }
    }
}

impl AwaitingBody {
    /// Takes the stored page, and holds its digest against the expected
    /// one.
    pub fn receive(self, reply: Result<Vec<u8>, Failure>) -> (read: Result<InitialContent, Error>)
        ensures
            match read {
                Ok(found) => {
                    &&& reply matches Ok(bytes)
                    &&& found.content == bytes
                    &&& found.client == self.client
                    &&& found.info == self.info
                    &&& !found.valid_initial_content
                    &&& found.valid_digest == (digest_of(bytes@) == self.expected_digest@)
                },
                Err(error) => reply matches Err(failure) && error@ == ErrorView::Client(failure),
            },
    {
        match reply {
            Ok(bytes) => {
                let digest = compute_digest(bytes.as_slice());
                let valid_digest = same_text(digest.as_str(), self.expected_digest.as_str());
                Ok(
                    InitialContent {
                        client: self.client,
                        info: self.info,
                        content: bytes,
                        valid_initial_content: false,
                        valid_digest,
                    },
                )
            },
            Err(failure) => Err(Error::Client(failure)),
        }
    }
}

impl InitialContent {
    /// Goes on to where the redirect points: asks for the head of that
    /// capture.
    pub fn follow(self) -> (begun: (Vec<Action>, AwaitingTarget))
        ensures
            action_views(begun.0@) == opening(
                self.client.paced,
                self.client.observed,
                true,
                Surface::Content,
                plain_request(
                    Method::Head,
                    content_url(self.info.url@, self.info.timestamp@, true),
                ),
            ),
            begun.1.client == self.client,
            begun.1.url@ == content_url(self.info.url@, self.info.timestamp@, true),
            begun.1.content == self.content,
            begun.1.valid_initial_content == self.valid_initial_content,
            begun.1.valid_digest == self.valid_digest,
    {
        let address = Downloader::wayback_url(
            self.info.url.as_str(),
            self.info.timestamp.as_str(),
            true,
        );
        let mut actions: Vec<Action> = Vec::new();
        assert(action_views(actions@) =~= Seq::<ActionView>::empty());
        push_opening(
            &mut actions,
            self.client.paced,
            self.client.observed,
            true,
            Surface::Content,
            Request { method: Method::Head, url: address.clone(), user_agent: None },
        );
        (
            actions,
            AwaitingTarget {
                client: self.client,
                url: address,
                content: self.content,
                valid_initial_content: self.valid_initial_content,
                valid_digest: self.valid_digest,
            },
        )
    }

    /// Stops here: gives where the redirect points, the stored page as
    /// text, and whether it has the expected digest. Fails where the page
    /// is not valid UTF-8.
    pub fn shallow(self) -> (resolved: Result<(UrlInfo, String, bool), Error>)
        ensures
            match resolved {
                Ok((info, text, valid_digest)) => {
                    &&& valid_utf8(self.content@)
                    &&& text@ == decode_utf8(self.content@)
                    &&& info == self.info
                    &&& valid_digest == self.valid_digest
                },
                Err(error) => !valid_utf8(self.content@) && error@ == ErrorView::InvalidUtf8,
            },
    {
        match utf8_text(self.content.as_slice()) {
            Ok(text) => Ok((self.info, String::from_str(text), self.valid_digest)),
            Err(_) => Err(Error::InvalidUtf8),
        }
    }
}

impl AwaitingTarget {
    /// Takes the reply to the request for the head of the capture that the
    /// redirect points to: a redirect again, to the final address.
    pub fn receive(self, reply: Result<ResponseHead, Failure>, elapsed: Duration) -> (end: (
        Vec<Action>,
        Result<RedirectResolution, Error>,
    ))
        ensures
            action_views(end.0@) == notify_step(
                self.client.observed,
                head_event(Method::Head, self.url@, reply, FOUND, elapsed),
            ),
            match end.1 {
                Ok(resolution) => {
                    &&& redirect_refusal(reply) is None
                    &&& archive_url_parts(reply->Ok_0.location->0@) matches Some(parts)
                    &&& resolution.url@ == parts.url
                    &&& resolution.timestamp@ == parts.timestamp
                    &&& resolution.content == self.content
                    &&& resolution.valid_initial_content == self.valid_initial_content
                    &&& resolution.valid_digest == self.valid_digest
                },
                Err(error) => redirect_refusal(reply) == Some(error@),
            },
    {
        let mut actions: Vec<Action> = Vec::new();
        assert(action_views(actions@) =~= Seq::<ActionView>::empty());
        match accept_redirect(&self.client, self.url.as_str(), reply, elapsed, &mut actions) {
            Ok(info) => (
                actions,
                Ok(
                    RedirectResolution {
                        url: info.url,
                        timestamp: info.timestamp,
                        content: self.content,
                        valid_initial_content: self.valid_initial_content,
                        valid_digest: self.valid_digest,
                    },
                ),
            ),
            Err(error) => (actions, Err(error)),
        }
    }
}

impl AwaitingDownload {
    /// Takes the head of the response that brings the capture. Only status
    /// 200 is accepted.
    pub fn receive(self, reply: Result<ResponseHead, Failure>, elapsed: Duration) -> (step:
        DownloadStep)
        ensures
            match step {
                DownloadStep::Failed(actions, error) => {
                    &&& content_refusal(reply) == Some(error@)
                    &&& action_views(actions@) == notify_step(
                        self.client.observed,
                        head_event(Method::Get, self.url@, reply, OK, elapsed),
                    )
                },
                DownloadStep::ReadBody(actions, _) => {
                    &&& content_refusal(reply) is None
                    &&& action_views(actions@) == notify_step(
                        self.client.observed,
                        head_event(Method::Get, self.url@, reply, OK, elapsed),
                    ).push(ActionView::ReadBody)
                },
            },
    {
        let mut actions: Vec<Action> = Vec::new();
        assert(action_views(actions@) =~= Seq::<ActionView>::empty());
        match accept_content(&self.client, self.url.as_str(), reply, elapsed, &mut actions) {
            Ok(_) => {
                proof {
                    lemma_push_action(actions@, Action::ReadBody);
                }
                actions.push(Action::ReadBody);
                DownloadStep::ReadBody(actions, AwaitingPayload {  })
            },
            Err(error) => DownloadStep::Failed(actions, error),
        }
    }
}

impl AwaitingPayload {
    /// Takes the capture.
    pub fn receive(self, reply: Result<Vec<u8>, Failure>) -> (read: Result<Vec<u8>, Error>)
        ensures
            match read {
                Ok(content) => reply == Ok::<Vec<u8>, Failure>(content),
                Err(error) => reply matches Err(failure) && error@ == ErrorView::Client(failure),
            },
    {
        match reply {
            Ok(bytes) => Ok(bytes),
            Err(failure) => Err(Error::Client(failure)),
        }
    }
}

/// The page guessed for a redirect is valid UTF-8 and decodes to the
/// guess, so that a resolution that stops at a guessed page cannot fail on
/// its text.
pub proof fn lemma_guess_is_text(url: Seq<char>)
    ensures
        valid_utf8(guessed_page(url)),
        decode_utf8(guessed_page(url)) == redirect_page(url),
{
    encode_utf8_valid_utf8(redirect_page(url));
    encode_utf8_decode_utf8(redirect_page(url));
}

} // verus!
