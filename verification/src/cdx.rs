//! The index client: asking the CDX service which captures it has.
//!
//! The service answers with a JSON array of rows of text. The first row
//! names the columns. Where a page limit was given and more is to come, the
//! answer ends in an empty row and a row that holds the key with which to
//! ask for the next page.

use crate::exchange::{
    action_views, failure_class, lemma_push_action, method_name, notify_step, opening,
    push_notify, push_opening, text_of, Action, ActionView, Failure, Method, Request,
    RequestView, ResponseHead,
};
use crate::item::{item_views, parse_record, Item, ItemView};
use crate::text::{
    column, column_of, decimal, decimal_text, join2, optional_text, rows_of, same_text, texts_of,
};
use crate::util::observe::{complete_event, error_event, ErrorClass, Event, Surface};
use crate::util::retries::{Level, RetryPolicy, Retryable};
use std::time::Duration;
use vstd::prelude::*;
use vstd::string::*;

verus! {

/// How long an idle connection is kept alive, in seconds.
pub const TCP_KEEPALIVE_SECS: u64 = 20;

/// Where the CDX service is found.
pub const DEFAULT_CDX_BASE: &'static str = "http://web.archive.org/cdx/search/cdx";

/// The `User-Agent` sent unless another is set: without one the service
/// now and then answers with an error page.
pub const DEFAULT_USER_AGENT: &'static str = "wayback-rs/0.1.0";

/// What every query asks for: JSON, and the six columns of an item.
pub const CDX_OPTIONS: &'static str =
    "&output=json&fl=original,timestamp,digest,mimetype,length,statuscode";

/// The answer of the service to a query that it refuses for good.
pub const BLOCKED_SITE_ERROR_MESSAGE: &'static str =
    "org.archive.util.io.RuntimeIOException: org.archive.wayback.exception.AdministrativeAccessControlException: Blocked Site Error\n";

/// How often a failed query is tried again, at most.
pub const MAX_RETRIES: u32 = 7;

/// The first delay of the doubling schedule, in milliseconds.
pub const RETRY_INITIAL_DELAY: u64 = 250;

/// The delay after a failure of transport or of decoding, in milliseconds.
pub const RETRY_DELAY: u64 = 30_000;

/// What can go wrong with a query.
#[derive(Debug, PartialEq, Eq)]
pub enum Error {
    /// A row of the answer is no item.
    ItemParsingError(crate::item::Error),
    /// The request got no response, or the response could not be read.
    HttpClientError(Failure),
    /// The answer is not JSON of the expected shape; the text says why.
    JsonError(String),
    /// The service refuses this query.
    BlockedQuery(String),
}

/// An [`Error`] with its texts as sequences of characters. Why JSON could
/// not be decoded is left out: it is worded by the decoder.
pub enum ErrorView {
    ItemParsingError(crate::item::ErrorView),
    HttpClientError(Failure),
    JsonError,
    BlockedQuery(Seq<char>),
}

impl View for Error {
    type V = ErrorView;

    open spec fn view(&self) -> ErrorView {
        match self {
            Error::ItemParsingError(error) => ErrorView::ItemParsingError(error@),
            Error::HttpClientError(failure) => ErrorView::HttpClientError(*failure),
            Error::JsonError(_) => ErrorView::JsonError,
            Error::BlockedQuery(query) => ErrorView::BlockedQuery(query@),
        }
    }
}

/// What an error asks of the retry schedule: failures of transport and of
/// decoding wait half a minute, since the service now and then sends an
/// empty answer; a refused query or a row that is no item ends the
/// attempts.
pub open spec fn retry_policy_of(error: ErrorView) -> Option<RetryPolicy> {
    match error {
        ErrorView::HttpClientError(_) => Some(RetryPolicy::Delay(RETRY_DELAY)),
        ErrorView::JsonError => Some(RetryPolicy::Delay(RETRY_DELAY)),
        _ => Some(RetryPolicy::Break),
    }
}

impl Retryable for Error {
    open spec fn retry_limit() -> u32 {
        MAX_RETRIES
    }

    open spec fn initial_delay() -> u64 {
        RETRY_INITIAL_DELAY
    }

    open spec fn report_level() -> Option<Level> {
        Some(Level::Warn)
    }

    open spec fn policy(&self) -> Option<RetryPolicy> {
        retry_policy_of(self@)
    }

    fn max_retries() -> (limit: u32) {
        MAX_RETRIES
    }

    fn default_initial_delay() -> (delay: u64) {
        RETRY_INITIAL_DELAY
    }

    fn log_level() -> (level: Option<Level>) {
        Some(Level::Warn)
    }

    fn custom_retry_policy(&self) -> (policy: Option<RetryPolicy>) {
        match self {
            Error::HttpClientError(_) => Some(RetryPolicy::Delay(RETRY_DELAY)),
            Error::JsonError(_) => Some(RetryPolicy::Delay(RETRY_DELAY)),
            _ => Some(RetryPolicy::Break),
        }
    }
}

/// The rows that a text holds as a JSON array of arrays of strings, or
/// `None` where the text is not that.
pub uninterp spec fn json_rows(text: Seq<char>) -> Option<Seq<Seq<Seq<char>>>>;

/// Calls `serde_json::from_str` for a list of lists of strings. The result
/// depends on the text alone: the rows it holds, or, where it is not a JSON
/// array of arrays of strings, the decoder's description of the error.
#[verifier::external_body]
fn parse_json_rows(text: &str) -> (rows: Result<Vec<Vec<String>>, String>)
    ensures
        match rows {
            Ok(found) => json_rows(text@) == Some(rows_of(found@)),
            Err(_) => json_rows(text@) is None,
        },
{
    match serde_json::from_str::<Vec<Vec<String>>>(text) {
        Ok(rows) => Ok(rows),
        Err(error) => Err(error.to_string()),
    }
}

/// What a row of an answer denotes.
pub open spec fn row_item(row: Seq<Seq<char>>) -> Result<ItemView, crate::item::ErrorView> {
    parse_record(
        column_of(row, 0),
        column_of(row, 1),
        column_of(row, 2),
        column_of(row, 3),
        column_of(row, 4),
        column_of(row, 5),
    )
}

/// What the rows before the `n`-th denote, the first row left out for the
/// header it is: the items in order, or the error of the first row that is
/// no item.
pub open spec fn decoded_prefix(rows: Seq<Seq<Seq<char>>>, n: int) -> Result<
    Seq<ItemView>,
    crate::item::ErrorView,
>
    decreases n,
{
    if n <= 1 {
        Ok(Seq::empty())
    } else {
        match decoded_prefix(rows, n - 1) {
            Err(error) => Err(error),
            Ok(items) => match row_item(rows[n - 1]) {
                Ok(item) => Ok(items.push(item)),
                Err(error) => Err(error),
            },
        }
    }
}

/// What the rows of an answer denote.
pub open spec fn decoded_rows(rows: Seq<Seq<Seq<char>>>) -> Result<
    Seq<ItemView>,
    crate::item::ErrorView,
> {
    decoded_prefix(rows, rows.len() as int)
}

/// Once a row is no item, its error is the result however many rows
/// follow.
proof fn lemma_error_stays(rows: Seq<Seq<Seq<char>>>, at: int, n: int)
    requires
        decoded_prefix(rows, at) is Err,
        at <= n,
    ensures
        decoded_prefix(rows, n) == decoded_prefix(rows, at),
    decreases n - at,
{
    if at < n {
        lemma_error_stays(rows, at, n - 1);
    }
}

/// Whether an answer ends in the marker of a further page: an empty row,
/// then a row that is not empty.
pub open spec fn has_resume_key(rows: Seq<Seq<Seq<char>>>) -> bool {
    rows.len() >= 2 && rows[rows.len() - 2].len() == 0 && rows[rows.len() - 1].len() > 0
}

/// The rows of an answer without the marker of a further page.
pub open spec fn page_rows(rows: Seq<Seq<Seq<char>>>) -> Seq<Seq<Seq<char>>> {
    if has_resume_key(rows) {
        rows.subrange(0, rows.len() - 2)
    } else {
        rows
    }
}

/// The key with which to ask for the next page, where the answer has one.
pub open spec fn resume_key_of(rows: Seq<Seq<Seq<char>>>) -> Option<Seq<char>> {
    if has_resume_key(rows) {
        Some(rows[rows.len() - 1][0])
    } else {
        None
    }
}

/// What the rows of an answer come to: the items, and for an answer to a
/// query with a page limit the key of the next page.
pub open spec fn interpreted_rows(rows: Seq<Seq<Seq<char>>>, paged: bool) -> Result<
    (Seq<ItemView>, Option<Seq<char>>),
    ErrorView,
> {
    let kept = if paged {
        page_rows(rows)
    } else {
        rows
    };
    let key = if paged {
        resume_key_of(rows)
    } else {
        None
    };
    match decoded_rows(kept) {
        Ok(items) => Ok((items, key)),
        Err(error) => Err(ErrorView::ItemParsingError(error)),
    }
}

/// What the body of an answer comes to.
pub open spec fn interpreted_body(query: Seq<char>, body: Seq<char>, paged: bool) -> Result<
    (Seq<ItemView>, Option<Seq<char>>),
    ErrorView,
> {
    if body == BLOCKED_SITE_ERROR_MESSAGE@ {
        Err(ErrorView::BlockedQuery(query))
    } else {
        match json_rows(body) {
            None => Err(ErrorView::JsonError),
            Some(rows) => interpreted_rows(rows, paged),
        }
    }
}

/// The view of the outcome of a query.
pub open spec fn outcome_view(outcome: Result<(Vec<Item>, Option<String>), Error>) -> Result<
    (Seq<ItemView>, Option<Seq<char>>),
    ErrorView,
> {
    match outcome {
        Ok((items, key)) => Ok((item_views(items@), text_of(key))),
        Err(error) => Err(error@),
    }
}

/// The filters of a query, as they are added to its address.
pub open spec fn filter_text(timestamp: Option<Seq<char>>, digest: Option<Seq<char>>) -> Seq<
    char,
> {
    (match timestamp {
        Some(value) => "&filter=timestamp:"@ + value,
        None => Seq::empty(),
    }) + (match digest {
        Some(value) => "&filter=digest:"@ + value,
        None => Seq::empty(),
    })
}

/// The address of a query without page limit: the query, what every
/// query asks for, then the filters.
pub open spec fn search_url(
    base: Seq<char>,
    query: Seq<char>,
    timestamp: Option<Seq<char>>,
    digest: Option<Seq<char>>,
) -> Seq<char> {
    base + "?url="@ + query + CDX_OPTIONS@ + filter_text(timestamp, digest)
}

/// The address of a query for one page, the first or the one that a key
/// leads to: the query, what every query asks for, the page limit and the
/// request for a key, then the key.
pub open spec fn page_url(
    base: Seq<char>,
    query: Seq<char>,
    limit: usize,
    resume_key: Option<Seq<char>>,
) -> Seq<char> {
    base + "?url="@ + query + CDX_OPTIONS@ + "&limit="@ + decimal_text(limit as nat)
        + "&showResumeKey=true"@ + (match resume_key {
        Some(key) => "&resumeKey="@ + key,
        None => Seq::empty(),
    })
}

/// The index client: what it was set up with.
#[derive(Debug, PartialEq, Eq)]
pub struct IndexClient {
    /// Where the service is found.
    pub base: String,
    /// The `User-Agent` header to send, if any.
    pub user_agent: Option<String>,
    /// Whether a pacing hook is waited for before each request.
    pub paced: bool,
    /// Whether an observer is told of each request.
    pub observed: bool,
}

/// A query has been sent.
#[derive(Debug, PartialEq, Eq)]
pub struct AwaitingIndex {
    pub observed: bool,
    /// The address that was asked.
    pub url: String,
    pub query: String,
    /// Whether a page limit was given.
    pub paged: bool,
}

/// The answer to a query is being read.
#[derive(Debug, PartialEq, Eq)]
pub struct AwaitingRows {
    pub observed: bool,
    pub url: String,
    pub query: String,
    pub paged: bool,
    /// The status of the response.
    pub status: u16,
}

/// What follows the head of the response to a query.
#[derive(Debug, PartialEq)]
pub enum IndexStep {
    Failed(Vec<Action>, Error),
    ReadBody(Vec<Action>, AwaitingRows),
}

impl Clone for IndexClient {
    fn clone(&self) -> (copy: IndexClient)
        ensures
            copy == *self,
    {
        IndexClient {
            base: self.base.clone(),
            user_agent: match &self.user_agent {
                Some(agent) => Some(agent.clone()),
                None => None,
            },
            paced: self.paced,
            observed: self.observed,
        }
    }
}

/// Takes the marker of a further page off the rows of an answer.
pub fn split_resume_key(rows: Vec<Vec<String>>) -> (page: (Vec<Vec<String>>, Option<String>))
    ensures
        rows_of(page.0@) == page_rows(rows_of(rows@)),
        text_of(page.1) == resume_key_of(rows_of(rows@)),
{
    let mut rows = rows;
    let ghost before = rows_of(rows@);
    let len = rows.len();
    if len >= 2 && rows[len - 2].len() == 0 && rows[len - 1].len() > 0 {
        let last = rows.pop();
        let _ = rows.pop();
        proof {
            assert(rows_of(rows@) =~= before.subrange(0, len - 2));
        }
        match last {
            Some(mut row) => {
                let key = row.swap_remove(0);
                (rows, Some(key))
            },
            None => (rows, None),
        }
    } else {
        (rows, None)
    }
}

/// Reads the rows of an answer, of which a page limit says whether it may
/// end in the marker of a further page.
pub fn interpret_rows(rows: Vec<Vec<String>>, paged: bool) -> (outcome: Result<
    (Vec<Item>, Option<String>),
    Error,
>)
    ensures
        outcome_view(outcome) == interpreted_rows(rows_of(rows@), paged),
{
    let (kept, key) = if paged {
        split_resume_key(rows)
    } else {
        (rows, None)
    };
    match IndexClient::decode_rows(&kept) {
        Ok(items) => Ok((items, key)),
        Err(error) => Err(error),
    }
}

impl IndexClient {
    /// A client for the service at `base`, without pacing hook or observer.
    pub fn new(base: String) -> (client: IndexClient)
        ensures
            client.base == base,
            text_of(client.user_agent) == Some(DEFAULT_USER_AGENT@),
            !client.paced,
            !client.observed,
    {
        IndexClient {
            base,
            user_agent: Some(String::from_str(DEFAULT_USER_AGENT)),
            paced: false,
            observed: false,
        }
    }

    /// The same client, waiting for a pacing hook before each request.
    pub fn with_pacer(self) -> (client: IndexClient)
        ensures
            client == (IndexClient { paced: true, ..self }),
    {
        IndexClient { paced: true, ..self }
    }

    /// The same client, telling an observer of each request.
    pub fn with_observer(self) -> (client: IndexClient)
        ensures
            client == (IndexClient { observed: true, ..self }),
    {
        IndexClient { observed: true, ..self }
    }

    /// The same client with another `User-Agent`.
    pub fn with_user_agent(self, user_agent: String) -> (client: IndexClient)
        ensures
            client == (IndexClient { user_agent: Some(user_agent), ..self }),
    {
        IndexClient { user_agent: Some(user_agent), ..self }
    }

    /// The same client, sending no `User-Agent`.
    pub fn without_user_agent(self) -> (client: IndexClient)
        ensures
            client == (IndexClient { user_agent: None, ..self }),
    {
        IndexClient { user_agent: None, ..self }
    }

    /// Reads the rows of an answer but the first, which names the columns.
    pub fn decode_rows(rows: &Vec<Vec<String>>) -> (decoded: Result<Vec<Item>, Error>)
        ensures
            match decoded {
                Ok(items) => decoded_rows(rows_of(rows@)) == Ok::<
                    Seq<ItemView>,
                    crate::item::ErrorView,
                >(item_views(items@)),
                Err(error) => decoded_rows(rows_of(rows@)) is Err && error@
                    == ErrorView::ItemParsingError(decoded_rows(rows_of(rows@))->Err_0),
            },
    {
        let mut items: Vec<Item> = Vec::new();
        let ghost all = rows_of(rows@);
        let mut i: usize = 1;
        proof {
            assert(item_views(items@) =~= Seq::<ItemView>::empty());
        }
        while i < rows.len()
            invariant
                1 <= i,
                all == rows_of(rows@),
                i <= rows.len() || i == 1,
                decoded_prefix(all, i as int) == Ok::<Seq<ItemView>, crate::item::ErrorView>(
                    item_views(items@),
                ),
            decreases rows.len() - i,
        {
            let row = &rows[i];
            let parsed = Item::parse_optional_record(
                column(row, 0),
                column(row, 1),
                column(row, 2),
                column(row, 3),
                column(row, 4),
                column(row, 5),
            );
            proof {
                assert(all[i as int] == texts_of(row@));
            }
            match parsed {
                Ok(item) => {
                    proof {
                        assert(item_views(items@.push(item)) =~= item_views(items@).push(item@));
                    }
                    items.push(item);
                },
                Err(error) => {
                    proof {
                        lemma_error_stays(all, i + 1, rows.len() as int);
                    }
                    return Err(Error::ItemParsingError(error));
                },
            }
            i += 1;
        }
        proof {
            assert(all.len() == rows.len());
            if rows.len() == 0 {
                assert(decoded_prefix(all, 0) == Ok::<Seq<ItemView>, crate::item::ErrorView>(
                    Seq::empty(),
                ));
                assert(decoded_prefix(all, 1) == Ok::<Seq<ItemView>, crate::item::ErrorView>(
                    Seq::empty(),
                ));
            }
        }
        Ok(items)
    }

    /// Reads the items of an answer that was kept as text.
    pub fn load_json(text: &str) -> (loaded: Result<Vec<Item>, Error>)
        ensures
            match loaded {
                Ok(items) => json_rows(text@) matches Some(rows) && decoded_rows(rows) == Ok::<
                    Seq<ItemView>,
                    crate::item::ErrorView,
                >(item_views(items@)),
                Err(error) => match json_rows(text@) {
                    None => error@ == ErrorView::JsonError,
                    Some(rows) => decoded_rows(rows) is Err && error@
                        == ErrorView::ItemParsingError(decoded_rows(rows)->Err_0),
                },
            },
    {
        match parse_json_rows(text) {
            Ok(rows) => IndexClient::decode_rows(&rows),
            Err(error) => Err(Error::JsonError(error)),
        }
    }

    /// The request for the address `url`.
    fn request(&self, url: &String) -> (request: Request)
        ensures
            request@ == (RequestView {
                method: Method::Get,
                url: url@,
                user_agent: text_of(self.user_agent),
            }),
    {
        Request {
            method: Method::Get,
            url: url.clone(),
            user_agent: match &self.user_agent {
                Some(agent) => Some(agent.clone()),
                None => None,
            },
        }
    }

    /// Begins a query without page limit, with the filters given.
    pub fn search(&self, query: &str, timestamp: Option<&str>, digest: Option<&str>) -> (begun: (
        Vec<Action>,
        AwaitingIndex,
    ))
        ensures
            begun.1.url@ == search_url(
                self.base@,
                query@,
                optional_text(timestamp),
                optional_text(digest),
            ),
            begun.1.query@ == query@,
            begun.1.observed == self.observed,
            !begun.1.paged,
            action_views(begun.0@) == opening(
                self.paced,
                self.observed,
                true,
                Surface::Cdx,
                RequestView {
                    method: Method::Get,
                    url: begun.1.url@,
                    user_agent: text_of(self.user_agent),
                },
            ),
    {
        let mut filter = String::new();
        match timestamp {
            Some(value) => {
                filter.append("&filter=timestamp:");
                filter.append(value);
            },
            None => {},
        }
        match digest {
            Some(value) => {
                filter.append("&filter=digest:");
                filter.append(value);
            },
            None => {},
        }
        proof {
            assert(filter@ =~= filter_text(optional_text(timestamp), optional_text(digest)));
        }
        let mut url = join2(self.base.as_str(), "?url=");
        url.append(query);
        url.append(CDX_OPTIONS);
        url.append(filter.as_str());
        let mut actions: Vec<Action> = Vec::new();
        assert(action_views(actions@) =~= Seq::<ActionView>::empty());
        push_opening(
            &mut actions,
            self.paced,
            self.observed,
            true,
            Surface::Cdx,
            self.request(&url),
        );
        (
            actions,
            AwaitingIndex {
                observed: self.observed,
                url,
                query: String::from_str(query),
                paged: false,
            },
        )
    }

    /// Begins a query for one page of at most `limit` rows: the first
    /// page, or the one that `resume_key` leads to.
    pub fn search_with_resume_key(
        &self,
        query: &str,
        limit: usize,
        resume_key: &Option<String>,
    ) -> (begun: (Vec<Action>, AwaitingIndex))
        ensures
            begun.1.url@ == page_url(self.base@, query@, limit, text_of(*resume_key)),
            begun.1.query@ == query@,
            begun.1.observed == self.observed,
            begun.1.paged,
            action_views(begun.0@) == opening(
                self.paced,
                self.observed,
                false,
                Surface::Cdx,
                RequestView {
                    method: Method::Get,
                    url: begun.1.url@,
                    user_agent: text_of(self.user_agent),
                },
            ),
    {
        let mut url = join2(self.base.as_str(), "?url=");
        url.append(query);
        url.append(CDX_OPTIONS);
        url.append("&limit=");
        url.append(decimal(limit as u64).as_str());
        url.append("&showResumeKey=true");
        match resume_key {
            Some(key) => {
                url.append("&resumeKey=");
                url.append(key.as_str());
            },
            None => {
                proof {
                    assert(url@ + Seq::<char>::empty() =~= url@);
                }
            },
        }
        let mut actions: Vec<Action> = Vec::new();
        assert(action_views(actions@) =~= Seq::<ActionView>::empty());
        push_opening(
            &mut actions,
            self.paced,
            self.observed,
            false,
            Surface::Cdx,
            self.request(&url),
        );
        (
            actions,
            AwaitingIndex {
                observed: self.observed,
                url,
                query: String::from_str(query),
                paged: true,
            },
        )
    }
}

impl Default for IndexClient {
    fn default() -> (client: IndexClient)
        ensures
            client.base@ == DEFAULT_CDX_BASE@,
            text_of(client.user_agent) == Some(DEFAULT_USER_AGENT@),
            !client.paced,
            !client.observed,
    {
        IndexClient::new(String::from_str(DEFAULT_CDX_BASE))
    }
}

impl AwaitingIndex {
    /// Takes the head of the response to a query. Whatever its status, the
    /// body is read.
    pub fn receive(self, reply: Result<ResponseHead, Failure>, elapsed: Duration) -> (step:
        IndexStep)
        ensures
            match step {
                IndexStep::Failed(actions, error) => {
                    &&& reply matches Err(failure)
                    &&& error@ == ErrorView::HttpClientError(failure)
                    &&& action_views(actions@) == notify_step(
                        self.observed,
                        error_event(
                            Surface::Cdx,
                            method_name(Method::Get),
                            self.url@,
                            None,
                            Some(elapsed),
                            failure_class(failure),
                        ),
                    )
                },
                IndexStep::ReadBody(actions, next) => {
                    &&& reply matches Ok(head)
                    &&& action_views(actions@) == seq![ActionView::ReadBody]
                    &&& next.status == head.status
                    &&& next.observed == self.observed
                    &&& next.url == self.url
                    &&& next.query == self.query
                    &&& next.paged == self.paged
                },
            },
    {
        let mut actions: Vec<Action> = Vec::new();
        assert(action_views(actions@) =~= Seq::<ActionView>::empty());
        match reply {
            Err(failure) => {
                push_notify(
                    &mut actions,
                    self.observed,
                    Event::error(
                        Surface::Cdx,
                        Method::Get.name(),
                        self.url,
                        None,
                        Some(elapsed),
                        failure.class(),
                    ),
                );
                IndexStep::Failed(actions, Error::HttpClientError(failure))
            },
            Ok(head) => {
                proof {
                    lemma_push_action(actions@, Action::ReadBody);
                }
                actions.push(Action::ReadBody);
                proof {
                    assert(action_views(actions@) =~= seq![ActionView::ReadBody]);
                }
                IndexStep::ReadBody(
                    actions,
                    AwaitingRows {
                        observed: self.observed,
                        url: self.url,
                        query: self.query,
                        paged: self.paged,
                        status: head.status,
                    },
                )
            },
        }
    }
}

/// What the observer hears once the body of an answer has been read.
pub open spec fn body_events(
    observed: bool,
    url: Seq<char>,
    status: u16,
    body: Seq<char>,
    elapsed: Duration,
) -> Seq<ActionView> {
    notify_step(
        observed,
        complete_event(Surface::Cdx, method_name(Method::Get), url, status, elapsed),
    ) + (if body != BLOCKED_SITE_ERROR_MESSAGE@ && json_rows(body) is None {
        notify_step(
            observed,
            error_event(
                Surface::Cdx,
                method_name(Method::Get),
                url,
                Some(status),
                Some(elapsed),
                ErrorClass::Decode,
            ),
        )
    } else {
        Seq::empty()
    })
}

impl AwaitingRows {
    /// Takes the body of the answer to a query, as text.
    pub fn receive(self, reply: Result<String, Failure>, elapsed: Duration) -> (end: (
        Vec<Action>,
        Result<(Vec<Item>, Option<String>), Error>,
    ))
        ensures
            match reply {
                Err(failure) => {
                    &&& action_views(end.0@) == Seq::<ActionView>::empty()
                    &&& outcome_view(end.1) == Err::<
                        (Seq<ItemView>, Option<Seq<char>>),
                        ErrorView,
                    >(ErrorView::HttpClientError(failure))
                },
                Ok(body) => {
                    &&& action_views(end.0@) == body_events(
                        self.observed,
                        self.url@,
                        self.status,
                        body@,
                        elapsed,
                    )
                    &&& outcome_view(end.1) == interpreted_body(self.query@, body@, self.paged)
                },
            },
    {
        let mut actions: Vec<Action> = Vec::new();
        assert(action_views(actions@) =~= Seq::<ActionView>::empty());
        let body = match reply {
            Ok(body) => body,
            Err(failure) => {
                return (actions, Err(Error::HttpClientError(failure)));
            },
        };
        push_notify(
            &mut actions,
            self.observed,
            Event::complete(
                Surface::Cdx,
                Method::Get.name(),
                self.url.clone(),
                self.status,
                elapsed,
            ),
        );
        if same_text(body.as_str(), BLOCKED_SITE_ERROR_MESSAGE) {
            proof {
                assert(action_views(actions@) =~= body_events(
                    self.observed,
                    self.url@,
                    self.status,
                    body@,
                    elapsed,
                ));
            }
            return (actions, Err(Error::BlockedQuery(self.query)));
        }
        match parse_json_rows(body.as_str()) {
            Ok(rows) => {
                proof {
                    assert(action_views(actions@) =~= body_events(
                        self.observed,
                        self.url@,
                        self.status,
                        body@,
                        elapsed,
                    ));
                }
                (actions, interpret_rows(rows, self.paged))
            },
            Err(error) => {
                push_notify(
                    &mut actions,
                    self.observed,
                    Event::error(
                        Surface::Cdx,
                        Method::Get.name(),
                        self.url,
                        Some(self.status),
                        Some(elapsed),
                        ErrorClass::Decode,
                    ),
                );
                (actions, Err(Error::JsonError(error)))
            },
        }
    }
}

/// A query answered page by page: each page but the last brings the key
/// with which the next is asked.
#[derive(Debug, PartialEq, Eq)]
pub struct StreamSearch {
    pub query: String,
    /// How many rows a page may have.
    pub limit: usize,
    /// The key with which the next page is asked, where there is a next
    /// page: none for the first. Nothing once the last page has come or a
    /// page has failed.
    pub next: Option<Option<String>>,
}

/// What a stream asks next for: the key of the next page, or nothing once
/// it has ended.
pub open spec fn next_view(next: Option<Option<String>>) -> Option<Option<Seq<char>>> {
    match next {
        Some(key) => Some(text_of(key)),
        None => None,
    }
}

/// What a stream asks next for after a page: the page that the key of
/// this page leads to, or nothing after a page without key or a failure.
pub open spec fn after_page(
    page: Result<(Seq<ItemView>, Option<Seq<char>>), ErrorView>,
) -> Option<Option<Seq<char>>> {
    match page {
        Ok((_, Some(key))) => Some(Some(key)),
        _ => None,
    }
}

/// The items that a page brings.
pub open spec fn page_items(page: Result<(Seq<ItemView>, Option<Seq<char>>), ErrorView>) -> Seq<
    ItemView,
> {
    match page {
        Ok((items, _)) => items,
        Err(_) => Seq::empty(),
    }
}

impl StreamSearch {
    /// A stream that has not asked for anything yet.
    pub fn new(query: &str, limit: usize) -> (stream: StreamSearch)
        ensures
            stream.query@ == query@,
            stream.limit == limit,
            next_view(stream.next) == Some(None::<Seq<char>>),
    {
        StreamSearch { query: String::from_str(query), limit, next: Some(None) }
    }

    /// Whether the last page has come.
    pub fn is_finished(&self) -> (finished: bool)
        ensures
            finished == (self.next is None),
    {
        self.next.is_none()
    }

    /// Begins the query for the next page, where there is one.
    pub fn request(&self, client: &IndexClient) -> (begun: Option<(Vec<Action>, AwaitingIndex)>)
        ensures
            match begun {
                None => self.next is None,
                Some((actions, awaiting)) => {
                    &&& self.next matches Some(key)
                    &&& awaiting.url@ == page_url(client.base@, self.query@, self.limit, text_of(key))
                    &&& awaiting.query@ == self.query@
                    &&& awaiting.observed == client.observed
                    &&& awaiting.paged
                    &&& action_views(actions@) == opening(
                        client.paced,
                        client.observed,
                        false,
                        Surface::Cdx,
                        RequestView {
                            method: Method::Get,
                            url: awaiting.url@,
                            user_agent: text_of(client.user_agent),
                        },
                    )
                },
            },
    {
        match &self.next {
            Some(key) => Some(client.search_with_resume_key(self.query.as_str(), self.limit, key)),
            None => None,
        }
    }

    /// Takes a page: hands on its items or its failure, and notes the key
    /// of the next page. A page without key is the last, and so is a page
    /// that failed.
    pub fn advance(&mut self, page: Result<(Vec<Item>, Option<String>), Error>) -> (yielded: Result<
        Vec<Item>,
        Error,
    >)
        ensures
            final(self).query == old(self).query,
            final(self).limit == old(self).limit,
            next_view(final(self).next) == after_page(outcome_view(page)),
            match yielded {
                Ok(items) => page matches Ok((found, _)) && items == found,
                Err(error) => page matches Err(failure) && error == failure,
            },
    {
        match page {
            Ok((items, key)) => {
                self.next = match key {
                    Some(key) => Some(Some(key)),
                    None => None,
                };
                Ok(items)
            },
            Err(error) => {
                self.next = None;
                Err(error)
            },
        }
    }
}

/// The items of the pages that are asked for one after the other, each
/// with the key that the page before it brought, beginning with `key`,
/// until a page brings no key or fails; at most `more` pages after the
/// first.
pub open spec fn successive_items(
    service: spec_fn(Option<Seq<char>>) -> Result<(Seq<ItemView>, Option<Seq<char>>), ErrorView>,
    key: Option<Seq<char>>,
    more: nat,
) -> Seq<ItemView>
    decreases more,
{
    let page = service(key);
    match page {
        Ok((items, Some(next))) => if more > 0 {
            items + successive_items(service, Some(next), (more - 1) as nat)
        } else {
            items
        },
        _ => page_items(page),
    }
}

/// The items that a stream yields in at most `steps` pages, from what it
/// asks next for.
pub open spec fn streamed_items(
    service: spec_fn(Option<Seq<char>>) -> Result<(Seq<ItemView>, Option<Seq<char>>), ErrorView>,
    next: Option<Option<Seq<char>>>,
    steps: nat,
) -> Seq<ItemView>
    decreases steps,
{
    match next {
        None => Seq::empty(),
        Some(key) => if steps == 0 {
            Seq::empty()
        } else {
            page_items(service(key)) + streamed_items(
                service,
                after_page(service(key)),
                (steps - 1) as nat,
            )
        },
    }
}

/// A stream yields the items of the pages that are asked for one after
/// the other, each with the key that the page before it brought, until a
/// page brings no key or fails.
pub proof fn lemma_stream_follows_keys(
    service: spec_fn(Option<Seq<char>>) -> Result<(Seq<ItemView>, Option<Seq<char>>), ErrorView>,
    key: Option<Seq<char>>,
    more: nat,
)
    ensures
        streamed_items(service, Some(key), more + 1) == successive_items(service, key, more),
    decreases more,
{
    let page = service(key);
    match page {
        Ok((items, Some(next))) => {
            if more > 0 {
                lemma_stream_follows_keys(service, Some(next), (more - 1) as nat);
            } else {
                assert(streamed_items(service, Some(Some(next)), 0) == Seq::<ItemView>::empty());
                assert(items + Seq::<ItemView>::empty() =~= items);
            }
        },
        _ => {
            assert(after_page(page) is None);
            assert(streamed_items(service, None, more) == Seq::<ItemView>::empty());
            assert(page_items(page) + Seq::<ItemView>::empty() =~= page_items(page));
        },
    }
}

} // verus!
