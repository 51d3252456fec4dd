//! The decisions of an ingestion session.
//!
//! A session works in three phases on a directory of its own. The first
//! asks the index for the captures that match a list of queries and files
//! them, sorted and without duplicates, as originals and redirects. The
//! second resolves the redirects and adds what they lead to. The third
//! downloads what has not been seen before and files each capture by its
//! digest, or by the digest it turned out to have.
//!
//! What is decided here is which files are written with which content,
//! which captures are fetched, and what is counted. Reading, writing and
//! fetching are the caller's part.

use crate::cdx::IndexClient;
use crate::digest::{
    compress, compute_digest, digest_of, gzip_payload, is_digest_text, packed, records_name,
};
use crate::downloader::{Downloader, RedirectResolution};
use crate::item::{
    filename_of, item_views, same_items, sorted_unique, strictly_sorted, Item, ItemView,
};
use crate::records::{
    csv_records, csv_text, items_of, read_csv, records_of, write_csv, write_rows,
};
use crate::text::{
    bytes_before, join3, lemma_lex_between, reversed, rows_of, same_text, text_lt, texts_of,
    trim, trimmed, utf8_text,
};
use crate::textset::TextSet;
use crate::util::{timestamp_text, to_timestamp, Timestamp};
use vstd::prelude::*;
use vstd::seq_lib::*;
use vstd::slice::*;
use vstd::string::*;
use vstd::utf8::*;

verus! {

/// The file that lists the queries of a session.
pub const QUERIES_FILE: &'static str = "queries.txt";

/// The file of the captures that are no redirects.
pub const ORIGINALS_FILE: &'static str = "originals.csv";

/// The file of the captures that are redirects.
pub const REDIRECTS_FILE: &'static str = "redirects.csv";

/// The file of the queries that the index refuses.
pub const BLOCKED_FILE: &'static str = "blocked.txt";

/// The file of the captures that redirects lead to.
pub const EXTRAS_FILE: &'static str = "extras.csv";

/// The directory of the captures that have the digest they were listed
/// with.
pub const DATA_DIRECTORY: &'static str = "data";

/// The directory of the captures that have another digest than they were
/// listed with.
pub const INVALID_DIRECTORY: &'static str = "invalid";

/// The directory of the files that record failures.
pub const ERRORS_DIRECTORY: &'static str = "errors";

/// The file of the redirects that could not be resolved.
pub const REDIRECT_ERRORS_FILE: &'static str = "errors/redirects.csv";

/// The file of the captures that could not be fetched.
pub const ITEM_ERRORS_FILE: &'static str = "errors/items.csv";

/// The file that pairs, for each capture with another digest than it was
/// listed with, the digest listed and the digest found.
pub const INVALID_LOG_FILE: &'static str = "errors/invalid.csv";

/// How many requests are in flight at once unless told otherwise.
pub const DEFAULT_PARALLELISM: usize = 6;

/// The status of a capture that is a redirect.
pub const REDIRECT_STATUS: u16 = 302;

/// What can end a phase of a session.
#[derive(Debug, PartialEq, Eq)]
pub enum Error {
    /// Reading or writing failed.
    IOError,
    /// A query failed.
    IndexClientError(crate::cdx::Error),
    /// A record could not be read or written as CSV; the text says why.
    CsvError(String),
    /// A record is no item.
    ItemError(crate::item::Error),
}

/// An [`Error`] with its texts as sequences of characters.
pub enum ErrorView {
    IOError,
    IndexClientError(crate::cdx::ErrorView),
    CsvError,
    ItemError(crate::item::ErrorView),
}

impl View for Error {
    type V = ErrorView;

    open spec fn view(&self) -> ErrorView {
        match self {
            Error::IOError => ErrorView::IOError,
            Error::IndexClientError(error) => ErrorView::IndexClientError(error@),
            Error::CsvError(_) => ErrorView::CsvError,
            Error::ItemError(error) => ErrorView::ItemError(error@),
        }
    }
}

/// The error of a session that an error of a file of records is.
pub open spec fn records_error(error: crate::records::ErrorView) -> ErrorView {
    match error {
        crate::records::ErrorView::CsvError => ErrorView::CsvError,
        crate::records::ErrorView::ItemError(inner) => ErrorView::ItemError(inner),
    }
}

/// Takes an error of a file of records as an error of a session.
pub fn from_records_error(error: crate::records::Error) -> (converted: Error)
    ensures
        converted@ == records_error(error@),
{
    match error {
        crate::records::Error::CsvError(text) => Error::CsvError(text),
        crate::records::Error::ItemError(inner) => Error::ItemError(inner),
    }
}

/// A file to write, with its path below the directory of the session.
#[derive(Debug, PartialEq, Eq)]
pub struct FileWrite {
    pub path: String,
    pub content: Vec<u8>,
}

impl View for FileWrite {
    type V = (Seq<char>, Seq<u8>);

    open spec fn view(&self) -> (Seq<char>, Seq<u8>) {
        (self.path@, self.content@)
    }
}

/// The files of a list, each by its view.
pub open spec fn file_views(files: Seq<FileWrite>) -> Seq<(Seq<char>, Seq<u8>)> {
    Seq::new(files.len(), |i: int| files[i]@)
}

/// The first `n` lines, each ended by a line feed.
pub open spec fn ended_lines(lines: Seq<Seq<char>>, n: int) -> Seq<char>
    decreases n,
{
    if n <= 0 {
        Seq::empty()
    } else {
        ended_lines(lines, n - 1) + lines[n - 1] + "\n"@
    }
}

/// The text of a file of lines: each line ended by a line feed, and a
/// single line feed where there is no line.
pub open spec fn lines_text(lines: Seq<Seq<char>>) -> Seq<char> {
    if lines.len() == 0 {
        "\n"@
    } else {
        ended_lines(lines, lines.len() as int)
    }
}

/// Writes lines as the text of a file.
pub fn write_lines(lines: &Vec<String>) -> (text: String)
    ensures
        text@ == lines_text(texts_of(lines@)),
{
    if lines.len() == 0 {
        return String::from_str("\n");
    }
    let mut text = String::new();
    let mut i: usize = 0;
    while i < lines.len()
        invariant
            i <= lines@.len(),
            text@ == ended_lines(texts_of(lines@), i as int),
        decreases lines@.len() - i,
    {
        text.append(lines[i].as_str());
        text.append("\n");
        i += 1;
    }
    text
}

/// What the answers to the first `n` queries come to: the items of all
/// answers, and the queries that the index refuses. Any other failure is
/// the result, the first in the order of the answers.
pub open spec fn gathered_prefix(results: Seq<Result<Vec<Item>, crate::cdx::Error>>, n: int) -> Result<
    (Seq<ItemView>, Seq<Seq<char>>),
    crate::cdx::ErrorView,
>
    decreases n,
{
    if n <= 0 {
        Ok((Seq::empty(), Seq::empty()))
    } else {
        match gathered_prefix(results, n - 1) {
            Err(error) => Err(error),
            Ok((items, blocked)) => match results[n - 1] {
                Ok(batch) => Ok((items + item_views(batch@), blocked)),
                Err(crate::cdx::Error::BlockedQuery(query)) => Ok((items, blocked.push(query@))),
                Err(other) => Err(other@),
            },
        }
    }
}

/// What the answers to the queries of a session come to.
pub open spec fn gathered(results: Seq<Result<Vec<Item>, crate::cdx::Error>>) -> Result<
    (Seq<ItemView>, Seq<Seq<char>>),
    crate::cdx::ErrorView,
> {
    gathered_prefix(results, results.len() as int)
}

/// Once an answer is a failure, it is the result however many answers
/// follow.
proof fn lemma_failure_stays(results: Seq<Result<Vec<Item>, crate::cdx::Error>>, at: int, n: int)
    requires
        gathered_prefix(results, at) is Err,
        at <= n,
    ensures
        gathered_prefix(results, n) == gathered_prefix(results, at),
    decreases n - at,
{
    if at < n {
        lemma_failure_stays(results, at, n - 1);
    }
}

/// Gathers the answers to the queries of a session.
pub fn gather(results: Vec<Result<Vec<Item>, crate::cdx::Error>>) -> (outcome: Result<
    (Vec<Item>, Vec<String>),
    Error,
>)
    ensures
        match outcome {
            Ok((items, blocked)) => gathered(results@) == Ok::<
                (Seq<ItemView>, Seq<Seq<char>>),
                crate::cdx::ErrorView,
            >((item_views(items@), texts_of(blocked@))),
            Err(error) => gathered(results@) is Err && error@ == ErrorView::IndexClientError(
                gathered(results@)->Err_0,
            ),
        },
{
    let ghost total = results@.len() as int;
    let mut rest = reversed(results);
    let mut items: Vec<Item> = Vec::new();
    let mut blocked: Vec<String> = Vec::new();
    let ghost mut done: int = 0;
    proof {
        assert(item_views(items@) =~= Seq::<ItemView>::empty());
        assert(texts_of(blocked@) =~= Seq::<Seq<char>>::empty());
    }
    while rest.len() > 0
        invariant
            0 <= done <= total,
            total == results@.len(),
            rest@.len() == total - done,
            forall|k: int| 0 <= k < rest@.len() ==> rest@[k] == results@[total - 1 - k],
            gathered_prefix(results@, done) == Ok::<
                (Seq<ItemView>, Seq<Seq<char>>),
                crate::cdx::ErrorView,
            >((item_views(items@), texts_of(blocked@))),
        decreases rest@.len(),
    {
        let next = rest.pop();
        let result = match next {
            Some(result) => result,
            None => {
                return Ok((items, blocked));
            },
        };
        proof {
            assert(result == results@[done]);
        }
        match result {
            Ok(batch) => {
                let mut batch = batch;
                proof {
                    assert(item_views(items@ + batch@) =~= item_views(items@) + item_views(batch@));
                }
                items.append(&mut batch);
            },
            Err(crate::cdx::Error::BlockedQuery(query)) => {
                proof {
                    assert(texts_of(blocked@.push(query)) =~= texts_of(blocked@).push(query@));
                }
                blocked.push(query);
            },
            Err(other) => {
                proof {
                    lemma_failure_stays(results@, done + 1, total);
                }
                return Err(Error::IndexClientError(other));
            },
        }
        proof {
            done = done + 1;
        }
    }
    Ok((items, blocked))
}

/// Whether an answer is a failure that is no refusal.
pub open spec fn is_failure(result: Result<Vec<Item>, crate::cdx::Error>) -> bool {
    match result {
        Ok(_) => false,
        Err(crate::cdx::Error::BlockedQuery(_)) => false,
        Err(_) => true,
    }
}

/// The position of the first of the first `n` answers that is a failure
/// and no refusal, or -1 where there is none.
pub open spec fn failure_at(results: Seq<Result<Vec<Item>, crate::cdx::Error>>, n: int) -> int
    decreases n,
{
    if n <= 0 {
        -1
    } else if failure_at(results, n - 1) >= 0 {
        failure_at(results, n - 1)
    } else if is_failure(results[n - 1]) {
        n - 1
    } else {
        -1
    }
}

/// The answers come to a failure exactly where one of them is a failure
/// and no refusal, and the failure is that of the first such answer.
pub proof fn lemma_failure_at(results: Seq<Result<Vec<Item>, crate::cdx::Error>>, n: int)
    requires
        0 <= n <= results.len(),
    ensures
        -1 <= failure_at(results, n) < n,
        gathered_prefix(results, n) is Err <==> failure_at(results, n) >= 0,
        failure_at(results, n) >= 0 ==> is_failure(results[failure_at(results, n)])
            && gathered_prefix(results, n) == Err::<
            (Seq<ItemView>, Seq<Seq<char>>),
            crate::cdx::ErrorView,
        >(results[failure_at(results, n)]->Err_0@),
    decreases n,
{
    if n > 0 {
        lemma_failure_at(results, n - 1);
    }
}

/// Finds the first answer that ends the first phase: the first that is a
/// failure and no refusal.
pub fn first_failure(results: &Vec<Result<Vec<Item>, crate::cdx::Error>>) -> (found: Option<usize>)
    ensures
        match found {
            Some(at) => at == failure_at(results@, results@.len() as int),
            None => failure_at(results@, results@.len() as int) == -1,
        },
{
    let mut i: usize = 0;
    while i < results.len()
        invariant
            i <= results@.len(),
            failure_at(results@, i as int) == -1,
        decreases results@.len() - i,
    {
        let failed = match &results[i] {
            Ok(_) => false,
            Err(crate::cdx::Error::BlockedQuery(_)) => false,
            Err(_) => true,
        };
        if failed {
            proof {
                lemma_found_failure(results@, i as int, results@.len() as int);
            }
            return Some(i);
        }
        i += 1;
    }
    None
}

/// Where no answer before a failure is one, that failure is the first
/// however many answers follow.
proof fn lemma_found_failure(results: Seq<Result<Vec<Item>, crate::cdx::Error>>, at: int, n: int)
    requires
        0 <= at < n <= results.len(),
        failure_at(results, at) == -1,
        is_failure(results[at]),
    ensures
        failure_at(results, n) == at,
    decreases n - at,
{
    if at + 1 < n {
        lemma_found_failure(results, at, n - 1);
    }
}

/// Where a text is put among texts that are in order: after the last that
/// does not come after it.
pub open spec fn text_place(sorted: Seq<Seq<char>>, text: Seq<char>) -> int
    decreases sorted.len(),
{
    if sorted.len() == 0 {
        0
    } else if text_lt(text, sorted.last()) {
        text_place(sorted.drop_last(), text)
    } else {
        sorted.len() as int
    }
}

/// The texts in order; a text that occurs more than once stays as often.
pub open spec fn ordered(texts: Seq<Seq<char>>) -> Seq<Seq<char>>
    decreases texts.len(),
{
    if texts.len() == 0 {
        Seq::empty()
    } else {
        let sorted = ordered(texts.drop_last());
        sorted.insert(text_place(sorted, texts.last()), texts.last())
    }
}

/// Whether no text falls below one before it.
pub open spec fn in_order(texts: Seq<Seq<char>>) -> bool {
    forall|i: int, j: int|
        0 <= i < j < texts.len() ==> !text_lt(#[trigger] texts[j], #[trigger] texts[i])
}

/// Where a text is put, those before it do not come after it, and those
/// from there on do.
proof fn lemma_text_place(sorted: Seq<Seq<char>>, text: Seq<char>)
    requires
        in_order(sorted),
    ensures
        0 <= text_place(sorted, text) <= sorted.len(),
        forall|k: int|
            0 <= k < text_place(sorted, text) ==> !text_lt(text, #[trigger] sorted[k]),
        forall|k: int|
            text_place(sorted, text) <= k < sorted.len() ==> text_lt(text, #[trigger] sorted[k]),
    decreases sorted.len(),
{
    if sorted.len() == 0 {
    } else if text_lt(text, sorted.last()) {
        let front = sorted.drop_last();
        assert forall|i: int, j: int| 0 <= i < j < front.len() implies !text_lt(
            #[trigger] front[j],
            #[trigger] front[i],
        ) by {
            assert(front[i] == sorted[i]);
            assert(front[j] == sorted[j]);
        }
        lemma_text_place(front, text);
        assert forall|k: int| text_place(sorted, text) <= k < sorted.len() implies text_lt(
            text,
            #[trigger] sorted[k],
        ) by {
            if k < front.len() {
                assert(front[k] == sorted[k]);
            }
        }
        assert forall|k: int| 0 <= k < text_place(sorted, text) implies !text_lt(
            text,
            #[trigger] sorted[k],
        ) by {
            assert(front[k] == sorted[k]);
        }
    } else {
        let last = sorted.last();
        assert forall|k: int| 0 <= k < sorted.len() implies !text_lt(
            text,
            #[trigger] sorted[k],
        ) by {
            if k < sorted.len() - 1 && text_lt(text, sorted[k]) {
                assert(!text_lt(sorted[sorted.len() - 1], sorted[k]));
                lemma_lex_between(encode_utf8(text), encode_utf8(sorted[k]), encode_utf8(last));
            }
        }
    }
}

/// The texts in order are in order, and are the texts that were given,
/// each as often as it was given.
pub proof fn lemma_ordered(texts: Seq<Seq<char>>)
    ensures
        in_order(ordered(texts)),
        ordered(texts).to_multiset() == texts.to_multiset(),
        ordered(texts).len() == texts.len(),
    decreases texts.len(),
{
    if texts.len() == 0 {
        assert(texts =~= Seq::<Seq<char>>::empty());
    } else {
        let front = texts.drop_last();
        let last = texts.last();
        lemma_ordered(front);
        let sorted = ordered(front);
        lemma_text_place(sorted, last);
        let at = text_place(sorted, last);
        let placed = sorted.insert(at, last);
        assert forall|i: int, j: int| 0 <= i < j < placed.len() implies !text_lt(
            #[trigger] placed[j],
            #[trigger] placed[i],
        ) by {
            let x = if i < at {
                i
            } else {
                i - 1
            };
            let y = if j < at {
                j
            } else {
                j - 1
            };
            if i != at && j != at {
                assert(placed[i] == sorted[x]);
                assert(placed[j] == sorted[y]);
            } else if i == at {
                assert(placed[j] == sorted[y]);
            } else {
                assert(placed[i] == sorted[x]);
            }
        }
        to_multiset_insert(sorted, at, last);
        assert(texts =~= front.push(last));
        to_multiset_build(front, last);
        assert(placed.to_multiset() =~= sorted.to_multiset().insert(last));
        assert(texts.to_multiset() =~= front.to_multiset().insert(last));
        assert(ordered(texts) == placed);
    }
}

/// Puts texts in order.
pub fn sort_texts(texts: Vec<String>) -> (sorted: Vec<String>)
    ensures
        texts_of(sorted@) == ordered(texts_of(texts@)),
{
    let ghost all = texts_of(texts@);
    let mut rest = reversed(texts);
    let mut sorted: Vec<String> = Vec::new();
    let ghost mut done: int = 0;
    proof {
        assert(all.subrange(0, 0) =~= Seq::<Seq<char>>::empty());
        assert(texts_of(sorted@) =~= Seq::<Seq<char>>::empty());
    }
    while rest.len() > 0
        invariant
            0 <= done <= all.len(),
            all == texts_of(texts@),
            rest@.len() == all.len() - done,
            forall|k: int| 0 <= k < rest@.len() ==> rest@[k]@ == all[all.len() - 1 - k],
            texts_of(sorted@) == ordered(all.subrange(0, done)),
        decreases rest@.len(),
    {
        let next = rest.pop();
        let text = match next {
            Some(text) => text,
            None => {
                proof {
                    assert(all.subrange(0, done) =~= all);
                }
                return sorted;
            },
        };
        let ghost before = texts_of(sorted@);
        let mut at: usize = sorted.len();
        proof {
            assert(before.subrange(0, at as int) =~= before);
        }
        while at > 0 && bytes_before(text.as_str().as_bytes(), sorted[at - 1].as_str().as_bytes())
            invariant
                at <= sorted@.len(),
                before == texts_of(sorted@),
                text_place(before, text@) == text_place(before.subrange(0, at as int), text@),
            decreases at,
        {
            proof {
                let part = before.subrange(0, at as int);
                assert(part.last() == before[at - 1]);
                assert(part.drop_last() =~= before.subrange(0, at - 1));
            }
            at -= 1;
        }
        proof {
            let part = before.subrange(0, at as int);
            if at > 0 {
                assert(part.last() == before[at - 1]);
            }
            assert(text_place(part, text@) == at);
            let next = all.subrange(0, done + 1);
            assert(next.drop_last() =~= all.subrange(0, done));
            assert(next.last() == text@);
            assert(texts_of(sorted@.insert(at as int, text)) =~= before.insert(at as int, text@));
            done = done + 1;
        }
        sorted.insert(at, text);
    }
    proof {
        assert(all.subrange(0, done) =~= all);
    }
    sorted
}

/// Those of the first `n` items that are redirects, or those that are not,
/// in order.
pub open spec fn with_status(items: Seq<ItemView>, redirect: bool, n: int) -> Seq<ItemView>
    decreases n,
{
    if n <= 0 {
        Seq::empty()
    } else if (items[n - 1].status == Some(REDIRECT_STATUS)) == redirect {
        with_status(items, redirect, n - 1).push(items[n - 1])
    } else {
        with_status(items, redirect, n - 1)
    }
}

/// The redirects among the items, in order.
pub open spec fn redirects_of(items: Seq<ItemView>) -> Seq<ItemView> {
    with_status(items, true, items.len() as int)
}

/// The items that are no redirects, in order.
pub open spec fn originals_of(items: Seq<ItemView>) -> Seq<ItemView> {
    with_status(items, false, items.len() as int)
}

/// Parts the items into redirects, which have the status 302, and
/// originals, which are all others.
pub fn partition_redirects(items: &Vec<Item>) -> (parts: (Vec<Item>, Vec<Item>))
    ensures
        item_views(parts.0@) == redirects_of(item_views(items@)),
        item_views(parts.1@) == originals_of(item_views(items@)),
{
    let mut redirects: Vec<Item> = Vec::new();
    let mut originals: Vec<Item> = Vec::new();
    let ghost all = item_views(items@);
    proof {
        assert(item_views(redirects@) =~= Seq::<ItemView>::empty());
        assert(item_views(originals@) =~= Seq::<ItemView>::empty());
    }
    let mut i: usize = 0;
    while i < items.len()
        invariant
            i <= items@.len(),
            all == item_views(items@),
            item_views(redirects@) == with_status(all, true, i as int),
            item_views(originals@) == with_status(all, false, i as int),
        decreases items@.len() - i,
    {
        let item = items[i].clone();
        let is_redirect = match item.status {
            Some(status) => status == REDIRECT_STATUS,
            None => false,
        };
        proof {
            assert(all[i as int] == item@);
        }
        if is_redirect {
            proof {
                assert(item_views(redirects@.push(item)) =~= item_views(redirects@).push(item@));
            }
            redirects.push(item);
        } else {
            proof {
                assert(item_views(originals@.push(item)) =~= item_views(originals@).push(item@));
            }
            originals.push(item);
        }
        i += 1;
    }
    (redirects, originals)
}

/// The content of a file of items.
pub open spec fn items_file(items: Seq<ItemView>) -> Seq<u8> {
    csv_text(records_of(items), items.len() as int)
}

/// The files that the first phase writes once the answers are in: the
/// queries that the index refuses, in order, where there are any; then the
/// originals and the redirects.
pub open spec fn cdx_file_plan(items: Seq<ItemView>, blocked: Seq<Seq<char>>) -> Seq<
    (Seq<char>, Seq<u8>),
> {
    (if blocked.len() > 0 {
        seq![(BLOCKED_FILE@, encode_utf8(lines_text(ordered(blocked))))]
    } else {
        Seq::empty()
    }) + seq![
        (ORIGINALS_FILE@, items_file(originals_of(items))),
        (REDIRECTS_FILE@, items_file(redirects_of(items))),
    ]
}

/// What the first phase has found: the items, in order and each once, and
/// the files to write.
#[derive(Debug, PartialEq, Eq)]
pub struct CdxResults {
    pub items: Vec<Item>,
    pub files: Vec<FileWrite>,
}

/// Pushing a file onto a list pushes its view onto the views.
proof fn lemma_push_file(before: Seq<FileWrite>, file: FileWrite)
    ensures
        file_views(before.push(file)) == file_views(before).push(file@),
{
    assert(file_views(before.push(file)) =~= file_views(before).push(file@));
}

/// Where the line begins that the position `n` lies in or ends: after the
/// last line feed before `n`.
pub open spec fn line_begin(bytes: Seq<u8>, n: int) -> int
    decreases n,
{
    if n <= 0 {
        0
    } else if bytes[n - 1] == 0x0a {
        n
    } else {
        line_begin(bytes, n - 1)
    }
}

/// The digest that a line of a file of known digests holds: the text of
/// the line without the white space around it, where the line is text.
pub open spec fn line_text(line: Seq<u8>) -> Option<Seq<char>> {
    if valid_utf8(line) {
        Some(trimmed(decode_utf8(line)))
    } else {
        None
    }
}

/// What a set of texts becomes with the text of a line, where there is
/// a set and the line is text.
pub open spec fn with_line(set: Option<Set<Seq<char>>>, line: Seq<u8>) -> Option<Set<Seq<char>>> {
    match (set, line_text(line)) {
        (Some(set), Some(text)) => Some(set.insert(text)),
        _ => None,
    }
}

/// The digests of the lines that end before the position `n`, or `None`
/// where one of them is not text.
pub open spec fn known_prefix(bytes: Seq<u8>, n: int) -> Option<Set<Seq<char>>>
    decreases n,
{
    if n <= 0 {
        Some(Set::empty())
    } else if bytes[n - 1] == 0x0a {
        with_line(known_prefix(bytes, n - 1), bytes.subrange(line_begin(bytes, n - 1), n - 1))
    } else {
        known_prefix(bytes, n - 1)
    }
}

/// The digests that a file of known digests lists, one on each line, with
/// or without a line feed after the last; `None` where a line is not
/// text.
pub open spec fn known_set(bytes: Seq<u8>) -> Option<Set<Seq<char>>> {
    let begin = line_begin(bytes, bytes.len() as int);
    if begin < bytes.len() {
        with_line(known_prefix(bytes, bytes.len() as int), bytes.subrange(begin, bytes.len() as int))
    } else {
        known_prefix(bytes, bytes.len() as int)
    }
}

/// Once a line is not text, no set of digests results however much
/// follows.
proof fn lemma_no_set_stays(bytes: Seq<u8>, at: int, n: int)
    requires
        known_prefix(bytes, at) is None,
        at <= n,
    ensures
        known_prefix(bytes, n) is None,
    decreases n - at,
{
    if at < n {
        lemma_no_set_stays(bytes, at, n - 1);
    }
}

/// Pushing a text onto a list adds it to the texts that the list holds.
proof fn lemma_push_text(before: Seq<String>, text: String, other: Seq<char>)
    ensures
        texts_of(before.push(text)).contains(other) <==> texts_of(before).contains(other) || other
            == text@,
{
    let after = texts_of(before.push(text));
    assert(after =~= texts_of(before).push(text@));
    if after.contains(other) {
        let k = choose|k: int| 0 <= k < after.len() && after[k] == other;
        if k < before.len() {
            assert(texts_of(before)[k] == other);
        }
    }
    if texts_of(before).contains(other) {
        let k = choose|k: int| 0 <= k < before.len() && texts_of(before)[k] == other;
        assert(after[k] == other);
    }
    if other == text@ {
        assert(after[before.len() as int] == other);
    }
}

/// Reads a file of known digests. Nothing results where a line is not
/// text.
pub fn known_digests(content: &[u8]) -> (known: Option<TextSet>)
    ensures
        match known {
            Some(set) => set.well_formed() && known_set(content@) == Some(set@),
            None => known_set(content@) is None,
        },
{
    let mut lines: Vec<String> = Vec::new();
    let ghost mut held: Set<Seq<char>> = Set::empty();
    let mut start: usize = 0;
    let mut i: usize = 0;
    proof {
        assert(texts_of(lines@) =~= Seq::<Seq<char>>::empty());
    }
    while i < content.len()
        invariant
            start <= i <= content@.len(),
            start == line_begin(content@, i as int),
            known_prefix(content@, i as int) == Some(held),
            forall|text: Seq<char>| held.contains(text) <==> texts_of(lines@).contains(text),
        decreases content@.len() - i,
    {
        if content[i] == 0x0a {
            let line = slice_subrange(content, start, i);
            match utf8_text(line) {
                Ok(text) => {
                    let digest = trim(text);
                    proof {
                        assert forall|other: Seq<char>| held.insert(digest@).contains(other)
                            <==> texts_of(lines@.push(digest)).contains(other) by {
                            lemma_push_text(lines@, digest, other);
                        }
                        held = held.insert(digest@);
                    }
                    lines.push(digest);
                },
                Err(_) => {
                    proof {
                        assert(known_prefix(content@, i + 1) is None);
                        lemma_no_set_stays(content@, i + 1, content@.len() as int);
                    }
                    return None;
                },
            }
            start = i + 1;
        }
        i += 1;
    }
    if start < content.len() {
        let line = slice_subrange(content, start, content.len());
        match utf8_text(line) {
            Ok(text) => {
                let digest = trim(text);
                proof {
                    assert forall|other: Seq<char>| held.insert(digest@).contains(other)
                        <==> texts_of(lines@.push(digest)).contains(other) by {
                        lemma_push_text(lines@, digest, other);
                    }
                    held = held.insert(digest@);
                }
                lines.push(digest);
            },
            Err(_) => {
                return None;
            },
        }
    }
    let set = TextSet::from_texts(&lines);
    proof {
        assert(known_set(content@) == Some(held));
        assert forall|text: Seq<char>| set@.contains(text) <==> held.contains(text) by {
            assert(set@.contains(text) <==> texts_of(lines@).contains(text));
        }
        assert(set@ =~= held);
    }
    Some(set)
}

/// Whether no item before the `k`-th has the digest of the `k`-th.
pub open spec fn first_of_digest(items: Seq<ItemView>, k: int) -> bool {
    forall|j: int| 0 <= j < k ==> (#[trigger] items[j]).digest != items[k].digest
}

/// Those of the first `n` items that are to be fetched: the first of each
/// digest, unless the digest is known.
pub open spec fn chosen(items: Seq<ItemView>, known: Set<Seq<char>>, n: int) -> Seq<ItemView>
    decreases n,
{
    if n <= 0 {
        Seq::empty()
    } else if first_of_digest(items, n - 1) && !known.contains(items[n - 1].digest) {
        chosen(items, known, n - 1).push(items[n - 1])
    } else {
        chosen(items, known, n - 1)
    }
}

/// Selects the items to fetch: no item is fetched whose digest an earlier
/// item has, or whose digest is known.
pub fn select(candidates: &Vec<Item>, known: &TextSet) -> (selected: Vec<Item>)
    requires
        known.well_formed(),
    ensures
        item_views(selected@) == chosen(
            item_views(candidates@),
            known@,
            candidates@.len() as int,
        ),
{
    let ghost all = item_views(candidates@);
    // The digests of all items, each once, and for each whether an item
    // with that digest has been met.
    let mut digests: Vec<String> = Vec::new();
    let mut i: usize = 0;
    while i < candidates.len()
        invariant
            i <= candidates@.len(),
            all == item_views(candidates@),
            digests@.len() == i,
            forall|k: int| 0 <= k < i ==> (#[trigger] digests@[k])@ == all[k].digest,
        decreases candidates@.len() - i,
    {
        digests.push(candidates[i].digest.clone());
        i += 1;
    }
    let seen = TextSet::from_texts(&digests);
    let mut met: Vec<bool> = vec![false; seen.len()];
    let mut selected: Vec<Item> = Vec::new();
    proof {
        assert(item_views(selected@) =~= Seq::<ItemView>::empty());
        seen.lemma_members();
        assert forall|k: int| 0 <= k < all.len() implies seen@.contains(
            (#[trigger] all[k]).digest,
        ) by {
            assert(texts_of(digests@)[k] == all[k].digest);
        }
    }
    i = 0;
    while i < candidates.len()
        invariant
            i <= candidates@.len(),
            all == item_views(candidates@),
            known.well_formed(),
            seen.well_formed(),
            met@.len() == seen.size(),
            forall|k: int| 0 <= k < all.len() ==> seen@.contains((#[trigger] all[k]).digest),
            forall|a: int, b: int| 0 <= a < b < seen.size() ==> seen.member(a) != seen.member(b),
            forall|at: int|
                0 <= at < met@.len() ==> (#[trigger] met@[at] <==> exists|j: int|
                    0 <= j < i && (#[trigger] all[j]).digest == seen.member(at)),
            item_views(selected@) == chosen(all, known@, i as int),
        decreases candidates@.len() - i,
    {
        let item = &candidates[i];
        proof {
            assert(all[i as int] == item@);
            assert(seen@.contains(all[i as int].digest));
        }
        let ghost before = met@;
        let first = match seen.index_of(item.digest.as_str()) {
            Some(at) => {
                let first = !met[at];
                met.set(at, true);
                proof {
                    if first {
                        assert forall|j: int| 0 <= j < i implies (#[trigger] all[j]).digest
                            != all[i as int].digest by {
                            if all[j].digest == all[i as int].digest {
                                assert(all[j].digest == seen.member(at as int));
                                assert(before[at as int]);
                            }
                        }
                    } else {
                        assert(before[at as int]);
                        let j = choose|j: int|
                            0 <= j < i && (#[trigger] all[j]).digest == seen.member(at as int);
                        assert(all[j].digest == all[i as int].digest);
                    }
                    assert forall|other: int| 0 <= other < met@.len() implies (
                    #[trigger] met@[other] <==> exists|j: int|
                        0 <= j < i + 1 && (#[trigger] all[j]).digest == seen.member(other)) by {
                        if other == at {
                            assert(all[i as int].digest == seen.member(other));
                        } else {
                            assert(met@[other] == before[other]);
                            if before[other] {
                                let j = choose|j: int|
                                    0 <= j < i && (#[trigger] all[j]).digest == seen.member(other);
                                assert(0 <= j < i + 1 && all[j].digest == seen.member(other));
                            }
                            if exists|j: int|
                                0 <= j < i + 1 && (#[trigger] all[j]).digest == seen.member(other) {
                                let j = choose|j: int|
                                    0 <= j < i + 1 && (#[trigger] all[j]).digest == seen.member(
                                        other,
                                    );
                                if j == i {
                                    assert(seen.member(other) == seen.member(at as int));
                                } else {
                                    assert(0 <= j < i && all[j].digest == seen.member(other));
                                }
                            }
                        }
                    }
                }
                first
            },
            // The set holds the digest of every item.
            None => false,
        };
        if first && !known.contains(item.digest.as_str()) {
            let copy = item.clone();
            proof {
                assert(item_views(selected@.push(copy)) =~= item_views(selected@).push(copy@));
            }
            selected.push(copy);
        }
        i += 1;
    }
    selected
}

/// What a phase is to fetch.
#[derive(Debug, PartialEq, Eq)]
pub struct Plan {
    /// How many items were read.
    pub total: usize,
    /// The items that were read, in order and each once.
    pub candidates: Vec<Item>,
    /// The items to fetch.
    pub selected: Vec<Item>,
}

/// The digests that are known: those of the file, where there is one.
pub open spec fn known_of(known: Option<&[u8]>) -> Option<Set<Seq<char>>> {
    match known {
        Some(content) => known_set(content@),
        None => Some(Set::empty()),
    }
}

/// Whether a plan is the plan for the items that were read and the digests
/// that are known: it counts the items, holds them in order and each once,
/// and selects the first of each digest that is not known.
pub open spec fn plans(plan: Plan, items: Seq<ItemView>, known: Set<Seq<char>>) -> bool {
    &&& plan.total == items.len()
    &&& strictly_sorted(item_views(plan.candidates@))
    &&& same_items(item_views(plan.candidates@), items)
    &&& item_views(plan.selected@) == chosen(
        item_views(plan.candidates@),
        known,
        plan.candidates@.len() as int,
    )
}

/// There is one plan only for given items and known digests: a phase that
/// is run again on what it was run on selects the same items again.
pub proof fn lemma_plan_determined(
    first: Plan,
    second: Plan,
    items: Seq<ItemView>,
    known: Set<Seq<char>>,
)
    requires
        plans(first, items, known),
        plans(second, items, known),
    ensures
        first.total == second.total,
        item_views(first.candidates@) == item_views(second.candidates@),
        item_views(first.selected@) == item_views(second.selected@),
{
    let a = item_views(first.candidates@);
    let b = item_views(second.candidates@);
    assert forall|item: ItemView| a.contains(item) <==> b.contains(item) by {
        assert(a.contains(item) <==> items.contains(item));
        assert(b.contains(item) <==> items.contains(item));
    }
    crate::item::lemma_sorted_determined(a, b);
}

/// Plans what to fetch of the items that were read.
pub fn make_plan(items: &Vec<Item>, known: Option<&[u8]>) -> (made: Result<Plan, Error>)
    ensures
        match made {
            Ok(plan) => known_of(known) matches Some(set) && plans(plan, item_views(items@), set),
            Err(error) => known_of(known) is None && error@ == ErrorView::IOError,
        },
{
    let candidates = sorted_unique(items);
    let set = match known {
        Some(content) => match known_digests(content) {
            Some(set) => set,
            None => {
                return Err(Error::IOError);
            },
        },
        None => TextSet::new(),
    };
    let selected = select(&candidates, &set);
    Ok(Plan { total: items.len(), candidates, selected })
}

/// The path of the file in which a capture with the digest it was listed
/// with is kept.
pub open spec fn data_path(digest: Seq<char>) -> Seq<char> {
    "data/"@ + digest + ".gz"@
}

/// The path of the file in which a capture is kept that has another
/// digest than it was listed with.
pub open spec fn invalid_path(digest: Seq<char>) -> Seq<char> {
    "invalid/"@ + digest + ".gz"@
}

/// A capture to keep.
#[derive(Debug, PartialEq, Eq)]
pub struct Commit {
    /// The item that was fetched.
    pub item: Item,
    /// The file to write.
    pub file: FileWrite,
    /// Where the capture has another digest than the item lists: the
    /// digest listed, and the digest found.
    pub mismatch: Option<(String, String)>,
}

/// Whether a commit is the one for an item and the capture fetched for
/// it: a capture that has the digest listed goes to `data`, under that
/// digest; any other goes to `invalid`, under the digest that it has, and
/// both digests are recorded.
pub open spec fn commits(commit: Commit, item: Item, content: Seq<u8>) -> bool {
    let computed = digest_of(content);
    &&& commit.item == item
    &&& if computed == item.digest@ {
        &&& commit.mismatch is None
        &&& commit.file.path@ == data_path(item.digest@)
    } else {
        &&& commit.mismatch matches Some((expected, found))
        &&& expected@ == item.digest@
        &&& found@ == computed
        &&& commit.file.path@ == invalid_path(computed)
    }
}

/// Decides where a capture is kept, given what packing it gave. A capture
/// that could not be packed counts as not fetched. The digest under which
/// a capture is kept is that of the capture, and so is always a digest.
pub fn commit_download(item: Item, content: &[u8], packed: Result<Vec<u8>, crate::digest::Error>) -> (committed: Result<Commit, Item>)
    ensures
        is_digest_text(digest_of(content@)),
        match committed {
            Ok(commit) => {
                &&& packed matches Ok(stream)
                &&& commit.file.content == stream
                &&& commits(commit, item, content@)
            },
            Err(failed) => packed is Err && failed == item,
        },
{
    let computed = compute_digest(content);
    let stream = match packed {
        Ok(stream) => stream,
        Err(_) => {
            return Err(item);
        },
    };
    if same_text(computed.as_str(), item.digest.as_str()) {
        let path = join3("data/", item.digest.as_str(), ".gz");
        Ok(Commit { item, file: FileWrite { path, content: stream }, mismatch: None })
    } else {
        let path = join3("invalid/", computed.as_str(), ".gz");
        let expected = item.digest.clone();
        Ok(
            Commit {
                item,
                file: FileWrite { path, content: stream },
                mismatch: Some((expected, computed)),
            },
        )
    }
}

/// Whether `settled` is what becomes of an item after the attempt to fetch
/// it: a capture that was fetched and could be packed under the name of
/// the item is kept, packed, where its digest says; an item that was not
/// fetched, or whose capture could not be packed, is handed back.
pub open spec fn settles(
    settled: Result<Commit, Item>,
    item: Item,
    fetched: Result<Vec<u8>, crate::downloader::Error>,
) -> bool {
    match settled {
        Ok(commit) => {
            &&& fetched matches Ok(content)
            &&& packed(filename_of(item@), content@) == Ok::<Seq<u8>, crate::digest::Error>(
                commit.file.content@,
            )
            &&& commits(commit, item, content@)
        },
        Err(failed) => {
            &&& failed == item
            &&& match fetched {
                Ok(content) => packed(filename_of(item@), content@) is Err,
                Err(_) => true,
            }
        },
    }
}

/// Decides what becomes of an item after the attempt to fetch it. What is
/// kept unpacks to the capture that was fetched, records the name of the
/// item, and is filed under the digest of that capture, which is always a
/// digest. An item that was not fetched, or whose capture cannot be packed
/// under its name, is handed back.
pub fn settle_download(item: Item, fetched: Result<Vec<u8>, crate::downloader::Error>) -> (settled:
    Result<Commit, Item>)
    ensures
        settles(settled, item, fetched),
        settled matches Ok(commit) ==> {
            &&& gzip_payload(commit.file.content@) == Some(fetched->Ok_0@)
            &&& records_name(commit.file.content@, encode_utf8(filename_of(item@)))
            &&& is_digest_text(digest_of(fetched->Ok_0@))
        },
{
    let content = match fetched {
        Ok(content) => content,
        Err(_) => {
            return Err(item);
        },
    };
    let packed = compress(item.make_filename().as_str(), content.as_slice());
    commit_download(item, content.as_slice(), packed)
}

/// Items that are alike settle alike, whatever run they are settled in:
/// with the same item and the same answer to the attempt to fetch it, the
/// same is kept, under the same path, or nothing is.
pub proof fn lemma_settled_alike(
    first: Result<Commit, Item>,
    second: Result<Commit, Item>,
    item: Item,
    again: Item,
    fetched: Result<Vec<u8>, crate::downloader::Error>,
    refetched: Result<Vec<u8>, crate::downloader::Error>,
)
    requires
        settles(first, item, fetched),
        settles(second, again, refetched),
        item@ == again@,
        match (fetched, refetched) {
            (Ok(content), Ok(recontent)) => content@ == recontent@,
            (Err(_), Err(_)) => true,
            _ => false,
        },
    ensures
        first is Ok <==> second is Ok,
        first matches Ok(kept) ==> second matches Ok(rekept) && kept.file@ == rekept.file@ && (
        kept.mismatch is None <==> rekept.mismatch is None),
{
}

/// Where a capture is kept depends on the item and the capture alone: to
/// fetch the same capture for the same item again adds no file.
pub proof fn lemma_same_capture_same_file(first: Commit, second: Commit, item: Item, content: Seq<u8>)
    requires
        commits(first, item, content),
        commits(second, item, content),
    ensures
        first.file.path@ == second.file.path@,
        first.mismatch is None <==> second.mismatch is None,
{
}

/// What is kept is filed under the digest of what it unpacks to; and where
/// two digests are recorded they differ, and the capture is filed under
/// the second.
pub proof fn lemma_commit_integrity(commit: Commit, item: Item, content: Seq<u8>)
    requires
        commits(commit, item, content),
        gzip_payload(commit.file.content@) == Some(content),
    ensures
        gzip_payload(commit.file.content@) matches Some(payload) && (commit.file.path@ == data_path(
            digest_of(payload),
        ) || commit.file.path@ == invalid_path(digest_of(payload))),
        commit.mismatch matches Some((expected, found)) ==> expected@ != found@ && commit.file.path@
            == invalid_path(found@),
        commit.mismatch is None ==> commit.file.path@ == data_path(item.digest@) && item.digest@
            == digest_of(content),
{
}

/// Decides whether the page stored for a redirect is kept, given what
/// packing it gave: it is kept in `data`, under the digest of the redirect,
/// where it has the digest that was listed.
pub fn commit_redirect(
    item: &Item,
    resolved: &RedirectResolution,
    packed: Result<Vec<u8>, crate::digest::Error>,
) -> (kept: Option<FileWrite>)
    ensures
        match kept {
            Some(file) => {
                &&& resolved.valid_digest
                &&& packed matches Ok(stream)
                &&& file.content == stream
                &&& file.path@ == data_path(item.digest@)
            },
            None => !resolved.valid_digest || packed is Err,
        },
{
    if !resolved.valid_digest {
        return None;
    }
    match packed {
        Ok(stream) => {
            let path = join3("data/", item.digest.as_str(), ".gz");
            Some(FileWrite { path, content: stream })
        },
        Err(_) => None,
    }
}

/// Whether `kept` is what is written once a redirect is resolved: the page
/// stored for the redirect, packed under the name of the redirect and
/// filed in `data` under its digest, where the resolution succeeded, the
/// page has the digest that was listed, and the page could be packed; and
/// nothing else.
pub open spec fn keeps(
    kept: Option<FileWrite>,
    item: Item,
    resolution: Result<RedirectResolution, crate::downloader::Error>,
) -> bool {
    match resolution {
        Ok(resolved) => if resolved.valid_digest {
            match packed(filename_of(item@), resolved.content@) {
                Ok(stream) => kept matches Some(file) && file@ == (data_path(item.digest@), stream),
                Err(_) => kept is None,
            }
        } else {
            kept is None
        },
        Err(_) => kept is None,
    }
}

/// The file to write once a redirect is resolved: the page stored for the
/// redirect, where the resolution succeeded and the page has the digest
/// that was listed. What is written unpacks to the page and records the
/// name of the redirect. Nothing is written where the page cannot be
/// packed under that name.
pub fn keep_redirect(item: &Item, resolution: &Result<RedirectResolution, crate::downloader::Error>) -> (kept:
    Option<FileWrite>)
    ensures
        keeps(kept, *item, *resolution),
        kept matches Some(file) ==> {
            &&& gzip_payload(file.content@) == Some(resolution->Ok_0.content@)
            &&& records_name(file.content@, encode_utf8(filename_of(item@)))
        },
{
    match resolution {
        Ok(resolved) => {
            if !resolved.valid_digest {
                return None;
            }
            let packed = compress(item.make_filename().as_str(), resolved.content.as_slice());
            commit_redirect(item, resolved, packed)
        },
        Err(_) => None,
    }
}

/// The index query that follows once the page of a redirect is kept: for
/// the address and the time that the redirect leads to, where the
/// resolution succeeded and the page has the digest that was listed.
pub fn redirect_lookup(resolution: &Result<RedirectResolution, crate::downloader::Error>) -> (query:
    Option<(String, String)>)
    ensures
        match query {
            Some((url, timestamp)) => {
                &&& resolution matches Ok(resolved)
                &&& resolved.valid_digest
                &&& url@ == resolved.url@
                &&& timestamp@ == resolved.timestamp@
            },
            None => !(resolution matches Ok(resolved) && resolved.valid_digest),
        },
{
    match resolution {
        Ok(resolved) => if resolved.valid_digest {
            Some((resolved.url.clone(), resolved.timestamp.clone()))
        } else {
            None
        },
        Err(_) => None,
    }
}

/// Decides what becomes of a redirect: it is resolved where its page was
/// kept and the index answered the query for what it leads to with at
/// least one item, of which the last is taken. Else the redirect is handed
/// back, to be recorded as failed.
pub fn settle_redirect(
    item: Item,
    kept: bool,
    lookup: Option<Result<Vec<Item>, crate::cdx::Error>>,
) -> (settled: Result<Item, Item>)
    ensures
        match settled {
            Ok(actual) => {
                &&& kept
                &&& lookup matches Some(Ok(found))
                &&& found@.len() > 0
                &&& actual == found@.last()
            },
            Err(failed) => {
                &&& failed == item
                &&& !(kept && (lookup matches Some(Ok(found)) && found@.len() > 0))
            },
        },
{
    if !kept {
        return Err(item);
    }
    match lookup {
        Some(Ok(found)) => {
            let mut found = found;
            match found.pop() {
                Some(actual) => Ok(actual),
                None => Err(item),
            }
        },
        _ => Err(item),
    }
}

/// The redirects among the first `n` outcomes that were resolved, by what
/// they lead to, or those that were not, in order.
pub open spec fn redirect_outcomes(outcomes: Seq<Result<Item, Item>>, resolved: bool, n: int) -> Seq<
    ItemView,
>
    decreases n,
{
    if n <= 0 {
        Seq::empty()
    } else {
        match outcomes[n - 1] {
            Ok(actual) => if resolved {
                redirect_outcomes(outcomes, resolved, n - 1).push(actual@)
            } else {
                redirect_outcomes(outcomes, resolved, n - 1)
            },
            Err(failed) => if resolved {
                redirect_outcomes(outcomes, resolved, n - 1)
            } else {
                redirect_outcomes(outcomes, resolved, n - 1).push(failed@)
            },
        }
    }
}

/// The files that the second phase writes once the redirects are settled:
/// the redirects that were not resolved, then what the others lead to.
pub open spec fn redirect_file_plan(outcomes: Seq<Result<Item, Item>>) -> Seq<(Seq<char>, Seq<u8>)> {
    seq![
        (
            REDIRECT_ERRORS_FILE@,
            items_file(redirect_outcomes(outcomes, false, outcomes.len() as int)),
        ),
        (EXTRAS_FILE@, items_file(redirect_outcomes(outcomes, true, outcomes.len() as int))),
    ]
}

/// Writes a file of items.
fn items_file_write(path: &str, items: &Vec<Item>) -> (file: Result<FileWrite, Error>)
    ensures
        file matches Ok(written) && written@ == (path@, items_file(item_views(items@))),
{
    match write_csv(items) {
        Ok(content) => Ok(FileWrite { path: String::from_str(path), content }),
        Err(error) => Err(from_records_error(error)),
    }
}

/// Makes the files that close the second phase. This never fails.
pub fn redirect_logs(outcomes: &Vec<Result<Item, Item>>) -> (files: Result<Vec<FileWrite>, Error>)
    ensures
        files matches Ok(written) && file_views(written@) == redirect_file_plan(outcomes@),
{
    let mut resolved: Vec<Item> = Vec::new();
    let mut failed: Vec<Item> = Vec::new();
    proof {
        assert(item_views(resolved@) =~= Seq::<ItemView>::empty());
        assert(item_views(failed@) =~= Seq::<ItemView>::empty());
    }
    let mut i: usize = 0;
    while i < outcomes.len()
        invariant
            i <= outcomes@.len(),
            item_views(resolved@) == redirect_outcomes(outcomes@, true, i as int),
            item_views(failed@) == redirect_outcomes(outcomes@, false, i as int),
        decreases outcomes@.len() - i,
    {
        match &outcomes[i] {
            Ok(actual) => {
                let copy = actual.clone();
                proof {
                    assert(item_views(resolved@.push(copy)) =~= item_views(resolved@).push(copy@));
                }
                resolved.push(copy);
            },
            Err(item) => {
                let copy = item.clone();
                proof {
                    assert(item_views(failed@.push(copy)) =~= item_views(failed@).push(copy@));
                }
                failed.push(copy);
            },
        }
        i += 1;
    }
    let errors = match items_file_write(REDIRECT_ERRORS_FILE, &failed) {
        Ok(file) => file,
        Err(error) => {
            return Err(error);
        },
    };
    let extras = match items_file_write(EXTRAS_FILE, &resolved) {
        Ok(file) => file,
        Err(error) => {
            return Err(error);
        },
    };
    let mut files: Vec<FileWrite> = Vec::new();
    files.push(errors);
    files.push(extras);
    proof {
        assert(file_views(files@) =~= redirect_file_plan(outcomes@));
    }
    Ok(files)
}

/// How many of the first `n` outcomes are captures kept under the digest
/// listed.
pub open spec fn count_success(outcomes: Seq<Result<Option<(String, String)>, Item>>, n: int) -> nat
    decreases n,
{
    if n <= 0 {
        0
    } else {
        count_success(outcomes, n - 1) + (if outcomes[n - 1] matches Ok(None) {
            1nat
        } else {
            0nat
        })
    }
}

/// How many of the first `n` outcomes are captures kept under another
/// digest than listed.
pub open spec fn count_invalid(outcomes: Seq<Result<Option<(String, String)>, Item>>, n: int) -> nat
    decreases n,
{
    if n <= 0 {
        0
    } else {
        count_invalid(outcomes, n - 1) + (if outcomes[n - 1] matches Ok(Some(_)) {
            1nat
        } else {
            0nat
        })
    }
}

/// How many of the first `n` outcomes are failures.
pub open spec fn count_error(outcomes: Seq<Result<Option<(String, String)>, Item>>, n: int) -> nat
    decreases n,
{
    if n <= 0 {
        0
    } else {
        count_error(outcomes, n - 1) + (if outcomes[n - 1] is Err {
            1nat
        } else {
            0nat
        })
    }
}

/// The items among the first `n` outcomes that could not be fetched, in
/// order.
pub open spec fn failed_items(outcomes: Seq<Result<Option<(String, String)>, Item>>, n: int) -> Seq<
    ItemView,
>
    decreases n,
{
    if n <= 0 {
        Seq::empty()
    } else {
        match outcomes[n - 1] {
            Err(item) => failed_items(outcomes, n - 1).push(item@),
            Ok(_) => failed_items(outcomes, n - 1),
        }
    }
}

/// The pairs of digests among the first `n` outcomes, each as a row of the
/// digest listed and the digest found, in order.
pub open spec fn mismatch_rows(outcomes: Seq<Result<Option<(String, String)>, Item>>, n: int) -> Seq<
    Seq<Seq<char>>,
>
    decreases n,
{
    if n <= 0 {
        Seq::empty()
    } else {
        match outcomes[n - 1] {
            Ok(Some((expected, found))) => mismatch_rows(outcomes, n - 1).push(
                seq![expected@, found@],
            ),
            _ => mismatch_rows(outcomes, n - 1),
        }
    }
}

/// Every outcome is counted once.
pub proof fn lemma_counts(outcomes: Seq<Result<Option<(String, String)>, Item>>, n: int)
    requires
        0 <= n <= outcomes.len(),
    ensures
        count_success(outcomes, n) + count_invalid(outcomes, n) + count_error(outcomes, n) == n,
    decreases n,
{
    if n > 0 {
        lemma_counts(outcomes, n - 1);
    }
}

/// The files that the third phase writes once the downloads are settled:
/// the items that could not be fetched, then the pairs of digests of the
/// captures that have another digest than listed.
pub open spec fn download_file_plan(outcomes: Seq<Result<Option<(String, String)>, Item>>) -> Seq<
    (Seq<char>, Seq<u8>),
> {
    seq![
        (ITEM_ERRORS_FILE@, items_file(failed_items(outcomes, outcomes.len() as int))),
        (
            INVALID_LOG_FILE@,
            csv_text(mismatch_rows(outcomes, outcomes.len() as int), count_invalid(
                outcomes,
                outcomes.len() as int,
            ) as int),
        ),
    ]
}

/// What the third phase reports.
#[derive(Debug, PartialEq, Eq)]
pub struct DownloadReport {
    /// The files to write.
    pub files: Vec<FileWrite>,
    /// How many captures were kept under the digest listed.
    pub success: usize,
    /// How many were kept under another digest.
    pub invalid: usize,
    /// How many items were not fetched because their capture is known or
    /// is that of an earlier item.
    pub skipped: usize,
    /// How many could not be fetched.
    pub error: usize,
}

/// Closes the third phase: makes the files that record failures and
/// captures with another digest than listed, and counts. Of `total` items
/// each is counted once: as kept, as kept under another digest, as failed,
/// or else as skipped. This never fails.
pub fn download_logs(total: usize, outcomes: &Vec<Result<Option<(String, String)>, Item>>) -> (report:
    Result<DownloadReport, Error>)
    requires
        outcomes@.len() <= total,
    ensures
        report matches Ok(made) && {
            &&& file_views(made.files@) == download_file_plan(outcomes@)
            &&& made.success == count_success(outcomes@, outcomes@.len() as int)
            &&& made.invalid == count_invalid(outcomes@, outcomes@.len() as int)
            &&& made.error == count_error(outcomes@, outcomes@.len() as int)
            &&& made.skipped == total - outcomes@.len()
            &&& total == made.success + made.invalid + made.skipped + made.error
        },
{
    let mut failed: Vec<Item> = Vec::new();
    let mut rows: Vec<Vec<String>> = Vec::new();
    let mut success: usize = 0;
    let mut invalid: usize = 0;
    let mut error: usize = 0;
    proof {
        assert(item_views(failed@) =~= Seq::<ItemView>::empty());
        assert(rows_of(rows@) =~= Seq::<Seq<Seq<char>>>::empty());
    }
    let mut i: usize = 0;
    while i < outcomes.len()
        invariant
            i <= outcomes@.len() <= total,
            success == count_success(outcomes@, i as int),
            invalid == count_invalid(outcomes@, i as int),
            error == count_error(outcomes@, i as int),
            success + invalid + error == i,
            rows@.len() == invalid,
            item_views(failed@) == failed_items(outcomes@, i as int),
            rows_of(rows@) == mismatch_rows(outcomes@, i as int),
        decreases outcomes@.len() - i,
    {
        match &outcomes[i] {
            Ok(None) => {
                success += 1;
            },
            Ok(Some(pair)) => {
                invalid += 1;
                let mut row: Vec<String> = Vec::new();
                row.push(pair.0.clone());
                row.push(pair.1.clone());
                proof {
                    assert(texts_of(row@) =~= seq![pair.0@, pair.1@]);
                    assert(rows_of(rows@.push(row)) =~= rows_of(rows@).push(texts_of(row@)));
                }
                rows.push(row);
            },
            Err(item) => {
                error += 1;
                let copy = item.clone();
                proof {
                    assert(item_views(failed@.push(copy)) =~= item_views(failed@).push(copy@));
                }
                failed.push(copy);
            },
        }
        i += 1;
    }
    let errors = match items_file_write(ITEM_ERRORS_FILE, &failed) {
        Ok(file) => file,
        Err(error) => {
            return Err(error);
        },
    };
    let mismatches = match write_rows(&rows) {
        Ok(content) => FileWrite { path: String::from_str(INVALID_LOG_FILE), content },
        Err(error) => {
            return Err(from_records_error(error));
        },
    };
    let mut files: Vec<FileWrite> = Vec::new();
    files.push(errors);
    files.push(mismatches);
    proof {
        assert(file_views(files@) =~= download_file_plan(outcomes@));
    }
    Ok(DownloadReport { files, success, invalid, skipped: total - outcomes.len(), error })
}

/// An ingestion session: where it works, what it takes as known, and the
/// clients it asks.
#[derive(Debug, PartialEq, Eq)]
pub struct Session {
    base: String,
    known_digests: Option<String>,
    parallelism: usize,
    index_client: IndexClient,
    client: Downloader,
}

impl Session {
    /// The directory of the session.
    pub closed spec fn base_path(&self) -> Seq<char> {
        self.base@
    }

    /// The path of the file of known digests, where there is one.
    pub closed spec fn known_path(&self) -> Option<Seq<char>> {
        match self.known_digests {
            Some(path) => Some(path@),
            None => None,
        }
    }

    /// How many requests may be in flight at once.
    pub closed spec fn width(&self) -> usize {
        self.parallelism
    }

    /// A session in the directory `base`.
    pub fn new(base: &str, known_digests: Option<&str>, parallelism: usize) -> (session: Session)
        ensures
            session.base_path() == base@,
            session.known_path() == crate::text::optional_text(known_digests),
            session.width() == parallelism,
            session.index().base@ == crate::cdx::DEFAULT_CDX_BASE@,
            !session.index().paced && !session.index().observed,
            session.content() == (Downloader {
                request_timeout: crate::downloader::DEFAULT_REQUEST_TIMEOUT,
                paced: false,
                observed: false,
            }),
    {
        Session {
            base: String::from_str(base),
            known_digests: match known_digests {
                Some(path) => Some(String::from_str(path)),
                None => None,
            },
            parallelism,
            index_client: IndexClient::default(),
            client: Downloader::default(),
        }
    }

    /// A session in a directory named by the time `now`, as 14 digits.
    pub fn new_timestamped(now: &Timestamp, known_digests: Option<&str>, parallelism: usize) -> (session:
        Session)
        ensures
            session.base_path() == timestamp_text(*now),
            session.known_path() == crate::text::optional_text(known_digests),
            session.width() == parallelism,
    {
        Session::new(to_timestamp(now).as_str(), known_digests, parallelism)
    }

    /// The directory of the session.
    pub fn base(&self) -> (path: &str)
        ensures
            path@ == self.base_path(),
    {
        self.base.as_str()
    }

    /// The path of the file of known digests, where there is one.
    pub fn known_digests(&self) -> (path: Option<&str>)
        ensures
            crate::text::optional_text(path) == self.known_path(),
    {
        match &self.known_digests {
            Some(path) => Some(path.as_str()),
            None => None,
        }
    }

    /// How many requests may be in flight at once.
    pub fn parallelism(&self) -> (width: usize)
        ensures
            width == self.width(),
    {
        self.parallelism
    }

    /// The client that asks the index.
    pub closed spec fn index(&self) -> IndexClient {
        self.index_client
    }

    /// The client that fetches captures.
    pub closed spec fn content(&self) -> Downloader {
        self.client
    }

    /// The client that asks the index.
    pub fn index_client(&self) -> (client: &IndexClient)
        ensures
            *client == self.index(),
    {
        &self.index_client
    }

    /// The client that fetches captures.
    pub fn client(&self) -> (client: &Downloader)
        ensures
            *client == self.content(),
    {
        &self.client
    }

    /// The file that records the queries of the session, which is written
    /// before the index is asked.
    pub fn queries_file(&self, queries: &Vec<String>) -> (file: FileWrite)
        ensures
            file@ == (QUERIES_FILE@, encode_utf8(lines_text(texts_of(queries@)))),
    {
        let text = write_lines(queries);
        FileWrite { path: String::from_str(QUERIES_FILE), content: text.as_str().as_bytes_vec() }
    }

    /// Closes the first phase, given the answers of the index to the
    /// queries: gathers the items, puts them in order, drops what occurs
    /// twice, and makes the files of the originals and the redirects, and
    /// of the queries that the index refuses. Another failure of a query
    /// ends the phase, and nothing else does.
    pub fn save_cdx_results(&self, results: Vec<Result<Vec<Item>, crate::cdx::Error>>) -> (saved:
        Result<CdxResults, Error>)
        ensures
            match saved {
                Ok(found) => {
                    &&& gathered(results@) matches Ok((items, blocked))
                    &&& strictly_sorted(item_views(found.items@))
                    &&& same_items(item_views(found.items@), items)
                    &&& file_views(found.files@) == cdx_file_plan(item_views(found.items@), blocked)
                },
                Err(error) => gathered(results@) matches Err(failure) && error@
                    == ErrorView::IndexClientError(failure),
            },
    {
        let (gathered_items, blocked) = match gather(results) {
            Ok(pair) => pair,
            Err(error) => {
                return Err(error);
            },
        };
        let mut files: Vec<FileWrite> = Vec::new();
        proof {
            assert(file_views(files@) =~= Seq::empty());
        }
        let ghost refused = texts_of(blocked@);
        if blocked.len() > 0 {
            let text = write_lines(&sort_texts(blocked));
            let file = FileWrite {
                path: String::from_str(BLOCKED_FILE),
                content: text.as_str().as_bytes_vec(),
            };
            proof {
                lemma_push_file(files@, file);
            }
            files.push(file);
        }
        let items = sorted_unique(&gathered_items);
        let (redirects, originals) = partition_redirects(&items);
        let originals_file = match items_file_write(ORIGINALS_FILE, &originals) {
            Ok(file) => file,
            Err(error) => {
                return Err(error);
            },
        };
        let redirects_file = match items_file_write(REDIRECTS_FILE, &redirects) {
            Ok(file) => file,
            Err(error) => {
                return Err(error);
            },
        };
        proof {
            lemma_push_file(files@, originals_file);
            lemma_push_file(files@.push(originals_file), redirects_file);
        }
        files.push(originals_file);
        files.push(redirects_file);
        proof {
            assert(file_views(files@) =~= cdx_file_plan(item_views(items@), refused));
        }
        Ok(CdxResults { items, files })
    }

    /// Opens the second phase: reads the redirects that the first phase
    /// filed and plans which to resolve, given the content of the file of
    /// known digests where the session has one.
    pub fn resolve_redirects(&self, redirects: &[u8], known: Option<&[u8]>) -> (planned: Result<
        Plan,
        Error,
    >)
        ensures
            match planned {
                Ok(plan) => {
                    &&& items_of(csv_records(redirects@)) matches Ok(items)
                    &&& known_of(known) matches Some(set)
                    &&& plans(plan, items, set)
                },
                Err(error) => match items_of(csv_records(redirects@)) {
                    Err(failure) => error@ == records_error(failure),
                    Ok(_) => known_of(known) is None && error@ == ErrorView::IOError,
                },
            },
    {
        let items = match read_csv(redirects) {
            Ok(items) => items,
            Err(error) => {
                return Err(from_records_error(error));
            },
        };
        make_plan(&items, known)
    }

    /// Opens the third phase: reads the originals that the first phase
    /// filed and the items that the second phase added, and plans which to
    /// download, given the content of the file of known digests where the
    /// session has one.
    pub fn download_items(&self, originals: &[u8], extras: &[u8], known: Option<&[u8]>) -> (planned:
        Result<Plan, Error>)
        ensures
            match planned {
                Ok(plan) => {
                    &&& items_of(csv_records(originals@)) matches Ok(first)
                    &&& items_of(csv_records(extras@)) matches Ok(second)
                    &&& known_of(known) matches Some(set)
                    &&& plans(plan, first + second, set)
                },
                Err(error) => match items_of(csv_records(originals@)) {
                    Err(failure) => error@ == records_error(failure),
                    Ok(_) => match items_of(csv_records(extras@)) {
                        Err(failure) => error@ == records_error(failure),
                        Ok(_) => known_of(known) is None && error@ == ErrorView::IOError,
                    },
                },
            },
    {
        let mut items = match read_csv(originals) {
            Ok(items) => items,
            Err(error) => {
                return Err(from_records_error(error));
            },
        };
        let mut more = match read_csv(extras) {
            Ok(items) => items,
            Err(error) => {
                return Err(from_records_error(error));
            },
        };
        proof {
            assert(item_views(items@ + more@) =~= item_views(items@) + item_views(more@));
        }
        items.append(&mut more);
        make_plan(&items, known)
    }
}

/// Of what is fetched no two items have the same digest, and each is one
/// of the items that were read.
pub proof fn lemma_chosen_once(items: Seq<ItemView>, known: Set<Seq<char>>, n: int)
    requires
        0 <= n <= items.len(),
    ensures
        forall|a: int, b: int|
            0 <= a < b < chosen(items, known, n).len() ==> (#[trigger] chosen(items, known, n)[a]).digest
                != (#[trigger] chosen(items, known, n)[b]).digest,
        forall|a: int|
            0 <= a < chosen(items, known, n).len() ==> exists|k: int|
                0 <= k < n && items[k] == #[trigger] chosen(items, known, n)[a],
    decreases n,
{
    if n > 0 {
        lemma_chosen_once(items, known, n - 1);
        let before = chosen(items, known, n - 1);
        let after = chosen(items, known, n);
        if first_of_digest(items, n - 1) && !known.contains(items[n - 1].digest) {
            assert forall|a: int, b: int| 0 <= a < b < after.len() implies (#[trigger] after[a]).digest
                != (#[trigger] after[b]).digest by {
                if b == before.len() {
                    let k = choose|k: int| 0 <= k < n - 1 && items[k] == before[a];
                    assert(items[k].digest != items[n - 1].digest);
                }
            }
            assert forall|a: int| 0 <= a < after.len() implies exists|k: int|
                0 <= k < n && items[k] == #[trigger] after[a] by {
                if a == before.len() {
                    assert(items[n - 1] == after[a]);
                } else {
                    let k = choose|k: int| 0 <= k < n - 1 && items[k] == before[a];
                    assert(0 <= k < n && items[k] == after[a]);
                }
            }
        } else {
            assert forall|a: int| 0 <= a < after.len() implies exists|k: int|
                0 <= k < n && items[k] == #[trigger] after[a] by {
                let k = choose|k: int| 0 <= k < n - 1 && items[k] == before[a];
                assert(0 <= k < n && items[k] == after[a]);
            }
        }
    }
}

/// Nothing is fetched whose digest is known.
pub proof fn lemma_known_is_skipped(items: Seq<ItemView>, known: Set<Seq<char>>, n: int)
    requires
        0 <= n <= items.len(),
    ensures
        forall|k: int|
            0 <= k < chosen(items, known, n).len() ==> !known.contains(
                (#[trigger] chosen(items, known, n)[k]).digest,
            ),
        chosen(items, known, n).len() <= n,
    decreases n,
{
    if n > 0 {
        lemma_known_is_skipped(items, known, n - 1);
    }
}

/// Where every digest read is known, nothing is fetched.
pub proof fn lemma_all_known(items: Seq<ItemView>, known: Set<Seq<char>>, n: int)
    requires
        0 <= n <= items.len(),
        forall|k: int| 0 <= k < items.len() ==> known.contains((#[trigger] items[k]).digest),
    ensures
        chosen(items, known, n) == Seq::<ItemView>::empty(),
    decreases n,
{
    if n > 0 {
        lemma_all_known(items, known, n - 1);
    }
}

} // verus!
