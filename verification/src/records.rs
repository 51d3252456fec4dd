//! Items as rows of CSV: six columns, no header.

use crate::item::{item_views, parse_record, record_of, Item, ItemView};
use crate::text::{column, column_of, rows_of, texts_of};
use vstd::prelude::*;
use vstd::string::*;

verus! {

/// What can go wrong with a file of records.
#[derive(Debug, PartialEq, Eq)]
pub enum Error {
    /// A record could not be read or written as CSV; the text says why.
    CsvError(String),
    /// A record is no item.
    ItemError(crate::item::Error),
}

/// An [`Error`] with its texts as sequences of characters. Why CSV could
/// not be read or written is left out: it is worded by the CSV library.
pub enum ErrorView {
    CsvError,
    ItemError(crate::item::ErrorView),
}

impl View for Error {
    type V = ErrorView;

    open spec fn view(&self) -> ErrorView {
        match self {
            Error::CsvError(_) => ErrorView::CsvError,
            Error::ItemError(error) => ErrorView::ItemError(error@),
        }
    }
}

/// The records that a CSV file without header holds, in order, each with
/// its fields, or `None` for a record that cannot be read.
pub uninterp spec fn csv_records(content: Seq<u8>) -> Seq<Option<Seq<Seq<char>>>>;

/// The line that stands for a record in a CSV file.
pub uninterp spec fn csv_line(fields: Seq<Seq<char>>) -> Seq<u8>;

/// The view of a record as it was read.
pub open spec fn record_view(record: Result<Vec<String>, String>) -> Option<Seq<Seq<char>>> {
    match record {
        Ok(fields) => Some(texts_of(fields@)),
        Err(_) => None,
    }
}

/// The records of a list, each by its view.
pub open spec fn record_views(records: Seq<Result<Vec<String>, String>>) -> Seq<
    Option<Seq<Seq<char>>>,
> {
    Seq::new(records.len(), |i: int| record_view(records[i]))
}

/// Reads all records of a CSV file with a reader of the csv crate that
/// expects no header. The result depends on the content alone: the records
/// in order, each with its fields or with the reader's description of why
/// it could not be read.
#[verifier::external_body]
fn csv_read(content: &[u8]) -> (records: Vec<Result<Vec<String>, String>>)
    ensures
        record_views(records@) == csv_records(content@),
{
    csv::ReaderBuilder::new()
        .has_headers(false)
        .from_reader(content)
        .records()
        .map(|record| match record {
            Ok(fields) => Ok(fields.iter().map(|field| field.to_string()).collect()),
            Err(error) => Err(error.to_string()),
        })
        .collect()
}

/// Writes one record with a fresh writer of the csv crate over a vector.
/// The line depends on the fields alone. The writer fails only where
/// writing to what is beneath it fails, which a vector never does, or where
/// a record has another number of fields than the first, and here the
/// record is the first: so there is always a line.
#[verifier::external_body]
fn csv_write(fields: &Vec<String>) -> (line: Result<Vec<u8>, String>)
    ensures
        line is Ok,
        line matches Ok(bytes) ==> bytes@ == csv_line(texts_of(fields@)),
{
    let mut writer = csv::WriterBuilder::new().from_writer(Vec::new());
    match writer.write_record(fields) {
        Ok(_) => writer.into_inner().map_err(|error| error.to_string()),
        Err(error) => Err(error.to_string()),
    }
}

/// What a record denotes.
pub open spec fn record_item(record: Option<Seq<Seq<char>>>) -> Result<ItemView, ErrorView> {
    match record {
        None => Err(ErrorView::CsvError),
        Some(fields) => match parse_record(
            column_of(fields, 0),
            column_of(fields, 1),
            column_of(fields, 2),
            column_of(fields, 3),
            column_of(fields, 4),
            column_of(fields, 5),
        ) {
            Ok(item) => Ok(item),
            Err(error) => Err(ErrorView::ItemError(error)),
        },
    }
}

/// What the first `n` records denote: the items in order, or the error of
/// the first record that is no item.
pub open spec fn items_of_prefix(records: Seq<Option<Seq<Seq<char>>>>, n: int) -> Result<
    Seq<ItemView>,
    ErrorView,
>
    decreases n,
{
    if n <= 0 {
        Ok(Seq::empty())
    } else {
        match items_of_prefix(records, n - 1) {
            Err(error) => Err(error),
            Ok(items) => match record_item(records[n - 1]) {
                Ok(item) => Ok(items.push(item)),
                Err(error) => Err(error),
            },
        }
    }
}

/// What records denote.
pub open spec fn items_of(records: Seq<Option<Seq<Seq<char>>>>) -> Result<
    Seq<ItemView>,
    ErrorView,
> {
    items_of_prefix(records, records.len() as int)
}

/// Once a record is no item, its error is the result however many records
/// follow.
proof fn lemma_error_stays(records: Seq<Option<Seq<Seq<char>>>>, at: int, n: int)
    requires
        items_of_prefix(records, at) is Err,
        at <= n,
    ensures
        items_of_prefix(records, n) == items_of_prefix(records, at),
    decreases n - at,
{
    if at < n {
        lemma_error_stays(records, at, n - 1);
    }
}

/// The view of what was read from a file of records.
pub open spec fn outcome_view(outcome: Result<Vec<Item>, Error>) -> Result<
    Seq<ItemView>,
    ErrorView,
> {
    match outcome {
        Ok(items) => Ok(item_views(items@)),
        Err(error) => Err(error@),
    }
}

/// Reads the items that records denote. The first record that could not
/// be read, or that is no item, ends the reading with its error.
pub fn read_records(records: Vec<Result<Vec<String>, String>>) -> (outcome: Result<
    Vec<Item>,
    Error,
>)
    ensures
        outcome_view(outcome) == items_of(record_views(records@)),
{
    let ghost all = record_views(records@);
    let mut pending = records;
    let mut items: Vec<Item> = Vec::new();
    let ghost mut done: int = 0;
    let ghost total = all.len() as int;
    proof {
        assert(item_views(items@) =~= Seq::<ItemView>::empty());
    }
    // The records are taken from the end of a reversed list, so that each
    // can be moved out.
    let mut rest: Vec<Result<Vec<String>, String>> = Vec::new();
    while pending.len() > 0
        invariant
            total == all.len(),
            pending@.len() + rest@.len() == total,
            forall|k: int|
                0 <= k < pending@.len() ==> record_view(#[trigger] pending@[k]) == all[k],
            forall|k: int|
                0 <= k < rest@.len() ==> record_view(#[trigger] rest@[k]) == all[total - 1 - k],
        decreases pending@.len(),
    {
        let last = pending.pop();
        match last {
            Some(record) => {
                rest.push(record);
            },
            None => {},
        }
    }
    while rest.len() > 0
        invariant
            0 <= done <= total,
            total == all.len(),
            all == record_views(records@),
            rest@.len() == total - done,
            forall|k: int|
                0 <= k < rest@.len() ==> record_view(#[trigger] rest@[k]) == all[total - 1 - k],
            items_of_prefix(all, done) == Ok::<Seq<ItemView>, ErrorView>(item_views(items@)),
        decreases rest@.len(),
    {
        let next = rest.pop();
        let record = match next {
            Some(record) => record,
            None => {
                return Ok(items);
            },
        };
        proof {
            assert(record_view(record) == all[done]);
        }
        let fields = match record {
            Ok(fields) => fields,
            Err(text) => {
                proof {
                    lemma_error_stays(all, done + 1, total);
                }
                return Err(Error::CsvError(text));
            },
        };
        let parsed = Item::parse_optional_record(
            column(&fields, 0),
            column(&fields, 1),
            column(&fields, 2),
            column(&fields, 3),
            column(&fields, 4),
            column(&fields, 5),
        );
        match parsed {
            Ok(item) => {
                proof {
                    assert(item_views(items@.push(item)) =~= item_views(items@).push(item@));
                    done = done + 1;
                }
                items.push(item);
            },
            Err(error) => {
                proof {
                    lemma_error_stays(all, done + 1, total);
                }
                return Err(Error::ItemError(error));
            },
        }
    }
    Ok(items)
}

/// Reads the items of a CSV file without header.
pub fn read_csv(content: &[u8]) -> (outcome: Result<Vec<Item>, Error>)
    ensures
        outcome_view(outcome) == items_of(csv_records(content@)),
{
    read_records(csv_read(content))
}

/// The lines of the first `n` records, one after the other.
pub open spec fn csv_text(records: Seq<Seq<Seq<char>>>, n: int) -> Seq<u8>
    decreases n,
{
    if n <= 0 {
        Seq::empty()
    } else {
        csv_text(records, n - 1) + csv_line(records[n - 1])
    }
}

/// The records of a list of items.
pub open spec fn records_of(items: Seq<ItemView>) -> Seq<Seq<Seq<char>>> {
    Seq::new(items.len(), |i: int| record_of(items[i]))
}

/// Writes rows as the lines of a CSV file. What is written is the lines of
/// the rows in order; every row has a line, so that this never fails.
pub fn write_rows(rows: &Vec<Vec<String>>) -> (content: Result<Vec<u8>, Error>)
    ensures
        content matches Ok(bytes) && bytes@ == csv_text(rows_of(rows@), rows@.len() as int),
{
    let mut bytes: Vec<u8> = Vec::new();
    let mut i: usize = 0;
    while i < rows.len()
        invariant
            i <= rows@.len(),
            bytes@ == csv_text(rows_of(rows@), i as int),
        decreases rows@.len() - i,
    {
        match csv_write(&rows[i]) {
            Ok(line) => {
                proof {
                    assert(rows_of(rows@)[i as int] == texts_of(rows@[i as int]@));
                }
                bytes.extend_from_slice(line.as_slice());
            },
            Err(text) => {
                return Err(Error::CsvError(text));
            },
        }
        i += 1;
    }
    Ok(bytes)
}

/// Writes items as the lines of a CSV file: the records of the items in
/// order. This never fails.
pub fn write_csv(items: &Vec<Item>) -> (content: Result<Vec<u8>, Error>)
    ensures
        content matches Ok(bytes) && bytes@ == csv_text(
            records_of(item_views(items@)),
            items@.len() as int,
        ),
{
    let mut rows: Vec<Vec<String>> = Vec::new();
    let mut i: usize = 0;
    while i < items.len()
        invariant
            i <= items@.len(),
            rows@.len() == i,
            forall|k: int| 0 <= k < i ==> texts_of((#[trigger] rows@[k])@) == record_of(items@[k]@),
        decreases items@.len() - i,
    {
        rows.push(items[i].to_record());
        i += 1;
    }
    proof {
        assert(rows_of(rows@) =~= records_of(item_views(items@)));
    }
    write_rows(&rows)
}

} // verus!
