//! Snapshot descriptors as the index lists them, and addresses of captures.

use crate::text::{
    all_digits, compare_text, contains_char, decimal, decimal_text, has_prefix, is_digit, join2,
    lemma_decimal_text, lemma_lex_asymmetric, lemma_lex_total, lemma_lex_transitive,
    lemma_parse_decimal, optional_text, parse_unsigned, same_text, text_lt, texts_of,
    unsigned_value, Order,
};
use crate::digest::{is_digest_text, is_valid_digest};
use crate::util::{
    is_timestamp_text, lemma_timestamp_round_trip, parse_timestamp, timestamp_fields,
    timestamp_text, to_timestamp, Timestamp,
};
use vstd::prelude::*;
use vstd::string::*;
use vstd::utf8::*;

verus! {

/// Why a record or an address could not be read.
#[derive(Debug, PartialEq, Eq)]
pub enum Error {
    MissingUrl,
    MissingTimestamp,
    MissingDigest,
    MissingMimeType,
    MissingLength,
    MissingStatus,
    InvalidTimestamp { value: String },
    InvalidLength { value: String },
    InvalidStatus { value: String },
    InvalidWaybackUrl { value: String },
}

/// An [`Error`] with its texts as sequences of characters.
pub enum ErrorView {
    MissingUrl,
    MissingTimestamp,
    MissingDigest,
    MissingMimeType,
    MissingLength,
    MissingStatus,
    InvalidTimestamp { value: Seq<char> },
    InvalidLength { value: Seq<char> },
    InvalidStatus { value: Seq<char> },
    InvalidWaybackUrl { value: Seq<char> },
}

impl View for Error {
    type V = ErrorView;

    open spec fn view(&self) -> ErrorView {
        match self {
            Error::MissingUrl => ErrorView::MissingUrl,
            Error::MissingTimestamp => ErrorView::MissingTimestamp,
            Error::MissingDigest => ErrorView::MissingDigest,
            Error::MissingMimeType => ErrorView::MissingMimeType,
            Error::MissingLength => ErrorView::MissingLength,
            Error::MissingStatus => ErrorView::MissingStatus,
            Error::InvalidTimestamp { value } => ErrorView::InvalidTimestamp { value: value@ },
            Error::InvalidLength { value } => ErrorView::InvalidLength { value: value@ },
            Error::InvalidStatus { value } => ErrorView::InvalidStatus { value: value@ },
            Error::InvalidWaybackUrl { value } => ErrorView::InvalidWaybackUrl { value: value@ },
        }
    }
}

impl Clone for Error {
    fn clone(&self) -> (copy: Error)
        ensures
            copy == *self,
    {
        match self {
            Error::MissingUrl => Error::MissingUrl,
            Error::MissingTimestamp => Error::MissingTimestamp,
            Error::MissingDigest => Error::MissingDigest,
            Error::MissingMimeType => Error::MissingMimeType,
            Error::MissingLength => Error::MissingLength,
            Error::MissingStatus => Error::MissingStatus,
            Error::InvalidTimestamp { value } => Error::InvalidTimestamp { value: value.clone() },
            Error::InvalidLength { value } => Error::InvalidLength { value: value.clone() },
            Error::InvalidStatus { value } => Error::InvalidStatus { value: value.clone() },
            Error::InvalidWaybackUrl { value } => Error::InvalidWaybackUrl { value: value.clone() },
        }
    }
}

/// What an error says of itself.
pub open spec fn error_text(error: ErrorView) -> Seq<char> {
    match error {
        ErrorView::MissingUrl => "Missing URL"@,
        ErrorView::MissingTimestamp => "Missing timestamp"@,
        ErrorView::MissingDigest => "Missing digest"@,
        ErrorView::MissingMimeType => "Missing MIME type"@,
        ErrorView::MissingLength => "Missing length"@,
        ErrorView::MissingStatus => "Missing status code"@,
        ErrorView::InvalidTimestamp { value } => "Invalid timestamp: "@ + value,
        ErrorView::InvalidLength { value } => "Invalid length: "@ + value,
        ErrorView::InvalidStatus { value } => "Invalid status code: "@ + value,
        ErrorView::InvalidWaybackUrl { value } => "Invalid Wayback Machine URL: "@ + value,
    }
}

impl Error {
    /// Describes the error in words.
    pub fn message(&self) -> (text: String)
        ensures
            text@ == error_text(self@),
    {
        match self {
            Error::MissingUrl => String::from_str("Missing URL"),
            Error::MissingTimestamp => String::from_str("Missing timestamp"),
            Error::MissingDigest => String::from_str("Missing digest"),
            Error::MissingMimeType => String::from_str("Missing MIME type"),
            Error::MissingLength => String::from_str("Missing length"),
            Error::MissingStatus => String::from_str("Missing status code"),
            Error::InvalidTimestamp { value } => join2("Invalid timestamp: ", value.as_str()),
            Error::InvalidLength { value } => join2("Invalid length: ", value.as_str()),
            Error::InvalidStatus { value } => join2("Invalid status code: ", value.as_str()),
            Error::InvalidWaybackUrl { value } => join2(
                "Invalid Wayback Machine URL: ",
                value.as_str(),
            ),
        }
    }
}

/// The address of a capture, taken apart: the address that was captured and
/// the 14 digits of the time of capture.
#[derive(Debug, PartialEq, Eq, PartialOrd, Ord)]
pub struct UrlInfo {
    pub url: String,
    pub timestamp: String,
}

/// A [`UrlInfo`] with its texts as sequences of characters.
pub struct UrlInfoView {
    pub url: Seq<char>,
    pub timestamp: Seq<char>,
}

impl View for UrlInfo {
    type V = UrlInfoView;

    open spec fn view(&self) -> UrlInfoView {
        UrlInfoView { url: self.url@, timestamp: self.timestamp@ }
    }
}

impl Clone for UrlInfo {
    fn clone(&self) -> (copy: UrlInfo)
        ensures
            copy == *self,
    {
        UrlInfo { url: self.url.clone(), timestamp: self.timestamp.clone() }
    }
}

/// How the address of a capture begins when fetched without encryption.
pub const ARCHIVE_PREFIX: &'static str = "http://web.archive.org/web/";

/// How the address of a capture begins when fetched with encryption.
pub const SECURE_ARCHIVE_PREFIX: &'static str = "https://web.archive.org/web/";

/// The mark of an unmodified capture, with the separator that follows it.
pub const IDENTITY_MARK: &'static str = "id_/";

/// The separator between the time of capture and the captured address.
pub const SEPARATOR: &'static str = "/";

/// Where the time of capture begins in the address `s` of a capture, or -1
/// where `s` does not begin as such an address does.
pub open spec fn timestamp_start(s: Seq<char>) -> int {
    if ARCHIVE_PREFIX@.is_prefix_of(s) {
        ARCHIVE_PREFIX@.len() as int
    } else if SECURE_ARCHIVE_PREFIX@.is_prefix_of(s) {
        SECURE_ARCHIVE_PREFIX@.len() as int
    } else {
        -1
    }
}

/// Where the captured address begins in `rest`, which is what follows the
/// time of capture, or -1 where neither the mark of an unmodified capture
/// with its separator nor the separator alone comes first.
pub open spec fn target_start(rest: Seq<char>) -> int {
    if IDENTITY_MARK@.is_prefix_of(rest) {
        IDENTITY_MARK@.len() as int
    } else if SEPARATOR@.is_prefix_of(rest) {
        SEPARATOR@.len() as int
    } else {
        -1
    }
}

/// The parts of the address `s` of a capture, which has the form
/// `http[s]://web.archive.org/web/<14 digits>[id_]/<address>` with an
/// address that is not empty and holds no line feed; `None` for any other
/// text.
pub open spec fn archive_url_parts(s: Seq<char>) -> Option<UrlInfoView> {
    let start = timestamp_start(s);
    if start < 0 || s.len() < start + 14 || !all_digits(s.subrange(start, start + 14)) {
        None
    } else {
        let rest = s.skip(start + 14);
        let skip = target_start(rest);
        if skip < 0 || rest.len() == skip || rest.skip(skip).contains('\n') {
            None
        } else {
            Some(UrlInfoView { url: rest.skip(skip), timestamp: s.subrange(start, start + 14) })
        }
    }
}

impl UrlInfo {
    /// Puts an address and a time of capture together.
    pub fn new(url: String, timestamp: String) -> (info: UrlInfo)
        ensures
            info.url == url,
            info.timestamp == timestamp,
    {
        UrlInfo { url, timestamp }
    }

    /// Takes the address of a capture apart.
    pub fn parse(s: &str) -> (parsed: Result<UrlInfo, Error>)
        ensures
            match parsed {
                Ok(info) => archive_url_parts(s@) == Some(info@),
                Err(error) => archive_url_parts(s@) is None && error@
                    == (ErrorView::InvalidWaybackUrl { value: s@ }),
            },
    {
        proof {
            reveal_strlit("http://web.archive.org/web/");
            reveal_strlit("https://web.archive.org/web/");
            reveal_strlit("id_/");
            reveal_strlit("/");
        }
        let len = s.unicode_len();
        let start: usize = if has_prefix(s, ARCHIVE_PREFIX) {
            27
        } else if has_prefix(s, SECURE_ARCHIVE_PREFIX) {
            28
        } else {
            return Err(Error::InvalidWaybackUrl { value: String::from_str(s) });
        };
        if len < 14 || len - 14 < start {
            return Err(Error::InvalidWaybackUrl { value: String::from_str(s) });
        }
        let ghost stamp = s@.subrange(start as int, start + 14);
        let mut i: usize = start;
        while i < start + 14
            invariant
                start <= i <= start + 14 <= len,
                len == s@.len(),
                start == timestamp_start(s@),
                stamp == s@.subrange(start as int, start + 14),
                forall|k: int| 0 <= k < i - start ==> is_digit(#[trigger] stamp[k]),
            decreases start + 14 - i,
        {
            let c = s.get_char(i);
            if c < '0' || c > '9' {
                proof {
                    assert(stamp[i - start] == c);
                }
                return Err(Error::InvalidWaybackUrl { value: String::from_str(s) });
            }
            proof {
                assert(stamp[i - start] == c);
            }
            i += 1;
        }
        let rest = s.substring_char(start + 14, len);
        proof {
            assert(rest@ =~= s@.skip(start + 14));
        }
        let skip: usize = if has_prefix(rest, IDENTITY_MARK) {
            4
        } else if has_prefix(rest, SEPARATOR) {
            1
        } else {
            return Err(Error::InvalidWaybackUrl { value: String::from_str(s) });
        };
        let rest_len = len - start - 14;
        if rest_len == skip {
            return Err(Error::InvalidWaybackUrl { value: String::from_str(s) });
        }
        let target = rest.substring_char(skip, rest_len);
        proof {
            assert(target@ =~= rest@.skip(skip as int));
        }
        if contains_char(target, '\n') {
            return Err(Error::InvalidWaybackUrl { value: String::from_str(s) });
        }
        let timestamp = s.substring_char(start, start + 14);
        Ok(UrlInfo::new(String::from_str(target), String::from_str(timestamp)))
    }
}

impl std::str::FromStr for UrlInfo {
    type Err = Error;

    fn from_str(s: &str) -> (parsed: Result<UrlInfo, Error>)
        ensures
            match parsed {
                Ok(info) => archive_url_parts(s@) == Some(info@),
                Err(error) => archive_url_parts(s@) is None && error@
                    == (ErrorView::InvalidWaybackUrl { value: s@ }),
            },
    {
        UrlInfo::parse(s)
    }
}

/// Information about a single archived snapshot of a page.
#[derive(Debug, PartialEq, Eq, PartialOrd, Ord, Hash)]
pub struct Item {
    /// The address that was captured.
    pub url: String,
    /// When it was captured.
    pub archived_at: Timestamp,
    /// The digest of the capture, or `-` where the index gives none.
    pub digest: String,
    pub mime_type: String,
    pub length: u32,
    /// The HTTP status of the capture, where the index gives one.
    pub status: Option<u16>,
}

/// An [`Item`] with its texts as sequences of characters.
pub struct ItemView {
    pub url: Seq<char>,
    pub archived_at: Timestamp,
    pub digest: Seq<char>,
    pub mime_type: Seq<char>,
    pub length: u32,
    pub status: Option<u16>,
}

impl View for Item {
    type V = ItemView;

    open spec fn view(&self) -> ItemView {
        ItemView {
            url: self.url@,
            archived_at: self.archived_at,
            digest: self.digest@,
            mime_type: self.mime_type@,
            length: self.length,
            status: self.status,
        }
    }
}

impl Clone for Item {
    fn clone(&self) -> (copy: Item)
        ensures
            copy == *self,
    {
        Item {
            url: self.url.clone(),
            archived_at: self.archived_at,
            digest: self.digest.clone(),
            mime_type: self.mime_type.clone(),
            length: self.length,
            status: self.status,
        }
    }
}

/// The items of a list, each by its view.
pub open spec fn item_views(items: Seq<Item>) -> Seq<ItemView> {
    Seq::new(items.len(), |i: int| items[i]@)
}

/// The text that stands for no status in a record.
pub const NO_STATUS: &'static str = "-";

/// The text that stands for no digest.
pub const NO_DIGEST: &'static str = "-";

/// Whether an item is as the index lists items: its time of capture is a
/// moment that exists, and its digest is a digest or the text that stands
/// for none.
pub open spec fn is_well_formed(item: ItemView) -> bool {
    &&& item.archived_at.is_valid()
    &&& (is_digest_text(item.digest) || item.digest == NO_DIGEST@)
}

/// The status column of a record: the number, or `-` for none.
pub open spec fn status_text(status: Option<u16>) -> Seq<char> {
    match status {
        Some(code) => decimal_text(code as nat),
        None => NO_STATUS@,
    }
}

/// The address under which the Wayback Machine serves a capture, in the
/// unmodified form (`id_`) or framed (`if_`).
pub open spec fn capture_url(
    prefix: Seq<char>,
    timestamp: Seq<char>,
    original: bool,
    url: Seq<char>,
) -> Seq<char> {
    prefix + timestamp + (if original {
        "id_"@
    } else {
        "if_"@
    }) + "/"@ + url
}

/// The name under which a capture is filed: its digest, with an extension
/// for the two kinds of content that have one.
pub open spec fn filename_of(item: ItemView) -> Seq<char> {
    if item.mime_type == "application/json"@ {
        item.digest + ".json"@
    } else if item.mime_type == "text/html"@ {
        item.digest + ".html"@
    } else {
        item.digest
    }
}

/// The six columns of a record: address, time of capture, digest, kind of
/// content, length and status.
pub open spec fn record_of(item: ItemView) -> Seq<Seq<char>> {
    seq![
        item.url,
        timestamp_text(item.archived_at),
        item.digest,
        item.mime_type,
        decimal_text(item.length as nat),
        status_text(item.status),
    ]
}

/// What six columns of text denote: the item, or the first column, in the
/// order time of capture, length, status, that cannot be read.
pub open spec fn parse_columns(
    url: Seq<char>,
    timestamp: Seq<char>,
    digest: Seq<char>,
    mime_type: Seq<char>,
    length: Seq<char>,
    status: Seq<char>,
) -> Result<ItemView, ErrorView> {
    if !is_timestamp_text(timestamp) {
        Err(ErrorView::InvalidTimestamp { value: timestamp })
    } else if unsigned_value(length, 0xffff_ffff) is None {
        Err(ErrorView::InvalidLength { value: length })
    } else if status != NO_STATUS@ && unsigned_value(status, 0xffff) is None {
        Err(ErrorView::InvalidStatus { value: status })
    } else {
        Ok(
            ItemView {
                url,
                archived_at: timestamp_fields(timestamp),
                digest,
                mime_type,
                length: unsigned_value(length, 0xffff_ffff)->0 as u32,
                status: if status == NO_STATUS@ {
                    None
                } else {
                    Some(unsigned_value(status, 0xffff)->0 as u16)
                },
            },
        )
    }
}

/// What a record denotes of which columns may be missing: the first
/// missing column is reported before any column is read.
pub open spec fn parse_record(
    url: Option<Seq<char>>,
    timestamp: Option<Seq<char>>,
    digest: Option<Seq<char>>,
    mime_type: Option<Seq<char>>,
    length: Option<Seq<char>>,
    status: Option<Seq<char>>,
) -> Result<ItemView, ErrorView> {
    if url is None {
        Err(ErrorView::MissingUrl)
    } else if timestamp is None {
        Err(ErrorView::MissingTimestamp)
    } else if digest is None {
        Err(ErrorView::MissingDigest)
    } else if mime_type is None {
        Err(ErrorView::MissingMimeType)
    } else if length is None {
        Err(ErrorView::MissingLength)
    } else if status is None {
        Err(ErrorView::MissingStatus)
    } else {
        parse_columns(url->0, timestamp->0, digest->0, mime_type->0, length->0, status->0)
    }
}

/// The order of optional statuses: none comes before any, and numbers are
/// in their own order.
pub open spec fn status_lt(a: Option<u16>, b: Option<u16>) -> bool {
    match (a, b) {
        (None, Some(_)) => true,
        (Some(x), Some(y)) => x < y,
        _ => false,
    }
}

/// The order of items: by address, then time of capture, digest, kind of
/// content, length and status, the first difference deciding.
pub open spec fn item_lt(a: ItemView, b: ItemView) -> bool {
    if a.url != b.url {
        text_lt(a.url, b.url)
    } else if a.archived_at != b.archived_at {
        a.archived_at.is_before(&b.archived_at)
    } else if a.digest != b.digest {
        text_lt(a.digest, b.digest)
    } else if a.mime_type != b.mime_type {
        text_lt(a.mime_type, b.mime_type)
    } else if a.length != b.length {
        a.length < b.length
    } else {
        status_lt(a.status, b.status)
    }
}

/// No item comes before itself.
pub proof fn lemma_item_lt_irreflexive(a: ItemView)
    ensures
        !item_lt(a, a),
{
}

/// The order of items is transitive.
pub proof fn lemma_item_lt_transitive(a: ItemView, b: ItemView, c: ItemView)
    requires
        item_lt(a, b),
        item_lt(b, c),
    ensures
        item_lt(a, c),
{
    lemma_text_order(a.url, b.url, c.url);
    lemma_text_order(a.digest, b.digest, c.digest);
    lemma_text_order(a.mime_type, b.mime_type, c.mime_type);
}

/// The order of text is transitive, and what comes before differs.
proof fn lemma_text_order(a: Seq<char>, b: Seq<char>, c: Seq<char>)
    ensures
        text_lt(a, b) && text_lt(b, c) ==> text_lt(a, c),
        text_lt(a, b) ==> a != b,
        text_lt(b, c) ==> b != c,
        text_lt(a, c) ==> a != c,
{
    if text_lt(a, b) && text_lt(b, c) {
        lemma_lex_transitive(encode_utf8(a), encode_utf8(b), encode_utf8(c));
    }
    lemma_lex_asymmetric(encode_utf8(a), encode_utf8(b));
    lemma_lex_asymmetric(encode_utf8(b), encode_utf8(c));
    lemma_lex_asymmetric(encode_utf8(a), encode_utf8(c));
}

impl Item {
    /// Puts a descriptor together.
    pub fn new(
        url: String,
        archived_at: Timestamp,
        digest: String,
        mime_type: String,
        length: u32,
        status: Option<u16>,
    ) -> (item: Item)
        ensures
            item == (Item { url, archived_at, digest, mime_type, length, status }),
    {
        Item { url, archived_at, digest, mime_type, length, status }
    }

    /// The address of this capture at the Wayback Machine.
    pub fn wayback_url(&self, original: bool) -> (address: String)
        ensures
            address@ == capture_url(
                ARCHIVE_PREFIX@,
                timestamp_text(self.archived_at),
                original,
                self.url@,
            ),
    {
        let mut address = join2(ARCHIVE_PREFIX, self.timestamp().as_str());
        address.append(
            if original {
                "id_"
            } else {
                "if_"
            },
        );
        address.append("/");
        address.append(self.url.as_str());
        address
    }

    /// The time of capture as 14 digits.
    pub fn timestamp(&self) -> (text: String)
        ensures
            text@ == timestamp_text(self.archived_at),
            text@.len() == 14,
    {
        to_timestamp(&self.archived_at)
    }

    /// The status as a record holds it.
    pub fn status_code(&self) -> (text: String)
        ensures
            text@ == status_text(self.status),
    {
        match self.status {
            Some(code) => decimal(code as u64),
            None => String::from_str(NO_STATUS),
        }
    }

    /// The name under which this capture is filed.
    pub fn make_filename(&self) -> (name: String)
        ensures
            name@ == filename_of(self@),
    {
        if same_text(self.mime_type.as_str(), "application/json") {
            join2(self.digest.as_str(), ".json")
        } else if same_text(self.mime_type.as_str(), "text/html") {
            join2(self.digest.as_str(), ".html")
        } else {
            self.digest.clone()
        }
    }

    /// This descriptor with another digest.
    pub fn with_digest(&self, digest: &str) -> (item: Item)
        ensures
            item@ == (ItemView { digest: digest@, ..self@ }),
    {
        let mut item = self.clone();
        item.digest = String::from_str(digest);
        item
    }

    /// Whether this item is as the index lists items.
    pub fn is_well_formed(&self) -> (well_formed: bool)
        ensures
            well_formed == is_well_formed(self@),
    {
        let valid_time = match Timestamp::new(
            self.archived_at.year,
            self.archived_at.month,
            self.archived_at.day,
            self.archived_at.hour,
            self.archived_at.minute,
            self.archived_at.second,
        ) {
            Some(_) => true,
            None => false,
        };
        valid_time && (is_valid_digest(self.digest.as_str()) || same_text(
            self.digest.as_str(),
            NO_DIGEST,
        ))
    }

    /// Reads six columns of text. The time of capture of what is read is a
    /// moment that exists; the digest is taken as it is.
    pub fn parse(
        url: &str,
        timestamp: &str,
        digest: &str,
        mime_type: &str,
        length: &str,
        status: &str,
    ) -> (parsed: Result<Item, Error>)
        ensures
            match parsed {
                Ok(item) => parse_columns(
                    url@,
                    timestamp@,
                    digest@,
                    mime_type@,
                    length@,
                    status@,
                ) == Ok::<ItemView, ErrorView>(item@) && item.archived_at.is_valid(),
                Err(error) => parse_columns(
                    url@,
                    timestamp@,
                    digest@,
                    mime_type@,
                    length@,
                    status@,
                ) == Err::<ItemView, ErrorView>(error@),
            },
    {
        let archived_at = match parse_timestamp(timestamp) {
            Some(moment) => moment,
            None => {
                return Err(Error::InvalidTimestamp { value: String::from_str(timestamp) });
            },
        };
        let length_parsed = match parse_unsigned(length, 0xffff_ffff) {
            Some(number) => number as u32,
            None => {
                return Err(Error::InvalidLength { value: String::from_str(length) });
            },
        };
        let status_parsed = if same_text(status, NO_STATUS) {
            None
        } else {
            match parse_unsigned(status, 0xffff) {
                Some(number) => Some(number as u16),
                None => {
                    return Err(Error::InvalidStatus { value: String::from_str(status) });
                },
            }
        };
        Ok(
            Item::new(
                String::from_str(url),
                archived_at,
                String::from_str(digest),
                String::from_str(mime_type),
                length_parsed,
                status_parsed,
            ),
        )
    }

    /// Reads a record of which columns may be missing.
    pub fn parse_optional_record(
        url: Option<&str>,
        timestamp: Option<&str>,
        digest: Option<&str>,
        mime_type: Option<&str>,
        length: Option<&str>,
        status: Option<&str>,
    ) -> (parsed: Result<Item, Error>)
        ensures
            match parsed {
                Ok(item) => parse_record(
                    optional_text(url),
                    optional_text(timestamp),
                    optional_text(digest),
                    optional_text(mime_type),
                    optional_text(length),
                    optional_text(status),
                ) == Ok::<ItemView, ErrorView>(item@),
                Err(error) => parse_record(
                    optional_text(url),
                    optional_text(timestamp),
                    optional_text(digest),
                    optional_text(mime_type),
                    optional_text(length),
                    optional_text(status),
                ) == Err::<ItemView, ErrorView>(error@),
            },
    {
        let url = match url {
            Some(text) => text,
            None => {
                return Err(Error::MissingUrl);
            },
        };
        let timestamp = match timestamp {
            Some(text) => text,
            None => {
                return Err(Error::MissingTimestamp);
            },
        };
        let digest = match digest {
            Some(text) => text,
            None => {
                return Err(Error::MissingDigest);
            },
        };
        let mime_type = match mime_type {
            Some(text) => text,
            None => {
                return Err(Error::MissingMimeType);
            },
        };
        let length = match length {
            Some(text) => text,
            None => {
                return Err(Error::MissingLength);
            },
        };
        let status = match status {
            Some(text) => text,
            None => {
                return Err(Error::MissingStatus);
            },
        };
        Item::parse(url, timestamp, digest, mime_type, length, status)
    }

    /// The six columns of this descriptor's record.
    pub fn to_record(&self) -> (record: Vec<String>)
        ensures
            texts_of(record@) == record_of(self@),
    {
        let mut record: Vec<String> = Vec::new();
        record.push(self.url.clone());
        record.push(self.timestamp());
        record.push(self.digest.clone());
        record.push(self.mime_type.clone());
        record.push(decimal(self.length as u64));
        record.push(self.status_code());
        proof {
            assert(texts_of(record@) =~= record_of(self@));
        }
        record
    }

    /// Compares two descriptors in the order of items.
    pub fn compare(&self, other: &Item) -> (order: Order)
        ensures
            match order {
                Order::Less => item_lt(self@, other@),
                Order::Equal => self@ == other@,
                Order::Greater => item_lt(other@, self@),
            },
    {
        proof {
            lemma_text_order(self.url@, other.url@, self.url@);
            lemma_text_order(self.digest@, other.digest@, self.digest@);
            lemma_text_order(self.mime_type@, other.mime_type@, self.mime_type@);
        }
        match compare_text(self.url.as_str(), other.url.as_str()) {
            Order::Less => {
                return Order::Less;
            },
            Order::Greater => {
                return Order::Greater;
            },
            Order::Equal => {},
        }
        match self.archived_at.compare(&other.archived_at) {
            Order::Less => {
                return Order::Less;
            },
            Order::Greater => {
                return Order::Greater;
            },
            Order::Equal => {},
        }
        match compare_text(self.digest.as_str(), other.digest.as_str()) {
            Order::Less => {
                return Order::Less;
            },
            Order::Greater => {
                return Order::Greater;
            },
            Order::Equal => {},
        }
        match compare_text(self.mime_type.as_str(), other.mime_type.as_str()) {
            Order::Less => {
                return Order::Less;
            },
            Order::Greater => {
                return Order::Greater;
            },
            Order::Equal => {},
        }
        if self.length < other.length {
            return Order::Less;
        }
        if self.length > other.length {
            return Order::Greater;
        }
        match (self.status, other.status) {
            (None, None) => Order::Equal,
            (None, Some(_)) => Order::Less,
            (Some(_), None) => Order::Greater,
            (Some(x), Some(y)) => if x < y {
                Order::Less
            } else if x > y {
                Order::Greater
            } else {
                Order::Equal
            },
        }
    }
}

/// Reading the record of an item whose time of capture is valid gives the
/// item back.
pub proof fn lemma_record_round_trip(item: ItemView)
    requires
        item.archived_at.is_valid(),
    ensures
        record_of(item).len() == 6,
        parse_record(
            Some(record_of(item)[0]),
            Some(record_of(item)[1]),
            Some(record_of(item)[2]),
            Some(record_of(item)[3]),
            Some(record_of(item)[4]),
            Some(record_of(item)[5]),
        ) == Ok::<ItemView, ErrorView>(item),
{
    reveal_strlit("-");
    lemma_timestamp_round_trip(item.archived_at);
    lemma_parse_decimal(item.length as nat, 0xffff_ffff);
    match item.status {
        Some(code) => {
            lemma_parse_decimal(code as nat, 0xffff);
            lemma_decimal_text(code as nat);
            assert(is_digit(decimal_text(code as nat)[0]));
        },
        None => {},
    }
}

/// Whether each item comes strictly before all that follow it, so that the
/// list is in order and holds nothing twice.
pub open spec fn strictly_sorted(items: Seq<ItemView>) -> bool {
    forall|i: int, j: int| 0 <= i < j < items.len() ==> item_lt(#[trigger] items[i], #[trigger] items[j])
}

/// Whether `item` comes before everything in `items` from `from` on.
pub open spec fn below_rest(item: ItemView, items: Seq<ItemView>, from: int) -> bool {
    forall|x: int| from <= x < items.len() ==> item_lt(item, #[trigger] items[x])
}

/// Whether `item` occurs in `items` at a position from `from` up to, but
/// not including, `to`.
pub open spec fn occurs_between(items: Seq<ItemView>, from: int, to: int, item: ItemView) -> bool {
    exists|x: int| from <= x < to && 0 <= x < items.len() && #[trigger] items[x] == item
}

/// Whether two lists hold the same items, whatever their order and number.
pub open spec fn same_items(a: Seq<ItemView>, b: Seq<ItemView>) -> bool {
    forall|item: ItemView| a.contains(item) <==> b.contains(item)
}

/// Merges two lists that are in order and hold nothing twice into one such
/// list, which holds what either holds.
pub fn merge_unique(a: &Vec<Item>, b: &Vec<Item>) -> (merged: Vec<Item>)
    requires
        strictly_sorted(item_views(a@)),
        strictly_sorted(item_views(b@)),
    ensures
        strictly_sorted(item_views(merged@)),
        forall|item: ItemView|
            item_views(merged@).contains(item) <==> item_views(a@).contains(item) || item_views(
                b@,
            ).contains(item),
{
    let ghost left = item_views(a@);
    let ghost right = item_views(b@);
    let mut merged: Vec<Item> = Vec::new();
    let mut i: usize = 0;
    let mut j: usize = 0;
    while i < a.len() || j < b.len()
        invariant
            left == item_views(a@),
            right == item_views(b@),
            i <= a.len(),
            j <= b.len(),
            strictly_sorted(left),
            strictly_sorted(right),
            strictly_sorted(item_views(merged@)),
            forall|k: int|
                0 <= k < merged@.len() ==> below_rest(#[trigger] item_views(merged@)[k], left, i as int),
            forall|k: int|
                0 <= k < merged@.len() ==> below_rest(
                    #[trigger] item_views(merged@)[k],
                    right,
                    j as int,
                ),
            forall|item: ItemView|
                item_views(merged@).contains(item) <==> occurs_between(left, 0, i as int, item)
                    || occurs_between(right, 0, j as int, item),
        decreases a.len() - i + b.len() - j,
    {
        let ghost before = item_views(merged@);
        let ghost i0 = i as int;
        let ghost j0 = j as int;
        let order = if i >= a.len() {
            Order::Greater
        } else if j >= b.len() {
            Order::Less
        } else {
            a[i].compare(&b[j])
        };
        let next = match order {
            Order::Less => {
                let next = a[i].clone();
                i += 1;
                next
            },
            Order::Greater => {
                let next = b[j].clone();
                j += 1;
                next
            },
            Order::Equal => {
                let next = a[i].clone();
                i += 1;
                j += 1;
                next
            },
        };
        merged.push(next);
        proof {
            let after = item_views(merged@);
            let e = next@;
            assert(after =~= before.push(e));
            if i0 < left.len() {
                assert(left[i0] == a@[i0]@);
            }
            if j0 < right.len() {
                assert(right[j0] == b@[j0]@);
            }
            // The new item comes after all that were merged before.
            assert forall|x: int, y: int| 0 <= x < y < after.len() implies item_lt(
                #[trigger] after[x],
                #[trigger] after[y],
            ) by {
                if y == before.len() {
                    assert(after[x] == before[x]);
                    assert(below_rest(before[x], left, i0));
                    assert(below_rest(before[x], right, j0));
                } else {
                    assert(after[x] == before[x]);
                    assert(after[y] == before[y]);
                }
            }
            // Everything merged comes before what is left of both lists.
            assert forall|k: int| 0 <= k < after.len() implies below_rest(
                #[trigger] after[k],
                left,
                i as int,
            ) by {
                if k < before.len() {
                    assert(after[k] == before[k]);
                    assert(below_rest(before[k], left, i0));
                } else {
                    assert forall|x: int| i <= x < left.len() implies item_lt(
                        e,
                        #[trigger] left[x],
                    ) by {
                        if i0 < left.len() && e == left[i0] {
                        } else {
                            // The new item is right[j0], which is below left[i0].
                            if x > i0 {
                                lemma_item_lt_transitive(e, left[i0], left[x]);
                            }
                        }
                    }
                }
            }
            assert forall|k: int| 0 <= k < after.len() implies below_rest(
                #[trigger] after[k],
                right,
                j as int,
            ) by {
                if k < before.len() {
                    assert(after[k] == before[k]);
                    assert(below_rest(before[k], right, j0));
                } else {
                    assert forall|y: int| j <= y < right.len() implies item_lt(
                        e,
                        #[trigger] right[y],
                    ) by {
                        if j0 < right.len() && e == right[j0] {
                        } else {
                            if y > j0 {
                                lemma_item_lt_transitive(e, right[j0], right[y]);
                            }
                        }
                    }
                }
            }
            // What is merged is what has been passed in either list.
            assert forall|item: ItemView| after.contains(item) <==> occurs_between(
                left,
                0,
                i as int,
                item,
            ) || occurs_between(right, 0, j as int, item) by {
                if after.contains(item) {
                    let k = choose|k: int| 0 <= k < after.len() && after[k] == item;
                    if k < before.len() {
                        assert(before[k] == item);
                        assert(before.contains(item));
                        if occurs_between(left, 0, i0, item) {
                            let x = choose|x: int|
                                0 <= x < i0 && 0 <= x < left.len() && #[trigger] left[x] == item;
                            assert(occurs_between(left, 0, i as int, item));
                        } else {
                            let y = choose|y: int|
                                0 <= y < j0 && 0 <= y < right.len() && #[trigger] right[y] == item;
                            assert(occurs_between(right, 0, j as int, item));
                        }
                    } else {
                        if i > i0 && e == left[i0] {
                            assert(occurs_between(left, 0, i as int, item));
                        } else {
                            assert(right[j0] == item);
                            assert(occurs_between(right, 0, j as int, item));
                        }
                    }
                }
                if occurs_between(left, 0, i as int, item) {
                    let x = choose|x: int|
                        0 <= x < i && 0 <= x < left.len() && #[trigger] left[x] == item;
                    if x < i0 {
                        assert(occurs_between(left, 0, i0, item));
                        assert(before.contains(item));
                        let k = choose|k: int| 0 <= k < before.len() && before[k] == item;
                        assert(after[k] == item);
                    } else {
                        assert(after[before.len() as int] == item);
                    }
                }
                if occurs_between(right, 0, j as int, item) {
                    let y = choose|y: int|
                        0 <= y < j && 0 <= y < right.len() && #[trigger] right[y] == item;
                    if y < j0 {
                        assert(occurs_between(right, 0, j0, item));
                        assert(before.contains(item));
                        let k = choose|k: int| 0 <= k < before.len() && before[k] == item;
                        assert(after[k] == item);
                    } else {
                        assert(after[before.len() as int] == item);
                    }
                }
            }
        }
    }
    proof {
        let after = item_views(merged@);
        assert forall|item: ItemView| after.contains(item) <==> left.contains(item)
            || right.contains(item) by {
            if left.contains(item) {
                let x = choose|x: int| 0 <= x < left.len() && left[x] == item;
                assert(occurs_between(left, 0, i as int, item));
            }
            if right.contains(item) {
                let y = choose|y: int| 0 <= y < right.len() && right[y] == item;
                assert(occurs_between(right, 0, j as int, item));
            }
            if occurs_between(left, 0, i as int, item) {
                let x = choose|x: int|
                    0 <= x < i && 0 <= x < left.len() && #[trigger] left[x] == item;
                assert(left.contains(item));
            }
            if occurs_between(right, 0, j as int, item) {
                let y = choose|y: int|
                    0 <= y < j && 0 <= y < right.len() && #[trigger] right[y] == item;
                assert(right.contains(item));
            }
        }
    }
    merged
}

/// Sorts the items between two positions and drops what occurs twice.
fn sort_range(items: &Vec<Item>, from: usize, to: usize) -> (sorted: Vec<Item>)
    requires
        from <= to <= items.len(),
    ensures
        strictly_sorted(item_views(sorted@)),
        forall|item: ItemView|
            item_views(sorted@).contains(item) <==> occurs_between(
                item_views(items@),
                from as int,
                to as int,
                item,
            ),
    decreases to - from,
{
    let ghost all = item_views(items@);
    if to - from == 0 {
        let sorted: Vec<Item> = Vec::new();
        proof {
            assert(item_views(sorted@) =~= Seq::<ItemView>::empty());
        }
        sorted
    } else if to - from == 1 {
        let mut sorted: Vec<Item> = Vec::new();
        sorted.push(items[from].clone());
        proof {
            let one = item_views(sorted@);
            assert(one =~= seq![all[from as int]]);
            assert forall|item: ItemView| one.contains(item) <==> occurs_between(
                all,
                from as int,
                to as int,
                item,
            ) by {
                if one.contains(item) {
                    assert(all[from as int] == item);
                }
                if occurs_between(all, from as int, to as int, item) {
                    assert(one[0] == item);
                }
            }
        }
        sorted
    } else {
        let middle = from + (to - from) / 2;
        let left = sort_range(items, from, middle);
        let right = sort_range(items, middle, to);
        let sorted = merge_unique(&left, &right);
        proof {
            let merged = item_views(sorted@);
            assert forall|item: ItemView| merged.contains(item) <==> occurs_between(
                all,
                from as int,
                to as int,
                item,
            ) by {
                if occurs_between(all, from as int, to as int, item) {
                    let x = choose|x: int|
                        from <= x < to && 0 <= x < all.len() && #[trigger] all[x] == item;
                    if x < middle {
                        assert(occurs_between(all, from as int, middle as int, item));
                    } else {
                        assert(occurs_between(all, middle as int, to as int, item));
                    }
                }
                if occurs_between(all, from as int, middle as int, item) {
                    let x = choose|x: int|
                        from <= x < middle && 0 <= x < all.len() && #[trigger] all[x] == item;
                    assert(occurs_between(all, from as int, to as int, item));
                }
                if occurs_between(all, middle as int, to as int, item) {
                    let x = choose|x: int|
                        middle <= x < to && 0 <= x < all.len() && #[trigger] all[x] == item;
                    assert(occurs_between(all, from as int, to as int, item));
                }
            }
        }
        sorted
    }
}

/// Sorts a list of items and drops what occurs twice: the result is in
/// order, holds nothing twice, and holds what the list holds.
pub fn sorted_unique(items: &Vec<Item>) -> (sorted: Vec<Item>)
    ensures
        strictly_sorted(item_views(sorted@)),
        same_items(item_views(sorted@), item_views(items@)),
{
    let sorted = sort_range(items, 0, items.len());
    proof {
        let all = item_views(items@);
        assert forall|item: ItemView| item_views(sorted@).contains(item) <==> all.contains(
            item,
        ) by {
            if all.contains(item) {
                let x = choose|x: int| 0 <= x < all.len() && all[x] == item;
                assert(occurs_between(all, 0, items.len() as int, item));
            }
            if occurs_between(all, 0, items.len() as int, item) {
                let x = choose|x: int|
                    0 <= x < items.len() && 0 <= x < all.len() && #[trigger] all[x] == item;
                assert(all.contains(item));
            }
        }
    }
    sorted
}

/// Of two items that differ, one comes before the other.
pub proof fn lemma_item_lt_total(a: ItemView, b: ItemView)
    ensures
        a == b || item_lt(a, b) || item_lt(b, a),
{
    lemma_text_total(a.url, b.url);
    lemma_text_total(a.digest, b.digest);
    lemma_text_total(a.mime_type, b.mime_type);
}

/// Of two texts that differ, one comes before the other.
proof fn lemma_text_total(a: Seq<char>, b: Seq<char>)
    ensures
        a == b || text_lt(a, b) || text_lt(b, a),
{
    lemma_lex_total(encode_utf8(a), encode_utf8(b));
    encode_utf8_decode_utf8(a);
    encode_utf8_decode_utf8(b);
}

/// There is one list only that is in order, holds nothing twice and holds
/// given items: to sort the same items again gives the same list.
pub proof fn lemma_sorted_determined(a: Seq<ItemView>, b: Seq<ItemView>)
    requires
        strictly_sorted(a),
        strictly_sorted(b),
        same_items(a, b),
    ensures
        a == b,
    decreases a.len(),
{
    if a.len() == 0 {
        if b.len() > 0 {
            assert(b.contains(b[0]));
            assert(a.contains(b[0]));
        }
        assert(a =~= b);
    } else if b.len() == 0 {
        assert(a.contains(a[0]));
        assert(b.contains(a[0]));
    } else {
        assert(a.contains(a[0]));
        assert(b.contains(b[0]));
        let j = choose|j: int| 0 <= j < b.len() && b[j] == a[0];
        let i = choose|i: int| 0 <= i < a.len() && a[i] == b[0];
        lemma_item_lt_irreflexive(a[0]);
        if j > 0 {
            if i > 0 {
                lemma_item_lt_transitive(a[0], a[i], b[j]);
            }
        }
        assert(a[0] == b[0]);
        let x = a.skip(1);
        let y = b.skip(1);
        assert forall|item: ItemView| x.contains(item) <==> y.contains(item) by {
            if x.contains(item) {
                let k = choose|k: int| 0 <= k < x.len() && x[k] == item;
                assert(a[k + 1] == item);
                assert(a.contains(item));
                let m = choose|m: int| 0 <= m < b.len() && b[m] == item;
                if m == 0 {
                    lemma_item_lt_irreflexive(item);
                }
                assert(y[m - 1] == item);
            }
            if y.contains(item) {
                let k = choose|k: int| 0 <= k < y.len() && y[k] == item;
                assert(b[k + 1] == item);
                assert(b.contains(item));
                let m = choose|m: int| 0 <= m < a.len() && a[m] == item;
                if m == 0 {
                    lemma_item_lt_irreflexive(item);
                }
                assert(x[m - 1] == item);
            }
        }
        assert forall|p: int, q: int| 0 <= p < q < x.len() implies item_lt(
            #[trigger] x[p],
            #[trigger] x[q],
        ) by {
            assert(x[p] == a[p + 1] && x[q] == a[q + 1]);
        }
        assert forall|p: int, q: int| 0 <= p < q < y.len() implies item_lt(
            #[trigger] y[p],
            #[trigger] y[q],
        ) by {
            assert(y[p] == b[p + 1] && y[q] == b[q + 1]);
        }
        lemma_sorted_determined(x, y);
        assert(a =~= seq![a[0]] + x);
        assert(b =~= seq![b[0]] + y);
    }
}

/// A list that is in order and holds nothing twice never falls from one
/// item to the next, and no two neighbours are the same.
pub proof fn lemma_sorted_neighbours(items: Seq<ItemView>, i: int)
    requires
        strictly_sorted(items),
        0 <= i,
        i + 1 < items.len(),
    ensures
        item_lt(items[i], items[i + 1]),
        !item_lt(items[i + 1], items[i]),
        items[i] != items[i + 1],
{
    lemma_item_lt_irreflexive(items[i]);
    if item_lt(items[i + 1], items[i]) {
        lemma_item_lt_transitive(items[i], items[i + 1], items[i]);
    }
}

} // verus!
