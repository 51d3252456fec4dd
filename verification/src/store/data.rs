//! The layout of a content-addressable store of compressed captures.
//!
//! A store is a directory with one subdirectory for each character of the
//! digest alphabet. A capture lives in the subdirectory named by the first
//! character of its digest, in a file named by the digest with the
//! extension `gz`.

use crate::digest::{
    compute_digest_gz, digest_of, gunzip, gzip_payload, is_digest_char, is_digest_text,
    is_valid_char, is_valid_digest,
};
use crate::text::{
    bytes_before, has_prefix, join3, join_path, joined_path, lemma_lex_asymmetric,
    lemma_lex_between, lex_lt, reversed, same_bytes, same_text, utf8_text,
};
use vstd::prelude::*;
use vstd::seq_lib::*;
use vstd::string::*;
use vstd::utf8::*;

verus! {

/// What can be wrong with a store or a question put to it.
#[derive(Debug, PartialEq, Eq)]
pub enum Error {
    /// Something in the store that does not belong there.
    Unexpected { path: String },
    /// A text that is no digest, or no beginning of one.
    InvalidDigest(String),
    /// Reading failed.
    IOError,
    /// Reading the capture of this digest failed.
    ItemIOError { digest: String },
    /// A digest could not be computed.
    DigestComputationError,
}

/// An [`Error`] with its texts as sequences of characters.
pub enum ErrorView {
    Unexpected { path: Seq<char> },
    InvalidDigest(Seq<char>),
    IOError,
    ItemIOError { digest: Seq<char> },
    DigestComputationError,
}

impl View for Error {
    type V = ErrorView;

    open spec fn view(&self) -> ErrorView {
        match self {
            Error::Unexpected { path } => ErrorView::Unexpected { path: path@ },
            Error::InvalidDigest(text) => ErrorView::InvalidDigest(text@),
            Error::IOError => ErrorView::IOError,
            Error::ItemIOError { digest } => ErrorView::ItemIOError { digest: digest@ },
            Error::DigestComputationError => ErrorView::DigestComputationError,
        }
    }
}

/// The characters that name the subdirectories of a store, in order.
pub const ALPHABET: &'static str = "234567ABCDEFGHIJKLMNOPQRSTUVWXYZ";

/// The extension of the files of a store.
pub const EXTENSION: &'static str = "gz";

/// Whether `text` can begin a digest: at most 32 characters, all of the
/// digest alphabet.
pub open spec fn is_prefix_text(text: Seq<char>) -> bool {
    &&& text.len() <= 32
    &&& forall|i: int| 0 <= i < text.len() ==> is_digest_char(#[trigger] text[i])
}

/// Whether `name` names a subdirectory of a store: one character of the
/// digest alphabet.
pub open spec fn is_shard_name(name: Seq<char>) -> bool {
    name.len() == 1 && is_digest_char(name[0])
}

/// Where the capture with the digest `digest` lives, relative to the
/// store.
pub open spec fn relative_location(digest: Seq<char>) -> Seq<char> {
    digest.subrange(0, 1) + "/"@ + digest + ".gz"@
}

/// The position of the last `.` in `name`, or -1 where there is none.
pub open spec fn last_dot(name: Seq<char>) -> int
    decreases name.len(),
{
    if name.len() == 0 {
        -1
    } else if name.last() == '.' {
        name.len() - 1
    } else {
        last_dot(name.drop_last())
    }
}

/// The name of a file without its extension: what comes before the last
/// `.`, or the whole name where it has no `.` after its first character.
pub open spec fn file_stem(name: Seq<char>) -> Seq<char> {
    if last_dot(name) <= 0 {
        name
    } else {
        name.subrange(0, last_dot(name))
    }
}

/// The extension of a file's name: what comes after the last `.`, where
/// the name has a `.` after its first character.
pub open spec fn file_extension(name: Seq<char>) -> Option<Seq<char>> {
    if last_dot(name) <= 0 {
        None
    } else {
        Some(name.skip(last_dot(name) + 1))
    }
}

/// The position after the last `/` in `path`, or 0 where there is none.
pub open spec fn name_start(path: Seq<char>) -> int
    decreases path.len(),
{
    if path.len() == 0 {
        0
    } else if path.last() == '/' {
        path.len() as int
    } else {
        name_start(path.drop_last())
    }
}

/// The name of the file that a path leads to: what follows its last `/`,
/// unless that is empty or one of the names `.` and `..`.
pub open spec fn file_name(path: Seq<char>) -> Option<Seq<char>> {
    let name = path.skip(name_start(path));
    if name.len() == 0 || name == "."@ || name == ".."@ {
        None
    } else {
        Some(name)
    }
}

/// Finds the last `.` of a name.
fn find_last_dot(name: &str) -> (at: Option<usize>)
    ensures
        match at {
            Some(i) => i == last_dot(name@),
            None => last_dot(name@) == -1,
        },
        last_dot(name@) < name@.len(),
{
    let len = name.unicode_len();
    let mut i: usize = len;
    proof {
        assert(name@.subrange(0, len as int) =~= name@);
    }
    let ghost whole = name@;
    while i > 0
        invariant
            i <= len,
            len == name@.len(),
            last_dot(name@) == last_dot(name@.subrange(0, i as int)),
        decreases i,
    {
        let ghost part = name@.subrange(0, i as int);
        if name.get_char(i - 1) == '.' {
            proof {
                assert(part.last() == name@[i - 1]);
            }
            return Some(i - 1);
        }
        proof {
            assert(part.last() == name@[i - 1]);
            assert(part.drop_last() =~= name@.subrange(0, i - 1));
        }
        i -= 1;
    }
    None
}

/// Finds where the name of the file begins in a path.
fn find_name_start(path: &str) -> (at: usize)
    ensures
        at == name_start(path@),
        at <= path@.len(),
{
    let len = path.unicode_len();
    let mut i: usize = len;
    proof {
        assert(path@.subrange(0, len as int) =~= path@);
    }
    while i > 0
        invariant
            i <= len,
            len == path@.len(),
            name_start(path@) == name_start(path@.subrange(0, i as int)),
        decreases i,
    {
        let ghost part = path@.subrange(0, i as int);
        if path.get_char(i - 1) == '/' {
            proof {
                assert(part.last() == path@[i - 1]);
            }
            return i;
        }
        proof {
            assert(part.last() == path@[i - 1]);
            assert(part.drop_last() =~= path@.subrange(0, i - 1));
        }
        i -= 1;
    }
    0
}

/// Takes the name of a file apart: what comes before its extension, and
/// the extension where it has one.
pub fn split_extension(name: &str) -> (parts: (String, Option<String>))
    ensures
        parts.0@ == file_stem(name@),
        match parts.1 {
            Some(extension) => file_extension(name@) == Some(extension@),
            None => file_extension(name@) is None,
        },
{
    let len = name.unicode_len();
    match find_last_dot(name) {
        Some(at) => {
            if at == 0 {
                (String::from_str(name), None)
            } else {
                let stem = name.substring_char(0, at);
                let extension = name.substring_char(at + 1, len);
                proof {
                    assert(extension@ =~= name@.skip(at + 1));
                }
                (String::from_str(stem), Some(String::from_str(extension)))
            }
        },
        None => (String::from_str(name), None),
    }
}

/// What kind of thing an entry of a directory is.
#[derive(Clone, Copy, Debug, PartialEq, Eq, Structural)]
pub enum EntryKind {
    File,
    Directory,
    Other,
}

/// An entry of a directory, as it was read.
#[derive(Debug, PartialEq, Eq)]
pub struct Entry {
    /// The path of the entry.
    pub path: String,
    /// The name of the entry, as the bytes the file system holds.
    pub name: Vec<u8>,
    /// What the entry is, or nothing where that could not be read.
    pub kind: Option<EntryKind>,
}

/// An entry of the directory of a store, with what was read of it as a
/// directory.
#[derive(Debug, PartialEq, Eq)]
pub struct Shard {
    pub entry: Entry,
    /// The entries of the subdirectory, each as it was read or nothing
    /// where reading it failed; nothing where the subdirectory itself
    /// could not be read.
    pub files: Option<Vec<Option<Entry>>>,
}

/// What a directory lists by a name.
pub trait Named: Sized {
    /// The name, as the bytes the file system holds.
    spec fn name_of(&self) -> Seq<u8>;

    /// Whether the name of `self` comes before that of `other`.
    fn comes_before(&self, other: &Self) -> (before: bool)
        ensures
            before == lex_lt(self.name_of(), other.name_of()),
    ;
}

impl Named for Shard {
    open spec fn name_of(&self) -> Seq<u8> {
        self.entry.name@
    }

    fn comes_before(&self, other: &Shard) -> (before: bool) {
        bytes_before(self.entry.name.as_slice(), other.entry.name.as_slice())
    }
}

/// An entry that could not be read has no name, and so comes first.
impl Named for Option<Entry> {
    open spec fn name_of(&self) -> Seq<u8> {
        match self {
            Some(entry) => entry.name@,
            None => Seq::empty(),
        }
    }

    fn comes_before(&self, other: &Option<Entry>) -> (before: bool) {
        match (self, other) {
            (Some(a), Some(b)) => bytes_before(a.name.as_slice(), b.name.as_slice()),
            (None, Some(b)) => {
                proof {
                    if b.name@.len() > 0 {
                        assert(crate::text::parts_at(Seq::<u8>::empty(), b.name@, 0));
                    } else {
                        lemma_lex_asymmetric(Seq::<u8>::empty(), b.name@);
                        assert(b.name@ =~= Seq::<u8>::empty());
                    }
                }
                b.name.len() > 0
            },
            (_, None) => {
                proof {
                    if lex_lt(self.name_of(), Seq::<u8>::empty()) {
                        let k = choose|k: int|
                            crate::text::parts_at(self.name_of(), Seq::<u8>::empty(), k);
                    }
                }
                false
            },
        }
    }
}

/// What an entry of the directory of a store comes to: the name of the
/// subdirectory it is.
pub open spec fn checked_directory(entry: Entry) -> Result<Seq<char>, ErrorView> {
    match entry.kind {
        None => Err(ErrorView::IOError),
        Some(kind) => if kind != EntryKind::Directory || !valid_utf8(entry.name@) || !is_shard_name(
            decode_utf8(entry.name@),
        ) {
            Err(ErrorView::Unexpected { path: entry.path@ })
        } else {
            Ok(decode_utf8(entry.name@))
        },
    }
}

/// What an entry of the subdirectory `first` comes to: the digest it is
/// named by, and its path.
pub open spec fn checked_file(first: Seq<char>, entry: Entry) -> Result<
    (Seq<char>, Seq<char>),
    ErrorView,
> {
    match entry.kind {
        None => Err(ErrorView::IOError),
        Some(kind) => if kind != EntryKind::File || !valid_utf8(entry.name@) || !first.is_prefix_of(
            file_stem(decode_utf8(entry.name@)),
        ) {
            Err(ErrorView::Unexpected { path: entry.path@ })
        } else {
            Ok((file_stem(decode_utf8(entry.name@)), entry.path@))
        },
    }
}

/// The view of what is found for one entry.
pub open spec fn found_view(found: Result<(String, String), Error>) -> Result<
    (Seq<char>, Seq<char>),
    ErrorView,
> {
    match found {
        Ok((digest, path)) => Ok((digest@, path@)),
        Err(error) => Err(error@),
    }
}

/// What is found, each by its view.
pub open spec fn found_views(found: Seq<Result<(String, String), Error>>) -> Seq<
    Result<(Seq<char>, Seq<char>), ErrorView>,
> {
    Seq::new(found.len(), |i: int| found_view(found[i]))
}

/// What the entries of the subdirectory `first` come to, one by one; an
/// entry that could not be read comes to an error.
pub open spec fn checked_files(first: Seq<char>, files: Seq<Option<Entry>>) -> Seq<
    Result<(Seq<char>, Seq<char>), ErrorView>,
> {
    Seq::new(
        files.len(),
        |i: int|
            match files[i] {
                Some(entry) => checked_file(first, entry),
                None => Err(ErrorView::IOError),
            },
    )
}

/// What one entry of the directory of a store comes to: the captures of
/// the subdirectory in the order of their names, or the one error that
/// keeps them from being listed.
pub open spec fn checked_shard(shard: Shard) -> Seq<Result<(Seq<char>, Seq<char>), ErrorView>> {
    match checked_directory(shard.entry) {
        Err(error) => seq![Err(error)],
        Ok(first) => match shard.files {
            None => seq![Err(ErrorView::IOError)],
            Some(files) => checked_files(first, by_name(files@)),
        },
    }
}

/// What the first `n` entries of the directory of a store come to.
pub open spec fn checked_shards(shards: Seq<Shard>, n: int) -> Seq<
    Result<(Seq<char>, Seq<char>), ErrorView>,
>
    decreases n,
{
    if n <= 0 {
        Seq::empty()
    } else {
        checked_shards(shards, n - 1) + checked_shard(shards[n - 1])
    }
}

/// Whether the entries are in the order of their names, none falling
/// below the one before it.
pub open spec fn in_name_order<T: Named>(entries: Seq<T>) -> bool {
    forall|i: int, j: int|
        0 <= i < j < entries.len() ==> !lex_lt(
            (#[trigger] entries[j]).name_of(),
            (#[trigger] entries[i]).name_of(),
        )
}

/// Whether a listing for `prefix` keeps what was found for an entry: an
/// error is kept, and a capture where its digest begins with `prefix`.
pub open spec fn keeps(one: Result<(Seq<char>, Seq<char>), ErrorView>, prefix: Seq<char>) -> bool {
    match one {
        Ok((digest, _)) => prefix.is_prefix_of(digest),
        Err(_) => true,
    }
}

/// Those of the first `n` that a listing for `prefix` keeps, in order.
pub open spec fn kept(
    found: Seq<Result<(Seq<char>, Seq<char>), ErrorView>>,
    prefix: Seq<char>,
    n: int,
) -> Seq<Result<(Seq<char>, Seq<char>), ErrorView>>
    decreases n,
{
    if n <= 0 {
        Seq::empty()
    } else if keeps(found[n - 1], prefix) {
        kept(found, prefix, n - 1).push(found[n - 1])
    } else {
        kept(found, prefix, n - 1)
    }
}

/// Where `entry` is put among entries that are in the order of their
/// names: after the last that does not come after it.
pub open spec fn place_of<T: Named>(sorted: Seq<T>, entry: T) -> int
    decreases sorted.len(),
{
    if sorted.len() == 0 {
        0
    } else if lex_lt(entry.name_of(), sorted.last().name_of()) {
        place_of(sorted.drop_last(), entry)
    } else {
        sorted.len() as int
    }
}

/// The entries in the order of their names; entries of one name keep the
/// order they came in.
pub open spec fn by_name<T: Named>(entries: Seq<T>) -> Seq<T>
    decreases entries.len(),
{
    if entries.len() == 0 {
        Seq::empty()
    } else {
        let sorted = by_name(entries.drop_last());
        sorted.insert(place_of(sorted, entries.last()), entries.last())
    }
}

/// What a listing of a whole store comes to, the subdirectories taken in
/// the order of their names.
pub open spec fn listed(listing: Option<Vec<Shard>>) -> Seq<
    Result<(Seq<char>, Seq<char>), ErrorView>,
> {
    match listing {
        None => seq![Err(ErrorView::IOError)],
        Some(shards) => checked_shards(by_name(shards@), shards@.len() as int),
    }
}

/// The position of the first of the first `n` entries that has the name
/// `name`, or -1.
pub open spec fn shard_named(shards: Seq<Shard>, name: Seq<u8>, n: int) -> int
    decreases n,
{
    if n <= 0 {
        -1
    } else if shard_named(shards, name, n - 1) >= 0 {
        shard_named(shards, name, n - 1)
    } else if shards[n - 1].entry.name@ == name {
        n - 1
    } else {
        -1
    }
}

/// What a listing for a prefix that is not empty comes to: the prefix
/// must be able to begin a digest, the subdirectory named by its first
/// character must have been read, and of its entries, taken in the order
/// of their names, the errors are kept and the captures whose digest
/// begins with the prefix.
pub open spec fn listed_for(prefix: Seq<char>, listing: Option<Vec<Shard>>) -> Seq<
    Result<(Seq<char>, Seq<char>), ErrorView>,
> {
    let first = prefix.subrange(0, 1);
    if !is_prefix_text(prefix) {
        seq![Err(ErrorView::InvalidDigest(prefix))]
    } else {
        match listing {
            None => seq![Err(ErrorView::IOError)],
            Some(shards) => {
                let at = shard_named(shards@, encode_utf8(first), shards@.len() as int);
                if at < 0 {
                    seq![Err(ErrorView::IOError)]
                } else {
                    match shards@[at].files {
                        None => seq![Err(ErrorView::IOError)],
                        Some(files) => kept(
                            checked_files(first, by_name(files@)),
                            prefix,
                            files@.len() as int,
                        ),
                    }
                }
            },
        }
    }
}

/// The entries in the order of their names are in order, and are the
/// entries that were given.
pub proof fn lemma_by_name<T: Named>(entries: Seq<T>)
    ensures
        in_name_order(by_name(entries)),
        by_name(entries).to_multiset() == entries.to_multiset(),
        by_name(entries).len() == entries.len(),
    decreases entries.len(),
{
    if entries.len() == 0 {
        assert(entries =~= Seq::<T>::empty());
    } else {
        let front = entries.drop_last();
        let last = entries.last();
        lemma_by_name(front);
        let sorted = by_name(front);
        lemma_place(sorted, last);
        let at = place_of(sorted, last);
        let placed = sorted.insert(at, last);
        assert forall|i: int, j: int| 0 <= i < j < placed.len() implies !lex_lt(
            (#[trigger] placed[j]).name_of(),
            (#[trigger] placed[i]).name_of(),
        ) by {
            let x = if i < at {
                i
            } else {
                i - 1
            };
            let y = if j < at {
                j
            } else {
                j - 1
            };
            if i != at && j != at {
                assert(placed[i] == sorted[x]);
                assert(placed[j] == sorted[y]);
            } else if i == at {
                assert(placed[j] == sorted[y]);
            } else {
                assert(placed[i] == sorted[x]);
            }
        }
        to_multiset_insert(sorted, at, last);
        assert(entries =~= front.push(last));
        to_multiset_build(front, last);
        assert(placed.to_multiset() =~= sorted.to_multiset().insert(last));
        assert(entries.to_multiset() =~= front.to_multiset().insert(last));
        assert(by_name(entries) == placed);
    }
}

/// Where an entry is put, those before it do not come after it, and those
/// from there on do.
proof fn lemma_place<T: Named>(sorted: Seq<T>, entry: T)
    requires
        in_name_order(sorted),
    ensures
        0 <= place_of(sorted, entry) <= sorted.len(),
        forall|k: int|
            0 <= k < place_of(sorted, entry) ==> !lex_lt(
                entry.name_of(),
                (#[trigger] sorted[k]).name_of(),
            ),
        forall|k: int|
            place_of(sorted, entry) <= k < sorted.len() ==> lex_lt(
                entry.name_of(),
                (#[trigger] sorted[k]).name_of(),
            ),
    decreases sorted.len(),
{
    if sorted.len() == 0 {
    } else if lex_lt(entry.name_of(), sorted.last().name_of()) {
        let front = sorted.drop_last();
        assert forall|i: int, j: int| 0 <= i < j < front.len() implies !lex_lt(
            (#[trigger] front[j]).name_of(),
            (#[trigger] front[i]).name_of(),
        ) by {
            assert(front[i] == sorted[i]);
            assert(front[j] == sorted[j]);
        }
        lemma_place(front, entry);
        assert forall|k: int| place_of(sorted, entry) <= k < sorted.len() implies lex_lt(
            entry.name_of(),
            (#[trigger] sorted[k]).name_of(),
        ) by {
            if k < front.len() {
                assert(front[k] == sorted[k]);
            }
        }
        assert forall|k: int| 0 <= k < place_of(sorted, entry) implies !lex_lt(
            entry.name_of(),
            (#[trigger] sorted[k]).name_of(),
        ) by {
            assert(front[k] == sorted[k]);
        }
    } else {
        let last = sorted.last();
        assert forall|k: int| 0 <= k < sorted.len() implies !lex_lt(
            entry.name_of(),
            (#[trigger] sorted[k]).name_of(),
        ) by {
            if k < sorted.len() - 1 && lex_lt(entry.name_of(), sorted[k].name_of()) {
                assert(!lex_lt(sorted[sorted.len() - 1].name_of(), sorted[k].name_of()));
                lemma_lex_between(entry.name_of(), sorted[k].name_of(), last.name_of());
            }
        }
    }
}

/// A content-addressable store for compressed Wayback Machine pages.
#[derive(Debug, PartialEq, Eq)]
pub struct Store {
    base: String,
}

impl Store {
    /// The directory of the store.
    pub closed spec fn base_path(&self) -> Seq<char> {
        self.base@
    }

    /// The store in the directory `path`.
    pub fn new(path: &str) -> (store: Store)
        ensures
            store.base_path() == path@,
    {
        Store { base: String::from_str(path) }
    }

    /// The directory of the store.
    pub fn base(&self) -> (path: &str)
        ensures
            path@ == self.base_path(),
    {
        self.base.as_str()
    }

    /// The store in the directory `base`, with the 32 subdirectories that
    /// are to be made for it, in the order of the alphabet.
    pub fn create(base: &str) -> (made: (Store, Vec<String>))
        ensures
            made.0.base_path() == base@,
            made.1@.len() == 32,
            forall|i: int|
                0 <= i < 32 ==> (#[trigger] made.1@[i])@ == joined_path(
                    base@,
                    ALPHABET@.subrange(i, i + 1),
                ),
            forall|i: int| 0 <= i < 32 ==> is_shard_name(#[trigger] ALPHABET@.subrange(i, i + 1)),
    {
        proof {
            reveal_strlit("234567ABCDEFGHIJKLMNOPQRSTUVWXYZ");
        }
        let mut directories: Vec<String> = Vec::new();
        let mut i: usize = 0;
        while i < 32
            invariant
                i <= 32,
                ALPHABET@.len() == 32,
                directories@.len() == i,
                forall|k: int|
                    0 <= k < i ==> (#[trigger] directories@[k])@ == joined_path(
                        base@,
                        ALPHABET@.subrange(k, k + 1),
                    ),
            decreases 32 - i,
        {
            let name = ALPHABET.substring_char(i, i + 1);
            directories.push(join_path(base, name));
            i += 1;
        }
        proof {
            assert forall|i: int| 0 <= i < 32 implies is_shard_name(
                #[trigger] ALPHABET@.subrange(i, i + 1),
            ) by {
                assert(ALPHABET@.subrange(i, i + 1)[0] == ALPHABET@[i]);
            }
        }
        (Store::new(base), directories)
    }

    /// Whether `candidate` is a digest.
    pub fn is_valid_digest(candidate: &str) -> (valid: bool)
        ensures
            valid == is_digest_text(candidate@),
    {
        is_valid_digest(candidate)
    }

    /// Whether `candidate` can begin a digest.
    pub fn is_valid_prefix(candidate: &str) -> (valid: bool)
        ensures
            valid == is_prefix_text(candidate@),
    {
        let len = candidate.unicode_len();
        if len > 32 {
            return false;
        }
        let mut i: usize = 0;
        while i < len
            invariant
                i <= len <= 32,
                len == candidate@.len(),
                forall|k: int| 0 <= k < i ==> is_digest_char(#[trigger] candidate@[k]),
            decreases len - i,
        {
            if !is_valid_char(candidate.get_char(i)) {
                return false;
            }
            i += 1;
        }
        true
    }

    /// Where the capture with the digest `digest` lives: in the
    /// subdirectory named by the first character of the digest, in a file
    /// named by the digest with the extension `gz`. Nothing for what is no
    /// digest.
    pub fn location(&self, digest: &str) -> (path: Option<String>)
        ensures
            match path {
                Some(found) => is_digest_text(digest@) && found@ == joined_path(
                    self.base_path(),
                    relative_location(digest@),
                ),
                None => !is_digest_text(digest@),
            },
    {
        if is_valid_digest(digest) {
            let first = digest.substring_char(0, 1);
            let mut relative = join3(first, "/", digest);
            relative.append(".gz");
            Some(join_path(self.base.as_str(), relative.as_str()))
        } else {
            None
        }
    }

    /// Reads an entry of the directory of a store as the subdirectory it
    /// should be.
    pub fn check_dir_entry(entry: &Entry) -> (checked: Result<String, Error>)
        ensures
            match checked {
                Ok(name) => checked_directory(*entry) == Ok::<Seq<char>, ErrorView>(name@),
                Err(error) => checked_directory(*entry) == Err::<Seq<char>, ErrorView>(error@),
            },
    {
        let kind = match entry.kind {
            Some(kind) => kind,
            None => {
                return Err(Error::IOError);
            },
        };
        if kind != EntryKind::Directory {
            return Err(Error::Unexpected { path: entry.path.clone() });
        }
        let name = match utf8_text(entry.name.as_slice()) {
            Ok(name) => name,
            Err(_) => {
                return Err(Error::Unexpected { path: entry.path.clone() });
            },
        };
        if name.unicode_len() == 1 && is_valid_char(name.get_char(0)) {
            Ok(String::from_str(name))
        } else {
            Err(Error::Unexpected { path: entry.path.clone() })
        }
    }

    /// Reads an entry of the subdirectory `first` as the capture it should
    /// be: a file whose name, without its extension, begins with the name
    /// of the subdirectory.
    pub fn check_file_entry(first: &str, entry: &Entry) -> (checked: Result<
        (String, String),
        Error,
    >)
        ensures
            found_view(checked) == checked_file(first@, *entry),
    {
        let kind = match entry.kind {
            Some(kind) => kind,
            None => {
                return Err(Error::IOError);
            },
        };
        if kind != EntryKind::File {
            return Err(Error::Unexpected { path: entry.path.clone() });
        }
        let name = match utf8_text(entry.name.as_slice()) {
            Ok(name) => name,
            Err(_) => {
                return Err(Error::Unexpected { path: entry.path.clone() });
            },
        };
        let (stem, _) = split_extension(name);
        if has_prefix(stem.as_str(), first) {
            Ok((stem, entry.path.clone()))
        } else {
            Err(Error::Unexpected { path: entry.path.clone() })
        }
    }

    /// Pairs the digest that names a capture with the digest of what the
    /// stored file holds.
    pub fn digest_pair(expected: String, stored: &[u8]) -> (pair: Result<(String, String), Error>)
        ensures
            match pair {
                Ok((named, actual)) => {
                    &&& named == expected
                    &&& gzip_payload(stored@) matches Some(payload)
                    &&& actual@ == digest_of(payload)
                },
                Err(error) => gzip_payload(stored@) is None && error@ == (ErrorView::ItemIOError {
                    digest: expected@,
                }),
            },
    {
        match compute_digest_gz(stored) {
            Ok(actual) => Ok((expected, actual)),
            Err(_) => Err(Error::ItemIOError { digest: expected }),
        }
    }

    /// The capture that a stored file holds.
    pub fn extract_bytes(stored: &[u8]) -> (content: Result<Vec<u8>, Error>)
        ensures
            match content {
                Ok(bytes) => gzip_payload(stored@) == Some(bytes@),
                Err(error) => gzip_payload(stored@) is None && error@ == ErrorView::IOError,
            },
    {
        match gunzip(stored) {
            Ok(bytes) => Ok(bytes),
            Err(_) => Err(Error::IOError),
        }
    }

    /// The capture that a stored file holds, as text.
    pub fn extract(stored: &[u8]) -> (content: Result<String, Error>)
        ensures
            match content {
                Ok(text) => {
                    &&& gzip_payload(stored@) matches Some(payload)
                    &&& valid_utf8(payload)
                    &&& text@ == decode_utf8(payload)
                },
                Err(error) => {
                    &&& error@ == ErrorView::IOError
                    &&& match gzip_payload(stored@) {
                        Some(payload) => !valid_utf8(payload),
                        None => true,
                    }
                },
            },
    {
        match gunzip(stored) {
            Ok(bytes) => match utf8_text(bytes.as_slice()) {
                Ok(text) => Ok(String::from_str(text)),
                Err(_) => Err(Error::IOError),
            },
            Err(_) => Err(Error::IOError),
        }
    }
}

/// Pushing what was found for an entry pushes its view.
proof fn lemma_push_found(
    before: Seq<Result<(String, String), Error>>,
    one: Result<(String, String), Error>,
)
    ensures
        found_views(before.push(one)) == found_views(before).push(found_view(one)),
{
    assert(found_views(before.push(one)) =~= found_views(before).push(found_view(one)));
}

/// Puts what a directory lists in the order of the names.
pub fn sort_by_name<T: Named>(entries: Vec<T>) -> (sorted: Vec<T>)
    ensures
        sorted@ == by_name(entries@),
{
    let ghost all = entries@;
    let mut rest = reversed(entries);
    let mut sorted: Vec<T> = Vec::new();
    let ghost mut done: int = 0;
    proof {
        assert(all.subrange(0, 0) =~= Seq::<T>::empty());
    }
    while rest.len() > 0
        invariant
            0 <= done <= all.len(),
            rest@.len() == all.len() - done,
            forall|k: int| 0 <= k < rest@.len() ==> rest@[k] == all[all.len() - 1 - k],
            sorted@ == by_name(all.subrange(0, done)),
        decreases rest@.len(),
    {
        let next = rest.pop();
        let entry = match next {
            Some(entry) => entry,
            None => {
                proof {
                    assert(all.subrange(0, done) =~= all);
                }
                return sorted;
            },
        };
        let mut at: usize = sorted.len();
        proof {
            assert(sorted@.subrange(0, at as int) =~= sorted@);
        }
        while at > 0 && entry.comes_before(&sorted[at - 1])
            invariant
                at <= sorted@.len(),
                place_of(sorted@, entry) == place_of(sorted@.subrange(0, at as int), entry),
            decreases at,
        {
            proof {
                let part = sorted@.subrange(0, at as int);
                assert(part.last() == sorted@[at - 1]);
                assert(part.drop_last() =~= sorted@.subrange(0, at - 1));
            }
            at -= 1;
        }
        proof {
            let part = sorted@.subrange(0, at as int);
            if at > 0 {
                assert(part.last() == sorted@[at - 1]);
            }
            assert(place_of(part, entry) == at);
            let next = all.subrange(0, done + 1);
            assert(next.drop_last() =~= all.subrange(0, done));
            assert(next.last() == entry);
            done = done + 1;
        }
        sorted.insert(at, entry);
    }
    proof {
        assert(all.subrange(0, done) =~= all);
    }
    sorted
}

/// Puts the entries of the directory of a store in the order of their
/// names.
pub fn sort_shards(shards: Vec<Shard>) -> (sorted: Vec<Shard>)
    ensures
        sorted@ == by_name(shards@),
{
    sort_by_name(shards)
}

impl Store {
    /// Lists the captures of a store from what was read of its directory:
    /// the subdirectories are taken in the order of their names, and so
    /// are the entries of each; each entry gives the digest that names it
    /// and its path, or an error. Nothing read of the directory gives one
    /// error.
    pub fn paths(&self, listing: Option<Vec<Shard>>) -> (found: Vec<
        Result<(String, String), Error>,
    >)
        ensures
            found_views(found@) == listed(listing),
    {
        let mut found: Vec<Result<(String, String), Error>> = Vec::new();
        proof {
            assert(found_views(found@) =~= Seq::empty());
        }
        let shards = match listing {
            Some(shards) => shards,
            None => {
                proof {
                    lemma_push_found(found@, Err(Error::IOError));
                }
                found.push(Err(Error::IOError));
                return found;
            },
        };
        let ghost given = shards@;
        let sorted = sort_by_name(shards);
        let ghost order = sorted@;
        let mut rest = reversed(sorted);
        let ghost mut done: int = 0;
        proof {
            lemma_by_name(given);
        }
        while rest.len() > 0
            invariant
                0 <= done <= order.len(),
                rest@.len() == order.len() - done,
                forall|k: int| 0 <= k < rest@.len() ==> rest@[k] == order[order.len() - 1 - k],
                found_views(found@) == checked_shards(order, done),
            decreases rest@.len(),
        {
            let shard = match rest.pop() {
                Some(shard) => shard,
                None => {
                    return found;
                },
            };
            proof {
                assert(shard == order[done]);
            }
            let ghost before = found_views(found@);
            match Store::check_dir_entry(&shard.entry) {
                Err(error) => {
                    proof {
                        lemma_push_found(found@, Err(error));
                        assert(before.push(Err(error@)) =~= before + seq![
                            Err::<(Seq<char>, Seq<char>), ErrorView>(error@),
                        ]);
                    }
                    found.push(Err(error));
                },
                Ok(first) => match shard.files {
                    None => {
                        proof {
                            lemma_push_found(found@, Err(Error::IOError));
                            assert(before.push(Err(ErrorView::IOError)) =~= before + seq![
                                Err::<(Seq<char>, Seq<char>), ErrorView>(ErrorView::IOError),
                            ]);
                        }
                        found.push(Err(Error::IOError));
                    },
                    Some(unsorted) => {
                        let ghost listed = unsorted@;
                        let files = sort_by_name(unsorted);
                        let ghost all = checked_files(first@, files@);
                        let mut j: usize = 0;
                        proof {
                            lemma_by_name(listed);
                            assert(before + all.subrange(0, 0) =~= before);
                        }
                        while j < files.len()
                            invariant
                                j <= files@.len(),
                                all == checked_files(first@, files@),
                                found_views(found@) == before + all.subrange(0, j as int),
                            decreases files@.len() - j,
                        {
                            let one = match &files[j] {
                                Some(entry) => Store::check_file_entry(first.as_str(), entry),
                                None => Err(Error::IOError),
                            };
                            proof {
                                lemma_push_found(found@, one);
                                assert(all[j as int] == found_view(one));
                                assert((before + all.subrange(0, j as int)).push(all[j as int])
                                    =~= before + all.subrange(0, j + 1));
                            }
                            found.push(one);
                            j += 1;
                        }
                        proof {
                            assert(all.subrange(0, files@.len() as int) =~= all);
                        }
                    },
                },
            }
            proof {
                done = done + 1;
            }
        }
        found
    }

    /// Lists the captures whose digest begins with `prefix`, from what was
    /// read of the store: for the empty prefix all of them, as
    /// [`Store::paths`] does, and else those of the one subdirectory that
    /// the prefix names. A prefix that cannot begin a digest gives one
    /// error, and so does a subdirectory that was not read.
    pub fn paths_for_prefix(&self, prefix: &str, listing: Option<Vec<Shard>>) -> (found: Vec<
        Result<(String, String), Error>,
    >)
        ensures
            found_views(found@) == (if prefix@.len() == 0 {
                listed(listing)
            } else {
                listed_for(prefix@, listing)
            }),
    {
        if prefix.unicode_len() == 0 {
            return self.paths(listing);
        }
        let mut found: Vec<Result<(String, String), Error>> = Vec::new();
        proof {
            assert(found_views(found@) =~= Seq::empty());
        }
        if !Store::is_valid_prefix(prefix) {
            let error = Error::InvalidDigest(String::from_str(prefix));
            proof {
                lemma_push_found(found@, Err(error));
            }
            found.push(Err(error));
            return found;
        }
        let first = prefix.substring_char(0, 1);
        let mut shards = match listing {
            Some(shards) => shards,
            None => {
                proof {
                    lemma_push_found(found@, Err(Error::IOError));
                }
                found.push(Err(Error::IOError));
                return found;
            },
        };
        let ghost given = shards@;
        let mut at: usize = 0;
        while at < shards.len() && !same_bytes(shards[at].entry.name.as_slice(), first.as_bytes())
            invariant
                at <= shards@.len(),
                first@ == prefix@.subrange(0, 1),
                shard_named(shards@, encode_utf8(first@), at as int) == -1,
            decreases shards@.len() - at,
        {
            at += 1;
        }
        proof {
            lemma_shard_named(shards@, encode_utf8(first@), at as int, shards@.len() as int);
        }
        if at == shards.len() {
            proof {
                lemma_push_found(found@, Err(Error::IOError));
            }
            found.push(Err(Error::IOError));
            return found;
        }
        let shard = shards.swap_remove(at);
        proof {
            assert(shard == given[at as int]);
        }
        match shard.files {
            None => {
                proof {
                    lemma_push_found(found@, Err(Error::IOError));
                }
                found.push(Err(Error::IOError));
            },
            Some(unsorted) => {
                let ghost listed = unsorted@;
                let files = sort_by_name(unsorted);
                let ghost all = checked_files(first@, files@);
                let mut j: usize = 0;
                proof {
                    lemma_by_name(listed);
                }
                while j < files.len()
                    invariant
                        j <= files@.len(),
                        all == checked_files(first@, files@),
                        found_views(found@) == kept(all, prefix@, j as int),
                    decreases files@.len() - j,
                {
                    let one = match &files[j] {
                        Some(entry) => Store::check_file_entry(first, entry),
                        None => Err(Error::IOError),
                    };
                    proof {
                        assert(all[j as int] == found_view(one));
                    }
                    let keep = match &one {
                        Ok(pair) => has_prefix(pair.0.as_str(), prefix),
                        Err(_) => true,
                    };
                    if keep {
                        proof {
                            lemma_push_found(found@, one);
                        }
                        found.push(one);
                    }
                    j += 1;
                }
            },
        }
        found
    }

    /// Reads the digest that a file waiting to be taken into a store is
    /// named by: the name of the file must be a digest with the extension
    /// `gz`.
    pub fn candidate_digest(candidate: &str) -> (digest: Result<String, Error>)
        ensures
            match digest {
                Ok(name) => {
                    &&& file_name(candidate@) matches Some(file)
                    &&& file_extension(file) == Some(EXTENSION@)
                    &&& name@ == file_stem(file)
                    &&& is_digest_text(name@)
                },
                Err(error) => match file_name(candidate@) {
                    None => error@ == ErrorView::InvalidDigest(candidate@),
                    Some(file) => match file_extension(file) {
                        None => error@ == ErrorView::InvalidDigest(candidate@),
                        Some(extension) => {
                            &&& extension != EXTENSION@ || !is_digest_text(file_stem(file))
                            &&& error@ == ErrorView::InvalidDigest(file_stem(file))
                        },
                    },
                },
            },
    {
        let start = find_name_start(candidate);
        let file = candidate.substring_char(start, candidate.unicode_len());
        proof {
            assert(file@ =~= candidate@.skip(start as int));
        }
        if file.unicode_len() == 0 || same_text(file, ".") || same_text(file, "..") {
            return Err(Error::InvalidDigest(String::from_str(candidate)));
        }
        let (stem, extension) = split_extension(file);
        match extension {
            None => Err(Error::InvalidDigest(String::from_str(candidate))),
            Some(extension) => {
                if is_valid_digest(stem.as_str()) && same_text(extension.as_str(), EXTENSION) {
                    Ok(stem)
                } else {
                    Err(Error::InvalidDigest(stem))
                }
            },
        }
    }

    /// Decides what to do with a file waiting to be taken into a store.
    /// `stored` says whether the store has a capture of the digest that
    /// the file is named by, and `content` is what the file holds, which is
    /// not looked at where `stored` holds.
    ///
    /// The result is nothing where the store has the capture. Otherwise it
    /// is the digest of the name, with the place in the store where the
    /// file belongs if what it holds has that digest, and else with the
    /// digest that it has.
    pub fn check_file_location(&self, candidate: &str, stored: bool, content: &[u8]) -> (checked:
        Result<Option<(String, Result<String, String>)>, Error>)
        ensures
            match checked {
                Ok(None) => {
                    &&& file_name(candidate@) matches Some(file)
                    &&& file_extension(file) == Some(EXTENSION@)
                    &&& is_digest_text(file_stem(file))
                    &&& stored
                },
                Ok(Some((name, place))) => {
                    &&& file_name(candidate@) matches Some(file)
                    &&& file_extension(file) == Some(EXTENSION@)
                    &&& is_digest_text(file_stem(file))
                    &&& !stored
                    &&& name@ == file_stem(file)
                    &&& gzip_payload(content@) matches Some(payload)
                    &&& match place {
                        Ok(path) => digest_of(payload) == name@ && path@ == joined_path(
                            self.base_path(),
                            relative_location(name@),
                        ),
                        Err(actual) => digest_of(payload) != name@ && actual@ == digest_of(payload),
                    }
                },
                Err(error) => match file_name(candidate@) {
                    None => error@ == ErrorView::InvalidDigest(candidate@),
                    Some(file) => match file_extension(file) {
                        None => error@ == ErrorView::InvalidDigest(candidate@),
                        Some(extension) => if extension != EXTENSION@ || !is_digest_text(
                            file_stem(file),
                        ) {
                            error@ == ErrorView::InvalidDigest(file_stem(file))
                        } else {
                            !stored && gzip_payload(content@) is None && error@
                                == ErrorView::IOError
                        },
                    },
                },
            },
    {
        let name = match Store::candidate_digest(candidate) {
            Ok(name) => name,
            Err(error) => {
                return Err(error);
            },
        };
        let location = match self.location(name.as_str()) {
            Some(location) => location,
            None => {
                return Err(Error::InvalidDigest(name));
            },
        };
        if stored {
            return Ok(None);
        }
        match compute_digest_gz(content) {
            Err(_) => Err(Error::IOError),
            Ok(digest) => {
                if same_text(digest.as_str(), name.as_str()) {
                    Ok(Some((name, Ok(location))))
                } else {
                    Ok(Some((name, Err(digest))))
                }
            },
        }
    }
}

/// Where no entry before `at` has the name and the entry at `at` has it,
/// if there is one, the first entry of that name is found there.
proof fn lemma_shard_named(shards: Seq<Shard>, name: Seq<u8>, at: int, n: int)
    requires
        0 <= at <= n <= shards.len(),
        shard_named(shards, name, at) == -1,
        at < shards.len() ==> shards[at].entry.name@ == name,
    ensures
        shard_named(shards, name, n) == (if at < n {
            at
        } else {
            -1
        }),
    decreases n - at,
{
    if at < n {
        lemma_shard_named(shards, name, at, n - 1);
    }
}

} // verus!
