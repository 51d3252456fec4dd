//! Queries as they are given on a command line: a list separated by
//! commas, of addresses or of Twitter screen names.

use crate::text::{join2, join3, texts_of, trim, trimmed};
use crate::textset::TextSet;
use vstd::prelude::*;
use vstd::string::*;

verus! {

/// The text in lower case, as `str::to_lowercase` gives it.
pub uninterp spec fn lowercase_text(text: Seq<char>) -> Seq<char>;

/// Calls `str::to_lowercase`, whose result depends on the text alone.
#[verifier::external_body]
fn lowercase(text: &str) -> (lower: String)
    ensures
        lower@ == lowercase_text(text@),
{
    text.to_lowercase()
}

/// The four queries that cover the pages of a Twitter account: its
/// profile and everything below it, on the site and on the mobile site.
pub open spec fn twitter_queries(screen_name: Seq<char>) -> Seq<Seq<char>> {
    seq![
        "https://twitter.com/"@ + screen_name,
        "https://mobile.twitter.com/"@ + screen_name,
        "https://twitter.com/"@ + screen_name + "/*"@,
        "https://mobile.twitter.com/"@ + screen_name + "/*"@,
    ]
}

/// The queries that cover the pages of a Twitter account.
pub fn expand_twitter_queries(screen_name: &str) -> (queries: Vec<String>)
    ensures
        texts_of(queries@) == twitter_queries(screen_name@),
{
    let mut queries: Vec<String> = Vec::new();
    queries.push(join2("https://twitter.com/", screen_name));
    queries.push(join2("https://mobile.twitter.com/", screen_name));
    queries.push(join3("https://twitter.com/", screen_name, "/*"));
    queries.push(join3("https://mobile.twitter.com/", screen_name, "/*"));
    proof {
        assert(texts_of(queries@) =~= twitter_queries(screen_name@));
    }
    queries
}

/// Where the piece begins that the position `n` lies in or ends: after the
/// last comma before `n`.
pub open spec fn piece_begin(text: Seq<char>, n: int) -> int
    decreases n,
{
    if n <= 0 {
        0
    } else if text[n - 1] == ',' {
        n
    } else {
        piece_begin(text, n - 1)
    }
}

/// What a piece of the list adds to the queries so far, of which the
/// lower-case forms are kept: nothing where the piece is empty once the
/// white space around it is taken off, or where a piece with the same
/// lower-case form came before; else the piece without that white space,
/// or the queries for the account of that name.
pub open spec fn with_piece(
    so_far: (Set<Seq<char>>, Seq<Seq<char>>),
    piece: Seq<char>,
    twitter: bool,
) -> (Set<Seq<char>>, Seq<Seq<char>>) {
    let name = trimmed(piece);
    let key = lowercase_text(name);
    if name.len() > 0 && !so_far.0.contains(key) {
        (
            so_far.0.insert(key),
            so_far.1 + (if twitter {
                twitter_queries(name)
            } else {
                seq![name]
            }),
        )
    } else {
        so_far
    }
}

/// The queries of the pieces that end before the position `n`, with their
/// lower-case forms.
pub open spec fn expanded_prefix(text: Seq<char>, twitter: bool, n: int) -> (
    Set<Seq<char>>,
    Seq<Seq<char>>,
)
    decreases n,
{
    if n <= 0 {
        (Set::empty(), Seq::empty())
    } else if text[n - 1] == ',' {
        with_piece(
            expanded_prefix(text, twitter, n - 1),
            text.subrange(piece_begin(text, n - 1), n - 1),
            twitter,
        )
    } else {
        expanded_prefix(text, twitter, n - 1)
    }
}

/// The queries that a list separated by commas stands for.
pub open spec fn expanded(text: Seq<char>, twitter: bool) -> Seq<Seq<char>> {
    with_piece(
        expanded_prefix(text, twitter, text.len() as int),
        text.subrange(piece_begin(text, text.len() as int), text.len() as int),
        twitter,
    ).1
}

/// Adds what a piece of the list stands for.
fn add_piece(seen: &mut TextSet, queries: &mut Vec<String>, piece: &str, twitter: bool)
    requires
        old(seen).well_formed(),
    ensures
        final(seen).well_formed(),
        (final(seen)@, texts_of(final(queries)@)) == with_piece(
            (old(seen)@, texts_of(old(queries)@)),
            piece@,
            twitter,
        ),
{
    let name = trim(piece);
    if name.as_str().unicode_len() == 0 {
        return ;
    }
    let key = lowercase(name.as_str());
    if !seen.insert(key) {
        return ;
    }
    if twitter {
        let mut more = expand_twitter_queries(name.as_str());
        proof {
            assert(texts_of(queries@ + more@) =~= texts_of(queries@) + texts_of(more@));
        }
        queries.append(&mut more);
    } else {
        proof {
            assert(texts_of(queries@.push(name)) =~= texts_of(queries@) + seq![name@]);
        }
        queries.push(name);
    }
}

/// Reads a list of queries separated by commas. White space around a
/// query is dropped, and so are empty queries and queries that differ from
/// an earlier one in case only. With `twitter`, each is taken as the
/// screen name of an account and stands for the queries that cover the
/// account's pages.
pub fn expand_queries(query: &str, twitter: bool) -> (queries: Vec<String>)
    ensures
        texts_of(queries@) == expanded(query@, twitter),
{
    let mut seen = TextSet::new();
    let mut queries: Vec<String> = Vec::new();
    let len = query.unicode_len();
    let mut start: usize = 0;
    let mut i: usize = 0;
    proof {
        assert(texts_of(queries@) =~= Seq::<Seq<char>>::empty());
    }
    while i < len
        invariant
            start <= i <= len,
            len == query@.len(),
            start == piece_begin(query@, i as int),
            seen.well_formed(),
            (seen@, texts_of(queries@)) == expanded_prefix(query@, twitter, i as int),
        decreases len - i,
    {
        if query.get_char(i) == ',' {
            add_piece(&mut seen, &mut queries, query.substring_char(start, i), twitter);
            start = i + 1;
        }
        i += 1;
    }
    add_piece(&mut seen, &mut queries, query.substring_char(start, len), twitter);
    queries
}

} // verus!
