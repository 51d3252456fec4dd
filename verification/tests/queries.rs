use wayback_rs::queries::{expand_queries, expand_twitter_queries};

#[test]
fn an_account_stands_for_four_queries() {
    assert_eq!(
        expand_twitter_queries("travisbrown"),
        vec![
            "https://twitter.com/travisbrown",
            "https://mobile.twitter.com/travisbrown",
            "https://twitter.com/travisbrown/*",
            "https://mobile.twitter.com/travisbrown/*",
        ]
    );
}

#[test]
fn a_list_of_queries_is_read_piece_by_piece() {
    assert_eq!(expand_queries("", false), Vec::<String>::new());
    assert_eq!(expand_queries(" , ,,", true), Vec::<String>::new());
    assert_eq!(expand_queries("a", false), vec!["a"]);
    assert_eq!(
        expand_queries(" example.com/* , b.org,c ", false),
        vec!["example.com/*", "b.org", "c"]
    );
    assert_eq!(expand_queries("a,,b,", false), vec!["a", "b"]);
}

#[test]
fn a_query_that_differs_in_case_only_is_dropped() {
    // The first spelling is the one that stays.
    assert_eq!(
        expand_queries("Alice,bob, ALICE ,Bob,alice,carol", false),
        vec!["Alice", "bob", "carol"]
    );
    assert_eq!(expand_queries("É,é,e", false), vec!["É", "e"]);
    assert_eq!(
        expand_queries("Alice, alice", true),
        vec![
            "https://twitter.com/Alice",
            "https://mobile.twitter.com/Alice",
            "https://twitter.com/Alice/*",
            "https://mobile.twitter.com/Alice/*",
        ]
    );
    assert_eq!(expand_queries("a,b", true).len(), 8);
}
