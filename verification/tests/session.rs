use wayback_rs::cdx;
use wayback_rs::digest::{compute_digest, compute_digest_gz};
use wayback_rs::downloader::{self, RedirectResolution};
use wayback_rs::exchange::Failure;
use wayback_rs::item::Item;
use wayback_rs::records::{read_csv, read_records, write_csv, write_rows};
use wayback_rs::session::{
    commit_download, commit_redirect, download_logs, first_failure, gather, keep_redirect,
    known_digests,
    make_plan,
    partition_redirects, redirect_logs, redirect_lookup, select, settle_download,
    settle_redirect, sort_texts, write_lines, CdxResults, Commit, DownloadReport, Error,
    FileWrite, Session,
};
use wayback_rs::store::data::Store;
use wayback_rs::text::reversed;
use wayback_rs::textset::TextSet;
use wayback_rs::util::{parse_timestamp, Timestamp};

const D1: &str = "AAAAAAAAAAAAAAAAAAAAAAAAAAAAAAAA";
const D2: &str = "BAAAAAAAAAAAAAAAAAAAAAAAAAAAAAAB";
const D3: &str = "77777777777777777777777777777777";

fn capture(url: &str, time: &str, digest: &str, status: Option<u16>) -> Item {
    Item::new(
        url.to_string(),
        parse_timestamp(time).unwrap(),
        digest.to_string(),
        "text/html".to_string(),
        10,
        status,
    )
}

fn texts(texts: &[&str]) -> Vec<String> {
    texts.iter().map(|text| text.to_string()).collect()
}

fn set(texts: &[&str]) -> TextSet {
    let mut set = TextSet::new();
    for text in texts {
        set.insert(text.to_string());
    }
    set
}

fn failure() -> Failure {
    Failure {
        timeout: false,
        connect: false,
    }
}

#[test]
fn a_session_knows_where_it_works() {
    let session = Session::new("work", Some("known.txt"), 6);
    assert_eq!(session.base(), "work");
    assert_eq!(session.known_digests(), Some("known.txt"));
    assert_eq!(session.parallelism(), 6);
    assert_eq!(session.index_client(), &cdx::IndexClient::default());
    assert_eq!(session.client(), &downloader::Downloader::default());

    let now = Timestamp::new(2024, 2, 29, 13, 5, 9).unwrap();
    let session = Session::new_timestamped(&now, None, 2);
    assert_eq!(session.base(), "20240229130509");
    assert_eq!(session.known_digests(), None);
    assert_eq!(session.parallelism(), 2);
}

#[test]
fn lines_are_written_one_to_a_line() {
    assert_eq!(write_lines(&texts(&[])), "\n");
    assert_eq!(write_lines(&texts(&["a"])), "a\n");
    assert_eq!(write_lines(&texts(&["a", "b c", ""])), "a\nb c\n\n");
    let session = Session::new("work", None, 6);
    assert_eq!(
        session.queries_file(&texts(&["https://twitter.com/x", "https://twitter.com/x/*"])),
        FileWrite {
            path: "queries.txt".to_string(),
            content: b"https://twitter.com/x\nhttps://twitter.com/x/*\n".to_vec()
        }
    );
}

#[test]
fn texts_are_sorted_as_strings_are() {
    let given = texts(&["b", "a", "", "é", "ab", "a", "B", "b"]);
    let mut expected = given.clone();
    expected.sort();
    assert_eq!(sort_texts(given), expected);
    assert_eq!(sort_texts(vec![]), Vec::<String>::new());
    assert_eq!(reversed(vec![1, 2, 3]), vec![3, 2, 1]);
    assert_eq!(reversed(Vec::<u8>::new()), Vec::<u8>::new());
}

#[test]
fn gather_keeps_items_and_refused_queries_apart() {
    let a = capture("a", "20200101000000", D1, Some(200));
    let b = capture("b", "20200101000000", D2, Some(302));
    assert_eq!(gather(vec![]), Ok((vec![], vec![])));
    assert_eq!(
        gather(vec![
            Ok(vec![b.clone()]),
            Err(cdx::Error::BlockedQuery("q2".to_string())),
            Ok(vec![]),
            Ok(vec![a.clone(), b.clone()]),
            Err(cdx::Error::BlockedQuery("q1".to_string())),
        ]),
        Ok((vec![b.clone(), a.clone(), b.clone()], texts(&["q2", "q1"])))
    );
    // Any other failure ends the phase: the first in the order of the answers.
    assert_eq!(
        gather(vec![
            Ok(vec![a]),
            Err(cdx::Error::BlockedQuery("q".to_string())),
            Err(cdx::Error::JsonError("first".to_string())),
            Err(cdx::Error::HttpClientError(failure())),
        ]),
        Err(Error::IndexClientError(cdx::Error::JsonError(
            "first".to_string()
        )))
    );
}

#[test]
fn the_first_failure_that_is_no_refusal_ends_the_first_phase() {
    let a = capture("a", "20200101000000", D1, Some(200));
    assert_eq!(first_failure(&vec![]), None);
    assert_eq!(
        first_failure(&vec![
            Ok(vec![a.clone()]),
            Err(cdx::Error::BlockedQuery("q".to_string())),
            Ok(vec![]),
        ]),
        None
    );
    let answers = vec![
        Ok(vec![a]),
        Err(cdx::Error::BlockedQuery("q".to_string())),
        Err(cdx::Error::JsonError("first".to_string())),
        Err(cdx::Error::HttpClientError(failure())),
    ];
    assert_eq!(first_failure(&answers), Some(2));
    assert_eq!(
        gather(answers),
        Err(Error::IndexClientError(cdx::Error::JsonError(
            "first".to_string()
        )))
    );
}

#[test]
fn the_first_phase_files_originals_and_redirects_in_order() {
    let session = Session::new("work", None, 6);
    let a = capture("a", "20200101000000", D1, Some(200));
    let b = capture("b", "20200101000000", D2, Some(302));
    let c = capture("c", "20200101000000", D3, None);
    let saved = session
        .save_cdx_results(vec![
            Ok(vec![c.clone(), b.clone()]),
            Err(cdx::Error::BlockedQuery("z".to_string())),
            Ok(vec![b.clone(), a.clone()]),
            Err(cdx::Error::BlockedQuery("y".to_string())),
        ])
        .unwrap();
    assert_eq!(
        saved,
        CdxResults {
            items: vec![a.clone(), b.clone(), c.clone()],
            files: vec![
                FileWrite {
                    path: "blocked.txt".to_string(),
                    content: b"y\nz\n".to_vec()
                },
                FileWrite {
                    path: "originals.csv".to_string(),
                    content: format!(
                        "a,20200101000000,{},text/html,10,200\nc,20200101000000,{},text/html,10,-\n",
                        D1, D3
                    )
                    .into_bytes()
                },
                FileWrite {
                    path: "redirects.csv".to_string(),
                    content: format!("b,20200101000000,{},text/html,10,302\n", D2).into_bytes()
                },
            ]
        }
    );
    // Without refused queries no file lists them, and empty files are files too.
    assert_eq!(
        session.save_cdx_results(vec![]).unwrap().files,
        vec![
            FileWrite {
                path: "originals.csv".to_string(),
                content: vec![]
            },
            FileWrite {
                path: "redirects.csv".to_string(),
                content: vec![]
            },
        ]
    );
    assert_eq!(
        session.save_cdx_results(vec![
            Ok(vec![a]),
            Err(cdx::Error::HttpClientError(failure()))
        ]),
        Err(Error::IndexClientError(cdx::Error::HttpClientError(
            failure()
        )))
    );
}

#[test]
fn partition_redirects_goes_by_the_status() {
    let items = vec![
        capture("a", "20200101000000", D1, Some(200)),
        capture("b", "20200101000000", D1, Some(302)),
        capture("c", "20200101000000", D1, None),
        capture("d", "20200101000000", D1, Some(301)),
        capture("e", "20200101000000", D1, Some(302)),
    ];
    let (redirects, originals) = partition_redirects(&items);
    assert_eq!(redirects, vec![items[1].clone(), items[4].clone()]);
    assert_eq!(
        originals,
        vec![items[0].clone(), items[2].clone(), items[3].clone()]
    );
}

#[test]
fn known_digests_are_read_line_by_line() {
    let read = |content: &[u8]| {
        let set = known_digests(content).unwrap();
        let mut found = vec![];
        for candidate in ["", "A", "B", "C", "A B", "é"] {
            if set.contains(candidate) {
                found.push(candidate);
            }
        }
        (set.len(), found)
    };
    assert_eq!(read(b""), (0, vec![]));
    assert_eq!(read(b"A"), (1, vec!["A"]));
    assert_eq!(read(b"A\n"), (1, vec!["A"]));
    assert_eq!(read(b"A\nB"), (2, vec!["A", "B"]));
    assert_eq!(read(b"A\nB\n"), (2, vec!["A", "B"]));
    assert_eq!(read(b"  A \r\n\tB\r\nA\n"), (2, vec!["A", "B"]));
    assert_eq!(read(b"A B\n"), (1, vec!["A B"]));
    assert_eq!(read(b"\n"), (1, vec![""]));
    assert_eq!(read(b"A\n\n \nB"), (3, vec!["", "A", "B"]));
    assert_eq!(read("é\n".as_bytes()), (1, vec!["é"]));
    assert!(known_digests(b"A\n\xff\nB\n").is_none());
    assert!(known_digests(b"A\n\xff").is_none());
}

#[test]
fn select_takes_the_first_of_each_digest_that_is_not_known() {
    let items = vec![
        capture("a", "20200101000000", D1, Some(200)),
        capture("b", "20200101000000", D2, Some(200)),
        capture("c", "20200101000000", D1, Some(200)),
        capture("d", "20200101000000", D3, Some(200)),
        capture("e", "20200101000000", D2, Some(200)),
        capture("f", "20200101000000", "-", Some(200)),
    ];
    assert_eq!(
        select(&items, &set(&[])),
        vec![
            items[0].clone(),
            items[1].clone(),
            items[3].clone(),
            items[5].clone()
        ]
    );
    assert_eq!(
        select(&items, &set(&[D1, "-"])),
        vec![items[1].clone(), items[3].clone()]
    );
    assert_eq!(select(&items, &set(&[D1, D2, D3, "-"])), vec![]);
    assert_eq!(select(&vec![], &set(&[D1])), vec![]);
}

#[test]
fn known_digests_skip() {
    let session = Session::new("work", Some("known.txt"), 6);
    let originals = format!("https://a/,20200101000000,{},text/html,10,200\n", D1);
    let known = format!("{}\n", D1);
    let plan = session
        .download_items(originals.as_bytes(), b"", Some(known.as_bytes()))
        .unwrap();
    assert_eq!(plan.total, 1);
    assert_eq!(plan.selected, vec![]);
    // Nothing is fetched, so nothing is written under `data`.
    let report = download_logs(plan.total, &vec![]).unwrap();
    assert_eq!(
        (report.success, report.invalid, report.skipped, report.error),
        (0, 0, 1, 0)
    );
}

#[test]
fn the_third_phase_plans_what_to_download() {
    let session = Session::new("work", None, 6);
    let a = capture("a", "20200101000000", D1, Some(200));
    let b = capture("b", "20200101000000", D2, Some(200));
    let c = capture("c", "20200101000000", D1, Some(200));
    let originals = write_csv(&vec![c.clone(), a.clone()]).unwrap();
    let extras = write_csv(&vec![b.clone(), a.clone()]).unwrap();

    let plan = session.download_items(&originals, &extras, None).unwrap();
    assert_eq!(plan.total, 4);
    assert_eq!(plan.candidates, vec![a.clone(), b.clone(), c.clone()]);
    assert_eq!(plan.selected, vec![a.clone(), b.clone()]);

    let plan = session
        .download_items(&originals, &extras, Some(format!(" {} \n", D2).as_bytes()))
        .unwrap();
    assert_eq!(plan.selected, vec![a.clone()]);

    // The failures, in the order in which the files are read.
    assert_eq!(
        session.download_items(b"a,b\n", b"\xff", Some(b"\xff")),
        Err(Error::ItemError(wayback_rs::item::Error::MissingDigest))
    );
    assert!(matches!(
        session.download_items(&originals, b"\xff,1\n", Some(b"\xff")),
        Err(Error::CsvError(_))
    ));
    assert_eq!(
        session.download_items(&originals, &extras, Some(b"\xff")),
        Err(Error::IOError)
    );

    let plan = session.resolve_redirects(&extras, None).unwrap();
    assert_eq!(plan.total, 2);
    assert_eq!(plan.selected, vec![a.clone(), b.clone()]);
    assert_eq!(make_plan(&vec![], None).unwrap().total, 0);
}

#[test]
fn a_capture_is_filed_by_the_digest_it_has() {
    let content = b"a capture".to_vec();
    let digest = compute_digest(&content);
    let listed = capture("https://a/", "20200101000000", &digest, Some(200));

    let commit = settle_download(listed.clone(), Ok(content.clone())).unwrap();
    assert_eq!(commit.item, listed);
    assert_eq!(commit.mismatch, None);
    assert_eq!(commit.file.path, format!("data/{}.gz", digest));
    // What is filed has, read through the compression, the digest of its name.
    assert_eq!(compute_digest_gz(&commit.file.content), Ok(digest.clone()));
    assert_eq!(Store::extract_bytes(&commit.file.content), Ok(content.clone()));

    let other = capture("https://a/", "20200101000000", D1, Some(200));
    let commit = settle_download(other.clone(), Ok(content.clone())).unwrap();
    assert_eq!(commit.item, other);
    assert_eq!(commit.mismatch, Some((D1.to_string(), digest.clone())));
    assert_eq!(commit.file.path, format!("invalid/{}.gz", digest));
    assert_eq!(compute_digest_gz(&commit.file.content), Ok(digest.clone()));

    assert_eq!(
        settle_download(
            listed.clone(),
            Err(downloader::Error::UnexpectedStatus(404))
        ),
        Err(listed.clone())
    );
    // A digest that cannot be recorded as the name in the stream.
    let odd = capture("https://a/", "20200101000000", "A\0B", Some(200));
    assert_eq!(settle_download(odd.clone(), Ok(content.clone())), Err(odd));

    assert_eq!(
        commit_download(listed.clone(), &content, Ok(vec![1, 2, 3])),
        Ok(Commit {
            item: listed.clone(),
            file: FileWrite {
                path: format!("data/{}.gz", digest),
                content: vec![1, 2, 3]
            },
            mismatch: None
        })
    );
    assert_eq!(
        commit_download(listed.clone(), &content, Err(wayback_rs::digest::Error::Io)),
        Err(listed)
    );
}

#[test]
fn the_same_capture_is_filed_in_the_same_place_again() {
    let content = b"a capture".to_vec();
    for digest in [compute_digest(&content), D1.to_string(), "-".to_string()] {
        let listed = capture("https://a/", "20200101000000", &digest, Some(200));
        let first = settle_download(listed.clone(), Ok(content.clone())).unwrap();
        let second = settle_download(listed, Ok(content.clone())).unwrap();
        assert_eq!(first.file.path, second.file.path);
        assert_eq!(first.mismatch, second.mismatch);
        assert_eq!(first, second);
    }
}

#[test]
fn the_name_in_the_stream_is_that_of_the_item() {
    let content = b"{}".to_vec();
    let digest = compute_digest(&content);
    let mut listed = capture("https://a/", "20200101000000", &digest, Some(200));
    listed.mime_type = "application/json".to_string();
    let commit = settle_download(listed, Ok(content)).unwrap();
    let name = format!("{}.json", digest);
    let stream = commit.file.content;
    // A gzip header with a name: the flag is set and the name follows the ten fixed bytes.
    assert_eq!(&stream[..4], &[0x1f, 0x8b, 0x08, 0x08]);
    assert_eq!(&stream[10..10 + name.len()], name.as_bytes());
    assert_eq!(stream[10 + name.len()], 0);
}

fn resolution(valid_digest: bool) -> RedirectResolution {
    RedirectResolution {
        url: "https://example.com/final".to_string(),
        timestamp: "20200303000000".to_string(),
        content: b"the page".to_vec(),
        valid_initial_content: false,
        valid_digest,
    }
}

#[test]
fn a_resolved_redirect_is_followed_by_a_query() {
    assert_eq!(
        redirect_lookup(&Ok(resolution(true))),
        Some((
            "https://example.com/final".to_string(),
            "20200303000000".to_string()
        ))
    );
    assert_eq!(redirect_lookup(&Ok(resolution(false))), None);
    assert_eq!(redirect_lookup(&Err(downloader::Error::Io)), None);
}

#[test]
fn the_page_of_a_redirect_is_kept_before_the_index_is_asked() {
    let redirect = capture("https://a/", "20200101000000", D1, Some(302));
    let file = keep_redirect(&redirect, &Ok(resolution(true))).unwrap();
    assert_eq!(file.path, format!("data/{}.gz", D1));
    assert_eq!(Store::extract_bytes(&file.content), Ok(b"the page".to_vec()));
    let name = format!("{}.html", D1);
    assert_eq!(&file.content[10..10 + name.len()], name.as_bytes());

    assert_eq!(keep_redirect(&redirect, &Ok(resolution(false))), None);
    assert_eq!(keep_redirect(&redirect, &Err(downloader::Error::Io)), None);
    let odd = capture("https://a/", "20200101000000", "A\0B", Some(302));
    assert_eq!(keep_redirect(&odd, &Ok(resolution(true))), None);

    assert_eq!(
        commit_redirect(&redirect, &resolution(true), Ok(vec![9])),
        Some(FileWrite {
            path: format!("data/{}.gz", D1),
            content: vec![9]
        })
    );
    assert_eq!(
        commit_redirect(&redirect, &resolution(false), Ok(vec![9])),
        None
    );
    assert_eq!(
        commit_redirect(
            &redirect,
            &resolution(true),
            Err(wayback_rs::digest::Error::InvalidName)
        ),
        None
    );
}

#[test]
fn a_redirect_is_settled_by_what_it_leads_to() {
    let redirect = capture("https://a/", "20200101000000", D1, Some(302));
    let first = capture("https://example.com/final", "20200303000000", D2, Some(200));
    let last = capture("https://example.com/final", "20200303000000", D3, Some(200));

    assert_eq!(
        settle_redirect(
            redirect.clone(),
            true,
            Some(Ok(vec![first.clone(), last.clone()]))
        ),
        Ok(last)
    );
    for (kept, lookup) in [
        (false, Some(Ok(vec![first.clone()]))),
        (true, None),
        (true, Some(Ok(vec![]))),
        (
            true,
            Some(Err(cdx::Error::BlockedQuery("q".to_string()))),
        ),
    ] {
        assert_eq!(
            settle_redirect(redirect.clone(), kept, lookup),
            Err(redirect.clone())
        );
    }
}

#[test]
fn the_second_phase_files_what_redirects_lead_to() {
    let a = capture("a", "20200101000000", D1, Some(302));
    let b = capture("b", "20200101000000", D2, Some(200));
    let c = capture("c", "20200101000000", D3, Some(302));
    assert_eq!(
        redirect_logs(&vec![Err(a.clone()), Ok(b.clone()), Err(c.clone())]),
        Ok(vec![
            FileWrite {
                path: "errors/redirects.csv".to_string(),
                content: write_csv(&vec![a, c]).unwrap()
            },
            FileWrite {
                path: "extras.csv".to_string(),
                content: write_csv(&vec![b]).unwrap()
            },
        ])
    );
    assert_eq!(
        redirect_logs(&vec![]),
        Ok(vec![
            FileWrite {
                path: "errors/redirects.csv".to_string(),
                content: vec![]
            },
            FileWrite {
                path: "extras.csv".to_string(),
                content: vec![]
            },
        ])
    );
}

#[test]
fn every_item_is_counted_once() {
    let a = capture("a", "20200101000000", D1, Some(200));
    let b = capture("b", "20200101000000", D2, Some(200));
    let outcomes = vec![
        Ok(None),
        Err(a.clone()),
        Ok(Some((D1.to_string(), D2.to_string()))),
        Ok(None),
        Ok(None),
        Err(b.clone()),
        Ok(Some((D3.to_string(), D1.to_string()))),
    ];
    for total in [7, 8, 100] {
        let report = download_logs(total, &outcomes).unwrap();
        assert_eq!(report.success, 3);
        assert_eq!(report.invalid, 2);
        assert_eq!(report.error, 2);
        assert_eq!(report.skipped, total - 7);
        assert_eq!(
            report.success + report.invalid + report.skipped + report.error,
            total
        );
        assert_eq!(
            report.files,
            vec![
                FileWrite {
                    path: "errors/items.csv".to_string(),
                    content: write_csv(&vec![a.clone(), b.clone()]).unwrap()
                },
                FileWrite {
                    path: "errors/invalid.csv".to_string(),
                    content: format!("{},{}\n{},{}\n", D1, D2, D3, D1).into_bytes()
                },
            ]
        );
    }
    assert_eq!(
        download_logs(0, &vec![]),
        Ok(DownloadReport {
            files: vec![
                FileWrite {
                    path: "errors/items.csv".to_string(),
                    content: vec![]
                },
                FileWrite {
                    path: "errors/invalid.csv".to_string(),
                    content: vec![]
                },
            ],
            success: 0,
            invalid: 0,
            skipped: 0,
            error: 0
        })
    );
}

#[test]
fn records_are_read_as_they_were_written() {
    let items = vec![
        capture("https://a/?x=1,2", "20200101000000", D1, Some(200)),
        capture("say \"hi\"", "20200101000000", "-", None),
        capture("", "20200101000000", "", Some(0)),
        capture("日本\n語", "20200101000000", D2, Some(65535)),
    ];
    let content = write_csv(&items).unwrap();
    assert_eq!(read_csv(&content), Ok(items));
    assert_eq!(read_csv(b""), Ok(vec![]));
    assert_eq!(
        write_csv(&vec![capture("u", "20200101000000", "D", None)]),
        Ok(b"u,20200101000000,D,text/html,10,-\n".to_vec())
    );
    assert_eq!(
        write_rows(&vec![texts(&["a,b", "c"]), texts(&["d\"", ""])]),
        Ok(b"\"a,b\",c\n\"d\"\"\",\n".to_vec())
    );
    assert_eq!(write_rows(&vec![]), Ok(vec![]));
}

#[test]
fn reading_records_stops_at_the_first_that_is_no_item() {
    let good = "u,20200101000000,D,text/html,10,-\n";
    assert_eq!(
        read_csv(format!("{}u,2020,D,m,1,-\n\u{0}", good).as_bytes()),
        Err(wayback_rs::records::Error::ItemError(
            wayback_rs::item::Error::InvalidTimestamp {
                value: "2020".to_string()
            }
        ))
    );
    assert_eq!(
        read_csv(b"u,20200101000000,D,text/html,10\n"),
        Err(wayback_rs::records::Error::ItemError(
            wayback_rs::item::Error::MissingStatus
        ))
    );
    // A record of another length than the first cannot be read.
    assert!(matches!(
        read_csv(format!("{}a,b\n", good).as_bytes()),
        Err(wayback_rs::records::Error::CsvError(_))
    ));
    // Nor can a record that is not text.
    assert!(matches!(
        read_csv(b"\xff,20200101000000,D,text/html,10,-\n"),
        Err(wayback_rs::records::Error::CsvError(_))
    ));
    // The first failure counts, of whichever kind.
    assert_eq!(
        read_records(vec![
            Ok(texts(&["u", "20200101000000", "D", "m", "1", "-"])),
            Ok(texts(&["u"])),
            Err("unreadable".to_string()),
        ]),
        Err(wayback_rs::records::Error::ItemError(
            wayback_rs::item::Error::MissingTimestamp
        ))
    );
    assert_eq!(
        read_records(vec![
            Err("unreadable".to_string()),
            Ok(texts(&["u"])),
        ]),
        Err(wayback_rs::records::Error::CsvError(
            "unreadable".to_string()
        ))
    );
    assert_eq!(
        read_records(vec![
            Ok(texts(&["u", "20200101000000", "D", "m", "1", "-", "more"])),
        ])
        .unwrap()
        .len(),
        1
    );
}

#[test]
fn a_set_is_made_of_a_list_in_one_go() {
    let given = texts(&["b", "a", "", "é", "ab", "a", "B", "b", "a"]);
    let set = TextSet::from_texts(&given);
    assert_eq!(set.len(), 6);
    let mut expected = given.clone();
    expected.sort();
    expected.dedup();
    for (at, text) in expected.iter().enumerate() {
        assert!(set.contains(text));
        assert_eq!(set.index_of(text), Some(at));
    }
    for text in ["c", "A", "aa", "e"] {
        assert!(!set.contains(text));
        assert_eq!(set.index_of(text), None);
    }
    assert_eq!(TextSet::from_texts(&vec![]).len(), 0);
    assert_eq!(
        wayback_rs::textset::merge_texts(&texts(&["a", "c", "d"]), &texts(&["b", "c", "e"])),
        texts(&["a", "b", "c", "d", "e"])
    );
}

#[test]
fn selection_scales_to_many_items() {
    // Each digest twice, in an order that interleaves them.
    let mut items = vec![];
    for round in 0..2 {
        for k in 0..2000u32 {
            let digest = format!("{:032}", (k * 7919) % 2000).replace('0', "A").replace('1', "B");
            items.push(capture(
                &format!("https://example.com/{}/{}", round, k),
                "20200101000000",
                &digest,
                Some(200),
            ));
        }
    }
    let known = known_digests(b"AAAAAAAAAAAAAAAAAAAAAAAAAAAAAAAA
").unwrap();
    let selected = select(&items, &known);
    assert_eq!(selected.len(), 1999);
    let mut seen = std::collections::HashSet::new();
    let mut expected = vec![];
    for one in &items {
        if seen.insert(one.digest.clone()) && one.digest != "AAAAAAAAAAAAAAAAAAAAAAAAAAAAAAAA" {
            expected.push(one.clone());
        }
    }
    assert_eq!(selected, expected);
}

#[test]
fn a_set_of_texts_holds_each_text_once() {
    let mut set = TextSet::new();
    assert_eq!(set.len(), 0);
    assert!(!set.contains(""));
    for (text, new) in [
        ("b", true),
        ("a", true),
        ("c", true),
        ("b", false),
        ("", true),
        ("é", true),
        ("ab", true),
        ("a", false),
    ] {
        assert_eq!(set.insert(text.to_string()), new, "{:?}", text);
    }
    assert_eq!(set.len(), 6);
    for text in ["", "a", "ab", "b", "c", "é"] {
        assert!(set.contains(text));
    }
    for text in ["A", "aa", "d", "e"] {
        assert!(!set.contains(text));
        assert!(!set.remove(text));
    }
    assert!(set.remove("b"));
    assert!(!set.remove("b"));
    assert!(!set.contains("b"));
    assert!(set.contains("a") && set.contains("c"));
    assert_eq!(set.len(), 5);
    assert!(set.insert("b".to_string()));
    assert_eq!(set.len(), 6);
}
