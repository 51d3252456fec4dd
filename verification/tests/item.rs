use std::str::FromStr;
use wayback_rs::item::{merge_unique, sorted_unique, Error, Item, UrlInfo};
use wayback_rs::text::Order;
use wayback_rs::util::{parse_timestamp, Timestamp};

fn moment(text: &str) -> Timestamp {
    parse_timestamp(text).unwrap()
}

fn example_item() -> Item {
    Item::new(
        "https://twitter.com/travisbrown/status/1323554460765925376".to_string(),
        moment("20201103091610"),
        "BHEPEG22C5COEOQD46QEFH4XK5SLN32A".to_string(),
        "text/html".to_string(),
        2948,
        Some(200),
    )
}

fn item(url: &str, time: &str, digest: &str, mime: &str, length: u32, status: Option<u16>) -> Item {
    Item::new(
        url.to_string(),
        moment(time),
        digest.to_string(),
        mime.to_string(),
        length,
        status,
    )
}

#[test]
fn archive_url_parse() {
    let info = UrlInfo::parse(
        "http://web.archive.org/web/20201103091610id_/https://twitter.com/travisbrown/status/1323554460765925376",
    )
    .unwrap();
    assert_eq!(
        info.url,
        "https://twitter.com/travisbrown/status/1323554460765925376"
    );
    assert_eq!(info.timestamp, "20201103091610");
}

#[test]
fn archive_url_parse_takes_both_schemes_and_both_forms() {
    for (text, url) in [
        ("http://web.archive.org/web/20201103091610/x", "x"),
        ("https://web.archive.org/web/20201103091610/x", "x"),
        ("https://web.archive.org/web/20201103091610id_/x", "x"),
        (
            "https://web.archive.org/web/20201103091610id_/http://a/b?c=d#e",
            "http://a/b?c=d#e",
        ),
        ("https://web.archive.org/web/20201103091610//", "/"),
        ("https://web.archive.org/web/20201103091610/id_/", "id_/"),
        ("https://web.archive.org/web/20201103091610/日本", "日本"),
    ] {
        let info = text.parse::<UrlInfo>().unwrap();
        assert_eq!(info, UrlInfo::new(url.to_string(), "20201103091610".to_string()));
        assert_eq!(UrlInfo::from_str(text), UrlInfo::parse(text));
    }
}

#[test]
fn archive_url_parse_rejects_other_text() {
    for text in [
        "",
        "https://web.archive.org/web/",
        "https://web.archive.org/web/20201103091610",
        "https://web.archive.org/web/20201103091610/",
        "https://web.archive.org/web/20201103091610id_/",
        "https://web.archive.org/web/20201103091610id_",
        "https://web.archive.org/web/20201103091610if_/x",
        "https://web.archive.org/web/2020110309161/x",
        "https://web.archive.org/web/202011030916100/x",
        "https://web.archive.org/web/2020110309161a/x",
        "https://web.archive.org/web/20201103091610/x\ny",
        "https://web.archive.org/web/20201103091610/\n",
        "ftp://web.archive.org/web/20201103091610/x",
        "https://web.archive.org/20201103091610/x",
        "https://example.com/web/20201103091610/x",
        " https://web.archive.org/web/20201103091610/x",
        "HTTPS://web.archive.org/web/20201103091610/x",
    ] {
        assert_eq!(
            UrlInfo::parse(text),
            Err(Error::InvalidWaybackUrl {
                value: text.to_string()
            }),
            "{:?}",
            text
        );
    }
}

#[test]
fn wayback_url_names_the_capture() {
    let example = example_item();
    assert_eq!(
        example.wayback_url(true),
        "http://web.archive.org/web/20201103091610id_/https://twitter.com/travisbrown/status/1323554460765925376"
    );
    assert_eq!(
        example.wayback_url(false),
        "http://web.archive.org/web/20201103091610if_/https://twitter.com/travisbrown/status/1323554460765925376"
    );
    let info = UrlInfo::parse(&example.wayback_url(true)).unwrap();
    assert_eq!(info.url, example.url);
    assert_eq!(info.timestamp, example.timestamp());
}

#[test]
fn timestamp_and_status_are_written_as_in_records() {
    let example = example_item();
    assert_eq!(example.timestamp(), "20201103091610");
    assert_eq!(example.status_code(), "200");
    assert_eq!(
        item("u", "20201103091610", "-", "m", 0, None).status_code(),
        "-"
    );
    assert_eq!(
        item("u", "20201103091610", "-", "m", 0, Some(0)).status_code(),
        "0"
    );
    assert_eq!(
        item("u", "20201103091610", "-", "m", 0, Some(65535)).status_code(),
        "65535"
    );
}

#[test]
fn make_filename_adds_the_extension_of_the_content() {
    assert_eq!(
        example_item().make_filename(),
        "BHEPEG22C5COEOQD46QEFH4XK5SLN32A.html"
    );
    assert_eq!(
        item("u", "20201103091610", "D", "application/json", 1, None).make_filename(),
        "D.json"
    );
    assert_eq!(
        item("u", "20201103091610", "D", "image/png", 1, None).make_filename(),
        "D"
    );
    assert_eq!(
        item("u", "20201103091610", "D", "text/html; charset=utf-8", 1, None).make_filename(),
        "D"
    );
    assert_eq!(
        item("u", "20201103091610", "D", "", 1, None).make_filename(),
        "D"
    );
}

#[test]
fn an_item_is_well_formed_with_a_moment_and_a_digest() {
    assert!(example_item().is_well_formed());
    assert!(item("u", "20201103091610", "-", "m", 0, None).is_well_formed());
    assert!(!item("u", "20201103091610", "", "m", 0, None).is_well_formed());
    assert!(!item("u", "20201103091610", "--", "m", 0, None).is_well_formed());
    assert!(!example_item().with_digest("bhepeg22c5coeoqd46qefh4xk5sln32a").is_well_formed());
    let mut odd = example_item();
    odd.archived_at.month = 13;
    assert!(!odd.is_well_formed());
    let mut leap = example_item();
    leap.archived_at.month = 2;
    leap.archived_at.day = 30;
    assert!(!leap.is_well_formed());
}

#[test]
fn with_digest_changes_the_digest_only() {
    let changed = example_item().with_digest("3I42H3S6NNFQ2MSVX7XZKYAYSCX5QBYJ");
    let mut expected = example_item();
    expected.digest = "3I42H3S6NNFQ2MSVX7XZKYAYSCX5QBYJ".to_string();
    assert_eq!(changed, expected);
}

#[test]
fn to_record_gives_six_columns() {
    assert_eq!(
        example_item().to_record(),
        vec![
            "https://twitter.com/travisbrown/status/1323554460765925376",
            "20201103091610",
            "BHEPEG22C5COEOQD46QEFH4XK5SLN32A",
            "text/html",
            "2948",
            "200"
        ]
    );
    assert_eq!(
        item("u", "19961231235959", "-", "warc/revisit", 0, None).to_record(),
        vec!["u", "19961231235959", "-", "warc/revisit", "0", "-"]
    );
}

#[test]
fn parse_optional_record_reads_what_to_record_wrote() {
    for one in [
        example_item(),
        item("u", "19961231235959", "-", "warc/revisit", 0, None),
        item("", "20240229000000", "", "", 4294967295, Some(65535)),
        item("日本", "20240229000000", "x,y", "a\"b", 1, Some(302)),
    ] {
        let record = one.to_record();
        let parsed = Item::parse_optional_record(
            Some(&record[0]),
            Some(&record[1]),
            Some(&record[2]),
            Some(&record[3]),
            Some(&record[4]),
            Some(&record[5]),
        );
        assert_eq!(parsed, Ok(one));
    }
}

#[test]
fn parse_optional_record_reports_the_first_missing_column() {
    let c = Some("20201103091610");
    let n = Some("1");
    let t = Some("x");
    assert_eq!(
        Item::parse_optional_record(None, None, None, None, None, None),
        Err(Error::MissingUrl)
    );
    assert_eq!(
        Item::parse_optional_record(t, None, None, None, None, None),
        Err(Error::MissingTimestamp)
    );
    assert_eq!(
        Item::parse_optional_record(t, c, None, None, None, None),
        Err(Error::MissingDigest)
    );
    assert_eq!(
        Item::parse_optional_record(t, c, t, None, None, None),
        Err(Error::MissingMimeType)
    );
    assert_eq!(
        Item::parse_optional_record(t, c, t, t, None, None),
        Err(Error::MissingLength)
    );
    assert_eq!(
        Item::parse_optional_record(t, c, t, t, n, None),
        Err(Error::MissingStatus)
    );
    // A missing column is reported before a column that cannot be read.
    assert_eq!(
        Item::parse_optional_record(t, Some("bad"), t, t, Some("bad"), None),
        Err(Error::MissingStatus)
    );
}

#[test]
fn parse_optional_record_reports_the_first_column_it_cannot_read() {
    let c = Some("20201103091610");
    let t = Some("x");
    assert_eq!(
        Item::parse_optional_record(t, Some("2020"), t, t, Some("-1"), Some("abc")),
        Err(Error::InvalidTimestamp {
            value: "2020".to_string()
        })
    );
    assert_eq!(
        Item::parse_optional_record(t, c, t, t, Some("-1"), Some("abc")),
        Err(Error::InvalidLength {
            value: "-1".to_string()
        })
    );
    assert_eq!(
        Item::parse_optional_record(t, c, t, t, Some("4294967296"), Some("200")),
        Err(Error::InvalidLength {
            value: "4294967296".to_string()
        })
    );
    assert_eq!(
        Item::parse_optional_record(t, c, t, t, Some("1"), Some("abc")),
        Err(Error::InvalidStatus {
            value: "abc".to_string()
        })
    );
    assert_eq!(
        Item::parse_optional_record(t, c, t, t, Some("1"), Some("65536")),
        Err(Error::InvalidStatus {
            value: "65536".to_string()
        })
    );
    assert_eq!(
        Item::parse_optional_record(t, c, t, t, Some("1"), Some("")),
        Err(Error::InvalidStatus {
            value: "".to_string()
        })
    );
    assert_eq!(
        Item::parse_optional_record(t, c, t, t, Some("+1"), Some("-")),
        Ok(item("x", "20201103091610", "x", "x", 1, None))
    );
}

#[test]
fn errors_describe_themselves() {
    assert_eq!(Error::MissingUrl.message(), "Missing URL");
    assert_eq!(Error::MissingTimestamp.message(), "Missing timestamp");
    assert_eq!(Error::MissingDigest.message(), "Missing digest");
    assert_eq!(Error::MissingMimeType.message(), "Missing MIME type");
    assert_eq!(Error::MissingLength.message(), "Missing length");
    assert_eq!(Error::MissingStatus.message(), "Missing status code");
    assert_eq!(
        Error::InvalidTimestamp {
            value: "x".to_string()
        }
        .message(),
        "Invalid timestamp: x"
    );
    assert_eq!(
        Error::InvalidLength {
            value: "x".to_string()
        }
        .message(),
        "Invalid length: x"
    );
    assert_eq!(
        Error::InvalidStatus {
            value: "x".to_string()
        }
        .message(),
        "Invalid status code: x"
    );
    assert_eq!(
        Error::InvalidWaybackUrl {
            value: "x".to_string()
        }
        .message(),
        "Invalid Wayback Machine URL: x"
    );
}

fn ladder() -> Vec<Item> {
    // Each differs from the one before it in one field, in the order of the fields.
    vec![
        item("a", "20200101000000", "A", "a", 1, None),
        item("a", "20200101000000", "A", "a", 1, Some(0)),
        item("a", "20200101000000", "A", "a", 1, Some(200)),
        item("a", "20200101000000", "A", "a", 2, None),
        item("a", "20200101000000", "A", "b", 0, None),
        item("a", "20200101000000", "B", "a", 0, None),
        item("a", "20200101000001", "A", "a", 0, None),
        item("ab", "19990101000000", "A", "a", 0, None),
        item("b", "19990101000000", "", "", 0, None),
        item("é", "19990101000000", "", "", 0, None),
    ]
}

#[test]
fn items_are_ordered_by_their_fields_in_turn() {
    let items = ladder();
    for (i, a) in items.iter().enumerate() {
        for (j, b) in items.iter().enumerate() {
            let expected = match i.cmp(&j) {
                std::cmp::Ordering::Less => Order::Less,
                std::cmp::Ordering::Equal => Order::Equal,
                std::cmp::Ordering::Greater => Order::Greater,
            };
            assert_eq!(a.compare(b), expected, "{:?} {:?}", a, b);
            // The order that the standard library derives is the same.
            assert_eq!(a.cmp(b), i.cmp(&j));
        }
    }
}

#[test]
fn sorted_unique_sorts_and_drops_duplicates() {
    let sorted = ladder();
    let mut shuffled = Vec::new();
    for k in [7, 2, 9, 0, 2, 5, 5, 1, 8, 3, 0, 6, 4, 9, 7, 7] {
        shuffled.push(sorted[k].clone());
    }
    let result = sorted_unique(&shuffled);
    assert_eq!(result, sorted);

    let mut expected = shuffled.clone();
    expected.sort();
    expected.dedup();
    assert_eq!(result, expected);

    for pair in result.windows(2) {
        assert!(pair[0] < pair[1]);
    }
    assert_eq!(sorted_unique(&Vec::new()), Vec::new());
    assert_eq!(sorted_unique(&vec![example_item()]), vec![example_item()]);
    assert_eq!(
        sorted_unique(&vec![example_item(), example_item(), example_item()]),
        vec![example_item()]
    );
}

#[test]
fn merge_unique_merges_two_sorted_lists() {
    let all = ladder();
    let left = vec![all[0].clone(), all[2].clone(), all[4].clone(), all[9].clone()];
    let right = vec![all[1].clone(), all[2].clone(), all[3].clone(), all[9].clone()];
    assert_eq!(
        merge_unique(&left, &right),
        vec![
            all[0].clone(),
            all[1].clone(),
            all[2].clone(),
            all[3].clone(),
            all[4].clone(),
            all[9].clone()
        ]
    );
    assert_eq!(merge_unique(&left, &Vec::new()), left);
    assert_eq!(merge_unique(&Vec::new(), &right), right);
}
