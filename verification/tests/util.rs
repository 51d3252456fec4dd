use std::time::Duration;
use wayback_rs::cdx;
use wayback_rs::downloader;
use wayback_rs::exchange::Failure;
use wayback_rs::util::observe::{ErrorClass, Event, Phase, Surface};
use wayback_rs::util::redirect::guess_redirect_content;
use wayback_rs::util::retries::{ErrorBackoff, Level, LogOnRetry, RetryPolicy, Retryable};
use wayback_rs::util::{parse_timestamp, to_timestamp, Timestamp};

#[test]
fn parse_timestamp_reads_fourteen_digits() {
    assert_eq!(
        parse_timestamp("20201103091610"),
        Some(Timestamp {
            year: 2020,
            month: 11,
            day: 3,
            hour: 9,
            minute: 16,
            second: 10
        })
    );
    assert_eq!(
        parse_timestamp("00000101000000"),
        Some(Timestamp {
            year: 0,
            month: 1,
            day: 1,
            hour: 0,
            minute: 0,
            second: 0
        })
    );
    assert_eq!(
        parse_timestamp("99991231235959"),
        Some(Timestamp {
            year: 9999,
            month: 12,
            day: 31,
            hour: 23,
            minute: 59,
            second: 59
        })
    );
}

#[test]
fn parse_timestamp_rejects_what_is_no_moment() {
    for text in [
        "",
        "-",
        "2020110309161",
        "202011030916100",
        "2020110309161a",
        "2020-11-03 09:16",
        " 20201103091610",
        "20201303091610",
        "20200003091610",
        "20201100091610",
        "20201131091610",
        "20201103241610",
        "20201103096010",
        "20201103091661",
        "20201103091699",
        "20210229000000",
        "19000229000000",
        "+2020110309161",
        "２０２０１１０３０９１６１０",
    ] {
        assert_eq!(parse_timestamp(text), None, "{:?}", text);
    }
    assert!(parse_timestamp("20200229000000").is_some());
    assert!(parse_timestamp("20000229000000").is_some());
    assert!(parse_timestamp("20240229235959").is_some());
}

#[test]
fn a_leap_second_is_read_and_written_back() {
    let leap = parse_timestamp("20161231235960").unwrap();
    assert_eq!(leap.second, 60);
    assert_eq!(to_timestamp(&leap), "20161231235960");
    let before = parse_timestamp("20161231235959").unwrap();
    let after = parse_timestamp("20170101000000").unwrap();
    assert_eq!(before.compare(&leap), wayback_rs::text::Order::Less);
    assert_eq!(leap.compare(&after), wayback_rs::text::Order::Less);
    assert!(before < leap && leap < after);
    // Any minute may end in one.
    assert!(parse_timestamp("20201103091660").is_some());
    assert!(Timestamp::new(2020, 11, 3, 9, 16, 60).is_some());
    assert!(Timestamp::new(2020, 11, 3, 9, 16, 61).is_none());
}

#[test]
fn to_timestamp_writes_fourteen_digits() {
    let moment = Timestamp {
        year: 2020,
        month: 11,
        day: 3,
        hour: 9,
        minute: 16,
        second: 10,
    };
    assert_eq!(to_timestamp(&moment), "20201103091610");
    let early = Timestamp {
        year: 7,
        month: 1,
        day: 2,
        hour: 3,
        minute: 4,
        second: 5,
    };
    assert_eq!(to_timestamp(&early), "00070102030405");
    assert_eq!(parse_timestamp(&to_timestamp(&early)), Some(early));
}

#[test]
fn timestamp_round_trips_through_its_text() {
    for text in [
        "20201103091610",
        "19961231235959",
        "20240229120000",
        "00010101000000",
    ] {
        let moment = parse_timestamp(text).unwrap();
        assert_eq!(to_timestamp(&moment), text);
    }
}

#[test]
fn timestamp_new_checks_the_calendar() {
    assert!(Timestamp::new(2020, 2, 29, 0, 0, 0).is_some());
    assert!(Timestamp::new(2021, 2, 29, 0, 0, 0).is_none());
    assert!(Timestamp::new(2021, 4, 31, 0, 0, 0).is_none());
    assert!(Timestamp::new(2021, 4, 30, 23, 59, 59).is_some());
    assert!(Timestamp::new(10000, 1, 1, 0, 0, 0).is_none());
    assert!(Timestamp::new(2021, 0, 1, 0, 0, 0).is_none());
    assert!(Timestamp::new(2021, 1, 0, 0, 0, 0).is_none());
}

#[test]
fn timestamps_are_ordered_by_time() {
    let texts = [
        "19961231235959",
        "20201103091610",
        "20201103091611",
        "20201103101610",
        "20201203091610",
        "20211103091610",
    ];
    for (i, a) in texts.iter().enumerate() {
        for (j, b) in texts.iter().enumerate() {
            let x = parse_timestamp(a).unwrap();
            let y = parse_timestamp(b).unwrap();
            let expected = match i.cmp(&j) {
                std::cmp::Ordering::Less => wayback_rs::text::Order::Less,
                std::cmp::Ordering::Equal => wayback_rs::text::Order::Equal,
                std::cmp::Ordering::Greater => wayback_rs::text::Order::Greater,
            };
            assert_eq!(x.compare(&y), expected);
            assert_eq!(x.cmp(&y), i.cmp(&j));
        }
    }
}

#[test]
fn guess_redirect_content_fills_the_template() {
    assert_eq!(
        guess_redirect_content("https://example.com/target"),
        "<html><body>You are being <a href=\"https://example.com/target\">redirected</a>.</body></html>"
    );
    assert_eq!(
        guess_redirect_content(""),
        "<html><body>You are being <a href=\"\">redirected</a>.</body></html>"
    );
}

#[test]
fn events_carry_what_they_report() {
    let start = Event::start(Surface::Cdx, "GET", "http://x/".to_string());
    assert_eq!(start.surface, Surface::Cdx);
    assert_eq!(start.phase, Phase::Start);
    assert_eq!(start.method, "GET");
    assert_eq!(start.url, "http://x/");
    assert_eq!(start.status, None);
    assert_eq!(start.elapsed, None);
    assert_eq!(start.error, None);
    assert!(start.extras.is_empty());

    let complete = Event::complete(
        Surface::Content,
        "HEAD",
        "http://y/".to_string(),
        302,
        Duration::from_millis(5),
    );
    assert_eq!(complete.surface, Surface::Content);
    assert_eq!(complete.phase, Phase::Complete);
    assert_eq!(complete.method, "HEAD");
    assert_eq!(complete.url, "http://y/");
    assert_eq!(complete.status, Some(302));
    assert_eq!(complete.elapsed, Some(Duration::from_millis(5)));
    assert_eq!(complete.error, None);

    let error = Event::error(
        Surface::Content,
        "GET",
        "http://z/".to_string(),
        Some(502),
        None,
        ErrorClass::Http,
    );
    assert_eq!(error.phase, Phase::Error);
    assert_eq!(error.status, Some(502));
    assert_eq!(error.elapsed, None);
    assert_eq!(error.error, Some(ErrorClass::Http));
    assert_eq!(error.clone(), error);
}

#[test]
fn content_errors_say_how_to_retry() {
    let failure = Failure {
        timeout: true,
        connect: false,
    };
    assert_eq!(<downloader::Error as Retryable>::max_retries(), 7);
    assert_eq!(<downloader::Error as Retryable>::default_initial_delay(), 250);
    assert_eq!(<downloader::Error as Retryable>::log_level(), Some(Level::Warn));
    assert_eq!(downloader::Error::Io.custom_retry_policy(), None);
    assert_eq!(downloader::Error::Client(failure).custom_retry_policy(), None);
    assert_eq!(
        downloader::Error::UnexpectedStatus(502).custom_retry_policy(),
        Some(RetryPolicy::Delay(30_000))
    );
    assert_eq!(
        downloader::Error::UnexpectedStatus(404).custom_retry_policy(),
        Some(RetryPolicy::Break)
    );
    assert_eq!(
        downloader::Error::UnexpectedRedirect(None).custom_retry_policy(),
        Some(RetryPolicy::Break)
    );
    assert_eq!(
        downloader::Error::UnexpectedRedirectUrl("x".to_string()).custom_retry_policy(),
        Some(RetryPolicy::Break)
    );
    assert_eq!(
        downloader::Error::InvalidUtf8.custom_retry_policy(),
        Some(RetryPolicy::Break)
    );
}

#[test]
fn index_errors_say_how_to_retry() {
    let failure = Failure {
        timeout: false,
        connect: true,
    };
    assert_eq!(<cdx::Error as Retryable>::max_retries(), 7);
    assert_eq!(<cdx::Error as Retryable>::default_initial_delay(), 250);
    assert_eq!(<cdx::Error as Retryable>::log_level(), Some(Level::Warn));
    assert_eq!(
        cdx::Error::HttpClientError(failure).custom_retry_policy(),
        Some(RetryPolicy::Delay(30_000))
    );
    assert_eq!(
        cdx::Error::JsonError("EOF".to_string()).custom_retry_policy(),
        Some(RetryPolicy::Delay(30_000))
    );
    assert_eq!(
        cdx::Error::BlockedQuery("x".to_string()).custom_retry_policy(),
        Some(RetryPolicy::Break)
    );
    assert_eq!(
        cdx::Error::ItemParsingError(wayback_rs::item::Error::MissingUrl).custom_retry_policy(),
        Some(RetryPolicy::Break)
    );
}

#[test]
fn backoff_doubles_for_errors_without_a_policy() {
    let mut backoff = ErrorBackoff::<downloader::Error>::new();
    let failure = Failure {
        timeout: false,
        connect: false,
    };
    assert_eq!(
        backoff.delay(1, &downloader::Error::Client(failure)),
        RetryPolicy::Delay(250)
    );
    assert_eq!(
        backoff.delay(2, &downloader::Error::Io),
        RetryPolicy::Delay(500)
    );
    // An error with a policy of its own leaves the schedule where it is.
    assert_eq!(
        backoff.delay(3, &downloader::Error::UnexpectedStatus(502)),
        RetryPolicy::Delay(30_000)
    );
    assert_eq!(
        backoff.delay(4, &downloader::Error::UnexpectedStatus(500)),
        RetryPolicy::Break
    );
    assert_eq!(
        backoff.delay(5, &downloader::Error::Io),
        RetryPolicy::Delay(1000)
    );
    for _ in 0..80 {
        backoff.delay(6, &downloader::Error::Io);
    }
    assert_eq!(
        backoff.delay(7, &downloader::Error::Io),
        RetryPolicy::Delay(u64::MAX)
    );
}

#[test]
fn retries_are_reported_once_at_the_level_set() {
    let mut quiet = LogOnRetry { level: None };
    assert_eq!(quiet.on_retry(1, Some("250ms"), "Io").poll(), None);

    let mut loud = LogOnRetry {
        level: Some(Level::Warn),
    };
    let mut log = loud.on_retry(3, Some("30s"), "UnexpectedStatus(502)");
    assert_eq!(
        log.poll(),
        Some((
            Level::Warn,
            "Retry 3; waiting 30s after error: UnexpectedStatus(502)".to_string()
        ))
    );
    assert_eq!(log.poll(), None);
    // Without a delay there is no further attempt, and nothing to report.
    assert_eq!(loud.on_retry(7, None, "Io").poll(), None);
}
