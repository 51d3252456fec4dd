use std::time::Duration;
use wayback_rs::digest::compute_digest;
use wayback_rs::downloader::{
    ContentStep, DownloadStep, Downloader, Error, RedirectResolution, RedirectStep,
};
use wayback_rs::exchange::{Action, Failure, Method, Request, ResponseHead};
use wayback_rs::item::{Item, UrlInfo};
use wayback_rs::util::observe::{ErrorClass, Event, Surface};
use wayback_rs::util::parse_timestamp;
use wayback_rs::util::redirect::guess_redirect_content;

const INITIAL: &str = "https://web.archive.org/web/20200101000000id_/https://example.com/";
const NEXT: &str = "https://web.archive.org/web/20200202000000/https://example.com/target";
const NEXT_ID: &str = "https://web.archive.org/web/20200202000000id_/https://example.com/target";
const LAST: &str = "https://web.archive.org/web/20200303000000/https://example.com/final";

fn head(method: Method, url: &str) -> Action {
    Action::Send(Request {
        method,
        url: url.to_string(),
        user_agent: None,
    })
}

fn found(location: Option<&str>) -> Result<ResponseHead, Failure> {
    Ok(ResponseHead {
        status: 302,
        location: location.map(|text| text.to_string()),
    })
}

fn status(status: u16) -> Result<ResponseHead, Failure> {
    Ok(ResponseHead {
        status,
        location: None,
    })
}

fn elapsed() -> Duration {
    Duration::from_millis(12)
}

fn template_digest() -> String {
    compute_digest(guess_redirect_content("https://example.com/target").as_bytes())
}

#[test]
fn wayback_url_asks_for_the_unmodified_or_the_framed_capture() {
    assert_eq!(
        Downloader::wayback_url("https://example.com/", "20200101000000", true),
        INITIAL
    );
    assert_eq!(
        Downloader::wayback_url("https://example.com/", "20200101000000", false),
        "https://web.archive.org/web/20200101000000if_/https://example.com/"
    );
}

#[test]
fn redirect_resolution_guess_succeeds() {
    let client = Downloader::default();
    let expected_digest = template_digest();

    let (actions, awaiting) =
        client.resolve_redirect("https://example.com/", "20200101000000", &expected_digest);
    assert_eq!(actions, vec![head(Method::Head, INITIAL)]);

    let step = awaiting.receive(found(Some(NEXT)), elapsed());
    let content = match step {
        RedirectStep::Found(actions, content) => {
            assert_eq!(actions, vec![]);
            content
        }
        other => panic!("{:?}", other),
    };
    assert!(content.valid_initial_content);
    assert!(content.valid_digest);
    assert_eq!(
        content.content,
        guess_redirect_content("https://example.com/target").into_bytes()
    );

    // One more request for a head, and none for a body.
    let (actions, awaiting) = content.follow();
    assert_eq!(actions, vec![head(Method::Head, NEXT_ID)]);

    let (actions, result) = awaiting.receive(found(Some(LAST)), elapsed());
    assert_eq!(actions, vec![]);
    assert_eq!(
        result,
        Ok(RedirectResolution {
            url: "https://example.com/final".to_string(),
            timestamp: "20200303000000".to_string(),
            content: guess_redirect_content("https://example.com/target").into_bytes(),
            valid_initial_content: true,
            valid_digest: true,
        })
    );
}

#[test]
fn redirect_resolution_fetches_the_page_when_the_guess_is_wrong() {
    let client = Downloader::default();
    let page = b"<html>moved</html>".to_vec();
    let expected_digest = compute_digest(&page);

    let (_, awaiting) =
        client.resolve_redirect("https://example.com/", "20200101000000", &expected_digest);
    let awaiting = match awaiting.receive(found(Some(NEXT)), elapsed()) {
        RedirectStep::FetchContent(actions, awaiting) => {
            assert_eq!(actions, vec![head(Method::Get, INITIAL)]);
            awaiting
        }
        other => panic!("{:?}", other),
    };
    let awaiting = match awaiting.receive(status(200), elapsed()) {
        ContentStep::ReadBody(actions, awaiting) => {
            assert_eq!(actions, vec![Action::ReadBody]);
            awaiting
        }
        other => panic!("{:?}", other),
    };
    let content = awaiting.receive(Ok(page.clone())).unwrap();
    assert!(!content.valid_initial_content);
    assert!(content.valid_digest);
    assert_eq!(content.content, page);

    let (_, awaiting) = content.follow();
    let (_, result) = awaiting.receive(found(Some(LAST)), elapsed());
    assert_eq!(
        result,
        Ok(RedirectResolution {
            url: "https://example.com/final".to_string(),
            timestamp: "20200303000000".to_string(),
            content: page,
            valid_initial_content: false,
            valid_digest: true,
        })
    );
}

#[test]
fn redirect_resolution_marks_a_page_with_another_digest() {
    let client = Downloader::default();
    let (_, awaiting) = client.resolve_redirect(
        "https://example.com/",
        "20200101000000",
        "3I42H3S6NNFQ2MSVX7XZKYAYSCX5QBYJ",
    );
    let awaiting = match awaiting.receive(found(Some(NEXT)), elapsed()) {
        RedirectStep::FetchContent(_, awaiting) => awaiting,
        other => panic!("{:?}", other),
    };
    let awaiting = match awaiting.receive(status(200), elapsed()) {
        ContentStep::ReadBody(_, awaiting) => awaiting,
        other => panic!("{:?}", other),
    };
    let content = awaiting.receive(Ok(b"something else".to_vec())).unwrap();
    assert!(!content.valid_initial_content);
    assert!(!content.valid_digest);
    // The empty page has the digest that was expected.
    let (_, again) = client.resolve_redirect(
        "https://example.com/",
        "20200101000000",
        "3I42H3S6NNFQ2MSVX7XZKYAYSCX5QBYJ",
    );
    let again = match again.receive(found(Some(NEXT)), elapsed()) {
        RedirectStep::FetchContent(_, awaiting) => awaiting,
        other => panic!("{:?}", other),
    };
    let again = match again.receive(status(200), elapsed()) {
        ContentStep::ReadBody(_, awaiting) => awaiting,
        other => panic!("{:?}", other),
    };
    assert!(again.receive(Ok(Vec::new())).unwrap().valid_digest);
}

#[test]
fn redirect_resolution_fails_on_anything_but_a_redirect_to_a_capture() {
    let client = Downloader::default();
    let failure = Failure {
        timeout: false,
        connect: true,
    };
    let cases: Vec<(Result<ResponseHead, Failure>, Error)> = vec![
        (Err(failure), Error::Client(failure)),
        (status(200), Error::UnexpectedStatus(200)),
        (status(404), Error::UnexpectedStatus(404)),
        (status(502), Error::UnexpectedStatus(502)),
        (found(None), Error::UnexpectedRedirect(None)),
        (
            found(Some("https://example.com/elsewhere")),
            Error::UnexpectedRedirectUrl("https://example.com/elsewhere".to_string()),
        ),
    ];
    for (reply, error) in cases {
        let (_, awaiting) = client.resolve_redirect("https://example.com/", "20200101000000", "D");
        match awaiting.receive(reply, elapsed()) {
            RedirectStep::Failed(actions, found) => {
                assert_eq!(actions, vec![]);
                assert_eq!(found, error);
            }
            other => panic!("{:?}", other),
        }
    }
    // The same holds of the second head.
    for (reply, error) in [
        (status(200), Error::UnexpectedStatus(200)),
        (found(None), Error::UnexpectedRedirect(None)),
        (
            found(Some("nowhere")),
            Error::UnexpectedRedirectUrl("nowhere".to_string()),
        ),
    ] {
        let digest = template_digest();
        let (_, awaiting) =
            client.resolve_redirect("https://example.com/", "20200101000000", &digest);
        let content = match awaiting.receive(found(Some(NEXT)), elapsed()) {
            RedirectStep::Found(_, content) => content,
            other => panic!("{:?}", other),
        };
        let (_, awaiting) = content.follow();
        assert_eq!(awaiting.receive(reply, elapsed()).1, Err(error));
    }
}

#[test]
fn fetching_the_page_of_a_redirect_accepts_status_200_only() {
    let client = Downloader::default();
    let failure = Failure {
        timeout: true,
        connect: false,
    };
    for (reply, error) in [
        (Err(failure), Error::Client(failure)),
        (status(302), Error::UnexpectedStatus(302)),
        (status(404), Error::UnexpectedStatus(404)),
    ] {
        let (_, awaiting) = client.resolve_redirect("https://example.com/", "20200101000000", "D");
        let awaiting = match awaiting.receive(found(Some(NEXT)), elapsed()) {
            RedirectStep::FetchContent(_, awaiting) => awaiting,
            other => panic!("{:?}", other),
        };
        match awaiting.receive(reply, elapsed()) {
            ContentStep::Failed(actions, found) => {
                assert_eq!(actions, vec![]);
                assert_eq!(found, error);
            }
            other => panic!("{:?}", other),
        }
    }
    let (_, awaiting) = client.resolve_redirect("https://example.com/", "20200101000000", "D");
    let awaiting = match awaiting.receive(found(Some(NEXT)), elapsed()) {
        RedirectStep::FetchContent(_, awaiting) => awaiting,
        other => panic!("{:?}", other),
    };
    let awaiting = match awaiting.receive(status(200), elapsed()) {
        ContentStep::ReadBody(_, awaiting) => awaiting,
        other => panic!("{:?}", other),
    };
    assert_eq!(awaiting.receive(Err(failure)), Err(Error::Client(failure)));
}

#[test]
fn shallow_resolution_gives_the_page_as_text() {
    let client = Downloader::default();
    let digest = template_digest();
    let (_, awaiting) = client.resolve_redirect("https://example.com/", "20200101000000", &digest);
    let content = match awaiting.receive(found(Some(NEXT)), elapsed()) {
        RedirectStep::Found(_, content) => content,
        other => panic!("{:?}", other),
    };
    assert_eq!(
        content.shallow(),
        Ok((
            UrlInfo::new(
                "https://example.com/target".to_string(),
                "20200202000000".to_string()
            ),
            guess_redirect_content("https://example.com/target"),
            true
        ))
    );

    for (page, expected) in [
        (
            "héllo".as_bytes().to_vec(),
            Ok((
                UrlInfo::new(
                    "https://example.com/target".to_string(),
                    "20200202000000".to_string(),
                ),
                "héllo".to_string(),
                false,
            )),
        ),
        (vec![0xff, 0xfe], Err(Error::InvalidUtf8)),
        (vec![0xc3], Err(Error::InvalidUtf8)),
    ] {
        let (_, awaiting) = client.resolve_redirect("https://example.com/", "20200101000000", "D");
        let awaiting = match awaiting.receive(found(Some(NEXT)), elapsed()) {
            RedirectStep::FetchContent(_, awaiting) => awaiting,
            other => panic!("{:?}", other),
        };
        let awaiting = match awaiting.receive(status(200), elapsed()) {
            ContentStep::ReadBody(_, awaiting) => awaiting,
            other => panic!("{:?}", other),
        };
        assert_eq!(awaiting.receive(Ok(page)).unwrap().shallow(), expected);
    }
}

#[test]
fn observers_and_pacers_are_served_around_each_request() {
    let client = Downloader::new(5_000).with_pacer().with_observer();
    assert_eq!(client.request_timeout, 5_000);
    let digest = template_digest();
    let (actions, awaiting) =
        client.resolve_redirect("https://example.com/", "20200101000000", &digest);
    assert_eq!(
        actions,
        vec![
            Action::Pace(Surface::Content),
            Action::Notify(Event::start(Surface::Content, "HEAD", INITIAL.to_string())),
            head(Method::Head, INITIAL),
        ]
    );
    let content = match awaiting.receive(found(Some(NEXT)), elapsed()) {
        RedirectStep::Found(actions, content) => {
            assert_eq!(
                actions,
                vec![Action::Notify(Event::complete(
                    Surface::Content,
                    "HEAD",
                    INITIAL.to_string(),
                    302,
                    elapsed()
                ))]
            );
            content
        }
        other => panic!("{:?}", other),
    };
    let (actions, awaiting) = content.follow();
    assert_eq!(
        actions,
        vec![
            Action::Pace(Surface::Content),
            Action::Notify(Event::start(Surface::Content, "HEAD", NEXT_ID.to_string())),
            head(Method::Head, NEXT_ID),
        ]
    );
    let (actions, _) = awaiting.receive(status(500), elapsed());
    assert_eq!(
        actions,
        vec![Action::Notify(Event::error(
            Surface::Content,
            "HEAD",
            NEXT_ID.to_string(),
            Some(500),
            Some(elapsed()),
            ErrorClass::Http
        ))]
    );

    // Only an observer, and a wrong guess.
    let client = Downloader::default().with_observer();
    let (actions, awaiting) = client.resolve_redirect("https://example.com/", "20200101000000", "D");
    assert_eq!(
        actions,
        vec![
            Action::Notify(Event::start(Surface::Content, "HEAD", INITIAL.to_string())),
            head(Method::Head, INITIAL),
        ]
    );
    let awaiting = match awaiting.receive(found(Some(NEXT)), elapsed()) {
        RedirectStep::FetchContent(actions, awaiting) => {
            assert_eq!(
                actions,
                vec![
                    Action::Notify(Event::complete(
                        Surface::Content,
                        "HEAD",
                        INITIAL.to_string(),
                        302,
                        elapsed()
                    )),
                    Action::Notify(Event::start(Surface::Content, "GET", INITIAL.to_string())),
                    head(Method::Get, INITIAL),
                ]
            );
            awaiting
        }
        other => panic!("{:?}", other),
    };
    let failure = Failure {
        timeout: true,
        connect: true,
    };
    match awaiting.receive(Err(failure), elapsed()) {
        ContentStep::Failed(actions, error) => {
            assert_eq!(
                actions,
                vec![Action::Notify(Event::error(
                    Surface::Content,
                    "GET",
                    INITIAL.to_string(),
                    None,
                    Some(elapsed()),
                    ErrorClass::Timeout
                ))]
            );
            assert_eq!(error, Error::Client(failure));
        }
        other => panic!("{:?}", other),
    }
}

#[test]
fn failures_are_classified_for_observers() {
    let class = |timeout, connect| Failure { timeout, connect }.class();
    assert_eq!(class(true, false), ErrorClass::Timeout);
    assert_eq!(class(true, true), ErrorClass::Timeout);
    assert_eq!(class(false, true), ErrorClass::Connect);
    assert_eq!(class(false, false), ErrorClass::Other);
}

#[test]
fn download_item_fetches_the_unmodified_capture() {
    let client = Downloader::default();
    let item = Item::new(
        "https://example.com/".to_string(),
        parse_timestamp("20200101000000").unwrap(),
        "D".to_string(),
        "text/html".to_string(),
        1,
        Some(200),
    );
    let (actions, awaiting) = client.download_item(&item);
    assert_eq!(actions, vec![head(Method::Get, INITIAL)]);
    let awaiting = match awaiting.receive(status(200), elapsed()) {
        DownloadStep::ReadBody(actions, awaiting) => {
            assert_eq!(actions, vec![Action::ReadBody]);
            awaiting
        }
        other => panic!("{:?}", other),
    };
    assert_eq!(awaiting.receive(Ok(b"page".to_vec())), Ok(b"page".to_vec()));

    let (actions, _) = client.download("https://example.com/", "20200101000000", false);
    assert_eq!(
        actions,
        vec![head(
            Method::Get,
            "https://web.archive.org/web/20200101000000if_/https://example.com/"
        )]
    );
}

#[test]
fn download_accepts_status_200_only() {
    let client = Downloader::default().with_observer();
    let failure = Failure {
        timeout: false,
        connect: false,
    };
    for (reply, error, class, code) in [
        (Err(failure), Error::Client(failure), ErrorClass::Other, None),
        (
            status(502),
            Error::UnexpectedStatus(502),
            ErrorClass::Http,
            Some(502),
        ),
        (
            status(302),
            Error::UnexpectedStatus(302),
            ErrorClass::Http,
            Some(302),
        ),
    ] {
        let (_, awaiting) = client.download("https://example.com/", "20200101000000", true);
        match awaiting.receive(reply, elapsed()) {
            DownloadStep::Failed(actions, found) => {
                assert_eq!(found, error);
                assert_eq!(
                    actions,
                    vec![Action::Notify(Event::error(
                        Surface::Content,
                        "GET",
                        INITIAL.to_string(),
                        code,
                        Some(elapsed()),
                        class
                    ))]
                );
            }
            other => panic!("{:?}", other),
        }
    }
    let (_, awaiting) = client.download("https://example.com/", "20200101000000", true);
    let awaiting = match awaiting.receive(status(200), elapsed()) {
        DownloadStep::ReadBody(actions, awaiting) => {
            assert_eq!(
                actions,
                vec![
                    Action::Notify(Event::complete(
                        Surface::Content,
                        "GET",
                        INITIAL.to_string(),
                        200,
                        elapsed()
                    )),
                    Action::ReadBody
                ]
            );
            awaiting
        }
        other => panic!("{:?}", other),
    };
    assert_eq!(awaiting.receive(Err(failure)), Err(Error::Client(failure)));
}
