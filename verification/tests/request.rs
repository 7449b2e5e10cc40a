//! Whole fetches, with hand-written replies.

use rustbrowser::error::Error;
use rustbrowser::fetch::{Attempt, FetchOptions, Location};
use rustbrowser::request::{advance, begin, begin_form, Head, Need, Reply, Step};
use rustbrowser::span::Span;

fn head(status: u16, url: &str) -> Head {
    Head {
        status,
        location: Location::Absent,
        final_url: url.to_string(),
        content_type: Some("text/html; charset=utf-8".to_string()),
        retry_after: None,
    }
}

fn moved(status: u16, url: &str, to: &str) -> Head {
    Head { location: Location::Text(to.to_string()), ..head(status, url) }
}

fn lost(transient: bool) -> Error {
    Error::Outside { message: "lost".to_string(), details: "lost".to_string(), transient }
}

fn local() -> FetchOptions {
    FetchOptions { allow_local: true, ..FetchOptions::default() }
}

/// Runs a fetch to its end. `answer` gets the number of the request and its URL.
fn run(
    first: Step,
    opts: &FetchOptions,
    answer: &dyn Fn(usize, &str) -> Result<Head, Error>,
) -> (Result<Attempt, Error>, Vec<String>) {
    let mut step = first;
    let mut asked = Vec::new();
    let mut sent = 0;
    loop {
        match step {
            Step::Ask { stage, need } => {
                let reply = match &need {
                    Need::CheckRobots { url } => {
                        asked.push(format!("robots {url}"));
                        Reply::Robots { refusal: None }
                    },
                    Need::Enter { host } => {
                        asked.push(format!("enter {host}"));
                        Reply::Entered
                    },
                    Need::Send { url, form } => {
                        let verb = if form.is_some() { "post" } else { "get" };
                        asked.push(format!("{verb} {url}"));
                        sent += 1;
                        Reply::Responded { result: answer(sent, url) }
                    },
                    Need::ReadBody { .. } => Reply::Body { result: Ok(b"<p>body</p>".to_vec()) },
                    Need::Pause { wait } => {
                        asked.push(format!("wait {}", wait.as_millis()));
                        Reply::Waited
                    },
                };
                step = advance(stage, reply, 0, opts);
            },
            Step::Done { result } => return (result, asked),
        }
    }
}

#[test]
fn every_hop_asks_robots_and_waits_its_turn() {
    let opts = local();
    let start = "http://127.0.0.1:9/start";
    let (result, asked) = run(begin(start, &opts), &opts, &|n, url| {
        Ok(if n == 1 { moved(302, url, "http://localhost:9/final") } else { head(200, url) })
    });
    let page = result.unwrap().res;
    assert_eq!(page.final_url, "http://localhost:9/final");
    assert_eq!(page.html, "<p>body</p>");
    assert_eq!(page.raw_bytes, 11);
    assert_eq!(
        asked,
        vec![
            "robots http://127.0.0.1:9/start",
            "enter 127.0.0.1",
            "get http://127.0.0.1:9/start",
            "robots http://localhost:9/final",
            "enter localhost",
            "get http://localhost:9/final",
        ]
    );
}

#[test]
fn transient_failures_are_tried_again_from_the_start() {
    let opts = local();
    let url = "http://127.0.0.1:9/flaky";
    let (result, asked) = run(begin(url, &opts), &opts, &|n, u| match n {
        1 => Ok(moved(302, u, "/moved")),
        2 => Err(lost(true)),
        3 => Ok(head(503, u)),
        _ => Ok(head(200, u)),
    });
    assert_eq!(result.unwrap().res.status, 200);
    let waits: Vec<&str> =
        asked.iter().filter(|a| a.starts_with("wait")).map(String::as_str).collect();
    assert_eq!(waits, vec!["wait 200", "wait 400"]);
    let gets: Vec<&str> =
        asked.iter().filter(|a| a.starts_with("get")).map(String::as_str).collect();
    assert_eq!(gets[1], "get http://127.0.0.1:9/moved");
    assert_eq!(gets[2], "get http://127.0.0.1:9/flaky");
}

#[test]
fn the_last_status_is_handed_out() {
    let opts = FetchOptions { max_retries: 1, ..local() };
    let url = "http://127.0.0.1:9/down";
    let (result, asked) = run(begin(url, &opts), &opts, &|_, u| {
        Ok(Head { retry_after: Some("2".to_string()), ..head(503, u) })
    });
    let attempt = result.unwrap();
    assert_eq!(attempt.res.status, 503);
    assert_eq!(attempt.retry_after, Some(Span::from_secs(2)));
    assert_eq!(asked.iter().filter(|a| *a == "wait 2000").count(), 1);
}

#[test]
fn lasting_failures_end_a_fetch() {
    let opts = local();
    let (result, asked) =
        run(begin("http://127.0.0.1:9/", &opts), &opts, &|_, _| Err(lost(false)));
    assert!(result.is_err());
    assert_eq!(asked.len(), 3);
    let (result, asked) = run(begin("http://10.0.0.1/", &opts), &opts, &|_, _| Err(lost(false)));
    assert!(matches!(result, Err(Error::BlockedAddress)));
    assert!(asked.is_empty());
}

#[test]
fn forms_are_tried_once() {
    let opts = local();
    let fields = || vec![("a".to_string(), "b".to_string())];
    let url = "http://127.0.0.1:9/login";
    let (result, asked) = run(begin_form(url, fields(), &opts), &opts, &|_, _| Err(lost(true)));
    assert!(result.is_err());
    assert_eq!(asked.iter().filter(|a| a.starts_with("post")).count(), 1);
    let (result, asked) = run(begin_form(url, fields(), &opts), &opts, &|n, u| {
        Ok(if n == 1 { moved(303, u, "/home") } else { head(200, u) })
    });
    assert!(result.is_ok());
    assert_eq!(asked.last().unwrap(), "get http://127.0.0.1:9/home");
    let (result, _) = run(begin_form(url, fields(), &opts), &opts, &|_, u| {
        Ok(moved(307, u, "http://localhost:9/steal"))
    });
    assert!(matches!(result, Err(Error::ForeignForm { .. })));
    let (result, asked) = run(begin_form(url, fields(), &opts), &opts, &|n, u| {
        Ok(if n == 1 { moved(308, u, "/there") } else { head(200, u) })
    });
    assert!(result.is_ok());
    assert_eq!(asked.last().unwrap(), "post http://127.0.0.1:9/there");
}

#[test]
fn refused_pages_are_not_requested() {
    let opts = local();
    let url = "http://127.0.0.1:9/secret";
    match begin(url, &opts) {
        Step::Ask { stage, need: Need::CheckRobots { url: u } } => {
            assert_eq!(u, url);
            let refusal = Some(Error::Robots { url: u });
            match advance(stage, Reply::Robots { refusal }, 0, &opts) {
                Step::Done { result: Err(Error::Robots { url: u }) } => assert_eq!(u, url),
                other => panic!("{other:?}"),
            }
        },
        other => panic!("{other:?}"),
    }
    match begin(url, &opts) {
        Step::Ask { stage, .. } => assert!(matches!(
            advance(stage, Reply::Entered, 0, &opts),
            Step::Done { result: Err(Error::OutOfTurn) }
        )),
        other => panic!("{other:?}"),
    }
}

#[test]
fn redirects_end_after_eight() {
    let opts = local();
    let url = "http://127.0.0.1:9/loop";
    let (result, asked) = run(begin(url, &opts), &opts, &|_, u| Ok(moved(301, u, "/loop")));
    match result {
        Err(e) => assert_eq!(e.message(), format!("too many redirects while requesting {url}")),
        Ok(_) => panic!("no end"),
    }
    assert_eq!(asked.iter().filter(|a| a.starts_with("get")).count(), 9);
}

#[test]
fn no_more_of_a_body_is_used_than_was_asked_for() {
    let opts = FetchOptions { max_bytes: 3, ..local() };
    let url = "http://127.0.0.1:9/a";
    let (result, _) = run(begin(url, &opts), &opts, &|_, url| Ok(head(200, url)));
    let page = result.unwrap().res;
    assert_eq!(page.html, "<p>");
    assert_eq!(page.raw_bytes, 3);
}
