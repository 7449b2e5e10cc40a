//! Browsing sessions, with a hand-written server behind them.

use rustbrowser::actions::{FormAction, FormField, FormOption};
use rustbrowser::error::Error;
use rustbrowser::fetch::FetchResult;
use rustbrowser::session::{
    build_query_url, merge_form_values, session_fetch_options, Act, FallbackReason, Outcome, Session,
    SubmitOutcome, Turn, MAX_ACTION_RETRIES_CAP, MAX_LOG_ENTRIES, MAX_QUERY_BYTES,
};
use rustbrowser::span::Span;
use rustbrowser::{DistillOptions, JsMode, Profile};

const HOME: &str = r#"<!DOCTYPE html><html><head><title>Home</title></head><body>
  <h1>Welcome</h1>
  <p>This is the home page with enough text for a clean snapshot.</p>
  <a href="/page2">Go to page two</a>
  <form method="get" action="/search">
    <input type="search" name="q">
    <button type="submit">Search</button>
  </form>
  <form method="post" action="/login">
    <input type="text" name="user">
    <input type="password" name="pass">
    <input type="hidden" name="csrf" value="tok42">
    <button type="submit">Log in</button>
  </form>
</body></html>"#;

const SITE: &str = "http://127.0.0.1:9";

fn opts() -> DistillOptions {
    DistillOptions {
        allow_local: true,
        profile: Profile::Full,
        ..Default::default()
    }
}

fn page(url: &str, status: u16, html: &str) -> FetchResult {
    FetchResult {
        final_url: url.to_string(),
        status,
        content_type: Some("text/html".to_string()),
        html: html.to_string(),
        raw_bytes: html.len(),
    }
}

fn respond(url: &str, status: u16, html: &str) -> Outcome {
    Outcome::Response { result: Ok(page(url, status, html)), retry_after: None }
}

fn pairs(list: &[(&str, &str)]) -> Vec<(String, String)> {
    list.iter().map(|(k, v)| (k.to_string(), v.to_string())).collect()
}

/// Answers every request of a step until it is done, and counts the requests.
fn drive(s: &mut Session, turn: Turn, serve: &dyn Fn(&Act) -> Outcome) -> (Result<(), Error>, usize) {
    let mut turn = turn;
    let mut requests = 0;
    loop {
        match turn {
            Turn::Ask { stage, act } => {
                let outcome = match &act {
                    Act::Assess => Outcome::Assessed { reason: None },
                    other => {
                        requests += 1;
                        serve(other)
                    },
                };
                turn = s.proceed(stage, outcome, 0);
            },
            Turn::Done { result } => return (result, requests),
            Turn::Withheld { .. } => panic!("withheld"),
        }
    }
}

fn web(act: &Act) -> Outcome {
    match act {
        Act::Get { url } | Act::Retry { url, .. } => {
            let path = &url[SITE.len()..];
            match path {
                "/" => respond(url, 200, HOME),
                "/page2" => respond(
                    url,
                    200,
                    "<html><body><h1>Page Two</h1><p>Second page body.</p></body></html>",
                ),
                "/search?q=rustlang" => respond(
                    url,
                    200,
                    "<html><body><h1>Results</h1><p>Found rustlang.</p></body></html>",
                ),
                _ => respond(url, 404, "<html><body><p>gone</p></body></html>"),
            }
        },
        Act::Post { url, fields } => {
            assert!(url.ends_with("/login"));
            assert!(fields.contains(&("user".to_string(), "alice".to_string())));
            assert!(fields.contains(&("csrf".to_string(), "tok42".to_string())));
            respond(url, 200, "<html><body><h1>Logged in</h1><p>Welcome alice.</p></body></html>")
        },
        other => panic!("{other:?}"),
    }
}

fn at_home() -> Session {
    let mut s = Session::new(opts());
    let turn = s.observe(&format!("{SITE}/"));
    let (result, requests) = drive(&mut s, turn, &web);
    result.unwrap();
    assert_eq!(requests, 1);
    s
}

#[test]
fn observe_extracts_actions_and_follows_link() {
    let mut s = at_home();
    let actions = s.snapshot().unwrap().actions.as_ref().expect("action tree");
    assert_eq!(actions.links.len(), 1, "one nav link");
    assert_eq!(actions.forms.len(), 2, "search + login forms");

    // Follow the link by its stable id.
    let turn = s.follow("link_0");
    drive(&mut s, turn, &web).0.unwrap();
    assert!(s.current_url().unwrap().ends_with("/page2"));
    assert!(s.snapshot().unwrap().markdown.contains("Page Two"));
    assert_eq!(
        *s.redirect_history(),
        vec![format!("{SITE}/"), format!("{SITE}/page2")]
    );
}

#[test]
fn get_form_submits_as_query() {
    let mut s = at_home();
    let turn = s.submit_form("form_0", &pairs(&[("q", "rustlang")]), false);
    drive(&mut s, turn, &web).0.unwrap();
    assert!(s.current_url().unwrap().contains("q=rustlang"));
    assert!(s.snapshot().unwrap().markdown.contains("Results"));
}

#[test]
fn post_form_needs_confirmation_then_submits() {
    let mut s = at_home();

    // Without confirmation, the POST is described but NOT sent.
    let values = pairs(&[("user", "alice"), ("pass", "secret")]);
    match s.submit_form("form_1", &values, false) {
        Turn::Withheld { outcome: SubmitOutcome::NeedsConfirmation { method, fields, .. } } => {
            assert_eq!(method, "POST");
            assert!(fields.iter().any(|(k, v)| k == "csrf" && v == "tok42"));
            assert!(fields.iter().any(|(k, v)| k == "user" && v == "alice"));
        },
        other => panic!("POST must not auto-submit without confirm: {other:?}"),
    }
    // The snapshot must be unchanged (still the home page).
    assert!(s.snapshot().unwrap().markdown.contains("Welcome"));
    assert_eq!(s.log().last().unwrap().outcome, "needs_confirmation");

    // With confirmation, it goes through.
    let turn = s.submit_form("form_1", &values, true);
    let (result, requests) = drive(&mut s, turn, &web);
    result.unwrap();
    assert_eq!(requests, 1);
    assert!(s.snapshot().unwrap().markdown.contains("Logged in"));
}

#[test]
fn a_failed_post_is_never_repeated() {
    let mut s = at_home();
    let turn = s.submit_form("form_1", &pairs(&[("user", "alice")]), true);
    let lost = |_: &Act| Outcome::Response {
        result: Err(Error::Outside {
            message: "connection reset".to_string(),
            details: "connection reset by peer".to_string(),
            transient: true,
        }),
        retry_after: None,
    };
    let (result, requests) = drive(&mut s, turn, &lost);
    assert!(result.is_err());
    assert_eq!(requests, 1);
    assert!(s.current_url().unwrap().ends_with(":9/"), "the session stays where it was");
    let entry = s.log().last().unwrap();
    assert_eq!((entry.outcome.as_str(), entry.attempt), ("error", 1));
    assert_eq!(entry.failure_reason.as_deref(), Some("connection reset by peer"));
}

#[test]
fn retries_transient_5xx_then_succeeds() {
    let mut s = Session::new(opts());
    let url = format!("{SITE}/flaky");
    let (stage, act) = match s.observe(&url) {
        Turn::Ask { stage, act } => (stage, act),
        other => panic!("{other:?}"),
    };
    assert!(matches!(&act, Act::Get { url: u } if *u == url));
    let busy = Outcome::Response {
        result: Ok(page(&url, 503, "<p>temporarily down</p>")),
        retry_after: Some(Span::from_secs(2)),
    };
    let (stage, act) = match s.proceed(stage, busy, 0) {
        Turn::Ask { stage, act } => (stage, act),
        other => panic!("{other:?}"),
    };
    assert!(matches!(&act, Act::Retry { url: u, wait } if *u == url && *wait == Span::from_secs(2)));
    assert!(s.snapshot().is_none(), "a response that is not kept moves nothing");
    let turn = s.proceed(stage, respond(&url, 200, HOME), 0);
    drive(&mut s, turn, &web).0.unwrap();
    assert_eq!(s.snapshot().unwrap().status, 200);
    let outcomes: Vec<(&str, usize, usize)> =
        s.log().iter().map(|e| (e.outcome.as_str(), e.step, e.attempt)).collect();
    assert_eq!(outcomes, vec![("retryable_status", 1, 1), ("ok", 1, 2)]);
    assert_eq!(s.redirect_history().len(), 1);
}

#[test]
fn surfaces_final_status_after_exhausting_retries() {
    let mut s = Session::new(opts()).with_max_action_retries(1);
    let turn = s.observe(&format!("{SITE}/down"));
    let down = |a: &Act| match a {
        Act::Get { url } | Act::Retry { url, .. } => {
            respond(url, 503, "<html><body><p>still down</p></body></html>")
        },
        other => panic!("{other:?}"),
    };
    let (result, requests) = drive(&mut s, turn, &down);
    result.unwrap();
    assert_eq!(requests, 2);
    assert_eq!(s.snapshot().unwrap().status, 503);
    assert_eq!(s.last_failure(), Some("http_status_503"));
    assert_eq!(s.log().last().unwrap().outcome, "verify_failed");
}

#[test]
fn lasting_errors_are_not_retried() {
    let mut s = Session::new(opts());
    let turn = s.observe(&format!("{SITE}/"));
    let denied = |_: &Act| Outcome::Response { result: Err(Error::BlockedAddress), retry_after: None };
    let (result, requests) = drive(&mut s, turn, &denied);
    assert!(matches!(result, Err(Error::BlockedAddress)));
    assert_eq!(requests, 1);
    assert!(s.current_url().is_none());
    assert_eq!(s.steps(), 1);
}

#[test]
fn a_browser_is_called_in_when_forced() {
    let mut s = Session::new(DistillOptions { js_mode: JsMode::Always, js_wait: Some(500), ..opts() });
    let url = format!("{SITE}/");
    let serve = |a: &Act| match a {
        Act::Get { url } => respond(url, 200, HOME),
        Act::Render { url, budget } => {
            assert_eq!(*url, format!("{SITE}/"));
            assert_eq!(*budget, Span::from_millis(500));
            Outcome::Rendered { html: Ok("<html><body><h1>Alive</h1></body></html>".to_string()) }
        },
        other => panic!("{other:?}"),
    };
    let turn = s.observe(&url);
    drive(&mut s, turn, &serve).0.unwrap();
    let snap = s.snapshot().unwrap();
    assert!(snap.markdown.contains("Alive"));
    assert!(snap.diagnostics.as_ref().unwrap().used_headless);
    assert_eq!(s.last_fallback(), Some("forced"));
    assert_eq!(s.loop_view().state.fallback_reason.as_deref(), Some("forced"));
}

#[test]
fn a_failed_rendering_keeps_the_fetched_page() {
    let mut s = Session::new(DistillOptions { js_mode: JsMode::Always, ..opts() });
    let serve = |a: &Act| match a {
        Act::Get { url } => respond(url, 200, HOME),
        _ => Outcome::Rendered {
            html: Err(Error::Outside {
                message: "no browser".to_string(),
                details: "no browser".to_string(),
                transient: false,
            }),
        },
    };
    let turn = s.observe(&format!("{SITE}/"));
    drive(&mut s, turn, &serve).0.unwrap();
    assert!(s.snapshot().unwrap().markdown.contains("Welcome"));
    let outcomes: Vec<&str> = s.log().iter().map(|e| e.outcome.as_str()).collect();
    assert_eq!(outcomes, vec!["chrome_fallback_failed", "ok"]);
}

#[test]
fn a_page_that_is_not_good_enough_is_rendered() {
    let mut s = Session::new(opts());
    let (stage, _) = match s.observe(&format!("{SITE}/")) {
        Turn::Ask { stage, act } => (stage, act),
        other => panic!("{other:?}"),
    };
    let (stage, act) = match s.proceed(stage, respond(&format!("{SITE}/"), 200, HOME), 0) {
        Turn::Ask { stage, act } => (stage, act),
        other => panic!("{other:?}"),
    };
    assert!(matches!(act, Act::Assess));
    let looked = Outcome::Assessed { reason: Some(FallbackReason::JsApp) };
    match s.proceed(stage, looked, 0) {
        Turn::Ask { act: Act::Render { .. }, .. } => {},
        other => panic!("{other:?}"),
    }
    assert_eq!(s.last_fallback(), Some("js_app"));
}

#[test]
fn replies_must_match_their_requests() {
    let mut s = Session::new(opts());
    let stage = match s.observe(&format!("{SITE}/")) {
        Turn::Ask { stage, .. } => stage,
        other => panic!("{other:?}"),
    };
    match s.proceed(stage, Outcome::Assessed { reason: None }, 0) {
        Turn::Done { result: Err(e) } => assert_eq!(e.message(), "reply does not match the request"),
        other => panic!("{other:?}"),
    }
}

#[test]
fn a_page_that_cannot_be_distilled_moves_nothing() {
    let mut s = Session::new(DistillOptions { selector: Some("#none".to_string()), ..opts() });
    let turn = s.observe(&format!("{SITE}/"));
    let (result, _) = drive(&mut s, turn, &web);
    let e = result.unwrap_err();
    assert!(matches!(e, Error::Snapshot { .. }));
    assert_eq!(e.message(), format!("distilling session snapshot for {SITE}/"));
    assert!(s.current_url().is_none());
    assert_eq!(s.log().last().unwrap().outcome, "distill_failed");
}

#[test]
fn only_offered_actions_can_be_taken() {
    let mut s = Session::new(opts());
    match s.follow("link_0") {
        Turn::Done { result: Err(e) } => {
            assert_eq!(e.message(), "no action tree to follow; observe a page first")
        },
        other => panic!("{other:?}"),
    }
    let mut s = at_home();
    match s.follow("link_7") {
        Turn::Done { result: Err(e) } => {
            assert_eq!(e.message(), "no followable action 'link_7' in the current snapshot")
        },
        other => panic!("{other:?}"),
    }
    match s.submit_form("form_7", &vec![], false) {
        Turn::Done { result: Err(e) } => {
            assert_eq!(e.message(), "no form 'form_7' in the current snapshot")
        },
        other => panic!("{other:?}"),
    }
    assert_eq!(s.steps(), 1, "what is refused is no step");
}

#[test]
fn the_log_keeps_the_latest_entries() {
    let mut s = Session::new(opts());
    let denied = |_: &Act| Outcome::Response { result: Err(Error::NoHost), retry_after: None };
    for i in 0..MAX_LOG_ENTRIES + 5 {
        let turn = s.observe(&format!("{SITE}/{i}"));
        assert!(drive(&mut s, turn, &denied).0.is_err());
    }
    assert_eq!(s.log().len(), MAX_LOG_ENTRIES);
    assert_eq!(s.log()[0].step, 6);
    assert_eq!(s.recent_log(3).len(), 3);
    assert_eq!(s.recent_log(3)[2].step, MAX_LOG_ENTRIES + 5);
    assert_eq!(s.recent_log(9999).len(), MAX_LOG_ENTRIES);
}

#[test]
fn long_errors_are_cut_in_the_log() {
    let mut s = Session::new(opts());
    let long = |_: &Act| Outcome::Response {
        result: Err(Error::Outside {
            message: "m".to_string(),
            details: "é".repeat(300),
            transient: false,
        }),
        retry_after: None,
    };
    let turn = s.observe(&format!("{SITE}/"));
    assert!(drive(&mut s, turn, &long).0.is_err());
    let reason = s.log()[0].failure_reason.clone().unwrap();
    assert_eq!(reason, format!("{}…", "é".repeat(200)));
}

fn form() -> FormAction {
    FormAction {
        action_id: "form_0".into(),
        method: "POST".into(),
        action: "https://example.com/login".into(),
        submit_id: "form_0.submit".into(),
        fields: vec![
            FormField {
                name: "csrf".into(),
                kind: "hidden".into(),
                value: Some("tok".into()),
                options: vec![],
                required: false,
            },
            FormField {
                name: "user".into(),
                kind: "text".into(),
                value: None,
                options: vec![],
                required: true,
            },
            FormField {
                name: "role".into(),
                kind: "select".into(),
                value: None,
                options: vec![
                    FormOption {
                        value: "admin".into(),
                        label: "Admin".into(),
                        selected: false,
                    },
                    FormOption {
                        value: "user".into(),
                        label: "User".into(),
                        selected: true,
                    },
                ],
                required: false,
            },
        ],
    }
}

#[test]
fn merge_keeps_defaults_and_applies_user_values() {
    let merged = merge_form_values(&form(), &pairs(&[("user", "alice")]));
    // Hidden csrf carried automatically.
    assert!(merged.contains(&("csrf".into(), "tok".into())));
    // User value applied.
    assert!(merged.contains(&("user".into(), "alice".into())));
    // Selected option's value used for the select.
    assert!(merged.contains(&("role".into(), "user".into())));
}

#[test]
fn user_value_overrides_default() {
    let merged = merge_form_values(&form(), &pairs(&[("csrf", "evil")]));
    let csrf: Vec<_> = merged.iter().filter(|(k, _)| k == "csrf").collect();
    assert_eq!(csrf.len(), 1);
    assert_eq!(csrf[0].1, "evil");
}

#[test]
fn the_last_value_for_a_name_wins() {
    let merged = merge_form_values(&form(), &pairs(&[("a", "1"), ("b", "2"), ("a", "3")]));
    assert_eq!(
        merged,
        pairs(&[("csrf", "tok"), ("role", "user"), ("b", "2"), ("a", "3")])
    );
}

#[test]
fn max_action_retries_is_clamped() {
    let opts = DistillOptions::default();
    let s = Session::new(opts).with_max_action_retries(99);
    assert_eq!(s.max_action_retries(), MAX_ACTION_RETRIES_CAP);
}

#[test]
fn queries_are_encoded() {
    assert_eq!(
        build_query_url("https://e.com/s?old=1", &pairs(&[("q", "a b&c"), ("é", "")])).unwrap(),
        "https://e.com/s?q=a+b%26c&%C3%A9="
    );
    assert!(matches!(build_query_url("nowhere", &vec![]), Err(Error::InvalidUrl { .. })));
}

#[test]
fn sessions_look_at_live_pages() {
    let s = Session::new(DistillOptions { use_cache: true, max_retries: 7, ..opts() });
    assert!(s.options().extract_actions && s.options().diagnostics && !s.options().use_cache);
    let f = session_fetch_options(s.options());
    assert_eq!(f.max_retries, 0);
    assert!(f.allow_local);
}

#[test]
fn errors_stand_in_the_log_as_single_lines() {
    let mut s = Session::new(opts());
    let turn = s.observe(&format!("{SITE}/"));
    let serve = |_: &Act| Outcome::Response {
        result: Err(Error::Outside {
            message: "a".to_string(),
            details: "a\nb\r\nc".to_string(),
            transient: false,
        }),
        retry_after: None,
    };
    let (result, _) = drive(&mut s, turn, &serve);
    assert!(result.is_err());
    assert_eq!(s.log()[0].failure_reason.as_deref(), Some("a b  c"));
}

#[test]
fn queries_have_a_limit() {
    let at_most = MAX_QUERY_BYTES - "http://a/#f".len() - "v".len() - 2;
    let fits = vec![("v".to_string(), "x".repeat(at_most))];
    let url = build_query_url("http://a/#f", &fits).unwrap();
    assert!(url.starts_with("http://a/?v=x") && url.ends_with("x#f"));
    let over = vec![("v".to_string(), "x".repeat(at_most + 1))];
    assert!(matches!(build_query_url("http://a/#f", &over), Err(Error::DocumentTooLarge)));
}
