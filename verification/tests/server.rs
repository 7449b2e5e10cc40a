//! What a server adds: live sessions and request parameters.

use rustbrowser::error::Error;
use rustbrowser::registry::{is_clean_startup_disconnect, Registry, MAX_LIVE_SESSIONS};
use rustbrowser::settings::{
    observe_opts_from, opts_from, opts_from_args, parse_js_mode, parse_profile, session_opts,
    FetchArgs, FetchParams, SessionParams,
};
use rustbrowser::span::Span;
use rustbrowser::{JsMode, Profile};

#[test]
fn startup_initialize_eof_is_clean_disconnect() {
    assert!(is_clean_startup_disconnect("connection closed: initialize request"));
}

#[test]
fn unrelated_startup_error_is_not_clean_disconnect() {
    assert!(!is_clean_startup_disconnect("failed to bind stdio transport"));
}

#[test]
fn disconnects_are_known_in_any_case() {
    assert!(is_clean_startup_disconnect("Connection Closed before the Initialize Request"));
    assert!(!is_clean_startup_disconnect("connection closed"));
}

#[test]
fn session_ids_are_unique() {
    let mut r: Registry<u8> = Registry::new();
    assert_eq!(r.next_session_id(), "sess_0");
    assert_eq!(r.next_session_id(), "sess_1");
    assert_eq!(r.ids_given(), 2);
}

#[test]
fn sessions_are_limited() {
    let mut r: Registry<usize> = Registry::new();
    for i in 0..MAX_LIVE_SESSIONS {
        assert!(r.ensure_session_capacity().is_ok());
        let id = r.next_session_id();
        r.insert_session(id, i).unwrap();
    }
    assert_eq!(r.len(), MAX_LIVE_SESSIONS);
    assert!(matches!(r.ensure_session_capacity(), Err(Error::TooManySessions)));
    let e = r.insert_session("sess_x".to_string(), 1).unwrap_err();
    assert_eq!(
        e.message(),
        "too many live sessions; close one with session_close first (limit 64)"
    );
    assert_eq!(*r.lookup_session("sess_7").unwrap(), 7);
    r.close_session("sess_7").unwrap();
    let e = r.lookup_session("sess_7").unwrap_err();
    assert!(matches!(e, Error::UnknownSession { .. }));
    assert_eq!(e.message(), "unknown session 'sess_7'");
    assert!(r.close_session("sess_7").is_err());
    assert_eq!(r.len(), MAX_LIVE_SESSIONS - 1);
    assert!(r.insert_session("sess_x".to_string(), 1).is_ok());
}

fn nothing() -> FetchParams {
    FetchParams {
        selector: None,
        stats: None,
        timeout_secs: None,
        max_bytes: None,
        no_cache: None,
        cache_ttl: None,
        extract_links: None,
        extract_tables: None,
        links_full: None,
        js: None,
        js_wait: None,
        js_wait_for: None,
        allow_local: None,
        max_retries: None,
        per_host_concurrency: None,
        min_request_interval: Span::zero(),
        respect_robots: None,
        profile: None,
        max_output_tokens: None,
        diagnostics: None,
        extract_actions: None,
        max_actions: None,
    }
}

#[test]
fn parameters_have_usual_values() {
    let o = opts_from(nothing());
    assert_eq!(o.timeout, Span::from_secs(20));
    assert_eq!((o.cache_ttl, o.max_bytes), (3600, 8 * 1024 * 1024));
    assert_eq!((o.max_retries, o.per_host_concurrency), (2, 4));
    assert!(o.use_cache && !o.extract_links && !o.diagnostics && !o.extract_actions);
    assert_eq!((o.js_mode, o.profile), (JsMode::Auto, Profile::Article));
    let o = observe_opts_from(nothing());
    assert!(o.extract_actions && o.diagnostics);
}

#[test]
fn parameters_are_taken_over() {
    let o = opts_from(FetchParams {
        links_full: Some(true),
        no_cache: Some(true),
        js: Some("off".to_string()),
        profile: Some("metadata".to_string()),
        max_actions: Some(3),
        selector: Some("p".to_string()),
        ..nothing()
    });
    assert!(o.extract_links && o.links_full && !o.use_cache);
    assert_eq!((o.js_mode, o.profile), (JsMode::Off, Profile::Metadata));
    assert_eq!(o.max_actions, Some(3));
    assert_eq!(o.selector.as_deref(), Some("p"));
}

#[test]
fn unknown_words_mean_the_usual() {
    assert_eq!(parse_js_mode(Some("always")), JsMode::Always);
    assert_eq!(parse_js_mode(Some("OFF")), JsMode::Auto);
    assert_eq!(parse_js_mode(None), JsMode::Auto);
    assert_eq!(parse_profile(Some("full")), Profile::Full);
    assert_eq!(parse_profile(Some("x")), Profile::Article);
    assert_eq!(parse_profile(None), Profile::Article);
}

#[test]
fn session_options_are_live() {
    let o = session_opts(&SessionParams {
        profile: Some("full".to_string()),
        max_actions: Some(9),
        timeout_secs: Some(5),
        allow_local: Some(true),
        respect_robots: None,
    });
    assert!(!o.use_cache && o.extract_actions && o.diagnostics && o.allow_local);
    assert_eq!((o.timeout, o.profile, o.max_actions), (Span::from_secs(5), Profile::Full, Some(9)));
    assert!(!o.respect_robots);
}

#[test]
fn arguments_become_options() {
    let o = opts_from_args(FetchArgs {
        selector: None,
        stats: true,
        timeout: 7,
        max_bytes: 9,
        no_cache: false,
        cache_ttl: 11,
        links: false,
        links_all: true,
        tables: true,
        js: JsMode::Always,
        js_wait: Some(1),
        js_wait_for: None,
        allow_local: false,
        max_retries: 0,
        per_host_concurrency: 1,
        min_request_interval: Span::from_millis(500),
        respect_robots: true,
        profile: Profile::Full,
        max_output_tokens: Some(2),
        diagnostics: false,
        actions: true,
        max_actions: Some(4),
    });
    assert!(o.measure_tokens && o.use_cache && o.extract_links && o.links_full && o.extract_tables);
    assert_eq!((o.timeout, o.max_bytes, o.cache_ttl), (Span::from_secs(7), 9, 11));
    assert_eq!((o.js_mode, o.js_wait, o.max_retries), (JsMode::Always, Some(1), 0));
    assert_eq!(o.min_request_interval, Span::from_millis(500));
    assert!(o.respect_robots && o.extract_actions);
    assert_eq!(o.max_actions, Some(4));
}
