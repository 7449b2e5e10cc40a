//! The rules of fetching.

use rustbrowser::fetch::{
    append_chunk, backoff_delay, backoff_delay_at, charset_from_content_type, charset_from_head,
    charset_from_html_meta, check_url, decode_body, finish_attempt, host_key, ip_allowed,
    is_blocked_ip, is_retryable_status, is_transient_error, next_hop, next_post_hop, next_retry, parse,
    parse_and_validate_url_basics, parse_retry_after, permits, redirect_target, reserve,
    screen_resolved_addrs, start_hops, validate_cached_url, Cause, Endpoint, FetchOptions, Hop,
    HopStep, Location, PostStep, Tried,
};
use rustbrowser::error::Error;
use rustbrowser::span::Span;
use rustbrowser::weburl::{is_web_url, make_absolute, Ip};

fn v4(a: u8, b: u8, c: u8, d: u8) -> Endpoint {
    Endpoint { ip: Ip::V4((a, b, c, d)), port: 0 }
}

#[test]
fn rejects_non_http_schemes_and_local_hosts() {
    assert!(validate_cached_url("file:///etc/passwd", false).is_err());
    assert!(validate_cached_url("http://localhost:3000", false).is_err());
    assert!(validate_cached_url("http://127.0.0.1:8080", false).is_err());
    assert!(validate_cached_url("http://[::1]/", false).is_err());
    assert!(validate_cached_url("http://169.254.169.254/latest/meta-data/", false).is_err());
}

#[test]
fn accepts_public_http_urls() {
    assert!(validate_cached_url("https://example.com/article", false).is_ok());
}

#[test]
fn rejects_cgnat_zero_and_nat64() {
    // CGNAT 100.64.0.0/10
    assert!(validate_cached_url("http://100.64.0.1/", false).is_err());
    assert!(validate_cached_url("http://100.127.255.254/", false).is_err());
    // 0.0.0.0/8 beyond 0.0.0.0 itself
    assert!(validate_cached_url("http://0.0.0.1/", false).is_err());
    // NAT64 64:ff9b::/96 embedding 127.0.0.1
    assert!(validate_cached_url("http://[64:ff9b::7f00:1]/", false).is_err());
    // A normal public IP in the 100.x but outside CGNAT stays allowed.
    assert!(validate_cached_url("http://100.0.0.1/", false).is_ok());
}

#[test]
fn allow_local_frees_only_loopback() {
    // With allow_local, loopback + localhost become reachable…
    assert!(validate_cached_url("http://127.0.0.1:8080", true).is_ok());
    assert!(validate_cached_url("http://localhost:3000", true).is_ok());
    assert!(validate_cached_url("http://[::1]/", true).is_ok());
    // …but private LAN and cloud metadata stay blocked even then.
    assert!(validate_cached_url("http://10.0.0.1/", true).is_err());
    assert!(validate_cached_url("http://192.168.1.1/", true).is_err());
    assert!(validate_cached_url("http://169.254.169.254/", true).is_err());
}

#[test]
fn refusals_name_their_reason() {
    assert!(matches!(validate_cached_url("::", false), Err(Error::InvalidUrl { .. })));
    assert!(matches!(
        validate_cached_url("ftp://example.com/", false),
        Err(Error::Scheme { scheme }) if scheme == "ftp"
    ));
    assert!(matches!(validate_cached_url("http://localhost/", false), Err(Error::LocalName)));
    assert!(matches!(validate_cached_url("http://a.localhost/", false), Err(Error::LocalName)));
    assert!(matches!(validate_cached_url("http://10.1.2.3/", false), Err(Error::BlockedAddress)));
    let mut bare = parse("http://example.com/").unwrap();
    bare.host = None;
    bare.host_text = None;
    assert!(matches!(check_url(&bare, false), Err(Error::NoHost)));
}

#[test]
fn urls_come_apart() {
    let u = parse_and_validate_url_basics("HTTP://Example.COM:8080/a?b#c", false).unwrap();
    assert_eq!(u.href, "http://example.com:8080/a?b#c");
    assert_eq!(u.scheme, "http");
    assert_eq!(u.host_text.as_deref(), Some("example.com"));
    assert!(parse("no url").is_none());
}

#[test]
fn references_are_resolved() {
    let base = Some("https://e.com/a/b".to_string());
    assert_eq!(make_absolute(&base, "c").as_deref(), Some("https://e.com/a/c"));
    assert_eq!(make_absolute(&None, "c"), None);
    assert!(is_web_url("https://e.com/"));
    assert!(!is_web_url("mailto:a@e.com"));
}

#[test]
fn screen_resolved_addrs_rejects_all_private() {
    // A host whose addresses are all internal is refused outright.
    let blocked = vec![v4(127, 0, 0, 1), v4(169, 254, 169, 254), v4(10, 0, 0, 5)];
    assert!(screen_resolved_addrs("evil.example", &blocked, false).is_err());
}

#[test]
fn screen_resolved_addrs_keeps_only_public() {
    // Mixed resolution: internal addresses are dropped, public ones survive.
    let public = v4(8, 8, 8, 8);
    let mixed = vec![v4(192, 168, 1, 1), public];
    let safe = screen_resolved_addrs("mixed.example", &mixed, false).unwrap();
    assert_eq!(safe, vec![public]);
}

#[test]
fn screen_resolved_addrs_allow_local_keeps_loopback() {
    let loopback = v4(127, 0, 0, 1);
    let safe = screen_resolved_addrs("local.test", &vec![loopback], true).unwrap();
    assert_eq!(safe, vec![loopback]);
    // metadata is still dropped even with allow_local
    let meta = v4(169, 254, 169, 254);
    assert!(screen_resolved_addrs("meta.test", &vec![meta], true).is_err());
}

#[test]
fn screening_an_empty_answer_fails() {
    let e = screen_resolved_addrs("gone.test", &vec![], false).unwrap_err();
    assert_eq!(
        e.message(),
        "refusing to connect to gone.test: all resolved addresses are private, local, link-local, or metadata"
    );
}

#[test]
fn blocked_ranges_have_exact_ends() {
    let blocked = |a, b, c, d| is_blocked_ip(Ip::V4((a, b, c, d)));
    assert!(blocked(172, 16, 0, 0) && blocked(172, 31, 255, 255));
    assert!(!blocked(172, 15, 0, 0) && !blocked(172, 32, 0, 0));
    assert!(blocked(224, 0, 0, 1) && blocked(239, 255, 255, 255));
    assert!(!blocked(223, 255, 255, 255) && !blocked(240, 0, 0, 1));
    assert!(blocked(255, 255, 255, 255) && !blocked(255, 255, 255, 254));
    let six = |s0, s5, s6, s7| is_blocked_ip(Ip::V6((s0, 0, 0, 0, 0, s5, s6, s7)));
    assert!(six(0xfe80, 0, 0, 1) && six(0xfebf, 0, 0, 1) && !six(0xfec0, 0, 0, 1));
    assert!(six(0xfc00, 0, 0, 1) && six(0xfdff, 0, 0, 1) && six(0xff02, 0, 0, 1));
    assert!(six(0, 0, 0, 0) && six(0, 0, 0, 1) && !six(0x2001, 0, 0, 1));
    assert!(six(0, 0xffff, 0x7f00, 1) && !six(0, 0xffff, 0x0808, 0x0808));
    assert!(ip_allowed(Ip::V6((0, 0, 0, 0, 0, 0, 0, 1)), true));
    assert!(!ip_allowed(Ip::V6((0, 0, 0, 0, 0, 0xffff, 0xa9fe, 0xa9fe)), true));
}

#[test]
fn decodes_declared_charset() {
    let html = decode_body(b"\xa4\xa4\xa4\xe5", Some("text/html; charset=big5"));
    assert_eq!(html, "中文");
}

#[test]
fn utf8_is_the_fallback() {
    assert_eq!(decode_body("déjà".as_bytes(), None), "déjà");
    assert_eq!(decode_body("déjà".as_bytes(), Some("text/html; charset=no-such")), "déjà");
    assert_eq!(decode_body(b"a\xffb", None), "a\u{fffd}b");
}

#[test]
fn the_page_declares_its_charset() {
    let mut page = b"<meta charset=big5><p>".to_vec();
    page.extend_from_slice(b"\xa4\xa4</p>");
    assert_eq!(decode_body(&page, None), "<meta charset=big5><p>中</p>");
}

#[test]
fn extracts_charset_from_meta_tag() {
    let bytes = br#"<html><head><meta charset="shift_jis"></head></html>"#;
    assert_eq!(charset_from_html_meta(bytes).as_deref(), Some("shift_jis"));
}

#[test]
fn charsets_are_found_in_content_types() {
    let of = |s: &str| charset_from_content_type(s);
    assert_eq!(of("text/html; Charset = \"utf-8\" ; x=y").as_deref(), Some("utf-8"));
    assert_eq!(of("text/html"), None);
    assert_eq!(
        charset_from_head("<meta http-equiv=x content='text/html; charset=big5'>").as_deref(),
        Some("big5")
    );
    assert_eq!(charset_from_head("<p>x</p>"), None);
}

#[test]
fn retryable_statuses_are_429_and_5xx_subset() {
    for s in [429, 500, 502, 503, 504] {
        assert!(is_retryable_status(s), "{s} should retry");
    }
    for s in [200, 301, 400, 403, 404, 418] {
        assert!(!is_retryable_status(s), "{s} should not retry");
    }
}

#[test]
fn retry_after_parses_seconds_and_caps() {
    assert_eq!(parse_retry_after(Some("3")), Some(Span::from_secs(3)));
    // Absurd values are capped so a server can't park us for ages.
    assert_eq!(parse_retry_after(Some("99999")), Some(Span::from_secs(60)));
    // HTTP-date form is ignored (we fall back to backoff).
    assert_eq!(parse_retry_after(Some("Wed, 21 Oct 2026 07:28:00 GMT")), None);
    assert_eq!(parse_retry_after(None), None);
}

#[test]
fn retry_after_takes_numbers_only() {
    assert_eq!(parse_retry_after(Some(" 7 ")), Some(Span::from_secs(7)));
    assert_eq!(parse_retry_after(Some("+7")), Some(Span::from_secs(7)));
    assert_eq!(parse_retry_after(Some("-1")), None);
    assert_eq!(parse_retry_after(Some("")), None);
    assert_eq!(parse_retry_after(Some("99999999999999999999999")), None);
}

#[test]
fn backoff_grows_and_stays_bounded() {
    let d0 = backoff_delay(0);
    assert!(d0.as_millis() >= 200 && d0.as_millis() < 300);
    let d3 = backoff_delay(3); // base 1600 ms
    assert!(d3.as_millis() >= 1600);
    // Capped at 10 s base + ≤25% jitter regardless of how high the attempt is.
    assert!(backoff_delay(50).as_millis() <= 12_500);
}

#[test]
fn backoff_has_exact_values() {
    assert_eq!(backoff_delay_at(0, 0), Span::from_millis(200));
    assert_eq!(backoff_delay_at(0, 49), Span::from_millis(249));
    assert_eq!(backoff_delay_at(0, 52), Span::from_millis(202));
    assert_eq!(backoff_delay_at(1, 0), Span::from_millis(400));
    assert_eq!(backoff_delay_at(5, 0), Span::from_millis(6400));
    assert_eq!(backoff_delay_at(6, 0), Span::from_millis(10_000));
}

#[test]
fn tries_are_bounded() {
    let busy = Tried::Response { status: 503, retry_after: Some(Span::from_secs(2)) };
    assert_eq!(next_retry(0, 1, &busy, 0), Some(Span::from_secs(2)));
    assert_eq!(next_retry(1, 1, &busy, 0), None);
    let fine = Tried::Response { status: 200, retry_after: None };
    assert_eq!(next_retry(0, 5, &fine, 0), None);
    let cut_off = Tried::Error { transient: true };
    assert_eq!(next_retry(0, 5, &cut_off, 0), Some(Span::from_millis(200)));
    assert_eq!(next_retry(0, 5, &Tried::Error { transient: false }, 0), None);
}

#[test]
fn only_connection_trouble_passes() {
    assert!(is_transient_error(&vec![Cause::Other, Cause::Unreachable]));
    assert!(!is_transient_error(&vec![Cause::Unreachable, Cause::Denied]));
    assert!(!is_transient_error(&vec![Cause::Other]));
    assert!(!is_transient_error(&vec![]));
}

#[test]
fn host_key_is_normalised_host() {
    assert_eq!(host_key(&parse("https://Example.COM/a/b?x=1").unwrap()), "example.com");
    assert_eq!(host_key(&parse("http://8.8.8.8:8080/").unwrap()), "8.8.8.8");
}

fn text(s: &str) -> Location {
    Location::Text(s.to_string())
}

#[test]
fn follows_relative_redirect_to_final_content() {
    let opts = FetchOptions { allow_local: true, ..FetchOptions::default() };
    let start = "http://127.0.0.1:9/start";
    let hop = start_hops(start, true).unwrap();
    assert_eq!((hop.url.as_str(), hop.count), (start, 0));
    let next = match next_hop(start, &hop, 302, &text("/final"), start, &opts) {
        HopStep::Follow(h) => h,
        other => panic!("{other:?}"),
    };
    assert_eq!((next.url.as_str(), next.count), ("http://127.0.0.1:9/final", 1));
    let end = next_hop(start, &next, 200, &Location::Absent, &next.url, &opts);
    assert!(matches!(end, HopStep::Accept));
}

#[test]
fn refuses_redirect_to_metadata_ip() {
    let opts = FetchOptions { allow_local: true, ..FetchOptions::default() };
    let url = "http://127.0.0.1:9/evil";
    let hop = start_hops(url, true).unwrap();
    let to = text("http://169.254.169.254/latest/meta-data/");
    match next_hop(url, &hop, 302, &to, url, &opts) {
        HopStep::Fail(e) => {
            let msg = e.message().to_lowercase();
            assert!(
                msg.contains("refus") || msg.contains("metadata") || msg.contains("private"),
                "unexpected error message: {msg}"
            );
        },
        other => panic!("{other:?}"),
    }
}

#[test]
fn blocks_loopback_without_allow_local() {
    assert!(start_hops("http://127.0.0.1:9/x", false).is_err());
}

#[test]
fn redirects_have_an_end() {
    let opts = FetchOptions::default();
    let url = "https://e.com/";
    let last = Hop { url: url.to_string(), count: opts.max_redirects };
    match next_hop(url, &last, 301, &text("/x"), url, &opts) {
        HopStep::Fail(e) => assert_eq!(
            e.message(),
            "too many redirects while requesting https://e.com/"
        ),
        other => panic!("{other:?}"),
    }
}

#[test]
fn forms_stay_within_their_origin() {
    let opts = FetchOptions::default();
    let url = "https://e.com/login";
    let hop = start_hops(url, false).unwrap();
    let step = |status, to: &str| next_post_hop(url, &hop, status, &text(to), url, &opts);
    assert!(matches!(step(307, "/in"), PostStep::Resend(h) if h.url == "https://e.com/in"));
    assert!(matches!(step(308, "https://e.com:443/in"), PostStep::Resend(_)));
    assert!(matches!(step(303, "https://other.com/"), PostStep::Follow(h) if h.count == 1));
    match step(307, "http://e.com/in") {
        PostStep::Fail(e) => assert_eq!(
            e.message(),
            "refusing to forward form data to another origin: http://e.com/in"
        ),
        other => panic!("{other:?}"),
    }
    assert!(matches!(step(302, "http://10.0.0.1/"), PostStep::Fail(Error::BlockedAddress)));
    let page = next_post_hop(url, &hop, 200, &Location::Absent, url, &opts);
    assert!(matches!(page, PostStep::Accept));
}

#[test]
fn odd_locations_are_handled() {
    let at = "https://e.com/";
    assert!(matches!(redirect_target(at, &Location::Absent, false), Ok(None)));
    assert!(matches!(
        redirect_target(at, &Location::NotText, false),
        Err(Error::LocationNotText)
    ));
    assert!(matches!(
        redirect_target(at, &text("http://[bad"), false),
        Err(Error::BadLocation { .. })
    ));
    assert!(matches!(redirect_target(at, &text("ftp://e.com/"), false), Err(Error::Scheme { .. })));
    assert_eq!(
        redirect_target(at, &text("b?c"), false).unwrap().as_deref(),
        Some("https://e.com/b?c")
    );
}

#[test]
fn starts_are_spaced() {
    let ms = Span::from_millis;
    let (next, wait) = reserve(None, ms(1000), ms(100));
    assert_eq!((next, wait), (Some(ms(1100)), ms(0)));
    let (next, wait) = reserve(next, ms(1010), ms(100));
    assert_eq!((next, wait), (Some(ms(1200)), ms(90)));
    let (next, wait) = reserve(next, ms(1020), ms(100));
    assert_eq!((next, wait), (Some(ms(1300)), ms(180)));
    assert_eq!(permits(0, 1_000_000), 1_000_000);
    assert_eq!(permits(4, 1_000_000), 4);
}

#[test]
fn bodies_are_capped_whatever_their_chunks() {
    let mut whole = Vec::new();
    assert!(!append_chunk(&mut whole, b"abcdefgh", 5));
    let mut pieces = Vec::new();
    assert!(append_chunk(&mut pieces, b"ab", 5));
    assert!(append_chunk(&mut pieces, b"cd", 5));
    assert!(!append_chunk(&mut pieces, b"efgh", 5));
    assert_eq!(whole, b"abcde");
    assert_eq!(pieces, whole);
}

#[test]
fn an_attempt_keeps_what_the_response_said() {
    let a = finish_attempt(
        "https://e.com/",
        503,
        Some("text/html; charset=big5"),
        Some("5"),
        b"\xa4\xa4",
    );
    assert_eq!(a.res.final_url, "https://e.com/");
    assert_eq!(a.res.status, 503);
    assert_eq!(a.res.content_type.as_deref(), Some("text/html; charset=big5"));
    assert_eq!(a.res.html, "中");
    assert_eq!(a.res.raw_bytes, 2);
    assert_eq!(a.retry_after, Some(Span::from_secs(5)));
}
