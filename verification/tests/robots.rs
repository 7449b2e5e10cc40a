//! Asking robots.txt.

use rustbrowser::error::Error;
use rustbrowser::fetch::parse;
use rustbrowser::robots::{
    decide, enforce, robots_url_for, Decision, Lookup, RobotsCache, RobotsReply,
};

fn rules(txt: &str) -> Decision {
    Decision::Rules { agent: "RustBrowser".to_string(), body: txt.as_bytes().to_vec() }
}

fn response(status: u16, body: &str) -> RobotsReply {
    RobotsReply::Response { status, body: body.as_bytes().to_vec() }
}

#[test]
fn disallow_blocks_matching_path() {
    let d = rules("User-agent: *\nDisallow: /private");
    assert!(!d.allows("https://example.com/private/page"));
    assert!(d.allows("https://example.com/public/page"));
}

#[test]
fn allow_all_permits_everything() {
    assert!(Decision::AllowAll.allows("https://example.com/anything"));
}

#[test]
fn empty_robots_allows_all() {
    let d = rules(""); // no rules → unrestricted
    assert!(d.allows("https://example.com/whatever"));
}

#[test]
fn robots_url_is_origin_root() {
    let u = parse("https://example.com:8443/deep/path?q=1#frag").unwrap();
    let r = robots_url_for(&u).unwrap();
    assert_eq!(r.as_str(), "https://example.com:8443/robots.txt");
}

#[test]
fn robots_txt_blocks_only_when_respected() {
    let url = parse("http://127.0.0.1:9/secret/page").unwrap();
    let mut cache = RobotsCache::new();
    assert!(matches!(
        cache.look_up(&url, true),
        Lookup::Fetch { robots_url } if robots_url == "http://127.0.0.1:9/robots.txt"
    ));
    let allowed = cache.learn(&url, response(200, "User-agent: *\nDisallow: /secret"), "RustBrowser");
    assert!(!allowed);
    assert!(matches!(cache.look_up(&url, true), Lookup::Known { allowed: false }));
    let open = parse("http://127.0.0.1:9/open").unwrap();
    assert!(matches!(cache.look_up(&open, true), Lookup::Known { allowed: true }));
    let elsewhere = parse("http://127.0.0.1:10/secret/page").unwrap();
    assert!(matches!(cache.look_up(&elsewhere, true), Lookup::Fetch { .. }));

    // Default (respect_robots = false): the disallow is ignored, fetch succeeds.
    assert!(enforce(false, allowed, &url).is_ok());
    // Opt in: the same path is now refused by robots.txt.
    let err = enforce(true, allowed, &url).unwrap_err();
    assert!(matches!(err, Error::Robots { .. }));
    assert!(err.message().to_lowercase().contains("robots"));
    assert_eq!(err.message(), "blocked by robots.txt: http://127.0.0.1:9/secret/page");
}

#[test]
fn failures_block_nothing() {
    let blocking = "User-agent: *\nDisallow: /";
    for reply in [RobotsReply::Failed, response(404, blocking), response(500, blocking)] {
        assert!(decide(reply, "RustBrowser").allows("https://e.com/x"));
    }
    assert!(!decide(response(200, blocking), "RustBrowser").allows("https://e.com/x"));
}

#[test]
fn an_unreachable_robots_txt_blocks_nothing() {
    let url = parse("http://127.0.0.1/").unwrap();
    assert!(matches!(RobotsCache::new().look_up(&url, false), Lookup::Nowhere));
}

#[test]
fn decisions_are_kept_by_origin() {
    let mut cache = RobotsCache::new();
    assert!(cache.cached("https://e.com").is_none());
    cache.store("https://e.com".to_string(), Decision::AllowAll);
    assert!(matches!(cache.cached("https://e.com"), Some(Decision::AllowAll)));
    assert!(cache.cached("http://e.com").is_none());
}

#[test]
fn robots_url_has_no_user_name_and_no_password() {
    let u = parse("https://u:p@example.com:8443/deep/path?q=1#frag").unwrap();
    assert_eq!(robots_url_for(&u).as_deref(), Some("https://example.com:8443/robots.txt"));
    let u = parse("HTTP://me@EXAMPLE.com:80/x").unwrap();
    assert_eq!(robots_url_for(&u).as_deref(), Some("http://example.com/robots.txt"));
    let u = parse("blob:https://example.com/x").unwrap();
    assert_eq!(robots_url_for(&u), None);
}
