//! Rendering in a headless browser.

use rustbrowser::render::{
    base_headless_args, browser_paths, cap_dom, debugging_args, dump_dom_args, find_page_socket,
    is_truthy_flag, keep_unless_blank, looks_like_js_app, next_probe, no_sandbox_requested, read_dom,
    read_dump, read_port, visible_below, Probe, Target, MAX_RENDER_BYTES,
};
use rustbrowser::span::Span;

#[test]
fn detects_spa_markers() {
    assert!(looks_like_js_app(r#"<div id="root"></div>"#));
    assert!(looks_like_js_app(r#"<script>window.__NUXT__={}</script>"#));
    assert!(looks_like_js_app(r#"<app-root></app-root>"#));
}

#[test]
fn plain_article_is_not_a_js_app() {
    let html = "<html><body><article><h1>Title</h1><p>Real content here.</p>\
                    </article></body></html>";
    assert!(!looks_like_js_app(html));
}

#[test]
fn script_heavy_page_is_flagged() {
    let html = "<html><head><script src=\"a.js\"></script>\
                    <script>var x = 1;</script></head><body><div></div></body></html>";
    assert!(looks_like_js_app(html));
}

#[test]
fn truthy_flag_parsing() {
    assert!(is_truthy_flag("1"));
    assert!(is_truthy_flag("true"));
    assert!(is_truthy_flag("YES"));
    assert!(!is_truthy_flag("0"));
    assert!(!is_truthy_flag("false"));
    assert!(!is_truthy_flag("False"));
    assert!(!is_truthy_flag(""));
    assert!(!is_truthy_flag("   "));
}

#[test]
fn base_args_keep_sandbox_by_default() {
    for flag in [None, Some("0"), Some("1")] {
        let args = base_headless_args(flag);
        assert!(args.iter().any(|a| a == "--headless=new"));
        // --no-sandbox only ever appears via the explicit opt-in path.
        assert_eq!(args.iter().any(|a| a == "--no-sandbox"), no_sandbox_requested(flag));
    }
    assert!(!no_sandbox_requested(None));
    assert!(no_sandbox_requested(Some("1")));
}

#[test]
fn arguments_name_url_and_time() {
    let args = dump_dom_args(None, "https://e.com/", Span::from_millis(1500));
    assert!(args.iter().any(|a| a == "--virtual-time-budget=1500"));
    assert!(args.iter().any(|a| a == "--dump-dom"));
    assert_eq!(args.last().map(String::as_str), Some("https://e.com/"));
    let args = debugging_args(None, "/tmp/profile");
    assert!(args.iter().any(|a| a == "--remote-debugging-port=0"));
    assert!(args.iter().any(|a| a == "--user-data-dir=/tmp/profile"));
}

#[test]
fn the_port_stands_in_the_first_line() {
    assert_eq!(read_port("9222\n/devtools/browser/x\n"), Some(9222));
    assert_eq!(read_port("70000\n"), None);
    assert_eq!(read_port("x\n"), None);
    assert_eq!(read_port(""), None);
}

#[test]
fn cap_dom_truncates_oversized_input() {
    let big = "a".repeat(MAX_RENDER_BYTES + 1000);
    let capped = cap_dom(big);
    assert!(capped.len() <= MAX_RENDER_BYTES);
}

#[test]
fn cap_dom_passes_small_input_through() {
    let small = "<html><body>hi</body></html>".to_string();
    assert_eq!(cap_dom(small.clone()), small);
}

#[test]
fn cap_dom_respects_char_boundaries() {
    // A multi-byte char straddling the cap must not be split into invalid
    // UTF-8 (truncation only happens past the limit; just assert validity).
    let s = "界".repeat(MAX_RENDER_BYTES); // 3 bytes each → well over the cap
    let capped = cap_dom(s);
    assert!(capped.len() <= MAX_RENDER_BYTES);
    // If it compiled to a String it is valid UTF-8; round-trip to be sure.
    assert!(std::str::from_utf8(capped.as_bytes()).is_ok());
}

#[test]
fn cap_dom_keeps_all_that_fits() {
    let mut s = "a".repeat(MAX_RENDER_BYTES - 1);
    s.push('é');
    assert_eq!(cap_dom(s).len(), MAX_RENDER_BYTES - 1);
}

#[test]
fn blank_documents_are_none() {
    assert_eq!(read_dump(b"  \n"), None);
    assert_eq!(read_dump(b"<p>x</p>").as_deref(), Some("<p>x</p>"));
    assert_eq!(read_dump(b"a\xff").as_deref(), Some("a\u{fffd}"));
    assert_eq!(keep_unless_blank(" ".to_string()), None);
    assert_eq!(read_dom("<p>".to_string()).as_deref(), Some("<p>"));
    assert_eq!(read_dom(String::new()), None);
}

#[test]
fn visible_text_leaves_blanks_out() {
    assert!(visible_below("a b", 3));
    assert!(!visible_below("a b c", 3));
}

#[test]
fn browsers_are_looked_for_in_order() {
    let usual = browser_paths(None);
    assert_eq!(usual.len(), 9);
    assert_eq!(usual[0], r"C:\Program Files\Google\Chrome\Application\chrome.exe");
    assert_eq!(usual[5], "/usr/bin/google-chrome");
    assert_eq!(browser_paths(Some("")), usual);
    let own = browser_paths(Some("/opt/chrome"));
    assert_eq!(own[0], "/opt/chrome");
    assert_eq!(own[1..], usual[..]);
}

#[test]
fn the_first_page_is_driven() {
    let target = |kind: Option<&str>, socket: Option<&str>| Target {
        kind: kind.map(str::to_string),
        socket: socket.map(str::to_string),
    };
    let targets = vec![
        target(Some("worker"), Some("ws://a")),
        target(None, Some("ws://b")),
        target(Some("page"), Some("ws://c")),
        target(Some("page"), Some("ws://d")),
    ];
    assert_eq!(find_page_socket(&targets).as_deref(), Some("ws://c"));
    assert_eq!(find_page_socket(&vec![target(Some("page"), None)]), None);
    assert_eq!(find_page_socket(&vec![]), None);
}

#[test]
fn probing_ends_with_a_capture() {
    assert_eq!(next_probe(3, true, false), Probe::Capture { id: 4 });
    assert_eq!(next_probe(3, false, true), Probe::Capture { id: 5 });
    assert_eq!(next_probe(3, false, false), Probe::Again { id: 4 });
}

#[test]
fn replacement_characters_stay_within_the_cap() {
    let dom = read_dump(&vec![0xffu8; MAX_RENDER_BYTES]).unwrap();
    assert!(dom.len() <= MAX_RENDER_BYTES);
    assert_eq!(dom.len(), MAX_RENDER_BYTES - MAX_RENDER_BYTES % 3);
}
