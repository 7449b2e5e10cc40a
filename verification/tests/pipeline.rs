//! The whole pipeline, with hand-written replies.

use rustbrowser::cache::{CachedFetch, CachedRender};
use rustbrowser::error::Error;
use rustbrowser::extract::Extracted;
use rustbrowser::fetch::{append_chunk, finish_attempt, FetchResult, DEFAULT_UA};
use rustbrowser::pipeline::{
    advance, begin, fetch_options, join_selection, plan_render, rendering_budget, select_html,
    summarize, wants_rendering, Next, Reply, Request, Step, Store,
};
use rustbrowser::span::Span;
use rustbrowser::tokens;
use rustbrowser::{distill_html, DistillOptions, Distilled, JsMode, Profile};

const ARTICLE: &str = r#"<!DOCTYPE html>
<html>
<head><title>Test Article</title></head>
<body>
  <nav>HomeLink AboutLink ContactLink</nav>
  <article>
    <h1>The Main Headline</h1>
    <p>This is the first substantial paragraph of the article body, written long
    enough that the readability extractor keeps it as the primary content of the
    page rather than discarding it as boilerplate.</p>
    <p>A second paragraph continues the story with further meaningful prose, so
    the extractor stays confident that this block is the real article worth
    keeping in the distilled output.</p>
  </article>
  <footer>CopyrightFooter 2026</footer>
</body>
</html>"#;

const APP: &str = "<html><head><title>App</title></head><body><div id=\"root\"></div>\
    <p>Loading</p><script src=\"a.js\"></script></body></html>";

fn local_opts() -> DistillOptions {
    DistillOptions {
        use_cache: false,
        allow_local: true,
        js_mode: JsMode::Off,
        ..Default::default()
    }
}

fn page(url: &str, status: u16, html: &str) -> FetchResult {
    FetchResult {
        final_url: url.to_string(),
        status,
        content_type: Some("text/html".to_string()),
        html: html.to_string(),
        raw_bytes: html.len(),
    }
}

fn name(r: &Request) -> String {
    match r {
        Request::ReadCache { url } => format!("cache {url}"),
        Request::CheckRobots { url } => format!("robots {url}"),
        Request::Fetch { url } => format!("fetch {url}"),
        Request::ReadRender { .. } => "rendered?".to_string(),
        Request::Render { .. } => "render".to_string(),
    }
}

/// Runs the pipeline to its end; gives the result, the requests and what was stored.
fn run(
    url: &str,
    opts: &DistillOptions,
    answer: &dyn Fn(&Request) -> Reply,
) -> (Result<Distilled, Error>, Vec<String>, Vec<Store>) {
    let mut asked = Vec::new();
    let mut stored = Vec::new();
    let mut step: Step = begin(url, opts);
    loop {
        if let Some(s) = step.store {
            stored.push(s);
        }
        match step.next {
            Next::Ask { stage, request } => {
                asked.push(name(&request));
                let reply = answer(&request);
                step = advance(stage, reply, 1000, opts);
            },
            Next::Done { result } => return (result, asked, stored),
        }
    }
}

fn serve_article(r: &Request) -> Reply {
    match r {
        Request::Fetch { url } => Reply::Fetched { result: Ok(page(url, 200, ARTICLE)) },
        Request::ReadCache { .. } => Reply::Cached { entry: None },
        other => panic!("{other:?}"),
    }
}

#[test]
fn distills_basic_html_to_markdown() {
    let (d, asked, stored) = run("http://127.0.0.1:9/article", &local_opts(), &serve_article);
    let d = d.unwrap();
    assert_eq!(asked, vec!["fetch http://127.0.0.1:9/article"]);
    assert!(stored.is_empty());

    assert_eq!(d.status, 200);
    assert!(d.title.contains("Test Article"), "title: {}", d.title);
    assert!(d.markdown.contains("The Main Headline"));
    assert!(d.markdown.contains("first substantial paragraph"));
    // Navigation and footer chrome are stripped by readability.
    assert!(!d.markdown.contains("ContactLink"), "nav leaked: {}", d.markdown);
    assert!(!d.markdown.contains("CopyrightFooter"), "footer leaked: {}", d.markdown);
}

#[test]
fn decodes_big5_charset() {
    let body: &[u8] = b"<html><body><p>\xa4\xa4\xa4\xe5</p></body></html>";
    let opts = DistillOptions { selector: Some("p".into()), ..local_opts() };
    let (d, _, _) = run("http://127.0.0.1:9/big5", &opts, &|r| match r {
        Request::Fetch { url } => Reply::Fetched {
            result: Ok(finish_attempt(url, 200, Some("text/html; charset=big5"), None, body).res),
        },
        other => panic!("{other:?}"),
    });
    let d = d.unwrap();
    assert!(d.markdown.contains("中文"), "charset not decoded: {}", d.markdown);
}

#[test]
fn respects_max_bytes_limit() {
    // A 50 KB body; the fetch must keep at most max_bytes of it.
    let big = format!("<html><body><p>{}</p></body></html>", "a".repeat(50_000));
    let opts = DistillOptions { selector: Some("p".into()), max_bytes: 1024, ..local_opts() };
    let (d, _, _) = run("http://127.0.0.1:9/big", &opts, &|r| match r {
        Request::Fetch { url } => {
            let mut body = Vec::new();
            append_chunk(&mut body, big.as_bytes(), fetch_options(&opts).max_bytes);
            Reply::Fetched { result: Ok(finish_attempt(url, 200, Some("text/html"), None, &body).res) }
        },
        other => panic!("{other:?}"),
    });
    let d = d.unwrap();
    // The retained content is far below the 50 KB original, but non-empty.
    assert!(d.markdown.len() > 100, "got nothing: len={}", d.markdown.len());
    assert!(d.markdown.len() < 10_000, "body not capped: len={}", d.markdown.len());
}

#[test]
fn surfaces_http_404_status() {
    let opts = DistillOptions { selector: Some("p".into()), ..local_opts() };
    let (d, _, _) = run("http://127.0.0.1:9/missing", &opts, &|r| match r {
        Request::Fetch { url } => Reply::Fetched {
            result: Ok(page(url, 404, "<html><body><p>Not Found Here</p></body></html>")),
        },
        other => panic!("{other:?}"),
    });
    let d = d.unwrap();
    assert_eq!(d.status, 404);
    assert!(d.markdown.contains("Not Found Here"));
}

#[test]
fn refused_urls_go_nowhere() {
    let (d, asked, stored) = run("http://10.0.0.1/", &DistillOptions::default(), &serve_article);
    assert!(matches!(d, Err(Error::BlockedAddress)));
    assert!(asked.is_empty() && stored.is_empty());
}

#[test]
fn fetched_pages_are_stored() {
    let opts = DistillOptions { js_mode: JsMode::Off, ..Default::default() };
    let url = "https://example.com/a";
    let (d, asked, stored) = run(url, &opts, &serve_article);
    assert!(d.is_ok());
    assert_eq!(asked, vec![format!("cache {url}"), format!("fetch {url}")]);
    match &stored[..] {
        [Store::Fetch { url: u, entry }] => {
            assert_eq!(u, url);
            assert_eq!(entry.fetched_at, 1000);
            assert_eq!(entry.html, ARTICLE);
        },
        other => panic!("{other:?}"),
    }
}

fn cached(final_url: &str) -> CachedFetch {
    CachedFetch {
        fetched_at: 900,
        final_url: final_url.to_string(),
        status: 200,
        content_type: None,
        html: ARTICLE.to_string(),
        raw_bytes: ARTICLE.len(),
    }
}

#[test]
fn cached_pages_are_checked_and_served() {
    let opts = DistillOptions { js_mode: JsMode::Off, ..Default::default() };
    let (d, asked, stored) = run("https://example.com/a", &opts, &|r| match r {
        Request::ReadCache { .. } => Reply::Cached { entry: Some(cached("https://example.com/b")) },
        Request::CheckRobots { .. } => Reply::Robots { refusal: None },
        other => panic!("{other:?}"),
    });
    assert_eq!(d.unwrap().final_url, "https://example.com/b");
    assert_eq!(
        asked,
        vec![
            "cache https://example.com/a",
            "robots https://example.com/a",
            "robots https://example.com/b"
        ]
    );
    assert!(stored.is_empty());
}

#[test]
fn stale_entries_are_not_served() {
    let opts = DistillOptions { js_mode: JsMode::Off, cache_ttl: 99, ..Default::default() };
    let url = "https://example.com/a";
    let (d, asked, _) = run(url, &opts, &|r| match r {
        Request::ReadCache { .. } => Reply::Cached { entry: Some(cached(url)) },
        Request::Fetch { url } => Reply::Fetched { result: Ok(page(url, 200, ARTICLE)) },
        other => panic!("{other:?}"),
    });
    assert!(d.is_ok());
    assert_eq!(asked, vec![format!("cache {url}"), format!("fetch {url}")]);
}

#[test]
fn refused_entries_are_not_served() {
    let opts = DistillOptions { js_mode: JsMode::Off, ..Default::default() };
    let (d, _, _) = run("https://example.com/a", &opts, &|r| match r {
        Request::ReadCache { .. } => Reply::Cached { entry: Some(cached("http://127.0.0.1/")) },
        other => panic!("{other:?}"),
    });
    assert!(matches!(d, Err(Error::BlockedAddress)));
    let (d, _, _) = run("https://example.com/a", &opts, &|r| match r {
        Request::ReadCache { .. } => Reply::Cached { entry: Some(cached("https://example.com/b")) },
        Request::CheckRobots { url } => Reply::Robots {
            refusal: Some(Error::Robots { url: url.clone() }),
        },
        other => panic!("{other:?}"),
    });
    assert!(matches!(d, Err(Error::Robots { .. })));
}

#[test]
fn apps_are_rendered() {
    let opts = DistillOptions { profile: Profile::Full, ..Default::default() };
    let url = "https://example.com/app";
    let (d, asked, stored) = run(url, &opts, &|r| match r {
        Request::ReadCache { .. } => Reply::Cached { entry: None },
        Request::Fetch { url } => Reply::Fetched { result: Ok(page(url, 200, APP)) },
        Request::ReadRender { .. } => Reply::CachedRender { rendered: None },
        Request::Render { plan } => {
            assert_eq!(plan.url, url);
            Reply::Rendered { html: Some("<html><body><p>Alive</p></body></html>".to_string()) }
        },
        other => panic!("{other:?}"),
    });
    assert_eq!(asked[2..], ["rendered?".to_string(), "render".to_string()]);
    assert!(d.unwrap().markdown.contains("Alive"));
    assert!(matches!(&stored[1], Store::Render { rendered, .. } if rendered.fetched_at == 1000));
}

#[test]
fn kept_renderings_are_used() {
    let opts = DistillOptions {
        profile: Profile::Full,
        diagnostics: true,
        ..Default::default()
    };
    let (d, _, stored) = run("https://example.com/app", &opts, &|r| match r {
        Request::ReadCache { .. } => Reply::Cached { entry: None },
        Request::Fetch { url } => Reply::Fetched { result: Ok(page(url, 200, APP)) },
        Request::ReadRender { .. } => Reply::CachedRender {
            rendered: Some(CachedRender {
                fetched_at: 999,
                final_url: "https://example.com/app2".to_string(),
                html: "<html><body><p>Kept</p></body></html>".to_string(),
                raw_bytes: 38,
            }),
        },
        other => panic!("{other:?}"),
    });
    let d = d.unwrap();
    assert!(d.markdown.contains("Kept"));
    assert_eq!(d.final_url, "https://example.com/app2");
    assert!(d.diagnostics.unwrap().used_headless);
    assert_eq!(stored.len(), 1, "a rendering from the cache is not stored again");
}

#[test]
fn a_failed_rendering_keeps_the_page() {
    let opts = DistillOptions {
        profile: Profile::Full,
        use_cache: false,
        diagnostics: true,
        ..Default::default()
    };
    let (d, asked, stored) = run("https://example.com/app", &opts, &|r| match r {
        Request::Fetch { url } => Reply::Fetched { result: Ok(page(url, 200, APP)) },
        Request::Render { .. } => Reply::Rendered { html: None },
        other => panic!("{other:?}"),
    });
    let d = d.unwrap();
    assert!(d.markdown.contains("Loading"));
    assert!(!d.diagnostics.unwrap().used_headless);
    assert_eq!(asked.len(), 2);
    assert!(stored.is_empty());
}

#[test]
fn replies_have_their_turn() {
    let opts = local_opts();
    match begin("http://127.0.0.1:9/", &opts).next {
        Next::Ask { stage, .. } => match advance(stage, Reply::Robots { refusal: None }, 0, &opts).next {
            Next::Done { result: Err(e) } => assert!(matches!(e, Error::OutOfTurn)),
            other => panic!("{other:?}"),
        },
        other => panic!("{other:?}"),
    }
}

#[test]
fn rendering_is_wanted_for_empty_apps() {
    let auto = DistillOptions::default();
    assert!(wants_rendering(APP, "Loading", &auto));
    assert!(!wants_rendering(APP, &"word ".repeat(60), &auto));
    assert!(wants_rendering(APP, &"字".repeat(199), &auto), "characters count, not bytes");
    assert!(!wants_rendering(APP, &"字".repeat(200), &auto));
    assert!(!wants_rendering("<p>x</p>", "x", &auto));
    let selected = DistillOptions { selector: Some("p".into()), ..Default::default() };
    assert!(!wants_rendering(APP, "Loading", &selected));
    let waiting = DistillOptions { js_wait_for: Some(".x".into()), ..Default::default() };
    assert!(wants_rendering("<p>x</p>", "x", &waiting));
    let off = DistillOptions { js_mode: JsMode::Off, js_wait_for: Some(".x".into()), ..Default::default() };
    assert!(!wants_rendering(APP, "", &off));
    let always = DistillOptions { js_mode: JsMode::Always, ..Default::default() };
    assert!(wants_rendering("<p>x</p>", "x", &always));
}

#[test]
fn the_plan_names_what_to_render() {
    let opts = DistillOptions {
        js_wait: Some(700),
        js_wait_for: Some(".x".into()),
        ..Default::default()
    };
    assert_eq!(rendering_budget(&opts), Span::from_millis(700));
    assert_eq!(rendering_budget(&DistillOptions::default()), Span::from_secs(20));
    let plan = plan_render("https://e.com/", &opts);
    assert_eq!(plan.url, "https://e.com/");
    assert_eq!(plan.wait_for.as_deref(), Some(".x"));
    assert_eq!(plan.budget, Span::from_millis(700));
    assert_eq!(plan.identity, "url=https://e.com/\njs_mode=auto\nwait_ms=700\nwait_for=.x");
}

#[test]
fn selectors_pick_elements() {
    let html = "<p>a</p><div>b</div><p>c</p>";
    assert_eq!(select_html(html, "p").unwrap(), "<p>a</p>\n<p>c</p>\n");
    let e = select_html(html, "i").unwrap_err();
    assert_eq!(e.message(), "selector 'i' matched no elements");
    let e = select_html(html, "p[").unwrap_err();
    assert!(matches!(&e, Error::BadSelector { selector, .. } if selector == "p["));
    assert!(e.message().starts_with("invalid CSS selector 'p[': "));
    let found = Ok(vec!["<b>x</b>".to_string(), "<b>y</b>".to_string()]);
    assert_eq!(join_selection(found, "b").unwrap(), "<b>x</b>\n<b>y</b>\n");
}

fn extracted(excerpt: Option<&str>, text: &str) -> Extracted {
    Extracted {
        title: "T".to_string(),
        byline: Some("B".to_string()),
        excerpt: excerpt.map(str::to_string),
        content_html: "<p>long</p>".to_string(),
        text: text.to_string(),
    }
}

#[test]
fn summaries_are_short_and_escaped() {
    let s = summarize(extracted(Some("a < b & c > d"), "text"));
    assert_eq!(s.text, "a < b & c > d");
    assert_eq!(s.content_html, "<p>a &lt; b &amp; c &gt; d</p>");
    assert_eq!((s.title.as_str(), s.byline.as_deref()), ("T", Some("B")));
    let s = summarize(extracted(Some("  "), " short "));
    assert_eq!(s.text, "short");
    let s = summarize(extracted(None, &"é".repeat(401)));
    assert_eq!(s.text, format!("{}…", "é".repeat(400)));
    let s = summarize(extracted(None, &format!("{} {}", "x".repeat(399), "y".repeat(9))));
    assert_eq!(s.text, format!("{}…", "x".repeat(399)));
}

const PAGE: &str = r#"<html><head><title>Sourdough at Home</title></head><body>
  <nav><a href="/signin">Sign in</a></nav>
  <article><h1>Sourdough at Home</h1>
  <p>Wild yeast lives on every grain, and with some patience, flour and water it will raise a loaf
  that keeps for a week, tastes of something, and needs nothing from a packet at all.</p>
  <p>An open crumb needs a wet dough, a warm place and a long rest; see the
  <a href="/table">table of temperatures</a> below, which lists what works in most kitchens.</p>
  <table><tr><th>Hours</th><th>Degrees</th></tr><tr><td>4</td><td>24</td></tr></table>
  </article>
  <form action="/find"><input name="q"></form>
  <footer>All rights reserved</footer>
  <script>beacon()</script></body></html>"#;

#[test]
fn profiles_select_different_content() {
    let of = |profile| {
        let o = DistillOptions { profile, diagnostics: true, ..Default::default() };
        distill_html(PAGE, "https://e.com/bread", &o).unwrap()
    };
    let (article, full, meta) = (of(Profile::Article), of(Profile::Full), of(Profile::Metadata));
    assert!(article.title.contains("Sourdough"));
    assert!(article.markdown.contains("open crumb"));
    assert!(!article.markdown.contains("All rights reserved"));
    assert!(full.markdown.contains("All rights reserved"));
    assert!(full.markdown.contains("open crumb"));
    assert!(!full.markdown.contains("beacon"));
    assert!(meta.markdown.len() < article.markdown.len());
    assert_eq!(article.diagnostics.unwrap().profile, "article");
    assert_eq!(full.diagnostics.unwrap().profile, "full");
    assert_eq!(meta.diagnostics.unwrap().profile, "metadata");
    assert_eq!(Profile::Full.label(), "full");
    assert_eq!(JsMode::Always.label(), "always");
}

#[test]
fn everything_can_be_asked_for() {
    let o = DistillOptions {
        measure_tokens: true,
        diagnostics: true,
        extract_links: true,
        extract_tables: true,
        extract_actions: true,
        ..Default::default()
    };
    let d = distill_html(PAGE, "https://e.com/bread", &o).unwrap();
    assert_eq!(d.final_url, "https://e.com/bread");
    assert_eq!(d.status, 200);
    let links = d.links.unwrap();
    assert!(links.iter().any(|l| l.href == "https://e.com/table"));
    assert!(!links.iter().any(|l| l.href == "https://e.com/signin"));
    let tables = d.tables.unwrap();
    assert_eq!(tables[0].headers, vec!["Hours", "Degrees"]);
    let actions = d.actions.unwrap();
    assert_eq!(actions.forms[0].action, "https://e.com/find");
    let stats = d.stats.unwrap();
    assert_eq!(stats.raw_bytes, PAGE.len());
    assert_eq!(stats.raw_tokens, tokens::count(PAGE));
    assert_eq!(stats.output_tokens, tokens::count(&d.markdown));
    assert_eq!(stats.saved_tokens, stats.raw_tokens - stats.output_tokens);
    let diag = d.diagnostics.unwrap();
    assert_eq!(diag.output_chars, d.markdown.chars().count());
    assert_eq!(diag.raw_bytes, PAGE.len());
    assert_eq!((diag.link_count, diag.table_count), (links.len(), tables.len()));
    assert_eq!(diag.action_count, actions.len());
    assert!(!diag.truncated && !diag.low_content && !diag.used_headless);
}

#[test]
fn links_can_come_from_the_whole_page() {
    let o = DistillOptions { extract_links: true, links_full: true, ..Default::default() };
    let links = distill_html(PAGE, "https://e.com/bread", &o).unwrap().links.unwrap();
    assert!(links.iter().any(|l| l.href == "https://e.com/signin"));
}

#[test]
fn output_keeps_to_its_budget() {
    let o = DistillOptions { max_output_tokens: Some(20), diagnostics: true, ..Default::default() };
    let d = distill_html(PAGE, "https://e.com/bread", &o).unwrap();
    assert!(d.markdown.contains("truncated"));
    assert!(tokens::count(&d.markdown) <= 20);
    assert!(tokens::count(&d.text) <= 20);
    assert!(d.diagnostics.unwrap().truncated);
}

#[test]
fn actions_are_the_same_every_time() {
    let o = DistillOptions { extract_actions: true, max_actions: Some(2), ..Default::default() };
    let ids = || -> Vec<String> {
        let t = distill_html(PAGE, "https://e.com/bread", &o).unwrap().actions.unwrap();
        assert!(t.links.len() <= 2 && t.forms.len() <= 2);
        t.links.iter().map(|l| l.action_id.clone()).collect()
    };
    assert_eq!(ids(), ids());
}

#[test]
fn short_pages_are_flagged() {
    let o = DistillOptions { selector: Some("p".into()), diagnostics: true, ..Default::default() };
    let d = distill_html("<p>hi</p>", "https://e.com/", &o).unwrap();
    let diag = d.diagnostics.unwrap();
    assert!(diag.low_content);
    assert_eq!(diag.profile, "selector");
    assert_eq!((d.markdown.as_str(), d.text.as_str()), ("hi", "hi"));
    assert_eq!(d.title, "");
}

#[test]
fn fetch_options_follow_the_options() {
    let o = DistillOptions {
        timeout: Span::from_secs(3),
        max_bytes: 77,
        allow_local: true,
        max_retries: 5,
        per_host_concurrency: 6,
        min_request_interval: Span::from_millis(8),
        respect_robots: true,
        ..Default::default()
    };
    let f = fetch_options(&o);
    assert_eq!(f.timeout, Span::from_secs(3));
    assert_eq!((f.max_bytes, f.max_retries, f.per_host_concurrency), (77, 5, 6));
    assert_eq!(f.min_request_interval, Span::from_millis(8));
    assert!(f.allow_local && f.respect_robots);
    assert_eq!(f.user_agent, DEFAULT_UA);
    let named = DistillOptions { user_agent: Some("me".into()), ..Default::default() };
    assert_eq!(fetch_options(&named).user_agent, "me");
}
