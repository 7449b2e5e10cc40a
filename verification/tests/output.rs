//! Pages, statistics and reports as text.

use rustbrowser::actions::{
    ActionTree, ButtonAction, DownloadAction, FormAction, FormField, LinkAction,
};
use rustbrowser::cache::CacheReport;
use rustbrowser::output::{
    cache_cleared, cache_info, cache_pruned, join_pages, render, terminal_diagnostics,
    terminal_page, terminal_pages, terminal_stats, PageOutcome,
};
use rustbrowser::structured::{Link, Table};
use rustbrowser::{Diagnostics, Distilled, Stats};

fn page() -> Distilled {
    Distilled {
        final_url: "https://e.com/".to_string(),
        status: 200,
        title: "T".to_string(),
        byline: None,
        excerpt: None,
        markdown: "body".to_string(),
        text: "plain".to_string(),
        stats: None,
        links: None,
        tables: None,
        actions: None,
        diagnostics: None,
    }
}

fn rich() -> Distilled {
    let link = |text: &str, href: &str| Link { text: text.to_string(), href: href.to_string() };
    Distilled {
        links: Some(vec![link("A", "https://e.com/a"), link("", "https://e.com/b")]),
        tables: Some(vec![
            Table {
                headers: vec!["x".to_string(), "y".to_string()],
                rows: vec![vec!["1".to_string(), "2".to_string()]],
            },
            Table { headers: vec![], rows: vec![vec!["3".to_string()]] },
        ]),
        ..page()
    }
}

#[test]
fn plain_pages_have_a_title_line() {
    assert_eq!(render(&page(), "markdown", ""), "# T\n\nbody");
    assert_eq!(render(&page(), "text", ""), "plain");
    let untitled = Distilled { title: String::new(), ..page() };
    assert_eq!(render(&untitled, "markdown", ""), "body");
    assert_eq!(terminal_page(&page(), false), "# T\n\nbody\n");
    assert_eq!(terminal_page(&page(), true), "plain\n");
}

#[test]
fn links_and_tables_follow() {
    assert_eq!(
        render(&rich(), "text", ""),
        "plain\n\n## Links (2)\n\n- [A](https://e.com/a)\n- [https://e.com/b](https://e.com/b)\
         \n\n## Table 1\n\n| x | y |\n| --- | --- |\n| 1 | 2 |\n\n\n## Table 2\n\n| 3 |\n"
    );
    assert_eq!(
        terminal_page(&rich(), true),
        "plain\n\n## Links (2)\n\n- [A](https://e.com/a)\n- [https://e.com/b](https://e.com/b)\n\
         \n## Table 1\n\n| x | y |\n| --- | --- |\n| 1 | 2 |\n\n## Table 2\n\n| 3 |\n"
    );
}

#[test]
fn actions_are_listed() {
    let s = |t: &str| t.to_string();
    let tree = ActionTree {
        links: vec![LinkAction { action_id: s("link_0"), text: s("L"), href: s("u") }],
        forms: vec![FormAction {
            action_id: s("form_0"),
            method: s("POST"),
            action: s("v"),
            fields: vec![FormField {
                name: s("n"),
                kind: s("text"),
                value: None,
                options: vec![],
                required: false,
            }],
            submit_id: s("form_0.submit"),
        }],
        buttons: vec![ButtonAction { action_id: s("button_0"), text: s("B"), kind: s("button") }],
        downloads: vec![DownloadAction {
            action_id: s("download_0"),
            text: s("D"),
            href: s("w"),
            filename: None,
        }],
    };
    let d = Distilled { actions: Some(tree), ..page() };
    assert_eq!(
        render(&d, "text", ""),
        "plain\n\n## Actions (4)\n\n- [link_0] L → u\n- [form_0] form POST v (1 fields, \
         submit=form_0.submit)\n- [button_0] button: B\n- [download_0] download: D → w"
    );
}

#[test]
fn statistics_end_the_page() {
    let stats = Stats { raw_bytes: 4000, raw_tokens: 1000, output_tokens: 250, saved_tokens: 750 };
    let d = Distilled { stats: Some(stats), ..page() };
    assert_eq!(
        render(&d, "text", "75.0"),
        "plain\n\n---\n_token stats: raw 1000 → output 250 (75.0% saved)_"
    );
    assert_eq!(
        terminal_stats(&stats, "75.0"),
        "\n── token stats ───────────────\nraw bytes     :     4000\nraw tokens    :     1000\n\
         output tokens :      250\nsaved         :      750  (75.0%)\n"
    );
}

#[test]
fn diagnostics_are_aligned() {
    let d = Diagnostics {
        profile: "article",
        raw_bytes: 123456789,
        output_chars: 12,
        output_tokens: 3,
        link_count: 1,
        table_count: 2,
        action_count: 0,
        used_headless: true,
        truncated: false,
        low_content: true,
    };
    assert_eq!(
        terminal_diagnostics(&d, "0.2500"),
        "\n── diagnostics ───────────────\nprofile          : article\n\
         raw bytes        : 123456789\noutput chars     :       12\n\
         output tokens    :        3\nextraction ratio :   0.2500\n\
         links / tables   : 1 / 2\nheadless         : true\ntruncated        : false\n\
         ⚠ low content — extraction may have failed; try --profile full\n"
    );
    let fine = Diagnostics { low_content: false, ..d };
    assert!(terminal_diagnostics(&fine, "0.2500").ends_with("truncated        : false\n"));
}

fn outcome(url: &str, page: Option<&str>) -> PageOutcome {
    PageOutcome {
        url: url.to_string(),
        page: page.map(str::to_string),
        message: "broke".to_string(),
    }
}

#[test]
fn many_pages_keep_their_order() {
    let pages = vec![outcome("u1", None), outcome("u2", Some("two")), outcome("u3", Some("three"))];
    let rule = "\n\n═══════════════════════════════\n\n";
    assert_eq!(
        join_pages(&pages),
        format!("✗ u1: broke{rule}<!-- u2 -->\ntwo{rule}<!-- u3 -->\nthree")
    );
    assert_eq!(
        terminal_pages(&pages),
        format!("<!-- u2 -->\ntwo{rule}<!-- u3 -->\nthree")
    );
    assert_eq!(join_pages(&vec![]), "");
}

#[test]
fn cache_reports_are_aligned() {
    let r = CacheReport { fetch_entries: 3, fetch_bytes: 10, render_entries: 12, render_bytes: 5 };
    assert_eq!(
        cache_info(&r, "10 B", "5 B", "15 B"),
        "fetch  :     3 entries  10 B\nrender :    12 entries  5 B\ntotal  :    15 entries  15 B\n"
    );
    assert_eq!(cache_pruned(2, 3600, "7 B"), "pruned 2 entries older than 3600s (7 B freed)\n");
    assert_eq!(cache_cleared(2, "7 B"), "cleared 2 entries (7 B freed)\n");
}
