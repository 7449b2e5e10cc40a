//! The on-disk cache.

use rustbrowser::cache::{
    clear, dir_report, entry_is_expired, file_name, is_cache_file, is_fresh, keep_fresh,
    keep_fresh_render, key, make_entry, now, prune, render_identity, report, take_page, CachePurge,
    CacheReport, CachedRender, FileEntry, Stamp,
};
use rustbrowser::fetch::FetchResult;

fn file(name: &str, size: u64, stamp: Stamp) -> FileEntry {
    FileEntry { name: Some(name.to_string()), size: Some(size), stamp }
}

#[test]
fn key_is_stable_unique_and_hex() {
    // Same URL → same key.
    assert_eq!(key("https://example.com"), key("https://example.com"));
    // Different URLs → different keys.
    assert_ne!(key("https://example.com"), key("https://example.org"));
    // SHA-256 hex is always 64 chars, all hex digits.
    let k = key("https://example.com/some/path?q=1");
    assert_eq!(k.len(), 64);
    assert!(k.chars().all(|c| c.is_ascii_hexdigit()));
}

#[test]
fn key_is_the_digest_in_hex() {
    assert_eq!(
        key("abc"),
        "ba7816bf8f01cfea414140de5dae2223b00361a396177a9cb410ff61f20015ad"
    );
    assert_eq!(file_name("abc"), format!("{}.json", key("abc")));
}

#[test]
fn render_identity_includes_render_controls() {
    let a = render_identity("https://example.com", "auto", 1000, None);
    let b = render_identity("https://example.com", "always", 1000, None);
    let c = render_identity("https://example.com", "auto", 2000, Some(".ready"));
    assert_ne!(a, b);
    assert_ne!(a, c);
}

#[test]
fn render_identity_lists_its_parts() {
    assert_eq!(
        render_identity("https://e.com/", "auto", 1000, Some(".x")),
        "url=https://e.com/\njs_mode=auto\nwait_ms=1000\nwait_for=.x"
    );
    assert_eq!(
        render_identity("https://e.com/", "auto", 1000, None),
        render_identity("https://e.com/", "auto", 1000, Some(""))
    );
}

#[test]
fn dir_report_counts_only_json_files() {
    let files = vec![
        file("a.json", 2, Stamp::Corrupt),
        file("b.json", 5, Stamp::Corrupt),
        file("note.txt", 9, Stamp::Corrupt),
    ];
    let (count, bytes) = dir_report(&files);
    assert_eq!(count, 2);
    assert_eq!(bytes, 2 + 5); // only the two json files
}

#[test]
fn purge_dir_clear_removes_only_json() {
    let files = vec![
        file("a.json", 2, Stamp::Corrupt),
        file("keep.txt", 1, Stamp::Corrupt),
        file("b.json", 2, Stamp::Written(7)),
    ];
    let doomed = clear(&files);
    assert_eq!(doomed.len(), 2);
    assert!(doomed.contains(&0));
    assert!(doomed.contains(&2));
    // Foreign files are never deleted.
    assert!(!doomed.contains(&1));
}

#[test]
fn purge_dir_prune_removes_only_expired() {
    let files = vec![
        file("fresh.json", 2, Stamp::Written(now())),
        file("stale.json", 2, Stamp::Written(1000)),
    ];
    // Cutoff = "older than one hour".
    assert_eq!(prune(&files, now(), 3600), vec![1]);
}

#[test]
fn entry_is_expired_treats_corrupt_as_expired() {
    // Corrupt entry is always prunable, regardless of cutoff.
    assert!(entry_is_expired(Stamp::Corrupt, now()));
    assert!(entry_is_expired(Stamp::Corrupt, 0));
    assert!(!entry_is_expired(Stamp::Unreadable, now()));
    assert!(entry_is_expired(Stamp::Written(9), 10));
    assert!(!entry_is_expired(Stamp::Written(10), 10));
}

#[test]
fn purge_dir_missing_directory_is_noop() {
    assert_eq!(clear(&vec![]), Vec::<usize>::new());
    let mut purge = CachePurge::default();
    assert_eq!(purge, CachePurge { removed: 0, bytes: 0 });
    purge.record(12);
    purge.absorb(CachePurge { removed: 2, bytes: 30 });
    assert_eq!(purge, CachePurge { removed: 3, bytes: 42 });
}

#[test]
fn cache_files_end_in_json() {
    assert!(is_cache_file("a.json"));
    assert!(is_cache_file("a.b.json"));
    assert!(!is_cache_file(".json"));
    assert!(!is_cache_file("json"));
    assert!(!is_cache_file("a.jsonx"));
    assert!(!is_cache_file("a.JSON"));
}

#[test]
fn reports_add_up() {
    let fetch = vec![file("a.json", 3, Stamp::Corrupt), file("b.json", 4, Stamp::Corrupt)];
    let render = vec![file("c.json", 5, Stamp::Corrupt)];
    let r = report(&fetch, &render);
    assert_eq!(
        r,
        CacheReport { fetch_entries: 2, fetch_bytes: 7, render_entries: 1, render_bytes: 5 }
    );
    assert_eq!(r.total_entries(), 3);
    assert_eq!(r.total_bytes(), 12);
    assert_eq!(CacheReport::default().total_bytes(), 0);
}

#[test]
fn freshness_includes_the_last_second() {
    assert!(is_fresh(1000, 900, 100));
    assert!(!is_fresh(1001, 900, 100));
    assert!(is_fresh(5, 900, 0), "a stamp ahead of the clock is fresh");
}

#[test]
fn pruning_spares_what_a_lookup_would_serve() {
    for written in [0, 899, 900, 901, 1000] {
        let served = is_fresh(1000, written, 100);
        let doomed = !prune(&vec![file("x.json", 1, Stamp::Written(written))], 1000, 100).is_empty();
        assert_eq!(served, !doomed, "written at {written}");
    }
}

#[test]
fn stored_pages_come_back() {
    let page = FetchResult {
        final_url: "https://e.com/".to_string(),
        status: 200,
        content_type: Some("text/html".to_string()),
        html: "<p>x</p>".to_string(),
        raw_bytes: 8,
    };
    let entry = make_entry(&page, 1000);
    assert_eq!(entry.fetched_at, 1000);
    let back = take_page(keep_fresh(Some(entry), 1100, 100).unwrap());
    assert_eq!(back.final_url, page.final_url);
    assert_eq!(back.status, page.status);
    assert_eq!(back.content_type, page.content_type);
    assert_eq!(back.html, page.html);
    assert_eq!(back.raw_bytes, page.raw_bytes);
    assert!(keep_fresh(Some(make_entry(&page, 1000)), 1101, 100).is_none());
    assert!(keep_fresh(None, 1, 1).is_none());
}

#[test]
fn stale_renderings_are_dropped() {
    let entry = || CachedRender {
        fetched_at: 10,
        final_url: "u".to_string(),
        html: "h".to_string(),
        raw_bytes: 1,
    };
    assert!(keep_fresh_render(Some(entry()), 15, 5).is_some());
    assert!(keep_fresh_render(Some(entry()), 16, 5).is_none());
}

#[test]
fn the_clock_is_past_the_year_2020() {
    assert!(now() > 1_577_836_800);
}

#[test]
fn pages_come_back_for_their_lifetime() {
    let fetched = FetchResult {
        final_url: "https://e.com/".to_string(),
        status: 200,
        content_type: None,
        html: "<p>x</p>".to_string(),
        raw_bytes: 8,
    };
    let page = take_page(keep_fresh(Some(make_entry(&fetched, 100)), 160, 60).unwrap());
    assert_eq!(page.final_url, fetched.final_url);
    assert_eq!(page.status, fetched.status);
    assert_eq!(page.content_type, fetched.content_type);
    assert_eq!(page.html, fetched.html);
    assert_eq!(page.raw_bytes, fetched.raw_bytes);
    assert!(keep_fresh(Some(make_entry(&fetched, 100)), 161, 60).is_none());
}

#[test]
fn clearing_removes_what_a_report_counts() {
    let files = vec![
        file("a.json", 10, Stamp::Written(1)),
        file("notes.txt", 99, Stamp::Unreadable),
        file("b.json", 5, Stamp::Corrupt),
    ];
    let (entries, bytes) = dir_report(&files);
    let gone = clear(&files);
    assert_eq!(gone.len(), entries);
    assert_eq!(gone.iter().filter_map(|i| files[*i].size).sum::<u64>(), bytes);
}
