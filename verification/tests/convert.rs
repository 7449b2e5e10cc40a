//! Conversion to Markdown, and how deep a document may be nested for it.

use rustbrowser::convert::{normalize, to_markdown};
use rustbrowser::dom::{
    is_flat_tree, is_manageable, is_shallow, MAX_NESTING, MAX_SELECTOR_STEPS,
};
use rustbrowser::error::Error;
use rustbrowser::extract::extract;
use rustbrowser::pipeline::select_html;

/// A text within that many elements of each of the names.
fn nested(tags: &[&str], times: usize) -> String {
    let open: String = tags.iter().map(|t| format!("<{t}>")).collect();
    let close: String = tags.iter().rev().map(|t| format!("</{t}>")).collect();
    format!("{}core{}", open.repeat(times), close.repeat(times))
}

#[test]
fn fenced_code_keeps_its_lines() {
    let md = "```\na\n\n\nb\n```";
    assert_eq!(normalize(md), md);
    assert_eq!(normalize("```\nx  y\n   z\n```"), "```\nx  y\n   z\n```");
    assert_eq!(normalize("a\n\n\n\nb"), "a\n\nb");
    assert_eq!(normalize("```\n```\n\n\n\nb  c"), "```\n```\n\nb c");
}

#[test]
fn tidying_again_changes_nothing() {
    for md in ["", "  a   b \r\n\n\n c", "```\n\n\nx\r\r\n```\n\n\n", "\n\n  ```\n a  \n\n", "a\u{85}\n\u{2028}\nb"] {
        let once = normalize(md);
        assert_eq!(normalize(&once), once, "{md:?}");
    }
}

#[test]
fn documents_just_short_of_the_limit_are_converted() {
    let deep = MAX_NESTING - 8;
    for tags in [
        &["span"][..],
        &["div"],
        &["blockquote"],
        &["ins"],
        &["b", "i"],
        &["ul", "li"],
        &["ol", "li"],
        &["table", "tr", "td"],
        &["dl", "dd"],
        &["details"],
        &["strong"],
        &["code"],
        &["pre"],
        &["h2", "div"],
        &["article"],
        &["label"],
        &["sup"],
        &["math"],
        &["svg", "foreignobject"],
        &["x-y"],
        &["section", "ins", "div", "em"],
    ] {
        let html = nested(tags, deep / (tags.len() + tags.len() / 3));
        assert!(is_shallow(&html), "{tags:?}");
        assert!(to_markdown(&html).unwrap().contains("core"), "{tags:?}");
        let read = extract(&html, "https://example.com/");
        assert!(!matches!(read, Err(Error::TooDeep)), "{tags:?}");
        assert!(select_html(&html, "body:has(*)").is_ok(), "{tags:?}");
    }
}

#[test]
fn deeper_documents_are_refused() {
    for tags in [&["span"][..], &["ins"], &["div"]] {
        for deep in [MAX_NESTING, 3 * MAX_NESTING] {
            let html = nested(tags, deep);
            assert!(!is_shallow(&html));
            assert!(matches!(to_markdown(&html), Err(Error::TooDeep)));
            assert!(matches!(extract(&html, "https://example.com/"), Err(Error::TooDeep)));
            assert!(matches!(select_html(&html, "body"), Err(Error::TooDeep)));
        }
    }
    // Only the reader looks into `noscript`.
    let html = format!("<noscript>{}</noscript>", nested(&["div"], MAX_NESTING));
    assert!(is_shallow(&html));
    assert!(matches!(extract(&html, "https://example.com/"), Err(Error::TooDeep)));
    assert_eq!(Error::TooDeep.message(), "document is nested too deeply");
}

#[test]
fn selectors_take_a_limited_number_of_steps() {
    let html = "<p>one</p>".repeat(2 * MAX_SELECTOR_STEPS);
    for (open, core, close) in [(":not(", "p", ")"), (":is(", "p", ")")] {
        let brackets = format!("{}{core}{}", open.repeat(70), close.repeat(70));
        assert!(select_html(&html, &brackets).unwrap().contains("one"));
    }
    let fits = format!("p{}", "+p".repeat(MAX_SELECTOR_STEPS));
    assert!(is_manageable(&fits));
    assert!(select_html(&html, &fits).unwrap().contains("one"));
    let over = format!("{fits}+p");
    assert!(!is_manageable(&over));
    let e = select_html(&html, &over).unwrap_err();
    assert!(matches!(&e, Error::SelectorTooComplex { selector } if *selector == over));
    assert_eq!(e.message(), format!("selector '{over}' is too complex"));
}

#[test]
fn the_converter_is_guarded_by_its_own_tree() {
    // This comes out flat in one parser and deep in another.
    let page = |n: usize| format!("<p><b></p><svg></b>{}x", "<wbr>".repeat(n));
    assert!(is_shallow(&page(20 * MAX_NESTING)));
    assert!(matches!(to_markdown(&page(20 * MAX_NESTING)), Err(Error::TooDeep)));
    assert!(to_markdown(&page(20)).is_ok());
}

#[test]
fn trees_are_measured_by_the_numbers_of_children() {
    let chain = |n: usize| {
        let mut counts = vec![1; n];
        counts.push(0);
        counts
    };
    assert!(is_flat_tree(&Vec::new()));
    assert!(is_flat_tree(&chain(MAX_NESTING - 1)));
    assert!(!is_flat_tree(&chain(MAX_NESTING)));
    let mut wide = vec![5000];
    wide.extend(vec![0; 5000]);
    assert!(is_flat_tree(&wide));
    // The last child of the root hangs on the longest branch.
    let mut branch = vec![2, 0];
    branch.extend(chain(MAX_NESTING - 1));
    assert!(!is_flat_tree(&branch));
}

#[test]
fn tidying_keeps_what_shows() {
    let shown = |s: &str| s.chars().filter(|c| !c.is_whitespace()).collect::<String>();
    for md in ["", " a  b\n\n\n\tc ", "```\n x  \n\n```\n y", "é\u{a0}\r\n\u{2003}z"] {
        assert_eq!(shown(&normalize(md)), shown(md));
    }
}
