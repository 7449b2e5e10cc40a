//! Links and tables as structured data.

use rustbrowser::dom::{Branch, Bush, Element};
use rustbrowser::structured::{
    collect_links, collect_tables, extract_links, extract_tables, RawLink,
};

#[test]
fn links_resolve_relative_and_skip_anchors() {
    let html = r##"<a href="/a">A</a><a href="#x">x</a><a href="https://e.com/b">B</a>"##;
    let links = extract_links(html, "https://example.com/dir/page");
    assert_eq!(links.len(), 2);
    assert_eq!(links[0].href, "https://example.com/a");
    assert_eq!(links[0].text, "A");
    assert_eq!(links[1].href, "https://e.com/b");
}

#[test]
fn tables_split_header_and_rows() {
    let html = r#"<table>
            <tr><th>Name</th><th>Age</th></tr>
            <tr><td>Alice</td><td>30</td></tr>
            <tr><td>Bob</td><td>25</td></tr>
        </table>"#;
    let tables = extract_tables(html);
    assert_eq!(tables.len(), 1);
    assert_eq!(tables[0].headers, vec!["Name", "Age"]);
    assert_eq!(tables[0].rows, vec![vec!["Alice", "30"], vec!["Bob", "25"]]);
}

#[test]
fn scripts_and_empty_references_are_no_links() {
    let html = r#"<a href="">e</a><a href="javascript:x()">j</a><a href="/ok"> two
        words </a>"#;
    let links = extract_links(html, "https://example.com/");
    assert_eq!(links.len(), 1);
    assert_eq!(links[0].text, "two words");
    assert_eq!(links[0].href, "https://example.com/ok");
}

#[test]
fn unresolved_references_stay_as_they_are() {
    let raw = |r: &str, resolved: Option<&str>| RawLink {
        raw: r.to_string(),
        text: "t".to_string(),
        resolved: resolved.map(str::to_string),
    };
    let links = collect_links(&vec![raw("x/y", None), raw("z", Some("https://e.com/z"))]);
    assert_eq!(links[0].href, "x/y");
    assert_eq!(links[1].href, "https://e.com/z");
}

#[test]
fn every_row_with_a_cell_is_kept() {
    let cell = |name: &str, text: &str| Element {
        name: name.to_string(),
        attrs: vec![],
        text: text.to_string(),
    };
    let row = |inner: Vec<Element>| Branch { element: cell("tr", ""), inner };
    let table = Bush {
        element: cell("table", ""),
        branches: vec![
            row(vec![]),
            row(vec![cell("td", "1")]),
            row(vec![cell("th", "h")]),
            row(vec![cell("th", "g")]),
            row(vec![cell("th", "a"), cell("td", "b")]),
        ],
    };
    let tables = collect_tables(&vec![table]);
    assert_eq!(tables.len(), 1);
    let kept = tables[0].rows.len() + usize::from(!tables[0].headers.is_empty());
    assert_eq!(kept, 4);
    assert!(tables[0].rows.iter().all(|r| !r.is_empty()));
}

#[test]
fn tables_without_cells_are_left_out() {
    assert!(extract_tables("<table></table><p>x</p>").is_empty());
}

#[test]
fn mixed_rows_keep_document_order() {
    let html = "<table><tr><td>a</td><th>b</th></tr><tr><th>c</th><td>d</td></tr></table>";
    let tables = extract_tables(html);
    assert_eq!(tables.len(), 1);
    assert!(tables[0].headers.is_empty());
    assert_eq!(tables[0].rows, vec![vec!["a", "b"], vec!["c", "d"]]);
}
