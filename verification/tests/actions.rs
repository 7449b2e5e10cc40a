//! Extracting the action tree.

use rustbrowser::actions::{
    button_actions, document_base, extract_actions, form_actions, resolve_form_action,
    resolve_http, ActionLimits, ActionTree, Control, Form, FormField, RawButton, MAX_FIELD_VALUE_CHARS,
    MAX_TEXT_CHARS, MAX_URL_CHARS,
};

const BASE: &str = "https://example.com/dir/page";

fn option_values(field: &FormField) -> Vec<&str> {
    field.options.iter().map(|o| o.value.as_str()).collect()
}

fn option_labels(field: &FormField) -> Vec<&str> {
    field.options.iter().map(|o| o.label.as_str()).collect()
}

#[test]
fn splits_links_and_downloads_with_stable_ids() {
    let html = r##"<a href="/about">About</a>
            <a href="#top">top</a>
            <a href="/files/report.pdf">Report</a>
            <a href="https://e.com/x">X</a>
            <a href="/data.csv" download="rows.csv">Data</a>"##;
    let t = extract_actions(html, BASE, ActionLimits::default());

    assert_eq!(t.links.len(), 2); // About, X (anchor #top skipped)
    assert_eq!(t.links[0].action_id, "link_0");
    assert_eq!(t.links[0].href, "https://example.com/about");
    assert_eq!(t.links[1].action_id, "link_1");

    assert_eq!(t.downloads.len(), 2); // report.pdf, data.csv
    assert_eq!(t.downloads[0].action_id, "download_0");
    assert_eq!(t.downloads[0].filename.as_deref(), Some("report.pdf"));
    assert_eq!(t.downloads[1].filename.as_deref(), Some("rows.csv")); // download attr
}

#[test]
fn extracts_form_with_fields_and_submit() {
    let html = r#"<form method="post" action="/login">
            <input type="text" name="user" required>
            <input type="password" name="pass" required>
            <input type="hidden" name="csrf" value="abc123">
            <select name="role">
                <option value="admin-role" selected>admin</option>
                <option value="user-role">user</option>
            </select>
            <button type="submit">Sign in</button>
        </form>"#;
    let t = extract_actions(html, BASE, ActionLimits::default());

    assert_eq!(t.forms.len(), 1);
    let f = &t.forms[0];
    assert_eq!(f.action_id, "form_0");
    assert_eq!(f.submit_id, "form_0.submit");
    assert_eq!(f.method, "POST");
    assert_eq!(f.action, "https://example.com/login");
    assert_eq!(f.fields.len(), 4); // user, pass, csrf, role (submit button excluded)
    assert_eq!(f.fields[0].name, "user");
    assert!(f.fields[0].required);
    assert_eq!(f.fields[2].value.as_deref(), Some("abc123")); // hidden csrf
    assert_eq!(f.fields[3].kind, "select");
    assert_eq!(option_values(&f.fields[3]), vec!["admin-role", "user-role"]);
    assert_eq!(option_labels(&f.fields[3]), vec!["admin", "user"]);
    assert!(f.fields[3].options[0].selected);

    // The submit button is part of the form, not a standalone button.
    assert!(t.buttons.is_empty());
}

#[test]
fn default_method_is_get_and_empty_action_is_current_url() {
    let html = r#"<form><input name="q"></form>"#;
    let t = extract_actions(html, BASE, ActionLimits::default());
    assert_eq!(t.forms[0].method, "GET");
    assert_eq!(t.forms[0].action, BASE); // empty action → current URL
}

#[test]
fn document_base_href_controls_relative_action_urls() {
    let html = r#"<html><head><base href="https://cdn.example.net/app/"></head>
            <body>
              <a href="next">Next</a>
              <form action="search"><input name="q"></form>
            </body></html>"#;
    let t = extract_actions(html, BASE, ActionLimits::default());
    assert_eq!(t.links[0].href, "https://cdn.example.net/app/next");
    assert_eq!(t.forms[0].action, "https://cdn.example.net/app/search");
}

#[test]
fn non_http_urls_are_not_actions() {
    let html = r##"<a href="JaVaScRiPt:alert(1)">bad js</a>
            <a href="data:text/html,hello">bad data</a>
            <a href="mailto:a@example.com">mail</a>
            <form action="javascript:alert(1)"><input name="q"></form>
            <a href="https://safe.example.com/path">safe</a>"##;
    let t = extract_actions(html, BASE, ActionLimits::default());
    assert_eq!(t.links.len(), 1);
    assert_eq!(t.links[0].href, "https://safe.example.com/path");
    assert!(t.forms.is_empty());
}

#[test]
fn limits_cap_nested_fields_options_and_long_values() {
    let overlong_href = format!("https://example.com/{}", "a".repeat(MAX_URL_CHARS + 1));
    let html = format!(
        r#"<a href="{overlong_href}">too long</a>
            <a href="/ok">{}</a>
            <form action="/submit">
              <input name="a" value="{}">
              <input name="b" value="keep">
              <input name="c">
              <select name="pick">
                <option value="1">one</option>
                <option value="2">two</option>
                <option value="3">three</option>
              </select>
            </form>"#,
        "visible ".repeat(80),
        "x".repeat(MAX_FIELD_VALUE_CHARS + 1)
    );
    let t = extract_actions(&html, BASE, ActionLimits::uniform(2));
    assert_eq!(t.links.len(), 1, "overlong href should be skipped");
    assert!(t.links[0].text.chars().count() <= MAX_TEXT_CHARS);
    assert_eq!(t.forms[0].fields.len(), 2);
    assert!(t.forms[0].fields[0].value.is_none());

    let options_html = r#"<form action="/submit">
            <select name="pick">
              <option value="1">one</option>
              <option value="2">two</option>
              <option value="3">three</option>
            </select>
        </form>"#;
    let t = extract_actions(
        options_html,
        BASE,
        ActionLimits {
            max_options_per_field: 2,
            ..Default::default()
        },
    );
    assert_eq!(option_values(&t.forms[0].fields[0]), vec!["1", "2"]);
}

#[test]
fn standalone_button_is_captured() {
    let html = r#"<button type="button" onclick="x()">Load more</button>"#;
    let t = extract_actions(html, BASE, ActionLimits::default());
    assert_eq!(t.buttons.len(), 1);
    assert_eq!(t.buttons[0].action_id, "button_0");
    assert_eq!(t.buttons[0].text, "Load more");
    assert_eq!(t.buttons[0].kind, "button");
}

#[test]
fn limits_cap_each_category() {
    let html = (0..10)
        .map(|i| format!(r#"<a href="/p{i}">L{i}</a>"#))
        .collect::<String>();
    let t = extract_actions(&html, BASE, ActionLimits::uniform(3));
    assert_eq!(t.links.len(), 3);
}

#[test]
fn ids_count_within_their_category() {
    let html = r#"<a href="/a.zip">A</a><a href="/b">B</a><a href="/c.zip">C</a><a href="/d">D</a>"#;
    let t = extract_actions(html, BASE, ActionLimits::default());
    let links: Vec<(&str, &str)> =
        t.links.iter().map(|l| (l.action_id.as_str(), l.text.as_str())).collect();
    assert_eq!(links, vec![("link_0", "B"), ("link_1", "D")]);
    let downloads: Vec<(&str, &str)> =
        t.downloads.iter().map(|l| (l.action_id.as_str(), l.text.as_str())).collect();
    assert_eq!(downloads, vec![("download_0", "A"), ("download_1", "C")]);
}

#[test]
fn limits_hold_for_all_categories_at_once() {
    let html = r#"<a href="/1">1</a><a href="/2">2</a><a href="/3.pdf">3</a><a href="/4.pdf">4</a>
        <form><input name="a"><input name="b"></form><form><input name="c"></form>
        <button type="button">x</button><button type="button">y</button>"#;
    let t = extract_actions(html, BASE, ActionLimits::uniform(1));
    assert_eq!(
        (t.links.len(), t.downloads.len(), t.forms.len(), t.buttons.len()),
        (1, 1, 1, 1)
    );
    assert_eq!(t.forms[0].fields.len(), 1);
    assert_eq!(t.len(), 4);
    assert!(!t.is_empty());
    assert!(ActionTree::default().is_empty());
    assert_eq!(ActionTree::default().len(), 0);
}

#[test]
fn targets_are_web_urls() {
    let base = Some(BASE.to_string());
    assert_eq!(resolve_http(&base, "../x").as_deref(), Some("https://example.com/x"));
    assert_eq!(resolve_http(&base, "ftp://example.com/x"), None);
    assert_eq!(resolve_http(&base, ""), None);
    assert_eq!(resolve_http(&base, "#part"), None);
    assert_eq!(resolve_http(&None, "/x"), None);
    assert_eq!(resolve_http(&None, "http://a.b/").as_deref(), Some("http://a.b/"));
    assert_eq!(resolve_form_action(&base, "").as_deref(), Some(BASE));
    assert_eq!(resolve_form_action(&base, "javascript:x()"), None);
    assert_eq!(resolve_form_action(&Some("file:///tmp/page.html".to_string()), ""), None);
    assert_eq!(
        document_base(BASE, &Some("sub/".to_string())).as_deref(),
        Some("https://example.com/dir/sub/")
    );
    assert_eq!(document_base(BASE, &None).as_deref(), Some(BASE));
}

#[test]
fn unknown_methods_become_get() {
    let form = |method: Option<&str>| Form {
        method: method.map(str::to_string),
        target: Some("https://example.com/x".to_string()),
        controls: vec![],
    };
    let forms = vec![form(Some("put")), form(Some("Post")), form(None), form(Some("dialog"))];
    let built = form_actions(&forms, &ActionLimits::default());
    let methods: Vec<&str> = built.iter().map(|f| f.method.as_str()).collect();
    for m in &methods {
        assert!(*m == "GET" || *m == "POST");
    }
    assert_eq!(methods[1], "POST");
    assert_eq!(methods[2], "GET");
}

#[test]
fn buttons_inside_forms_are_left_out() {
    let button = |ancestors: Vec<Option<String>>| RawButton {
        tag: "button".to_string(),
        kind: None,
        value: None,
        text: " Go \n now ".to_string(),
        ancestors,
    };
    let raw = vec![
        button(vec![Some("form".to_string()), Some("body".to_string()), None]),
        button(vec![Some("div".to_string()), None]),
    ];
    let built = button_actions(&raw, 10);
    assert_eq!(built.len(), 1);
    assert_eq!(built[0].action_id, "button_0");
    assert_eq!(built[0].text, "Go now");
}

#[test]
fn submit_controls_are_no_fields() {
    let control = |kind: &str, name: &str| Control {
        tag: "input".to_string(),
        kind: Some(kind.to_string()),
        name: Some(name.to_string()),
        value: None,
        required: false,
        choices: vec![],
    };
    let forms = vec![Form {
        method: None,
        target: Some("https://example.com/x".to_string()),
        controls: vec![control("submit", "go"), control("text", "a"), control("image", "i")],
    }];
    let built = form_actions(&forms, &ActionLimits::default());
    let names: Vec<&str> = built[0].fields.iter().map(|f| f.name.as_str()).collect();
    assert!(names.contains(&"a"));
    assert!(!names.contains(&"go"));
}

#[test]
fn buttons_are_of_three_kinds() {
    let html = r#"<button type="menu">A</button><button type="SUBMIT">B</button>
        <button type="reset">C</button><button>D</button><input type="Button" value="E">"#;
    let tree = extract_actions(html, BASE, ActionLimits::default());
    let kinds: Vec<&str> = tree.buttons.iter().map(|b| b.kind.as_str()).collect();
    assert_eq!(kinds, vec!["button", "submit", "reset", "button", "button"]);
}

#[test]
fn a_lower_limit_cuts_the_tail() {
    let html = (0..6).map(|i| format!(r#"<a href="/p{i}">L{i}</a><button>B{i}</button>"#)).collect::<String>();
    let long = extract_actions(&html, BASE, ActionLimits::uniform(6));
    let short = extract_actions(&html, BASE, ActionLimits { max_links: 2, ..ActionLimits::uniform(6) });
    assert_eq!(short.links.len(), 2);
    for (a, b) in short.links.iter().zip(&long.links) {
        assert_eq!((&a.action_id, &a.text, &a.href), (&b.action_id, &b.text, &b.href));
    }
    assert_eq!(short.buttons.len(), long.buttons.len());
}
