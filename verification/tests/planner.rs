//! The planner's view of a page.

use rustbrowser::actions::{
    ActionTree, ButtonAction, DownloadAction, FormAction, FormField, FormOption, LinkAction,
};
use rustbrowser::planner::{
    count_actions, flatten_actions, is_dangerous_method, loop_view, recommend, status_failure,
};

fn link(id: &str, text: &str, href: &str) -> LinkAction {
    LinkAction {
        action_id: id.to_string(),
        text: text.to_string(),
        href: href.to_string(),
    }
}

fn field(name: &str, kind: &str) -> FormField {
    FormField {
        name: name.to_string(),
        kind: kind.to_string(),
        value: None,
        options: Vec::<FormOption>::new(),
        required: false,
    }
}

#[test]
fn status_failure_flags_only_4xx_5xx() {
    assert_eq!(status_failure(200), None);
    assert_eq!(status_failure(301), None);
    assert_eq!(status_failure(404).as_deref(), Some("http_status_404"));
    assert_eq!(status_failure(503).as_deref(), Some("http_status_503"));
}

#[test]
fn status_failure_starts_at_400() {
    assert_eq!(status_failure(399), None);
    assert_eq!(status_failure(400).as_deref(), Some("http_status_400"));
    assert_eq!(status_failure(599).as_deref(), Some("http_status_599"));
}

#[test]
fn flatten_marks_non_get_forms_dangerous_and_lists_fields() {
    let tree = ActionTree {
        links: vec![link("link_0", "About", "https://e.com/about")],
        forms: vec![
            FormAction {
                action_id: "form_0".to_string(),
                method: "GET".to_string(),
                action: "https://e.com/search".to_string(),
                submit_id: "form_0.submit".to_string(),
                fields: vec![field("q", "search")],
            },
            FormAction {
                action_id: "form_1".to_string(),
                method: "POST".to_string(),
                action: "https://e.com/login".to_string(),
                submit_id: "form_1.submit".to_string(),
                fields: vec![
                    field("csrf", "hidden"),
                    field("user", "text"),
                    field("pass", "password"),
                    field("submit", "submit"),
                    field("", "text"),
                ],
            },
        ],
        buttons: vec![ButtonAction {
            action_id: "button_0".to_string(),
            text: "Load more".to_string(),
            kind: "button".to_string(),
        }],
        downloads: vec![DownloadAction {
            action_id: "download_0".to_string(),
            text: String::new(),
            href: "https://e.com/report.pdf".to_string(),
            filename: Some("report.pdf".to_string()),
        }],
    };

    let flat = flatten_actions(&tree);
    assert_eq!(flat.len(), 5);
    assert_eq!(count_actions(&Some(tree)), 5);
    assert_eq!(count_actions(&None), 0);

    let get_form = flat.iter().find(|a| a.action_id == "form_0").unwrap();
    assert!(!get_form.dangerous);
    assert_eq!(get_form.method.as_deref(), Some("GET"));

    let post_form = flat.iter().find(|a| a.action_id == "form_1").unwrap();
    assert!(post_form.dangerous, "non-GET form must be dangerous");
    assert_eq!(post_form.fields, vec!["user", "pass"]);

    // Empty link/download text falls back to a useful label.
    let dl = flat.iter().find(|a| a.action_id == "download_0").unwrap();
    assert_eq!(dl.label, "report.pdf");
}

#[test]
fn recommend_prefers_search_form_then_pagination_then_first_link() {
    let searchy = ActionTree {
        links: vec![link("link_0", "Home", "https://e.com/")],
        forms: vec![FormAction {
            action_id: "form_0".to_string(),
            method: "GET".to_string(),
            action: "https://e.com/search".to_string(),
            submit_id: "form_0.submit".to_string(),
            fields: vec![field("q", "search")],
        }],
        buttons: Vec::new(),
        downloads: Vec::new(),
    };
    let recs = recommend(&searchy);
    assert_eq!(recs[0].action_id, "form_0");
    assert_eq!(recs[0].kind, "form");

    let paginated = ActionTree {
        links: vec![
            link("link_0", "Article", "https://e.com/a"),
            link("link_1", "Next ›", "https://e.com/p2"),
        ],
        forms: Vec::new(),
        buttons: Vec::new(),
        downloads: Vec::new(),
    };
    let recs = recommend(&paginated);
    assert_eq!(recs[0].action_id, "link_1", "pagination link preferred");

    let plain = ActionTree {
        links: vec![link("link_0", "Read", "https://e.com/read")],
        forms: Vec::new(),
        buttons: Vec::new(),
        downloads: Vec::new(),
    };
    let recs = recommend(&plain);
    assert_eq!(recs[0].action_id, "link_0");
}

#[test]
fn hints_name_actions_of_the_tree() {
    let tree = ActionTree {
        links: vec![link("link_0", "older posts", "https://e.com/2")],
        ..ActionTree::default()
    };
    let flat = flatten_actions(&tree);
    for hint in recommend(&tree) {
        assert!(flat.iter().any(|a| a.action_id == hint.action_id));
    }
    assert!(recommend(&ActionTree::default()).is_empty());
}

#[test]
fn empty_snapshot_yields_empty_view() {
    let v = loop_view(None, Some("boom".to_string()), 3);
    assert_eq!(v.state.status, 0);
    assert_eq!(v.state.steps_taken, 3);
    assert!(v.available_actions.is_empty());
    assert_eq!(v.failure_reason.as_deref(), Some("boom"));
}

#[test]
fn everything_but_get_is_dangerous() {
    assert!(!is_dangerous_method("GET"));
    assert!(!is_dangerous_method("get"));
    assert!(is_dangerous_method("POST"));
    assert!(is_dangerous_method(""));
}
