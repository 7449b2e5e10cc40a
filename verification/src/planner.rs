//! A compact view of a session for a planner: where it is, what can be done there, what may be
//! worth doing next, and why the last step failed, if it did.
//!
//! The view is made from what the session already holds; nothing is fetched for it.

use vstd::prelude::*;

use crate::actions::{
    ActionTree, ButtonModel, DownloadModel, FieldModel, FormAction, FormField, FormModel, LinkModel,
    TreeModel,
};
use crate::pipeline::{Distilled, DistilledModel};
use crate::text;

verus! {

/// What a planner sees after a step.
#[derive(Debug, Clone)]
pub struct LoopView {
    pub state: PageState,
    pub available_actions: Vec<AvailableAction>,
    pub recommended_next_actions: Vec<RecommendedAction>,
    /// Why the last step failed; nothing where it looks fine.
    pub failure_reason: Option<String>,
}

/// Where the session is.
#[derive(Debug, Clone)]
pub struct PageState {
    pub url: Option<String>,
    pub status: u16,
    pub title: String,
    pub excerpt: Option<String>,
    /// Characters of distilled Markdown on the page.
    pub content_chars: usize,
    /// Operable actions on the page.
    pub action_count: usize,
    /// The content is suspiciously short.
    pub low_content: bool,
    /// A headless browser was used for the page.
    pub used_headless: bool,
    /// How many operations the session has run. Retries within one do not count.
    pub steps_taken: usize,
    /// Why a headless browser was called in for the last step, where it was.
    pub fallback_reason: Option<String>,
}

/// One operable element, in the shape common to all.
#[derive(Debug, Clone)]
pub struct AvailableAction {
    pub action_id: String,
    /// `link`, `form`, `button` or `download`.
    pub kind: String,
    /// What to show for it.
    pub label: String,
    /// Where a link, a download or a form leads.
    pub target: Option<String>,
    /// The method of a form.
    pub method: Option<String>,
    /// It is not run without confirmation, and never retried.
    pub dangerous: bool,
    /// The fields of a form that a caller may fill.
    pub fields: Vec<String>,
}

/// A hint. It is never acted on by itself.
#[derive(Debug, Clone)]
pub struct RecommendedAction {
    pub action_id: String,
    pub kind: String,
    pub why: String,
}

/// One entry of a session's log.
#[derive(Debug, Clone)]
pub struct OpLogEntry {
    /// The operation that the entry belongs to, counted from 1. Retries share a step.
    pub step: usize,
    /// `observe`, `follow` or `submit_form`.
    pub op: String,
    /// The URL that the operation went to.
    pub target: String,
    pub status: Option<u16>,
    /// The attempt, counted from 1; 0 for an operation that was withheld.
    pub attempt: usize,
    /// How it went, as a label.
    pub outcome: String,
    pub failure_reason: Option<String>,
}

// ---------------------------------------------------------------------------------------------
// Models
// ---------------------------------------------------------------------------------------------

/// A planner's view, as a mathematical value.
#[verifier::ext_equal]
pub struct LoopModel {
    pub state: PageModel,
    pub available_actions: Seq<AvailableModel>,
    pub recommended_next_actions: Seq<RecommendedModel>,
    pub failure_reason: Option<Seq<char>>,
}

/// A page state, as a mathematical value.
#[verifier::ext_equal]
pub struct PageModel {
    pub url: Option<Seq<char>>,
    pub status: u16,
    pub title: Seq<char>,
    pub excerpt: Option<Seq<char>>,
    pub content_chars: usize,
    pub action_count: usize,
    pub low_content: bool,
    pub used_headless: bool,
    pub steps_taken: usize,
    pub fallback_reason: Option<Seq<char>>,
}

/// An operable element, as a mathematical value.
#[verifier::ext_equal]
pub struct AvailableModel {
    pub action_id: Seq<char>,
    pub kind: Seq<char>,
    pub label: Seq<char>,
    pub target: Option<Seq<char>>,
    pub method: Option<Seq<char>>,
    pub dangerous: bool,
    pub fields: Seq<Seq<char>>,
}

/// A hint, as a mathematical value.
#[verifier::ext_equal]
pub struct RecommendedModel {
    pub action_id: Seq<char>,
    pub kind: Seq<char>,
    pub why: Seq<char>,
}

/// A log entry, as a mathematical value.
#[verifier::ext_equal]
pub struct OpLogModel {
    pub step: usize,
    pub op: Seq<char>,
    pub target: Seq<char>,
    pub status: Option<u16>,
    pub attempt: usize,
    pub outcome: Seq<char>,
    pub failure_reason: Option<Seq<char>>,
}

impl DeepView for LoopView {
    type V = LoopModel;

    open spec fn deep_view(&self) -> LoopModel {
        LoopModel {
            state: self.state.deep_view(),
            available_actions: self.available_actions.deep_view(),
            recommended_next_actions: self.recommended_next_actions.deep_view(),
            failure_reason: self.failure_reason.deep_view(),
        }
    }
}

impl DeepView for PageState {
    type V = PageModel;

    open spec fn deep_view(&self) -> PageModel {
        PageModel {
            url: self.url.deep_view(),
            status: self.status,
            title: self.title@,
            excerpt: self.excerpt.deep_view(),
            content_chars: self.content_chars,
            action_count: self.action_count,
            low_content: self.low_content,
            used_headless: self.used_headless,
            steps_taken: self.steps_taken,
            fallback_reason: self.fallback_reason.deep_view(),
        }
    }
}

impl DeepView for AvailableAction {
    type V = AvailableModel;

    open spec fn deep_view(&self) -> AvailableModel {
        AvailableModel {
            action_id: self.action_id@,
            kind: self.kind@,
            label: self.label@,
            target: self.target.deep_view(),
            method: self.method.deep_view(),
            dangerous: self.dangerous,
            fields: self.fields.deep_view(),
        }
    }
}

impl DeepView for RecommendedAction {
    type V = RecommendedModel;

    open spec fn deep_view(&self) -> RecommendedModel {
        RecommendedModel { action_id: self.action_id@, kind: self.kind@, why: self.why@ }
    }
}

impl DeepView for OpLogEntry {
    type V = OpLogModel;

    open spec fn deep_view(&self) -> OpLogModel {
        OpLogModel {
            step: self.step,
            op: self.op@,
            target: self.target@,
            status: self.status,
            attempt: self.attempt,
            outcome: self.outcome@,
            failure_reason: self.failure_reason.deep_view(),
        }
    }
}

// ---------------------------------------------------------------------------------------------
// Verify
// ---------------------------------------------------------------------------------------------

/// Why a response with that status counts as a failed step: an HTTP error status.
pub open spec fn failure_of(status: u16) -> Option<Seq<char>> {
    if status >= 400 {
        Some("http_status_"@ + text::decimal(status as nat))
    } else {
        None
    }
}

/// Decides whether a snapshot stands for a failed step. A short page is no failure.
pub fn verify(snapshot: &Distilled) -> (r: Option<String>)
    ensures
        r.deep_view() == failure_of(snapshot.status),
{
    status_failure(snapshot.status)
}

/// Why a response with that status counts as a failed step.
pub fn status_failure(status: u16) -> (r: Option<String>)
    ensures
        r.deep_view() == failure_of(status),
{
    if status >= 400 {
        Some(text::concat("http_status_", text::to_decimal(status as u128).as_str()))
    } else {
        None
    }
}

// ---------------------------------------------------------------------------------------------
// Available actions
// ---------------------------------------------------------------------------------------------

/// A method other than GET is not used without confirmation.
pub open spec fn is_dangerous(method: Seq<char>) -> bool {
    !text::same_letters(method, "GET"@)
}

/// Whether the method is other than GET.
pub fn is_dangerous_method(method: &str) -> (r: bool)
    ensures
        r == is_dangerous(method@),
{
    !text::eq_ignore_case(method, "GET")
}

/// The text, or the fallback where the text is blank.
pub open spec fn label_of(shown: Seq<char>, fallback: Seq<char>) -> Seq<char> {
    if text::trimmed(shown).len() == 0 {
        fallback
    } else {
        shown
    }
}

fn label_or(shown: &str, fallback: &str) -> (r: String)
    ensures
        r@ == label_of(shown@, fallback@),
{
    if text::is_blank(shown) {
        fallback.to_string()
    } else {
        shown.to_string()
    }
}

/// A caller may fill the field: it has a name, and its kind is neither hidden nor that of an
/// action.
pub open spec fn is_fillable(field: FieldModel) -> bool {
    let kind = text::lowered(field.kind);
    &&& text::trimmed(field.name).len() > 0
    &&& kind != "hidden"@
    &&& kind != "submit"@
    &&& kind != "button"@
    &&& kind != "reset"@
    &&& kind != "image"@
}

fn is_fillable_field(field: &FormField) -> (r: bool)
    ensures
        r == is_fillable(field.deep_view()),
{
    if text::is_blank(field.name.as_str()) {
        return false;
    }
    let kind = text::lower_str(field.kind.as_str());
    !(text::same(kind.as_str(), "hidden") || text::same(kind.as_str(), "submit") || text::same(
        kind.as_str(),
        "button",
    ) || text::same(kind.as_str(), "reset") || text::same(kind.as_str(), "image"))
}

/// The names of the fields that a caller may fill.
pub open spec fn fillable_names(fields: Seq<FieldModel>) -> Seq<Seq<char>>
    decreases fields.len(),
{
    if fields.len() == 0 {
        seq![]
    } else {
        let before = fillable_names(fields.drop_last());
        if is_fillable(fields.last()) {
            before.push(fields.last().name)
        } else {
            before
        }
    }
}

fn list_fillable(fields: &Vec<FormField>) -> (r: Vec<String>)
    ensures
        r.deep_view() == fillable_names(fields.deep_view()),
{
    let mut out: Vec<String> = Vec::new();
    let ghost all = fields.deep_view();
    assert(out.deep_view() =~= fillable_names(all.take(0)));
    for i in 0..fields.len()
        invariant
            all == fields.deep_view(),
            out.deep_view() == fillable_names(all.take(i as int)),
    {
        let f = &fields[i];
        proof {
            assert(all.take(i + 1).drop_last() =~= all.take(i as int));
            assert(all.take(i + 1).last() == f.deep_view());
        }
        if is_fillable_field(f) {
            let ghost before = out.deep_view();
            let name = f.name.clone();
            out.push(name);
            assert(out.deep_view() =~= before.push(name@));
        }
    }
    assert(all.take(all.len() as int) =~= all);
    out
}

/// What a planner sees of a link.
pub open spec fn available_link(l: LinkModel) -> AvailableModel {
    AvailableModel {
        action_id: l.action_id,
        kind: "link"@,
        label: label_of(l.text, l.href),
        target: Some(l.href),
        method: None,
        dangerous: false,
        fields: seq![],
    }
}

/// What a planner sees of a form.
pub open spec fn available_form(f: FormModel) -> AvailableModel {
    AvailableModel {
        action_id: f.action_id,
        kind: "form"@,
        label: f.method + " form → "@ + f.action,
        target: Some(f.action),
        method: Some(f.method),
        dangerous: is_dangerous(f.method),
        fields: fillable_names(f.fields),
    }
}

/// What a planner sees of a button.
pub open spec fn available_button(b: ButtonModel) -> AvailableModel {
    AvailableModel {
        action_id: b.action_id,
        kind: "button"@,
        label: b.text,
        target: None,
        method: None,
        dangerous: false,
        fields: seq![],
    }
}

/// What a planner sees of a download.
pub open spec fn available_download(d: DownloadModel) -> AvailableModel {
    AvailableModel {
        action_id: d.action_id,
        kind: "download"@,
        label: label_of(
            d.text,
            match d.filename {
                Some(name) => name,
                None => d.href,
            },
        ),
        target: Some(d.href),
        method: None,
        dangerous: false,
        fields: seq![],
    }
}

/// All actions of a tree: the links, the forms, the buttons, the downloads.
pub open spec fn flattened(tree: TreeModel) -> Seq<AvailableModel> {
    Seq::new(tree.links.len(), |i: int| available_link(tree.links[i])) + Seq::new(
        tree.forms.len(),
        |i: int| available_form(tree.forms[i]),
    ) + Seq::new(tree.buttons.len(), |i: int| available_button(tree.buttons[i])) + Seq::new(
        tree.downloads.len(),
        |i: int| available_download(tree.downloads[i]),
    )
}

/// Flattens an action tree into one list, each action with its id.
pub fn flatten_actions(tree: &ActionTree) -> (r: Vec<AvailableAction>)
    ensures
        r.deep_view() == flattened(tree.deep_view()),
{
    let mut out: Vec<AvailableAction> = Vec::new();
    let ghost t = tree.deep_view();
    let ghost links = Seq::new(t.links.len(), |i: int| available_link(t.links[i]));
    let ghost forms = Seq::new(t.forms.len(), |i: int| available_form(t.forms[i]));
    let ghost buttons = Seq::new(t.buttons.len(), |i: int| available_button(t.buttons[i]));
    let ghost downloads = Seq::new(t.downloads.len(), |i: int| available_download(t.downloads[i]));
    assert(out.deep_view() =~= links.take(0));
    for i in 0..tree.links.len()
        invariant
            t == tree.deep_view(),
            links == Seq::new(t.links.len(), |i: int| available_link(t.links[i])),
            out.deep_view() == links.take(i as int),
    {
        let l = &tree.links[i];
        let ghost before = out.deep_view();
        let a = AvailableAction {
            action_id: l.action_id.clone(),
            kind: "link".to_string(),
            label: label_or(l.text.as_str(), l.href.as_str()),
            target: Some(l.href.clone()),
            method: None,
            dangerous: false,
            fields: Vec::new(),
        };
        proof {
            assert(t.links[i as int] == l.deep_view());
            assert(a.deep_view() =~= links[i as int]);
            assert(links.take(i + 1) =~= links.take(i as int).push(links[i as int]));
        }
        out.push(a);
        assert(out.deep_view() =~= before.push(a.deep_view()));
    }
    assert(out.deep_view() =~= links + forms.take(0));
    for i in 0..tree.forms.len()
        invariant
            t == tree.deep_view(),
            forms == Seq::new(t.forms.len(), |i: int| available_form(t.forms[i])),
            out.deep_view() == links + forms.take(i as int),
    {
        let f = &tree.forms[i];
        let ghost before = out.deep_view();
        let a = AvailableAction {
            action_id: f.action_id.clone(),
            kind: "form".to_string(),
            label: text::concat(
                text::concat(f.method.as_str(), " form → ").as_str(),
                f.action.as_str(),
            ),
            target: Some(f.action.clone()),
            method: Some(f.method.clone()),
            dangerous: is_dangerous_method(f.method.as_str()),
            fields: list_fillable(&f.fields),
        };
        proof {
            assert(t.forms[i as int] == f.deep_view());
            assert(a.deep_view() =~= forms[i as int]);
            assert(links + forms.take(i + 1) =~= (links + forms.take(i as int)).push(
                forms[i as int],
            ));
        }
        out.push(a);
        assert(out.deep_view() =~= before.push(a.deep_view()));
    }
    assert(out.deep_view() =~= links + forms + buttons.take(0));
    for i in 0..tree.buttons.len()
        invariant
            t == tree.deep_view(),
            buttons == Seq::new(t.buttons.len(), |i: int| available_button(t.buttons[i])),
            out.deep_view() == links + forms + buttons.take(i as int),
    {
        let b = &tree.buttons[i];
        let ghost before = out.deep_view();
        let a = AvailableAction {
            action_id: b.action_id.clone(),
            kind: "button".to_string(),
            label: b.text.clone(),
            target: None,
            method: None,
            dangerous: false,
            fields: Vec::new(),
        };
        proof {
            assert(t.buttons[i as int] == b.deep_view());
            assert(a.deep_view() =~= buttons[i as int]);
            assert(links + forms + buttons.take(i + 1) =~= (links + forms + buttons.take(
                i as int,
            )).push(buttons[i as int]));
        }
        out.push(a);
        assert(out.deep_view() =~= before.push(a.deep_view()));
    }
    assert(out.deep_view() =~= links + forms + buttons + downloads.take(0));
    for i in 0..tree.downloads.len()
        invariant
            t == tree.deep_view(),
            downloads == Seq::new(t.downloads.len(), |i: int| available_download(t.downloads[i])),
            out.deep_view() == links + forms + buttons + downloads.take(i as int),
    {
        let d = &tree.downloads[i];
        let ghost before = out.deep_view();
        let label = match &d.filename {
            Some(name) => label_or(d.text.as_str(), name.as_str()),
            None => label_or(d.text.as_str(), d.href.as_str()),
        };
        let a = AvailableAction {
            action_id: d.action_id.clone(),
            kind: "download".to_string(),
            label,
            target: Some(d.href.clone()),
            method: None,
            dangerous: false,
            fields: Vec::new(),
        };
        proof {
            assert(t.downloads[i as int] == d.deep_view());
            assert(a.deep_view() =~= downloads[i as int]);
            assert(links + forms + buttons + downloads.take(i + 1) =~= (links + forms + buttons
                + downloads.take(i as int)).push(downloads[i as int]));
        }
        out.push(a);
        assert(out.deep_view() =~= before.push(a.deep_view()));
    }
    assert(downloads.take(downloads.len() as int) =~= downloads);
    out
}

// ---------------------------------------------------------------------------------------------
// Hints
// ---------------------------------------------------------------------------------------------

/// The field looks like one to search with.
pub open spec fn searchy_field(f: FieldModel) -> bool {
    let name = text::lowered(f.name);
    ||| text::lowered(f.kind) == "search"@
    ||| name == "q"@
    ||| text::has(name, "query"@)
    ||| text::has(name, "search"@)
    ||| text::has(name, "keyword"@)
    ||| text::has(name, "term"@)
    ||| text::has(name, "find"@)
}

/// The form looks like one to search with.
pub open spec fn searchy_form(f: FormModel) -> bool {
    exists|i: int| 0 <= i < f.fields.len() && searchy_field(#[trigger] f.fields[i])
}

/// The text looks like that of a link to more of a list.
pub open spec fn paginated(shown: Seq<char>) -> bool {
    let t = text::lowered(text::trimmed(shown));
    ||| t == ">"@
    ||| t == ">>"@
    ||| text::has(t, "next"@)
    ||| text::has(t, "more"@)
    ||| text::has(t, "older"@)
    ||| text::has(t, "newer"@)
    ||| text::has(t, "›"@)
    ||| text::has(t, "»"@)
    ||| text::has(t, "→"@)
}

fn field_looks_searchy(f: &FormField) -> (r: bool)
    ensures
        r == searchy_field(f.deep_view()),
{
    let kind = text::lower_str(f.kind.as_str());
    let name = text::lower_str(f.name.as_str());
    let chars = text::to_chars(name.as_str());
    let n = chars.as_slice();
    text::same(kind.as_str(), "search") || text::same(name.as_str(), "q") || text::contains(
        n,
        "query",
    ) || text::contains(n, "search") || text::contains(n, "keyword") || text::contains(n, "term")
        || text::contains(n, "find")
}

fn form_looks_searchy(f: &FormAction) -> (r: bool)
    ensures
        r == searchy_form(f.deep_view()),
{
    let ghost all = f.fields.deep_view();
    for i in 0..f.fields.len()
        invariant
            all == f.fields.deep_view(),
            forall|j: int| 0 <= j < i ==> !searchy_field(#[trigger] all[j]),
    {
        assert(all[i as int] == f.fields@[i as int].deep_view());
        if field_looks_searchy(&f.fields[i]) {
            assert(searchy_field(f.deep_view().fields[i as int]));
            return true;
        }
    }
    false
}

fn link_looks_paginated(shown: &str) -> (r: bool)
    ensures
        r == paginated(shown@),
{
    let chars = text::to_chars(shown);
    let lower = text::to_lower(text::trim(chars.as_slice()));
    let t = lower.as_slice();
    let word = text::from_chars(t);
    text::same(word.as_str(), ">") || text::same(word.as_str(), ">>") || text::contains(t, "next")
        || text::contains(t, "more") || text::contains(t, "older") || text::contains(t, "newer")
        || text::contains(t, "›") || text::contains(t, "»") || text::contains(t, "→")
}

/// The position of the first form that is harmless and looks like a search.
pub open spec fn first_search(forms: Seq<FormModel>) -> Option<int>
    decreases forms.len(),
{
    if forms.len() == 0 {
        None
    } else {
        match first_search(forms.drop_last()) {
            Some(i) => Some(i),
            None => if !is_dangerous(forms.last().method) && searchy_form(forms.last()) {
                Some(forms.len() - 1)
            } else {
                None
            },
        }
    }
}

/// The position of the first link that looks like one to more of a list.
pub open spec fn first_paginated(links: Seq<LinkModel>) -> Option<int>
    decreases links.len(),
{
    if links.len() == 0 {
        None
    } else {
        match first_paginated(links.drop_last()) {
            Some(i) => Some(i),
            None => if paginated(links.last().text) {
                Some(links.len() - 1)
            } else {
                None
            },
        }
    }
}

/// The hint for a search form, where there is one.
pub open spec fn search_hint(tree: TreeModel) -> Seq<RecommendedModel> {
    match first_search(tree.forms) {
        Some(i) => seq![
            RecommendedModel {
                action_id: tree.forms[i].action_id,
                kind: "form"@,
                why: "search/filter form (GET) — submit it to query the site"@,
            },
        ],
        None => seq![],
    }
}

/// The hint for a link to more of a list, where there is one.
pub open spec fn pagination_hint(tree: TreeModel) -> Seq<RecommendedModel> {
    match first_paginated(tree.links) {
        Some(i) => seq![
            RecommendedModel {
                action_id: tree.links[i].action_id,
                kind: "link"@,
                why: "looks like pagination / next — follow it to walk the list"@,
            },
        ],
        None => seq![],
    }
}

/// The hint for the first link, where there is one.
pub open spec fn primary_hint(tree: TreeModel) -> Seq<RecommendedModel> {
    if tree.links.len() > 0 {
        seq![
            RecommendedModel {
                action_id: tree.links[0].action_id,
                kind: "link"@,
                why: "primary link on the page — follow it to navigate"@,
            },
        ]
    } else {
        seq![]
    }
}

/// The hints for a tree: a search form, a link to more of a list, and the first link only where
/// there is neither.
pub open spec fn recommended(tree: TreeModel) -> Seq<RecommendedModel> {
    let found = search_hint(tree) + pagination_hint(tree);
    if found.len() == 0 {
        primary_hint(tree)
    } else {
        found
    }
}

fn find_search(forms: &Vec<FormAction>) -> (r: Option<usize>)
    ensures
        r matches Some(i) ==> i < forms@.len() && first_search(forms.deep_view()) == Some(i as int),
        r is None ==> first_search(forms.deep_view()) is None,
{
    let ghost all = forms.deep_view();
    assert(all.take(0).len() == 0);
    for i in 0..forms.len()
        invariant
            all == forms.deep_view(),
            first_search(all.take(i as int)) is None,
    {
        proof {
            assert(all.take(i + 1).drop_last() =~= all.take(i as int));
            assert(all.take(i + 1).last() == forms@[i as int].deep_view());
        }
        if !is_dangerous_method(forms[i].method.as_str()) && form_looks_searchy(&forms[i]) {
            proof {
                lemma_first_search_stays(all, i + 1, i as int);
            }
            return Some(i);
        }
    }
    assert(all.take(all.len() as int) =~= all);
    None
}

proof fn lemma_first_search_stays(forms: Seq<FormModel>, n: int, i: int)
    requires
        0 <= n <= forms.len(),
        first_search(forms.take(n)) == Some(i),
    ensures
        first_search(forms) == Some(i),
    decreases forms.len() - n,
{
    if n < forms.len() {
        assert(forms.take(n + 1).drop_last() =~= forms.take(n));
        lemma_first_search_stays(forms, n + 1, i);
    } else {
        assert(forms.take(n) =~= forms);
    }
}

fn find_paginated(links: &Vec<crate::actions::LinkAction>) -> (r: Option<usize>)
    ensures
        r matches Some(i) ==> i < links@.len() && first_paginated(links.deep_view()) == Some(
            i as int,
        ),
        r is None ==> first_paginated(links.deep_view()) is None,
{
    let ghost all = links.deep_view();
    assert(all.take(0).len() == 0);
    for i in 0..links.len()
        invariant
            all == links.deep_view(),
            first_paginated(all.take(i as int)) is None,
    {
        proof {
            assert(all.take(i + 1).drop_last() =~= all.take(i as int));
            assert(all.take(i + 1).last() == links@[i as int].deep_view());
        }
        if link_looks_paginated(links[i].text.as_str()) {
            proof {
                lemma_first_paginated_stays(all, i + 1, i as int);
            }
            return Some(i);
        }
    }
    assert(all.take(all.len() as int) =~= all);
    None
}

proof fn lemma_first_paginated_stays(links: Seq<LinkModel>, n: int, i: int)
    requires
        0 <= n <= links.len(),
        first_paginated(links.take(n)) == Some(i),
    ensures
        first_paginated(links) == Some(i),
    decreases links.len() - n,
{
    if n < links.len() {
        assert(links.take(n + 1).drop_last() =~= links.take(n));
        lemma_first_paginated_stays(links, n + 1, i);
    } else {
        assert(links.take(n) =~= links);
    }
}

/// Cheap hints at what to do next: at most two, each of an action that the tree holds.
pub fn recommend(tree: &ActionTree) -> (r: Vec<RecommendedAction>)
    ensures
        r.deep_view() == recommended(tree.deep_view()),
{
    let ghost t = tree.deep_view();
    let mut recs: Vec<RecommendedAction> = Vec::new();
    assert(recs.deep_view() =~= seq![]);
    if let Some(i) = find_search(&tree.forms) {
        let rec = RecommendedAction {
            action_id: tree.forms[i].action_id.clone(),
            kind: "form".to_string(),
            why: "search/filter form (GET) — submit it to query the site".to_string(),
        };
        recs.push(rec);
        assert(recs.deep_view() =~= search_hint(t));
    }
    assert(recs.deep_view() =~= search_hint(t));
    if let Some(i) = find_paginated(&tree.links) {
        let rec = RecommendedAction {
            action_id: tree.links[i].action_id.clone(),
            kind: "link".to_string(),
            why: "looks like pagination / next — follow it to walk the list".to_string(),
        };
        let ghost before = recs.deep_view();
        recs.push(rec);
        assert(recs.deep_view() =~= before.push(rec.deep_view()));
        assert(pagination_hint(t) =~= seq![rec.deep_view()]);
    }
    assert(recs.deep_view() =~= search_hint(t) + pagination_hint(t));
    if recs.len() == 0 && tree.links.len() > 0 {
        let rec = RecommendedAction {
            action_id: tree.links[0].action_id.clone(),
            kind: "link".to_string(),
            why: "primary link on the page — follow it to navigate".to_string(),
        };
        recs.push(rec);
        assert(recs.deep_view() =~= primary_hint(t));
    }
    assert(recs.deep_view() =~= recommended(t));
    recs
}

// ---------------------------------------------------------------------------------------------
// The view
// ---------------------------------------------------------------------------------------------

/// The number of actions of a tree, as far as a machine word can say it.
pub open spec fn action_total(tree: Option<TreeModel>) -> usize {
    match tree {
        Some(t) => if t.total() <= usize::MAX {
            t.total() as usize
        } else {
            usize::MAX
        },
        None => 0,
    }
}

/// The number of actions of a tree, as far as a machine word can say it.
pub fn count_actions(tree: &Option<ActionTree>) -> (n: usize)
    ensures
        n == action_total(tree.deep_view()),
{
    match tree {
        Some(t) => t.links.len().saturating_add(t.forms.len()).saturating_add(
            t.buttons.len(),
        ).saturating_add(t.downloads.len()),
        None => 0,
    }
}

/// What a planner sees where there is no page yet.
pub open spec fn empty_view(failure: Option<Seq<char>>, steps: usize) -> LoopModel {
    LoopModel {
        state: PageModel {
            url: None,
            status: 0,
            title: seq![],
            excerpt: None,
            content_chars: 0,
            action_count: 0,
            low_content: false,
            used_headless: false,
            steps_taken: steps,
            fallback_reason: None,
        },
        available_actions: seq![],
        recommended_next_actions: seq![],
        failure_reason: failure,
    }
}

/// What a planner sees after a step.
pub open spec fn view_of(
    snapshot: Option<DistilledModel>,
    failure: Option<Seq<char>>,
    steps: usize,
) -> LoopModel {
    match snapshot {
        Some(snap) => LoopModel {
            state: PageModel {
                url: Some(snap.final_url),
                status: snap.status,
                title: snap.title,
                excerpt: snap.excerpt,
                content_chars: snap.markdown.len() as usize,
                action_count: action_total(snap.actions),
                low_content: snap.diagnostics matches Some(d) && d.low_content,
                used_headless: snap.diagnostics matches Some(d) && d.used_headless,
                steps_taken: steps,
                fallback_reason: None,
            },
            available_actions: match snap.actions {
                Some(tree) => flattened(tree),
                None => seq![],
            },
            recommended_next_actions: match snap.actions {
                Some(tree) => recommended(tree),
                None => seq![],
            },
            failure_reason: failure,
        },
        None => empty_view(failure, steps),
    }
}

impl PageState {
    fn empty(steps_taken: usize) -> (r: PageState)
        ensures
            r.deep_view() == empty_view(None, steps_taken).state,
    {
        PageState {
            url: None,
            status: 0,
            title: String::new(),
            excerpt: None,
            content_chars: 0,
            action_count: 0,
            low_content: false,
            used_headless: false,
            steps_taken,
            fallback_reason: None,
        }
    }
}

/// Builds the planner's view from the last snapshot, the last failure and the number of steps.
pub fn loop_view(
    snapshot: Option<&Distilled>,
    failure_reason: Option<String>,
    steps_taken: usize,
) -> (r: LoopView)
    ensures
        r.deep_view() == view_of(snapshot.deep_view(), failure_reason.deep_view(), steps_taken),
{
    let snap = match snapshot {
        Some(snap) => snap,
        None => {
            let view = LoopView {
                state: PageState::empty(steps_taken),
                available_actions: Vec::new(),
                recommended_next_actions: Vec::new(),
                failure_reason,
            };
            assert(view.deep_view() =~= empty_view(failure_reason.deep_view(), steps_taken));
            return view;
        },
    };
    let available_actions = match &snap.actions {
        Some(tree) => flatten_actions(tree),
        None => Vec::new(),
    };
    let recommended_next_actions = match &snap.actions {
        Some(tree) => recommend(tree),
        None => Vec::new(),
    };
    let low_content = match &snap.diagnostics {
        Some(d) => d.low_content,
        None => false,
    };
    let used_headless = match &snap.diagnostics {
        Some(d) => d.used_headless,
        None => false,
    };
    let view = LoopView {
        state: PageState {
            url: Some(snap.final_url.clone()),
            status: snap.status,
            title: snap.title.clone(),
            excerpt: text::copy_opt(&snap.excerpt),
            content_chars: text::length(snap.markdown.as_str()),
            action_count: count_actions(&snap.actions),
            low_content,
            used_headless,
            steps_taken,
            fallback_reason: None,
        },
        available_actions,
        recommended_next_actions,
        failure_reason,
    };
    assert(view.deep_view() =~= view_of(
        snapshot.deep_view(),
        failure_reason.deep_view(),
        steps_taken,
    ));
    view
}

// ---------------------------------------------------------------------------------------------
// Laws
// ---------------------------------------------------------------------------------------------

/// A step fails to verify exactly on an HTTP error status.
pub proof fn law_only_error_statuses_fail(status: u16)
    ensures
        failure_of(status) is Some <==> status >= 400,
{
}

/// Flattening loses no action and invents none, keeps every id, and marks exactly the forms with
/// a method other than GET as dangerous.
pub proof fn law_flattening_keeps_every_action(tree: TreeModel)
    ensures
        flattened(tree).len() == tree.total(),
        forall|i: int|
            0 <= i < tree.links.len() ==> (#[trigger] flattened(tree)[i]).action_id
                == tree.links[i].action_id && !flattened(tree)[i].dangerous,
        forall|i: int|
            #![trigger tree.forms[i]]
            0 <= i < tree.forms.len() ==> {
                let a = flattened(tree)[tree.links.len() + i];
                a.action_id == tree.forms[i].action_id && a.dangerous == is_dangerous(
                    tree.forms[i].method,
                )
            },
        forall|i: int|
            #![trigger tree.buttons[i]]
            0 <= i < tree.buttons.len() ==> {
                let a = flattened(tree)[tree.links.len() + tree.forms.len() + i];
                a.action_id == tree.buttons[i].action_id && !a.dangerous
            },
        forall|i: int|
            #![trigger tree.downloads[i]]
            0 <= i < tree.downloads.len() ==> {
                let a = flattened(tree)[tree.links.len() + tree.forms.len() + tree.buttons.len()
                    + i];
                a.action_id == tree.downloads[i].action_id && !a.dangerous
            },
{
}

/// The hints are at most two, there is one wherever the page has a link, each names an action of
/// the tree, and none names a dangerous one.
pub proof fn law_hints_name_real_actions(tree: TreeModel)
    ensures
        recommended(tree).len() <= 2,
        tree.links.len() > 0 ==> recommended(tree).len() >= 1,
        forall|k: int|
            #![trigger recommended(tree)[k]]
            0 <= k < recommended(tree).len() ==> {
                ||| exists|i: int|
                    0 <= i < tree.forms.len() && !is_dangerous(tree.forms[i].method) && (
                    #[trigger] tree.forms[i]).action_id == recommended(tree)[k].action_id
                ||| exists|i: int|
                    0 <= i < tree.links.len() && (#[trigger] tree.links[i]).action_id
                        == recommended(tree)[k].action_id
            },
{
    lemma_first_search(tree.forms);
    lemma_first_paginated(tree.links);
    let recs = recommended(tree);
    assert forall|k: int|
        #![trigger recommended(tree)[k]]
        0 <= k < recs.len() implies {
        ||| exists|i: int|
            0 <= i < tree.forms.len() && !is_dangerous(tree.forms[i].method) && (
            #[trigger] tree.forms[i]).action_id == recs[k].action_id
        ||| exists|i: int|
            0 <= i < tree.links.len() && (#[trigger] tree.links[i]).action_id
                == recs[k].action_id
    } by {
        let s = search_hint(tree);
        let p = pagination_hint(tree);
        if (s + p).len() == 0 {
            assert(recs[k].action_id == tree.links[0].action_id);
        } else if k < s.len() {
            let i = first_search(tree.forms)->0;
            assert(recs[k].action_id == tree.forms[i].action_id);
        } else {
            let i = first_paginated(tree.links)->0;
            assert(recs[k].action_id == tree.links[i].action_id);
        }
    }
}

proof fn lemma_first_search(forms: Seq<FormModel>)
    ensures
        first_search(forms) matches Some(i) ==> 0 <= i < forms.len() && !is_dangerous(
            forms[i].method,
        ),
    decreases forms.len(),
{
    if forms.len() > 0 {
        lemma_first_search(forms.drop_last());
    }
}

proof fn lemma_first_paginated(links: Seq<LinkModel>)
    ensures
        first_paginated(links) matches Some(i) ==> 0 <= i < links.len(),
    decreases links.len(),
{
    if links.len() > 0 {
        lemma_first_paginated(links.drop_last());
    }
}

/// A failed step says which status it failed with.
pub proof fn law_failures_name_the_status(status: u16)
    ensures
        status >= 400 ==> failure_of(status) == Some("http_status_"@ + text::decimal(status as nat)),
{
}

/// A method is harmless where it is GET, in whatever case, and dangerous otherwise.
pub proof fn law_only_get_is_harmless(method: Seq<char>)
    ensures
        is_dangerous(method) <==> !(method.len() == 3 && (method[0] == 'G' || method[0] == 'g') && (
        method[1] == 'E' || method[1] == 'e') && (method[2] == 'T' || method[2] == 't')),
{
    reveal_strlit("GET");
    let l = text::lowered(method);
    let g = text::lowered("GET"@);
    assert(g =~= seq!['g', 'e', 't']);
    if method.len() == 3 && (method[0] == 'G' || method[0] == 'g') && (method[1] == 'E' || method[1]
        == 'e') && (method[2] == 'T' || method[2] == 't') {
        assert(l =~= g);
    } else if l == g {
        assert(l[0] == 'g' && l[1] == 'e' && l[2] == 't');
        assert(text::lower_char(method[0]) == 'g');
        assert(text::lower_char(method[1]) == 'e');
        assert(text::lower_char(method[2]) == 't');
    }
}

/// Every action is shown as what it is: a link and a download with where they lead, a form with its
/// method, its target and the fields to fill, a button by its text. What shows nothing is named by
/// its file or by its target.
pub proof fn law_actions_are_shown_as_what_they_are(tree: TreeModel, i: int)
    ensures
        0 <= i < tree.links.len() ==> {
            let a = flattened(tree)[i];
            let l = tree.links[i];
            &&& a.kind == "link"@
            &&& a.target == Some(l.href)
            &&& a.method is None
            &&& a.fields.len() == 0
            &&& text::trimmed(l.text).len() > 0 ==> a.label == l.text
            &&& text::trimmed(l.text).len() == 0 ==> a.label == l.href
        },
        0 <= i < tree.forms.len() ==> {
            let a = flattened(tree)[tree.links.len() + i];
            let f = tree.forms[i];
            &&& a.kind == "form"@
            &&& a.target == Some(f.action)
            &&& a.method == Some(f.method)
            &&& a.label == f.method + " form → "@ + f.action
            &&& a.fields == fillable_names(f.fields)
        },
        0 <= i < tree.buttons.len() ==> {
            let a = flattened(tree)[tree.links.len() + tree.forms.len() + i];
            &&& a.kind == "button"@
            &&& a.label == tree.buttons[i].text
            &&& a.target is None
            &&& a.method is None
            &&& a.fields.len() == 0
        },
        0 <= i < tree.downloads.len() ==> {
            let a = flattened(tree)[tree.links.len() + tree.forms.len() + tree.buttons.len() + i];
            let d = tree.downloads[i];
            &&& a.kind == "download"@
            &&& a.target == Some(d.href)
            &&& a.method is None
            &&& a.fields.len() == 0
            &&& text::trimmed(d.text).len() > 0 ==> a.label == d.text
            &&& text::trimmed(d.text).len() == 0 ==> a.label == match d.filename {
                Some(name) => name,
                None => d.href,
            }
        },
{
}

/// The fields to fill are those with a name that are neither hidden nor an action, in their order.
pub proof fn law_fields_to_fill_are_named_and_visible(fields: Seq<FieldModel>)
    ensures
        ({
            let kept = fields.filter(
                |f: FieldModel|
                    {
                        let kind = text::lowered(f.kind);
                        &&& text::trimmed(f.name).len() > 0
                        &&& kind != "hidden"@ && kind != "submit"@ && kind != "button"@ && kind
                            != "reset"@ && kind != "image"@
                    },
            );
            &&& fillable_names(fields).len() == kept.len()
            &&& forall|i: int|
                0 <= i < kept.len() ==> #[trigger] fillable_names(fields)[i] == kept[i].name
        }),
    decreases fields.len(),
{
    reveal(Seq::filter);
    if fields.len() > 0 {
        law_fields_to_fill_are_named_and_visible(fields.drop_last());
    }
}

/// The first hint is the first harmless form with a field to search with, where there is one.
pub proof fn law_the_first_search_form_is_hinted_at(tree: TreeModel, i: int)
    requires
        0 <= i < tree.forms.len(),
        !is_dangerous(tree.forms[i].method),
        searchy_form(tree.forms[i]),
        forall|j: int|
            0 <= j < i ==> is_dangerous((#[trigger] tree.forms[j]).method) || !searchy_form(
                tree.forms[j],
            ),
    ensures
        recommended(tree).len() > 0,
        recommended(tree)[0].action_id == tree.forms[i].action_id,
        recommended(tree)[0].kind == "form"@,
{
    lemma_first_search_is(tree.forms, i);
}

/// The first link that looks like one to more of a list is hinted at, where there is one.
pub proof fn law_the_first_pagination_link_is_hinted_at(tree: TreeModel, i: int)
    requires
        0 <= i < tree.links.len(),
        paginated(tree.links[i].text),
        forall|j: int| 0 <= j < i ==> !paginated((#[trigger] tree.links[j]).text),
    ensures
        recommended(tree).len() > 0,
        recommended(tree).last().action_id == tree.links[i].action_id,
        recommended(tree).last().kind == "link"@,
        recommended(tree).len() == 1 <==> forall|j: int|
            0 <= j < tree.forms.len() ==> is_dangerous((#[trigger] tree.forms[j]).method)
                || !searchy_form(tree.forms[j]),
{
    lemma_first_paginated_is(tree.links, i);
    lemma_no_search(tree.forms);
    if first_search(tree.forms) is Some {
        lemma_search_found(tree.forms);
    } else {
        lemma_search_missing(tree.forms);
    }
}

/// The first link of a page is hinted at where nothing better is there, and only then. A page with
/// no link and no form to search with has no hints.
pub proof fn law_the_first_link_is_the_last_resort(tree: TreeModel)
    requires
        forall|j: int|
            0 <= j < tree.forms.len() ==> is_dangerous((#[trigger] tree.forms[j]).method)
                || !searchy_form(tree.forms[j]),
        forall|j: int| 0 <= j < tree.links.len() ==> !paginated((#[trigger] tree.links[j]).text),
    ensures
        tree.links.len() == 0 ==> recommended(tree).len() == 0,
        tree.links.len() > 0 ==> recommended(tree).len() == 1 && recommended(tree)[0].action_id
            == tree.links[0].action_id && recommended(tree)[0].kind == "link"@,
{
    lemma_no_search(tree.forms);
    lemma_no_pagination(tree.links);
}

/// A form is one to search with where a field of it is of the kind `search`, is named `q`, or has a
/// name that speaks of searching, in whatever case.
pub proof fn law_search_fields_are_known_by_kind_or_name(f: FormModel, i: int)
    requires
        0 <= i < f.fields.len(),
    ensures
        ({
            let kind = text::lowered(f.fields[i].kind);
            let name = text::lowered(f.fields[i].name);
            let searches = kind == "search"@ || name == "q"@ || text::has(name, "query"@)
                || text::has(name, "search"@) || text::has(name, "keyword"@) || text::has(
                name,
                "term"@,
            ) || text::has(name, "find"@);
            &&& searches ==> searchy_form(f)
            &&& !searches && f.fields.len() == 1 ==> !searchy_form(f)
        }),
{
    if searchy_field(f.fields[i]) {
        assert(searchy_form(f));
    }
}

/// A link leads to more of a list where it shows `>` or `>>` or speaks of what is next, more, older
/// or newer, in words of whatever case or with an arrow.
pub proof fn law_pagination_is_known_by_its_text(shown: Seq<char>)
    ensures
        ({
            let t = text::lowered(text::trimmed(shown));
            paginated(shown) <==> (t == seq!['>'] || t == seq!['>', '>'] || text::has(t, "next"@)
                || text::has(t, "more"@) || text::has(t, "older"@) || text::has(t, "newer"@)
                || text::has(t, seq!['›']) || text::has(t, seq!['»']) || text::has(t, seq!['→']))
        }),
{
    reveal_strlit(">");
    reveal_strlit(">>");
    reveal_strlit("›");
    reveal_strlit("»");
    reveal_strlit("→");
    assert(">"@ =~= seq!['>']);
    assert(">>"@ =~= seq!['>', '>']);
    assert("›"@ =~= seq!['›']);
    assert("»"@ =~= seq!['»']);
    assert("→"@ =~= seq!['→']);
}

proof fn lemma_first_search_is(forms: Seq<FormModel>, i: int)
    requires
        0 <= i < forms.len(),
        !is_dangerous(forms[i].method),
        searchy_form(forms[i]),
        forall|j: int|
            0 <= j < i ==> is_dangerous((#[trigger] forms[j]).method) || !searchy_form(forms[j]),
    ensures
        first_search(forms) == Some(i),
    decreases forms.len(),
{
    let prior = forms.drop_last();
    if i < prior.len() {
        assert forall|j: int| 0 <= j < i implies is_dangerous((#[trigger] prior[j]).method)
            || !searchy_form(prior[j]) by {
            assert(prior[j] == forms[j]);
        }
        lemma_first_search_is(prior, i);
    } else {
        assert forall|j: int| 0 <= j < prior.len() implies is_dangerous((#[trigger] prior[j]).method)
            || !searchy_form(prior[j]) by {
            assert(prior[j] == forms[j]);
        }
        lemma_no_search(prior);
    }
}

proof fn lemma_no_search(forms: Seq<FormModel>)
    ensures
        (forall|j: int|
            0 <= j < forms.len() ==> is_dangerous((#[trigger] forms[j]).method) || !searchy_form(
                forms[j],
            )) ==> first_search(forms) is None,
    decreases forms.len(),
{
    if forms.len() > 0 && (forall|j: int|
        0 <= j < forms.len() ==> is_dangerous((#[trigger] forms[j]).method) || !searchy_form(
            forms[j],
        )) {
        let prior = forms.drop_last();
        assert forall|j: int| 0 <= j < prior.len() implies is_dangerous((#[trigger] prior[j]).method)
            || !searchy_form(prior[j]) by {
            assert(prior[j] == forms[j]);
        }
        lemma_no_search(prior);
        assert(is_dangerous(forms[forms.len() - 1].method) || !searchy_form(
            forms[forms.len() - 1],
        ));
    }
}

proof fn lemma_search_found(forms: Seq<FormModel>)
    requires
        first_search(forms) is Some,
    ensures
        exists|j: int|
            0 <= j < forms.len() && !is_dangerous((#[trigger] forms[j]).method) && searchy_form(
                forms[j],
            ),
    decreases forms.len(),
{
    let prior = forms.drop_last();
    if first_search(prior) is Some {
        lemma_search_found(prior);
        let j = choose|j: int|
            0 <= j < prior.len() && !is_dangerous((#[trigger] prior[j]).method) && searchy_form(
                prior[j],
            );
        assert(!is_dangerous(forms[j].method) && searchy_form(forms[j]));
    } else {
        let j = forms.len() - 1;
        assert(!is_dangerous(forms[j].method) && searchy_form(forms[j]));
    }
}

proof fn lemma_search_missing(forms: Seq<FormModel>)
    requires
        first_search(forms) is None,
    ensures
        forall|j: int|
            0 <= j < forms.len() ==> is_dangerous((#[trigger] forms[j]).method) || !searchy_form(
                forms[j],
            ),
    decreases forms.len(),
{
    if forms.len() > 0 {
        let prior = forms.drop_last();
        lemma_search_missing(prior);
        assert forall|j: int| 0 <= j < forms.len() implies is_dangerous((#[trigger] forms[j]).method)
            || !searchy_form(forms[j]) by {
            if j < prior.len() {
                assert(prior[j] == forms[j]);
            }
        }
    }
}

proof fn lemma_first_paginated_is(links: Seq<LinkModel>, i: int)
    requires
        0 <= i < links.len(),
        paginated(links[i].text),
        forall|j: int| 0 <= j < i ==> !paginated((#[trigger] links[j]).text),
    ensures
        first_paginated(links) == Some(i),
    decreases links.len(),
{
    let prior = links.drop_last();
    if i < prior.len() {
        assert forall|j: int| 0 <= j < i implies !paginated((#[trigger] prior[j]).text) by {
            assert(prior[j] == links[j]);
        }
        lemma_first_paginated_is(prior, i);
    } else {
        assert forall|j: int| 0 <= j < prior.len() implies !paginated((#[trigger] prior[j]).text) by {
            assert(prior[j] == links[j]);
        }
        lemma_no_pagination(prior);
    }
}

proof fn lemma_no_pagination(links: Seq<LinkModel>)
    requires
        forall|j: int| 0 <= j < links.len() ==> !paginated((#[trigger] links[j]).text),
    ensures
        first_paginated(links) is None,
    decreases links.len(),
{
    if links.len() > 0 {
        let prior = links.drop_last();
        assert forall|j: int| 0 <= j < prior.len() implies !paginated((#[trigger] prior[j]).text) by {
            assert(prior[j] == links[j]);
        }
        lemma_no_pagination(prior);
        assert(!paginated(links[links.len() - 1].text));
    }
}

/// What a planner sees is what the last snapshot holds: where it came from, its status, its title,
/// how much there is to read and all that can be done.
pub proof fn law_the_view_shows_the_snapshot(
    page: DistilledModel,
    failure: Option<Seq<char>>,
    steps: usize,
)
    ensures
        ({
            let view = view_of(Some(page), failure, steps);
            &&& view.state.url == Some(page.final_url)
            &&& view.state.status == page.status
            &&& view.state.title == page.title
            &&& view.state.excerpt == page.excerpt
            &&& page.markdown.len() <= usize::MAX ==> view.state.content_chars == page.markdown.len()
            &&& view.state.steps_taken == steps
            &&& view.state.low_content == (page.diagnostics matches Some(d) && d.low_content)
            &&& view.state.used_headless == (page.diagnostics matches Some(d) && d.used_headless)
            &&& view.failure_reason == failure
            &&& page.actions matches Some(tree) ==> {
                &&& view.available_actions == flattened(tree)
                &&& view.recommended_next_actions == recommended(tree)
                &&& tree.total() <= usize::MAX ==> view.state.action_count
                    == view.available_actions.len()
            }
            &&& page.actions is None ==> view.available_actions.len() == 0
                && view.recommended_next_actions.len() == 0 && view.state.action_count == 0
        }),
{
}

/// Without a page there is nothing to see but the number of steps and why the last one failed.
pub proof fn law_there_is_nothing_to_see_before_a_page(failure: Option<Seq<char>>, steps: usize)
    ensures
        ({
            let view = view_of(None, failure, steps);
            &&& view.state.url is None
            &&& view.state.status == 0
            &&& view.state.title.len() == 0
            &&& view.state.content_chars == 0
            &&& view.state.action_count == 0
            &&& view.state.steps_taken == steps
            &&& view.available_actions.len() == 0
            &&& view.recommended_next_actions.len() == 0
            &&& view.failure_reason == failure
        }),
{
}

/// A hint says what its action is good for: searching, going on in a list, or going anywhere.
pub proof fn law_hints_say_what_they_are_for(tree: TreeModel, k: int)
    requires
        0 <= k < recommended(tree).len(),
    ensures
        ({
            let hint = recommended(tree)[k];
            &&& hint.kind == "form"@ || hint.kind == "link"@
            &&& hint.kind == "form"@ ==> k == 0 && hint.why
                == "search/filter form (GET) — submit it to query the site"@
            &&& hint.kind == "link"@ && (first_search(tree.forms) is Some || first_paginated(
                tree.links,
            ) is Some) ==> hint.why
                == "looks like pagination / next — follow it to walk the list"@
            &&& first_search(tree.forms) is None && first_paginated(tree.links) is None ==> hint.why
                == "primary link on the page — follow it to navigate"@
        }),
{
    reveal_strlit("form");
    reveal_strlit("link");
    assert("form"@[0] == 'f' && "link"@[0] == 'l');
}

/// The mathematical value of a planner's view shows every part of it.
pub proof fn law_views_show_every_part(
    v: LoopView,
    s: PageState,
    a: AvailableAction,
    r: RecommendedAction,
    e: OpLogEntry,
)
    ensures
        v.deep_view().state == v.state.deep_view() && v.deep_view().available_actions
            == v.available_actions.deep_view() && v.deep_view().recommended_next_actions
            == v.recommended_next_actions.deep_view() && v.deep_view().failure_reason
            == v.failure_reason.deep_view(),
        s.deep_view().url == s.url.deep_view() && s.deep_view().status == s.status
            && s.deep_view().title == s.title@ && s.deep_view().excerpt == s.excerpt.deep_view()
            && s.deep_view().content_chars == s.content_chars && s.deep_view().action_count
            == s.action_count && s.deep_view().low_content == s.low_content
            && s.deep_view().used_headless == s.used_headless && s.deep_view().steps_taken
            == s.steps_taken && s.deep_view().fallback_reason == s.fallback_reason.deep_view(),
        a.deep_view().action_id == a.action_id@ && a.deep_view().kind == a.kind@
            && a.deep_view().label == a.label@ && a.deep_view().target == a.target.deep_view()
            && a.deep_view().method == a.method.deep_view() && a.deep_view().dangerous
            == a.dangerous && a.deep_view().fields == a.fields.deep_view(),
        r.deep_view().action_id == r.action_id@ && r.deep_view().kind == r.kind@
            && r.deep_view().why == r.why@,
        e.deep_view().step == e.step && e.deep_view().op == e.op@ && e.deep_view().target
            == e.target@ && e.deep_view().status == e.status && e.deep_view().attempt == e.attempt
            && e.deep_view().outcome == e.outcome@ && e.deep_view().failure_reason
            == e.failure_reason.deep_view(),
{
}

} // verus!
