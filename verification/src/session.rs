//! A browsing session: observe a page, act on it by the ids of its actions, verify the outcome.
//!
//! A session holds the current URL, the history, the last snapshot and a log of its operations.
//! It decides, and whoever drives it does the work: every operation answers with a [`Turn`] that
//! asks for a request, an assessment or a rendering, and goes on when the outcome is handed back.
//!
//! An idempotent step (observe, follow, a GET form) is retried on a status or an error that may
//! pass. A form with another method is withheld until it is confirmed, is sent once, and is never
//! sent again nor fetched by a browser.

use vstd::prelude::*;

use crate::actions::{ActionTree, FieldModel, FormAction, FormField, FormModel, OptionModel};
use crate::actions::{DownloadModel, FormOption, LinkModel, TreeModel};
use crate::error;
use crate::error::{Error, ErrorModel};
use crate::fetch;
use crate::fetch::{FetchModel, FetchOptions, FetchResult};
use crate::pipeline;
use crate::pipeline::{DiagnosticsModel, DistillOptions, Distilled, DistilledModel, JsMode};
use crate::planner;
use crate::planner::{LoopModel, LoopView, OpLogEntry, OpLogModel};
use crate::span::Span;
use crate::text;

verus! {

/// The retries of an idempotent step by default.
pub const DEFAULT_MAX_ACTION_RETRIES: usize = 1;

/// The most retries that an idempotent step can have.
pub const MAX_ACTION_RETRIES_CAP: usize = 2;

/// How many entries of the log are kept, the latest ones.
pub const MAX_LOG_ENTRIES: usize = 200;

/// How many characters of an error stand in the log.
pub const MAX_LOGGED_ERR_CHARS: usize = 200;

/// Why a headless browser is called in.
#[derive(Debug, Clone, Copy, PartialEq, Eq, Structural)]
pub enum FallbackReason {
    /// The page is a challenge to automated visitors.
    Challenge,
    /// The page is an app that JavaScript has not rendered yet.
    JsApp,
    /// The page offers nothing to act on until JavaScript runs.
    NoActions,
    /// The options ask for it.
    Forced,
}

impl FallbackReason {
    /// The label of the reason.
    pub open spec fn name(self) -> Seq<char> {
        match self {
            FallbackReason::Challenge => "challenge"@,
            FallbackReason::JsApp => "js_app"@,
            FallbackReason::NoActions => "no_actions"@,
            FallbackReason::Forced => "forced"@,
        }
    }

    /// The label of the reason, in small letters.
    pub fn label(self) -> (r: &'static str)
        ensures
            r@ == self.name(),
    {
        match self {
            FallbackReason::Challenge => "challenge",
            FallbackReason::JsApp => "js_app",
            FallbackReason::NoActions => "no_actions",
            FallbackReason::Forced => "forced",
        }
    }
}

/// What became of a form.
#[derive(Debug, Clone)]
pub enum SubmitOutcome {
    /// It was submitted, and the snapshot is what came back.
    Submitted,
    /// It was withheld, and nothing was sent. This is what would be sent.
    NeedsConfirmation { method: String, action: String, fields: Vec<(String, String)> },
}

/// What became of a form, as a mathematical value.
pub enum SubmitModel {
    Submitted,
    NeedsConfirmation { method: Seq<char>, action: Seq<char>, fields: Seq<(Seq<char>, Seq<char>)> },
}

impl DeepView for SubmitOutcome {
    type V = SubmitModel;

    open spec fn deep_view(&self) -> SubmitModel {
        match self {
            SubmitOutcome::Submitted => SubmitModel::Submitted,
            SubmitOutcome::NeedsConfirmation { method, action, fields } => SubmitModel::NeedsConfirmation {
                method: method@,
                action: action@,
                fields: fields.deep_view(),
            },
        }
    }
}

/// The state of a session.
#[verifier::ext_equal]
pub struct SessionModel {
    pub opts: DistillOptions,
    pub current_url: Option<Seq<char>>,
    pub history: Seq<Seq<char>>,
    pub snapshot: Option<DistilledModel>,
    pub max_retries: usize,
    pub failure: Option<Seq<char>>,
    pub log: Seq<OpLogModel>,
    pub step: usize,
    pub fallback: Option<Seq<char>>,
}

/// A browsing session.
#[derive(Debug)]
pub struct Session {
    opts: DistillOptions,
    current_url: Option<String>,
    redirect_history: Vec<String>,
    last_snapshot: Option<Distilled>,
    max_action_retries: usize,
    last_failure: Option<String>,
    log: Vec<OpLogEntry>,
    step: usize,
    last_fallback: Option<String>,
}

/// A response that a session keeps, while it is settled.
#[derive(Debug)]
pub struct Kept {
    pub op: String,
    pub target: String,
    pub attempt: usize,
    pub result: FetchResult,
    pub snap: Distilled,
}

/// A response that a session keeps, while it is settled, as a mathematical value.
#[verifier::ext_equal]
pub struct KeptModel {
    pub op: Seq<char>,
    pub target: Seq<char>,
    pub attempt: usize,
    pub result: FetchModel,
    pub snap: DistilledModel,
}

impl DeepView for Kept {
    type V = KeptModel;

    open spec fn deep_view(&self) -> KeptModel {
        KeptModel {
            op: self.op@,
            target: self.target@,
            attempt: self.attempt,
            result: self.result.deep_view(),
            snap: self.snap.deep_view(),
        }
    }
}

/// What a session is waiting for.
#[derive(Debug)]
pub enum Stage {
    /// The response to an idempotent request, and how many were made before.
    Fetching { op: String, target: String, url: String, attempt: usize },
    /// The response to a form that was confirmed.
    Posting { target: String },
    /// Word on whether the page is good enough.
    Assessing { kept: Kept },
    /// The page as a browser renders it.
    Rendering { kept: Kept, reason: FallbackReason },
}

/// What a session is waiting for, as a mathematical value.
pub enum StageModel {
    Fetching { op: Seq<char>, target: Seq<char>, url: Seq<char>, attempt: usize },
    Posting { target: Seq<char> },
    Assessing { kept: KeptModel },
    Rendering { kept: KeptModel, reason: FallbackReason },
}

impl DeepView for Stage {
    type V = StageModel;

    open spec fn deep_view(&self) -> StageModel {
        match self {
            Stage::Fetching { op, target, url, attempt } => StageModel::Fetching {
                op: op@,
                target: target@,
                url: url@,
                attempt: *attempt,
            },
            Stage::Posting { target } => StageModel::Posting {
                target: target@,
            },
            Stage::Assessing { kept } => StageModel::Assessing {
                kept: kept.deep_view(),
            },
            Stage::Rendering { kept, reason } => StageModel::Rendering {
                kept: kept.deep_view(),
                reason: *reason,
            },
        }
    }
}

/// What a session asks for.
#[derive(Debug)]
pub enum Act {
    /// Request the URL, once.
    Get { url: String },
    /// Wait, and request the URL once more.
    Retry { url: String, wait: Span },
    /// Send the fields to the URL, once.
    Post { url: String, fields: Vec<(String, String)> },
    /// Decide whether the kept page is good enough.
    Assess,
    /// Render the URL in a headless browser.
    Render { url: String, budget: Span },
}

/// What a session asks for, as a mathematical value.
pub enum ActModel {
    Get { url: Seq<char> },
    Retry { url: Seq<char>, wait: Span },
    Post { url: Seq<char>, fields: Seq<(Seq<char>, Seq<char>)> },
    Assess,
    Render { url: Seq<char>, budget: Span },
}

impl DeepView for Act {
    type V = ActModel;

    open spec fn deep_view(&self) -> ActModel {
        match self {
            Act::Get { url } => ActModel::Get {
                url: url@,
            },
            Act::Retry { url, wait } => ActModel::Retry {
                url: url@,
                wait: *wait,
            },
            Act::Post { url, fields } => ActModel::Post {
                url: url@,
                fields: fields.deep_view(),
            },
            Act::Assess => ActModel::Assess,
            Act::Render { url, budget } => ActModel::Render {
                url: url@,
                budget: *budget,
            },
        }
    }
}

/// How an operation goes on.
#[derive(Debug)]
pub enum Turn {
    /// It waits for something.
    Ask { stage: Stage, act: Act },
    /// A form waits for confirmation.
    Withheld { outcome: SubmitOutcome },
    /// It is over, and the snapshot is what came back, or it failed.
    Done { result: Result<(), Error> },
}

/// How an operation goes on, as a mathematical value.
pub enum TurnModel {
    Ask { stage: StageModel, act: ActModel },
    Withheld { outcome: SubmitModel },
    Done { result: Result<(), ErrorModel> },
}

impl DeepView for Turn {
    type V = TurnModel;

    open spec fn deep_view(&self) -> TurnModel {
        match self {
            Turn::Ask { stage, act } => TurnModel::Ask {
                stage: stage.deep_view(),
                act: act.deep_view(),
            },
            Turn::Withheld { outcome } => TurnModel::Withheld {
                outcome: outcome.deep_view(),
            },
            Turn::Done { result } => TurnModel::Done {
                result: error::unit_outcome(*result),
            },
        }
    }
}

/// What was handed back to a session.
#[derive(Debug)]
pub enum Outcome {
    /// The response, and the delay that it asks for before another try.
    Response { result: Result<FetchResult, Error>, retry_after: Option<Span> },
    /// Why the page is not good enough; nothing where it is.
    Assessed { reason: Option<FallbackReason> },
    /// The rendered document.
    Rendered { html: Result<String, Error> },
}

/// What was handed back to a session, as a mathematical value.
pub enum OutcomeModel {
    Response { result: Result<FetchModel, ErrorModel>, retry_after: Option<Span> },
    Assessed { reason: Option<FallbackReason> },
    Rendered { html: Result<Seq<char>, ErrorModel> },
}

impl DeepView for Outcome {
    type V = OutcomeModel;

    open spec fn deep_view(&self) -> OutcomeModel {
        match self {
            Outcome::Response { result, retry_after } => OutcomeModel::Response {
                result: error::outcome(*result),
                retry_after: *retry_after,
            },
            Outcome::Assessed { reason } => OutcomeModel::Assessed {
                reason: *reason,
            },
            Outcome::Rendered { html } => OutcomeModel::Rendered {
                html: error::outcome(*html),
            },
        }
    }
}

// ---------------------------------------------------------------------------------------------
// Forms
// ---------------------------------------------------------------------------------------------

/// The position of the first selected option.
pub open spec fn first_selected(options: Seq<OptionModel>) -> Option<int>
    decreases options.len(),
{
    if options.len() == 0 {
        None
    } else if options[0].selected {
        Some(0)
    } else {
        match first_selected(options.drop_first()) {
            Some(i) => Some(i + 1),
            None => None,
        }
    }
}

/// The option that a form sends by default: the first selected one, or else the first one.
pub open spec fn default_option(options: Seq<OptionModel>) -> Option<Seq<char>> {
    match first_selected(options) {
        Some(i) => Some(options[i].value),
        None => if options.len() > 0 {
            Some(options[0].value)
        } else {
            None
        },
    }
}

/// The value that a field sends by default.
pub open spec fn default_value(f: FieldModel) -> Option<Seq<char>> {
    if f.name.len() == 0 {
        None
    } else {
        match f.value {
            Some(v) => Some(v),
            None => if f.kind == "select"@ {
                default_option(f.options)
            } else {
                None
            },
        }
    }
}

/// What the fields send by default.
pub open spec fn defaults_of(fields: Seq<FieldModel>) -> Seq<(Seq<char>, Seq<char>)>
    decreases fields.len(),
{
    if fields.len() == 0 {
        seq![]
    } else {
        let before = defaults_of(fields.drop_last());
        match default_value(fields.last()) {
            Some(v) => before.push((fields.last().name, v)),
            None => before,
        }
    }
}

/// The pairs without those of that key.
pub open spec fn without_key(pairs: Seq<(Seq<char>, Seq<char>)>, key: Seq<char>) -> Seq<
    (Seq<char>, Seq<char>),
>
    decreases pairs.len(),
{
    if pairs.len() == 0 {
        seq![]
    } else {
        let before = without_key(pairs.drop_last(), key);
        if pairs.last().0 == key {
            before
        } else {
            before.push(pairs.last())
        }
    }
}

/// The pairs with the values of a caller over them.
pub open spec fn overridden(
    pairs: Seq<(Seq<char>, Seq<char>)>,
    values: Seq<(Seq<char>, Seq<char>)>,
) -> Seq<(Seq<char>, Seq<char>)>
    decreases values.len(),
{
    if values.len() == 0 {
        pairs
    } else {
        without_key(overridden(pairs, values.drop_last()), values.last().0).push(values.last())
    }
}

/// What a form sends: its own defaults, hidden fields and selected options among them, with the
/// values of the caller over them.
pub open spec fn merged(form: FormModel, values: Seq<(Seq<char>, Seq<char>)>) -> Seq<
    (Seq<char>, Seq<char>),
> {
    overridden(defaults_of(form.fields), values)
}

fn pick_option(options: &Vec<FormOption>) -> (r: Option<String>)
    ensures
        r.deep_view() == default_option(options.deep_view()),
{
    let ghost all = options.deep_view();
    assert(all.skip(0) =~= all);
    for i in 0..options.len()
        invariant
            all == options.deep_view(),
            first_selected(all) == (match first_selected(all.skip(i as int)) {
                Some(k) => Some(k + i),
                None => None,
            }),
    {
        assert(all.skip(i as int)[0] == options@[i as int].deep_view());
        assert(all.skip(i as int).drop_first() =~= all.skip(i + 1));
        if options[i].selected {
            return Some(options[i].value.clone());
        }
    }
    assert(first_selected(all.skip(all.len() as int)) is None);
    if options.len() > 0 {
        Some(options[0].value.clone())
    } else {
        None
    }
}

fn pick_value(f: &FormField) -> (r: Option<String>)
    ensures
        r.deep_view() == default_value(f.deep_view()),
{
    if f.name.as_str().is_empty() {
        return None;
    }
    match &f.value {
        Some(v) => Some(v.clone()),
        None => if text::same(f.kind.as_str(), "select") {
            pick_option(&f.options)
        } else {
            None
        },
    }
}

fn drop_key(pairs: Vec<(String, String)>, key: &str) -> (r: Vec<(String, String)>)
    ensures
        r.deep_view() == without_key(pairs.deep_view(), key@),
{
    let ghost all = pairs.deep_view();
    let mut out: Vec<(String, String)> = Vec::new();
    assert(out.deep_view() =~= without_key(all.take(0), key@));
    for i in 0..pairs.len()
        invariant
            all == pairs.deep_view(),
            out.deep_view() == without_key(all.take(i as int), key@),
    {
        proof {
            assert(all.take(i + 1).drop_last() =~= all.take(i as int));
            assert(all.take(i + 1).last() == pairs@[i as int].deep_view());
        }
        if !text::same(pairs[i].0.as_str(), key) {
            let ghost before = out.deep_view();
            let pair = (pairs[i].0.clone(), pairs[i].1.clone());
            out.push(pair);
            assert(out.deep_view() =~= before.push(pair.deep_view()));
        }
    }
    assert(all.take(all.len() as int) =~= all);
    out
}

/// Merges a form's own defaults with the values of a caller, who wins.
pub fn merge_form_values(form: &FormAction, values: &Vec<(String, String)>) -> (r: Vec<
    (String, String),
>)
    ensures
        r.deep_view() == merged(form.deep_view(), values.deep_view()),
{
    let ghost fields = form.fields.deep_view();
    let mut out: Vec<(String, String)> = Vec::new();
    assert(out.deep_view() =~= defaults_of(fields.take(0)));
    for i in 0..form.fields.len()
        invariant
            fields == form.fields.deep_view(),
            out.deep_view() == defaults_of(fields.take(i as int)),
    {
        let f = &form.fields[i];
        proof {
            assert(fields.take(i + 1).drop_last() =~= fields.take(i as int));
            assert(fields.take(i + 1).last() == f.deep_view());
        }
        if let Some(v) = pick_value(f) {
            let ghost before = out.deep_view();
            let pair = (f.name.clone(), v);
            out.push(pair);
            assert(out.deep_view() =~= before.push(pair.deep_view()));
        }
    }
    assert(fields.take(fields.len() as int) =~= fields);
    let ghost defaults = out.deep_view();
    let ghost given = values.deep_view();
    assert(overridden(defaults, given.take(0)) =~= defaults);
    for i in 0..values.len()
        invariant
            given == values.deep_view(),
            out.deep_view() == overridden(defaults, given.take(i as int)),
    {
        proof {
            assert(given.take(i + 1).drop_last() =~= given.take(i as int));
            assert(given.take(i + 1).last() == values@[i as int].deep_view());
        }
        out = drop_key(out, values[i].0.as_str());
        let ghost before = out.deep_view();
        let pair = (values[i].0.clone(), values[i].1.clone());
        out.push(pair);
        assert(out.deep_view() =~= before.push(pair.deep_view()));
    }
    assert(given.take(given.len() as int) =~= given);
    out
}

/// The URL with the pairs as its query; the words of the error for what is no URL.
pub uninterp spec fn with_query(
    href: Seq<char>,
    pairs: Seq<(Seq<char>, Seq<char>)>,
) -> Result<Seq<char>, Seq<char>>;

/// The most bytes of a URL and the pairs of its query together.
pub const MAX_QUERY_BYTES: usize = 0x400_0000;

/// The bytes of the pairs, with what stands between them.
pub open spec fn pairs_weight(pairs: Seq<(Seq<char>, Seq<char>)>) -> nat
    decreases pairs.len(),
{
    if pairs.len() == 0 {
        0
    } else {
        pairs_weight(pairs.drop_last()) + text::byte_len(pairs.last().0) + text::byte_len(
            pairs.last().1,
        ) + 2
    }
}

/// The URL and the pairs are small enough for a URL with these pairs as its query.
pub open spec fn query_fits(href: Seq<char>, pairs: Seq<(Seq<char>, Seq<char>)>) -> bool {
    text::byte_len(href) + pairs_weight(pairs) <= MAX_QUERY_BYTES
}

proof fn lemma_weight_grows(pairs: Seq<(Seq<char>, Seq<char>)>, n: int)
    requires
        0 <= n <= pairs.len(),
    ensures
        pairs_weight(pairs.take(n)) <= pairs_weight(pairs),
    decreases pairs.len() - n,
{
    if n < pairs.len() {
        lemma_weight_grows(pairs, n + 1);
        assert(pairs.take(n + 1).drop_last() =~= pairs.take(n));
    } else {
        assert(pairs.take(n) =~= pairs);
    }
}

fn fits_query(href: &str, pairs: &Vec<(String, String)>) -> (r: bool)
    ensures
        r == query_fits(href@, pairs.deep_view()),
{
    let ghost all = pairs.deep_view();
    let mut total: u128 = text::bytes(href) as u128;
    assert(all.take(0) =~= seq![]);
    for i in 0..pairs.len()
        invariant
            all == pairs.deep_view(),
            total == text::byte_len(href@) + pairs_weight(all.take(i as int)),
            i == 0 || total <= MAX_QUERY_BYTES,
            total <= usize::MAX,
    {
        proof {
            assert(all.take(i + 1).drop_last() =~= all.take(i as int));
            assert(all.take(i + 1).last() == pairs@[i as int].deep_view());
            lemma_weight_grows(all, i + 1);
        }
        let name: u128 = text::bytes(pairs[i].0.as_str()) as u128;
        let value: u128 = text::bytes(pairs[i].1.as_str()) as u128;
        total = total + name + value + 2;
        if total > MAX_QUERY_BYTES as u128 {
            return false;
        }
    }
    assert(all.take(all.len() as int) =~= all);
    total <= MAX_QUERY_BYTES as u128
}

/// `url`'s `Url::parse`, and `Url::query_pairs_mut` with the old pairs cleared and the new ones
/// added. The result is a function of the arguments. The positions within a URL have 32 bits and
/// would overflow in one of four gigabytes. A byte of a pair takes up to three bytes in the query,
/// and a host in punycode more than it did before, so both together must be far smaller.
#[verifier::external_body]
fn replace_query(href: &str, pairs: &Vec<(String, String)>) -> (r: Result<String, String>)
    requires
        query_fits(href@, pairs.deep_view()),
    ensures
        match r {
            Ok(u) => with_query(href@, pairs.deep_view()) == Ok::<Seq<char>, Seq<char>>(u@),
            Err(e) => with_query(href@, pairs.deep_view()) == Err::<Seq<char>, Seq<char>>(e@),
        },
{
    let mut u = url::Url::parse(href).map_err(|e| e.to_string())?;
    u.query_pairs_mut().clear().extend_pairs(pairs);
    Ok(u.to_string())
}

/// The URL that a GET form requests: its action with the fields as the query.
pub open spec fn query_url_of(
    action: Seq<char>,
    fields: Seq<(Seq<char>, Seq<char>)>,
) -> Result<Seq<char>, ErrorModel> {
    if !query_fits(action, fields) {
        Err(ErrorModel::DocumentTooLarge)
    } else {
        match with_query(action, fields) {
            Ok(url) => Ok(url),
            Err(cause) => Err(ErrorModel::InvalidUrl { url: action, cause }),
        }
    }
}

/// Builds the URL that a GET form requests.
pub fn build_query_url(action: &str, fields: &Vec<(String, String)>) -> (r: Result<String, Error>)
    ensures
        error::outcome(r) == query_url_of(action@, fields.deep_view()),
{
    if !fits_query(action, fields) {
        return Err(Error::DocumentTooLarge);
    }
    match replace_query(action, fields) {
        Ok(url) => Ok(url),
        Err(cause) => Err(Error::InvalidUrl { url: action.to_string(), cause }),
    }
}

// ---------------------------------------------------------------------------------------------
// Transitions
// ---------------------------------------------------------------------------------------------

/// The latest `n` entries.
pub open spec fn latest<T>(s: Seq<T>, n: int) -> Seq<T> {
    if s.len() <= n {
        s
    } else {
        s.skip(s.len() - n)
    }
}

/// The state with one more entry in the log, and the oldest one gone where there are too many.
pub open spec fn logged(
    s: SessionModel,
    op: Seq<char>,
    target: Seq<char>,
    status: Option<u16>,
    attempt: usize,
    outcome: Seq<char>,
    failure_reason: Option<Seq<char>>,
) -> SessionModel {
    let entry = OpLogModel { step: s.step, op, target, status, attempt, outcome, failure_reason };
    SessionModel { log: latest(s.log.push(entry), MAX_LOG_ENTRIES as int), ..s }
}

/// The state with a new operation begun.
pub open spec fn stepped(s: SessionModel) -> SessionModel {
    SessionModel { step: (s.step + 1) as usize, ..s }
}

/// The character breaks a line.
pub open spec fn breaks_line(c: char) -> bool {
    c == '\n' || c == '\r'
}

/// The text with a space for every line break.
pub open spec fn on_one_line(s: Seq<char>) -> Seq<char> {
    Seq::new(s.len(), |i: int| if breaks_line(s[i]) {
        ' '
    } else {
        s[i]
    })
}

/// An error as it stands in the log: a single line of bounded length.
pub open spec fn logged_error(e: ErrorModel) -> Seq<char> {
    let line = on_one_line(e.chain());
    if line.len() > MAX_LOGGED_ERR_CHARS {
        line.take(MAX_LOGGED_ERR_CHARS as int).push('…')
    } else {
        line
    }
}

/// The number behind `n`.
pub open spec fn after(n: usize) -> usize {
    if n < usize::MAX {
        (n + 1) as usize
    } else {
        n
    }
}

/// The snapshot for a response: the distilled page with the status of the response.
pub open spec fn snapshot_of(
    html: Seq<char>,
    final_url: Seq<char>,
    status: u16,
    opts: DistillOptions,
) -> Result<DistilledModel, ErrorModel> {
    match pipeline::distilled_html(html, final_url, opts) {
        Ok(d) => Ok(DistilledModel { status, ..d }),
        Err(e) => Err(ErrorModel::Snapshot { url: final_url, cause: e.chain() }),
    }
}

/// How an operation ended, by its failure.
pub open spec fn outcome_name(failure: Option<Seq<char>>) -> Seq<char> {
    if failure is Some {
        "verify_failed"@
    } else {
        "ok"@
    }
}

/// A state and how the operation goes on.
pub type Change = (SessionModel, TurnModel);

/// The session takes a kept page over: it is verified, and becomes the snapshot, the current page
/// and the latest of the history.
pub open spec fn committed(s: SessionModel, k: KeptModel) -> Change {
    let failure = planner::failure_of(k.snap.status);
    let taken = SessionModel {
        failure,
        current_url: Some(k.result.final_url),
        snapshot: Some(k.snap),
        history: s.history.push(k.result.final_url),
        ..s
    };
    (
        logged(
            taken,
            k.op,
            k.target,
            Some(k.result.status),
            k.attempt,
            outcome_name(failure),
            failure,
        ),
        TurnModel::Done { result: Ok(()) },
    )
}

/// The session calls a browser in for a kept page.
pub open spec fn escalated(s: SessionModel, k: KeptModel, reason: FallbackReason) -> Change {
    (
        SessionModel { fallback: Some(reason.name()), ..s },
        TurnModel::Ask {
            stage: StageModel::Rendering { kept: k, reason },
            act: ActModel::Render {
                url: k.result.final_url,
                budget: pipeline::render_budget(s.opts),
            },
        },
    )
}

/// The session settles a response: it is distilled, and taken over or first looked at. A page
/// that cannot be distilled leaves the state as it was, but for the log.
pub open spec fn settled(
    s: SessionModel,
    op: Seq<char>,
    target: Seq<char>,
    attempt: usize,
    result: FetchModel,
    allow_fallback: bool,
) -> Change {
    match snapshot_of(result.html, result.final_url, result.status, s.opts) {
        Err(e) => (
            logged(
                s,
                op,
                target,
                Some(result.status),
                attempt,
                "distill_failed"@,
                Some(logged_error(e)),
            ),
            TurnModel::Done { result: Err(e) },
        ),
        Ok(snap) => {
            let k = KeptModel { op, target, attempt, result, snap };
            let plain = SessionModel { fallback: None, ..s };
            if !allow_fallback {
                committed(plain, k)
            } else {
                match s.opts.js_mode {
                    JsMode::Off => committed(plain, k),
                    JsMode::Always => escalated(plain, k, FallbackReason::Forced),
                    JsMode::Auto => (
                        plain,
                        TurnModel::Ask {
                            stage: StageModel::Assessing { kept: k },
                            act: ActModel::Assess,
                        },
                    ),
                }
            }
        },
    }
}

/// A snapshot that a browser had a part in.
pub open spec fn headless(snap: DistilledModel) -> DistilledModel {
    DistilledModel {
        diagnostics: match snap.diagnostics {
            Some(d) => Some(DiagnosticsModel { used_headless: true, ..d }),
            None => None,
        },
        ..snap
    }
}

/// The log says that a rendering failed.
pub open spec fn fallback_failed(s: SessionModel, k: KeptModel, e: ErrorModel) -> SessionModel {
    logged(
        s,
        k.op,
        k.target,
        Some(k.result.status),
        k.attempt,
        "chrome_fallback_failed"@,
        Some(logged_error(e)),
    )
}

/// The session takes a page over for which a browser was called in: the rendered one where that
/// can be distilled, and otherwise the one that was fetched.
pub open spec fn rendered(
    s: SessionModel,
    k: KeptModel,
    reason: FallbackReason,
    html: Result<Seq<char>, ErrorModel>,
) -> Change {
    match html {
        Err(e) => committed(fallback_failed(s, k, e), k),
        Ok(html) => match snapshot_of(html, k.result.final_url, k.result.status, s.opts) {
            Err(e) => committed(fallback_failed(s, k, e), k),
            Ok(snap) => committed(
                logged(
                    s,
                    k.op,
                    k.target,
                    Some(k.result.status),
                    k.attempt,
                    "chrome_fallback"@,
                    Some(reason.name()),
                ),
                KeptModel { snap: headless(snap), ..k },
            ),
        },
    }
}

/// The request for an idempotent step.
pub open spec fn requested(s: SessionModel, op: Seq<char>, target: Seq<char>, url: Seq<char>) -> Change {
    (
        stepped(s),
        TurnModel::Ask {
            stage: StageModel::Fetching { op, target, url, attempt: 0 },
            act: ActModel::Get { url },
        },
    )
}

/// The delay before another try of an idempotent step.
pub open spec fn backoff(attempt: usize, nanos: u32) -> Span {
    Span::millis(fetch::base_delay(attempt) + fetch::jitter(attempt, nanos))
}

/// How an idempotent step goes on with a response: another try where its status may pass and one
/// is left, and otherwise it is settled.
pub open spec fn answered(
    s: SessionModel,
    op: Seq<char>,
    target: Seq<char>,
    url: Seq<char>,
    attempt: usize,
    result: FetchModel,
    retry_after: Option<Span>,
    nanos: u32,
) -> Change {
    if attempt < s.max_retries && fetch::retryable(result.status) {
        (
            logged(
                s,
                op,
                target,
                Some(result.status),
                after(attempt),
                "retryable_status"@,
                Some("http_status_"@ + text::decimal(result.status as nat)),
            ),
            TurnModel::Ask {
                stage: StageModel::Fetching { op, target, url, attempt: after(attempt) },
                act: ActModel::Retry {
                    url,
                    wait: match retry_after {
                        Some(wait) => wait,
                        None => backoff(attempt, nanos),
                    },
                },
            },
        )
    } else {
        settled(s, op, target, after(attempt), result, true)
    }
}

/// How an idempotent step goes on with an error: another try where it may pass and one is left.
pub open spec fn failed(
    s: SessionModel,
    op: Seq<char>,
    target: Seq<char>,
    url: Seq<char>,
    attempt: usize,
    e: ErrorModel,
    nanos: u32,
) -> Change {
    let retry = attempt < s.max_retries && e.may_pass();
    (
        logged(
            s,
            op,
            target,
            None,
            after(attempt),
            if retry {
                "transient_error_retry"@
            } else {
                "error"@
            },
            Some(logged_error(e)),
        ),
        if retry {
            TurnModel::Ask {
                stage: StageModel::Fetching { op, target, url, attempt: after(attempt) },
                act: ActModel::Retry { url, wait: backoff(attempt, nanos) },
            }
        } else {
            TurnModel::Done { result: Err(e) }
        },
    )
}

/// How a session goes on with what was handed back.
pub open spec fn proceeded(
    s: SessionModel,
    stage: StageModel,
    outcome: OutcomeModel,
    nanos: u32,
) -> Change {
    match (stage, outcome) {
        (
            StageModel::Fetching { op, target, url, attempt },
            OutcomeModel::Response { result, retry_after },
        ) => match result {
            Ok(r) => answered(s, op, target, url, attempt, r, retry_after, nanos),
            Err(e) => failed(s, op, target, url, attempt, e, nanos),
        },
        (StageModel::Posting { target }, OutcomeModel::Response { result, retry_after }) => match result {
            Ok(r) => settled(s, "submit_form"@, target, 1, r, false),
            Err(e) => (
                logged(s, "submit_form"@, target, None, 1, "error"@, Some(logged_error(e))),
                TurnModel::Done { result: Err(e) },
            ),
        },
        (StageModel::Assessing { kept }, OutcomeModel::Assessed { reason }) => match reason {
            Some(reason) => escalated(s, kept, reason),
            None => committed(s, kept),
        },
        (StageModel::Rendering { kept, reason }, OutcomeModel::Rendered { html }) => rendered(
            s,
            kept,
            reason,
            html,
        ),
        _ => (s, TurnModel::Done { result: Err(ErrorModel::OutOfTurn) }),
    }
}

/// The URL of the link with that id.
pub open spec fn link_href(links: Seq<LinkModel>, id: Seq<char>) -> Option<Seq<char>>
    decreases links.len(),
{
    if links.len() == 0 {
        None
    } else if links[0].action_id == id {
        Some(links[0].href)
    } else {
        link_href(links.drop_first(), id)
    }
}

/// The URL of the download with that id.
pub open spec fn download_href(downloads: Seq<DownloadModel>, id: Seq<char>) -> Option<Seq<char>>
    decreases downloads.len(),
{
    if downloads.len() == 0 {
        None
    } else if downloads[0].action_id == id {
        Some(downloads[0].href)
    } else {
        download_href(downloads.drop_first(), id)
    }
}

/// The form with that id.
pub open spec fn form_with(forms: Seq<FormModel>, id: Seq<char>) -> Option<FormModel>
    decreases forms.len(),
{
    if forms.len() == 0 {
        None
    } else if forms[0].action_id == id {
        Some(forms[0])
    } else {
        form_with(forms.drop_first(), id)
    }
}

/// Where the link or download with that id in the last snapshot leads.
pub open spec fn followable(snapshot: Option<DistilledModel>, id: Seq<char>) -> Result<
    Seq<char>,
    ErrorModel,
> {
    match snapshot {
        Some(DistilledModel { actions: Some(tree), .. }) => match link_href(tree.links, id) {
            Some(href) => Ok(href),
            None => match download_href(tree.downloads, id) {
                Some(href) => Ok(href),
                None => Err(ErrorModel::NoFollowable { action_id: id }),
            },
        },
        _ => Err(ErrorModel::NoActionTree),
    }
}

/// The form with that id in the last snapshot.
pub open spec fn submittable(snapshot: Option<DistilledModel>, id: Seq<char>) -> Result<
    FormModel,
    ErrorModel,
> {
    match snapshot {
        Some(DistilledModel { actions: Some(tree), .. }) => match form_with(tree.forms, id) {
            Some(form) => Ok(form),
            None => Err(ErrorModel::NoForm { form_id: id }),
        },
        _ => Err(ErrorModel::NoForm { form_id: id }),
    }
}

/// The form is sent by POST.
pub open spec fn is_post(form: FormModel) -> bool {
    text::same_letters(form.method, "POST"@)
}

/// How following an action goes.
pub open spec fn followed(s: SessionModel, id: Seq<char>) -> Change {
    match followable(s.snapshot, id) {
        Ok(href) => requested(s, "follow"@, href, href),
        Err(e) => (s, TurnModel::Done { result: Err(e) }),
    }
}

/// How submitting a form goes.
pub open spec fn submitted(
    s: SessionModel,
    id: Seq<char>,
    values: Seq<(Seq<char>, Seq<char>)>,
    confirm: bool,
) -> Change {
    match submittable(s.snapshot, id) {
        Err(e) => (s, TurnModel::Done { result: Err(e) }),
        Ok(form) => {
            let fields = merged(form, values);
            if !is_post(form) {
                match query_url_of(form.action, fields) {
                    Ok(url) => requested(s, "submit_form"@, form.action, url),
                    Err(e) => (s, TurnModel::Done { result: Err(e) }),
                }
            } else if !confirm {
                (
                    logged(
                        stepped(s),
                        "submit_form"@,
                        form.action,
                        None,
                        0,
                        "needs_confirmation"@,
                        None,
                    ),
                    TurnModel::Withheld {
                        outcome: SubmitModel::NeedsConfirmation {
                            method: form.method,
                            action: form.action,
                            fields,
                        },
                    },
                )
            } else {
                (
                    stepped(s),
                    TurnModel::Ask {
                        stage: StageModel::Posting { target: form.action },
                        act: ActModel::Post { url: form.action, fields },
                    },
                )
            }
        },
    }
}

/// What every session keeps: at most two retries, a bounded log, and options under which every
/// snapshot is live and carries its actions and diagnostics.
pub open spec fn well_formed(s: SessionModel) -> bool {
    &&& s.max_retries <= MAX_ACTION_RETRIES_CAP
    &&& s.log.len() <= MAX_LOG_ENTRIES
    &&& s.opts.extract_actions
    &&& s.opts.diagnostics
    &&& !s.opts.use_cache
}

/// What a planner sees of a session.
pub open spec fn session_view(s: SessionModel) -> LoopModel {
    let view = planner::view_of(s.snapshot, s.failure, s.step);
    LoopModel {
        state: planner::PageModel { fallback_reason: s.fallback, ..view.state },
        ..view
    }
}

// ---------------------------------------------------------------------------------------------
// The session
// ---------------------------------------------------------------------------------------------

/// The options for fetching that a session uses: no retries of its own, since the session does
/// the retrying.
pub fn session_fetch_options(opts: &DistillOptions) -> (r: FetchOptions)
    ensures
        r.user_agent@ == (match opts.user_agent {
            Some(ua) => ua@,
            None => fetch::DEFAULT_UA@,
        }),
        r.timeout == opts.timeout,
        r.max_bytes == opts.max_bytes,
        r.max_redirects == 8,
        r.allow_local == opts.allow_local,
        r.max_retries == 0,
        r.per_host_concurrency == opts.per_host_concurrency,
        r.min_request_interval == opts.min_request_interval,
        r.respect_robots == opts.respect_robots,
{
    let mut r = pipeline::fetch_options(opts);
    r.max_retries = 0;
    r
}

fn short_err(e: &Error) -> (r: String)
    ensures
        r@ == logged_error(e.deep_view()),
        r@.len() <= MAX_LOGGED_ERR_CHARS + 1,
        forall|i: int| 0 <= i < r@.len() ==> !breaks_line(r@[i]),
{
    let chain = text::to_chars(e.chain().as_str());
    let mut chars: Vec<char> = Vec::new();
    for i in 0..chain.len()
        invariant
            chars@.len() == i,
            forall|j: int| 0 <= j < i ==> chars@[j] == on_one_line(chain@)[j],
    {
        let c = chain[i];
        if c == '\n' || c == '\r' {
            chars.push(' ');
        } else {
            chars.push(c);
        }
    }
    assert(chars@ =~= on_one_line(chain@));
    if chars.len() > MAX_LOGGED_ERR_CHARS {
        let head = vstd::slice::slice_subrange(chars.as_slice(), 0, MAX_LOGGED_ERR_CHARS);
        assert(head@ =~= chars@.take(MAX_LOGGED_ERR_CHARS as int));
        let mut out = text::from_chars(head);
        out.push('…');
        out
    } else {
        text::from_chars(chars.as_slice())
    }
}

fn count_on(n: usize) -> (r: usize)
    ensures
        r == after(n),
{
    n.saturating_add(1)
}

fn find_link(tree: &ActionTree, id: &str) -> (r: Option<String>)
    ensures
        r.deep_view() == link_href(tree.deep_view().links, id@),
{
    let ghost all = tree.links.deep_view();
    assert(all.skip(0) =~= all);
    for i in 0..tree.links.len()
        invariant
            all == tree.links.deep_view(),
            link_href(all.skip(i as int), id@) == link_href(all, id@),
    {
        assert(all.skip(i as int)[0] == tree.links@[i as int].deep_view());
        assert(all.skip(i as int).drop_first() =~= all.skip(i + 1));
        if text::same(tree.links[i].action_id.as_str(), id) {
            return Some(tree.links[i].href.clone());
        }
    }
    assert(all.skip(all.len() as int).len() == 0);
    None
}

fn find_download(tree: &ActionTree, id: &str) -> (r: Option<String>)
    ensures
        r.deep_view() == download_href(tree.deep_view().downloads, id@),
{
    let ghost all = tree.downloads.deep_view();
    assert(all.skip(0) =~= all);
    for i in 0..tree.downloads.len()
        invariant
            all == tree.downloads.deep_view(),
            download_href(all.skip(i as int), id@) == download_href(all, id@),
    {
        assert(all.skip(i as int)[0] == tree.downloads@[i as int].deep_view());
        assert(all.skip(i as int).drop_first() =~= all.skip(i + 1));
        if text::same(tree.downloads[i].action_id.as_str(), id) {
            return Some(tree.downloads[i].href.clone());
        }
    }
    assert(all.skip(all.len() as int).len() == 0);
    None
}

fn find_form<'a>(tree: &'a ActionTree, id: &str) -> (r: Option<&'a FormAction>)
    ensures
        match r {
            Some(f) => form_with(tree.deep_view().forms, id@) == Some(f.deep_view()),
            None => form_with(tree.deep_view().forms, id@) is None,
        },
{
    let ghost all = tree.forms.deep_view();
    assert(all.skip(0) =~= all);
    for i in 0..tree.forms.len()
        invariant
            all == tree.forms.deep_view(),
            form_with(all.skip(i as int), id@) == form_with(all, id@),
    {
        assert(all.skip(i as int)[0] == tree.forms@[i as int].deep_view());
        assert(all.skip(i as int).drop_first() =~= all.skip(i + 1));
        if text::same(tree.forms[i].action_id.as_str(), id) {
            return Some(&tree.forms[i]);
        }
    }
    assert(all.skip(all.len() as int).len() == 0);
    None
}

fn outcome_label(failure: &Option<String>) -> (r: &'static str)
    ensures
        r@ == outcome_name(failure.deep_view()),
{
    if failure.is_some() {
        "verify_failed"
    } else {
        "ok"
    }
}

impl Session {
    /// The state of the session.
    pub closed spec fn model(self) -> SessionModel {
        SessionModel {
            opts: self.opts,
            current_url: self.current_url.deep_view(),
            history: self.redirect_history.deep_view(),
            snapshot: self.last_snapshot.deep_view(),
            max_retries: self.max_action_retries,
            failure: self.last_failure.deep_view(),
            log: self.log.deep_view(),
            step: self.step,
            fallback: self.last_fallback.deep_view(),
        }
    }

    /// Starts a session. Its snapshots are always live, and carry their actions and diagnostics.
    pub fn new(opts: DistillOptions) -> (r: Session)
        ensures
            well_formed(r.model()),
            r.model() == (SessionModel {
                opts: (DistillOptions {
                    extract_actions: true,
                    diagnostics: true,
                    use_cache: false,
                    ..opts
                }),
                current_url: None,
                history: seq![],
                snapshot: None,
                max_retries: DEFAULT_MAX_ACTION_RETRIES,
                failure: None,
                log: seq![],
                step: 0,
                fallback: None,
            }),
    {
        let mut opts = opts;
        opts.extract_actions = true;
        opts.diagnostics = true;
        opts.use_cache = false;
        let r = Session {
            opts,
            current_url: None,
            redirect_history: Vec::new(),
            last_snapshot: None,
            max_action_retries: DEFAULT_MAX_ACTION_RETRIES,
            last_failure: None,
            log: Vec::new(),
            step: 0,
            last_fallback: None,
        };
        assert(r.model().history =~= seq![]);
        assert(r.model().log =~= seq![]);
        r
    }

    /// Sets how often an idempotent step is retried, up to twice.
    pub fn with_max_action_retries(self, n: usize) -> (r: Session)
        ensures
            r.model() == (SessionModel {
                max_retries: if n < MAX_ACTION_RETRIES_CAP {
                    n
                } else {
                    MAX_ACTION_RETRIES_CAP
                },
                ..self.model()
            }),
            well_formed(self.model()) ==> well_formed(r.model()),
    {
        let mut r = self;
        r.max_action_retries = if n < MAX_ACTION_RETRIES_CAP {
            n
        } else {
            MAX_ACTION_RETRIES_CAP
        };
        r
    }

    /// How often an idempotent step is retried.
    pub fn max_action_retries(&self) -> (n: usize)
        ensures
            n == self.model().max_retries,
    {
        self.max_action_retries
    }

    /// How many operations the session has run.
    pub fn steps(&self) -> (n: usize)
        ensures
            n == self.model().step,
    {
        self.step
    }

    /// The options of the session's snapshots.
    pub fn options(&self) -> (r: &DistillOptions)
        ensures
            *r == self.model().opts,
    {
        &self.opts
    }

    /// The URL of the current page.
    pub fn current_url(&self) -> (r: Option<&str>)
        ensures
            text::opt(r) == self.model().current_url,
    {
        match &self.current_url {
            Some(u) => Some(u.as_str()),
            None => None,
        }
    }

    /// The URLs of the pages that the session has been to.
    pub fn redirect_history(&self) -> (r: &Vec<String>)
        ensures
            r.deep_view() == self.model().history,
    {
        &self.redirect_history
    }

    /// The last snapshot.
    pub fn snapshot(&self) -> (r: Option<&Distilled>)
        ensures
            r.deep_view() == self.model().snapshot,
    {
        match &self.last_snapshot {
            Some(d) => Some(d),
            None => None,
        }
    }

    /// Why the last step failed; nothing where it looks fine.
    pub fn last_failure(&self) -> (r: Option<&str>)
        ensures
            text::opt(r) == self.model().failure,
    {
        match &self.last_failure {
            Some(f) => Some(f.as_str()),
            None => None,
        }
    }

    /// Why a headless browser was called in for the last step, where it was.
    pub fn last_fallback(&self) -> (r: Option<&str>)
        ensures
            text::opt(r) == self.model().fallback,
    {
        match &self.last_fallback {
            Some(f) => Some(f.as_str()),
            None => None,
        }
    }

    /// The log.
    pub fn log(&self) -> (r: &Vec<OpLogEntry>)
        ensures
            r.deep_view() == self.model().log,
    {
        &self.log
    }

    /// The latest `n` entries of the log.
    pub fn recent_log(&self, n: usize) -> (r: &[OpLogEntry])
        ensures
            Seq::new(r@.len(), |i: int| r@[i].deep_view()) == latest(self.model().log, n as int),
    {
        let start: usize = self.log.len().saturating_sub(n);
        let r = vstd::slice::slice_subrange(self.log.as_slice(), start, self.log.len());
        assert(Seq::new(r@.len(), |i: int| r@[i].deep_view()) =~= latest(
            self.model().log,
            n as int,
        ));
        r
    }

    /// What a planner sees of the session.
    pub fn loop_view(&self) -> (r: LoopView)
        ensures
            r.deep_view() == session_view(self.model()),
    {
        let mut view = planner::loop_view(
            self.snapshot(),
            text::copy_opt(&self.last_failure),
            self.step,
        );
        view.state.fallback_reason = text::copy_opt(&self.last_fallback);
        view
    }

    fn log_attempt(
        &mut self,
        op: &str,
        target: &str,
        status: Option<u16>,
        attempt: usize,
        outcome: &str,
        failure_reason: Option<String>,
    )
        requires
            old(self).model().log.len() <= MAX_LOG_ENTRIES,
        ensures
            final(self).model() == logged(
                old(self).model(),
                op@,
                target@,
                status,
                attempt,
                outcome@,
                failure_reason.deep_view(),
            ),
    {
        let ghost before = self.model();
        let entry = OpLogEntry {
            step: self.step,
            op: op.to_string(),
            target: target.to_string(),
            status,
            attempt,
            outcome: outcome.to_string(),
            failure_reason,
        };
        let ghost added = before.log.push(entry.deep_view());
        if self.log.len() >= MAX_LOG_ENTRIES {
            let _ = self.log.remove(0);
        }
        self.log.push(entry);
        assert(self.log.deep_view() =~= latest(added, MAX_LOG_ENTRIES as int));
    }

    fn begin_step(&mut self)
        requires
            old(self).model().step < usize::MAX,
        ensures
            final(self).model() == stepped(old(self).model()),
    {
        self.step = self.step + 1;
    }

    fn request(&mut self, op: &str, target: &str, url: &str) -> (r: Turn)
        requires
            old(self).model().step < usize::MAX,
        ensures
            (final(self).model(), r.deep_view()) == requested(old(self).model(), op@, target@, url@),
    {
        self.begin_step();
        Turn::Ask {
            stage: Stage::Fetching {
                op: op.to_string(),
                target: target.to_string(),
                url: url.to_string(),
                attempt: 0,
            },
            act: Act::Get { url: url.to_string() },
        }
    }

    /// Goes to a URL. The step is idempotent.
    pub fn observe(&mut self, url: &str) -> (r: Turn)
        requires
            old(self).model().step < usize::MAX,
        ensures
            (final(self).model(), r.deep_view()) == requested(
                old(self).model(),
                "observe"@,
                url@,
                url@,
            ),
    {
        self.request("observe", url, url)
    }

    fn resolve_followable(&self, action_id: &str) -> (r: Result<String, Error>)
        ensures
            error::outcome(r) == followable(self.model().snapshot, action_id@),
    {
        match &self.last_snapshot {
            Some(snap) => match &snap.actions {
                Some(tree) => {
                    if let Some(href) = find_link(tree, action_id) {
                        return Ok(href);
                    }
                    if let Some(href) = find_download(tree, action_id) {
                        return Ok(href);
                    }
                    Err(Error::NoFollowable { action_id: action_id.to_string() })
                },
                None => Err(Error::NoActionTree),
            },
            None => Err(Error::NoActionTree),
        }
    }

    /// Follows a link or a download of the last snapshot. The step is idempotent.
    pub fn follow(&mut self, action_id: &str) -> (r: Turn)
        requires
            old(self).model().step < usize::MAX,
        ensures
            (final(self).model(), r.deep_view()) == followed(old(self).model(), action_id@),
    {
        match self.resolve_followable(action_id) {
            Ok(href) => self.request("follow", href.as_str(), href.as_str()),
            Err(e) => Turn::Done { result: Err(e) },
        }
    }

    /// Submits a form of the last snapshot, with the caller's values over its defaults. A POST
    /// form is withheld until it is confirmed, and is never sent twice.
    pub fn submit_form(&mut self, form_id: &str, values: &Vec<(String, String)>, confirm: bool) -> (r:
        Turn)
        requires
            old(self).model().step < usize::MAX,
            old(self).model().log.len() <= MAX_LOG_ENTRIES,
        ensures
            (final(self).model(), r.deep_view()) == submitted(
                old(self).model(),
                form_id@,
                values.deep_view(),
                confirm,
            ),
    {
        let ghost before = self.model();
        let (post, method, action, fields) = match &self.last_snapshot {
            Some(snap) => match &snap.actions {
                Some(tree) => match find_form(tree, form_id) {
                    Some(form) => (
                        text::eq_ignore_case(form.method.as_str(), "POST"),
                        form.method.clone(),
                        form.action.clone(),
                        merge_form_values(form, values),
                    ),
                    None => return Turn::Done {
                        result: Err(Error::NoForm { form_id: form_id.to_string() }),
                    },
                },
                None => return Turn::Done {
                    result: Err(Error::NoForm { form_id: form_id.to_string() }),
                },
            },
            None => return Turn::Done {
                result: Err(Error::NoForm { form_id: form_id.to_string() }),
            },
        };
        if !post {
            return match build_query_url(action.as_str(), &fields) {
                Ok(url) => self.request("submit_form", action.as_str(), url.as_str()),
                Err(e) => Turn::Done { result: Err(e) },
            };
        }
        self.begin_step();
        if !confirm {
            self.log_attempt("submit_form", action.as_str(), None, 0, "needs_confirmation", None);
            return Turn::Withheld {
                outcome: SubmitOutcome::NeedsConfirmation { method, action, fields },
            };
        }
        Turn::Ask {
            stage: Stage::Posting { target: action.clone() },
            act: Act::Post { url: action, fields },
        }
    }

    fn distill_result(&self, html: &str, final_url: &str, status: u16) -> (r: Result<
        Distilled,
        Error,
    >)
        ensures
            error::outcome(r) == snapshot_of(html@, final_url@, status, self.model().opts),
    {
        match pipeline::distill_html(html, final_url, &self.opts) {
            Ok(d) => {
                let mut snap = d;
                snap.status = status;
                Ok(snap)
            },
            Err(e) => Err(Error::Snapshot { url: final_url.to_string(), cause: e.chain() }),
        }
    }

    fn commit(&mut self, kept: Kept) -> (r: Turn)
        requires
            old(self).model().log.len() <= MAX_LOG_ENTRIES,
        ensures
            (final(self).model(), r.deep_view()) == committed(
                old(self).model(),
                kept.deep_view(),
            ),
    {
        let ghost before = self.model();
        let failure = planner::verify(&kept.snap);
        let url = kept.result.final_url;
        self.last_failure = text::copy_opt(&failure);
        self.redirect_history.push(url.clone());
        assert(self.redirect_history.deep_view() =~= before.history.push(url@));
        self.current_url = Some(url);
        self.last_snapshot = Some(kept.snap);
        let label = outcome_label(&failure);
        self.log_attempt(
            kept.op.as_str(),
            kept.target.as_str(),
            Some(kept.result.status),
            kept.attempt,
            label,
            failure,
        );
        Turn::Done { result: Ok(()) }
    }

    fn escalate(&mut self, kept: Kept, reason: FallbackReason) -> (r: Turn)
        ensures
            (final(self).model(), r.deep_view()) == escalated(
                old(self).model(),
                kept.deep_view(),
                reason,
            ),
    {
        self.last_fallback = Some(reason.label().to_string());
        let url = kept.result.final_url.clone();
        Turn::Ask {
            stage: Stage::Rendering { kept, reason },
            act: Act::Render { url, budget: pipeline::rendering_budget(&self.opts) },
        }
    }

    fn settle(
        &mut self,
        op: String,
        target: String,
        attempt: usize,
        result: FetchResult,
        allow_fallback: bool,
    ) -> (r: Turn)
        requires
            old(self).model().log.len() <= MAX_LOG_ENTRIES,
        ensures
            (final(self).model(), r.deep_view()) == settled(
                old(self).model(),
                op@,
                target@,
                attempt,
                result.deep_view(),
                allow_fallback,
            ),
    {
        let snap = match self.distill_result(
            result.html.as_str(),
            result.final_url.as_str(),
            result.status,
        ) {
            Ok(snap) => snap,
            Err(e) => {
                self.log_attempt(
                    op.as_str(),
                    target.as_str(),
                    Some(result.status),
                    attempt,
                    "distill_failed",
                    Some(short_err(&e)),
                );
                return Turn::Done { result: Err(e) };
            },
        };
        let kept = Kept { op, target, attempt, result, snap };
        self.last_fallback = None;
        if !allow_fallback {
            return self.commit(kept);
        }
        match self.opts.js_mode {
            JsMode::Off => self.commit(kept),
            JsMode::Always => self.escalate(kept, FallbackReason::Forced),
            JsMode::Auto => Turn::Ask { stage: Stage::Assessing { kept }, act: Act::Assess },
        }
    }

    fn take_rendering(&mut self, kept: Kept, reason: FallbackReason, html: Result<String, Error>) -> (r:
        Turn)
        requires
            old(self).model().log.len() <= MAX_LOG_ENTRIES,
        ensures
            (final(self).model(), r.deep_view()) == rendered(
                old(self).model(),
                kept.deep_view(),
                reason,
                error::outcome(html),
            ),
    {
        let distilled = match html {
            Ok(html) => self.distill_result(
                html.as_str(),
                kept.result.final_url.as_str(),
                kept.result.status,
            ),
            Err(e) => Err(e),
        };
        match distilled {
            Ok(snap) => {
                let mut snap = snap;
                if let Some(d) = snap.diagnostics {
                    let mut d = d;
                    d.used_headless = true;
                    snap.diagnostics = Some(d);
                }
                self.log_attempt(
                    kept.op.as_str(),
                    kept.target.as_str(),
                    Some(kept.result.status),
                    kept.attempt,
                    "chrome_fallback",
                    Some(reason.label().to_string()),
                );
                let kept = Kept {
                    op: kept.op,
                    target: kept.target,
                    attempt: kept.attempt,
                    result: kept.result,
                    snap,
                };
                self.commit(kept)
            },
            Err(e) => {
                self.log_attempt(
                    kept.op.as_str(),
                    kept.target.as_str(),
                    Some(kept.result.status),
                    kept.attempt,
                    "chrome_fallback_failed",
                    Some(short_err(&e)),
                );
                self.commit(kept)
            },
        }
    }

    fn run_idempotent(
        &mut self,
        op: String,
        target: String,
        url: String,
        attempt: usize,
        result: Result<FetchResult, Error>,
        retry_after: Option<Span>,
        nanos: u32,
    ) -> (r: Turn)
        requires
            old(self).model().log.len() <= MAX_LOG_ENTRIES,
        ensures
            (final(self).model(), r.deep_view()) == match error::outcome(result) {
                Ok(page) => answered(
                    old(self).model(),
                    op@,
                    target@,
                    url@,
                    attempt,
                    page,
                    retry_after,
                    nanos,
                ),
                Err(e) => failed(old(self).model(), op@, target@, url@, attempt, e, nanos),
            },
    {
        let again = count_on(attempt);
        match result {
            Ok(page) => {
                if attempt < self.max_action_retries && fetch::is_retryable_status(page.status) {
                    let reason = text::concat(
                        "http_status_",
                        text::to_decimal(page.status as u128).as_str(),
                    );
                    self.log_attempt(
                        op.as_str(),
                        target.as_str(),
                        Some(page.status),
                        again,
                        "retryable_status",
                        Some(reason),
                    );
                    let wait = match retry_after {
                        Some(wait) => wait,
                        None => fetch::backoff_delay_at(attempt, nanos),
                    };
                    let copy = url.clone();
                    return Turn::Ask {
                        stage: Stage::Fetching { op, target, url, attempt: again },
                        act: Act::Retry { url: copy, wait },
                    };
                }
                self.settle(op, target, again, page, true)
            },
            Err(e) => {
                let retry = attempt < self.max_action_retries && e.may_pass();
                let label = if retry {
                    "transient_error_retry"
                } else {
                    "error"
                };
                self.log_attempt(
                    op.as_str(),
                    target.as_str(),
                    None,
                    again,
                    label,
                    Some(short_err(&e)),
                );
                if retry {
                    let copy = url.clone();
                    return Turn::Ask {
                        stage: Stage::Fetching { op, target, url, attempt: again },
                        act: Act::Retry {
                            url: copy,
                            wait: fetch::backoff_delay_at(attempt, nanos),
                        },
                    };
                }
                Turn::Done { result: Err(e) }
            },
        }
    }

    /// Goes on with an operation when what it asked for is there. `nanos` is where the clock
    /// stands behind the second.
    pub fn proceed(&mut self, stage: Stage, outcome: Outcome, nanos: u32) -> (r: Turn)
        requires
            old(self).model().log.len() <= MAX_LOG_ENTRIES,
        ensures
            (final(self).model(), r.deep_view()) == proceeded(
                old(self).model(),
                stage.deep_view(),
                outcome.deep_view(),
                nanos,
            ),
    {
        match (stage, outcome) {
            (
                Stage::Fetching { op, target, url, attempt },
                Outcome::Response { result, retry_after },
            ) => self.run_idempotent(op, target, url, attempt, result, retry_after, nanos),
            (Stage::Posting { target }, Outcome::Response { result, retry_after: _ }) => match result {
                Ok(page) => self.settle("submit_form".to_string(), target, 1, page, false),
                Err(e) => {
                    self.log_attempt(
                        "submit_form",
                        target.as_str(),
                        None,
                        1,
                        "error",
                        Some(short_err(&e)),
                    );
                    Turn::Done { result: Err(e) }
                },
            },
            (Stage::Assessing { kept }, Outcome::Assessed { reason }) => match reason {
                Some(reason) => self.escalate(kept, reason),
                None => self.commit(kept),
            },
            (Stage::Rendering { kept, reason }, Outcome::Rendered { html }) => self.take_rendering(
                kept,
                reason,
                html,
            ),
            _ => Turn::Done { result: Err(Error::OutOfTurn) },
        }
    }
}

// ---------------------------------------------------------------------------------------------
// Laws
// ---------------------------------------------------------------------------------------------

/// Every operation keeps a session well-formed: its log stays bounded and its retries few.
pub proof fn law_sessions_stay_well_formed(
    s: SessionModel,
    id: Seq<char>,
    values: Seq<(Seq<char>, Seq<char>)>,
    confirm: bool,
    stage: StageModel,
    outcome: OutcomeModel,
    nanos: u32,
)
    requires
        well_formed(s),
    ensures
        well_formed(requested(s, "observe"@, id, id).0),
        well_formed(followed(s, id).0),
        well_formed(submitted(s, id, values, confirm).0),
        well_formed(proceeded(s, stage, outcome, nanos).0),
{
}

/// A POST form is sent only where it was confirmed. Without confirmation nothing is asked for,
/// what would be sent is described in full, and the page, the history and the snapshot stay.
pub proof fn law_post_needs_confirmation(
    s: SessionModel,
    id: Seq<char>,
    values: Seq<(Seq<char>, Seq<char>)>,
    confirm: bool,
)
    ensures
        submitted(s, id, values, confirm).1 matches TurnModel::Ask { act, .. } ==> (act is Post
            ==> confirm),
        submittable(s.snapshot, id) matches Ok(form) ==> (is_post(form) && !confirm ==> {
            let (after, turn) = submitted(s, id, values, confirm);
            &&& turn == (TurnModel::Withheld {
                outcome: SubmitModel::NeedsConfirmation {
                    method: form.method,
                    action: form.action,
                    fields: merged(form, values),
                },
            })
            &&& after.current_url == s.current_url
            &&& after.history == s.history
            &&& after.snapshot == s.snapshot
        }),
{
}

/// A form that was sent by POST is never sent again, and its result is never fetched by a
/// browser: whatever comes back, the operation is over.
pub proof fn law_post_is_never_repeated(
    s: SessionModel,
    target: Seq<char>,
    outcome: OutcomeModel,
    nanos: u32,
)
    ensures
        proceeded(s, StageModel::Posting { target }, outcome, nanos).1 is Done,
{
}

/// Nothing but a confirmed form makes a session send anything by POST.
pub proof fn law_nothing_else_posts(
    s: SessionModel,
    id: Seq<char>,
    stage: StageModel,
    outcome: OutcomeModel,
    nanos: u32,
)
    ensures
        !(followed(s, id).1 matches TurnModel::Ask { act, .. } && act is Post),
        !(requested(s, "observe"@, id, id).1 matches TurnModel::Ask { act, .. } && act is Post),
        !(proceeded(s, stage, outcome, nanos).1 matches TurnModel::Ask { act, .. } && act is Post),
{
}

/// A try is repeated only while retries are left, and a response that is thrown away for another
/// try moves the session nowhere.
pub proof fn law_retries_are_bounded_and_move_nothing(
    s: SessionModel,
    op: Seq<char>,
    target: Seq<char>,
    url: Seq<char>,
    attempt: usize,
    outcome: OutcomeModel,
    nanos: u32,
)
    ensures
        proceeded(
            s,
            StageModel::Fetching { op, target, url, attempt },
            outcome,
            nanos,
        ).1 matches TurnModel::Ask { stage, act } ==> (act is Retry ==> {
            let after = proceeded(
                s,
                StageModel::Fetching { op, target, url, attempt },
                outcome,
                nanos,
            ).0;
            &&& attempt < s.max_retries
            &&& stage == (StageModel::Fetching {
                op,
                target,
                url,
                attempt: (attempt + 1) as usize,
            })
            &&& after.current_url == s.current_url
            &&& after.history == s.history
            &&& after.snapshot == s.snapshot
            &&& after.step == s.step
        }),
{
}

/// An operation that fails leaves the page, the history and the snapshot as they were; one that
/// succeeds adds one page to the history, and that is the current one.
pub proof fn law_failures_move_nothing(
    s: SessionModel,
    stage: StageModel,
    outcome: OutcomeModel,
    nanos: u32,
)
    ensures
        proceeded(s, stage, outcome, nanos).1 matches TurnModel::Done { result } ==> {
            let after = proceeded(s, stage, outcome, nanos).0;
            if result is Err {
                &&& after.current_url == s.current_url
                &&& after.history == s.history
                &&& after.snapshot == s.snapshot
                &&& after.failure == s.failure
            } else {
                &&& after.history.len() == s.history.len() + 1
                &&& after.history.drop_last() == s.history
                &&& after.current_url == Some(after.history.last())
                &&& after.snapshot is Some
            }
        },
{
    let after = proceeded(s, stage, outcome, nanos).0;
    if after.history.len() == s.history.len() + 1 {
        assert(after.history.drop_last() =~= s.history);
    }
}

/// The outcome of a settled step tells whether the status of the page is an error.
pub proof fn law_outcome_follows_the_status(s: SessionModel, k: KeptModel)
    ensures
        committed(s, k).0.failure is Some <==> k.snap.status >= 400,
        s.log.len() <= MAX_LOG_ENTRIES ==> committed(s, k).0.log.last().outcome == if k.snap.status
            >= 400 {
            "verify_failed"@
        } else {
            "ok"@
        },
{
}

/// What a form sends holds every value of the caller, unless a later one has the same key, and
/// holds nothing else under that key.
pub proof fn law_callers_values_win(
    form: FormModel,
    values: Seq<(Seq<char>, Seq<char>)>,
    i: int,
)
    requires
        0 <= i < values.len(),
        forall|j: int| i < j < values.len() ==> (#[trigger] values[j]).0 != values[i].0,
    ensures
        merged(form, values).contains(values[i]),
        forall|q: int|
            0 <= q < merged(form, values).len() && (#[trigger] merged(form, values)[q]).0
                == values[i].0 ==> merged(form, values)[q] == values[i],
{
    lemma_override(defaults_of(form.fields), values, i);
}

/// A default that the caller does not touch is sent as it is.
pub proof fn law_untouched_defaults_are_sent(
    form: FormModel,
    values: Seq<(Seq<char>, Seq<char>)>,
    k: int,
)
    requires
        0 <= k < defaults_of(form.fields).len(),
        forall|j: int|
            0 <= j < values.len() ==> (#[trigger] values[j]).0 != defaults_of(form.fields)[k].0,
    ensures
        merged(form, values).contains(defaults_of(form.fields)[k]),
{
    lemma_override_keeps(defaults_of(form.fields), values, k);
}

proof fn lemma_without(pairs: Seq<(Seq<char>, Seq<char>)>, key: Seq<char>)
    ensures
        forall|q: int|
            0 <= q < without_key(pairs, key).len() ==> (#[trigger] without_key(pairs, key)[q]).0
                != key && pairs.contains(without_key(pairs, key)[q]),
        forall|q: int|
            0 <= q < pairs.len() && (#[trigger] pairs[q]).0 != key ==> without_key(
                pairs,
                key,
            ).contains(pairs[q]),
    decreases pairs.len(),
{
    if pairs.len() > 0 {
        let prior = pairs.drop_last();
        lemma_without(prior, key);
        let before = without_key(prior, key);
        let now = without_key(pairs, key);
        assert forall|q: int| 0 <= q < now.len() implies (#[trigger] without_key(
            pairs,
            key,
        )[q]).0 != key && pairs.contains(now[q]) by {
            if q < before.len() {
                assert(now[q] == before[q]);
                let p = choose|p: int| 0 <= p < prior.len() && prior[p] == before[q];
                assert(pairs[p] == before[q]);
            } else {
                assert(now[q] == pairs.last());
                assert(pairs[pairs.len() - 1] == pairs.last());
            }
        }
        assert forall|q: int|
            0 <= q < pairs.len() && (#[trigger] pairs[q]).0 != key implies now.contains(
            pairs[q],
        ) by {
            if q < prior.len() {
                assert(prior[q] == pairs[q]);
                let p = choose|p: int| 0 <= p < before.len() && before[p] == pairs[q];
                assert(now[p] == pairs[q]);
            } else {
                assert(now[now.len() - 1] == pairs[q]);
            }
        }
    }
}

proof fn lemma_override(
    pairs: Seq<(Seq<char>, Seq<char>)>,
    values: Seq<(Seq<char>, Seq<char>)>,
    i: int,
)
    requires
        0 <= i < values.len(),
        forall|j: int| i < j < values.len() ==> (#[trigger] values[j]).0 != values[i].0,
    ensures
        overridden(pairs, values).contains(values[i]),
        forall|q: int|
            0 <= q < overridden(pairs, values).len() && (#[trigger] overridden(
                pairs,
                values,
            )[q]).0 == values[i].0 ==> overridden(pairs, values)[q] == values[i],
    decreases values.len(),
{
    let key = values.last().0;
    let before = overridden(pairs, values.drop_last());
    let cleared = without_key(before, key);
    let now = overridden(pairs, values);
    lemma_without(before, key);
    if i == values.len() - 1 {
        assert(now[now.len() - 1] == values[i]);
        assert forall|q: int|
            0 <= q < now.len() && (#[trigger] overridden(pairs, values)[q]).0
                == values[i].0 implies now[q] == values[i] by {
            if q < cleared.len() {
                assert(now[q] == cleared[q]);
            }
        }
    } else {
        assert(values.drop_last()[i] == values[i]);
        assert forall|j: int| i < j < values.drop_last().len() implies (
        #[trigger] values.drop_last()[j]).0 != values.drop_last()[i].0 by {
            assert(values.drop_last()[j] == values[j]);
        }
        lemma_override(pairs, values.drop_last(), i);
        assert(values[values.len() - 1].0 != values[i].0);
        let p = choose|p: int| 0 <= p < before.len() && before[p] == values[i];
        assert(before[p].0 != key);
        assert(cleared.contains(values[i]));
        let q0 = choose|q: int| 0 <= q < cleared.len() && cleared[q] == values[i];
        assert(now[q0] == values[i]);
        assert forall|q: int|
            0 <= q < now.len() && (#[trigger] overridden(pairs, values)[q]).0
                == values[i].0 implies now[q] == values[i] by {
            if q < cleared.len() {
                assert(now[q] == cleared[q]);
                assert(before.contains(cleared[q]));
                let b = choose|b: int| 0 <= b < before.len() && before[b] == cleared[q];
                assert(overridden(pairs, values.drop_last())[b].0 == values[i].0);
            }
        }
    }
}

proof fn lemma_override_keeps(
    pairs: Seq<(Seq<char>, Seq<char>)>,
    values: Seq<(Seq<char>, Seq<char>)>,
    k: int,
)
    requires
        0 <= k < pairs.len(),
        forall|j: int| 0 <= j < values.len() ==> (#[trigger] values[j]).0 != pairs[k].0,
    ensures
        overridden(pairs, values).contains(pairs[k]),
    decreases values.len(),
{
    if values.len() > 0 {
        assert forall|j: int| 0 <= j < values.drop_last().len() implies (
        #[trigger] values.drop_last()[j]).0 != pairs[k].0 by {
            assert(values.drop_last()[j] == values[j]);
        }
        lemma_override_keeps(pairs, values.drop_last(), k);
        let before = overridden(pairs, values.drop_last());
        lemma_without(before, values.last().0);
        let p = choose|p: int| 0 <= p < before.len() && before[p] == pairs[k];
        assert(values[values.len() - 1].0 != pairs[k].0);
        assert(before[p].0 != values.last().0);
        let cleared = without_key(before, values.last().0);
        let q = choose|q: int| 0 <= q < cleared.len() && cleared[q] == pairs[k];
        assert(overridden(pairs, values)[q] == pairs[k]);
    } else {
        assert(overridden(pairs, values)[k] == pairs[k]);
    }
}

/// The log keeps its latest entries and no more than [`MAX_LOG_ENTRIES`], the new one last, and
/// logging changes nothing else of a session.
pub proof fn law_the_log_keeps_the_latest(
    s: SessionModel,
    op: Seq<char>,
    target: Seq<char>,
    status: Option<u16>,
    attempt: usize,
    outcome: Seq<char>,
    failure_reason: Option<Seq<char>>,
)
    requires
        s.log.len() <= MAX_LOG_ENTRIES,
    ensures
        ({
            let after = logged(s, op, target, status, attempt, outcome, failure_reason);
            let entry = OpLogModel {
                step: s.step,
                op,
                target,
                status,
                attempt,
                outcome,
                failure_reason,
            };
            let dropped: int = if s.log.len() < MAX_LOG_ENTRIES {
                0
            } else {
                1
            };
            &&& after == (SessionModel { log: after.log, ..s })
            &&& after.log == s.log.skip(dropped).push(entry)
            &&& after.log.len() <= MAX_LOG_ENTRIES
        }),
{
    let entry = OpLogModel { step: s.step, op, target, status, attempt, outcome, failure_reason };
    let after = logged(s, op, target, status, attempt, outcome, failure_reason);
    if s.log.len() < MAX_LOG_ENTRIES {
        assert(after.log =~= s.log.skip(0).push(entry));
    } else {
        assert(after.log =~= s.log.skip(1).push(entry));
    }
}

/// An error stands in the log as a single line of bounded length.
pub proof fn law_logged_errors_are_single_lines(e: ErrorModel)
    ensures
        logged_error(e).len() <= MAX_LOGGED_ERR_CHARS + 1,
        forall|i: int| 0 <= i < logged_error(e).len() ==> !breaks_line(logged_error(e)[i]),
{
}

/// Following the id of a link asks for the page that the first link with that id leads to, and
/// changes nothing of the session but the count of its steps.
pub proof fn law_following_an_id_requests_its_link(
    s: SessionModel,
    page: DistilledModel,
    tree: TreeModel,
    i: int,
)
    requires
        s.snapshot == Some(page),
        page.actions == Some(tree),
        0 <= i < tree.links.len(),
        forall|j: int| 0 <= j < i ==> (#[trigger] tree.links[j]).action_id != tree.links[i].action_id,
    ensures
        ({
            let href = tree.links[i].href;
            &&& followed(s, tree.links[i].action_id).1 == (TurnModel::Ask {
                stage: StageModel::Fetching { op: "follow"@, target: href, url: href, attempt: 0 },
                act: ActModel::Get { url: href },
            })
            &&& followed(s, tree.links[i].action_id).0 == (SessionModel {
                step: (s.step + 1) as usize,
                ..s
            })
        }),
{
    lemma_link_href(tree.links, tree.links[i].action_id, i);
}

/// Following the id of a download, where no link has it, asks for the file that the first download
/// with that id leads to.
pub proof fn law_following_an_id_requests_its_download(
    s: SessionModel,
    page: DistilledModel,
    tree: TreeModel,
    i: int,
)
    requires
        s.snapshot == Some(page),
        page.actions == Some(tree),
        0 <= i < tree.downloads.len(),
        forall|j: int|
            0 <= j < tree.links.len() ==> (#[trigger] tree.links[j]).action_id
                != tree.downloads[i].action_id,
        forall|j: int|
            0 <= j < i ==> (#[trigger] tree.downloads[j]).action_id != tree.downloads[i].action_id,
    ensures
        ({
            let href = tree.downloads[i].href;
            &&& followed(s, tree.downloads[i].action_id).1 == (TurnModel::Ask {
                stage: StageModel::Fetching { op: "follow"@, target: href, url: href, attempt: 0 },
                act: ActModel::Get { url: href },
            })
            &&& followed(s, tree.downloads[i].action_id).0 == (SessionModel {
                step: (s.step + 1) as usize,
                ..s
            })
        }),
{
    lemma_no_link(tree.links, tree.downloads[i].action_id);
    lemma_download_href(tree.downloads, tree.downloads[i].action_id, i);
}

/// An id that no link and no download of the last snapshot has is an error, and so is any id where
/// there is no page yet. Nothing is asked for, and the session stays as it is.
pub proof fn law_unknown_ids_are_not_followed(s: SessionModel, id: Seq<char>)
    ensures
        (s.snapshot matches Some(page) ==> page.actions is None) ==> followed(s, id) == (
            s,
            TurnModel::Done { result: Err(ErrorModel::NoActionTree) },
        ),
        s.snapshot matches Some(page) ==> (page.actions matches Some(tree) ==> ((forall|j: int|
            0 <= j < tree.links.len() ==> (#[trigger] tree.links[j]).action_id != id) && (forall|
            j: int,
        |
            0 <= j < tree.downloads.len() ==> (#[trigger] tree.downloads[j]).action_id != id)
            ==> followed(s, id) == (
            s,
            TurnModel::Done { result: Err(ErrorModel::NoFollowable { action_id: id }) },
        ))),
{
    if let Some(page) = s.snapshot {
        if let Some(tree) = page.actions {
            if forall|j: int| 0 <= j < tree.links.len() ==> (#[trigger] tree.links[j]).action_id != id {
                lemma_no_link(tree.links, id);
            }
            if forall|j: int|
                0 <= j < tree.downloads.len() ==> (#[trigger] tree.downloads[j]).action_id != id {
                lemma_no_download(tree.downloads, id);
            }
        }
    }
}

/// Observing a URL asks for that URL, once, and moves the session nowhere before the response is
/// there.
pub proof fn law_observing_requests_the_url(s: SessionModel, url: Seq<char>)
    ensures
        requested(s, "observe"@, url, url) == (
            SessionModel { step: (s.step + 1) as usize, ..s },
            TurnModel::Ask {
                stage: StageModel::Fetching { op: "observe"@, target: url, url, attempt: 0 },
                act: ActModel::Get { url },
            },
        ),
{
}

/// Submitting a form by its id is about the first form with that id. One whose method is POST, in
/// whatever case, is sent to its action once it is confirmed, and otherwise described. Any other
/// one is requested as its action with the fields as the query.
pub proof fn law_submitting_an_id_sends_its_form(
    s: SessionModel,
    page: DistilledModel,
    tree: TreeModel,
    i: int,
    values: Seq<(Seq<char>, Seq<char>)>,
    confirm: bool,
)
    requires
        s.snapshot == Some(page),
        page.actions == Some(tree),
        0 <= i < tree.forms.len(),
        forall|j: int| 0 <= j < i ==> (#[trigger] tree.forms[j]).action_id != tree.forms[i].action_id,
    ensures
        ({
            let form = tree.forms[i];
            let m = form.method;
            let fields = merged(form, values);
            let post = m.len() == 4 && (m[0] == 'P' || m[0] == 'p') && (m[1] == 'O' || m[1] == 'o')
                && (m[2] == 'S' || m[2] == 's') && (m[3] == 'T' || m[3] == 't');
            let moved = SessionModel { step: (s.step + 1) as usize, ..s };
            let change = submitted(s, form.action_id, values, confirm);
            if post && confirm {
                change == (
                    moved,
                    TurnModel::Ask {
                        stage: StageModel::Posting { target: form.action },
                        act: ActModel::Post { url: form.action, fields },
                    },
                )
            } else if post {
                &&& change.1 == (TurnModel::Withheld {
                    outcome: SubmitModel::NeedsConfirmation {
                        method: form.method,
                        action: form.action,
                        fields,
                    },
                })
                &&& change.0 == (SessionModel { log: change.0.log, ..moved })
                &&& change.0.log.last() == (OpLogModel {
                    step: (s.step + 1) as usize,
                    op: "submit_form"@,
                    target: form.action,
                    status: None,
                    attempt: 0,
                    outcome: "needs_confirmation"@,
                    failure_reason: None,
                })
            } else if text::byte_len(form.action) + pairs_weight(fields) > 64 * 1024 * 1024 {
                change == (s, TurnModel::Done { result: Err(ErrorModel::DocumentTooLarge) })
            } else {
                match with_query(form.action, fields) {
                    Ok(url) => change == (
                        moved,
                        TurnModel::Ask {
                            stage: StageModel::Fetching {
                                op: "submit_form"@,
                                target: form.action,
                                url,
                                attempt: 0,
                            },
                            act: ActModel::Get { url },
                        },
                    ),
                    Err(cause) => change == (
                        s,
                        TurnModel::Done {
                            result: Err(ErrorModel::InvalidUrl { url: form.action, cause }),
                        },
                    ),
                }
            }
        }),
{
    lemma_form_with(tree.forms, tree.forms[i].action_id, i);
    let m = tree.forms[i].method;
    reveal_strlit("POST");
    let l = text::lowered(m);
    let p = text::lowered("POST"@);
    assert(p =~= seq!['p', 'o', 's', 't']);
    let post = m.len() == 4 && (m[0] == 'P' || m[0] == 'p') && (m[1] == 'O' || m[1] == 'o') && (m[2]
        == 'S' || m[2] == 's') && (m[3] == 'T' || m[3] == 't');
    if post {
        assert(l =~= p);
    } else if l == p {
        assert(l[0] == 'p' && l[1] == 'o' && l[2] == 's' && l[3] == 't');
        assert(text::lower_char(m[0]) == 'p');
        assert(text::lower_char(m[1]) == 'o');
        assert(text::lower_char(m[2]) == 's');
        assert(text::lower_char(m[3]) == 't');
    }
    let gone = stepped(s);
    assert(is_post(tree.forms[i]) == post);
    let change = submitted(s, tree.forms[i].action_id, values, confirm);
    if post && !confirm {
        let entry = OpLogModel {
            step: (s.step + 1) as usize,
            op: "submit_form"@,
            target: tree.forms[i].action,
            status: None,
            attempt: 0,
            outcome: "needs_confirmation"@,
            failure_reason: None,
        };
        assert(change.0.log == latest(s.log.push(entry), MAX_LOG_ENTRIES as int));
        assert(change.0.log.last() == entry);
    }
}

/// An id that no form of the last snapshot has is an error, and nothing is sent.
pub proof fn law_unknown_forms_are_not_sent(
    s: SessionModel,
    id: Seq<char>,
    values: Seq<(Seq<char>, Seq<char>)>,
    confirm: bool,
)
    requires
        s.snapshot matches Some(page) ==> (page.actions matches Some(tree) ==> forall|j: int|
            0 <= j < tree.forms.len() ==> (#[trigger] tree.forms[j]).action_id != id),
    ensures
        submitted(s, id, values, confirm) == (
            s,
            TurnModel::Done { result: Err(ErrorModel::NoForm { form_id: id }) },
        ),
{
    if let Some(page) = s.snapshot {
        if let Some(tree) = page.actions {
            lemma_no_form(tree.forms, id);
        }
    }
}

proof fn lemma_link_href(links: Seq<LinkModel>, id: Seq<char>, i: int)
    requires
        0 <= i < links.len(),
        links[i].action_id == id,
        forall|j: int| 0 <= j < i ==> (#[trigger] links[j]).action_id != id,
    ensures
        link_href(links, id) == Some(links[i].href),
    decreases i,
{
    if i > 0 {
        let rest = links.drop_first();
        assert(links[0].action_id != id);
        assert forall|j: int| 0 <= j < i - 1 implies (#[trigger] rest[j]).action_id != id by {
            assert(rest[j] == links[j + 1]);
        }
        lemma_link_href(rest, id, i - 1);
    }
}

proof fn lemma_no_link(links: Seq<LinkModel>, id: Seq<char>)
    requires
        forall|j: int| 0 <= j < links.len() ==> (#[trigger] links[j]).action_id != id,
    ensures
        link_href(links, id) is None,
    decreases links.len(),
{
    if links.len() > 0 {
        let rest = links.drop_first();
        assert(links[0].action_id != id);
        assert forall|j: int| 0 <= j < rest.len() implies (#[trigger] rest[j]).action_id != id by {
            assert(rest[j] == links[j + 1]);
        }
        lemma_no_link(rest, id);
    }
}

proof fn lemma_download_href(downloads: Seq<DownloadModel>, id: Seq<char>, i: int)
    requires
        0 <= i < downloads.len(),
        downloads[i].action_id == id,
        forall|j: int| 0 <= j < i ==> (#[trigger] downloads[j]).action_id != id,
    ensures
        download_href(downloads, id) == Some(downloads[i].href),
    decreases i,
{
    if i > 0 {
        let rest = downloads.drop_first();
        assert(downloads[0].action_id != id);
        assert forall|j: int| 0 <= j < i - 1 implies (#[trigger] rest[j]).action_id != id by {
            assert(rest[j] == downloads[j + 1]);
        }
        lemma_download_href(rest, id, i - 1);
    }
}

proof fn lemma_no_download(downloads: Seq<DownloadModel>, id: Seq<char>)
    requires
        forall|j: int| 0 <= j < downloads.len() ==> (#[trigger] downloads[j]).action_id != id,
    ensures
        download_href(downloads, id) is None,
    decreases downloads.len(),
{
    if downloads.len() > 0 {
        let rest = downloads.drop_first();
        assert(downloads[0].action_id != id);
        assert forall|j: int| 0 <= j < rest.len() implies (#[trigger] rest[j]).action_id != id by {
            assert(rest[j] == downloads[j + 1]);
        }
        lemma_no_download(rest, id);
    }
}

proof fn lemma_form_with(forms: Seq<FormModel>, id: Seq<char>, i: int)
    requires
        0 <= i < forms.len(),
        forms[i].action_id == id,
        forall|j: int| 0 <= j < i ==> (#[trigger] forms[j]).action_id != id,
    ensures
        form_with(forms, id) == Some(forms[i]),
    decreases i,
{
    if i > 0 {
        let rest = forms.drop_first();
        assert(forms[0].action_id != id);
        assert forall|j: int| 0 <= j < i - 1 implies (#[trigger] rest[j]).action_id != id by {
            assert(rest[j] == forms[j + 1]);
        }
        lemma_form_with(rest, id, i - 1);
    }
}

proof fn lemma_no_form(forms: Seq<FormModel>, id: Seq<char>)
    requires
        forall|j: int| 0 <= j < forms.len() ==> (#[trigger] forms[j]).action_id != id,
    ensures
        form_with(forms, id) is None,
    decreases forms.len(),
{
    if forms.len() > 0 {
        let rest = forms.drop_first();
        assert(forms[0].action_id != id);
        assert forall|j: int| 0 <= j < rest.len() implies (#[trigger] rest[j]).action_id != id by {
            assert(rest[j] == forms[j + 1]);
        }
        lemma_no_form(rest, id);
    }
}

/// What a form sends by itself is what its fields send, one after the other: no field touches what
/// another one sends.
pub proof fn law_every_field_sends_its_own_default(
    form: FormModel,
    front: Seq<FieldModel>,
    back: Seq<FieldModel>,
)
    ensures
        merged(FormModel { fields: front + back, ..form }, seq![]) == merged(
            FormModel { fields: front, ..form },
            seq![],
        ) + merged(FormModel { fields: back, ..form }, seq![]),
        merged(FormModel { fields: seq![], ..form }, seq![]).len() == 0,
    decreases back.len(),
{
    if back.len() == 0 {
        assert(front + back =~= front);
        assert(merged(FormModel { fields: back, ..form }, seq![]) =~= seq![]);
        assert(merged(FormModel { fields: front + back, ..form }, seq![]) =~= merged(
            FormModel { fields: front, ..form },
            seq![],
        ) + merged(FormModel { fields: back, ..form }, seq![]));
    } else {
        law_every_field_sends_its_own_default(form, front, back.drop_last());
        assert((front + back).drop_last() =~= front + back.drop_last());
        assert((front + back).last() == back.last());
        assert(merged(FormModel { fields: front + back, ..form }, seq![]) =~= merged(
            FormModel { fields: front, ..form },
            seq![],
        ) + merged(FormModel { fields: back, ..form }, seq![]));
    }
}

/// A field with a name sends its value. A list without a value sends its first selected option, or
/// its first one where none is selected. Everything else sends nothing.
pub proof fn law_a_field_sends_its_value_or_its_option(form: FormModel, f: FieldModel)
    ensures
        ({
            let sent = merged(FormModel { fields: seq![f], ..form }, seq![]);
            &&& f.name.len() == 0 ==> sent.len() == 0
            &&& f.name.len() > 0 && f.value is Some ==> sent == seq![(f.name, f.value->0)]
            &&& f.value is None && f.kind != "select"@ ==> sent.len() == 0
            &&& f.value is None && f.options.len() == 0 ==> sent.len() == 0
            &&& f.name.len() > 0 && f.value is None && f.kind == "select"@ ==> forall|k: int|
                #![trigger f.options[k]]
                0 <= k < f.options.len() && (f.options[k].selected || k == 0 && forall|j: int|
                    0 <= j < f.options.len() ==> !(#[trigger] f.options[j]).selected) && (forall|
                    j: int,
                |
                    0 <= j < k ==> !(#[trigger] f.options[j]).selected) ==> sent == seq![
                    (f.name, f.options[k].value),
                ]
        }),
{
    let sent = merged(FormModel { fields: seq![f], ..form }, seq![]);
    assert(seq![f].drop_last() =~= seq![]);
    assert(seq![f].last() == f);
    assert(defaults_of(seq![]) =~= seq![]);
    assert(sent =~= match default_value(f) {
        Some(v) => seq![(f.name, v)],
        None => seq![],
    });
    if f.value is None && f.kind == "select"@ {
        if f.options.len() == 0 {
            assert(default_option(f.options) is None);
        }
        assert forall|k: int|
            #![trigger f.options[k]]
            0 <= k < f.options.len() && (f.options[k].selected || k == 0 && forall|j: int|
                0 <= j < f.options.len() ==> !(#[trigger] f.options[j]).selected) && (forall|
                j: int,
            |
                0 <= j < k ==> !(#[trigger] f.options[j]).selected) implies default_option(f.options)
            == Some(f.options[k].value) by {
            lemma_first_selected(f.options, k);
        }
    }
}

proof fn lemma_first_selected(options: Seq<OptionModel>, k: int)
    requires
        0 <= k < options.len(),
        forall|j: int| 0 <= j < k ==> !(#[trigger] options[j]).selected,
    ensures
        options[k].selected ==> first_selected(options) == Some(k),
        (forall|j: int| 0 <= j < options.len() ==> !(#[trigger] options[j]).selected)
            ==> first_selected(options) is None,
    decreases options.len(),
{
    let rest = options.drop_first();
    if k > 0 {
        assert(!options[0].selected);
        assert forall|j: int| 0 <= j < k - 1 implies !(#[trigger] rest[j]).selected by {
            assert(rest[j] == options[j + 1]);
        }
        assert forall|j: int|
            (forall|j: int| 0 <= j < options.len() ==> !(#[trigger] options[j]).selected) && 0 <= j
                < rest.len() implies !(#[trigger] rest[j]).selected by {
            assert(rest[j] == options[j + 1]);
        }
        lemma_first_selected(rest, k - 1);
    } else if forall|j: int| 0 <= j < options.len() ==> !(#[trigger] options[j]).selected {
        assert(!options[0].selected);
        if rest.len() > 0 {
            assert forall|j: int| 0 <= j < rest.len() implies !(#[trigger] rest[j]).selected by {
                assert(rest[j] == options[j + 1]);
            }
            lemma_first_selected(rest, 0);
        }
    }
}

/// The values of a caller go behind the defaults of a form, in their order; a value takes the place
/// of everything that was there under its key, and touches nothing else.
pub proof fn law_a_value_replaces_its_key_and_nothing_else(
    form: FormModel,
    values: Seq<(Seq<char>, Seq<char>)>,
    key: Seq<char>,
    value: Seq<char>,
)
    ensures
        ({
            let before = merged(form, values);
            let after = merged(form, values.push((key, value)));
            &&& after.len() > 0
            &&& after.last() == (key, value)
            &&& after.drop_last() == before.filter(|p: (Seq<char>, Seq<char>)| p.0 != key)
        }),
{
    let all = values.push((key, value));
    assert(all.drop_last() =~= values);
    assert(all.last() == (key, value));
    let before = merged(form, values);
    lemma_without_is_filter(before, key);
    assert(merged(form, all).drop_last() =~= without_key(before, key));
}

proof fn lemma_without_is_filter(pairs: Seq<(Seq<char>, Seq<char>)>, key: Seq<char>)
    ensures
        without_key(pairs, key) == pairs.filter(|p: (Seq<char>, Seq<char>)| p.0 != key),
    decreases pairs.len(),
{
    reveal(Seq::filter);
    if pairs.len() > 0 {
        lemma_without_is_filter(pairs.drop_last(), key);
    } else {
        assert(without_key(pairs, key) =~= pairs.filter(|p: (Seq<char>, Seq<char>)| p.0 != key));
    }
}

/// A response that is settled without a browser is taken over: its page becomes the snapshot, with
/// the status of the response, its URL the current one and the latest of the history, and the log
/// says how it went.
pub proof fn law_a_response_becomes_the_current_page(
    s: SessionModel,
    op: Seq<char>,
    target: Seq<char>,
    url: Seq<char>,
    attempt: usize,
    page: FetchModel,
    retry_after: Option<Span>,
    nanos: u32,
    d: DistilledModel,
)
    requires
        s.opts.js_mode is Off,
        attempt < usize::MAX,
        attempt >= s.max_retries || !(page.status == 429 || page.status == 500 || page.status == 502
            || page.status == 503 || page.status == 504),
        pipeline::distilled_html(page.html, page.final_url, s.opts) == Ok::<
            DistilledModel,
            ErrorModel,
        >(d),
    ensures
        ({
            let change = proceeded(
                s,
                StageModel::Fetching { op, target, url, attempt },
                OutcomeModel::Response { result: Ok(page), retry_after },
                nanos,
            );
            let failure = if page.status >= 400 {
                Some("http_status_"@ + text::decimal(page.status as nat))
            } else {
                None
            };
            &&& change.1 == (TurnModel::Done { result: Ok(()) })
            &&& change.0 == (SessionModel {
                current_url: Some(page.final_url),
                history: s.history.push(page.final_url),
                snapshot: Some(DistilledModel { status: page.status, ..d }),
                failure,
                fallback: None,
                log: change.0.log,
                ..s
            })
            &&& change.0.log.last() == (OpLogModel {
                step: s.step,
                op,
                target,
                status: Some(page.status),
                attempt: (attempt + 1) as usize,
                outcome: if page.status >= 400 {
                    "verify_failed"@
                } else {
                    "ok"@
                },
                failure_reason: failure,
            })
        }),
{
    let k = KeptModel {
        op,
        target,
        attempt: after(attempt),
        result: page,
        snap: DistilledModel { status: page.status, ..d },
    };
    let plain = SessionModel { fallback: None, ..s };
    assert(proceeded(
        s,
        StageModel::Fetching { op, target, url, attempt },
        OutcomeModel::Response { result: Ok(page), retry_after },
        nanos,
    ) == committed(plain, k));
}

/// What came back for a form that was posted is taken over in the same way, and never given to a
/// browser, whatever the mode.
pub proof fn law_a_posted_form_becomes_the_current_page(
    s: SessionModel,
    target: Seq<char>,
    page: FetchModel,
    retry_after: Option<Span>,
    nanos: u32,
    d: DistilledModel,
)
    requires
        pipeline::distilled_html(page.html, page.final_url, s.opts) == Ok::<
            DistilledModel,
            ErrorModel,
        >(d),
    ensures
        ({
            let change = proceeded(
                s,
                StageModel::Posting { target },
                OutcomeModel::Response { result: Ok(page), retry_after },
                nanos,
            );
            &&& change.1 == (TurnModel::Done { result: Ok(()) })
            &&& change.0.current_url == Some(page.final_url)
            &&& change.0.history == s.history.push(page.final_url)
            &&& change.0.snapshot == Some(DistilledModel { status: page.status, ..d })
            &&& change.0.fallback is None
            &&& change.0.log.last().op == "submit_form"@
            &&& change.0.log.last().target == target
            &&& change.0.log.last().attempt == 1
            &&& change.0.log.last().status == Some(page.status)
        }),
{
}

/// A status that may pass is tried again while tries are left, at the same URL: after the time that
/// the server asks for, or else after the backoff. The log keeps the thrown-away response.
pub proof fn law_a_busy_server_is_asked_again(
    s: SessionModel,
    op: Seq<char>,
    target: Seq<char>,
    url: Seq<char>,
    attempt: usize,
    page: FetchModel,
    retry_after: Option<Span>,
    nanos: u32,
)
    requires
        attempt < s.max_retries,
        page.status == 429 || page.status == 500 || page.status == 502 || page.status == 503
            || page.status == 504,
    ensures
        ({
            let change = proceeded(
                s,
                StageModel::Fetching { op, target, url, attempt },
                OutcomeModel::Response { result: Ok(page), retry_after },
                nanos,
            );
            &&& change.1 == (TurnModel::Ask {
                stage: StageModel::Fetching { op, target, url, attempt: (attempt + 1) as usize },
                act: ActModel::Retry {
                    url,
                    wait: match retry_after {
                        Some(wait) => wait,
                        None => Span {
                            nanos: ((fetch::base_delay(attempt) + fetch::jitter(attempt, nanos))
                                * 1_000_000) as u128,
                        },
                    },
                },
            })
            &&& change.0 == (SessionModel { log: change.0.log, ..s })
            &&& change.0.log.last() == (OpLogModel {
                step: s.step,
                op,
                target,
                status: Some(page.status),
                attempt: (attempt + 1) as usize,
                outcome: "retryable_status"@,
                failure_reason: Some("http_status_"@ + text::decimal(page.status as nat)),
            })
        }),
{
}

/// An error that may pass is tried again while tries are left, at the same URL. Any other one ends
/// the operation, and the log says why.
pub proof fn law_an_error_that_may_pass_is_tried_again(
    s: SessionModel,
    op: Seq<char>,
    target: Seq<char>,
    url: Seq<char>,
    attempt: usize,
    e: ErrorModel,
    retry_after: Option<Span>,
    nanos: u32,
)
    requires
        attempt < usize::MAX,
    ensures
        ({
            let change = proceeded(
                s,
                StageModel::Fetching { op, target, url, attempt },
                OutcomeModel::Response { result: Err(e), retry_after },
                nanos,
            );
            let again = attempt < s.max_retries && (e matches ErrorModel::Outside { transient, .. }
                && transient);
            &&& again ==> change.1 == (TurnModel::Ask {
                stage: StageModel::Fetching { op, target, url, attempt: (attempt + 1) as usize },
                act: ActModel::Retry {
                    url,
                    wait: Span {
                        nanos: ((fetch::base_delay(attempt) + fetch::jitter(attempt, nanos))
                            * 1_000_000) as u128,
                    },
                },
            })
            &&& !again ==> change.1 == (TurnModel::Done { result: Err(e) })
            &&& change.0 == (SessionModel { log: change.0.log, ..s })
            &&& change.0.log.last() == (OpLogModel {
                step: s.step,
                op,
                target,
                status: None,
                attempt: (attempt + 1) as usize,
                outcome: if again {
                    "transient_error_retry"@
                } else {
                    "error"@
                },
                failure_reason: Some(logged_error(e)),
            })
        }),
{
}

/// With rendering always on, every page that was fetched is given to a browser. With rendering on
/// demand it is looked at first, and given to a browser where that is asked for.
pub proof fn law_a_browser_is_called_in_by_the_mode(
    s: SessionModel,
    op: Seq<char>,
    target: Seq<char>,
    url: Seq<char>,
    attempt: usize,
    page: FetchModel,
    retry_after: Option<Span>,
    nanos: u32,
    d: DistilledModel,
    reason: FallbackReason,
)
    requires
        attempt < usize::MAX,
        attempt >= s.max_retries || !(page.status == 429 || page.status == 500 || page.status == 502
            || page.status == 503 || page.status == 504),
        pipeline::distilled_html(page.html, page.final_url, s.opts) == Ok::<
            DistilledModel,
            ErrorModel,
        >(d),
    ensures
        ({
            let change = proceeded(
                s,
                StageModel::Fetching { op, target, url, attempt },
                OutcomeModel::Response { result: Ok(page), retry_after },
                nanos,
            );
            let kept = KeptModel {
                op,
                target,
                attempt: (attempt + 1) as usize,
                result: page,
                snap: DistilledModel { status: page.status, ..d },
            };
            let budget = match s.opts.js_wait {
                Some(ms) => Span { nanos: (ms * 1_000_000) as u128 },
                None => s.opts.timeout,
            };
            &&& s.opts.js_mode is Always ==> change == (
                SessionModel { fallback: Some("forced"@), ..s },
                TurnModel::Ask {
                    stage: StageModel::Rendering { kept, reason: FallbackReason::Forced },
                    act: ActModel::Render { url: page.final_url, budget },
                },
            )
            &&& s.opts.js_mode is Auto ==> change == (
                SessionModel { fallback: None, ..s },
                TurnModel::Ask { stage: StageModel::Assessing { kept }, act: ActModel::Assess },
            )
            &&& proceeded(
                s,
                StageModel::Assessing { kept },
                OutcomeModel::Assessed { reason: Some(reason) },
                nanos,
            ) == (
                SessionModel {
                    fallback: Some(
                        match reason {
                            FallbackReason::Challenge => "challenge"@,
                            FallbackReason::JsApp => "js_app"@,
                            FallbackReason::NoActions => "no_actions"@,
                            FallbackReason::Forced => "forced"@,
                        },
                    ),
                    ..s
                },
                TurnModel::Ask {
                    stage: StageModel::Rendering { kept, reason },
                    act: ActModel::Render { url: page.final_url, budget },
                },
            )
        }),
{
}

/// A page that is good enough is taken over as it was fetched.
pub proof fn law_a_good_page_is_taken_over(s: SessionModel, k: KeptModel, nanos: u32)
    ensures
        ({
            let change = proceeded(
                s,
                StageModel::Assessing { kept: k },
                OutcomeModel::Assessed { reason: None },
                nanos,
            );
            &&& change.1 == (TurnModel::Done { result: Ok(()) })
            &&& change.0.snapshot == Some(k.snap)
            &&& change.0.current_url == Some(k.result.final_url)
            &&& change.0.history == s.history.push(k.result.final_url)
            &&& change.0.log.last().op == k.op
            &&& change.0.log.last().target == k.target
            &&& change.0.log.last().attempt == k.attempt
            &&& change.0.log.last().status == Some(k.result.status)
        }),
{
}

/// A rendered page that can be distilled takes the place of the fetched one, and is marked as one
/// that a browser had a part in. Where rendering or distilling fails, the fetched page is kept, and
/// the operation succeeds all the same.
pub proof fn law_a_rendering_takes_over_or_leaves_the_page(
    s: SessionModel,
    k: KeptModel,
    reason: FallbackReason,
    html: Result<Seq<char>, ErrorModel>,
    nanos: u32,
)
    ensures
        ({
            let change = proceeded(
                s,
                StageModel::Rendering { kept: k, reason },
                OutcomeModel::Rendered { html },
                nanos,
            );
            &&& change.1 == (TurnModel::Done { result: Ok(()) })
            &&& change.0.current_url == Some(k.result.final_url)
            &&& change.0.history == s.history.push(k.result.final_url)
            &&& html is Err ==> change.0.snapshot == Some(k.snap)
            &&& html matches Ok(document) ==> match pipeline::distilled_html(
                document,
                k.result.final_url,
                s.opts,
            ) {
                Err(_) => change.0.snapshot == Some(k.snap),
                Ok(d) => {
                    &&& change.0.snapshot is Some
                    &&& change.0.snapshot->0 == (DistilledModel {
                        status: k.result.status,
                        diagnostics: change.0.snapshot->0.diagnostics,
                        ..d
                    })
                    &&& d.diagnostics matches Some(g) ==> change.0.snapshot->0.diagnostics == Some(
                        DiagnosticsModel { used_headless: true, ..g },
                    )
                    &&& d.diagnostics is None ==> change.0.snapshot->0.diagnostics is None
                },
            }
        }),
{
}

/// A page that cannot be distilled is an error with its URL, and moves nothing but the log.
pub proof fn law_an_undistillable_page_is_an_error(
    s: SessionModel,
    target: Seq<char>,
    page: FetchModel,
    retry_after: Option<Span>,
    nanos: u32,
    e: ErrorModel,
)
    requires
        pipeline::distilled_html(page.html, page.final_url, s.opts) == Err::<
            DistilledModel,
            ErrorModel,
        >(e),
    ensures
        ({
            let change = proceeded(
                s,
                StageModel::Posting { target },
                OutcomeModel::Response { result: Ok(page), retry_after },
                nanos,
            );
            let cause = ErrorModel::Snapshot { url: page.final_url, cause: e.chain() };
            &&& change.1 == (TurnModel::Done { result: Err(cause) })
            &&& change.0 == (SessionModel { log: change.0.log, ..s })
            &&& change.0.log.last().outcome == "distill_failed"@
            &&& change.0.log.last().status == Some(page.status)
        }),
{
}

/// A planner sees of a session what it sees of its last snapshot, with why the last step failed and
/// why a browser was called in.
pub proof fn law_a_planner_sees_the_session(s: SessionModel)
    ensures
        ({
            let view = session_view(s);
            let plain = planner::view_of(s.snapshot, s.failure, s.step);
            &&& view.state == (planner::PageModel { fallback_reason: s.fallback, ..plain.state })
            &&& view.available_actions == plain.available_actions
            &&& view.recommended_next_actions == plain.recommended_next_actions
            &&& view.failure_reason == s.failure
        }),
{
}

/// The latest entries of a log are its last ones, in their order.
pub proof fn law_the_latest_are_the_last<T>(s: Seq<T>, n: int)
    requires
        0 <= n,
    ensures
        latest(s, n).len() == if s.len() < n {
            s.len() as int
        } else {
            n
        },
        forall|i: int|
            0 <= i < latest(s, n).len() ==> #[trigger] latest(s, n)[i] == s[s.len() - latest(
                s,
                n,
            ).len() + i],
{
}

/// An error stands in the log with what it says, up to 200 characters, each line break a space.
pub proof fn law_a_logged_error_says_what_the_error_says(e: ErrorModel, i: int)
    requires
        0 <= i < e.chain().len(),
        i < 200,
    ensures
        i < logged_error(e).len(),
        logged_error(e)[i] == if e.chain()[i] == '\n' || e.chain()[i] == '\r' {
            ' '
        } else {
            e.chain()[i]
        },
        e.chain().len() <= 200 ==> logged_error(e).len() == e.chain().len(),
        e.chain().len() > 200 ==> logged_error(e).len() == 201 && logged_error(e).last() == '…',
{
}

/// The log says that a browser was called in and why, or why it failed, and then how the step went.
pub proof fn law_the_log_tells_of_the_browser(
    s: SessionModel,
    k: KeptModel,
    reason: FallbackReason,
    html: Result<Seq<char>, ErrorModel>,
    nanos: u32,
)
    requires
        s.log.len() + 2 <= 200,
    ensures
        ({
            let log = proceeded(
                s,
                StageModel::Rendering { kept: k, reason },
                OutcomeModel::Rendered { html },
                nanos,
            ).0.log;
            let first = log[s.log.len() as int];
            let rendered = html matches Ok(document) && pipeline::distilled_html(
                document,
                k.result.final_url,
                s.opts,
            ) is Ok;
            &&& log.len() == s.log.len() + 2
            &&& log.take(s.log.len() as int) == s.log
            &&& first.step == s.step && first.op == k.op && first.target == k.target
                && first.attempt == k.attempt && first.status == Some(k.result.status)
            &&& rendered ==> first.outcome == "chrome_fallback"@ && first.failure_reason == Some(
                reason.name(),
            )
            &&& !rendered ==> first.outcome == "chrome_fallback_failed"@
            &&& html matches Err(e) ==> first.failure_reason == Some(logged_error(e))
            &&& log.last().op == k.op && log.last().target == k.target && log.last().attempt
                == k.attempt && log.last().status == Some(k.result.status)
        }),
{
    let log = proceeded(
        s,
        StageModel::Rendering { kept: k, reason },
        OutcomeModel::Rendered { html },
        nanos,
    ).0.log;
    assert(log.take(s.log.len() as int) =~= s.log);
}

/// The labels of the reasons for a browser are told apart.
pub proof fn law_reasons_have_their_own_labels(a: FallbackReason, b: FallbackReason)
    ensures
        a.name() == b.name() <==> a == b,
{
    reveal_strlit("challenge");
    reveal_strlit("js_app");
    reveal_strlit("no_actions");
    reveal_strlit("forced");
    assert("challenge"@.len() == 9 && "no_actions"@.len() == 10 && "js_app"@.len() == 6
        && "forced"@.len() == 6);
    assert("js_app"@[0] == 'j' && "forced"@[0] == 'f');
}

/// The size of a form counts the bytes of its names and values, and two more for what stands
/// between them.
pub proof fn law_forms_are_weighed_by_their_bytes(
    pairs: Seq<(Seq<char>, Seq<char>)>,
    key: Seq<char>,
    value: Seq<char>,
    href: Seq<char>,
)
    ensures
        pairs_weight(seq![]) == 0,
        pairs_weight(pairs.push((key, value))) == pairs_weight(pairs) + text::byte_len(key)
            + text::byte_len(value) + 2,
        query_fits(href, pairs) <==> text::byte_len(href) + pairs_weight(pairs) <= 64 * 1024 * 1024,
{
    assert(pairs.push((key, value)).drop_last() =~= pairs);
}

/// A form that could not be posted is an error, which the log keeps. It is not tried again, and
/// nothing else changes.
pub proof fn law_a_form_that_fails_is_an_error(
    s: SessionModel,
    target: Seq<char>,
    e: ErrorModel,
    retry_after: Option<Span>,
    nanos: u32,
)
    ensures
        ({
            let change = proceeded(
                s,
                StageModel::Posting { target },
                OutcomeModel::Response { result: Err(e), retry_after },
                nanos,
            );
            &&& change.1 == (TurnModel::Done { result: Err(e) })
            &&& change.0 == (SessionModel { log: change.0.log, ..s })
            &&& change.0.log.last() == (OpLogModel {
                step: s.step,
                op: "submit_form"@,
                target,
                status: None,
                attempt: 1,
                outcome: "error"@,
                failure_reason: Some(logged_error(e)),
            })
        }),
{
}

/// A reply that the session does not wait for is an error, and changes nothing.
pub proof fn law_replies_out_of_turn_are_refused(
    s: SessionModel,
    stage: StageModel,
    outcome: OutcomeModel,
    nanos: u32,
)
    requires
        (stage is Fetching || stage is Posting) ==> !(outcome is Response),
        stage is Assessing ==> !(outcome is Assessed),
        stage is Rendering ==> !(outcome is Rendered),
    ensures
        proceeded(s, stage, outcome, nanos) == (
            s,
            TurnModel::Done { result: Err(ErrorModel::OutOfTurn) },
        ),
{
}

/// The mathematical value of what a session asks for shows every part of it.
pub proof fn law_views_show_every_part(act: Act, stage: Stage, outcome: SubmitOutcome, k: Kept)
    ensures
        act matches Act::Get { url } ==> act.deep_view() == (ActModel::Get { url: url@ }),
        act matches Act::Retry { url, wait } ==> act.deep_view() == (ActModel::Retry {
            url: url@,
            wait,
        }),
        act matches Act::Post { url, fields } ==> act.deep_view() == (ActModel::Post {
            url: url@,
            fields: fields.deep_view(),
        }),
        act is Assess ==> act.deep_view() is Assess,
        act matches Act::Render { url, budget } ==> act.deep_view() == (ActModel::Render {
            url: url@,
            budget,
        }),
        stage matches Stage::Fetching { op, target, url, attempt } ==> stage.deep_view() == (
        StageModel::Fetching { op: op@, target: target@, url: url@, attempt }),
        stage matches Stage::Posting { target } ==> stage.deep_view() == (StageModel::Posting {
            target: target@,
        }),
        outcome is Submitted ==> outcome.deep_view() is Submitted,
        outcome matches SubmitOutcome::NeedsConfirmation { method, action, fields }
            ==> outcome.deep_view() == (SubmitModel::NeedsConfirmation {
            method: method@,
            action: action@,
            fields: fields.deep_view(),
        }),
        k.deep_view().op == k.op@ && k.deep_view().target == k.target@ && k.deep_view().attempt
            == k.attempt && k.deep_view().result == k.result.deep_view() && k.deep_view().snap
            == k.snap.deep_view(),
{
}

/// A session retries once by default and twice at most, and its log keeps two hundred entries.
pub proof fn law_sessions_have_small_limits(
    s: SessionModel,
    op: Seq<char>,
    target: Seq<char>,
    outcome: Seq<char>,
)
    ensures
        DEFAULT_MAX_ACTION_RETRIES == 1,
        MAX_ACTION_RETRIES_CAP == 2,
        s.log.len() < 200 ==> logged(s, op, target, None, 1, outcome, None).log.len() == s.log.len()
            + 1,
        s.log.len() >= 200 ==> logged(s, op, target, None, 1, outcome, None).log.len() == 200,
        well_formed(s) <==> s.max_retries <= 2 && s.log.len() <= 200 && s.opts.extract_actions
            && s.opts.diagnostics && !s.opts.use_cache,
{
}

/// A session fetches with its own options, but leaves every retry to itself.
pub proof fn law_a_session_does_its_own_retrying(
    opts: &DistillOptions,
    own: FetchOptions,
    usual: FetchOptions,
)
    requires
        call_ensures(session_fetch_options, (opts,), own),
        call_ensures(pipeline::fetch_options, (opts,), usual),
    ensures
        own.max_retries == 0,
        usual.max_retries == opts.max_retries,
        own.user_agent@ == usual.user_agent@,
        opts.user_agent matches Some(ua) ==> usual.user_agent@ == ua@,
        own.timeout == opts.timeout && usual.timeout == opts.timeout,
        own.max_bytes == opts.max_bytes && usual.max_bytes == opts.max_bytes,
        own.max_redirects == 8 && usual.max_redirects == 8,
        own.allow_local == opts.allow_local && usual.allow_local == opts.allow_local,
        own.respect_robots == opts.respect_robots && usual.respect_robots == opts.respect_robots,
        own.per_host_concurrency == opts.per_host_concurrency && usual.per_host_concurrency
            == opts.per_host_concurrency,
        own.min_request_interval == opts.min_request_interval && usual.min_request_interval
            == opts.min_request_interval,
{
}

} // verus!
