//! From a fetched page to its distilled form.

use vstd::prelude::*;

use crate::actions;
use crate::actions::{ActionLimits, ActionTree, TreeModel};
use crate::budget;
use crate::cache;
use crate::cache::{CachedFetch, CachedFetchModel, CachedRender, CachedRenderModel};
use crate::convert;
use crate::dom;
use crate::error;
use crate::error::{Error, ErrorModel, document_fits};
use crate::extract;
use crate::extract::{Extracted, ExtractedModel};
use crate::fetch;
use crate::fetch::{FetchModel, FetchOptions, FetchResult};
use crate::planner;
use crate::render;
use crate::span::Span;
use crate::structured;
use crate::structured::{Link, LinkModel, Table, TableModel};
use crate::text;
use crate::tokens;
use crate::tokens::TokenStats;

verus! {

/// When to fall back to rendering in a headless browser.
#[derive(Debug, Clone, Copy, PartialEq, Eq, Structural)]
pub enum JsMode {
    /// Never.
    Off,
    /// When the page looks like an app that JavaScript has not rendered yet.
    Auto,
    /// Always.
    Always,
}

impl Default for JsMode {
    fn default() -> (r: JsMode)
        ensures
            r == JsMode::Auto,
    {
        JsMode::Auto
    }
}

/// How to select content from a page. A selector in the options overrides it.
#[derive(Debug, Clone, Copy, PartialEq, Eq, Structural)]
pub enum Profile {
    /// The main content, without navigation, advertising and footers.
    Article,
    /// The whole body without scripts and styles.
    Full,
    /// The title and a short summary.
    Metadata,
}

impl Default for Profile {
    fn default() -> (r: Profile)
        ensures
            r == Profile::Article,
    {
        Profile::Article
    }
}

impl Profile {
    /// The label of the profile.
    pub open spec fn name(self) -> Seq<char> {
        match self {
            Profile::Article => "article"@,
            Profile::Full => "full"@,
            Profile::Metadata => "metadata"@,
        }
    }

    /// The label of the profile, in small letters.
    pub fn label(self) -> (r: &'static str)
        ensures
            r@ == self.name(),
    {
        match self {
            Profile::Article => "article",
            Profile::Full => "full",
            Profile::Metadata => "metadata",
        }
    }
}

/// The options of one distillation.
#[derive(Debug, Clone)]
pub struct DistillOptions {
    pub timeout: Span,
    pub user_agent: Option<String>,
    /// Extract the elements that match this CSS selector instead of the main content.
    pub selector: Option<String>,
    /// Count tokens.
    pub measure_tokens: bool,
    /// Use the cache on disk.
    pub use_cache: bool,
    /// How many seconds an entry of the cache stays fresh.
    pub cache_ttl: u64,
    /// Extract links as data.
    pub extract_links: bool,
    /// Extract tables as data.
    pub extract_tables: bool,
    /// Extract links from the whole page rather than from the distilled content.
    pub links_full: bool,
    /// When to render in a headless browser.
    pub js_mode: JsMode,
    /// How many milliseconds to wait for rendering, in place of the timeout.
    pub js_wait: Option<u64>,
    /// Wait until this CSS selector matches before capturing.
    pub js_wait_for: Option<String>,
    /// How many bytes of a response are kept.
    pub max_bytes: usize,
    /// Permit loopback targets.
    pub allow_local: bool,
    /// How often to retry transient failures.
    pub max_retries: usize,
    /// How many requests to one host may be in flight; 0 is no limit.
    pub per_host_concurrency: usize,
    /// The least time between the starts of two requests to one host.
    pub min_request_interval: Span,
    /// Refuse what a host's robots.txt disallows.
    pub respect_robots: bool,
    /// How to select content where there is no selector.
    pub profile: Profile,
    /// Cut output to this many tokens.
    pub max_output_tokens: Option<usize>,
    /// Attach diagnostics to the result.
    pub diagnostics: bool,
    /// Extract the action tree.
    pub extract_actions: bool,
    /// Cap each category of actions at this many.
    pub max_actions: Option<usize>,
}

impl Default for DistillOptions {
    fn default() -> (r: DistillOptions)
        ensures
            r.timeout.nanos == 20_000_000_000,
            r.user_agent is None,
            r.selector is None,
            !r.measure_tokens,
            r.use_cache,
            r.cache_ttl == 3600,
            !r.extract_links,
            !r.extract_tables,
            !r.links_full,
            r.js_mode == JsMode::Auto,
            r.js_wait is None,
            r.js_wait_for is None,
            r.max_bytes == 8_388_608,
            !r.allow_local,
            r.max_retries == 2,
            r.per_host_concurrency == 4,
            r.min_request_interval.nanos == 0,
            !r.respect_robots,
            r.profile == Profile::Article,
            r.max_output_tokens is None,
            !r.diagnostics,
            !r.extract_actions,
            r.max_actions is None,
    {
        DistillOptions {
            timeout: Span::from_secs(20),
            user_agent: None,
            selector: None,
            measure_tokens: false,
            use_cache: true,
            cache_ttl: 3600,
            extract_links: false,
            extract_tables: false,
            links_full: false,
            js_mode: JsMode::Auto,
            js_wait: None,
            js_wait_for: None,
            max_bytes: 8 * 1024 * 1024,
            allow_local: false,
            max_retries: 2,
            per_host_concurrency: 4,
            min_request_interval: Span::zero(),
            respect_robots: false,
            profile: Profile::Article,
            max_output_tokens: None,
            diagnostics: false,
            extract_actions: false,
            max_actions: None,
        }
    }
}

/// What was saved.
#[derive(Debug, Clone, Copy, PartialEq, Eq, Structural)]
pub struct Stats {
    pub raw_bytes: usize,
    pub raw_tokens: usize,
    pub output_tokens: usize,
    pub saved_tokens: usize,
}

/// Signals of how well extraction went.
#[derive(Debug, Clone, Copy)]
pub struct Diagnostics {
    /// Which content profile made the output.
    pub profile: &'static str,
    /// Bytes of the response.
    pub raw_bytes: usize,
    /// Characters of the Markdown.
    pub output_chars: usize,
    /// Tokens of the Markdown.
    pub output_tokens: usize,
    /// Links extracted as data.
    pub link_count: usize,
    /// Tables extracted as data.
    pub table_count: usize,
    /// Actions in the action tree.
    pub action_count: usize,
    /// A headless browser was used.
    pub used_headless: bool,
    /// The output was cut to fit the token budget.
    pub truncated: bool,
    /// The output is suspiciously short.
    pub low_content: bool,
}

/// A distilled page.
#[derive(Debug, Clone)]
pub struct Distilled {
    pub final_url: String,
    pub status: u16,
    pub title: String,
    pub byline: Option<String>,
    pub excerpt: Option<String>,
    pub markdown: String,
    /// The content as plain text.
    pub text: String,
    pub stats: Option<Stats>,
    pub links: Option<Vec<Link>>,
    pub tables: Option<Vec<Table>>,
    pub actions: Option<ActionTree>,
    pub diagnostics: Option<Diagnostics>,
}

/// Diagnostics, as a mathematical value.
#[verifier::ext_equal]
pub struct DiagnosticsModel {
    pub profile: Seq<char>,
    pub raw_bytes: usize,
    pub output_chars: usize,
    pub output_tokens: usize,
    pub link_count: usize,
    pub table_count: usize,
    pub action_count: usize,
    pub used_headless: bool,
    pub truncated: bool,
    pub low_content: bool,
}

/// A distilled page, as a mathematical value.
#[verifier::ext_equal]
pub struct DistilledModel {
    pub final_url: Seq<char>,
    pub status: u16,
    pub title: Seq<char>,
    pub byline: Option<Seq<char>>,
    pub excerpt: Option<Seq<char>>,
    pub markdown: Seq<char>,
    pub text: Seq<char>,
    pub stats: Option<Stats>,
    pub links: Option<Seq<LinkModel>>,
    pub tables: Option<Seq<TableModel>>,
    pub actions: Option<TreeModel>,
    pub diagnostics: Option<DiagnosticsModel>,
}

impl DeepView for Stats {
    type V = Stats;

    open spec fn deep_view(&self) -> Stats {
        *self
    }
}

impl DeepView for Diagnostics {
    type V = DiagnosticsModel;

    open spec fn deep_view(&self) -> DiagnosticsModel {
        DiagnosticsModel {
            profile: self.profile@,
            raw_bytes: self.raw_bytes,
            output_chars: self.output_chars,
            output_tokens: self.output_tokens,
            link_count: self.link_count,
            table_count: self.table_count,
            action_count: self.action_count,
            used_headless: self.used_headless,
            truncated: self.truncated,
            low_content: self.low_content,
        }
    }
}

impl DeepView for Distilled {
    type V = DistilledModel;

    open spec fn deep_view(&self) -> DistilledModel {
        DistilledModel {
            final_url: self.final_url@,
            status: self.status,
            title: self.title@,
            byline: self.byline.deep_view(),
            excerpt: self.excerpt.deep_view(),
            markdown: self.markdown@,
            text: self.text@,
            stats: self.stats.deep_view(),
            links: self.links.deep_view(),
            tables: self.tables.deep_view(),
            actions: self.actions.deep_view(),
            diagnostics: self.diagnostics.deep_view(),
        }
    }
}

// ---------------------------------------------------------------------------------------------
// Content
// ---------------------------------------------------------------------------------------------

/// The first `n` characters of the trimmed text, with an ellipsis where it is longer.
pub open spec fn opening(s: Seq<char>, n: int) -> Seq<char> {
    let t = text::trimmed(s);
    if t.len() > n {
        text::trimmed_end(t.take(n)).push('…')
    } else {
        t
    }
}

fn first_chars(s: &str, n: usize) -> (r: String)
    ensures
        r@ == opening(s@, n as int),
{
    let chars = text::to_chars(s);
    let t = text::trim(chars.as_slice());
    if t.len() > n {
        let head = vstd::slice::slice_subrange(t, 0, n);
        assert(head@ =~= t@.take(n as int));
        let mut out = text::from_chars(text::trim_end(head));
        out.push('…');
        out
    } else {
        text::from_chars(t)
    }
}

/// What stands for the character in HTML text.
pub open spec fn escaped_char(c: char) -> Seq<char> {
    if c == '&' {
        "&amp;"@
    } else if c == '<' {
        "&lt;"@
    } else if c == '>' {
        "&gt;"@
    } else {
        seq![c]
    }
}

/// The text as HTML text.
pub open spec fn escaped(s: Seq<char>) -> Seq<char>
    decreases s.len(),
{
    if s.len() == 0 {
        seq![]
    } else {
        escaped(s.drop_last()) + escaped_char(s.last())
    }
}

fn escape_text(s: &str) -> (r: String)
    ensures
        r@ == escaped(s@),
{
    let chars = text::to_chars(s);
    let mut out = String::new();
    assert(out@ =~= escaped(s@.take(0)));
    for i in 0..chars.len()
        invariant
            chars@ == s@,
            out@ == escaped(s@.take(i as int)),
    {
        assert(s@.take(i + 1).drop_last() =~= s@.take(i as int));
        let c = chars[i];
        if c == '&' {
            out.push_str("&amp;");
        } else if c == '<' {
            out.push_str("&lt;");
        } else if c == '>' {
            out.push_str("&gt;");
        } else {
            let ghost before = out@;
            out.push(c);
            assert(out@ =~= before + seq![c]);
        }
    }
    assert(s@.take(s@.len() as int) =~= s@);
    out
}

/// The summary of a page: its excerpt, or the opening of its text where that is blank.
pub open spec fn summary_of(e: ExtractedModel) -> Seq<char> {
    match e.excerpt {
        Some(x) => if text::trimmed(x).len() > 0 {
            x
        } else {
            opening(e.text, 400)
        },
        None => opening(e.text, 400),
    }
}

/// The content that consists of the title and a summary.
pub open spec fn metadata_content(e: ExtractedModel) -> ExtractedModel {
    ExtractedModel {
        content_html: "<p>"@ + escaped(summary_of(e)) + "</p>"@,
        text: summary_of(e),
        ..e
    }
}

/// Reduces content to its title and a summary.
pub fn summarize(e: Extracted) -> (r: Extracted)
    ensures
        r.deep_view() == metadata_content(e.deep_view()),
{
    let blank = match &e.excerpt {
        Some(x) => text::is_blank(x.as_str()),
        None => true,
    };
    let summary = if blank {
        first_chars(e.text.as_str(), 400)
    } else {
        match &e.excerpt {
            Some(x) => x.clone(),
            None => String::new(),
        }
    };
    let mut html = "<p>".to_string();
    html.push_str(escape_text(summary.as_str()).as_str());
    html.push_str("</p>");
    Extracted {
        title: e.title,
        byline: e.byline,
        excerpt: e.excerpt,
        content_html: html,
        text: summary,
    }
}

/// The parts, each followed by a line feed.
pub open spec fn lines_joined(parts: Seq<Seq<char>>) -> Seq<char>
    decreases parts.len(),
{
    if parts.len() == 0 {
        seq![]
    } else {
        lines_joined(parts.drop_last()) + parts.last() + seq!['\n']
    }
}

/// What the elements found for a selector make, or the error where they make nothing.
pub open spec fn selection_of(
    found: Result<Seq<Seq<char>>, Seq<char>>,
    selector: Seq<char>,
) -> Result<Seq<char>, ErrorModel> {
    match found {
        Ok(parts) => if text::trimmed(lines_joined(parts)).len() == 0 {
            Err(ErrorModel::NoMatch { selector })
        } else {
            Ok(lines_joined(parts))
        },
        Err(cause) => Err(ErrorModel::BadSelector { selector, cause }),
    }
}

/// Joins the HTML of the elements found for a selector.
pub fn join_selection(found: Result<Vec<String>, String>, selector: &str) -> (r: Result<
    String,
    Error,
>)
    ensures
        error::outcome(r) == selection_of(
            match found {
                Ok(parts) => Ok(parts.deep_view()),
                Err(cause) => Err(cause@),
            },
            selector@,
        ),
{
    match found {
        Ok(parts) => {
            let ghost all = parts.deep_view();
            let mut out = String::new();
            assert(out@ =~= lines_joined(all.take(0)));
            for i in 0..parts.len()
                invariant
                    all == parts.deep_view(),
                    out@ == lines_joined(all.take(i as int)),
            {
                assert(all.take(i + 1).drop_last() =~= all.take(i as int));
                assert(all.take(i + 1).last() == parts@[i as int]@);
                let ghost before = out@;
                out.push_str(parts[i].as_str());
                out.push('\n');
                assert(out@ =~= before + parts@[i as int]@ + seq!['\n']);
            }
            assert(all.take(all.len() as int) =~= all);
            if text::is_blank(out.as_str()) {
                Err(Error::NoMatch { selector: selector.to_string() })
            } else {
                Ok(out)
            }
        },
        Err(cause) => Err(Error::BadSelector { selector: selector.to_string(), cause }),
    }
}

/// The HTML of the elements of a page that match a selector.
pub open spec fn selected_html(html: Seq<char>, selector: Seq<char>) -> Result<
    Seq<char>,
    ErrorModel,
> {
    if !error::parseable(html) {
        Err(ErrorModel::DocumentTooLarge)
    } else if !dom::manageable(selector) {
        Err(ErrorModel::SelectorTooComplex { selector })
    } else if !dom::shallow(html) {
        Err(ErrorModel::TooDeep)
    } else {
        selection_of(dom::outer_html(html, selector), selector)
    }
}

/// Extracts the HTML of every element that matches a selector.
pub fn select_html(html: &str, selector: &str) -> (r: Result<String, Error>)
    ensures
        error::outcome(r) == selected_html(html@, selector@),
{
    if !document_fits(html) {
        return Err(Error::DocumentTooLarge);
    }
    if !dom::is_manageable(selector) {
        return Err(Error::SelectorTooComplex { selector: selector.to_string() });
    }
    if !dom::is_shallow(html) {
        return Err(Error::TooDeep);
    }
    join_selection(dom::select_outer(html, selector), selector)
}

/// The content of a page: the elements that the selector matches, where there is one, and
/// otherwise what the profile selects.
pub open spec fn content_of(
    html: Seq<char>,
    final_url: Seq<char>,
    selector: Option<Seq<char>>,
    profile: Profile,
) -> Result<ExtractedModel, ErrorModel> {
    match selector {
        Some(sel) => match selected_html(html, sel) {
            Ok(content_html) => Ok(
                ExtractedModel {
                    title: seq![],
                    byline: None,
                    excerpt: None,
                    content_html,
                    text: seq![],
                },
            ),
            Err(e) => Err(e),
        },
        None => match profile {
            Profile::Article => extract::article_of(html, final_url),
            Profile::Full => extract::whole_body_of(html),
            Profile::Metadata => match extract::article_of(html, final_url) {
                Ok(e) => Ok(metadata_content(e)),
                Err(e) => Err(e),
            },
        },
    }
}

/// Selects the content of a page.
pub fn extract_content(fetched: &FetchResult, opts: &DistillOptions) -> (r: Result<
    Extracted,
    Error,
>)
    ensures
        error::outcome(r) == content_of(
            fetched.html@,
            fetched.final_url@,
            opts.selector.deep_view(),
            opts.profile,
        ),
{
    if let Some(sel) = &opts.selector {
        return match select_html(fetched.html.as_str(), sel.as_str()) {
            Ok(content_html) => Ok(
                Extracted {
                    title: String::new(),
                    byline: None,
                    excerpt: None,
                    content_html,
                    text: String::new(),
                },
            ),
            Err(e) => Err(e),
        };
    }
    match opts.profile {
        Profile::Article => extract::extract(fetched.html.as_str(), fetched.final_url.as_str()),
        Profile::Full => extract::extract_whole_body(fetched.html.as_str()),
        Profile::Metadata => match extract::extract(
            fetched.html.as_str(),
            fetched.final_url.as_str(),
        ) {
            Ok(e) => Ok(summarize(e)),
            Err(e) => Err(e),
        },
    }
}

// ---------------------------------------------------------------------------------------------
// Assembly
// ---------------------------------------------------------------------------------------------

/// What was made of the content of a page.
#[derive(Debug)]
pub struct Found {
    /// The Markdown, within its budget.
    pub markdown: String,
    /// The plain text, within its budget.
    pub text: String,
    /// Something was cut to fit the budget.
    pub truncated: bool,
    pub links: Option<Vec<Link>>,
    pub tables: Option<Vec<Table>>,
    pub actions: Option<ActionTree>,
    /// The tokens of the raw HTML and of the Markdown, where they were asked for.
    pub tokens: Option<TokenStats>,
    /// The tokens of the Markdown, where diagnostics were asked for.
    pub output_tokens: Option<usize>,
}

/// What was made of the content of a page, as a mathematical value.
#[verifier::ext_equal]
pub struct FoundModel {
    pub markdown: Seq<char>,
    pub text: Seq<char>,
    pub truncated: bool,
    pub links: Option<Seq<LinkModel>>,
    pub tables: Option<Seq<TableModel>>,
    pub actions: Option<TreeModel>,
    pub tokens: Option<TokenStats>,
    pub output_tokens: Option<usize>,
}

impl DeepView for Found {
    type V = FoundModel;

    open spec fn deep_view(&self) -> FoundModel {
        FoundModel {
            markdown: self.markdown@,
            text: self.text@,
            truncated: self.truncated,
            links: self.links.deep_view(),
            tables: self.tables.deep_view(),
            actions: self.actions.deep_view(),
            tokens: self.tokens,
            output_tokens: self.output_tokens,
        }
    }
}

/// The text within its budget.
pub open spec fn cut(s: Seq<char>, max: Option<usize>) -> Seq<char> {
    match max {
        Some(m) => budget::fitted(s, m),
        None => s,
    }
}

/// Something of the text is cut to fit the budget.
pub open spec fn is_cut(s: Seq<char>, max: Option<usize>) -> bool {
    match max {
        Some(m) => !budget::untouched(s, m),
        None => false,
    }
}

/// The text costs no more than its budget. A budget of 0 is none.
pub open spec fn within_budget(s: Seq<char>, max: Option<usize>) -> bool {
    match max {
        Some(m) => m > 0 ==> tokens::costs_at_most(s, m),
        None => true,
    }
}

fn fit_output(s: String, max: Option<usize>) -> (r: (String, bool))
    ensures
        r.0@ == cut(s@, max),
        r.1 == is_cut(s@, max),
        within_budget(r.0@, max),
{
    match max {
        Some(m) => budget::fit(s.as_str(), m),
        None => (s, false),
    }
}

/// The name of the profile in diagnostics.
pub open spec fn profile_name(selector: Option<Seq<char>>, profile: Profile) -> Seq<char> {
    if selector is Some {
        "selector"@
    } else {
        profile.name()
    }
}

/// The statistics for a count of tokens.
pub open spec fn stats_of(raw_bytes: usize, t: TokenStats) -> Stats {
    Stats {
        raw_bytes,
        raw_tokens: t.raw_tokens,
        output_tokens: t.output_tokens,
        saved_tokens: t.saved_spec(),
    }
}

/// The diagnostics of a page.
pub open spec fn diagnostics_of(
    fetched: FetchModel,
    found: FoundModel,
    output_tokens: usize,
    used_headless: bool,
    selector: Option<Seq<char>>,
    profile: Profile,
) -> DiagnosticsModel {
    DiagnosticsModel {
        profile: profile_name(selector, profile),
        raw_bytes: fetched.raw_bytes,
        output_chars: found.markdown.len() as usize,
        output_tokens,
        link_count: match found.links {
            Some(l) => l.len() as usize,
            None => 0,
        },
        table_count: match found.tables {
            Some(t) => t.len() as usize,
            None => 0,
        },
        action_count: planner::action_total(found.actions),
        used_headless,
        truncated: found.truncated,
        low_content: text::trimmed(found.markdown).len() < 200,
    }
}

/// The distilled page for what was made of its content.
pub open spec fn built(
    fetched: FetchModel,
    content: ExtractedModel,
    found: FoundModel,
    used_headless: bool,
    selector: Option<Seq<char>>,
    profile: Profile,
) -> DistilledModel {
    DistilledModel {
        final_url: fetched.final_url,
        status: fetched.status,
        title: content.title,
        byline: content.byline,
        excerpt: content.excerpt,
        markdown: found.markdown,
        text: found.text,
        stats: match found.tokens {
            Some(t) => Some(stats_of(fetched.raw_bytes, t)),
            None => None,
        },
        links: found.links,
        tables: found.tables,
        actions: found.actions,
        diagnostics: match found.output_tokens {
            Some(n) => Some(
                diagnostics_of(fetched, found, n, used_headless, selector, profile),
            ),
            None => None,
        },
    }
}

/// Puts a distilled page together from what was made of its content.
pub fn build(
    fetched: FetchResult,
    content: Extracted,
    found: Found,
    used_headless: bool,
    opts: &DistillOptions,
) -> (r: Distilled)
    ensures
        r.deep_view() == built(
            fetched.deep_view(),
            content.deep_view(),
            found.deep_view(),
            used_headless,
            opts.selector.deep_view(),
            opts.profile,
        ),
{
    let stats = match found.tokens {
        Some(t) => Some(
            Stats {
                raw_bytes: fetched.raw_bytes,
                raw_tokens: t.raw_tokens,
                output_tokens: t.output_tokens,
                saved_tokens: t.saved(),
            },
        ),
        None => None,
    };
    let diagnostics = match found.output_tokens {
        Some(output_tokens) => {
            let markdown = text::to_chars(found.markdown.as_str());
            let profile = if opts.selector.is_some() {
                "selector"
            } else {
                opts.profile.label()
            };
            Some(
                Diagnostics {
                    profile,
                    raw_bytes: fetched.raw_bytes,
                    output_chars: markdown.len(),
                    output_tokens,
                    link_count: match &found.links {
                        Some(l) => l.len(),
                        None => 0,
                    },
                    table_count: match &found.tables {
                        Some(t) => t.len(),
                        None => 0,
                    },
                    action_count: planner::count_actions(&found.actions),
                    used_headless,
                    truncated: found.truncated,
                    low_content: text::trim(markdown.as_slice()).len() < 200,
                },
            )
        },
        None => None,
    };
    Distilled {
        final_url: fetched.final_url,
        status: fetched.status,
        title: content.title,
        byline: content.byline,
        excerpt: content.excerpt,
        markdown: found.markdown,
        text: found.text,
        stats,
        links: found.links,
        tables: found.tables,
        actions: found.actions,
        diagnostics,
    }
}

/// The limits on actions: as asked for, or the usual ones.
pub open spec fn limits_of(max_actions: Option<usize>) -> ActionLimits {
    match max_actions {
        Some(n) => actions::uniform_limits(n),
        None => ActionLimits {
            max_links: 100,
            max_forms: 25,
            max_buttons: 50,
            max_downloads: 50,
            max_fields_per_form: 50,
            max_options_per_field: 50,
        },
    }
}

/// What is made of the content of a page, given its Markdown before the budget. Links and tables
/// come from the content, or links from the whole page where that was asked for; actions always
/// come from the whole page.
pub open spec fn found_in(
    fetched: FetchModel,
    content: ExtractedModel,
    markdown: Seq<char>,
    opts: DistillOptions,
) -> FoundModel {
    let md = cut(markdown, opts.max_output_tokens);
    FoundModel {
        markdown: md,
        text: if content.text.len() == 0 {
            md
        } else {
            cut(content.text, opts.max_output_tokens)
        },
        truncated: is_cut(markdown, opts.max_output_tokens) || content.text.len() > 0 && is_cut(
            content.text,
            opts.max_output_tokens,
        ),
        links: if opts.extract_links {
            Some(
                structured::page_links(
                    if opts.links_full {
                        fetched.html
                    } else {
                        content.content_html
                    },
                    fetched.final_url,
                ),
            )
        } else {
            None
        },
        tables: if opts.extract_tables {
            Some(structured::page_tables(content.content_html))
        } else {
            None
        },
        actions: if opts.extract_actions {
            Some(actions::tree_of(fetched.html, fetched.final_url, limits_of(opts.max_actions)))
        } else {
            None
        },
        tokens: if opts.measure_tokens {
            Some(
                TokenStats {
                    raw_tokens: tokens::token_count(fetched.html)->0,
                    output_tokens: tokens::token_count(md)->0,
                },
            )
        } else {
            None
        },
        output_tokens: if opts.diagnostics {
            Some(tokens::token_count(md)->0)
        } else {
            None
        },
    }
}

/// The page itself, and not only its content, has to be parsed.
pub open spec fn needs_whole_page(opts: DistillOptions) -> bool {
    opts.extract_links && opts.links_full || opts.extract_actions
}

/// The tokens that were asked for cannot be counted.
pub open spec fn uncountable(html: Seq<char>, markdown: Seq<char>, opts: DistillOptions) -> bool {
    ||| opts.measure_tokens && tokens::token_count(html) is None
    ||| (opts.measure_tokens || opts.diagnostics) && tokens::token_count(markdown) is None
}

/// What distilling a page gives, given its content.
pub open spec fn assembled(
    fetched: FetchModel,
    content: ExtractedModel,
    used_headless: bool,
    opts: DistillOptions,
) -> Result<DistilledModel, ErrorModel> {
    match convert::converted(content.content_html) {
        Err(e) => Err(e),
        Ok(markdown) => if needs_whole_page(opts) && !error::parseable(fetched.html) {
            Err(ErrorModel::DocumentTooLarge)
        } else if uncountable(fetched.html, cut(markdown, opts.max_output_tokens), opts) {
            Err(ErrorModel::Tokenizer)
        } else {
            Ok(
                built(
                    fetched,
                    content,
                    found_in(fetched, content, markdown, opts),
                    used_headless,
                    opts.selector.deep_view(),
                    opts.profile,
                ),
            )
        },
    }
}

/// Turns the content of a page into its distilled form: converts it to Markdown, applies the token
/// budget, extracts data, and computes statistics and diagnostics.
pub fn assemble(
    fetched: FetchResult,
    content: Extracted,
    used_headless: bool,
    opts: &DistillOptions,
) -> (r: Result<Distilled, Error>)
    ensures
        error::outcome(r) == assembled(
            fetched.deep_view(),
            content.deep_view(),
            used_headless,
            *opts,
        ),
        r matches Ok(d) ==> within_budget(d.markdown@, opts.max_output_tokens) && within_budget(
            d.text@,
            opts.max_output_tokens,
        ),
{
    let converted = match convert::to_markdown(content.content_html.as_str()) {
        Ok(md) => md,
        Err(e) => return Err(e),
    };
    let ghost raw_markdown = converted@;
    let (markdown, markdown_cut) = fit_output(converted, opts.max_output_tokens);
    let whole = opts.extract_links && opts.links_full || opts.extract_actions;
    if whole && !document_fits(fetched.html.as_str()) {
        return Err(Error::DocumentTooLarge);
    }
    let links = if opts.extract_links {
        if opts.links_full {
            Some(structured::extract_links(fetched.html.as_str(), fetched.final_url.as_str()))
        } else {
            Some(
                structured::extract_links(
                    content.content_html.as_str(),
                    fetched.final_url.as_str(),
                ),
            )
        }
    } else {
        None
    };
    let tables = if opts.extract_tables {
        Some(structured::extract_tables(content.content_html.as_str()))
    } else {
        None
    };
    let actions = if opts.extract_actions {
        let limits = match opts.max_actions {
            Some(n) => ActionLimits::uniform(n),
            None => ActionLimits::default(),
        };
        Some(actions::extract_actions(fetched.html.as_str(), fetched.final_url.as_str(), limits))
    } else {
        None
    };
    let (shown, shown_cut) = if content.text.as_str().is_empty() {
        (markdown.clone(), false)
    } else {
        fit_output(content.text.clone(), opts.max_output_tokens)
    };
    let counted = if opts.measure_tokens {
        match TokenStats::try_measure(fetched.html.as_str(), markdown.as_str()) {
            Some(t) => Some(t),
            None => return Err(Error::Tokenizer),
        }
    } else {
        None
    };
    let output_tokens = if opts.diagnostics {
        match tokens::try_count(markdown.as_str()) {
            Some(n) => Some(n),
            None => return Err(Error::Tokenizer),
        }
    } else {
        None
    };
    let found = Found {
        markdown,
        text: shown,
        truncated: markdown_cut || shown_cut,
        links,
        tables,
        actions,
        tokens: counted,
        output_tokens,
    };
    assert(found.deep_view() =~= found_in(
        fetched.deep_view(),
        content.deep_view(),
        raw_markdown,
        *opts,
    ));
    Ok(build(fetched, content, found, used_headless, opts))
}

/// The page that a document at hand stands for.
pub open spec fn page_at_hand(html: Seq<char>, base_url: Seq<char>) -> FetchModel {
    FetchModel {
        final_url: base_url,
        status: 200,
        content_type: Some("text/html"@),
        html,
        raw_bytes: text::byte_len(html) as usize,
    }
}

/// What distilling a document at hand gives.
pub open spec fn distilled_html(
    html: Seq<char>,
    base_url: Seq<char>,
    opts: DistillOptions,
) -> Result<DistilledModel, ErrorModel> {
    match content_of(html, base_url, opts.selector.deep_view(), opts.profile) {
        Ok(content) => assembled(page_at_hand(html, base_url), content, false, opts),
        Err(e) => Err(e),
    }
}

/// Distills a document at hand: nothing is fetched, rendered or cached. References are resolved
/// against `base_url`.
pub fn distill_html(html: &str, base_url: &str, opts: &DistillOptions) -> (r: Result<
    Distilled,
    Error,
>)
    ensures
        error::outcome(r) == distilled_html(html@, base_url@, *opts),
        r matches Ok(d) ==> d.status == 200 && within_budget(d.markdown@, opts.max_output_tokens)
            && within_budget(d.text@, opts.max_output_tokens),
{
    let fetched = FetchResult {
        final_url: base_url.to_string(),
        status: 200,
        content_type: Some("text/html".to_string()),
        raw_bytes: text::bytes(html),
        html: html.to_string(),
    };
    assert(fetched.deep_view() =~= page_at_hand(html@, base_url@));
    match extract_content(&fetched, opts) {
        Ok(content) => assemble(fetched, content, false, opts),
        Err(e) => Err(e),
    }
}

// ---------------------------------------------------------------------------------------------
// The whole run
// ---------------------------------------------------------------------------------------------

impl JsMode {
    /// The label of the mode.
    pub open spec fn name(self) -> Seq<char> {
        match self {
            JsMode::Off => "off"@,
            JsMode::Auto => "auto"@,
            JsMode::Always => "always"@,
        }
    }

    /// The label of the mode, in small letters.
    pub fn label(self) -> (r: &'static str)
        ensures
            r@ == self.name(),
    {
        match self {
            JsMode::Off => "off",
            JsMode::Auto => "auto",
            JsMode::Always => "always",
        }
    }
}

/// The page is to be rendered in a browser: always or never where the mode says so, and otherwise
/// where the options wait for a selector, or the page shows little text and looks like an app.
pub open spec fn needs_js(html: Seq<char>, shown: Seq<char>, opts: DistillOptions) -> bool {
    match opts.js_mode {
        JsMode::Off => false,
        JsMode::Always => true,
        JsMode::Auto => opts.js_wait_for is Some || opts.selector is None && render::visible(
            shown,
        ) < render::JS_TEXT_THRESHOLD && render::js_app(html),
    }
}

/// Decides whether a page is to be rendered in a browser.
pub fn wants_rendering(html: &str, shown: &str, opts: &DistillOptions) -> (r: bool)
    ensures
        r == needs_js(html@, shown@, *opts),
{
    match opts.js_mode {
        JsMode::Off => false,
        JsMode::Always => true,
        JsMode::Auto => opts.js_wait_for.is_some() || (opts.selector.is_none()
            && render::visible_below(shown, render::JS_TEXT_THRESHOLD)
            && render::looks_like_js_app(html)),
    }
}

/// How long rendering may take.
pub open spec fn render_budget(opts: DistillOptions) -> Span {
    match opts.js_wait {
        Some(ms) => Span::millis(ms as int),
        None => opts.timeout,
    }
}

/// How long rendering may take.
pub fn rendering_budget(opts: &DistillOptions) -> (r: Span)
    ensures
        r == render_budget(*opts),
{
    match opts.js_wait {
        Some(ms) => Span::from_millis(ms),
        None => opts.timeout,
    }
}

/// How a page is to be rendered.
#[derive(Debug)]
pub struct RenderPlan {
    pub url: String,
    /// The selector to wait for.
    pub wait_for: Option<String>,
    /// How long to wait.
    pub budget: Span,
    /// The identity of the rendering in the cache.
    pub identity: String,
}

/// How a page is to be rendered, as a mathematical value.
#[verifier::ext_equal]
pub struct RenderPlanModel {
    pub url: Seq<char>,
    pub wait_for: Option<Seq<char>>,
    pub budget: Span,
    pub identity: Seq<char>,
}

impl DeepView for RenderPlan {
    type V = RenderPlanModel;

    open spec fn deep_view(&self) -> RenderPlanModel {
        RenderPlanModel {
            url: self.url@,
            wait_for: self.wait_for.deep_view(),
            budget: self.budget,
            identity: self.identity@,
        }
    }
}

/// How the page at a URL is to be rendered.
pub open spec fn plan_of(final_url: Seq<char>, opts: DistillOptions) -> RenderPlanModel {
    RenderPlanModel {
        url: final_url,
        wait_for: opts.js_wait_for.deep_view(),
        budget: render_budget(opts),
        identity: cache::identity_of(
            final_url,
            opts.js_mode.name(),
            (render_budget(opts).nanos / 1_000_000) as nat,
            opts.js_wait_for.deep_view(),
        ),
    }
}

/// Plans how the page at a URL is to be rendered.
pub fn plan_render(final_url: &str, opts: &DistillOptions) -> (r: RenderPlan)
    ensures
        r.deep_view() == plan_of(final_url@, *opts),
{
    let budget = rendering_budget(opts);
    let identity = match &opts.js_wait_for {
        Some(sel) => cache::render_identity(
            final_url,
            opts.js_mode.label(),
            budget.as_millis(),
            Some(sel.as_str()),
        ),
        None => cache::render_identity(final_url, opts.js_mode.label(), budget.as_millis(), None),
    };
    RenderPlan {
        url: final_url.to_string(),
        wait_for: text::copy_opt(&opts.js_wait_for),
        budget,
        identity,
    }
}

/// What a run is waiting for.
#[derive(Debug)]
pub enum Stage {
    /// The cached fetch for the URL.
    Lookup { url: String },
    /// Word on whether robots.txt lets the URL be served.
    CachedRobots { entry: CachedFetch },
    /// Word on whether robots.txt lets the cached page be served.
    CachedRobotsFinal { entry: CachedFetch },
    /// The fetched page.
    Fetching { url: String },
    /// The cached rendering.
    RenderLookup { fetched: FetchResult, content: Extracted, plan: RenderPlan },
    /// The rendering.
    Rendering { fetched: FetchResult, content: Extracted, plan: RenderPlan },
}

/// What a run is waiting for, as a mathematical value.
pub enum StageModel {
    Lookup { url: Seq<char> },
    CachedRobots { entry: CachedFetchModel },
    CachedRobotsFinal { entry: CachedFetchModel },
    Fetching { url: Seq<char> },
    RenderLookup { fetched: FetchModel, content: ExtractedModel, plan: RenderPlanModel },
    Rendering { fetched: FetchModel, content: ExtractedModel, plan: RenderPlanModel },
}

impl DeepView for Stage {
    type V = StageModel;

    open spec fn deep_view(&self) -> StageModel {
        match self {
            Stage::Lookup { url } => StageModel::Lookup {
                url: url@,
            },
            Stage::CachedRobots { entry } => StageModel::CachedRobots {
                entry: entry.deep_view(),
            },
            Stage::CachedRobotsFinal { entry } => StageModel::CachedRobotsFinal {
                entry: entry.deep_view(),
            },
            Stage::Fetching { url } => StageModel::Fetching {
                url: url@,
            },
            Stage::RenderLookup { fetched, content, plan } => StageModel::RenderLookup {
                fetched: fetched.deep_view(),
                content: content.deep_view(),
                plan: plan.deep_view(),
            },
            Stage::Rendering { fetched, content, plan } => StageModel::Rendering {
                fetched: fetched.deep_view(),
                content: content.deep_view(),
                plan: plan.deep_view(),
            },
        }
    }
}

/// What a run asks for.
#[derive(Debug)]
pub enum Request {
    /// A fresh cached fetch.
    ReadCache { url: String },
    /// Whether robots.txt lets the URL be fetched.
    CheckRobots { url: String },
    /// The page.
    Fetch { url: String },
    /// A fresh cached rendering.
    ReadRender { identity: String },
    /// A rendering.
    Render { plan: RenderPlan },
}

/// What a run asks for, as a mathematical value.
pub enum RequestModel {
    ReadCache { url: Seq<char> },
    CheckRobots { url: Seq<char> },
    Fetch { url: Seq<char> },
    ReadRender { identity: Seq<char> },
    Render { plan: RenderPlanModel },
}

impl DeepView for Request {
    type V = RequestModel;

    open spec fn deep_view(&self) -> RequestModel {
        match self {
            Request::ReadCache { url } => RequestModel::ReadCache {
                url: url@,
            },
            Request::CheckRobots { url } => RequestModel::CheckRobots {
                url: url@,
            },
            Request::Fetch { url } => RequestModel::Fetch {
                url: url@,
            },
            Request::ReadRender { identity } => RequestModel::ReadRender {
                identity: identity@,
            },
            Request::Render { plan } => RequestModel::Render {
                plan: plan.deep_view(),
            },
        }
    }
}

/// What came back for a request.
#[derive(Debug)]
pub enum Reply {
    Cached { entry: Option<CachedFetch> },
    Robots { refusal: Option<Error> },
    Fetched { result: Result<FetchResult, Error> },
    CachedRender { rendered: Option<CachedRender> },
    /// The rendered document; nothing where rendering failed.
    Rendered { html: Option<String> },
}

/// What came back for a request, as a mathematical value.
pub enum ReplyModel {
    Cached { entry: Option<CachedFetchModel> },
    Robots { refusal: Option<ErrorModel> },
    Fetched { result: Result<FetchModel, ErrorModel> },
    CachedRender { rendered: Option<CachedRenderModel> },
    Rendered { html: Option<Seq<char>> },
}

impl DeepView for Reply {
    type V = ReplyModel;

    open spec fn deep_view(&self) -> ReplyModel {
        match self {
            Reply::Cached { entry } => ReplyModel::Cached {
                entry: entry.deep_view(),
            },
            Reply::Robots { refusal } => ReplyModel::Robots {
                refusal: refusal.deep_view(),
            },
            Reply::Fetched { result } => ReplyModel::Fetched {
                result: error::outcome(*result),
            },
            Reply::CachedRender { rendered } => ReplyModel::CachedRender {
                rendered: rendered.deep_view(),
            },
            Reply::Rendered { html } => ReplyModel::Rendered {
                html: html.deep_view(),
            },
        }
    }
}

/// What a run wants written to the cache. Failing to write it is no failure of the run.
#[derive(Debug)]
pub enum Store {
    Fetch { url: String, entry: CachedFetch },
    Render { identity: String, rendered: CachedRender },
}

/// What a run wants written to the cache, as a mathematical value.
pub enum StoreModel {
    Fetch { url: Seq<char>, entry: CachedFetchModel },
    Render { identity: Seq<char>, rendered: CachedRenderModel },
}

impl DeepView for Store {
    type V = StoreModel;

    open spec fn deep_view(&self) -> StoreModel {
        match self {
            Store::Fetch { url, entry } => StoreModel::Fetch {
                url: url@,
                entry: entry.deep_view(),
            },
            Store::Render { identity, rendered } => StoreModel::Render {
                identity: identity@,
                rendered: rendered.deep_view(),
            },
        }
    }
}

/// How a run goes on.
#[derive(Debug)]
pub enum Next {
    /// It waits for the answer to a request.
    Ask { stage: Stage, request: Request },
    /// It is over.
    Done { result: Result<Distilled, Error> },
}

/// How a run goes on, as a mathematical value.
pub enum NextModel {
    Ask { stage: StageModel, request: RequestModel },
    Done { result: Result<DistilledModel, ErrorModel> },
}

impl DeepView for Next {
    type V = NextModel;

    open spec fn deep_view(&self) -> NextModel {
        match self {
            Next::Ask { stage, request } => NextModel::Ask {
                stage: stage.deep_view(),
                request: request.deep_view(),
            },
            Next::Done { result } => NextModel::Done {
                result: error::outcome(*result),
            },
        }
    }
}

/// One step of a run.
#[derive(Debug)]
pub struct Step {
    /// What to write to the cache first.
    pub store: Option<Store>,
    pub next: Next,
}

/// One step of a run, as a mathematical value.
#[verifier::ext_equal]
pub struct StepModel {
    pub store: Option<StoreModel>,
    pub next: NextModel,
}

impl DeepView for Step {
    type V = StepModel;

    open spec fn deep_view(&self) -> StepModel {
        StepModel {
            store: self.store.deep_view(),
            next: self.next.deep_view(),
        }
    }
}

/// A run asks for something, with nothing to store.
pub open spec fn asks(stage: StageModel, request: RequestModel) -> StepModel {
    StepModel { store: None, next: NextModel::Ask { stage, request } }
}

/// A run fails.
pub open spec fn fails(e: ErrorModel) -> StepModel {
    StepModel { store: None, next: NextModel::Done { result: Err(e) } }
}

/// A run is over with what assembling gives.
pub open spec fn finishes(
    store: Option<StoreModel>,
    fetched: FetchModel,
    content: ExtractedModel,
    used_headless: bool,
    opts: DistillOptions,
) -> StepModel {
    StepModel {
        store,
        next: NextModel::Done { result: assembled(fetched, content, used_headless, opts) },
    }
}

/// How a run begins: the URL is checked, and then looked up in the cache or fetched.
pub open spec fn first_step(url: Seq<char>, opts: DistillOptions) -> StepModel {
    match fetch::checked(url, opts.allow_local) {
        Err(e) => fails(e),
        Ok(_) => if opts.use_cache {
            asks(StageModel::Lookup { url }, RequestModel::ReadCache { url })
        } else {
            asks(StageModel::Fetching { url }, RequestModel::Fetch { url })
        },
    }
}

/// How a run goes on with a page, fetched or from the cache.
pub open spec fn page_step(
    store: Option<StoreModel>,
    fetched: FetchModel,
    opts: DistillOptions,
) -> StepModel {
    match content_of(fetched.html, fetched.final_url, opts.selector.deep_view(), opts.profile) {
        Err(e) => StepModel { store, next: NextModel::Done { result: Err(e) } },
        Ok(content) => if needs_js(fetched.html, content.text, opts) {
            let plan = plan_of(fetched.final_url, opts);
            if opts.use_cache {
                StepModel {
                    store,
                    next: NextModel::Ask {
                        stage: StageModel::RenderLookup { fetched, content, plan },
                        request: RequestModel::ReadRender { identity: plan.identity },
                    },
                }
            } else {
                StepModel {
                    store,
                    next: NextModel::Ask {
                        stage: StageModel::Rendering { fetched, content, plan },
                        request: RequestModel::Render { plan },
                    },
                }
            }
        } else {
            finishes(store, fetched, content, false, opts)
        },
    }
}

/// The page with a rendered document in place of its own.
pub open spec fn with_document(
    fetched: FetchModel,
    final_url: Seq<char>,
    html: Seq<char>,
    raw_bytes: usize,
) -> FetchModel {
    FetchModel { final_url, html, raw_bytes, ..fetched }
}

/// How a run ends with a rendering from the cache.
pub open spec fn cached_render_step(
    fetched: FetchModel,
    entry: CachedRenderModel,
    opts: DistillOptions,
) -> StepModel {
    let page = with_document(fetched, entry.final_url, entry.html, entry.raw_bytes);
    match fetch::checked(entry.final_url, opts.allow_local) {
        Err(e) => fails(e),
        Ok(_) => match content_of(
            page.html,
            page.final_url,
            opts.selector.deep_view(),
            opts.profile,
        ) {
            Err(e) => fails(e),
            Ok(content) => finishes(None, page, content, true, opts),
        },
    }
}

/// How a run ends with a fresh rendering.
pub open spec fn rendered_step(
    fetched: FetchModel,
    plan: RenderPlanModel,
    html: Seq<char>,
    now: u64,
    opts: DistillOptions,
) -> StepModel {
    let page = with_document(fetched, fetched.final_url, html, text::byte_len(html) as usize);
    match content_of(page.html, page.final_url, opts.selector.deep_view(), opts.profile) {
        Err(e) => fails(e),
        Ok(content) => finishes(
            if opts.use_cache {
                Some(
                    StoreModel::Render {
                        identity: plan.identity,
                        rendered: CachedRenderModel {
                            fetched_at: now,
                            final_url: page.final_url,
                            html: page.html,
                            raw_bytes: page.raw_bytes,
                        },
                    },
                )
            } else {
                None
            },
            page,
            content,
            true,
            opts,
        ),
    }
}

/// How a run goes on with a reply.
pub open spec fn next_step(
    stage: StageModel,
    reply: ReplyModel,
    now: u64,
    opts: DistillOptions,
) -> StepModel {
    match (stage, reply) {
        (StageModel::Lookup { url }, ReplyModel::Cached { entry }) => match cache::kept(
            entry,
            now,
            opts.cache_ttl,
        ) {
            Some(entry) => match fetch::checked(entry.final_url, opts.allow_local) {
                Err(e) => fails(e),
                Ok(_) => asks(
                    StageModel::CachedRobots { entry },
                    RequestModel::CheckRobots { url },
                ),
            },
            None => asks(StageModel::Fetching { url }, RequestModel::Fetch { url }),
        },
        (StageModel::CachedRobots { entry }, ReplyModel::Robots { refusal }) => match refusal {
            Some(e) => fails(e),
            None => asks(
                StageModel::CachedRobotsFinal { entry },
                RequestModel::CheckRobots { url: entry.final_url },
            ),
        },
        (StageModel::CachedRobotsFinal { entry }, ReplyModel::Robots { refusal }) => match refusal {
            Some(e) => fails(e),
            None => page_step(None, cache::page_of(entry), opts),
        },
        (StageModel::Fetching { url }, ReplyModel::Fetched { result }) => match result {
            Err(e) => fails(e),
            Ok(fetched) => page_step(
                if opts.use_cache {
                    Some(StoreModel::Fetch { url, entry: cache::entry_of(fetched, now) })
                } else {
                    None
                },
                fetched,
                opts,
            ),
        },
        (
            StageModel::RenderLookup { fetched, content, plan },
            ReplyModel::CachedRender { rendered },
        ) => match cache::kept_render(rendered, now, opts.cache_ttl) {
            Some(entry) => cached_render_step(fetched, entry, opts),
            None => asks(
                StageModel::Rendering { fetched, content, plan },
                RequestModel::Render { plan },
            ),
        },
        (StageModel::Rendering { fetched, content, plan }, ReplyModel::Rendered { html }) => match html {
            Some(html) => rendered_step(fetched, plan, html, now, opts),
            None => finishes(None, fetched, content, false, opts),
        },
        _ => fails(ErrorModel::OutOfTurn),
    }
}

impl Step {
    fn ask(stage: Stage, request: Request) -> (r: Step)
        ensures
            r.deep_view() == asks(stage.deep_view(), request.deep_view()),
    {
        Step { store: None, next: Next::Ask { stage, request } }
    }

    fn fail(e: Error) -> (r: Step)
        ensures
            r.deep_view() == fails(e.deep_view()),
    {
        Step { store: None, next: Next::Done { result: Err(e) } }
    }

    fn finish(
        store: Option<Store>,
        fetched: FetchResult,
        content: Extracted,
        used_headless: bool,
        opts: &DistillOptions,
    ) -> (r: Step)
        ensures
            r.deep_view() == finishes(
                store.deep_view(),
                fetched.deep_view(),
                content.deep_view(),
                used_headless,
                *opts,
            ),
    {
        Step {
            store,
            next: Next::Done { result: assemble(fetched, content, used_headless, opts) },
        }
    }
}

/// Begins a run for a URL.
pub fn begin(url: &str, opts: &DistillOptions) -> (r: Step)
    ensures
        r.deep_view() == first_step(url@, *opts),
{
    match fetch::validate_cached_url(url, opts.allow_local) {
        Err(e) => Step::fail(e),
        Ok(_) => if opts.use_cache {
            Step::ask(
                Stage::Lookup { url: url.to_string() },
                Request::ReadCache { url: url.to_string() },
            )
        } else {
            Step::ask(
                Stage::Fetching { url: url.to_string() },
                Request::Fetch { url: url.to_string() },
            )
        },
    }
}

fn copy_plan(plan: &RenderPlan) -> (r: RenderPlan)
    ensures
        r.deep_view() == plan.deep_view(),
{
    RenderPlan {
        url: plan.url.clone(),
        wait_for: text::copy_opt(&plan.wait_for),
        budget: plan.budget,
        identity: plan.identity.clone(),
    }
}

fn with_page(store: Option<Store>, fetched: FetchResult, opts: &DistillOptions) -> (r: Step)
    ensures
        r.deep_view() == page_step(store.deep_view(), fetched.deep_view(), *opts),
{
    match extract_content(&fetched, opts) {
        Err(e) => Step { store, next: Next::Done { result: Err(e) } },
        Ok(content) => {
            if wants_rendering(fetched.html.as_str(), content.text.as_str(), opts) {
                let plan = plan_render(fetched.final_url.as_str(), opts);
                if opts.use_cache {
                    let identity = plan.identity.clone();
                    Step {
                        store,
                        next: Next::Ask {
                            stage: Stage::RenderLookup { fetched, content, plan },
                            request: Request::ReadRender { identity },
                        },
                    }
                } else {
                    let copy = copy_plan(&plan);
                    Step {
                        store,
                        next: Next::Ask {
                            stage: Stage::Rendering { fetched, content, plan },
                            request: Request::Render { plan: copy },
                        },
                    }
                }
            } else {
                Step::finish(store, fetched, content, false, opts)
            }
        },
    }
}

fn with_cached_render(fetched: FetchResult, entry: CachedRender, opts: &DistillOptions) -> (r: Step)
    ensures
        r.deep_view() == cached_render_step(fetched.deep_view(), entry.deep_view(), *opts),
{
    match fetch::validate_cached_url(entry.final_url.as_str(), opts.allow_local) {
        Err(e) => Step::fail(e),
        Ok(_) => {
            let page = FetchResult {
                final_url: entry.final_url,
                status: fetched.status,
                content_type: fetched.content_type,
                html: entry.html,
                raw_bytes: entry.raw_bytes,
            };
            match extract_content(&page, opts) {
                Err(e) => Step::fail(e),
                Ok(content) => Step::finish(None, page, content, true, opts),
            }
        },
    }
}

fn with_rendering(
    fetched: FetchResult,
    plan: RenderPlan,
    html: String,
    now: u64,
    opts: &DistillOptions,
) -> (r: Step)
    ensures
        r.deep_view() == rendered_step(fetched.deep_view(), plan.deep_view(), html@, now, *opts),
{
    let page = FetchResult {
        final_url: fetched.final_url,
        status: fetched.status,
        content_type: fetched.content_type,
        raw_bytes: text::bytes(html.as_str()),
        html,
    };
    match extract_content(&page, opts) {
        Err(e) => Step::fail(e),
        Ok(content) => {
            let store = if opts.use_cache {
                Some(
                    Store::Render {
                        identity: plan.identity,
                        rendered: CachedRender {
                            fetched_at: now,
                            final_url: page.final_url.clone(),
                            html: page.html.clone(),
                            raw_bytes: page.raw_bytes,
                        },
                    },
                )
            } else {
                None
            };
            Step::finish(store, page, content, true, opts)
        },
    }
}

/// Goes on with a run when the reply to its request is there, at the time `now`.
pub fn advance(stage: Stage, reply: Reply, now: u64, opts: &DistillOptions) -> (r: Step)
    ensures
        r.deep_view() == next_step(stage.deep_view(), reply.deep_view(), now, *opts),
{
    match (stage, reply) {
        (Stage::Lookup { url }, Reply::Cached { entry }) => match cache::keep_fresh(
            entry,
            now,
            opts.cache_ttl,
        ) {
            Some(entry) => match fetch::validate_cached_url(
                entry.final_url.as_str(),
                opts.allow_local,
            ) {
                Err(e) => Step::fail(e),
                Ok(_) => Step::ask(Stage::CachedRobots { entry }, Request::CheckRobots { url }),
            },
            None => {
                let copy = url.clone();
                Step::ask(Stage::Fetching { url }, Request::Fetch { url: copy })
            },
        },
        (Stage::CachedRobots { entry }, Reply::Robots { refusal }) => match refusal {
            Some(e) => Step::fail(e),
            None => {
                let url = entry.final_url.clone();
                Step::ask(Stage::CachedRobotsFinal { entry }, Request::CheckRobots { url })
            },
        },
        (Stage::CachedRobotsFinal { entry }, Reply::Robots { refusal }) => match refusal {
            Some(e) => Step::fail(e),
            None => with_page(None, cache::take_page(entry), opts),
        },
        (Stage::Fetching { url }, Reply::Fetched { result }) => match result {
            Err(e) => Step::fail(e),
            Ok(fetched) => {
                let store = if opts.use_cache {
                    Some(Store::Fetch { url, entry: cache::make_entry(&fetched, now) })
                } else {
                    None
                };
                with_page(store, fetched, opts)
            },
        },
        (Stage::RenderLookup { fetched, content, plan }, Reply::CachedRender { rendered }) => match cache::keep_fresh_render(
            rendered,
            now,
            opts.cache_ttl,
        ) {
            Some(entry) => with_cached_render(fetched, entry, opts),
            None => {
                let copy = copy_plan(&plan);
                Step::ask(
                    Stage::Rendering { fetched, content, plan },
                    Request::Render { plan: copy },
                )
            },
        },
        (Stage::Rendering { fetched, content, plan }, Reply::Rendered { html }) => match html {
            Some(html) => with_rendering(fetched, plan, html, now, opts),
            None => Step::finish(None, fetched, content, false, opts),
        },
        _ => Step::fail(Error::OutOfTurn),
    }
}

/// The options for fetching that the options of a distillation mean.
pub fn fetch_options(opts: &DistillOptions) -> (r: FetchOptions)
    ensures
        r.user_agent@ == (match opts.user_agent {
            Some(ua) => ua@,
            None => fetch::DEFAULT_UA@,
        }),
        r.timeout == opts.timeout,
        r.max_bytes == opts.max_bytes,
        r.max_redirects == 8,
        r.allow_local == opts.allow_local,
        r.max_retries == opts.max_retries,
        r.per_host_concurrency == opts.per_host_concurrency,
        r.min_request_interval == opts.min_request_interval,
        r.respect_robots == opts.respect_robots,
{
    let user_agent = match &opts.user_agent {
        Some(ua) => ua.clone(),
        None => fetch::DEFAULT_UA.to_string(),
    };
    FetchOptions {
        user_agent,
        timeout: opts.timeout,
        max_bytes: opts.max_bytes,
        max_redirects: 8,
        allow_local: opts.allow_local,
        max_retries: opts.max_retries,
        per_host_concurrency: opts.per_host_concurrency,
        min_request_interval: opts.min_request_interval,
        respect_robots: opts.respect_robots,
    }
}

// ---------------------------------------------------------------------------------------------
// Laws
// ---------------------------------------------------------------------------------------------

/// No page is served, fetched or looked up for a URL that must not be fetched.
pub proof fn law_refused_urls_go_nowhere(url: Seq<char>, opts: DistillOptions)
    requires
        fetch::checked(url, opts.allow_local) is Err,
    ensures
        first_step(url, opts) == fails(fetch::checked(url, opts.allow_local)->Err_0),
{
}

/// A stale entry of the cache is never served: the page is fetched or rendered anew.
pub proof fn law_stale_entries_are_not_served(
    url: Seq<char>,
    entry: CachedFetchModel,
    fetched: FetchModel,
    content: ExtractedModel,
    plan: RenderPlanModel,
    rendered: CachedRenderModel,
    now: u64,
    opts: DistillOptions,
)
    ensures
        !cache::fresh(now, entry.fetched_at, opts.cache_ttl) ==> next_step(
            StageModel::Lookup { url },
            ReplyModel::Cached { entry: Some(entry) },
            now,
            opts,
        ) == asks(StageModel::Fetching { url }, RequestModel::Fetch { url }),
        !cache::fresh(now, rendered.fetched_at, opts.cache_ttl) ==> next_step(
            StageModel::RenderLookup { fetched, content, plan },
            ReplyModel::CachedRender { rendered: Some(rendered) },
            now,
            opts,
        ) == asks(
            StageModel::Rendering { fetched, content, plan },
            RequestModel::Render { plan },
        ),
{
}

/// A fresh entry of the cache for a page that must not be fetched is never served.
pub proof fn law_refused_entries_are_not_served(
    url: Seq<char>,
    entry: CachedFetchModel,
    fetched: FetchModel,
    rendered: CachedRenderModel,
    now: u64,
    opts: DistillOptions,
)
    ensures
        fetch::checked(entry.final_url, opts.allow_local) matches Err(e) ==> (cache::fresh(
            now,
            entry.fetched_at,
            opts.cache_ttl,
        ) ==> next_step(
            StageModel::Lookup { url },
            ReplyModel::Cached { entry: Some(entry) },
            now,
            opts,
        ) == fails(e)),
        fetch::checked(rendered.final_url, opts.allow_local) matches Err(e) ==> cached_render_step(
            fetched,
            rendered,
            opts,
        ) == fails(e),
{
}

/// Without the cache nothing is read from it and nothing is written to it.
pub proof fn law_cache_is_left_alone_when_off(
    url: Seq<char>,
    stage: StageModel,
    reply: ReplyModel,
    now: u64,
    opts: DistillOptions,
)
    requires
        !opts.use_cache,
    ensures
        !(first_step(url, opts).next matches NextModel::Ask { request, .. } && (request is ReadCache
            || request is ReadRender)),
        next_step(stage, reply, now, opts).store is None,
        !(next_step(stage, reply, now, opts).next matches NextModel::Ask { request, .. } && (
        request is ReadCache || request is ReadRender)),
{
}

/// The step asks for a rendering, from the cache or from a browser.
pub open spec fn asks_for_rendering(step: StepModel) -> bool {
    step.next matches NextModel::Ask { stage, request } && (stage is RenderLookup
        || stage is Rendering || request is Render || request is ReadRender)
}

/// With rendering off, no page is ever given to a browser: a run does not begin with a rendering,
/// and goes over to one only from one.
pub proof fn law_nothing_is_rendered_when_off(
    url: Seq<char>,
    stage: StageModel,
    reply: ReplyModel,
    now: u64,
    opts: DistillOptions,
)
    requires
        opts.js_mode == JsMode::Off,
    ensures
        !asks_for_rendering(first_step(url, opts)),
        !(stage is RenderLookup) && !(stage is Rendering) ==> !asks_for_rendering(
            next_step(stage, reply, now, opts),
        ),
{
}

/// A rendering that fails costs nothing: the fetched page is distilled as it is.
pub proof fn law_failed_rendering_keeps_the_page(
    fetched: FetchModel,
    content: ExtractedModel,
    plan: RenderPlanModel,
    now: u64,
    opts: DistillOptions,
)
    ensures
        next_step(
            StageModel::Rendering { fetched, content, plan },
            ReplyModel::Rendered { html: None },
            now,
            opts,
        ) == finishes(None, fetched, content, false, opts),
{
}

/// Escaped text opens no tag.
pub proof fn law_escaped_text_opens_no_tag(s: Seq<char>)
    ensures
        forall|i: int| 0 <= i < escaped(s).len() ==> escaped(s)[i] != '<' && escaped(s)[i] != '>',
    decreases s.len(),
{
    if s.len() > 0 {
        law_escaped_text_opens_no_tag(s.drop_last());
        reveal_strlit("&amp;");
        reveal_strlit("&lt;");
        reveal_strlit("&gt;");
        let before = escaped(s.drop_last());
        let last = escaped_char(s.last());
        assert forall|i: int| 0 <= i < escaped(s).len() implies escaped(s)[i] != '<' && escaped(
            s,
        )[i] != '>' by {
            if i < before.len() {
                assert(escaped(s)[i] == before[i]);
            } else {
                assert(escaped(s)[i] == last[i - before.len()]);
            }
        }
    }
}

/// The opening of a text is the text itself, trimmed, where that is short enough, and otherwise its
/// first characters with an ellipsis behind them.
pub proof fn law_an_opening_starts_the_text(s: Seq<char>, n: int)
    requires
        0 <= n,
    ensures
        text::trimmed(s).len() <= n ==> opening(s, n) == text::trimmed(s),
        text::trimmed(s).len() > n ==> {
            let kept = opening(s, n).drop_last();
            &&& opening(s, n).len() > 0
            &&& opening(s, n).last() == '…'
            &&& kept.len() <= n
            &&& kept == text::trimmed(s).take(kept.len() as int)
            &&& kept.len() > 0 ==> !text::is_ws(kept.last())
            &&& forall|i: int| kept.len() <= i < n ==> text::is_ws(#[trigger] text::trimmed(s)[i])
        },
{
    let t = text::trimmed(s);
    if t.len() > n {
        text::lemma_trimmed_end(t.take(n));
        let kept = text::trimmed_end(t.take(n));
        assert(opening(s, n).drop_last() =~= kept);
        assert(t.take(n).take(kept.len() as int) =~= t.take(kept.len() as int));
        assert forall|i: int| kept.len() <= i < n implies text::is_ws(#[trigger] t[i]) by {
            assert(t.take(n)[i] == t[i]);
        }
    }
}

/// Escaping goes character by character: the three signs that mean something in HTML are named, and
/// everything else stays as it is.
pub proof fn law_escaping_names_three_signs(front: Seq<char>, back: Seq<char>, c: char)
    ensures
        escaped(front + back) == escaped(front) + escaped(back),
        escaped(seq![]).len() == 0,
        escaped(seq!['&']) == "&amp;"@,
        escaped(seq!['<']) == "&lt;"@,
        escaped(seq!['>']) == "&gt;"@,
        c != '&' && c != '<' && c != '>' ==> escaped(seq![c]) == seq![c],
    decreases back.len(),
{
    lemma_escaped_one('&');
    lemma_escaped_one('<');
    lemma_escaped_one('>');
    lemma_escaped_one(c);
    if back.len() == 0 {
        assert(front + back =~= front);
        assert(escaped(front) + escaped(back) =~= escaped(front));
    } else {
        law_escaping_names_three_signs(front, back.drop_last(), c);
        assert((front + back).drop_last() =~= front + back.drop_last());
        assert((front + back).last() == back.last());
        assert(escaped(front + back) =~= escaped(front) + escaped(back));
    }
}

proof fn lemma_escaped_one(c: char)
    ensures
        escaped(seq![c]) == escaped_char(c),
{
    assert(seq![c].drop_last() =~= seq![]);
    assert(escaped(seq![]) =~= seq![]);
    assert(escaped(seq![c]) =~= escaped_char(c));
}

/// A summary keeps the title, the author and the excerpt of a page. Its text is the excerpt, or the
/// opening of the page where there is none, and its HTML is a paragraph with that text.
pub proof fn law_a_summary_is_the_excerpt_or_the_opening(e: ExtractedModel)
    ensures
        ({
            let m = metadata_content(e);
            &&& m.title == e.title
            &&& m.byline == e.byline
            &&& m.excerpt == e.excerpt
            &&& m.content_html == "<p>"@ + escaped(m.text) + "</p>"@
            &&& (e.excerpt matches Some(x) && text::trimmed(x).len() > 0) ==> m.text == e.excerpt->0
            &&& e.excerpt is None ==> m.text == opening(e.text, 400)
            &&& (e.excerpt matches Some(x) && text::trimmed(x).len() == 0) ==> m.text == opening(
                e.text,
                400,
            )
        }),
{
}

/// A selector gives the HTML of every element that it matches, one below the other in document
/// order. Where that is nothing, and for what is no selector, it is an error.
pub proof fn law_a_selection_holds_every_match(
    front: Seq<Seq<char>>,
    part: Seq<char>,
    selector: Seq<char>,
    cause: Seq<char>,
)
    ensures
        lines_joined(front.push(part)) == lines_joined(front) + part + seq!['\n'],
        lines_joined(seq![]).len() == 0,
        text::trimmed(lines_joined(front)).len() > 0 ==> selection_of(Ok(front), selector) == Ok::<
            Seq<char>,
            ErrorModel,
        >(lines_joined(front)),
        text::trimmed(lines_joined(front)).len() == 0 ==> selection_of(Ok(front), selector)
            == Err::<Seq<char>, ErrorModel>(ErrorModel::NoMatch { selector }),
        selection_of(Err(cause), selector) == Err::<Seq<char>, ErrorModel>(
            ErrorModel::BadSelector { selector, cause },
        ),
{
    assert(front.push(part).drop_last() =~= front);
    assert(front.push(part).last() == part);
}

/// A selector decides what of a page is kept, whatever the profile. Without one, the profile does:
/// the main content, the whole body, or a summary of the main content.
pub proof fn law_a_selector_or_the_profile_picks_the_content(
    html: Seq<char>,
    final_url: Seq<char>,
    selector: Seq<char>,
    profile: Profile,
)
    ensures
        match selected_html(html, selector) {
            Ok(found) => content_of(html, final_url, Some(selector), profile) == Ok::<
                ExtractedModel,
                ErrorModel,
            >(
                ExtractedModel {
                    title: seq![],
                    byline: None,
                    excerpt: None,
                    content_html: found,
                    text: seq![],
                },
            ),
            Err(e) => content_of(html, final_url, Some(selector), profile) == Err::<
                ExtractedModel,
                ErrorModel,
            >(e),
        },
        content_of(html, final_url, None, Profile::Article) == extract::article_of(html, final_url),
        content_of(html, final_url, None, Profile::Full) == extract::whole_body_of(html),
        match extract::article_of(html, final_url) {
            Ok(e) => content_of(html, final_url, None, Profile::Metadata) == Ok::<
                ExtractedModel,
                ErrorModel,
            >(metadata_content(e)),
            Err(e) => content_of(html, final_url, None, Profile::Metadata) == Err::<
                ExtractedModel,
                ErrorModel,
            >(e),
        },
{
}

/// A selection is made by what the selector matches in a document that can be searched.
pub proof fn law_a_document_is_searched_where_it_can_be(html: Seq<char>, selector: Seq<char>)
    ensures
        error::parseable(html) && dom::steps(selector) <= 512 && dom::shallow(html)
            ==> selected_html(html, selector) == selection_of(
            dom::outer_html(html, selector),
            selector,
        ),
        !error::parseable(html) ==> selected_html(html, selector) == Err::<Seq<char>, ErrorModel>(
            ErrorModel::DocumentTooLarge,
        ),
        error::parseable(html) && dom::steps(selector) > 512 ==> selected_html(html, selector)
            == Err::<Seq<char>, ErrorModel>(ErrorModel::SelectorTooComplex { selector }),
        error::parseable(html) && dom::steps(selector) <= 512 && !dom::shallow(html)
            ==> selected_html(html, selector) == Err::<Seq<char>, ErrorModel>(ErrorModel::TooDeep),
{
}

/// A distilled page says where it came from and with which status, and carries what was found. Its
/// statistics and its diagnostics are there where the tokens were counted for them, and say what
/// was counted.
pub proof fn law_a_distilled_page_carries_what_was_found(
    fetched: FetchModel,
    content: ExtractedModel,
    found: FoundModel,
    used_headless: bool,
    selector: Option<Seq<char>>,
    profile: Profile,
)
    requires
        found.markdown.len() <= usize::MAX,
        found.links matches Some(l) ==> l.len() <= usize::MAX,
        found.tables matches Some(t) ==> t.len() <= usize::MAX,
    ensures
        ({
            let d = built(fetched, content, found, used_headless, selector, profile);
            &&& d.final_url == fetched.final_url
            &&& d.status == fetched.status
            &&& d.title == content.title
            &&& d.byline == content.byline
            &&& d.excerpt == content.excerpt
            &&& d.markdown == found.markdown
            &&& d.text == found.text
            &&& d.links == found.links
            &&& d.tables == found.tables
            &&& d.actions == found.actions
            &&& d.stats is Some <==> found.tokens is Some
            &&& d.stats matches Some(s) ==> {
                &&& s.raw_bytes == fetched.raw_bytes
                &&& s.raw_tokens == found.tokens->0.raw_tokens
                &&& s.output_tokens == found.tokens->0.output_tokens
                &&& s.raw_tokens >= s.output_tokens ==> s.saved_tokens == s.raw_tokens
                    - s.output_tokens
                &&& s.raw_tokens < s.output_tokens ==> s.saved_tokens == 0
            }
            &&& d.diagnostics is Some <==> found.output_tokens is Some
            &&& d.diagnostics matches Some(g) ==> {
                &&& selector is Some ==> g.profile == "selector"@
                &&& selector is None && profile is Article ==> g.profile == "article"@
                &&& selector is None && profile is Full ==> g.profile == "full"@
                &&& selector is None && profile is Metadata ==> g.profile == "metadata"@
                &&& g.raw_bytes == fetched.raw_bytes
                &&& g.output_chars == found.markdown.len()
                &&& g.output_tokens == found.output_tokens->0
                &&& g.used_headless == used_headless
                &&& g.truncated == found.truncated
                &&& g.low_content <==> text::trimmed(found.markdown).len() < 200
                &&& found.links is None ==> g.link_count == 0
                &&& found.links matches Some(l) ==> g.link_count == l.len()
                &&& found.tables is None ==> g.table_count == 0
                &&& found.tables matches Some(t) ==> g.table_count == t.len()
                &&& found.actions is None ==> g.action_count == 0
                &&& found.actions matches Some(t) ==> (t.links.len() + t.forms.len()
                    + t.buttons.len() + t.downloads.len() <= usize::MAX ==> g.action_count
                    == t.links.len() + t.forms.len() + t.buttons.len() + t.downloads.len())
            }
        }),
{
}

/// What was not asked for is not there. Links come from the content, or from the whole page where
/// that was asked for; tables come from the content, and actions from the whole page. The plain
/// text is the Markdown where the content has none of its own.
pub proof fn law_what_was_asked_for_is_found(
    fetched: FetchModel,
    content: ExtractedModel,
    markdown: Seq<char>,
    opts: DistillOptions,
)
    ensures
        ({
            let f = found_in(fetched, content, markdown, opts);
            let max = opts.max_output_tokens;
            &&& max is None ==> f.markdown == markdown && !f.truncated
            &&& max matches Some(m) ==> f.markdown == budget::fitted(markdown, m)
            &&& content.text.len() == 0 ==> f.text == f.markdown
            &&& content.text.len() > 0 && max is None ==> f.text == content.text
            &&& content.text.len() > 0 && max is Some ==> f.text == budget::fitted(
                content.text,
                max->0,
            )
            &&& max matches Some(m) ==> (f.truncated <==> !budget::untouched(markdown, m)
                || content.text.len() > 0 && !budget::untouched(content.text, m))
            &&& !opts.extract_links ==> f.links is None
            &&& opts.extract_links && opts.links_full ==> f.links == Some(
                structured::page_links(fetched.html, fetched.final_url),
            )
            &&& opts.extract_links && !opts.links_full ==> f.links == Some(
                structured::page_links(content.content_html, fetched.final_url),
            )
            &&& !opts.extract_tables ==> f.tables is None
            &&& opts.extract_tables ==> f.tables == Some(
                structured::page_tables(content.content_html),
            )
            &&& !opts.extract_actions ==> f.actions is None
            &&& opts.extract_actions ==> f.actions == Some(
                actions::tree_of(fetched.html, fetched.final_url, limits_of(opts.max_actions)),
            )
            &&& f.tokens is Some <==> opts.measure_tokens
            &&& opts.measure_tokens ==> f.tokens->0.raw_tokens == tokens::token_count(
                fetched.html,
            )->0 && f.tokens->0.output_tokens == tokens::token_count(f.markdown)->0
            &&& f.output_tokens is Some <==> opts.diagnostics
            &&& opts.diagnostics ==> f.output_tokens == Some(tokens::token_count(f.markdown)->0)
        }),
{
}

/// A number of actions that was asked for caps every category alike.
pub proof fn law_a_cap_on_actions_caps_them_all(n: usize)
    ensures
        limits_of(Some(n)).max_links == n,
        limits_of(Some(n)).max_forms == n,
        limits_of(Some(n)).max_buttons == n,
        limits_of(Some(n)).max_downloads == n,
        limits_of(Some(n)).max_fields_per_form == n,
        limits_of(Some(n)).max_options_per_field == n,
        limits_of(None).max_links == 100,
        limits_of(None).max_forms == 25,
        limits_of(None).max_buttons == 50,
        limits_of(None).max_downloads == 50,
        limits_of(None).max_fields_per_form == 50,
        limits_of(None).max_options_per_field == 50,
{
}

/// A page whose content can be converted is distilled, unless the page itself is needed and too
/// large to parse, or tokens are needed and cannot be counted.
pub proof fn law_convertible_content_is_distilled(
    fetched: FetchModel,
    content: ExtractedModel,
    used_headless: bool,
    opts: DistillOptions,
)
    ensures
        match convert::converted(content.content_html) {
            Err(e) => assembled(fetched, content, used_headless, opts) == Err::<
                DistilledModel,
                ErrorModel,
            >(e),
            Ok(markdown) => {
                let found = found_in(fetched, content, markdown, opts);
                let too_large = !error::parseable(fetched.html) && (opts.extract_actions
                    || opts.extract_links && opts.links_full);
                let uncounted = opts.measure_tokens && (tokens::token_count(fetched.html) is None
                    || tokens::token_count(found.markdown) is None) || opts.diagnostics
                    && tokens::token_count(found.markdown) is None;
                &&& too_large ==> assembled(fetched, content, used_headless, opts) == Err::<
                    DistilledModel,
                    ErrorModel,
                >(ErrorModel::DocumentTooLarge)
                &&& !too_large && uncounted ==> assembled(fetched, content, used_headless, opts)
                    == Err::<DistilledModel, ErrorModel>(ErrorModel::Tokenizer)
                &&& !too_large && !uncounted ==> assembled(fetched, content, used_headless, opts)
                    == Ok::<DistilledModel, ErrorModel>(
                    built(
                        fetched,
                        content,
                        found,
                        used_headless,
                        opts.selector.deep_view(),
                        opts.profile,
                    ),
                )
            },
        },
{
}

/// A document at hand is distilled as a page that was fetched from its base with success, and
/// without a browser.
pub proof fn law_a_document_at_hand_is_a_fetched_page(
    html: Seq<char>,
    base_url: Seq<char>,
    opts: DistillOptions,
)
    ensures
        match content_of(html, base_url, opts.selector.deep_view(), opts.profile) {
            Err(e) => distilled_html(html, base_url, opts) == Err::<DistilledModel, ErrorModel>(e),
            Ok(content) => distilled_html(html, base_url, opts) == assembled(
                FetchModel {
                    final_url: base_url,
                    status: 200,
                    content_type: Some("text/html"@),
                    html,
                    raw_bytes: text::byte_len(html) as usize,
                },
                content,
                false,
                opts,
            ),
        },
        distilled_html(html, base_url, opts) matches Ok(d) ==> d.final_url == base_url && d.status
            == 200,
{
}

/// Whether a page is rendered is up to the mode: always, never, or where something is waited for or
/// the page shows fewer than 200 characters and looks like an app. A selector speaks against
/// that.
pub proof fn law_when_a_page_is_rendered(html: Seq<char>, shown: Seq<char>, opts: DistillOptions)
    ensures
        opts.js_mode is Off ==> !needs_js(html, shown, opts),
        opts.js_mode is Always ==> needs_js(html, shown, opts),
        opts.js_mode is Auto && opts.js_wait_for is Some ==> needs_js(html, shown, opts),
        opts.js_mode is Auto && opts.js_wait_for is None && opts.selector is Some ==> !needs_js(
            html,
            shown,
            opts,
        ),
        opts.js_mode is Auto && opts.js_wait_for is None && opts.selector is None ==> (needs_js(
            html,
            shown,
            opts,
        ) <==> render::visible(shown) < 200 && render::js_app(html)),
{
}

/// A rendering takes as long as was asked for, or as the timeout says, goes to the URL of the page
/// and waits for what the options wait for.
pub proof fn law_a_rendering_is_planned_by_the_options(final_url: Seq<char>, opts: DistillOptions)
    ensures
        opts.js_wait is None ==> render_budget(opts) == opts.timeout,
        opts.js_wait matches Some(ms) ==> render_budget(opts).nanos == ms * 1_000_000,
        plan_of(final_url, opts).url == final_url,
        plan_of(final_url, opts).wait_for == opts.js_wait_for.deep_view(),
        plan_of(final_url, opts).budget == render_budget(opts),
        plan_of(final_url, opts).identity == cache::identity_of(
            final_url,
            match opts.js_mode {
                JsMode::Off => "off"@,
                JsMode::Auto => "auto"@,
                JsMode::Always => "always"@,
            },
            (render_budget(opts).nanos / 1_000_000) as nat,
            opts.js_wait_for.deep_view(),
        ),
{
}

/// A run begins with the cache where it is used, and otherwise with the page itself.
pub proof fn law_a_run_begins_with_the_cache_or_the_page(url: Seq<char>, opts: DistillOptions)
    requires
        fetch::checked(url, opts.allow_local) is Ok,
    ensures
        first_step(url, opts).store is None,
        opts.use_cache ==> first_step(url, opts).next == (NextModel::Ask {
            stage: StageModel::Lookup { url },
            request: RequestModel::ReadCache { url },
        }),
        !opts.use_cache ==> first_step(url, opts).next == (NextModel::Ask {
            stage: StageModel::Fetching { url },
            request: RequestModel::Fetch { url },
        }),
{
}

/// An entry of the cache that may be served is served once robots.txt refuses neither the URL that
/// was asked for nor the one that it came from. Where there is none, the page is fetched.
pub proof fn law_the_cache_serves_what_robots_allow(
    url: Seq<char>,
    entry: CachedFetchModel,
    e: ErrorModel,
    now: u64,
    opts: DistillOptions,
)
    ensures
        next_step(StageModel::Lookup { url }, ReplyModel::Cached { entry: None }, now, opts)
            == (StepModel {
            store: None,
            next: NextModel::Ask {
                stage: StageModel::Fetching { url },
                request: RequestModel::Fetch { url },
            },
        }),
        now <= entry.fetched_at + opts.cache_ttl && fetch::checked(
            entry.final_url,
            opts.allow_local,
        ) is Ok ==> next_step(
            StageModel::Lookup { url },
            ReplyModel::Cached { entry: Some(entry) },
            now,
            opts,
        ) == (StepModel {
            store: None,
            next: NextModel::Ask {
                stage: StageModel::CachedRobots { entry },
                request: RequestModel::CheckRobots { url },
            },
        }),
        next_step(
            StageModel::CachedRobots { entry },
            ReplyModel::Robots { refusal: None },
            now,
            opts,
        ) == (StepModel {
            store: None,
            next: NextModel::Ask {
                stage: StageModel::CachedRobotsFinal { entry },
                request: RequestModel::CheckRobots { url: entry.final_url },
            },
        }),
        next_step(
            StageModel::CachedRobotsFinal { entry },
            ReplyModel::Robots { refusal: None },
            now,
            opts,
        ) == page_step(
            None,
            FetchModel {
                final_url: entry.final_url,
                status: entry.status,
                content_type: entry.content_type,
                html: entry.html,
                raw_bytes: entry.raw_bytes,
            },
            opts,
        ),
        next_step(
            StageModel::CachedRobots { entry },
            ReplyModel::Robots { refusal: Some(e) },
            now,
            opts,
        ) == (StepModel { store: None, next: NextModel::Done { result: Err(e) } }),
        next_step(
            StageModel::CachedRobotsFinal { entry },
            ReplyModel::Robots { refusal: Some(e) },
            now,
            opts,
        ) == (StepModel { store: None, next: NextModel::Done { result: Err(e) } }),
{
}

/// A fetched page is stored where the cache is used, with the time and under the URL that was asked
/// for, and is then distilled. An error ends the run.
pub proof fn law_fetched_pages_are_stored(
    url: Seq<char>,
    fetched: FetchModel,
    e: ErrorModel,
    now: u64,
    opts: DistillOptions,
)
    ensures
        next_step(
            StageModel::Fetching { url },
            ReplyModel::Fetched { result: Err(e) },
            now,
            opts,
        ) == (StepModel { store: None, next: NextModel::Done { result: Err(e) } }),
        next_step(
            StageModel::Fetching { url },
            ReplyModel::Fetched { result: Ok(fetched) },
            now,
            opts,
        ) == page_step(
            if opts.use_cache {
                Some(
                    StoreModel::Fetch {
                        url,
                        entry: CachedFetchModel {
                            fetched_at: now,
                            final_url: fetched.final_url,
                            status: fetched.status,
                            content_type: fetched.content_type,
                            html: fetched.html,
                            raw_bytes: fetched.raw_bytes,
                        },
                    },
                )
            } else {
                None
            },
            fetched,
            opts,
        ),
{
}

/// A page is distilled as it is where it need not be rendered. One that is to be rendered is looked
/// for in the cache, where that is used, and otherwise given to a browser.
pub proof fn law_a_page_is_distilled_or_rendered(
    store: Option<StoreModel>,
    fetched: FetchModel,
    opts: DistillOptions,
)
    ensures
        page_step(store, fetched, opts).store == store,
        match content_of(fetched.html, fetched.final_url, opts.selector.deep_view(), opts.profile) {
            Err(e) => page_step(store, fetched, opts).next == (NextModel::Done { result: Err(e) }),
            Ok(content) => {
                let plan = plan_of(fetched.final_url, opts);
                let next = page_step(store, fetched, opts).next;
                &&& !needs_js(fetched.html, content.text, opts) ==> next == (NextModel::Done {
                    result: assembled(fetched, content, false, opts),
                })
                &&& needs_js(fetched.html, content.text, opts) && opts.use_cache ==> next == (
                NextModel::Ask {
                    stage: StageModel::RenderLookup { fetched, content, plan },
                    request: RequestModel::ReadRender { identity: plan.identity },
                })
                &&& needs_js(fetched.html, content.text, opts) && !opts.use_cache ==> next == (
                NextModel::Ask {
                    stage: StageModel::Rendering { fetched, content, plan },
                    request: RequestModel::Render { plan },
                })
            },
        },
{
}

/// A rendered document takes the place of the fetched one: it is stored where the cache is used,
/// under its identity, and distilled with the status of the page and word that a browser was
/// used.
pub proof fn law_a_rendering_takes_the_place_of_the_page(
    fetched: FetchModel,
    content: ExtractedModel,
    plan: RenderPlanModel,
    html: Seq<char>,
    now: u64,
    opts: DistillOptions,
)
    ensures
        ({
            let size = text::byte_len(html) as usize;
            let step = next_step(
                StageModel::Rendering { fetched, content, plan },
                ReplyModel::Rendered { html: Some(html) },
                now,
                opts,
            );
            match content_of(html, fetched.final_url, opts.selector.deep_view(), opts.profile) {
                Err(e) => step == (StepModel {
                    store: None,
                    next: NextModel::Done { result: Err(e) },
                }),
                Ok(found) => {
                    &&& step.next == (NextModel::Done {
                        result: assembled(
                            FetchModel { html, raw_bytes: size, ..fetched },
                            found,
                            true,
                            opts,
                        ),
                    })
                    &&& !opts.use_cache ==> step.store is None
                    &&& opts.use_cache ==> step.store == Some(
                        StoreModel::Render {
                            identity: plan.identity,
                            rendered: CachedRenderModel {
                                fetched_at: now,
                                final_url: fetched.final_url,
                                html,
                                raw_bytes: size,
                            },
                        },
                    )
                },
            }
        }),
{
}

/// A rendering from the cache that may be served is distilled like a fresh one. Where there is
/// none, the page is rendered.
pub proof fn law_a_cached_rendering_is_as_good_as_a_fresh_one(
    fetched: FetchModel,
    content: ExtractedModel,
    plan: RenderPlanModel,
    rendered: CachedRenderModel,
    now: u64,
    opts: DistillOptions,
)
    ensures
        next_step(
            StageModel::RenderLookup { fetched, content, plan },
            ReplyModel::CachedRender { rendered: None },
            now,
            opts,
        ) == (StepModel {
            store: None,
            next: NextModel::Ask {
                stage: StageModel::Rendering { fetched, content, plan },
                request: RequestModel::Render { plan },
            },
        }),
        now <= rendered.fetched_at + opts.cache_ttl && fetch::checked(
            rendered.final_url,
            opts.allow_local,
        ) is Ok ==> {
            let step = next_step(
                StageModel::RenderLookup { fetched, content, plan },
                ReplyModel::CachedRender { rendered: Some(rendered) },
                now,
                opts,
            );
            &&& step.store is None
            &&& match content_of(
                rendered.html,
                rendered.final_url,
                opts.selector.deep_view(),
                opts.profile,
            ) {
                Err(e) => step.next == (NextModel::Done { result: Err(e) }),
                Ok(found) => step.next == (NextModel::Done {
                    result: assembled(
                        FetchModel {
                            final_url: rendered.final_url,
                            html: rendered.html,
                            raw_bytes: rendered.raw_bytes,
                            ..fetched
                        },
                        found,
                        true,
                        opts,
                    ),
                }),
            }
        },
{
}

/// A reply that a run does not wait for is an error.
pub proof fn law_replies_out_of_turn_are_refused(
    stage: StageModel,
    reply: ReplyModel,
    now: u64,
    opts: DistillOptions,
)
    requires
        stage is Lookup ==> !(reply is Cached),
        stage is CachedRobots || stage is CachedRobotsFinal ==> !(reply is Robots),
        stage is Fetching ==> !(reply is Fetched),
        stage is RenderLookup ==> !(reply is CachedRender),
        stage is Rendering ==> !(reply is Rendered),
    ensures
        next_step(stage, reply, now, opts) == (StepModel {
            store: None,
            next: NextModel::Done { result: Err(ErrorModel::OutOfTurn) },
        }),
{
}

/// The mathematical value of a distilled page shows every part of it.
pub proof fn law_views_show_every_part(d: Distilled, g: Diagnostics, s: Stats, p: RenderPlan)
    ensures
        d.deep_view().final_url == d.final_url@ && d.deep_view().status == d.status
            && d.deep_view().title == d.title@ && d.deep_view().byline == d.byline.deep_view()
            && d.deep_view().excerpt == d.excerpt.deep_view() && d.deep_view().markdown
            == d.markdown@ && d.deep_view().text == d.text@,
        d.deep_view().stats == d.stats.deep_view() && d.deep_view().links == d.links.deep_view()
            && d.deep_view().tables == d.tables.deep_view() && d.deep_view().actions
            == d.actions.deep_view() && d.deep_view().diagnostics == d.diagnostics.deep_view(),
        g.deep_view().profile == g.profile@ && g.deep_view().raw_bytes == g.raw_bytes
            && g.deep_view().output_chars == g.output_chars && g.deep_view().output_tokens
            == g.output_tokens && g.deep_view().link_count == g.link_count
            && g.deep_view().table_count == g.table_count && g.deep_view().action_count
            == g.action_count && g.deep_view().used_headless == g.used_headless
            && g.deep_view().truncated == g.truncated && g.deep_view().low_content
            == g.low_content,
        s.deep_view() == s,
        p.deep_view().url == p.url@ && p.deep_view().wait_for == p.wait_for.deep_view()
            && p.deep_view().budget == p.budget && p.deep_view().identity == p.identity@,
{
}

} // verus!
