//! From the parameters of a request to the options of a distillation.

use vstd::prelude::*;

use crate::pipeline::{DistillOptions, JsMode, Profile};
use crate::span::Span;
use crate::text;

verus! {

/// The mode for rendering that a parameter means: `off`, `always`, and `auto` for all else.
pub open spec fn js_mode_of(js: Option<Seq<char>>) -> JsMode {
    if js == Some("off"@) {
        JsMode::Off
    } else if js == Some("always"@) {
        JsMode::Always
    } else {
        JsMode::Auto
    }
}

/// Reads the mode for rendering.
pub fn parse_js_mode(js: Option<&str>) -> (r: JsMode)
    ensures
        r == js_mode_of(text::opt(js)),
{
    proof {
        reveal_strlit("off");
        reveal_strlit("always");
        assert("off"@.len() != "always"@.len());
    }
    match js {
        Some(s) => if text::same(s, "off") {
            JsMode::Off
        } else if text::same(s, "always") {
            JsMode::Always
        } else {
            JsMode::Auto
        },
        None => JsMode::Auto,
    }
}

/// The profile that a parameter means: `full`, `metadata`, and `article` for all else.
pub open spec fn profile_of(profile: Option<Seq<char>>) -> Profile {
    if profile == Some("full"@) {
        Profile::Full
    } else if profile == Some("metadata"@) {
        Profile::Metadata
    } else {
        Profile::Article
    }
}

/// Reads the profile.
pub fn parse_profile(profile: Option<&str>) -> (r: Profile)
    ensures
        r == profile_of(text::opt(profile)),
{
    match profile {
        Some(s) => if text::same(s, "full") {
            Profile::Full
        } else if text::same(s, "metadata") {
            Profile::Metadata
        } else {
            Profile::Article
        },
        None => Profile::Article,
    }
}

/// The value, or the usual one where it is not given.
pub open spec fn or<T>(o: Option<T>, usual: T) -> T {
    match o {
        Some(v) => v,
        None => usual,
    }
}

fn flag(o: Option<bool>) -> (r: bool)
    ensures
        r == or(o, false),
{
    match o {
        Some(v) => v,
        None => false,
    }
}

fn size(o: Option<usize>, usual: usize) -> (r: usize)
    ensures
        r == or(o, usual),
{
    match o {
        Some(v) => v,
        None => usual,
    }
}

fn number(o: Option<u64>, usual: u64) -> (r: u64)
    ensures
        r == or(o, usual),
{
    match o {
        Some(v) => v,
        None => usual,
    }
}

fn word(o: &Option<String>) -> (r: Option<&str>)
    ensures
        text::opt(r) == o.deep_view(),
{
    match o {
        Some(s) => Some(s.as_str()),
        None => None,
    }
}

/// The parameters of a request for pages. What is not given takes its usual value.
#[derive(Debug)]
pub struct FetchParams {
    pub selector: Option<String>,
    pub stats: Option<bool>,
    pub timeout_secs: Option<u64>,
    pub max_bytes: Option<usize>,
    pub no_cache: Option<bool>,
    pub cache_ttl: Option<u64>,
    pub extract_links: Option<bool>,
    pub extract_tables: Option<bool>,
    pub links_full: Option<bool>,
    pub js: Option<String>,
    pub js_wait: Option<u64>,
    pub js_wait_for: Option<String>,
    pub allow_local: Option<bool>,
    pub max_retries: Option<usize>,
    pub per_host_concurrency: Option<usize>,
    /// The least time between two requests to one host, made of the rate that was asked for.
    pub min_request_interval: Span,
    pub respect_robots: Option<bool>,
    pub profile: Option<String>,
    pub max_output_tokens: Option<usize>,
    pub diagnostics: Option<bool>,
    pub extract_actions: Option<bool>,
    pub max_actions: Option<usize>,
}

/// The options mean what the parameters ask for.
pub open spec fn options_match(p: FetchParams, o: DistillOptions) -> bool {
    &&& o.timeout.nanos == or(p.timeout_secs, 20) * 1_000_000_000
    &&& o.user_agent is None
    &&& o.selector.deep_view() == p.selector.deep_view()
    &&& o.measure_tokens == or(p.stats, false)
    &&& o.use_cache == !or(p.no_cache, false)
    &&& o.cache_ttl == or(p.cache_ttl, 3600)
    &&& o.extract_links == (or(p.extract_links, false) || or(p.links_full, false))
    &&& o.extract_tables == or(p.extract_tables, false)
    &&& o.links_full == or(p.links_full, false)
    &&& o.js_mode == js_mode_of(p.js.deep_view())
    &&& o.js_wait == p.js_wait
    &&& o.js_wait_for.deep_view() == p.js_wait_for.deep_view()
    &&& o.max_bytes == or(p.max_bytes, 8_388_608)
    &&& o.allow_local == or(p.allow_local, false)
    &&& o.max_retries == or(p.max_retries, 2)
    &&& o.per_host_concurrency == or(p.per_host_concurrency, 4)
    &&& o.min_request_interval == p.min_request_interval
    &&& o.respect_robots == or(p.respect_robots, false)
    &&& o.profile == profile_of(p.profile.deep_view())
    &&& o.max_output_tokens == p.max_output_tokens
    &&& o.diagnostics == or(p.diagnostics, false)
    &&& o.extract_actions == or(p.extract_actions, false)
    &&& o.max_actions == p.max_actions
}

/// Makes options of the parameters of a request.
pub fn opts_from(p: FetchParams) -> (r: DistillOptions)
    ensures
        options_match(p, r),
{
    let js_mode = parse_js_mode(word(&p.js));
    let profile = parse_profile(word(&p.profile));
    let links_full = flag(p.links_full);
    DistillOptions {
        timeout: Span::from_secs(number(p.timeout_secs, 20)),
        user_agent: None,
        selector: p.selector,
        measure_tokens: flag(p.stats),
        use_cache: !flag(p.no_cache),
        cache_ttl: number(p.cache_ttl, 3600),
        extract_links: flag(p.extract_links) || links_full,
        extract_tables: flag(p.extract_tables),
        links_full,
        js_mode,
        js_wait: p.js_wait,
        js_wait_for: p.js_wait_for,
        max_bytes: size(p.max_bytes, 8_388_608),
        allow_local: flag(p.allow_local),
        max_retries: size(p.max_retries, 2),
        per_host_concurrency: size(p.per_host_concurrency, 4),
        min_request_interval: p.min_request_interval,
        respect_robots: flag(p.respect_robots),
        profile,
        max_output_tokens: p.max_output_tokens,
        diagnostics: flag(p.diagnostics),
        extract_actions: flag(p.extract_actions),
        max_actions: p.max_actions,
    }
}

/// Makes options for observing a page: always with its actions and diagnostics.
pub fn observe_opts_from(p: FetchParams) -> (r: DistillOptions)
    ensures
        r.extract_actions,
        r.diagnostics,
        options_match(
            (FetchParams { extract_actions: Some(true), diagnostics: Some(true), ..p }),
            r,
        ),
{
    let mut opts = opts_from(p);
    opts.extract_actions = true;
    opts.diagnostics = true;
    opts
}

/// The parameters of a new session.
#[derive(Debug)]
pub struct SessionParams {
    pub profile: Option<String>,
    pub max_actions: Option<usize>,
    pub timeout_secs: Option<u64>,
    pub allow_local: Option<bool>,
    pub respect_robots: Option<bool>,
}

/// Makes the options of a session's snapshots: live ones, with actions and diagnostics, and all
/// else as usual.
pub fn session_opts(p: &SessionParams) -> (r: DistillOptions)
    ensures
        r.timeout.nanos == or(p.timeout_secs, 20) * 1_000_000_000,
        r.profile == profile_of(p.profile.deep_view()),
        r.max_actions == p.max_actions,
        r.allow_local == or(p.allow_local, false),
        r.respect_robots == or(p.respect_robots, false),
        r.extract_actions,
        r.diagnostics,
        !r.use_cache,
        r.user_agent is None,
        r.selector is None,
        !r.measure_tokens,
        r.cache_ttl == 3600,
        !r.extract_links,
        !r.extract_tables,
        !r.links_full,
        r.js_mode == JsMode::Auto,
        r.js_wait is None,
        r.js_wait_for is None,
        r.max_bytes == 8_388_608,
        r.max_retries == 2,
        r.per_host_concurrency == 4,
        r.min_request_interval.nanos == 0,
        r.max_output_tokens is None,
{
    let mut opts = DistillOptions::default();
    opts.timeout = Span::from_secs(number(p.timeout_secs, 20));
    opts.profile = parse_profile(word(&p.profile));
    opts.max_actions = p.max_actions;
    opts.allow_local = flag(p.allow_local);
    opts.respect_robots = flag(p.respect_robots);
    opts.extract_actions = true;
    opts.diagnostics = true;
    opts.use_cache = false;
    opts
}

/// The arguments of the command that fetches pages.
#[derive(Debug)]
pub struct FetchArgs {
    pub selector: Option<String>,
    pub stats: bool,
    pub timeout: u64,
    pub max_bytes: usize,
    pub no_cache: bool,
    pub cache_ttl: u64,
    pub links: bool,
    pub links_all: bool,
    pub tables: bool,
    pub js: JsMode,
    pub js_wait: Option<u64>,
    pub js_wait_for: Option<String>,
    pub allow_local: bool,
    pub max_retries: usize,
    pub per_host_concurrency: usize,
    /// The least time between two requests to one host, made of the rate that was asked for.
    pub min_request_interval: Span,
    pub respect_robots: bool,
    pub profile: Profile,
    pub max_output_tokens: Option<usize>,
    pub diagnostics: bool,
    pub actions: bool,
    pub max_actions: Option<usize>,
}

/// Makes options of the arguments of a command.
pub fn opts_from_args(a: FetchArgs) -> (r: DistillOptions)
    ensures
        r.timeout.nanos == a.timeout * 1_000_000_000,
        r.user_agent is None,
        r.selector.deep_view() == a.selector.deep_view(),
        r.measure_tokens == a.stats,
        r.use_cache == !a.no_cache,
        r.cache_ttl == a.cache_ttl,
        r.extract_links == (a.links || a.links_all),
        r.extract_tables == a.tables,
        r.links_full == a.links_all,
        r.js_mode == a.js,
        r.js_wait == a.js_wait,
        r.js_wait_for.deep_view() == a.js_wait_for.deep_view(),
        r.max_bytes == a.max_bytes,
        r.allow_local == a.allow_local,
        r.max_retries == a.max_retries,
        r.per_host_concurrency == a.per_host_concurrency,
        r.min_request_interval == a.min_request_interval,
        r.respect_robots == a.respect_robots,
        r.profile == a.profile,
        r.max_output_tokens == a.max_output_tokens,
        r.diagnostics == a.diagnostics,
        r.extract_actions == a.actions,
        r.max_actions == a.max_actions,
{
    DistillOptions {
        timeout: Span::from_secs(a.timeout),
        user_agent: None,
        selector: a.selector,
        measure_tokens: a.stats,
        use_cache: !a.no_cache,
        cache_ttl: a.cache_ttl,
        extract_links: a.links || a.links_all,
        extract_tables: a.tables,
        links_full: a.links_all,
        js_mode: a.js,
        js_wait: a.js_wait,
        js_wait_for: a.js_wait_for,
        max_bytes: a.max_bytes,
        allow_local: a.allow_local,
        max_retries: a.max_retries,
        per_host_concurrency: a.per_host_concurrency,
        min_request_interval: a.min_request_interval,
        respect_robots: a.respect_robots,
        profile: a.profile,
        max_output_tokens: a.max_output_tokens,
        diagnostics: a.diagnostics,
        extract_actions: a.actions,
        max_actions: a.max_actions,
    }
}

/// Every parameter that is given is used, and one that is not given takes its usual value. Asking
/// for the links of the whole page is asking for links.
pub proof fn law_parameters_mean_what_they_say(p: FetchParams, o: DistillOptions)
    requires
        options_match(p, o),
    ensures
        p.timeout_secs matches Some(n) ==> o.timeout.nanos == n * 1_000_000_000,
        p.timeout_secs is None ==> o.timeout.nanos == 20_000_000_000,
        o.selector.deep_view() == p.selector.deep_view(),
        o.measure_tokens <==> p.stats == Some(true),
        o.use_cache <==> p.no_cache != Some(true),
        p.cache_ttl matches Some(n) ==> o.cache_ttl == n,
        p.cache_ttl is None ==> o.cache_ttl == 3600,
        o.extract_links <==> p.extract_links == Some(true) || p.links_full == Some(true),
        o.extract_tables <==> p.extract_tables == Some(true),
        o.links_full <==> p.links_full == Some(true),
        o.js_wait == p.js_wait,
        o.js_wait_for.deep_view() == p.js_wait_for.deep_view(),
        p.max_bytes matches Some(n) ==> o.max_bytes == n,
        p.max_bytes is None ==> o.max_bytes == 8 * 1024 * 1024,
        o.allow_local <==> p.allow_local == Some(true),
        p.max_retries matches Some(n) ==> o.max_retries == n,
        p.max_retries is None ==> o.max_retries == 2,
        p.per_host_concurrency matches Some(n) ==> o.per_host_concurrency == n,
        p.per_host_concurrency is None ==> o.per_host_concurrency == 4,
        o.min_request_interval == p.min_request_interval,
        o.respect_robots <==> p.respect_robots == Some(true),
        o.max_output_tokens == p.max_output_tokens,
        o.diagnostics <==> p.diagnostics == Some(true),
        o.extract_actions <==> p.extract_actions == Some(true),
        o.max_actions == p.max_actions,
        o.user_agent is None,
{
}

/// The words for the modes and the profiles mean what they say, and any other word means the usual
/// one.
pub proof fn law_words_name_modes_and_profiles(word: Seq<char>)
    ensures
        js_mode_of(Some("off"@)) is Off,
        js_mode_of(Some("always"@)) is Always,
        word != "off"@ && word != "always"@ ==> js_mode_of(Some(word)) is Auto,
        js_mode_of(None) is Auto,
        profile_of(Some("full"@)) is Full,
        profile_of(Some("metadata"@)) is Metadata,
        word != "full"@ && word != "metadata"@ ==> profile_of(Some(word)) is Article,
        profile_of(None) is Article,
{
    reveal_strlit("off");
    reveal_strlit("always");
    reveal_strlit("full");
    reveal_strlit("metadata");
    assert("off"@.len() != "always"@.len());
    assert("full"@.len() != "metadata"@.len());
}

/// Every argument of a command is used: what it asks for is done, and what it does not ask for is
/// not.
pub proof fn law_arguments_mean_what_they_say(a: FetchArgs, o: DistillOptions)
    requires
        call_ensures(opts_from_args, (a,), o),
    ensures
        o.timeout.nanos == a.timeout * 1_000_000_000,
        o.selector.deep_view() == a.selector.deep_view(),
        o.measure_tokens <==> a.stats,
        o.use_cache <==> !a.no_cache,
        o.cache_ttl == a.cache_ttl,
        o.extract_links <==> a.links || a.links_all,
        o.links_full <==> a.links_all,
        o.extract_tables <==> a.tables,
        o.js_mode == a.js,
        o.js_wait == a.js_wait,
        o.js_wait_for.deep_view() == a.js_wait_for.deep_view(),
        o.max_bytes == a.max_bytes,
        o.allow_local <==> a.allow_local,
        o.max_retries == a.max_retries,
        o.per_host_concurrency == a.per_host_concurrency,
        o.min_request_interval == a.min_request_interval,
        o.respect_robots <==> a.respect_robots,
        o.profile == a.profile,
        o.max_output_tokens == a.max_output_tokens,
        o.diagnostics <==> a.diagnostics,
        o.extract_actions <==> a.actions,
        o.max_actions == a.max_actions,
{
}

/// A command and a request that ask for the same get the same options.
pub proof fn law_commands_and_requests_agree(
    a: FetchArgs,
    p: FetchParams,
    by_command: DistillOptions,
    by_request: DistillOptions,
)
    requires
        call_ensures(opts_from_args, (a,), by_command),
        call_ensures(opts_from, (p,), by_request),
        p.timeout_secs == Some(a.timeout),
        p.stats == Some(a.stats),
        p.no_cache == Some(a.no_cache),
        p.cache_ttl == Some(a.cache_ttl),
        p.extract_links == Some(a.links),
        p.links_full == Some(a.links_all),
        p.extract_tables == Some(a.tables),
        p.max_bytes == Some(a.max_bytes),
        p.allow_local == Some(a.allow_local),
        p.max_retries == Some(a.max_retries),
        p.respect_robots == Some(a.respect_robots),
        p.diagnostics == Some(a.diagnostics),
        p.extract_actions == Some(a.actions),
        p.max_output_tokens == a.max_output_tokens,
        p.max_actions == a.max_actions,
    ensures
        by_command.timeout.nanos == by_request.timeout.nanos,
        by_command.measure_tokens == by_request.measure_tokens,
        by_command.use_cache == by_request.use_cache,
        by_command.cache_ttl == by_request.cache_ttl,
        by_command.extract_links == by_request.extract_links,
        by_command.links_full == by_request.links_full,
        by_command.extract_tables == by_request.extract_tables,
        by_command.max_bytes == by_request.max_bytes,
        by_command.allow_local == by_request.allow_local,
        by_command.max_retries == by_request.max_retries,
        by_command.respect_robots == by_request.respect_robots,
        by_command.diagnostics == by_request.diagnostics,
        by_command.extract_actions == by_request.extract_actions,
        by_command.max_output_tokens == by_request.max_output_tokens,
        by_command.max_actions == by_request.max_actions,
{
}

} // verus!
