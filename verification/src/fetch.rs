//! The rules of fetching over HTTP: which URLs and addresses may be reached, redirects, retries,
//! politeness towards hosts, and decoding of bodies.

use vstd::prelude::*;

use crate::clock;
use crate::error;
use crate::error::{Error, ErrorModel};
use crate::span::Span;
use crate::text;
use crate::weburl;
use crate::weburl::{Host, HostModel, Ip, WebUrl, WebUrlModel};

verus! {

/// The User-Agent by default.
pub const DEFAULT_UA: &'static str =
    "Mozilla/5.0 (compatible; RustBrowser/1.2.0; +https://github.com/JoshuaWangTW/RustBrowser)";

/// The options of a fetch.
#[derive(Debug, Clone)]
pub struct FetchOptions {
    pub user_agent: String,
    pub timeout: Span,
    /// How many bytes of a response are kept.
    pub max_bytes: usize,
    /// How many redirects are followed. Each is checked.
    pub max_redirects: usize,
    /// Permit loopback targets, and nothing else that is blocked.
    pub allow_local: bool,
    /// How often to retry transient failures.
    pub max_retries: usize,
    /// How many requests to one host may be in flight; 0 is no limit.
    pub per_host_concurrency: usize,
    /// The least time between the starts of two requests to one host.
    pub min_request_interval: Span,
    /// Refuse what a host's robots.txt disallows.
    pub respect_robots: bool,
}

impl Default for FetchOptions {
    fn default() -> (r: FetchOptions)
        ensures
            r.user_agent@ == DEFAULT_UA@,
            r.timeout.nanos == 20_000_000_000,
            r.max_bytes == 8_388_608,
            r.max_redirects == 8,
            !r.allow_local,
            r.max_retries == 2,
            r.per_host_concurrency == 4,
            r.min_request_interval.nanos == 0,
            !r.respect_robots,
    {
        FetchOptions {
            user_agent: DEFAULT_UA.to_string(),
            timeout: Span::from_secs(20),
            max_bytes: 8 * 1024 * 1024,
            max_redirects: 8,
            allow_local: false,
            max_retries: 2,
            per_host_concurrency: 4,
            min_request_interval: Span::zero(),
            respect_robots: false,
        }
    }
}

/// A fetched page.
#[derive(Debug, Clone)]
pub struct FetchResult {
    /// The URL behind all redirects.
    pub final_url: String,
    pub status: u16,
    pub content_type: Option<String>,
    /// The decoded body.
    pub html: String,
    /// The number of bytes received.
    pub raw_bytes: usize,
}

/// A fetched page, as a mathematical value.
#[verifier::ext_equal]
pub struct FetchModel {
    pub final_url: Seq<char>,
    pub status: u16,
    pub content_type: Option<Seq<char>>,
    pub html: Seq<char>,
    pub raw_bytes: usize,
}

impl DeepView for FetchResult {
    type V = FetchModel;

    open spec fn deep_view(&self) -> FetchModel {
        FetchModel {
            final_url: self.final_url@,
            status: self.status,
            content_type: self.content_type.deep_view(),
            html: self.html@,
            raw_bytes: self.raw_bytes,
        }
    }
}

/// The outcome of one attempt, with the delay that the server asks for before another.
#[derive(Debug)]
pub struct Attempt {
    pub res: FetchResult,
    pub retry_after: Option<Span>,
}

/// The outcome of one attempt, as a mathematical value.
#[verifier::ext_equal]
pub struct AttemptModel {
    pub res: FetchModel,
    pub retry_after: Option<Span>,
}

impl DeepView for Attempt {
    type V = AttemptModel;

    open spec fn deep_view(&self) -> AttemptModel {
        AttemptModel { res: self.res.deep_view(), retry_after: self.retry_after }
    }
}

// ---------------------------------------------------------------------------------------------
// Addresses
// ---------------------------------------------------------------------------------------------

/// The IPv4 address must not be reached: it is private, loopback, link-local, unspecified,
/// broadcast, multicast, in 0.0.0.0/8 or in 100.64.0.0/10.
pub open spec fn blocked_v4(a: u8, b: u8, c: u8, d: u8) -> bool {
    ||| a == 10
    ||| a == 172 && 16 <= b <= 31
    ||| a == 192 && b == 168
    ||| a == 127
    ||| a == 169 && b == 254
    ||| a == 255 && b == 255 && c == 255 && d == 255
    ||| 224 <= a <= 239
    ||| a == 0
    ||| a == 100 && 64 <= b <= 127
}

/// The address must not be reached. An IPv6 address that maps or translates to an IPv4 address
/// is judged by that one.
pub open spec fn blocked(ip: Ip) -> bool {
    match ip {
        Ip::V4((a, b, c, d)) => blocked_v4(a, b, c, d),
        Ip::V6((s0, s1, s2, s3, s4, s5, s6, s7)) => {
            let mapped = s0 == 0 && s1 == 0 && s2 == 0 && s3 == 0 && s4 == 0 && s5 == 0xffff;
            let translated = s0 == 0x64 && s1 == 0xff9b && s2 == 0 && s3 == 0 && s4 == 0 && s5 == 0;
            if mapped || translated {
                blocked_v4(
                    (s6 / 256) as u8,
                    (s6 % 256) as u8,
                    (s7 / 256) as u8,
                    (s7 % 256) as u8,
                )
            } else {
                ||| s0 == 0 && s1 == 0 && s2 == 0 && s3 == 0 && s4 == 0 && s5 == 0 && s6 == 0
                    && s7 <= 1
                ||| 0xff00 <= s0
                ||| 0xfc00 <= s0 <= 0xfdff
                ||| 0xfe80 <= s0 <= 0xfebf
            }
        },
    }
}

/// The address is that of the machine itself.
pub open spec fn loopback(ip: Ip) -> bool {
    match ip {
        Ip::V4((a, _, _, _)) => a == 127,
        Ip::V6((s0, s1, s2, s3, s4, s5, s6, s7)) => s0 == 0 && s1 == 0 && s2 == 0 && s3 == 0 && s4
            == 0 && s5 == 0 && s6 == 0 && s7 == 1,
    }
}

/// The address may be reached. Permitting local targets frees loopback and nothing else.
pub open spec fn reachable(ip: Ip, allow_local: bool) -> bool {
    allow_local && loopback(ip) || !blocked(ip)
}

fn is_blocked_v4(a: u8, b: u8, c: u8, d: u8) -> (r: bool)
    ensures
        r == blocked_v4(a, b, c, d),
{
    let private = a == 10 || (a == 172 && 16 <= b && b <= 31) || (a == 192 && b == 168);
    let link_local = a == 169 && b == 254;
    let broadcast = a == 255 && b == 255 && c == 255 && d == 255;
    let multicast = 224 <= a && a <= 239;
    let shared = a == 100 && 64 <= b && b <= 127;
    private || a == 127 || link_local || broadcast || multicast || a == 0 || shared
}

/// Whether the address must not be reached.
pub fn is_blocked_ip(ip: Ip) -> (r: bool)
    ensures
        r == blocked(ip),
{
    match ip {
        Ip::V4((a, b, c, d)) => is_blocked_v4(a, b, c, d),
        Ip::V6((s0, s1, s2, s3, s4, s5, s6, s7)) => {
            let mapped = s0 == 0 && s1 == 0 && s2 == 0 && s3 == 0 && s4 == 0 && s5 == 0xffff;
            let translated = s0 == 0x64 && s1 == 0xff9b && s2 == 0 && s3 == 0 && s4 == 0 && s5 == 0;
            if mapped || translated {
                return is_blocked_v4(
                    (s6 / 256) as u8,
                    (s6 % 256) as u8,
                    (s7 / 256) as u8,
                    (s7 % 256) as u8,
                );
            }
            let zeros = s0 == 0 && s1 == 0 && s2 == 0 && s3 == 0 && s4 == 0 && s5 == 0 && s6 == 0;
            let unspecified_or_loopback = zeros && s7 <= 1;
            let multicast = 0xff00 <= s0;
            let unique_local = 0xfc00 <= s0 && s0 <= 0xfdff;
            let link_local = 0xfe80 <= s0 && s0 <= 0xfebf;
            unspecified_or_loopback || multicast || unique_local || link_local
        },
    }
}

fn is_loopback(ip: Ip) -> (r: bool)
    ensures
        r == loopback(ip),
{
    match ip {
        Ip::V4((a, _, _, _)) => a == 127,
        Ip::V6((s0, s1, s2, s3, s4, s5, s6, s7)) => s0 == 0 && s1 == 0 && s2 == 0 && s3 == 0 && s4
            == 0 && s5 == 0 && s6 == 0 && s7 == 1,
    }
}

/// Whether the address may be reached.
pub fn ip_allowed(ip: Ip, allow_local: bool) -> (r: bool)
    ensures
        r == reachable(ip, allow_local),
{
    if allow_local && is_loopback(ip) {
        return true;
    }
    !is_blocked_ip(ip)
}

/// An address with a port.
#[derive(Debug, Clone, Copy, PartialEq, Eq)]
pub struct Endpoint {
    pub ip: Ip,
    pub port: u16,
}

/// The endpoints that may be reached, in order.
pub open spec fn screened(addrs: Seq<Endpoint>, allow_local: bool) -> Seq<Endpoint>
    decreases addrs.len(),
{
    if addrs.len() == 0 {
        seq![]
    } else {
        let before = screened(addrs.drop_last(), allow_local);
        if reachable(addrs.last().ip, allow_local) {
            before.push(addrs.last())
        } else {
            before
        }
    }
}

/// Keeps the resolved endpoints that may be reached. A host of which none may is refused.
pub fn screen_resolved_addrs(host: &str, addrs: &Vec<Endpoint>, allow_local: bool) -> (r: Result<
    Vec<Endpoint>,
    Error,
>)
    ensures
        match r {
            Ok(kept) => kept@ == screened(addrs@, allow_local) && kept@.len() > 0,
            Err(e) => screened(addrs@, allow_local).len() == 0 && e.deep_view()
                == (ErrorModel::AllBlocked { host: host@ }),
        },
{
    let mut kept: Vec<Endpoint> = Vec::new();
    assert(kept@ =~= screened(addrs@.take(0), allow_local));
    for i in 0..addrs.len()
        invariant
            kept@ == screened(addrs@.take(i as int), allow_local),
    {
        assert(addrs@.take(i + 1).drop_last() =~= addrs@.take(i as int));
        let a = addrs[i];
        if ip_allowed(a.ip, allow_local) {
            kept.push(a);
        }
    }
    assert(addrs@.take(addrs@.len() as int) =~= addrs@);
    if kept.len() == 0 {
        Err(Error::AllBlocked { host: host.to_string() })
    } else {
        Ok(kept)
    }
}

// ---------------------------------------------------------------------------------------------
// URLs
// ---------------------------------------------------------------------------------------------

/// The name is one of the machine itself.
pub open spec fn local_name(domain: Seq<char>) -> bool {
    let name = text::lowered(text::without_end(domain, '.'));
    name == "localhost"@ || text::ends(name, ".localhost"@)
}

/// Why the host of a URL must not be reached; nothing where it may.
pub open spec fn host_refusal(host: Option<HostModel>, allow_local: bool) -> Option<ErrorModel> {
    match host {
        None => Some(ErrorModel::NoHost),
        Some(HostModel::Domain(domain)) => if local_name(domain) && !allow_local {
            Some(ErrorModel::LocalName)
        } else {
            None
        },
        Some(HostModel::Address(ip)) => if reachable(ip, allow_local) {
            None
        } else {
            Some(ErrorModel::BlockedAddress)
        },
    }
}

/// Why a parsed URL must not be fetched; nothing where it may.
pub open spec fn url_refusal(url: WebUrlModel, allow_local: bool) -> Option<ErrorModel> {
    if !weburl::web_scheme(url.scheme) {
        Some(ErrorModel::Scheme { scheme: url.scheme })
    } else {
        host_refusal(url.host, allow_local)
    }
}

/// What checking a URL gives: its parts, or why it must not be fetched.
pub open spec fn checked(url: Seq<char>, allow_local: bool) -> Result<WebUrlModel, ErrorModel> {
    match weburl::parsed(url) {
        Ok(parts) => match url_refusal(parts, allow_local) {
            None => Ok(parts),
            Some(e) => Err(e),
        },
        Err(cause) => Err(ErrorModel::InvalidUrl { url, cause }),
    }
}

fn is_local_name(domain: &str) -> (r: bool)
    ensures
        r == local_name(domain@),
{
    let chars = text::to_chars(domain);
    let lower = text::to_lower(text::strip_end(chars.as_slice(), '.'));
    let name = text::from_chars(lower.as_slice());
    text::same(name.as_str(), "localhost") || text::ends_with(lower.as_slice(), ".localhost")
}

/// Checks that the host of a URL may be reached, as far as the URL alone tells.
pub fn validate_host_basics(url: &WebUrl, allow_local: bool) -> (r: Result<(), Error>)
    ensures
        match r {
            Ok(_) => host_refusal(url.deep_view().host, allow_local) is None,
            Err(e) => host_refusal(url.deep_view().host, allow_local) == Some(e.deep_view()),
        },
{
    match &url.host {
        None => Err(Error::NoHost),
        Some(Host::Domain(domain)) => if is_local_name(domain.as_str()) && !allow_local {
            Err(Error::LocalName)
        } else {
            Ok(())
        },
        Some(Host::Address(ip)) => if ip_allowed(*ip, allow_local) {
            Ok(())
        } else {
            Err(Error::BlockedAddress)
        },
    }
}

/// Checks that a parsed URL may be fetched.
pub fn check_url(url: &WebUrl, allow_local: bool) -> (r: Result<(), Error>)
    ensures
        match r {
            Ok(_) => url_refusal(url.deep_view(), allow_local) is None,
            Err(e) => url_refusal(url.deep_view(), allow_local) == Some(e.deep_view()),
        },
{
    if !weburl::has_web_scheme(url) {
        return Err(Error::Scheme { scheme: url.scheme.clone() });
    }
    validate_host_basics(url, allow_local)
}

/// Parses a URL and checks that it may be fetched.
pub fn parse_and_validate_url_basics(url: &str, allow_local: bool) -> (r: Result<WebUrl, Error>)
    ensures
        error::outcome(r) == checked(url@, allow_local),
{
    match weburl::parse_url(url) {
        Ok(parts) => match check_url(&parts, allow_local) {
            Ok(_) => Ok(parts),
            Err(e) => Err(e),
        },
        Err(cause) => Err(Error::InvalidUrl { url: url.to_string(), cause }),
    }
}

/// Checks a URL before anything is served for it, so that a stored entry is held to the same
/// rules as a request.
pub fn validate_cached_url(url: &str, allow_local: bool) -> (r: Result<(), Error>)
    ensures
        match r {
            Ok(_) => checked(url@, allow_local) is Ok,
            Err(e) => checked(url@, allow_local) == Err::<WebUrlModel, ErrorModel>(e.deep_view()),
        },
{
    match parse_and_validate_url_basics(url, allow_local) {
        Ok(_) => Ok(()),
        Err(e) => Err(e),
    }
}

/// The key by which requests to one host are grouped.
pub open spec fn host_key_of(url: WebUrlModel) -> Seq<char> {
    match url.host_text {
        Some(h) => h,
        None => seq![],
    }
}

/// The key by which requests to one host are grouped: its name or address, whatever the scheme,
/// the port and the path.
pub fn host_key(url: &WebUrl) -> (r: String)
    ensures
        r@ == host_key_of(url.deep_view()),
{
    match &url.host_text {
        Some(h) => h.clone(),
        None => String::new(),
    }
}

/// Parses a URL, without any check.
pub fn parse(url: &str) -> (r: Option<WebUrl>)
    ensures
        match r {
            Some(u) => weburl::parsed(url@) == Ok::<WebUrlModel, Seq<char>>(u.deep_view()),
            None => weburl::parsed(url@) is Err,
        },
{
    match weburl::parse_url(url) {
        Ok(u) => Some(u),
        Err(_) => None,
    }
}

// ---------------------------------------------------------------------------------------------
// Redirects
// ---------------------------------------------------------------------------------------------

/// Where a chain of redirects stands: the URL to request now and the redirects before it.
#[derive(Debug)]
pub struct Hop {
    pub url: String,
    pub count: usize,
}

/// A chain of redirects, as a mathematical value.
#[verifier::ext_equal]
pub struct HopModel {
    pub url: Seq<char>,
    pub count: usize,
}

impl DeepView for Hop {
    type V = HopModel;

    open spec fn deep_view(&self) -> HopModel {
        HopModel { url: self.url@, count: self.count }
    }
}

/// The `Location` header of a response.
#[derive(Debug)]
pub enum Location {
    Absent,
    /// It is there, and is no text.
    NotText,
    Text(String),
}

/// A `Location` header, as a mathematical value.
pub enum LocationModel {
    Absent,
    NotText,
    Text(Seq<char>),
}

impl DeepView for Location {
    type V = LocationModel;

    open spec fn deep_view(&self) -> LocationModel {
        match self {
            Location::Absent => LocationModel::Absent,
            Location::NotText => LocationModel::NotText,
            Location::Text(s) => LocationModel::Text(s@),
        }
    }
}

/// What to do with a response.
#[derive(Debug)]
pub enum HopStep {
    /// Request the next URL.
    Follow(Hop),
    /// Read the body: this is the page.
    Accept,
    /// Give up.
    Fail(Error),
}

/// What to do with a response, as a mathematical value.
pub enum HopStepModel {
    Follow(HopModel),
    Accept,
    Fail(ErrorModel),
}

impl DeepView for HopStep {
    type V = HopStepModel;

    open spec fn deep_view(&self) -> HopStepModel {
        match self {
            HopStep::Follow(hop) => HopStepModel::Follow(hop.deep_view()),
            HopStep::Accept => HopStepModel::Accept,
            HopStep::Fail(e) => HopStepModel::Fail(e.deep_view()),
        }
    }
}

/// The status is that of a redirect.
pub open spec fn is_redirection(status: u16) -> bool {
    300 <= status <= 399
}

/// Where a redirect from `current` leads; nothing where it has no target.
pub open spec fn redirect_target_of(
    current: Seq<char>,
    location: LocationModel,
    allow_local: bool,
) -> Result<Option<Seq<char>>, ErrorModel> {
    match location {
        LocationModel::Absent => Ok(None),
        LocationModel::NotText => Err(ErrorModel::LocationNotText),
        LocationModel::Text(location) => match weburl::joined(current, location) {
            Ok(next) => match checked(next, allow_local) {
                Ok(_) => Ok(Some(next)),
                Err(e) => Err(e),
            },
            Err(cause) => Err(ErrorModel::BadLocation { location, cause }),
        },
    }
}

/// What to do with a final response: its URL is checked once more.
pub open spec fn acceptance(final_url: Seq<char>, allow_local: bool) -> HopStepModel {
    match checked(final_url, allow_local) {
        Ok(_) => HopStepModel::Accept,
        Err(e) => HopStepModel::Fail(e),
    }
}

/// What to do with a response to `hop`. `url` is the URL first asked for.
pub open spec fn hop_step(
    url: Seq<char>,
    hop: HopModel,
    status: u16,
    location: LocationModel,
    final_url: Seq<char>,
    max_redirects: usize,
    allow_local: bool,
) -> HopStepModel {
    if is_redirection(status) {
        if hop.count >= max_redirects {
            HopStepModel::Fail(ErrorModel::TooManyRedirects { url })
        } else {
            match redirect_target_of(hop.url, location, allow_local) {
                Err(e) => HopStepModel::Fail(e),
                Ok(Some(next)) => HopStepModel::Follow(
                    HopModel { url: next, count: (hop.count + 1) as usize },
                ),
                Ok(None) => acceptance(final_url, allow_local),
            }
        }
    } else {
        acceptance(final_url, allow_local)
    }
}

/// Finds where a redirect leads. A target that must not be fetched is an error.
pub fn redirect_target(current: &str, location: &Location, allow_local: bool) -> (r: Result<
    Option<String>,
    Error,
>)
    ensures
        error::outcome(r) == redirect_target_of(current@, location.deep_view(), allow_local),
{
    match location {
        Location::Absent => Ok(None),
        Location::NotText => Err(Error::LocationNotText),
        Location::Text(location) => match weburl::join_url(current, location.as_str()) {
            Ok(next) => match validate_cached_url(next.as_str(), allow_local) {
                Ok(_) => Ok(Some(next)),
                Err(e) => Err(e),
            },
            Err(cause) => Err(Error::BadLocation { location: location.clone(), cause }),
        },
    }
}

/// Starts a chain of redirects at a URL that may be fetched.
pub fn start_hops(url: &str, allow_local: bool) -> (r: Result<Hop, Error>)
    ensures
        error::outcome(r) == (match checked(url@, allow_local) {
            Ok(parts) => Ok(HopModel { url: parts.href, count: 0 }),
            Err(e) => Err(e),
        }),
{
    match parse_and_validate_url_basics(url, allow_local) {
        Ok(parts) => Ok(Hop { url: parts.href, count: 0 }),
        Err(e) => Err(e),
    }
}

/// Decides what to do with a response to `hop`: follow a redirect, accept the page, or give up.
pub fn next_hop(
    url: &str,
    hop: &Hop,
    status: u16,
    location: &Location,
    final_url: &str,
    opts: &FetchOptions,
) -> (r: HopStep)
    ensures
        r.deep_view() == hop_step(
            url@,
            hop.deep_view(),
            status,
            location.deep_view(),
            final_url@,
            opts.max_redirects,
            opts.allow_local,
        ),
{
    if 300 <= status && status <= 399 {
        if hop.count >= opts.max_redirects {
            return HopStep::Fail(Error::TooManyRedirects { url: url.to_string() });
        }
        match redirect_target(hop.url.as_str(), location, opts.allow_local) {
            Err(e) => return HopStep::Fail(e),
            Ok(Some(next)) => {
                return HopStep::Follow(Hop { url: next, count: hop.count + 1 });
            },
            Ok(None) => {},
        }
    }
    match validate_cached_url(final_url, opts.allow_local) {
        Ok(_) => HopStep::Accept,
        Err(e) => HopStep::Fail(e),
    }
}

/// What to do with a response to a form that was sent.
#[derive(Debug)]
pub enum PostStep {
    /// Send the form again, to the next URL.
    Resend(Hop),
    /// Request the next URL, without the form.
    Follow(Hop),
    /// Read the body: this is the page.
    Accept,
    /// Give up.
    Fail(Error),
}

/// What to do with a response to a form, as a mathematical value.
pub enum PostStepModel {
    Resend(HopModel),
    Follow(HopModel),
    Accept,
    Fail(ErrorModel),
}

impl DeepView for PostStep {
    type V = PostStepModel;

    open spec fn deep_view(&self) -> PostStepModel {
        match self {
            PostStep::Resend(hop) => PostStepModel::Resend(hop.deep_view()),
            PostStep::Follow(hop) => PostStepModel::Follow(hop.deep_view()),
            PostStep::Accept => PostStepModel::Accept,
            PostStep::Fail(e) => PostStepModel::Fail(e.deep_view()),
        }
    }
}

/// What to do with a response to a form that was sent to `hop`. A redirect that keeps the method
/// carries the form on within one origin; to another origin it is refused. Every other redirect
/// is followed without the form.
pub open spec fn post_step(
    url: Seq<char>,
    hop: HopModel,
    status: u16,
    location: LocationModel,
    final_url: Seq<char>,
    max_redirects: usize,
    allow_local: bool,
) -> PostStepModel {
    match hop_step(url, hop, status, location, final_url, max_redirects, allow_local) {
        HopStepModel::Follow(next) => if status != 307 && status != 308 {
            PostStepModel::Follow(next)
        } else if weburl::origin_of(next.url) == weburl::origin_of(hop.url) {
            PostStepModel::Resend(next)
        } else {
            PostStepModel::Fail(ErrorModel::ForeignForm { url: next.url })
        },
        HopStepModel::Accept => PostStepModel::Accept,
        HopStepModel::Fail(e) => PostStepModel::Fail(e),
    }
}

/// Decides what to do with a response to a form that was sent to `hop`.
pub fn next_post_hop(
    url: &str,
    hop: &Hop,
    status: u16,
    location: &Location,
    final_url: &str,
    opts: &FetchOptions,
) -> (r: PostStep)
    ensures
        r.deep_view() == post_step(
            url@,
            hop.deep_view(),
            status,
            location.deep_view(),
            final_url@,
            opts.max_redirects,
            opts.allow_local,
        ),
{
    match next_hop(url, hop, status, location, final_url, opts) {
        HopStep::Follow(next) => {
            if status != 307 && status != 308 {
                return PostStep::Follow(next);
            }
            let from = weburl::origin(hop.url.as_str());
            let to = weburl::origin(next.url.as_str());
            if text::same(to.as_str(), from.as_str()) {
                PostStep::Resend(next)
            } else {
                PostStep::Fail(Error::ForeignForm { url: next.url })
            }
        },
        HopStep::Accept => PostStep::Accept,
        HopStep::Fail(e) => PostStep::Fail(e),
    }
}

// ---------------------------------------------------------------------------------------------
// Retries
// ---------------------------------------------------------------------------------------------

/// The status is worth another try.
pub open spec fn retryable(status: u16) -> bool {
    status == 429 || status == 500 || status == 502 || status == 503 || status == 504
}

/// Whether the status is worth another try.
pub fn is_retryable_status(status: u16) -> (r: bool)
    ensures
        r == retryable(status),
{
    status == 429 || status == 500 || status == 502 || status == 503 || status == 504
}

/// One error in a chain of causes.
#[derive(Debug, Clone, Copy, PartialEq, Eq, Structural)]
pub enum Cause {
    /// Access was denied, as for an address that must not be reached.
    Denied,
    /// Connecting failed or timed out.
    Unreachable,
    /// Anything else.
    Other,
}

/// Connecting failed or timed out, and not because access was denied. An address that must not be
/// reached will never become reachable.
pub open spec fn transient(causes: Seq<Cause>) -> bool {
    causes.contains(Cause::Unreachable) && !causes.contains(Cause::Denied)
}

/// Whether an error is worth another try, by the chain of its causes.
pub fn is_transient_error(causes: &Vec<Cause>) -> (r: bool)
    ensures
        r == transient(causes@),
{
    let mut unreachable = false;
    for i in 0..causes.len()
        invariant
            unreachable == causes@.take(i as int).contains(Cause::Unreachable),
            !causes@.take(i as int).contains(Cause::Denied),
    {
        let ghost seen = causes@.take(i as int);
        assert(causes@.take(i + 1) =~= seen.push(causes@[i as int]));
        proof {
            broadcast use vstd::seq_lib::group_seq_properties;
        }
        match causes[i] {
            Cause::Denied => return false,
            Cause::Unreachable => {
                unreachable = true;
            },
            Cause::Other => {},
        }
    }
    assert(causes@.take(causes@.len() as int) =~= causes@);
    unreachable
}

/// The delay before another try, in milliseconds, without jitter: 200 ms, doubled with each
/// attempt up to 10 s.
pub open spec fn base_delay(attempt: usize) -> u64 {
    if attempt == 0 {
        200
    } else if attempt == 1 {
        400
    } else if attempt == 2 {
        800
    } else if attempt == 3 {
        1600
    } else if attempt == 4 {
        3200
    } else if attempt == 5 {
        6400
    } else {
        10_000
    }
}

/// The jitter, in milliseconds, for a clock at `nanos`: less than a quarter of the delay.
pub open spec fn jitter(attempt: usize, nanos: u32) -> u32 {
    if attempt == 0 {
        nanos % 50
    } else if attempt == 1 {
        nanos % 100
    } else if attempt == 2 {
        nanos % 200
    } else if attempt == 3 {
        nanos % 400
    } else if attempt == 4 {
        nanos % 800
    } else if attempt == 5 {
        nanos % 1600
    } else {
        nanos % 2500
    }
}

/// The delay before another try for a clock at `nanos`.
pub fn backoff_delay_at(attempt: usize, nanos: u32) -> (r: Span)
    ensures
        r == Span::millis(base_delay(attempt) + jitter(attempt, nanos)),
        base_delay(attempt) * 1_000_000 <= r.nanos < base_delay(attempt) * 1_250_000,
{
    let shift: u64 = if attempt >= 6 {
        64
    } else if attempt == 5 {
        32
    } else if attempt == 4 {
        16
    } else if attempt == 3 {
        8
    } else if attempt == 2 {
        4
    } else if attempt == 1 {
        2
    } else {
        1
    };
    let doubled: u64 = 200 * shift;
    let base: u64 = if doubled < 10_000 {
        doubled
    } else {
        10_000
    };
    let quarter: u64 = base / 4;
    let extra: u64 = nanos as u64 % quarter;
    assert(extra == jitter(attempt, nanos));
    Span::from_millis(base + extra)
}

/// The delay before another try: it doubles with each attempt, and less than a quarter is added by
/// the clock.
pub fn backoff_delay(attempt: usize) -> (r: Span)
    ensures
        base_delay(attempt) * 1_000_000 <= r.nanos < base_delay(attempt) * 1_250_000,
{
    backoff_delay_at(attempt, clock::subsec_nanos())
}

/// How an attempt to fetch went.
#[derive(Debug)]
pub enum Tried {
    /// A response with that status, and the delay that it asks for.
    Response { status: u16, retry_after: Option<Span> },
    /// An error, and whether it is worth another try.
    Error { transient: bool },
}

/// How long to wait before another try; nothing where there is none. `attempt` tries were made
/// before this one, and `max` may be added.
pub open spec fn retry_delay(attempt: usize, max: usize, tried: Tried, nanos: u32) -> Option<Span> {
    let backoff = Span::millis(base_delay(attempt) + jitter(attempt, nanos));
    if attempt >= max {
        None
    } else {
        match tried {
            Tried::Response { status, retry_after } => if retryable(status) {
                match retry_after {
                    Some(delay) => Some(delay),
                    None => Some(backoff),
                }
            } else {
                None
            },
            Tried::Error { transient } => if transient {
                Some(backoff)
            } else {
                None
            },
        }
    }
}

/// Decides whether to try again, and how long to wait before.
pub fn next_retry(attempt: usize, max: usize, tried: &Tried, nanos: u32) -> (r: Option<Span>)
    ensures
        r == retry_delay(attempt, max, *tried, nanos),
        r is Some ==> attempt < max,
{
    if attempt >= max {
        return None;
    }
    match tried {
        Tried::Response { status, retry_after } => if is_retryable_status(*status) {
            match retry_after {
                Some(delay) => Some(*delay),
                None => Some(backoff_delay_at(attempt, nanos)),
            }
        } else {
            None
        },
        Tried::Error { transient } => if *transient {
            Some(backoff_delay_at(attempt, nanos))
        } else {
            None
        },
    }
}

/// The delay that a `Retry-After` header asks for, in whole seconds and at most a minute; nothing
/// for its date form.
pub open spec fn retry_after_of(header: Option<Seq<char>>) -> Option<Span> {
    match header {
        Some(raw) => match text::number_value(text::trimmed(raw)) {
            Some(n) => if n > u64::MAX {
                None
            } else if n < 60 {
                Some(Span::millis((n * 1000) as int))
            } else {
                Some(Span::millis(60_000))
            },
            None => None,
        },
        None => None,
    }
}

/// Reads the delay that a `Retry-After` header asks for.
pub fn parse_retry_after(header: Option<&str>) -> (r: Option<Span>)
    ensures
        r == retry_after_of(text::opt(header)),
{
    match header {
        Some(raw) => {
            let chars = text::to_chars(raw);
            match text::parse_number(text::trim(chars.as_slice())) {
                Some(n) => Some(
                    Span::from_secs(
                        if n < 60 {
                            n
                        } else {
                            60
                        },
                    ),
                ),
                None => None,
            }
        },
        None => None,
    }
}

// ---------------------------------------------------------------------------------------------
// Politeness
// ---------------------------------------------------------------------------------------------

/// When the next request to a host may start, and how long it has to wait for that. `next` is
/// the earliest start that was reserved before, `now` the present, both counted from one moment.
pub open spec fn scheduled(next: Option<Span>, now: Span) -> Span {
    match next {
        Some(t) => if t.nanos >= now.nanos {
            t
        } else {
            now
        },
        None => now,
    }
}

/// Reserves the start of a request: the earliest start of the one behind it, and the time to wait.
pub fn reserve(next: Option<Span>, now: Span, min_interval: Span) -> (r: (Option<Span>, Span))
    requires
        scheduled(next, now).nanos + min_interval.nanos <= u128::MAX,
    ensures
        min_interval.nanos == 0 ==> r == (next, Span { nanos: 0 }),
        min_interval.nanos > 0 ==> {
            &&& r.0 == Some(
                Span { nanos: (scheduled(next, now).nanos + min_interval.nanos) as u128 },
            )
            &&& r.1.nanos == scheduled(next, now).nanos - now.nanos
        },
{
    if min_interval.is_zero() {
        return (next, Span { nanos: 0 });
    }
    let start = match next {
        Some(t) => if t.nanos >= now.nanos {
            t
        } else {
            now
        },
        None => now,
    };
    (
        Some(Span { nanos: start.nanos + min_interval.nanos }),
        Span { nanos: start.nanos - now.nanos },
    )
}

/// How many requests to one host may be in flight: as configured, or `most` where that is 0.
pub fn permits(per_host_concurrency: usize, most: usize) -> (n: usize)
    ensures
        n == if per_host_concurrency == 0 {
            most
        } else {
            per_host_concurrency
        },
{
    if per_host_concurrency == 0 {
        most
    } else {
        per_host_concurrency
    }
}

// ---------------------------------------------------------------------------------------------
// Bodies
// ---------------------------------------------------------------------------------------------

/// The first `max` bytes, or all where there are fewer.
pub open spec fn capped(bytes: Seq<u8>, max: usize) -> Seq<u8> {
    if bytes.len() <= max {
        bytes
    } else {
        bytes.take(max as int)
    }
}

/// Adds a chunk of a body to what was read before, up to `max` bytes in all. The flag says
/// whether more chunks are wanted.
pub fn append_chunk(out: &mut Vec<u8>, chunk: &[u8], max: usize) -> (more: bool)
    requires
        old(out)@.len() <= max,
    ensures
        final(out)@ == capped(old(out)@ + chunk@, max),
        more == (old(out)@.len() < max && old(out)@.len() + chunk@.len() <= max),
{
    let ghost before = out@;
    if out.len() >= max {
        assert(out@ =~= capped(before + chunk@, max));
        return false;
    }
    let remaining: usize = max - out.len();
    let fits = chunk.len() <= remaining;
    let n: usize = if fits {
        chunk.len()
    } else {
        remaining
    };
    for i in 0..n
        invariant
            n <= chunk@.len(),
            out@ == before + chunk@.take(i as int),
    {
        out.push(chunk[i]);
    }
    assert(out@ =~= capped(before + chunk@, max));
    fits
}

/// The characters of the bytes in UTF-8, with replacement characters for what is none.
pub uninterp spec fn lossy(bytes: Seq<u8>) -> Seq<char>;

/// The standard library's `String::from_utf8_lossy`. The result is a function of the bytes;
/// valid UTF-8 comes out as the characters that it encodes.
#[verifier::external_body]
pub(crate) fn from_utf8_lossy(bytes: &[u8]) -> (r: String)
    ensures
        r@ == lossy(bytes@),
        vstd::utf8::valid_utf8(bytes@) ==> r@ == vstd::utf8::decode_utf8(bytes@),
{
    String::from_utf8_lossy(bytes).into_owned()
}

/// What the bytes say in the encoding with that label; nothing where no encoding has it.
pub uninterp spec fn decoded(label: Seq<char>, bytes: Seq<u8>) -> Option<Seq<char>>;

/// The bytes start with the byte order mark of UTF-8.
pub open spec fn has_bom(bytes: Seq<u8>) -> bool {
    bytes.len() >= 3 && bytes[0] == 0xef && bytes[1] == 0xbb && bytes[2] == 0xbf
}

/// `encoding_rs`'s `Encoding::for_label`, and `Encoding::decode` of the encoding found. The
/// result is a function of the arguments. The label `utf-8` is known, and for it valid UTF-8
/// without a byte order mark comes out as the characters that it encodes. The size of the
/// decoder's buffer must not overflow.
#[verifier::external_body]
fn decode_labelled(label: &str, bytes: &[u8]) -> (r: Option<String>)
    requires
        bytes@.len() <= usize::MAX / 8,
    ensures
        r.deep_view() == decoded(label@, bytes@),
        label@ == "utf-8"@ ==> r is Some,
        label@ == "utf-8"@ && vstd::utf8::valid_utf8(bytes@) && !has_bom(bytes@) ==> r.deep_view()
            == Some(vstd::utf8::decode_utf8(bytes@)),
{
    let encoding = encoding_rs::Encoding::for_label(label.as_bytes())?;
    Some(encoding.decode(bytes).0.into_owned())
}

/// The charset that a part of a content type declares.
pub open spec fn charset_of_part(part: Seq<char>) -> Option<Seq<char>> {
    let p = text::trimmed(part);
    let n = text::until(p, '=') as int;
    if n < p.len() && text::same_letters(text::trimmed(p.take(n)), "charset"@) {
        Some(
            text::without_ends(text::without_ends(text::trimmed(p.skip(n + 1)), '"'), '\''),
        )
    } else {
        None
    }
}

/// The charset that the first part that has one declares.
pub open spec fn first_charset(parts: Seq<Seq<char>>) -> Option<Seq<char>>
    decreases parts.len(),
{
    if parts.len() == 0 {
        None
    } else if charset_of_part(parts[0]) is Some {
        charset_of_part(parts[0])
    } else {
        first_charset(parts.drop_first())
    }
}

/// The charset that a content type declares.
pub open spec fn content_type_charset(content_type: Seq<char>) -> Option<Seq<char>> {
    first_charset(text::pieces(content_type, ';'))
}

fn charset_from_part(part: &[char]) -> (r: Option<String>)
    ensures
        r.deep_view() == charset_of_part(part@),
{
    let p = text::trim(part);
    assert(p@.skip(0) =~= p@);
    let n = text::position(p, '=', 0);
    if n == p.len() {
        return None;
    }
    let name = vstd::slice::slice_subrange(p, 0, n);
    let value = vstd::slice::slice_subrange(p, n + 1, p.len());
    assert(name@ =~= p@.take(n as int));
    assert(value@ =~= p@.skip(n + 1));
    if !text::eq_ignore_case(text::from_chars(text::trim(name)).as_str(), "charset") {
        return None;
    }
    let bare = text::strip_ends(text::strip_ends(text::trim(value), '"'), '\'');
    Some(text::from_chars(bare))
}

/// Reads the charset that a content type declares.
pub fn charset_from_content_type(content_type: &str) -> (r: Option<String>)
    ensures
        r.deep_view() == content_type_charset(content_type@),
{
    let chars = text::to_chars(content_type);
    let parts = text::split_char(chars.as_slice(), ';');
    let ghost all = text::texts(parts@);
    assert(all.skip(0) =~= all);
    for i in 0..parts.len()
        invariant
            all == text::texts(parts@),
            first_charset(all) == content_type_charset(content_type@),
            first_charset(all.skip(i as int)) == first_charset(all),
    {
        assert(all.skip(i as int)[0] == parts@[i as int]@);
        assert(all.skip(i as int).drop_first() =~= all.skip(i + 1));
        let found = charset_from_part(parts[i].as_slice());
        if found.is_some() {
            return found;
        }
    }
    assert(all.skip(all.len() as int).len() == 0);
    None
}

/// The character may stand before a charset's name.
pub open spec fn before_label(c: char) -> bool {
    c == ' ' || c == '"' || c == '\''
}

/// The character ends a charset's name.
pub open spec fn after_label(c: char) -> bool {
    c == '"' || c == '\'' || c == '>' || c == ';' || text::is_ws(c)
}

/// `s` without the characters at its start that may stand before a charset's name.
pub open spec fn from_label(s: Seq<char>) -> Seq<char>
    decreases s.len(),
{
    if s.len() > 0 && before_label(s[0]) {
        from_label(s.drop_first())
    } else {
        s
    }
}

/// `s` up to the first character that ends a charset's name.
pub open spec fn upto_label(s: Seq<char>) -> Seq<char>
    decreases s.len(),
{
    if s.len() == 0 || after_label(s[0]) {
        seq![]
    } else {
        seq![s[0]] + upto_label(s.drop_first())
    }
}

/// The charset that the head of a page declares, in small letters.
pub open spec fn head_charset(head: Seq<char>) -> Option<Seq<char>> {
    let lower = text::lowered(head);
    match text::next_at(lower, "charset="@, 0) {
        Some(i) => {
            let label = upto_label(from_label(lower.skip(i + 8)));
            if label.len() == 0 {
                None
            } else {
                Some(label)
            }
        },
        None => None,
    }
}

/// Reads the charset that the head of a page declares.
pub fn charset_from_head(head: &str) -> (r: Option<String>)
    ensures
        r.deep_view() == head_charset(head@),
{
    let chars = text::to_chars(head);
    let lower = text::to_lower(chars.as_slice());
    let marker = text::to_chars("charset=");
    proof {
        reveal_strlit("charset=");
    }
    match text::find(lower.as_slice(), marker.as_slice(), 0) {
        Some(i) => {
            let len: usize = lower.len();
            let mut start: usize = i + marker.len();
            let ghost rest = lower@.skip(i + 8);
            while start < lower.len() && (lower[start] == ' ' || lower[start] == '"' || lower[start]
                == '\'')
                invariant
                    start <= lower@.len(),
                    from_label(lower@.skip(start as int)) == from_label(rest),
                decreases lower@.len() - start,
            {
                assert(lower@.skip(start as int).drop_first() =~= lower@.skip(start + 1));
                start = start + 1;
            }
            let ghost value = lower@.skip(start as int);
            let mut label = String::new();
            let mut end: usize = start;
            assert(label@ + upto_label(value) =~= upto_label(value));
            while end < lower.len() && !(lower[end] == '"' || lower[end] == '\'' || lower[end] == '>'
                || lower[end] == ';' || text::whitespace(lower[end]))
                invariant
                    end <= lower@.len(),
                    label@ + upto_label(lower@.skip(end as int)) == upto_label(value),
                decreases lower@.len() - end,
            {
                proof {
                    let here = lower@.skip(end as int);
                    assert(here.drop_first() =~= lower@.skip(end + 1));
                    assert(label@ + (seq![here[0]] + upto_label(here.drop_first())) =~= label@.push(
                        lower@[end as int],
                    ) + upto_label(lower@.skip(end + 1)));
                }
                label.push(lower[end]);
                end = end + 1;
            }
            assert(label@ + seq![] =~= label@);
            if label.as_str().is_empty() {
                None
            } else {
                Some(label)
            }
        },
        None => None,
    }
}

/// How many bytes of a page are searched for a charset.
pub const HEAD_BYTES: usize = 4096;

/// Reads the charset that the first bytes of a page declare.
pub fn charset_from_html_meta(bytes: &[u8]) -> (r: Option<String>)
    ensures
        r.deep_view() == head_charset(lossy(capped(bytes@, HEAD_BYTES))),
{
    let n: usize = if bytes.len() < HEAD_BYTES {
        bytes.len()
    } else {
        HEAD_BYTES
    };
    let head = vstd::slice::slice_subrange(bytes, 0, n);
    assert(head@ =~= capped(bytes@, HEAD_BYTES));
    charset_from_head(from_utf8_lossy(head).as_str())
}

/// The label of the encoding of a body: what the content type declares, or else the page itself.
pub open spec fn declared_charset(bytes: Seq<u8>, content_type: Option<Seq<char>>) -> Option<
    Seq<char>,
> {
    let by_type = match content_type {
        Some(ct) => content_type_charset(ct),
        None => None,
    };
    match by_type {
        Some(label) => Some(label),
        None => head_charset(lossy(capped(bytes, HEAD_BYTES))),
    }
}

/// What a body says: in the encoding that is declared, or in UTF-8 where none is or none is known
/// by that label.
pub open spec fn body_text(bytes: Seq<u8>, content_type: Option<Seq<char>>) -> Seq<char> {
    match declared_charset(bytes, content_type) {
        Some(label) => match decoded(label, bytes) {
            Some(s) => s,
            None => decoded("utf-8"@, bytes)->0,
        },
        None => decoded("utf-8"@, bytes)->0,
    }
}

/// Decodes a body.
pub fn decode_body(bytes: &[u8], content_type: Option<&str>) -> (r: String)
    requires
        bytes@.len() <= usize::MAX / 8,
    ensures
        r@ == body_text(bytes@, text::opt(content_type)),
        declared_charset(bytes@, text::opt(content_type)) is None && vstd::utf8::valid_utf8(bytes@)
            && !has_bom(bytes@) ==> r@ == vstd::utf8::decode_utf8(bytes@),
{
    let by_type = match content_type {
        Some(ct) => charset_from_content_type(ct),
        None => None,
    };
    let label = match by_type {
        Some(label) => Some(label),
        None => charset_from_html_meta(bytes),
    };
    if let Some(label) = label {
        if let Some(s) = decode_labelled(label.as_str(), bytes) {
            return s;
        }
    }
    match decode_labelled("utf-8", bytes) {
        Some(s) => s,
        None => String::new(),
    }
}

/// What an attempt gives for a response with that body.
pub open spec fn attempt_of(
    final_url: Seq<char>,
    status: u16,
    content_type: Option<Seq<char>>,
    retry_after: Option<Seq<char>>,
    bytes: Seq<u8>,
) -> AttemptModel {
    AttemptModel {
        res: FetchModel {
            final_url,
            status,
            content_type,
            html: body_text(bytes, content_type),
            raw_bytes: bytes.len() as usize,
        },
        retry_after: retry_after_of(retry_after),
    }
}

/// What an attempt gives for a response whose body was read.
pub fn finish_attempt(
    final_url: &str,
    status: u16,
    content_type: Option<&str>,
    retry_after: Option<&str>,
    bytes: &[u8],
) -> (r: Attempt)
    requires
        bytes@.len() <= usize::MAX / 8,
    ensures
        r.deep_view() == attempt_of(
            final_url@,
            status,
            text::opt(content_type),
            text::opt(retry_after),
            bytes@,
        ),
{
    Attempt {
        res: FetchResult {
            final_url: final_url.to_string(),
            status,
            content_type: match content_type {
                Some(ct) => Some(ct.to_string()),
                None => None,
            },
            html: decode_body(bytes, content_type),
            raw_bytes: bytes.len(),
        },
        retry_after: parse_retry_after(retry_after),
    }
}

// ---------------------------------------------------------------------------------------------
// Laws
// ---------------------------------------------------------------------------------------------

/// Permitting local targets frees loopback and nothing else, and takes nothing away.
pub proof fn law_allow_local_frees_only_loopback(ip: Ip)
    ensures
        reachable(ip, false) ==> reachable(ip, true),
        reachable(ip, true) && !reachable(ip, false) ==> loopback(ip),
{
}

/// Link-local addresses, and with them the metadata service of a cloud, are never reached,
/// neither as such nor mapped or translated to IPv6.
pub proof fn law_link_local_is_never_reached(c: u8, d: u8, allow_local: bool)
    ensures
        !reachable(Ip::V4((169, 254, c, d)), allow_local),
        !reachable(
            Ip::V6((0, 0, 0, 0, 0, 0xffff, 0xa9fe, (c * 256 + d) as u16)),
            allow_local,
        ),
        !reachable(
            Ip::V6((0x64, 0xff9b, 0, 0, 0, 0, 0xa9fe, (c * 256 + d) as u16)),
            allow_local,
        ),
{
    assert((0xa9feu16 / 256) as u8 == 169u8);
    assert((0xa9feu16 % 256) as u8 == 254u8);
}

/// What is kept of the resolved addresses may be reached, and every address that may be reached
/// is kept.
pub proof fn law_screening_keeps_what_may_be_reached(addrs: Seq<Endpoint>, allow_local: bool)
    ensures
        forall|i: int|
            0 <= i < screened(addrs, allow_local).len() ==> reachable(
                (#[trigger] screened(addrs, allow_local)[i]).ip,
                allow_local,
            ),
        forall|k: int|
            0 <= k < addrs.len() && reachable((#[trigger] addrs[k]).ip, allow_local) ==> screened(
                addrs,
                allow_local,
            ).contains(addrs[k]),
    decreases addrs.len(),
{
    if addrs.len() > 0 {
        let prior = addrs.drop_last();
        law_screening_keeps_what_may_be_reached(prior, allow_local);
        let before = screened(prior, allow_local);
        let after = screened(addrs, allow_local);
        assert forall|i: int| 0 <= i < after.len() implies reachable(
            (#[trigger] screened(addrs, allow_local)[i]).ip,
            allow_local,
        ) by {
            if i < before.len() {
                assert(after[i] == before[i]);
            }
        }
        assert forall|k: int|
            0 <= k < addrs.len() && reachable((#[trigger] addrs[k]).ip, allow_local) implies after.contains(
            addrs[k],
        ) by {
            if k < prior.len() {
                assert(prior[k] == addrs[k]);
                assert(before.contains(addrs[k]));
                let i = choose|i: int| 0 <= i < before.len() && before[i] == addrs[k];
                assert(after[i] == addrs[k]);
            } else {
                assert(after.last() == addrs[k]);
            }
        }
    }
}

/// A redirect is followed only to a URL that may be fetched, and a page is accepted only from
/// such a URL.
pub proof fn law_redirects_stay_within_the_rules(
    url: Seq<char>,
    hop: HopModel,
    status: u16,
    location: LocationModel,
    final_url: Seq<char>,
    max_redirects: usize,
    allow_local: bool,
)
    ensures
        match hop_step(url, hop, status, location, final_url, max_redirects, allow_local) {
            HopStepModel::Follow(next) => checked(next.url, allow_local) is Ok && next.count
                == hop.count + 1 && next.count <= max_redirects,
            HopStepModel::Accept => checked(final_url, allow_local) is Ok,
            HopStepModel::Fail(_) => true,
        },
{
}

/// A form that was sent is carried on by a redirect only within its origin, and every redirect
/// that is followed leads to a URL that may be fetched.
pub proof fn law_forms_stay_within_their_origin(
    url: Seq<char>,
    hop: HopModel,
    status: u16,
    location: LocationModel,
    final_url: Seq<char>,
    max_redirects: usize,
    allow_local: bool,
)
    ensures
        match post_step(url, hop, status, location, final_url, max_redirects, allow_local) {
            PostStepModel::Resend(next) => weburl::origin_of(next.url) == weburl::origin_of(hop.url)
                && checked(next.url, allow_local) is Ok && next.count <= max_redirects,
            PostStepModel::Follow(next) => checked(next.url, allow_local) is Ok && next.count
                <= max_redirects,
            PostStepModel::Accept => checked(final_url, allow_local) is Ok,
            PostStepModel::Fail(_) => true,
        },
{
}

/// What was denied is never tried again, whatever else stands in the chain of its causes.
pub proof fn law_denied_is_never_retried(
    causes: Seq<Cause>,
    attempt: usize,
    max: usize,
    nanos: u32,
)
    requires
        causes.contains(Cause::Denied),
    ensures
        retry_delay(attempt, max, Tried::Error { transient: transient(causes) }, nanos) is None,
{
}

/// No more than `max` tries are added to the first one.
pub proof fn law_retries_are_bounded(attempt: usize, max: usize, tried: Tried, nanos: u32)
    ensures
        retry_delay(attempt, max, tried, nanos) is Some ==> attempt < max,
        tried matches Tried::Response { status, .. } && status < 429 ==> retry_delay(
            attempt,
            max,
            tried,
            nanos,
        ) is None,
{
}

/// A backoff never falls below 200 ms nor exceeds 12.5 s, and its base never shrinks with the
/// attempt.
pub proof fn law_backoff_is_bounded(attempt: usize, later: usize)
    requires
        attempt <= later,
    ensures
        200 <= base_delay(attempt) <= base_delay(later) <= 10_000,
        forall|nanos: u32|
            0 <= #[trigger] jitter(attempt, nanos) < base_delay(attempt) / 4,
{
}

/// Two requests to a host that reserve their starts one after the other start at least the
/// interval apart.
pub proof fn law_starts_are_spaced(next: Option<Span>, now: Span, later: Span, min_interval: Span)
    requires
        now.nanos <= later.nanos,
        scheduled(next, now).nanos + min_interval.nanos <= u128::MAX,
    ensures
        scheduled(
            Some(Span { nanos: (scheduled(next, now).nanos + min_interval.nanos) as u128 }),
            later,
        ).nanos >= scheduled(next, now).nanos + min_interval.nanos,
{
}

/// However a body is cut into chunks, what is kept of it is its first `max` bytes.
pub proof fn law_body_is_capped_whatever_its_chunks(read: Seq<u8>, chunk: Seq<u8>, max: usize)
    ensures
        capped(capped(read, max) + chunk, max) == capped(read + chunk, max),
        capped(read, max).len() <= max,
{
    assert(capped(capped(read, max) + chunk, max) =~= capped(read + chunk, max));
}

/// Where a content type declares no charset, none of its parts between semicolons naming one, the
/// body is read as it would be without any content type: by what the page itself declares.
pub proof fn law_the_page_is_asked_where_the_content_type_is_silent(
    bytes: Seq<u8>,
    content_type: Seq<char>,
)
    requires
        forall|k: int, n: int|
            #![trigger text::pieces(content_type, ';')[k], text::trimmed(
                text::pieces(content_type, ';')[k],
            ).take(n)]
            0 <= k < text::pieces(content_type, ';').len() && 0 <= n < text::trimmed(
                text::pieces(content_type, ';')[k],
            ).len() && text::trimmed(text::pieces(content_type, ';')[k])[n] == '=' ==> text::lowered(
                text::trimmed(text::trimmed(text::pieces(content_type, ';')[k]).take(n)),
            ) != "charset"@,
    ensures
        content_type_charset(content_type) is None,
        body_text(bytes, Some(content_type)) == body_text(bytes, None),
{
    let parts = text::pieces(content_type, ';');
    lemma_charset_letters();
    assert forall|k: int| 0 <= k < parts.len() implies charset_of_part(#[trigger] parts[k]) is None by {
        let p = text::trimmed(parts[k]);
        text::lemma_until(p, '=');
        let n = text::until(p, '=') as int;
        assert(text::trimmed(text::pieces(content_type, ';')[k]).take(n) == p.take(n));
    }
    lemma_no_charset(parts);
}

/// A charset that the content type declares comes first, whatever the page says.
pub proof fn law_the_content_type_comes_first(
    bytes: Seq<u8>,
    content_type: Seq<char>,
    label: Seq<char>,
)
    requires
        content_type_charset(content_type) == Some(label),
    ensures
        decoded(label, bytes) is Some ==> body_text(bytes, Some(content_type)) == decoded(
            label,
            bytes,
        )->0,
        decoded(label, bytes) is None ==> body_text(bytes, Some(content_type)) == decoded(
            "utf-8"@,
            bytes,
        )->0,
{
}

/// A page that declares a charset within its first 4096 bytes is read in that encoding, and in
/// UTF-8 where no encoding has that name or the page declares none.
pub proof fn law_the_page_declares_its_encoding(bytes: Seq<u8>)
    ensures
        ({
            let head = lossy(
                if bytes.len() < 4096 {
                    bytes
                } else {
                    bytes.take(4096)
                },
            );
            match head_charset(head) {
                Some(label) => match decoded(label, bytes) {
                    Some(s) => body_text(bytes, None) == s,
                    None => body_text(bytes, None) == decoded("utf-8"@, bytes)->0,
                },
                None => body_text(bytes, None) == decoded("utf-8"@, bytes)->0,
            }
        }),
{
    if bytes.len() == 4096 {
        assert(bytes.take(4096) =~= bytes);
    }
}

/// The parameter `charset` of a content type is found in whatever part it stands, in whatever case
/// and with white space around it. Its value counts without white space and quotes.
pub proof fn law_the_first_charset_of_a_content_type_counts(
    content_type: Seq<char>,
    k: int,
    name: Seq<char>,
    value: Seq<char>,
    label: Seq<char>,
)
    requires
        0 <= k < text::pieces(content_type, ';').len(),
        forall|j: int|
            0 <= j < k ==> charset_of_part(#[trigger] text::pieces(content_type, ';')[j]) is None,
        text::trimmed(text::pieces(content_type, ';')[k]) == name + seq!['='] + value,
        forall|i: int| 0 <= i < name.len() ==> name[i] != '=',
        text::lowered(text::trimmed(name)) == "charset"@,
        label.len() > 0 ==> label[0] != '"' && label[0] != '\'' && label.last() != '"'
            && label.last() != '\'',
        text::trimmed(value) == label || text::trimmed(value) == seq!['"'] + label + seq!['"']
            || text::trimmed(value) == seq!['\''] + label + seq!['\''],
    ensures
        content_type_charset(content_type) == Some(label),
{
    let parts = text::pieces(content_type, ';');
    let p = text::trimmed(parts[k]);
    let n = name.len();
    lemma_charset_letters();
    assert forall|i: int| 0 <= i < n implies #[trigger] p[i] != '=' by {
        assert(p[i] == name[i]);
    }
    assert(p[n as int] == '=');
    text::lemma_until_is(p, '=', n);
    assert(p.take(n as int) =~= name);
    assert(p.skip(n as int + 1) =~= value);
    lemma_unquoted(label);
    lemma_first_charset(parts, k);
}

proof fn lemma_charset_letters()
    ensures
        text::lowered("charset"@) == "charset"@,
{
    reveal_strlit("charset");
    assert(text::lowered("charset"@) =~= "charset"@);
}

proof fn lemma_bare(s: Seq<char>, c: char)
    requires
        s.len() > 0 ==> s[0] != c && s.last() != c,
    ensures
        text::without_start(s, c) == s,
        text::without_end(s, c) == s,
        text::without_ends(s, c) == s,
{
}

/// One quote at each end goes.
proof fn lemma_between(s: Seq<char>, c: char)
    requires
        s.len() > 0 ==> s[0] != c && s.last() != c,
    ensures
        text::without_ends(seq![c] + s + seq![c], c) == s,
{
    let whole = seq![c] + s + seq![c];
    let rest = s + seq![c];
    lemma_bare(s, c);
    assert(whole[0] == c);
    assert(whole.drop_first() =~= rest);
    assert(text::without_start(whole, c) == text::without_start(rest, c));
    if s.len() > 0 {
        assert(rest[0] == s[0]);
        assert(text::without_start(rest, c) == rest);
        assert(rest.last() == c);
        assert(rest.drop_last() =~= s);
        assert(text::without_end(rest, c) == text::without_end(s, c));
    } else {
        assert(rest[0] == c);
        assert(rest.drop_first() =~= s);
        assert(text::without_start(rest, c) == text::without_start(s, c));
    }
}

proof fn lemma_unquoted(label: Seq<char>)
    requires
        label.len() > 0 ==> label[0] != '"' && label[0] != '\'' && label.last() != '"'
            && label.last() != '\'',
    ensures
        text::without_ends(text::without_ends(label, '"'), '\'') == label,
        text::without_ends(
            text::without_ends(seq!['"'] + label + seq!['"'], '"'),
            '\'',
        ) == label,
        text::without_ends(
            text::without_ends(seq!['\''] + label + seq!['\''], '"'),
            '\'',
        ) == label,
{
    let single = seq!['\''] + label + seq!['\''];
    assert(single[0] == '\'' && single.last() == '\'');
    lemma_bare(label, '"');
    lemma_bare(label, '\'');
    lemma_bare(single, '"');
    lemma_between(label, '"');
    lemma_between(label, '\'');
}

proof fn lemma_no_charset(parts: Seq<Seq<char>>)
    requires
        forall|k: int| 0 <= k < parts.len() ==> charset_of_part(#[trigger] parts[k]) is None,
    ensures
        first_charset(parts) is None,
    decreases parts.len(),
{
    if parts.len() > 0 {
        let rest = parts.drop_first();
        assert(charset_of_part(parts[0]) is None);
        assert forall|k: int| 0 <= k < rest.len() implies charset_of_part(#[trigger] rest[k]) is None by {
            assert(rest[k] == parts[k + 1]);
        }
        lemma_no_charset(rest);
    }
}

proof fn lemma_first_charset(parts: Seq<Seq<char>>, k: int)
    requires
        0 <= k < parts.len(),
        forall|j: int| 0 <= j < k ==> charset_of_part(#[trigger] parts[j]) is None,
        charset_of_part(parts[k]) is Some,
    ensures
        first_charset(parts) == charset_of_part(parts[k]),
    decreases k,
{
    if k > 0 {
        let rest = parts.drop_first();
        assert(charset_of_part(parts[0]) is None);
        assert forall|j: int| 0 <= j < k - 1 implies charset_of_part(#[trigger] rest[j]) is None by {
            assert(rest[j] == parts[j + 1]);
        }
        lemma_first_charset(rest, k - 1);
    }
}

/// The charset of a page is what stands behind the first `charset=` of its head, without spaces and
/// quotes before it, up to a quote, a semicolon, white space or the end of the tag. Where nothing
/// stands there, or the head has no such place, the page declares none.
pub proof fn law_the_head_declares_the_charset(
    head: Seq<char>,
    before: Seq<char>,
    opening: Seq<char>,
    label: Seq<char>,
    rest: Seq<char>,
)
    requires
        text::lowered(head) == before + "charset="@ + opening + label + rest,
        forall|i: int|
            0 <= i < before.len() ==> !#[trigger] text::occurs_at(
                text::lowered(head),
                "charset="@,
                i,
            ),
        forall|i: int|
            0 <= i < opening.len() ==> (#[trigger] opening[i] == ' ' || opening[i] == '"'
                || opening[i] == '\''),
        forall|i: int|
            0 <= i < label.len() ==> !text::is_ws(#[trigger] label[i]) && label[i] != '"' && label[i]
                != '\'' && label[i] != '>' && label[i] != ';',
        rest.len() > 0 ==> text::is_ws(rest[0]) || rest[0] == '"' || rest[0] == '\'' || rest[0]
            == '>' || rest[0] == ';',
    ensures
        label.len() > 0 ==> head_charset(head) == Some(label),
        label.len() == 0 && (rest.len() > 0 ==> rest[0] == '>' || rest[0] == ';')
            ==> head_charset(head) is None,
{
    let lower = text::lowered(head);
    reveal_strlit("charset=");
    let mark = "charset="@;
    let i = before.len() as int;
    text::lemma_next_at(lower, mark, 0);
    assert(lower.subrange(i, i + 8) =~= mark);
    assert(text::occurs_at(lower, mark, i));
    assert(text::next_at(lower, mark, 0) == Some(i));
    let tail = lower.skip(i + 8);
    assert(tail =~= opening + (label + rest));
    lemma_from_label(opening, label + rest);
    lemma_upto_label(label, rest);
}

/// A head without `charset=`, in whatever case, declares none.
pub proof fn law_a_silent_head_declares_nothing(head: Seq<char>)
    requires
        forall|i: int|
            0 <= i < head.len() ==> !#[trigger] text::occurs_at(
                text::lowered(head),
                "charset="@,
                i,
            ),
    ensures
        head_charset(head) is None,
{
    let lower = text::lowered(head);
    text::lemma_next_at(lower, "charset="@, 0);
    reveal_strlit("charset=");
}

proof fn lemma_from_label(opening: Seq<char>, tail: Seq<char>)
    requires
        forall|i: int|
            0 <= i < opening.len() ==> (#[trigger] opening[i] == ' ' || opening[i] == '"'
                || opening[i] == '\''),
    ensures
        tail.len() == 0 || !before_label(tail[0]) ==> from_label(opening + tail) == tail,
    decreases opening.len(),
{
    if opening.len() == 0 {
        assert(opening + tail =~= tail);
    } else {
        assert((opening + tail).drop_first() =~= opening.drop_first() + tail);
        assert((opening + tail)[0] == opening[0]);
        lemma_from_label(opening.drop_first(), tail);
    }
}

proof fn lemma_upto_label(label: Seq<char>, rest: Seq<char>)
    requires
        forall|i: int|
            0 <= i < label.len() ==> !text::is_ws(#[trigger] label[i]) && label[i] != '"' && label[i]
                != '\'' && label[i] != '>' && label[i] != ';',
        rest.len() > 0 ==> text::is_ws(rest[0]) || rest[0] == '"' || rest[0] == '\'' || rest[0]
            == '>' || rest[0] == ';',
    ensures
        upto_label(label + rest) == label,
        label.len() > 0 ==> !before_label((label + rest)[0]),
    decreases label.len(),
{
    assert(text::is_ws(' '));
    if label.len() == 0 {
        assert(label + rest =~= rest);
        assert(upto_label(rest) =~= label);
    } else {
        assert((label + rest)[0] == label[0]);
        assert((label + rest).drop_first() =~= label.drop_first() + rest);
        lemma_upto_label(label.drop_first(), rest);
        assert(seq![label[0]] + label.drop_first() =~= label);
    }
}

/// Of a body the first `max` bytes are kept, or all where there are fewer.
pub proof fn law_the_start_of_a_body_is_kept(bytes: Seq<u8>, max: usize)
    ensures
        bytes.len() <= max ==> capped(bytes, max) == bytes,
        bytes.len() > max ==> capped(bytes, max).len() == max,
        forall|i: int| 0 <= i < capped(bytes, max).len() ==> #[trigger] capped(bytes, max)[i] == bytes[i],
{
}

/// An attempt keeps what the response said: where it came from, its status, its content type, the
/// number of its bytes, the text that they decode to and the delay that was asked for.
pub proof fn law_an_attempt_keeps_the_response(
    final_url: Seq<char>,
    status: u16,
    content_type: Option<Seq<char>>,
    retry_after: Option<Seq<char>>,
    bytes: Seq<u8>,
)
    requires
        bytes.len() <= usize::MAX,
    ensures
        ({
            let a = attempt_of(final_url, status, content_type, retry_after, bytes);
            &&& a.res.final_url == final_url
            &&& a.res.status == status
            &&& a.res.content_type == content_type
            &&& a.res.raw_bytes == bytes.len()
            &&& a.res.html == body_text(bytes, content_type)
            &&& a.retry_after == retry_after_of(retry_after)
        }),
{
}

/// The IPv4 addresses that must not be reached are those of nine ranges, from the first address
/// of each to its last, and no others.
pub proof fn law_blocked_addresses_are_those_of_the_ranges(a: u8, b: u8, c: u8, d: u8)
    ensures
        ({
            let n = a * 0x1000000 + b * 0x10000 + c * 0x100 + d;
            blocked(Ip::V4((a, b, c, d))) <==> {
                ||| n < 0x01000000
                ||| 0x0a000000 <= n < 0x0b000000
                ||| 0x64400000 <= n < 0x64800000
                ||| 0x7f000000 <= n < 0x80000000
                ||| 0xa9fe0000 <= n < 0xa9ff0000
                ||| 0xac100000 <= n < 0xac200000
                ||| 0xc0a80000 <= n < 0xc0a90000
                ||| 0xe0000000 <= n < 0xf0000000
                ||| n == 0xffffffff
            }
        }),
{
}

/// An IPv6 address that stands for an IPv4 address is blocked exactly where that one is.
pub proof fn law_mapped_addresses_are_judged_by_what_they_map(a: u8, b: u8, c: u8, d: u8)
    ensures
        ({
            let high = (a * 256 + b) as u16;
            let low = (c * 256 + d) as u16;
            &&& blocked(Ip::V6((0, 0, 0, 0, 0, 0xffff, high, low))) == blocked(
                Ip::V4((a, b, c, d)),
            )
            &&& blocked(Ip::V6((0x64, 0xff9b, 0, 0, 0, 0, high, low))) == blocked(
                Ip::V4((a, b, c, d)),
            )
        }),
{
    let high = (a * 256 + b) as u16;
    let low = (c * 256 + d) as u16;
    assert(high / 256 == a && high % 256 == b);
    assert(low / 256 == c && low % 256 == d);
}

/// An IPv6 address that stands for no IPv4 address is blocked where it is the unspecified or the
/// loopback address, or its first segment is that of a multicast, unique local or link-local one.
pub proof fn law_local_ipv6_addresses_are_blocked(s: (u16, u16, u16, u16, u16, u16, u16, u16))
    ensures
        s.0 >= 0xff00 ==> blocked(Ip::V6(s)),
        0xfc00 <= s.0 < 0xfe00 ==> blocked(Ip::V6(s)),
        0xfe80 <= s.0 < 0xfec0 ==> blocked(Ip::V6(s)),
        blocked(Ip::V6((0, 0, 0, 0, 0, 0, 0, 0))),
        blocked(Ip::V6((0, 0, 0, 0, 0, 0, 0, 1))),
        0 < s.0 < 0xfc00 && s.0 != 0x64 ==> !blocked(Ip::V6(s)),
        s.0 == 0 && s.1 != 0 ==> !blocked(Ip::V6(s)),
        0xfe00 <= s.0 < 0xfe80 ==> !blocked(Ip::V6(s)),
        0xfec0 <= s.0 < 0xff00 ==> !blocked(Ip::V6(s)),
{
}

/// An address may be reached where it is not blocked, and a loopback address also where local
/// targets are permitted.
pub proof fn law_what_may_be_reached(ip: Ip)
    ensures
        reachable(ip, false) == !blocked(ip),
        !blocked(ip) ==> reachable(ip, true),
        ip matches Ip::V4((a, _, _, _)) ==> (reachable(ip, true) <==> a == 127 || !blocked(ip)),
        ip matches Ip::V6(s) ==> (reachable(ip, true) <==> s == (
            0u16,
            0u16,
            0u16,
            0u16,
            0u16,
            0u16,
            0u16,
            1u16,
        ) || !blocked(ip)),
{
}

/// The resolved addresses keep their order, and nothing is added to them.
pub proof fn law_screening_filters(addrs: Seq<Endpoint>, allow_local: bool)
    ensures
        screened(addrs, allow_local) == addrs.filter(|e: Endpoint| reachable(e.ip, allow_local)),
    decreases addrs.len(),
{
    reveal(Seq::filter);
    if addrs.len() > 0 {
        law_screening_filters(addrs.drop_last(), allow_local);
    } else {
        assert(screened(addrs, allow_local) =~= addrs.filter(
            |e: Endpoint| reachable(e.ip, allow_local),
        ));
    }
}

/// A URL may be fetched where it can be parsed, is one of the web, names a host, and that host is
/// not this machine nor an address that must not be reached. Everything else is refused, and the
/// error says why.
pub proof fn law_urls_are_held_to_the_rules(url: Seq<char>, allow_local: bool)
    ensures
        match weburl::parsed(url) {
            Err(cause) => checked(url, allow_local) == Err::<WebUrlModel, ErrorModel>(
                ErrorModel::InvalidUrl { url, cause },
            ),
            Ok(parts) => if parts.scheme != "http"@ && parts.scheme != "https"@ {
                checked(url, allow_local) == Err::<WebUrlModel, ErrorModel>(
                    ErrorModel::Scheme { scheme: parts.scheme },
                )
            } else {
                match parts.host {
                    None => checked(url, allow_local) == Err::<WebUrlModel, ErrorModel>(
                        ErrorModel::NoHost,
                    ),
                    Some(HostModel::Domain(domain)) => if local_name(domain) && !allow_local {
                        checked(url, allow_local) == Err::<WebUrlModel, ErrorModel>(
                            ErrorModel::LocalName,
                        )
                    } else {
                        checked(url, allow_local) == Ok::<WebUrlModel, ErrorModel>(parts)
                    },
                    Some(HostModel::Address(ip)) => if reachable(ip, allow_local) {
                        checked(url, allow_local) == Ok::<WebUrlModel, ErrorModel>(parts)
                    } else {
                        checked(url, allow_local) == Err::<WebUrlModel, ErrorModel>(
                            ErrorModel::BlockedAddress,
                        )
                    },
                }
            },
        },
{
}

/// A name is one of this machine where it is `localhost`, or ends in it behind a dot, in whatever
/// case and with whatever dots behind it.
pub proof fn law_localhost_is_known_by_its_name(domain: Seq<char>, front: Seq<char>, dots: Seq<char>)
    requires
        forall|i: int| 0 <= i < dots.len() ==> #[trigger] dots[i] == '.',
        front.len() > 0 ==> front.last() == '.',
        text::lowered(domain) == front + "localhost"@ + dots,
    ensures
        local_name(domain),
{
    reveal_strlit("localhost");
    reveal_strlit(".localhost");
    let lower = text::lowered(domain);
    let name = front + "localhost"@;
    let n = name.len() as int;
    assert(lower == name + dots);
    assert(lower.len() == domain.len());
    assert forall|i: int| n <= i < domain.len() implies #[trigger] domain[i] == '.' by {
        assert((name + dots)[i] == dots[i - n]);
        assert(text::lower_char(domain[i]) == '.');
    }
    assert(lower[n - 1] == 't');
    assert(text::lower_char(domain[n - 1]) == 't');
    lemma_without_dots(domain, n);
    let bare = text::lowered(domain.take(n));
    assert forall|i: int| 0 <= i < n implies #[trigger] bare[i] == name[i] by {
        assert(lower[i] == (name + dots)[i]);
        assert(lower[i] == text::lower_char(domain[i]));
    }
    assert(bare =~= name);
    if front.len() == 0 {
        assert(name =~= "localhost"@);
    } else {
        assert(name.subrange(n - 10, n) =~= ".localhost"@) by {
            assert(name[n - 10] == front.last());
        }
    }
}

/// A name that does not hold `localhost` is that of another machine.
pub proof fn law_other_names_are_not_local(domain: Seq<char>)
    requires
        !text::has(text::lowered(domain), "localhost"@),
    ensures
        !local_name(domain),
{
    reveal_strlit("localhost");
    reveal_strlit(".localhost");
    let lower = text::lowered(domain);
    let bare = text::without_end(domain, '.');
    lemma_without_end(domain);
    let name = text::lowered(bare);
    if local_name(domain) {
        let at = name.len() - 9;
        if text::ends(name, ".localhost"@) {
            let tail = name.subrange(name.len() - 10, name.len() as int);
            assert(tail == ".localhost"@);
            assert(name.subrange(at, at + 9) =~= tail.skip(1));
            assert(tail.skip(1) =~= "localhost"@);
        } else {
            assert(name.subrange(at, at + 9) =~= "localhost"@);
        }
        assert(lower.subrange(at, at + 9) =~= name.subrange(at, at + 9));
        assert(text::occurs_at(lower, "localhost"@, at));
    }
}

proof fn lemma_without_dots(s: Seq<char>, n: int)
    requires
        0 < n <= s.len(),
        s[n - 1] != '.',
        forall|i: int| n <= i < s.len() ==> #[trigger] s[i] == '.',
    ensures
        text::without_end(s, '.') == s.take(n),
    decreases s.len(),
{
    if n < s.len() {
        assert(s[s.len() - 1] == '.');
        assert forall|i: int| n <= i < s.drop_last().len() implies #[trigger] s.drop_last()[i] == '.' by {
            assert(s.drop_last()[i] == s[i]);
        }
        lemma_without_dots(s.drop_last(), n);
        assert(s.drop_last().take(n) =~= s.take(n));
    } else {
        assert(s.take(n) =~= s);
    }
}

proof fn lemma_without_end(s: Seq<char>)
    ensures
        text::without_end(s, '.').len() <= s.len(),
        text::without_end(s, '.') == s.take(text::without_end(s, '.').len() as int),
    decreases s.len(),
{
    if s.len() > 0 && s.last() == '.' {
        lemma_without_end(s.drop_last());
        let n = text::without_end(s, '.').len() as int;
        assert(s.drop_last().take(n) =~= s.take(n));
    } else {
        assert(s.take(s.len() as int) =~= s);
    }
}

/// A redirect is followed to the place that it names, one step after the other, up to the limit. A
/// page that is no redirect, or one without a place to go, is taken as it is.
pub proof fn law_redirects_lead_to_their_location(
    url: Seq<char>,
    hop: HopModel,
    status: u16,
    location: LocationModel,
    final_url: Seq<char>,
    max_redirects: usize,
    allow_local: bool,
)
    ensures
        ({
            let step = hop_step(url, hop, status, location, final_url, max_redirects, allow_local);
            let redirects = 300 <= status < 400;
            &&& redirects && hop.count >= max_redirects ==> step == HopStepModel::Fail(
                ErrorModel::TooManyRedirects { url },
            )
            &&& redirects && hop.count < max_redirects ==> match location {
                LocationModel::NotText => step == HopStepModel::Fail(ErrorModel::LocationNotText),
                LocationModel::Text(place) => match weburl::joined(hop.url, place) {
                    Ok(next) => match checked(next, allow_local) {
                        Ok(_) => step == HopStepModel::Follow(
                            HopModel { url: next, count: (hop.count + 1) as usize },
                        ),
                        Err(e) => step == HopStepModel::Fail(e),
                    },
                    Err(cause) => step == HopStepModel::Fail(
                        ErrorModel::BadLocation { location: place, cause },
                    ),
                },
                LocationModel::Absent => true,
            }
            &&& !redirects || (hop.count < max_redirects && location is Absent) ==> match checked(
                final_url,
                allow_local,
            ) {
                Ok(_) => step == HopStepModel::Accept,
                Err(e) => step == HopStepModel::Fail(e),
            }
        }),
{
}

/// A form goes on with a redirect that keeps the method, within its origin, and is refused to
/// another one. Every other redirect is followed without the form, as for any page.
pub proof fn law_forms_go_on_where_the_method_is_kept(
    url: Seq<char>,
    hop: HopModel,
    status: u16,
    location: LocationModel,
    final_url: Seq<char>,
    max_redirects: usize,
    allow_local: bool,
)
    ensures
        ({
            let post = post_step(url, hop, status, location, final_url, max_redirects, allow_local);
            match hop_step(url, hop, status, location, final_url, max_redirects, allow_local) {
                HopStepModel::Follow(next) => {
                    let kept = status == 307 || status == 308;
                    let same = weburl::origin_of(next.url) == weburl::origin_of(hop.url);
                    &&& !kept ==> post == PostStepModel::Follow(next)
                    &&& kept && same ==> post == PostStepModel::Resend(next)
                    &&& kept && !same ==> post == PostStepModel::Fail(
                        ErrorModel::ForeignForm { url: next.url },
                    )
                },
                HopStepModel::Accept => post == PostStepModel::Accept,
                HopStepModel::Fail(e) => post == PostStepModel::Fail(e),
            }
        }),
{
}

/// Five statuses are worth another try, and no others; a failure is where connecting may work the
/// next time. While tries are left, the wait is what the server asks for, or else the backoff.
pub proof fn law_what_may_pass_is_tried_again(
    attempt: usize,
    max: usize,
    status: u16,
    retry_after: Option<Span>,
    transient: bool,
    nanos: u32,
)
    requires
        attempt < max,
    ensures
        ({
            let busy = status == 429 || status == 500 || status == 502 || status == 503 || status
                == 504;
            let backoff = Span {
                nanos: ((base_delay(attempt) + jitter(attempt, nanos)) * 1_000_000) as u128,
            };
            let reply = retry_delay(attempt, max, Tried::Response { status, retry_after }, nanos);
            let error = retry_delay(attempt, max, Tried::Error { transient }, nanos);
            &&& !busy ==> reply is None
            &&& busy && retry_after is Some ==> reply == retry_after
            &&& busy && retry_after is None ==> reply == Some(backoff)
            &&& transient ==> error == Some(backoff)
            &&& !transient ==> error is None
        }),
{
}

/// The backoff starts at 200 ms and doubles with each attempt until it reaches 10 s. Its jitter is
/// where the clock stands within a quarter of it.
pub proof fn law_the_backoff_doubles(attempt: usize, nanos: u32)
    requires
        attempt < usize::MAX,
    ensures
        base_delay(0) == 200,
        base_delay((attempt + 1) as usize) == if 2 * base_delay(attempt) < 10_000 {
            2 * base_delay(attempt)
        } else {
            10_000
        },
        jitter(attempt, nanos) == nanos as int % (base_delay(attempt) as int / 4),
{
}

/// Connecting may work the next time where something in the chain was unreachable and nothing was
/// denied.
pub proof fn law_unreachable_hosts_may_come_back(causes: Seq<Cause>, k: int)
    requires
        0 <= k < causes.len(),
        causes[k] is Unreachable,
    ensures
        transient(causes) <==> forall|i: int|
            0 <= i < causes.len() ==> !(#[trigger] causes[i] is Denied),
{
    assert(causes.contains(Cause::Unreachable));
    if causes.contains(Cause::Denied) {
        let i = choose|i: int| 0 <= i < causes.len() && causes[i] == Cause::Denied;
        assert(causes[i] is Denied);
    }
    if !transient(causes) {
        assert(causes.contains(Cause::Denied));
    }
    assert forall|i: int| transient(causes) && 0 <= i < causes.len() implies !(
    #[trigger] causes[i] is Denied) by {
        if causes[i] is Denied {
            assert(causes.contains(Cause::Denied));
        }
    }
}

/// A number of seconds that a server asks for is waited for, up to a minute. What is no number asks
/// for nothing.
pub proof fn law_servers_are_waited_for_up_to_a_minute(raw: Seq<char>, seconds: u64)
    ensures
        text::trimmed(raw) == text::decimal(seconds as nat) ==> retry_after_of(Some(raw)) == Some(
            Span {
                nanos: if seconds < 60 {
                    (seconds * 1_000_000_000) as u128
                } else {
                    60_000_000_000
                },
            },
        ),
        text::trimmed(raw) == seq!['+'] + text::decimal(seconds as nat) ==> retry_after_of(
            Some(raw),
        ) == retry_after_of(Some(text::decimal(seconds as nat))),
        text::trimmed(raw).len() == 0 ==> retry_after_of(Some(raw)) is None,
        (exists|i: int|
            0 < i < text::trimmed(raw).len() && !text::is_digit(#[trigger] text::trimmed(raw)[i]))
            ==> retry_after_of(Some(raw)) is None,
        text::trimmed(raw).len() > 0 && text::trimmed(raw)[0] != '+' && !text::is_digit(
            text::trimmed(raw)[0],
        ) ==> retry_after_of(Some(raw)) is None,
        retry_after_of(None) is None,
{
    let t = text::trimmed(raw);
    let digits = text::decimal(seconds as nat);
    text::lemma_decimal_value(seconds as nat);
    text::lemma_decimal(seconds as nat);
    text::lemma_digits_trimmed(digits);
    assert(text::is_digit(digits[0]));
    assert((seq!['+'] + digits).drop_first() =~= digits);
    text::lemma_no_digits(t);
    if t.len() > 0 && t[0] == '+' {
        let rest = t.drop_first();
        text::lemma_no_digits(rest);
        if exists|i: int| 0 < i < t.len() && !text::is_digit(#[trigger] t[i]) {
            let i = choose|i: int| 0 < i < t.len() && !text::is_digit(#[trigger] t[i]);
            assert(rest[i - 1] == t[i]);
        }
    } else if exists|i: int| 0 < i < t.len() && !text::is_digit(#[trigger] t[i]) {
        let i = choose|i: int| 0 < i < t.len() && !text::is_digit(#[trigger] t[i]);
        assert(!text::is_digit(t[i]));
    }
}

/// A request starts at the later of the present and the earliest start that was reserved for it.
pub proof fn law_a_start_is_never_early(next: Option<Span>, now: Span)
    ensures
        next is None ==> scheduled(next, now) == now,
        next matches Some(t) ==> scheduled(next, now).nanos == if t.nanos < now.nanos {
            now.nanos
        } else {
            t.nanos
        },
{
}

/// Requests are grouped by the host as the URL names it.
pub proof fn law_hosts_are_told_apart_by_name(url: WebUrlModel)
    ensures
        url.host_text matches Some(h) ==> host_key_of(url) == h,
        url.host_text is None ==> host_key_of(url).len() == 0,
{
}

/// The mathematical value of a fetched page shows every part of it.
pub proof fn law_views_show_every_part(r: FetchResult, a: Attempt, h: Hop)
    ensures
        r.deep_view().final_url == r.final_url@ && r.deep_view().status == r.status
            && r.deep_view().content_type == r.content_type.deep_view() && r.deep_view().html
            == r.html@ && r.deep_view().raw_bytes == r.raw_bytes,
        a.deep_view().res == a.res.deep_view() && a.deep_view().retry_after == a.retry_after,
        h.deep_view().url == h.url@ && h.deep_view().count == h.count,
{
}

/// A content type that names no charset makes no difference to what a body is decoded to, and two
/// that name the same one make none between them.
pub proof fn law_only_the_charset_of_a_content_type_matters(
    bytes: &[u8],
    first: &str,
    second: &str,
    by_first: String,
    by_second: String,
    by_itself: String,
)
    requires
        call_ensures(decode_body, (bytes, Some(first)), by_first),
        call_ensures(decode_body, (bytes, Some(second)), by_second),
        call_ensures(decode_body, (bytes, None::<&str>), by_itself),
    ensures
        content_type_charset(first@) is None ==> by_first@ == by_itself@,
        content_type_charset(first@) == content_type_charset(second@) ==> by_first@ == by_second@,
{
}

/// A URL that may be fetched without local targets may be fetched with them, and comes out the
/// same.
pub proof fn law_permitting_local_targets_refuses_nothing(
    url: &str,
    strict: Result<WebUrl, Error>,
    lenient: Result<WebUrl, Error>,
)
    requires
        call_ensures(parse_and_validate_url_basics, (url, false), strict),
        call_ensures(parse_and_validate_url_basics, (url, true), lenient),
    ensures
        strict matches Ok(parts) ==> (lenient matches Ok(same) && same.deep_view()
            == parts.deep_view()),
{
}

} // verus!
