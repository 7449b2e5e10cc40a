//! Web addresses as plain values.

use vstd::prelude::*;

use crate::text;

verus! {

/// An IP address.
#[derive(Debug, Clone, Copy, PartialEq, Eq)]
pub enum Ip {
    /// The four bytes of an IPv4 address.
    V4((u8, u8, u8, u8)),
    /// The eight segments of an IPv6 address.
    V6((u16, u16, u16, u16, u16, u16, u16, u16)),
}

/// What a URL names as its host.
#[derive(Debug)]
pub enum Host {
    /// A name.
    Domain(String),
    /// An address.
    Address(Ip),
}

/// A host, as a mathematical value.
pub enum HostModel {
    Domain(Seq<char>),
    Address(Ip),
}

impl DeepView for Host {
    type V = HostModel;

    open spec fn deep_view(&self) -> HostModel {
        match self {
            Host::Domain(d) => HostModel::Domain(d@),
            Host::Address(a) => HostModel::Address(*a),
        }
    }
}

/// A parsed URL.
#[derive(Debug)]
pub struct WebUrl {
    /// The whole URL.
    pub href: String,
    /// Its scheme, in small letters.
    pub scheme: String,
    /// Its host as it stands in the URL.
    pub host_text: Option<String>,
    /// Its host by kind.
    pub host: Option<Host>,
}

/// A parsed URL, as a mathematical value.
pub struct WebUrlModel {
    pub href: Seq<char>,
    pub scheme: Seq<char>,
    pub host_text: Option<Seq<char>>,
    pub host: Option<HostModel>,
}

impl DeepView for WebUrl {
    type V = WebUrlModel;

    open spec fn deep_view(&self) -> WebUrlModel {
        WebUrlModel {
            href: self.href@,
            scheme: self.scheme@,
            host_text: self.host_text.deep_view(),
            host: self.host.deep_view(),
        }
    }
}

/// What `url::Url::parse` makes of a text: the parts of the URL, or the words of its error.
pub uninterp spec fn parsed(input: Seq<char>) -> Result<WebUrlModel, Seq<char>>;

/// The URL that `url::Url::join` makes of a reference in a document at `base`, as a text; the
/// words of the error where the base is no URL or the reference cannot be resolved.
pub uninterp spec fn joined(base: Seq<char>, reference: Seq<char>) -> Result<Seq<char>, Seq<char>>;

/// `url::Url::parse`, with the parts of the URL as plain values. The result is a function of
/// the input.
#[verifier::external_body]
pub(crate) fn parse_url(input: &str) -> (r: Result<WebUrl, String>)
    ensures
        match r {
            Ok(u) => parsed(input@) == Ok::<WebUrlModel, Seq<char>>(u.deep_view()),
            Err(e) => parsed(input@) == Err::<WebUrlModel, Seq<char>>(e@),
        },
{
    let u = url::Url::parse(input).map_err(|e| e.to_string())?;
    let host = u.host().map(|h| match h {
        url::Host::Domain(d) => Host::Domain(d.to_string()),
        url::Host::Ipv4(a) => Host::Address(Ip::V4(a.octets().into())),
        url::Host::Ipv6(a) => Host::Address(Ip::V6(a.segments().into())),
    });
    let host_text = u.host_str().map(str::to_string);
    Ok(WebUrl { href: u.to_string(), scheme: u.scheme().to_string(), host_text, host })
}

/// `url::Url::join` on the URL that `base` writes. The result is a function of both texts.
#[verifier::external_body]
pub(crate) fn join_url(base: &str, reference: &str) -> (r: Result<String, String>)
    ensures
        match r {
            Ok(u) => joined(base@, reference@) == Ok::<Seq<char>, Seq<char>>(u@),
            Err(e) => joined(base@, reference@) == Err::<Seq<char>, Seq<char>>(e@),
        },
{
    let u = url::Url::parse(base).and_then(|b| b.join(reference));
    u.map(|u| u.to_string()).map_err(|e| e.to_string())
}

/// The origin of a URL of the web as a text: its scheme, its host, and its port where that is not
/// the usual one.
pub uninterp spec fn written_origin(href: Seq<char>) -> Seq<char>;

/// `url`'s `Url::parse`, `Url::origin` and `Origin::ascii_serialization`. The result is a function
/// of the text. It has no user name and no password: neither the scheme nor the host can hold the
/// sign that stands behind those.
#[verifier::external_body]
fn write_origin(href: &str) -> (r: String)
    requires
        is_web(href@),
    ensures
        r@ == written_origin(href@),
        forall|i: int| 0 <= i < r@.len() ==> r@[i] != '@',
{
    url::Url::parse(href).map(|u| u.origin().ascii_serialization()).unwrap_or_default()
}

/// The origin of a URL; the empty text for what is no URL of the web.
pub open spec fn origin_of(href: Seq<char>) -> Seq<char> {
    if is_web(href) {
        written_origin(href)
    } else {
        seq![]
    }
}

/// The origin of a URL as a text. It has no user name and no password.
pub fn origin(href: &str) -> (r: String)
    ensures
        r@ == origin_of(href@),
        forall|i: int| 0 <= i < r@.len() ==> r@[i] != '@',
{
    if is_web_url(href) {
        write_origin(href)
    } else {
        String::new()
    }
}

/// The scheme is that of the web.
pub open spec fn web_scheme(scheme: Seq<char>) -> bool {
    scheme == "http"@ || scheme == "https"@
}

/// The text is a URL of the web.
pub open spec fn is_web(href: Seq<char>) -> bool {
    parsed(href) matches Ok(u) && web_scheme(u.scheme)
}

/// The URL that a reference means in a document at `base`, or by itself where there is no base.
pub open spec fn absolute(base: Option<Seq<char>>, reference: Seq<char>) -> Option<Seq<char>> {
    match base {
        Some(b) => match joined(b, reference) {
            Ok(href) => Some(href),
            Err(_) => None,
        },
        None => match parsed(reference) {
            Ok(u) => Some(u.href),
            Err(_) => None,
        },
    }
}

/// Whether the scheme is that of the web.
pub fn has_web_scheme(url: &WebUrl) -> (r: bool)
    ensures
        r == web_scheme(url.deep_view().scheme),
{
    text::same(url.scheme.as_str(), "http") || text::same(url.scheme.as_str(), "https")
}

/// Whether `href` is a URL of the web.
pub fn is_web_url(href: &str) -> (r: bool)
    ensures
        r == is_web(href@),
{
    match parse_url(href) {
        Ok(u) => has_web_scheme(&u),
        Err(_) => false,
    }
}

/// The URL that `reference` means in a document at `base`.
pub fn make_absolute(base: &Option<String>, reference: &str) -> (r: Option<String>)
    ensures
        r.deep_view() == absolute(base.deep_view(), reference@),
{
    match base {
        Some(b) => match join_url(b.as_str(), reference) {
            Ok(href) => Some(href),
            Err(_) => None,
        },
        None => match parse_url(reference) {
            Ok(u) => Some(u.href),
            Err(_) => None,
        },
    }
}

/// A text is a URL of the web where it can be parsed and its scheme is `http` or `https`. Such a
/// URL has an origin, and nothing else has one.
pub proof fn law_the_web_is_http_and_https(href: Seq<char>)
    ensures
        parsed(href) is Err ==> !is_web(href),
        parsed(href) matches Ok(u) ==> (is_web(href) <==> u.scheme == "http"@ || u.scheme == "https"@),
        is_web(href) ==> origin_of(href) == written_origin(href),
        !is_web(href) ==> origin_of(href).len() == 0,
{
}

/// A reference is resolved against the base where there is one, and otherwise has to stand for
/// itself.
pub proof fn law_references_are_resolved(base: Seq<char>, reference: Seq<char>)
    ensures
        joined(base, reference) matches Ok(href) ==> absolute(Some(base), reference) == Some(href),
        joined(base, reference) is Err ==> absolute(Some(base), reference) is None,
        parsed(reference) matches Ok(u) ==> absolute(None, reference) == Some(u.href),
        parsed(reference) is Err ==> absolute(None, reference) is None,
{
}

} // verus!
