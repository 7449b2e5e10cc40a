//! What can go wrong, and the limits that decide it.

use vstd::prelude::*;

use crate::text;

verus! {

/// The largest document, in bytes, that is handed to an HTML parser. The parsers address their
/// text with 32 bits, and a parsed text can take up to three times the bytes of its source.
pub const MAX_DOCUMENT_BYTES: usize = 0x4000_0000;

/// `html` is small enough for the HTML parsers.
pub open spec fn parseable(html: Seq<char>) -> bool {
    text::byte_len(html) <= MAX_DOCUMENT_BYTES
}

/// Whether `html` is small enough for the HTML parsers.
pub fn document_fits(html: &str) -> (r: bool)
    ensures
        r == parseable(html@),
{
    text::bytes(html) <= MAX_DOCUMENT_BYTES
}

/// Everything that can go wrong in the library.
#[derive(Debug)]
pub enum Error {
    /// The document is larger than [`MAX_DOCUMENT_BYTES`].
    DocumentTooLarge,
    /// The document is nested deeper than a conversion can follow.
    TooDeep,
    /// The tokenizer gave up on a text.
    Tokenizer,
    /// The Markdown conversion failed.
    Markdown { cause: String },
    /// The reader of main content refused the page's URL.
    ReaderSetup { cause: String },
    /// The reader found no main content.
    ReaderParse { cause: String },
    /// The selector is none.
    BadSelector { selector: String, cause: String },
    /// The selector takes more steps than a search can follow.
    SelectorTooComplex { selector: String },
    /// The selector matched nothing.
    NoMatch { selector: String },
    /// The URL cannot be parsed.
    InvalidUrl { url: String, cause: String },
    /// The URL is not one of the web.
    Scheme { scheme: String },
    /// The URL names no host.
    NoHost,
    /// The host is this machine, by name.
    LocalName,
    /// The host is an address that must not be reached.
    BlockedAddress,
    /// Every address of the host is one that must not be reached.
    AllBlocked { host: String },
    /// The limit on redirects was reached.
    TooManyRedirects { url: String },
    /// A redirect's target is no text.
    LocationNotText,
    /// A redirect's target cannot be resolved.
    BadLocation { location: String, cause: String },
    /// A redirect would carry a form to another origin.
    ForeignForm { url: String },
    /// The host's robots.txt disallows the URL.
    Robots { url: String },
    /// A session's page could not be distilled.
    Snapshot { url: String, cause: String },
    /// The session has no page yet.
    NoActionTree,
    /// No link and no download has that id.
    NoFollowable { action_id: String },
    /// No form has that id.
    NoForm { form_id: String },
    /// No live session has that id.
    UnknownSession { id: String },
    /// No more sessions can be live.
    TooManySessions,
    /// A reply came that nothing was waiting for.
    OutOfTurn,
    /// A request failed outside the library; `details` holds the message with all its causes,
    /// and `transient` says whether another try may succeed.
    Outside { message: String, details: String, transient: bool },
}

/// An error, as a mathematical value.
pub enum ErrorModel {
    DocumentTooLarge,
    TooDeep,
    Tokenizer,
    Markdown { cause: Seq<char> },
    ReaderSetup { cause: Seq<char> },
    ReaderParse { cause: Seq<char> },
    BadSelector { selector: Seq<char>, cause: Seq<char> },
    SelectorTooComplex { selector: Seq<char> },
    NoMatch { selector: Seq<char> },
    InvalidUrl { url: Seq<char>, cause: Seq<char> },
    Scheme { scheme: Seq<char> },
    NoHost,
    LocalName,
    BlockedAddress,
    AllBlocked { host: Seq<char> },
    TooManyRedirects { url: Seq<char> },
    LocationNotText,
    BadLocation { location: Seq<char>, cause: Seq<char> },
    ForeignForm { url: Seq<char> },
    Robots { url: Seq<char> },
    Snapshot { url: Seq<char>, cause: Seq<char> },
    NoActionTree,
    NoFollowable { action_id: Seq<char> },
    NoForm { form_id: Seq<char> },
    UnknownSession { id: Seq<char> },
    TooManySessions,
    OutOfTurn,
    Outside { message: Seq<char>, details: Seq<char>, transient: bool },
}

impl DeepView for Error {
    type V = ErrorModel;

    open spec fn deep_view(&self) -> ErrorModel {
        match self {
            Error::DocumentTooLarge => ErrorModel::DocumentTooLarge,
            Error::TooDeep => ErrorModel::TooDeep,
            Error::Tokenizer => ErrorModel::Tokenizer,
            Error::Markdown { cause } => ErrorModel::Markdown { cause: cause@ },
            Error::ReaderSetup { cause } => ErrorModel::ReaderSetup { cause: cause@ },
            Error::ReaderParse { cause } => ErrorModel::ReaderParse { cause: cause@ },
            Error::BadSelector { selector, cause } => ErrorModel::BadSelector { selector: selector@, cause: cause@ },
            Error::SelectorTooComplex { selector } => ErrorModel::SelectorTooComplex { selector: selector@ },
            Error::NoMatch { selector } => ErrorModel::NoMatch { selector: selector@ },
            Error::InvalidUrl { url, cause } => ErrorModel::InvalidUrl { url: url@, cause: cause@ },
            Error::Scheme { scheme } => ErrorModel::Scheme { scheme: scheme@ },
            Error::NoHost => ErrorModel::NoHost,
            Error::LocalName => ErrorModel::LocalName,
            Error::BlockedAddress => ErrorModel::BlockedAddress,
            Error::AllBlocked { host } => ErrorModel::AllBlocked { host: host@ },
            Error::TooManyRedirects { url } => ErrorModel::TooManyRedirects { url: url@ },
            Error::LocationNotText => ErrorModel::LocationNotText,
            Error::BadLocation { location, cause } => ErrorModel::BadLocation { location: location@, cause: cause@ },
            Error::ForeignForm { url } => ErrorModel::ForeignForm { url: url@ },
            Error::Robots { url } => ErrorModel::Robots { url: url@ },
            Error::Snapshot { url, cause } => ErrorModel::Snapshot { url: url@, cause: cause@ },
            Error::NoActionTree => ErrorModel::NoActionTree,
            Error::NoFollowable { action_id } => ErrorModel::NoFollowable { action_id: action_id@ },
            Error::NoForm { form_id } => ErrorModel::NoForm { form_id: form_id@ },
            Error::UnknownSession { id } => ErrorModel::UnknownSession { id: id@ },
            Error::TooManySessions => ErrorModel::TooManySessions,
            Error::OutOfTurn => ErrorModel::OutOfTurn,
            Error::Outside { message, details, transient } => ErrorModel::Outside { message: message@, details: details@, transient: *transient },
        }
    }
}

impl ErrorModel {
    /// The error may pass.
    pub open spec fn may_pass(self) -> bool {
        self matches ErrorModel::Outside { transient, .. } && transient
    }

    /// What the error says.
    pub open spec fn message(self) -> Seq<char> {
        match self {
            ErrorModel::DocumentTooLarge => "document is too large to parse"@,
            ErrorModel::TooDeep => "document is nested too deeply"@,
            ErrorModel::Tokenizer => "text cannot be tokenized"@,
            ErrorModel::Markdown { cause } => "HTML→Markdown conversion failed: "@ + cause,
            ErrorModel::ReaderSetup { .. } => "initialising readability parser"@,
            ErrorModel::ReaderParse { .. } => "extracting main content"@,
            ErrorModel::BadSelector { selector, cause } => "invalid CSS selector '"@ + selector + "': "@ + cause,
            ErrorModel::SelectorTooComplex { selector } => "selector '"@ + selector + "' is too complex"@,
            ErrorModel::NoMatch { selector } => "selector '"@ + selector + "' matched no elements"@,
            ErrorModel::InvalidUrl { url, .. } => "invalid URL: "@ + url,
            ErrorModel::Scheme { scheme } => "unsupported URL scheme '"@ + scheme + "'; only http and https are allowed"@,
            ErrorModel::NoHost => "URL must include a host"@,
            ErrorModel::LocalName => "refusing to fetch localhost URL (enable allow_local to permit)"@,
            ErrorModel::BlockedAddress => "refusing to fetch private, local, link-local, or metadata IP address"@,
            ErrorModel::AllBlocked { host } => "refusing to connect to "@ + host + ": all resolved addresses are private, local, link-local, or metadata"@,
            ErrorModel::TooManyRedirects { url } => "too many redirects while requesting "@ + url,
            ErrorModel::LocationNotText => "redirect Location header is not valid UTF-8"@,
            ErrorModel::BadLocation { location, .. } => "invalid redirect Location: "@ + location,
            ErrorModel::ForeignForm { url } => "refusing to forward form data to another origin: "@ + url,
            ErrorModel::Robots { url } => "blocked by robots.txt: "@ + url,
            ErrorModel::Snapshot { url, .. } => "distilling session snapshot for "@ + url,
            ErrorModel::NoActionTree => "no action tree to follow; observe a page first"@,
            ErrorModel::NoFollowable { action_id } => "no followable action '"@ + action_id + "' in the current snapshot"@,
            ErrorModel::NoForm { form_id } => "no form '"@ + form_id + "' in the current snapshot"@,
            ErrorModel::UnknownSession { id } => "unknown session '"@ + id + "'"@,
            ErrorModel::TooManySessions => "too many live sessions; close one with session_close first (limit 64)"@,
            ErrorModel::OutOfTurn => "reply does not match the request"@,
            ErrorModel::Outside { message, .. } => message,
        }
    }

    /// What the error says, and behind it what its cause says.
    pub open spec fn chain(self) -> Seq<char> {
        match self {
            ErrorModel::ReaderSetup { cause } => self.message() + ": "@ + cause,
            ErrorModel::ReaderParse { cause } => self.message() + ": "@ + cause,
            ErrorModel::InvalidUrl { cause, .. } => self.message() + ": "@ + cause,
            ErrorModel::BadLocation { cause, .. } => self.message() + ": "@ + cause,
            ErrorModel::Snapshot { cause, .. } => self.message() + ": "@ + cause,
            ErrorModel::Outside { details, .. } => details,
            _ => self.message(),
        }
    }
}

impl Error {
    /// Whether the error may pass.
    pub fn may_pass(&self) -> (r: bool)
        ensures
            r == self.deep_view().may_pass(),
    {
        match self {
            Error::Outside { transient, .. } => *transient,
            _ => false,
        }
    }

    /// What the error says.
    pub fn message(&self) -> (r: String)
        ensures
            r@ == self.deep_view().message(),
    {
        match self {
            Error::DocumentTooLarge => "document is too large to parse".to_string(),
            Error::TooDeep => "document is nested too deeply".to_string(),
            Error::Tokenizer => "text cannot be tokenized".to_string(),
            Error::Markdown { cause } => {
                let mut s = "HTML→Markdown conversion failed: ".to_string();
                s.push_str(cause.as_str());
                s
            },
            Error::ReaderSetup { .. } => "initialising readability parser".to_string(),
            Error::ReaderParse { .. } => "extracting main content".to_string(),
            Error::BadSelector { selector, cause } => {
                let mut s = "invalid CSS selector '".to_string();
                s.push_str(selector.as_str());
                s.push_str("': ");
                s.push_str(cause.as_str());
                s
            },
            Error::SelectorTooComplex { selector } => {
                let mut s = "selector '".to_string();
                s.push_str(selector.as_str());
                s.push_str("' is too complex");
                s
            },
            Error::NoMatch { selector } => {
                let mut s = "selector '".to_string();
                s.push_str(selector.as_str());
                s.push_str("' matched no elements");
                s
            },
            Error::InvalidUrl { url, .. } => {
                let mut s = "invalid URL: ".to_string();
                s.push_str(url.as_str());
                s
            },
            Error::Scheme { scheme } => {
                let mut s = "unsupported URL scheme '".to_string();
                s.push_str(scheme.as_str());
                s.push_str("'; only http and https are allowed");
                s
            },
            Error::NoHost => "URL must include a host".to_string(),
            Error::LocalName => "refusing to fetch localhost URL (enable allow_local to permit)".to_string(),
            Error::BlockedAddress => "refusing to fetch private, local, link-local, or metadata IP address".to_string(),
            Error::AllBlocked { host } => {
                let mut s = "refusing to connect to ".to_string();
                s.push_str(host.as_str());
                s.push_str(": all resolved addresses are private, local, link-local, or metadata");
                s
            },
            Error::TooManyRedirects { url } => {
                let mut s = "too many redirects while requesting ".to_string();
                s.push_str(url.as_str());
                s
            },
            Error::LocationNotText => "redirect Location header is not valid UTF-8".to_string(),
            Error::BadLocation { location, .. } => {
                let mut s = "invalid redirect Location: ".to_string();
                s.push_str(location.as_str());
                s
            },
            Error::ForeignForm { url } => {
                let mut s = "refusing to forward form data to another origin: ".to_string();
                s.push_str(url.as_str());
                s
            },
            Error::Robots { url } => {
                let mut s = "blocked by robots.txt: ".to_string();
                s.push_str(url.as_str());
                s
            },
            Error::Snapshot { url, .. } => {
                let mut s = "distilling session snapshot for ".to_string();
                s.push_str(url.as_str());
                s
            },
            Error::NoActionTree => "no action tree to follow; observe a page first".to_string(),
            Error::NoFollowable { action_id } => {
                let mut s = "no followable action '".to_string();
                s.push_str(action_id.as_str());
                s.push_str("' in the current snapshot");
                s
            },
            Error::NoForm { form_id } => {
                let mut s = "no form '".to_string();
                s.push_str(form_id.as_str());
                s.push_str("' in the current snapshot");
                s
            },
            Error::UnknownSession { id } => {
                let mut s = "unknown session '".to_string();
                s.push_str(id.as_str());
                s.push_str("'");
                s
            },
            Error::TooManySessions => "too many live sessions; close one with session_close first (limit 64)".to_string(),
            Error::OutOfTurn => "reply does not match the request".to_string(),
            Error::Outside { message, .. } => message.clone(),
        }
    }

    /// What the error says, and behind it what its cause says.
    pub fn chain(&self) -> (r: String)
        ensures
            r@ == self.deep_view().chain(),
    {
        let mut s = self.message();
        match self {
            Error::ReaderSetup { cause } => {
                s.push_str(": ");
                s.push_str(cause.as_str());
                s
            },
            Error::ReaderParse { cause } => {
                s.push_str(": ");
                s.push_str(cause.as_str());
                s
            },
            Error::InvalidUrl { cause, .. } => {
                s.push_str(": ");
                s.push_str(cause.as_str());
                s
            },
            Error::BadLocation { cause, .. } => {
                s.push_str(": ");
                s.push_str(cause.as_str());
                s
            },
            Error::Snapshot { cause, .. } => {
                s.push_str(": ");
                s.push_str(cause.as_str());
                s
            },
            Error::Outside { details, .. } => details.clone(),
            _ => s,
        }
    }
}

/// The outcome of what gives no value, as a mathematical value.
pub open spec fn unit_outcome(r: Result<(), Error>) -> Result<(), ErrorModel> {
    match r {
        Ok(_) => Ok(()),
        Err(e) => Err(e.deep_view()),
    }
}

/// The outcome with its mathematical value.
pub open spec fn outcome<T: DeepView>(r: Result<T, Error>) -> Result<T::V, ErrorModel> {
    match r {
        Ok(t) => Ok(t.deep_view()),
        Err(e) => Err(e.deep_view()),
    }
}

/// An error that has a cause says it behind its own words; every other one says just these. Only an
/// error from outside may pass, and it says so itself.
pub proof fn law_errors_name_their_cause(
    e: ErrorModel,
    url: Seq<char>,
    cause: Seq<char>,
    transient: bool,
)
    ensures
        (ErrorModel::InvalidUrl { url, cause }).chain() == "invalid URL: "@ + url + ": "@ + cause,
        (ErrorModel::BadLocation { location: url, cause }).chain() == "invalid redirect Location: "@
            + url + ": "@ + cause,
        (ErrorModel::Snapshot { url, cause }).chain() == "distilling session snapshot for "@ + url
            + ": "@ + cause,
        (ErrorModel::ReaderSetup { cause }).chain() == "initialising readability parser"@ + ": "@
            + cause,
        (ErrorModel::ReaderParse { cause }).chain() == "extracting main content"@ + ": "@ + cause,
        ({
            let outside = ErrorModel::Outside { message: url, details: cause, transient };
            outside.message() == url && outside.chain() == cause && outside.may_pass() == transient
        }),
        !(e is Outside) ==> !e.may_pass(),
        !(e is InvalidUrl) && !(e is BadLocation) && !(e is Snapshot) && !(e is ReaderSetup) && !(
        e is ReaderParse) && !(e is Outside) ==> e.chain() == e.message(),
{
}

/// An error names what it is about: the URL, the host, the id or the selector.
pub proof fn law_errors_name_what_they_are_about(name: Seq<char>, cause: Seq<char>)
    ensures
        (ErrorModel::Robots { url: name }).message() == "blocked by robots.txt: "@ + name,
        (ErrorModel::ForeignForm { url: name }).message()
            == "refusing to forward form data to another origin: "@ + name,
        (ErrorModel::TooManyRedirects { url: name }).message()
            == "too many redirects while requesting "@ + name,
        (ErrorModel::AllBlocked { host: name }).message() == "refusing to connect to "@ + name
            + ": all resolved addresses are private, local, link-local, or metadata"@,
        (ErrorModel::Scheme { scheme: name }).message() == "unsupported URL scheme '"@ + name
            + "'; only http and https are allowed"@,
        (ErrorModel::NoFollowable { action_id: name }).message() == "no followable action '"@ + name
            + "' in the current snapshot"@,
        (ErrorModel::NoForm { form_id: name }).message() == "no form '"@ + name
            + "' in the current snapshot"@,
        (ErrorModel::UnknownSession { id: name }).message() == "unknown session '"@ + name + "'"@,
        (ErrorModel::NoMatch { selector: name }).message() == "selector '"@ + name
            + "' matched no elements"@,
        (ErrorModel::BadSelector { selector: name, cause }).message() == "invalid CSS selector '"@
            + name + "': "@ + cause,
        (ErrorModel::SelectorTooComplex { selector: name }).message() == "selector '"@ + name
            + "' is too complex"@,
        (ErrorModel::Markdown { cause }).message() == "HTML→Markdown conversion failed: "@ + cause,
{
}

/// An error without a name says what went wrong in fixed words.
pub proof fn law_errors_without_a_name_have_fixed_words(url: Seq<char>, cause: Seq<char>)
    ensures
        ErrorModel::DocumentTooLarge.message() == "document is too large to parse"@,
        ErrorModel::TooDeep.message() == "document is nested too deeply"@,
        ErrorModel::Tokenizer.message() == "text cannot be tokenized"@,
        ErrorModel::NoHost.message() == "URL must include a host"@,
        ErrorModel::LocalName.message()
            == "refusing to fetch localhost URL (enable allow_local to permit)"@,
        ErrorModel::BlockedAddress.message()
            == "refusing to fetch private, local, link-local, or metadata IP address"@,
        ErrorModel::LocationNotText.message() == "redirect Location header is not valid UTF-8"@,
        ErrorModel::NoActionTree.message() == "no action tree to follow; observe a page first"@,
        ErrorModel::TooManySessions.message()
            == "too many live sessions; close one with session_close first (limit 64)"@,
        ErrorModel::OutOfTurn.message() == "reply does not match the request"@,
        (ErrorModel::InvalidUrl { url, cause }).message() == "invalid URL: "@ + url,
        (ErrorModel::BadLocation { location: url, cause }).message()
            == "invalid redirect Location: "@ + url,
        (ErrorModel::Snapshot { url, cause }).message() == "distilling session snapshot for "@ + url,
        (ErrorModel::ReaderSetup { cause }).message() == "initialising readability parser"@,
        (ErrorModel::ReaderParse { cause }).message() == "extracting main content"@,
{
}

} // verus!
