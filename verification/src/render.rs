//! The rules of rendering in a headless browser: when a page needs it, how the browser is
//! started, and how much of the result is kept.

use vstd::prelude::*;

use crate::fetch;
use crate::span::Span;
use crate::text;

verus! {

/// Below this many visible characters a page may be rendered, if it looks like an app as well.
pub const JS_TEXT_THRESHOLD: usize = 200;

/// How many bytes of a rendered document are kept.
pub const MAX_RENDER_BYTES: usize = 16_777_216;

/// The page carries the mark of a framework that renders in the browser.
pub open spec fn has_app_marker(html: Seq<char>) -> bool {
    ||| text::has(html, "__NEXT_DATA__"@)
    ||| text::has(html, "id=\"__next\""@)
    ||| text::has(html, "id=\"root\""@)
    ||| text::has(html, "id=\"app\""@)
    ||| text::has(html, "data-reactroot"@)
    ||| text::has(html, "ng-app"@)
    ||| text::has(html, "<app-root"@)
    ||| text::has(html, "data-server-rendered"@)
    ||| text::has(html, "window.__NUXT__"@)
}

/// The page looks like an app whose content appears only once JavaScript runs: by the mark of a
/// framework, or by at least two scripts.
pub open spec fn js_app(html: Seq<char>) -> bool {
    has_app_marker(html) || text::occurrences(html, "<script"@, 0) >= 2
}

/// Whether the page looks like an app whose content appears only once JavaScript runs.
pub fn looks_like_js_app(html: &str) -> (r: bool)
    ensures
        r == js_app(html@),
{
    let chars = text::to_chars(html);
    let h = chars.as_slice();
    if text::contains(h, "__NEXT_DATA__") || text::contains(h, "id=\"__next\"") || text::contains(
        h,
        "id=\"root\"",
    ) || text::contains(h, "id=\"app\"") || text::contains(h, "data-reactroot")
        || text::contains(h, "ng-app") || text::contains(h, "<app-root") || text::contains(
        h,
        "data-server-rendered",
    ) || text::contains(h, "window.__NUXT__") {
        return true;
    }
    let script = text::to_chars("<script");
    proof {
        reveal_strlit("<script");
    }
    match text::find(h, script.as_slice(), 0) {
        Some(i) => {
            let len: usize = chars.len();
            let second = text::find(h, script.as_slice(), i + script.len());
            proof {
                reveal_with_fuel(text::occurrences, 2);
            }
            second.is_some()
        },
        None => false,
    }
}

/// How many characters are no white space.
pub open spec fn visible(s: Seq<char>) -> nat
    decreases s.len(),
{
    if s.len() == 0 {
        0
    } else {
        visible(s.drop_last()) + if text::is_ws(s.last()) {
            0nat
        } else {
            1nat
        }
    }
}

/// Whether the text has fewer than `limit` visible characters. White space that lays a page out
/// would hide that it is empty, so it does not count.
pub fn visible_below(s: &str, limit: usize) -> (r: bool)
    ensures
        r == (visible(s@) < limit),
{
    let chars = text::to_chars(s);
    let mut sum: usize = 0;
    for i in 0..chars.len()
        invariant
            chars@ == s@,
            sum == visible(s@.take(i as int)),
            sum <= i,
    {
        assert(s@.take(i + 1).drop_last() =~= s@.take(i as int));
        if !text::whitespace(chars[i]) {
            sum = sum + 1;
        }
    }
    assert(s@.take(s@.len() as int) =~= s@);
    sum < limit
}

/// The value of a flag in the environment means yes: it is neither blank nor `0` nor `false`.
pub open spec fn truthy(v: Seq<char>) -> bool {
    let t = text::trimmed(v);
    t.len() > 0 && t != "0"@ && !text::same_letters(t, "false"@)
}

/// Whether the value of a flag in the environment means yes.
pub fn is_truthy_flag(v: &str) -> (r: bool)
    ensures
        r == truthy(v@),
{
    let t = text::trim_str(v);
    !t.as_str().is_empty() && !text::same(t.as_str(), "0") && !text::eq_ignore_case(
        t.as_str(),
        "false",
    )
}

/// Whether the browser's sandbox is to be switched off: only where the flag in the environment
/// says so.
pub open spec fn sandbox_off(flag: Option<Seq<char>>) -> bool {
    flag matches Some(v) && truthy(v)
}

/// Whether the browser's sandbox is to be switched off.
pub fn no_sandbox_requested(flag: Option<&str>) -> (r: bool)
    ensures
        r == sandbox_off(text::opt(flag)),
{
    match flag {
        Some(v) => is_truthy_flag(v),
        None => false,
    }
}

/// The arguments with which every headless browser is started.
pub open spec fn base_args(flag: Option<Seq<char>>) -> Seq<Seq<char>> {
    let fixed = seq!["--headless=new"@, "--disable-gpu"@, "--disable-dev-shm-usage"@];
    if sandbox_off(flag) {
        fixed.push("--no-sandbox"@)
    } else {
        fixed
    }
}

/// The arguments with which every headless browser is started. `flag` is the environment's word
/// on the sandbox, which stays on without it.
pub fn base_headless_args(flag: Option<&str>) -> (r: Vec<String>)
    ensures
        r.deep_view() == base_args(text::opt(flag)),
{
    let mut args: Vec<String> = Vec::new();
    args.push("--headless=new".to_string());
    args.push("--disable-gpu".to_string());
    args.push("--disable-dev-shm-usage".to_string());
    if no_sandbox_requested(flag) {
        args.push("--no-sandbox".to_string());
    }
    assert(args.deep_view() =~= base_args(text::opt(flag)));
    args
}

/// The arguments for printing a rendered document: how long JavaScript may run, at least a second,
/// and the URL.
pub open spec fn dump_args(flag: Option<Seq<char>>, url: Seq<char>, wait: Span) -> Seq<Seq<char>> {
    let ms = if wait.nanos / 1_000_000 >= 1000 {
        (wait.nanos / 1_000_000) as nat
    } else {
        1000nat
    };
    base_args(flag).push("--virtual-time-budget="@ + text::decimal(ms)).push("--dump-dom"@).push(
        url,
    )
}

/// The arguments for printing a rendered document.
pub fn dump_dom_args(flag: Option<&str>, url: &str, wait: Span) -> (r: Vec<String>)
    ensures
        r.deep_view() == dump_args(text::opt(flag), url@, wait),
{
    let ms: u128 = if wait.as_millis() >= 1000 {
        wait.as_millis()
    } else {
        1000
    };
    let mut args = base_headless_args(flag);
    let budget = text::concat("--virtual-time-budget=", text::to_decimal(ms).as_str());
    args.push(budget);
    args.push("--dump-dom".to_string());
    args.push(url.to_string());
    assert(args.deep_view() =~= dump_args(text::opt(flag), url@, wait));
    args
}

/// The arguments for a browser that is driven over its debugging port.
pub open spec fn debug_args(flag: Option<Seq<char>>, user_dir: Seq<char>) -> Seq<Seq<char>> {
    base_args(flag).push("--remote-debugging-port=0"@).push("--user-data-dir="@ + user_dir).push(
        "about:blank"@,
    )
}

/// The arguments for a browser that is driven over its debugging port, with its profile in
/// `user_dir`.
pub fn debugging_args(flag: Option<&str>, user_dir: &str) -> (r: Vec<String>)
    ensures
        r.deep_view() == debug_args(text::opt(flag), user_dir@),
{
    let mut args = base_headless_args(flag);
    args.push("--remote-debugging-port=0".to_string());
    args.push(text::concat("--user-data-dir=", user_dir));
    args.push("about:blank".to_string());
    assert(args.deep_view() =~= debug_args(text::opt(flag), user_dir@));
    args
}

/// The port that the browser wrote into the first line of its port file.
pub open spec fn port_of(content: Seq<char>) -> Option<u16> {
    let lines = text::lines_of(content);
    if lines.len() == 0 {
        None
    } else {
        match text::number_value(text::trimmed(lines[0])) {
            Some(n) => if n <= u16::MAX {
                Some(n as u16)
            } else {
                None
            },
            None => None,
        }
    }
}

/// Reads the port that the browser wrote into its port file.
pub fn read_port(content: &str) -> (r: Option<u16>)
    ensures
        r == port_of(content@),
{
    let chars = text::to_chars(content);
    let lines = text::lines(chars.as_slice());
    if lines.len() == 0 {
        return None;
    }
    assert(text::texts(lines@)[0] == lines@[0]@);
    match text::parse_number(text::trim(lines[0].as_slice())) {
        Some(n) => if n <= 65_535 {
            Some(n as u16)
        } else {
            None
        },
        None => None,
    }
}

/// A target that the browser offers for debugging.
#[derive(Debug)]
pub struct Target {
    /// What it is.
    pub kind: Option<String>,
    /// Where it can be driven.
    pub socket: Option<String>,
}

/// A target that the browser offers for debugging, as a mathematical value.
#[verifier::ext_equal]
pub struct TargetModel {
    pub kind: Option<Seq<char>>,
    pub socket: Option<Seq<char>>,
}

impl DeepView for Target {
    type V = TargetModel;

    open spec fn deep_view(&self) -> TargetModel {
        TargetModel { kind: self.kind.deep_view(), socket: self.socket.deep_view() }
    }
}

/// Where the first page among the targets can be driven.
pub open spec fn page_socket(targets: Seq<TargetModel>) -> Option<Seq<char>>
    decreases targets.len(),
{
    if targets.len() == 0 {
        None
    } else if targets[0].kind == Some("page"@) {
        targets[0].socket
    } else {
        page_socket(targets.drop_first())
    }
}

/// Finds where the first page among the targets can be driven.
pub fn find_page_socket(targets: &Vec<Target>) -> (r: Option<String>)
    ensures
        r.deep_view() == page_socket(targets.deep_view()),
{
    let ghost all = targets.deep_view();
    assert(all.skip(0) =~= all);
    for i in 0..targets.len()
        invariant
            all == targets.deep_view(),
            page_socket(all.skip(i as int)) == page_socket(all),
    {
        assert(all.skip(i as int)[0] == targets@[i as int].deep_view());
        assert(all.skip(i as int).drop_first() =~= all.skip(i + 1));
        if let Some(kind) = &targets[i].kind {
            if text::same(kind.as_str(), "page") {
                return text::copy_opt(&targets[i].socket);
            }
        }
    }
    assert(all.skip(all.len() as int).len() == 0);
    None
}

/// What to do after a page was probed for an element.
#[derive(Debug, Clone, Copy, PartialEq, Eq, Structural)]
pub enum Probe {
    /// Take the document as it is, by the message with that number.
    Capture { id: u64 },
    /// Wait a while, and probe again by the message with that number.
    Again { id: u64 },
}

/// Decides how to go on after the probe with the number `id`: a page is captured once the element
/// is there, or when the time is up.
pub fn next_probe(id: u64, found: bool, expired: bool) -> (r: Probe)
    requires
        id <= u64::MAX - 2,
    ensures
        r == (if found {
            Probe::Capture { id: (id + 1) as u64 }
        } else if expired {
            Probe::Capture { id: (id + 2) as u64 }
        } else {
            Probe::Again { id: (id + 1) as u64 }
        }),
{
    if found {
        Probe::Capture { id: id + 1 }
    } else if expired {
        Probe::Capture { id: id + 2 }
    } else {
        Probe::Again { id: id + 1 }
    }
}

/// Where browsers are usually installed.
pub open spec fn usual_browsers() -> Seq<Seq<char>> {
    seq![
        "C:\\Program Files\\Google\\Chrome\\Application\\chrome.exe"@,
        "C:\\Program Files (x86)\\Google\\Chrome\\Application\\chrome.exe"@,
        "C:\\Program Files\\Chromium\\Application\\chrome.exe"@,
        "C:\\Program Files (x86)\\Microsoft\\Edge\\Application\\msedge.exe"@,
        "C:\\Program Files\\Microsoft\\Edge\\Application\\msedge.exe"@,
        "/usr/bin/google-chrome"@,
        "/usr/bin/chromium"@,
        "/usr/bin/chromium-browser"@,
        "/Applications/Google Chrome.app/Contents/MacOS/Google Chrome"@,
    ]
}

/// Where to look for a browser, in that order: at the configured path first, where there is one.
pub fn browser_paths(configured: Option<&str>) -> (r: Vec<String>)
    ensures
        r.deep_view() == (match text::opt(configured) {
            Some(path) => if path.len() == 0 {
                usual_browsers()
            } else {
                seq![path] + usual_browsers()
            },
            None => usual_browsers(),
        }),
{
    let mut paths: Vec<String> = Vec::new();
    if let Some(path) = configured {
        if !path.is_empty() {
            paths.push(path.to_string());
        }
    }
    let ghost head = paths.deep_view();
    paths.push("C:\\Program Files\\Google\\Chrome\\Application\\chrome.exe".to_string());
    paths.push("C:\\Program Files (x86)\\Google\\Chrome\\Application\\chrome.exe".to_string());
    paths.push("C:\\Program Files\\Chromium\\Application\\chrome.exe".to_string());
    paths.push("C:\\Program Files (x86)\\Microsoft\\Edge\\Application\\msedge.exe".to_string());
    paths.push("C:\\Program Files\\Microsoft\\Edge\\Application\\msedge.exe".to_string());
    paths.push("/usr/bin/google-chrome".to_string());
    paths.push("/usr/bin/chromium".to_string());
    paths.push("/usr/bin/chromium-browser".to_string());
    paths.push("/Applications/Google Chrome.app/Contents/MacOS/Google Chrome".to_string());
    assert(paths.deep_view() =~= head + usual_browsers());
    assert(head =~= match text::opt(configured) {
        Some(path) => if path.len() == 0 {
            seq![]
        } else {
            seq![path]
        },
        None => seq![],
    });
    paths
}

/// How many characters of `s` fit into `max` bytes.
pub open spec fn chars_within(s: Seq<char>, max: nat) -> nat
    decreases s.len(),
{
    if s.len() == 0 || text::char_width(s[0]) > max {
        0
    } else {
        1 + chars_within(s.drop_first(), (max - text::char_width(s[0])) as nat)
    }
}

/// `html` up to the last character that ends within [`MAX_RENDER_BYTES`] bytes.
pub open spec fn capped_dom(html: Seq<char>) -> Seq<char> {
    html.take(chars_within(html, MAX_RENDER_BYTES as nat) as int)
}

proof fn lemma_chars_within(s: Seq<char>, max: nat)
    ensures
        chars_within(s, max) <= s.len(),
    decreases s.len(),
{
    if s.len() > 0 && text::char_width(s[0]) <= max {
        lemma_chars_within(s.drop_first(), (max - text::char_width(s[0])) as nat);
    }
}

/// Cuts a rendered document down to [`MAX_RENDER_BYTES`] bytes, never within a character.
pub fn cap_dom(html: String) -> (r: String)
    ensures
        r@ == capped_dom(html@),
{
    let chars = text::to_chars(html.as_str());
    let mut n: usize = 0;
    let mut left: usize = MAX_RENDER_BYTES;
    assert(chars@.skip(0) =~= chars@);
    while n < chars.len() && text::width(chars[n]) <= left
        invariant
            n <= chars@.len(),
            chars_within(chars@, MAX_RENDER_BYTES as nat) == n + chars_within(
                chars@.skip(n as int),
                left as nat,
            ),
        decreases chars@.len() - n,
    {
        assert(chars@.skip(n as int).drop_first() =~= chars@.skip(n + 1));
        left = left - text::width(chars[n]);
        n = n + 1;
    }
    let head = vstd::slice::slice_subrange(chars.as_slice(), 0, n);
    assert(head@ =~= chars@.take(n as int));
    text::from_chars(head)
}

/// What a browser's printed document says: its first [`MAX_RENDER_BYTES`] bytes, and of the text
/// that they make again no more than so many; nothing where that is blank.
pub open spec fn dumped(stdout: Seq<u8>) -> Option<Seq<char>> {
    let html = capped_dom(fetch::lossy(fetch::capped(stdout, MAX_RENDER_BYTES)));
    if text::trimmed(html).len() == 0 {
        None
    } else {
        Some(html)
    }
}

/// Reads the document that a browser printed.
pub fn read_dump(stdout: &[u8]) -> (r: Option<String>)
    ensures
        r.deep_view() == dumped(stdout@),
        r matches Some(html) ==> text::byte_len(html@) <= MAX_RENDER_BYTES,
{
    let n: usize = if stdout.len() < MAX_RENDER_BYTES {
        stdout.len()
    } else {
        MAX_RENDER_BYTES
    };
    let head = vstd::slice::slice_subrange(stdout, 0, n);
    assert(head@ =~= fetch::capped(stdout@, MAX_RENDER_BYTES));
    let decoded = fetch::from_utf8_lossy(head);
    proof {
        law_dom_is_capped(decoded@);
    }
    keep_unless_blank(cap_dom(decoded))
}

/// Keeps a document that is not blank.
pub fn keep_unless_blank(html: String) -> (r: Option<String>)
    ensures
        r.deep_view() == (if text::trimmed(html@).len() == 0 {
            None
        } else {
            Some(html@)
        }),
{
    if text::is_blank(html.as_str()) {
        None
    } else {
        Some(html)
    }
}

/// Reads the document that a browser handed over its debugging port.
pub fn read_dom(html: String) -> (r: Option<String>)
    ensures
        r.deep_view() == (if text::trimmed(capped_dom(html@)).len() == 0 {
            None
        } else {
            Some(capped_dom(html@))
        }),
        r matches Some(dom) ==> text::byte_len(dom@) <= MAX_RENDER_BYTES,
{
    proof {
        law_dom_is_capped(html@);
    }
    keep_unless_blank(cap_dom(html))
}

// ---------------------------------------------------------------------------------------------
// Laws
// ---------------------------------------------------------------------------------------------

/// The sandbox is on in every way to start the browser, unless the environment switched it off.
pub proof fn law_sandbox_is_on_by_default(
    flag: Option<Seq<char>>,
    url: Seq<char>,
    wait: Span,
    user_dir: Seq<char>,
    i: int,
)
    requires
        !sandbox_off(flag),
        url != "--no-sandbox"@,
    ensures
        0 <= i < dump_args(flag, url, wait).len() ==> dump_args(flag, url, wait)[i]
            != "--no-sandbox"@,
        0 <= i < debug_args(flag, user_dir).len() ==> debug_args(flag, user_dir)[i]
            != "--no-sandbox"@,
{
    reveal_strlit("--no-sandbox");
    reveal_strlit("--headless=new");
    reveal_strlit("--disable-gpu");
    reveal_strlit("--disable-dev-shm-usage");
    reveal_strlit("--virtual-time-budget=");
    reveal_strlit("--dump-dom");
    reveal_strlit("--remote-debugging-port=0");
    reveal_strlit("--user-data-dir=");
    reveal_strlit("about:blank");
    if 0 <= i < dump_args(flag, url, wait).len() {
        assert(dump_args(flag, url, wait)[i].len() >= 3 || i == 5);
        assert(i == 5 || dump_args(flag, url, wait)[i][2] != 'n');
        assert("--no-sandbox"@[2] == 'n');
    }
    if 0 <= i < debug_args(flag, user_dir).len() {
        assert(debug_args(flag, user_dir)[i][2] != 'n');
        assert("--no-sandbox"@[2] == 'n');
    }
}

/// A document within the limit is kept whole, and a cut one takes no more bytes than the limit.
pub proof fn law_dom_is_capped(html: Seq<char>)
    ensures
        text::byte_len(capped_dom(html)) <= MAX_RENDER_BYTES,
        text::byte_len(html) <= MAX_RENDER_BYTES ==> capped_dom(html) == html,
{
    text::lemma_byte_len(html);
    text::lemma_byte_len(capped_dom(html));
    lemma_within(html, MAX_RENDER_BYTES as nat);
    lemma_chars_within(html, MAX_RENDER_BYTES as nat);
    if text::byte_len(html) <= MAX_RENDER_BYTES {
        assert(html.take(html.len() as int) =~= html);
    }
}

proof fn lemma_within(s: Seq<char>, max: nat)
    ensures
        chars_within(s, max) <= s.len(),
        text::width_sum(s.take(chars_within(s, max) as int)) <= max,
        text::width_sum(s) <= max ==> chars_within(s, max) == s.len(),
    decreases s.len(),
{
    if s.len() == 0 {
        assert(s.take(0) =~= s);
    } else if text::char_width(s[0]) > max {
        assert(s.take(0).len() == 0);
    } else {
        let rest = s.drop_first();
        let left = (max - text::char_width(s[0])) as nat;
        lemma_within(rest, left);
        let n = chars_within(rest, left) as int;
        assert(s.take(n + 1).drop_first() =~= rest.take(n));
    }
}

/// A page looks like an app where it carries the mark of one of the known frameworks, or where a
/// second script stands behind a first one, and nowhere else.
pub proof fn law_apps_are_known_by_their_marks(html: Seq<char>)
    ensures
        js_app(html) <==> {
            ||| text::has(html, "__NEXT_DATA__"@)
            ||| text::has(html, "id=\"__next\""@)
            ||| text::has(html, "id=\"root\""@)
            ||| text::has(html, "id=\"app\""@)
            ||| text::has(html, "data-reactroot"@)
            ||| text::has(html, "ng-app"@)
            ||| text::has(html, "<app-root"@)
            ||| text::has(html, "data-server-rendered"@)
            ||| text::has(html, "window.__NUXT__"@)
            ||| exists|i: int, j: int|
                #![trigger text::occurs_at(html, "<script"@, i), text::occurs_at(
                    html,
                    "<script"@,
                    j,
                )]
                i < j && text::occurs_at(html, "<script"@, i) && text::occurs_at(
                    html,
                    "<script"@,
                    j,
                )
        },
{
    let pat = "<script"@;
    reveal_strlit("<script");
    reveal_with_fuel(text::occurrences, 3);
    text::lemma_next_at(html, pat, 0);
    match text::next_at(html, pat, 0) {
        Some(a) => {
            text::lemma_next_at(html, pat, a + 7);
            match text::next_at(html, pat, a + 7) {
                Some(b) => {
                    assert(text::occurs_at(html, pat, a) && text::occurs_at(html, pat, b) && a < b);
                },
                None => {
                    assert forall|i: int, j: int|
                        i < j && text::occurs_at(html, pat, i) && text::occurs_at(
                            html,
                            pat,
                            j,
                        ) implies false by {
                        assert(a <= i);
                        assert(a <= j && j < a + 7);
                        lemma_scripts_apart(html, a, j);
                    }
                },
            }
        },
        None => {},
    }
}

proof fn lemma_scripts_apart(html: Seq<char>, a: int, b: int)
    requires
        a < b,
        text::occurs_at(html, "<script"@, a),
        text::occurs_at(html, "<script"@, b),
    ensures
        a + 7 <= b,
{
    let pat = "<script"@;
    reveal_strlit("<script");
    if b < a + 7 {
        assert(html.subrange(a, a + 7)[b - a] == pat[b - a]);
        assert(html.subrange(b, b + 7)[0] == pat[0]);
        assert(pat[0] == '<');
        assert(forall|k: int| 0 < k < 7 ==> #[trigger] pat[k] != '<');
    }
}

/// What shows of a text is every character that is no white space.
pub proof fn law_white_space_does_not_show(s: Seq<char>)
    ensures
        visible(s) == s.filter(|c: char| !text::is_ws(c)).len(),
    decreases s.len(),
{
    reveal(Seq::filter);
    if s.len() > 0 {
        law_white_space_does_not_show(s.drop_last());
    }
}

/// A flag means yes unless it is blank, a zero, or the word for no in whatever case. The sandbox is
/// switched off by such a flag, and by nothing else.
pub proof fn law_flags_mean_yes_unless_they_say_no(v: Seq<char>)
    ensures
        text::trimmed(v).len() == 0 ==> !truthy(v),
        text::trimmed(v) == seq!['0'] ==> !truthy(v),
        text::lowered(text::trimmed(v)) == seq!['f', 'a', 'l', 's', 'e'] ==> !truthy(v),
        text::trimmed(v).len() > 0 && text::trimmed(v) != seq!['0'] && text::lowered(
            text::trimmed(v),
        ) != seq!['f', 'a', 'l', 's', 'e'] ==> truthy(v),
        sandbox_off(Some(v)) == truthy(v),
        !sandbox_off(None),
{
    reveal_strlit("0");
    reveal_strlit("false");
    assert("0"@ =~= seq!['0']);
    assert(text::lowered("false"@) =~= seq!['f', 'a', 'l', 's', 'e']);
}

/// A browser that prints a document runs headless, gets at least a second, is told to print, and
/// goes to the URL. Without a sandbox it runs only where that was asked for.
pub proof fn law_a_browser_prints_the_page(flag: Option<Seq<char>>, url: Seq<char>, wait: Span)
    ensures
        ({
            let args = dump_args(flag, url, wait);
            let n = args.len();
            let ms = wait.nanos / 1_000_000;
            &&& args[0] == "--headless=new"@
            &&& args[n - 1] == url
            &&& args[n - 2] == "--dump-dom"@
            &&& args[n - 3] == "--virtual-time-budget="@ + text::decimal(
                if ms < 1000 {
                    1000nat
                } else {
                    ms as nat
                },
            )
            &&& sandbox_off(flag) ==> args[n - 4] == "--no-sandbox"@ && n == 7
            &&& !sandbox_off(flag) ==> n == 6
        }),
{
}

/// A browser that is driven runs headless, picks its port itself, keeps its profile where it is
/// told to, and starts with an empty page.
pub proof fn law_a_driven_browser_starts_empty(flag: Option<Seq<char>>, user_dir: Seq<char>)
    ensures
        ({
            let args = debug_args(flag, user_dir);
            let n = args.len();
            &&& args[0] == "--headless=new"@
            &&& args[n - 1] == "about:blank"@
            &&& args[n - 2] == "--user-data-dir="@ + user_dir
            &&& args[n - 3] == "--remote-debugging-port=0"@
            &&& sandbox_off(flag) ==> args[n - 4] == "--no-sandbox"@ && n == 7
            &&& !sandbox_off(flag) ==> n == 6
        }),
{
}

/// The port is the number in the first line of the port file, whatever stands in the others.
pub proof fn law_the_first_line_names_the_port(port: u16, rest: Seq<char>)
    ensures
        port_of(text::decimal(port as nat)) == Some(port),
        port_of(text::decimal(port as nat) + seq!['\n'] + rest) == Some(port),
        port_of(seq![]) is None,
{
    let digits = text::decimal(port as nat);
    text::lemma_decimal(port as nat);
    text::lemma_decimal_value(port as nat);
    text::lemma_digits_trimmed(digits);
    assert forall|i: int| 0 <= i < digits.len() implies #[trigger] digits[i] != '\n' by {
        assert(text::is_digit(digits[i]));
    }
    text::lemma_until_is(digits, '\n', digits.len());
    assert(text::lines_of(digits) =~= seq![digits]);
    let file = digits + seq!['\n'] + rest;
    assert forall|i: int| 0 <= i < digits.len() implies #[trigger] file[i] != '\n' by {
        assert(file[i] == digits[i]);
    }
    assert(file[digits.len() as int] == '\n');
    text::lemma_until_is(file, '\n', digits.len());
    assert(file.take(digits.len() as int) =~= digits);
    assert(text::is_digit(digits[digits.len() - 1]));
    assert(text::without_return(digits) == digits);
    assert(text::lines_of(file)[0] == digits);
}

/// The page is driven at the socket of the first target that is a page.
pub proof fn law_the_first_page_is_driven(targets: Seq<TargetModel>, k: int)
    ensures
        0 <= k < targets.len() && targets[k].kind == Some("page"@) && (forall|j: int|
            0 <= j < k ==> (#[trigger] targets[j]).kind != Some("page"@)) ==> page_socket(targets)
            == targets[k].socket,
        (forall|j: int| 0 <= j < targets.len() ==> (#[trigger] targets[j]).kind != Some("page"@))
            ==> page_socket(targets) is None,
    decreases targets.len(),
{
    if targets.len() > 0 {
        let rest = targets.drop_first();
        law_the_first_page_is_driven(rest, k - 1);
        assert forall|j: int|
            (forall|j: int| 0 <= j < k ==> (#[trigger] targets[j]).kind != Some("page"@)) && 0 <= j
                < k - 1 && j < rest.len() implies (#[trigger] rest[j]).kind != Some("page"@) by {
            assert(rest[j] == targets[j + 1]);
        }
        assert forall|j: int|
            (forall|j: int|
                0 <= j < targets.len() ==> (#[trigger] targets[j]).kind != Some("page"@)) && 0 <= j
                < rest.len() implies (#[trigger] rest[j]).kind != Some("page"@) by {
            assert(rest[j] == targets[j + 1]);
        }
        if k > 0 && k < targets.len() {
            assert(rest[k - 1] == targets[k]);
            assert((forall|j: int|
                0 <= j < k ==> (#[trigger] targets[j]).kind != Some("page"@)) ==> targets[0].kind
                != Some("page"@));
        }
    }
}

/// A rendered document is kept from its start on, and cut only where one more character would
/// exceed 16 MiB.
pub proof fn law_a_document_is_cut_only_where_it_must_be(html: Seq<char>)
    ensures
        ({
            let n = capped_dom(html).len() as int;
            &&& n <= html.len()
            &&& capped_dom(html) == html.take(n)
            &&& text::byte_len(html.take(n)) <= 16 * 1024 * 1024
            &&& n < html.len() ==> text::byte_len(html.take(n + 1)) > 16 * 1024 * 1024
        }),
{
    law_dom_is_capped(html);
    lemma_chars_within(html, MAX_RENDER_BYTES as nat);
    let n = chars_within(html, MAX_RENDER_BYTES as nat) as int;
    if n < html.len() {
        lemma_within_longest(html, MAX_RENDER_BYTES as nat);
        text::lemma_byte_len(html.take(n + 1));
    }
}

proof fn lemma_within_longest(s: Seq<char>, max: nat)
    ensures
        chars_within(s, max) < s.len() ==> text::width_sum(
            s.take(chars_within(s, max) as int + 1),
        ) > max,
    decreases s.len(),
{
    if s.len() > 0 {
        if text::char_width(s[0]) > max {
            let one = s.take(1);
            assert(one.drop_first() =~= seq![]);
            assert(one[0] == s[0]);
        } else {
            let rest = s.drop_first();
            let left = (max - text::char_width(s[0])) as nat;
            lemma_within_longest(rest, left);
            let n = chars_within(rest, left) as int;
            if n < rest.len() {
                assert(s.take(n + 2).drop_first() =~= rest.take(n + 1));
                assert(s.take(n + 2)[0] == s[0]);
            }
        }
    }
}

/// A printed document is what its bytes say, cut where it is too large, and nothing where it is
/// blank.
pub proof fn law_a_blank_document_is_none(stdout: Seq<u8>)
    ensures
        stdout.len() <= 16 * 1024 * 1024 ==> {
            let html = capped_dom(fetch::lossy(stdout));
            &&& text::trimmed(html).len() == 0 ==> dumped(stdout) is None
            &&& text::trimmed(html).len() > 0 ==> dumped(stdout) == Some(html)
        },
        stdout.len() > 16_777_216 ==> dumped(stdout) == dumped(
            stdout.take(16_777_216),
        ),
{
}

/// A browser is looked for in nine usual places: those of Windows first, then those of Linux, and
/// last that of macOS.
pub proof fn law_browsers_are_looked_for_in_usual_places()
    ensures
        usual_browsers().len() == 9,
        usual_browsers()[0] == "C:\\Program Files\\Google\\Chrome\\Application\\chrome.exe"@,
        usual_browsers()[1]
            == "C:\\Program Files (x86)\\Google\\Chrome\\Application\\chrome.exe"@,
        usual_browsers()[2] == "C:\\Program Files\\Chromium\\Application\\chrome.exe"@,
        usual_browsers()[3]
            == "C:\\Program Files (x86)\\Microsoft\\Edge\\Application\\msedge.exe"@,
        usual_browsers()[4] == "C:\\Program Files\\Microsoft\\Edge\\Application\\msedge.exe"@,
        usual_browsers()[5] == "/usr/bin/google-chrome"@,
        usual_browsers()[6] == "/usr/bin/chromium"@,
        usual_browsers()[7] == "/usr/bin/chromium-browser"@,
        usual_browsers()[8] == "/Applications/Google Chrome.app/Contents/MacOS/Google Chrome"@,
{
}

} // verus!
